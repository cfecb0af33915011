//! Helpers shared across the client: path-segment sanitization, extraction
//! of a title identifier from a catalog URL, and parsing of the
//! server-supplied retry-after header.

use vstd::prelude::*;
use vstd::string::StrSliceExecFns;
use vstd::string::StringExecFns;

use crate::text::{
    has_prefix_at, is_hex_char, is_int_literal, int_literal_value, matches_at, parse_i64,
};

verus! {

/// Whether a character is reserved in path segments and must be removed.
pub open spec fn is_reserved_char(c: char) -> bool {
    c == '\\' || c == '/' || c == ':' || c == '|' || c == '&' || c == '<' || c == '>'
}

/// `s` with every reserved character removed.
pub open spec fn strip_reserved(s: Seq<char>) -> Seq<char>
    decreases s.len(),
{
    if s.len() == 0 {
        Seq::<char>::empty()
    } else {
        strip_reserved(s.drop_last()) + (if is_reserved_char(s.last()) {
            Seq::<char>::empty()
        } else {
            seq![s.last()]
        })
    }
}

/// A sanitized path segment never holds a reserved character, so in
/// particular it can never name a nested directory.
pub proof fn lemma_strip_reserved_clean(s: Seq<char>)
    ensures
        forall|i: int|
            0 <= i < strip_reserved(s).len() ==> !is_reserved_char(strip_reserved(s)[i]),
    decreases s.len(),
{
    if s.len() > 0 {
        lemma_strip_reserved_clean(s.drop_last());
        let a = strip_reserved(s.drop_last());
        assert forall|i: int|
            0 <= i < strip_reserved(s).len() implies !is_reserved_char(
            strip_reserved(s)[i],
        ) by {
            if i < a.len() {
                assert(strip_reserved(s)[i] == a[i]);
            } else {
                assert(strip_reserved(s)[i] == s.last());
            }
        }
    }
}

fn reserved(c: char) -> (r: bool)
    ensures
        r == is_reserved_char(c),
{
    c == '\\' || c == '/' || c == ':' || c == '|' || c == '&' || c == '<' || c == '>'
}

/// Removes the characters reserved by common filesystems from a label, so
/// that it can be used as a single path segment.
pub fn escape_path(path: &str) -> (r: String)
    ensures
        r@ == strip_reserved(path@),
{
    let n = path.unicode_len();
    let mut out = String::new();
    let mut i: usize = 0;
    while i < n
        invariant
            0 <= i <= n,
            n == path@.len(),
            out@ == strip_reserved(path@.subrange(0, i as int)),
        decreases n - i,
    {
        let c = path.get_char(i);
        proof {
            let p = path@.subrange(0, i + 1);
            assert(p.drop_last() =~= path@.subrange(0, i as int));
            assert(p.last() == path@[i as int]);
        }
        if !reserved(c) {
            crate::text::push_char(&mut out, c);
        }
        proof {
            assert(out@ =~= strip_reserved(path@.subrange(0, i + 1)));
        }
        i += 1;
    }
    proof {
        assert(path@.subrange(0, n as int) =~= path@);
    }
    out
}

/// Whether the scheme part of a URL pattern matches at index `i`: the
/// literal `http`, an optional `s`, then `://`.
pub open spec fn scheme_match(s: Seq<char>, i: int) -> bool {
    matches_at(s, i, "http"@) && (matches_at(s, i + 4, "://"@) || (i + 4 < s.len() && s[i + 4]
        == 's' && matches_at(s, i + 5, "://"@)))
}

/// The index just past a scheme that matches at `i`.
pub open spec fn scheme_end(s: Seq<char>, i: int) -> int {
    if matches_at(s, i + 4, "://"@) {
        i + 7
    } else {
        i + 8
    }
}

/// Whether the whole title-URL pattern matches at index `i`: a scheme, the
/// catalog host, the title segment, and at least one hexadecimal character
/// of the identifier.
pub open spec fn title_url_match(s: Seq<char>, i: int) -> bool {
    scheme_match(s, i) && matches_at(s, scheme_end(s, i), "mangadex.org/title/"@) && {
        let p = scheme_end(s, i) + 19;
        p < s.len() && is_hex_char(s[p])
    }
}

/// The end of an identifier run starting at `j`: hexadecimal characters
/// and single dashes, stopping at a second consecutive dash or any other
/// character.
pub open spec fn id_run_end(s: Seq<char>, j: int, prev_dash: bool) -> int
    decreases s.len() - j when 0 <= j <= s.len()
{
    if j >= s.len() {
        j
    } else if is_hex_char(s[j]) {
        id_run_end(s, j + 1, false)
    } else if s[j] == '-' && !prev_dash {
        id_run_end(s, j + 1, true)
    } else {
        j
    }
}

/// The identifier captured by a title-URL match at `i`.
pub open spec fn title_id_at(s: Seq<char>, i: int) -> Seq<char> {
    let p = scheme_end(s, i) + 19;
    s.subrange(p, id_run_end(s, p, false))
}

/// Extracts the hexadecimal title identifier from a catalog URL: the
/// pattern is searched anywhere in the string and the leftmost match wins.
pub fn get_id(url: &str) -> (r: Option<String>)
    ensures
        match r {
            Some(id) => exists|i: int|
                #[trigger] title_url_match(url@, i) && (forall|j: int|
                    0 <= j < i ==> !title_url_match(url@, j)) && id@ == title_id_at(url@, i),
            None => forall|i: int| !title_url_match(url@, i),
        },
{
    proof {
        reveal_strlit("http");
        reveal_strlit("://");
        reveal_strlit("mangadex.org/title/");
    }
    let n = url.unicode_len();
    let mut i: usize = 0;
    while i < n
        invariant
            0 <= i <= n,
            n == url@.len(),
            "http"@.len() == 4 && "://"@.len() == 3 && "mangadex.org/title/"@.len() == 19,
            forall|j: int| 0 <= j < i ==> !title_url_match(url@, j),
        decreases n - i,
    {
        if has_prefix_at(url, i, "http") {
            let e: usize = if has_prefix_at(url, i + 4, "://") {
                i + 7
            } else if i + 4 < n && url.get_char(i + 4) == 's' && has_prefix_at(url, i + 5, "://") {
                i + 8
            } else {
                i += 1;
                continue ;
            };
            proof {
                assert(scheme_match(url@, i as int));
                assert(e == scheme_end(url@, i as int));
            }
            if has_prefix_at(url, e, "mangadex.org/title/") {
                let p = e + 19;
                if p < n && crate::text::hex_digit(url.get_char(p)).is_some() {
                    proof {
                        assert(title_url_match(url@, i as int));
                    }
                    // Scan the identifier run.
                    let mut j: usize = p;
                    let mut prev_dash = false;
                    let mut done = false;
                    while j < n && !done
                        invariant
                            p <= j <= n,
                            n == url@.len(),
                            done ==> id_run_end(url@, p as int, false) == j,
                            !done ==> id_run_end(url@, p as int, false) == id_run_end(
                                url@,
                                j as int,
                                prev_dash,
                            ),
                        decreases n - j, (if done { 0int } else { 1int }),
                    {
                        let c = url.get_char(j);
                        if crate::text::hex_digit(c).is_some() {
                            prev_dash = false;
                            j += 1;
                        } else if c == '-' && !prev_dash {
                            prev_dash = true;
                            j += 1;
                        } else {
                            done = true;
                        }
                    }
                    proof {
                        assert(id_run_end(url@, p as int, false) == j);
                    }
                    let id = url.substring_char(p, j);
                    return Some(String::from_str(id));
                }
            }
        }
        i += 1;
    }
    None
}

/// The characters of a header value, read byte for byte.
pub open spec fn header_chars(bs: Seq<u8>) -> Seq<char> {
    Seq::new(bs.len(), |i: int| bs[i] as char)
}

/// Whether a header value holds only visible ASCII bytes (and spaces), the
/// condition under which it can be read as text.
pub open spec fn is_visible_ascii(bs: Seq<u8>) -> bool {
    forall|i: int| 0 <= i < bs.len() ==> 32 <= #[trigger] bs[i] < 127
}

/// Reads a header value as text, byte for byte; refused when any byte
/// falls outside the visible ASCII range.
pub fn read_header_text(bs: &Vec<u8>) -> (r: Option<String>)
    ensures
        r is Some <==> is_visible_ascii(bs@),
        r is Some ==> r->0@ == header_chars(bs@),
{
    let mut s = String::new();
    let mut i: usize = 0;
    let n = bs.len();
    while i < n
        invariant
            0 <= i <= n,
            n == bs@.len(),
            forall|j: int| 0 <= j < i ==> 32 <= #[trigger] bs@[j] < 127,
            s@ =~= header_chars(bs@).subrange(0, i as int),
        decreases n - i,
    {
        let b = bs[i];
        if b < 32 || b >= 127 {
            proof {
                assert(!(32 <= bs@[i as int] < 127));
            }
            return None;
        }
        crate::text::push_char(&mut s, b as char);
        proof {
            assert(s@ =~= header_chars(bs@).subrange(0, i + 1));
        }
        i += 1;
    }
    proof {
        assert(s@ =~= header_chars(bs@));
    }
    Some(s)
}

/// The retry time a header value declares: present exactly when the bytes
/// are readable as text and spell a decimal integer an `i64` can hold.
pub open spec fn spec_retry_after(header: Option<Seq<u8>>) -> Option<int> {
    match header {
        None => None,
        Some(bs) => if is_visible_ascii(bs) && is_int_literal(header_chars(bs)) && i64::MIN
            <= int_literal_value(header_chars(bs)) <= i64::MAX {
            Some(int_literal_value(header_chars(bs)))
        } else {
            None
        },
    }
}

/// The byte sequence a header value holds, if one was present.
pub open spec fn header_view(header: Option<&Vec<u8>>) -> Option<Seq<u8>> {
    match header {
        None => None,
        Some(bs) => Some(bs@),
    }
}

/// The Unix timestamp after which the server allows a retry, read from the
/// rate-limit header: the header must be present, readable as text, and a
/// decimal integer.
pub fn get_retry_after(header: Option<&Vec<u8>>) -> (r: Option<i64>)
    ensures
        r is Some <==> spec_retry_after(header_view(header)) is Some,
        r is Some ==> r->0 == spec_retry_after(header_view(header))->0,
{
    match header {
        None => None,
        Some(bs) => match read_header_text(bs) {
            Some(s) => parse_i64(s.as_str()),
            None => None,
        },
    }
}

} // verus!
