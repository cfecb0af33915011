//! Verified text utilities: character-level string building, decimal
//! formatting with zero-padding, digit counting, and string comparison.

use vstd::prelude::*;
use vstd::string::StrSliceExecFns;

verus! {

/// Relies on String::push: appends exactly the given character to the end of
/// the string.
#[verifier::external_body]
pub fn push_char(s: &mut String, c: char)
    ensures
        final(s)@ == old(s)@.push(c),
{
    s.push(c);
}

/// Whether two string slices hold the same characters.
pub fn str_eq(a: &str, b: &str) -> (r: bool)
    ensures
        r == (a@ == b@),
{
    let alen = a.unicode_len();
    let blen = b.unicode_len();
    if alen != blen {
        return false;
    }
    let mut i: usize = 0;
    while i < alen
        invariant
            alen == a@.len(),
            alen == b@.len(),
            0 <= i <= alen,
            forall|j: int| 0 <= j < i ==> a@[j] == b@[j],
        decreases alen - i,
    {
        if a.get_char(i) != b.get_char(i) {
            return false;
        }
        i += 1;
    }
    proof {
        assert(a@ =~= b@);
    }
    true
}

/// The decimal digit character for a value below ten.
pub open spec fn digit_char(d: int) -> char {
    if d == 0 {
        '0'
    } else if d == 1 {
        '1'
    } else if d == 2 {
        '2'
    } else if d == 3 {
        '3'
    } else if d == 4 {
        '4'
    } else if d == 5 {
        '5'
    } else if d == 6 {
        '6'
    } else if d == 7 {
        '7'
    } else if d == 8 {
        '8'
    } else {
        '9'
    }
}

/// Whether a character is a decimal digit.
pub open spec fn is_digit_char(c: char) -> bool {
    c == '0' || c == '1' || c == '2' || c == '3' || c == '4' || c == '5' || c == '6' || c == '7'
        || c == '8' || c == '9'
}

/// The numeric value of a decimal digit character.
pub open spec fn digit_value(c: char) -> int {
    if c == '0' {
        0
    } else if c == '1' {
        1
    } else if c == '2' {
        2
    } else if c == '3' {
        3
    } else if c == '4' {
        4
    } else if c == '5' {
        5
    } else if c == '6' {
        6
    } else if c == '7' {
        7
    } else if c == '8' {
        8
    } else {
        9
    }
}

/// The standard decimal rendering of a natural number, without leading
/// zeros (except for zero itself, rendered as a single `'0'`).
pub open spec fn dec_digits(n: nat) -> Seq<char>
    decreases n,
{
    if n < 10 {
        seq![digit_char(n as int)]
    } else {
        dec_digits(n / 10).push(digit_char((n % 10) as int))
    }
}

/// The number of digits in the decimal rendering of a natural number.
pub open spec fn num_digits(n: nat) -> nat
    decreases n,
{
    if n < 10 {
        1
    } else {
        1 + num_digits(n / 10)
    }
}

pub open spec fn pow10(k: nat) -> nat
    decreases k,
{
    if k == 0 {
        1
    } else {
        10 * pow10((k - 1) as nat)
    }
}

proof fn lemma_num_digits_below_pow10(n: nat, k: nat)
    requires
        1 <= k,
        n < pow10(k),
    ensures
        num_digits(n) <= k,
    decreases n,
{
    if n >= 10 {
        assert(pow10(k) == 10 * pow10((k - 1) as nat));
        lemma_num_digits_below_pow10(n / 10, (k - 1) as nat);
    }
}

/// A `u64` never has more than twenty decimal digits.
pub proof fn lemma_num_digits_u64(n: nat)
    requires
        n <= u64::MAX,
    ensures
        num_digits(n) <= 20,
{
    assert(pow10(20) > u64::MAX as nat) by {
        reveal_with_fuel(pow10, 21);
    }
    lemma_num_digits_below_pow10(n, 20);
}

fn digit_to_char(d: u64) -> (c: char)
    requires
        d < 10,
    ensures
        c == digit_char(d as int),
{
    match d {
        0 => '0',
        1 => '1',
        2 => '2',
        3 => '3',
        4 => '4',
        5 => '5',
        6 => '6',
        7 => '7',
        8 => '8',
        _ => '9',
    }
}

/// The decimal rendering of `n`.
pub fn u64_to_string(n: u64) -> (r: String)
    ensures
        r@ == dec_digits(n as nat),
    decreases n,
{
    if n < 10 {
        let mut s = String::new();
        push_char(&mut s, digit_to_char(n));
        proof {
            assert(s@ =~= dec_digits(n as nat));
        }
        s
    } else {
        let mut s = u64_to_string(n / 10);
        push_char(&mut s, digit_to_char(n % 10));
        s
    }
}

/// The number of decimal digits of `n`.
pub fn count_digits(n: u64) -> (r: usize)
    ensures
        r == num_digits(n as nat),
    decreases n,
{
    if n < 10 {
        1
    } else {
        proof {
            lemma_num_digits_u64((n / 10) as nat);
        }
        1 + count_digits(n / 10)
    }
}

/// The decimal rendering of `n`, left-padded with `'0'` to `width`
/// characters; a rendering already at least `width` long is kept whole.
pub open spec fn padded_digits(n: nat, width: nat) -> Seq<char> {
    if dec_digits(n).len() >= width {
        dec_digits(n)
    } else {
        Seq::new((width - dec_digits(n).len()) as nat, |i: int| '0') + dec_digits(n)
    }
}

/// Renders `n` in decimal, zero-padded on the left to `width` characters.
pub fn zero_padded(n: u64, width: usize) -> (r: String)
    ensures
        r@ == padded_digits(n as nat, width as nat),
{
    let digits = u64_to_string(n);
    let dlen = digits.as_str().unicode_len();
    if dlen >= width {
        digits
    } else {
        let mut s = String::new();
        let mut i: usize = 0;
        while i < width - dlen
            invariant
                0 <= i <= width - dlen,
                dlen < width,
                s@ =~= Seq::new(i as nat, |j: int| '0'),
            decreases width - dlen - i,
        {
            push_char(&mut s, '0');
            proof {
                assert(s@ =~= Seq::new((i + 1) as nat, |j: int| '0'));
            }
            i += 1;
        }
        s.append(digits.as_str());
        s
    }
}

/// The index of the first occurrence of `c` in `s` at or after `i`, or
/// `s.len()` if there is none.
pub open spec fn find_from(s: Seq<char>, c: char, i: int) -> int
    decreases s.len() - i when 0 <= i <= s.len()
{
    if i >= s.len() {
        s.len() as int
    } else if s[i] == c {
        i
    } else {
        find_from(s, c, i + 1)
    }
}

/// Whether every character of `s` is a decimal digit.
pub open spec fn all_digits(s: Seq<char>) -> bool {
    forall|i: int| 0 <= i < s.len() ==> is_digit_char(s[i])
}

/// The length of the sign prefix of a numeric literal: one if the first
/// character is `'+'` or `'-'`, zero otherwise.
pub open spec fn sign_len(s: Seq<char>) -> int {
    if s.len() > 0 && (s[0] == '+' || s[0] == '-') {
        1
    } else {
        0
    }
}

/// Whether `s` is a plain decimal literal: an optional sign, then digits
/// with at most one decimal point and at least one digit in total.
pub open spec fn is_plain_decimal(s: Seq<char>) -> bool {
    let t = s.subrange(sign_len(s), s.len() as int);
    let d = find_from(t, '.', 0);
    if d == t.len() {
        t.len() >= 1 && all_digits(t)
    } else {
        t.len() >= 2 && all_digits(t.subrange(0, d)) && all_digits(
            t.subrange(d + 1, t.len() as int),
        )
    }
}

/// Digits with leading zeros removed; a run of zeros only keeps its last.
pub open spec fn strip_leading_zeros(ds: Seq<char>) -> Seq<char>
    decreases ds.len(),
{
    if ds.len() > 1 && ds[0] == '0' {
        strip_leading_zeros(ds.subrange(1, ds.len() as int))
    } else {
        ds
    }
}

/// Digits with trailing zeros removed, possibly leaving nothing.
pub open spec fn strip_trailing_zeros(ds: Seq<char>) -> Seq<char>
    decreases ds.len(),
{
    if ds.len() > 0 && ds.last() == '0' {
        strip_trailing_zeros(ds.drop_last())
    } else {
        ds
    }
}

/// The canonical rendering of a plain decimal literal: a `'-'` sign is kept,
/// a `'+'` sign is dropped, leading zeros leave the integer part (an empty
/// one becomes `'0'`), and trailing zeros leave the fraction, which is
/// dropped entirely when nothing remains of it.
pub open spec fn canonical_decimal(s: Seq<char>) -> Seq<char> {
    let neg = s.len() > 0 && s[0] == '-';
    let t = s.subrange(sign_len(s), s.len() as int);
    let d = find_from(t, '.', 0);
    let ip = t.subrange(0, d);
    let fp = if d == t.len() {
        Seq::<char>::empty()
    } else {
        t.subrange(d + 1, t.len() as int)
    };
    let ci = if ip.len() == 0 {
        seq!['0']
    } else {
        strip_leading_zeros(ip)
    };
    let cf = strip_trailing_zeros(fp);
    (if neg {
        seq!['-']
    } else {
        Seq::<char>::empty()
    }) + ci + (if cf.len() > 0 {
        seq!['.'] + cf
    } else {
        Seq::<char>::empty()
    })
}

proof fn lemma_strip_leading_at(ds: Seq<char>, k: int)
    requires
        0 <= k < ds.len(),
        forall|j: int| 0 <= j < k ==> ds[j] == '0',
        ds[k] != '0',
    ensures
        strip_leading_zeros(ds) == ds.subrange(k, ds.len() as int),
    decreases k,
{
    if k == 0 {
        assert(ds.subrange(0, ds.len() as int) =~= ds);
    } else {
        let tail = ds.subrange(1, ds.len() as int);
        lemma_strip_leading_at(tail, k - 1);
        assert(tail.subrange(k - 1, tail.len() as int) =~= ds.subrange(k, ds.len() as int));
    }
}

proof fn lemma_strip_leading_all_zero(ds: Seq<char>)
    requires
        ds.len() >= 1,
        forall|j: int| 0 <= j < ds.len() ==> ds[j] == '0',
    ensures
        strip_leading_zeros(ds) == seq!['0'],
    decreases ds.len(),
{
    if ds.len() == 1 {
        assert(ds =~= seq!['0']);
    } else {
        lemma_strip_leading_all_zero(ds.subrange(1, ds.len() as int));
    }
}

proof fn lemma_strip_trailing_at(ds: Seq<char>, k: int)
    requires
        0 <= k < ds.len(),
        forall|j: int| k < j < ds.len() ==> ds[j] == '0',
        ds[k] != '0',
    ensures
        strip_trailing_zeros(ds) == ds.subrange(0, k + 1),
    decreases ds.len(),
{
    if k == ds.len() - 1 {
        assert(ds.subrange(0, k + 1) =~= ds);
    } else {
        lemma_strip_trailing_at(ds.drop_last(), k);
        assert(ds.drop_last().subrange(0, k + 1) =~= ds.subrange(0, k + 1));
    }
}

proof fn lemma_strip_trailing_all_zero(ds: Seq<char>)
    requires
        forall|j: int| 0 <= j < ds.len() ==> ds[j] == '0',
    ensures
        strip_trailing_zeros(ds) == Seq::<char>::empty(),
    decreases ds.len(),
{
    if ds.len() > 0 {
        lemma_strip_trailing_all_zero(ds.drop_last());
    } else {
        assert(ds =~= Seq::<char>::empty());
    }
}

/// Renders a plain decimal literal in canonical form, or returns `None` for
/// a label that is not a plain decimal literal.
#[verifier::rlimit(100)]
pub fn normalize_decimal(s: &str) -> (r: Option<String>)
    ensures
        r is Some <==> is_plain_decimal(s@),
        r is Some ==> r->0@ == canonical_decimal(s@),
{
    let n = s.unicode_len();
    let ghost t = s@.subrange(sign_len(s@), s@.len() as int);
    let mut pos: usize = 0;
    let mut neg = false;
    if n > 0 {
        let c0 = s.get_char(0);
        if c0 == '+' {
            pos = 1;
        } else if c0 == '-' {
            pos = 1;
            neg = true;
        }
    }
    proof {
        assert(pos == sign_len(s@));
        assert(t.len() == n - pos);
        assert(forall|j: int| 0 <= j < t.len() ==> t[j] == s@[pos + j]);
    }
    // Find the decimal point, checking that everything before it is a digit.
    let mut dp: usize = pos;
    while dp < n && s.get_char(dp) != '.'
        invariant
            pos <= dp <= n,
            n == s@.len(),
            pos == sign_len(s@),
            t == s@.subrange(sign_len(s@), s@.len() as int),
            find_from(t, '.', 0) == find_from(t, '.', dp - pos),
        decreases n - dp,
    {
        proof {
            assert(t[dp - pos] == s@[dp as int]);
        }
        dp += 1;
    }
    proof {
        if dp < n {
            assert(t[dp - pos] == s@[dp as int]);
        }
        assert(find_from(t, '.', 0) == dp - pos);
    }
    let ghost d = find_from(t, '.', 0);
    // The literal must hold at least one digit in total.
    if dp == pos && (dp == n || dp + 1 == n) {
        return None;
    }
    // Check that the integer part is all digits.
    let mut i: usize = pos;
    while i < dp
        invariant
            pos <= i <= dp <= n,
            n == s@.len(),
            pos == sign_len(s@),
            t == s@.subrange(sign_len(s@), s@.len() as int),
            d == find_from(t, '.', 0),
            d == dp - pos,
            forall|j: int| 0 <= j < i - pos ==> is_digit_char(t[j]),
        decreases dp - i,
    {
        let c = s.get_char(i);
        proof {
            assert(t[i - pos] == s@[i as int]);
        }
        if !(c == '0' || c == '1' || c == '2' || c == '3' || c == '4' || c == '5' || c == '6'
            || c == '7' || c == '8' || c == '9') {
            proof {
                assert(!is_digit_char(t.subrange(0, d)[i - pos]));
            }
            return None;
        }
        i += 1;
    }
    // Check that the fraction part is all digits.
    if dp < n {
        let mut i2: usize = dp + 1;
        while i2 < n
            invariant
                dp + 1 <= i2 <= n,
                n == s@.len(),
                pos == sign_len(s@),
                t == s@.subrange(sign_len(s@), s@.len() as int),
                d == find_from(t, '.', 0),
                d == dp - pos,
                pos <= dp < n,
                forall|j: int| d + 1 <= j < i2 - pos ==> is_digit_char(t[j]),
            decreases n - i2,
        {
            let c = s.get_char(i2);
            proof {
                assert(t[i2 - pos] == s@[i2 as int]);
            }
            if !(c == '0' || c == '1' || c == '2' || c == '3' || c == '4' || c == '5' || c == '6'
                || c == '7' || c == '8' || c == '9') {
                proof {
                    let fp = t.subrange(d + 1, t.len() as int);
                    assert(!is_digit_char(fp[i2 - pos - (d + 1)]));
                }
                return None;
            }
            i2 += 1;
        }
    }
    proof {
        assert(all_digits(t.subrange(0, d)));
        if d < t.len() {
            assert(forall|j: int| d + 1 <= j < t.len() ==> is_digit_char(t[j]));
            assert(all_digits(t.subrange(d + 1, t.len() as int)));
        } else {
            assert(t.subrange(0, d) =~= t);
        }
        assert(is_plain_decimal(s@));
    }
    let ghost ip = t.subrange(0, d);
    let mut out = String::new();
    if neg {
        push_char(&mut out, '-');
    }
    proof {
        assert(out@ =~= if s@.len() > 0 && s@[0] == '-' { seq!['-'] } else { Seq::<char>::empty() });
    }
    // Integer part: skip leading zeros, keeping at least one character.
    if dp == pos {
        push_char(&mut out, '0');
        proof {
            assert(ip.len() == 0);
        }
    } else {
        let mut z: usize = pos;
        while z < dp - 1 && s.get_char(z) == '0'
            invariant
                pos <= z < dp,
                n == s@.len(),
                pos == sign_len(s@),
                t == s@.subrange(sign_len(s@), s@.len() as int),
                d == dp - pos,
                dp <= n,
                d <= t.len(),
                ip == t.subrange(0, d),
                forall|j: int| 0 <= j < z - pos ==> ip[j] == '0',
            decreases dp - z,
        {
            proof {
                assert(ip[z - pos] == s@[z as int]);
            }
            z += 1;
        }
        proof {
            assert(ip[z - pos] == s@[z as int]);
            if s@[z as int] != '0' {
                lemma_strip_leading_at(ip, z - pos);
            } else {
                assert(z == dp - 1);
                assert(forall|j: int| 0 <= j < ip.len() ==> ip[j] == '0');
                lemma_strip_leading_all_zero(ip);
            }
            assert(ip.subrange(z - pos, ip.len() as int) =~= s@.subrange(z as int, dp as int));
        }
        let ipart = s.substring_char(z, dp);
        out.append(ipart);
    }
    // Fraction part: drop trailing zeros, dropping the point if nothing is left.
    let ghost fp = if d == t.len() {
        Seq::<char>::empty()
    } else {
        t.subrange(d + 1, t.len() as int)
    };
    if dp < n {
        let mut w: usize = n;
        while w > dp + 1 && s.get_char(w - 1) == '0'
            invariant
                dp + 1 <= w <= n,
                n == s@.len(),
                pos == sign_len(s@),
                t == s@.subrange(sign_len(s@), s@.len() as int),
                d == dp - pos,
                pos <= dp < n,
                fp == t.subrange(d + 1, t.len() as int),
                forall|j: int| w - dp - 1 <= j < fp.len() ==> fp[j] == '0',
            decreases w,
        {
            proof {
                assert(fp[w - 1 - dp - 1] == s@[w - 1]);
            }
            w -= 1;
        }
        if w > dp + 1 {
            proof {
                assert(fp[w - dp - 2] == s@[w - 1]);
                assert(s@[w - 1] != '0');
                lemma_strip_trailing_at(fp, w - dp - 2);
                assert(fp.subrange(0, w - dp - 1) =~= s@.subrange(dp + 1, w as int));
            }
            push_char(&mut out, '.');
            let fpart = s.substring_char(dp + 1, w);
            out.append(fpart);
        } else {
            proof {
                assert(forall|j: int| 0 <= j < fp.len() ==> fp[j] == '0');
                lemma_strip_trailing_all_zero(fp);
            }
        }
    } else {
        proof {
            lemma_strip_trailing_all_zero(fp);
        }
    }
    proof {
        assert(out@ =~= canonical_decimal(s@));
    }
    Some(out)
}

/// Whether the characters of `pat` occur in `s` starting at index `i`.
pub open spec fn matches_at(s: Seq<char>, i: int, pat: Seq<char>) -> bool {
    0 <= i && i + pat.len() <= s.len() && s.subrange(i, i + pat.len() as int) == pat
}

/// Whether `pat` occurs in `s` starting at index `i`.
pub fn has_prefix_at(s: &str, i: usize, pat: &str) -> (r: bool)
    ensures
        r == matches_at(s@, i as int, pat@),
{
    let sl = s.unicode_len();
    let pl = pat.unicode_len();
    if i > sl || pl > sl - i {
        return false;
    }
    let mut j: usize = 0;
    while j < pl
        invariant
            0 <= j <= pl,
            sl == s@.len(),
            pl == pat@.len(),
            i + pl <= sl,
            forall|k: int| 0 <= k < j ==> s@[i + k] == pat@[k],
        decreases pl - j,
    {
        if s.get_char(i + j) != pat.get_char(j) {
            proof {
                assert(s@.subrange(i as int, i + pat@.len() as int)[j as int] != pat@[j as int]);
            }
            return false;
        }
        j += 1;
    }
    proof {
        assert(s@.subrange(i as int, i + pat@.len() as int) =~= pat@);
    }
    true
}

/// Whether a character is a hexadecimal digit.
pub open spec fn is_hex_char(c: char) -> bool {
    is_digit_char(c) || c == 'a' || c == 'b' || c == 'c' || c == 'd' || c == 'e' || c == 'f'
        || c == 'A' || c == 'B' || c == 'C' || c == 'D' || c == 'E' || c == 'F'
}

/// The numeric value of a hexadecimal digit character.
pub open spec fn hex_value(c: char) -> int {
    if is_digit_char(c) {
        digit_value(c)
    } else if c == 'a' || c == 'A' {
        10
    } else if c == 'b' || c == 'B' {
        11
    } else if c == 'c' || c == 'C' {
        12
    } else if c == 'd' || c == 'D' {
        13
    } else if c == 'e' || c == 'E' {
        14
    } else {
        15
    }
}

/// Whether a character is a hexadecimal digit, with its value.
pub fn hex_digit(c: char) -> (r: Option<u8>)
    ensures
        r is Some <==> is_hex_char(c),
        r is Some ==> r->0 == hex_value(c),
{
    match c {
        '0' => Some(0),
        '1' => Some(1),
        '2' => Some(2),
        '3' => Some(3),
        '4' => Some(4),
        '5' => Some(5),
        '6' => Some(6),
        '7' => Some(7),
        '8' => Some(8),
        '9' => Some(9),
        'a' | 'A' => Some(10),
        'b' | 'B' => Some(11),
        'c' | 'C' => Some(12),
        'd' | 'D' => Some(13),
        'e' | 'E' => Some(14),
        'f' | 'F' => Some(15),
        _ => None,
    }
}

/// The numeric value of a sequence of decimal digit characters.
pub open spec fn dec_seq_value(ds: Seq<char>) -> int
    decreases ds.len(),
{
    if ds.len() == 0 {
        0
    } else {
        dec_seq_value(ds.drop_last()) * 10 + digit_value(ds.last())
    }
}

/// Whether `s` is a decimal integer literal: an optional sign, then at
/// least one digit.
pub open spec fn is_int_literal(s: Seq<char>) -> bool {
    let t = s.subrange(sign_len(s), s.len() as int);
    t.len() >= 1 && all_digits(t)
}

/// The value of a decimal integer literal.
pub open spec fn int_literal_value(s: Seq<char>) -> int {
    let t = s.subrange(sign_len(s), s.len() as int);
    if s.len() > 0 && s[0] == '-' {
        -dec_seq_value(t)
    } else {
        dec_seq_value(t)
    }
}

proof fn lemma_dec_seq_value_nonneg(ds: Seq<char>)
    requires
        all_digits(ds),
    ensures
        dec_seq_value(ds) >= 0,
    decreases ds.len(),
{
    if ds.len() > 0 {
        assert(all_digits(ds.drop_last()));
        lemma_dec_seq_value_nonneg(ds.drop_last());
    }
}

proof fn lemma_dec_seq_value_prefix_le(ds: Seq<char>, j: int, k: int)
    requires
        all_digits(ds),
        0 <= j <= k <= ds.len(),
    ensures
        dec_seq_value(ds.subrange(0, j)) <= dec_seq_value(ds.subrange(0, k)),
    decreases k - j,
{
    if j < k {
        lemma_dec_seq_value_prefix_le(ds, j, k - 1);
        let p = ds.subrange(0, k);
        assert(p.drop_last() =~= ds.subrange(0, k - 1));
        assert(all_digits(ds.subrange(0, k - 1)));
        lemma_dec_seq_value_nonneg(ds.subrange(0, k - 1));
    }
}

/// Parses a decimal integer literal into an `i64`, as
/// `i64::from_str_radix` with radix ten does: an optional single sign, then
/// one or more digits, and the value must be representable.
#[verifier::rlimit(30)]
pub fn parse_i64(s: &str) -> (r: Option<i64>)
    ensures
        r is Some <==> (is_int_literal(s@) && i64::MIN <= int_literal_value(s@)
            <= i64::MAX),
        r is Some ==> r->0 == int_literal_value(s@),
{
    let n = s.unicode_len();
    let mut pos: usize = 0;
    let mut neg = false;
    if n > 0 {
        let c0 = s.get_char(0);
        if c0 == '+' {
            pos = 1;
        } else if c0 == '-' {
            pos = 1;
            neg = true;
        }
    }
    let ghost t = s@.subrange(sign_len(s@), s@.len() as int);
    proof {
        assert(pos == sign_len(s@));
        assert(forall|j: int| 0 <= j < t.len() ==> t[j] == s@[pos + j]);
    }
    if pos == n {
        return None;
    }
    let mut mag: u64 = 0;
    let mut i: usize = pos;
    while i < n
        invariant
            pos <= i <= n,
            n == s@.len(),
            pos == sign_len(s@),
            pos < n,
            t == s@.subrange(sign_len(s@), s@.len() as int),
            forall|j: int| 0 <= j < i - pos ==> is_digit_char(t[j]),
            mag == dec_seq_value(t.subrange(0, i - pos)),
        decreases n - i,
    {
        let c = s.get_char(i);
        proof {
            assert(t[i - pos] == s@[i as int]);
        }
        let d: u64 = match c {
            '0' => 0,
            '1' => 1,
            '2' => 2,
            '3' => 3,
            '4' => 4,
            '5' => 5,
            '6' => 6,
            '7' => 7,
            '8' => 8,
            '9' => 9,
            _ => {
                proof {
                    assert(!is_digit_char(t[i - pos]));
                }
                return None;
            },
        };
        proof {
            assert(is_digit_char(t[i - pos]) && digit_value(t[i - pos]) == d);
        }
        let step = match mag.checked_mul(10) {
            Some(m) => m.checked_add(d),
            None => None,
        };
        match step {
            Some(m) => {
                proof {
                    let p = t.subrange(0, i - pos + 1);
                    assert(p.drop_last() =~= t.subrange(0, i - pos));
                    assert(all_digits(p));
                }
                mag = m;
            },
            None => {
                // The magnitude of the prefix already exceeds `u64`, so the
                // value of the whole literal cannot be an `i64`.
                proof {
                    let p = t.subrange(0, i - pos + 1);
                    assert(p.drop_last() =~= t.subrange(0, i - pos));
                    assert(dec_seq_value(p) > u64::MAX);
                    if all_digits(t) {
                        lemma_dec_seq_value_prefix_le(t, i - pos + 1, t.len() as int);
                        assert(t.subrange(0, t.len() as int) =~= t);
                        assert(dec_seq_value(t) > u64::MAX);
                    }
                }
                return None;
            },
        }
        i += 1;
    }
    proof {
        assert(t.subrange(0, t.len() as int) =~= t);
        assert(all_digits(t));
        assert(mag == dec_seq_value(t));
    }
    if neg {
        if mag < 0x8000_0000_0000_0000 {
            Some(-(mag as i64))
        } else if mag == 0x8000_0000_0000_0000 {
            Some(i64::MIN)
        } else {
            None
        }
    } else {
        if mag <= 0x7FFF_FFFF_FFFF_FFFF {
            Some(mag as i64)
        } else {
            None
        }
    }
}

} // verus!
