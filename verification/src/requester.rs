//! The rate-limited request layer: a registry of aliased destinations, each
//! with its own rate limiter, planning of outgoing requests, and the
//! classification of responses (success, server-side rate limiting with a
//! retry time, or a remote error).

use vstd::prelude::*;
use vstd::string::StrSliceExecFns;
use vstd::string::StringExecFns;

use crate::ratelimits::{wait_millis, RateLimiter};
use crate::text::{find_from, matches_at};
use crate::utils::{get_retry_after, scheme_end, scheme_match};

verus! {

/// Failures of the request layer.
#[derive(Debug, PartialEq, Eq)]
pub enum RequesterError {
    /// No host could be read from a base address.
    NoHost,
    /// An alias was registered twice.
    ConflictingAlias,
    /// The transport failed; carries a description.
    Reqwest(String),
    /// The remote answered with a non-success status; carries the body.
    APIError(String),
    /// The remote rate limit could not be respected.
    RateLimited,
    /// The response body could not be decoded; carries the raw body.
    UnexpectedResponse(String),
}

/// Whether a base address yields a host at index `i`: a scheme followed by
/// at least one character before the next slash.
pub open spec fn host_match(s: Seq<char>, i: int) -> bool {
    scheme_match(s, i) && scheme_end(s, i) < s.len() && s[scheme_end(s, i)] != '/'
}

/// The host captured by a match at `i`: everything from the scheme to the
/// next slash or the end.
pub open spec fn host_at(s: Seq<char>, i: int) -> Seq<char> {
    s.subrange(scheme_end(s, i), find_from(s, '/', scheme_end(s, i)))
}

/// Reads the host out of a base address; the pattern is searched anywhere
/// in the string and the leftmost match wins.
fn get_host(url: &str) -> (r: Option<String>)
    ensures
        match r {
            Some(h) => exists|i: int|
                #[trigger] host_match(url@, i) && (forall|j: int|
                    0 <= j < i ==> !host_match(url@, j)) && h@ == host_at(url@, i),
            None => forall|i: int| !host_match(url@, i),
        },
{
    proof {
        reveal_strlit("http");
        reveal_strlit("://");
    }
    let n = url.unicode_len();
    let mut i: usize = 0;
    while i < n
        invariant
            0 <= i <= n,
            n == url@.len(),
            "http"@.len() == 4 && "://"@.len() == 3,
            forall|j: int| 0 <= j < i ==> !host_match(url@, j),
        decreases n - i,
    {
        if crate::text::has_prefix_at(url, i, "http") {
            let e: usize = if crate::text::has_prefix_at(url, i + 4, "://") {
                i + 7
            } else if i + 4 < n && url.get_char(i + 4) == 's' && crate::text::has_prefix_at(
                url,
                i + 5,
                "://",
            ) {
                i + 8
            } else {
                i += 1;
                continue ;
            };
            proof {
                assert(scheme_match(url@, i as int));
                assert(e == scheme_end(url@, i as int));
            }
            if e < n && url.get_char(e) != '/' {
                proof {
                    assert(host_match(url@, i as int));
                }
                let mut j: usize = e;
                while j < n && url.get_char(j) != '/'
                    invariant
                        e <= j <= n,
                        n == url@.len(),
                        find_from(url@, '/', e as int) == find_from(url@, '/', j as int),
                    decreases n - j,
                {
                    j += 1;
                }
                proof {
                    assert(find_from(url@, '/', e as int) == j);
                }
                let h = url.substring_char(e, j);
                return Some(String::from_str(h));
            }
        }
        i += 1;
    }
    None
}

/// A registered destination: its base address, the host that address names,
/// and the destination's own rate limiter.
#[derive(Debug)]
pub struct RequesterSource {
    pub base_url: String,
    pub host: String,
    pub limiter: RateLimiter,
}

impl RequesterSource {
    /// A destination for a base address, rejected when no host can be read
    /// from it; the limiter starts ready at time `now`.
    pub fn new(base_url: &str, timeout: u64, now: u64) -> (r: Result<Self, RequesterError>)
        ensures
            match r {
                Ok(src) => (exists|i: int|
                    #[trigger] host_match(base_url@, i) && (forall|j: int|
                        0 <= j < i ==> !host_match(base_url@, j)) && src.host@ == host_at(
                        base_url@,
                        i,
                    )) && src.base_url@ == base_url@ && src.limiter.timeout == timeout
                    && src.limiter.last_hit == if now >= timeout {
                    (now - timeout) as u64
                } else {
                    0u64
                },
                Err(e) => e == RequesterError::NoHost && forall|i: int| !host_match(base_url@, i),
            },
    {
        match get_host(base_url) {
            Some(host) => Ok(
                RequesterSource {
                    base_url: String::from_str(base_url),
                    host,
                    limiter: RateLimiter::new(timeout, now),
                },
            ),
            None => Err(RequesterError::NoHost),
        }
    }
}

/// Whether two entries of the registry never share an alias.
pub open spec fn src_keys_unique(s: Seq<(String, RequesterSource)>) -> bool {
    forall|p: int, q: int| 0 <= p < q < s.len() ==> s[p].0@ != s[q].0@
}

/// The destination registered under an alias, scanning from the front.
pub open spec fn lookup_src(s: Seq<(String, RequesterSource)>, alias: Seq<char>) -> Option<
    RequesterSource,
>
    decreases s.len(),
{
    if s.len() == 0 {
        None
    } else if s[0].0@ == alias {
        Some(s[0].1)
    } else {
        lookup_src(s.drop_first(), alias)
    }
}

/// What the request layer decides about an outgoing request: how long to
/// wait first, the full address, and the host header to set, if any.
pub struct RequestPlan {
    /// Milliseconds to wait before sending, owed to the local rate limiter.
    pub wait_ms: u64,
    /// The full address: the destination's base address and the path.
    pub url: String,
    /// The host header to send, for a registered destination.
    pub host: Option<String>,
}

/// A registry of aliased destinations, shared by all requests.
pub struct RateLimitedRequester {
    pub sources: Vec<(String, RequesterSource)>,
}

impl RateLimitedRequester {
    /// Whether the registry is well formed: no alias occurs twice.
    pub open spec fn wf(&self) -> bool {
        src_keys_unique(self.sources@)
    }

    /// An empty registry.
    pub fn new() -> (r: Self)
        ensures
            r.wf(),
            r.sources@.len() == 0,
    {
        RateLimitedRequester { sources: Vec::new() }
    }

    /// The default registry: the metadata API under `main`, the
    /// harder-throttled image coordination endpoint under `cdn`, and the
    /// static asset host under `content`, each with its own interval.
    pub fn new_with_defaults(now: u64) -> (r: Self)
        ensures
            r.wf(),
            r.sources@.len() == 3,
            r.sources@[0].0@ == "main"@ && r.sources@[0].1.base_url@
                == "https://api.mangadex.org"@ && r.sources@[0].1.limiter.timeout == 200,
            r.sources@[1].0@ == "cdn"@ && r.sources@[1].1.base_url@
                == "https://api.mangadex.org"@ && r.sources@[1].1.limiter.timeout == 1500,
            r.sources@[2].0@ == "content"@ && r.sources@[2].1.base_url@
                == "https://uploads.mangadex.org"@ && r.sources@[2].1.limiter.timeout == 200,
    {
        proof {
            reveal_strlit("https://api.mangadex.org");
            reveal_strlit("https://uploads.mangadex.org");
            reveal_strlit("main");
            reveal_strlit("cdn");
            reveal_strlit("content");
            lemma_https_host_match("https://api.mangadex.org"@);
            lemma_https_host_match("https://uploads.mangadex.org"@);
        }
        let mut requester = Self::new();
        // These three registrations cannot fail: the addresses name hosts
        // and the aliases are distinct.
        let ghost s0 = requester.sources@;
        match requester.insert_source("main", "https://api.mangadex.org", 200, now) {
            Ok(_) => (),
            Err(_) => {
                proof {
                    assert(false);
                }
            },
        }
        let ghost s1 = requester.sources@;
        proof {
            assert(s1.len() == 1);
            assert(s1[0] == s1.last());
            assert("main"@.len() == 4);
            assert("cdn"@.len() == 3);
            assert(s1[0].0@ == "main"@);
            assert(s1[0].0@ != "cdn"@);
            assert(lookup_src(s1.drop_first(), "cdn"@) is None);
            assert(lookup_src(s1, "cdn"@) is None);
        }
        match requester.insert_source("cdn", "https://api.mangadex.org", 1500, now) {
            Ok(_) => (),
            Err(_) => {
                proof {
                    assert(false);
                }
            },
        }
        let ghost s2 = requester.sources@;
        proof {
            assert(s2[0] == s2.subrange(0, 1)[0]);
            assert(s2[0].0@ == "main"@);
            assert(s2[1] == s2.last());
            assert(s2[1].0@ == "cdn"@);
            assert(s2.drop_first().drop_first() =~= s2.skip(2));
            assert(s2.drop_first()[0] == s2[1]);
            assert(s2.drop_first().len() == 1);
            assert(lookup_src(s2.drop_first().drop_first(), "content"@) is None);
            assert(lookup_src(s2.drop_first(), "content"@) is None);
            assert(lookup_src(s2, "content"@) is None);
        }
        match requester.insert_source("content", "https://uploads.mangadex.org", 200, now) {
            Ok(_) => (),
            Err(_) => {
                proof {
                    assert(false);
                }
            },
        }
        proof {
            let s3 = requester.sources@;
            assert(s3[0] == s3.subrange(0, 2)[0]);
            assert(s3[1] == s3.subrange(0, 2)[1]);
            assert(s2[0] == s2.subrange(0, 1)[0]);
        }
        requester
    }

    /// The position of an alias in the registry.
    fn find_index(&self, alias: &str) -> (r: Option<usize>)
        ensures
            match r {
                Some(i) => i < self.sources@.len() && self.sources@[i as int].0@ == alias@
                    && lookup_src(self.sources@, alias@) == Some(self.sources@[i as int].1),
                None => lookup_src(self.sources@, alias@) is None,
            },
    {
        let n = self.sources.len();
        let mut i: usize = 0;
        proof {
            assert(self.sources@.skip(0) =~= self.sources@);
        }
        while i < n
            invariant
                0 <= i <= n,
                n == self.sources@.len(),
                lookup_src(self.sources@, alias@) == lookup_src(
                    self.sources@.skip(i as int),
                    alias@,
                ),
                forall|j: int| 0 <= j < i ==> self.sources@[j].0@ != alias@,
            decreases n - i,
        {
            proof {
                assert(self.sources@.skip(i as int)[0] == self.sources@[i as int]);
            }
            if crate::text::str_eq(self.sources[i].0.as_str(), alias) {
                return Some(i);
            }
            proof {
                assert(self.sources@.skip(i as int).drop_first() =~= self.sources@.skip(i + 1));
            }
            i += 1;
        }
        proof {
            assert(self.sources@.skip(i as int).len() == 0);
        }
        None
    }

    /// Registers a destination under an alias: refused when the alias is
    /// taken or the base address names no host, otherwise appended.
    pub fn insert_source(&mut self, alias: &str, base_url: &str, timeout: u64, now: u64) -> (r:
        Result<(), RequesterError>)
        requires
            old(self).wf(),
        ensures
            final(self).wf(),
            match r {
                Ok(_) => lookup_src(old(self).sources@, alias@) is None && (exists|i: int|
                    #[trigger] host_match(base_url@, i)) && {
                    let s = final(self).sources@;
                    s.len() == old(self).sources@.len() + 1 && s.subrange(
                        0,
                        old(self).sources@.len() as int,
                    ) == old(self).sources@ && s.last().0@ == alias@ && s.last().1.base_url@
                        == base_url@ && (exists|i: int|
                        #[trigger] host_match(base_url@, i) && (forall|j: int|
                            0 <= j < i ==> !host_match(base_url@, j)) && s.last().1.host@
                            == host_at(base_url@, i)) && s.last().1.limiter.timeout == timeout
                        && s.last().1.limiter.last_hit == if now >= timeout {
                        (now - timeout) as u64
                    } else {
                        0u64
                    }
                },
                Err(RequesterError::ConflictingAlias) => lookup_src(old(self).sources@, alias@)
                    is Some && *final(self) == *old(self),
                Err(RequesterError::NoHost) => lookup_src(old(self).sources@, alias@) is None && (
                forall|i: int| !host_match(base_url@, i)) && *final(self) == *old(self),
                Err(_) => false,
            },
    {
        if self.find_index(alias).is_some() {
            return Err(RequesterError::ConflictingAlias);
        }
        let source = match RequesterSource::new(base_url, timeout, now) {
            Ok(s) => s,
            Err(e) => {
                return Err(e);
            },
        };
        let ghost old_sources = self.sources@;
        self.sources.push((String::from_str(alias), source));
        proof {
            assert(self.sources@.subrange(0, old_sources.len() as int) =~= old_sources);
            assert forall|p: int, q: int|
                0 <= p < q < self.sources@.len() implies self.sources@[p].0@
                != self.sources@[q].0@ by {
                if q == self.sources@.len() - 1 {
                    lemma_lookup_none_means_absent(old_sources, alias@);
                }
            }
        }
        Ok(())
    }

    /// Plans a request at time `now`: for a registered alias the limiter's
    /// wait is returned and a hit is recorded at the moment the wait ends,
    /// the address is the destination's base address followed by the path,
    /// and the destination's host is named; an unregistered alias sends the
    /// bare path with no waiting and no host, as an ad hoc destination.
    pub fn begin_request(&mut self, alias: &str, path: &str, now: u64) -> (r: RequestPlan)
        requires
            old(self).wf(),
            forall|i: int|
                0 <= i < old(self).sources@.len() ==> now >= old(
                    self,
                ).sources@[i].1.limiter.last_hit,
        ensures
            final(self).wf(),
            match lookup_src(old(self).sources@, alias@) {
                None => final(self).sources@ == old(self).sources@ && r.wait_ms == 0 && r.host
                    is None && r.url@ == path@,
                Some(src) => r.wait_ms == wait_millis(src.limiter.last_hit, src.limiter.timeout, now)
                    && r.host is Some && r.host->0@ == src.host@ && r.url@ == src.base_url@ + path@
                    && exists|i: int|
                    0 <= i < old(self).sources@.len() && old(self).sources@[i].0@ == alias@ && {
                        let s = final(self).sources@;
                        let o = old(self).sources@;
                        s.len() == o.len() && (forall|j: int|
                            0 <= j < s.len() && j != i ==> s[j] == o[j]) && s[i].0 == o[i].0
                            && s[i].1.base_url == o[i].1.base_url && s[i].1.host == o[i].1.host
                            && s[i].1.limiter.timeout == o[i].1.limiter.timeout
                            && s[i].1.limiter.last_hit == now + r.wait_ms
                    },
            },
    {
        match self.find_index(alias) {
            Some(i) => {
                let mut entry = self.sources.remove(i);
                let wait = entry.1.limiter.get_timeout(now);
                proof {
                    crate::ratelimits::lemma_wait_fits(
                        entry.1.limiter.last_hit,
                        entry.1.limiter.timeout,
                        now,
                    );
                }
                entry.1.limiter.update(now + wait);
                let mut url = String::from_str(entry.1.base_url.as_str());
                url.append(path);
                let host = Some(entry.1.host.clone());
                let ghost old_sources = old(self).sources@;
                self.sources.insert(i, entry);
                proof {
                    assert(self.sources@.len() == old_sources.len());
                    assert(forall|j: int|
                        0 <= j < self.sources@.len() && j != i ==> self.sources@[j]
                            == old_sources[j]);
                    assert(self.sources@[i as int].0 == old_sources[i as int].0);
                }
                RequestPlan { wait_ms: wait, url, host }
            },
            None => RequestPlan { wait_ms: 0, url: String::from_str(path), host: None },
        }
    }
}

/// What the request layer decides once a response has arrived.
#[derive(Debug, PartialEq, Eq)]
pub enum RequestStep {
    /// The response is a success and is to be used as it stands.
    Proceed,
    /// The server asked for a later retry; wait this many seconds and send
    /// the identical request again.
    Retry { delay_seconds: u64 },
    /// The request failed for good.
    Fail(RequesterError),
}

/// The seconds still to wait at `now` for a retry allowed from `retry` on.
pub open spec fn retry_delay(retry: int, now: int) -> int {
    if retry > now {
        retry - now
    } else {
        0
    }
}

/// Classifies a response at time `now` (Unix seconds): a success status is
/// used as it stands; a server-side rate-limit rejection with a readable
/// retry time asks for one retry after the remaining delay, as long as
/// attempts are left; any other status fails with the response body.
pub fn classify_response(
    status: u16,
    retry_after: Option<&Vec<u8>>,
    body: String,
    now: i64,
    attempts_left: u32,
) -> (r: RequestStep)
    ensures
        200 <= status < 300 ==> r == RequestStep::Proceed,
        !(200 <= status < 300) && status != 429 ==> (r matches RequestStep::Fail(
            RequesterError::APIError(b),
        ) && b@ == body@),
        status == 429 ==> {
            let ra = crate::utils::spec_retry_after(crate::utils::header_view(retry_after));
            if ra is Some && attempts_left > 0 {
                r == (RequestStep::Retry { delay_seconds: retry_delay(ra->0, now as int) as u64 })
            } else {
                r == RequestStep::Fail(RequesterError::RateLimited)
            }
        },
{
    if 200 <= status && status < 300 {
        return RequestStep::Proceed;
    }
    if status == 429 {
        let retry = match get_retry_after(retry_after) {
            Some(t) => t,
            None => {
                return RequestStep::Fail(RequesterError::RateLimited);
            },
        };
        if attempts_left == 0 {
            return RequestStep::Fail(RequesterError::RateLimited);
        }
        let delay: u64 = if retry <= now {
            0
        } else if now >= 0 || retry < 0 {
            (retry - now) as u64
        } else {
            (retry as u64) + (((-(now + 1)) as u64) + 1)
        };
        return RequestStep::Retry { delay_seconds: delay };
    }
    RequestStep::Fail(RequesterError::APIError(body))
}

/// The outcome of a typed request: a decoded value is handed through, a
/// failed decode surfaces the raw body, so that nothing of the response is
/// lost.
pub fn json_outcome<T>(decoded: Option<T>, body: String) -> (r: Result<T, RequesterError>)
    ensures
        decoded is Some ==> r is Ok && r->Ok_0 == decoded->0,
        decoded is None ==> (r matches Err(RequesterError::UnexpectedResponse(b)) && b@ == body@),
{
    match decoded {
        Some(v) => Ok(v),
        None => Err(RequesterError::UnexpectedResponse(body)),
    }
}

/// A string that starts with `https://` followed by a character other than
/// a slash names a host.
proof fn lemma_https_host_match(s: Seq<char>)
    requires
        s.len() >= 9,
        s[0] == 'h' && s[1] == 't' && s[2] == 't' && s[3] == 'p' && s[4] == 's' && s[5] == ':'
            && s[6] == '/' && s[7] == '/',
        s[8] != '/',
    ensures
        host_match(s, 0),
        scheme_end(s, 0) == 8,
{
    reveal_strlit("http");
    reveal_strlit("://");
    assert(s.subrange(0, 4) =~= "http"@);
    assert(matches_at(s, 0, "http"@));
    assert(s.subrange(4, 7)[0] == 's');
    assert(!matches_at(s, 4, "://"@));
    assert(s.subrange(5, 8) =~= "://"@);
    assert(matches_at(s, 5, "://"@));
}

proof fn lemma_lookup_none_means_absent(s: Seq<(String, RequesterSource)>, alias: Seq<char>)
    requires
        lookup_src(s, alias) is None,
    ensures
        forall|j: int| 0 <= j < s.len() ==> s[j].0@ != alias,
    decreases s.len(),
{
    if s.len() > 0 {
        lemma_lookup_none_means_absent(s.drop_first(), alias);
        assert(s[0].0@ != alias);
        assert forall|j: int| 0 <= j < s.len() implies s[j].0@ != alias by {
            if j > 0 {
                assert(s.drop_first()[j - 1] == s[j]);
            }
        }
    }
}

} // verus!
