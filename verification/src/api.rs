//! Driving the paginated listing endpoints: offset bookkeeping from page to
//! page, the exact number of requests a full fetch issues, and the request
//! paths of the catalog API.

use vstd::arithmetic::div_mod::{lemma_basic_div, lemma_div_plus_one};
use vstd::prelude::*;
use vstd::string::StringExecFns;

use crate::text::{dec_digits, u64_to_string};

verus! {

/// Saturating addition on `u64`.
pub open spec fn sat_add_u64(a: u64, b: u64) -> u64 {
    if a + b > u64::MAX {
        u64::MAX
    } else {
        (a + b) as u64
    }
}

/// The number of further requests a fetch makes when the offsets `next`,
/// `next + limit`, `next + 2 * limit`, ... are requested as long as they
/// stay below `total`.
pub open spec fn pages_from(next: int, total: int, limit: int) -> nat
    decreases (if total - next >= 0 { total - next } else { 0 }) when limit >= 1
{
    if next >= total {
        0nat
    } else {
        1nat + pages_from(next + limit, total, limit)
    }
}

proof fn lemma_pages_from_ceil(next: int, total: int, limit: int)
    requires
        limit >= 1,
    ensures
        next >= total ==> pages_from(next, total, limit) == 0,
        next < total ==> pages_from(next, total, limit) == (total - next + limit - 1) / limit,
    decreases (if total - next >= 0 { total - next } else { 0 }),
{
    if next < total {
        let a = total - next;
        assert(pages_from(next, total, limit) == 1 + pages_from(next + limit, total, limit));
        if next + limit < total {
            lemma_pages_from_ceil(next + limit, total, limit);
            assert(pages_from(next + limit, total, limit) == (a - 1) / limit);
            lemma_div_plus_one(a - 1, limit);
            assert(1 + (a - 1) / limit == (limit + (a - 1)) / limit);
            assert(limit + (a - 1) == total - next + limit - 1);
        } else {
            assert(pages_from(next + limit, total, limit) == 0);
            lemma_basic_div(a - 1, limit);
            assert((a - 1) / limit == 0);
            lemma_div_plus_one(a - 1, limit);
            assert(1 + (a - 1) / limit == (limit + (a - 1)) / limit);
        }
    }
}

/// A fetch that requests the first page at offset zero and then every
/// offset `limit`, `2 * limit`, ... below `total` issues exactly the
/// ceiling of `total / limit` requests.
pub proof fn lemma_fetch_request_count(total: int, limit: int)
    requires
        1 <= limit,
        1 <= total,
    ensures
        1 + pages_from(limit, total, limit) == (total + limit - 1) / limit,
{
    lemma_pages_from_ceil(limit, total, limit);
    if limit < total {
        lemma_div_plus_one(total - 1, limit);
    } else {
        lemma_basic_div(total - 1, limit);
        lemma_div_plus_one(total - 1, limit);
    }
}

/// Offset bookkeeping for one paginated listing fetch.
pub struct Paginator {
    /// The offset the next request would ask for.
    pub next_offset: u64,
    /// The item total the server reported.
    pub total: u64,
    /// Requests made so far, the first page included.
    pub requests: u64,
}

impl Paginator {
    /// The bookkeeping right after the first page arrived: one request has
    /// been made and the next page starts where this one ended.
    pub fn from_first_page(offset: u64, limit: u64, total: u64) -> (r: Self)
        ensures
            r.next_offset == sat_add_u64(offset, limit),
            r.total == total,
            r.requests == 1,
    {
        Paginator { next_offset: offset.saturating_add(limit), total, requests: 1 }
    }

    /// Whether another page must still be fetched: fetching stops once
    /// `offset + limit` has reached the reported total.
    pub fn has_more(&self) -> (r: bool)
        ensures
            r == (self.next_offset < self.total),
    {
        self.next_offset < self.total
    }

    /// Records one more fetched page, advancing the offset by the page's
    /// limit.
    pub fn record_page(&mut self, limit: u64)
        requires
            old(self).next_offset < old(self).total,
        ensures
            final(self).total == old(self).total,
            final(self).requests == sat_add_u64(old(self).requests, 1),
            final(self).next_offset == sat_add_u64(old(self).next_offset, limit),
    {
        self.requests = self.requests.saturating_add(1);
        self.next_offset = self.next_offset.saturating_add(limit);
    }
}

/// The path of a work's record.
pub fn manga_path(id: &str) -> (r: String)
    ensures
        r@ == "/manga/"@ + id@,
{
    let mut s = String::from_str("/manga/");
    s.append(id);
    s
}

/// The path of one page of a work's chapter listing, with the related
/// attribution-group records requested inline.
pub fn feed_path(id: &str, offset: u64) -> (r: String)
    ensures
        r@ == "/manga/"@ + id@ + "/feed?offset="@ + dec_digits(offset as nat)
            + "&includes[]=scanlation_group"@,
{
    let mut s = String::from_str("/manga/");
    s.append(id);
    s.append("/feed?offset=");
    let o = u64_to_string(offset);
    s.append(o.as_str());
    s.append("&includes[]=scanlation_group");
    proof {
        assert(s@ =~= "/manga/"@ + id@ + "/feed?offset="@ + dec_digits(offset as nat)
            + "&includes[]=scanlation_group"@);
    }
    s
}

/// The path under which a chapter's image batch is coordinated.
pub fn at_home_path(id: &str) -> (r: String)
    ensures
        r@ == "/at-home/server/"@ + id@,
{
    let mut s = String::from_str("/at-home/server/");
    s.append(id);
    s
}

/// The path of a cover file on the static asset host.
pub fn covers_path(url: &str) -> (r: String)
    ensures
        r@ == "/covers/"@ + url@,
{
    let mut s = String::from_str("/covers/");
    s.append(url);
    s
}

/// The path of one page of a work's cover listing.
pub fn cover_list_path(id: &str, offset: u64) -> (r: String)
    ensures
        r@ == "/cover?manga[]="@ + id@ + "&offset="@ + dec_digits(offset as nat),
{
    let mut s = String::from_str("/cover?manga[]=");
    s.append(id);
    s.append("&offset=");
    let o = u64_to_string(offset);
    s.append(o.as_str());
    proof {
        assert(s@ =~= "/cover?manga[]="@ + id@ + "&offset="@ + dec_digits(offset as nat));
    }
    s
}

} // verus!
