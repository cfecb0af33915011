//! Chapter metadata: conversion from raw listing records, the running
//! aggregate over pages (attribution-group counts and the dominant group),
//! and the per-chapter download bookkeeping.

use vstd::prelude::*;
use vstd::string::StringExecFns;

use crate::image::{hex_run_at, image_from, sha256_of, Image};
use crate::mime::{extension_for, extension_of};
use crate::requester::RequesterError;
use crate::text::{
    canonical_decimal, count_digits, is_plain_decimal, normalize_decimal, num_digits,
    padded_digits, str_eq, zero_padded,
};
use crate::types::{ChapterData, ChapterImageResponse, RawChapterRelationship};
use crate::utils::{escape_path, header_chars, is_visible_ascii, strip_reserved};

verus! {

/// Failures while building a chapter's download data.
#[derive(Debug, PartialEq, Eq)]
pub enum ChapterError {
    /// The response body could not be decoded; carries a description.
    Decode(String),
    Requester(RequesterError),
    /// No content hash could be found in an image's filename.
    HashNotFound,
}

/// Failures while downloading one image.
#[derive(Debug, PartialEq, Eq)]
pub enum ImageDownloadError {
    Requester(RequesterError),
    /// The response body could not be read; carries a description.
    Decode(String),
    /// The response declared no content type.
    NoContentType,
    /// The content-type header could not be read as text.
    IllegibleMime,
    /// The content type maps to no known file extension.
    Mime,
    /// Writing the image failed; carries a description.
    IO(String),
    /// The downloaded payload does not match the declared content hash.
    HashMismatch,
}

/// The mathematical shape of one chapter's metadata.
pub struct ChapterMetaView {
    pub id: Seq<char>,
    pub volume: Seq<char>,
    pub chapter: Seq<char>,
    pub language: Seq<char>,
    pub group: Seq<char>,
}

/// The metadata of one published chapter, as selected from a raw listing
/// record.
pub struct ChapterMetadata {
    pub id: String,
    pub volume: String,
    pub chapter: String,
    pub language: String,
    pub group: String,
}

impl View for ChapterMetadata {
    type V = ChapterMetaView;

    open spec fn view(&self) -> ChapterMetaView {
        ChapterMetaView {
            id: self.id@,
            volume: self.volume@,
            chapter: self.chapter@,
            language: self.language@,
            group: self.group@,
        }
    }
}

impl Clone for ChapterMetadata {
    fn clone(&self) -> (r: Self)
        ensures
            r@ == self@,
    {
        ChapterMetadata {
            id: self.id.clone(),
            volume: self.volume.clone(),
            chapter: self.chapter.clone(),
            language: self.language.clone(),
            group: self.group.clone(),
        }
    }
}

/// Whether a relationship record attributes the chapter to a named group.
pub open spec fn is_group_rel(r: RawChapterRelationship) -> bool {
    r.id@ == "scanlation_group"@ && r.attributes is Some && r.attributes->0.name is Some
}

/// The attribution group of a chapter: the name on the first relationship
/// record that carries one, or nothing.
pub open spec fn group_of(rels: Seq<RawChapterRelationship>) -> Seq<char>
    decreases rels.len(),
{
    if rels.len() == 0 {
        Seq::<char>::empty()
    } else if is_group_rel(rels[0]) {
        rels[0].attributes->0.name->0@
    } else {
        group_of(rels.drop_first())
    }
}

/// The metadata selected from a raw listing record: absent volume and
/// chapter labels become empty, the group comes from the relationships.
pub open spec fn meta_view_of(raw: ChapterData) -> ChapterMetaView {
    ChapterMetaView {
        id: raw.id@,
        volume: if raw.attributes.volume is Some {
            raw.attributes.volume->0@
        } else {
            Seq::<char>::empty()
        },
        chapter: if raw.attributes.chapter is Some {
            raw.attributes.chapter->0@
        } else {
            Seq::<char>::empty()
        },
        language: raw.attributes.language->0@,
        group: group_of(raw.relationships@),
    }
}

impl ChapterMetadata {
    /// Converts a raw listing record, keeping it only when it declares a
    /// language.
    pub fn from_chapter_data(raw: ChapterData) -> (r: Option<Self>)
        ensures
            r is Some <==> raw.attributes.language is Some,
            r is Some ==> r->0@ == meta_view_of(raw),
    {
        let language = match raw.attributes.language {
            Some(l) => l,
            None => {
                return None;
            },
        };
        let volume = match raw.attributes.volume {
            Some(v) => v,
            None => String::new(),
        };
        let chapter = match raw.attributes.chapter {
            Some(c) => c,
            None => String::new(),
        };
        let rels = raw.relationships;
        let ghost rels0 = rels@;
        let mut group = String::new();
        let mut i: usize = 0;
        let n = rels.len();
        let mut found = false;
        proof {
            assert(rels0.skip(0) =~= rels0);
        }
        while i < n && !found
            invariant
                0 <= i <= n,
                n == rels0.len(),
                rels@ == rels0,
                found ==> group@ == group_of(rels0),
                !found ==> group@ == Seq::<char>::empty() && group_of(rels0) == group_of(
                    rels0.skip(i as int),
                ),
            decreases n - i, (if found { 0int } else { 1int }),
        {
            let rel = &rels[i];
            proof {
                assert(rels0.skip(i as int)[0] == rels0[i as int]);
            }
            if str_eq(rel.id.as_str(), "scanlation_group") {
                match &rel.attributes {
                    Some(attrs) => match &attrs.name {
                        Some(name) => {
                            group = name.clone();
                            found = true;
                        },
                        None => (),
                    },
                    None => (),
                }
            }
            if !found {
                proof {
                    assert(!is_group_rel(rels0[i as int]));
                    assert(rels0.skip(i as int).drop_first() =~= rels0.skip(i + 1));
                }
                i += 1;
            }
        }
        proof {
            if !found {
                assert(rels0.skip(i as int).len() == 0);
            }
        }
        Some(ChapterMetadata { id: raw.id, volume, chapter, language, group })
    }
}

/// The views of a sequence of chapter records.
pub open spec fn metas_view(s: Seq<ChapterMetadata>) -> Seq<ChapterMetaView> {
    s.map_values(|c: ChapterMetadata| c@)
}

/// The attribution groups of a sequence of chapters, in order.
pub open spec fn groups_of(ms: Seq<ChapterMetaView>) -> Seq<Seq<char>> {
    ms.map_values(|m: ChapterMetaView| m.group)
}

/// How often a group occurs in a sequence of groups.
pub open spec fn occ(gs: Seq<Seq<char>>, g: Seq<char>) -> nat
    decreases gs.len(),
{
    if gs.len() == 0 {
        0
    } else {
        occ(gs.drop_last(), g) + (if gs.last() == g {
            1nat
        } else {
            0nat
        })
    }
}

/// The dominant group of a sequence of groups with its count, folding in
/// arrival order: a group whose running count strictly exceeds the maximum
/// seen so far takes over; a tie leaves the earlier dominant group in
/// place.
pub open spec fn dominant(gs: Seq<Seq<char>>) -> (Seq<char>, nat)
    decreases gs.len(),
{
    if gs.len() == 0 {
        (Seq::<char>::empty(), 0nat)
    } else {
        let prev = dominant(gs.drop_last());
        let n = occ(gs, gs.last());
        if n > prev.1 {
            (gs.last(), n)
        } else {
            prev
        }
    }
}

/// The chapter views that survive conversion of a raw page: records
/// without a language are dropped, the order of the rest is kept.
pub open spec fn converted(rs: Seq<ChapterData>) -> Seq<ChapterMetaView>
    decreases rs.len(),
{
    if rs.len() == 0 {
        Seq::<ChapterMetaView>::empty()
    } else {
        (if rs[0].attributes.language is Some {
            seq![meta_view_of(rs[0])]
        } else {
            Seq::<ChapterMetaView>::empty()
        }) + converted(rs.drop_first())
    }
}

/// A group never occurs more often than there are chapters.
pub proof fn lemma_occ_le_len(gs: Seq<Seq<char>>, g: Seq<char>)
    ensures
        occ(gs, g) <= gs.len(),
    decreases gs.len(),
{
    if gs.len() > 0 {
        lemma_occ_le_len(gs.drop_last(), g);
    }
}

/// One more chapter of group `g` raises exactly that group's count by one,
/// and the dominant group follows the strict-greater-replaces rule: a
/// running count strictly above the maximum so far takes over, a tie or
/// less leaves the earlier dominant group (and its count) unchanged.
pub proof fn lemma_dominant_step(gs: Seq<Seq<char>>, g: Seq<char>)
    ensures
        occ(gs.push(g), g) == occ(gs, g) + 1,
        forall|h: Seq<char>| h != g ==> occ(gs.push(g), h) == occ(gs, h),
        occ(gs, g) + 1 > dominant(gs).1 ==> dominant(gs.push(g)) == (g, (occ(gs, g) + 1) as nat),
        occ(gs, g) + 1 <= dominant(gs).1 ==> dominant(gs.push(g)) == dominant(gs),
{
    assert(gs.push(g).drop_last() =~= gs);
    assert(gs.push(g).last() == g);
    assert forall|h: Seq<char>| h != g implies occ(gs.push(g), h) == occ(gs, h) by {
        assert(gs.push(g).drop_last() =~= gs);
    }
}

/// When every record of a page declares a language, conversion keeps them
/// all: the aggregate grows by exactly the page's item count.
pub proof fn lemma_converted_len_full(rs: Seq<ChapterData>)
    requires
        forall|i: int| 0 <= i < rs.len() ==> rs[i].attributes.language is Some,
    ensures
        converted(rs).len() == rs.len(),
    decreases rs.len(),
{
    if rs.len() > 0 {
        assert(forall|i: int|
            0 <= i < rs.drop_first().len() ==> rs.drop_first()[i] == rs[i + 1]);
        lemma_converted_len_full(rs.drop_first());
    }
}

/// The chapters surviving conversion of a whole sequence of pages, in
/// order; folding the pages one by one appends exactly these.
pub open spec fn converted_all(pages: Seq<Seq<ChapterData>>) -> Seq<ChapterMetaView>
    decreases pages.len(),
{
    if pages.len() == 0 {
        Seq::<ChapterMetaView>::empty()
    } else {
        converted_all(pages.drop_last()) + converted(pages.last())
    }
}

/// The combined size of a sequence of pages.
pub open spec fn total_items(pages: Seq<Seq<ChapterData>>) -> nat
    decreases pages.len(),
{
    if pages.len() == 0 {
        0
    } else {
        total_items(pages.drop_last()) + pages.last().len()
    }
}

/// A full fetch keeps one chapter per listed record: when every record of
/// every page declares a language, folding all pages yields an aggregate
/// whose chapter count is the sum of the page sizes — the listing's
/// reported total when the pages partition it.
pub proof fn lemma_fetch_item_count(pages: Seq<Seq<ChapterData>>)
    requires
        forall|p: int, i: int|
            0 <= p < pages.len() && 0 <= i < pages[p].len() ==> (#[trigger] pages[p][i]).attributes.language is Some,
    ensures
        converted_all(pages).len() == total_items(pages),
    decreases pages.len(),
{
    if pages.len() > 0 {
        assert(forall|p: int|
            0 <= p < pages.len() - 1 ==> #[trigger] pages.drop_last()[p] == pages[p]);
        lemma_fetch_item_count(pages.drop_last());
        assert(forall|i: int|
            0 <= i < pages.last().len() ==> (#[trigger] pages.last()[i]).attributes.language
                is Some);
        lemma_converted_len_full(pages.last());
    }
}

/// Whether no two count entries name the same group.
pub open spec fn count_keys_unique(counts: Seq<(String, u64)>) -> bool {
    forall|p: int, q: int| 0 <= p < q < counts.len() ==> counts[p].0@ != counts[q].0@
}

/// Whether the count entries agree with the groups seen so far: every
/// entry carries its group's exact occurrence count, and every group seen
/// has an entry.
pub open spec fn counts_ok(counts: Seq<(String, u64)>, gs: Seq<Seq<char>>) -> bool {
    (forall|i: int|
        0 <= i < counts.len() ==> (#[trigger] counts[i]).1 as nat == occ(gs, counts[i].0@))
        && (forall|g: Seq<char>|
        occ(gs, g) > 0 ==> exists|i: int| 0 <= i < counts.len() && (#[trigger] counts[i]).0@ == g)
}

/// The running aggregate over all pages seen so far: the chapters in
/// arrival order, the occurrence count of every attribution group, and the
/// dominant group under the strict-greater-replaces rule.
pub struct ChapterMetadataSeries {
    pub max_tl: String,
    pub max_tl_count: u64,
    pub tl_group_counts: Vec<(String, u64)>,
    pub chapters: Vec<ChapterMetadata>,
}

impl ChapterMetadataSeries {
    /// Whether the aggregate's statistics agree with its chapters.
    pub open spec fn wf(&self) -> bool {
        let gs = groups_of(metas_view(self.chapters@));
        count_keys_unique(self.tl_group_counts@) && counts_ok(self.tl_group_counts@, gs) && (
        self.max_tl@, self.max_tl_count as nat) == dominant(gs)
    }

    /// The aggregate of one first page.
    pub fn new(raw: Vec<ChapterData>) -> (r: Self)
        requires
            raw@.len() < u64::MAX,
        ensures
            r.wf(),
            metas_view(r.chapters@) == converted(raw@),
    {
        let mut cms = ChapterMetadataSeries {
            max_tl: String::new(),
            max_tl_count: 0,
            tl_group_counts: Vec::new(),
            chapters: Vec::new(),
        };
        proof {
            assert(metas_view(cms.chapters@) =~= Seq::<ChapterMetaView>::empty());
            assert(groups_of(metas_view(cms.chapters@)) =~= Seq::<Seq<char>>::empty());
        }
        let ghost raw0 = raw@;
        cms.add_metadata(raw);
        proof {
            assert(metas_view(cms.chapters@) =~= converted(raw0));
        }
        cms
    }

    /// The position of a group in the count table.
    fn find_count(counts: &Vec<(String, u64)>, g: &String) -> (r: Option<usize>)
        ensures
            match r {
                Some(i) => i < counts@.len() && counts@[i as int].0@ == g@,
                None => forall|i: int| 0 <= i < counts@.len() ==> counts@[i].0@ != g@,
            },
    {
        let n = counts.len();
        let mut i: usize = 0;
        while i < n
            invariant
                0 <= i <= n,
                n == counts@.len(),
                forall|j: int| 0 <= j < i ==> counts@[j].0@ != g@,
            decreases n - i,
        {
            if str_eq(counts[i].0.as_str(), g.as_str()) {
                return Some(i);
            }
            i += 1;
        }
        None
    }

    /// Folds one page into the aggregate: the records are converted, the
    /// group counts and the dominant group are updated chapter by chapter
    /// in arrival order, and the converted chapters are appended.
    pub fn add_metadata(&mut self, raw: Vec<ChapterData>)
        requires
            old(self).wf(),
            old(self).chapters@.len() + raw@.len() < u64::MAX,
        ensures
            final(self).wf(),
            metas_view(final(self).chapters@) == metas_view(old(self).chapters@) + converted(
                raw@,
            ),
    {
        let ghost raw0 = raw@;
        let mut raw = raw;
        // Convert the new records.
        let mut batch: Vec<ChapterMetadata> = Vec::new();
        proof {
            assert(converted(raw0) =~= metas_view(batch@) + converted(raw@));
        }
        while raw.len() > 0
            invariant
                converted(raw0) == metas_view(batch@) + converted(raw@),
                batch@.len() <= raw0.len() - raw@.len(),
            decreases raw@.len(),
        {
            let ghost before = raw@;
            let r = raw.remove(0);
            proof {
                assert(before.remove(0) =~= before.drop_first());
                assert(r == before[0]);
            }
            match ChapterMetadata::from_chapter_data(r) {
                Some(m) => {
                    batch.push(m);
                    proof {
                        assert(metas_view(batch@) =~= metas_view(batch@.drop_last()) + seq![m@]);
                        assert(converted(before) == seq![meta_view_of(before[0])] + converted(
                            raw@,
                        ));
                        assert(converted(raw0) =~= metas_view(batch@) + converted(raw@));
                    }
                },
                None => {
                    proof {
                        assert(converted(before) == Seq::<ChapterMetaView>::empty() + converted(
                            raw@,
                        ));
                        assert(converted(raw0) =~= metas_view(batch@) + converted(raw@));
                    }
                },
            }
        }
        proof {
            assert(converted(raw@) =~= Seq::<ChapterMetaView>::empty());
            assert(converted(raw0) =~= metas_view(batch@));
        }
        // Fold the new chapters into the group counts.
        let ghost base = groups_of(metas_view(self.chapters@));
        let ghost batchv = batch@;
        let mut k: usize = 0;
        while k < batch.len()
            invariant
                0 <= k <= batch@.len(),
                batch@ == batchv,
                self.chapters@ == old(self).chapters@,
                old(self).chapters@.len() + batchv.len() < u64::MAX,
                base == groups_of(metas_view(self.chapters@)),
                count_keys_unique(self.tl_group_counts@),
                counts_ok(
                    self.tl_group_counts@,
                    base + groups_of(metas_view(batchv.subrange(0, k as int))),
                ),
                (self.max_tl@, self.max_tl_count as nat) == dominant(
                    base + groups_of(metas_view(batchv.subrange(0, k as int))),
                ),
            decreases batch@.len() - k,
        {
            let ghost gs = base + groups_of(metas_view(batchv.subrange(0, k as int)));
            let ghost g = batchv[k as int]@.group;
            proof {
                lemma_occ_le_len(gs, g);
                assert(gs.len() == old(self).chapters@.len() + k);
                lemma_dominant_step(gs, g);
                assert((base + groups_of(metas_view(batchv.subrange(0, k + 1)))) =~= gs.push(
                    g,
                ));
            }
            let n: u64 = match Self::find_count(&self.tl_group_counts, &batch[k].group) {
                Some(i) => {
                    let ghost cts = self.tl_group_counts@;
                    let entry = self.tl_group_counts.swap_remove(i);
                    proof {
                        assert(cts[i as int].1 as nat == occ(gs, cts[i as int].0@));
                        lemma_counts_after_removal(cts, i as int, self.tl_group_counts@, gs, g);
                    }
                    entry.1
                },
                None => {
                    proof {
                        assert(occ(gs, g) == 0) by {
                            if occ(gs, g) > 0 {
                                let i = choose|i: int|
                                    0 <= i < self.tl_group_counts@.len() && (
                                    #[trigger] self.tl_group_counts@[i]).0@ == g;
                                assert(self.tl_group_counts@[i].0@ != g);
                            }
                        }
                        assert(forall|j: int|
                            0 <= j < self.tl_group_counts@.len()
                                ==> (#[trigger] self.tl_group_counts@[j]).0@ != g);
                    }
                    0
                },
            };
            let ghost removed = self.tl_group_counts@;
            self.tl_group_counts.push((batch[k].group.clone(), n + 1));
            proof {
                let cts2 = self.tl_group_counts@;
                assert(cts2.drop_last() =~= removed);
                assert(cts2.last().0@ == g && cts2.last().1 == n + 1);
                assert(occ(gs.push(g), g) == n + 1);
                assert forall|j: int|
                    0 <= j < cts2.len() implies (#[trigger] cts2[j]).1 as nat == occ(
                    gs.push(g),
                    cts2[j].0@,
                ) by {
                    if j < cts2.len() - 1 {
                        assert(cts2[j] == removed[j]);
                        assert(removed[j].0@ != g);
                    }
                }
                assert forall|h: Seq<char>|
                    occ(gs.push(g), h) > 0 implies exists|i: int|
                    0 <= i < cts2.len() && (#[trigger] cts2[i]).0@ == h by {
                    if h == g {
                        assert(cts2[cts2.len() - 1].0@ == h);
                    } else {
                        assert(occ(gs, h) > 0);
                        let i = choose|i: int|
                            0 <= i < removed.len() && (#[trigger] removed[i]).0@ == h;
                        assert(cts2[i] == removed[i]);
                    }
                }
                assert(count_keys_unique(cts2)) by {
                    assert(forall|p: int, q: int|
                        0 <= p < q < cts2.len() - 1 ==> cts2[p] == removed[p] && cts2[q]
                            == removed[q]);
                }
            }
            // Update the dominant group.
            if n + 1 > self.max_tl_count {
                self.max_tl = batch[k].group.clone();
                self.max_tl_count = n + 1;
            }
            proof {
                assert((self.max_tl@, self.max_tl_count as nat) == dominant(gs.push(g)));
            }
            k += 1;
        }
        proof {
            assert(batchv.subrange(0, batchv.len() as int) =~= batchv);
        }
        // Append the converted chapters.
        let ghost chap0 = self.chapters@;
        self.chapters.append(&mut batch);
        proof {
            assert(metas_view(self.chapters@) =~= metas_view(chap0) + metas_view(batchv));
            assert(groups_of(metas_view(self.chapters@)) =~= base + groups_of(
                metas_view(batchv),
            ));
        }
    }

    /// Selects, for every distinct (volume, chapter) key among the chapters
    /// of one language, exactly one chapter: a lone candidate wins; among
    /// several, the first by the preferred group, else by the dominant
    /// group, else the first seen.
    #[verifier::rlimit(60)]
    pub fn get_download_metadata(&self, language: &str, preferred_tl: &Option<String>) -> (r:
        Vec<ChapterMetadata>)
        ensures
            metas_view(r@) == selection(
                lang_filter(metas_view(self.chapters@), language@),
                pref_view(preferred_tl),
                self.max_tl@,
            ),
    {
        let ghost all = metas_view(self.chapters@);
        let ghost fms = lang_filter(all, language@);
        let ghost pref = pref_view(preferred_tl);
        let ghost dom = self.max_tl@;
        // Keep the chapters of the requested language.
        let mut filtered: Vec<ChapterMetadata> = Vec::new();
        let n = self.chapters.len();
        let mut i: usize = 0;
        proof {
            assert(all.subrange(0, 0) =~= Seq::<ChapterMetaView>::empty());
            assert(metas_view(filtered@) =~= lang_filter(all.subrange(0, 0), language@));
        }
        while i < n
            invariant
                0 <= i <= n,
                n == self.chapters@.len(),
                all == metas_view(self.chapters@),
                metas_view(filtered@) == lang_filter(all.subrange(0, i as int), language@),
            decreases n - i,
        {
            proof {
                let p = all.subrange(0, i + 1);
                assert(p.drop_last() =~= all.subrange(0, i as int));
                assert(p.last() == all[i as int]);
            }
            if str_eq(self.chapters[i].language.as_str(), language) {
                filtered.push(self.chapters[i].clone());
            }
            proof {
                assert(metas_view(filtered@) =~= lang_filter(all.subrange(0, i + 1), language@));
            }
            i += 1;
        }
        proof {
            assert(all.subrange(0, n as int) =~= all);
            assert(metas_view(filtered@) == fms);
        }
        // Collect the distinct keys in first-seen order.
        let m = filtered.len();
        let mut keys: Vec<(String, String)> = Vec::new();
        let mut i2: usize = 0;
        proof {
            assert(fms.subrange(0, 0) =~= Seq::<ChapterMetaView>::empty());
            assert(keys_view(keys@) =~= distinct_keys(fms.subrange(0, 0)));
        }
        while i2 < m
            invariant
                0 <= i2 <= m,
                m == filtered@.len(),
                metas_view(filtered@) == fms,
                keys_view(keys@) == distinct_keys(fms.subrange(0, i2 as int)),
            decreases m - i2,
        {
            proof {
                let p = fms.subrange(0, i2 + 1);
                assert(p.drop_last() =~= fms.subrange(0, i2 as int));
                assert(p.last() == fms[i2 as int]);
            }
            let ghost k = key_of(fms[i2 as int]);
            let mut seen = false;
            let mut j: usize = 0;
            while j < keys.len() && !seen
                invariant
                    0 <= j <= keys@.len(),
                    k == key_of(fms[i2 as int]),
                    i2 < m == filtered@.len(),
                    metas_view(filtered@) == fms,
                    seen ==> keys_view(keys@).contains(k),
                    !seen ==> forall|l: int| 0 <= l < j ==> keys_view(keys@)[l] != k,
                decreases keys@.len() - j, (if seen { 0int } else { 1int }),
            {
                if str_eq(keys[j].0.as_str(), filtered[i2].volume.as_str()) && str_eq(
                    keys[j].1.as_str(),
                    filtered[i2].chapter.as_str(),
                ) {
                    proof {
                        assert(keys_view(keys@)[j as int] == k);
                    }
                    seen = true;
                } else {
                    proof {
                        assert(keys_view(keys@)[j as int] != k);
                    }
                    j += 1;
                }
            }
            if !seen {
                proof {
                    assert(!keys_view(keys@).contains(k));
                }
                keys.push((filtered[i2].volume.clone(), filtered[i2].chapter.clone()));
            }
            proof {
                assert(keys_view(keys@) =~= distinct_keys(fms.subrange(0, i2 + 1)));
            }
            i2 += 1;
        }
        proof {
            assert(fms.subrange(0, m as int) =~= fms);
            assert(keys_view(keys@) == distinct_keys(fms));
        }
        let ghost dk = distinct_keys(fms);
        // Pick one chapter per key.
        let mut out: Vec<ChapterMetadata> = Vec::new();
        let t = keys.len();
        let mut tt: usize = 0;
        while tt < t
            invariant
                0 <= tt <= t,
                t == keys@.len(),
                m == filtered@.len(),
                metas_view(filtered@) == fms,
                keys_view(keys@) == dk,
                dk == distinct_keys(fms),
                pref == pref_view(preferred_tl),
                dom == self.max_tl@,
                metas_view(out@).len() == tt,
                forall|l: int|
                    0 <= l < tt ==> metas_view(out@)[l] == chosen(with_key(fms, dk[l]), pref, dom),
            decreases t - tt,
        {
            let ghost k = dk[tt as int];
            proof {
                assert(keys_view(keys@)[tt as int] == k);
            }
            // Gather the candidates of this key.
            let mut grp: Vec<ChapterMetadata> = Vec::new();
            let mut u: usize = 0;
            proof {
                assert(fms.subrange(0, 0) =~= Seq::<ChapterMetaView>::empty());
                assert(metas_view(grp@) =~= with_key(fms.subrange(0, 0), k));
            }
            while u < m
                invariant
                    0 <= u <= m,
                    m == filtered@.len(),
                    metas_view(filtered@) == fms,
                    tt < keys@.len(),
                    k == (keys@[tt as int].0@, keys@[tt as int].1@),
                    metas_view(grp@) == with_key(fms.subrange(0, u as int), k),
                decreases m - u,
            {
                proof {
                    let p = fms.subrange(0, u + 1);
                    assert(p.drop_last() =~= fms.subrange(0, u as int));
                    assert(p.last() == fms[u as int]);
                }
                if str_eq(filtered[u].volume.as_str(), keys[tt].0.as_str()) && str_eq(
                    filtered[u].chapter.as_str(),
                    keys[tt].1.as_str(),
                ) {
                    grp.push(filtered[u].clone());
                }
                proof {
                    assert(metas_view(grp@) =~= with_key(fms.subrange(0, u + 1), k));
                }
                u += 1;
            }
            proof {
                assert(fms.subrange(0, m as int) =~= fms);
                assert(metas_view(grp@) == with_key(fms, k));
                lemma_key_in_distinct_has_member(fms, k);
            }
            let ghost gv = with_key(fms, k);
            let chosen_item: ChapterMetadata = if grp.len() == 1 {
                let c = grp[0].clone();
                proof {
                    assert(c@ == chosen(gv, pref, dom));
                }
                c
            } else {
                let target: &String = match preferred_tl {
                    Some(tl) => tl,
                    None => &self.max_tl,
                };
                let ghost tg = if pref is Some {
                    pref->0
                } else {
                    dom
                };
                proof {
                    assert(target@ == tg);
                    assert(gv.skip(0) =~= gv);
                }
                let mut v: usize = 0;
                let mut sel: usize = 0;
                let mut found = false;
                while v < grp.len() && !found
                    invariant
                        0 <= v <= grp@.len(),
                        gv == metas_view(grp@),
                        tg == target@,
                        found ==> sel < grp@.len() && first_with_group(gv, tg) == Some(
                            gv[sel as int],
                        ),
                        !found ==> first_with_group(gv, tg) == first_with_group(
                            gv.skip(v as int),
                            tg,
                        ),
                    decreases grp@.len() - v, (if found { 0int } else { 1int }),
                {
                    proof {
                        assert(gv.skip(v as int)[0] == gv[v as int]);
                    }
                    if str_eq(grp[v].group.as_str(), target.as_str()) {
                        sel = v;
                        found = true;
                    } else {
                        proof {
                            assert(gv.skip(v as int).drop_first() =~= gv.skip(v + 1));
                        }
                        v += 1;
                    }
                }
                if found {
                    let c = grp[sel].clone();
                    proof {
                        assert(c@ == chosen(gv, pref, dom));
                    }
                    c
                } else {
                    proof {
                        assert(gv.skip(v as int).len() == 0);
                        assert(first_with_group(gv, tg) is None);
                    }
                    let c = grp[0].clone();
                    proof {
                        assert(c@ == chosen(gv, pref, dom));
                    }
                    c
                }
            };
            let ghost out0 = out@;
            proof {
                assert(chosen_item@ == chosen(gv, pref, dom));
            }
            out.push(chosen_item);
            proof {
                assert forall|l: int|
                    0 <= l < tt + 1 implies metas_view(out@)[l] == chosen(
                    with_key(fms, dk[l]),
                    pref,
                    dom,
                ) by {
                    if l < tt {
                        assert(out@[l] == out0[l]);
                        assert(metas_view(out0)[l] == out0[l]@);
                    } else {
                        assert(out@[l] == chosen_item);
                    }
                }
            }
            tt += 1;
        }
        proof {
            assert(metas_view(out@) =~= selection(fms, pref, dom));
        }
        out
    }
}

/// A volume label as shown to the user: a plain decimal label is
/// canonicalized and announced as a volume, any other label stands as it
/// is.
pub open spec fn display_volume(label: Seq<char>) -> Seq<char> {
    if is_plain_decimal(label) {
        "Volume "@ + canonical_decimal(label)
    } else {
        label
    }
}

/// A chapter label as shown to the user, like `display_volume`.
pub open spec fn display_chapter(label: Seq<char>) -> Seq<char> {
    if is_plain_decimal(label) {
        "Chapter "@ + canonical_decimal(label)
    } else {
        label
    }
}

/// The folder of a chapter under the output root: its sanitized volume
/// and chapter names, either of which may be absent; a chapter with
/// neither is a oneshot.
pub open spec fn folder_name(volume: Seq<char>, chapter: Seq<char>) -> Seq<char> {
    let v = display_volume(volume);
    let c = display_chapter(chapter);
    if v.len() > 0 && c.len() > 0 {
        strip_reserved(v) + "/"@ + strip_reserved(c)
    } else if c.len() > 0 {
        strip_reserved(c)
    } else if v.len() > 0 {
        strip_reserved(v)
    } else {
        "Oneshot"@
    }
}

/// Whether a filename embeds no content hash.
pub open spec fn no_hash_in(filename: Seq<char>) -> bool {
    forall|i: int| !hex_run_at(filename, i)
}

/// One chapter's download data: where its images live and the images
/// themselves, each with its expected content hash.
#[derive(Debug)]
pub struct Chapter {
    pub id: String,
    pub volume: String,
    pub chapter: String,
    /// The address of the asset server assigned to this batch.
    pub base_url: String,
    pub urls: Vec<Image>,
}

impl Chapter {
    /// Builds a chapter's download data from its metadata and the image
    /// batch the coordination endpoint returned: every filename must embed
    /// a content hash.
    pub fn new(metadata: &ChapterMetadata, res: ChapterImageResponse) -> (r: Result<
        Chapter,
        ChapterError,
    >)
        ensures
            match r {
                Ok(c) => c.id@ == metadata.id@ && c.volume@ == metadata.volume@ && c.chapter@
                    == metadata.chapter@ && c.base_url@ == res.base_url@ && c.urls@.len()
                    == res.chapter.data@.len() && forall|k: int|
                    0 <= k < c.urls@.len() ==> image_from(
                        #[trigger] c.urls@[k],
                        res.chapter.hash@,
                        res.chapter.data@[k]@,
                    ),
                Err(e) => e == ChapterError::HashNotFound && exists|k: int|
                    0 <= k < res.chapter.data@.len() && #[trigger] no_hash_in(
                        res.chapter.data@[k]@,
                    ),
            },
    {
        let mut urls: Vec<Image> = Vec::new();
        let n = res.chapter.data.len();
        let mut i: usize = 0;
        while i < n
            invariant
                0 <= i <= n,
                n == res.chapter.data@.len(),
                urls@.len() == i,
                forall|k: int|
                    0 <= k < i ==> image_from(
                        #[trigger] urls@[k],
                        res.chapter.hash@,
                        res.chapter.data@[k]@,
                    ),
            decreases n - i,
        {
            match Image::new(res.chapter.hash.as_str(), res.chapter.data[i].as_str()) {
                Ok(img) => {
                    urls.push(img);
                },
                Err(_) => {
                    proof {
                        assert(no_hash_in(res.chapter.data@[i as int]@));
                    }
                    return Err(ChapterError::HashNotFound);
                },
            }
            i += 1;
        }
        Ok(
            Chapter {
                id: metadata.id.clone(),
                volume: metadata.volume.clone(),
                chapter: metadata.chapter.clone(),
                base_url: res.base_url,
                urls,
            },
        )
    }

    /// The volume name shown to the user: a numeric label is normalized
    /// and announced as a volume.
    pub fn get_volume(&self) -> (r: String)
        ensures
            r@ == display_volume(self.volume@),
    {
        match normalize_decimal(self.volume.as_str()) {
            Some(c) => {
                let mut s = String::from_str("Volume ");
                s.append(c.as_str());
                s
            },
            None => self.volume.clone(),
        }
    }

    /// The chapter name shown to the user, like `get_volume`.
    pub fn get_chapter(&self) -> (r: String)
        ensures
            r@ == display_chapter(self.chapter@),
    {
        match normalize_decimal(self.chapter.as_str()) {
            Some(c) => {
                let mut s = String::from_str("Chapter ");
                s.append(c.as_str());
                s
            },
            None => self.chapter.clone(),
        }
    }

    /// The chapter's folder under the output root.
    pub fn assemble_folder_name(&self) -> (r: String)
        ensures
            r@ == folder_name(self.volume@, self.chapter@),
    {
        let v = self.get_volume();
        let c = self.get_chapter();
        if !v.as_str().is_empty() && !c.as_str().is_empty() {
            let mut s = escape_path(v.as_str());
            s.append("/");
            let ec = escape_path(c.as_str());
            s.append(ec.as_str());
            proof {
                assert(s@ =~= strip_reserved(display_volume(self.volume@)) + "/"@
                    + strip_reserved(display_chapter(self.chapter@)));
            }
            s
        } else if !c.as_str().is_empty() {
            escape_path(c.as_str())
        } else if !v.as_str().is_empty() {
            escape_path(v.as_str())
        } else {
            String::from_str("Oneshot")
        }
    }

    /// Checks one downloaded image and names its file: the response must
    /// declare a legible content type with a known extension, and the
    /// payload's digest must match the content hash embedded in the
    /// image's filename; the file is named by the image's 1-based index,
    /// zero-padded to the width of the batch size, with the extension.
    pub fn plan_image_file(
        &self,
        index: usize,
        content_type: Option<&Vec<u8>>,
        body: &Vec<u8>,
    ) -> (r: Result<String, ImageDownloadError>)
        requires
            index < self.urls@.len(),
        ensures
            match content_type {
                None => r == Err::<String, ImageDownloadError>(ImageDownloadError::NoContentType),
                Some(bs) => if !is_visible_ascii(bs@) {
                    r == Err::<String, ImageDownloadError>(ImageDownloadError::IllegibleMime)
                } else if extension_of(header_chars(bs@)) is None {
                    r == Err::<String, ImageDownloadError>(ImageDownloadError::Mime)
                } else if sha256_of(body@) != self.urls@[index as int].hash@ {
                    r == Err::<String, ImageDownloadError>(ImageDownloadError::HashMismatch)
                } else {
                    r is Ok && r->Ok_0@ == padded_digits(
                        (index + 1) as nat,
                        num_digits(self.urls@.len() as nat),
                    ) + "."@ + extension_of(header_chars(bs@))->0
                },
            },
    {
        let ext = match extension_for(content_type) {
            Ok(e) => e,
            Err(e) => {
                return Err(e);
            },
        };
        if !self.urls[index].verify(body) {
            return Err(ImageDownloadError::HashMismatch);
        }
        let count = self.urls.len();
        let mut name = zero_padded((index as u64) + 1, count_digits(count as u64));
        crate::text::push_char(&mut name, '.');
        name.append(ext.as_str());
        proof {
            reveal_strlit(".");
            assert("."@.len() == 1);
            assert(name@ =~= padded_digits((index + 1) as nat, num_digits(self.urls@.len() as nat))
                + "."@ + ext@);
        }
        Ok(name)
    }
}

proof fn lemma_with_key_members(ms: Seq<ChapterMetaView>, k: (Seq<char>, Seq<char>))
    ensures
        forall|j: int| 0 <= j < with_key(ms, k).len() ==> key_of(#[trigger] with_key(ms, k)[j]) == k,
    decreases ms.len(),
{
    if ms.len() > 0 {
        lemma_with_key_members(ms.drop_last(), k);
        let prev = with_key(ms.drop_last(), k);
        assert forall|j: int|
            0 <= j < with_key(ms, k).len() implies key_of(#[trigger] with_key(ms, k)[j])
            == k by {
            if j < prev.len() {
                assert(with_key(ms, k)[j] == prev[j]);
            }
        }
    }
}

proof fn lemma_first_with_group_member(ms: Seq<ChapterMetaView>, g: Seq<char>)
    ensures
        first_with_group(ms, g) is Some ==> exists|j: int|
            0 <= j < ms.len() && ms[j] == first_with_group(ms, g)->0,
    decreases ms.len(),
{
    if ms.len() > 0 && ms[0].group != g {
        lemma_first_with_group_member(ms.drop_first(), g);
        if first_with_group(ms, g) is Some {
            let j = choose|j: int|
                0 <= j < ms.drop_first().len() && ms.drop_first()[j] == first_with_group(
                    ms.drop_first(),
                    g,
                )->0;
            assert(ms[j + 1] == first_with_group(ms, g)->0);
        }
    }
}

/// Every primary key collapses to exactly one chosen chapter: the
/// selection holds one entry per distinct key, in first-seen key order,
/// and each chosen chapter carries its key.
pub proof fn lemma_selection_one_per_key(
    ms: Seq<ChapterMetaView>,
    preferred: Option<Seq<char>>,
    dom: Seq<char>,
)
    ensures
        selection(ms, preferred, dom).len() == distinct_keys(ms).len(),
        forall|l: int|
            0 <= l < distinct_keys(ms).len() ==> key_of(#[trigger] selection(ms, preferred, dom)[l])
                == distinct_keys(ms)[l],
{
    let dk = distinct_keys(ms);
    assert forall|l: int|
        0 <= l < dk.len() implies key_of(#[trigger] selection(ms, preferred, dom)[l])
        == dk[l] by {
        let k = dk[l];
        let group = with_key(ms, k);
        assert(dk.contains(k));
        lemma_key_in_distinct_has_member(ms, k);
        lemma_with_key_members(ms, k);
        if group.len() != 1 {
            let target = if preferred is Some {
                preferred->0
            } else {
                dom
            };
            lemma_first_with_group_member(group, target);
            if first_with_group(group, target) is Some {
                let j = choose|j: int|
                    0 <= j < group.len() && group[j] == first_with_group(group, target)->0;
                assert(key_of(group[j]) == k);
            }
        }
    }
}

/// The views of the key pairs a selection pass collects.
pub open spec fn keys_view(s: Seq<(String, String)>) -> Seq<(Seq<char>, Seq<char>)> {
    s.map_values(|p: (String, String)| (p.0@, p.1@))
}

/// Every key listed among a sequence's distinct keys belongs to at least
/// one of its chapters.
proof fn lemma_key_in_distinct_has_member(ms: Seq<ChapterMetaView>, k: (Seq<char>, Seq<char>))
    requires
        distinct_keys(ms).contains(k),
    ensures
        with_key(ms, k).len() > 0,
    decreases ms.len(),
{
    if ms.len() > 0 {
        if key_of(ms.last()) == k {
        } else {
            assert(distinct_keys(ms.drop_last()).contains(k));
            lemma_key_in_distinct_has_member(ms.drop_last(), k);
        }
    }
}

/// Removing the one entry of a group from a sound count table leaves a
/// sound table that no longer names the group.

/// The primary key of a chapter: its volume and chapter labels.
pub open spec fn key_of(m: ChapterMetaView) -> (Seq<char>, Seq<char>) {
    (m.volume, m.chapter)
}

/// The chapters of one language, in arrival order.
pub open spec fn lang_filter(ms: Seq<ChapterMetaView>, lang: Seq<char>) -> Seq<ChapterMetaView>
    decreases ms.len(),
{
    if ms.len() == 0 {
        Seq::<ChapterMetaView>::empty()
    } else {
        lang_filter(ms.drop_last(), lang) + (if ms.last().language == lang {
            seq![ms.last()]
        } else {
            Seq::<ChapterMetaView>::empty()
        })
    }
}

/// The distinct primary keys of a sequence of chapters, each in the
/// position of its first appearance.
pub open spec fn distinct_keys(ms: Seq<ChapterMetaView>) -> Seq<(Seq<char>, Seq<char>)>
    decreases ms.len(),
{
    if ms.len() == 0 {
        Seq::<(Seq<char>, Seq<char>)>::empty()
    } else {
        let ks = distinct_keys(ms.drop_last());
        if ks.contains(key_of(ms.last())) {
            ks
        } else {
            ks.push(key_of(ms.last()))
        }
    }
}

/// The chapters carrying one primary key, in arrival order.
pub open spec fn with_key(ms: Seq<ChapterMetaView>, k: (Seq<char>, Seq<char>)) -> Seq<
    ChapterMetaView,
>
    decreases ms.len(),
{
    if ms.len() == 0 {
        Seq::<ChapterMetaView>::empty()
    } else {
        with_key(ms.drop_last(), k) + (if key_of(ms.last()) == k {
            seq![ms.last()]
        } else {
            Seq::<ChapterMetaView>::empty()
        })
    }
}

/// The first chapter of a sequence published by the given group.
pub open spec fn first_with_group(ms: Seq<ChapterMetaView>, g: Seq<char>) -> Option<
    ChapterMetaView,
>
    decreases ms.len(),
{
    if ms.len() == 0 {
        None
    } else if ms[0].group == g {
        Some(ms[0])
    } else {
        first_with_group(ms.drop_first(), g)
    }
}

/// The chapter chosen among those sharing one key: a lone candidate wins
/// outright; otherwise the first one published by the preferred group, or
/// failing a preference by the dominant group, or failing both the first
/// candidate seen.
pub open spec fn chosen(
    group: Seq<ChapterMetaView>,
    preferred: Option<Seq<char>>,
    dom: Seq<char>,
) -> ChapterMetaView
    recommends
        group.len() > 0,
{
    if group.len() == 1 {
        group[0]
    } else {
        let target = if preferred is Some {
            preferred->0
        } else {
            dom
        };
        match first_with_group(group, target) {
            Some(m) => m,
            None => group[0],
        }
    }
}

/// The selection over a sequence of chapters: one chosen chapter for each
/// distinct key, in first-seen key order.
pub open spec fn selection(
    ms: Seq<ChapterMetaView>,
    preferred: Option<Seq<char>>,
    dom: Seq<char>,
) -> Seq<ChapterMetaView> {
    distinct_keys(ms).map_values(|k: (Seq<char>, Seq<char>)| chosen(with_key(ms, k), preferred, dom))
}

/// The group preference a caller handed in, if any.
pub open spec fn pref_view(p: &Option<String>) -> Option<Seq<char>> {
    match p {
        Some(s) => Some(s@),
        None => None,
    }
}

/// Removing the one entry of a group from a sound count table leaves a
/// sound table that no longer names the group.
proof fn lemma_counts_after_removal(
    cts: Seq<(String, u64)>,
    i: int,
    after: Seq<(String, u64)>,
    gs: Seq<Seq<char>>,
    g: Seq<char>,
)
    requires
        0 <= i < cts.len(),
        cts[i].0@ == g,
        count_keys_unique(cts),
        counts_ok(cts, gs),
        after == cts.update(i, cts[cts.len() - 1]).drop_last(),
    ensures
        count_keys_unique(after),
        forall|j: int| 0 <= j < after.len() ==> (#[trigger] after[j]).0@ != g,
        forall|j: int|
            0 <= j < after.len() ==> (#[trigger] after[j]).1 as nat == occ(gs, after[j].0@),
        forall|h: Seq<char>|
            h != g && occ(gs, h) > 0 ==> exists|j: int|
                0 <= j < after.len() && (#[trigger] after[j]).0@ == h,
{
    assert forall|h: Seq<char>|
        h != g && occ(gs, h) > 0 implies exists|j: int|
        0 <= j < after.len() && (#[trigger] after[j]).0@ == h by {
        let j0 = choose|j0: int| 0 <= j0 < cts.len() && (#[trigger] cts[j0]).0@ == h;
        if j0 == cts.len() - 1 {
            assert(j0 != i);
            assert(after[i] == cts[j0]);
        } else if j0 == i {
            assert(false);
        } else {
            assert(after[j0] == cts[j0]);
        }
    }
}

} // verus!
