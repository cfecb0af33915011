//! The metadata file's contents, selected from a work's metadata, and the
//! formats such a file can be written in.

use vstd::prelude::*;

use crate::manga::{assoc_get, assoc_str, str_views, MangaMetadata};
use crate::text::str_eq;

verus! {

/// The file formats a metadata file can be written in.
#[derive(Clone, Copy, Debug, PartialEq, Eq, Structural)]
pub enum MetadataOutputFormat {
    TOML,
    JSON,
}

impl MetadataOutputFormat {
    /// The file extension of the format.
    pub fn file_format(&self) -> (r: &'static str)
        ensures
            self is TOML ==> r@ == "toml"@,
            self is JSON ==> r@ == "json"@,
    {
        match self {
            MetadataOutputFormat::TOML => "toml",
            MetadataOutputFormat::JSON => "json",
        }
    }
}

/// Whether a list of language names holds the given one.
pub open spec fn has_lang(langs: Seq<String>, k: Seq<char>) -> bool {
    exists|i: int| 0 <= i < langs.len() && langs[i]@ == k
}

/// The alternative titles kept for the metadata file: all of them, or
/// those grouped under a listed language.
pub open spec fn selected_alt_titles(
    alt: Seq<(String, Vec<String>)>,
    langs: Seq<String>,
    all: bool,
) -> Seq<Seq<char>>
    decreases alt.len(),
{
    if alt.len() == 0 {
        Seq::<Seq<char>>::empty()
    } else {
        (if all || has_lang(langs, alt[0].0@) {
            str_views(alt[0].1@)
        } else {
            Seq::<Seq<char>>::empty()
        }) + selected_alt_titles(alt.drop_first(), langs, all)
    }
}

/// The tag names in the preferred language; a tag without one is dropped.
pub open spec fn selected_tags(tags: Seq<Vec<(String, String)>>, k: Seq<char>) -> Seq<Seq<char>>
    decreases tags.len(),
{
    if tags.len() == 0 {
        Seq::<Seq<char>>::empty()
    } else {
        (match assoc_str(tags[0]@, k) {
            Some(v) => seq![v],
            None => Seq::<Seq<char>>::empty(),
        }) + selected_tags(tags.drop_first(), k)
    }
}

/// What the metadata file holds about a work.
pub struct Metadata {
    pub title: String,
    pub alt_titles: Vec<String>,
    pub description: String,
    pub tags: Vec<String>,
}

impl Metadata {
    /// Selects the metadata file's contents: the title and description in
    /// the preferred language (with their usual fallbacks, or empty), the
    /// alternative titles of the listed languages (all of them when the
    /// list says `all`), and the tag names in the preferred language.
    #[verifier::rlimit(60)]
    pub fn new(
        metadata: &MangaMetadata,
        preferred_language: &str,
        metadata_title_languages: &[String],
    ) -> (r: Self)
        ensures
            ({
                let found = assoc_str(metadata.titles@, preferred_language@);
                if found is Some {
                    r.title@ == found->0
                } else if metadata.titles@.len() > 0 {
                    r.title@ == metadata.titles@[0].1@
                } else {
                    r.title@ == Seq::<char>::empty()
                }
            }),
            ({
                let found = assoc_str(metadata.descriptions@, preferred_language@);
                if found is Some {
                    r.description@ == found->0
                } else if metadata.descriptions@.len() > 0 {
                    r.description@ == metadata.descriptions@[0].1@
                } else {
                    r.description@ == Seq::<char>::empty()
                }
            }),
            str_views(r.alt_titles@) == selected_alt_titles(
                metadata.alt_titles@,
                metadata_title_languages@,
                has_lang(metadata_title_languages@, "all"@),
            ),
            str_views(r.tags@) == selected_tags(metadata.tags@, preferred_language@),
    {
        // Whether every language's titles are wanted.
        let ghost langs = metadata_title_languages@;
        let mut all = false;
        let mut i: usize = 0;
        let ln = metadata_title_languages.len();
        while i < ln && !all
            invariant
                0 <= i <= ln,
                ln == langs.len(),
                langs == metadata_title_languages@,
                all ==> has_lang(langs, "all"@),
                !all ==> forall|j: int| 0 <= j < i ==> langs[j]@ != "all"@,
            decreases ln - i, (if all { 0int } else { 1int }),
        {
            if str_eq(metadata_title_languages[i].as_str(), "all") {
                all = true;
            } else {
                i += 1;
            }
        }
        proof {
            assert(all == has_lang(langs, "all"@));
        }
        // The alternative titles of the wanted languages.
        let ghost alts = metadata.alt_titles@;
        let mut alt_titles: Vec<String> = Vec::new();
        let an = metadata.alt_titles.len();
        let mut a: usize = 0;
        proof {
            assert(alts.skip(0) =~= alts);
            assert(str_views(alt_titles@) =~= Seq::<Seq<char>>::empty());
        }
        while a < an
            invariant
                0 <= a <= an,
                an == alts.len(),
                alts == metadata.alt_titles@,
                langs == metadata_title_languages@,
                ln == langs.len(),
                all == has_lang(langs, "all"@),
                selected_alt_titles(alts, langs, all) == str_views(alt_titles@)
                    + selected_alt_titles(alts.skip(a as int), langs, all),
            decreases an - a,
        {
            proof {
                assert(alts.skip(a as int)[0] == alts[a as int]);
                assert(alts.skip(a as int).drop_first() =~= alts.skip(a as int + 1));
            }
            // Whether this entry's language is wanted.
            let mut wanted = all;
            let mut w: usize = 0;
            while w < ln && !wanted
                invariant
                    0 <= w <= ln,
                    ln == langs.len(),
                    langs == metadata_title_languages@,
                    0 <= a < an == alts.len(),
                    alts == metadata.alt_titles@,
                    all ==> wanted,
                    wanted ==> all || has_lang(langs, alts[a as int].0@),
                    !wanted ==> forall|j: int| 0 <= j < w ==> langs[j]@ != alts[a as int].0@,
                decreases ln - w, (if wanted { 0int } else { 1int }),
            {
                if str_eq(
                    metadata_title_languages[w].as_str(),
                    metadata.alt_titles[a].0.as_str(),
                ) {
                    wanted = true;
                } else {
                    w += 1;
                }
            }
            proof {
                assert(wanted == (all || has_lang(langs, alts[a as int].0@)));
            }
            if wanted {
                // Append this language's titles.
                let vs = &metadata.alt_titles[a].1;
                let vn = vs.len();
                let mut v: usize = 0;
                let ghost base = str_views(alt_titles@);
                while v < vn
                    invariant
                        0 <= v <= vn,
                        vn == vs@.len(),
                        vs == &metadata.alt_titles@[a as int].1,
                        0 <= a < alts.len(),
                        alts == metadata.alt_titles@,
                        str_views(alt_titles@) == base + str_views(vs@.subrange(0, v as int)),
                    decreases vn - v,
                {
                    let c = vs[v].clone();
                    let ghost prev = alt_titles@;
                    alt_titles.push(c);
                    proof {
                        assert(str_views(alt_titles@) =~= str_views(prev).push(vs@[v as int]@));
                        assert(str_views(vs@.subrange(0, v + 1)) =~= str_views(
                            vs@.subrange(0, v as int),
                        ).push(vs@[v as int]@));
                        assert(str_views(alt_titles@) =~= base + str_views(
                            vs@.subrange(0, v + 1),
                        ));
                    }
                    v += 1;
                }
                proof {
                    assert(vs@.subrange(0, vn as int) =~= vs@);
                    assert(str_views(alt_titles@) =~= base + str_views(alts[a as int].1@));
                }
            }
            a += 1;
        }
        proof {
            assert(selected_alt_titles(alts.skip(an as int), langs, all) =~= Seq::<
                Seq<char>,
            >::empty());
            assert(str_views(alt_titles@) =~= selected_alt_titles(alts, langs, all));
        }
        // The tag names in the preferred language.
        let ghost tagseq = metadata.tags@;
        let mut tags: Vec<String> = Vec::new();
        let tn = metadata.tags.len();
        let mut t: usize = 0;
        proof {
            assert(tagseq.skip(0) =~= tagseq);
            assert(str_views(tags@) =~= Seq::<Seq<char>>::empty());
        }
        while t < tn
            invariant
                0 <= t <= tn,
                tn == tagseq.len(),
                tagseq == metadata.tags@,
                selected_tags(tagseq, preferred_language@) == str_views(tags@) + selected_tags(
                    tagseq.skip(t as int),
                    preferred_language@,
                ),
            decreases tn - t,
        {
            proof {
                assert(tagseq.skip(t as int)[0] == tagseq[t as int]);
                assert(tagseq.skip(t as int).drop_first() =~= tagseq.skip(t as int + 1));
            }
            match assoc_get(&metadata.tags[t], preferred_language) {
                Some(name) => {
                    tags.push(name.clone());
                    proof {
                        assert(str_views(tags@) =~= str_views(tags@.drop_last()).push(
                            tags@.last()@,
                        ));
                    }
                },
                None => (),
            }
            t += 1;
        }
        proof {
            assert(selected_tags(tagseq.skip(tn as int), preferred_language@) =~= Seq::<
                Seq<char>,
            >::empty());
            assert(str_views(tags@) =~= selected_tags(tagseq, preferred_language@));
        }
        let title = match metadata.get_title(preferred_language) {
            Some(t2) => t2,
            None => String::new(),
        };
        let description = match metadata.get_description(preferred_language) {
            Some(d) => d,
            None => String::new(),
        };
        Metadata { title, alt_titles, description, tags }
    }
}

} // verus!
