//! The metadata of one work: localized titles and descriptions, the
//! alternative titles grouped by language, the available languages, and the
//! tag names.

use vstd::prelude::*;

use crate::text::str_eq;
use crate::types::MangaDataResponse;

verus! {

/// The views of a sequence of strings.
pub open spec fn str_views(s: Seq<String>) -> Seq<Seq<char>> {
    s.map_values(|x: String| x@)
}

/// The views of a sequence of string pairs.
pub open spec fn pair_views(ps: Seq<(String, String)>) -> Seq<(Seq<char>, Seq<char>)> {
    ps.map_values(|p: (String, String)| (p.0@, p.1@))
}

/// The value under the first occurrence of a key in a key/value list.
pub open spec fn assoc_str(ps: Seq<(String, String)>, k: Seq<char>) -> Option<Seq<char>>
    decreases ps.len(),
{
    if ps.len() == 0 {
        None
    } else if ps[0].0@ == k {
        Some(ps[0].1@)
    } else {
        assoc_str(ps.drop_first(), k)
    }
}

/// The (language, title) pairs of all alternative-title maps, flattened in
/// order.
pub open spec fn flat_pairs(ms: Seq<Vec<(String, String)>>) -> Seq<(Seq<char>, Seq<char>)>
    decreases ms.len(),
{
    if ms.len() == 0 {
        Seq::<(Seq<char>, Seq<char>)>::empty()
    } else {
        pair_views(ms[0]@) + flat_pairs(ms.drop_first())
    }
}

/// The position of a language among grouped titles, or none.
pub open spec fn find_lang(acc: Seq<(Seq<char>, Seq<Seq<char>>)>, k: Seq<char>) -> int
    decreases acc.len(),
{
    if acc.len() == 0 {
        -1
    } else if acc[0].0 == k {
        0
    } else {
        let r = find_lang(acc.drop_first(), k);
        if r == -1 {
            -1
        } else {
            1 + r
        }
    }
}

/// Pairs grouped by language: languages in first-seen order, each with its
/// titles in arrival order.
pub open spec fn group_pairs(ps: Seq<(Seq<char>, Seq<char>)>) -> Seq<(Seq<char>, Seq<Seq<char>>)>
    decreases ps.len(),
{
    if ps.len() == 0 {
        Seq::<(Seq<char>, Seq<Seq<char>>)>::empty()
    } else {
        let acc = group_pairs(ps.drop_last());
        let i = find_lang(acc, ps.last().0);
        if i == -1 {
            acc.push((ps.last().0, seq![ps.last().1]))
        } else {
            acc.update(i, (acc[i].0, acc[i].1.push(ps.last().1)))
        }
    }
}

/// What `find_lang` finds: the first entry of the language, if any.
proof fn lemma_find_lang(acc: Seq<(Seq<char>, Seq<Seq<char>>)>, k: Seq<char>)
    ensures
        find_lang(acc, k) == -1 ==> forall|j: int| 0 <= j < acc.len() ==> acc[j].0 != k,
        find_lang(acc, k) != -1 ==> 0 <= find_lang(acc, k) < acc.len() && acc[find_lang(acc, k)].0
            == k && forall|j: int| 0 <= j < find_lang(acc, k) ==> acc[j].0 != k,
    decreases acc.len(),
{
    if acc.len() > 0 && acc[0].0 != k {
        lemma_find_lang(acc.drop_first(), k);
        let d = acc.drop_first();
        let f = find_lang(acc, k);
        if find_lang(d, k) == -1 {
            assert forall|j: int| 0 <= j < acc.len() implies acc[j].0 != k by {
                if j > 0 {
                    assert(d[j - 1] == acc[j]);
                }
            }
        } else {
            assert(f == 1 + find_lang(d, k));
            assert(acc[f] == d[f - 1]);
            assert forall|j: int| 0 <= j < f implies acc[j].0 != k by {
                if j > 0 {
                    assert(d[j - 1] == acc[j]);
                }
            }
        }
    }
}

/// The grouped alternative titles of a work.
pub open spec fn alt_view(s: Seq<(String, Vec<String>)>) -> Seq<(Seq<char>, Seq<Seq<char>>)> {
    s.map_values(|p: (String, Vec<String>)| (p.0@, str_views(p.1@)))
}

/// The languages the work is available in, skipping absent entries.
pub open spec fn langs_of(s: Seq<Option<String>>) -> Seq<Seq<char>>
    decreases s.len(),
{
    if s.len() == 0 {
        Seq::<Seq<char>>::empty()
    } else {
        (if s[0] is Some {
            seq![s[0]->0@]
        } else {
            Seq::<Seq<char>>::empty()
        }) + langs_of(s.drop_first())
    }
}

/// The metadata of one work.
pub struct MangaMetadata {
    pub id: String,
    /// Localized titles, as (language, title) pairs.
    pub titles: Vec<(String, String)>,
    /// Alternative titles, grouped by language in first-seen order.
    pub alt_titles: Vec<(String, Vec<String>)>,
    /// The languages the work is available in.
    pub languages: Vec<String>,
    /// Localized descriptions, as (language, description) pairs.
    pub descriptions: Vec<(String, String)>,
    /// The localized names of each tag.
    pub tags: Vec<Vec<(String, String)>>,
}

/// The value under the first occurrence of a key, scanning a key/value
/// list from the front.
pub(crate) fn assoc_get<'a>(ps: &'a Vec<(String, String)>, k: &str) -> (r: Option<&'a String>)
    ensures
        match r {
            Some(v) => assoc_str(ps@, k@) == Some(v@),
            None => assoc_str(ps@, k@) is None,
        },
{
    let n = ps.len();
    let mut i: usize = 0;
    proof {
        assert(ps@.skip(0) =~= ps@);
    }
    while i < n
        invariant
            0 <= i <= n,
            n == ps@.len(),
            assoc_str(ps@, k@) == assoc_str(ps@.skip(i as int), k@),
        decreases n - i,
    {
        proof {
            assert(ps@.skip(i as int)[0] == ps@[i as int]);
        }
        if str_eq(ps[i].0.as_str(), k) {
            return Some(&ps[i].1);
        }
        proof {
            assert(ps@.skip(i as int).drop_first() =~= ps@.skip(i + 1));
        }
        i += 1;
    }
    proof {
        assert(ps@.skip(i as int).len() == 0);
    }
    None
}

/// The position of a language among the grouped titles built so far.
fn find_alt(alt: &Vec<(String, Vec<String>)>, k: &String) -> (r: Option<usize>)
    ensures
        match r {
            Some(i) => i < alt@.len() && alt@[i as int].0@ == k@ && forall|j: int|
                0 <= j < i ==> alt@[j].0@ != k@,
            None => forall|j: int| 0 <= j < alt@.len() ==> alt@[j].0@ != k@,
        },
{
    let n = alt.len();
    let mut i: usize = 0;
    while i < n
        invariant
            0 <= i <= n,
            n == alt@.len(),
            forall|j: int| 0 <= j < i ==> alt@[j].0@ != k@,
        decreases n - i,
    {
        if str_eq(alt[i].0.as_str(), k.as_str()) {
            return Some(i);
        }
        i += 1;
    }
    None
}

impl MangaMetadata {
    /// Builds the work's metadata from a raw record: titles, descriptions
    /// and tag names are carried over, absent language entries are
    /// dropped, and the alternative titles are grouped by language.
    #[verifier::rlimit(60)]
    pub fn from_response(id: String, raw: MangaDataResponse) -> (r: Self)
        ensures
            r.id@ == id@,
            r.titles@ == raw.data.attributes.title@,
            r.descriptions@ == raw.data.attributes.description@,
            r.tags@.len() == raw.data.attributes.tags@.len(),
            forall|i: int|
                0 <= i < r.tags@.len() ==> (#[trigger] r.tags@[i])@
                    == raw.data.attributes.tags@[i].attributes.name@,
            str_views(r.languages@) == langs_of(raw.data.attributes.available_languages@),
            alt_view(r.alt_titles@) == group_pairs(flat_pairs(raw.data.attributes.alt_titles@)),
    {
        let attrs = raw.data.attributes;
        // Group the alternative titles by language.
        let mut alt: Vec<(String, Vec<String>)> = Vec::new();
        let ghost maps0 = attrs.alt_titles@;
        let mut maps = attrs.alt_titles;
        let ghost mut done = Seq::<(Seq<char>, Seq<char>)>::empty();
        proof {
            assert(alt_view(alt@) =~= group_pairs(done));
            assert(flat_pairs(maps0) =~= done + flat_pairs(maps@));
        }
        while maps.len() > 0
            invariant
                flat_pairs(maps0) == done + flat_pairs(maps@),
                alt_view(alt@) == group_pairs(done),
            decreases maps@.len(),
        {
            let ghost maps_before = maps@;
            let m = maps.remove(0);
            proof {
                assert(maps_before.remove(0) =~= maps_before.drop_first());
                assert(m == maps_before[0]);
            }
            let ghost pairs0 = m@;
            let mut pairs = m;
            while pairs.len() > 0
                invariant
                    flat_pairs(maps0) == done + pair_views(pairs@) + flat_pairs(maps@),
                    alt_view(alt@) == group_pairs(done),
                decreases pairs@.len(),
            {
                let ghost pairs_before = pairs@;
                let p = pairs.remove(0);
                proof {
                    assert(pairs_before.remove(0) =~= pairs_before.drop_first());
                    assert(p == pairs_before[0]);
                    assert(pair_views(pairs_before) =~= seq![(p.0@, p.1@)] + pair_views(pairs@));
                }
                let ghost pv = (p.0@, p.1@);
                let ghost acc = alt_view(alt@);
                proof {
                    lemma_find_lang(acc, pv.0);
                    assert(done.push(pv).drop_last() =~= done);
                    assert(done.push(pv).last() == pv);
                }
                match find_alt(&alt, &p.0) {
                    Some(i) => {
                        proof {
                            assert(acc[i as int].0 == pv.0);
                            assert(find_lang(acc, pv.0) == i) by {
                                let f = find_lang(acc, pv.0);
                                if f < i {
                                    assert(alt@[f].0@ != pv.0);
                                } else if f > i {
                                    assert(acc[i as int].0 != pv.0);
                                }
                            }
                        }
                        let ghost alt_before = alt@;
                        let mut entry = alt.remove(i);
                        entry.1.push(p.1);
                        alt.insert(i, entry);
                        proof {
                            assert(alt@ =~= alt_before.update(
                                i as int,
                                (alt_before[i as int].0, alt@[i as int].1),
                            ));
                            assert(alt@[i as int].1@ =~= alt_before[i as int].1@.push(
                                pairs_before[0].1,
                            ));
                            assert(str_views(alt@[i as int].1@) =~= str_views(
                                alt_before[i as int].1@,
                            ).push(pv.1));
                            assert(alt_view(alt@) =~= acc.update(
                                i as int,
                                (acc[i as int].0, acc[i as int].1.push(pv.1)),
                            ));
                            assert(alt_view(alt@) =~= group_pairs(done.push(pv)));
                            done = done.push(pv);
                            assert(flat_pairs(maps0) =~= done + pair_views(pairs@) + flat_pairs(
                                maps@,
                            ));
                        }
                    },
                    None => {
                        proof {
                            assert(find_lang(acc, pv.0) == -1) by {
                                let f = find_lang(acc, pv.0);
                                if f != -1 {
                                    assert(alt@[f].0@ != pv.0);
                                }
                            }
                        }
                        alt.push((p.0, vec![p.1]));
                        proof {
                            assert(alt@.last().1@ =~= seq![pairs_before[0].1]);
                            assert(str_views(alt@.last().1@) =~= seq![pv.1]);
                            assert(alt_view(alt@) =~= acc.push((pv.0, seq![pv.1])));
                            assert(alt_view(alt@) =~= group_pairs(done.push(pv)));
                            done = done.push(pv);
                            assert(flat_pairs(maps0) =~= done + pair_views(pairs@) + flat_pairs(
                                maps@,
                            ));
                        }
                    },
                }
            }
            proof {
                assert(pair_views(pairs@) =~= Seq::<(Seq<char>, Seq<char>)>::empty());
                assert(flat_pairs(maps0) =~= done + flat_pairs(maps@));
            }
        }
        proof {
            assert(flat_pairs(maps@) =~= Seq::<(Seq<char>, Seq<char>)>::empty());
            assert(done =~= flat_pairs(maps0));
        }
        // Keep the languages that are present.
        let ghost langs0 = attrs.available_languages@;
        let mut ls = attrs.available_languages;
        let mut languages: Vec<String> = Vec::new();
        proof {
            assert(str_views(languages@) =~= Seq::<Seq<char>>::empty());
            assert(langs_of(langs0) =~= str_views(languages@) + langs_of(ls@));
        }
        while ls.len() > 0
            invariant
                langs_of(langs0) == str_views(languages@) + langs_of(ls@),
            decreases ls@.len(),
        {
            let ghost before = ls@;
            let l = ls.remove(0);
            proof {
                assert(before.remove(0) =~= before.drop_first());
                assert(l == before[0]);
            }
            match l {
                Some(lang) => {
                    languages.push(lang);
                    proof {
                        assert(str_views(languages@) =~= str_views(languages@.drop_last()) + seq![
                            languages@.last()@,
                        ]);
                        assert(langs_of(langs0) =~= str_views(languages@) + langs_of(ls@));
                    }
                },
                None => {
                    proof {
                        assert(langs_of(langs0) =~= str_views(languages@) + langs_of(ls@));
                    }
                },
            }
        }
        proof {
            assert(langs_of(ls@) =~= Seq::<Seq<char>>::empty());
            assert(str_views(languages@) =~= langs_of(langs0));
        }
        // The tag names, one list per tag.
        let ghost tags0 = attrs.tags@;
        let mut ts = attrs.tags;
        let mut tags: Vec<Vec<(String, String)>> = Vec::new();
        while ts.len() > 0
            invariant
                tags@.len() + ts@.len() == tags0.len(),
                ts@ == tags0.skip(tags@.len() as int),
                forall|j: int|
                    0 <= j < tags@.len() ==> (#[trigger] tags@[j])@ == tags0[j].attributes.name@,
            decreases ts@.len(),
        {
            let ghost before = ts@;
            let t = ts.remove(0);
            proof {
                assert(before.remove(0) =~= before.drop_first());
                assert(t == before[0]);
                assert(before[0] == tags0[tags@.len() as int]);
                assert(before.drop_first() =~= tags0.skip(tags@.len() as int + 1));
            }
            tags.push(t.attributes.name);
        }
        MangaMetadata {
            id,
            titles: attrs.title,
            alt_titles: alt,
            languages,
            descriptions: attrs.description,
            tags,
        }
    }

    /// The work's title in the preferred language, or the first title
    /// known, or nothing when there is none at all.
    pub fn get_title(&self, preferred_language: &str) -> (r: Option<String>)
        ensures
            ({
                let found = assoc_str(self.titles@, preferred_language@);
                match r {
                    Some(t) => (found is Some && t@ == found->0) || (found is None
                        && self.titles@.len() > 0 && t@ == self.titles@[0].1@),
                    None => found is None && self.titles@.len() == 0,
                }
            }),
    {
        match assoc_get(&self.titles, preferred_language) {
            Some(t) => Some(t.clone()),
            None => if self.titles.len() > 0 {
                Some(self.titles[0].1.clone())
            } else {
                None
            },
        }
    }

    /// The work's description in the preferred language, or the first
    /// description known, or nothing when there is none at all.
    pub fn get_description(&self, preferred_language: &str) -> (r: Option<String>)
        ensures
            ({
                let found = assoc_str(self.descriptions@, preferred_language@);
                match r {
                    Some(t) => (found is Some && t@ == found->0) || (found is None
                        && self.descriptions@.len() > 0 && t@ == self.descriptions@[0].1@),
                    None => found is None && self.descriptions@.len() == 0,
                }
            }),
    {
        match assoc_get(&self.descriptions, preferred_language) {
            Some(t) => Some(t.clone()),
            None => if self.descriptions.len() > 0 {
                Some(self.descriptions[0].1.clone())
            } else {
                None
            },
        }
    }
}

} // verus!
