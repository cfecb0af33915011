//! Cover art metadata: conversion from raw cover records and the checks
//! before a downloaded cover is written to disk.

use vstd::prelude::*;
use vstd::string::StringExecFns;

use crate::chapter::{display_volume, ImageDownloadError};
use crate::mime::{extension_for, extension_of};
use crate::text::normalize_decimal;
use crate::types::CoverArtData;
use crate::utils::{header_chars, is_visible_ascii};

verus! {

/// One cover image: the volume it belongs to and its remote file path.
pub struct CoverArt {
    pub volume: String,
    pub url: String,
}

impl Clone for CoverArt {
    fn clone(&self) -> (r: Self)
        ensures
            r.volume@ == self.volume@,
            r.url@ == self.url@,
    {
        CoverArt { volume: self.volume.clone(), url: self.url.clone() }
    }
}

/// The (volume, path) pairs of a sequence of covers.
pub open spec fn cover_views(cs: Seq<CoverArt>) -> Seq<(Seq<char>, Seq<char>)> {
    cs.map_values(|c: CoverArt| (c.volume@, c.url@))
}

/// The covers built from raw records for a work: a record without a volume
/// is dropped, the rest keep their order, and each cover's path joins the
/// work's identifier with the record's filename.
pub open spec fn converted_covers(id: Seq<char>, rs: Seq<CoverArtData>) -> Seq<
    (Seq<char>, Seq<char>),
>
    decreases rs.len(),
{
    if rs.len() == 0 {
        Seq::<(Seq<char>, Seq<char>)>::empty()
    } else {
        (if rs[0].attributes.volume is Some {
            seq![
                (
                    rs[0].attributes.volume->0@,
                    id + "/"@ + rs[0].attributes.file_name@,
                ),
            ]
        } else {
            Seq::<(Seq<char>, Seq<char>)>::empty()
        }) + converted_covers(id, rs.drop_first())
    }
}

impl CoverArt {
    /// Converts one raw cover record, keeping it only when it names a
    /// volume.
    pub fn from_data(id: &str, data: CoverArtData) -> (r: Option<Self>)
        ensures
            r is Some <==> data.attributes.volume is Some,
            r is Some ==> r->0.volume@ == data.attributes.volume->0@ && r->0.url@ == id@ + "/"@
                + data.attributes.file_name@,
    {
        let volume = match data.attributes.volume {
            Some(v) => v,
            None => {
                return None;
            },
        };
        let mut url = String::from_str(id);
        url.append("/");
        url.append(data.attributes.file_name.as_str());
        Some(CoverArt { volume, url })
    }

    /// Converts one page of raw cover records.
    pub fn from_response(id: &str, raw: Vec<CoverArtData>) -> (r: Vec<Self>)
        ensures
            cover_views(r@) == converted_covers(id@, raw@),
    {
        let ghost raw0 = raw@;
        let mut raw = raw;
        let mut out: Vec<CoverArt> = Vec::new();
        proof {
            assert(converted_covers(id@, raw0) =~= cover_views(out@) + converted_covers(
                id@,
                raw@,
            ));
        }
        while raw.len() > 0
            invariant
                converted_covers(id@, raw0) == cover_views(out@) + converted_covers(id@, raw@),
            decreases raw@.len(),
        {
            let ghost before = raw@;
            let r = raw.remove(0);
            proof {
                assert(before.remove(0) =~= before.drop_first());
                assert(r == before[0]);
            }
            match Self::from_data(id, r) {
                Some(c) => {
                    out.push(c);
                    proof {
                        assert(cover_views(out@) =~= cover_views(out@.drop_last()) + seq![
                            (out@.last().volume@, out@.last().url@),
                        ]);
                        assert(converted_covers(id@, raw0) =~= cover_views(out@)
                            + converted_covers(id@, raw@));
                    }
                },
                None => {
                    proof {
                        assert(converted_covers(id@, raw0) =~= cover_views(out@)
                            + converted_covers(id@, raw@));
                    }
                },
            }
        }
        proof {
            assert(converted_covers(id@, raw@) =~= Seq::<(Seq<char>, Seq<char>)>::empty());
            assert(cover_views(out@) =~= converted_covers(id@, raw0));
        }
        out
    }

    /// The volume name shown to the user: a numeric label is normalized
    /// and announced as a volume.
    pub fn get_volume(&self) -> (r: String)
        ensures
            r@ == display_volume(self.volume@),
    {
        match normalize_decimal(self.volume.as_str()) {
            Some(c) => {
                let mut s = String::from_str("Volume ");
                s.append(c.as_str());
                s
            },
            None => self.volume.clone(),
        }
    }

    /// Checks a downloaded cover's content type and names its file: the
    /// response must declare a legible content type with a known
    /// extension.
    pub fn plan_cover_file(&self, content_type: Option<&Vec<u8>>) -> (r: Result<
        String,
        ImageDownloadError,
    >)
        ensures
            match content_type {
                None => r == Err::<String, ImageDownloadError>(ImageDownloadError::NoContentType),
                Some(bs) => if !is_visible_ascii(bs@) {
                    r == Err::<String, ImageDownloadError>(ImageDownloadError::IllegibleMime)
                } else if extension_of(header_chars(bs@)) is None {
                    r == Err::<String, ImageDownloadError>(ImageDownloadError::Mime)
                } else {
                    r is Ok && r->Ok_0@ == "cover."@ + extension_of(header_chars(bs@))->0
                },
            },
    {
        let ext = match extension_for(content_type) {
            Ok(e) => e,
            Err(e) => {
                return Err(e);
            },
        };
        let mut name = String::from_str("cover.");
        name.append(ext.as_str());
        Ok(name)
    }
}

} // verus!
