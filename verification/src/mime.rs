//! File-extension lookup for a declared content type, and the shared step
//! that turns a response's content-type header into an extension.

use vstd::prelude::*;

use crate::chapter::ImageDownloadError;
use crate::utils::{header_chars, is_visible_ascii, read_header_text};

verus! {

/// The file extensions known for a content type, preferred first, or
/// nothing for an unknown type. A function of the content type alone.
pub uninterp spec fn mime_extensions_of(ct: Seq<char>) -> Option<Seq<Seq<char>>>;

/// Relies on mime_guess::get_mime_extensions_str: the known extensions of
/// a MIME type string depend on that string alone, and an unknown type has
/// none.
#[verifier::external_body]
pub(crate) fn mime_extensions(ct: &str) -> (r: Option<Vec<String>>)
    ensures
        r is Some <==> mime_extensions_of(ct@) is Some,
        r is Some ==> r->0.deep_view() == mime_extensions_of(ct@)->0,
{
    mime_guess::get_mime_extensions_str(ct).map(
        |exts| exts.iter().map(|e| (*e).to_string()).collect(),
    )
}

/// The extension chosen for a content type: the first known one.
pub open spec fn extension_of(ct: Seq<char>) -> Option<Seq<char>> {
    match mime_extensions_of(ct) {
        Some(exts) => if exts.len() > 0 {
            Some(exts[0])
        } else {
            None
        },
        None => None,
    }
}

/// Derives a file extension from a response's content-type header: the
/// header must be present, readable as text, and name a type with a known
/// extension.
pub fn extension_for(content_type: Option<&Vec<u8>>) -> (r: Result<String, ImageDownloadError>)
    ensures
        match content_type {
            None => r == Err::<String, ImageDownloadError>(ImageDownloadError::NoContentType),
            Some(bs) => if !is_visible_ascii(bs@) {
                r == Err::<String, ImageDownloadError>(ImageDownloadError::IllegibleMime)
            } else if extension_of(header_chars(bs@)) is None {
                r == Err::<String, ImageDownloadError>(ImageDownloadError::Mime)
            } else {
                r is Ok && r->Ok_0@ == extension_of(header_chars(bs@))->0
            },
        },
{
    match content_type {
        None => Err(ImageDownloadError::NoContentType),
        Some(bs) => {
            let ct = match read_header_text(bs) {
                Some(ct) => ct,
                None => {
                    return Err(ImageDownloadError::IllegibleMime);
                },
            };
            let exts = match mime_extensions(ct.as_str()) {
                Some(exts) => exts,
                None => {
                    return Err(ImageDownloadError::Mime);
                },
            };
            if exts.len() == 0 {
                return Err(ImageDownloadError::Mime);
            }
            let ext = exts[0].clone();
            proof {
                assert(exts.deep_view()[0] == exts@[0]@);
            }
            Ok(ext)
        },
    }
}

} // verus!
