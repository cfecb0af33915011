//! A downloadable image: its remote path and the content hash embedded in
//! its filename, against which the downloaded payload is verified.

use vstd::prelude::*;
use vstd::string::StrSliceExecFns;
use vstd::string::StringExecFns;

use crate::chapter::ChapterError;
use crate::text::{hex_value, is_hex_char};
use sha2::Digest;

verus! {

/// The digest that SHA-256 assigns to a byte sequence. The function of the
/// bytes alone; what it is on given bytes is known only to the hasher.
pub uninterp spec fn sha256_of(bytes: Seq<u8>) -> Seq<u8>;

/// Relies on sha2::Sha256 through the one-shot `Digest::digest` call: the
/// digest depends on the input bytes alone and is 32 bytes long.
#[verifier::external_body]
fn sha256(bytes: &Vec<u8>) -> (r: Vec<u8>)
    ensures
        r@ == sha256_of(bytes@),
        r@.len() == 32,
{
    sha2::Sha256::digest(bytes.as_slice()).as_slice().to_vec()
}

fn bytes_eq(a: &Vec<u8>, b: &Vec<u8>) -> (r: bool)
    ensures
        r == (a@ == b@),
{
    if a.len() != b.len() {
        return false;
    }
    let mut i: usize = 0;
    while i < a.len()
        invariant
            0 <= i <= a@.len(),
            a@.len() == b@.len(),
            forall|j: int| 0 <= j < i ==> a@[j] == b@[j],
        decreases a@.len() - i,
    {
        if a[i] != b[i] {
            return false;
        }
        i += 1;
    }
    proof {
        assert(a@ =~= b@);
    }
    true
}

/// Whether a run of 64 hexadecimal characters starts at index `i` of `s`.
pub open spec fn hex_run_at(s: Seq<char>, i: int) -> bool {
    0 <= i && i + 64 <= s.len() && forall|j: int| i <= j < i + 64 ==> is_hex_char(#[trigger] s[j])
}

/// The bytes spelled by a sequence of hexadecimal characters, two
/// characters per byte.
pub open spec fn hex_decode(s: Seq<char>) -> Seq<u8> {
    Seq::new((s.len() / 2) as nat, |k: int| (hex_value(s[2 * k]) * 16 + hex_value(s[2 * k + 1])) as u8)
}

fn hex_val_of(c: char) -> (r: u8)
    requires
        is_hex_char(c),
    ensures
        r == hex_value(c),
{
    match c {
        '0' => 0,
        '1' => 1,
        '2' => 2,
        '3' => 3,
        '4' => 4,
        '5' => 5,
        '6' => 6,
        '7' => 7,
        '8' => 8,
        '9' => 9,
        'a' | 'A' => 10,
        'b' | 'B' => 11,
        'c' | 'C' => 12,
        'd' | 'D' => 13,
        'e' | 'E' => 14,
        _ => 15,
    }
}

/// A downloadable image of a chapter batch.
#[derive(Debug)]
pub struct Image {
    /// The remote path of the image under its asset server.
    pub url: String,
    /// The content hash embedded in the image's filename.
    pub hash: Vec<u8>,
}

/// Whether an image record was correctly built from a batch hash segment
/// and a filename: its path joins the two, and its content hash is the
/// leftmost run of 64 hexadecimal characters of the filename, decoded.
pub open spec fn image_from(img: Image, chapter_hash: Seq<char>, filename: Seq<char>) -> bool {
    exists|i: int|
        #[trigger] hex_run_at(filename, i) && (forall|j: int| 0 <= j < i ==> !hex_run_at(filename, j))
            && img.hash@ == hex_decode(filename.subrange(i, i + 64)) && img.url@ == "/data/"@
            + chapter_hash + "/"@ + filename
}

impl Image {
    /// Builds the image's remote path from the batch hash segment and its
    /// filename, and extracts the content hash embedded in the filename:
    /// the leftmost run of 64 hexadecimal characters, decoded to 32 bytes.
    pub fn new(chapter_hash: &str, filename: &str) -> (r: Result<Image, ChapterError>)
        ensures
            match r {
                Ok(img) => image_from(img, chapter_hash@, filename@),
                Err(e) => e == ChapterError::HashNotFound && forall|i: int|
                    !hex_run_at(filename@, i),
            },
    {
        let n = filename.unicode_len();
        if n < 64 {
            return Err(ChapterError::HashNotFound);
        }
        let mut i: usize = 0;
        while i <= n - 64
            invariant
                0 <= i <= n - 64 + 1,
                64 <= n == filename@.len(),
                forall|j: int| 0 <= j < i ==> !hex_run_at(filename@, j),
            decreases n - i,
        {
            // Check for a run of 64 hexadecimal characters at `i`.
            let mut k: usize = 0;
            let mut run = true;
            while k < 64 && run
                invariant
                    0 <= k <= 64,
                    0 <= i <= n - 64,
                    n == filename@.len(),
                    run ==> forall|j: int|
                        i <= j < i + k ==> is_hex_char(#[trigger] filename@[j]),
                    !run ==> !hex_run_at(filename@, i as int),
                decreases 64 - k, (if run { 1int } else { 0int }),
            {
                let c = filename.get_char(i + k);
                if crate::text::hex_digit(c).is_some() {
                    k += 1;
                } else {
                    proof {
                        assert(!is_hex_char(filename@[i + k]));
                    }
                    run = false;
                }
            }
            if run {
                proof {
                    assert(hex_run_at(filename@, i as int));
                }
                // Decode the run into bytes.
                let mut hash: Vec<u8> = Vec::new();
                let ghost hseq = filename@.subrange(i as int, i + 64);
                let mut m: usize = 0;
                while m < 32
                    invariant
                        0 <= m <= 32,
                        0 <= i,
                        i + 64 <= n == filename@.len(),
                        hseq == filename@.subrange(i as int, i + 64),
                        hex_run_at(filename@, i as int),
                        hash@ =~= hex_decode(hseq).subrange(0, m as int),
                    decreases 32 - m,
                {
                    let c1 = filename.get_char(i + 2 * m);
                    let c2 = filename.get_char(i + 2 * m + 1);
                    proof {
                        assert(is_hex_char(filename@[i + 2 * m]));
                        assert(is_hex_char(filename@[i + 2 * m + 1]));
                        assert(hseq[2 * m] == filename@[i + 2 * m]);
                        assert(hseq[2 * m + 1] == filename@[i + 2 * m + 1]);
                    }
                    let h1 = hex_val_of(c1);
                    let h2 = hex_val_of(c2);
                    proof {
                        assert(hex_value(c1) <= 15 && hex_value(c2) <= 15);
                    }
                    let b: u8 = h1 * 16 + h2;
                    hash.push(b);
                    proof {
                        assert(hash@ =~= hex_decode(hseq).subrange(0, m + 1));
                    }
                    m += 1;
                }
                proof {
                    assert(hash@ =~= hex_decode(hseq));
                }
                let mut url = String::from_str("/data/");
                url.append(chapter_hash);
                url.append("/");
                url.append(filename);
                return Ok(Image { url, hash });
            }
            i += 1;
        }
        proof {
            assert forall|j: int| !hex_run_at(filename@, j) by {
                if 0 <= j <= n - 64 {
                    assert(!hex_run_at(filename@, j));
                }
            }
        }
        Err(ChapterError::HashNotFound)
    }

    /// The remote path of the image.
    pub fn url(&self) -> (r: &str)
        ensures
            r@ == self.url@,
    {
        self.url.as_str()
    }

    /// Whether the payload's SHA-256 digest matches the content hash that
    /// the image's filename declared.
    pub fn verify(&self, body: &Vec<u8>) -> (r: bool)
        ensures
            r == (sha256_of(body@) == self.hash@),
    {
        let digest = sha256(body);
        bytes_eq(&digest, &self.hash)
    }
}

} // verus!
