//! Artifact helpers: the checksum a runner reports for an uploaded file.
//! Reading the file is I/O and happens outside the library; the checksum of
//! the bytes read is computed here.

use vstd::prelude::*;

use sha2::Digest;

verus! {

/// The lowercase hexadecimal digit for a value below sixteen.
pub open spec fn hex_digit(d: int) -> char {
    if d < 10 {
        crate::strutil::dec_digit(d)
    } else if d == 10 {
        'a'
    } else if d == 11 {
        'b'
    } else if d == 12 {
        'c'
    } else if d == 13 {
        'd'
    } else if d == 14 {
        'e'
    } else {
        'f'
    }
}

/// The lowercase hexadecimal encoding of a byte string: two digits per byte,
/// high nibble first.
pub open spec fn hex_of(bytes: Seq<u8>) -> Seq<char> {
    Seq::new(
        bytes.len() * 2,
        |i: int|
            if i % 2 == 0 {
                hex_digit(bytes[i / 2] as int / 16)
            } else {
                hex_digit(bytes[i / 2] as int % 16)
            },
    )
}

/// The SHA-256 digest of a byte string, named but not written out: it is a
/// function of the input alone, computed only by the outside call below.
pub uninterp spec fn sha256_of(bytes: Seq<u8>) -> Seq<u8>;

/// Relies on `sha2::Sha256::digest`: the 32-byte SHA-256 digest of the input,
/// a function of the input alone.
#[verifier::external_body]
fn sha256_digest(data: &Vec<u8>) -> (r: Vec<u8>)
    ensures
        r@ == sha256_of(data@),
        r@.len() == 32,
{
    sha2::Sha256::digest(data.as_slice()).to_vec()
}

/// Relies on `hex::encode`: two lowercase hexadecimal digits per input byte,
/// high nibble first.
#[verifier::external_body]
fn hex_encode(data: &Vec<u8>) -> (r: String)
    ensures
        r@ == hex_of(data@),
{
    hex::encode(data.as_slice())
}

/// Artifact uploader; the HTTP transfer itself happens outside the library.
pub struct ArtifactUploader {
    pub base_path: String,
}

impl ArtifactUploader {
    pub fn new(base_path: String) -> (r: Self)
        ensures
            r.base_path == base_path,
    {
        ArtifactUploader { base_path }
    }

    /// The SHA-256 checksum of a file's bytes, as 64 lowercase hexadecimal
    /// digits.
    pub fn calculate_checksum(data: &Vec<u8>) -> (r: String)
        ensures
            r@ == hex_of(sha256_of(data@)),
            r@.len() == 64,
    {
        let digest = sha256_digest(data);
        hex_encode(&digest)
    }
}

} // verus!
