//! Content-derived identities of sample files.

use vstd::prelude::*;
use sha2::{Digest, Sha256};
use crate::common::text::push_char;
use vstd::string::StringSliceAdditionalSpecFns;

verus! {

broadcast use vstd::string::group_string_axioms;

/// The SHA-256 digest of `data`, as the `sha2` crate computes it.
pub uninterp spec fn sha256_digest(data: Seq<u8>) -> Seq<u8>;

/// Hashes bytes with `sha2::Sha256` (`Digest::digest`).
///
/// The contract names the digest and states its documented length of 32
/// bytes; the digest's bytes themselves are not stated.
#[verifier::external_body]
fn sha256(data: &[u8]) -> (r: Vec<u8>)
    ensures
        r@ == sha256_digest(data@),
        r@.len() == 32,
{
    <Sha256 as Digest>::digest(data).to_vec()
}

/// The lower-case hexadecimal digit of a value below 16.
pub open spec fn hex_digit(v: u8) -> char {
    if v < 10 {
        ((v + 48) as u8) as char
    } else {
        ((v + 87) as u8) as char
    }
}

/// Each byte as two lower-case hexadecimal digits, high nibble first.
pub open spec fn hex_of(bytes: Seq<u8>) -> Seq<char>
    decreases bytes.len(),
{
    if bytes.len() == 0 {
        Seq::empty()
    } else {
        hex_of(bytes.drop_last()).push(hex_digit(bytes.last() / 16)).push(
            hex_digit(bytes.last() % 16),
        )
    }
}

fn hex_char(v: u8) -> (r: char)
    requires
        v < 16,
    ensures
        r == hex_digit(v),
{
    if v < 10 {
        (v + 48) as char
    } else {
        (v + 87) as char
    }
}

/// Writes bytes as lower-case hexadecimal, two digits per byte.
pub fn hex_encode(bytes: &[u8]) -> (s: String)
    ensures
        s@ == hex_of(bytes@),
{
    let mut s = String::new();
    let mut i: usize = 0;
    while i < bytes.len()
        invariant
            i <= bytes@.len(),
            s@ == hex_of(bytes@.take(i as int)),
        decreases bytes@.len() - i,
    {
        let b = bytes[i];
        proof {
            assert(bytes@.take(i + 1).drop_last() =~= bytes@.take(i as int));
            assert(bytes@.take(i + 1).last() == b);
        }
        push_char(&mut s, hex_char(b / 16));
        push_char(&mut s, hex_char(b % 16));
        i = i + 1;
    }
    assert(bytes@.take(bytes@.len() as int) =~= bytes@);
    s
}

/// The hex text of `n` bytes has `2n` characters, each a lower-case hex digit.
pub proof fn law_hex_text_shape(bytes: Seq<u8>)
    ensures
        hex_of(bytes).len() == 2 * bytes.len(),
        forall|i: int| 0 <= i < hex_of(bytes).len() ==> {
            let c = #[trigger] hex_of(bytes)[i];
            ('0' <= c <= '9') || ('a' <= c <= 'f')
        },
    decreases bytes.len(),
{
    if bytes.len() > 0 {
        law_hex_text_shape(bytes.drop_last());
        let prev = hex_of(bytes.drop_last());
        let hi = bytes.last() / 16;
        let lo = bytes.last() % 16;
        assert(hex_of(bytes) == prev.push(hex_digit(hi)).push(hex_digit(lo)));
        assert forall|i: int| 0 <= i < hex_of(bytes).len() implies {
            let c = #[trigger] hex_of(bytes)[i];
            ('0' <= c <= '9') || ('a' <= c <= 'f')
        } by {
            if i < prev.len() {
                assert(hex_of(bytes)[i] == prev[i]);
            } else if i == prev.len() {
                assert(hex_of(bytes)[i] == hex_digit(hi));
            } else {
                assert(hex_of(bytes)[i] == hex_digit(lo));
            }
        }
    }
}

/// At most the first 64 KiB of a file's contents.
pub open spec fn hashed_prefix(data: Seq<u8>) -> Seq<u8> {
    if data.len() > 65536 {
        data.take(65536)
    } else {
        data
    }
}

/// The hash text of a sample file: the hex SHA-256 of its first 64 KiB when
/// it could be read, else of the path's UTF-8 bytes.
pub open spec fn file_hash(path: &str, contents: Option<Seq<u8>>) -> Seq<char> {
    match contents {
        Some(data) => hex_of(sha256_digest(hashed_prefix(data))),
        None => hex_of(sha256_digest(path.spec_bytes())),
    }
}

/// Hashes a sample file from its contents, or from its path when the file
/// could not be read.
pub fn compute_file_hash(path: &str, contents: Option<&[u8]>) -> (r: String)
    ensures
        r@ == file_hash(path, match contents {
            Some(d) => Some(d@),
            None => None,
        }),
        r@.len() == 64,
{
    match contents {
        Some(data) => {
            let n = if data.len() > 65536 {
                65536
            } else {
                data.len()
            };
            let prefix = &data[0..n];
            assert(prefix@ =~= hashed_prefix(data@));
            let digest = sha256(prefix);
            proof {
                law_hex_text_shape(digest@);
            }
            hex_encode(digest.as_slice())
        },
        None => {
            let digest = sha256(path.as_bytes());
            proof {
                law_hex_text_shape(digest@);
            }
            hex_encode(digest.as_slice())
        },
    }
}

/// A sample file's identity: the hash of its contents and its path.
pub struct SampleId {
    pub hash: String,
    pub path: String,
}

impl SampleId {
    /// The identity of the file at `path`, given the file's contents when it
    /// could be read.
    pub fn from_path(path: &str, contents: Option<&[u8]>) -> (r: Self)
        ensures
            r.hash@ == file_hash(path, match contents {
                Some(d) => Some(d@),
                None => None,
            }),
            r.hash@.len() == 64,
            r.path@ == path@,
    {
        let hash = compute_file_hash(path, contents);
        SampleId { hash, path: path.to_owned() }
    }

    /// The identity of decoded sample data, given as the little-endian bytes
    /// of its 32-bit samples in order: the hash covers the first 16384
    /// samples, which are the first 64 KiB of those bytes.
    pub fn from_data(sample_bytes: &[u8], path: &str) -> (r: Self)
        ensures
            r.hash@ == hex_of(sha256_digest(hashed_prefix(sample_bytes@))),
            r.hash@.len() == 64,
            r.path@ == path@,
    {
        let hash = compute_file_hash(path, Some(sample_bytes));
        SampleId { hash, path: path.to_owned() }
    }
}

} // verus!
