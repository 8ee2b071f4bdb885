//! Checking assets against a recorded checksum.

use sha2::{Digest, Sha256};
use vstd::prelude::*;

verus! {

/// The SHA-256 digest of `data`, written as 64 lower-case hex digits.
pub uninterp spec fn sha256_hex(data: Seq<u8>) -> Seq<char>;

/// Relies on sha2's `Sha256::digest` for the digest and on the `LowerHex`
/// impl of its output array for the hex text.
#[verifier::external_body]
fn digest_hex(data: &Vec<u8>) -> (r: String)
    ensures
        r@ == sha256_hex(data@),
{
    format!("{:x}", Sha256::digest(data))
}

/// File names left out of the checksum.
pub open spec fn ignored_name(name: Seq<char>) -> bool {
    name == ".DS_Store"@ || name == "checksum"@
}

/// The expected checksum of the asset directory `directory`.
#[derive(Clone, Debug)]
pub struct Integrity {
    expected: String,
    directory: String,
}

impl Integrity {
    pub fn new(expected: String, directory: String) -> (r: Self)
        ensures
            r.expected() == expected@,
            r.dir() == directory@,
    {
        Self { expected, directory }
    }

    /// The checksum the assets should have.
    pub closed spec fn expected(&self) -> Seq<char> {
        self.expected@
    }

    /// The path of the asset directory.
    pub closed spec fn dir(&self) -> Seq<char> {
        self.directory@
    }

    /// The asset directory.
    pub fn directory(&self) -> (r: &String)
        ensures
            r@ == self.dir(),
    {
        &self.directory
    }

    /// A file of this name does not count towards the checksum.
    pub fn is_ignored(name: &str) -> (r: bool)
        ensures
            r == ignored_name(name@),
    {
        let name = name.to_owned();
        name == ".DS_Store".to_owned() || name == "checksum".to_owned()
    }

    /// The hex digest `digest` is the expected checksum.
    pub fn matches(&self, digest: &String) -> (r: bool)
        ensures
            r == (self.expected() == digest@),
    {
        self.expected == *digest
    }

    /// Succeeds exactly where the SHA-256 digest of `data`, the contents of
    /// the asset files one after another, is the expected checksum.
    pub fn check_sum(&self, data: &Vec<u8>) -> (r: Result<(), String>)
        ensures
            r is Ok <==> self.expected() == sha256_hex(data@),
            r matches Err(m) ==> m@ == "Integrity check failed"@,
    {
        let digest = digest_hex(data);
        if self.matches(&digest) {
            Ok(())
        } else {
            Err("Integrity check failed".to_owned())
        }
    }
}

} // verus!
