//! Where a persisted index lives: a filesystem path, or a bucket and key in
//! an object store.  This module only resolves the storage description; the
//! reads and writes themselves happen at the system's edge.

use vstd::prelude::*;
use vstd::string::StringSliceAdditionalSpecFns;

verus! {

/// The `s3://` scheme prefix, as bytes.
pub open spec fn s3_prefix() -> Seq<u8> {
    seq![0x73u8, 0x33u8, 0x3au8, 0x2fu8, 0x2fu8]
}

/// Index of the first `/` in `s`, or `s.len()` if there is none.
pub open spec fn slash_pos(s: Seq<u8>) -> int
    decreases s.len(),
{
    if s.len() == 0 {
        0
    } else if s[0] == 0x2fu8 {
        0
    } else {
        1 + slash_pos(s.skip(1))
    }
}

proof fn lemma_slash_pos_is(s: Seq<u8>, j: int)
    requires
        0 <= j <= s.len(),
        forall|k: int| 0 <= k < j ==> s[k] != 0x2fu8,
        j < s.len() ==> s[j] == 0x2fu8,
    ensures
        slash_pos(s) == j,
    decreases j,
{
    if j > 0 {
        assert forall|k: int| 0 <= k < j - 1 implies s.skip(1)[k] != 0x2fu8 by {
            assert(s.skip(1)[k] == s[k + 1]);
        }
        if j - 1 < s.skip(1).len() {
            assert(s.skip(1)[j - 1] == s[j]);
        }
        lemma_slash_pos_is(s.skip(1), j - 1);
    }
}

/// A local file that holds the persisted index.
pub struct FileSystemStorage {
    /// The path, as the bytes of the string the storage was resolved from.
    pub path: Vec<u8>,
}

/// A bucket and key in an object store.
pub struct S3Location {
    pub bucket: Vec<u8>,
    pub key: Vec<u8>,
}

/// A resolved storage description.
pub enum IndexStorage {
    FileSystem(FileSystemStorage),
    S3(S3Location),
}

/// Why a storage description failed to resolve.
#[derive(PartialEq, Eq, Structural, Debug, Clone, Copy)]
pub enum StorageParseError {
    /// An `s3://` URL with no `/` between bucket and key.
    InvalidS3Url,
}

/// Whether the description names an object store.
pub open spec fn names_s3(b: Seq<u8>) -> bool {
    b.len() >= 5 && b.take(5) == s3_prefix()
}

impl IndexStorage {
    /// Resolves a storage description: everything after `s3://` is split at
    /// the first `/` into bucket and key; any other string is a filesystem
    /// path.
    pub fn new(path: &str) -> (r: Result<IndexStorage, StorageParseError>)
        ensures
            ({
                let b = path.spec_bytes();
                match r {
                    Ok(IndexStorage::FileSystem(f)) => !names_s3(b) && f.path@ == b,
                    Ok(IndexStorage::S3(l)) => {
                        &&& names_s3(b)
                        &&& slash_pos(b.skip(5)) < b.skip(5).len()
                        &&& l.bucket@ == b.skip(5).take(slash_pos(b.skip(5)))
                        &&& l.key@ == b.skip(5).skip(slash_pos(b.skip(5)) + 1)
                    },
                    Err(StorageParseError::InvalidS3Url) => names_s3(b) && slash_pos(b.skip(5))
                        == b.skip(5).len(),
                }
            }),
    {
        let b = path.as_bytes();
        let is_s3 = b.len() >= 5 && b[0] == 0x73u8 && b[1] == 0x33u8 && b[2] == 0x3au8 && b[3]
            == 0x2fu8 && b[4] == 0x2fu8;
        proof {
            if b@.len() >= 5 {
                assert(b@.take(5)[0] == b@[0]);
                assert(b@.take(5)[1] == b@[1]);
                assert(b@.take(5)[2] == b@[2]);
                assert(b@.take(5)[3] == b@[3]);
                assert(b@.take(5)[4] == b@[4]);
                if is_s3 {
                    assert(b@.take(5) =~= s3_prefix());
                }
                if b@.take(5) == s3_prefix() {
                    assert(b@[0] == 0x73u8 && b@[1] == 0x33u8 && b@[2] == 0x3au8 && b@[3]
                        == 0x2fu8 && b@[4] == 0x2fu8);
                }
            }
        }
        if !is_s3 {
            return Ok(IndexStorage::FileSystem(FileSystemStorage { path: to_vec(b) }));
        }
        let mut e: usize = 5;
        while e < b.len() && b[e] != 0x2fu8
            invariant
                5 <= e <= b@.len(),
                forall|k: int| 5 <= k < e ==> b@[k] != 0x2fu8,
            decreases b@.len() - e,
        {
            e += 1;
        }
        proof {
            let rest = b@.skip(5);
            assert forall|k: int| 0 <= k < e - 5 implies rest[k] != 0x2fu8 by {
                assert(rest[k] == b@[k + 5]);
            }
            if e < b@.len() {
                assert(rest[e - 5] == b@[e as int]);
            }
            lemma_slash_pos_is(rest, e - 5);
        }
        if e == b.len() {
            return Err(StorageParseError::InvalidS3Url);
        }
        let bucket = slice_range_to_vec(b, 5, e);
        let key = slice_range_to_vec(b, e + 1, b.len());
        proof {
            assert(b@.subrange(5, e as int) =~= b@.skip(5).take(e - 5));
            assert(b@.subrange(e + 1, b@.len() as int) =~= b@.skip(5).skip(e - 5 + 1));
        }
        Ok(IndexStorage::S3(S3Location { bucket, key }))
    }
}

fn to_vec(b: &[u8]) -> (r: Vec<u8>)
    ensures
        r@ == b@,
{
    let mut r: Vec<u8> = Vec::new();
    let mut i: usize = 0;
    while i < b.len()
        invariant
            i <= b@.len(),
            r@ == b@.take(i as int),
        decreases b@.len() - i,
    {
        r.push(b[i]);
        proof {
            assert(b@.take(i + 1) =~= b@.take(i as int).push(b@[i as int]));
        }
        i += 1;
    }
    proof {
        assert(b@.take(b@.len() as int) =~= b@);
    }
    r
}

fn slice_range_to_vec(b: &[u8], from: usize, to: usize) -> (r: Vec<u8>)
    requires
        from <= to <= b@.len(),
    ensures
        r@ == b@.subrange(from as int, to as int),
{
    let mut r: Vec<u8> = Vec::new();
    let mut i: usize = from;
    while i < to
        invariant
            from <= i <= to <= b@.len(),
            r@ == b@.subrange(from as int, i as int),
        decreases to - i,
    {
        r.push(b[i]);
        proof {
            assert(b@.subrange(from as int, i + 1) =~= b@.subrange(from as int, i as int).push(
                b@[i as int],
            ));
        }
        i += 1;
    }
    r
}

} // verus!
