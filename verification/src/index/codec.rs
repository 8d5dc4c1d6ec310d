//! The self-describing binary form of a persisted index.
//!
//! The format is a five-byte header (four magic bytes and a format version)
//! followed by one eight-byte record per learned n-gram: the id and its
//! count, each as four little-endian bytes.  Record order is irrelevant;
//! decoding what encoding produced restores exactly the original mapping.

use crate::index::Index;
use std::collections::HashMap;
use vstd::prelude::*;
use vstd::std_specs::iter::IteratorSpec;

verus! {

broadcast use vstd::std_specs::hash::group_hash_axioms;

/// The header every serialized index starts with.
pub open spec fn spec_header() -> Seq<u8> {
    seq![0x52u8, 0x4cu8, 0x41u8, 0x49u8, 0x01u8]
}

/// The four little-endian bytes of `x`.
pub open spec fn le_bytes(x: u32) -> Seq<u8> {
    seq![
        (x % 256) as u8,
        ((x / 256) % 256) as u8,
        ((x / 65536) % 256) as u8,
        ((x / 16777216) % 256) as u8,
    ]
}

/// The value four little-endian bytes denote.
pub open spec fn u32_of_le(b0: u8, b1: u8, b2: u8, b3: u8) -> u32 {
    (b0 + b1 * 256 + b2 * 65536 + b3 * 16777216) as u32
}

proof fn lemma_le_round(x: u32)
    ensures
        u32_of_le(le_bytes(x)[0], le_bytes(x)[1], le_bytes(x)[2], le_bytes(x)[3]) == x,
{
    assert(x == x % 256 + (x / 256 % 256) * 256 + (x / 65536 % 256) * 65536 + (x / 16777216 % 256)
        * 16777216) by (nonlinear_arith);
}

/// The mapping the records of `b` denote, folded left to right onto `acc`.
pub open spec fn spec_parse_pairs(b: Seq<u8>, acc: Map<u32, u32>) -> Map<u32, u32>
    decreases b.len(),
{
    if b.len() < 8 {
        acc
    } else {
        let k = u32_of_le(b[0], b[1], b[2], b[3]);
        let v = u32_of_le(b[4], b[5], b[6], b[7]);
        spec_parse_pairs(b.skip(8), acc.insert(k, v))
    }
}

/// The mapping a serialized index denotes, or nothing when the bytes are
/// not a well-formed serialized index.
pub open spec fn spec_parse(b: Seq<u8>) -> Option<Map<u32, u32>> {
    if b.len() >= 5 && b.take(5) == spec_header() && (b.len() - 5) % 8 == 0 {
        Some(spec_parse_pairs(b.skip(5), Map::<u32, u32>::empty()))
    } else {
        None
    }
}

/// Why a byte buffer failed to decode as an index.
#[derive(PartialEq, Eq, Structural, Debug, Clone, Copy)]
pub enum IndexFormatError {
    /// The buffer does not start with the expected magic and version.
    BadHeader,
    /// The records after the header do not fill a whole number of entries.
    BadLength,
}

/// Why a stored index could not be loaded.
#[derive(PartialEq, Eq, Structural, Debug, Clone, Copy)]
pub enum IndexLoadError {
    /// The storage holds no index and creation was not asked for.
    Missing,
    /// The storage holds bytes that do not decode as an index.
    Corrupt(IndexFormatError),
}

fn push_le(r: &mut Vec<u8>, x: u32)
    ensures
        final(r)@ == old(r)@ + le_bytes(x),
{
    r.push((x % 256) as u8);
    r.push((x / 256 % 256) as u8);
    r.push((x / 65536 % 256) as u8);
    r.push((x / 16777216 % 256) as u8);
    proof {
        assert(r@ =~= old(r)@ + le_bytes(x));
    }
}

proof fn lemma_parse_pairs_append(b: Seq<u8>, k: u32, v: u32, acc: Map<u32, u32>)
    requires
        b.len() % 8 == 0,
    ensures
        spec_parse_pairs(b + le_bytes(k) + le_bytes(v), acc) == spec_parse_pairs(b, acc).insert(
            k,
            v,
        ),
    decreases b.len(),
{
    let w = b + le_bytes(k) + le_bytes(v);
    if b.len() == 0 {
        assert(w.len() == 8);
        assert(w[0] == le_bytes(k)[0]);
        assert(w[1] == le_bytes(k)[1]);
        assert(w[2] == le_bytes(k)[2]);
        assert(w[3] == le_bytes(k)[3]);
        assert(w[4] == le_bytes(v)[0]);
        assert(w[5] == le_bytes(v)[1]);
        assert(w[6] == le_bytes(v)[2]);
        assert(w[7] == le_bytes(v)[3]);
        lemma_le_round(k);
        lemma_le_round(v);
        assert(w.skip(8) =~= Seq::<u8>::empty());
        assert(spec_parse_pairs(w.skip(8), acc.insert(k, v)) == acc.insert(k, v));
        assert(spec_parse_pairs(w, acc) == acc.insert(k, v));
        assert(spec_parse_pairs(b, acc) == acc);
    } else {
        assert(b.len() >= 8);
        assert(forall|i: int| 0 <= i < 8 ==> w[i] == b[i]);
        assert(w.skip(8) =~= b.skip(8) + le_bytes(k) + le_bytes(v));
        let k0 = u32_of_le(b[0], b[1], b[2], b[3]);
        let v0 = u32_of_le(b[4], b[5], b[6], b[7]);
        lemma_parse_pairs_append(b.skip(8), k, v, acc.insert(k0, v0));
        assert(spec_parse_pairs(w, acc) == spec_parse_pairs(w.skip(8), acc.insert(k0, v0)));
        assert(spec_parse_pairs(b, acc) == spec_parse_pairs(b.skip(8), acc.insert(k0, v0)));
    }
}

impl Index {
    /// The loading decision over the outcome of a storage read: an absent
    /// index is a recoverable condition exactly when creation was asked
    /// for, and then yields an empty index; stored bytes must decode, and a
    /// buffer that does not is an error, never silently replaced.
    pub fn from_read(read: Option<&[u8]>, create_if_absent: bool) -> (r: Result<
        Index,
        IndexLoadError,
    >)
        ensures
            (match read {
                None => if create_if_absent {
                    r matches Ok(idx) && idx@ == Map::<u32, u32>::empty()
                } else {
                    r == Err::<Index, IndexLoadError>(IndexLoadError::Missing)
                },
                Some(bytes) => match spec_parse(bytes@) {
                    Some(m) => r matches Ok(idx) && idx@ == m,
                    None => r matches Err(e) && (e matches IndexLoadError::Corrupt(fe) && (fe
                        == IndexFormatError::BadHeader <==> !(bytes@.len() >= 5 && bytes@.take(5)
                        == spec_header()))),
                },
            }),
    {
        match read {
            Some(bytes) => match Index::from_bytes(bytes) {
                Ok(idx) => Ok(idx),
                Err(e) => Err(IndexLoadError::Corrupt(e)),
            },
            None => {
                if create_if_absent {
                    Ok(Index::new())
                } else {
                    Err(IndexLoadError::Missing)
                }
            },
        }
    }

    /// The serialized form of this index: decoding it restores exactly the
    /// current mapping.
    pub fn to_bytes(&self) -> (r: Vec<u8>)
        ensures
            spec_parse(r@) == Some(self@),
    {
        let mut r: Vec<u8> = Vec::new();
        r.push(0x52u8);
        r.push(0x4cu8);
        r.push(0x41u8);
        r.push(0x49u8);
        r.push(0x01u8);
        proof {
            assert(r@ =~= spec_header());
            assert(r@.take(5) =~= spec_header());
            assert(r@.skip(5) =~= Seq::<u8>::empty());
        }
        let ghost mut acc = Map::<u32, u32>::empty();
        let ghost mut count: int = 0;
        for pair in it: self.internal.iter()
            invariant
                r@.len() >= 5,
                r@.take(5) == spec_header(),
                (r@.len() - 5) % 8 == 0,
                spec_parse_pairs(r@.skip(5), Map::<u32, u32>::empty()) == acc,
                forall|k: u32|
                    #[trigger] acc.contains_key(k) ==> self@.contains_key(k) && acc[k]
                        == self@[k],
                count == it.index(),
                it.seq() == vstd::std_specs::hash::spec_hash_map_iter(&self.internal).remaining(),
                forall|i: int|
                    0 <= i < count ==> acc.contains_key(
                        *(#[trigger] vstd::std_specs::hash::spec_hash_map_iter(
                            &self.internal,
                        ).remaining()[i]).0,
                    ),
        {
            let k: u32 = *pair.0;
            let v: u32 = *pair.1;
            let ghost old_bytes = r@;
            push_le(&mut r, k);
            push_le(&mut r, v);
            proof {
                assert(old_bytes.skip(5).len() % 8 == 0);
                lemma_parse_pairs_append(old_bytes.skip(5), k, v, Map::<u32, u32>::empty());
                assert(r@.skip(5) =~= old_bytes.skip(5) + le_bytes(k) + le_bytes(v));
                assert(r@.take(5) =~= old_bytes.take(5));
                assert(pair == it.seq()[count]);
                acc = acc.insert(k, v);
                count = count + 1;
            }
        }
        proof {
            let rem = vstd::std_specs::hash::spec_hash_map_iter(&self.internal).remaining();
            assert forall|k: u32| self@.contains_key(k) implies acc.contains_key(k) by {
                assert(rem.contains((&k, &self@[k])));
                let i = choose|i: int| 0 <= i < rem.len() && rem[i] == (&k, &self@[k]);
                assert(acc.contains_key(*rem[i].0));
            }
            assert(acc =~= self@);
        }
        r
    }

    /// Decodes a serialized index, reporting exactly why malformed bytes
    /// are rejected.
    pub fn from_bytes(bytes: &[u8]) -> (r: Result<Index, IndexFormatError>)
        ensures
            (match r {
                Ok(idx) => spec_parse(bytes@) == Some(idx@),
                Err(e) => spec_parse(bytes@) is None && (e == IndexFormatError::BadHeader <==> !(
                bytes@.len() >= 5 && bytes@.take(5) == spec_header())),
            }),
            r is Ok <==> spec_parse(bytes@) is Some,
    {
        if bytes.len() < 5 || bytes[0] != 0x52u8 || bytes[1] != 0x4cu8 || bytes[2] != 0x41u8
            || bytes[3] != 0x49u8 || bytes[4] != 0x01u8 {
            proof {
                if bytes@.len() >= 5 && bytes@.take(5) == spec_header() {
                    assert(bytes@[0] == bytes@.take(5)[0]);
                    assert(bytes@[1] == bytes@.take(5)[1]);
                    assert(bytes@[2] == bytes@.take(5)[2]);
                    assert(bytes@[3] == bytes@.take(5)[3]);
                    assert(bytes@[4] == bytes@.take(5)[4]);
                }
            }
            return Err(IndexFormatError::BadHeader);
        }
        proof {
            assert(bytes@.take(5) =~= spec_header());
        }
        if (bytes.len() - 5) % 8 != 0 {
            return Err(IndexFormatError::BadLength);
        }
        let mut m: HashMap<u32, u32> = HashMap::new();
        let mut i: usize = 5;
        while i < bytes.len()
            invariant
                5 <= i <= bytes@.len(),
                (i - 5) % 8 == 0,
                (bytes@.len() - 5) % 8 == 0,
                spec_parse_pairs(bytes@.skip(5), Map::<u32, u32>::empty()) == spec_parse_pairs(
                    bytes@.skip(i as int),
                    m@,
                ),
            decreases bytes@.len() - i,
        {
            proof {
                assert((bytes@.len() - i) % 8 == 0);
                assert(bytes@.len() - i >= 8);
            }
            let k = read_le(bytes, i);
            let v = read_le(bytes, i + 4);
            let ghost rest = bytes@.skip(i as int);
            proof {
                assert(rest[0] == bytes@[i as int]);
                assert(rest[1] == bytes@[i + 1]);
                assert(rest[2] == bytes@[i + 2]);
                assert(rest[3] == bytes@[i + 3]);
                assert(rest[4] == bytes@[i + 4]);
                assert(rest[5] == bytes@[i + 5]);
                assert(rest[6] == bytes@[i + 6]);
                assert(rest[7] == bytes@[i + 7]);
                assert(rest.skip(8) =~= bytes@.skip(i + 8));
            }
            m.insert(k, v);
            i += 8;
        }
        proof {
            assert(bytes@.skip(i as int) =~= Seq::<u8>::empty());
        }
        Ok(Index { internal: m })
    }
}

/// The value of the four little-endian bytes at `at`.
fn read_le(bytes: &[u8], at: usize) -> (r: u32)
    requires
        at + 4 <= bytes@.len(),
    ensures
        r == u32_of_le(
            bytes@[at as int],
            bytes@[at + 1],
            bytes@[at + 2],
            bytes@[at + 3],
        ),
{
    bytes[at] as u32 + bytes[at + 1] as u32 * 256 + bytes[at + 2] as u32 * 65536 + bytes[at
        + 3] as u32 * 16777216
}

} // verus!
