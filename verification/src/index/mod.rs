//! The learned frequency index and the byte encoder that feeds it.
//!
//! A sanitized line is mapped byte-for-byte onto a 64-symbol alphabet
//! (case-sensitive ASCII letters, digits, space and underscore); bytes
//! outside the alphabet are dropped.  A sliding window of five symbols forms
//! a 32-bit n-gram identifier, and the index maps each identifier to a
//! saturating occurrence count.

pub mod codec;
pub mod storage;

use std::collections::HashMap;
use vstd::prelude::*;

verus! {

broadcast use vstd::std_specs::hash::group_hash_axioms;

/// Anything that can expose the sanitized bytes of one log line.
pub trait IndexData {
    /// The sanitized bytes, as a mathematical sequence.
    spec fn data(&self) -> Seq<u8>;

    /// The sanitized bytes of this line.
    fn sanitized(&self) -> (r: &[u8])
        ensures
            r@ == self.data(),
    ;
}

/// Marks a value as already sanitized, so it can feed the index directly.
pub struct Sanitized<T>(pub T);

impl IndexData for Sanitized<Vec<u8>> {
    open spec fn data(&self) -> Seq<u8> {
        self.0@
    }

    fn sanitized(&self) -> (r: &[u8]) {
        self.0.as_slice()
    }
}

impl IndexData for Sanitized<String> {
    open spec fn data(&self) -> Seq<u8> {
        vstd::utf8::encode_utf8(self.0@)
    }

    fn sanitized(&self) -> (r: &[u8]) {
        self.0.as_str().as_bytes()
    }
}

impl<'a> IndexData for Sanitized<&'a str> {
    open spec fn data(&self) -> Seq<u8> {
        vstd::utf8::encode_utf8(self.0@)
    }

    fn sanitized(&self) -> (r: &[u8]) {
        self.0.as_bytes()
    }
}

/// The symbol (a value below 64) that a byte encodes to, or `None` for a
/// byte outside the modeled alphabet.
pub open spec fn sym_of(b: u8) -> Option<u8> {
    if 0x61u8 <= b <= 0x7au8 {
        Some((b - 0x61u8) as u8)
    } else if 0x41u8 <= b <= 0x5au8 {
        Some((b - 0x41u8 + 26) as u8)
    } else if 0x30u8 <= b <= 0x39u8 {
        Some((b - 0x30u8 + 52) as u8)
    } else if b == 0x20u8 {
        Some(62u8)
    } else if b == 0x5fu8 {
        Some(63u8)
    } else {
        None
    }
}

/// The byte a symbol decodes back to; symbols outside the alphabet map to
/// `'?'`.
pub open spec fn byte_of(sym: u8) -> u8 {
    if sym <= 25u8 {
        (sym + 0x61u8) as u8
    } else if sym <= 51u8 {
        ((sym - 26u8) + 0x41u8) as u8
    } else if sym <= 61u8 {
        ((sym - 52u8) + 0x30u8) as u8
    } else if sym == 62u8 {
        0x20u8
    } else if sym == 63u8 {
        0x5fu8
    } else {
        0x3fu8
    }
}

/// The encoded form of a byte sequence: each byte mapped through the
/// alphabet, with unmapped bytes removed.
pub open spec fn spec_encode(s: Seq<u8>) -> Seq<u8>
    decreases s.len(),
{
    if s.len() == 0 {
        Seq::empty()
    } else {
        let rest = spec_encode(s.drop_last());
        match sym_of(s.last()) {
            Some(v) => rest.push(v),
            None => rest,
        }
    }
}

/// The decoded form of an encoded sequence.
pub open spec fn spec_decode(s: Seq<u8>) -> Seq<u8> {
    s.map_values(|b: u8| byte_of(b))
}

/// Every byte of `s` is a symbol of the 64-entry alphabet.
pub open spec fn valid_symbols(s: Seq<u8>) -> bool {
    forall|k: int| 0 <= k < s.len() ==> s[k] < 64
}

pub proof fn lemma_spec_encode_valid(s: Seq<u8>)
    ensures
        valid_symbols(spec_encode(s)),
    decreases s.len(),
{
    if s.len() > 0 {
        lemma_spec_encode_valid(s.drop_last());
    }
}

/// Round trip over the modeled alphabet: encoding and then decoding a
/// sequence of accepted bytes gives back exactly that sequence.
pub proof fn lemma_encode_decode_roundtrip(s: Seq<u8>)
    requires
        forall|k: int| 0 <= k < s.len() ==> sym_of(#[trigger] s[k]) is Some,
    ensures
        spec_decode(spec_encode(s)) == s,
    decreases s.len(),
{
    if s.len() > 0 {
        let head = s.drop_last();
        assert(forall|k: int| 0 <= k < head.len() ==> sym_of(#[trigger] head[k]) is Some);
        lemma_encode_decode_roundtrip(head);
        assert(sym_of(s.last()) is Some);
        let v = sym_of(s.last()).unwrap();
        assert(byte_of(v) == s.last());
        assert(spec_decode(spec_encode(s)) =~= spec_decode(spec_encode(head)).push(byte_of(v)));
        assert(spec_decode(spec_encode(s)) =~= s);
    }
}

fn sym_of_exec(b: u8) -> (r: Option<u8>)
    ensures
        r == sym_of(b),
{
    if 0x61u8 <= b && b <= 0x7au8 {
        Some(b - 0x61u8)
    } else if 0x41u8 <= b && b <= 0x5au8 {
        Some(b - 0x41u8 + 26)
    } else if 0x30u8 <= b && b <= 0x39u8 {
        Some(b - 0x30u8 + 52)
    } else if b == 0x20u8 {
        Some(62u8)
    } else if b == 0x5fu8 {
        Some(63u8)
    } else {
        None
    }
}

/// Maps every byte of the line onto the alphabet, dropping unmapped bytes.
pub fn encode<I: IndexData>(data: &I) -> (r: Vec<u8>)
    ensures
        r@ == spec_encode(data.data()),
        valid_symbols(r@),
{
    let s = data.sanitized();
    let mut r: Vec<u8> = Vec::new();
    let mut i: usize = 0;
    proof {
        assert(s@.take(0) =~= Seq::<u8>::empty());
    }
    while i < s.len()
        invariant
            i <= s.len(),
            s@ == data.data(),
            r@ == spec_encode(s@.take(i as int)),
        decreases s.len() - i,
    {
        proof {
            assert(s@.take(i + 1).drop_last() =~= s@.take(i as int));
            assert(s@.take(i + 1).last() == s@[i as int]);
        }
        match sym_of_exec(s[i]) {
            Some(v) => r.push(v),
            None => (),
        }
        i += 1;
    }
    proof {
        assert(s@.take(s@.len() as int) =~= s@);
        lemma_spec_encode_valid(data.data());
    }
    r
}

/// The inverse mapping, used only for diagnostics.
pub fn decode(data: &[u8]) -> (r: Vec<u8>)
    ensures
        r@ == spec_decode(data@),
{
    let mut r: Vec<u8> = Vec::new();
    let mut i: usize = 0;
    while i < data.len()
        invariant
            i <= data.len(),
            r@.len() == i,
            forall|k: int| 0 <= k < i ==> r@[k] == byte_of(data@[k]),
        decreases data.len() - i,
    {
        let b = data[i];
        let d = if b <= 25u8 {
            b + 0x61u8
        } else if b <= 51u8 {
            (b - 26u8) + 0x41u8
        } else if b <= 61u8 {
            (b - 52u8) + 0x30u8
        } else if b == 62u8 {
            0x20u8
        } else if b == 63u8 {
            0x5fu8
        } else {
            0x3fu8
        };
        r.push(d);
        i += 1;
    }
    proof {
        assert(r@ =~= spec_decode(data@));
    }
    r
}

/// How many five-symbol windows an encoded sequence yields.
pub open spec fn num_windows(enc: Seq<u8>) -> int {
    if enc.len() < 5 {
        0
    } else {
        enc.len() - 4
    }
}

/// The n-gram identifier of the window starting at `k`: positional base-64
/// weighting of five consecutive symbols.
pub open spec fn window_id_at(enc: Seq<u8>, k: int) -> u32 {
    (enc[k] + enc[k + 1] * 64 + enc[k + 2] * 4096 + enc[k + 3] * 262144 + enc[k + 4]
        * 16777216) as u32
}

/// All n-gram identifiers of an encoded sequence, in line order.
pub open spec fn ids_of(enc: Seq<u8>) -> Seq<u32> {
    Seq::new(num_windows(enc) as nat, |k: int| window_id_at(enc, k))
}

/// Window identifiers are positional base-64 numerals: over the alphabet
/// every id lies below `64^5`, and equal ids come only from equal windows.
pub proof fn lemma_window_id_injective(enc1: Seq<u8>, k1: int, enc2: Seq<u8>, k2: int)
    requires
        valid_symbols(enc1),
        valid_symbols(enc2),
        0 <= k1,
        k1 + 5 <= enc1.len(),
        0 <= k2,
        k2 + 5 <= enc2.len(),
        window_id_at(enc1, k1) == window_id_at(enc2, k2),
    ensures
        window_id_at(enc1, k1) < 1073741824,
        forall|d: int| 0 <= d < 5 ==> #[trigger] enc1[k1 + d] == enc2[k2 + d],
{
    let a0 = enc1[k1] as int;
    let a1 = enc1[k1 + 1] as int;
    let a2 = enc1[k1 + 2] as int;
    let a3 = enc1[k1 + 3] as int;
    let a4 = enc1[k1 + 4] as int;
    let b0 = enc2[k2] as int;
    let b1 = enc2[k2 + 1] as int;
    let b2 = enc2[k2 + 2] as int;
    let b3 = enc2[k2 + 3] as int;
    let b4 = enc2[k2 + 4] as int;
    assert(a0 < 64 && a1 < 64 && a2 < 64 && a3 < 64 && a4 < 64);
    assert(b0 < 64 && b1 < 64 && b2 < 64 && b3 < 64 && b4 < 64);
    let s1 = a0 + a1 * 64 + a2 * 4096 + a3 * 262144 + a4 * 16777216;
    let s2 = b0 + b1 * 64 + b2 * 4096 + b3 * 262144 + b4 * 16777216;
    assert(0 <= s1 < 1073741824);
    assert(0 <= s2 < 1073741824);
    assert(window_id_at(enc1, k1) == s1);
    assert(window_id_at(enc2, k2) == s2);
    assert(s1 == s2);
    assert(a0 == b0 && a1 == b1 && a2 == b2 && a3 == b3 && a4 == b4);
    assert forall|d: int| 0 <= d < 5 implies #[trigger] enc1[k1 + d] == enc2[k2 + d] by {
        if d == 0 {
            assert(enc1[k1] == enc2[k2]);
        } else if d == 1 {
            assert(enc1[k1 + 1] == enc2[k2 + 1]);
        } else if d == 2 {
            assert(enc1[k1 + 2] == enc2[k2 + 2]);
        } else if d == 3 {
            assert(enc1[k1 + 3] == enc2[k2 + 3]);
        } else {
            assert(enc1[k1 + 4] == enc2[k2 + 4]);
        }
    }
}

/// Produces the finite sequence of 5-gram ids of an encoded buffer by
/// sliding a window of width 5 one symbol at a time.
pub struct IdIter<'a> {
    data: &'a [u8],
    pos: usize,
}

impl<'a> IdIter<'a> {
    /// The encoded buffer this iterator walks.
    pub closed spec fn buffer(&self) -> Seq<u8> {
        self.data@
    }

    /// The index of the next window.
    pub closed spec fn at(&self) -> int {
        self.pos as int
    }

    pub closed spec fn wf(&self) -> bool {
        valid_symbols(self.data@) && 0 <= self.pos <= num_windows(self.data@)
    }

    pub fn new(encoded_data: &'a [u8]) -> (r: IdIter<'a>)
        requires
            valid_symbols(encoded_data@),
        ensures
            r.wf(),
            r.buffer() == encoded_data@,
            r.at() == 0,
    {
        IdIter { data: encoded_data, pos: 0 }
    }

    /// The next window id, or `None` once fewer than five symbols remain.
    pub fn next(&mut self) -> (r: Option<u32>)
        requires
            old(self).wf(),
        ensures
            final(self).wf(),
            final(self).buffer() == old(self).buffer(),
            if old(self).at() < num_windows(old(self).buffer()) {
                r == Some(ids_of(old(self).buffer())[old(self).at()]) && final(self).at() == old(
                    self,
                ).at() + 1
            } else {
                r is None && final(self).at() == old(self).at()
            },
    {
        if self.data.len() >= 5 && self.pos < self.data.len() - 4 {
            let k = self.pos;
            let id = window_id_exec(self.data, k);
            self.pos = k + 1;
            Some(id)
        } else {
            None
        }
    }
}

fn window_id_exec(enc: &[u8], k: usize) -> (r: u32)
    requires
        valid_symbols(enc@),
        0 <= k,
        k + 5 <= enc@.len(),
    ensures
        r == window_id_at(enc@, k as int),
{
    enc[k] as u32 + enc[k + 1] as u32 * 64 + enc[k + 2] as u32 * 4096 + enc[k + 3] as u32 * 262144
        + enc[k + 4] as u32 * 16777216
}

/// All window ids of an encoded buffer, materialized in order.
fn window_ids(enc: &[u8]) -> (r: Vec<u32>)
    requires
        valid_symbols(enc@),
    ensures
        r@ == ids_of(enc@),
{
    let mut r: Vec<u32> = Vec::new();
    let n: usize = if enc.len() < 5 {
        0
    } else {
        enc.len() - 4
    };
    let mut k: usize = 0;
    while k < n
        invariant
            0 <= k <= n,
            n == num_windows(enc@),
            valid_symbols(enc@),
            r@.len() == k,
            forall|t: int| 0 <= t < k ==> r@[t] == window_id_at(enc@, t),
        decreases n - k,
    {
        let id = window_id_exec(enc, k);
        r.push(id);
        k += 1;
    }
    proof {
        assert(r@ =~= ids_of(enc@));
    }
    r
}

/// The count stored for `id`, with `0` for an identifier never learned.
pub open spec fn count_of(m: Map<u32, u32>, id: u32) -> u32 {
    if m.contains_key(id) {
        m[id]
    } else {
        0
    }
}

/// `u32` addition that saturates at the maximum instead of wrapping.
pub open spec fn sat_add(a: u32, b: u32) -> u32 {
    if a + b > u32::MAX {
        u32::MAX
    } else {
        (a + b) as u32
    }
}

/// One learning step: the count of `id` raised by `mult`, saturating.
pub open spec fn bump(m: Map<u32, u32>, id: u32, mult: u32) -> Map<u32, u32> {
    m.insert(id, sat_add(count_of(m, id), mult))
}

/// The map after learning every id of `ids` in order with `mult`.
pub open spec fn spec_learned(m: Map<u32, u32>, ids: Seq<u32>, mult: u32) -> Map<u32, u32>
    decreases ids.len(),
{
    if ids.len() == 0 {
        m
    } else {
        bump(spec_learned(m, ids.drop_last(), mult), ids.last(), mult)
    }
}

/// The learned frequency index: a mapping from n-gram id to a saturating
/// occurrence count.  Counts only ever increase.
pub struct Index {
    internal: HashMap<u32, u32>,
}

impl View for Index {
    type V = Map<u32, u32>;

    closed spec fn view(&self) -> Map<u32, u32> {
        self.internal@
    }
}

impl Index {
    /// An empty index with no learned n-grams.
    pub fn new() -> (r: Index)
        ensures
            r@ == Map::<u32, u32>::empty(),
    {
        Index { internal: HashMap::new() }
    }

    /// For every 5-gram id of the line, raises the stored count by
    /// `multiplier`, saturating at the counter's maximum.  A line with fewer
    /// than five encoded symbols is a no-op.
    pub fn learn<I: IndexData>(&mut self, data: &I, multiplier: u32)
        ensures
            final(self)@ == spec_learned(
                old(self)@,
                ids_of(spec_encode(data.data())),
                multiplier,
            ),
    {
        let encoded = encode(data);
        let ids = window_ids(encoded.as_slice());
        let ghost all = ids@;
        let mut k: usize = 0;
        proof {
            assert(all.take(0) =~= Seq::<u32>::empty());
        }
        while k < ids.len()
            invariant
                k <= ids.len(),
                ids@ == all,
                self@ == spec_learned(old(self)@, all.take(k as int), multiplier),
            decreases ids.len() - k,
        {
            let id = ids[k];
            let cur: u32 = match self.internal.get(&id) {
                Some(v) => *v,
                None => 0,
            };
            let next: u32 = if cur > u32::MAX - multiplier {
                u32::MAX
            } else {
                cur + multiplier
            };
            self.internal.insert(id, next);
            proof {
                assert(all.take(k + 1).drop_last() =~= all.take(k as int));
                assert(all.take(k + 1).last() == all[k as int]);
            }
            k += 1;
        }
        proof {
            assert(all.take(all.len() as int) =~= all);
        }
    }

    /// The stored count of every 5-gram id of the line, in line order.  An
    /// input with fewer than five encoded symbols yields no windows.
    pub fn scores<I: IndexData>(&self, data: &I) -> (r: Vec<u32>)
        ensures
            r@.len() == ids_of(spec_encode(data.data())).len(),
            forall|k: int|
                0 <= k < r@.len() ==> r@[k] == count_of(
                    self@,
                    ids_of(spec_encode(data.data()))[k],
                ),
            spec_encode(data.data()).len() < 5 ==> r@.len() == 0,
    {
        let encoded = encode(data);
        let ids = window_ids(encoded.as_slice());
        let mut r: Vec<u32> = Vec::new();
        let mut k: usize = 0;
        while k < ids.len()
            invariant
                k <= ids.len(),
                ids@ == ids_of(spec_encode(data.data())),
                r@.len() == k,
                forall|t: int| 0 <= t < k ==> r@[t] == count_of(self@, ids@[t]),
            decreases ids.len() - k,
        {
            let id = ids[k];
            let c: u32 = match self.internal.get(&id) {
                Some(v) => *v,
                None => 0,
            };
            r.push(c);
            k += 1;
        }
        r
    }

    /// How many distinct n-gram ids the index has learned.
    pub fn len(&self) -> (r: usize)
        ensures
            r == self@.dom().len(),
    {
        self.internal.len()
    }
}

impl Default for Index {
    /// An empty index.
    fn default() -> (r: Index)
        ensures
            r@ == Map::<u32, u32>::empty(),
    {
        Index::new()
    }
}

/// Monotone scoring after fresh learning: when a line whose windows are
/// pairwise distinct is learned into an empty index with multiplier `m`,
/// every one of its window counts becomes exactly `m`, so each window's
/// score contribution under threshold `t` is `max(0, t - m)`.
pub proof fn lemma_fresh_learn_counts(ids: Seq<u32>, mult: u32)
    requires
        ids.no_duplicates(),
    ensures
        forall|k: int|
            0 <= k < ids.len() ==> count_of(
                spec_learned(Map::<u32, u32>::empty(), ids, mult),
                ids[k],
            ) == mult,
    decreases ids.len(),
{
    if ids.len() > 0 {
        let head = ids.drop_last();
        assert(head.no_duplicates());
        lemma_fresh_learn_counts(head, mult);
        let m1 = spec_learned(Map::<u32, u32>::empty(), head, mult);
        let last = ids.last();
        lemma_fresh_learn_untouched(head, mult, last);
        assert(count_of(m1, last) == 0);
        assert(sat_add(0, mult) == mult);
        assert forall|k: int| 0 <= k < ids.len() implies count_of(
            spec_learned(Map::<u32, u32>::empty(), ids, mult),
            ids[k],
        ) == mult by {
            if k < ids.len() - 1 {
                assert(ids[k] == head[k]);
                assert(ids[k] != last);
            }
        }
    }
}

/// Counts only ever increase: learning never lowers any stored count.
pub proof fn lemma_learn_monotone(m: Map<u32, u32>, ids: Seq<u32>, mult: u32)
    ensures
        forall|id: u32|
            count_of(spec_learned(m, ids, mult), id) >= #[trigger] count_of(m, id),
    decreases ids.len(),
{
    if ids.len() > 0 {
        let head = ids.drop_last();
        lemma_learn_monotone(m, head, mult);
        let m1 = spec_learned(m, head, mult);
        assert forall|id: u32| count_of(spec_learned(m, ids, mult), id) >= #[trigger] count_of(
            m,
            id,
        ) by {
            if id == ids.last() {
                assert(sat_add(count_of(m1, id), mult) >= count_of(m1, id));
            }
        }
    }
}

/// An id that does not occur in `ids` keeps count zero when `ids` is
/// learned into an empty index.
pub proof fn lemma_fresh_learn_untouched(ids: Seq<u32>, mult: u32, other: u32)
    requires
        !ids.contains(other),
    ensures
        count_of(spec_learned(Map::<u32, u32>::empty(), ids, mult), other) == 0,
    decreases ids.len(),
{
    if ids.len() > 0 {
        let head = ids.drop_last();
        assert(forall|k: int| 0 <= k < head.len() ==> head[k] == ids[k]);
        assert(!head.contains(other));
        lemma_fresh_learn_untouched(head, mult, other);
        assert(ids.last() != other);
    }
}

} // verus!
