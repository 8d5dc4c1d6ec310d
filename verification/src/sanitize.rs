//! Normalization of raw log bytes into clean text lines.
//!
//! [`split_lines`] cuts a byte buffer at every carriage return or line feed
//! and drops segments that are entirely ASCII whitespace.  [`clean`] removes
//! ANSI escape sequences, replaces every Unicode whitespace code point with a
//! single ASCII space, and deletes every Unicode control code point, in that
//! order.  Both functions are pure and accept arbitrary byte input.

use vstd::prelude::*;

verus! {

/// A byte at which `split_lines` cuts the input.
pub open spec fn is_line_break(b: u8) -> bool {
    b == 0x0au8 || b == 0x0du8
}

/// ASCII whitespace, as `u8::is_ascii_whitespace` defines it.
pub open spec fn is_ascii_space(b: u8) -> bool {
    b == 0x20u8 || b == 0x09u8 || b == 0x0au8 || b == 0x0cu8 || b == 0x0du8
}

/// A segment survives the split only if some byte of it is not whitespace.
pub open spec fn keeps_segment(seg: Seq<u8>) -> bool {
    exists|k: int| 0 <= k < seg.len() && !is_ascii_space(seg[k])
}

/// Index of the first line break in `s`, or `s.len()` if there is none.
pub open spec fn break_pos(s: Seq<u8>) -> int
    decreases s.len(),
{
    if s.len() == 0 {
        0
    } else if is_line_break(s[0]) {
        0
    } else {
        1 + break_pos(s.skip(1))
    }
}

/// The sequence of segments that `split_lines` returns.
pub open spec fn spec_split_lines(s: Seq<u8>) -> Seq<Seq<u8>>
    decreases s.len(),
    via spec_split_lines_decreases
{
    if s.len() == 0 {
        Seq::empty()
    } else {
        let k = break_pos(s);
        let seg = s.take(k);
        let first = if keeps_segment(seg) {
            seq![seg]
        } else {
            Seq::<Seq<u8>>::empty()
        };
        if k == s.len() {
            first
        } else {
            first + spec_split_lines(s.skip(k + 1))
        }
    }
}

#[via_fn]
proof fn spec_split_lines_decreases(s: Seq<u8>) {
    lemma_break_pos_bounds(s);
}

proof fn lemma_break_pos_bounds(s: Seq<u8>)
    ensures
        0 <= break_pos(s) <= s.len(),
    decreases s.len(),
{
    if s.len() > 0 && !is_line_break(s[0]) {
        lemma_break_pos_bounds(s.skip(1));
    }
}

proof fn lemma_break_pos_is(s: Seq<u8>, j: int)
    requires
        0 <= j <= s.len(),
        forall|k: int| 0 <= k < j ==> !is_line_break(s[k]),
        j < s.len() ==> is_line_break(s[j]),
    ensures
        break_pos(s) == j,
    decreases j,
{
    if j > 0 {
        assert(s.skip(1).len() == s.len() - 1);
        assert forall|k: int| 0 <= k < j - 1 implies !is_line_break(s.skip(1)[k]) by {
            assert(s.skip(1)[k] == s[k + 1]);
        }
        if j - 1 < s.skip(1).len() {
            assert(s.skip(1)[j - 1] == s[j]);
        }
        lemma_break_pos_is(s.skip(1), j - 1);
    }
}

/// Splits `data` at every carriage return or line feed, discarding every
/// segment (including the empty ones) whose bytes are all ASCII whitespace.
pub fn split_lines<'a>(data: &'a [u8]) -> (r: Vec<&'a [u8]>)
    ensures
        r@.map_values(|x: &[u8]| x@) == spec_split_lines(data@),
{
    let mut r: Vec<&'a [u8]> = Vec::new();
    let mut start: usize = 0;
    let mut has_content: bool = false;
    let mut i: usize = 0;
    proof {
        assert(data@.skip(0) =~= data@);
        assert(r@.map_values(|x: &[u8]| x@) =~= Seq::<Seq<u8>>::empty());
        assert(r@.map_values(|x: &[u8]| x@) + spec_split_lines(data@.skip(0)) =~~= spec_split_lines(
            data@,
        ));
    }
    while i < data.len()
        invariant
            0 <= start <= i <= data.len(),
            has_content == keeps_segment(data@.subrange(start as int, i as int)),
            forall|k: int| start <= k < i ==> !is_line_break(data@[k]),
            spec_split_lines(data@) == r@.map_values(|x: &[u8]| x@) + spec_split_lines(
                data@.skip(start as int),
            ),
        decreases data.len() - i,
    {
        let b = data[i];
        if b == 0x0au8 || b == 0x0du8 {
            proof {
                let rest = data@.skip(start as int);
                assert forall|k: int| 0 <= k < i - start implies !is_line_break(rest[k]) by {
                    assert(rest[k] == data@[start + k]);
                }
                assert(rest[i - start] == data@[i as int]);
                lemma_break_pos_is(rest, i - start);
                assert(rest.take(i - start) =~= data@.subrange(start as int, i as int));
                assert(rest.skip(i - start + 1) =~= data@.skip(i + 1));
            }
            if has_content {
                let seg: &'a [u8] = &data[start..i];
                let ghost old_r = r@;
                r.push(seg);
                proof {
                    assert(r@.map_values(|x: &[u8]| x@) =~= old_r.map_values(|x: &[u8]| x@).push(
                        seg@,
                    ));
                }
            }
            start = i + 1;
            has_content = false;
            proof {
                assert(data@.subrange(start as int, start as int) =~= Seq::<u8>::empty());
            }
        } else {
            proof {
                let pre = data@.subrange(start as int, i as int);
                let post = data@.subrange(start as int, i + 1);
                assert(pre =~= post.take(post.len() - 1));
                if !is_ascii_space(b) {
                    assert(post[i - start] == b);
                    assert(keeps_segment(post));
                } else {
                    if keeps_segment(post) {
                        let k = choose|k: int|
                            0 <= k < post.len() && !is_ascii_space(post[k]);
                        if k < i - start {
                            assert(pre[k] == post[k]);
                            assert(keeps_segment(pre));
                        }
                    }
                    if keeps_segment(pre) {
                        let k = choose|k: int| 0 <= k < pre.len() && !is_ascii_space(pre[k]);
                        assert(post[k] == pre[k]);
                        assert(keeps_segment(post));
                    }
                }
            }
            if !(b == 0x20u8 || b == 0x09u8 || b == 0x0cu8) {
                has_content = true;
            }
        }
        i += 1;
    }
    proof {
        let rest = data@.skip(start as int);
        assert forall|k: int| 0 <= k < rest.len() implies !is_line_break(rest[k]) by {
            assert(rest[k] == data@[start + k]);
        }
        lemma_break_pos_is(rest, rest.len() as int);
        if rest.len() > 0 {
            assert(rest.take(rest.len() as int) =~= data@.subrange(
                start as int,
                data@.len() as int,
            ));
        }
    }
    if has_content {
        let seg: &'a [u8] = &data[start..data.len()];
        let ghost old_r = r@;
        r.push(seg);
        proof {
            assert(r@.map_values(|x: &[u8]| x@) =~= old_r.map_values(|x: &[u8]| x@).push(seg@));
        }
    }
    proof {
        assert(r@.map_values(|x: &[u8]| x@) =~= spec_split_lines(data@));
    }
    r
}

/// An ASCII letter, which terminates an ANSI escape sequence.
pub open spec fn is_ansi_letter(b: u8) -> bool {
    (0x41u8 <= b <= 0x5au8) || (0x61u8 <= b <= 0x7au8)
}

/// Index of the first ASCII letter in `s`, or `-1` if there is none.
pub open spec fn letter_pos(s: Seq<u8>) -> int
    decreases s.len(),
{
    if s.len() == 0 {
        -1
    } else if is_ansi_letter(s[0]) {
        0
    } else if letter_pos(s.skip(1)) == -1 {
        -1
    } else {
        1 + letter_pos(s.skip(1))
    }
}

proof fn lemma_letter_pos_bounds(s: Seq<u8>)
    ensures
        -1 <= letter_pos(s) < s.len(),
    decreases s.len(),
{
    if s.len() > 0 && !is_ansi_letter(s[0]) {
        lemma_letter_pos_bounds(s.skip(1));
    }
}

proof fn lemma_letter_pos_is(s: Seq<u8>, j: int)
    requires
        -1 <= j < s.len(),
        forall|k: int| 0 <= k < s.len() && k < j ==> !is_ansi_letter(s[k]),
        j == -1 ==> forall|k: int| 0 <= k < s.len() ==> !is_ansi_letter(s[k]),
        j >= 0 ==> is_ansi_letter(s[j]),
    ensures
        letter_pos(s) == j,
    decreases s.len(),
{
    if s.len() == 0 {
    } else if is_ansi_letter(s[0]) {
        assert(j == 0);
    } else {
        let t = s.skip(1);
        assert forall|k: int| 0 <= k < t.len() && k < j - 1 implies !is_ansi_letter(t[k]) by {
            assert(t[k] == s[k + 1]);
        }
        if j == -1 {
            assert forall|k: int| 0 <= k < t.len() implies !is_ansi_letter(t[k]) by {
                assert(t[k] == s[k + 1]);
            }
            lemma_letter_pos_is(t, -1);
        } else {
            assert(j >= 1);
            assert(t[j - 1] == s[j]);
            lemma_letter_pos_is(t, j - 1);
        }
    }
}

/// `s` with every ANSI escape sequence removed: an escape byte together with
/// everything up to and including the first ASCII letter that follows it.  An
/// escape byte with no letter after it is left in place (a later pass deletes
/// it as a control character).
pub open spec fn spec_strip_ansi(s: Seq<u8>) -> Seq<u8>
    decreases s.len(),
    via spec_strip_ansi_decreases
{
    if s.len() == 0 {
        Seq::empty()
    } else if s[0] == 0x1bu8 {
        let p = letter_pos(s.skip(1));
        if p == -1 {
            s
        } else {
            spec_strip_ansi(s.skip(p + 2))
        }
    } else {
        seq![s[0]] + spec_strip_ansi(s.skip(1))
    }
}

#[via_fn]
proof fn spec_strip_ansi_decreases(s: Seq<u8>) {
    if s.len() > 0 && s[0] == 0x1bu8 {
        lemma_letter_pos_bounds(s.skip(1));
    }
}

/// A one-byte Unicode whitespace code point.
pub open spec fn is_ws1(b: u8) -> bool {
    b == 0x09u8 || b == 0x0au8 || b == 0x0bu8 || b == 0x0cu8 || b == 0x0du8 || b == 0x20u8
}

/// A two-byte UTF-8 encoding of a Unicode whitespace code point
/// (U+0085 and U+00A0).
pub open spec fn is_ws2(a: u8, b: u8) -> bool {
    a == 0xc2u8 && (b == 0x85u8 || b == 0xa0u8)
}

/// A three-byte UTF-8 encoding of a Unicode whitespace code point
/// (U+1680, U+2000..U+200A, U+2028, U+2029, U+202F, U+205F, U+3000).
pub open spec fn is_ws3(a: u8, b: u8, c: u8) -> bool {
    (a == 0xe1u8 && b == 0x9au8 && c == 0x80u8) || (a == 0xe2u8 && b == 0x80u8 && (0x80u8 <= c
        <= 0x8au8 || c == 0xa8u8 || c == 0xa9u8 || c == 0xafu8)) || (a == 0xe2u8 && b == 0x81u8
        && c == 0x9fu8) || (a == 0xe3u8 && b == 0x80u8 && c == 0x80u8)
}

/// `s` with every UTF-8-encoded Unicode whitespace code point replaced by a
/// single ASCII space.  Bytes that do not form such an encoding pass through.
pub open spec fn spec_spaces(s: Seq<u8>) -> Seq<u8>
    decreases s.len(),
{
    if s.len() == 0 {
        Seq::empty()
    } else if is_ws1(s[0]) {
        seq![0x20u8] + spec_spaces(s.skip(1))
    } else if s.len() >= 2 && is_ws2(s[0], s[1]) {
        seq![0x20u8] + spec_spaces(s.skip(2))
    } else if s.len() >= 3 && is_ws3(s[0], s[1], s[2]) {
        seq![0x20u8] + spec_spaces(s.skip(3))
    } else {
        seq![s[0]] + spec_spaces(s.skip(1))
    }
}

/// A one-byte Unicode control code point (U+0000..U+001F and U+007F).
pub open spec fn is_ctl1(b: u8) -> bool {
    b <= 0x1fu8 || b == 0x7fu8
}

/// The two-byte UTF-8 encoding of a control code point (U+0080..U+009F).
pub open spec fn is_ctl2(a: u8, b: u8) -> bool {
    a == 0xc2u8 && 0x80u8 <= b <= 0x9fu8
}

/// `s` with every UTF-8-encoded Unicode control code point deleted.
pub open spec fn spec_drop_controls(s: Seq<u8>) -> Seq<u8>
    decreases s.len(),
{
    if s.len() == 0 {
        Seq::empty()
    } else if is_ctl1(s[0]) {
        spec_drop_controls(s.skip(1))
    } else if s.len() >= 2 && is_ctl2(s[0], s[1]) {
        spec_drop_controls(s.skip(2))
    } else {
        seq![s[0]] + spec_drop_controls(s.skip(1))
    }
}

/// What `clean` returns: escape removal, then whitespace normalization, then
/// control stripping.
pub open spec fn spec_clean(s: Seq<u8>) -> Seq<u8> {
    spec_drop_controls(spec_spaces(spec_strip_ansi(s)))
}

fn strip_ansi(data: &[u8]) -> (r: Vec<u8>)
    ensures
        r@ == spec_strip_ansi(data@),
{
    let mut out: Vec<u8> = Vec::new();
    let mut i: usize = 0;
    proof {
        assert(data@.skip(0) =~= data@);
    }
    while i < data.len()
        invariant
            i <= data.len(),
            spec_strip_ansi(data@) == out@ + spec_strip_ansi(data@.skip(i as int)),
        decreases data.len() - i,
    {
        let ghost rest = data@.skip(i as int);
        if data[i] == 0x1bu8 {
            let mut j: usize = i + 1;
            while j < data.len() && !((0x41u8 <= data[j] && data[j] <= 0x5au8) || (0x61u8
                <= data[j] && data[j] <= 0x7au8))
                invariant
                    i + 1 <= j <= data.len(),
                    forall|k: int| i + 1 <= k < j ==> !is_ansi_letter(data@[k]),
                decreases data.len() - j,
            {
                j += 1;
            }
            if j < data.len() {
                proof {
                    let tail = rest.skip(1);
                    assert forall|k: int| 0 <= k < tail.len() && k < j - i - 1
                        implies !is_ansi_letter(tail[k]) by {
                        assert(tail[k] == data@[i + 1 + k]);
                    }
                    assert(tail[j - i - 1] == data@[j as int]);
                    lemma_letter_pos_is(tail, j - i - 1);
                    assert(rest.skip(j - i + 1) =~= data@.skip(j + 1));
                }
                i = j + 1;
            } else {
                proof {
                    let tail = rest.skip(1);
                    assert forall|k: int| 0 <= k < tail.len() implies !is_ansi_letter(tail[k]) by {
                        assert(tail[k] == data@[i + 1 + k]);
                    }
                    if tail.len() > 0 {
                        lemma_letter_pos_is(tail, -1);
                    }
                    assert(spec_strip_ansi(rest) == rest);
                }
                let ghost start = i as int;
                let ghost out0 = out@;
                while i < data.len()
                    invariant
                        0 <= start <= i <= data.len(),
                        out@ == out0 + data@.subrange(start, i as int),
                    decreases data.len() - i,
                {
                    out.push(data[i]);
                    proof {
                        assert(data@.subrange(start, i + 1) =~= data@.subrange(
                            start,
                            i as int,
                        ).push(data@[i as int]));
                        assert(out@ =~= out0 + data@.subrange(start, i + 1));
                    }
                    i += 1;
                }
                proof {
                    assert(data@.subrange(start, data@.len() as int) =~= data@.skip(start));
                    assert(data@.skip(i as int) =~= Seq::<u8>::empty());
                    assert(out@ + spec_strip_ansi(data@.skip(i as int)) =~= spec_strip_ansi(
                        data@,
                    ));
                }
            }
        } else {
            out.push(data[i]);
            proof {
                assert(rest[0] == data@[i as int]);
                assert(rest.skip(1) =~= data@.skip(i + 1));
                assert(out@ + spec_strip_ansi(data@.skip(i + 1)) =~= spec_strip_ansi(data@));
            }
            i += 1;
        }
    }
    proof {
        assert(data@.skip(i as int) =~= Seq::<u8>::empty());
        assert(out@ =~= spec_strip_ansi(data@));
    }
    out
}

fn normalize_spaces(data: &[u8]) -> (r: Vec<u8>)
    ensures
        r@ == spec_spaces(data@),
{
    let mut out: Vec<u8> = Vec::new();
    let mut i: usize = 0;
    proof {
        assert(data@.skip(0) =~= data@);
    }
    while i < data.len()
        invariant
            i <= data.len(),
            spec_spaces(data@) == out@ + spec_spaces(data@.skip(i as int)),
        decreases data.len() - i,
    {
        let ghost rest = data@.skip(i as int);
        proof {
            assert(rest[0] == data@[i as int]);
            if rest.len() >= 2 {
                assert(rest[1] == data@[i + 1]);
            }
            if rest.len() >= 3 {
                assert(rest[2] == data@[i + 2]);
            }
        }
        let b = data[i];
        if b == 0x09u8 || b == 0x0au8 || b == 0x0bu8 || b == 0x0cu8 || b == 0x0du8 || b == 0x20u8 {
            out.push(0x20u8);
            proof {
                assert(rest.skip(1) =~= data@.skip(i + 1));
                assert(out@ + spec_spaces(data@.skip(i + 1)) =~= spec_spaces(data@));
            }
            i += 1;
        } else if i + 1 < data.len() && is_ws2_exec(b, data[i + 1]) {
            out.push(0x20u8);
            proof {
                assert(rest.skip(2) =~= data@.skip(i + 2));
                assert(out@ + spec_spaces(data@.skip(i + 2)) =~= spec_spaces(data@));
            }
            i += 2;
        } else if data.len() - i > 2 && is_ws3_exec(b, data[i + 1], data[i + 2]) {
            out.push(0x20u8);
            proof {
                assert(rest.skip(3) =~= data@.skip(i + 3));
                assert(out@ + spec_spaces(data@.skip(i + 3)) =~= spec_spaces(data@));
            }
            i += 3;
        } else {
            out.push(b);
            proof {
                assert(rest.skip(1) =~= data@.skip(i + 1));
                assert(out@ + spec_spaces(data@.skip(i + 1)) =~= spec_spaces(data@));
            }
            i += 1;
        }
    }
    proof {
        assert(data@.skip(i as int) =~= Seq::<u8>::empty());
        assert(out@ =~= spec_spaces(data@));
    }
    out
}

fn is_ws2_exec(a: u8, b: u8) -> (r: bool)
    ensures
        r == is_ws2(a, b),
{
    a == 0xc2u8 && (b == 0x85u8 || b == 0xa0u8)
}

fn is_ws3_exec(a: u8, b: u8, c: u8) -> (r: bool)
    ensures
        r == is_ws3(a, b, c),
{
    (a == 0xe1u8 && b == 0x9au8 && c == 0x80u8) || (a == 0xe2u8 && b == 0x80u8 && ((0x80u8 <= c
        && c <= 0x8au8) || c == 0xa8u8 || c == 0xa9u8 || c == 0xafu8)) || (a == 0xe2u8 && b
        == 0x81u8 && c == 0x9fu8) || (a == 0xe3u8 && b == 0x80u8 && c == 0x80u8)
}

fn drop_controls(data: &[u8]) -> (r: Vec<u8>)
    ensures
        r@ == spec_drop_controls(data@),
{
    let mut out: Vec<u8> = Vec::new();
    let mut i: usize = 0;
    proof {
        assert(data@.skip(0) =~= data@);
    }
    while i < data.len()
        invariant
            i <= data.len(),
            spec_drop_controls(data@) == out@ + spec_drop_controls(data@.skip(i as int)),
        decreases data.len() - i,
    {
        let ghost rest = data@.skip(i as int);
        proof {
            assert(rest[0] == data@[i as int]);
            if rest.len() >= 2 {
                assert(rest[1] == data@[i + 1]);
            }
        }
        let b = data[i];
        if b <= 0x1fu8 || b == 0x7fu8 {
            proof {
                assert(rest.skip(1) =~= data@.skip(i + 1));
            }
            i += 1;
        } else if i + 1 < data.len() && b == 0xc2u8 && 0x80u8 <= data[i + 1] && data[i + 1]
            <= 0x9fu8 {
            proof {
                assert(rest.skip(2) =~= data@.skip(i + 2));
            }
            i += 2;
        } else {
            out.push(b);
            proof {
                assert(rest.skip(1) =~= data@.skip(i + 1));
                assert(out@ + spec_drop_controls(data@.skip(i + 1)) =~= spec_drop_controls(
                    data@,
                ));
            }
            i += 1;
        }
    }
    proof {
        assert(data@.skip(i as int) =~= Seq::<u8>::empty());
        assert(out@ =~= spec_drop_controls(data@));
    }
    out
}

/// Cleans up the given `data`:
///
/// * removes ANSI escape sequences (an escape byte and everything up to and
///   including the first ASCII letter after it),
/// * replaces every Unicode whitespace code point with a single ASCII space,
/// * deletes every Unicode control code point.
///
/// Escape removal runs first, since escape sequences may themselves contain
/// control bytes; whitespace normalization runs before control stripping.
pub fn clean(data: &[u8]) -> (r: Vec<u8>)
    ensures
        r@ == spec_clean(data@),
{
    let stripped = strip_ansi(data);
    let spaced = normalize_spaces(stripped.as_slice());
    drop_controls(spaced.as_slice())
}

/// A lead byte of a multi-byte whitespace or control encoding.  Deleting a
/// control byte that separates such a lead byte from its continuation bytes
/// can create a fresh multi-byte encoding, which is what makes `clean`
/// non-idempotent on inputs that contain these bytes.
pub open spec fn is_mb_lead(b: u8) -> bool {
    b == 0xc2u8 || b == 0xe1u8 || b == 0xe2u8 || b == 0xe3u8
}

/// No byte of `s` can start a multi-byte whitespace or control encoding.
pub open spec fn no_mb_leads(s: Seq<u8>) -> bool {
    forall|k: int| 0 <= k < s.len() ==> !is_mb_lead(s[k])
}

proof fn lemma_strip_bytes(s: Seq<u8>, p: spec_fn(u8) -> bool)
    requires
        forall|k: int| 0 <= k < s.len() ==> p(s[k]),
    ensures
        forall|k: int|
            0 <= k < spec_strip_ansi(s).len() ==> p(#[trigger] spec_strip_ansi(s)[k]),
    decreases s.len(),
{
    if s.len() == 0 {
    } else if s[0] == 0x1bu8 {
        lemma_letter_pos_bounds(s.skip(1));
        let q = letter_pos(s.skip(1));
        if q != -1 {
            let t = s.skip(q + 2);
            assert forall|k: int| 0 <= k < t.len() implies p(t[k]) by {
                assert(t[k] == s[k + q + 2]);
            }
            lemma_strip_bytes(t, p);
            assert(spec_strip_ansi(s) == spec_strip_ansi(t));
        } else {
            assert(spec_strip_ansi(s) == s);
        }
    } else {
        let t = s.skip(1);
        assert forall|k: int| 0 <= k < t.len() implies p(t[k]) by {
            assert(t[k] == s[k + 1]);
        }
        lemma_strip_bytes(t, p);
        assert(spec_strip_ansi(s)[0] == s[0]);
        assert(forall|k: int|
            1 <= k < spec_strip_ansi(s).len() ==> #[trigger] spec_strip_ansi(s)[k]
                == spec_strip_ansi(t)[k - 1]);
    }
}

proof fn lemma_spaces_bytes(s: Seq<u8>, p: spec_fn(u8) -> bool)
    requires
        forall|k: int| 0 <= k < s.len() ==> p(s[k]),
        p(0x20u8),
    ensures
        forall|k: int| 0 <= k < spec_spaces(s).len() ==> p(#[trigger] spec_spaces(s)[k]),
    decreases s.len(),
{
    if s.len() > 0 {
        let step: int = if is_ws1(s[0]) {
            1
        } else if s.len() >= 2 && is_ws2(s[0], s[1]) {
            2
        } else if s.len() >= 3 && is_ws3(s[0], s[1], s[2]) {
            3
        } else {
            1
        };
        let t = s.skip(step);
        assert forall|k: int| 0 <= k < t.len() implies p(t[k]) by {
            assert(t[k] == s[k + step]);
        }
        lemma_spaces_bytes(t, p);
        assert(spec_spaces(s)[0] == 0x20u8 || spec_spaces(s)[0] == s[0]);
        assert(forall|k: int|
            1 <= k < spec_spaces(s).len() ==> #[trigger] spec_spaces(s)[k] == spec_spaces(t)[k
                - 1]);
    }
}

proof fn lemma_ctrl_bytes(s: Seq<u8>, p: spec_fn(u8) -> bool)
    requires
        forall|k: int| 0 <= k < s.len() ==> p(s[k]),
    ensures
        forall|k: int|
            0 <= k < spec_drop_controls(s).len() ==> p(#[trigger] spec_drop_controls(s)[k]),
    decreases s.len(),
{
    if s.len() > 0 {
        let step: int = if is_ctl1(s[0]) {
            1
        } else if s.len() >= 2 && is_ctl2(s[0], s[1]) {
            2
        } else {
            1
        };
        let t = s.skip(step);
        assert forall|k: int| 0 <= k < t.len() implies p(t[k]) by {
            assert(t[k] == s[k + step]);
        }
        lemma_ctrl_bytes(t, p);
        if !is_ctl1(s[0]) && !(s.len() >= 2 && is_ctl2(s[0], s[1])) {
            assert(spec_drop_controls(s)[0] == s[0]);
            assert(forall|k: int|
                1 <= k < spec_drop_controls(s).len() ==> #[trigger] spec_drop_controls(s)[k]
                    == spec_drop_controls(t)[k - 1]);
        } else {
            assert(spec_drop_controls(s) == spec_drop_controls(t));
        }
    }
}

/// Every whitespace byte of a whitespace-normalized sequence is a plain
/// space.
proof fn lemma_spaces_normalizes(s: Seq<u8>)
    ensures
        forall|k: int|
            0 <= k < spec_spaces(s).len() && is_ws1(#[trigger] spec_spaces(s)[k]) ==> spec_spaces(
                s,
            )[k] == 0x20u8,
    decreases s.len(),
{
    if s.len() > 0 {
        let step: int = if is_ws1(s[0]) {
            1
        } else if s.len() >= 2 && is_ws2(s[0], s[1]) {
            2
        } else if s.len() >= 3 && is_ws3(s[0], s[1], s[2]) {
            3
        } else {
            1
        };
        lemma_spaces_normalizes(s.skip(step));
        assert(forall|k: int|
            1 <= k < spec_spaces(s).len() ==> #[trigger] spec_spaces(s)[k] == spec_spaces(
                s.skip(step),
            )[k - 1]);
    }
}

/// Control stripping leaves no one-byte control behind.
proof fn lemma_ctrl_no_controls(s: Seq<u8>)
    ensures
        forall|k: int|
            0 <= k < spec_drop_controls(s).len() ==> !is_ctl1(
                #[trigger] spec_drop_controls(s)[k],
            ),
    decreases s.len(),
{
    if s.len() > 0 {
        let step: int = if is_ctl1(s[0]) {
            1
        } else if s.len() >= 2 && is_ctl2(s[0], s[1]) {
            2
        } else {
            1
        };
        lemma_ctrl_no_controls(s.skip(step));
        if !is_ctl1(s[0]) && !(s.len() >= 2 && is_ctl2(s[0], s[1])) {
            assert(forall|k: int|
                1 <= k < spec_drop_controls(s).len() ==> #[trigger] spec_drop_controls(s)[k]
                    == spec_drop_controls(s.skip(step))[k - 1]);
        }
    }
}

proof fn lemma_strip_fixed(s: Seq<u8>)
    requires
        forall|k: int| 0 <= k < s.len() ==> s[k] != 0x1bu8,
    ensures
        spec_strip_ansi(s) == s,
    decreases s.len(),
{
    if s.len() > 0 {
        let t = s.skip(1);
        assert forall|k: int| 0 <= k < t.len() implies t[k] != 0x1bu8 by {
            assert(t[k] == s[k + 1]);
        }
        lemma_strip_fixed(t);
        assert(spec_strip_ansi(s) =~= s);
    }
}

proof fn lemma_spaces_fixed(s: Seq<u8>)
    requires
        no_mb_leads(s),
        forall|k: int| 0 <= k < s.len() && is_ws1(#[trigger] s[k]) ==> s[k] == 0x20u8,
    ensures
        spec_spaces(s) == s,
    decreases s.len(),
{
    if s.len() > 0 {
        let t = s.skip(1);
        assert forall|k: int| 0 <= k < t.len() implies !is_mb_lead(t[k]) && (is_ws1(t[k])
            ==> t[k] == 0x20u8) by {
            assert(t[k] == s[k + 1]);
        }
        lemma_spaces_fixed(t);
        assert(!(s.len() >= 2 && is_ws2(s[0], s[1])));
        assert(!(s.len() >= 3 && is_ws3(s[0], s[1], s[2])));
        assert(spec_spaces(s) =~= s);
    }
}

proof fn lemma_ctrl_fixed(s: Seq<u8>)
    requires
        no_mb_leads(s),
        forall|k: int| 0 <= k < s.len() ==> !is_ctl1(#[trigger] s[k]),
    ensures
        spec_drop_controls(s) == s,
    decreases s.len(),
{
    if s.len() > 0 {
        let t = s.skip(1);
        assert forall|k: int| 0 <= k < t.len() implies !is_mb_lead(t[k]) && !is_ctl1(t[k]) by {
            assert(t[k] == s[k + 1]);
        }
        lemma_ctrl_fixed(t);
        assert(!(s.len() >= 2 && is_ctl2(s[0], s[1])));
        assert(spec_drop_controls(s) =~= s);
    }
}

/// Cleaning is idempotent: cleaning an already-cleaned input changes
/// nothing.  This holds whenever the input contains none of the four bytes
/// that can begin a multi-byte whitespace or control encoding; on other
/// inputs, deleting a control byte can bring the pieces of such an encoding
/// together, and a second pass then replaces what the first left alone.
pub proof fn lemma_clean_idempotent(s: Seq<u8>)
    requires
        no_mb_leads(s),
    ensures
        spec_clean(spec_clean(s)) == spec_clean(s),
{
    let not_lead = |b: u8| !is_mb_lead(b);
    let ws_normal = |b: u8| is_ws1(b) ==> b == 0x20u8;
    let y1 = spec_strip_ansi(s);
    let y2 = spec_spaces(y1);
    let y3 = spec_drop_controls(y2);
    lemma_strip_bytes(s, not_lead);
    lemma_spaces_bytes(y1, not_lead);
    lemma_ctrl_bytes(y2, not_lead);
    assert(no_mb_leads(y3));
    lemma_spaces_normalizes(y1);
    assert(forall|k: int| 0 <= k < y2.len() ==> ws_normal(#[trigger] y2[k]));
    lemma_ctrl_bytes(y2, ws_normal);
    lemma_ctrl_no_controls(y2);
    assert forall|k: int| 0 <= k < y3.len() implies y3[k] != 0x1bu8 by {
        assert(!is_ctl1(y3[k]));
    }
    lemma_strip_fixed(y3);
    assert forall|k: int| 0 <= k < y3.len() && is_ws1(#[trigger] y3[k]) implies y3[k]
        == 0x20u8 by {
        assert(ws_normal(y3[k]));
    }
    lemma_spaces_fixed(y3);
    assert forall|k: int| 0 <= k < y3.len() implies !is_ctl1(#[trigger] y3[k]) by {}
    lemma_ctrl_fixed(y3);
}

} // verus!
