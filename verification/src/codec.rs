//! Byte-level primitives of the wire format: little-endian integers, raw
//! byte runs, and length-prefixed byte strings, each with an encoder, a
//! positional decoder, and a lemma that decoding an encoding embedded in a
//! larger buffer yields the encoded value back.

use vstd::bytes::*;
use vstd::prelude::*;

verus! {

broadcast use vstd::seq_lib::group_seq_properties;

// ---------------------------------------------------------------------------
// Spec encoders
// ---------------------------------------------------------------------------
pub open spec fn enc_u8(x: u8) -> Seq<u8> {
    seq![x]
}

pub open spec fn enc_u16(x: u16) -> Seq<u8> {
    spec_u16_to_le_bytes(x)
}

pub open spec fn enc_u32(x: u32) -> Seq<u8> {
    spec_u32_to_le_bytes(x)
}

pub open spec fn enc_u64(x: u64) -> Seq<u8> {
    spec_u64_to_le_bytes(x)
}

/// A byte string laid down with a four-byte length prefix.
pub open spec fn enc_var_bytes(b: Seq<u8>) -> Seq<u8>
    recommends
        b.len() <= u32::MAX,
{
    enc_u32(b.len() as u32) + b
}

// ---------------------------------------------------------------------------
// Spec decoders: each takes the whole buffer and a position, and returns the
// decoded value with the position just past it, or `None` on short input.
// ---------------------------------------------------------------------------
pub open spec fn dec_u8(s: Seq<u8>, i: int) -> Option<(u8, int)> {
    if 0 <= i && i + 1 <= s.len() {
        Some((s[i], i + 1))
    } else {
        None
    }
}

pub open spec fn dec_u16(s: Seq<u8>, i: int) -> Option<(u16, int)> {
    if 0 <= i && i + 2 <= s.len() {
        Some((spec_u16_from_le_bytes(s.subrange(i, i + 2)), i + 2))
    } else {
        None
    }
}

pub open spec fn dec_u32(s: Seq<u8>, i: int) -> Option<(u32, int)> {
    if 0 <= i && i + 4 <= s.len() {
        Some((spec_u32_from_le_bytes(s.subrange(i, i + 4)), i + 4))
    } else {
        None
    }
}

pub open spec fn dec_u64(s: Seq<u8>, i: int) -> Option<(u64, int)> {
    if 0 <= i && i + 8 <= s.len() {
        Some((spec_u64_from_le_bytes(s.subrange(i, i + 8)), i + 8))
    } else {
        None
    }
}

/// Reads exactly `n` raw bytes.
pub open spec fn dec_bytes(s: Seq<u8>, i: int, n: int) -> Option<(Seq<u8>, int)> {
    if 0 <= i && 0 <= n && i + n <= s.len() {
        Some((s.subrange(i, i + n), i + n))
    } else {
        None
    }
}

/// Reads a four-byte length prefix, then that many raw bytes.
pub open spec fn dec_var_bytes(s: Seq<u8>, i: int) -> Option<(Seq<u8>, int)> {
    match dec_u32(s, i) {
        Some((n, j)) => dec_bytes(s, j, n as int),
        None => None,
    }
}

// ---------------------------------------------------------------------------
// Context lemmas: an encoding sitting inside a larger buffer decodes to the
// value it encodes.
// ---------------------------------------------------------------------------
pub proof fn lemma_dec_u16(x: u16, s: Seq<u8>, i: int)
    requires
        0 <= i,
        i + 2 <= s.len(),
        s.subrange(i, i + 2) == enc_u16(x),
    ensures
        dec_u16(s, i) == Some((x, i + 2)),
{
    lemma_auto_spec_u16_to_from_le_bytes();
    assert(spec_u16_to_le_bytes(x).len() == 2);
    assert(spec_u16_from_le_bytes(s.subrange(i, i + 2)) == spec_u16_from_le_bytes(
        spec_u16_to_le_bytes(x),
    ));
}

pub proof fn lemma_dec_u32(x: u32, s: Seq<u8>, i: int)
    requires
        0 <= i,
        i + 4 <= s.len(),
        s.subrange(i, i + 4) == enc_u32(x),
    ensures
        dec_u32(s, i) == Some((x, i + 4)),
{
    lemma_auto_spec_u32_to_from_le_bytes();
    assert(spec_u32_to_le_bytes(x).len() == 4);
    assert(spec_u32_from_le_bytes(s.subrange(i, i + 4)) == spec_u32_from_le_bytes(
        spec_u32_to_le_bytes(x),
    ));
}

pub proof fn lemma_dec_u64(x: u64, s: Seq<u8>, i: int)
    requires
        0 <= i,
        i + 8 <= s.len(),
        s.subrange(i, i + 8) == enc_u64(x),
    ensures
        dec_u64(s, i) == Some((x, i + 8)),
{
    lemma_auto_spec_u64_to_from_le_bytes();
    assert(spec_u64_to_le_bytes(x).len() == 8);
    assert(spec_u64_from_le_bytes(s.subrange(i, i + 8)) == spec_u64_from_le_bytes(
        spec_u64_to_le_bytes(x),
    ));
}

pub proof fn lemma_dec_var_bytes(b: Seq<u8>, s: Seq<u8>, i: int)
    requires
        0 <= i,
        b.len() <= u32::MAX,
        i + enc_var_bytes(b).len() <= s.len(),
        s.subrange(i, i + enc_var_bytes(b).len()) == enc_var_bytes(b),
    ensures
        enc_var_bytes(b).len() == 4 + b.len(),
        dec_var_bytes(s, i) == Some((b, i + 4 + b.len())),
{
    lemma_auto_spec_u32_to_from_le_bytes();
    let n = b.len() as u32;
    let whole = enc_var_bytes(b);
    assert(whole.len() == 4 + b.len());
    assert(s.subrange(i, i + 4) == enc_u32(n)) by {
        assert forall|k: int| 0 <= k < 4 implies s.subrange(i, i + 4)[k] == enc_u32(n)[k] by {
            assert(s.subrange(i, i + whole.len())[k] == whole[k]);
        }
        assert(s.subrange(i, i + 4) =~= enc_u32(n));
    }
    lemma_dec_u32(n, s, i);
    assert(s.subrange(i + 4, i + 4 + n as int) == b) by {
        assert forall|k: int| 0 <= k < n as int implies s.subrange(i + 4, i + 4 + n as int)[k]
            == b[k] by {
            assert(s.subrange(i, i + whole.len())[k + 4] == whole[k + 4]);
        }
        assert(s.subrange(i + 4, i + 4 + n as int) =~= b);
    }
}

/// The encoded lengths of the fixed-width primitives.
pub proof fn lemma_enc_lens()
    ensures
        forall|x: u16| (#[trigger] enc_u16(x)).len() == 2,
        forall|x: u32| (#[trigger] enc_u32(x)).len() == 4,
        forall|x: u64| (#[trigger] enc_u64(x)).len() == 8,
{
    lemma_auto_spec_u16_to_from_le_bytes();
    lemma_auto_spec_u32_to_from_le_bytes();
    lemma_auto_spec_u64_to_from_le_bytes();
}

/// A window into a window: where a whole encoding sits at `i` in `s`, its
/// piece from `a` to `b` sits at `i + a`.
pub proof fn lemma_nested_subrange(s: Seq<u8>, i: int, whole: Seq<u8>, a: int, b: int)
    requires
        0 <= i,
        i + whole.len() <= s.len(),
        s.subrange(i, i + whole.len()) == whole,
        0 <= a <= b <= whole.len(),
    ensures
        s.subrange(i + a, i + b) == whole.subrange(a, b),
{
    assert forall|k: int| 0 <= k < b - a implies s.subrange(i + a, i + b)[k] == whole.subrange(
        a,
        b,
    )[k] by {
        assert(s.subrange(i, i + whole.len())[a + k] == whole[a + k]);
    }
    assert(s.subrange(i + a, i + b) =~= whole.subrange(a, b));
}

// ---------------------------------------------------------------------------
// Exec encoders and decoders, each pinned to the spec above.
// ---------------------------------------------------------------------------
/// Appends every byte of `b` to `out`.
pub fn push_bytes(out: &mut Vec<u8>, b: &[u8])
    ensures
        final(out)@ == old(out)@ + b@,
{
    let mut k: usize = 0;
    while k < b.len()
        invariant
            k <= b.len(),
            out@ == old(out)@ + b@.subrange(0, k as int),
        decreases b.len() - k,
    {
        out.push(b[k]);
        assert(b@.subrange(0, k as int).push(b@[k as int]) =~= b@.subrange(0, k + 1));
        k += 1;
    }
    assert(b@.subrange(0, b@.len() as int) =~= b@);
}

pub fn push_u8(out: &mut Vec<u8>, x: u8)
    ensures
        final(out)@ == old(out)@ + enc_u8(x),
{
    out.push(x);
    assert(old(out)@.push(x) =~= old(out)@ + enc_u8(x));
}

pub fn push_u16(out: &mut Vec<u8>, x: u16)
    ensures
        final(out)@ == old(out)@ + enc_u16(x),
{
    let b = u16_to_le_bytes(x);
    push_bytes(out, b.as_slice());
}

pub fn push_u32(out: &mut Vec<u8>, x: u32)
    ensures
        final(out)@ == old(out)@ + enc_u32(x),
{
    let b = u32_to_le_bytes(x);
    push_bytes(out, b.as_slice());
}

pub fn push_u64(out: &mut Vec<u8>, x: u64)
    ensures
        final(out)@ == old(out)@ + enc_u64(x),
{
    let b = u64_to_le_bytes(x);
    push_bytes(out, b.as_slice());
}

pub fn push_var_bytes(out: &mut Vec<u8>, b: &[u8])
    requires
        b@.len() <= u32::MAX,
    ensures
        final(out)@ == old(out)@ + enc_var_bytes(b@),
{
    push_u32(out, b.len() as u32);
    push_bytes(out, b);
    assert(old(out)@ + enc_u32(b@.len() as u32) + b@ =~= old(out)@ + enc_var_bytes(b@));
}

pub fn read_u8(s: &[u8], pos: usize) -> (r: Option<(u8, usize)>)
    ensures
        match r {
            Some((x, j)) => dec_u8(s@, pos as int) == Some((x, j as int)),
            None => dec_u8(s@, pos as int) is None,
        },
{
    if pos < s.len() {
        Some((*vstd::slice::slice_index_get(s, pos), pos + 1))
    } else {
        None
    }
}

pub fn read_u16(s: &[u8], pos: usize) -> (r: Option<(u16, usize)>)
    ensures
        match r {
            Some((x, j)) => dec_u16(s@, pos as int) == Some((x, j as int)),
            None => dec_u16(s@, pos as int) is None,
        },
{
    if s.len() >= 2 && pos <= s.len() - 2 {
        let sub = vstd::slice::slice_subrange(s, pos, pos + 2);
        Some((u16_from_le_bytes(sub), pos + 2))
    } else {
        None
    }
}

pub fn read_u32(s: &[u8], pos: usize) -> (r: Option<(u32, usize)>)
    ensures
        match r {
            Some((x, j)) => dec_u32(s@, pos as int) == Some((x, j as int)),
            None => dec_u32(s@, pos as int) is None,
        },
{
    if s.len() >= 4 && pos <= s.len() - 4 {
        let sub = vstd::slice::slice_subrange(s, pos, pos + 4);
        Some((u32_from_le_bytes(sub), pos + 4))
    } else {
        None
    }
}

pub fn read_u64(s: &[u8], pos: usize) -> (r: Option<(u64, usize)>)
    ensures
        match r {
            Some((x, j)) => dec_u64(s@, pos as int) == Some((x, j as int)),
            None => dec_u64(s@, pos as int) is None,
        },
{
    if s.len() >= 8 && pos <= s.len() - 8 {
        let sub = vstd::slice::slice_subrange(s, pos, pos + 8);
        Some((u64_from_le_bytes(sub), pos + 8))
    } else {
        None
    }
}

pub fn read_bytes(s: &[u8], pos: usize, n: usize) -> (r: Option<(Vec<u8>, usize)>)
    ensures
        match r {
            Some((v, j)) => dec_bytes(s@, pos as int, n as int) == Some((v@, j as int)),
            None => dec_bytes(s@, pos as int, n as int) is None,
        },
{
    if n <= s.len() && pos <= s.len() - n {
        let sub = vstd::slice::slice_subrange(s, pos, pos + n);
        let mut v: Vec<u8> = Vec::new();
        push_bytes(&mut v, sub);
        assert(v@ =~= s@.subrange(pos as int, pos + n as int));
        Some((v, pos + n))
    } else {
        None
    }
}

pub fn read_var_bytes(s: &[u8], pos: usize) -> (r: Option<(Vec<u8>, usize)>)
    ensures
        match r {
            Some((v, j)) => dec_var_bytes(s@, pos as int) == Some((v@, j as int)),
            None => dec_var_bytes(s@, pos as int) is None,
        },
{
    match read_u32(s, pos) {
        Some((n, j)) => read_bytes(s, j, n as usize),
        None => None,
    }
}

} // verus!
