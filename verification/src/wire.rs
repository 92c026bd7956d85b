//! Little-endian wire helpers shared by every field codec.
//!
//! The binary format is little-endian throughout; these functions move
//! single scalars between byte buffers and values, stated against the
//! byte-sequence functions of `vstd::bytes`.

use vstd::bytes::{
    spec_u16_from_le_bytes, spec_u16_to_le_bytes, spec_u32_from_le_bytes, spec_u32_to_le_bytes,
    u16_from_le_bytes, u16_to_le_bytes, u32_from_le_bytes, u32_to_le_bytes,
};
use vstd::prelude::*;

verus! {

/// Little-endian encoding of an `i32`, as the bytes of its two's-complement
/// bit pattern.
pub open spec fn spec_i32_to_le_bytes(x: i32) -> Seq<u8> {
    spec_u32_to_le_bytes(x as u32)
}

/// The `i32` whose two's-complement bit pattern a 4-byte little-endian
/// sequence holds.
pub open spec fn spec_i32_from_le_bytes(s: Seq<u8>) -> i32
    recommends
        s.len() == 4,
{
    spec_u32_from_le_bytes(s) as i32
}

/// Round trip of the `i32` byte conversions, in both directions.
pub proof fn lemma_i32_le_bytes_round_trip()
    ensures
        forall|x: i32| #[trigger] spec_i32_to_le_bytes(x).len() == 4,
        forall|x: i32| spec_i32_from_le_bytes(#[trigger] spec_i32_to_le_bytes(x)) == x,
        forall|s: Seq<u8>|
            s.len() == 4 ==> spec_i32_to_le_bytes(#[trigger] spec_i32_from_le_bytes(s)) == s,
{
    vstd::bytes::lemma_auto_spec_u32_to_from_le_bytes();
    assert forall|x: i32| spec_i32_from_le_bytes(#[trigger] spec_i32_to_le_bytes(x)) == x by {
        vstd::bytes::lemma_auto_spec_u32_to_from_le_bytes();
        assert(spec_u32_to_le_bytes(x as u32).len() == 4);
        assert((x as u32) as i32 == x) by (bit_vector);
    }
    assert forall|s: Seq<u8>| s.len() == 4 implies spec_i32_to_le_bytes(
        #[trigger] spec_i32_from_le_bytes(s),
    ) == s by {
        vstd::bytes::lemma_auto_spec_u32_to_from_le_bytes();
        let u = spec_u32_from_le_bytes(s);
        assert((u as i32) as u32 == u) by (bit_vector);
    }
}

pub fn write_u8(v: u8, out: &mut Vec<u8>)
    ensures
        final(out)@ == old(out)@ + seq![v],
{
    out.push(v);
    proof {
        assert(out@ =~= old(out)@ + seq![v]);
    }
}

pub fn write_u16_le(v: u16, out: &mut Vec<u8>)
    ensures
        final(out)@ == old(out)@ + spec_u16_to_le_bytes(v),
{
    let mut b = u16_to_le_bytes(v);
    out.append(&mut b);
}

pub fn write_u32_le(v: u32, out: &mut Vec<u8>)
    ensures
        final(out)@ == old(out)@ + spec_u32_to_le_bytes(v),
{
    let mut b = u32_to_le_bytes(v);
    out.append(&mut b);
}

pub fn write_i32_le(v: i32, out: &mut Vec<u8>)
    ensures
        final(out)@ == old(out)@ + spec_i32_to_le_bytes(v),
{
    write_u32_le(v as u32, out);
}

pub fn read_u8(data: &[u8], pos: usize) -> (r: u8)
    requires
        pos < data@.len(),
    ensures
        r == data@[pos as int],
{
    data[pos]
}

pub fn read_u16_le(data: &[u8], pos: usize) -> (r: u16)
    requires
        pos + 2 <= data@.len(),
    ensures
        r == spec_u16_from_le_bytes(data@.subrange(pos as int, pos + 2)),
{
    let n: usize = data.len();
    u16_from_le_bytes(&data[pos..pos + 2])
}

pub fn read_u32_le(data: &[u8], pos: usize) -> (r: u32)
    requires
        pos + 4 <= data@.len(),
    ensures
        r == spec_u32_from_le_bytes(data@.subrange(pos as int, pos + 4)),
{
    let n: usize = data.len();
    u32_from_le_bytes(&data[pos..pos + 4])
}

pub fn read_i32_le(data: &[u8], pos: usize) -> (r: i32)
    requires
        pos + 4 <= data@.len(),
    ensures
        r == spec_i32_from_le_bytes(data@.subrange(pos as int, pos + 4)),
{
    read_u32_le(data, pos) as i32
}

/// Splits a concatenation located inside a larger byte sequence into its
/// two parts: if `data[pos..pos+|a|+|b|]` is `a + b`, then `a` and `b`
/// each sit at their own offsets.
pub proof fn lemma_concat_split(data: Seq<u8>, pos: int, a: Seq<u8>, b: Seq<u8>)
    requires
        0 <= pos,
        pos + a.len() + b.len() <= data.len(),
        data.subrange(pos, pos + a.len() + b.len()) == a + b,
    ensures
        data.subrange(pos, pos + a.len()) == a,
        data.subrange(pos + a.len(), pos + a.len() + b.len()) == b,
{
    let whole = data.subrange(pos, pos + a.len() + b.len());
    assert forall|i: int| 0 <= i < a.len() implies data.subrange(pos, pos + a.len())[i] == a[i] by {
        assert(whole[i] == (a + b)[i]);
    }
    assert(data.subrange(pos, pos + a.len()) =~= a);
    assert forall|i: int| 0 <= i < b.len() implies data.subrange(
        pos + a.len(),
        pos + a.len() + b.len(),
    )[i] == b[i] by {
        assert(whole[a.len() + i] == (a + b)[a.len() + i]);
    }
    assert(data.subrange(pos + a.len(), pos + a.len() + b.len()) =~= b);
}

} // verus!
