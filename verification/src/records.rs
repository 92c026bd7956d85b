//! Aggregate records: plain structures composed purely from scalar
//! field codecs, with no conditional logic. Float fields are carried as
//! IEEE-754 bit patterns (`u32`); the interchange layer outside this
//! crate gives them their float reading.

use crate::codec::{decode_elems, elems_at, encode_elems, lemma_seq_enc_u32_len, seq_enc,
    FieldCodec, Vec3f};
use crate::wire::{
    lemma_concat_split, read_i32_le, read_u32_le, spec_i32_to_le_bytes, write_i32_le, write_u32_le,
};
use vstd::bytes::spec_u32_to_le_bytes;
use vstd::prelude::*;

verus! {

/// A rectangle of four signed coordinates.
#[derive(Debug, PartialEq, Clone, Copy)]
pub struct Rect {
    pub x1: i32,
    pub y1: i32,
    pub x2: i32,
    pub y2: i32,
}

impl DeepView for Rect {
    type V = (i32, i32, i32, i32);

    open spec fn deep_view(&self) -> (i32, i32, i32, i32) {
        (self.x1, self.y1, self.x2, self.y2)
    }
}

/// Binary form of a rectangle: four little-endian `i32` values.
pub open spec fn spec_enc_rect(m: (i32, i32, i32, i32)) -> Seq<u8> {
    spec_i32_to_le_bytes(m.0) + spec_i32_to_le_bytes(m.1) + spec_i32_to_le_bytes(m.2)
        + spec_i32_to_le_bytes(m.3)
}

proof fn lemma_rect_split(m: (i32, i32, i32, i32), data: Seq<u8>, pos: int)
    requires
        0 <= pos,
        pos + 16 <= data.len(),
        spec_enc_rect(m) == data.subrange(pos, pos + 16),
    ensures
        spec_i32_to_le_bytes(m.0) == data.subrange(pos, pos + 4),
        spec_i32_to_le_bytes(m.1) == data.subrange(pos + 4, pos + 8),
        spec_i32_to_le_bytes(m.2) == data.subrange(pos + 8, pos + 12),
        spec_i32_to_le_bytes(m.3) == data.subrange(pos + 12, pos + 16),
{
    crate::wire::lemma_i32_le_bytes_round_trip();
    let p1 = spec_i32_to_le_bytes(m.0);
    let p2 = spec_i32_to_le_bytes(m.1);
    let p3 = spec_i32_to_le_bytes(m.2);
    let p4 = spec_i32_to_le_bytes(m.3);
    let a3 = p1 + p2 + p3;
    lemma_concat_split(data, pos, a3, p4);
    let a2 = p1 + p2;
    assert(a2 + p3 =~= a3);
    lemma_concat_split(data, pos, a2, p3);
    assert(p1 + p2 =~= a2);
    lemma_concat_split(data, pos, p1, p2);
}

impl FieldCodec for Rect {
    open spec fn spec_wf(m: (i32, i32, i32, i32)) -> bool {
        true
    }

    open spec fn spec_enc(m: (i32, i32, i32, i32)) -> Seq<u8> {
        spec_enc_rect(m)
    }

    fn encode(&self, out: &mut Vec<u8>) {
        write_i32_le(self.x1, out);
        write_i32_le(self.y1, out);
        write_i32_le(self.x2, out);
        write_i32_le(self.y2, out);
        proof {
            assert(final(out)@ =~= old(out)@ + Self::spec_enc(self.deep_view()));
        }
    }

    fn decode(data: &[u8], pos: usize) -> (r: Option<(Self, usize)>) {
        let dlen: usize = data.len();
        proof {
            crate::wire::lemma_i32_le_bytes_round_trip();
            assert forall|m: (i32, i32, i32, i32)| #[trigger]
                Self::spec_enc(m).len() == 16 by {
                assert(spec_i32_to_le_bytes(m.0).len() == 4);
            }
        }
        if dlen - pos < 16 {
            return None;
        }
        let v = Rect {
            x1: read_i32_le(data, pos),
            y1: read_i32_le(data, pos + 4),
            x2: read_i32_le(data, pos + 8),
            y2: read_i32_le(data, pos + 12),
        };
        proof {
            crate::wire::lemma_i32_le_bytes_round_trip();
            let w = data@.subrange(pos as int, pos + 16);
            assert(spec_i32_to_le_bytes(v.x1) + spec_i32_to_le_bytes(v.y1) + spec_i32_to_le_bytes(
                v.x2,
            ) + spec_i32_to_le_bytes(v.y2) =~= w);
            assert(Self::spec_enc(v.deep_view()) == w);
            assert forall|m: (i32, i32, i32, i32)|
                #![trigger Self::spec_enc(m)]
                (pos + 16 <= data@.len() && Self::spec_enc(m) == data@.subrange(
                    pos as int,
                    pos + 16,
                )) implies m == v.deep_view() by {
                lemma_rect_split(m, data@, pos as int);
            }
        }
        Some((v, 16))
    }
}

/// An RGBA color: four float components carried as bit patterns.
#[derive(Debug, PartialEq, Clone, Copy)]
pub struct Color {
    pub r: u32,
    pub g: u32,
    pub b: u32,
    pub a: u32,
}

impl DeepView for Color {
    type V = (u32, u32, u32, u32);

    open spec fn deep_view(&self) -> (u32, u32, u32, u32) {
        (self.r, self.g, self.b, self.a)
    }
}

/// Binary form of a color: four little-endian 32-bit words.
pub open spec fn spec_enc_color(m: (u32, u32, u32, u32)) -> Seq<u8> {
    spec_u32_to_le_bytes(m.0) + spec_u32_to_le_bytes(m.1) + spec_u32_to_le_bytes(m.2)
        + spec_u32_to_le_bytes(m.3)
}

proof fn lemma_color_split(m: (u32, u32, u32, u32), data: Seq<u8>, pos: int)
    requires
        0 <= pos,
        pos + 16 <= data.len(),
        spec_enc_color(m) == data.subrange(pos, pos + 16),
    ensures
        spec_u32_to_le_bytes(m.0) == data.subrange(pos, pos + 4),
        spec_u32_to_le_bytes(m.1) == data.subrange(pos + 4, pos + 8),
        spec_u32_to_le_bytes(m.2) == data.subrange(pos + 8, pos + 12),
        spec_u32_to_le_bytes(m.3) == data.subrange(pos + 12, pos + 16),
{
    vstd::bytes::lemma_auto_spec_u32_to_from_le_bytes();
    assert(spec_u32_to_le_bytes(m.0).len() == 4);
    let p1 = spec_u32_to_le_bytes(m.0);
    let p2 = spec_u32_to_le_bytes(m.1);
    let p3 = spec_u32_to_le_bytes(m.2);
    let p4 = spec_u32_to_le_bytes(m.3);
    let a3 = p1 + p2 + p3;
    lemma_concat_split(data, pos, a3, p4);
    let a2 = p1 + p2;
    assert(a2 + p3 =~= a3);
    lemma_concat_split(data, pos, a2, p3);
    assert(p1 + p2 =~= a2);
    lemma_concat_split(data, pos, p1, p2);
}

impl FieldCodec for Color {
    open spec fn spec_wf(m: (u32, u32, u32, u32)) -> bool {
        true
    }

    open spec fn spec_enc(m: (u32, u32, u32, u32)) -> Seq<u8> {
        spec_enc_color(m)
    }

    fn encode(&self, out: &mut Vec<u8>) {
        write_u32_le(self.r, out);
        write_u32_le(self.g, out);
        write_u32_le(self.b, out);
        write_u32_le(self.a, out);
        proof {
            assert(final(out)@ =~= old(out)@ + Self::spec_enc(self.deep_view()));
        }
    }

    fn decode(data: &[u8], pos: usize) -> (r: Option<(Self, usize)>) {
        let dlen: usize = data.len();
        proof {
            vstd::bytes::lemma_auto_spec_u32_to_from_le_bytes();
            assert forall|m: (u32, u32, u32, u32)| #[trigger]
                Self::spec_enc(m).len() == 16 by {
                assert(spec_u32_to_le_bytes(m.0).len() == 4);
            }
        }
        if dlen - pos < 16 {
            return None;
        }
        let v = Color {
            r: read_u32_le(data, pos),
            g: read_u32_le(data, pos + 4),
            b: read_u32_le(data, pos + 8),
            a: read_u32_le(data, pos + 12),
        };
        proof {
            vstd::bytes::lemma_auto_spec_u32_to_from_le_bytes();
            let w = data@.subrange(pos as int, pos + 16);
            assert(spec_u32_to_le_bytes(v.r) + spec_u32_to_le_bytes(v.g) + spec_u32_to_le_bytes(
                v.b,
            ) + spec_u32_to_le_bytes(v.a) =~= w);
            assert(Self::spec_enc(v.deep_view()) == w);
            assert forall|m: (u32, u32, u32, u32)|
                #![trigger Self::spec_enc(m)]
                (pos + 16 <= data@.len() && Self::spec_enc(m) == data@.subrange(
                    pos as int,
                    pos + 16,
                )) implies m == v.deep_view() by {
                lemma_color_split(m, data@, pos as int);
            }
        }
        Some((v, 16))
    }
}

/// Fade-distance triple: three float fields carried as bit patterns.
#[derive(Debug, PartialEq, Clone, Copy)]
pub struct FadeDistances {
    pub x: u32,
    pub y: u32,
    pub fade_close: u32,
}

impl DeepView for FadeDistances {
    type V = (u32, u32, u32);

    open spec fn deep_view(&self) -> (u32, u32, u32) {
        (self.x, self.y, self.fade_close)
    }
}

/// Binary form of a fade-distance triple: three little-endian words.
pub open spec fn spec_enc_fade_distances(m: (u32, u32, u32)) -> Seq<u8> {
    spec_u32_to_le_bytes(m.0) + spec_u32_to_le_bytes(m.1) + spec_u32_to_le_bytes(m.2)
}

proof fn lemma_fade_split(m: (u32, u32, u32), data: Seq<u8>, pos: int)
    requires
        0 <= pos,
        pos + 12 <= data.len(),
        spec_enc_fade_distances(m) == data.subrange(pos, pos + 12),
    ensures
        spec_u32_to_le_bytes(m.0) == data.subrange(pos, pos + 4),
        spec_u32_to_le_bytes(m.1) == data.subrange(pos + 4, pos + 8),
        spec_u32_to_le_bytes(m.2) == data.subrange(pos + 8, pos + 12),
{
    vstd::bytes::lemma_auto_spec_u32_to_from_le_bytes();
    assert(spec_u32_to_le_bytes(m.0).len() == 4);
    let p1 = spec_u32_to_le_bytes(m.0);
    let p2 = spec_u32_to_le_bytes(m.1);
    let p3 = spec_u32_to_le_bytes(m.2);
    let a2 = p1 + p2;
    lemma_concat_split(data, pos, a2, p3);
    assert(p1 + p2 =~= a2);
    lemma_concat_split(data, pos, p1, p2);
}

impl FieldCodec for FadeDistances {
    open spec fn spec_wf(m: (u32, u32, u32)) -> bool {
        true
    }

    open spec fn spec_enc(m: (u32, u32, u32)) -> Seq<u8> {
        spec_enc_fade_distances(m)
    }

    fn encode(&self, out: &mut Vec<u8>) {
        write_u32_le(self.x, out);
        write_u32_le(self.y, out);
        write_u32_le(self.fade_close, out);
        proof {
            assert(final(out)@ =~= old(out)@ + Self::spec_enc(self.deep_view()));
        }
    }

    fn decode(data: &[u8], pos: usize) -> (r: Option<(Self, usize)>) {
        let dlen: usize = data.len();
        proof {
            vstd::bytes::lemma_auto_spec_u32_to_from_le_bytes();
            assert forall|m: (u32, u32, u32)| #[trigger]
                Self::spec_enc(m).len() == 12 by {
                assert(spec_u32_to_le_bytes(m.0).len() == 4);
            }
        }
        if dlen - pos < 12 {
            return None;
        }
        let v = FadeDistances {
            x: read_u32_le(data, pos),
            y: read_u32_le(data, pos + 4),
            fade_close: read_u32_le(data, pos + 8),
        };
        proof {
            vstd::bytes::lemma_auto_spec_u32_to_from_le_bytes();
            let w = data@.subrange(pos as int, pos + 12);
            assert(spec_u32_to_le_bytes(v.x) + spec_u32_to_le_bytes(v.y) + spec_u32_to_le_bytes(
                v.fade_close,
            ) =~= w);
            assert(Self::spec_enc(v.deep_view()) == w);
            assert forall|m: (u32, u32, u32)|
                #![trigger Self::spec_enc(m)]
                (pos + 12 <= data@.len() && Self::spec_enc(m) == data@.subrange(
                    pos as int,
                    pos + 12,
                )) implies m == v.deep_view() by {
                lemma_fade_split(m, data@, pos as int);
            }
        }
        Some((v, 12))
    }
}

/// A bounding sphere: a three-component center (float bit patterns) and
/// a radius (float bit pattern).
#[derive(Debug, PartialEq)]
pub struct SphereZ {
    pub center: Vec3f,
    pub radius: u32,
}

impl DeepView for SphereZ {
    type V = (Seq<u32>, u32);

    open spec fn deep_view(&self) -> (Seq<u32>, u32) {
        (self.center.deep_view(), self.radius)
    }
}

/// Binary form of a sphere: three center words, then the radius word.
pub open spec fn spec_enc_sphere(m: (Seq<u32>, u32)) -> Seq<u8> {
    seq_enc::<u32>(m.0) + spec_u32_to_le_bytes(m.1)
}

impl FieldCodec for SphereZ {
    open spec fn spec_wf(m: (Seq<u32>, u32)) -> bool {
        m.0.len() == 3
    }

    open spec fn spec_enc(m: (Seq<u32>, u32)) -> Seq<u8> {
        spec_enc_sphere(m)
    }

    fn encode(&self, out: &mut Vec<u8>) {
        encode_elems::<u32>(&self.center.data, out);
        write_u32_le(self.radius, out);
        proof {
            assert(final(out)@ =~= old(out)@ + Self::spec_enc(self.deep_view()));
        }
    }

    fn decode(data: &[u8], pos: usize) -> (r: Option<(Self, usize)>) {
        let dlen: usize = data.len();
        proof {
            vstd::bytes::lemma_auto_spec_u32_to_from_le_bytes();
            assert forall|m: (Seq<u32>, u32)|
                #![trigger Self::spec_enc(m)]
                (Self::spec_wf(m) && pos + Self::spec_enc(m).len() <= data@.len()
                    && Self::spec_enc(m) == data@.subrange(
                    pos as int,
                    pos + Self::spec_enc(m).len(),
                )) implies (Self::spec_enc(m).len() == 16 && elems_at::<u32>(
                m.0,
                data@,
                pos as int,
                3,
            ) && spec_u32_to_le_bytes(m.1) == data@.subrange(pos + 12, pos + 16)) by {
                lemma_seq_enc_u32_len(m.0);
                lemma_concat_split(data@, pos as int, seq_enc::<u32>(m.0), spec_u32_to_le_bytes(m.1));
            }
        }
        if dlen - pos < 16 {
            return None;
        }
        let center_v = match decode_elems::<u32>(data, pos, 3) {
            None => {
                return None;
            },
            Some((v, _used)) => v,
        };
        let radius = read_u32_le(data, pos + 12);
        let v = SphereZ { center: crate::codec::FixedVec { data: center_v }, radius };
        proof {
            vstd::bytes::lemma_auto_spec_u32_to_from_le_bytes();
            lemma_seq_enc_u32_len(v.deep_view().0);
            assert(data@.subrange(pos as int, pos + 12) + data@.subrange(pos + 12, pos + 16)
                =~= data@.subrange(pos as int, pos + 16));
            assert(Self::spec_enc(v.deep_view()) == data@.subrange(pos as int, pos + 16));
        }
        Some((v, 16))
    }
}

} // verus!

verus! {

/// A range stored as its two bounds.
#[derive(Debug, PartialEq)]
pub struct RangeBeginEnd<T = u16> {
    pub begin: T,
    pub end: T,
}

impl<T: DeepView> DeepView for RangeBeginEnd<T> {
    type V = (T::V, T::V);

    open spec fn deep_view(&self) -> (T::V, T::V) {
        (self.begin.deep_view(), self.end.deep_view())
    }
}

/// Binary form of a two-field record over one element codec.
pub open spec fn spec_enc_pair<T: FieldCodec>(m: (T::V, T::V)) -> Seq<u8> {
    T::spec_enc(m.0) + T::spec_enc(m.1)
}

/// Decodes two consecutive `T` fields; shared by the two range records.
fn decode_pair<T: FieldCodec>(data: &[u8], pos: usize) -> (r: Option<((T, T), usize)>)
    requires
        pos <= data@.len(),
    ensures
        (r matches Some((v, n)) ==> T::spec_wf(v.0.deep_view()) && T::spec_wf(v.1.deep_view())
            && pos + n <= data@.len() && spec_enc_pair::<T>((v.0.deep_view(), v.1.deep_view()))
            == data@.subrange(pos as int, pos + n)),
        forall|m: (T::V, T::V)|
            #![trigger spec_enc_pair::<T>(m)]
            (T::spec_wf(m.0) && T::spec_wf(m.1) && pos + spec_enc_pair::<T>(m).len() <= data@.len()
                && spec_enc_pair::<T>(m) == data@.subrange(
                pos as int,
                pos + spec_enc_pair::<T>(m).len(),
            )) ==> (r matches Some((v, n)) && v.0.deep_view() == m.0 && v.1.deep_view() == m.1 && n
                == spec_enc_pair::<T>(m).len()),
{
    let dlen: usize = data.len();
    proof {
        assert forall|m: (T::V, T::V)|
            #![trigger spec_enc_pair::<T>(m)]
            (T::spec_wf(m.0) && T::spec_wf(m.1) && pos + spec_enc_pair::<T>(m).len() <= data@.len()
                && spec_enc_pair::<T>(m) == data@.subrange(
                pos as int,
                pos + spec_enc_pair::<T>(m).len(),
            )) implies (T::spec_enc(m.0) == data@.subrange(
            pos as int,
            pos + T::spec_enc(m.0).len(),
        ) && T::spec_enc(m.1) == data@.subrange(
            pos + T::spec_enc(m.0).len(),
            pos + T::spec_enc(m.0).len() + T::spec_enc(m.1).len(),
        )) by {
            lemma_concat_split(data@, pos as int, T::spec_enc(m.0), T::spec_enc(m.1));
        }
    }
    let (first, n0) = match T::decode(data, pos) {
        None => {
            return None;
        },
        Some(x) => x,
    };
    let (second, n1) = match T::decode(data, pos + n0) {
        None => {
            return None;
        },
        Some(x) => x,
    };
    proof {
        assert(data@.subrange(pos as int, pos + n0) + data@.subrange(
            pos + n0,
            pos + n0 + n1,
        ) =~= data@.subrange(pos as int, pos + n0 + n1));
    }
    Some(((first, second), n0 + n1))
}

impl<T: FieldCodec> FieldCodec for RangeBeginEnd<T> {
    open spec fn spec_wf(m: (T::V, T::V)) -> bool {
        T::spec_wf(m.0) && T::spec_wf(m.1)
    }

    open spec fn spec_enc(m: (T::V, T::V)) -> Seq<u8> {
        spec_enc_pair::<T>(m)
    }

    fn encode(&self, out: &mut Vec<u8>) {
        self.begin.encode(out);
        self.end.encode(out);
        proof {
            assert(final(out)@ =~= old(out)@ + Self::spec_enc(self.deep_view()));
        }
    }

    fn decode(data: &[u8], pos: usize) -> (r: Option<(Self, usize)>) {
        match decode_pair::<T>(data, pos) {
            None => None,
            Some(((begin, end), n)) => Some((RangeBeginEnd { begin, end }, n)),
        }
    }
}

/// A range stored as its start and its size.
#[derive(Debug, PartialEq)]
pub struct RangeBeginSize<T = u16> {
    pub begin: T,
    pub size: T,
}

impl<T: DeepView> DeepView for RangeBeginSize<T> {
    type V = (T::V, T::V);

    open spec fn deep_view(&self) -> (T::V, T::V) {
        (self.begin.deep_view(), self.size.deep_view())
    }
}

impl<T: FieldCodec> FieldCodec for RangeBeginSize<T> {
    open spec fn spec_wf(m: (T::V, T::V)) -> bool {
        T::spec_wf(m.0) && T::spec_wf(m.1)
    }

    open spec fn spec_enc(m: (T::V, T::V)) -> Seq<u8> {
        spec_enc_pair::<T>(m)
    }

    fn encode(&self, out: &mut Vec<u8>) {
        self.begin.encode(out);
        self.size.encode(out);
        proof {
            assert(final(out)@ =~= old(out)@ + Self::spec_enc(self.deep_view()));
        }
    }

    fn decode(data: &[u8], pos: usize) -> (r: Option<(Self, usize)>) {
        match decode_pair::<T>(data, pos) {
            None => None,
            Some(((begin, size), n)) => Some((RangeBeginSize { begin, size }, n)),
        }
    }
}

/// A dynamic collision sphere: a sphere, flags, and a name hash.
#[derive(Debug, PartialEq)]
pub struct DynSphere {
    pub sphere: SphereZ,
    pub flags: u32,
    pub dyn_sphere_name: u32,
}

impl DeepView for DynSphere {
    type V = ((Seq<u32>, u32), u32, u32);

    open spec fn deep_view(&self) -> ((Seq<u32>, u32), u32, u32) {
        (self.sphere.deep_view(), self.flags, self.dyn_sphere_name)
    }
}

/// Binary form of a dynamic sphere record.
pub open spec fn spec_enc_dyn_sphere(m: ((Seq<u32>, u32), u32, u32)) -> Seq<u8> {
    <SphereZ as FieldCodec>::spec_enc(m.0) + spec_u32_to_le_bytes(m.1) + spec_u32_to_le_bytes(m.2)
}

impl FieldCodec for DynSphere {
    open spec fn spec_wf(m: ((Seq<u32>, u32), u32, u32)) -> bool {
        <SphereZ as FieldCodec>::spec_wf(m.0)
    }

    open spec fn spec_enc(m: ((Seq<u32>, u32), u32, u32)) -> Seq<u8> {
        spec_enc_dyn_sphere(m)
    }

    fn encode(&self, out: &mut Vec<u8>) {
        self.sphere.encode(out);
        write_u32_le(self.flags, out);
        write_u32_le(self.dyn_sphere_name, out);
        proof {
            assert(final(out)@ =~= old(out)@ + Self::spec_enc(self.deep_view()));
        }
    }

    fn decode(data: &[u8], pos: usize) -> (r: Option<(Self, usize)>) {
        let dlen: usize = data.len();
        proof {
            vstd::bytes::lemma_auto_spec_u32_to_from_le_bytes();
            assert forall|m: ((Seq<u32>, u32), u32, u32)|
                #![trigger Self::spec_enc(m)]
                (Self::spec_wf(m) && pos + Self::spec_enc(m).len() <= data@.len()
                    && Self::spec_enc(m) == data@.subrange(
                    pos as int,
                    pos + Self::spec_enc(m).len(),
                )) implies (Self::spec_enc(m).len() == 24 && <SphereZ as FieldCodec>::spec_enc(m.0)
                == data@.subrange(pos as int, pos + 16) && spec_u32_to_le_bytes(m.1)
                == data@.subrange(pos + 16, pos + 20) && spec_u32_to_le_bytes(m.2)
                == data@.subrange(pos + 20, pos + 24)) by {
                lemma_seq_enc_u32_len(m.0.0);
                let p1 = <SphereZ as FieldCodec>::spec_enc(m.0);
                let p2 = spec_u32_to_le_bytes(m.1);
                let p3 = spec_u32_to_le_bytes(m.2);
                let a2 = p1 + p2;
                lemma_concat_split(data@, pos as int, a2, p3);
                assert(p1 + p2 =~= a2);
                lemma_concat_split(data@, pos as int, p1, p2);
            }
        }
        let (sphere, n0) = match <SphereZ as FieldCodec>::decode(data, pos) {
            None => {
                return None;
            },
            Some(x) => x,
        };
        if dlen - (pos + n0) < 8 {
            return None;
        }
        let flags = read_u32_le(data, pos + n0);
        let dyn_sphere_name = read_u32_le(data, pos + n0 + 4);
        let v = DynSphere { sphere, flags, dyn_sphere_name };
        proof {
            vstd::bytes::lemma_auto_spec_u32_to_from_le_bytes();
            assert(data@.subrange(pos as int, pos + n0) + data@.subrange(pos + n0, pos + n0 + 4)
                + data@.subrange(pos + n0 + 4, pos + n0 + 8) =~= data@.subrange(
                pos as int,
                pos + n0 + 8,
            ));
            assert(Self::spec_enc(v.deep_view()) == data@.subrange(pos as int, pos + n0 + 8));
        }
        Some((v, n0 + 8))
    }
}

/// A dynamic collision box: a transform matrix, flags, and a name hash.
#[derive(Debug, PartialEq)]
pub struct DynBox {
    pub mat: crate::codec::Mat4f,
    pub flags: u32,
    pub dyn_box_name: u32,
}

impl DeepView for DynBox {
    type V = (Seq<u32>, u32, u32);

    open spec fn deep_view(&self) -> (Seq<u32>, u32, u32) {
        (self.mat.deep_view(), self.flags, self.dyn_box_name)
    }
}

/// Binary form of a dynamic box record.
pub open spec fn spec_enc_dyn_box(m: (Seq<u32>, u32, u32)) -> Seq<u8> {
    seq_enc::<u32>(m.0) + spec_u32_to_le_bytes(m.1) + spec_u32_to_le_bytes(m.2)
}

impl FieldCodec for DynBox {
    open spec fn spec_wf(m: (Seq<u32>, u32, u32)) -> bool {
        m.0.len() == 16
    }

    open spec fn spec_enc(m: (Seq<u32>, u32, u32)) -> Seq<u8> {
        spec_enc_dyn_box(m)
    }

    fn encode(&self, out: &mut Vec<u8>) {
        encode_elems::<u32>(&self.mat.data, out);
        write_u32_le(self.flags, out);
        write_u32_le(self.dyn_box_name, out);
        proof {
            assert(final(out)@ =~= old(out)@ + Self::spec_enc(self.deep_view()));
        }
    }

    fn decode(data: &[u8], pos: usize) -> (r: Option<(Self, usize)>) {
        let dlen: usize = data.len();
        proof {
            vstd::bytes::lemma_auto_spec_u32_to_from_le_bytes();
            assert forall|m: (Seq<u32>, u32, u32)|
                #![trigger Self::spec_enc(m)]
                (Self::spec_wf(m) && pos + Self::spec_enc(m).len() <= data@.len()
                    && Self::spec_enc(m) == data@.subrange(
                    pos as int,
                    pos + Self::spec_enc(m).len(),
                )) implies (Self::spec_enc(m).len() == 72 && elems_at::<u32>(
                m.0,
                data@,
                pos as int,
                16,
            ) && spec_u32_to_le_bytes(m.1) == data@.subrange(pos + 64, pos + 68)
                && spec_u32_to_le_bytes(m.2) == data@.subrange(pos + 68, pos + 72)) by {
                lemma_seq_enc_u32_len(m.0);
                let p1 = seq_enc::<u32>(m.0);
                let p2 = spec_u32_to_le_bytes(m.1);
                let p3 = spec_u32_to_le_bytes(m.2);
                let a2 = p1 + p2;
                lemma_concat_split(data@, pos as int, a2, p3);
                assert(p1 + p2 =~= a2);
                lemma_concat_split(data@, pos as int, p1, p2);
            }
        }
        if dlen - pos < 72 {
            return None;
        }
        let mat_v = match decode_elems::<u32>(data, pos, 16) {
            None => {
                return None;
            },
            Some((v, _used)) => v,
        };
        let flags = read_u32_le(data, pos + 64);
        let dyn_box_name = read_u32_le(data, pos + 68);
        let v = DynBox { mat: crate::codec::FixedVec { data: mat_v }, flags, dyn_box_name };
        proof {
            vstd::bytes::lemma_auto_spec_u32_to_from_le_bytes();
            lemma_seq_enc_u32_len(v.deep_view().0);
            assert(data@.subrange(pos as int, pos + 64) + data@.subrange(pos + 64, pos + 68)
                + data@.subrange(pos + 68, pos + 72) =~= data@.subrange(pos as int, pos + 72));
            assert(Self::spec_enc(v.deep_view()) == data@.subrange(pos as int, pos + 72));
        }
        Some((v, 72))
    }
}

/// Encodes an optional field: a present value contributes its binary
/// form, an absent one contributes nothing at all to the stream.
pub fn write_option<T: FieldCodec>(option: &Option<T>, out: &mut Vec<u8>)
    requires
        (option matches Some(v) ==> T::spec_wf(v.deep_view())),
    ensures
        final(out)@ == old(out)@ + (match *option {
            Option::Some(v) => T::spec_enc(v.deep_view()),
            Option::None => Seq::<u8>::empty(),
        }),
{
    match option {
        Option::Some(value) => {
            value.encode(out);
        },
        Option::None => {
            proof {
                assert(final(out)@ =~= old(out)@ + Seq::<u8>::empty());
            }
        },
    }
}

} // verus!
