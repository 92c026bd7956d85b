//! Decodable object kinds and the link-extraction protocol.
//!
//! An object half (header or body) has an exact whole-slice binary codec
//! ([`ObjectCodec`]) and reports its outgoing reference IDs
//! ([`HasReferences`]). Two record kinds live here, each with a field
//! whose presence is not tagged in the stream but inferred from the
//! remaining buffer length at decode time.

use crate::codec::{
    decode_elems, elems_at, encode_elems, lemma_seq_enc_u32_len, seq_enc, seq_wf, FieldCodec, Mat4f,
    PascalArray, Quat,
};
use crate::wire::{lemma_concat_split, read_u16_le, read_u32_le, write_u16_le, write_u32_le};
use vstd::bytes::{spec_u16_to_le_bytes, spec_u32_from_le_bytes, spec_u32_to_le_bytes};
use vstd::prelude::*;
use vstd::slice::slice_to_vec;

verus! {

/// Link-extraction protocol: every object participant reports its
/// outgoing hard and soft reference IDs, in field declaration order.
/// Callers concatenate these lists; they never sort or deduplicate.
pub trait HasReferences {
    /// The hard links, as a mathematical sequence.
    spec fn spec_hard_links(&self) -> Seq<u32>;

    /// The soft links, as a mathematical sequence.
    spec fn spec_soft_links(&self) -> Seq<u32>;

    /// Reference IDs this object depends on as required relationships.
    fn hard_links(&self) -> (r: Vec<u32>)
        ensures
            r@ == self.spec_hard_links(),
    ;

    /// Optional, best-effort reference IDs.
    fn soft_links(&self) -> (r: Vec<u32>)
        ensures
            r@ == self.spec_soft_links(),
    ;
}

/// Exact whole-slice binary codec for an object half: decoding succeeds
/// if and only if the entire slice is the encoding of some well-formed
/// logical value, and then yields exactly that value.
pub trait ObjectCodec: Sized + DeepView {
    /// Which logical values the codec accepts for encoding.
    spec fn spec_wf(m: Self::V) -> bool;

    /// The binary form of a logical value.
    spec fn spec_enc(m: Self::V) -> Seq<u8>;

    /// Runtime check of `spec_wf`.
    fn wf(&self) -> (b: bool)
        ensures
            b == Self::spec_wf(self.deep_view()),
    ;

    /// Appends the binary form of `self` to `out`.
    fn encode(&self, out: &mut Vec<u8>)
        requires
            Self::spec_wf(self.deep_view()),
        ensures
            final(out)@ == old(out)@ + Self::spec_enc(self.deep_view()),
    ;

    /// Decodes the whole slice, which must match the grammar exactly:
    /// trailing or missing bytes are a failure.
    fn decode_exact(data: &[u8]) -> (r: Option<Self>)
        ensures
            (r matches Some(v) ==> Self::spec_wf(v.deep_view()) && Self::spec_enc(v.deep_view())
                == data@),
            forall|m: Self::V|
                #![trigger Self::spec_enc(m)]
                (Self::spec_wf(m) && Self::spec_enc(m) == data@) ==> (r matches Some(v)
                    && v.deep_view() == m),
    ;
}

/// A resource object: a name hash, then an optional soft-link array that
/// is present if and only if any bytes remain after the hash.
#[derive(Debug, PartialEq)]
pub struct ResourceObjectZ {
    pub friendly_name_crc32: u32,
    pub crc32s: Option<PascalArray<u32>>,
}

impl DeepView for ResourceObjectZ {
    type V = (u32, Option<Seq<u32>>);

    open spec fn deep_view(&self) -> (u32, Option<Seq<u32>>) {
        (self.friendly_name_crc32, self.crc32s.deep_view())
    }
}

/// Binary form of a resource object: the name hash, then the
/// length-prefixed array when present and nothing when absent.
pub open spec fn spec_enc_resource_object(m: (u32, Option<Seq<u32>>)) -> Seq<u8> {
    spec_u32_to_le_bytes(m.0) + (match m.1 {
        Option::None => Seq::<u8>::empty(),
        Option::Some(s) => <PascalArray<u32> as FieldCodec>::spec_enc(s),
    })
}

/// A present array fits its 4-byte count.
pub open spec fn resource_object_wf(m: (u32, Option<Seq<u32>>)) -> bool {
    match m.1 {
        Option::None => true,
        Option::Some(s) => s.len() <= u32::MAX,
    }
}

impl ObjectCodec for ResourceObjectZ {
    open spec fn spec_wf(m: (u32, Option<Seq<u32>>)) -> bool {
        resource_object_wf(m)
    }

    open spec fn spec_enc(m: (u32, Option<Seq<u32>>)) -> Seq<u8> {
        spec_enc_resource_object(m)
    }

    fn wf(&self) -> (b: bool) {
        match &self.crc32s {
            Option::None => true,
            Option::Some(a) => a.len() <= u32::MAX as usize,
        }
    }

    fn encode(&self, out: &mut Vec<u8>) {
        write_u32_le(self.friendly_name_crc32, out);
        match &self.crc32s {
            Option::None => {
                proof {
                    assert(final(out)@ =~= old(out)@ + Self::spec_enc(self.deep_view()));
                }
            },
            Option::Some(a) => {
                a.encode(out);
                proof {
                    assert(final(out)@ =~= old(out)@ + Self::spec_enc(self.deep_view()));
                }
            },
        }
    }

    fn decode_exact(data: &[u8]) -> (r: Option<Self>) {
        let dlen: usize = data.len();
        proof {
            vstd::bytes::lemma_auto_spec_u32_to_from_le_bytes();
            assert forall|m: (u32, Option<Seq<u32>>)|
                #![trigger Self::spec_enc(m)]
                Self::spec_enc(m).len() >= 4 && (m.1 is Some ==> Self::spec_enc(m).len() >= 8)
                    && (m.1 is None ==> Self::spec_enc(m).len() == 4) by {
                assert(spec_u32_to_le_bytes(m.0).len() == 4);
                if m.1 is Some {
                    let s = m.1->Some_0;
                    lemma_seq_enc_u32_len(s);
                    assert(spec_u32_to_le_bytes(s.len() as u32).len() == 4);
                }
            }
        }
        if dlen < 4 {
            return None;
        }
        let name = read_u32_le(data, 0);
        proof {
            assert(data@.subrange(0, 4) == data@.subrange(0, 4));
        }
        if dlen == 4 {
            let v = ResourceObjectZ { friendly_name_crc32: name, crc32s: None };
            proof {
                assert(Self::spec_enc(v.deep_view()) =~= data@);
                assert forall|m: (u32, Option<Seq<u32>>)|
                    #![trigger Self::spec_enc(m)]
                    (Self::spec_wf(m) && Self::spec_enc(m) == data@) implies m == v.deep_view() by {
                    assert(m.1 is None);
                    assert(spec_u32_to_le_bytes(m.0) =~= data@.subrange(0, 4));
                    assert(spec_u32_from_le_bytes(spec_u32_to_le_bytes(m.0)) == m.0);
                }
            }
            return Some(v);
        }
        match <PascalArray<u32> as FieldCodec>::decode(data, 4) {
            None => {
                proof {
                    assert forall|m: (u32, Option<Seq<u32>>)|
                        #![trigger Self::spec_enc(m)]
                        !(Self::spec_wf(m) && Self::spec_enc(m) == data@) by {
                        if Self::spec_wf(m) && Self::spec_enc(m) == data@ {
                            assert(m.1 is Some);
                            let s = m.1->Some_0;
                            let ab = <PascalArray<u32> as FieldCodec>::spec_enc(s);
                            assert(data@.subrange(0, 4 + ab.len() as int) =~= data@);
                            lemma_concat_split(data@, 0, spec_u32_to_le_bytes(m.0), ab);
                            assert(ab == data@.subrange(4, 4 + ab.len() as int));
                        }
                    }
                }
                None
            },
            Some((arr, used)) => {
                if 4 + used == dlen {
                    let v = ResourceObjectZ { friendly_name_crc32: name, crc32s: Some(arr) };
                    proof {
                        assert(data@.subrange(0, 4) + data@.subrange(4, dlen as int) =~= data@);
                        assert(Self::spec_enc(v.deep_view()) =~= data@);
                        assert forall|m: (u32, Option<Seq<u32>>)|
                            #![trigger Self::spec_enc(m)]
                            (Self::spec_wf(m) && Self::spec_enc(m) == data@) implies m
                            == v.deep_view() by {
                            assert(m.1 is Some);
                            let s = m.1->Some_0;
                            let ab = <PascalArray<u32> as FieldCodec>::spec_enc(s);
                            assert(data@.subrange(0, 4 + ab.len() as int) =~= data@);
                            lemma_concat_split(data@, 0, spec_u32_to_le_bytes(m.0), ab);
                            assert(spec_u32_from_le_bytes(spec_u32_to_le_bytes(m.0)) == m.0);
                            assert(ab == data@.subrange(4, 4 + ab.len() as int));
                        }
                    }
                    Some(v)
                } else {
                    proof {
                        assert forall|m: (u32, Option<Seq<u32>>)|
                            #![trigger Self::spec_enc(m)]
                            !(Self::spec_wf(m) && Self::spec_enc(m) == data@) by {
                            if Self::spec_wf(m) && Self::spec_enc(m) == data@ {
                                assert(m.1 is Some);
                                let s = m.1->Some_0;
                                let ab = <PascalArray<u32> as FieldCodec>::spec_enc(s);
                                assert(data@.subrange(0, 4 + ab.len() as int) =~= data@);
                                lemma_concat_split(data@, 0, spec_u32_to_le_bytes(m.0), ab);
                                assert(ab == data@.subrange(4, 4 + ab.len() as int));
                            }
                        }
                    }
                    None
                }
            },
        }
    }
}

impl HasReferences for ResourceObjectZ {
    open spec fn spec_hard_links(&self) -> Seq<u32> {
        Seq::empty()
    }

    open spec fn spec_soft_links(&self) -> Seq<u32> {
        match self.crc32s {
            Option::Some(a) => a@,
            Option::None => Seq::empty(),
        }
    }

    fn hard_links(&self) -> (r: Vec<u32>) {
        let r: Vec<u32> = Vec::new();
        proof {
            assert(r@ =~= self.spec_hard_links());
        }
        r
    }

    fn soft_links(&self) -> (r: Vec<u32>) {
        match &self.crc32s {
            Option::Some(a) => slice_to_vec(a.data.as_slice()),
            Option::None => {
                let r: Vec<u32> = Vec::new();
                proof {
                    assert(r@ =~= self.spec_soft_links());
                }
                r
            },
        }
    }
}

} // verus!

verus! {

/// Logical form of an [`ObjectZ`].
pub ghost struct ObjectZV {
    pub link_crc32: u32,
    pub data_crc32: u32,
    pub crc32s: Option<Seq<u32>>,
    pub rot: Seq<u32>,
    pub transform: Seq<u32>,
    pub radius: u32,
    pub flags: u32,
    pub object_type: u16,
}

/// The rotation has four components, the transform sixteen, and a
/// present link list has exactly `data_crc32 + 1` entries.
pub open spec fn object_z_wf(m: ObjectZV) -> bool {
    &&& m.rot.len() == 4
    &&& m.transform.len() == 16
    &&& (m.crc32s matches Some(s) ==> s.len() == m.data_crc32 + 1)
}

/// Binary form of an [`ObjectZ`]: two hashes, the optional raw link
/// list (no count prefix of its own), then the 90-byte fixed tail.
pub open spec fn spec_enc_object_z(m: ObjectZV) -> Seq<u8> {
    spec_u32_to_le_bytes(m.link_crc32) + spec_u32_to_le_bytes(m.data_crc32) + (match m.crc32s {
        Option::None => Seq::<u8>::empty(),
        Option::Some(s) => seq_enc::<u32>(s),
    }) + seq_enc::<u32>(m.rot) + seq_enc::<u32>(m.transform) + spec_u32_to_le_bytes(m.radius)
        + spec_u32_to_le_bytes(m.flags) + spec_u16_to_le_bytes(m.object_type)
}

/// Where each piece of a well-formed, matching encoding sits. The link
/// list's presence is visible only in the total length: without it the
/// encoding is exactly 98 bytes.
proof fn lemma_object_z_split(m: ObjectZV, data: Seq<u8>)
    requires
        object_z_wf(m),
        spec_enc_object_z(m) == data,
    ensures
        data.len() == 98 + (match m.crc32s {
            Option::None => 0int,
            Option::Some(s) => 4 * s.len() as int,
        }),
        spec_u32_to_le_bytes(m.link_crc32) == data.subrange(0, 4),
        spec_u32_to_le_bytes(m.data_crc32) == data.subrange(4, 8),
        (m.crc32s matches Some(s) ==> seq_enc::<u32>(s) == data.subrange(8, data.len() - 90)),
        seq_enc::<u32>(m.rot) == data.subrange(data.len() - 90, data.len() - 74),
        seq_enc::<u32>(m.transform) == data.subrange(data.len() - 74, data.len() - 10),
        spec_u32_to_le_bytes(m.radius) == data.subrange(data.len() - 10, data.len() - 6),
        spec_u32_to_le_bytes(m.flags) == data.subrange(data.len() - 6, data.len() - 2),
        spec_u16_to_le_bytes(m.object_type) == data.subrange(data.len() - 2, data.len() as int),
{
    vstd::bytes::lemma_auto_spec_u32_to_from_le_bytes();
    vstd::bytes::lemma_auto_spec_u16_to_from_le_bytes();
    assert(spec_u16_to_le_bytes(m.object_type).len() == 2);
    assert(spec_u32_to_le_bytes(m.link_crc32).len() == 4);
    let p1 = spec_u32_to_le_bytes(m.link_crc32);
    let p2 = spec_u32_to_le_bytes(m.data_crc32);
    let p3 = match m.crc32s {
        Option::None => Seq::<u8>::empty(),
        Option::Some(s) => seq_enc::<u32>(s),
    };
    let p4 = seq_enc::<u32>(m.rot);
    let p5 = seq_enc::<u32>(m.transform);
    let p6 = spec_u32_to_le_bytes(m.radius);
    let p7 = spec_u32_to_le_bytes(m.flags);
    let p8 = spec_u16_to_le_bytes(m.object_type);
    lemma_seq_enc_u32_len(m.rot);
    lemma_seq_enc_u32_len(m.transform);
    if m.crc32s is Some {
        lemma_seq_enc_u32_len(m.crc32s->Some_0);
    }
    let a7 = p1 + p2 + p3 + p4 + p5 + p6 + p7;
    assert(data.subrange(0, a7.len() + p8.len() as int) =~= data);
    lemma_concat_split(data, 0, a7, p8);
    let a6 = p1 + p2 + p3 + p4 + p5 + p6;
    assert(a6 + p7 =~= a7);
    lemma_concat_split(data, 0, a6, p7);
    let a5 = p1 + p2 + p3 + p4 + p5;
    assert(a5 + p6 =~= a6);
    lemma_concat_split(data, 0, a5, p6);
    let a4 = p1 + p2 + p3 + p4;
    assert(a4 + p5 =~= a5);
    lemma_concat_split(data, 0, a4, p5);
    let a3 = p1 + p2 + p3;
    assert(a3 + p4 =~= a4);
    lemma_concat_split(data, 0, a3, p4);
    let a2 = p1 + p2;
    assert(a2 + p3 =~= a3);
    lemma_concat_split(data, 0, a2, p3);
    assert(p1 + p2 =~= a2);
    lemma_concat_split(data, 0, p1, p2);
    assert(data.subrange(0, a2.len() as int).subrange(0, 4) =~= data.subrange(0, 4));
    assert(data.subrange(0, a2.len() as int).subrange(4, 8) =~= data.subrange(4, 8));
}

/// A general object record. The `crc32s` list's presence is not tagged:
/// it is present if and only if more than the 90-byte tail follows the
/// two leading hashes, and its length is then `data_crc32 + 1`. Float
/// fields are carried as IEEE-754 bit patterns.
#[derive(Debug, PartialEq)]
pub struct ObjectZ {
    pub link_crc32: u32,
    pub data_crc32: u32,
    pub crc32s: Option<Vec<u32>>,
    pub rot: Quat,
    pub transform: Mat4f,
    pub radius: u32,
    pub flags: u32,
    pub object_type: u16,
}

impl DeepView for ObjectZ {
    type V = ObjectZV;

    open spec fn deep_view(&self) -> ObjectZV {
        ObjectZV {
            link_crc32: self.link_crc32,
            data_crc32: self.data_crc32,
            crc32s: self.crc32s.deep_view(),
            rot: self.rot.deep_view(),
            transform: self.transform.deep_view(),
            radius: self.radius,
            flags: self.flags,
            object_type: self.object_type,
        }
    }
}

impl ObjectCodec for ObjectZ {
    open spec fn spec_wf(m: ObjectZV) -> bool {
        object_z_wf(m)
    }

    open spec fn spec_enc(m: ObjectZV) -> Seq<u8> {
        spec_enc_object_z(m)
    }

    fn wf(&self) -> (b: bool) {
        let lists_ok = match &self.crc32s {
            Option::None => true,
            Option::Some(v) => v.len() >= 1 && v.len() - 1 == self.data_crc32 as usize,
        };
        lists_ok && self.rot.data.len() == 4 && self.transform.data.len() == 16
    }

    fn encode(&self, out: &mut Vec<u8>) {
        write_u32_le(self.link_crc32, out);
        write_u32_le(self.data_crc32, out);
        match &self.crc32s {
            Option::None => {},
            Option::Some(v) => {
                encode_elems::<u32>(v, out);
            },
        }
        encode_elems::<u32>(&self.rot.data, out);
        encode_elems::<u32>(&self.transform.data, out);
        write_u32_le(self.radius, out);
        write_u32_le(self.flags, out);
        write_u16_le(self.object_type, out);
        proof {
            assert(final(out)@ =~= old(out)@ + Self::spec_enc(self.deep_view()));
        }
    }

    fn decode_exact(data: &[u8]) -> (r: Option<Self>) {
        let dlen: usize = data.len();
        proof {
            vstd::bytes::lemma_auto_spec_u32_to_from_le_bytes();
            vstd::bytes::lemma_auto_spec_u16_to_from_le_bytes();
            assert forall|m: ObjectZV|
                #![trigger Self::spec_enc(m)]
                (Self::spec_wf(m) && Self::spec_enc(m) == data@) implies data@.len() >= 98 by {
                lemma_object_z_split(m, data@);
            }
        }
        if dlen < 98 {
            return None;
        }
        let link_crc32 = read_u32_le(data, 0);
        let data_crc32 = read_u32_le(data, 4);
        let ghost pieces_at = |m: ObjectZV| {
            &&& spec_u32_from_le_bytes(data@.subrange(0, 4)) == m.link_crc32
            &&& spec_u32_from_le_bytes(data@.subrange(4, 8)) == m.data_crc32
        };
        proof {
            assert forall|m: ObjectZV|
                #![trigger Self::spec_enc(m)]
                (Self::spec_wf(m) && Self::spec_enc(m) == data@) implies (m.link_crc32 == link_crc32
                && m.data_crc32 == data_crc32) by {
                lemma_object_z_split(m, data@);
            }
        }
        let crc32s: Option<Vec<u32>>;
        if dlen == 98 {
            crc32s = None;
            proof {
                assert forall|m: ObjectZV|
                    #![trigger Self::spec_enc(m)]
                    (Self::spec_wf(m) && Self::spec_enc(m) == data@) implies m.crc32s is None by {
                    lemma_object_z_split(m, data@);
                    if m.crc32s is Some {
                        assert(m.crc32s->Some_0.len() >= 1);
                    }
                }
            }
        } else {
            if data_crc32 as usize >= dlen {
                proof {
                    assert forall|m: ObjectZV|
                        #![trigger Self::spec_enc(m)]
                        !(Self::spec_wf(m) && Self::spec_enc(m) == data@) by {
                        if Self::spec_wf(m) && Self::spec_enc(m) == data@ {
                            lemma_object_z_split(m, data@);
                            assert(m.crc32s is Some);
                            assert(4 * m.crc32s->Some_0.len() < dlen);
                        }
                    }
                }
                return None;
            }
            let count = data_crc32 as usize + 1;
            proof {
                assert forall|m: ObjectZV|
                    #![trigger Self::spec_enc(m)]
                    (Self::spec_wf(m) && Self::spec_enc(m) == data@) implies (m.crc32s is Some
                    && elems_at::<u32>(m.crc32s->Some_0, data@, 8, count as int)) by {
                    lemma_object_z_split(m, data@);
                    assert(m.crc32s is Some);
                    let s = m.crc32s->Some_0;
                    lemma_seq_enc_u32_len(s);
                    assert(seq_enc::<u32>(s) == data@.subrange(8, 8 + seq_enc::<u32>(s).len() as int));
                }
            }
            match decode_elems::<u32>(data, 8, count) {
                None => {
                    return None;
                },
                Some((v, used)) => {
                    if used != dlen - 98 {
                        proof {
                            assert forall|m: ObjectZV|
                                #![trigger Self::spec_enc(m)]
                                !(Self::spec_wf(m) && Self::spec_enc(m) == data@) by {
                                if Self::spec_wf(m) && Self::spec_enc(m) == data@ {
                                    lemma_object_z_split(m, data@);
                                    lemma_seq_enc_u32_len(m.crc32s->Some_0);
                                }
                            }
                        }
                        return None;
                    }
                    crc32s = Some(v);
                },
            }
        }
        let pos = dlen - 90;
        proof {
            assert forall|m: ObjectZV|
                #![trigger Self::spec_enc(m)]
                (Self::spec_wf(m) && Self::spec_enc(m) == data@) implies (elems_at::<u32>(
                m.rot,
                data@,
                pos as int,
                4,
            ) && elems_at::<u32>(m.transform, data@, pos + 16, 16)) by {
                lemma_object_z_split(m, data@);
                lemma_seq_enc_u32_len(m.rot);
                lemma_seq_enc_u32_len(m.transform);
            }
        }
        let rot_v = match decode_elems::<u32>(data, pos, 4) {
            None => {
                return None;
            },
            Some((v, _used)) => v,
        };
        let transform_v = match decode_elems::<u32>(data, pos + 16, 16) {
            None => {
                return None;
            },
            Some((v, _used)) => v,
        };
        let radius = read_u32_le(data, pos + 80);
        let flags = read_u32_le(data, pos + 84);
        let object_type = read_u16_le(data, pos + 88);
        let v = ObjectZ {
            link_crc32,
            data_crc32,
            crc32s,
            rot: crate::codec::FixedVec { data: rot_v },
            transform: crate::codec::FixedVec { data: transform_v },
            radius,
            flags,
            object_type,
        };
        proof {
            assert(Self::spec_enc(v.deep_view()) =~= data@ && Self::spec_wf(v.deep_view())) by {
                lemma_seq_enc_u32_len(v.deep_view().rot);
                lemma_seq_enc_u32_len(v.deep_view().transform);
                if v.deep_view().crc32s is Some {
                    lemma_seq_enc_u32_len(v.deep_view().crc32s->Some_0);
                }
                vstd::bytes::lemma_auto_spec_u32_to_from_le_bytes();
                vstd::bytes::lemma_auto_spec_u16_to_from_le_bytes();
            }
            assert forall|m: ObjectZV|
                #![trigger Self::spec_enc(m)]
                (Self::spec_wf(m) && Self::spec_enc(m) == data@) implies v.deep_view() == m by {
                lemma_object_z_split(m, data@);
                lemma_seq_enc_u32_len(m.rot);
                lemma_seq_enc_u32_len(m.transform);
                assert(spec_u32_from_le_bytes(data@.subrange(
                    pos + 80,
                    pos + 84,
                )) == m.radius);
                assert(spec_u32_from_le_bytes(data@.subrange(
                    pos + 84,
                    pos + 88,
                )) == m.flags);
                assert(vstd::bytes::spec_u16_from_le_bytes(data@.subrange(
                    pos + 88,
                    pos + 90,
                )) == m.object_type);
            }
        }
        Some(v)
    }
}

impl HasReferences for ObjectZ {
    open spec fn spec_hard_links(&self) -> Seq<u32> {
        Seq::empty()
    }

    open spec fn spec_soft_links(&self) -> Seq<u32> {
        match self.crc32s {
            Option::Some(v) => v@,
            Option::None => if self.data_crc32 != 0 {
                seq![self.data_crc32]
            } else {
                Seq::empty()
            },
        }
    }

    fn hard_links(&self) -> (r: Vec<u32>) {
        let r: Vec<u32> = Vec::new();
        proof {
            assert(r@ =~= self.spec_hard_links());
        }
        r
    }

    fn soft_links(&self) -> (r: Vec<u32>) {
        match &self.crc32s {
            Option::Some(v) => slice_to_vec(v.as_slice()),
            Option::None => {
                let mut r: Vec<u32> = Vec::new();
                if self.data_crc32 != 0 {
                    r.push(self.data_crc32);
                    proof {
                        assert(r@ =~= self.spec_soft_links());
                    }
                } else {
                    proof {
                        assert(r@ =~= self.spec_soft_links());
                    }
                }
                r
            },
        }
    }
}

} // verus!
