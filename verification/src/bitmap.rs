//! Compressed-texture object specialization.
//!
//! This object kind does not use the generic engine's symmetry: width
//! and height are derived from the texture container at pack time, the
//! stored pixel payload is cleared before encoding and the container's
//! raw block data is appended verbatim, and at unpack time the
//! block-compression variant is sniffed from a fixed payload byte. The
//! container codec itself is an external collaborator: this layer only
//! exchanges scalars and raw byte payloads with it.

use crate::codec::{
    decode_elems, elems_at, encode_elems, lemma_seq_enc_u8_len, seq_enc, FieldCodec, FixedVec,
};
use crate::wire::{
    lemma_concat_split, read_u16_le, read_u32_le, read_u8, write_u16_le, write_u32_le, write_u8,
};
use crate::objects::{HasReferences, ObjectCodec};
use crate::{ObjectHalf, WalleError};
use vstd::bytes::{spec_u16_to_le_bytes, spec_u32_from_le_bytes, spec_u32_to_le_bytes};
use vstd::prelude::*;
use vstd::slice::{slice_subrange, slice_to_vec};

verus! {

/// Logical form of a [`BitmapZHeader`].
pub ghost struct BitmapZHeaderV {
    pub friendly_name_crc32: u32,
    pub link_count: u32,
    pub links: Seq<u8>,
}

/// Header of a texture object: a name hash, a link count and a fixed
/// 5-byte link field. The two link fields are carried but never
/// interpreted; this object kind reports no links.
#[derive(Debug, PartialEq)]
pub struct BitmapZHeader {
    pub friendly_name_crc32: u32,
    pub link_count: u32,
    pub links: FixedVec<u8, 5>,
}

impl DeepView for BitmapZHeader {
    type V = BitmapZHeaderV;

    open spec fn deep_view(&self) -> BitmapZHeaderV {
        BitmapZHeaderV {
            friendly_name_crc32: self.friendly_name_crc32,
            link_count: self.link_count,
            links: self.links.deep_view(),
        }
    }
}

/// The fixed link field holds exactly five bytes.
pub open spec fn bitmap_z_header_wf(m: BitmapZHeaderV) -> bool {
    m.links.len() == 5
}

/// Binary form of a texture header: 13 bytes.
pub open spec fn spec_enc_bitmap_z_header(m: BitmapZHeaderV) -> Seq<u8> {
    spec_u32_to_le_bytes(m.friendly_name_crc32) + spec_u32_to_le_bytes(m.link_count) + seq_enc::<
        u8,
    >(m.links)
}

impl ObjectCodec for BitmapZHeader {
    open spec fn spec_wf(m: BitmapZHeaderV) -> bool {
        bitmap_z_header_wf(m)
    }

    open spec fn spec_enc(m: BitmapZHeaderV) -> Seq<u8> {
        spec_enc_bitmap_z_header(m)
    }

    fn wf(&self) -> (b: bool) {
        self.links.data.len() == 5
    }

    fn encode(&self, out: &mut Vec<u8>) {
        write_u32_le(self.friendly_name_crc32, out);
        write_u32_le(self.link_count, out);
        encode_elems::<u8>(&self.links.data, out);
        proof {
            assert(final(out)@ =~= old(out)@ + Self::spec_enc(self.deep_view()));
        }
    }

    fn decode_exact(data: &[u8]) -> (r: Option<Self>) {
        let dlen: usize = data.len();
        proof {
            vstd::bytes::lemma_auto_spec_u32_to_from_le_bytes();
            assert forall|m: BitmapZHeaderV|
                #![trigger Self::spec_enc(m)]
                (Self::spec_wf(m) && Self::spec_enc(m) == data@) implies {
                &&& data@.len() == 13
                &&& spec_u32_to_le_bytes(m.friendly_name_crc32) == data@.subrange(0, 4)
                &&& spec_u32_to_le_bytes(m.link_count) == data@.subrange(4, 8)
                &&& elems_at::<u8>(m.links, data@, 8, 5)
            } by {
                lemma_seq_enc_u8_len(m.links);
                let p1 = spec_u32_to_le_bytes(m.friendly_name_crc32);
                let p2 = spec_u32_to_le_bytes(m.link_count);
                let p3 = seq_enc::<u8>(m.links);
                assert(data@.subrange(0, (p1 + p2).len() + p3.len() as int) =~= data@);
                lemma_concat_split(data@, 0, p1 + p2, p3);
                assert(p1 + p2 =~= data@.subrange(0, 8));
                lemma_concat_split(data@, 0, p1, p2);
            }
        }
        if dlen != 13 {
            return None;
        }
        let friendly_name_crc32 = read_u32_le(data, 0);
        let link_count = read_u32_le(data, 4);
        let links_v = match decode_elems::<u8>(data, 8, 5) {
            None => {
                return None;
            },
            Some((v, _used)) => v,
        };
        let v = BitmapZHeader { friendly_name_crc32, link_count, links: FixedVec { data: links_v } };
        proof {
            lemma_seq_enc_u8_len(v.deep_view().links);
            assert(Self::spec_enc(v.deep_view()) =~= data@);
        }
        Some(v)
    }
}

impl HasReferences for BitmapZHeader {
    open spec fn spec_hard_links(&self) -> Seq<u32> {
        Seq::empty()
    }

    open spec fn spec_soft_links(&self) -> Seq<u32> {
        Seq::empty()
    }

    fn hard_links(&self) -> (r: Vec<u32>) {
        let r: Vec<u32> = Vec::new();
        proof {
            assert(r@ =~= self.spec_hard_links());
        }
        r
    }

    fn soft_links(&self) -> (r: Vec<u32>) {
        let r: Vec<u32> = Vec::new();
        proof {
            assert(r@ =~= self.spec_soft_links());
        }
        r
    }
}

/// Logical form of a [`BitmapZ`].
pub ghost struct BitmapZV {
    pub width: u32,
    pub height: u32,
    pub precalc_size: u32,
    pub flag: u16,
    pub format: u8,
    pub mipmap_count: u8,
    pub four: u8,
    pub data: Seq<u8>,
}

/// Body of a texture object: a 17-byte fixed prefix, then the raw
/// payload, which runs to the end of the slice. The payload's first 128
/// bytes are the embedded container header; the rest is block data.
#[derive(Debug, PartialEq)]
pub struct BitmapZ {
    pub width: u32,
    pub height: u32,
    pub precalc_size: u32,
    pub flag: u16,
    pub format: u8,
    pub mipmap_count: u8,
    pub four: u8,
    pub data: Vec<u8>,
}

impl DeepView for BitmapZ {
    type V = BitmapZV;

    open spec fn deep_view(&self) -> BitmapZV {
        BitmapZV {
            width: self.width,
            height: self.height,
            precalc_size: self.precalc_size,
            flag: self.flag,
            format: self.format,
            mipmap_count: self.mipmap_count,
            four: self.four,
            data: self.data.deep_view(),
        }
    }
}

/// Binary form of a texture body.
pub open spec fn spec_enc_bitmap_z(m: BitmapZV) -> Seq<u8> {
    spec_u32_to_le_bytes(m.width) + spec_u32_to_le_bytes(m.height) + spec_u32_to_le_bytes(
        m.precalc_size,
    ) + spec_u16_to_le_bytes(m.flag) + seq![m.format] + seq![m.mipmap_count] + seq![m.four] + m.data
}

proof fn lemma_bitmap_z_split(m: BitmapZV, data: Seq<u8>)
    requires
        spec_enc_bitmap_z(m) == data,
    ensures
        data.len() == 17 + m.data.len(),
        spec_u32_to_le_bytes(m.width) == data.subrange(0, 4),
        spec_u32_to_le_bytes(m.height) == data.subrange(4, 8),
        spec_u32_to_le_bytes(m.precalc_size) == data.subrange(8, 12),
        spec_u16_to_le_bytes(m.flag) == data.subrange(12, 14),
        m.format == data[14],
        m.mipmap_count == data[15],
        m.four == data[16],
        m.data == data.subrange(17, data.len() as int),
{
    vstd::bytes::lemma_auto_spec_u32_to_from_le_bytes();
    vstd::bytes::lemma_auto_spec_u16_to_from_le_bytes();
    assert(spec_u16_to_le_bytes(m.flag).len() == 2);
    assert(spec_u32_to_le_bytes(m.width).len() == 4);
    let p1 = spec_u32_to_le_bytes(m.width);
    let p2 = spec_u32_to_le_bytes(m.height);
    let p3 = spec_u32_to_le_bytes(m.precalc_size);
    let p4 = spec_u16_to_le_bytes(m.flag);
    let p5: Seq<u8> = seq![m.format];
    let p6: Seq<u8> = seq![m.mipmap_count];
    let p7: Seq<u8> = seq![m.four];
    let a7 = p1 + p2 + p3 + p4 + p5 + p6 + p7;
    assert(data.subrange(0, a7.len() + m.data.len() as int) =~= data);
    lemma_concat_split(data, 0, a7, m.data);
    let a6 = p1 + p2 + p3 + p4 + p5 + p6;
    assert(a6 + p7 =~= a7);
    lemma_concat_split(data, 0, a6, p7);
    let a5 = p1 + p2 + p3 + p4 + p5;
    assert(a5 + p6 =~= a6);
    lemma_concat_split(data, 0, a5, p6);
    let a4 = p1 + p2 + p3 + p4;
    assert(a4 + p5 =~= a5);
    lemma_concat_split(data, 0, a4, p5);
    let a3 = p1 + p2 + p3;
    assert(a3 + p4 =~= a4);
    lemma_concat_split(data, 0, a3, p4);
    let a2 = p1 + p2;
    assert(a2 + p3 =~= a3);
    lemma_concat_split(data, 0, a2, p3);
    assert(p1 + p2 =~= a2);
    lemma_concat_split(data, 0, p1, p2);
    assert(data.subrange(0, 8).subrange(0, 4) =~= data.subrange(0, 4));
    assert(data.subrange(0, 8).subrange(4, 8) =~= data.subrange(4, 8));
    assert(data.subrange(14, 15)[0] == data[14]);
    assert(data.subrange(15, 16)[0] == data[15]);
    assert(data.subrange(16, 17)[0] == data[16]);
}

impl ObjectCodec for BitmapZ {
    open spec fn spec_wf(m: BitmapZV) -> bool {
        true
    }

    open spec fn spec_enc(m: BitmapZV) -> Seq<u8> {
        spec_enc_bitmap_z(m)
    }

    fn wf(&self) -> (b: bool) {
        true
    }

    fn encode(&self, out: &mut Vec<u8>) {
        write_u32_le(self.width, out);
        write_u32_le(self.height, out);
        write_u32_le(self.precalc_size, out);
        write_u16_le(self.flag, out);
        write_u8(self.format, out);
        write_u8(self.mipmap_count, out);
        write_u8(self.four, out);
        out.extend_from_slice(self.data.as_slice());
        proof {
            assert(self.data@ =~= self.deep_view().data);
            assert(final(out)@ =~= old(out)@ + Self::spec_enc(self.deep_view()));
        }
    }

    fn decode_exact(data: &[u8]) -> (r: Option<Self>) {
        let dlen: usize = data.len();
        proof {
            vstd::bytes::lemma_auto_spec_u32_to_from_le_bytes();
            vstd::bytes::lemma_auto_spec_u16_to_from_le_bytes();
            assert forall|m: BitmapZV|
                #![trigger Self::spec_enc(m)]
                (Self::spec_enc(m) == data@) implies data@.len() >= 17 by {
                lemma_bitmap_z_split(m, data@);
            }
        }
        if dlen < 17 {
            return None;
        }
        let width = read_u32_le(data, 0);
        let height = read_u32_le(data, 4);
        let precalc_size = read_u32_le(data, 8);
        let flag = read_u16_le(data, 12);
        let format = read_u8(data, 14);
        let mipmap_count = read_u8(data, 15);
        let four = read_u8(data, 16);
        let payload = slice_to_vec(slice_subrange(data, 17, dlen));
        let v = BitmapZ { width, height, precalc_size, flag, format, mipmap_count, four, data: payload };
        proof {
            assert(v.deep_view().data =~= data@.subrange(17, dlen as int));
            assert(Self::spec_enc(v.deep_view()) =~= data@);
            assert forall|m: BitmapZV|
                #![trigger Self::spec_enc(m)]
                (Self::spec_enc(m) == data@) implies v.deep_view() == m by {
                lemma_bitmap_z_split(m, data@);
            }
        }
        Some(v)
    }
}

impl HasReferences for BitmapZ {
    open spec fn spec_hard_links(&self) -> Seq<u32> {
        Seq::empty()
    }

    open spec fn spec_soft_links(&self) -> Seq<u32> {
        Seq::empty()
    }

    fn hard_links(&self) -> (r: Vec<u32>) {
        let r: Vec<u32> = Vec::new();
        proof {
            assert(r@ =~= self.spec_hard_links());
        }
        r
    }

    fn soft_links(&self) -> (r: Vec<u32>) {
        let r: Vec<u32> = Vec::new();
        proof {
            assert(r@ =~= self.spec_soft_links());
        }
        r
    }
}

} // verus!

verus! {

/// The two block-compression variants the unpack sniffer distinguishes.
/// There is no third case: payload byte 87 equal to 49 means the first
/// variant, any other value the second.
#[derive(Clone, Copy, Debug, PartialEq, Eq, Structural)]
pub enum TextureFormat {
    Dxt1,
    Dxt5,
}

/// The body value `pack` actually encodes: width and height are derived
/// from the supplied container, whatever the input carried, and the
/// stored payload is cleared before encoding.
pub open spec fn packed_bitmap_v(m: BitmapZV, w: u32, h: u32) -> BitmapZV {
    BitmapZV {
        width: w,
        height: h,
        precalc_size: m.precalc_size,
        flag: m.flag,
        format: m.format,
        mipmap_count: m.mipmap_count,
        four: m.four,
        data: Seq::empty(),
    }
}

/// Everything `unpack` recovers from one texture object: the decoded
/// halves, the sniffed block-compression variant, the container's raw
/// block data, and the (always empty) link report.
#[derive(Debug)]
pub struct UnpackedBitmapObject {
    pub bitmap_header: BitmapZHeader,
    pub bitmap: BitmapZ,
    pub format: TextureFormat,
    pub block_data: Vec<u8>,
    pub hard_links: Vec<u32>,
    pub soft_links: Vec<u32>,
}

/// Hand-specialized pack/unpack for texture objects.
pub struct BitmapObjectFormat;

impl BitmapObjectFormat {
    pub fn new() -> Self {
        BitmapObjectFormat
    }

    /// Packs one texture object. The caller supplies the container's
    /// width, height and raw block data; those dimensions overwrite the
    /// body's, the stored payload is cleared, and the block data is
    /// appended verbatim after the body encoding. Texture objects report
    /// no links.
    pub fn pack(
        &self,
        bitmap_header: &BitmapZHeader,
        bitmap: &BitmapZ,
        dds_width: u32,
        dds_height: u32,
        dds_data: &Vec<u8>,
        header: &mut Vec<u8>,
        body: &mut Vec<u8>,
    ) -> (r: Result<(Vec<u32>, Vec<u32>), WalleError>)
        ensures
            r is Ok <==> bitmap_z_header_wf(bitmap_header.deep_view()),
            (r matches Ok(links) ==> {
                &&& final(header)@ == old(header)@ + spec_enc_bitmap_z_header(
                    bitmap_header.deep_view(),
                )
                &&& final(body)@ == old(body)@ + spec_enc_bitmap_z(
                    packed_bitmap_v(bitmap.deep_view(), dds_width, dds_height),
                ) + dds_data@
                &&& links.0@ == Seq::<u32>::empty()
                &&& links.1@ == Seq::<u32>::empty()
            }),
            r is Err ==> final(header)@ == old(header)@ && final(body)@ == old(body)@ && r == Err::<
                (Vec<u32>, Vec<u32>),
                _,
            >(WalleError::MalformedDocument),
    {
        if !(bitmap_header.links.data.len() == 5) {
            return Err(WalleError::MalformedDocument);
        }
        bitmap_header.encode(header);
        let packed = BitmapZ {
            width: dds_width,
            height: dds_height,
            precalc_size: bitmap.precalc_size,
            flag: bitmap.flag,
            format: bitmap.format,
            mipmap_count: bitmap.mipmap_count,
            four: bitmap.four,
            data: Vec::new(),
        };
        proof {
            assert(packed.deep_view().data =~= Seq::<u8>::empty());
            assert(packed.deep_view() == packed_bitmap_v(bitmap.deep_view(), dds_width, dds_height));
        }
        packed.encode(body);
        out_extend(body, dds_data);
        let hard = bitmap_header.hard_links();
        let soft = bitmap_header.soft_links();
        Ok((hard, soft))
    }

    /// Unpacks one texture object: decodes both halves exactly, sniffs
    /// the block-compression variant from payload byte 87 (value 49
    /// means the first variant, anything else the second) and hands back
    /// the payload from byte 128 on as the container's block data. A
    /// payload shorter than the 128-byte embedded container header is a
    /// hard failure, not a silent default.
    pub fn unpack(&self, header: &[u8], body: &[u8]) -> (r: Result<
        UnpackedBitmapObject,
        WalleError,
    >)
        ensures
            (r matches Ok(o) ==> {
                &&& bitmap_z_header_wf(o.bitmap_header.deep_view())
                &&& spec_enc_bitmap_z_header(o.bitmap_header.deep_view()) == header@
                &&& spec_enc_bitmap_z(o.bitmap.deep_view()) == body@
                &&& o.bitmap.deep_view().data.len() >= 128
                &&& (o.format == TextureFormat::Dxt1 <==> o.bitmap.deep_view().data[87] == 49)
                &&& o.block_data@ == o.bitmap.deep_view().data.skip(128)
                &&& o.hard_links@ == Seq::<u32>::empty()
                &&& o.soft_links@ == Seq::<u32>::empty()
            }),
            forall|mh: BitmapZHeaderV, mb: BitmapZV|
                #![trigger spec_enc_bitmap_z_header(mh), spec_enc_bitmap_z(mb)]
                (bitmap_z_header_wf(mh) && spec_enc_bitmap_z_header(mh) == header@
                    && spec_enc_bitmap_z(mb) == body@ && mb.data.len() >= 128) ==> (r matches Ok(o)
                    && o.bitmap_header.deep_view() == mh && o.bitmap.deep_view() == mb),
            (!(exists|mh: BitmapZHeaderV|
                bitmap_z_header_wf(mh) && #[trigger] spec_enc_bitmap_z_header(mh) == header@))
                ==> r == Err::<UnpackedBitmapObject, _>(
                WalleError::MalformedBinary(ObjectHalf::Header),
            ),
            ((exists|mh: BitmapZHeaderV|
                bitmap_z_header_wf(mh) && #[trigger] spec_enc_bitmap_z_header(mh) == header@) && !(
            exists|mb: BitmapZV| #[trigger] spec_enc_bitmap_z(mb) == body@)) ==> r == Err::<
                UnpackedBitmapObject,
                _,
            >(WalleError::MalformedBinary(ObjectHalf::Body)),
            ((exists|mh: BitmapZHeaderV|
                bitmap_z_header_wf(mh) && #[trigger] spec_enc_bitmap_z_header(mh) == header@) && (
            exists|mb: BitmapZV|
                #[trigger] spec_enc_bitmap_z(mb) == body@ && mb.data.len() < 128)) ==> r == Err::<
                UnpackedBitmapObject,
                _,
            >(WalleError::UnsupportedFormatDiscriminant),
    {
        proof {
            assert forall|mh: BitmapZHeaderV| #[trigger]
                spec_enc_bitmap_z_header(mh) == <BitmapZHeader as ObjectCodec>::spec_enc(mh) by {}
            assert forall|mb: BitmapZV| #[trigger]
                spec_enc_bitmap_z(mb) == <BitmapZ as ObjectCodec>::spec_enc(mb) by {}
        }
        let bitmap_header = match BitmapZHeader::decode_exact(header) {
            Some(h) => h,
            None => {
                return Err(WalleError::MalformedBinary(ObjectHalf::Header));
            },
        };
        let bitmap = match BitmapZ::decode_exact(body) {
            Some(b) => b,
            None => {
                return Err(WalleError::MalformedBinary(ObjectHalf::Body));
            },
        };
        let payload_len: usize = bitmap.data.len();
        if payload_len < 128 {
            return Err(WalleError::UnsupportedFormatDiscriminant);
        }
        let tag = bitmap.data[87];
        let format = if tag == 49 {
            TextureFormat::Dxt1
        } else {
            TextureFormat::Dxt5
        };
        let block_data = slice_to_vec(slice_subrange(bitmap.data.as_slice(), 128, payload_len));
        proof {
            assert(bitmap.deep_view().data[87] == bitmap.data@[87]);
            assert(block_data@ =~= bitmap.deep_view().data.skip(128));
        }
        let hard_links: Vec<u32> = Vec::new();
        let soft_links: Vec<u32> = Vec::new();
        proof {
            assert(hard_links@ =~= Seq::<u32>::empty());
            assert(soft_links@ =~= Seq::<u32>::empty());
        }
        Ok(UnpackedBitmapObject { bitmap_header, bitmap, format, block_data, hard_links, soft_links })
    }
}

/// Appends a copied byte buffer.
fn out_extend(out: &mut Vec<u8>, more: &Vec<u8>)
    ensures
        final(out)@ == old(out)@ + more@,
{
    out.extend_from_slice(more.as_slice());
}

} // verus!
