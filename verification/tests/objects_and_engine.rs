use walle_fmt::bitmap::{BitmapObjectFormat, BitmapZ, BitmapZHeader, TextureFormat};
use walle_fmt::codec::{FixedVec, Mat4f, PascalArray, Quat};
use walle_fmt::engine::WALLEObjectFormat;
use walle_fmt::objects::{HasReferences, ObjectCodec, ObjectZ, ResourceObjectZ};
use walle_fmt::{ObjectHalf, WalleError};

fn sample_object_z(data_crc32: u32, crc32s: Option<Vec<u32>>) -> ObjectZ {
    ObjectZ {
        link_crc32: 11,
        data_crc32,
        crc32s,
        rot: Quat::new(vec![1, 2, 3, 4]).unwrap(),
        transform: Mat4f::new((10u32..26).collect()).unwrap(),
        radius: 0x42C80000,
        flags: 5,
        object_type: 77,
    }
}

#[test]
fn resource_object_without_list_round_trip() {
    let r = ResourceObjectZ { friendly_name_crc32: 0xCAFE, crc32s: None };
    let mut out: Vec<u8> = Vec::new();
    r.encode(&mut out);
    assert_eq!(out, vec![0xFE, 0xCA, 0, 0]);
    let decoded = ResourceObjectZ::decode_exact(&out).unwrap();
    assert_eq!(decoded, r);
    assert!(decoded.soft_links().is_empty());
    assert!(decoded.hard_links().is_empty());
}

#[test]
fn resource_object_with_list_round_trip() {
    let r = ResourceObjectZ {
        friendly_name_crc32: 1,
        crc32s: Some(PascalArray { data: vec![5, 6, 7] }),
    };
    let mut out: Vec<u8> = Vec::new();
    r.encode(&mut out);
    // Presence is implied by the extra bytes: hash, count, three entries.
    assert_eq!(out.len(), 4 + 4 + 12);
    let decoded = ResourceObjectZ::decode_exact(&out).unwrap();
    assert_eq!(decoded, r);
    assert_eq!(decoded.soft_links(), vec![5, 6, 7]);
}

#[test]
fn resource_object_trailing_bytes_fail() {
    let r = ResourceObjectZ { friendly_name_crc32: 1, crc32s: None };
    let mut out: Vec<u8> = Vec::new();
    r.encode(&mut out);
    out.push(0);
    // One stray byte after the hash is not a decodable array.
    assert!(ResourceObjectZ::decode_exact(&out).is_none());
}

#[test]
fn object_z_sentinel_length_no_list() {
    // With no list the encoding is exactly 98 bytes: 90 remain after the
    // two leading hashes, and data_crc32 itself is the sole soft link.
    let o = sample_object_z(7, None);
    let mut out: Vec<u8> = Vec::new();
    o.encode(&mut out);
    assert_eq!(out.len(), 98);
    let decoded = ObjectZ::decode_exact(&out).unwrap();
    assert_eq!(decoded, o);
    assert_eq!(decoded.soft_links(), vec![7]);
    assert!(decoded.hard_links().is_empty());
}

#[test]
fn object_z_zero_crc32_reports_no_links() {
    let o = sample_object_z(0, None);
    let mut out: Vec<u8> = Vec::new();
    o.encode(&mut out);
    let decoded = ObjectZ::decode_exact(&out).unwrap();
    assert!(decoded.soft_links().is_empty());
}

#[test]
fn object_z_with_list_round_trip() {
    // data_crc32 = 2 doubles as the list length minus one: exactly three
    // entries follow, and those entries, not the count field, are the
    // soft links.
    let o = sample_object_z(2, Some(vec![100, 200, 300]));
    let mut out: Vec<u8> = Vec::new();
    o.encode(&mut out);
    assert_eq!(out.len(), 98 + 12);
    let decoded = ObjectZ::decode_exact(&out).unwrap();
    assert_eq!(decoded, o);
    assert_eq!(decoded.soft_links(), vec![100, 200, 300]);
}

#[test]
fn object_z_wrong_list_length_fails_decode() {
    // A buffer whose length matches neither the no-list form nor the
    // data_crc32-implied list length is malformed.
    let o = sample_object_z(2, Some(vec![100, 200, 300]));
    let mut out: Vec<u8> = Vec::new();
    o.encode(&mut out);
    out.push(0);
    assert!(ObjectZ::decode_exact(&out).is_none());
    assert!(ObjectZ::decode_exact(&out[..97]).is_none());
}

#[test]
fn engine_pack_unpack_round_trip() {
    let format: WALLEObjectFormat<ResourceObjectZ, ObjectZ> = WALLEObjectFormat::new();
    let header_val = ResourceObjectZ {
        friendly_name_crc32: 42,
        crc32s: Some(PascalArray { data: vec![9, 9] }),
    };
    let body_val = sample_object_z(7, None);
    let mut header: Vec<u8> = Vec::new();
    let mut body: Vec<u8> = Vec::new();
    let (hard, soft) = format.pack(&header_val, &body_val, &mut header, &mut body).unwrap();
    // Header links precede body links; repeats are kept.
    assert_eq!(hard, Vec::<u32>::new());
    assert_eq!(soft, vec![9, 9, 7]);
    let (h2, b2, hard2, soft2) = format.unpack(&header, &body).unwrap();
    assert_eq!(h2, header_val);
    assert_eq!(b2, body_val);
    assert_eq!(hard2, hard);
    assert_eq!(soft2, soft);
}

#[test]
fn engine_link_union_keeps_repeats_across_halves() {
    let format: WALLEObjectFormat<ResourceObjectZ, ObjectZ> = WALLEObjectFormat::new();
    let header_val = ResourceObjectZ {
        friendly_name_crc32: 1,
        crc32s: Some(PascalArray { data: vec![7] }),
    };
    let body_val = sample_object_z(7, None);
    let mut header: Vec<u8> = Vec::new();
    let mut body: Vec<u8> = Vec::new();
    let (_, soft) = format.pack(&header_val, &body_val, &mut header, &mut body).unwrap();
    assert_eq!(soft, vec![7, 7]);
}

#[test]
fn engine_pack_rejects_ill_formed_value() {
    let format: WALLEObjectFormat<ResourceObjectZ, ObjectZ> = WALLEObjectFormat::new();
    let header_val = ResourceObjectZ { friendly_name_crc32: 1, crc32s: None };
    // The list length contradicts data_crc32.
    let body_val = sample_object_z(5, Some(vec![1, 2]));
    let mut header: Vec<u8> = Vec::new();
    let mut body: Vec<u8> = Vec::new();
    let err = format.pack(&header_val, &body_val, &mut header, &mut body).unwrap_err();
    assert_eq!(err, WalleError::MalformedDocument);
    assert!(header.is_empty());
    assert!(body.is_empty());
}

#[test]
fn engine_unpack_names_failing_half() {
    let format: WALLEObjectFormat<ResourceObjectZ, ObjectZ> = WALLEObjectFormat::new();
    let good_header = vec![1, 0, 0, 0];
    let bad = vec![1, 2, 3];
    assert_eq!(
        format.unpack(&bad, &bad).unwrap_err(),
        WalleError::MalformedBinary(ObjectHalf::Header)
    );
    assert_eq!(
        format.unpack(&good_header, &bad).unwrap_err(),
        WalleError::MalformedBinary(ObjectHalf::Body)
    );
}

fn sample_bitmap_header() -> BitmapZHeader {
    BitmapZHeader {
        friendly_name_crc32: 0x1234,
        link_count: 0,
        links: FixedVec::new(vec![0, 0, 0, 0, 0]).unwrap(),
    }
}

fn sample_bitmap_body_bytes(tag: u8, payload_len: usize) -> Vec<u8> {
    let mut payload = vec![0u8; payload_len];
    if payload_len > 87 {
        payload[87] = tag;
    }
    for (i, b) in payload.iter_mut().enumerate().skip(128) {
        *b = (i % 251) as u8;
    }
    let bitmap = BitmapZ {
        width: 16,
        height: 8,
        precalc_size: 0,
        flag: 1,
        format: 2,
        mipmap_count: 3,
        four: 4,
        data: payload,
    };
    let mut body: Vec<u8> = Vec::new();
    bitmap.encode(&mut body);
    body
}

#[test]
fn bitmap_unpack_sniffs_dxt1_from_byte_87() {
    let format = BitmapObjectFormat::new();
    let mut header: Vec<u8> = Vec::new();
    sample_bitmap_header().encode(&mut header);
    let body = sample_bitmap_body_bytes(49, 200);
    let unpacked = format.unpack(&header, &body).unwrap();
    assert_eq!(unpacked.format, TextureFormat::Dxt1);
    assert_eq!(unpacked.bitmap.width, 16);
    assert_eq!(unpacked.bitmap.height, 8);
    // Block data is the payload from byte 128 on.
    assert_eq!(unpacked.block_data.len(), 200 - 128);
    assert_eq!(unpacked.block_data[0], 128 % 251);
    assert!(unpacked.hard_links.is_empty());
    assert!(unpacked.soft_links.is_empty());
}

#[test]
fn bitmap_unpack_any_other_tag_is_dxt5() {
    let format = BitmapObjectFormat::new();
    let mut header: Vec<u8> = Vec::new();
    sample_bitmap_header().encode(&mut header);
    let unpacked = format.unpack(&header, &sample_bitmap_body_bytes(0, 200)).unwrap();
    assert_eq!(unpacked.format, TextureFormat::Dxt5);
    let unpacked2 = format.unpack(&header, &sample_bitmap_body_bytes(50, 200)).unwrap();
    assert_eq!(unpacked2.format, TextureFormat::Dxt5);
}

#[test]
fn bitmap_unpack_short_payload_is_hard_failure() {
    let format = BitmapObjectFormat::new();
    let mut header: Vec<u8> = Vec::new();
    sample_bitmap_header().encode(&mut header);
    let err = format.unpack(&header, &sample_bitmap_body_bytes(49, 100)).unwrap_err();
    assert_eq!(err, WalleError::UnsupportedFormatDiscriminant);
}

#[test]
fn bitmap_unpack_names_failing_half() {
    let format = BitmapObjectFormat::new();
    let mut header: Vec<u8> = Vec::new();
    sample_bitmap_header().encode(&mut header);
    assert_eq!(
        format.unpack(&header[..7], &sample_bitmap_body_bytes(49, 200)).unwrap_err(),
        WalleError::MalformedBinary(ObjectHalf::Header)
    );
    assert_eq!(
        format.unpack(&header, &[1, 2, 3]).unwrap_err(),
        WalleError::MalformedBinary(ObjectHalf::Body)
    );
}

#[test]
fn bitmap_pack_overwrites_dimensions_and_clears_payload() {
    let format = BitmapObjectFormat::new();
    let bitmap = BitmapZ {
        width: 999,
        height: 888,
        precalc_size: 7,
        flag: 1,
        format: 2,
        mipmap_count: 3,
        four: 4,
        data: vec![0xAA; 300],
    };
    let dds_data = vec![0x55u8; 64];
    let mut header: Vec<u8> = Vec::new();
    let mut body: Vec<u8> = Vec::new();
    let (hard, soft) = format
        .pack(&sample_bitmap_header(), &bitmap, 32, 64, &dds_data, &mut header, &mut body)
        .unwrap();
    assert!(hard.is_empty());
    assert!(soft.is_empty());
    assert_eq!(header.len(), 13);
    // The encoded body is the 17-byte prefix with the container's
    // dimensions, the cleared payload, then the raw block data.
    assert_eq!(body.len(), 17 + 64);
    let decoded = BitmapZ::decode_exact(&body).unwrap();
    assert_eq!(decoded.width, 32);
    assert_eq!(decoded.height, 64);
    assert_eq!(decoded.precalc_size, 7);
    assert_eq!(decoded.data, vec![0x55u8; 64]);
}

#[test]
fn bitmap_header_round_trip() {
    let h = sample_bitmap_header();
    let mut out: Vec<u8> = Vec::new();
    h.encode(&mut out);
    assert_eq!(out.len(), 13);
    let decoded = BitmapZHeader::decode_exact(&out).unwrap();
    assert_eq!(decoded, h);
    assert!(decoded.hard_links().is_empty());
    assert!(decoded.soft_links().is_empty());
}
