use walle_fmt::codec::{FieldCodec, FixedVec, NumeratorFloat, PascalArray, Vec3f, VertexVectorComponent};
use walle_fmt::records::{Color, DynBox, DynSphere, FadeDistances, RangeBeginEnd, RangeBeginSize, Rect, SphereZ};
use walle_fmt::records::write_option;
use walle_fmt::strings::{FixedStringNULL, PascalString, PascalStringNULL};
use walle_fmt::WalleError;

fn round_trip<T: FieldCodec + PartialEq + std::fmt::Debug>(value: &T) -> usize {
    let mut out: Vec<u8> = Vec::new();
    value.encode(&mut out);
    let (decoded, used) = T::decode(&out, 0).expect("round trip decode");
    assert_eq!(&decoded, value);
    assert_eq!(used, out.len());
    out.len()
}

#[test]
fn u32_round_trip_and_layout() {
    let mut out: Vec<u8> = Vec::new();
    0x0403_0201u32.encode(&mut out);
    assert_eq!(out, vec![0x01, 0x02, 0x03, 0x04]);
    let (v, n) = <u32 as FieldCodec>::decode(&out, 0).unwrap();
    assert_eq!(v, 0x0403_0201);
    assert_eq!(n, 4);
}

#[test]
fn scalar_round_trips() {
    assert_eq!(round_trip(&0u8), 1);
    assert_eq!(round_trip(&0xABu8), 1);
    assert_eq!(round_trip(&0xBEEFu16), 2);
    assert_eq!(round_trip(&u32::MAX), 4);
    assert_eq!(round_trip(&-123456789i32), 4);
    assert_eq!(round_trip(&i32::MIN), 4);
}

#[test]
fn scalar_decode_short_input_fails() {
    let data = [1u8, 2, 3];
    assert!(<u32 as FieldCodec>::decode(&data, 0).is_none());
    assert!(<u16 as FieldCodec>::decode(&data, 2).is_none());
    assert!(<u8 as FieldCodec>::decode(&data, 3).is_none());
}

#[test]
fn fixed_vec_new_accepts_exact_count() {
    let v = FixedVec::<u32, 3>::new(vec![1, 2, 3]).expect("length 3 accepted");
    assert_eq!(v.data, vec![1, 2, 3]);
}

#[test]
fn fixed_vec_new_rejects_wrong_count() {
    assert_eq!(FixedVec::<u32, 3>::new(vec![1, 2]).unwrap_err(), WalleError::MalformedDocument);
    assert_eq!(
        FixedVec::<u32, 3>::new(vec![1, 2, 3, 4]).unwrap_err(),
        WalleError::MalformedDocument
    );
    assert_eq!(FixedVec::<u32, 0>::new(vec![9]).unwrap_err(), WalleError::MalformedDocument);
}

#[test]
fn fixed_vec_round_trip_has_no_count_prefix() {
    let v = FixedVec::<u16, 3>::new(vec![10, 20, 30]).unwrap();
    let mut out: Vec<u8> = Vec::new();
    v.encode(&mut out);
    assert_eq!(out, vec![10, 0, 20, 0, 30, 0]);
    assert_eq!(round_trip(&v), 6);
}

#[test]
fn pascal_array_round_trip_and_layout() {
    let a = PascalArray { data: vec![7u32, 8u32] };
    let mut out: Vec<u8> = Vec::new();
    a.encode(&mut out);
    assert_eq!(out, vec![2, 0, 0, 0, 7, 0, 0, 0, 8, 0, 0, 0]);
    assert_eq!(a.len(), 2);
    assert_eq!(round_trip(&a), 12);
}

#[test]
fn pascal_array_empty_round_trip() {
    let a: PascalArray<u32> = PascalArray { data: vec![] };
    let mut out: Vec<u8> = Vec::new();
    a.encode(&mut out);
    assert_eq!(out, vec![0, 0, 0, 0]);
    assert_eq!(round_trip(&a), 4);
}

#[test]
fn pascal_array_truncated_elements_fail() {
    // Count says three elements but only two follow.
    let data = [3u8, 0, 0, 0, 1, 0, 0, 0, 2, 0, 0, 0];
    assert!(<PascalArray<u32> as FieldCodec>::decode(&data, 0).is_none());
}

#[test]
fn numerator_float_round_trip() {
    let f: NumeratorFloat<u16, 256> = NumeratorFloat { data: 512 };
    assert_eq!(round_trip(&f), 2);
}

#[test]
fn vertex_vector_component_round_trip() {
    let c = VertexVectorComponent { data: 255 };
    assert_eq!(round_trip(&c), 1);
    let c0 = VertexVectorComponent { data: 0 };
    assert_eq!(round_trip(&c0), 1);
}

#[test]
fn pascal_string_round_trip_and_layout() {
    let s = PascalString { data: String::from("abc") };
    let mut out: Vec<u8> = Vec::new();
    s.encode(&mut out).unwrap();
    assert_eq!(out, vec![3, 0, 0, 0, b'a', b'b', b'c']);
    let (decoded, used) = PascalString::decode(&out, 0).unwrap();
    assert_eq!(decoded.data, "abc");
    assert_eq!(used, 7);
}

#[test]
fn pascal_string_multibyte_round_trip() {
    let s = PascalString { data: String::from("h\u{e9}llo") };
    let mut out: Vec<u8> = Vec::new();
    s.encode(&mut out).unwrap();
    // The count is the byte length, not the character count.
    assert_eq!(out[0], 6);
    let (decoded, used) = PascalString::decode(&out, 0).unwrap();
    assert_eq!(decoded.data, "h\u{e9}llo");
    assert_eq!(used, 10);
}

#[test]
fn pascal_string_invalid_utf8_is_replaced() {
    let data = [1u8, 0, 0, 0, 0xFF];
    let (decoded, used) = PascalString::decode(&data, 0).unwrap();
    assert_eq!(decoded.data, "\u{FFFD}");
    assert_eq!(used, 5);
}

#[test]
fn pascal_string_null_layout() {
    let s = PascalStringNULL { data: String::from("abc") };
    let mut out: Vec<u8> = Vec::new();
    s.encode(&mut out).unwrap();
    // Total length 4 + len + 1, stored count len + 1, trailing zero byte.
    assert_eq!(out.len(), 4 + 3 + 1);
    assert_eq!(out, vec![4, 0, 0, 0, b'a', b'b', b'c', 0]);
    let (decoded, used) = PascalStringNULL::decode(&out, 0).unwrap();
    assert_eq!(decoded.data, "abc");
    assert_eq!(used, 8);
}

#[test]
fn pascal_string_null_empty() {
    let s = PascalStringNULL { data: String::new() };
    let mut out: Vec<u8> = Vec::new();
    s.encode(&mut out).unwrap();
    assert_eq!(out, vec![1, 0, 0, 0, 0]);
    let (decoded, used) = PascalStringNULL::decode(&out, 0).unwrap();
    assert_eq!(decoded.data, "");
    assert_eq!(used, 5);
}

#[test]
fn pascal_string_null_zero_count_is_malformed() {
    let data = [0u8, 0, 0, 0];
    assert!(PascalStringNULL::decode(&data, 0).is_none());
}

#[test]
fn fixed_string_null_layout() {
    let s: FixedStringNULL<8> = FixedStringNULL { data: String::from("abc") };
    let mut out: Vec<u8> = Vec::new();
    s.encode(&mut out).unwrap();
    // Exactly the width: the text, then zero padding.
    assert_eq!(out, vec![b'a', b'b', b'c', 0, 0, 0, 0, 0]);
    let (decoded, used) = FixedStringNULL::<8>::decode(&out, 0).unwrap();
    assert_eq!(decoded.data, "abc");
    assert_eq!(used, 8);
}

#[test]
fn fixed_string_null_takes_prefix_before_first_zero() {
    // Arbitrary bytes after the first zero are ignored.
    let data = [b'h', b'i', 0, b'x', b'y', b'z', 7, 9];
    let (decoded, used) = FixedStringNULL::<8>::decode(&data, 0).unwrap();
    assert_eq!(decoded.data, "hi");
    assert_eq!(used, 8);
}

#[test]
fn fixed_string_null_without_zero_fails() {
    let data = [b'a'; 8];
    assert!(FixedStringNULL::<8>::decode(&data, 0).is_none());
}

#[test]
fn fixed_string_null_too_long_rejected() {
    let s: FixedStringNULL<2> = FixedStringNULL { data: String::from("abc") };
    let mut out: Vec<u8> = Vec::new();
    assert_eq!(s.encode(&mut out).unwrap_err(), WalleError::MalformedDocument);
    assert!(out.is_empty());
}

#[test]
fn rect_round_trip_and_layout() {
    let r = Rect { x1: 1, y1: -1, x2: 2, y2: -2 };
    let mut out: Vec<u8> = Vec::new();
    r.encode(&mut out);
    assert_eq!(
        out,
        vec![1, 0, 0, 0, 0xFF, 0xFF, 0xFF, 0xFF, 2, 0, 0, 0, 0xFE, 0xFF, 0xFF, 0xFF]
    );
    assert_eq!(round_trip(&r), 16);
}

#[test]
fn color_round_trip() {
    let c = Color { r: 0x3F800000, g: 0, b: 0x40000000, a: 0xBF800000 };
    assert_eq!(round_trip(&c), 16);
}

#[test]
fn fade_distances_round_trip() {
    let f = FadeDistances { x: 1, y: 2, fade_close: 3 };
    assert_eq!(round_trip(&f), 12);
}

#[test]
fn sphere_round_trip() {
    let s = SphereZ { center: Vec3f::new(vec![1, 2, 3]).unwrap(), radius: 0x41200000 };
    assert_eq!(round_trip(&s), 16);
}

#[test]
fn range_records_round_trip() {
    let r: RangeBeginEnd<u16> = RangeBeginEnd { begin: 3, end: 9 };
    assert_eq!(round_trip(&r), 4);
    let mut out: Vec<u8> = Vec::new();
    r.encode(&mut out);
    assert_eq!(out, vec![3, 0, 9, 0]);
    let s: RangeBeginSize<u32> = RangeBeginSize { begin: 100, size: 12 };
    assert_eq!(round_trip(&s), 8);
}

#[test]
fn dyn_records_round_trip() {
    let d = DynSphere {
        sphere: SphereZ { center: Vec3f::new(vec![7, 8, 9]).unwrap(), radius: 4 },
        flags: 1,
        dyn_sphere_name: 0xDEAD,
    };
    assert_eq!(round_trip(&d), 24);
    let mat = walle_fmt::codec::Mat4f::new((0u32..16).collect()).unwrap();
    let b = DynBox { mat, flags: 2, dyn_box_name: 0xBEEF };
    assert_eq!(round_trip(&b), 72);
}

#[test]
fn write_option_present_and_absent() {
    let mut out: Vec<u8> = Vec::new();
    write_option(&Some(5u32), &mut out);
    assert_eq!(out, vec![5, 0, 0, 0]);
    let mut out2: Vec<u8> = Vec::new();
    write_option::<u32>(&None, &mut out2);
    assert!(out2.is_empty());
}
