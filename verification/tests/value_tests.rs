//! Tests of typed attribute value decoding and encoding.

use headscratcher::parser::components::NetCDFType;
use headscratcher::values::{decode_value, encode_value, TypedValue};

#[test]
fn test_decode_shorts() {
    let b = [0x01u8, 0x02, 0xFF, 0xFE];
    let v = decode_value(NetCDFType::NC_SHORT, &b).unwrap();
    assert_eq!(v, TypedValue::Shorts(vec![258, -2]));
}

#[test]
fn test_decode_ints() {
    let b = [0x00u8, 0x00, 0x01, 0x00, 0xFF, 0xFF, 0xFF, 0xFF];
    let v = decode_value(NetCDFType::NC_INT, &b).unwrap();
    assert_eq!(v, TypedValue::Ints(vec![256, -1]));
}

#[test]
fn test_decode_floats_bits() {
    let b = [0x43u8, 0x57, 0xE4, 0xBC];
    let v = decode_value(NetCDFType::NC_FLOAT, &b).unwrap();
    match v {
        TypedValue::Floats(bits) => {
            assert_eq!(bits.len(), 1);
            assert_eq!(f32::from_bits(bits[0]), 215.8935);
        },
        _ => panic!("wrong value kind"),
    }
}

#[test]
fn test_decode_text() {
    let b = [36u8, 73, 100, 36];
    let v = decode_value(NetCDFType::NC_CHAR, &b).unwrap();
    assert_eq!(v, TypedValue::Text("$Id$".to_string()));
}

#[test]
fn test_decode_text_invalid_utf8() {
    let b = [0xFFu8, 0xFF];
    let e = decode_value(NetCDFType::NC_CHAR, &b).unwrap_err();
    assert!(matches!(e, headscratcher::error::HeadScratcherError::Utf8));
}

#[test]
fn test_round_trip_regions() {
    // Each decoded value re-encodes to the original region, padding
    // included.
    let cases: Vec<(NetCDFType, Vec<u8>)> = vec![
        (NetCDFType::NC_BYTE, vec![1, 2, 3, 4]),
        (NetCDFType::NC_SHORT, vec![0x01, 0x02, 0x80, 0x00]),
        (NetCDFType::NC_INT, vec![0xDE, 0xAD, 0xBE, 0xEF]),
        (NetCDFType::NC_FLOAT, vec![0x43, 0x57, 0xE4, 0xBC]),
        (
            NetCDFType::NC_DOUBLE,
            vec![0x40, 0x09, 0x21, 0xFB, 0x54, 0x44, 0x2D, 0x18],
        ),
    ];
    for (t, region) in cases {
        let v = decode_value(t, &region).unwrap();
        let back = encode_value(&v);
        assert_eq!(back, region);
    }
}

#[test]
fn test_round_trip_padded_text() {
    // Three content bytes are followed by one zero byte on disk.
    let region = vec![b'a', b'b', b'c', 0];
    let v = decode_value(NetCDFType::NC_CHAR, &region[..3]).unwrap();
    assert_eq!(v, TypedValue::Text("abc".to_string()));
    let back = encode_value(&v);
    assert_eq!(back, region);
}

#[test]
fn test_encode_doubles_pads_nothing() {
    let v = TypedValue::Doubles(vec![0x0102030405060708]);
    let b = encode_value(&v);
    assert_eq!(b, vec![1, 2, 3, 4, 5, 6, 7, 8]);
}

#[test]
fn test_attribute_value() {
    let a = headscratcher::parser::components::NetCDFAttribute::new(
        "units".to_string(),
        NetCDFType::NC_CHAR,
        b"K".to_vec(),
    );
    assert_eq!(a.value().unwrap(), TypedValue::Text("K".to_string()));
}
