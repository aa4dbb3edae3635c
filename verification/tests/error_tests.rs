//! Negative tests: every error variant has an input that produces it.

use headscratcher::error::HeadScratcherError;
use headscratcher::parser::components::{name, ParseErr};
use headscratcher::parser::{header, NetCDFHeader};
use headscratcher::source::MemSource;
use headscratcher::NetCDF;

fn push_u32(b: &mut Vec<u8>, v: u32) {
    b.extend_from_slice(&v.to_be_bytes());
}

fn push_name(b: &mut Vec<u8>, n: &str) {
    push_u32(b, n.len() as u32);
    b.extend_from_slice(n.as_bytes());
    let pad = (4 - n.len() % 4) % 4;
    for _ in 0..pad {
        b.push(0);
    }
}

fn classic_prefix(nor: u32) -> Vec<u8> {
    let mut b = vec![b'C', b'D', b'F', 1];
    push_u32(&mut b, nor);
    b
}

#[test]
fn test_hdf_magic_is_invalid_file() {
    let mut f = vec![0x89u8, b'H', b'D', b'F'];
    f.extend_from_slice(&[0u8; 32]);
    let e = header(&f).unwrap_err();
    assert_eq!(e, ParseErr::Failed(HeadScratcherError::InvalidFile));
}

#[test]
fn test_version_three_is_unsupported() {
    let mut f = vec![b'C', b'D', b'F', 3];
    f.extend_from_slice(&[0u8; 32]);
    let e = header(&f).unwrap_err();
    assert_eq!(e, ParseErr::Failed(HeadScratcherError::UnsupportedVersion));
}

#[test]
fn test_truncated_header_is_eof() {
    let f = vec![b'C', b'D', b'F', 1, 0, 0];
    let mut src = MemSource::new(f);
    let e = NetCDFHeader::from_source(&mut src, 4096).unwrap_err();
    assert_eq!(e, HeadScratcherError::UnexpectedEof);
}

#[test]
fn test_unexpected_list_tag() {
    // An attribute tag where the dimension list belongs.
    let mut f = classic_prefix(0);
    push_u32(&mut f, 0x0C);
    push_u32(&mut f, 0);
    let e = header(&f).unwrap_err();
    assert!(matches!(
        e,
        ParseErr::Failed(HeadScratcherError::UnexpectedListTag { .. })
    ));
}

#[test]
fn test_bad_dim_ref() {
    // One dimension, and a variable that references dimension 5.
    let mut f = classic_prefix(0);
    push_u32(&mut f, 0x0A);
    push_u32(&mut f, 1);
    push_name(&mut f, "x");
    push_u32(&mut f, 3);
    push_u32(&mut f, 0);
    push_u32(&mut f, 0);
    push_u32(&mut f, 0x0B);
    push_u32(&mut f, 1);
    push_name(&mut f, "v");
    push_u32(&mut f, 1);
    push_u32(&mut f, 5);
    push_u32(&mut f, 0);
    push_u32(&mut f, 0);
    push_u32(&mut f, 1);
    push_u32(&mut f, 4);
    push_u32(&mut f, 0);
    let e = header(&f).unwrap_err();
    assert_eq!(e, ParseErr::Failed(HeadScratcherError::BadDimRef(5)));
}

#[test]
fn test_duplicate_attribute_name() {
    let mut f = classic_prefix(0);
    push_u32(&mut f, 0);
    push_u32(&mut f, 0);
    push_u32(&mut f, 0x0C);
    push_u32(&mut f, 2);
    for _ in 0..2 {
        push_name(&mut f, "twin");
        push_u32(&mut f, 2);
        push_u32(&mut f, 1);
        f.extend_from_slice(b"a\0\0\0");
    }
    let e = header(&f).unwrap_err();
    assert_eq!(
        e,
        ParseErr::Failed(HeadScratcherError::DuplicateName("twin".to_string()))
    );
}

#[test]
fn test_invalid_utf8_name() {
    let b = [0, 0, 0, 2, 0xFF, 0xFF, 0, 0];
    let e = name(&b, 0).unwrap_err();
    assert_eq!(e, ParseErr::Failed(HeadScratcherError::Utf8));
}

#[test]
fn test_layout_overflow_in_strides() {
    // Four maximum-length axes: the leading stride exceeds 64 bits.
    let mut f = classic_prefix(0);
    push_u32(&mut f, 0x0A);
    push_u32(&mut f, 4);
    for n in ["a", "b", "c", "d"] {
        push_name(&mut f, n);
        push_u32(&mut f, 0xFFFF_FFFF);
    }
    push_u32(&mut f, 0);
    push_u32(&mut f, 0);
    push_u32(&mut f, 0x0B);
    push_u32(&mut f, 1);
    push_name(&mut f, "v");
    push_u32(&mut f, 4);
    for d in [0u32, 1, 2, 3] {
        push_u32(&mut f, d);
    }
    push_u32(&mut f, 0);
    push_u32(&mut f, 0);
    push_u32(&mut f, 1);
    push_u32(&mut f, 4);
    push_u32(&mut f, 0);
    let e = header(&f).unwrap_err();
    assert_eq!(e, ParseErr::Failed(HeadScratcherError::LayoutOverflow));
}

#[test]
fn test_read_wrong_arity_is_out_of_bounds() {
    // A scalar read with a three-coordinate index must be rejected.
    let mut f = classic_prefix(0);
    push_u32(&mut f, 0x0A);
    push_u32(&mut f, 1);
    push_name(&mut f, "x");
    push_u32(&mut f, 2);
    push_u32(&mut f, 0);
    push_u32(&mut f, 0);
    push_u32(&mut f, 0x0B);
    push_u32(&mut f, 1);
    push_name(&mut f, "v");
    push_u32(&mut f, 1);
    push_u32(&mut f, 0);
    push_u32(&mut f, 0);
    push_u32(&mut f, 0);
    push_u32(&mut f, 1);
    push_u32(&mut f, 4);
    push_u32(&mut f, 64);
    f.resize(80, 0);
    let src = MemSource::new(f);
    let mut nc = NetCDF::new_from_file(src).unwrap();
    let mut buf = vec![0u8; 1];
    let e = nc
        .update_buffer("v".to_string(), &[0, 0, 0], &mut buf)
        .unwrap_err();
    assert!(matches!(e, HeadScratcherError::OutOfBounds { .. }));
}

#[test]
fn test_read_unknown_variable() {
    let mut f = classic_prefix(0);
    for _ in 0..6 {
        push_u32(&mut f, 0);
    }
    let src = MemSource::new(f);
    let mut nc = NetCDF::new_from_file(src).unwrap();
    let mut buf = vec![0u8; 1];
    let e = nc
        .update_buffer("ghostly".to_string(), &[], &mut buf)
        .unwrap_err();
    assert!(matches!(e, HeadScratcherError::UnknownVariable(_)));
}

#[test]
fn test_read_past_end_is_eof() {
    // A variable whose data region lies beyond the end of the stream.
    let mut f = classic_prefix(0);
    push_u32(&mut f, 0x0A);
    push_u32(&mut f, 1);
    push_name(&mut f, "x");
    push_u32(&mut f, 2);
    push_u32(&mut f, 0);
    push_u32(&mut f, 0);
    push_u32(&mut f, 0x0B);
    push_u32(&mut f, 1);
    push_name(&mut f, "v");
    push_u32(&mut f, 1);
    push_u32(&mut f, 0);
    push_u32(&mut f, 0);
    push_u32(&mut f, 0);
    push_u32(&mut f, 1);
    push_u32(&mut f, 4);
    push_u32(&mut f, 100_000);
    let src = MemSource::new(f);
    let mut nc = NetCDF::new_from_file(src).unwrap();
    let mut buf = vec![0u8; 2];
    let e = nc
        .update_buffer("v".to_string(), &[0], &mut buf)
        .unwrap_err();
    assert_eq!(e, HeadScratcherError::UnexpectedEof);
}

#[test]
fn test_mapsize_missing_axes() {
    // Only a latitude-like axis: longitude is reported missing.
    let mut f = classic_prefix(0);
    push_u32(&mut f, 0x0A);
    push_u32(&mut f, 1);
    push_name(&mut f, "lat");
    push_u32(&mut f, 8);
    push_u32(&mut f, 0);
    push_u32(&mut f, 0);
    push_u32(&mut f, 0);
    push_u32(&mut f, 0);
    let src = MemSource::new(f);
    let nc = NetCDF::new_from_file(src).unwrap();
    let e = nc.mapsize().unwrap_err();
    assert_eq!(e, HeadScratcherError::MissingCoordinate("longitude"));
}

#[test]
fn test_mapsize_missing_latitude() {
    let mut f = classic_prefix(0);
    push_u32(&mut f, 0x0A);
    push_u32(&mut f, 1);
    push_name(&mut f, "longitude");
    push_u32(&mut f, 8);
    push_u32(&mut f, 0);
    push_u32(&mut f, 0);
    push_u32(&mut f, 0);
    push_u32(&mut f, 0);
    let src = MemSource::new(f);
    let nc = NetCDF::new_from_file(src).unwrap();
    let e = nc.mapsize().unwrap_err();
    assert_eq!(e, HeadScratcherError::MissingCoordinate("latitude"));
}
