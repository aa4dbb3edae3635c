//! Tests of the primitive decoders on small inline inputs.

use headscratcher::error::HeadScratcherError;
use headscratcher::parser::components::{
    absent, list_type, magic, nc_type, nc_version, number_of_records, padding, zero, ListType,
    NetCDFType, NetCDFVersion, NumberOfRecords, ParseErr,
};

#[test]
fn test_size() {
    let data = [0x0, 0x0, 0x0, 0xAu8];
    let (_, o) = number_of_records(&data, 0).unwrap();
    assert_eq!(o, NumberOfRecords::NonNegative(10));
    let data = [0xFF, 0xFF, 0xFF, 0xFFu8];
    let (_, o) = number_of_records(&data, 0).unwrap();
    assert_eq!(o, NumberOfRecords::Streaming)
}

#[test]
#[should_panic]
fn test_initials_hdf() {
    let f = [0x89u8, 0x48, 0x44, 0x46, 0x0D, 0x0A, 0x1A, 0x0A];
    magic(&f, 0).unwrap();
}

#[test]
fn test_wrong_version() {
    let f = [0x89u8, 0x48, 0x44, 0x46, 0x0D, 0x0A, 0x1A, 0x0A];
    let e = nc_version(&f, 0).unwrap_err();
    match e {
        ParseErr::Failed(e) => assert_eq!(e, HeadScratcherError::UnsupportedVersion),
        _ => panic!("Unexpected error {:?}", e),
    }
}

#[test]
fn test_nc_version() {
    let (_, o) = nc_version(&[1u8], 0).unwrap();
    assert_eq!(o, NetCDFVersion::Classic);
    let (_, o) = nc_version(&[2u8], 0).unwrap();
    assert_eq!(o, NetCDFVersion::Offset64);
}

#[test]
fn test_nctypes() {
    let types: [u8; 44] = [
        0, 0, 0, 3, 0, 0, 0, 2, 0, 0, 0, 1, 0, 0, 0, 1, 0, 0, 0, 1, 0, 0, 0, 3, 0, 0, 0, 2, 0, 0,
        0, 5, 0, 0, 0, 6, 0, 0, 0, 4, 0, 0, 0, 4,
    ];
    let expected: [NetCDFType; 11] = [
        NetCDFType::NC_SHORT,
        NetCDFType::NC_CHAR,
        NetCDFType::NC_BYTE,
        NetCDFType::NC_BYTE,
        NetCDFType::NC_BYTE,
        NetCDFType::NC_SHORT,
        NetCDFType::NC_CHAR,
        NetCDFType::NC_FLOAT,
        NetCDFType::NC_DOUBLE,
        NetCDFType::NC_INT,
        NetCDFType::NC_INT,
    ];
    for (factor, exp) in expected.iter().enumerate() {
        let (_, o) = nc_type(&types, factor * 4).unwrap();
        assert_eq!(o, *exp)
    }
}

#[test]
fn test_padding_amounts() {
    assert_eq!(padding(0), 0);
    assert_eq!(padding(1), 3);
    assert_eq!(padding(2), 2);
    assert_eq!(padding(3), 1);
    assert_eq!(padding(4), 0);
    assert_eq!(padding(5), 3);
    assert_eq!(padding(9), 3);
}

#[test]
fn test_list_type_tags() {
    let (_, o) = list_type(&[0, 0, 0, 0x0A], 0).unwrap();
    assert_eq!(o, ListType::DimensionList);
    let (_, o) = list_type(&[0, 0, 0, 0x0B], 0).unwrap();
    assert_eq!(o, ListType::VariableList);
    let (_, o) = list_type(&[0, 0, 0, 0x0C], 0).unwrap();
    assert_eq!(o, ListType::AttributeList);
    let (p, o) = list_type(&[0, 0, 0, 0, 0, 0, 0, 0], 0).unwrap();
    assert_eq!(o, ListType::Absent);
    assert_eq!(p, 8);
}

#[test]
fn test_unknown_list_tag() {
    let e = list_type(&[0, 0, 0, 9], 0).unwrap_err();
    assert_eq!(e, ParseErr::Failed(HeadScratcherError::UnknownListTag(9)));
}

#[test]
fn test_malformed_absent_list() {
    let e = list_type(&[0, 0, 0, 0, 0, 0, 0, 7], 0).unwrap_err();
    assert_eq!(e, ParseErr::Failed(HeadScratcherError::MalformedAbsentList));
    let e = zero(&[0, 0, 0, 5], 0).unwrap_err();
    assert_eq!(e, ParseErr::Failed(HeadScratcherError::MalformedAbsentList));
    let (p, o) = absent(&[0, 0, 0, 0, 0, 0, 0, 0], 0).unwrap();
    assert_eq!(o, ListType::Absent);
    assert_eq!(p, 8);
}

#[test]
fn test_unknown_type_code() {
    let e = nc_type(&[0, 0, 0, 7], 0).unwrap_err();
    assert_eq!(e, ParseErr::Failed(HeadScratcherError::UnknownType(7)));
}

#[test]
fn test_incomplete_primitive() {
    let e = number_of_records(&[0, 0, 0], 0).unwrap_err();
    assert_eq!(e, ParseErr::Incomplete);
    let e = magic(&[0x43, 0x44], 0).unwrap_err();
    assert_eq!(e, ParseErr::Incomplete);
}
