//! End-to-end tests of the header grammar on whole files.

use headscratcher::parser::components::{
    attribute_list, dimension_list, initials, list_type, nc_version, nelems, number_of_records,
    variable_list, ListType, NetCDFAttribute, NetCDFDimension, NetCDFType, NetCDFVersion,
    NumberOfRecords,
};
use headscratcher::parser::{calculate_seeks, header, NetCDFHeader};
use headscratcher::source::MemSource;
use headscratcher::NetCDF;

fn push_u32(b: &mut Vec<u8>, v: u32) {
    b.extend_from_slice(&v.to_be_bytes());
}

fn push_name(b: &mut Vec<u8>, name: &str) {
    push_u32(b, name.len() as u32);
    b.extend_from_slice(name.as_bytes());
    let pad = (4 - name.len() % 4) % 4;
    for _ in 0..pad {
        b.push(0);
    }
}

fn push_dim(b: &mut Vec<u8>, name: &str, len: u32) {
    push_name(b, name);
    push_u32(b, len);
}

fn push_char_attr(b: &mut Vec<u8>, name: &str, text: &[u8]) {
    push_name(b, name);
    push_u32(b, 2);
    push_u32(b, text.len() as u32);
    b.extend_from_slice(text);
    let pad = (4 - text.len() % 4) % 4;
    for _ in 0..pad {
        b.push(0);
    }
}

fn push_var32(b: &mut Vec<u8>, name: &str, dims: &[u32], t: u32, vsize: u32, begin: u32) {
    push_name(b, name);
    push_u32(b, dims.len() as u32);
    for d in dims {
        push_u32(b, *d);
    }
    push_u32(b, 0);
    push_u32(b, 0);
    push_u32(b, t);
    push_u32(b, vsize);
    push_u32(b, begin);
}

fn push_var64(b: &mut Vec<u8>, name: &str, dims: &[u32], t: u32, vsize: u32, begin: u64) {
    push_name(b, name);
    push_u32(b, dims.len() as u32);
    for d in dims {
        push_u32(b, *d);
    }
    push_u32(b, 0);
    push_u32(b, 0);
    push_u32(b, t);
    push_u32(b, vsize);
    b.extend_from_slice(&begin.to_be_bytes());
}

fn empty_nc() -> Vec<u8> {
    let mut b = vec![b'C', b'D', b'F', 1];
    push_u32(&mut b, 0);
    for _ in 0..6 {
        push_u32(&mut b, 0);
    }
    b
}

fn small_nc() -> Vec<u8> {
    let mut b = vec![b'C', b'D', b'F', 1];
    push_u32(&mut b, 0);
    push_u32(&mut b, 0x0A);
    push_u32(&mut b, 1);
    push_dim(&mut b, "dim", 5);
    for _ in 0..4 {
        push_u32(&mut b, 0);
    }
    b
}

fn testrh_nc() -> Vec<u8> {
    let mut b = vec![b'C', b'D', b'F', 1];
    push_u32(&mut b, 0);
    push_u32(&mut b, 0x0A);
    push_u32(&mut b, 1);
    push_dim(&mut b, "dim1", 10_000);
    for _ in 0..4 {
        push_u32(&mut b, 0);
    }
    b
}

fn push_global_attrs(b: &mut Vec<u8>) {
    push_u32(b, 0x0C);
    push_u32(b, 18);
    push_char_attr(b, "CVS_Id", &[36, 73, 100, 36]);
    let names = [
        "creation_date",
        "prg_ID",
        "cmd_ln",
        "history",
        "table_id",
        "title",
        "institution",
        "source",
        "contact",
        "project_id",
        "Conventions",
        "references",
        "acknowledgment",
        "realization",
        "experiment_id",
        "comment",
        "model_name_english",
    ];
    for n in names.iter() {
        push_char_attr(b, n, b"x");
    }
}

/// A classic-format header shaped like the CCSM3 sample: the same
/// dimensions, an 18-entry global attribute list, and the variables whose
/// strides the layout tests pin down.
fn ccsm3_classic() -> Vec<u8> {
    let mut b = vec![b'C', b'D', b'F', 1];
    push_u32(&mut b, 1);
    push_u32(&mut b, 0x0A);
    push_u32(&mut b, 5);
    push_dim(&mut b, "lat", 128);
    push_dim(&mut b, "lon", 256);
    push_dim(&mut b, "bnds", 2);
    push_dim(&mut b, "plev", 17);
    push_dim(&mut b, "time", 0);
    push_global_attrs(&mut b);
    push_u32(&mut b, 0x0B);
    push_u32(&mut b, 9);
    push_var32(&mut b, "area", &[0, 1], 5, 131072, 7564);
    push_var32(&mut b, "plev", &[3], 5, 68, 2000);
    push_var32(&mut b, "lon", &[1], 5, 1024, 2100);
    push_var32(&mut b, "lat", &[0], 5, 512, 2200);
    push_var32(&mut b, "time", &[4], 6, 8, 2300);
    push_var32(&mut b, "msk_rgn", &[0, 1], 4, 131072, 2400);
    push_var32(&mut b, "pr", &[4, 0, 1], 5, 131072, 2500);
    push_var32(&mut b, "tas", &[4, 0, 1], 5, 131072, 2600);
    push_var32(&mut b, "ua", &[4, 3, 0, 1], 5, 2228224, 2700);
    b
}

/// The 64-bit-offset variant: the record dimension comes first and the
/// variable records carry 64-bit begin offsets.
fn ccsm3_64offset() -> Vec<u8> {
    let mut b = vec![b'C', b'D', b'F', 2];
    push_u32(&mut b, 1);
    push_u32(&mut b, 0x0A);
    push_u32(&mut b, 5);
    push_dim(&mut b, "time", 0);
    push_dim(&mut b, "lat", 128);
    push_dim(&mut b, "lon", 256);
    push_dim(&mut b, "bnds", 2);
    push_dim(&mut b, "plev", 17);
    push_global_attrs(&mut b);
    push_u32(&mut b, 0x0B);
    push_u32(&mut b, 12);
    push_var64(&mut b, "area", &[1, 2], 5, 131072, 7564);
    push_var64(&mut b, "plev", &[4], 5, 68, 2000);
    push_var64(&mut b, "lon", &[2], 5, 1024, 2100);
    push_var64(&mut b, "lat", &[1], 5, 512, 2200);
    push_var64(&mut b, "time", &[0], 6, 8, 2300);
    push_var64(&mut b, "msk_rgn", &[1, 2], 4, 131072, 2400);
    push_var64(&mut b, "pr", &[0, 1, 2], 5, 131072, 2500);
    push_var64(&mut b, "tas", &[0, 1, 2], 5, 131072, 2600);
    push_var64(&mut b, "ua", &[0, 4, 1, 2], 5, 2228224, 2700);
    push_var64(&mut b, "lat_bnds", &[1, 3], 6, 2048, 2800);
    push_var64(&mut b, "lon_bnds", &[2, 3], 6, 4096, 2900);
    push_var64(&mut b, "time_bnds", &[0, 3], 6, 16, 3000);
    b
}

#[test]
fn mod_file_example_empty() {
    let i = empty_nc();
    let (_, h) = header(&i).unwrap();
    assert_eq!(h.version, NetCDFVersion::Classic);
    assert_eq!(h.nor, NumberOfRecords::NonNegative(0));
    assert!(h.dims.is_none());
    assert!(h.attrs.is_none());
    assert!(h.vars.is_none());
}

#[test]
fn mod_file_example_small() {
    let i = small_nc();
    let _ = header(&i).unwrap();
}

#[test]
fn mod_file_example_compressible() {
    let i = testrh_nc();
    let _ = header(&i).unwrap();
}

#[test]
fn mod_file_nc3_classic() {
    let i = ccsm3_classic();
    let _ = header(&i).unwrap();
}

#[test]
fn mod_file_nc3_64offset() {
    let i = ccsm3_64offset();
    let _ = header(&i).unwrap();
}

#[test]
fn test_seeks() {
    let i = ccsm3_classic();
    let (_, h) = header(&i).unwrap();
    let seeks = calculate_seeks(&h.vars, &h.dims).unwrap().unwrap();
    let vars = h.vars.as_ref().unwrap();
    let expected = vec![
        ("plev".to_string(), vec![1usize]),
        ("lon".to_string(), vec![1]),
        ("lat".to_string(), vec![1]),
        ("time".to_string(), vec![1]),
        ("area".to_string(), vec![256, 1]),
        ("msk_rgn".to_string(), vec![256, 1]),
        ("pr".to_string(), vec![32768, 256, 1]),
        ("tas".to_string(), vec![32768, 256, 1]),
        ("ua".to_string(), vec![557056, 32768, 256, 1]),
    ];
    for (v, e) in expected.iter() {
        println!("{:?}", v);
        let ix = vars.iter().position(|x| &x.name == v).unwrap();
        let calculated = &seeks[ix];
        assert_eq!(calculated, e)
    }
}

#[test]
fn components_file_example_empty() {
    let i = empty_nc();
    let (p, o) = initials(&i, 0).unwrap();
    assert_eq!(o, vec![b'C', b'D', b'F']);
    let (p, o) = nc_version(&i, p).unwrap();
    assert_eq!(o, NetCDFVersion::Classic);
    let (p, o) = number_of_records(&i, p).unwrap();
    assert_eq!(o, NumberOfRecords::NonNegative(0));
    let (p, o) = list_type(&i, p).unwrap();
    assert_eq!(o, ListType::Absent); // No dim list
    let (p, o) = list_type(&i, p).unwrap();
    assert_eq!(o, ListType::Absent); // No attr list
    let (p, o) = list_type(&i, p).unwrap();
    assert_eq!(o, ListType::Absent); // No var list
    assert_eq!(p, i.len())
}

#[test]
fn components_file_example_small() {
    let i = small_nc();
    let (p, o) = initials(&i, 0).unwrap();
    assert_eq!(o, vec![b'C', b'D', b'F']);
    let (p, o) = nc_version(&i, p).unwrap();
    assert_eq!(o, NetCDFVersion::Classic);
    let (p, o) = number_of_records(&i, p).unwrap();
    assert_eq!(o, NumberOfRecords::NonNegative(0));
    let (p, o) = list_type(&i, p).unwrap();
    assert_eq!(o, ListType::DimensionList);
    let (p, o) = dimension_list(&i, p).unwrap();
    let d = vec![NetCDFDimension::new("dim".to_string(), 5)];
    assert_eq!(o, d);
    let (_, o) = list_type(&i, p).unwrap();
    assert_eq!(o, ListType::Absent);
}

#[test]
fn components_file_example_compressible() {
    let i = testrh_nc();
    let (p, o) = initials(&i, 0).unwrap();
    assert_eq!(o, vec![b'C', b'D', b'F']);
    let (p, o) = nc_version(&i, p).unwrap();
    assert_eq!(o, NetCDFVersion::Classic);
    let (p, o) = number_of_records(&i, p).unwrap();
    assert_eq!(o, NumberOfRecords::NonNegative(0));
    let (p, o) = list_type(&i, p).unwrap();
    assert_eq!(o, ListType::DimensionList);
    let (p, o) = dimension_list(&i, p).unwrap();
    let d = vec![NetCDFDimension::new("dim1".to_string(), 10_000)];
    assert_eq!(o, d);
    let (_, o) = list_type(&i, p).unwrap();
    assert_eq!(o, ListType::Absent);
}

#[test]
fn components_file_nc3_classic() {
    let i = ccsm3_classic();
    let (p, o) = initials(&i, 0).unwrap();
    assert_eq!(o, vec![b'C', b'D', b'F']);
    let (p, v) = nc_version(&i, p).unwrap();
    assert_eq!(v, NetCDFVersion::Classic);
    let (p, o) = number_of_records(&i, p).unwrap();
    assert_eq!(o, NumberOfRecords::NonNegative(1));
    let (p, o) = list_type(&i, p).unwrap();
    assert_eq!(o, ListType::DimensionList);
    let (p, o) = dimension_list(&i, p).unwrap();
    let d = vec![
        NetCDFDimension::new("lat".to_string(), 128),
        NetCDFDimension::new("lon".to_string(), 256),
        NetCDFDimension::new("bnds".to_string(), 2),
        NetCDFDimension::new("plev".to_string(), 17),
        NetCDFDimension::new("time".to_string(), 0),
    ];
    assert_eq!(o, d);
    let (p, o) = list_type(&i, p).unwrap();
    assert_eq!(o, ListType::AttributeList);
    let (p, o) = attribute_list(&i, p).unwrap();
    assert_eq!(o.len(), 18);
    let a = NetCDFAttribute::new(
        "CVS_Id".to_string(),
        NetCDFType::NC_CHAR,
        vec![36, 73, 100, 36],
    );
    assert_eq!(o[0], a);
    let (p, o) = list_type(&i, p).unwrap();
    assert_eq!(o, ListType::VariableList);
    let (_, o) = variable_list(&i, p, v).unwrap();
    assert_eq!(o[0].name, "area");
    assert_eq!(o[0].dims, vec![0, 1]);
    assert_eq!(o[0].begin, 7564);
    assert_eq!(o[0].vsize, 131072);
    assert_eq!(o[0].nc_type, NetCDFType::NC_FLOAT);
}

#[test]
fn components_file_nc3_64offset() {
    let i = ccsm3_64offset();
    let (p, o) = initials(&i, 0).unwrap();
    assert_eq!(o, vec![b'C', b'D', b'F']);
    let (p, o) = nc_version(&i, p).unwrap();
    assert_eq!(o, NetCDFVersion::Offset64);
    let (p, o) = number_of_records(&i, p).unwrap();
    assert_eq!(o, NumberOfRecords::NonNegative(1));
    let (p, o) = list_type(&i, p).unwrap();
    assert_eq!(o, ListType::DimensionList);
    let (p, o) = dimension_list(&i, p).unwrap();
    let d = vec![
        NetCDFDimension::new("time".to_string(), 0),
        NetCDFDimension::new("lat".to_string(), 128),
        NetCDFDimension::new("lon".to_string(), 256),
        NetCDFDimension::new("bnds".to_string(), 2),
        NetCDFDimension::new("plev".to_string(), 17),
    ];
    assert_eq!(o, d);
    let (p, o) = list_type(&i, p).unwrap();
    assert_eq!(o, ListType::AttributeList);
    let (p, o) = attribute_list(&i, p).unwrap();
    assert_eq!(o.len(), 18);
    let a = NetCDFAttribute::new(
        "CVS_Id".to_string(),
        NetCDFType::NC_CHAR,
        vec![36, 73, 100, 36],
    );
    assert_eq!(o[0], a);
    let (p, o) = list_type(&i, p).unwrap();
    assert_eq!(o, ListType::VariableList);
    let (_, o) = nelems(&i, p).unwrap();
    assert_eq!(o, 12);
}

#[test]
fn test_read_netcdf() {
    let mut f = ccsm3_classic();
    f.resize(2604, 0);
    f[2600..2604].copy_from_slice(&[67, 87, 228, 188]);
    let src = MemSource::new(f);
    let mut netcdf = NetCDF::new_from_file(src).unwrap();
    let mut buffer = vec![0u8; 4];
    netcdf
        .update_buffer("tas".to_string(), &[0, 0, 0], &mut buffer)
        .unwrap();
    assert_eq!(
        f32::from_be_bytes([buffer[0], buffer[1], buffer[2], buffer[3]]),
        215.8935
    );
    assert_eq!(buffer, vec![67, 87, 228, 188]);
    let map = netcdf.mapsize().unwrap();
    assert_eq!(map, 256 * 128)
}

#[test]
fn test_chunk_invariance() {
    let i = ccsm3_classic();
    let mut h: Vec<NetCDFHeader> = Vec::new();
    for chunk in [1usize, 7, 64, 4096] {
        let mut src = MemSource::new(i.clone());
        h.push(NetCDFHeader::from_source(&mut src, chunk).unwrap());
    }
    assert_eq!(h[0], h[1]);
    assert_eq!(h[0], h[2]);
    assert_eq!(h[0], h[3]);
}

#[test]
fn test_vsize_alignment() {
    // Declared sizes are 4-byte aligned and cover the non-record grid.
    let i = ccsm3_classic();
    let (_, h) = header(&i).unwrap();
    let vars = h.vars.as_ref().unwrap();
    for v in vars.iter() {
        assert_eq!(v.vsize % 4, 0);
    }
    let area = vars.iter().find(|v| v.name == "area").unwrap();
    assert!(area.vsize >= 4 * 128 * 256);
}

#[test]
fn test_offsets_stay_in_region() {
    // Reads of the last element of each non-record variable land inside
    // [begin, begin + vsize).
    let i = ccsm3_classic();
    let (_, h) = header(&i).unwrap();
    let seeks = calculate_seeks(&h.vars, &h.dims).unwrap().unwrap();
    let vars = h.vars.as_ref().unwrap();
    let ix = vars.iter().position(|x| x.name == "area").unwrap();
    let strides = &seeks[ix];
    let last = 127 * strides[0] + 255 * strides[1];
    let offset = vars[ix].begin as usize + last * 4;
    assert!(vars[ix].begin as usize <= offset);
    assert!(offset < vars[ix].begin as usize + vars[ix].vsize);
}
