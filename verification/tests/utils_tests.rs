//! Tests of the layout arithmetic helpers.

use headscratcher::parser::components::{NetCDFDimension, NetCDFVariable, NumberOfRecords};
use headscratcher::utils::{calc_seek, product_vector};

#[test]
fn test_product_vector() {
    let vecs: Vec<usize> = vec![5, 3, 2, 7];
    let record = false;
    let expected: Vec<usize> = vec![210, 42, 14, 7];
    let result = product_vector(&vecs, record);
    assert_eq!(result, expected);
}

#[test]
fn test_rec_product_vector() {
    let vecs: Vec<usize> = vec![0, 2, 9, 4];
    let record = true;
    let expected: Vec<usize> = vec![0, 72, 36, 4];
    let result = product_vector(&vecs, record);
    assert_eq!(result, expected);
}

#[test]
fn test_calc_seek_values() {
    // One variable over a 3 x 4 grid of 32-bit elements at byte 100:
    // element (r, c) sits at 100 + (4 * r + c) * 4.
    let dims = vec![
        NetCDFDimension::new("r".to_string(), 3),
        NetCDFDimension::new("c".to_string(), 4),
    ];
    let vars = vec![NetCDFVariable::new(
        "grid".to_string(),
        vec![0, 1],
        None,
        headscratcher::parser::components::NetCDFType::NC_INT,
        48,
        100,
    )];
    let seeks = vec![vec![4usize, 1]];
    let nor = NumberOfRecords::NonNegative(0);
    let name = "grid".to_string();
    let r = calc_seek(&vars, &dims, nor, &seeks, &name, &[0, 0]).unwrap();
    assert_eq!(r, 100);
    let r = calc_seek(&vars, &dims, nor, &seeks, &name, &[1, 2]).unwrap();
    assert_eq!(r, 100 + 6 * 4);
    let r = calc_seek(&vars, &dims, nor, &seeks, &name, &[2, 3]).unwrap();
    assert_eq!(r, 100 + 11 * 4);
}

#[test]
fn test_calc_seek_bounds() {
    let dims = vec![NetCDFDimension::new("c".to_string(), 4)];
    let vars = vec![NetCDFVariable::new(
        "v".to_string(),
        vec![0],
        None,
        headscratcher::parser::components::NetCDFType::NC_BYTE,
        4,
        0,
    )];
    let seeks = vec![vec![1usize]];
    let nor = NumberOfRecords::NonNegative(0);
    let name = "v".to_string();
    let e = calc_seek(&vars, &dims, nor, &seeks, &name, &[4]).unwrap_err();
    assert!(matches!(
        e,
        headscratcher::error::HeadScratcherError::OutOfBounds { axis: 0, value: 4, bound: 4 }
    ));
    // Wrong arity.
    let e = calc_seek(&vars, &dims, nor, &seeks, &name, &[0, 0]).unwrap_err();
    assert!(matches!(
        e,
        headscratcher::error::HeadScratcherError::OutOfBounds { .. }
    ));
    // Unknown variable.
    let other = "w".to_string();
    let e = calc_seek(&vars, &dims, nor, &seeks, &other, &[0]).unwrap_err();
    assert!(matches!(
        e,
        headscratcher::error::HeadScratcherError::UnknownVariable(_)
    ));
}
