use fuqr::constants::{format_info, version_information};
use fuqr::math::{exp_table, log_table};
use fuqr::qr_code::{Mask, ECL};

#[test]
fn constants_information_works() {
    assert_eq!(version_information(7), 0x07C94);
    assert_eq!(version_information(21), 0x15683);
    assert_eq!(version_information(40), 0x28C69);
}

#[test]
fn version_information_works() {
    assert_eq!(version_information(7), 0x07C94);
    assert_eq!(version_information(21), 0x15683);
    assert_eq!(version_information(40), 0x28C69);
}

#[test]
fn constants_format_information_works() {
    assert_eq!(format_info(ECL::Medium, Mask::M0), 0x5412);
    assert_eq!(format_info(ECL::High, Mask::M0), 0x1689);
    assert_eq!(format_info(ECL::High, Mask::M7), 0x083B);
}

#[test]
fn version_format_information_works() {
    assert_eq!(format_info(ECL::Medium, Mask::M0), 0x5412);
    assert_eq!(format_info(ECL::High, Mask::M0), 0x1689);
    assert_eq!(format_info(ECL::High, Mask::M7), 0x083B);
}

#[test]
fn field_tables_invert_each_other() {
    let exp = exp_table();
    let log = log_table();
    assert_eq!(exp.len(), 255);
    assert_eq!(log.len(), 256);
    assert_eq!(exp[0], 1);
    assert_eq!(exp[1], 2);
    assert_eq!(exp[8], 29);
    for i in 0..255usize {
        assert_eq!(log[exp[i] as usize] as usize, i);
    }
    let mut seen = [false; 256];
    for i in 0..255usize {
        assert!(!seen[exp[i] as usize]);
        seen[exp[i] as usize] = true;
    }
    assert!(!seen[0]);
}
