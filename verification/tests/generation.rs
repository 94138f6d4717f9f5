use fuqr::mask::score;
use fuqr::matrix::{Module, DATA, FORMAT, MODIFIER, ON};
use fuqr::qr_code::{Mask, Mode, QrCode, Version, ECL};
use fuqr::{generate, QrError, QrOptions};

fn masks() -> Vec<Mask> {
    vec![
        Mask::M0,
        Mask::M1,
        Mask::M2,
        Mask::M3,
        Mask::M4,
        Mask::M5,
        Mask::M6,
        Mask::M7,
    ]
}

fn format_positions(w: usize) -> Vec<((usize, usize), (usize, usize))> {
    let mut pairs = Vec::new();
    for i in 0..15usize {
        let primary = if i < 6 {
            (8, i)
        } else if i == 6 {
            (8, 7)
        } else if i == 7 {
            (8, 8)
        } else if i == 8 {
            (7, 8)
        } else {
            (14 - i, 8)
        };
        let copy = if i < 8 {
            (w - 1 - i, 8)
        } else {
            (8, w - 15 + i)
        };
        pairs.push((primary, copy));
    }
    pairs
}

#[test]
fn generation_is_deterministic() {
    let options = QrOptions::new();
    let a = generate("HELLO WORLD 123", &options).unwrap();
    let b = generate("HELLO WORLD 123", &options).unwrap();
    assert_eq!(a.matrix.width, b.matrix.width);
    let w = a.matrix.width;
    for y in 0..w {
        for x in 0..w {
            assert_eq!(a.matrix.get(x, y), b.matrix.get(x, y));
        }
    }
}

#[test]
fn placement_leaves_no_cell_untagged() {
    for v in [1u8, 2, 6, 7, 13, 14, 26, 27, 40] {
        let options = QrOptions::new().min_version(Version::new(v)).mask(Some(Mask::M3));
        let qr = generate("TAGGED", &options).unwrap();
        assert_eq!(qr.version, Version::new(v));
        let w = qr.matrix.width;
        assert_eq!(w, 4 * v as usize + 17);
        let mut untagged = 0usize;
        for y in 0..w {
            for x in 0..w {
                if qr.matrix.get(x, y) == Module(0) {
                    untagged += 1;
                }
            }
        }
        assert_eq!(untagged, 0);
    }
}

#[test]
fn format_copies_agree() {
    for v in [1u8, 7, 21] {
        for mask in masks() {
            let options = QrOptions::new().min_version(Version::new(v)).mask(Some(mask));
            let qr = generate("COPY CHECK", &options).unwrap();
            let w = qr.matrix.width;
            for ((px, py), (cx, cy)) in format_positions(w) {
                let a = qr.matrix.get(px, py);
                let b = qr.matrix.get(cx, cy);
                assert!(a.has(Module(FORMAT)));
                assert!(b.has(Module(FORMAT | MODIFIER)));
                assert_eq!(a.has(Module(ON)), b.has(Module(ON)));
            }
        }
    }
}

#[test]
fn chosen_mask_has_minimal_penalty() {
    let auto = generate("PENALTY 42", &QrOptions::new()).unwrap();
    let auto_score = score(&auto.matrix);
    for mask in masks() {
        let fixed = generate("PENALTY 42", &QrOptions::new().mask(Some(mask))).unwrap();
        assert!(auto_score <= score(&fixed.matrix));
    }
}

#[test]
fn invalid_encoding_is_reported() {
    let options = QrOptions::new().mode(Some(Mode::Numeric));
    assert!(matches!(generate("abc", &options), Err(QrError::InvalidEncoding)));
    let options = QrOptions::new().mode(Some(Mode::Alphanumeric));
    assert!(matches!(generate("lower", &options), Err(QrError::InvalidEncoding)));
}

#[test]
fn exceeding_capacity_is_reported() {
    let long: String = std::iter::repeat('7').take(8000).collect();
    assert!(matches!(
        generate(&long, &QrOptions::new()),
        Err(QrError::ExceedsMaxCapacity)
    ));
    let options = QrOptions::new().strict_version(true);
    let medium: String = std::iter::repeat('A').take(100).collect();
    assert!(matches!(
        generate(&medium, &options),
        Err(QrError::ExceedsMaxCapacity)
    ));
}

#[test]
fn ecl_is_upgraded_unless_strict() {
    let qr = generate("1", &QrOptions::new()).unwrap();
    assert_eq!(qr.ecl, ECL::High);
    let strict = generate("1", &QrOptions::new().strict_ecl(true)).unwrap();
    assert_eq!(strict.ecl, ECL::Low);
}

#[test]
fn version_grows_to_fit() {
    let digits: String = std::iter::repeat('9').take(100).collect();
    let qr = generate(&digits, &QrOptions::new().strict_ecl(true)).unwrap();
    assert!(qr.version.0 > 1);
    assert_eq!(qr.mode, Mode::Numeric);
}

#[test]
fn data_module_count_matches_formula() {
    for v in [1u8, 2, 7, 20, 40] {
        let options = QrOptions::new().min_version(Version::new(v)).mask(Some(Mask::M0));
        let qr = generate("COUNT", &options).unwrap();
        let w = qr.matrix.width;
        let mut data_cells = 0usize;
        for y in 0..w {
            for x in 0..w {
                if qr.matrix.get(x, y).has(Module(DATA)) {
                    data_cells += 1;
                }
            }
        }
        assert_eq!(
            data_cells,
            fuqr::constants::num_data_modules(v) as usize
        );
    }
}

#[test]
fn dark_module_is_always_set() {
    let qr: QrCode = generate("DARK", &QrOptions::new()).unwrap();
    let w = qr.matrix.width;
    assert!(qr.matrix.get(8, w - 8).has(Module(FORMAT | MODIFIER | ON)));
}
