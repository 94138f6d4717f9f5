use fuqr::bit_info::{BitInfo, INFO_REMAINDER};
use fuqr::constants::{gen_polynomials, num_blocks, num_data_modules, num_ec_codewords};
use fuqr::data::Data;
use fuqr::error_correction::{ecc_and_sequence, remainder};
use fuqr::matrix::{Module, DATA};
use fuqr::qart::WeightPixel;
use fuqr::qr_code::{Mask, Mode, Version, ECL};
use fuqr::{generate_qart, mask_fn, QartError, QrOptions};

fn layout(v: u8, ecl: ECL) -> (usize, usize, usize, usize, usize, usize) {
    let modules = num_data_modules(v) as usize;
    let codewords = modules / 8;
    let ec = num_ec_codewords(v, ecl) as usize;
    let dc = codewords - ec;
    let blocks = num_blocks(v, ecl) as usize;
    let g2 = codewords % blocks;
    (codewords, ec, dc, blocks, blocks - g2, ec / blocks)
}

fn deinterleave(seq: &[u8], v: u8, ecl: ECL) -> Vec<Vec<u8>> {
    let (codewords, _ec, dc, blocks, g1, ecpb) = layout(v, ecl);
    let dpg1 = dc / blocks;
    let mut out: Vec<Vec<u8>> = (0..blocks)
        .map(|_bi| Vec::with_capacity(dpg1 + 1 + ecpb))
        .collect();
    for p in 0..dc {
        let col = p / blocks;
        let row = p % blocks;
        if col < dpg1 {
            out[row].push(seq[p]);
        } else {
            out[g1 + row].push(seq[p]);
        }
    }
    for e in 0..(codewords - dc) {
        let row = e % blocks;
        out[row].push(seq[dc + e]);
    }
    out
}

#[test]
fn interleaved_blocks_carry_their_remainder() {
    for (text, v, ecl) in [
        ("HELLO WORLD", 1u8, ECL::Low),
        ("BLOCKS AND MORE BLOCKS AND EVEN MORE BLOCKS", 5, ECL::Quartile),
    ] {
        let data = Data::new(text, Mode::Alphanumeric, Version::new(v), ecl).unwrap();
        assert_eq!(data.version, Version::new(v));
        let ecl = data.ecl;
        let seq = ecc_and_sequence(data);
        let modules = num_data_modules(v) as usize;
        assert_eq!(seq.len(), modules / 8 + (modules % 8 + 7) / 8);
        let (_cw, _ec, dc, blocks, g1, ecpb) = layout(v, ecl);
        let dpg1 = dc / blocks;
        let polys = gen_polynomials();
        let generator = &polys[ecpb][..ecpb];
        for (bi, block) in deinterleave(&seq, v, ecl).iter().enumerate() {
            let dlen = dpg1 + if bi >= g1 { 1 } else { 0 };
            assert_eq!(block.len(), dlen + ecpb);
            let ec = remainder(&block[..dlen], generator);
            assert_eq!(&block[dlen..], &ec[..]);
        }
    }
}

#[test]
fn remainder_of_known_vector() {
    // The classic check vector: the remainder of the HELLO WORLD data
    // codewords of a version 1 Medium symbol under the ten-term generator.
    let data: [u8; 16] = [
        32, 91, 11, 120, 209, 114, 220, 77, 67, 64, 236, 17, 236, 17, 236, 17,
    ];
    let polys = gen_polynomials();
    let generator = &polys[10][..10];
    let ec = remainder(&data, generator);
    assert_eq!(ec, vec![196, 35, 39, 119, 235, 215, 231, 226, 93, 23]);
}

#[test]
fn qart_blocks_stay_valid_codewords() {
    let weights = vec![WeightPixel::new(true, 64); 21 * 21];
    let options = QrOptions::new().mask(Some(Mask::M2));
    let qr = generate_qart("QART", &options, &weights).unwrap();
    assert_eq!(qr.version, Version::new(1));
    let w = qr.matrix.width;
    let info = BitInfo::new(qr.mode, qr.version, qr.ecl, qr.mask);
    let (_cw, _ec, dc, blocks, g1, ecpb) = layout(1, qr.ecl);
    let dpg1 = dc / blocks;
    let mut bits: Vec<Vec<bool>> = (0..blocks)
        .map(|bi| vec![false; 8 * (dpg1 + if bi >= g1 { 1 } else { 0 } + ecpb)])
        .collect();
    for y in 0..w {
        for x in 0..w {
            let cell = info.get(x, y);
            if cell.module.has(Module(DATA)) && cell.module != Module(INFO_REMAINDER) {
                let on = qr.matrix.get(x, y).has(Module(fuqr::matrix::ON));
                let unmasked = on != mask_fn(qr.mask, x as u16, y as u16);
                bits[cell.block as usize][cell.bit as usize] = unmasked;
            }
        }
    }
    let polys = gen_polynomials();
    let generator = &polys[ecpb][..ecpb];
    for (bi, block_bits) in bits.iter().enumerate() {
        let dlen = dpg1 + if bi >= g1 { 1 } else { 0 };
        let mut bytes = vec![0u8; dlen + ecpb];
        for (i, b) in block_bits.iter().enumerate() {
            if *b {
                bytes[i / 8] |= 1 << (7 - i % 8);
            }
        }
        let ec = remainder(&bytes[..dlen], generator);
        assert_eq!(&bytes[dlen..], &ec[..]);
    }
}

#[test]
fn qart_preserves_the_payload_bits() {
    // "QART" in alphanumeric mode: 4 mode bits, 9 count bits, 22 payload
    // bits, then a 4-bit terminator; all of these are hard for the solver.
    let hard_bits = 4 + 9 + 22 + 4;
    let options = QrOptions::new().mask(Some(Mask::M2)).strict_ecl(true);
    let weights = vec![WeightPixel::new(true, 101); 21 * 21];
    let qart = generate_qart("QART", &options, &weights).unwrap();
    let plain = fuqr::generate("QART", &options).unwrap();
    assert_eq!(qart.version, plain.version);
    assert_eq!(qart.ecl, plain.ecl);
    let info = BitInfo::new(qart.mode, qart.version, qart.ecl, qart.mask);
    let w = qart.matrix.width;
    for y in 0..w {
        for x in 0..w {
            let cell = info.get(x, y);
            if cell.module.has(Module(DATA))
                && cell.module != Module(INFO_REMAINDER)
                && (cell.bit as usize) < hard_bits
            {
                assert_eq!(qart.matrix.get(x, y), plain.matrix.get(x, y));
            }
        }
    }
}

#[test]
fn qart_rejects_mismatched_weights() {
    let weights = vec![WeightPixel::new(false, 0); 10];
    assert!(matches!(
        generate_qart("QART", &QrOptions::new(), &weights),
        Err(QartError::InvalidPixelWeights)
    ));
}

#[test]
fn weight_pixel_packs_value_and_weight() {
    let p = WeightPixel::new(true, 127);
    assert!(p.value());
    assert_eq!(p.weight(), 127);
    let q = WeightPixel::new(false, 3);
    assert!(!q.value());
    assert_eq!(q.weight(), 3);
}

#[test]
fn block_counts_match_standard_exceptions() {
    assert_eq!(num_blocks(15, ECL::Medium), 10);
    assert_eq!(num_blocks(19, ECL::Medium), 14);
    assert_eq!(num_blocks(38, ECL::Medium), 45);
    assert_eq!(num_blocks(1, ECL::Low), 1);
    assert_eq!(num_blocks(5, ECL::Quartile), 4);
}
