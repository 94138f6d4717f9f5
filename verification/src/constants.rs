use vstd::prelude::*;

use crate::math::{gf_exp, gf_log};
use crate::qr_code::{ecl_index_spec, mask_index_spec, Mask, ECL};
use crate::qr_code::mask_index;

verus! {

/// Count of alignment patterns of a version, with the count of those that
/// overlap the timing pattern.
pub open spec fn alignment_counts_spec(version: int) -> (int, int) {
    if version == 1 {
        (0, 0)
    } else if version <= 6 {
        (1, 0)
    } else if version <= 13 {
        (6, 2)
    } else if version <= 20 {
        (13, 4)
    } else if version <= 27 {
        (22, 6)
    } else if version <= 34 {
        (33, 8)
    } else {
        (46, 10)
    }
}

/// Number of modules left for data and error correction after every fixed
/// pattern is subtracted from the symbol of `version`.
pub open spec fn num_data_modules_spec(version: int) -> int {
    let width = 4 * version + 17;
    let counts = alignment_counts_spec(version);
    width * width - 64 * 3 - 31 - 2 * (width - 16) - counts.0 * 25 + counts.1 * 5 - (
    if version >= 7 {
        36int
    } else {
        0int
    })
}

/// Error-correction codeword counts of the Low level, by version.
pub open spec fn ec_low_spec(version: int) -> int {
    if version == 1 {
        7
    } else if version == 2 {
        10
    } else if version == 3 {
        15
    } else if version == 4 {
        20
    } else if version == 5 {
        26
    } else if version == 6 {
        36
    } else if version == 7 {
        40
    } else if version == 8 {
        48
    } else if version == 9 {
        60
    } else if version == 10 {
        72
    } else if version == 11 {
        80
    } else if version == 12 {
        96
    } else if version == 13 {
        104
    } else if version == 14 {
        120
    } else if version == 15 {
        132
    } else if version == 16 {
        144
    } else if version == 17 {
        168
    } else if version == 18 {
        180
    } else if version == 19 {
        196
    } else if version == 20 {
        224
    } else if version == 21 {
        224
    } else if version == 22 {
        252
    } else if version == 23 {
        270
    } else if version == 24 {
        300
    } else if version == 25 {
        312
    } else if version == 26 {
        336
    } else if version == 27 {
        360
    } else if version == 28 {
        390
    } else if version == 29 {
        420
    } else if version == 30 {
        450
    } else if version == 31 {
        480
    } else if version == 32 {
        510
    } else if version == 33 {
        540
    } else if version == 34 {
        570
    } else if version == 35 {
        570
    } else if version == 36 {
        600
    } else if version == 37 {
        630
    } else if version == 38 {
        660
    } else if version == 39 {
        720
    } else {
        750
    }
}

/// Error-correction codeword counts of the Medium level, by version.
pub open spec fn ec_medium_spec(version: int) -> int {
    if version == 1 {
        10
    } else if version == 2 {
        16
    } else if version == 3 {
        26
    } else if version == 4 {
        36
    } else if version == 5 {
        48
    } else if version == 6 {
        64
    } else if version == 7 {
        72
    } else if version == 8 {
        88
    } else if version == 9 {
        110
    } else if version == 10 {
        130
    } else if version == 11 {
        150
    } else if version == 12 {
        176
    } else if version == 13 {
        198
    } else if version == 14 {
        216
    } else if version == 15 {
        240
    } else if version == 16 {
        280
    } else if version == 17 {
        308
    } else if version == 18 {
        338
    } else if version == 19 {
        364
    } else if version == 20 {
        416
    } else if version == 21 {
        442
    } else if version == 22 {
        476
    } else if version == 23 {
        504
    } else if version == 24 {
        560
    } else if version == 25 {
        588
    } else if version == 26 {
        644
    } else if version == 27 {
        700
    } else if version == 28 {
        728
    } else if version == 29 {
        784
    } else if version == 30 {
        812
    } else if version == 31 {
        868
    } else if version == 32 {
        924
    } else if version == 33 {
        980
    } else if version == 34 {
        1036
    } else if version == 35 {
        1064
    } else if version == 36 {
        1120
    } else if version == 37 {
        1204
    } else if version == 38 {
        1260
    } else if version == 39 {
        1316
    } else {
        1372
    }
}

/// Error-correction codeword counts of the Quartile level, by version.
pub open spec fn ec_quartile_spec(version: int) -> int {
    if version == 1 {
        13
    } else if version == 2 {
        22
    } else if version == 3 {
        36
    } else if version == 4 {
        52
    } else if version == 5 {
        72
    } else if version == 6 {
        96
    } else if version == 7 {
        108
    } else if version == 8 {
        132
    } else if version == 9 {
        160
    } else if version == 10 {
        192
    } else if version == 11 {
        224
    } else if version == 12 {
        260
    } else if version == 13 {
        288
    } else if version == 14 {
        320
    } else if version == 15 {
        360
    } else if version == 16 {
        408
    } else if version == 17 {
        448
    } else if version == 18 {
        504
    } else if version == 19 {
        546
    } else if version == 20 {
        600
    } else if version == 21 {
        644
    } else if version == 22 {
        690
    } else if version == 23 {
        750
    } else if version == 24 {
        810
    } else if version == 25 {
        870
    } else if version == 26 {
        952
    } else if version == 27 {
        1020
    } else if version == 28 {
        1050
    } else if version == 29 {
        1140
    } else if version == 30 {
        1200
    } else if version == 31 {
        1290
    } else if version == 32 {
        1350
    } else if version == 33 {
        1440
    } else if version == 34 {
        1530
    } else if version == 35 {
        1590
    } else if version == 36 {
        1680
    } else if version == 37 {
        1770
    } else if version == 38 {
        1860
    } else if version == 39 {
        1950
    } else {
        2040
    }
}

/// Error-correction codeword counts of the High level, by version.
pub open spec fn ec_high_spec(version: int) -> int {
    if version == 1 {
        17
    } else if version == 2 {
        28
    } else if version == 3 {
        44
    } else if version == 4 {
        64
    } else if version == 5 {
        88
    } else if version == 6 {
        112
    } else if version == 7 {
        130
    } else if version == 8 {
        156
    } else if version == 9 {
        192
    } else if version == 10 {
        224
    } else if version == 11 {
        264
    } else if version == 12 {
        308
    } else if version == 13 {
        352
    } else if version == 14 {
        384
    } else if version == 15 {
        432
    } else if version == 16 {
        480
    } else if version == 17 {
        532
    } else if version == 18 {
        588
    } else if version == 19 {
        650
    } else if version == 20 {
        700
    } else if version == 21 {
        750
    } else if version == 22 {
        816
    } else if version == 23 {
        900
    } else if version == 24 {
        960
    } else if version == 25 {
        1050
    } else if version == 26 {
        1110
    } else if version == 27 {
        1200
    } else if version == 28 {
        1260
    } else if version == 29 {
        1350
    } else if version == 30 {
        1440
    } else if version == 31 {
        1530
    } else if version == 32 {
        1620
    } else if version == 33 {
        1710
    } else if version == 34 {
        1800
    } else if version == 35 {
        1890
    } else if version == 36 {
        1980
    } else if version == 37 {
        2100
    } else if version == 38 {
        2220
    } else if version == 39 {
        2310
    } else {
        2430
    }
}

/// Error-correction codeword count of a (version, level) pair.
pub open spec fn num_ec_codewords_spec(version: int, ecl: ECL) -> int {
    match ecl {
        ECL::Low => ec_low_spec(version),
        ECL::Medium => ec_medium_spec(version),
        ECL::Quartile => ec_quartile_spec(version),
        ECL::High => ec_high_spec(version),
    }
}

/// The largest per-block correctable count in [8, `per`] that divides
/// `correctable` evenly decides the block count; three is rerouted to four.
pub open spec fn blocks_search_spec(correctable: int, per: int) -> int
    decreases per,
{
    if per < 8 {
        0
    } else if correctable % per == 0 {
        if correctable / per == 3 {
            4
        } else {
            correctable / per
        }
    } else {
        blocks_search_spec(correctable, per - 1)
    }
}

/// Number of Reed-Solomon blocks of a (version, level) pair: one block while
/// at most 15 errors are correctable, else derived from the per-block
/// correctable rule, with three fixed exceptions at Medium level.
pub open spec fn num_blocks_spec(version: int, ecl: ECL) -> int {
    if ecl == ECL::Medium && version == 15 {
        10
    } else if ecl == ECL::Medium && version == 19 {
        14
    } else if ecl == ECL::Medium && version == 38 {
        45
    } else {
        let correctable = num_ec_codewords_spec(version, ecl) / 2;
        if correctable <= 15 {
            1
        } else {
            blocks_search_spec(correctable, 15)
        }
    }
}

/// The arithmetic facts about one (version, level) column of the tables that
/// the encoder and the block layout rely on.
pub open spec fn capacity_ok(version: int, ecl: ECL) -> bool {
    let modules = num_data_modules_spec(version);
    let codewords = modules / 8;
    let ec = num_ec_codewords_spec(version, ecl);
    let blocks = num_blocks_spec(version, ecl);
    let data_cw = codewords - ec;
    &&& 208 <= modules <= 29648
    &&& 26 <= codewords <= 3706
    &&& 7 <= ec <= 2430
    &&& ec < codewords
    &&& 9 <= data_cw <= 2956
    &&& 1 <= blocks <= 81
    &&& ec % blocks == 0
    &&& 7 <= ec / blocks <= 30
    &&& 1 <= data_cw / blocks <= 122
    &&& data_cw % blocks == codewords % blocks
    &&& blocks <= data_cw
    &&& modules + 8 <= (4 * version + 17) * (4 * version + 16)
}

/// The capacity facts hold for every version and level of the standard.
pub proof fn lemma_capacity_ok(version: int, ecl: ECL)
    requires
        1 <= version <= 40,
    ensures
        capacity_ok(version, ecl),
{
    if version == 1 {
        lemma_capacity_v1(ecl);
    }
    if version == 2 {
        lemma_capacity_v2(ecl);
    }
    if version == 3 {
        lemma_capacity_v3(ecl);
    }
    if version == 4 {
        lemma_capacity_v4(ecl);
    }
    if version == 5 {
        lemma_capacity_v5(ecl);
    }
    if version == 6 {
        lemma_capacity_v6(ecl);
    }
    if version == 7 {
        lemma_capacity_v7(ecl);
    }
    if version == 8 {
        lemma_capacity_v8(ecl);
    }
    if version == 9 {
        lemma_capacity_v9(ecl);
    }
    if version == 10 {
        lemma_capacity_v10(ecl);
    }
    if version == 11 {
        lemma_capacity_v11(ecl);
    }
    if version == 12 {
        lemma_capacity_v12(ecl);
    }
    if version == 13 {
        lemma_capacity_v13(ecl);
    }
    if version == 14 {
        lemma_capacity_v14(ecl);
    }
    if version == 15 {
        lemma_capacity_v15(ecl);
    }
    if version == 16 {
        lemma_capacity_v16(ecl);
    }
    if version == 17 {
        lemma_capacity_v17(ecl);
    }
    if version == 18 {
        lemma_capacity_v18(ecl);
    }
    if version == 19 {
        lemma_capacity_v19(ecl);
    }
    if version == 20 {
        lemma_capacity_v20(ecl);
    }
    if version == 21 {
        lemma_capacity_v21(ecl);
    }
    if version == 22 {
        lemma_capacity_v22(ecl);
    }
    if version == 23 {
        lemma_capacity_v23(ecl);
    }
    if version == 24 {
        lemma_capacity_v24(ecl);
    }
    if version == 25 {
        lemma_capacity_v25(ecl);
    }
    if version == 26 {
        lemma_capacity_v26(ecl);
    }
    if version == 27 {
        lemma_capacity_v27(ecl);
    }
    if version == 28 {
        lemma_capacity_v28(ecl);
    }
    if version == 29 {
        lemma_capacity_v29(ecl);
    }
    if version == 30 {
        lemma_capacity_v30(ecl);
    }
    if version == 31 {
        lemma_capacity_v31(ecl);
    }
    if version == 32 {
        lemma_capacity_v32(ecl);
    }
    if version == 33 {
        lemma_capacity_v33(ecl);
    }
    if version == 34 {
        lemma_capacity_v34(ecl);
    }
    if version == 35 {
        lemma_capacity_v35(ecl);
    }
    if version == 36 {
        lemma_capacity_v36(ecl);
    }
    if version == 37 {
        lemma_capacity_v37(ecl);
    }
    if version == 38 {
        lemma_capacity_v38(ecl);
    }
    if version == 39 {
        lemma_capacity_v39(ecl);
    }
    if version == 40 {
        lemma_capacity_v40(ecl);
    }
}

proof fn lemma_capacity_v1(ecl: ECL)
    ensures
        capacity_ok(1, ecl),
{
    reveal_with_fuel(blocks_search_spec, 10);
    assert(21int * 21 == 441);
    assert(21int * 20 == 420);
    assert(num_data_modules_spec(1) == 208);
    match ecl {
        ECL::Low => {
            assert(num_ec_codewords_spec(1, ECL::Low) == 7);
            assert(num_blocks_spec(1, ECL::Low) == 1);
            assert(capacity_ok(1, ECL::Low));
        },
        ECL::Medium => {
            assert(num_ec_codewords_spec(1, ECL::Medium) == 10);
            assert(num_blocks_spec(1, ECL::Medium) == 1);
            assert(capacity_ok(1, ECL::Medium));
        },
        ECL::Quartile => {
            assert(num_ec_codewords_spec(1, ECL::Quartile) == 13);
            assert(num_blocks_spec(1, ECL::Quartile) == 1);
            assert(capacity_ok(1, ECL::Quartile));
        },
        ECL::High => {
            assert(num_ec_codewords_spec(1, ECL::High) == 17);
            assert(num_blocks_spec(1, ECL::High) == 1);
            assert(capacity_ok(1, ECL::High));
        },
    }
}

proof fn lemma_capacity_v2(ecl: ECL)
    ensures
        capacity_ok(2, ecl),
{
    reveal_with_fuel(blocks_search_spec, 10);
    assert(25int * 25 == 625);
    assert(25int * 24 == 600);
    assert(num_data_modules_spec(2) == 359);
    match ecl {
        ECL::Low => {
            assert(num_ec_codewords_spec(2, ECL::Low) == 10);
            assert(num_blocks_spec(2, ECL::Low) == 1);
            assert(capacity_ok(2, ECL::Low));
        },
        ECL::Medium => {
            assert(num_ec_codewords_spec(2, ECL::Medium) == 16);
            assert(num_blocks_spec(2, ECL::Medium) == 1);
            assert(capacity_ok(2, ECL::Medium));
        },
        ECL::Quartile => {
            assert(num_ec_codewords_spec(2, ECL::Quartile) == 22);
            assert(num_blocks_spec(2, ECL::Quartile) == 1);
            assert(capacity_ok(2, ECL::Quartile));
        },
        ECL::High => {
            assert(num_ec_codewords_spec(2, ECL::High) == 28);
            assert(num_blocks_spec(2, ECL::High) == 1);
            assert(capacity_ok(2, ECL::High));
        },
    }
}

proof fn lemma_capacity_v3(ecl: ECL)
    ensures
        capacity_ok(3, ecl),
{
    reveal_with_fuel(blocks_search_spec, 10);
    assert(29int * 29 == 841);
    assert(29int * 28 == 812);
    assert(num_data_modules_spec(3) == 567);
    match ecl {
        ECL::Low => {
            assert(num_ec_codewords_spec(3, ECL::Low) == 15);
            assert(num_blocks_spec(3, ECL::Low) == 1);
            assert(capacity_ok(3, ECL::Low));
        },
        ECL::Medium => {
            assert(num_ec_codewords_spec(3, ECL::Medium) == 26);
            assert(num_blocks_spec(3, ECL::Medium) == 1);
            assert(capacity_ok(3, ECL::Medium));
        },
        ECL::Quartile => {
            assert(num_ec_codewords_spec(3, ECL::Quartile) == 36);
            assert(num_blocks_spec(3, ECL::Quartile) == 2);
            assert(capacity_ok(3, ECL::Quartile));
        },
        ECL::High => {
            assert(num_ec_codewords_spec(3, ECL::High) == 44);
            assert(num_blocks_spec(3, ECL::High) == 2);
            assert(capacity_ok(3, ECL::High));
        },
    }
}

proof fn lemma_capacity_v4(ecl: ECL)
    ensures
        capacity_ok(4, ecl),
{
    reveal_with_fuel(blocks_search_spec, 10);
    assert(33int * 33 == 1089);
    assert(33int * 32 == 1056);
    assert(num_data_modules_spec(4) == 807);
    match ecl {
        ECL::Low => {
            assert(num_ec_codewords_spec(4, ECL::Low) == 20);
            assert(num_blocks_spec(4, ECL::Low) == 1);
            assert(capacity_ok(4, ECL::Low));
        },
        ECL::Medium => {
            assert(num_ec_codewords_spec(4, ECL::Medium) == 36);
            assert(num_blocks_spec(4, ECL::Medium) == 2);
            assert(capacity_ok(4, ECL::Medium));
        },
        ECL::Quartile => {
            assert(num_ec_codewords_spec(4, ECL::Quartile) == 52);
            assert(num_blocks_spec(4, ECL::Quartile) == 2);
            assert(capacity_ok(4, ECL::Quartile));
        },
        ECL::High => {
            assert(num_ec_codewords_spec(4, ECL::High) == 64);
            assert(num_blocks_spec(4, ECL::High) == 4);
            assert(capacity_ok(4, ECL::High));
        },
    }
}

proof fn lemma_capacity_v5(ecl: ECL)
    ensures
        capacity_ok(5, ecl),
{
    reveal_with_fuel(blocks_search_spec, 10);
    assert(37int * 37 == 1369);
    assert(37int * 36 == 1332);
    assert(num_data_modules_spec(5) == 1079);
    match ecl {
        ECL::Low => {
            assert(num_ec_codewords_spec(5, ECL::Low) == 26);
            assert(num_blocks_spec(5, ECL::Low) == 1);
            assert(capacity_ok(5, ECL::Low));
        },
        ECL::Medium => {
            assert(num_ec_codewords_spec(5, ECL::Medium) == 48);
            assert(num_blocks_spec(5, ECL::Medium) == 2);
            assert(capacity_ok(5, ECL::Medium));
        },
        ECL::Quartile => {
            assert(num_ec_codewords_spec(5, ECL::Quartile) == 72);
            assert(num_blocks_spec(5, ECL::Quartile) == 4);
            assert(capacity_ok(5, ECL::Quartile));
        },
        ECL::High => {
            assert(num_ec_codewords_spec(5, ECL::High) == 88);
            assert(num_blocks_spec(5, ECL::High) == 4);
            assert(capacity_ok(5, ECL::High));
        },
    }
}

proof fn lemma_capacity_v6(ecl: ECL)
    ensures
        capacity_ok(6, ecl),
{
    reveal_with_fuel(blocks_search_spec, 10);
    assert(41int * 41 == 1681);
    assert(41int * 40 == 1640);
    assert(num_data_modules_spec(6) == 1383);
    match ecl {
        ECL::Low => {
            assert(num_ec_codewords_spec(6, ECL::Low) == 36);
            assert(num_blocks_spec(6, ECL::Low) == 2);
            assert(capacity_ok(6, ECL::Low));
        },
        ECL::Medium => {
            assert(num_ec_codewords_spec(6, ECL::Medium) == 64);
            assert(num_blocks_spec(6, ECL::Medium) == 4);
            assert(capacity_ok(6, ECL::Medium));
        },
        ECL::Quartile => {
            assert(num_ec_codewords_spec(6, ECL::Quartile) == 96);
            assert(num_blocks_spec(6, ECL::Quartile) == 4);
            assert(capacity_ok(6, ECL::Quartile));
        },
        ECL::High => {
            assert(num_ec_codewords_spec(6, ECL::High) == 112);
            assert(num_blocks_spec(6, ECL::High) == 4);
            assert(capacity_ok(6, ECL::High));
        },
    }
}

proof fn lemma_capacity_v7(ecl: ECL)
    ensures
        capacity_ok(7, ecl),
{
    reveal_with_fuel(blocks_search_spec, 10);
    assert(45int * 45 == 2025);
    assert(45int * 44 == 1980);
    assert(num_data_modules_spec(7) == 1568);
    match ecl {
        ECL::Low => {
            assert(num_ec_codewords_spec(7, ECL::Low) == 40);
            assert(num_blocks_spec(7, ECL::Low) == 2);
            assert(capacity_ok(7, ECL::Low));
        },
        ECL::Medium => {
            assert(num_ec_codewords_spec(7, ECL::Medium) == 72);
            assert(num_blocks_spec(7, ECL::Medium) == 4);
            assert(capacity_ok(7, ECL::Medium));
        },
        ECL::Quartile => {
            assert(num_ec_codewords_spec(7, ECL::Quartile) == 108);
            assert(num_blocks_spec(7, ECL::Quartile) == 6);
            assert(capacity_ok(7, ECL::Quartile));
        },
        ECL::High => {
            assert(num_ec_codewords_spec(7, ECL::High) == 130);
            assert(num_blocks_spec(7, ECL::High) == 5);
            assert(capacity_ok(7, ECL::High));
        },
    }
}

proof fn lemma_capacity_v8(ecl: ECL)
    ensures
        capacity_ok(8, ecl),
{
    reveal_with_fuel(blocks_search_spec, 10);
    assert(49int * 49 == 2401);
    assert(49int * 48 == 2352);
    assert(num_data_modules_spec(8) == 1936);
    match ecl {
        ECL::Low => {
            assert(num_ec_codewords_spec(8, ECL::Low) == 48);
            assert(num_blocks_spec(8, ECL::Low) == 2);
            assert(capacity_ok(8, ECL::Low));
        },
        ECL::Medium => {
            assert(num_ec_codewords_spec(8, ECL::Medium) == 88);
            assert(num_blocks_spec(8, ECL::Medium) == 4);
            assert(capacity_ok(8, ECL::Medium));
        },
        ECL::Quartile => {
            assert(num_ec_codewords_spec(8, ECL::Quartile) == 132);
            assert(num_blocks_spec(8, ECL::Quartile) == 6);
            assert(capacity_ok(8, ECL::Quartile));
        },
        ECL::High => {
            assert(num_ec_codewords_spec(8, ECL::High) == 156);
            assert(num_blocks_spec(8, ECL::High) == 6);
            assert(capacity_ok(8, ECL::High));
        },
    }
}

proof fn lemma_capacity_v9(ecl: ECL)
    ensures
        capacity_ok(9, ecl),
{
    reveal_with_fuel(blocks_search_spec, 10);
    assert(53int * 53 == 2809);
    assert(53int * 52 == 2756);
    assert(num_data_modules_spec(9) == 2336);
    match ecl {
        ECL::Low => {
            assert(num_ec_codewords_spec(9, ECL::Low) == 60);
            assert(num_blocks_spec(9, ECL::Low) == 2);
            assert(capacity_ok(9, ECL::Low));
        },
        ECL::Medium => {
            assert(num_ec_codewords_spec(9, ECL::Medium) == 110);
            assert(num_blocks_spec(9, ECL::Medium) == 5);
            assert(capacity_ok(9, ECL::Medium));
        },
        ECL::Quartile => {
            assert(num_ec_codewords_spec(9, ECL::Quartile) == 160);
            assert(num_blocks_spec(9, ECL::Quartile) == 8);
            assert(capacity_ok(9, ECL::Quartile));
        },
        ECL::High => {
            assert(num_ec_codewords_spec(9, ECL::High) == 192);
            assert(num_blocks_spec(9, ECL::High) == 8);
            assert(capacity_ok(9, ECL::High));
        },
    }
}

proof fn lemma_capacity_v10(ecl: ECL)
    ensures
        capacity_ok(10, ecl),
{
    reveal_with_fuel(blocks_search_spec, 10);
    assert(57int * 57 == 3249);
    assert(57int * 56 == 3192);
    assert(num_data_modules_spec(10) == 2768);
    match ecl {
        ECL::Low => {
            assert(num_ec_codewords_spec(10, ECL::Low) == 72);
            assert(num_blocks_spec(10, ECL::Low) == 4);
            assert(capacity_ok(10, ECL::Low));
        },
        ECL::Medium => {
            assert(num_ec_codewords_spec(10, ECL::Medium) == 130);
            assert(num_blocks_spec(10, ECL::Medium) == 5);
            assert(capacity_ok(10, ECL::Medium));
        },
        ECL::Quartile => {
            assert(num_ec_codewords_spec(10, ECL::Quartile) == 192);
            assert(num_blocks_spec(10, ECL::Quartile) == 8);
            assert(capacity_ok(10, ECL::Quartile));
        },
        ECL::High => {
            assert(num_ec_codewords_spec(10, ECL::High) == 224);
            assert(num_blocks_spec(10, ECL::High) == 8);
            assert(capacity_ok(10, ECL::High));
        },
    }
}

proof fn lemma_capacity_v11(ecl: ECL)
    ensures
        capacity_ok(11, ecl),
{
    reveal_with_fuel(blocks_search_spec, 10);
    assert(61int * 61 == 3721);
    assert(61int * 60 == 3660);
    assert(num_data_modules_spec(11) == 3232);
    match ecl {
        ECL::Low => {
            assert(num_ec_codewords_spec(11, ECL::Low) == 80);
            assert(num_blocks_spec(11, ECL::Low) == 4);
            assert(capacity_ok(11, ECL::Low));
        },
        ECL::Medium => {
            assert(num_ec_codewords_spec(11, ECL::Medium) == 150);
            assert(num_blocks_spec(11, ECL::Medium) == 5);
            assert(capacity_ok(11, ECL::Medium));
        },
        ECL::Quartile => {
            assert(num_ec_codewords_spec(11, ECL::Quartile) == 224);
            assert(num_blocks_spec(11, ECL::Quartile) == 8);
            assert(capacity_ok(11, ECL::Quartile));
        },
        ECL::High => {
            assert(num_ec_codewords_spec(11, ECL::High) == 264);
            assert(num_blocks_spec(11, ECL::High) == 11);
            assert(capacity_ok(11, ECL::High));
        },
    }
}

proof fn lemma_capacity_v12(ecl: ECL)
    ensures
        capacity_ok(12, ecl),
{
    reveal_with_fuel(blocks_search_spec, 10);
    assert(65int * 65 == 4225);
    assert(65int * 64 == 4160);
    assert(num_data_modules_spec(12) == 3728);
    match ecl {
        ECL::Low => {
            assert(num_ec_codewords_spec(12, ECL::Low) == 96);
            assert(num_blocks_spec(12, ECL::Low) == 4);
            assert(capacity_ok(12, ECL::Low));
        },
        ECL::Medium => {
            assert(num_ec_codewords_spec(12, ECL::Medium) == 176);
            assert(num_blocks_spec(12, ECL::Medium) == 8);
            assert(capacity_ok(12, ECL::Medium));
        },
        ECL::Quartile => {
            assert(num_ec_codewords_spec(12, ECL::Quartile) == 260);
            assert(num_blocks_spec(12, ECL::Quartile) == 10);
            assert(capacity_ok(12, ECL::Quartile));
        },
        ECL::High => {
            assert(num_ec_codewords_spec(12, ECL::High) == 308);
            assert(num_blocks_spec(12, ECL::High) == 11);
            assert(capacity_ok(12, ECL::High));
        },
    }
}

proof fn lemma_capacity_v13(ecl: ECL)
    ensures
        capacity_ok(13, ecl),
{
    reveal_with_fuel(blocks_search_spec, 10);
    assert(69int * 69 == 4761);
    assert(69int * 68 == 4692);
    assert(num_data_modules_spec(13) == 4256);
    match ecl {
        ECL::Low => {
            assert(num_ec_codewords_spec(13, ECL::Low) == 104);
            assert(num_blocks_spec(13, ECL::Low) == 4);
            assert(capacity_ok(13, ECL::Low));
        },
        ECL::Medium => {
            assert(num_ec_codewords_spec(13, ECL::Medium) == 198);
            assert(num_blocks_spec(13, ECL::Medium) == 9);
            assert(capacity_ok(13, ECL::Medium));
        },
        ECL::Quartile => {
            assert(num_ec_codewords_spec(13, ECL::Quartile) == 288);
            assert(num_blocks_spec(13, ECL::Quartile) == 12);
            assert(capacity_ok(13, ECL::Quartile));
        },
        ECL::High => {
            assert(num_ec_codewords_spec(13, ECL::High) == 352);
            assert(num_blocks_spec(13, ECL::High) == 16);
            assert(capacity_ok(13, ECL::High));
        },
    }
}

proof fn lemma_capacity_v14(ecl: ECL)
    ensures
        capacity_ok(14, ecl),
{
    reveal_with_fuel(blocks_search_spec, 10);
    assert(73int * 73 == 5329);
    assert(73int * 72 == 5256);
    assert(num_data_modules_spec(14) == 4651);
    match ecl {
        ECL::Low => {
            assert(num_ec_codewords_spec(14, ECL::Low) == 120);
            assert(num_blocks_spec(14, ECL::Low) == 4);
            assert(capacity_ok(14, ECL::Low));
        },
        ECL::Medium => {
            assert(num_ec_codewords_spec(14, ECL::Medium) == 216);
            assert(num_blocks_spec(14, ECL::Medium) == 9);
            assert(capacity_ok(14, ECL::Medium));
        },
        ECL::Quartile => {
            assert(num_ec_codewords_spec(14, ECL::Quartile) == 320);
            assert(num_blocks_spec(14, ECL::Quartile) == 16);
            assert(capacity_ok(14, ECL::Quartile));
        },
        ECL::High => {
            assert(num_ec_codewords_spec(14, ECL::High) == 384);
            assert(num_blocks_spec(14, ECL::High) == 16);
            assert(capacity_ok(14, ECL::High));
        },
    }
}

proof fn lemma_capacity_v15(ecl: ECL)
    ensures
        capacity_ok(15, ecl),
{
    reveal_with_fuel(blocks_search_spec, 10);
    assert(77int * 77 == 5929);
    assert(77int * 76 == 5852);
    assert(num_data_modules_spec(15) == 5243);
    match ecl {
        ECL::Low => {
            assert(num_ec_codewords_spec(15, ECL::Low) == 132);
            assert(num_blocks_spec(15, ECL::Low) == 6);
            assert(capacity_ok(15, ECL::Low));
        },
        ECL::Medium => {
            assert(num_ec_codewords_spec(15, ECL::Medium) == 240);
            assert(num_blocks_spec(15, ECL::Medium) == 10);
            assert(capacity_ok(15, ECL::Medium));
        },
        ECL::Quartile => {
            assert(num_ec_codewords_spec(15, ECL::Quartile) == 360);
            assert(num_blocks_spec(15, ECL::Quartile) == 12);
            assert(capacity_ok(15, ECL::Quartile));
        },
        ECL::High => {
            assert(num_ec_codewords_spec(15, ECL::High) == 432);
            assert(num_blocks_spec(15, ECL::High) == 18);
            assert(capacity_ok(15, ECL::High));
        },
    }
}

proof fn lemma_capacity_v16(ecl: ECL)
    ensures
        capacity_ok(16, ecl),
{
    reveal_with_fuel(blocks_search_spec, 10);
    assert(81int * 81 == 6561);
    assert(81int * 80 == 6480);
    assert(num_data_modules_spec(16) == 5867);
    match ecl {
        ECL::Low => {
            assert(num_ec_codewords_spec(16, ECL::Low) == 144);
            assert(num_blocks_spec(16, ECL::Low) == 6);
            assert(capacity_ok(16, ECL::Low));
        },
        ECL::Medium => {
            assert(num_ec_codewords_spec(16, ECL::Medium) == 280);
            assert(num_blocks_spec(16, ECL::Medium) == 10);
            assert(capacity_ok(16, ECL::Medium));
        },
        ECL::Quartile => {
            assert(num_ec_codewords_spec(16, ECL::Quartile) == 408);
            assert(num_blocks_spec(16, ECL::Quartile) == 17);
            assert(capacity_ok(16, ECL::Quartile));
        },
        ECL::High => {
            assert(num_ec_codewords_spec(16, ECL::High) == 480);
            assert(num_blocks_spec(16, ECL::High) == 16);
            assert(capacity_ok(16, ECL::High));
        },
    }
}

proof fn lemma_capacity_v17(ecl: ECL)
    ensures
        capacity_ok(17, ecl),
{
    reveal_with_fuel(blocks_search_spec, 10);
    assert(85int * 85 == 7225);
    assert(85int * 84 == 7140);
    assert(num_data_modules_spec(17) == 6523);
    match ecl {
        ECL::Low => {
            assert(num_ec_codewords_spec(17, ECL::Low) == 168);
            assert(num_blocks_spec(17, ECL::Low) == 6);
            assert(capacity_ok(17, ECL::Low));
        },
        ECL::Medium => {
            assert(num_ec_codewords_spec(17, ECL::Medium) == 308);
            assert(num_blocks_spec(17, ECL::Medium) == 11);
            assert(capacity_ok(17, ECL::Medium));
        },
        ECL::Quartile => {
            assert(num_ec_codewords_spec(17, ECL::Quartile) == 448);
            assert(num_blocks_spec(17, ECL::Quartile) == 16);
            assert(capacity_ok(17, ECL::Quartile));
        },
        ECL::High => {
            assert(num_ec_codewords_spec(17, ECL::High) == 532);
            assert(num_blocks_spec(17, ECL::High) == 19);
            assert(capacity_ok(17, ECL::High));
        },
    }
}

proof fn lemma_capacity_v18(ecl: ECL)
    ensures
        capacity_ok(18, ecl),
{
    reveal_with_fuel(blocks_search_spec, 10);
    assert(89int * 89 == 7921);
    assert(89int * 88 == 7832);
    assert(num_data_modules_spec(18) == 7211);
    match ecl {
        ECL::Low => {
            assert(num_ec_codewords_spec(18, ECL::Low) == 180);
            assert(num_blocks_spec(18, ECL::Low) == 6);
            assert(capacity_ok(18, ECL::Low));
        },
        ECL::Medium => {
            assert(num_ec_codewords_spec(18, ECL::Medium) == 338);
            assert(num_blocks_spec(18, ECL::Medium) == 13);
            assert(capacity_ok(18, ECL::Medium));
        },
        ECL::Quartile => {
            assert(num_ec_codewords_spec(18, ECL::Quartile) == 504);
            assert(num_blocks_spec(18, ECL::Quartile) == 18);
            assert(capacity_ok(18, ECL::Quartile));
        },
        ECL::High => {
            assert(num_ec_codewords_spec(18, ECL::High) == 588);
            assert(num_blocks_spec(18, ECL::High) == 21);
            assert(capacity_ok(18, ECL::High));
        },
    }
}

proof fn lemma_capacity_v19(ecl: ECL)
    ensures
        capacity_ok(19, ecl),
{
    reveal_with_fuel(blocks_search_spec, 10);
    assert(93int * 93 == 8649);
    assert(93int * 92 == 8556);
    assert(num_data_modules_spec(19) == 7931);
    match ecl {
        ECL::Low => {
            assert(num_ec_codewords_spec(19, ECL::Low) == 196);
            assert(num_blocks_spec(19, ECL::Low) == 7);
            assert(capacity_ok(19, ECL::Low));
        },
        ECL::Medium => {
            assert(num_ec_codewords_spec(19, ECL::Medium) == 364);
            assert(num_blocks_spec(19, ECL::Medium) == 14);
            assert(capacity_ok(19, ECL::Medium));
        },
        ECL::Quartile => {
            assert(num_ec_codewords_spec(19, ECL::Quartile) == 546);
            assert(num_blocks_spec(19, ECL::Quartile) == 21);
            assert(capacity_ok(19, ECL::Quartile));
        },
        ECL::High => {
            assert(num_ec_codewords_spec(19, ECL::High) == 650);
            assert(num_blocks_spec(19, ECL::High) == 25);
            assert(capacity_ok(19, ECL::High));
        },
    }
}

proof fn lemma_capacity_v20(ecl: ECL)
    ensures
        capacity_ok(20, ecl),
{
    reveal_with_fuel(blocks_search_spec, 10);
    assert(97int * 97 == 9409);
    assert(97int * 96 == 9312);
    assert(num_data_modules_spec(20) == 8683);
    match ecl {
        ECL::Low => {
            assert(num_ec_codewords_spec(20, ECL::Low) == 224);
            assert(num_blocks_spec(20, ECL::Low) == 8);
            assert(capacity_ok(20, ECL::Low));
        },
        ECL::Medium => {
            assert(num_ec_codewords_spec(20, ECL::Medium) == 416);
            assert(num_blocks_spec(20, ECL::Medium) == 16);
            assert(capacity_ok(20, ECL::Medium));
        },
        ECL::Quartile => {
            assert(num_ec_codewords_spec(20, ECL::Quartile) == 600);
            assert(num_blocks_spec(20, ECL::Quartile) == 20);
            assert(capacity_ok(20, ECL::Quartile));
        },
        ECL::High => {
            assert(num_ec_codewords_spec(20, ECL::High) == 700);
            assert(num_blocks_spec(20, ECL::High) == 25);
            assert(capacity_ok(20, ECL::High));
        },
    }
}

proof fn lemma_capacity_v21(ecl: ECL)
    ensures
        capacity_ok(21, ecl),
{
    reveal_with_fuel(blocks_search_spec, 10);
    assert(101int * 101 == 10201);
    assert(101int * 100 == 10100);
    assert(num_data_modules_spec(21) == 9252);
    match ecl {
        ECL::Low => {
            assert(num_ec_codewords_spec(21, ECL::Low) == 224);
            assert(num_blocks_spec(21, ECL::Low) == 8);
            assert(capacity_ok(21, ECL::Low));
        },
        ECL::Medium => {
            assert(num_ec_codewords_spec(21, ECL::Medium) == 442);
            assert(num_blocks_spec(21, ECL::Medium) == 17);
            assert(capacity_ok(21, ECL::Medium));
        },
        ECL::Quartile => {
            assert(num_ec_codewords_spec(21, ECL::Quartile) == 644);
            assert(num_blocks_spec(21, ECL::Quartile) == 23);
            assert(capacity_ok(21, ECL::Quartile));
        },
        ECL::High => {
            assert(num_ec_codewords_spec(21, ECL::High) == 750);
            assert(num_blocks_spec(21, ECL::High) == 25);
            assert(capacity_ok(21, ECL::High));
        },
    }
}

proof fn lemma_capacity_v22(ecl: ECL)
    ensures
        capacity_ok(22, ecl),
{
    reveal_with_fuel(blocks_search_spec, 10);
    assert(105int * 105 == 11025);
    assert(105int * 104 == 10920);
    assert(num_data_modules_spec(22) == 10068);
    match ecl {
        ECL::Low => {
            assert(num_ec_codewords_spec(22, ECL::Low) == 252);
            assert(num_blocks_spec(22, ECL::Low) == 9);
            assert(capacity_ok(22, ECL::Low));
        },
        ECL::Medium => {
            assert(num_ec_codewords_spec(22, ECL::Medium) == 476);
            assert(num_blocks_spec(22, ECL::Medium) == 17);
            assert(capacity_ok(22, ECL::Medium));
        },
        ECL::Quartile => {
            assert(num_ec_codewords_spec(22, ECL::Quartile) == 690);
            assert(num_blocks_spec(22, ECL::Quartile) == 23);
            assert(capacity_ok(22, ECL::Quartile));
        },
        ECL::High => {
            assert(num_ec_codewords_spec(22, ECL::High) == 816);
            assert(num_blocks_spec(22, ECL::High) == 34);
            assert(capacity_ok(22, ECL::High));
        },
    }
}

proof fn lemma_capacity_v23(ecl: ECL)
    ensures
        capacity_ok(23, ecl),
{
    reveal_with_fuel(blocks_search_spec, 10);
    assert(109int * 109 == 11881);
    assert(109int * 108 == 11772);
    assert(num_data_modules_spec(23) == 10916);
    match ecl {
        ECL::Low => {
            assert(num_ec_codewords_spec(23, ECL::Low) == 270);
            assert(num_blocks_spec(23, ECL::Low) == 9);
            assert(capacity_ok(23, ECL::Low));
        },
        ECL::Medium => {
            assert(num_ec_codewords_spec(23, ECL::Medium) == 504);
            assert(num_blocks_spec(23, ECL::Medium) == 18);
            assert(capacity_ok(23, ECL::Medium));
        },
        ECL::Quartile => {
            assert(num_ec_codewords_spec(23, ECL::Quartile) == 750);
            assert(num_blocks_spec(23, ECL::Quartile) == 25);
            assert(capacity_ok(23, ECL::Quartile));
        },
        ECL::High => {
            assert(num_ec_codewords_spec(23, ECL::High) == 900);
            assert(num_blocks_spec(23, ECL::High) == 30);
            assert(capacity_ok(23, ECL::High));
        },
    }
}

proof fn lemma_capacity_v24(ecl: ECL)
    ensures
        capacity_ok(24, ecl),
{
    reveal_with_fuel(blocks_search_spec, 10);
    assert(113int * 113 == 12769);
    assert(113int * 112 == 12656);
    assert(num_data_modules_spec(24) == 11796);
    match ecl {
        ECL::Low => {
            assert(num_ec_codewords_spec(24, ECL::Low) == 300);
            assert(num_blocks_spec(24, ECL::Low) == 10);
            assert(capacity_ok(24, ECL::Low));
        },
        ECL::Medium => {
            assert(num_ec_codewords_spec(24, ECL::Medium) == 560);
            assert(num_blocks_spec(24, ECL::Medium) == 20);
            assert(capacity_ok(24, ECL::Medium));
        },
        ECL::Quartile => {
            assert(num_ec_codewords_spec(24, ECL::Quartile) == 810);
            assert(num_blocks_spec(24, ECL::Quartile) == 27);
            assert(capacity_ok(24, ECL::Quartile));
        },
        ECL::High => {
            assert(num_ec_codewords_spec(24, ECL::High) == 960);
            assert(num_blocks_spec(24, ECL::High) == 32);
            assert(capacity_ok(24, ECL::High));
        },
    }
}

proof fn lemma_capacity_v25(ecl: ECL)
    ensures
        capacity_ok(25, ecl),
{
    reveal_with_fuel(blocks_search_spec, 10);
    assert(117int * 117 == 13689);
    assert(117int * 116 == 13572);
    assert(num_data_modules_spec(25) == 12708);
    match ecl {
        ECL::Low => {
            assert(num_ec_codewords_spec(25, ECL::Low) == 312);
            assert(num_blocks_spec(25, ECL::Low) == 12);
            assert(capacity_ok(25, ECL::Low));
        },
        ECL::Medium => {
            assert(num_ec_codewords_spec(25, ECL::Medium) == 588);
            assert(num_blocks_spec(25, ECL::Medium) == 21);
            assert(capacity_ok(25, ECL::Medium));
        },
        ECL::Quartile => {
            assert(num_ec_codewords_spec(25, ECL::Quartile) == 870);
            assert(num_blocks_spec(25, ECL::Quartile) == 29);
            assert(capacity_ok(25, ECL::Quartile));
        },
        ECL::High => {
            assert(num_ec_codewords_spec(25, ECL::High) == 1050);
            assert(num_blocks_spec(25, ECL::High) == 35);
            assert(capacity_ok(25, ECL::High));
        },
    }
}

proof fn lemma_capacity_v26(ecl: ECL)
    ensures
        capacity_ok(26, ecl),
{
    reveal_with_fuel(blocks_search_spec, 10);
    assert(121int * 121 == 14641);
    assert(121int * 120 == 14520);
    assert(num_data_modules_spec(26) == 13652);
    match ecl {
        ECL::Low => {
            assert(num_ec_codewords_spec(26, ECL::Low) == 336);
            assert(num_blocks_spec(26, ECL::Low) == 12);
            assert(capacity_ok(26, ECL::Low));
        },
        ECL::Medium => {
            assert(num_ec_codewords_spec(26, ECL::Medium) == 644);
            assert(num_blocks_spec(26, ECL::Medium) == 23);
            assert(capacity_ok(26, ECL::Medium));
        },
        ECL::Quartile => {
            assert(num_ec_codewords_spec(26, ECL::Quartile) == 952);
            assert(num_blocks_spec(26, ECL::Quartile) == 34);
            assert(capacity_ok(26, ECL::Quartile));
        },
        ECL::High => {
            assert(num_ec_codewords_spec(26, ECL::High) == 1110);
            assert(num_blocks_spec(26, ECL::High) == 37);
            assert(capacity_ok(26, ECL::High));
        },
    }
}

proof fn lemma_capacity_v27(ecl: ECL)
    ensures
        capacity_ok(27, ecl),
{
    reveal_with_fuel(blocks_search_spec, 10);
    assert(125int * 125 == 15625);
    assert(125int * 124 == 15500);
    assert(num_data_modules_spec(27) == 14628);
    match ecl {
        ECL::Low => {
            assert(num_ec_codewords_spec(27, ECL::Low) == 360);
            assert(num_blocks_spec(27, ECL::Low) == 12);
            assert(capacity_ok(27, ECL::Low));
        },
        ECL::Medium => {
            assert(num_ec_codewords_spec(27, ECL::Medium) == 700);
            assert(num_blocks_spec(27, ECL::Medium) == 25);
            assert(capacity_ok(27, ECL::Medium));
        },
        ECL::Quartile => {
            assert(num_ec_codewords_spec(27, ECL::Quartile) == 1020);
            assert(num_blocks_spec(27, ECL::Quartile) == 34);
            assert(capacity_ok(27, ECL::Quartile));
        },
        ECL::High => {
            assert(num_ec_codewords_spec(27, ECL::High) == 1200);
            assert(num_blocks_spec(27, ECL::High) == 40);
            assert(capacity_ok(27, ECL::High));
        },
    }
}

proof fn lemma_capacity_v28(ecl: ECL)
    ensures
        capacity_ok(28, ecl),
{
    reveal_with_fuel(blocks_search_spec, 10);
    assert(129int * 129 == 16641);
    assert(129int * 128 == 16512);
    assert(num_data_modules_spec(28) == 15371);
    match ecl {
        ECL::Low => {
            assert(num_ec_codewords_spec(28, ECL::Low) == 390);
            assert(num_blocks_spec(28, ECL::Low) == 13);
            assert(capacity_ok(28, ECL::Low));
        },
        ECL::Medium => {
            assert(num_ec_codewords_spec(28, ECL::Medium) == 728);
            assert(num_blocks_spec(28, ECL::Medium) == 26);
            assert(capacity_ok(28, ECL::Medium));
        },
        ECL::Quartile => {
            assert(num_ec_codewords_spec(28, ECL::Quartile) == 1050);
            assert(num_blocks_spec(28, ECL::Quartile) == 35);
            assert(capacity_ok(28, ECL::Quartile));
        },
        ECL::High => {
            assert(num_ec_codewords_spec(28, ECL::High) == 1260);
            assert(num_blocks_spec(28, ECL::High) == 42);
            assert(capacity_ok(28, ECL::High));
        },
    }
}

proof fn lemma_capacity_v29(ecl: ECL)
    ensures
        capacity_ok(29, ecl),
{
    reveal_with_fuel(blocks_search_spec, 10);
    assert(133int * 133 == 17689);
    assert(133int * 132 == 17556);
    assert(num_data_modules_spec(29) == 16411);
    match ecl {
        ECL::Low => {
            assert(num_ec_codewords_spec(29, ECL::Low) == 420);
            assert(num_blocks_spec(29, ECL::Low) == 14);
            assert(capacity_ok(29, ECL::Low));
        },
        ECL::Medium => {
            assert(num_ec_codewords_spec(29, ECL::Medium) == 784);
            assert(num_blocks_spec(29, ECL::Medium) == 28);
            assert(capacity_ok(29, ECL::Medium));
        },
        ECL::Quartile => {
            assert(num_ec_codewords_spec(29, ECL::Quartile) == 1140);
            assert(num_blocks_spec(29, ECL::Quartile) == 38);
            assert(capacity_ok(29, ECL::Quartile));
        },
        ECL::High => {
            assert(num_ec_codewords_spec(29, ECL::High) == 1350);
            assert(num_blocks_spec(29, ECL::High) == 45);
            assert(capacity_ok(29, ECL::High));
        },
    }
}

proof fn lemma_capacity_v30(ecl: ECL)
    ensures
        capacity_ok(30, ecl),
{
    reveal_with_fuel(blocks_search_spec, 10);
    assert(137int * 137 == 18769);
    assert(137int * 136 == 18632);
    assert(num_data_modules_spec(30) == 17483);
    match ecl {
        ECL::Low => {
            assert(num_ec_codewords_spec(30, ECL::Low) == 450);
            assert(num_blocks_spec(30, ECL::Low) == 15);
            assert(capacity_ok(30, ECL::Low));
        },
        ECL::Medium => {
            assert(num_ec_codewords_spec(30, ECL::Medium) == 812);
            assert(num_blocks_spec(30, ECL::Medium) == 29);
            assert(capacity_ok(30, ECL::Medium));
        },
        ECL::Quartile => {
            assert(num_ec_codewords_spec(30, ECL::Quartile) == 1200);
            assert(num_blocks_spec(30, ECL::Quartile) == 40);
            assert(capacity_ok(30, ECL::Quartile));
        },
        ECL::High => {
            assert(num_ec_codewords_spec(30, ECL::High) == 1440);
            assert(num_blocks_spec(30, ECL::High) == 48);
            assert(capacity_ok(30, ECL::High));
        },
    }
}

proof fn lemma_capacity_v31(ecl: ECL)
    ensures
        capacity_ok(31, ecl),
{
    reveal_with_fuel(blocks_search_spec, 10);
    assert(141int * 141 == 19881);
    assert(141int * 140 == 19740);
    assert(num_data_modules_spec(31) == 18587);
    match ecl {
        ECL::Low => {
            assert(num_ec_codewords_spec(31, ECL::Low) == 480);
            assert(num_blocks_spec(31, ECL::Low) == 16);
            assert(capacity_ok(31, ECL::Low));
        },
        ECL::Medium => {
            assert(num_ec_codewords_spec(31, ECL::Medium) == 868);
            assert(num_blocks_spec(31, ECL::Medium) == 31);
            assert(capacity_ok(31, ECL::Medium));
        },
        ECL::Quartile => {
            assert(num_ec_codewords_spec(31, ECL::Quartile) == 1290);
            assert(num_blocks_spec(31, ECL::Quartile) == 43);
            assert(capacity_ok(31, ECL::Quartile));
        },
        ECL::High => {
            assert(num_ec_codewords_spec(31, ECL::High) == 1530);
            assert(num_blocks_spec(31, ECL::High) == 51);
            assert(capacity_ok(31, ECL::High));
        },
    }
}

proof fn lemma_capacity_v32(ecl: ECL)
    ensures
        capacity_ok(32, ecl),
{
    reveal_with_fuel(blocks_search_spec, 10);
    assert(145int * 145 == 21025);
    assert(145int * 144 == 20880);
    assert(num_data_modules_spec(32) == 19723);
    match ecl {
        ECL::Low => {
            assert(num_ec_codewords_spec(32, ECL::Low) == 510);
            assert(num_blocks_spec(32, ECL::Low) == 17);
            assert(capacity_ok(32, ECL::Low));
        },
        ECL::Medium => {
            assert(num_ec_codewords_spec(32, ECL::Medium) == 924);
            assert(num_blocks_spec(32, ECL::Medium) == 33);
            assert(capacity_ok(32, ECL::Medium));
        },
        ECL::Quartile => {
            assert(num_ec_codewords_spec(32, ECL::Quartile) == 1350);
            assert(num_blocks_spec(32, ECL::Quartile) == 45);
            assert(capacity_ok(32, ECL::Quartile));
        },
        ECL::High => {
            assert(num_ec_codewords_spec(32, ECL::High) == 1620);
            assert(num_blocks_spec(32, ECL::High) == 54);
            assert(capacity_ok(32, ECL::High));
        },
    }
}

proof fn lemma_capacity_v33(ecl: ECL)
    ensures
        capacity_ok(33, ecl),
{
    reveal_with_fuel(blocks_search_spec, 10);
    assert(149int * 149 == 22201);
    assert(149int * 148 == 22052);
    assert(num_data_modules_spec(33) == 20891);
    match ecl {
        ECL::Low => {
            assert(num_ec_codewords_spec(33, ECL::Low) == 540);
            assert(num_blocks_spec(33, ECL::Low) == 18);
            assert(capacity_ok(33, ECL::Low));
        },
        ECL::Medium => {
            assert(num_ec_codewords_spec(33, ECL::Medium) == 980);
            assert(num_blocks_spec(33, ECL::Medium) == 35);
            assert(capacity_ok(33, ECL::Medium));
        },
        ECL::Quartile => {
            assert(num_ec_codewords_spec(33, ECL::Quartile) == 1440);
            assert(num_blocks_spec(33, ECL::Quartile) == 48);
            assert(capacity_ok(33, ECL::Quartile));
        },
        ECL::High => {
            assert(num_ec_codewords_spec(33, ECL::High) == 1710);
            assert(num_blocks_spec(33, ECL::High) == 57);
            assert(capacity_ok(33, ECL::High));
        },
    }
}

proof fn lemma_capacity_v34(ecl: ECL)
    ensures
        capacity_ok(34, ecl),
{
    reveal_with_fuel(blocks_search_spec, 10);
    assert(153int * 153 == 23409);
    assert(153int * 152 == 23256);
    assert(num_data_modules_spec(34) == 22091);
    match ecl {
        ECL::Low => {
            assert(num_ec_codewords_spec(34, ECL::Low) == 570);
            assert(num_blocks_spec(34, ECL::Low) == 19);
            assert(capacity_ok(34, ECL::Low));
        },
        ECL::Medium => {
            assert(num_ec_codewords_spec(34, ECL::Medium) == 1036);
            assert(num_blocks_spec(34, ECL::Medium) == 37);
            assert(capacity_ok(34, ECL::Medium));
        },
        ECL::Quartile => {
            assert(num_ec_codewords_spec(34, ECL::Quartile) == 1530);
            assert(num_blocks_spec(34, ECL::Quartile) == 51);
            assert(capacity_ok(34, ECL::Quartile));
        },
        ECL::High => {
            assert(num_ec_codewords_spec(34, ECL::High) == 1800);
            assert(num_blocks_spec(34, ECL::High) == 60);
            assert(capacity_ok(34, ECL::High));
        },
    }
}

proof fn lemma_capacity_v35(ecl: ECL)
    ensures
        capacity_ok(35, ecl),
{
    reveal_with_fuel(blocks_search_spec, 10);
    assert(157int * 157 == 24649);
    assert(157int * 156 == 24492);
    assert(num_data_modules_spec(35) == 23008);
    match ecl {
        ECL::Low => {
            assert(num_ec_codewords_spec(35, ECL::Low) == 570);
            assert(num_blocks_spec(35, ECL::Low) == 19);
            assert(capacity_ok(35, ECL::Low));
        },
        ECL::Medium => {
            assert(num_ec_codewords_spec(35, ECL::Medium) == 1064);
            assert(num_blocks_spec(35, ECL::Medium) == 38);
            assert(capacity_ok(35, ECL::Medium));
        },
        ECL::Quartile => {
            assert(num_ec_codewords_spec(35, ECL::Quartile) == 1590);
            assert(num_blocks_spec(35, ECL::Quartile) == 53);
            assert(capacity_ok(35, ECL::Quartile));
        },
        ECL::High => {
            assert(num_ec_codewords_spec(35, ECL::High) == 1890);
            assert(num_blocks_spec(35, ECL::High) == 63);
            assert(capacity_ok(35, ECL::High));
        },
    }
}

proof fn lemma_capacity_v36(ecl: ECL)
    ensures
        capacity_ok(36, ecl),
{
    reveal_with_fuel(blocks_search_spec, 10);
    assert(161int * 161 == 25921);
    assert(161int * 160 == 25760);
    assert(num_data_modules_spec(36) == 24272);
    match ecl {
        ECL::Low => {
            assert(num_ec_codewords_spec(36, ECL::Low) == 600);
            assert(num_blocks_spec(36, ECL::Low) == 20);
            assert(capacity_ok(36, ECL::Low));
        },
        ECL::Medium => {
            assert(num_ec_codewords_spec(36, ECL::Medium) == 1120);
            assert(num_blocks_spec(36, ECL::Medium) == 40);
            assert(capacity_ok(36, ECL::Medium));
        },
        ECL::Quartile => {
            assert(num_ec_codewords_spec(36, ECL::Quartile) == 1680);
            assert(num_blocks_spec(36, ECL::Quartile) == 56);
            assert(capacity_ok(36, ECL::Quartile));
        },
        ECL::High => {
            assert(num_ec_codewords_spec(36, ECL::High) == 1980);
            assert(num_blocks_spec(36, ECL::High) == 66);
            assert(capacity_ok(36, ECL::High));
        },
    }
}

proof fn lemma_capacity_v37(ecl: ECL)
    ensures
        capacity_ok(37, ecl),
{
    reveal_with_fuel(blocks_search_spec, 10);
    assert(165int * 165 == 27225);
    assert(165int * 164 == 27060);
    assert(num_data_modules_spec(37) == 25568);
    match ecl {
        ECL::Low => {
            assert(num_ec_codewords_spec(37, ECL::Low) == 630);
            assert(num_blocks_spec(37, ECL::Low) == 21);
            assert(capacity_ok(37, ECL::Low));
        },
        ECL::Medium => {
            assert(num_ec_codewords_spec(37, ECL::Medium) == 1204);
            assert(num_blocks_spec(37, ECL::Medium) == 43);
            assert(capacity_ok(37, ECL::Medium));
        },
        ECL::Quartile => {
            assert(num_ec_codewords_spec(37, ECL::Quartile) == 1770);
            assert(num_blocks_spec(37, ECL::Quartile) == 59);
            assert(capacity_ok(37, ECL::Quartile));
        },
        ECL::High => {
            assert(num_ec_codewords_spec(37, ECL::High) == 2100);
            assert(num_blocks_spec(37, ECL::High) == 70);
            assert(capacity_ok(37, ECL::High));
        },
    }
}

proof fn lemma_capacity_v38(ecl: ECL)
    ensures
        capacity_ok(38, ecl),
{
    reveal_with_fuel(blocks_search_spec, 10);
    assert(169int * 169 == 28561);
    assert(169int * 168 == 28392);
    assert(num_data_modules_spec(38) == 26896);
    match ecl {
        ECL::Low => {
            assert(num_ec_codewords_spec(38, ECL::Low) == 660);
            assert(num_blocks_spec(38, ECL::Low) == 22);
            assert(capacity_ok(38, ECL::Low));
        },
        ECL::Medium => {
            assert(num_ec_codewords_spec(38, ECL::Medium) == 1260);
            assert(num_blocks_spec(38, ECL::Medium) == 45);
            assert(capacity_ok(38, ECL::Medium));
        },
        ECL::Quartile => {
            assert(num_ec_codewords_spec(38, ECL::Quartile) == 1860);
            assert(num_blocks_spec(38, ECL::Quartile) == 62);
            assert(capacity_ok(38, ECL::Quartile));
        },
        ECL::High => {
            assert(num_ec_codewords_spec(38, ECL::High) == 2220);
            assert(num_blocks_spec(38, ECL::High) == 74);
            assert(capacity_ok(38, ECL::High));
        },
    }
}

proof fn lemma_capacity_v39(ecl: ECL)
    ensures
        capacity_ok(39, ecl),
{
    reveal_with_fuel(blocks_search_spec, 10);
    assert(173int * 173 == 29929);
    assert(173int * 172 == 29756);
    assert(num_data_modules_spec(39) == 28256);
    match ecl {
        ECL::Low => {
            assert(num_ec_codewords_spec(39, ECL::Low) == 720);
            assert(num_blocks_spec(39, ECL::Low) == 24);
            assert(capacity_ok(39, ECL::Low));
        },
        ECL::Medium => {
            assert(num_ec_codewords_spec(39, ECL::Medium) == 1316);
            assert(num_blocks_spec(39, ECL::Medium) == 47);
            assert(capacity_ok(39, ECL::Medium));
        },
        ECL::Quartile => {
            assert(num_ec_codewords_spec(39, ECL::Quartile) == 1950);
            assert(num_blocks_spec(39, ECL::Quartile) == 65);
            assert(capacity_ok(39, ECL::Quartile));
        },
        ECL::High => {
            assert(num_ec_codewords_spec(39, ECL::High) == 2310);
            assert(num_blocks_spec(39, ECL::High) == 77);
            assert(capacity_ok(39, ECL::High));
        },
    }
}

proof fn lemma_capacity_v40(ecl: ECL)
    ensures
        capacity_ok(40, ecl),
{
    reveal_with_fuel(blocks_search_spec, 10);
    assert(177int * 177 == 31329);
    assert(177int * 176 == 31152);
    assert(num_data_modules_spec(40) == 29648);
    match ecl {
        ECL::Low => {
            assert(num_ec_codewords_spec(40, ECL::Low) == 750);
            assert(num_blocks_spec(40, ECL::Low) == 25);
            assert(capacity_ok(40, ECL::Low));
        },
        ECL::Medium => {
            assert(num_ec_codewords_spec(40, ECL::Medium) == 1372);
            assert(num_blocks_spec(40, ECL::Medium) == 49);
            assert(capacity_ok(40, ECL::Medium));
        },
        ECL::Quartile => {
            assert(num_ec_codewords_spec(40, ECL::Quartile) == 2040);
            assert(num_blocks_spec(40, ECL::Quartile) == 68);
            assert(capacity_ok(40, ECL::Quartile));
        },
        ECL::High => {
            assert(num_ec_codewords_spec(40, ECL::High) == 2430);
            assert(num_blocks_spec(40, ECL::High) == 81);
            assert(capacity_ok(40, ECL::High));
        },
    }
}

/// Data-and-error module count of `version`; see `num_data_modules_spec`.
pub fn num_data_modules(version: u8) -> (n: u16)
    requires
        1 <= version <= 40,
    ensures
        n as int == num_data_modules_spec(version as int),
{
    proof {
        lemma_capacity_ok(version as int, ECL::Low);
    }
    let width: i32 = 4 * version as i32 + 17;
    proof {
        assert(width * width <= 31329) by (nonlinear_arith)
            requires
                21 <= width <= 177,
        ;
    }
    let mut modules: i32 = width * width;
    modules = modules - 64 * 3 - 31 - 2 * (width - 16);
    let (align, overlap): (i32, i32) = if version == 1 {
        (0, 0)
    } else if version <= 6 {
        (1, 0)
    } else if version <= 13 {
        (6, 2)
    } else if version <= 20 {
        (13, 4)
    } else if version <= 27 {
        (22, 6)
    } else if version <= 34 {
        (33, 8)
    } else {
        (46, 10)
    };
    modules = modules - align * 25 + overlap * 5;
    if version >= 7 {
        modules = modules - 36;
    }
    modules as u16
}

/// Error-correction codeword count; see `num_ec_codewords_spec`.
pub fn num_ec_codewords(version: u8, ecl: ECL) -> (n: u16)
    requires
        1 <= version <= 40,
    ensures
        n as int == num_ec_codewords_spec(version as int, ecl),
{
    match ecl {
        ECL::Low => match version {
            1 => 7,
            2 => 10,
            3 => 15,
            4 => 20,
            5 => 26,
            6 => 36,
            7 => 40,
            8 => 48,
            9 => 60,
            10 => 72,
            11 => 80,
            12 => 96,
            13 => 104,
            14 => 120,
            15 => 132,
            16 => 144,
            17 => 168,
            18 => 180,
            19 => 196,
            20 => 224,
            21 => 224,
            22 => 252,
            23 => 270,
            24 => 300,
            25 => 312,
            26 => 336,
            27 => 360,
            28 => 390,
            29 => 420,
            30 => 450,
            31 => 480,
            32 => 510,
            33 => 540,
            34 => 570,
            35 => 570,
            36 => 600,
            37 => 630,
            38 => 660,
            39 => 720,
            _ => 750,
        },
        ECL::Medium => match version {
            1 => 10,
            2 => 16,
            3 => 26,
            4 => 36,
            5 => 48,
            6 => 64,
            7 => 72,
            8 => 88,
            9 => 110,
            10 => 130,
            11 => 150,
            12 => 176,
            13 => 198,
            14 => 216,
            15 => 240,
            16 => 280,
            17 => 308,
            18 => 338,
            19 => 364,
            20 => 416,
            21 => 442,
            22 => 476,
            23 => 504,
            24 => 560,
            25 => 588,
            26 => 644,
            27 => 700,
            28 => 728,
            29 => 784,
            30 => 812,
            31 => 868,
            32 => 924,
            33 => 980,
            34 => 1036,
            35 => 1064,
            36 => 1120,
            37 => 1204,
            38 => 1260,
            39 => 1316,
            _ => 1372,
        },
        ECL::Quartile => match version {
            1 => 13,
            2 => 22,
            3 => 36,
            4 => 52,
            5 => 72,
            6 => 96,
            7 => 108,
            8 => 132,
            9 => 160,
            10 => 192,
            11 => 224,
            12 => 260,
            13 => 288,
            14 => 320,
            15 => 360,
            16 => 408,
            17 => 448,
            18 => 504,
            19 => 546,
            20 => 600,
            21 => 644,
            22 => 690,
            23 => 750,
            24 => 810,
            25 => 870,
            26 => 952,
            27 => 1020,
            28 => 1050,
            29 => 1140,
            30 => 1200,
            31 => 1290,
            32 => 1350,
            33 => 1440,
            34 => 1530,
            35 => 1590,
            36 => 1680,
            37 => 1770,
            38 => 1860,
            39 => 1950,
            _ => 2040,
        },
        ECL::High => match version {
            1 => 17,
            2 => 28,
            3 => 44,
            4 => 64,
            5 => 88,
            6 => 112,
            7 => 130,
            8 => 156,
            9 => 192,
            10 => 224,
            11 => 264,
            12 => 308,
            13 => 352,
            14 => 384,
            15 => 432,
            16 => 480,
            17 => 532,
            18 => 588,
            19 => 650,
            20 => 700,
            21 => 750,
            22 => 816,
            23 => 900,
            24 => 960,
            25 => 1050,
            26 => 1110,
            27 => 1200,
            28 => 1260,
            29 => 1350,
            30 => 1440,
            31 => 1530,
            32 => 1620,
            33 => 1710,
            34 => 1800,
            35 => 1890,
            36 => 1980,
            37 => 2100,
            38 => 2220,
            39 => 2310,
            _ => 2430,
        },
    }
}

/// Reed-Solomon block count; see `num_blocks_spec`.
pub fn num_blocks(version: u8, ecl: ECL) -> (n: u8)
    requires
        1 <= version <= 40,
    ensures
        n as int == num_blocks_spec(version as int, ecl),
        1 <= n <= 81,
{
    proof {
        lemma_capacity_ok(version as int, ecl);
    }
    if ecl == ECL::Medium && version == 15 {
        return 10;
    }
    if ecl == ECL::Medium && version == 19 {
        return 14;
    }
    if ecl == ECL::Medium && version == 38 {
        return 45;
    }
    let correctable: u16 = num_ec_codewords(version, ecl) / 2;
    if correctable <= 15 {
        return 1;
    }
    let mut per: u16 = 15;
    while per >= 8
        invariant
            7 <= per <= 15,
            correctable > 15,
            1 <= num_blocks_spec(version as int, ecl) <= 81,
            num_blocks_spec(version as int, ecl) == blocks_search_spec(
                correctable as int,
                per as int,
            ),
        decreases per,
    {
        if correctable % per == 0 {
            let blocks: u16 = correctable / per;
            if blocks == 3 {
                return 4;
            }
            return blocks as u8;
        }
        per = per - 1;
    }
    proof {
        assert(blocks_search_spec(correctable as int, 7) == 0);
        assert(false);
    }
    1
}


/// Exponent row of the generator polynomial with `i` error-correction
/// codewords: entry j holds the exponent of the coefficient of degree
/// i - 1 - j, the leading coefficient (always exponent 0) excluded, and
/// entries at j >= i stay 0. Each row multiplies the previous polynomial
/// by (x - alpha^(i-1)).
pub open spec fn gen_poly_row_spec(i: int) -> Seq<u8>
    decreases i,
{
    if i <= 1 {
        Seq::new(30, |j: int| 0u8)
    } else {
        let prev = gen_poly_row_spec(i - 1);
        Seq::new(
            30,
            |j: int|
                if j == i - 1 {
                    ((prev[i - 2] as int + i - 1) % 255) as u8
                } else if j == 0 {
                    gf_log(gf_exp(prev[0] as int) ^ gf_exp(i - 1)) as u8
                } else if j < i - 1 {
                    gf_log(
                        gf_exp(prev[j] as int) ^ gf_exp((prev[j - 1] as int + i - 1) % 255),
                    ) as u8
                } else {
                    0u8
                },
        )
    }
}

/// Every stored exponent is below 255, so it indexes the power table.
pub proof fn lemma_gen_row_bounds(i: int)
    ensures
        forall|j: int| 0 <= j < 30 ==> #[trigger] gen_poly_row_spec(i)[j] < 255,
{
    if i > 1 {
        assert forall|j: int| 0 <= j < 30 implies gen_poly_row_spec(i)[j] < 255 by {
            let prev = gen_poly_row_spec(i - 1);
            if j == i - 1 {
            } else if j == 0 {
                crate::math::lemma_gf_log_bounds(gf_exp(prev[0] as int) ^ gf_exp(i - 1));
            } else if j < i - 1 {
                crate::math::lemma_gf_log_bounds(
                    gf_exp(prev[j] as int) ^ gf_exp((prev[j - 1] as int + i - 1) % 255),
                );
            }
        }
    }
}

fn zero_row() -> (r: Vec<u8>)
    ensures
        r@ =~= Seq::new(30, |j: int| 0u8),
{
    let mut r: Vec<u8> = Vec::new();
    let mut j: usize = 0;
    while j < 30
        invariant
            r.len() == j,
            j <= 30,
            forall|k: int| 0 <= k < j ==> r[k] == 0u8,
        decreases 30 - j,
    {
        r.push(0);
        j += 1;
    }
    r
}

/// Generator polynomials for 2 through 30 error-correction codewords,
/// stored as coefficient exponents; see `gen_poly_row_spec`.
pub fn gen_polynomials() -> (t: Vec<Vec<u8>>)
    ensures
        t.len() == 31,
        forall|i: int| 0 <= i < 31 ==> #[trigger] t[i]@ =~= gen_poly_row_spec(i),
{
    let exp = crate::math::exp_table();
    let log = crate::math::log_table();
    let mut t: Vec<Vec<u8>> = Vec::new();
    t.push(zero_row());
    t.push(zero_row());
    let mut i: usize = 2;
    while i <= 30
        invariant
            2 <= i <= 31,
            t.len() == i,
            forall|k: int| 0 <= k < i ==> #[trigger] t[k]@ =~= gen_poly_row_spec(k),
            exp.len() == 255,
            forall|k: int| 0 <= k < 255 ==> exp[k] == gf_exp(k),
            log.len() == 256,
            forall|v: int| 0 <= v < 256 ==> log[v] == gf_log(v as u8),
        decreases 31 - i,
    {
        proof {
            lemma_gen_row_bounds(i - 1);
        }
        let mut row: Vec<u8> = Vec::new();
        let mut j: usize = 0;
        while j < 30
            invariant
                2 <= i <= 30,
                j <= 30,
                row.len() == j,
                t.len() == i,
                forall|k: int| 0 <= k < i ==> #[trigger] t[k]@ =~= gen_poly_row_spec(k),
                forall|k: int| 0 <= k < 30 ==> #[trigger] gen_poly_row_spec(i - 1)[k] < 255,
                forall|k: int| 0 <= k < j ==> row[k] == gen_poly_row_spec(i as int)[k],
                exp.len() == 255,
                forall|k: int| 0 <= k < 255 ==> exp[k] == gf_exp(k),
                log.len() == 256,
                forall|v: int| 0 <= v < 256 ==> log[v] == gf_log(v as u8),
            decreases 30 - j,
        {
            let val: u8;
            if j == i - 1 {
                val = ((t[i - 1][i - 2] as usize + i - 1) % 255) as u8;
            } else if j == 0 {
                let a = exp[t[i - 1][0] as usize];
                let b = exp[i - 1];
                val = log[(a ^ b) as usize];
            } else if j < i - 1 {
                let a = exp[t[i - 1][j] as usize];
                let e2 = (t[i - 1][j - 1] as usize + i - 1) % 255;
                let b = exp[e2];
                val = log[(a ^ b) as usize];
            } else {
                val = 0;
            }
            assert(val == gen_poly_row_spec(i as int)[j as int]);
            row.push(val);
            j += 1;
        }
        t.push(row);
        i += 1;
    }
    t
}

/// Golay remainder accumulation of the version information word: clears the
/// bits of `d` from `bit` down to 12, folding in the generator 0x1F25 at
/// each set bit.
pub open spec fn golay_rem_spec(d: u32, bit: int) -> u32
    decreases bit,
{
    if bit < 12 {
        d
    } else {
        let next = if d & (1u32 << (bit as u32)) != 0 {
            d ^ (0x1F25u32 << ((bit - 12) as u32))
        } else {
            d
        };
        golay_rem_spec(next, bit - 1)
    }
}

/// The 18-bit version information word: the version in the top 6 bits with
/// its 12-bit Golay remainder below.
pub open spec fn version_information_spec(version: int) -> int {
    let shifted = (version as u32) << 12u32;
    (shifted | golay_rem_spec(shifted, 17)) as int
}

/// Computes the version information word; see `version_information_spec`.
pub fn version_information(version: usize) -> (r: usize)
    requires
        1 <= version <= 40,
    ensures
        r as int == version_information_spec(version as int),
{
    let shifted: u32 = (version as u32) << 12u32;
    let mut dividend: u32 = shifted;
    let mut bit: u32 = 17;
    while bit >= 12
        invariant
            11 <= bit <= 17,
            golay_rem_spec(dividend, bit as int) == golay_rem_spec(shifted, 17),
        decreases bit,
    {
        if dividend & (1u32 << bit) != 0 {
            dividend = dividend ^ (0x1F25u32 << (bit - 12));
        }
        bit = bit - 1;
    }
    (shifted | dividend) as usize
}

/// BCH remainder accumulation of the format information word: clears the
/// bits of `d` from `bit` down to 10, folding in the generator 0x537 at
/// each set bit.
pub open spec fn bch_rem_spec(d: u32, bit: int) -> u32
    decreases bit,
{
    if bit < 10 {
        d
    } else {
        let next = if d & (1u32 << (bit as u32)) != 0 {
            d ^ (0x537u32 << ((bit - 10) as u32))
        } else {
            d
        };
        bch_rem_spec(next, bit - 1)
    }
}

/// The two level-indicator bits of the format word.
pub open spec fn ecl_format_value_spec(ecl: ECL) -> int {
    match ecl {
        ECL::Low => 1,
        ECL::Medium => 0,
        ECL::Quartile => 3,
        ECL::High => 2,
    }
}

/// The 15-bit format information word: level and mask bits, their 10-bit
/// BCH remainder, and the fixed scrambler 0x5412 XORed over the whole.
pub open spec fn format_info_spec(ecl: ECL, mask: Mask) -> int {
    let f = ((ecl_format_value_spec(ecl) * 8 + mask_index_spec(mask)) as u32) << 10u32;
    ((f | bch_rem_spec(f, 14)) ^ 0x5412) as int
}

/// Computes the format information word; see `format_info_spec`.
pub fn format_info(ecl: ECL, mask: Mask) -> (r: u32)
    ensures
        r as int == format_info_spec(ecl, mask),
{
    let value: u32 = match ecl {
        ECL::Low => 1,
        ECL::Medium => 0,
        ECL::Quartile => 3,
        ECL::High => 2,
    };
    let m = mask_index(mask) as u32;
    let f: u32 = (value * 8 + m) << 10u32;
    let mut dividend: u32 = f;
    let mut bit: u32 = 14;
    while bit >= 10
        invariant
            9 <= bit <= 14,
            bch_rem_spec(dividend, bit as int) == bch_rem_spec(f, 14),
        decreases bit,
    {
        if dividend & (1u32 << bit) != 0 {
            dividend = dividend ^ (0x537u32 << (bit - 10));
        }
        bit = bit - 1;
    }
    (f | dividend) ^ 0x5412
}

} // verus!
