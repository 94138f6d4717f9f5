use vstd::prelude::*;

use crate::constants::{num_data_modules, num_data_modules_spec, num_blocks, num_ec_codewords};
use crate::error_correction::{block_data_len_spec, blocks_of, data_per_g1_spec,
    group1_blocks_spec, lemma_div_block};
use crate::matrix::{grid_index, Matrix, Module, DATA, MODIFIER, ON};
use crate::qr_code::{fixed_matrix_spec, Mask, Mode, Version, ECL};

verus! {

/// Phase tag of a data-region cell carrying a message bit.
pub const INFO_DATA: u8 = DATA | ON;

/// Phase tag of a data-region cell carrying an error-correction bit.
pub const INFO_EC: u8 = DATA | MODIFIER;

/// Phase tag of a data-region cell in the trailing remainder-bit slack.
pub const INFO_REMAINDER: u8 = DATA;

/// One cell of the bit-information overlay: the module tag (a phase tag on
/// data cells) and, for data and error-correction cells, the block it
/// belongs to and its bit position within that block's codeword.
#[derive(Clone, Copy, PartialEq, Eq, Structural, Debug)]
pub struct Info {
    pub module: Module,
    pub block: u8,
    pub bit: u16,
}

/// The overlay entry of the `i`-th cell of the data walk: derived from the
/// interleaving equations, it inverts the codeword placement, giving for
/// each walked cell its phase and its (block, in-block bit) position.
pub open spec fn walked_info_spec(version: int, ecl: ECL, i: int) -> Info {
    let b = blocks_of(version, ecl);
    let g1 = group1_blocks_spec(version, ecl);
    let dpg1 = data_per_g1_spec(version, ecl);
    let dc = crate::data::data_codewords_spec(version, ecl);
    let cw = num_data_modules_spec(version) / 8;
    let o = i % 8;
    if i < 8 * dc {
        let byte_i = i / 8;
        let col = byte_i / b;
        let row = byte_i % b;
        let block = if col < dpg1 {
            row
        } else {
            g1 + row
        };
        let in_block = if col < dpg1 {
            col
        } else {
            dpg1
        };
        Info { module: Module(INFO_DATA), block: block as u8, bit: (8 * in_block + o) as u16 }
    } else if i < 8 * cw {
        let e = i / 8 - dc;
        let j = e / b;
        let row = e % b;
        Info {
            module: Module(INFO_EC),
            block: row as u8,
            bit: (8 * (block_data_len_spec(version, ecl, row) + j) + o) as u16,
        }
    } else {
        Info { module: Module(INFO_REMAINDER), block: 0, bit: 0 }
    }
}

/// The overlay cells and walked-bit count after the first `k` steps of the
/// data walk over the fixed patterns of the symbol.
pub open spec fn info_fill_spec(
    s: Seq<Info>,
    w: int,
    version: int,
    ecl: ECL,
    k: int,
) -> (Seq<Info>, int)
    decreases k,
{
    if k <= 0 {
        (s, 0)
    } else {
        let prev = info_fill_spec(s, w, version, ecl, k - 1);
        let idx = grid_index(
            w,
            crate::matrix::walk_x_spec(w, k - 1),
            crate::matrix::walk_y_spec(w, k - 1),
        );
        if 0 <= idx < prev.0.len() && prev.0[idx].module == Module(0) {
            (prev.0.update(idx, walked_info_spec(version, ecl, prev.1)), prev.1 + 1)
        } else {
            prev
        }
    }
}

/// The initial overlay: the fixed patterns of (version, ecl, mask), each
/// cell with no block information yet.
pub open spec fn initial_info_spec(version: int, ecl: ECL, mask: Mask) -> Seq<Info> {
    fixed_matrix_spec(version, ecl, mask).map_values(
        |m: Module| Info { module: m, block: 0, bit: 0 },
    )
}

/// The whole bit-information overlay of a symbol.
pub open spec fn bit_info_cells_spec(version: int, ecl: ECL, mask: Mask) -> Seq<Info> {
    let w = 4 * version + 17;
    info_fill_spec(
        initial_info_spec(version, ecl, mask),
        w,
        version,
        ecl,
        crate::matrix::walk_len_spec(w),
    ).0
}

/// The bit-information overlay: a parallel matrix recording, for every data
/// cell, which codeword bit of which block the placement walk put there.
#[derive(Debug)]
pub struct BitInfo {
    pub width: usize,
    pub infos: Vec<Info>,
    pub mode: Mode,
    pub version: Version,
    pub ecl: ECL,
    pub mask: Mask,
}

impl BitInfo {
    /// The overlay covers the whole symbol of the stated version, and every
    /// data-region entry indexes a real bit of a real block.
    pub open spec fn wf(&self) -> bool {
        &&& 1 <= self.version.0 <= 40
        &&& self.width == 4 * self.version.0 + 17
        &&& self.infos@.len() == self.width * self.width
        &&& forall|idx: int|
            0 <= idx < self.infos@.len() && (#[trigger] self.infos@[idx]).module.has_spec(
                Module(DATA),
            ) && self.infos@[idx].module != Module(INFO_REMAINDER) ==> ({
                let vi = self.version.0 as int;
                &&& self.infos@[idx].block < blocks_of(vi, self.ecl)
                &&& self.infos@[idx].bit < 8 * (block_data_len_spec(
                    vi,
                    self.ecl,
                    self.infos@[idx].block as int,
                ) + crate::error_correction::ec_per_block_spec(vi, self.ecl))
            })
    }

    /// The overlay cell at column `x`, row `y`.
    pub fn get(&self, x: usize, y: usize) -> (r: Info)
        requires
            self.wf(),
            x < self.width,
            y < self.width,
        ensures
            r == self.infos@[grid_index(self.width as int, x as int, y as int)],
    {
        proof {
            crate::matrix::lemma_grid_index_bounds(self.width as int, x as int, y as int);
        }
        self.infos[y * self.width + x]
    }

    /// Builds the overlay of (mode, version, ecl, mask): the fixed patterns
    /// are placed and the data walk tags every remaining cell with its
    /// phase and (block, bit) position; see `bit_info_cells_spec`.
    pub fn new(mode: Mode, version: Version, ecl: ECL, mask: Mask) -> (r: BitInfo)
        requires
            1 <= version.0 <= 40,
        ensures
            r.wf(),
            r.mode == mode,
            r.version == version,
            r.ecl == ecl,
            r.mask == mask,
            r.infos@ =~= bit_info_cells_spec(version.0 as int, ecl, mask),
    {
        let ghost vi = version.0 as int;
        proof {
            crate::constants::lemma_capacity_ok(vi, ecl);
        }
        let mut matrix = Matrix::new(version, Module(0));
        let w = matrix.width;
        matrix.set_finder();
        matrix.set_alignment();
        matrix.set_timing();
        matrix.set_format(ecl, mask);
        matrix.set_version();
        proof {
            assert(matrix.value@ =~= fixed_matrix_spec(vi, ecl, mask));
        }
        let mut infos: Vec<Info> = Vec::new();
        let total = matrix.value.len();
        let mut i: usize = 0;
        while i < total
            invariant
                matrix.wf(),
                i <= total,
                total == matrix.value@.len(),
                infos@.len() == i,
                forall|k: int|
                    0 <= k < i ==> infos@[k] == (Info {
                        module: matrix.value@[k],
                        block: 0,
                        bit: 0,
                    }),
            decreases total - i,
        {
            let m = matrix.value[i];
            infos.push(Info { module: m, block: 0, bit: 0 });
            i += 1;
        }
        proof {
            assert(infos@ =~= initial_info_spec(vi, ecl, mask));
        }
        let ghost infos0 = infos@;

        let modules = num_data_modules(version.0) as usize;
        let codewords = modules / 8;
        let num_ec = num_ec_codewords(version.0, ecl) as usize;
        let dc = codewords - num_ec;
        let blocks_n = num_blocks(version.0, ecl) as usize;
        let g2 = codewords % blocks_n;
        let g1 = blocks_n - g2;
        let dpg1 = dc / blocks_n;
        proof {
            vstd::arithmetic::div_mod::lemma_fundamental_div_mod(dc as int, blocks_n as int);
            vstd::arithmetic::div_mod::lemma_fundamental_div_mod(codewords as int, blocks_n as int);
            vstd::arithmetic::div_mod::lemma_fundamental_div_mod(num_ec as int, blocks_n as int);
            assert(dc as int == blocks_n as int * dpg1 + g2);
            vstd::arithmetic::mul::lemma_mul_inequality(w as int, 177, w as int - 1);
            vstd::arithmetic::mul::lemma_mul_is_commutative(w as int, w as int - 1);
            vstd::arithmetic::mul::lemma_mul_is_commutative(177, w as int - 1);
            vstd::arithmetic::mul::lemma_mul_nonnegative(w as int, w as int - 1);
        }
        proof {
            lemma_info_flag_facts();
            assert(ec_per_block_spec_bound(vi, ecl));
        }
        let strips = (w - 1) / 2;
        let mut bit_idx: usize = 0;
        let mut strip: usize = 0;
        let ghost k = 0int;
        proof {
            assert(crate::matrix::walk_len_spec(w as int) == 2 * w * ((w as int - 1) / 2)) by {
                vstd::arithmetic::mul::lemma_mul_is_commutative(w as int, w as int - 1);
                vstd::arithmetic::mul::lemma_mul_is_associative(2, w as int, (w as int - 1) / 2);
                vstd::arithmetic::mul::lemma_mul_is_commutative(w as int, (w as int - 1) / 2);
                vstd::arithmetic::mul::lemma_mul_is_associative(w as int, 2, (w as int - 1) / 2);
                assert(2 * ((w as int - 1) / 2) == w as int - 1);
                vstd::arithmetic::mul::lemma_mul_is_distributive_sub(w as int, w as int, 1);
            }
        }
        while strip < strips
            invariant
                strip <= strips,
                w == 4 * version.0 + 17,
                21 <= w <= 177,
                1 <= vi <= 40,
                vi == version.0 as int,
                strips == (w as int - 1) / 2,
                crate::matrix::walk_len_spec(w as int) == 2 * w * strips,
                crate::matrix::walk_len_spec(w as int) <= 31329,
                infos@.len() == w * w,
                infos0.len() == w * w,
                dc == crate::data::data_codewords_spec(vi, ecl),
                codewords == num_data_modules_spec(vi) / 8,
                blocks_n == blocks_of(vi, ecl),
                g1 == group1_blocks_spec(vi, ecl),
                dpg1 == data_per_g1_spec(vi, ecl),
                dc as int == blocks_n as int * dpg1 + g2,
                (codewords - dc) as int == blocks_n as int
                    * crate::error_correction::ec_per_block_spec(vi, ecl),
                g1 + g2 == blocks_n,
                1 <= blocks_n <= 81,
                dpg1 <= 122,
                dc + num_ec == codewords,
                codewords <= 3706,
                forall|idx: int|
                    0 <= idx < infos@.len() && (#[trigger] infos@[idx]).module.has_spec(
                        Module(DATA),
                    ) && infos@[idx].module != Module(INFO_REMAINDER) ==> infos@[idx].block
                        < blocks_n && (infos@[idx].bit as int) < 8 * (block_data_len_spec(
                        vi,
                        ecl,
                        infos@[idx].block as int,
                    ) + crate::error_correction::ec_per_block_spec(vi, ecl)),
                ec_per_block_spec_bound(vi, ecl),
                k == 2 * w * strip,
                (info_fill_spec(infos0, w as int, vi, ecl, k), bit_idx as int) == (
                    (infos@, info_fill_spec(infos0, w as int, vi, ecl, k).1),
                    info_fill_spec(infos0, w as int, vi, ecl, k).1,
                ),
            decreases strips - strip,
        {
            let mut r: usize = 0;
            proof {
                vstd::arithmetic::mul::lemma_mul_inequality(
                    strip as int,
                    strips as int,
                    2 * w as int,
                );
                vstd::arithmetic::mul::lemma_mul_is_commutative(strip as int, 2 * w as int);
                vstd::arithmetic::mul::lemma_mul_is_commutative(strips as int, 2 * w as int);
            }
            while r < 2 * w
                invariant
                    r <= 2 * w,
                    strip < strips,
                    w == 4 * version.0 + 17,
                    21 <= w <= 177,
                    1 <= vi <= 40,
                    vi == version.0 as int,
                    strips == (w as int - 1) / 2,
                    crate::matrix::walk_len_spec(w as int) == 2 * w * strips,
                    crate::matrix::walk_len_spec(w as int) <= 31329,
                    infos@.len() == w * w,
                    infos0.len() == w * w,
                    dc == crate::data::data_codewords_spec(vi, ecl),
                    codewords == num_data_modules_spec(vi) / 8,
                    blocks_n == blocks_of(vi, ecl),
                    g1 == group1_blocks_spec(vi, ecl),
                    dpg1 == data_per_g1_spec(vi, ecl),
                    dc as int == blocks_n as int * dpg1 + g2,
                    (codewords - dc) as int == blocks_n as int
                        * crate::error_correction::ec_per_block_spec(vi, ecl),
                    g1 + g2 == blocks_n,
                    1 <= blocks_n <= 81,
                    dpg1 <= 122,
                    dc + num_ec == codewords,
                    codewords <= 3706,
                    forall|idx: int|
                        0 <= idx < infos@.len() && (#[trigger] infos@[idx]).module.has_spec(
                            Module(DATA),
                        ) && infos@[idx].module != Module(INFO_REMAINDER) ==> infos@[idx].block
                            < blocks_n && (infos@[idx].bit as int) < 8 * (block_data_len_spec(
                            vi,
                            ecl,
                            infos@[idx].block as int,
                        ) + crate::error_correction::ec_per_block_spec(vi, ecl)),
                    ec_per_block_spec_bound(vi, ecl),
                    k == 2 * w * strip + r,
                    k <= crate::matrix::walk_len_spec(w as int),
                    (info_fill_spec(infos0, w as int, vi, ecl, k), bit_idx as int) == (
                        (infos@, info_fill_spec(infos0, w as int, vi, ecl, k).1),
                        info_fill_spec(infos0, w as int, vi, ecl, k).1,
                    ),
                decreases 2 * w - r,
            {
                proof {
                    vstd::arithmetic::div_mod::lemma_fundamental_div_mod_converse(
                        k,
                        2 * w as int,
                        strip as int,
                        r as int,
                    );
                    lemma_info_fill_len(infos0, w as int, vi, ecl, k);
                    vstd::arithmetic::mul::lemma_mul_inequality(
                        strip as int + 1,
                        strips as int,
                        2 * w as int,
                    );
                    vstd::arithmetic::mul::lemma_mul_is_commutative(strip as int + 1, 2 * w as int);
                    vstd::arithmetic::mul::lemma_mul_is_commutative(strips as int, 2 * w as int);
                    vstd::arithmetic::mul::lemma_mul_is_commutative(strip as int, 2 * w as int);
                    vstd::arithmetic::mul::lemma_mul_basics(2 * w as int);
                    vstd::arithmetic::mul::lemma_mul_is_distributive_add_other_way(
                        2 * w as int,
                        strip as int,
                        1,
                    );
                }
                let c = w - 1 - 2 * strip;
                let col = if c > 6 {
                    c
                } else {
                    c - 1
                };
                let x = col - r % 2;
                let y = if strip % 2 == 0 {
                    w - 1 - r / 2
                } else {
                    r / 2
                };
                proof {
                    assert(x as int == crate::matrix::walk_x_spec(w as int, k));
                    assert(y as int == crate::matrix::walk_y_spec(w as int, k));
                    crate::matrix::lemma_grid_index_bounds(w as int, x as int, y as int);
                }
                let idx = y * w + x;
                if infos[idx].module == Module(0) {
                    let entry = walked_info_at(
                        bit_idx,
                        dc,
                        codewords,
                        blocks_n,
                        g1,
                        dpg1,
                        Ghost(vi),
                        Ghost(ecl),
                    );
                    infos.set(idx, entry);
                    bit_idx += 1;
                }
                proof {
                    k = k + 1;
                    assert((info_fill_spec(infos0, w as int, vi, ecl, k), bit_idx as int) == (
                        (infos@, info_fill_spec(infos0, w as int, vi, ecl, k).1),
                        info_fill_spec(infos0, w as int, vi, ecl, k).1,
                    ));
                }
                r += 1;
            }
            proof {
                vstd::arithmetic::mul::lemma_mul_is_distributive_add(2 * w as int, strip as int, 1);
            }
            strip += 1;
        }
        BitInfo { width: w, infos, mode, version, ecl, mask }
    }
}

/// The arithmetic facts the overlay's bounds rest on.
pub open spec fn ec_per_block_spec_bound(version: int, ecl: ECL) -> bool {
    &&& 7 <= crate::error_correction::ec_per_block_spec(version, ecl) <= 30
    &&& 1 <= data_per_g1_spec(version, ecl) <= 122
    &&& 1 <= blocks_of(version, ecl) <= 81
}

/// The three phase tags all carry the data flag; only the remainder tag is
/// the bare flag.
proof fn lemma_info_flag_facts()
    by (bit_vector)
    ensures
        (INFO_DATA & DATA) == DATA,
        (INFO_EC & DATA) == DATA,
        (INFO_REMAINDER & DATA) == DATA,
        INFO_DATA != INFO_REMAINDER,
        INFO_EC != INFO_REMAINDER,
{
}

proof fn lemma_info_fill_len(s: Seq<Info>, w: int, version: int, ecl: ECL, k: int)
    ensures
        info_fill_spec(s, w, version, ecl, k).0.len() == s.len(),
        0 <= info_fill_spec(s, w, version, ecl, k).1 <= (if k >= 0 {
            k
        } else {
            0int
        }),
    decreases k,
{
    if k > 0 {
        lemma_info_fill_len(s, w, version, ecl, k - 1);
    }
}

/// The overlay entry of walked bit `i`; see `walked_info_spec`.
fn walked_info_at(
    i: usize,
    dc: usize,
    codewords: usize,
    blocks_n: usize,
    g1: usize,
    dpg1: usize,
    Ghost(version): Ghost<int>,
    Ghost(ecl): Ghost<ECL>,
) -> (r: Info)
    requires
        1 <= version <= 40,
        dc == crate::data::data_codewords_spec(version, ecl),
        codewords == num_data_modules_spec(version) / 8,
        blocks_n == blocks_of(version, ecl),
        g1 == group1_blocks_spec(version, ecl),
        dpg1 == data_per_g1_spec(version, ecl),
        dc as int == blocks_n as int * dpg1 + (blocks_n - g1),
        (codewords - dc) as int == blocks_n as int * crate::error_correction::ec_per_block_spec(
            version,
            ecl,
        ),
        1 <= blocks_n <= 81,
        dpg1 <= 122,
        dc <= codewords <= 3706,
        i <= 31329,
    ensures
        r == walked_info_spec(version, ecl, i as int),
        r.module.has_spec(Module(DATA)) && r.module != Module(INFO_REMAINDER) ==> ({
            &&& r.block < blocks_of(version, ecl)
            &&& r.bit < 8 * (block_data_len_spec(version, ecl, r.block as int)
                + crate::error_correction::ec_per_block_spec(version, ecl))
        }),
{
    proof {
        lemma_info_flag_facts();
    }
    let o = i % 8;
    if i < 8 * dc {
        let byte_i = i / 8;
        proof {
            vstd::arithmetic::div_mod::lemma_fundamental_div_mod(i as int, 8);
            lemma_div_block(byte_i as int, blocks_n as int, dpg1 as int, (blocks_n - g1) as int);
        }
        let col = byte_i / blocks_n;
        let row = byte_i % blocks_n;
        if col < dpg1 {
            Info { module: Module(INFO_DATA), block: row as u8, bit: (8 * col + o) as u16 }
        } else {
            Info { module: Module(INFO_DATA), block: (g1 + row) as u8, bit: (8 * dpg1 + o) as u16 }
        }
    } else if i < 8 * codewords {
        proof {
            vstd::arithmetic::div_mod::lemma_fundamental_div_mod(i as int, 8);
            lemma_div_block(
                (i / 8 - dc) as int,
                blocks_n as int,
                crate::error_correction::ec_per_block_spec(version, ecl),
                0,
            );
            vstd::arithmetic::div_mod::lemma_fundamental_div_mod(
                (codewords - dc) as int,
                blocks_n as int,
            );
        }
        let e = i / 8 - dc;
        let j = e / blocks_n;
        let row = e % blocks_n;
        let dlen = dpg1 + (if row >= g1 {
            1
        } else {
            0
        });
        Info { module: Module(INFO_EC), block: row as u8, bit: (8 * (dlen + j)) as u16 + o as u16 }
    } else {
        Info { module: Module(INFO_REMAINDER), block: 0, bit: 0 }
    }
}

} // verus!
