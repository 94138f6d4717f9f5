use vstd::prelude::*;

use crate::constants::num_data_modules_spec;
use crate::matrix::{Matrix, Module};

verus! {

/// Segment encoding mode of a QR symbol.
#[derive(Clone, Copy, PartialEq, Eq, Structural, Debug)]
pub enum Mode {
    Numeric,
    Alphanumeric,
    Byte,
}

/// Error correction level, ordered from weakest to strongest.
#[derive(Clone, Copy, PartialEq, Eq, Structural, Debug)]
pub enum ECL {
    Low,
    Medium,
    Quartile,
    High,
}

/// Symbol version; the side length of version v is 4*v + 17 modules.
#[derive(Clone, Copy, PartialEq, Eq, Structural, Debug)]
pub struct Version(pub u8);

impl Version {
    /// Constructs a version, which is only defined for 1 through 40.
    pub fn new(version: u8) -> (r: Self)
        requires
            1 <= version <= 40,
        ensures
            r == Version(version),
    {
        Version(version)
    }
}

/// One of the eight data mask patterns.
#[derive(Clone, Copy, PartialEq, Eq, Structural, Debug)]
pub enum Mask {
    M0,
    M1,
    M2,
    M3,
    M4,
    M5,
    M6,
    M7,
}

/// Table index of a mode: Numeric 0, Alphanumeric 1, Byte 2.
pub open spec fn mode_index_spec(mode: Mode) -> int {
    match mode {
        Mode::Numeric => 0,
        Mode::Alphanumeric => 1,
        Mode::Byte => 2,
    }
}

/// Table index of an error correction level: Low 0, Medium 1, Quartile 2, High 3.
pub open spec fn ecl_index_spec(ecl: ECL) -> int {
    match ecl {
        ECL::Low => 0,
        ECL::Medium => 1,
        ECL::Quartile => 2,
        ECL::High => 3,
    }
}

/// The level whose table index is `i`; inverse of `ecl_index_spec`.
pub open spec fn ecl_of_index_spec(i: int) -> ECL {
    if i == 0 {
        ECL::Low
    } else if i == 1 {
        ECL::Medium
    } else if i == 2 {
        ECL::Quartile
    } else {
        ECL::High
    }
}

/// Number of a mask: M0 is 0 through M7 is 7.
pub open spec fn mask_index_spec(mask: Mask) -> int {
    match mask {
        Mask::M0 => 0,
        Mask::M1 => 1,
        Mask::M2 => 2,
        Mask::M3 => 3,
        Mask::M4 => 4,
        Mask::M5 => 5,
        Mask::M6 => 6,
        Mask::M7 => 7,
    }
}

/// The mask whose number is `i`; inverse of `mask_index_spec`.
pub open spec fn mask_of_index_spec(i: int) -> Mask {
    if i == 0 {
        Mask::M0
    } else if i == 1 {
        Mask::M1
    } else if i == 2 {
        Mask::M2
    } else if i == 3 {
        Mask::M3
    } else if i == 4 {
        Mask::M4
    } else if i == 5 {
        Mask::M5
    } else if i == 6 {
        Mask::M6
    } else {
        Mask::M7
    }
}

pub fn mode_index(mode: Mode) -> (i: usize)
    ensures
        i == mode_index_spec(mode),
{
    match mode {
        Mode::Numeric => 0,
        Mode::Alphanumeric => 1,
        Mode::Byte => 2,
    }
}

pub fn ecl_index(ecl: ECL) -> (i: usize)
    ensures
        i == ecl_index_spec(ecl),
{
    match ecl {
        ECL::Low => 0,
        ECL::Medium => 1,
        ECL::Quartile => 2,
        ECL::High => 3,
    }
}

pub fn ecl_of_index(i: usize) -> (ecl: ECL)
    requires
        i <= 3,
    ensures
        ecl == ecl_of_index_spec(i as int),
{
    if i == 0 {
        ECL::Low
    } else if i == 1 {
        ECL::Medium
    } else if i == 2 {
        ECL::Quartile
    } else {
        ECL::High
    }
}

pub fn mask_index(mask: Mask) -> (i: usize)
    ensures
        i == mask_index_spec(mask),
{
    match mask {
        Mask::M0 => 0,
        Mask::M1 => 1,
        Mask::M2 => 2,
        Mask::M3 => 3,
        Mask::M4 => 4,
        Mask::M5 => 5,
        Mask::M6 => 6,
        Mask::M7 => 7,
    }
}

pub fn mask_of_index(i: usize) -> (mask: Mask)
    requires
        i <= 7,
    ensures
        mask == mask_of_index_spec(i as int),
{
    if i == 0 {
        Mask::M0
    } else if i == 1 {
        Mask::M1
    } else if i == 2 {
        Mask::M2
    } else if i == 3 {
        Mask::M3
    } else if i == 4 {
        Mask::M4
    } else if i == 5 {
        Mask::M5
    } else if i == 6 {
        Mask::M6
    } else {
        Mask::M7
    }
}


/// An empty symbol matrix: every cell blank.
pub open spec fn blank_matrix_spec(w: int) -> Seq<Module> {
    Seq::new((w * w) as nat, |i: int| Module(0))
}

/// The matrix after every fixed pattern of (version, ecl, mask) is placed:
/// finders, alignment, timing, format and version information.
pub open spec fn fixed_matrix_spec(version: int, ecl: ECL, mask: Mask) -> Seq<Module> {
    let w = 4 * version + 17;
    crate::matrix::overlay(
        crate::matrix::overlay(
            crate::matrix::overlay_or(
                crate::matrix::overlay(
                    crate::matrix::overlay(
                        blank_matrix_spec(w),
                        w,
                        (|x: int, y: int| crate::matrix::finder_module_spec(w, x, y)),
                    ),
                    w,
                    (|x: int, y: int| crate::matrix::alignment_module_spec(version, x, y)),
                ),
                w,
                (|x: int, y: int| crate::matrix::timing_module_spec(w, x, y)),
            ),
            w,
            (|x: int, y: int|
                crate::matrix::format_module_spec(
                    w,
                    crate::constants::format_info_spec(ecl, mask),
                    x,
                    y,
                )),
        ),
        w,
        (|x: int, y: int|
            crate::matrix::version_module_spec(
                w,
                crate::constants::version_information_spec(version),
                x,
                y,
            )),
    )
}

/// The interleaved codeword bytes of a resolved stream, zero-extended so
/// that every cell of the data walk has a bit to read.
pub open spec fn walk_bytes_spec(bits: Seq<bool>, version: int, ecl: ECL) -> Seq<u8> {
    let w = 4 * version + 17;
    let modules = crate::constants::num_data_modules_spec(version);
    let total = modules / 8 + (modules % 8 + 7) / 8;
    let padded = crate::error_correction::padded_data_bytes_spec(
        bits,
        crate::data::data_codewords_spec(version, ecl),
    );
    Seq::new(
        ((w * (w - 1) + 7) / 8) as nat,
        |p: int|
            if p < total {
                crate::error_correction::interleaved_byte_spec(padded, version, ecl, p)
            } else {
                0u8
            },
    )
}

/// The symbol matrix before masking: the fixed patterns of (version, ecl,
/// `mask0`) with the codeword bits walked into the blank cells.
pub open spec fn base_matrix_spec(bits: Seq<bool>, version: int, ecl: ECL, mask0: Mask) -> Seq<
    Module,
> {
    let w = 4 * version + 17;
    crate::matrix::data_fill_spec(
        fixed_matrix_spec(version, ecl, mask0),
        w,
        walk_bytes_spec(bits, version, ecl),
        crate::matrix::walk_len_spec(w),
    ).0
}

/// The finished symbol matrix under `mask`: the base with `mask`'s format
/// word painted and the mask XORed over the data cells.
pub open spec fn candidate_matrix_spec(
    bits: Seq<bool>,
    version: int,
    ecl: ECL,
    mask0: Mask,
    mask: Mask,
) -> Seq<Module> {
    let w = 4 * version + 17;
    crate::matrix::mask_overlay_spec(
        crate::matrix::overlay(
            base_matrix_spec(bits, version, ecl, mask0),
            w,
            (|x: int, y: int|
                crate::matrix::format_module_spec(
                    w,
                    crate::constants::format_info_spec(ecl, mask),
                    x,
                    y,
                )),
        ),
        w,
        mask,
    )
}

/// Penalty of the candidate under mask number `m`.
pub open spec fn candidate_score_spec(
    bits: Seq<bool>,
    version: int,
    ecl: ECL,
    mask0: Mask,
    m: int,
) -> int {
    crate::mask::score_spec(
        candidate_matrix_spec(bits, version, ecl, mask0, mask_of_index_spec(m)),
        4 * version + 17,
    )
}

/// Fold of the mask search: the index of the first candidate, from `best`
/// and then `i` upward, whose penalty is minimal.
pub open spec fn best_mask_from_spec(
    bits: Seq<bool>,
    version: int,
    ecl: ECL,
    mask0: Mask,
    i: int,
    best: int,
) -> int
    decreases 8 - i,
{
    if i >= 8 {
        best
    } else if candidate_score_spec(bits, version, ecl, mask0, i) < candidate_score_spec(
        bits,
        version,
        ecl,
        mask0,
        best,
    ) {
        best_mask_from_spec(bits, version, ecl, mask0, i + 1, i)
    } else {
        best_mask_from_spec(bits, version, ecl, mask0, i + 1, best)
    }
}

/// The mask the generator chooses when none is requested: the first of the
/// eight masks with the least penalty.
pub open spec fn best_mask_spec(bits: Seq<bool>, version: int, ecl: ECL) -> Mask {
    mask_of_index_spec(best_mask_from_spec(bits, version, ecl, Mask::M0, 1, 0))
}

/// The chosen mask's penalty is at most every other mask's penalty.
pub proof fn lemma_best_mask_minimal(
    bits: Seq<bool>,
    version: int,
    ecl: ECL,
    mask0: Mask,
    i: int,
    best: int,
)
    requires
        0 <= best < 8,
        0 < i <= 8,
    ensures
        ({
            let b = best_mask_from_spec(bits, version, ecl, mask0, i, best);
            &&& 0 <= b < 8
            &&& candidate_score_spec(bits, version, ecl, mask0, b) <= candidate_score_spec(
                bits,
                version,
                ecl,
                mask0,
                best,
            )
            &&& forall|m: int|
                i <= m < 8 ==> candidate_score_spec(bits, version, ecl, mask0, b)
                    <= candidate_score_spec(bits, version, ecl, mask0, m)
        }),
    decreases 8 - i,
{
    if i < 8 {
        if candidate_score_spec(bits, version, ecl, mask0, i) < candidate_score_spec(
            bits,
            version,
            ecl,
            mask0,
            best,
        ) {
            lemma_best_mask_minimal(bits, version, ecl, mask0, i + 1, i);
        } else {
            lemma_best_mask_minimal(bits, version, ecl, mask0, i + 1, best);
        }
    }
}

/// The finished symbol: the module matrix with the mode, version, level and
/// mask it was produced under.
#[derive(Debug)]
pub struct QrCode {
    pub matrix: Matrix,
    pub mode: Mode,
    pub version: Version,
    pub ecl: ECL,
    pub mask: Mask,
}


/// Bit-level facts about module flags: XOR with the rendered bit is an
/// involution that leaves the role flags alone, painted values are never
/// blank, and the data flag survives masking.
pub proof fn lemma_module_flag_facts()
    by (bit_vector)
    ensures
        forall|a: u8, b: u8| b <= 1 ==> #[trigger] ((a ^ b) ^ b) == a,
        forall|a: u8, b: u8|
            b <= 1 ==> ((#[trigger] (a ^ b) & crate::matrix::DATA) == crate::matrix::DATA) == ((a
                & crate::matrix::DATA) == crate::matrix::DATA),
        forall|x: u8|
            x <= 1 ==> ((#[trigger] (crate::matrix::FORMAT | x) & crate::matrix::DATA)
                != crate::matrix::DATA),
        forall|x: u8|
            x <= 1 ==> ((#[trigger] (crate::matrix::FORMAT | crate::matrix::MODIFIER | x)
                & crate::matrix::DATA) != crate::matrix::DATA),
        forall|a: u8, b: u8| a != 0 ==> #[trigger] (a | b) != 0,
        forall|a: u8, b: u8| b != 0 ==> #[trigger] (a | b) != 0,
        forall|a: u8, b: u8|
            b <= 1 && (a & crate::matrix::DATA) == crate::matrix::DATA ==> #[trigger] (a ^ b)
                != 0,
        forall|x: u8|
            x <= 1 ==> (((#[trigger] (crate::matrix::FORMAT | x)) & crate::matrix::ON)
                == crate::matrix::ON) == (x == 1),
        forall|x: u8|
            x <= 1 ==> (((#[trigger] (crate::matrix::FORMAT | crate::matrix::MODIFIER | x))
                & crate::matrix::ON) == crate::matrix::ON) == (x == 1),
{
}

/// Masking twice with the same mask restores the matrix.
proof fn lemma_mask_involution(s: Seq<Module>, w: int, m: Mask)
    ensures
        crate::matrix::mask_overlay_spec(crate::matrix::mask_overlay_spec(s, w, m), w, m) =~= s,
{
    lemma_module_flag_facts();
    let once = crate::matrix::mask_overlay_spec(s, w, m);
    let twice = crate::matrix::mask_overlay_spec(once, w, m);
    assert forall|i: int| 0 <= i < s.len() implies twice[i] == s[i] by {
        let b = crate::mask_bit_spec(m, i % w, i / w);
        let bu: u8 = if b {
            1
        } else {
            0
        };
        assert(bu <= 1);
        if s[i].has_spec(Module(crate::matrix::DATA)) {
            assert(once[i] == crate::matrix::xor_on_spec(s[i], b));
            assert((s[i].0 ^ bu) ^ bu == s[i].0);
        }
    }
}

/// A format overlay and a mask pass commute: the mask only flips data
/// cells and the format overlay never paints one.
proof fn lemma_mask_format_commute(s: Seq<Module>, w: int, word: int, m: Mask)
    ensures
        crate::matrix::overlay(
            crate::matrix::mask_overlay_spec(s, w, m),
            w,
            (|x: int, y: int| crate::matrix::format_module_spec(w, word, x, y)),
        ) =~= crate::matrix::mask_overlay_spec(
            crate::matrix::overlay(
                s,
                w,
                (|x: int, y: int| crate::matrix::format_module_spec(w, word, x, y)),
            ),
            w,
            m,
        ),
{
    lemma_module_flag_facts();
    let f = (|x: int, y: int| crate::matrix::format_module_spec(w, word, x, y));
    let lhs = crate::matrix::overlay(crate::matrix::mask_overlay_spec(s, w, m), w, f);
    let rhs = crate::matrix::mask_overlay_spec(crate::matrix::overlay(s, w, f), w, m);
    assert forall|i: int| 0 <= i < s.len() implies lhs[i] == rhs[i] by {
        match crate::matrix::format_module_spec(w, word, i % w, i / w) {
            Option::Some(v) => {
                assert(!v.has_spec(Module(crate::matrix::DATA)));
            },
            Option::None => {},
        }
    }
}

/// Painting a format word over an already-painted one leaves only the new
/// word: both overlays cover exactly the same cells.
proof fn lemma_format_absorb(s: Seq<Module>, w: int, word1: int, word2: int)
    ensures
        crate::matrix::overlay(
            crate::matrix::overlay(
                s,
                w,
                (|x: int, y: int| crate::matrix::format_module_spec(w, word1, x, y)),
            ),
            w,
            (|x: int, y: int| crate::matrix::format_module_spec(w, word2, x, y)),
        ) =~= crate::matrix::overlay(
            s,
            w,
            (|x: int, y: int| crate::matrix::format_module_spec(w, word2, x, y)),
        ),
{
    let f1 = (|x: int, y: int| crate::matrix::format_module_spec(w, word1, x, y));
    let f2 = (|x: int, y: int| crate::matrix::format_module_spec(w, word2, x, y));
    let lhs = crate::matrix::overlay(crate::matrix::overlay(s, w, f1), w, f2);
    let rhs = crate::matrix::overlay(s, w, f2);
    assert forall|i: int| 0 <= i < s.len() implies lhs[i] == rhs[i] by {
        assert(crate::matrix::format_module_spec(w, word2, i % w, i / w) is None
            ==> crate::matrix::format_module_spec(w, word1, i % w, i / w) is None);
    }
}

/// A cell that already carries a tag is left alone by the whole data walk.
proof fn lemma_data_fill_keeps(s: Seq<Module>, w: int, bytes: Seq<u8>, k: int, idx: int)
    requires
        0 <= idx < s.len(),
        s[idx] != Module(0),
    ensures
        crate::matrix::data_fill_spec(s, w, bytes, k).0[idx] == s[idx],
        crate::matrix::data_fill_spec(s, w, bytes, k).0.len() == s.len(),
    decreases k,
{
    if k > 0 {
        lemma_data_fill_keeps(s, w, bytes, k - 1, idx);
    }
}

/// Repainting the base's own format word changes nothing: the base already
/// carries it, the data walk having stepped over the format cells.
proof fn lemma_base_format_idempotent(bits: Seq<bool>, version: int, ecl: ECL, mask0: Mask)
    requires
        1 <= version <= 40,
    ensures
        crate::matrix::overlay(
            base_matrix_spec(bits, version, ecl, mask0),
            4 * version + 17,
            (|x: int, y: int|
                crate::matrix::format_module_spec(
                    4 * version + 17,
                    crate::constants::format_info_spec(ecl, mask0),
                    x,
                    y,
                )),
        ) =~= base_matrix_spec(bits, version, ecl, mask0),
{
    lemma_module_flag_facts();
    let w = 4 * version + 17;
    let word = crate::constants::format_info_spec(ecl, mask0);
    let fixed = fixed_matrix_spec(version, ecl, mask0);
    let base = base_matrix_spec(bits, version, ecl, mask0);
    let f = (|x: int, y: int| crate::matrix::format_module_spec(w, word, x, y));
    let lhs = crate::matrix::overlay(base, w, f);
    assert(base.len() == fixed.len()) by {
        crate::matrix::lemma_grid_index_bounds(w, 0, 0);
        lemma_data_fill_keeps_len(fixed, w, walk_bytes_spec(bits, version, ecl), crate::matrix::walk_len_spec(w));
    }
    assert forall|i: int| 0 <= i < base.len() implies lhs[i] == base[i] by {
        let x = i % w;
        let y = i / w;
        match crate::matrix::format_module_spec(w, word, x, y) {
            Option::Some(v) => {
                assert(crate::matrix::version_module_spec(
                    w,
                    crate::constants::version_information_spec(version),
                    x,
                    y,
                ) is None);
                assert(fixed[i] == v);
                assert(v != Module(0));
                lemma_data_fill_keeps(
                    fixed,
                    w,
                    walk_bytes_spec(bits, version, ecl),
                    crate::matrix::walk_len_spec(w),
                    i,
                );
            },
            Option::None => {},
        }
    }
}

proof fn lemma_data_fill_keeps_len(s: Seq<Module>, w: int, bytes: Seq<u8>, k: int)
    ensures
        crate::matrix::data_fill_spec(s, w, bytes, k).0.len() == s.len(),
    decreases k,
{
    if k > 0 {
        lemma_data_fill_keeps_len(s, w, bytes, k - 1);
    }
}

impl QrCode {
    /// Assembles the symbol of a resolved stream: places the fixed patterns,
    /// interleaves the codewords into the data walk, and either applies the
    /// requested mask or scores all eight and keeps the cheapest; see
    /// `candidate_matrix_spec` and `best_mask_spec`.
    #[verifier::rlimit(60)]
    pub fn new(data: crate::data::Data, mask: Option<Mask>) -> (r: QrCode)
        requires
            data.wf(),
            data.bits@.len() <= 8 * crate::data::data_codewords_spec(
                data.version.0 as int,
                data.ecl,
            ),
        ensures
            ({
                let v = data.version.0 as int;
                let m0 = match mask {
                    Option::Some(m) => m,
                    Option::None => Mask::M0,
                };
                &&& r.mode == data.mode
                &&& r.version == data.version
                &&& r.ecl == data.ecl
                &&& r.mask == (match mask {
                    Option::Some(m) => m,
                    Option::None => best_mask_spec(data.bits@, v, data.ecl),
                })
                &&& r.matrix.wf()
                &&& r.matrix.width == 4 * v + 17
                &&& r.matrix.value@ =~= candidate_matrix_spec(data.bits@, v, data.ecl, m0, r.mask)
                &&& (mask is None ==> forall|mi: int|
                    0 <= mi < 8 ==> candidate_score_spec(
                        data.bits@,
                        v,
                        data.ecl,
                        Mask::M0,
                        mask_index_spec(r.mask),
                    ) <= #[trigger] candidate_score_spec(data.bits@, v, data.ecl, Mask::M0, mi))
            }),
    {
        let version = data.version;
        let ecl = data.ecl;
        let mode = data.mode;
        let ghost bits0 = data.bits@;
        let ghost vi = version.0 as int;
        let m0 = match mask {
            Some(m) => m,
            None => Mask::M0,
        };
        proof {
            crate::constants::lemma_capacity_ok(vi, ecl);
        }
        let mut matrix = Matrix::new(version, Module(0));
        let w = matrix.width;
        matrix.set_finder();
        matrix.set_alignment();
        matrix.set_timing();
        matrix.set_format(ecl, m0);
        matrix.set_version();
        proof {
            assert(matrix.value@ =~= fixed_matrix_spec(vi, ecl, m0));
        }
        let seq = crate::error_correction::ecc_and_sequence(data);
        proof {
            vstd::arithmetic::mul::lemma_mul_inequality(w as int, 177, w as int - 1);
            vstd::arithmetic::mul::lemma_mul_is_commutative(w as int, w as int - 1);
            vstd::arithmetic::mul::lemma_mul_is_commutative(177, w as int - 1);
            vstd::arithmetic::mul::lemma_mul_nonnegative(w as int, w as int - 1);
        }
        let walk_cells = w * (w - 1);
        let wb = (walk_cells + 7) / 8;
        let mut bytes = seq;
        proof {
            assert(8 * bytes@.len() <= num_data_modules_spec(vi) + 8 + 14);
            vstd::arithmetic::div_mod::lemma_div_is_ordered(
                8 * bytes@.len() as int,
                walk_cells as int + 7,
                8,
            );
            vstd::arithmetic::div_mod::lemma_fundamental_div_mod_converse(
                8 * bytes@.len() as int,
                8,
                bytes@.len() as int,
                0,
            );
        }
        while bytes.len() < wb
            invariant
                bytes@.len() <= wb,
                wb <= 31329,
                forall|p: int| 0 <= p < seq@.len() ==> bytes@[p] == seq@[p],
                seq@.len() <= bytes@.len(),
                forall|p: int| seq@.len() <= p < bytes@.len() ==> bytes@[p] == 0u8,
            decreases wb - bytes@.len(),
        {
            bytes.push(0);
        }
        proof {
            assert(bytes@ =~= walk_bytes_spec(bits0, vi, ecl));
        }
        matrix.set_data(&bytes);
        matrix.apply_mask(m0);
        let ghost base = base_matrix_spec(bits0, vi, ecl, m0);
        proof {
            assert(matrix.value@ =~= crate::matrix::mask_overlay_spec(base, w as int, m0));
            lemma_base_format_idempotent(bits0, vi, ecl, m0);
            assert(matrix.value@ =~= candidate_matrix_spec(bits0, vi, ecl, m0, m0));
        }
        let mut chosen = m0;
        if mask.is_none() {
            let mut min_score = crate::mask::score(&matrix);
            let mut applied = m0;
            let ghost best_idx = 0int;
            let mut mi: usize = 1;
            proof {
                lemma_data_fill_keeps_len(
                    fixed_matrix_spec(vi, ecl, m0),
                    w as int,
                    walk_bytes_spec(bits0, vi, ecl),
                    crate::matrix::walk_len_spec(w as int),
                );
                crate::matrix::lemma_grid_index_bounds(w as int, 0, 0);
            }
            while mi < 8
                invariant
                    1 <= mi <= 8,
                    0 <= best_idx < 8,
                    best_idx < mi,
                    w == matrix.width,
                    matrix.wf(),
                    21 <= w <= 177,
                    1 <= vi <= 40,
                    w == 4 * vi + 17,
                    m0 == Mask::M0,
                    base == base_matrix_spec(bits0, vi, ecl, Mask::M0),
                    base.len() == w * w,
                    chosen == mask_of_index_spec(best_idx),
                    applied == mask_of_index_spec(mi - 1),
                    matrix.value@ =~= candidate_matrix_spec(bits0, vi, ecl, Mask::M0, applied),
                    min_score as int == candidate_score_spec(bits0, vi, ecl, Mask::M0, best_idx),
                    best_mask_from_spec(bits0, vi, ecl, Mask::M0, mi as int, best_idx)
                        == best_mask_from_spec(bits0, vi, ecl, Mask::M0, 1, 0),
                decreases 8 - mi,
            {
                let m = mask_of_index(mi);
                matrix.apply_mask(applied);
                proof {
                    lemma_mask_involution(
                        crate::matrix::overlay(
                            base,
                            w as int,
                            (|x: int, y: int|
                                crate::matrix::format_module_spec(
                                    w as int,
                                    crate::constants::format_info_spec(ecl, applied),
                                    x,
                                    y,
                                )),
                        ),
                        w as int,
                        applied,
                    );
                }
                matrix.apply_mask(m);
                matrix.set_format(ecl, m);
                proof {
                    lemma_mask_format_commute(
                        crate::matrix::overlay(
                            base,
                            w as int,
                            (|x: int, y: int|
                                crate::matrix::format_module_spec(
                                    w as int,
                                    crate::constants::format_info_spec(ecl, applied),
                                    x,
                                    y,
                                )),
                        ),
                        w as int,
                        crate::constants::format_info_spec(ecl, m),
                        m,
                    );
                    lemma_format_absorb(
                        base,
                        w as int,
                        crate::constants::format_info_spec(ecl, applied),
                        crate::constants::format_info_spec(ecl, m),
                    );
                    assert(matrix.value@ =~= candidate_matrix_spec(bits0, vi, ecl, Mask::M0, m));
                }
                let sc = crate::mask::score(&matrix);
                if sc < min_score {
                    min_score = sc;
                    chosen = m;
                    proof {
                        best_idx = mi as int;
                    }
                }
                applied = m;
                mi += 1;
            }
            if !masks_equal(chosen, applied) {
                matrix.apply_mask(applied);
                proof {
                    lemma_mask_involution(
                        crate::matrix::overlay(
                            base,
                            w as int,
                            (|x: int, y: int|
                                crate::matrix::format_module_spec(
                                    w as int,
                                    crate::constants::format_info_spec(ecl, applied),
                                    x,
                                    y,
                                )),
                        ),
                        w as int,
                        applied,
                    );
                }
                matrix.apply_mask(chosen);
                matrix.set_format(ecl, chosen);
                proof {
                    lemma_mask_format_commute(
                        crate::matrix::overlay(
                            base,
                            w as int,
                            (|x: int, y: int|
                                crate::matrix::format_module_spec(
                                    w as int,
                                    crate::constants::format_info_spec(ecl, applied),
                                    x,
                                    y,
                                )),
                        ),
                        w as int,
                        crate::constants::format_info_spec(ecl, chosen),
                        chosen,
                    );
                    lemma_format_absorb(
                        base,
                        w as int,
                        crate::constants::format_info_spec(ecl, applied),
                        crate::constants::format_info_spec(ecl, chosen),
                    );
                }
            }
            proof {
                lemma_best_mask_minimal(bits0, vi, ecl, Mask::M0, 1, 0);
                assert(matrix.value@ =~= candidate_matrix_spec(bits0, vi, ecl, Mask::M0, chosen));
            }
        }
        QrCode { matrix, mode, version, ecl, mask: chosen }
    }
}

/// Whether two modes are the same.
pub fn modes_equal(a: Mode, b: Mode) -> (r: bool)
    ensures
        r == (a == b),
{
    mode_index(a) == mode_index(b)
}

/// Whether two masks are the same pattern.
fn masks_equal(a: Mask, b: Mask) -> (r: bool)
    ensures
        r == (a == b),
{
    mask_index(a) == mask_index(b)
}


/// Column of bit `i` of the primary format copy.
pub open spec fn format_pos_x_spec(i: int) -> int {
    if i < 8 {
        8
    } else if i == 8 {
        7
    } else {
        14 - i
    }
}

/// Row of bit `i` of the primary format copy.
pub open spec fn format_pos_y_spec(i: int) -> int {
    if i < 6 {
        i
    } else if i == 6 {
        7
    } else {
        8
    }
}

/// Column of bit `i` of the mirror format copy.
pub open spec fn format_copy_x_spec(w: int, i: int) -> int {
    if i < 8 {
        w - 1 - i
    } else {
        8
    }
}

/// Row of bit `i` of the mirror format copy.
pub open spec fn format_copy_y_spec(w: int, i: int) -> int {
    if i < 8 {
        8
    } else {
        w - 15 + i
    }
}

/// After placement the two copies of the format information agree: bit `i`
/// of the primary copy and of the mirror copy are both exactly bit `i` of
/// the format word of (ecl, mask).
#[verifier::rlimit(60)]
pub proof fn lemma_format_copies_agree(
    bits: Seq<bool>,
    version: int,
    ecl: ECL,
    mask0: Mask,
    mask: Mask,
    i: int,
)
    requires
        1 <= version <= 40,
        0 <= i < 15,
    ensures
        ({
            let w = 4 * version + 17;
            let m = candidate_matrix_spec(bits, version, ecl, mask0, mask);
            let word = crate::constants::format_info_spec(ecl, mask);
            &&& crate::mask::cell_on(m, w, format_pos_x_spec(i), format_pos_y_spec(i))
                == crate::matrix::word_bit(word, i)
            &&& crate::mask::cell_on(m, w, format_copy_x_spec(w, i), format_copy_y_spec(w, i))
                == crate::matrix::word_bit(word, i)
        }),
{
    lemma_module_flag_facts();
    let w = 4 * version + 17;
    let word = crate::constants::format_info_spec(ecl, mask);
    let base = base_matrix_spec(bits, version, ecl, mask0);
    let formatted = crate::matrix::overlay(
        base,
        w,
        (|x: int, y: int| crate::matrix::format_module_spec(w, word, x, y)),
    );
    let m = candidate_matrix_spec(bits, version, ecl, mask0, mask);
    assert(base.len() == w * w) by {
        crate::matrix::lemma_grid_index_bounds(w, 0, 0);
        lemma_data_fill_keeps_len(
            fixed_matrix_spec(version, ecl, mask0),
            w,
            walk_bytes_spec(bits, version, ecl),
            crate::matrix::walk_len_spec(w),
        );
    }
    let px = format_pos_x_spec(i);
    let py = format_pos_y_spec(i);
    let cx = format_copy_x_spec(w, i);
    let cy = format_copy_y_spec(w, i);
    crate::matrix::lemma_grid_index_bounds(w, px, py);
    crate::matrix::lemma_grid_decompose(w, px, py);
    crate::matrix::lemma_grid_index_bounds(w, cx, cy);
    crate::matrix::lemma_grid_decompose(w, cx, cy);
    assert(crate::matrix::format_module_spec(w, word, px, py) == Option::Some(
        Module(
            crate::matrix::FORMAT | (if crate::matrix::word_bit(word, i) {
                crate::matrix::ON
            } else {
                0
            }),
        ),
    ));
    assert(crate::matrix::format_module_spec(w, word, cx, cy) == Option::Some(
        Module(
            crate::matrix::FORMAT | crate::matrix::MODIFIER | (if crate::matrix::word_bit(
                word,
                i,
            ) {
                crate::matrix::ON
            } else {
                0
            }),
        ),
    ));
    assert(!formatted[py * w + px].has_spec(Module(crate::matrix::DATA)));
    assert(!formatted[cy * w + cx].has_spec(Module(crate::matrix::DATA)));
    assert(m[py * w + px] == formatted[py * w + px]);
    assert(m[cy * w + cx] == formatted[cy * w + cx]);
}


/// A cell the walk has painted, or that was already tagged, never goes
/// blank again: the walk only writes data modules.
proof fn lemma_data_fill_monotone(s: Seq<Module>, w: int, bytes: Seq<u8>, k1: int, k2: int, idx: int)
    requires
        0 <= idx < s.len(),
        k1 <= k2,
        crate::matrix::data_fill_spec(s, w, bytes, k1).0[idx] != Module(0),
    ensures
        crate::matrix::data_fill_spec(s, w, bytes, k2).0[idx] != Module(0),
    decreases k2 - k1,
{
    lemma_module_flag_facts();
    if k1 < k2 {
        lemma_data_fill_keeps_len(s, w, bytes, k2 - 1);
        lemma_data_fill_monotone(s, w, bytes, k1, k2 - 1, idx);
    }
}

/// After its walk step, a cell is tagged: either it already was, or the
/// step paints a data module into it.
proof fn lemma_data_fill_paints(s: Seq<Module>, w: int, bytes: Seq<u8>, k: int, idx: int)
    requires
        0 <= idx < s.len(),
        0 <= k,
        grid_index_of_walk(w, k) == idx,
    ensures
        crate::matrix::data_fill_spec(s, w, bytes, k + 1).0[idx] != Module(0),
{
    lemma_module_flag_facts();
    lemma_data_fill_keeps_len(s, w, bytes, k);
}

/// The grid index of the walk's `k`-th cell.
pub open spec fn grid_index_of_walk(w: int, k: int) -> int {
    crate::matrix::grid_index(
        w,
        crate::matrix::walk_x_spec(w, k),
        crate::matrix::walk_y_spec(w, k),
    )
}

/// Every cell off the timing column is visited by the zig-zag walk.
proof fn lemma_walk_covers(w: int, x: int, y: int) -> (k: int)
    requires
        21 <= w <= 177,
        w % 4 == 1,
        0 <= x < w,
        0 <= y < w,
        x != 6,
    ensures
        0 <= k < crate::matrix::walk_len_spec(w),
        crate::matrix::walk_x_spec(w, k) == x,
        crate::matrix::walk_y_spec(w, k) == y,
{
    let s: int = if x > 6 {
        if x % 2 == 0 {
            (w - 1 - x) / 2
        } else {
            (w - 2 - x) / 2
        }
    } else {
        (w - 3 - 2 * (x / 2)) / 2
    };
    let a = crate::matrix::strip_col_spec(w, s);
    assert(0 <= s < (w - 1) / 2 && (a == x || a == x + 1) && a - 1 <= x);
    let rp: int = if s % 2 == 0 {
        w - 1 - y
    } else {
        y
    };
    let r = 2 * rp + (a - x);
    let k = 2 * w * s + r;
    assert(0 <= r < 2 * w);
    assert(k / (2 * w) == s && k % (2 * w) == r) by {
        vstd::arithmetic::div_mod::lemma_fundamental_div_mod_converse(k, 2 * w, s, r);
    }
    assert((2 * rp + (a - x)) % 2 == a - x && (2 * rp + (a - x)) / 2 == rp) by {
        vstd::arithmetic::div_mod::lemma_fundamental_div_mod_converse(r, 2, rp, a - x);
    }
    assert(k < crate::matrix::walk_len_spec(w)) by {
        vstd::arithmetic::mul::lemma_mul_inequality(s + 1, (w - 1) / 2, 2 * w);
        vstd::arithmetic::mul::lemma_mul_is_commutative(s + 1, 2 * w);
        vstd::arithmetic::mul::lemma_mul_is_commutative((w - 1) / 2, 2 * w);
        vstd::arithmetic::mul::lemma_mul_is_distributive_add(2 * w, s, 1);
        assert(2 * w * ((w - 1) / 2) == crate::matrix::walk_len_spec(w)) by {
            vstd::arithmetic::mul::lemma_mul_is_commutative(w, w - 1);
            vstd::arithmetic::mul::lemma_mul_is_associative(2, w, (w - 1) / 2);
            vstd::arithmetic::mul::lemma_mul_is_commutative(w, (w - 1) / 2);
            vstd::arithmetic::mul::lemma_mul_is_associative(w, 2, (w - 1) / 2);
            assert(2 * ((w - 1) / 2) == w - 1);
            vstd::arithmetic::mul::lemma_mul_is_distributive_sub(w, w, 1);
        }
    }
    k
}

/// Every value a placement overlay paints carries at least one flag, so a
/// painted cell is never blank, and OR-painting keeps a tagged cell tagged.
proof fn lemma_fixed_col6_tagged(version: int, ecl: ECL, mask0: Mask, y: int)
    requires
        1 <= version <= 40,
        0 <= y < 4 * version + 17,
    ensures
        fixed_matrix_spec(version, ecl, mask0)[crate::matrix::grid_index(4 * version + 17, 6, y)]
            != Module(0),
{
    lemma_module_flag_facts();
    let w = 4 * version + 17;
    crate::matrix::lemma_grid_index_bounds(w, 6, y);
    crate::matrix::lemma_grid_decompose(w, 6, y);
    let idx = crate::matrix::grid_index(w, 6, y);
    let fixed = fixed_matrix_spec(version, ecl, mask0);
    if y <= 7 {
        assert(crate::matrix::finder_module_spec(w, 6, y) is Some);
    } else if y >= w - 8 {
        assert(crate::matrix::finder_module_spec(w, 6, y) is Some);
    } else {
        assert(crate::matrix::timing_module_spec(w, 6, y) is Some);
    }
    assert(fixed[idx] != Module(0));
}

/// Placement leaves no cell untagged: every module of a finished symbol
/// carries at least one flag bit.
pub proof fn lemma_no_untagged_cells(
    bits: Seq<bool>,
    version: int,
    ecl: ECL,
    mask0: Mask,
    mask: Mask,
    x: int,
    y: int,
)
    requires
        1 <= version <= 40,
        0 <= x < 4 * version + 17,
        0 <= y < 4 * version + 17,
    ensures
        candidate_matrix_spec(bits, version, ecl, mask0, mask)[crate::matrix::grid_index(
            4 * version + 17,
            x,
            y,
        )] != Module(0),
{
    lemma_module_flag_facts();
    let w = 4 * version + 17;
    crate::matrix::lemma_grid_index_bounds(w, x, y);
    crate::matrix::lemma_grid_decompose(w, x, y);
    let idx = crate::matrix::grid_index(w, x, y);
    let fixed = fixed_matrix_spec(version, ecl, mask0);
    let wb = walk_bytes_spec(bits, version, ecl);
    let base = base_matrix_spec(bits, version, ecl, mask0);
    let word = crate::constants::format_info_spec(ecl, mask);
    let formatted = crate::matrix::overlay(
        base,
        w,
        (|x: int, y: int| crate::matrix::format_module_spec(w, word, x, y)),
    );
    lemma_data_fill_keeps_len(fixed, w, wb, crate::matrix::walk_len_spec(w));
    assert(base[idx] != Module(0)) by {
        if fixed[idx] != Module(0) {
            lemma_data_fill_monotone(fixed, w, wb, 0, crate::matrix::walk_len_spec(w), idx);
        } else {
            assert(x != 6) by {
                if x == 6 {
                    lemma_fixed_col6_tagged(version, ecl, mask0, y);
                }
            }
            let k = lemma_walk_covers(w, x, y);
            lemma_data_fill_paints(fixed, w, wb, k, idx);
            lemma_data_fill_monotone(fixed, w, wb, k + 1, crate::matrix::walk_len_spec(w), idx);
        }
    }
    assert(formatted[idx] != Module(0));
    assert(candidate_matrix_spec(bits, version, ecl, mask0, mask)[idx] != Module(0));
}

} // verus!
