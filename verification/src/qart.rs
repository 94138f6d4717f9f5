use vstd::prelude::*;

use crate::bit_info::{BitInfo, Info, INFO_REMAINDER};
use crate::constants::{num_blocks, num_data_modules, num_ec_codewords};
use crate::data::{bits_of_bytes, byte_bit, BitVec, Data};
use crate::error_correction::{block_data_len_spec, block_data_spec, block_data_start_spec,
    block_ec_spec, block_generator_spec, blocks_of, data_per_g1_spec, ec_per_block_spec,
    group1_blocks_spec, lemma_div_block, padded_data_bytes_spec, rs_remainder_spec,
    terminator_len_spec};
use crate::matrix::{grid_index, Matrix, Module, DATA, ON};
use crate::qr_code::{Mask, QrCode, ECL};

verus! {

/// One pixel of the target image: a desired bit and how costly it is for
/// the symbol to deviate from it, packed as (weight << 1) | bit.
#[derive(Clone, Copy, PartialEq, Eq, Structural, Debug)]
pub struct WeightPixel(pub u8);

proof fn lemma_weight_pixel_bits()
    by (bit_vector)
    ensures
        forall|v: u8, h: u8|
            v <= 1 && h < 128 ==> ((#[trigger] (v | (h << 1u8)) & 1) == 1) == (v == 1),
        forall|v: u8, h: u8| v <= 1 && h < 128 ==> (#[trigger] (v | (h << 1u8)) >> 1u8) == h,
        forall|p: u8| #[trigger] (p >> 1u8) < 128,
{
}

impl WeightPixel {
    /// The desired rendered bit.
    pub open spec fn value_spec(self) -> bool {
        self.0 & 1 == 1
    }

    /// How costly a deviation from the desired bit is; 0 means free.
    pub open spec fn weight_spec(self) -> int {
        (self.0 >> 1u8) as int
    }

    /// Packs a desired bit with its weight.
    pub fn new(value: bool, hardness: u8) -> (r: WeightPixel)
        requires
            hardness < 128,
        ensures
            r.value_spec() == value,
            r.weight_spec() == hardness,
    {
        proof {
            lemma_weight_pixel_bits();
        }
        WeightPixel(
            (if value {
                1u8
            } else {
                0u8
            }) | (hardness << 1u8),
        )
    }

    /// The desired rendered bit.
    pub fn value(&self) -> (r: bool)
        ensures
            r == self.value_spec(),
    {
        self.0 & 1 == 1
    }

    /// The weight of this pixel.
    pub fn weight(&self) -> (r: u8)
        ensures
            r as int == self.weight_spec(),
    {
        self.0 >> 1u8
    }
}

/// Pointwise XOR of two bit sequences.
pub open spec fn xor_bits(a: Seq<bool>, b: Seq<bool>) -> Seq<bool> {
    Seq::new(a.len(), |i: int| a[i] != b[i])
}

/// The all-zero bit sequence.
pub open spec fn zero_bits(n: int) -> Seq<bool> {
    Seq::new(n as nat, |i: int| false)
}

/// `base` XORed with the basis vectors whose coefficient among the first
/// `k` is set.
pub open spec fn combine_basis(
    base: Seq<bool>,
    basis: Seq<Seq<bool>>,
    coeffs: Seq<bool>,
    k: int,
) -> Seq<bool>
    decreases k,
{
    if k <= 0 {
        base
    } else {
        let prev = combine_basis(base, basis, coeffs, k - 1);
        if 0 <= k - 1 < coeffs.len() && coeffs[k - 1] {
            xor_bits(prev, basis[k - 1])
        } else {
            prev
        }
    }
}

/// `v` lies in the affine span of `base` and the basis vectors: it is
/// `base` XORed with some subset of them.
pub open spec fn in_span(v: Seq<bool>, base: Seq<bool>, basis: Seq<Seq<bool>>) -> bool {
    exists|c: Seq<bool>|
        c.len() == basis.len() && v =~= combine_basis(base, basis, c, basis.len() as int)
}

proof fn lemma_combine_len(base: Seq<bool>, basis: Seq<Seq<bool>>, coeffs: Seq<bool>, k: int)
    ensures
        combine_basis(base, basis, coeffs, k).len() == base.len(),
    decreases k,
{
    if k > 0 {
        lemma_combine_len(base, basis, coeffs, k - 1);
    }
}

/// XOR distributes over basis combinations: combining two sums combines
/// their bases and XORs their coefficient sets.
proof fn lemma_combine_compose(
    a: Seq<bool>,
    b: Seq<bool>,
    basis: Seq<Seq<bool>>,
    c1: Seq<bool>,
    c2: Seq<bool>,
    k: int,
)
    requires
        a.len() == b.len(),
        c1.len() == c2.len(),
    ensures
        xor_bits(combine_basis(a, basis, c1, k), combine_basis(b, basis, c2, k)) =~= combine_basis(
            xor_bits(a, b),
            basis,
            Seq::new(c1.len(), |i: int| c1[i] != c2[i]),
            k,
        ),
    decreases k,
{
    if k > 0 {
        lemma_combine_compose(a, b, basis, c1, c2, k - 1);
        lemma_combine_len(a, basis, c1, k - 1);
        lemma_combine_len(b, basis, c2, k - 1);
        lemma_combine_len(xor_bits(a, b), basis, Seq::new(c1.len(), |i: int| c1[i] != c2[i]), k - 1);
    }
}

/// The single basis vector `j` is itself a combination: the one with only
/// coefficient `j` set.
proof fn lemma_combine_unit(basis: Seq<Seq<bool>>, n: int, j: int, k: int)
    requires
        0 <= j < basis.len(),
        basis[j].len() == n,
    ensures
        j < k ==> combine_basis(zero_bits(n), basis, Seq::new(basis.len(), |i: int| i == j), k)
            =~= basis[j],
        k <= j ==> combine_basis(zero_bits(n), basis, Seq::new(basis.len(), |i: int| i == j), k)
            =~= zero_bits(n),
    decreases k,
{
    if k > 0 {
        lemma_combine_unit(basis, n, j, k - 1);
    }
}

/// XOR with the zero sequence changes nothing.
proof fn lemma_xor_zero(a: Seq<bool>)
    ensures
        xor_bits(a, zero_bits(a.len() as int)) =~= a,
{
}

/// Steers the block toward the weighted target bits by greedy elimination:
/// for each weighted bit position, a basis vector that controls it is
/// spent to set it and eliminated from the rest of the pool. The result
/// always stays in the affine span of the starting block and the basis.
pub fn apply_first_matches(
    block: &mut BitVec,
    block_weight: &Vec<WeightPixel>,
    basis_matrix: &Vec<BitVec>,
)
    requires
        old(block).wf(),
        block_weight@.len() <= old(block)@.len(),
        basis_matrix@.len() <= old(block)@.len(),
        forall|j: int|
            0 <= j < basis_matrix@.len() ==> (#[trigger] basis_matrix@[j]).wf()
                && basis_matrix@[j]@.len() == old(block)@.len(),
        forall|j: int, p: int|
            0 <= j < basis_matrix@.len() && 0 <= p < basis_matrix@.len()
                ==> #[trigger] basis_matrix@[j]@[p] == (p == j),
    ensures
        final(block).wf(),
        final(block)@.len() == old(block)@.len(),
        in_span(
            final(block)@,
            old(block)@,
            Seq::new(basis_matrix@.len(), |j: int| basis_matrix@[j]@),
        ),
        forall|i: int|
            0 <= i < block_weight@.len() && i < basis_matrix@.len() && (
            #[trigger] block_weight@[i]).weight_spec() > 0 ==> final(block)@[i]
                == block_weight@[i].value_spec(),
{
    let n_bits = block.len();
    let nb = basis_matrix.len();
    let ghost basis_views = Seq::new(basis_matrix@.len(), |j: int| basis_matrix@[j]@);
    let ghost zero_coeffs = Seq::new(basis_views.len(), |j: int| false);
    let mut pool: Vec<Option<BitVec>> = Vec::new();
    let ghost mut pool_coeffs: Seq<Seq<bool>> = Seq::empty();
    let mut j: usize = 0;
    while j < nb
        invariant
            j <= nb,
            nb == basis_matrix@.len(),
            basis_views == Seq::new(basis_matrix@.len(), |j: int| basis_matrix@[j]@),
            n_bits == block@.len(),
            forall|p: int|
                0 <= p < basis_matrix@.len() ==> (#[trigger] basis_matrix@[p]).wf()
                    && basis_matrix@[p]@.len() == n_bits,
            pool@.len() == j,
            pool_coeffs.len() == j,
            forall|p: int|
                0 <= p < j ==> (#[trigger] pool@[p]) is Some && pool@[p]->0.wf()
                    && pool@[p]->0@.len() == n_bits && pool_coeffs[p].len() == basis_views.len()
                    && pool@[p]->0@ =~= combine_basis(
                    zero_bits(n_bits as int),
                    basis_views,
                    pool_coeffs[p],
                    basis_views.len() as int,
                ) && pool@[p]->0@ == basis_views[p],
        decreases nb - j,
    {
        let dup = basis_matrix[j].duplicate();
        pool.push(Some(dup));
        proof {
            lemma_combine_unit(basis_views, n_bits as int, j as int, basis_views.len() as int);
            pool_coeffs = pool_coeffs.push(Seq::new(basis_views.len(), |i: int| i == j as int));
        }
        j += 1;
    }
    let ghost block0 = block@;
    let ghost mut block_coeffs: Seq<bool> = zero_coeffs;
    proof {
        assert(block@ =~= combine_basis(
            block0,
            basis_views,
            block_coeffs,
            basis_views.len() as int,
        )) by {
            lemma_combine_all_false(block0, basis_views, block_coeffs, basis_views.len() as int);
        }
    }
    let wn = block_weight.len();
    let mut i: usize = 0;
    while i < wn
        invariant
            i <= wn,
            wn == block_weight@.len(),
            wn <= n_bits,
            nb <= n_bits,
            nb == basis_matrix@.len(),
            n_bits == block@.len(),
            block.wf(),
            block0.len() == n_bits,
            zero_coeffs == Seq::new(basis_views.len(), |j: int| false),
            pool@.len() == nb,
            pool_coeffs.len() == nb,
            block_coeffs.len() == basis_views.len(),
            basis_views.len() == nb,
            block@ =~= combine_basis(block0, basis_views, block_coeffs, basis_views.len() as int),
            forall|p: int|
                0 <= p < nb && (#[trigger] pool@[p]) is Some ==> pool@[p]->0.wf()
                    && pool@[p]->0@.len() == n_bits && pool_coeffs[p].len() == basis_views.len()
                    && pool@[p]->0@ =~= combine_basis(
                    zero_bits(n_bits as int),
                    basis_views,
                    pool_coeffs[p],
                    basis_views.len() as int,
                ),
            forall|p: int|
                0 <= p < i && p < nb && (#[trigger] block_weight@[p]).weight_spec() > 0 ==> block@[p]
                    == block_weight@[p].value_spec() && pool@[p] is None,
            forall|j: int, p: int|
                0 <= j < nb && (#[trigger] pool@[j]) is Some && 0 <= p < i && p < nb
                    && block_weight@[p].weight_spec() > 0 ==> #[trigger] pool@[j]->0@[p] == false,
            i <= nb ==> forall|j: int, p: int|
                0 <= j < nb && (#[trigger] pool@[j]) is Some && 0 <= p < nb && !(p < i
                    && block_weight@[p].weight_spec() > 0) ==> #[trigger] pool@[j]->0@[p] == (p
                    == j),
            i <= nb ==> forall|p: int| i <= p < nb ==> (#[trigger] pool@[p]) is Some,
        decreases wn - i,
    {
        let pixel = block_weight[i];
        if pixel.weight() == 0 {
            i += 1;
            continue;
        }
        let ghost pre_pool = pool@;
        let mut found: Option<BitVec> = None;
        let ghost mut found_coeffs: Seq<bool> = zero_coeffs;
        let ghost mut found_idx: int = 0;
        let mut j: usize = 0;
        while j < nb
            invariant
                j <= nb,
                i < wn <= n_bits,
                nb <= n_bits,
                nb == basis_matrix@.len(),
                wn == block_weight@.len(),
                basis_views.len() == nb,
                pool@.len() == nb,
                pool_coeffs.len() == nb,
                pre_pool.len() == nb,
                found_coeffs.len() == basis_views.len(),
                block_weight@[i as int].weight_spec() > 0,
                found is Some ==> found->0.wf() && found->0@.len() == n_bits && found->0@
                    =~= combine_basis(
                    zero_bits(n_bits as int),
                    basis_views,
                    found_coeffs,
                    basis_views.len() as int,
                ),
                found is Some ==> 0 <= found_idx < j && pre_pool[found_idx] is Some && found->0
                    == pre_pool[found_idx]->0 && pool@[found_idx] is None && found->0@[i as int],
                found is None ==> forall|q: int|
                    0 <= q < j && (#[trigger] pool@[q]) is Some ==> !pool@[q]->0@[i as int],
                found is None ==> pool@ == pre_pool,
                forall|q: int| j <= q < nb ==> #[trigger] pool@[q] == pre_pool[q],
                forall|q: int|
                    0 <= q < nb && q != found_idx ==> ((#[trigger] pool@[q]) is Some
                        <==> pre_pool[q] is Some),
                forall|p: int|
                    0 <= p < nb && (#[trigger] pool@[p]) is Some ==> pool@[p]->0.wf()
                        && pool@[p]->0@.len() == n_bits && pool_coeffs[p].len()
                        == basis_views.len() && pool@[p]->0@ =~= combine_basis(
                        zero_bits(n_bits as int),
                        basis_views,
                        pool_coeffs[p],
                        basis_views.len() as int,
                    ),
                forall|q: int, p: int|
                    0 <= q < nb && (#[trigger] pool@[q]) is Some && 0 <= p < i && p < nb
                        && block_weight@[p].weight_spec() > 0 ==> #[trigger] pool@[q]->0@[p]
                        == false,
                found is Some ==> forall|p: int|
                    0 <= p < i && p < nb && (#[trigger] block_weight@[p]).weight_spec() > 0
                        ==> !found->0@[p],
                i < nb ==> forall|q: int, p: int|
                    0 <= q < nb && (#[trigger] pool@[q]) is Some && 0 <= p < nb && !(p < i
                        && block_weight@[p].weight_spec() > 0) ==> #[trigger] pool@[q]->0@[p] == (p
                        == q),
                i < nb ==> (found is Some ==> found_idx == i),
                i < nb ==> (found is Some ==> pool@ == pre_pool.update(i as int, None)),
                i < nb ==> forall|p: int| i <= p < nb ==> (#[trigger] pre_pool[p]) is Some,
            decreases nb - j,
        {
            let entry = pool.remove(j);
            let put_back: Option<BitVec>;
            match entry {
                Some(bj) => {
                    if bj.get(i) {
                        match &found {
                            Some(fv) => {
                                proof {
                                    if i < nb {
                                        assert(pre_pool[j as int] is Some);
                                        assert(bj@[i as int] == (i == j));
                                        assert(false);
                                    }
                                }
                                let mut bj2 = bj;
                                bj2.xor_with(fv);
                                proof {
                                    lemma_combine_compose(
                                        zero_bits(n_bits as int),
                                        zero_bits(n_bits as int),
                                        basis_views,
                                        pool_coeffs[j as int],
                                        found_coeffs,
                                        basis_views.len() as int,
                                    );
                                    lemma_xor_zero(zero_bits(n_bits as int));
                                    pool_coeffs = pool_coeffs.update(
                                        j as int,
                                        Seq::new(
                                            basis_views.len(),
                                            |q: int| pool_coeffs[j as int][q] != found_coeffs[q],
                                        ),
                                    );
                                    lemma_combine_len(
                                        zero_bits(n_bits as int),
                                        basis_views,
                                        pool_coeffs[j as int],
                                        basis_views.len() as int,
                                    );
                                }
                                put_back = Some(bj2);
                            },
                            None => {
                                proof {
                                    found_coeffs = pool_coeffs[j as int];
                                    found_idx = j as int;
                                }
                                found = Some(bj);
                                put_back = None;
                            },
                        }
                    } else {
                        put_back = Some(bj);
                    }
                },
                None => {
                    put_back = None;
                },
            }
            pool.insert(j, put_back);
            j += 1;
        }
        let ghost pre_block = block@;
        match &found {
            Some(fv) => {
                if block.get(i) != pixel.value() {
                    block.xor_with(fv);
                    proof {
                        lemma_combine_compose(
                            block0,
                            zero_bits(n_bits as int),
                            basis_views,
                            block_coeffs,
                            found_coeffs,
                            basis_views.len() as int,
                        );
                        lemma_xor_zero(block0);
                        block_coeffs = Seq::new(
                            basis_views.len(),
                            |q: int| block_coeffs[q] != found_coeffs[q],
                        );
                    }
                }
                proof {
                    if i < nb {
                        assert(block@[i as int] == block_weight@[i as int].value_spec());
                    }
                }
            },
            None => {
                proof {
                    if i < nb {
                        assert(pool@[i as int] is Some && pool@[i as int]->0@[i as int]);
                        assert(false);
                    }
                }
            },
        }
        i += 1;
    }
    proof {
        assert(in_span(block@, block0, basis_views));
    }
}

proof fn lemma_unit_byte_bits()
    by (bit_vector)
    ensures
        forall|k: u8, m: u8| k < 8 && m < 8 ==> (#[trigger] byte_bit(1u8 << k, m)) == (m == k),
        forall|m: u8| !byte_bit(0u8, m),
{
}

/// Within the data portion, basis vector `j` has exactly bit `j` set: the
/// unit codewords are a triangular system over the data bits.
proof fn lemma_basis_unit_bit(version: int, ecl: ECL, dlen: int, j: int, p: int)
    requires
        1 <= dlen,
        0 <= j < 8 * dlen,
        0 <= p < 8 * dlen,
    ensures
        basis_vector_spec(version, ecl, dlen, j)[p] == (p == j),
{
    lemma_unit_byte_bits();
    crate::error_correction::lemma_rs_remainder_len(
        unit_bytes_spec(dlen, j),
        block_generator_spec(version, ecl),
    );
    let cat = unit_bytes_spec(dlen, j) + rs_remainder_spec(
        unit_bytes_spec(dlen, j),
        block_generator_spec(version, ecl),
    );
    vstd::arithmetic::div_mod::lemma_fundamental_div_mod(p, 8);
    vstd::arithmetic::div_mod::lemma_fundamental_div_mod(j, 8);
    assert(0 <= p / 8 < dlen);
    assert(cat[p / 8] == unit_bytes_spec(dlen, j)[p / 8]);
    if p / 8 == j / 8 {
        assert(cat[p / 8] == 1u8 << ((7 - (j % 8)) as u8));
        assert(byte_bit(1u8 << ((7 - (j % 8)) as u8), (7 - p % 8) as u8) == ((7 - p % 8) as u8 == (
        7 - (j % 8)) as u8));
        assert((p == j) == (p / 8 == j / 8 && p % 8 == j % 8));
    } else {
        assert(cat[p / 8] == 0u8);
        assert(p != j);
    }
}

/// A combination with every coefficient clear is its base.
proof fn lemma_combine_all_false(
    base: Seq<bool>,
    basis: Seq<Seq<bool>>,
    coeffs: Seq<bool>,
    k: int,
)
    requires
        forall|i: int| 0 <= i < coeffs.len() ==> !coeffs[i],
    ensures
        combine_basis(base, basis, coeffs, k) =~= base,
    decreases k,
{
    if k > 0 {
        lemma_combine_all_false(base, basis, coeffs, k - 1);
    }
}


/// The unit data vector of `dlen` bytes whose only set bit is bit `i`.
pub open spec fn unit_bytes_spec(dlen: int, i: int) -> Seq<u8> {
    Seq::new(
        dlen as nat,
        |b: int|
            if b == i / 8 {
                1u8 << ((7 - (i % 8)) as u8)
            } else {
                0u8
            },
    )
}

/// The `i`-th basis codeword of a block with `dlen` data bytes: the unit
/// data vector with its Reed-Solomon remainder appended, so that any XOR
/// of basis codewords onto a valid codeword flips exactly the chosen data
/// bits along with the parity that keeps the word consistent.
pub open spec fn basis_vector_spec(version: int, ecl: ECL, dlen: int, i: int) -> Seq<bool> {
    bits_of_bytes(
        unit_bytes_spec(dlen, i) + rs_remainder_spec(
            unit_bytes_spec(dlen, i),
            block_generator_spec(version, ecl),
        ),
    )
}

/// The full basis of a block with `dlen` data bytes.
pub open spec fn basis_views_spec(version: int, ecl: ECL, dlen: int) -> Seq<Seq<bool>> {
    Seq::new((8 * dlen) as nat, |i: int| basis_vector_spec(version, ecl, dlen, i))
}

/// The rendered value of one cell of a picture symbol, given the solved
/// block bit streams.
pub open spec fn qart_cell_spec(
    info: Info,
    mask: Mask,
    x: int,
    y: int,
    img: Seq<WeightPixel>,
    solved: Seq<Seq<bool>>,
    w: int,
) -> Module {
    if !info.module.has_spec(Module(DATA)) {
        info.module
    } else if info.module == Module(INFO_REMAINDER) {
        Module(
            DATA | (if crate::mask_bit_spec(mask, x, y) != img[grid_index(w, x, y)].value_spec() {
                ON
            } else {
                0
            }),
        )
    } else {
        Module(
            DATA | (if crate::mask_bit_spec(mask, x, y) != solved[info.block as int][info.bit as int] {
                ON
            } else {
                0
            }),
        )
    }
}

/// A picture symbol in the making: the bit-information overlay, the block
/// codewords of the payload, and a weight for every codeword bit.
#[derive(Debug)]
pub struct QArtCode {
    pub bit_info: BitInfo,
    pub blocks: Vec<BitVec>,
    pub block_weights: Vec<Vec<WeightPixel>>,
}

impl QArtCode {
    /// One block per Reed-Solomon block, each of the layout's codeword
    /// length, with one weight per bit.
    pub open spec fn wf(&self) -> bool {
        let vi = self.bit_info.version.0 as int;
        let ecl = self.bit_info.ecl;
        &&& self.bit_info.wf()
        &&& self.blocks@.len() == blocks_of(vi, ecl)
        &&& self.block_weights@.len() == blocks_of(vi, ecl)
        &&& forall|bi: int|
            0 <= bi < self.blocks@.len() ==> (#[trigger] self.blocks@[bi]).wf()
                && self.blocks@[bi]@.len() == 8 * (block_data_len_spec(vi, ecl, bi)
                + ec_per_block_spec(vi, ecl)) && self.block_weights@[bi]@.len()
                == self.blocks@[bi]@.len()
    }

    /// Splits the padded stream into blocks with their Reed-Solomon bytes
    /// and weighs every bit: the payload's own bits are hard, terminator
    /// padding and error-correction bits are free for the solver.
    #[verifier::rlimit(100)]
    pub fn new(data: Data, mask: Mask) -> (r: QArtCode)
        requires
            data.wf(),
            data.bits@.len() <= 8 * crate::data::data_codewords_spec(
                data.version.0 as int,
                data.ecl,
            ),
        ensures
            ({
                let vi = data.version.0 as int;
                let ecl = data.ecl;
                let dc = crate::data::data_codewords_spec(vi, ecl);
                let padded = padded_data_bytes_spec(data.bits@, dc);
                &&& r.wf()
                &&& r.bit_info.mode == data.mode
                &&& r.bit_info.version == data.version
                &&& r.bit_info.ecl == data.ecl
                &&& r.bit_info.mask == mask
                &&& r.bit_info.infos@ =~= crate::bit_info::bit_info_cells_spec(vi, ecl, mask)
                &&& forall|bi: int|
                    0 <= bi < r.blocks@.len() ==> (#[trigger] r.blocks@[bi])@ =~= bits_of_bytes(
                        block_data_spec(padded, vi, ecl, bi) + block_ec_spec(padded, vi, ecl, bi),
                    )
                &&& forall|bi: int, q: int|
                    0 <= bi < r.block_weights@.len() && 0 <= q < r.block_weights@[bi]@.len() && q
                        < 8 * block_data_len_spec(vi, ecl, bi) && 8 * block_data_start_spec(
                        vi,
                        ecl,
                        bi,
                    ) + q < data.bits@.len() + terminator_len_spec(data.bits@.len() as int, dc)
                        ==> (#[trigger] r.block_weights@[bi]@[q]).weight_spec() == 127
                        && r.block_weights@[bi]@[q].value_spec() == crate::data::bit_of_bytes(
                        padded,
                        8 * block_data_start_spec(vi, ecl, bi) + q,
                    )
                &&& forall|bi: int, q: int|
                    0 <= bi < r.block_weights@.len() && 0 <= q < r.block_weights@[bi]@.len() && !(q
                        < 8 * block_data_len_spec(vi, ecl, bi) && 8 * block_data_start_spec(
                        vi,
                        ecl,
                        bi,
                    ) + q < data.bits@.len() + terminator_len_spec(data.bits@.len() as int, dc))
                        ==> (#[trigger] r.block_weights@[bi]@[q]).weight_spec() == 0
            }),
    {
        let version = data.version;
        let ecl = data.ecl;
        let mode = data.mode;
        let ghost bits0 = data.bits@;
        let ghost vi = version.0 as int;
        proof {
            crate::constants::lemma_capacity_ok(vi, ecl);
        }
        let modules = num_data_modules(version.0) as usize;
        let codewords = modules / 8;
        let num_ec = num_ec_codewords(version.0, ecl) as usize;
        let dc = codewords - num_ec;
        let blocks_n = num_blocks(version.0, ecl) as usize;
        let g2 = codewords % blocks_n;
        let g1 = blocks_n - g2;
        let dpg1 = dc / blocks_n;
        let ecpb = num_ec / blocks_n;
        proof {
            vstd::arithmetic::div_mod::lemma_fundamental_div_mod(dc as int, blocks_n as int);
            vstd::arithmetic::div_mod::lemma_fundamental_div_mod(codewords as int, blocks_n as int);
            vstd::arithmetic::div_mod::lemma_fundamental_div_mod(num_ec as int, blocks_n as int);
            assert(dc as int == blocks_n as int * dpg1 + g2);
            assert(num_ec as int == blocks_n as int * ecpb);
        }
        let hard_len = {
            let len = data.bits.len();
            let remaining = 8 * dc - len;
            len + (if remaining < 4 {
                remaining
            } else {
                4
            })
        };
        let byte_vec = crate::error_correction::pad_to_codewords(data.bits, dc);
        let ghost padded = padded_data_bytes_spec(bits0, dc as int);
        let polys = crate::constants::gen_polynomials();
        let row = &polys[ecpb];
        let mut generator: Vec<u8> = Vec::new();
        let mut gi: usize = 0;
        while gi < ecpb
            invariant
                gi <= ecpb,
                ecpb <= 30,
                row@ =~= crate::constants::gen_poly_row_spec(ecpb as int),
                generator.len() == gi,
                forall|k: int|
                    0 <= k < gi ==> generator[k] == crate::constants::gen_poly_row_spec(
                        ecpb as int,
                    )[k],
            decreases ecpb - gi,
        {
            generator.push(row[gi]);
            gi += 1;
        }
        proof {
            assert(generator@ =~= block_generator_spec(vi, ecl));
        }
        let mut blocks: Vec<BitVec> = Vec::new();
        let mut block_weights: Vec<Vec<WeightPixel>> = Vec::new();
        let mut bi: usize = 0;
        while bi < blocks_n
            invariant
                bi <= blocks_n,
                blocks_n == blocks_of(vi, ecl),
                g1 == group1_blocks_spec(vi, ecl),
                g2 == blocks_n - g1,
                dpg1 == data_per_g1_spec(vi, ecl),
                ecpb == ec_per_block_spec(vi, ecl),
                dc == crate::data::data_codewords_spec(vi, ecl),
                dc as int == blocks_n as int * dpg1 + g2,
                dpg1 <= 122,
                ecpb <= 30,
                1 <= blocks_n <= 81,
                dc <= 3706,
                hard_len <= 8 * dc,
                generator@ =~= block_generator_spec(vi, ecl),
                byte_vec@ =~= padded,
                byte_vec.len() == dc,
                blocks@.len() == bi,
                block_weights@.len() == bi,
                forall|k: int|
                    0 <= k < bi ==> (#[trigger] blocks@[k]).wf() && blocks@[k]@ =~= bits_of_bytes(
                        block_data_spec(padded, vi, ecl, k) + block_ec_spec(padded, vi, ecl, k),
                    ) && blocks@[k]@.len() == 8 * (block_data_len_spec(vi, ecl, k)
                        + ec_per_block_spec(vi, ecl)) && block_weights@[k]@.len()
                        == blocks@[k]@.len(),
                forall|k: int, q: int|
                    0 <= k < bi && 0 <= q < block_weights@[k]@.len() && q < 8
                        * block_data_len_spec(vi, ecl, k) && 8 * block_data_start_spec(vi, ecl, k)
                        + q < hard_len ==> (#[trigger] block_weights@[k]@[q]).weight_spec() == 127
                        && block_weights@[k]@[q].value_spec() == crate::data::bit_of_bytes(
                        padded,
                        8 * block_data_start_spec(vi, ecl, k) + q,
                    ),
                forall|k: int, q: int|
                    0 <= k < bi && 0 <= q < block_weights@[k]@.len() && !(q < 8
                        * block_data_len_spec(vi, ecl, k) && 8 * block_data_start_spec(vi, ecl, k)
                        + q < hard_len) ==> (#[trigger] block_weights@[k]@[q]).weight_spec() == 0,
            decreases blocks_n - bi,
        {
            proof {
                vstd::arithmetic::mul::lemma_mul_inequality(
                    bi as int + 1,
                    blocks_n as int,
                    dpg1 as int,
                );
                vstd::arithmetic::mul::lemma_mul_is_commutative(bi as int + 1, dpg1 as int);
                vstd::arithmetic::mul::lemma_mul_is_commutative(blocks_n as int, dpg1 as int);
                vstd::arithmetic::mul::lemma_mul_is_distributive_add_other_way(
                    dpg1 as int,
                    bi as int,
                    1,
                );
            }
            let start = bi * dpg1 + (if bi >= g1 {
                bi - g1
            } else {
                0
            });
            let dlen = dpg1 + (if bi >= g1 {
                1
            } else {
                0
            });
            let mut bd: Vec<u8> = Vec::new();
            let mut c: usize = 0;
            while c < dlen
                invariant
                    c <= dlen,
                    start + dlen <= byte_vec.len(),
                    bd.len() == c,
                    forall|k: int| 0 <= k < c ==> bd[k] == byte_vec[start + k],
                decreases dlen - c,
            {
                bd.push(byte_vec[start + c]);
                c += 1;
            }
            proof {
                assert(bd@ =~= block_data_spec(padded, vi, ecl, bi as int));
            }
            let ecv = crate::error_correction::remainder(bd.as_slice(), generator.as_slice());
            proof {
                crate::error_correction::lemma_rs_remainder_len(
                    block_data_spec(padded, vi, ecl, bi as int),
                    block_generator_spec(vi, ecl),
                );
            }
            let mut cat = bd;
            let mut e: usize = 0;
            let elen = ecv.len();
            while e < elen
                invariant
                    e <= elen,
                    elen == ecv@.len(),
                    cat@.len() == dlen + e,
                    dlen <= 123,
                    elen <= 30,
                    cat@.take(dlen as int) =~= block_data_spec(padded, vi, ecl, bi as int),
                    forall|k: int| 0 <= k < e ==> cat@[dlen + k] == ecv@[k],
                decreases elen - e,
            {
                cat.push(ecv[e]);
                e += 1;
            }
            proof {
                crate::error_correction::lemma_rs_remainder_len(
                    block_data_spec(padded, vi, ecl, bi as int),
                    block_generator_spec(vi, ecl),
                );
                assert(cat@ =~= block_data_spec(padded, vi, ecl, bi as int) + block_ec_spec(
                    padded,
                    vi,
                    ecl,
                    bi as int,
                ));
            }
            let blk = BitVec::from_bytes(cat);
            let total_bits = 8 * (dlen + ecpb);
            let mut wrow: Vec<WeightPixel> = Vec::new();
            let mut q: usize = 0;
            while q < total_bits
                invariant
                    q <= total_bits,
                    total_bits == 8 * (dlen + ecpb),
                    dlen <= 123,
                    ecpb <= 30,
                    start + dlen <= byte_vec.len(),
                    start as int == block_data_start_spec(vi, ecl, bi as int),
                    dlen as int == block_data_len_spec(vi, ecl, bi as int),
                    byte_vec.len() == dc,
                    byte_vec@ =~= padded,
                    dc <= 3706,
                    hard_len <= 8 * dc,
                    wrow@.len() == q,
                    forall|p: int|
                        0 <= p < q && p < 8 * dlen && 8 * (start as int) + p < hard_len ==> (
                        #[trigger] wrow@[p]).weight_spec() == 127 && wrow@[p].value_spec()
                            == crate::data::bit_of_bytes(padded, 8 * (start as int) + p),
                    forall|p: int|
                        0 <= p < q && !(p < 8 * dlen && 8 * (start as int) + p < hard_len) ==> (
                        #[trigger] wrow@[p]).weight_spec() == 0,
                decreases total_bits - q,
            {
                let global = 8 * start + q;
                let pixel: WeightPixel;
                if q < 8 * dlen && global < hard_len {
                    let b = (byte_vec[global / 8] >> (7 - (global % 8)) as u32) & 1 == 1;
                    pixel = WeightPixel::new(b, 127);
                } else {
                    pixel = WeightPixel::new(false, 0);
                }
                proof {
                    if q < 8 * dlen && 8 * start + q < hard_len {
                        vstd::arithmetic::div_mod::lemma_fundamental_div_mod(
                            (8 * start + q) as int,
                            8,
                        );
                    }
                }
                wrow.push(pixel);
                q += 1;
            }
            blocks.push(blk);
            block_weights.push(wrow);
            bi += 1;
        }
        let bit_info = BitInfo::new(mode, version, ecl, mask);
        QArtCode { bit_info, blocks, block_weights }
    }
}


impl QArtCode {
    /// Renders the picture symbol: every weighted image bit the basis can
    /// still control is steered toward the target, fixed patterns are kept,
    /// remainder cells take the image's bit outright, and each finished
    /// block stays in the affine span of its codeword and basis, so the
    /// data bits that were re-chosen carry their Reed-Solomon parity with
    /// them. See `qart_cell_spec`.
    #[verifier::rlimit(100)]
    pub fn to_qr_code(self, img_weights: &Vec<WeightPixel>) -> (r: QrCode)
        requires
            self.wf(),
            img_weights@.len() == self.bit_info.width * self.bit_info.width,
        ensures
            r.mode == self.bit_info.mode,
            r.version == self.bit_info.version,
            r.ecl == self.bit_info.ecl,
            r.mask == self.bit_info.mask,
            r.matrix.wf(),
            r.matrix.width == self.bit_info.width,
            exists|solved: Seq<Seq<bool>>|
                {
                    let vi = self.bit_info.version.0 as int;
                    let ecl = self.bit_info.ecl;
                    let w = self.bit_info.width as int;
                    &&& #[trigger] solved.len() == self.blocks@.len()
                    &&& (forall|bi: int|
                        0 <= bi < solved.len() ==> #[trigger] in_span(
                            solved[bi],
                            self.blocks@[bi]@,
                            basis_views_spec(vi, ecl, block_data_len_spec(vi, ecl, bi)),
                        ) && solved[bi].len() == self.blocks@[bi]@.len())
                    &&& (forall|bi: int, q: int|
                        0 <= bi < solved.len() && 0 <= q < 8 * block_data_len_spec(vi, ecl, bi)
                            && 0 <= q < self.block_weights@[bi]@.len() && (
                        #[trigger] self.block_weights@[bi]@[q]).weight_spec() == 127
                            ==> solved[bi][q] == self.block_weights@[bi]@[q].value_spec())
                    &&& (forall|x: int, y: int|
                        0 <= x < w && 0 <= y < w ==> r.matrix.value@[grid_index(w, x, y)]
                            == #[trigger] qart_cell_spec(
                            self.bit_info.infos@[grid_index(w, x, y)],
                            self.bit_info.mask,
                            x,
                            y,
                            img_weights@,
                            solved,
                            w,
                        ))
                },
    {
        let QArtCode { bit_info, mut blocks, mut block_weights } = self;
        let ghost weights0 = block_weights@;
        let version = bit_info.version;
        let ecl = bit_info.ecl;
        let mask = bit_info.mask;
        let ghost vi = version.0 as int;
        proof {
            crate::constants::lemma_capacity_ok(vi, ecl);
        }
        let w = bit_info.width;
        let modules = num_data_modules(version.0) as usize;
        let codewords = modules / 8;
        let num_ec = num_ec_codewords(version.0, ecl) as usize;
        let dc = codewords - num_ec;
        let blocks_n = num_blocks(version.0, ecl) as usize;
        let g2 = codewords % blocks_n;
        let g1 = blocks_n - g2;
        let dpg1 = dc / blocks_n;
        let ecpb = num_ec / blocks_n;
        proof {
            vstd::arithmetic::div_mod::lemma_fundamental_div_mod(dc as int, blocks_n as int);
            vstd::arithmetic::div_mod::lemma_fundamental_div_mod(num_ec as int, blocks_n as int);
            assert(dc as int == blocks_n as int * dpg1 + g2);
        }

        // Re-weigh the solver's soft bits from the target image.
        let ghost blocks0 = blocks@;
        let mut y: usize = 0;
        while y < w
            invariant
                y <= w,
                bit_info.wf(),
                w == bit_info.width,
                vi == version.0 as int,
                version == bit_info.version,
                ecl == bit_info.ecl,
                img_weights@.len() == w * w,
                blocks@ == blocks0,
                blocks@.len() == blocks_of(vi, ecl),
                block_weights@.len() == blocks_of(vi, ecl),
                weights0.len() == blocks_of(vi, ecl),
                forall|b: int, q: int|
                    0 <= b < weights0.len() && 0 <= q < weights0[b]@.len() && (
                    #[trigger] weights0[b]@[q]).weight_spec() == 127 ==> 0 <= q
                        < block_weights@[b]@.len() && block_weights@[b]@[q] == weights0[b]@[q],
                forall|b: int| 0 <= b < weights0.len() ==> (#[trigger] block_weights@[b])@.len()
                    == weights0[b]@.len(),
                forall|bi: int|
                    0 <= bi < blocks@.len() ==> (#[trigger] blocks@[bi]).wf() && blocks@[bi]@.len()
                        == 8 * (block_data_len_spec(vi, ecl, bi) + ec_per_block_spec(vi, ecl))
                        && block_weights@[bi]@.len() == blocks@[bi]@.len(),
            decreases w - y,
        {
            let mut x: usize = 0;
            while x < w
                invariant
                    x <= w,
                    y < w,
                    bit_info.wf(),
                    w == bit_info.width,
                    vi == version.0 as int,
                    version == bit_info.version,
                    ecl == bit_info.ecl,
                    img_weights@.len() == w * w,
                    blocks@ == blocks0,
                    blocks@.len() == blocks_of(vi, ecl),
                    block_weights@.len() == blocks_of(vi, ecl),
                    weights0.len() == blocks_of(vi, ecl),
                    forall|b: int, q: int|
                        0 <= b < weights0.len() && 0 <= q < weights0[b]@.len() && (
                        #[trigger] weights0[b]@[q]).weight_spec() == 127 ==> 0 <= q
                            < block_weights@[b]@.len() && block_weights@[b]@[q] == weights0[b]@[q],
                    forall|b: int| 0 <= b < weights0.len() ==> (#[trigger] block_weights@[b])@.len()
                        == weights0[b]@.len(),
                    forall|bi: int|
                        0 <= bi < blocks@.len() ==> (#[trigger] blocks@[bi]).wf()
                            && blocks@[bi]@.len() == 8 * (block_data_len_spec(vi, ecl, bi)
                            + ec_per_block_spec(vi, ecl)) && block_weights@[bi]@.len()
                            == blocks@[bi]@.len(),
                decreases w - x,
            {
                proof {
                    crate::matrix::lemma_grid_index_bounds(w as int, x as int, y as int);
                }
                let info = bit_info.get(x, y);
                if info.module.has(Module(DATA)) && !(info.module == Module(INFO_REMAINDER)) {
                    let b = info.block as usize;
                    let bit = info.bit as usize;
                    proof {
                        lemma_weight_pixel_bits();
                        assert(info.bit < 8 * (block_data_len_spec(vi, ecl, info.block as int)
                            + ec_per_block_spec(vi, ecl)));
                    }
                    let ghost pre_weights = block_weights@;
                    proof {
                        assert(b < block_weights@.len());
                        assert(pre_weights[b as int]@.len() == blocks@[b as int]@.len());
                    }
                    let mut wrow = block_weights.remove(b);
                    proof {
                        assert(wrow@ == pre_weights[b as int]@);
                        assert(bit < wrow@.len());
                    }
                    if wrow[bit].weight() < 127 {
                        let img = img_weights[y * w + x];
                        let flip = crate::mask_fn(mask, x as u16, y as u16);
                        let value = flip != img.value();
                        wrow.set(bit, WeightPixel::new(value, img.weight()));
                    }
                    block_weights.insert(b, wrow);
                    proof {
                        assert(block_weights@.len() == pre_weights.len());
                        assert forall|k: int|
                            0 <= k < pre_weights.len() && k != b implies block_weights@[k]
                            == pre_weights[k] by {}
                        assert(block_weights@[b as int]@.len() == pre_weights[b as int]@.len());
                    }
                }
                x += 1;
            }
            y += 1;
        }

        // The basis: one codeword per controllable data bit, for both block
        // sizes in use.
        let polys = crate::constants::gen_polynomials();
        let row = &polys[ecpb];
        let mut generator: Vec<u8> = Vec::new();
        let mut gi: usize = 0;
        while gi < ecpb
            invariant
                gi <= ecpb,
                ecpb <= 30,
                row@ =~= crate::constants::gen_poly_row_spec(ecpb as int),
                generator.len() == gi,
                forall|k: int|
                    0 <= k < gi ==> generator[k] == crate::constants::gen_poly_row_spec(
                        ecpb as int,
                    )[k],
            decreases ecpb - gi,
        {
            generator.push(row[gi]);
            gi += 1;
        }
        proof {
            assert(generator@ =~= block_generator_spec(vi, ecl));
        }
        let g1_basis = build_basis(dpg1, ecpb, &generator, Ghost(vi), Ghost(ecl));
        let g2_basis = build_basis(dpg1 + 1, ecpb, &generator, Ghost(vi), Ghost(ecl));

        // Solve each block greedily toward its weighted bits.
        let mut bi: usize = 0;
        while bi < blocks_n
            invariant
                bi <= blocks_n,
                blocks_n == blocks_of(vi, ecl),
                g1 == group1_blocks_spec(vi, ecl),
                dpg1 == data_per_g1_spec(vi, ecl),
                ecpb == ec_per_block_spec(vi, ecl),
                1 <= blocks_n <= 81,
                dpg1 <= 122,
                ecpb <= 30,
                blocks@.len() == blocks_n,
                blocks0.len() == blocks_n,
                block_weights@.len() == blocks_n,
                g1_basis@.len() == 8 * dpg1,
                g2_basis@.len() == 8 * (dpg1 + 1),
                forall|j: int|
                    0 <= j < g1_basis@.len() ==> (#[trigger] g1_basis@[j]).wf() && g1_basis@[j]@
                        =~= basis_vector_spec(vi, ecl, dpg1 as int, j) && g1_basis@[j]@.len() == 8
                        * (dpg1 + ecpb),
                forall|j: int|
                    0 <= j < g2_basis@.len() ==> (#[trigger] g2_basis@[j]).wf() && g2_basis@[j]@
                        =~= basis_vector_spec(vi, ecl, dpg1 as int + 1, j) && g2_basis@[j]@.len()
                        == 8 * (dpg1 + 1 + ecpb),
                forall|k: int|
                    0 <= k < blocks_n ==> (#[trigger] blocks0[k]).wf() && blocks0[k]@.len() == 8 * (
                    block_data_len_spec(vi, ecl, k) + ec_per_block_spec(vi, ecl))
                        && block_weights@[k]@.len() == blocks0[k]@.len(),
                forall|k: int|
                    bi <= k < blocks_n ==> (#[trigger] blocks@[k]) == blocks0[k],
                forall|k: int|
                    0 <= k < bi ==> (#[trigger] blocks@[k]).wf() && blocks@[k]@.len()
                        == blocks0[k]@.len() && in_span(
                        blocks@[k]@,
                        blocks0[k]@,
                        basis_views_spec(vi, ecl, block_data_len_spec(vi, ecl, k)),
                    ),
                forall|k: int, q: int|
                    0 <= k < bi && 0 <= q < 8 * block_data_len_spec(vi, ecl, k) && 0 <= q
                        < block_weights@[k]@.len() && (
                    #[trigger] block_weights@[k]@[q]).weight_spec() > 0 ==> blocks@[k]@[q]
                        == block_weights@[k]@[q].value_spec(),
            decreases blocks_n - bi,
        {
            let mut blk = blocks.remove(bi);
            if bi < g1 {
                proof {
                    assert forall|j: int, p: int|
                        0 <= j < g1_basis@.len() && 0 <= p < g1_basis@.len() implies #[trigger] g1_basis@[j]@[p]
                        == (p == j) by {
                        lemma_basis_unit_bit(vi, ecl, dpg1 as int, j, p);
                    }
                }
                apply_first_matches(&mut blk, &block_weights[bi], &g1_basis);
                proof {
                    assert(Seq::new(g1_basis@.len(), |j: int| g1_basis@[j]@) =~= basis_views_spec(
                        vi,
                        ecl,
                        dpg1 as int,
                    ));
                }
            } else {
                proof {
                    assert forall|j: int, p: int|
                        0 <= j < g2_basis@.len() && 0 <= p < g2_basis@.len() implies #[trigger] g2_basis@[j]@[p]
                        == (p == j) by {
                        lemma_basis_unit_bit(vi, ecl, dpg1 as int + 1, j, p);
                    }
                }
                apply_first_matches(&mut blk, &block_weights[bi], &g2_basis);
                proof {
                    assert(Seq::new(g2_basis@.len(), |j: int| g2_basis@[j]@) =~= basis_views_spec(
                        vi,
                        ecl,
                        dpg1 as int + 1,
                    ));
                }
            }
            blocks.insert(bi, blk);
            bi += 1;
        }
        let ghost solved = Seq::new(blocks@.len(), |k: int| blocks@[k]@);
        proof {
            assert forall|k: int, q: int|
                0 <= k < solved.len() && 0 <= q < 8 * block_data_len_spec(vi, ecl, k) && 0 <= q
                    < weights0[k]@.len() && (#[trigger] weights0[k]@[q]).weight_spec() == 127
                implies solved[k][q] == weights0[k]@[q].value_spec() by {
                assert(block_weights@[k]@[q] == weights0[k]@[q]);
            }
        }

        // Render the symbol.
        let mut matrix = Matrix::new(version, Module(0));
        let mut y: usize = 0;
        while y < w
            invariant
                y <= w,
                matrix.wf(),
                bit_info.wf(),
                w == matrix.width,
                w == bit_info.width,
                vi == version.0 as int,
                version == bit_info.version,
                ecl == bit_info.ecl,
                mask == bit_info.mask,
                img_weights@.len() == w * w,
                blocks@.len() == blocks_of(vi, ecl),
                solved == Seq::new(blocks@.len(), |k: int| blocks@[k]@),
                forall|k: int|
                    0 <= k < blocks@.len() ==> (#[trigger] blocks@[k]).wf() && blocks@[k]@.len()
                        == 8 * (block_data_len_spec(vi, ecl, k) + ec_per_block_spec(vi, ecl)),
                forall|i: int|
                    0 <= i < y * w ==> matrix.value@[i] == qart_cell_spec(
                        bit_info.infos@[i],
                        mask,
                        i % (w as int),
                        i / (w as int),
                        img_weights@,
                        solved,
                        w as int,
                    ),
            decreases w - y,
        {
            let mut x: usize = 0;
            while x < w
                invariant
                    x <= w,
                    y < w,
                    matrix.wf(),
                    bit_info.wf(),
                    w == matrix.width,
                    w == bit_info.width,
                    vi == version.0 as int,
                    version == bit_info.version,
                    ecl == bit_info.ecl,
                    mask == bit_info.mask,
                    img_weights@.len() == w * w,
                    blocks@.len() == blocks_of(vi, ecl),
                    solved == Seq::new(blocks@.len(), |k: int| blocks@[k]@),
                    forall|k: int|
                        0 <= k < blocks@.len() ==> (#[trigger] blocks@[k]).wf()
                            && blocks@[k]@.len() == 8 * (block_data_len_spec(vi, ecl, k)
                            + ec_per_block_spec(vi, ecl)),
                    forall|i: int|
                        0 <= i < y * w + x ==> matrix.value@[i] == qart_cell_spec(
                            bit_info.infos@[i],
                            mask,
                            i % (w as int),
                            i / (w as int),
                            img_weights@,
                            solved,
                            w as int,
                        ),
                decreases w - x,
            {
                proof {
                    crate::matrix::lemma_grid_index_bounds(w as int, x as int, y as int);
                    crate::matrix::lemma_grid_decompose(w as int, x as int, y as int);
                }
                let info = bit_info.get(x, y);
                let cell: Module;
                if !info.module.has(Module(DATA)) {
                    cell = info.module;
                } else if info.module == Module(INFO_REMAINDER) {
                    let on = crate::mask_fn(mask, x as u16, y as u16) != img_weights[y * w
                        + x].value();
                    cell = Module(
                        DATA | (if on {
                            ON
                        } else {
                            0
                        }),
                    );
                } else {
                    let b = info.block as usize;
                    let bit = info.bit as usize;
                    let on = crate::mask_fn(mask, x as u16, y as u16) != blocks[b].get(bit);
                    cell = Module(
                        DATA | (if on {
                            ON
                        } else {
                            0
                        }),
                    );
                }
                matrix.set(x, y, cell);
                proof {
                    assert(matrix.value@[y * w + x] == qart_cell_spec(
                        bit_info.infos@[y * w + x],
                        mask,
                        x as int,
                        y as int,
                        img_weights@,
                        solved,
                        w as int,
                    ));
                }
                x += 1;
            }
            proof {
                vstd::arithmetic::mul::lemma_mul_is_distributive_add_other_way(
                    w as int,
                    y as int,
                    1,
                );
            }
            y += 1;
        }
        proof {
            let wi = w as int;
            assert forall|x: int, y: int| 0 <= x < wi && 0 <= y < wi implies matrix.value@[
                grid_index(wi, x, y)
            ] == #[trigger] qart_cell_spec(
                bit_info.infos@[grid_index(wi, x, y)],
                mask,
                x,
                y,
                img_weights@,
                solved,
                wi,
            ) by {
                crate::matrix::lemma_grid_index_bounds(wi, x, y);
                crate::matrix::lemma_grid_decompose(wi, x, y);
            }
            assert(solved.len() == blocks0.len());
        }
        QrCode { matrix, mode: bit_info.mode, version, ecl, mask }
    }
}

/// The basis of a block with `dlen` data bytes: one unit codeword per data
/// bit; see `basis_vector_spec`.
fn build_basis(dlen: usize, ecpb: usize, generator: &Vec<u8>, Ghost(version): Ghost<int>, Ghost(
    ecl,
): Ghost<ECL>) -> (r: Vec<BitVec>)
    requires
        1 <= dlen <= 123,
        7 <= ecpb <= 30,
        generator@ =~= block_generator_spec(version, ecl),
        generator@.len() == ecpb,
    ensures
        r@.len() == 8 * dlen,
        forall|j: int|
            0 <= j < r@.len() ==> (#[trigger] r@[j]).wf() && r@[j]@ =~= basis_vector_spec(
                version,
                ecl,
                dlen as int,
                j,
            ) && r@[j]@.len() == 8 * (dlen + ecpb),
{
    let mut r: Vec<BitVec> = Vec::new();
    let total = 8 * dlen;
    let mut i: usize = 0;
    while i < total
        invariant
            i <= total,
            total == 8 * dlen,
            1 <= dlen <= 123,
            7 <= ecpb <= 30,
            generator@ =~= block_generator_spec(version, ecl),
            generator@.len() == ecpb,
            r@.len() == i,
            forall|j: int|
                0 <= j < i ==> (#[trigger] r@[j]).wf() && r@[j]@ =~= basis_vector_spec(
                    version,
                    ecl,
                    dlen as int,
                    j,
                ) && r@[j]@.len() == 8 * (dlen + ecpb),
        decreases total - i,
    {
        let mut ub: Vec<u8> = Vec::new();
        let mut b: usize = 0;
        while b < dlen
            invariant
                b <= dlen,
                i < 8 * dlen,
                ub@.len() == b,
                forall|k: int| 0 <= k < b ==> ub@[k] == unit_bytes_spec(dlen as int, i as int)[k],
            decreases dlen - b,
        {
            proof {
                vstd::arithmetic::div_mod::lemma_fundamental_div_mod(i as int, 8);
            }
            if b == i / 8 {
                ub.push(1u8 << (7 - (i % 8)) as u32);
            } else {
                ub.push(0);
            }
            b += 1;
        }
        proof {
            assert(ub@ =~= unit_bytes_spec(dlen as int, i as int));
        }
        let rem = crate::error_correction::remainder(ub.as_slice(), generator.as_slice());
        proof {
            crate::error_correction::lemma_rs_remainder_len(
                unit_bytes_spec(dlen as int, i as int),
                block_generator_spec(version, ecl),
            );
        }
        let mut cat = ub;
        let mut e: usize = 0;
        let elen = rem.len();
        while e < elen
            invariant
                e <= elen,
                elen == rem@.len(),
                elen == ecpb,
                dlen <= 123,
                cat@.len() == dlen + e,
                cat@.take(dlen as int) =~= unit_bytes_spec(dlen as int, i as int),
                forall|k: int| 0 <= k < e ==> cat@[dlen + k] == rem@[k],
            decreases elen - e,
        {
            cat.push(rem[e]);
            e += 1;
        }
        proof {
            assert(cat@ =~= unit_bytes_spec(dlen as int, i as int) + rs_remainder_spec(
                unit_bytes_spec(dlen as int, i as int),
                block_generator_spec(version, ecl),
            ));
        }
        let v = BitVec::from_bytes(cat);
        r.push(v);
        i += 1;
    }
    r
}

} // verus!
