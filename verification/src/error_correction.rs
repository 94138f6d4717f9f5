use vstd::prelude::*;

use crate::constants::{gen_poly_row_spec, num_blocks, num_blocks_spec, num_data_modules,
    num_data_modules_spec, num_ec_codewords, num_ec_codewords_spec};
use crate::data::{bits_of_byte, byte_bit, byte_from_bits_at, bytes_of_bits, data_codewords_spec,
    BitVec, Data};
use crate::math::{gf_exp, gf_log};
use crate::qr_code::ECL;

verus! {

/// One long-division step over GF(256): when the byte at `i` is non-zero,
/// folds the generator scaled by that byte into the `gen.len()` bytes below
/// it; the byte at `i` itself is left in place and never read again.
pub open spec fn rs_step(buf: Seq<u8>, gen: Seq<u8>, i: int) -> Seq<u8> {
    if buf[i] == 0 {
        buf
    } else {
        let a = gf_log(buf[i]);
        Seq::new(
            buf.len(),
            |p: int|
                if i + 1 <= p <= i + gen.len() {
                    buf[p] ^ gf_exp((gen[p - i - 1] + a) % 255)
                } else {
                    buf[p]
                },
        )
    }
}

/// The buffer after the first `k` long-division steps.
pub open spec fn rs_run(buf: Seq<u8>, gen: Seq<u8>, k: int) -> Seq<u8>
    decreases k,
{
    if k <= 0 {
        buf
    } else {
        rs_step(rs_run(buf, gen, k - 1), gen, k - 1)
    }
}

/// The Reed-Solomon remainder of `data` divided by the generator polynomial
/// whose coefficient exponents are `gen`: the trailing bytes of the work
/// buffer after the division has eliminated every data byte.
pub open spec fn rs_remainder_spec(data: Seq<u8>, gen: Seq<u8>) -> Seq<u8> {
    let buf = data + Seq::new(gen.len(), |p: int| 0u8);
    rs_run(buf, gen, data.len() as int).subrange(
        data.len() as int,
        data.len() + gen.len() as int,
    )
}

proof fn lemma_rs_run_len(buf: Seq<u8>, gen: Seq<u8>, k: int)
    ensures
        rs_run(buf, gen, k).len() == buf.len(),
    decreases k,
{
    if k > 0 {
        lemma_rs_run_len(buf, gen, k - 1);
    }
}

/// Computes the Reed-Solomon remainder; see `rs_remainder_spec`.
pub fn remainder(data: &[u8], generator: &[u8]) -> (r: Vec<u8>)
    requires
        data@.len() + generator@.len() <= usize::MAX,
    ensures
        r@ =~= rs_remainder_spec(data@, generator@),
{
    let exp = crate::math::exp_table();
    let log = crate::math::log_table();
    let n = data.len();
    let e = generator.len();
    let ghost buf0 = data@ + Seq::new(generator@.len(), |p: int| 0u8);
    let mut base: Vec<u8> = Vec::new();
    let mut i: usize = 0;
    while i < n
        invariant
            i <= n,
            n == data@.len(),
            base.len() == i,
            forall|p: int| 0 <= p < i ==> base[p] == data@[p],
        decreases n - i,
    {
        base.push(data[i]);
        i += 1;
    }
    let mut j: usize = 0;
    while j < e
        invariant
            j <= e,
            n == data@.len(),
            e == generator@.len(),
            base.len() == n + j,
            forall|p: int| 0 <= p < n ==> base[p] == data@[p],
            forall|p: int| n <= p < n + j ==> base[p] == 0u8,
        decreases e - j,
    {
        base.push(0);
        j += 1;
    }
    proof {
        assert(base@ =~= buf0);
        lemma_rs_run_len(buf0, generator@, 0);
    }
    let mut i: usize = 0;
    while i < n
        invariant
            i <= n,
            n == data@.len(),
            e == generator@.len(),
            n + e <= usize::MAX,
            base.len() == n + e,
            exp.len() == 255,
            forall|k: int| 0 <= k < 255 ==> exp[k] == gf_exp(k),
            log.len() == 256,
            forall|v: int| 0 <= v < 256 ==> log[v] == gf_log(v as u8),
            base@ =~= rs_run(buf0, generator@, i as int),
        decreases n - i,
    {
        proof {
            lemma_rs_run_len(buf0, generator@, i as int);
        }
        let ghost pre = base@;
        if base[i] != 0 {
            let alpha = log[base[i] as usize];
            let mut j: usize = 0;
            while j < e
                invariant
                    j <= e,
                    i < n,
                    n + e <= usize::MAX,
                    e == generator@.len(),
                    base.len() == n + e,
                    pre.len() == n + e,
                    exp.len() == 255,
                    forall|k: int| 0 <= k < 255 ==> exp[k] == gf_exp(k),
                    alpha as int == gf_log(pre[i as int]),
                    pre[i as int] != 0,
                    forall|p: int|
                        0 <= p < n + e && !(i + 1 <= p <= i + j) ==> base[p] == pre[p],
                    forall|p: int|
                        i + 1 <= p <= i + j ==> base[p] == (pre[p] ^ gf_exp(
                            (generator@[p - i - 1] + gf_log(pre[i as int])) % 255,
                        )),
                decreases e - j,
            {
                let idx = (generator[j] as usize + alpha as usize) % 255;
                let updated = base[i + 1 + j] ^ exp[idx];
                base.set(i + 1 + j, updated);
                j += 1;
            }
            proof {
                assert(base@ =~= rs_step(pre, generator@, i as int));
            }
        } else {
            proof {
                assert(base@ =~= rs_step(pre, generator@, i as int));
            }
        }
        i += 1;
    }
    let mut r: Vec<u8> = Vec::new();
    let mut j: usize = 0;
    while j < e
        invariant
            j <= e,
            n == data@.len(),
            e == generator@.len(),
            base.len() == n + e,
            r.len() == j,
            base@ =~= rs_run(buf0, generator@, n as int),
            forall|p: int| 0 <= p < j ==> r[p] == base[n + p],
        decreases e - j,
    {
        r.push(base[n + j]);
        j += 1;
    }
    r
}

/// Number of Reed-Solomon blocks of the symbol.
pub open spec fn blocks_of(version: int, ecl: ECL) -> int {
    num_blocks_spec(version, ecl)
}

/// Blocks that carry one data byte more than the base block size.
pub open spec fn group2_blocks_spec(version: int, ecl: ECL) -> int {
    (num_data_modules_spec(version) / 8) % blocks_of(version, ecl)
}

/// Blocks that carry the base number of data bytes.
pub open spec fn group1_blocks_spec(version: int, ecl: ECL) -> int {
    blocks_of(version, ecl) - group2_blocks_spec(version, ecl)
}

/// Data bytes per group-one block.
pub open spec fn data_per_g1_spec(version: int, ecl: ECL) -> int {
    data_codewords_spec(version, ecl) / blocks_of(version, ecl)
}

/// Error-correction bytes per block.
pub open spec fn ec_per_block_spec(version: int, ecl: ECL) -> int {
    num_ec_codewords_spec(version, ecl) / blocks_of(version, ecl)
}

/// Data bytes of block `bi`: one more in group two.
pub open spec fn block_data_len_spec(version: int, ecl: ECL, bi: int) -> int {
    data_per_g1_spec(version, ecl) + if bi >= group1_blocks_spec(version, ecl) {
        1int
    } else {
        0int
    }
}

/// Offset of block `bi`'s data within the padded data codewords.
pub open spec fn block_data_start_spec(version: int, ecl: ECL, bi: int) -> int {
    bi * data_per_g1_spec(version, ecl) + if bi >= group1_blocks_spec(version, ecl) {
        bi - group1_blocks_spec(version, ecl)
    } else {
        0int
    }
}

/// The data bytes of block `bi` out of the padded codeword stream.
pub open spec fn block_data_spec(padded: Seq<u8>, version: int, ecl: ECL, bi: int) -> Seq<u8> {
    padded.subrange(
        block_data_start_spec(version, ecl, bi),
        block_data_start_spec(version, ecl, bi) + block_data_len_spec(version, ecl, bi),
    )
}

/// The generator polynomial exponents used by the symbol's blocks.
pub open spec fn block_generator_spec(version: int, ecl: ECL) -> Seq<u8> {
    gen_poly_row_spec(ec_per_block_spec(version, ecl)).take(ec_per_block_spec(version, ecl))
}

/// The error-correction bytes of block `bi`: the Reed-Solomon remainder of
/// its data bytes.
pub open spec fn block_ec_spec(padded: Seq<u8>, version: int, ecl: ECL, bi: int) -> Seq<u8> {
    rs_remainder_spec(block_data_spec(padded, version, ecl, bi), block_generator_spec(version, ecl))
}

/// Alternating pad bytes 0xEC and 0x11.
pub open spec fn pad_bytes_spec(m: int) -> Seq<u8> {
    Seq::new(
        m as nat,
        |k: int|
            if k % 2 == 0 {
                0xECu8
            } else {
                0x11u8
            },
    )
}

/// Length of the terminator: four zero bits, or fewer when the capacity
/// leaves less room.
pub open spec fn terminator_len_spec(len: int, data_cw: int) -> int {
    if 8 * data_cw - len < 4 {
        8 * data_cw - len
    } else {
        4
    }
}

/// The padded data codewords: the segment bits, the terminator, zero bits
/// to the byte boundary, then alternating pad bytes up to the capacity.
pub open spec fn padded_data_bytes_spec(bits: Seq<bool>, data_cw: int) -> Seq<u8> {
    let t = terminator_len_spec(bits.len() as int, data_cw);
    let aligned = ((bits.len() + t + 7) / 8) * 8;
    let full = bits + Seq::new((aligned - bits.len()) as nat, |k: int| false);
    bytes_of_bits(full) + pad_bytes_spec(data_cw - aligned / 8)
}

/// The padding always fills the data capacity exactly: the padded stream of
/// any segment that fits holds precisely `data_codewords` bytes.
pub proof fn lemma_padded_fills_capacity(bits: Seq<bool>, data_cw: int)
    requires
        0 <= bits.len() <= 8 * data_cw,
    ensures
        padded_data_bytes_spec(bits, data_cw).len() == data_cw,
        ((bits.len() + terminator_len_spec(bits.len() as int, data_cw) + 7) / 8) * 8 <= 8
            * data_cw,
        bits.len() <= ((bits.len() + terminator_len_spec(bits.len() as int, data_cw) + 7) / 8) * 8,
        (((bits.len() + terminator_len_spec(bits.len() as int, data_cw) + 7) / 8) * 8) % 8 == 0,
{
    let t = terminator_len_spec(bits.len() as int, data_cw);
    let aligned = ((bits.len() + t + 7) / 8) * 8;
    assert(bits.len() + t <= 8 * data_cw);
    assert(aligned <= 8 * data_cw) by {
        vstd::arithmetic::div_mod::lemma_div_is_ordered(bits.len() + t + 7, 8 * data_cw + 7, 8);
        assert((8 * data_cw + 7) / 8 == data_cw) by {
            vstd::arithmetic::div_mod::lemma_fundamental_div_mod_converse(
                8 * data_cw + 7,
                8,
                data_cw,
                7,
            );
        }
    }
    assert(aligned % 8 == 0) by {
        vstd::arithmetic::div_mod::lemma_fundamental_div_mod((bits.len() + t + 7) as int, 8);
        vstd::arithmetic::div_mod::lemma_fundamental_div_mod_converse(
            aligned,
            8,
            (bits.len() + t + 7) / 8,
            0,
        );
    }
    assert(bits.len() <= aligned) by {
        vstd::arithmetic::div_mod::lemma_div_is_ordered(bits.len() as int, bits.len() + t + 7, 8);
        vstd::arithmetic::div_mod::lemma_fundamental_div_mod(bits.len() as int, 8);
    }
    let full = bits + Seq::new((aligned - bits.len()) as nat, |k: int| false);
    assert(bytes_of_bits(full).len() == aligned / 8) by {
        vstd::arithmetic::div_mod::lemma_fundamental_div_mod_converse(
            (aligned + 7) as int,
            8,
            aligned / 8,
            7,
        );
        vstd::arithmetic::div_mod::lemma_fundamental_div_mod(aligned, 8);
    }
}

/// Value of position `p` of the interleaved codeword stream: data bytes
/// column-interleaved across the blocks (the group-two extra column last),
/// then the error-correction bytes likewise, then zero slack bytes.
pub open spec fn interleaved_byte_spec(
    padded: Seq<u8>,
    version: int,
    ecl: ECL,
    p: int,
) -> u8 {
    let b = blocks_of(version, ecl);
    let g1 = group1_blocks_spec(version, ecl);
    let dpg1 = data_per_g1_spec(version, ecl);
    let dc = data_codewords_spec(version, ecl);
    if p < dc {
        let col = p / b;
        let row = p % b;
        if col < dpg1 {
            padded[block_data_start_spec(version, ecl, row) + col]
        } else {
            padded[block_data_start_spec(version, ecl, g1 + row) + dpg1]
        }
    } else if p < dc + num_ec_codewords_spec(version, ecl) {
        let e = p - dc;
        let j = e / b;
        let bi = e % b;
        block_ec_spec(padded, version, ecl, bi)[j]
    } else {
        0u8
    }
}

/// The Reed-Solomon law: the error-correction bytes of every block of the
/// sequenced stream are exactly the Reed-Solomon remainder of that block's
/// data bytes under the symbol's generator polynomial, so each block's
/// codeword polynomial is divisible by the generator.
pub proof fn lemma_blocks_carry_true_remainder(padded: Seq<u8>, version: int, ecl: ECL, bi: int)
    ensures
        block_ec_spec(padded, version, ecl, bi) == rs_remainder_spec(
            block_data_spec(padded, version, ecl, bi),
            block_generator_spec(version, ecl),
        ),
{
}

/// The remainder has one byte per generator coefficient.
pub proof fn lemma_rs_remainder_len(data: Seq<u8>, gen: Seq<u8>)
    ensures
        rs_remainder_spec(data, gen).len() == gen.len(),
{
    lemma_rs_run_len(data + Seq::new(gen.len(), |p: int| 0u8), gen, data.len() as int);
}

/// Position of a byte within the column-interleaved layout: its column is
/// at most `q`, and a byte in the extra column lies in one of the last `g2`
/// rows.
pub proof fn lemma_div_block(p: int, b: int, q: int, g2: int)
    requires
        1 <= b,
        0 <= g2 < b,
        0 <= q,
        0 <= p < b * q + g2,
    ensures
        0 <= p / b <= q,
        0 <= p % b < b,
        p / b == q ==> p % b < g2,
        p == b * (p / b) + p % b,
{
    vstd::arithmetic::div_mod::lemma_fundamental_div_mod(p, b);
    let col = p / b;
    let row = p % b;
    if col >= q + 1 {
        vstd::arithmetic::mul::lemma_mul_inequality(q + 1, col, b);
        vstd::arithmetic::mul::lemma_mul_is_commutative(q + 1, b);
        vstd::arithmetic::mul::lemma_mul_is_commutative(col, b);
        vstd::arithmetic::mul::lemma_mul_is_distributive_add(b, q, 1);
        assert(b * (q + 1) == b * q + b);
        assert(false);
    }
    if col == q {
        assert(row == p - b * q);
    }
}

/// Terminates and pads the resolved stream and hands its data codewords
/// out as bytes; see `padded_data_bytes_spec`.
#[verifier::rlimit(100)]
pub(crate) fn pad_to_codewords(bits: BitVec, dc: usize) -> (r: Vec<u8>)
    requires
        bits.wf(),
        bits@.len() <= 8 * dc,
        dc <= 3706,
    ensures
        r@ =~= padded_data_bytes_spec(bits@, dc as int),
        r@.len() == dc,
{
    let ghost bits0 = bits@;
    let mut bits = bits;
    // Terminator: up to four zero bits.
    let len = bits.len();
    let remaining = 8 * dc - len;
    let term = if remaining < 4 {
        remaining
    } else {
        4
    };
    bits.push_n(0, term);
    // Align to the byte boundary with zero bits.
    let len2 = bits.len();
    let byte_pad = (8 - (len2 % 8)) % 8;
    bits.push_n(0, byte_pad);
    let ghost t = terminator_len_spec(bits0.len() as int, dc as int);
    let ghost aligned = ((bits0.len() + t + 7) / 8) * 8;
    let ghost full = bits0 + Seq::new((aligned - bits0.len()) as nat, |k: int| false);
    proof {
        crate::data::lemma_bits_of_uint_zero();
        assert(term == t);
        vstd::arithmetic::div_mod::lemma_fundamental_div_mod((bits0.len() + t) as int, 8);
        vstd::arithmetic::div_mod::lemma_fundamental_div_mod((bits0.len() + t + 7) as int, 8);
        assert(aligned == bits0.len() + t + byte_pad) by {
            vstd::arithmetic::div_mod::lemma_fundamental_div_mod_converse(
                (bits0.len() + t + 7) as int,
                8,
                (bits0.len() + t + byte_pad) / 8,
                (7 - byte_pad) as int,
            );
        }
        assert(bits@ =~= full);
        lemma_padded_fills_capacity(bits0, dc as int);
    }
    // Fill the data capacity with alternating pad bytes.
    let prefix_bytes = bits.len() / 8;
    let pad_count = dc - prefix_bytes;
    let mut pads: usize = 0;
    while pads < pad_count
        invariant
            pads <= pad_count,
            pad_count <= 3706,
            bits.wf(),
            aligned == full.len(),
            full.len() <= 8 * 3706,
            bits@.len() == full.len() + 8 * pads,
            bits@.take(full.len() as int) =~= full,
            forall|k: int|
                0 <= k < pads ==> bits@.subrange(full.len() + 8 * k, full.len() + 8 * k + 8)
                    =~= bits_of_byte(pad_bytes_spec(pad_count as int)[k]),
        decreases pad_count - pads,
    {
        let b: u8 = if pads % 2 == 0 {
            0xEC
        } else {
            0x11
        };
        bits.push_byte(b);
        proof {
            assert(bits@.take(full.len() as int) =~= full);
            assert forall|k: int| 0 <= k < pads + 1 implies bits@.subrange(
                full.len() + 8 * k,
                full.len() + 8 * k + 8,
            ) =~= bits_of_byte(pad_bytes_spec(pad_count as int)[k]) by {
                assert(bits@.subrange(full.len() + 8 * k, full.len() + 8 * k + 8)
                    =~= bits_of_byte(pad_bytes_spec(pad_count as int)[k]));
            }
        }
        pads += 1;
    }
    let byte_vec = bits.to_bytes();
    proof {
        lemma_padded_fills_capacity(bits0, dc as int);
        assert(byte_vec@.len() == dc) by {
            vstd::arithmetic::div_mod::lemma_fundamental_div_mod_converse(
                (aligned + 8 * pad_count + 7) as int,
                8,
                (aligned / 8 + pad_count) as int,
                7,
            );
            vstd::arithmetic::div_mod::lemma_fundamental_div_mod(aligned, 8);
        }
    }
    proof {
        let final_bits = bits@;
        let padded = padded_data_bytes_spec(bits0, dc as int);
        assert forall|bj: int| 0 <= bj < dc implies byte_vec@[bj] == padded[bj] by {
            vstd::arithmetic::div_mod::lemma_fundamental_div_mod(aligned, 8);
            if bj < aligned / 8 {
                assert(8 * bj + 7 < aligned);
                assert forall|k: int| 0 <= k < 8 implies (8 * bj + k < final_bits.len()
                    && #[trigger] final_bits[8 * bj + k]) == (8 * bj + k < full.len() && full[8
                    * bj + k]) by {
                    assert(final_bits[8 * bj + k] == final_bits.take(full.len() as int)[8 * bj
                        + k]);
                }
                assert(byte_from_bits_at(final_bits, 8 * bj) == byte_from_bits_at(full, 8 * bj));
            } else {
                let k = bj - aligned / 8;
                let pb = pad_bytes_spec(pad_count as int)[k];
                assert(8 * bj == full.len() + 8 * k);
                assert(final_bits.subrange(full.len() + 8 * k, full.len() + 8 * k + 8)
                    =~= bits_of_byte(pb));
                assert forall|q: int| 0 <= q < 8 implies #[trigger] final_bits[8 * bj + q]
                    == byte_bit(pb, (7 - q) as u8) by {
                    assert(final_bits.subrange(full.len() + 8 * k, full.len() + 8 * k + 8)[q]
                        == bits_of_byte(pb)[q]);
                }
                crate::data::lemma_byte_from_bits_of_byte(final_bits, 8 * bj, pb);
            }
        }
        assert(byte_vec@ =~= padded);
    }
    byte_vec
}

/// Terminates, pads and splits the resolved stream into Reed-Solomon
/// blocks, computes each block's error-correction bytes, and interleaves
/// data and error-correction codewords into the final byte sequence; see
/// `interleaved_byte_spec`. Trailing remainder-bit slack is zero.
#[verifier::rlimit(60)]
pub fn ecc_and_sequence(data: Data) -> (r: Vec<u8>)
    requires
        data.wf(),
        data.bits@.len() <= 8 * data_codewords_spec(data.version.0 as int, data.ecl),
    ensures
        ({
            let v = data.version.0 as int;
            let ecl = data.ecl;
            let padded = padded_data_bytes_spec(data.bits@, data_codewords_spec(v, ecl));
            let modules = num_data_modules_spec(v);
            &&& r@.len() == modules / 8 + (modules % 8 + 7) / 8
            &&& forall|p: int|
                0 <= p < r@.len() ==> r@[p] == interleaved_byte_spec(padded, v, ecl, p)
        }),
{
    let ghost bits0 = data.bits@;
    let version = data.version.0;
    let ecl = data.ecl;
    let ghost vi = version as int;
    proof {
        crate::constants::lemma_capacity_ok(vi, ecl);
    }
    let modules = num_data_modules(version) as usize;
    let codewords = modules / 8;
    let remainder_bits = modules % 8;
    let num_ec = num_ec_codewords(version, ecl) as usize;
    let dc = codewords - num_ec;
    let ghost padded = padded_data_bytes_spec(bits0, dc as int);

    let byte_vec = pad_to_codewords(data.bits, dc);

    let blocks_n = num_blocks(version, ecl) as usize;
    let g2 = codewords % blocks_n;
    let g1 = blocks_n - g2;
    let dpg1 = dc / blocks_n;
    let ecpb = num_ec / blocks_n;
    proof {
        vstd::arithmetic::div_mod::lemma_fundamental_div_mod(dc as int, blocks_n as int);
        vstd::arithmetic::div_mod::lemma_fundamental_div_mod(codewords as int, blocks_n as int);
        vstd::arithmetic::div_mod::lemma_fundamental_div_mod(num_ec as int, blocks_n as int);
        assert(dc as int == blocks_n as int * dpg1 + g2);
        assert(num_ec as int == blocks_n as int * ecpb);
    }
    let polys = crate::constants::gen_polynomials();
    let row = &polys[ecpb];
    let mut generator: Vec<u8> = Vec::new();
    let mut gi: usize = 0;
    while gi < ecpb
        invariant
            gi <= ecpb,
            ecpb <= 30,
            row@ =~= gen_poly_row_spec(ecpb as int),
            generator.len() == gi,
            forall|k: int| 0 <= k < gi ==> generator[k] == gen_poly_row_spec(ecpb as int)[k],
        decreases ecpb - gi,
    {
        generator.push(row[gi]);
        gi += 1;
    }
    proof {
        assert(generator@ =~= block_generator_spec(vi, ecl));
    }

    // Reed-Solomon bytes of each block.
    let mut ec_blocks: Vec<Vec<u8>> = Vec::new();
    let mut bi: usize = 0;
    while bi < blocks_n
        invariant
            bi <= blocks_n,
            blocks_n == blocks_of(vi, ecl),
            g1 == group1_blocks_spec(vi, ecl),
            g2 == group2_blocks_spec(vi, ecl),
            g1 + g2 == blocks_n,
            dpg1 == data_per_g1_spec(vi, ecl),
            dc == data_codewords_spec(vi, ecl),
            dc as int == blocks_n as int * dpg1 + g2,
            dpg1 <= 122,
            1 <= blocks_n <= 81,
            generator@ =~= block_generator_spec(vi, ecl),
            generator@.len() <= 30,
            byte_vec@ =~= padded,
            byte_vec.len() == dc,
            ec_blocks.len() == bi,
            forall|k: int|
                0 <= k < bi ==> #[trigger] ec_blocks[k]@ =~= block_ec_spec(padded, vi, ecl, k),
        decreases blocks_n - bi,
    {
        proof {
            vstd::arithmetic::mul::lemma_mul_inequality(bi as int + 1, blocks_n as int, dpg1 as int);
            vstd::arithmetic::mul::lemma_mul_is_commutative(bi as int + 1, dpg1 as int);
            vstd::arithmetic::mul::lemma_mul_is_commutative(blocks_n as int, dpg1 as int);
            vstd::arithmetic::mul::lemma_mul_is_distributive_add_other_way(
                dpg1 as int,
                bi as int,
                1,
            );
        }
        let start = bi * dpg1 + (if bi >= g1 {
            bi - g1
        } else {
            0
        });
        let dlen = dpg1 + (if bi >= g1 {
            1
        } else {
            0
        });
        let mut bd: Vec<u8> = Vec::new();
        let mut c: usize = 0;
        while c < dlen
            invariant
                c <= dlen,
                start + dlen <= byte_vec.len(),
                bd.len() == c,
                forall|k: int| 0 <= k < c ==> bd[k] == byte_vec[start + k],
            decreases dlen - c,
        {
            bd.push(byte_vec[start + c]);
            c += 1;
        }
        proof {
            assert(bd@ =~= block_data_spec(padded, vi, ecl, bi as int));
        }
        let ecv = remainder(bd.as_slice(), generator.as_slice());
        ec_blocks.push(ecv);
        bi += 1;
    }

    // Interleave data and error-correction codewords.
    let total = codewords + (remainder_bits + 7) / 8;
    let mut out: Vec<u8> = Vec::new();
    let mut p: usize = 0;
    while p < total
        invariant
            p <= total,
            blocks_n == blocks_of(vi, ecl),
            g1 == group1_blocks_spec(vi, ecl),
            g2 == group2_blocks_spec(vi, ecl),
            g1 + g2 == blocks_n,
            dpg1 == data_per_g1_spec(vi, ecl),
            dc == data_codewords_spec(vi, ecl),
            num_ec == num_ec_codewords_spec(vi, ecl),
            ecpb == ec_per_block_spec(vi, ecl),
            dc as int == blocks_n as int * dpg1 + g2,
            num_ec as int == blocks_n as int * ecpb,
            dc + num_ec == codewords,
            total <= dc + num_ec + 1,
            dpg1 <= 122,
            ecpb <= 30,
            1 <= blocks_n <= 81,
            byte_vec@ =~= padded,
            byte_vec.len() == dc,
            ec_blocks.len() == blocks_n,
            forall|k: int|
                0 <= k < blocks_n ==> #[trigger] ec_blocks[k]@ =~= block_ec_spec(
                    padded,
                    vi,
                    ecl,
                    k,
                ),
            out.len() == p,
            forall|q: int| 0 <= q < p ==> out[q] == interleaved_byte_spec(padded, vi, ecl, q),
        decreases total - p,
    {
        let val: u8;
        if p < dc {
            proof {
                lemma_div_block(p as int, blocks_n as int, dpg1 as int, g2 as int);
            }
            let col = p / blocks_n;
            let row = p % blocks_n;
            if col < dpg1 {
                proof {
                    vstd::arithmetic::mul::lemma_mul_inequality(
                        row as int + 1,
                        blocks_n as int,
                        dpg1 as int,
                    );
                    vstd::arithmetic::mul::lemma_mul_is_commutative(row as int + 1, dpg1 as int);
                    vstd::arithmetic::mul::lemma_mul_is_commutative(blocks_n as int, dpg1 as int);
                    vstd::arithmetic::mul::lemma_mul_is_distributive_add_other_way(
                        dpg1 as int,
                        row as int,
                        1,
                    );
                }
                let start = row * dpg1 + (if row >= g1 {
                    row - g1
                } else {
                    0
                });
                val = byte_vec[start + col];
            } else {
                let b2 = g1 + row;
                proof {
                    vstd::arithmetic::mul::lemma_mul_inequality(
                        b2 as int + 1,
                        blocks_n as int,
                        dpg1 as int,
                    );
                    vstd::arithmetic::mul::lemma_mul_is_commutative(b2 as int + 1, dpg1 as int);
                    vstd::arithmetic::mul::lemma_mul_is_commutative(blocks_n as int, dpg1 as int);
                    vstd::arithmetic::mul::lemma_mul_is_distributive_add_other_way(
                        dpg1 as int,
                        b2 as int,
                        1,
                    );
                }
                let start = b2 * dpg1 + (b2 - g1);
                val = byte_vec[start + dpg1];
            }
        } else if p < codewords {
            let e = p - dc;
            proof {
                lemma_div_block(e as int, blocks_n as int, ecpb as int, 0);
                lemma_rs_remainder_len(
                    block_data_spec(padded, vi, ecl, (e as int) % (blocks_n as int)),
                    block_generator_spec(vi, ecl),
                );
            }
            let j = e / blocks_n;
            let row = e % blocks_n;
            val = ec_blocks[row][j];
        } else {
            val = 0;
        }
        out.push(val);
        p += 1;
    }
    out
}

} // verus!
