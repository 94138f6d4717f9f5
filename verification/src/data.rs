use vstd::prelude::*;

use vstd::string::StringSliceAdditionalSpecFns;

use crate::qr_code::{ecl_index_spec, ecl_of_index_spec, Mode, Version, ECL};

verus! {

/// The resolved segment stream of a payload, with the mode, version and
/// error correction level it was encoded for.
#[derive(Debug)]
pub struct Data {
    pub bits: BitVec,
    pub mode: Mode,
    pub version: Version,
    pub ecl: ECL,
}

/// Data codeword capacity of a (version, level) pair: total codewords less
/// the error-correction codewords.
pub open spec fn data_codewords_spec(version: int, ecl: ECL) -> int {
    crate::constants::num_data_modules_spec(version) / 8
        - crate::constants::num_ec_codewords_spec(version, ecl)
}

/// Whether one segment of `len` characters in `mode` fits the data capacity
/// of (version, ecl).
pub open spec fn fits_spec(mode: Mode, len: int, version: int, ecl: ECL) -> bool {
    (crate::encoding::segment_bit_len_spec(mode, version, len) + 7) / 8 <= data_codewords_spec(
        version,
        ecl,
    )
}

/// The least version in [v, 40] whose capacity at `ecl` fits the segment;
/// 41 when none does.
pub open spec fn find_version_spec(mode: Mode, len: int, v: int, ecl: ECL) -> int
    decreases 41 - v,
{
    if v < 1 || v > 40 {
        41
    } else if fits_spec(mode, len, v, ecl) {
        v
    } else {
        find_version_spec(mode, len, v + 1, ecl)
    }
}

/// The highest level index in (min_idx, e] that still fits at `version`;
/// min_idx when none does.
pub open spec fn upgrade_ecl_spec(mode: Mode, len: int, version: int, min_idx: int, e: int) -> int
    decreases e,
{
    if e <= min_idx || e < 1 {
        min_idx
    } else if fits_spec(mode, len, version, ecl_of_index_spec(e)) {
        e
    } else {
        upgrade_ecl_spec(mode, len, version, min_idx, e - 1)
    }
}

/// The level the resolver settles on: the requested one under `strict_ecl`,
/// else the strongest level that still fits at the resolved version.
pub open spec fn chosen_ecl_spec(
    mode: Mode,
    len: int,
    version: int,
    min_ecl: ECL,
    strict_ecl: bool,
) -> ECL {
    if strict_ecl {
        min_ecl
    } else {
        ecl_of_index_spec(upgrade_ecl_spec(mode, len, version, ecl_index_spec(min_ecl), 3))
    }
}

/// The payload can be carried by `mode`: digits for Numeric, the 45-symbol
/// alphabet for Alphanumeric, anything for Byte.
pub open spec fn mode_compatible_spec(mode: Mode, s: Seq<u8>) -> bool {
    match mode {
        Mode::Numeric => forall|i: int|
            0 <= i < s.len() ==> crate::encoding::is_digit(#[trigger] s[i]),
        Mode::Alphanumeric => forall|i: int|
            0 <= i < s.len() ==> crate::encoding::is_b45(#[trigger] s[i]),
        Mode::Byte => true,
    }
}

/// No payload of more than 7100 characters fits any version at any level.
proof fn lemma_too_long(mode: Mode, len: int, version: int, ecl: ECL)
    requires
        len > 7100,
        1 <= version <= 40,
    ensures
        !fits_spec(mode, len, version, ecl),
{
    crate::constants::lemma_capacity_ok(version, ecl);
    assert(data_codewords_spec(version, ecl) <= 2956);
    let p = crate::encoding::payload_bit_len_spec(mode, len);
    match mode {
        Mode::Numeric => {
            assert(len / 3 >= 2367) by {
                vstd::arithmetic::div_mod::lemma_div_is_ordered(7101, len, 3);
            }
        },
        Mode::Alphanumeric => {
            assert(len / 2 >= 3550) by {
                vstd::arithmetic::div_mod::lemma_div_is_ordered(7101, len, 2);
            }
        },
        Mode::Byte => {},
    }
    assert(p >= 23670);
    assert((crate::encoding::segment_bit_len_spec(mode, version, len) + 7) / 8 >= 23681int / 8) by {
        vstd::arithmetic::div_mod::lemma_div_is_ordered(
            23681,
            crate::encoding::segment_bit_len_spec(mode, version, len) + 7,
            8,
        );
    }
}

/// The version the search settles on is at least the starting version and,
/// when it is a real version, its capacity fits the segment.
pub proof fn lemma_find_version_fits(mode: Mode, len: int, lo: int, ecl: ECL)
    requires
        1 <= lo <= 41,
    ensures
        lo <= find_version_spec(mode, len, lo, ecl),
        find_version_spec(mode, len, lo, ecl) <= 40 ==> fits_spec(
            mode,
            len,
            find_version_spec(mode, len, lo, ecl),
            ecl,
        ),
    decreases 41 - lo,
{
    if lo <= 40 && !fits_spec(mode, len, lo, ecl) {
        lemma_find_version_fits(mode, len, lo + 1, ecl);
    }
}

proof fn lemma_find_version_found(mode: Mode, len: int, lo: int, v: int, ecl: ECL)
    requires
        1 <= lo <= v <= 40,
        fits_spec(mode, len, v, ecl),
        forall|w: int| lo <= w < v ==> !fits_spec(mode, len, w, ecl),
    ensures
        find_version_spec(mode, len, lo, ecl) == v,
    decreases v - lo,
{
    if lo < v {
        lemma_find_version_found(mode, len, lo + 1, v, ecl);
    }
}

proof fn lemma_find_version_missing(mode: Mode, len: int, lo: int, ecl: ECL)
    requires
        1 <= lo <= 41,
        forall|w: int| lo <= w <= 40 ==> !fits_spec(mode, len, w, ecl),
    ensures
        find_version_spec(mode, len, lo, ecl) == 41,
    decreases 41 - lo,
{
    if lo <= 40 {
        lemma_find_version_missing(mode, len, lo + 1, ecl);
    }
}

proof fn lemma_upgrade_found(mode: Mode, len: int, version: int, min_idx: int, e: int, hi: int)
    requires
        0 <= min_idx < e <= hi <= 3,
        fits_spec(mode, len, version, ecl_of_index_spec(e)),
        forall|w: int| e < w <= hi ==> !fits_spec(mode, len, version, ecl_of_index_spec(w)),
    ensures
        upgrade_ecl_spec(mode, len, version, min_idx, hi) == e,
    decreases hi - e,
{
    if e < hi {
        lemma_upgrade_found(mode, len, version, min_idx, e, hi - 1);
    }
}

proof fn lemma_upgrade_missing(mode: Mode, len: int, version: int, min_idx: int, hi: int)
    requires
        0 <= min_idx <= hi,
        forall|w: int| min_idx < w <= hi ==> !fits_spec(mode, len, version, ecl_of_index_spec(w)),
    ensures
        upgrade_ecl_spec(mode, len, version, min_idx, hi) == min_idx,
    decreases hi - min_idx,
{
    if min_idx < hi {
        lemma_upgrade_missing(mode, len, version, min_idx, hi - 1);
    }
}

/// Payload bit length of `len` characters in `mode`; see
/// `payload_bit_len_spec`.
fn payload_bit_len(mode: Mode, len: usize) -> (n: usize)
    requires
        len <= 8000,
    ensures
        n as int == crate::encoding::payload_bit_len_spec(mode, len as int),
{
    match mode {
        Mode::Numeric => {
            let rem: usize = match len % 3 {
                1 => 4,
                2 => 7,
                _ => 0,
            };
            10 * (len / 3) + rem
        },
        Mode::Alphanumeric => 11 * (len / 2) + 6 * (len % 2),
        Mode::Byte => 8 * len,
    }
}

/// Whether the segment fits the (version, ecl) capacity; see `fits_spec`.
fn fits(mode: Mode, len: usize, version: u8, ecl: ECL) -> (r: bool)
    requires
        len <= 8000,
        1 <= version <= 40,
    ensures
        r == fits_spec(mode, len as int, version as int, ecl),
{
    proof {
        crate::constants::lemma_capacity_ok(version as int, ecl);
    }
    let cci = crate::encoding::num_cci_bits(Version(version), mode);
    let bits = 4 + cci + payload_bit_len(mode, len);
    let req = (bits + 7) / 8;
    let dc = (crate::constants::num_data_modules(version) / 8 - crate::constants::num_ec_codewords(
        version,
        ecl,
    )) as usize;
    req <= dc
}

impl Data {
    /// The stream is well formed and the version is one of the standard's.
    pub open spec fn wf(&self) -> bool {
        &&& self.bits.wf()
        &&& 1 <= self.version.0 <= 40
    }

    /// Resolves the payload with default strictness; see `new_verbose`.
    pub fn new(text: &str, mode: Mode, min_version: Version, min_ecl: ECL) -> (r: Option<Data>)
        requires
            1 <= min_version.0 <= 40,
            mode_compatible_spec(mode, text.spec_bytes()),
        ensures
            ({
                let s = text.spec_bytes();
                let v = find_version_spec(mode, s.len() as int, min_version.0 as int, min_ecl);
                match r {
                    Option::Some(data) => {
                        &&& v <= 40
                        &&& data.wf()
                        &&& data.mode == mode
                        &&& data.version.0 as int == v
                        &&& data.ecl == chosen_ecl_spec(mode, s.len() as int, v, min_ecl, false)
                        &&& fits_spec(mode, s.len() as int, v, data.ecl)
                        &&& data.bits@ =~= crate::encoding::segment_bits_spec(mode, v, s)
                    },
                    Option::None => v == 41,
                }
            }),
    {
        Self::new_verbose(text, mode, min_version, false, min_ecl, false)
    }

    /// Resolves the smallest fitting version at or above `min_version` (kept
    /// fixed under `strict_version`), opportunistically upgrades the level
    /// unless `strict_ecl`, and encodes the payload. Returns None when no
    /// version up to 40 can carry the segment.
    pub fn new_verbose(
        text: &str,
        mode: Mode,
        min_version: Version,
        strict_version: bool,
        min_ecl: ECL,
        strict_ecl: bool,
    ) -> (r: Option<Data>)
        requires
            1 <= min_version.0 <= 40,
            mode_compatible_spec(mode, text.spec_bytes()),
        ensures
            ({
                let s = text.spec_bytes();
                let v = find_version_spec(mode, s.len() as int, min_version.0 as int, min_ecl);
                match r {
                    Option::Some(data) => {
                        &&& v <= 40
                        &&& (strict_version ==> v == min_version.0 as int)
                        &&& data.wf()
                        &&& data.mode == mode
                        &&& data.version.0 as int == v
                        &&& data.ecl == chosen_ecl_spec(
                            mode,
                            s.len() as int,
                            v,
                            min_ecl,
                            strict_ecl,
                        )
                        &&& fits_spec(mode, s.len() as int, v, data.ecl)
                        &&& data.bits@ =~= crate::encoding::segment_bits_spec(mode, v, s)
                    },
                    Option::None => if strict_version {
                        !fits_spec(mode, s.len() as int, min_version.0 as int, min_ecl)
                    } else {
                        v == 41
                    },
                }
            }),
    {
        let ghost s = text.spec_bytes();
        let len = text.as_bytes().len();
        if len > 7100 {
            proof {
                assert forall|w: int| 1 <= w <= 40 implies !fits_spec(
                    mode,
                    s.len() as int,
                    w,
                    min_ecl,
                ) by {
                    lemma_too_long(mode, s.len() as int, w, min_ecl);
                }
                lemma_find_version_missing(mode, s.len() as int, min_version.0 as int, min_ecl);
            }
            return None;
        }
        let mut v: u8 = min_version.0;
        let mut found = fits(mode, len, v, min_ecl);
        while !found && v < 40
            invariant
                min_version.0 <= v <= 40,
                strict_version ==> v == min_version.0,
                s == text.spec_bytes(),
                len == s.len(),
                len <= 8000,
                found == fits_spec(mode, len as int, v as int, min_ecl),
                forall|w: int|
                    min_version.0 <= w < v ==> !fits_spec(mode, len as int, w, min_ecl),
            decreases 40 - v + (if found {
                0int
            } else {
                1int
            }),
        {
            if strict_version {
                return None;
            }
            v += 1;
            found = fits(mode, len, v, min_ecl);
        }
        if !found {
            proof {
                lemma_find_version_missing(mode, len as int, min_version.0 as int, min_ecl);
            }
            return None;
        }
        proof {
            lemma_find_version_found(mode, len as int, min_version.0 as int, v as int, min_ecl);
        }
        let mut ecl = min_ecl;
        let min_idx = crate::qr_code::ecl_index(min_ecl);
        if !strict_ecl {
            let mut e: usize = 3;
            let mut upgraded = false;
            while e > min_idx && !upgraded
                invariant
                    min_idx <= 3,
                    min_idx <= e <= 3 || (upgraded && e <= 3),
                    len <= 8000,
                    len == s.len(),
                    1 <= v <= 40,
                    min_idx == ecl_index_spec(min_ecl),
                    if upgraded {
                        &&& min_idx < e + 1 <= 3
                        &&& fits_spec(mode, len as int, v as int, ecl_of_index_spec(e + 1))
                        &&& ecl == ecl_of_index_spec(e + 1)
                        &&& forall|w: int|
                            e + 1 < w <= 3 ==> !fits_spec(
                                mode,
                                len as int,
                                v as int,
                                ecl_of_index_spec(w),
                            )
                    } else {
                        &&& ecl == min_ecl
                        &&& forall|w: int|
                            e < w <= 3 ==> !fits_spec(
                                mode,
                                len as int,
                                v as int,
                                ecl_of_index_spec(w),
                            )
                    },
                decreases e,
            {
                let cand = crate::qr_code::ecl_of_index(e);
                if fits(mode, len, v, cand) {
                    ecl = cand;
                    upgraded = true;
                }
                e -= 1;
            }
            proof {
                if upgraded {
                    lemma_upgrade_found(mode, len as int, v as int, min_idx as int, e as int + 1, 3);
                } else {
                    lemma_upgrade_missing(mode, len as int, v as int, min_idx as int, 3);
                }
                assert(ecl == chosen_ecl_spec(mode, len as int, v as int, min_ecl, strict_ecl));
            }
        }
        proof {
            match mode {
                Mode::Numeric => {
                    vstd::arithmetic::div_mod::lemma_div_is_ordered(len as int, 7100, 3);
                },
                Mode::Alphanumeric => {
                    vstd::arithmetic::div_mod::lemma_div_is_ordered(len as int, 7100, 2);
                },
                Mode::Byte => {},
            }
            assert(crate::encoding::payload_bit_len_spec(mode, len as int) <= 56800);
        }
        let mut data = Data {
            bits: BitVec::with_capacity(len * 8 + 32),
            mode,
            version: Version(v),
            ecl,
        };
        match mode {
            Mode::Numeric => crate::encoding::encode_numeric(&mut data, text),
            Mode::Alphanumeric => crate::encoding::encode_alphanumeric(&mut data, text),
            Mode::Byte => crate::encoding::encode_byte(&mut data, text),
        }
        Some(data)
    }
}

/// Bit `k` of a byte, counting from the least significant bit.
pub open spec fn byte_bit(b: u8, k: u8) -> bool {
    (b >> k) & 1 == 1
}

/// Bit `i` of a byte sequence, most significant bit of each byte first.
pub open spec fn bit_of_bytes(bytes: Seq<u8>, i: int) -> bool {
    byte_bit(bytes[i / 8], (7 - i % 8) as u8)
}

/// The low `n` bits of `value`, most significant first.
pub open spec fn bits_of_uint(value: usize, n: int) -> Seq<bool> {
    Seq::new(n as nat, |k: int| (value >> (n - 1 - k) as usize) & 1 == 1)
}

/// The bits of a byte sequence, most significant bit of each byte first.
pub open spec fn bits_of_bytes(bytes: Seq<u8>) -> Seq<bool> {
    Seq::new((bytes.len() * 8) as nat, |i: int| bit_of_bytes(bytes, i))
}

/// The byte whose most significant bit is `bits[start]` and so on downward;
/// positions past the end of `bits` count as 0.
pub open spec fn byte_from_bits_at(bits: Seq<bool>, start: int) -> u8 {
    let g = |k: int| start + k < bits.len() && bits[start + k];
    ((if g(0) {
        128int
    } else {
        0int
    }) + (if g(1) {
        64int
    } else {
        0int
    }) + (if g(2) {
        32int
    } else {
        0int
    }) + (if g(3) {
        16int
    } else {
        0int
    }) + (if g(4) {
        8int
    } else {
        0int
    }) + (if g(5) {
        4int
    } else {
        0int
    }) + (if g(6) {
        2int
    } else {
        0int
    }) + (if g(7) {
        1int
    } else {
        0int
    })) as u8
}

/// The bytes that pack a bit sequence, the last byte zero-padded.
pub open spec fn bytes_of_bits(bits: Seq<bool>) -> Seq<u8> {
    Seq::new(((bits.len() + 7) / 8) as nat, |j: int| byte_from_bits_at(bits, 8 * j))
}

proof fn lemma_byte_bit_or()
    by (bit_vector)
    ensures
        forall|b: u8, k: u8, j: u8|
            j < 8 && k < 8 ==> #[trigger] byte_bit(b | (1u8 << k), j) == (j == k || byte_bit(b, j)),
{
}

proof fn lemma_byte_bit_zero()
    by (bit_vector)
    ensures
        forall|j: u8| !byte_bit(0u8, j),
{
}

proof fn lemma_byte_reconstruct(b: u8)
    by (bit_vector)
    ensures
        b as int == (if byte_bit(b, 7) {
            128int
        } else {
            0int
        }) + (if byte_bit(b, 6) {
            64int
        } else {
            0int
        }) + (if byte_bit(b, 5) {
            32int
        } else {
            0int
        }) + (if byte_bit(b, 4) {
            16int
        } else {
            0int
        }) + (if byte_bit(b, 3) {
            8int
        } else {
            0int
        }) + (if byte_bit(b, 2) {
            4int
        } else {
            0int
        }) + (if byte_bit(b, 1) {
            2int
        } else {
            0int
        }) + (if byte_bit(b, 0) {
            1int
        } else {
            0int
        }),
{
}

/// The eight bits of a byte, most significant first.
pub open spec fn bits_of_byte(b: u8) -> Seq<bool> {
    Seq::new(8, |k: int| byte_bit(b, (7 - k) as u8))
}

/// A zero value has no set bits.
pub proof fn lemma_bits_of_uint_zero()
    by (bit_vector)
    ensures
        forall|j: usize| ((0usize >> j) & 1) == 0,
{
}

/// A bit of an XOR of bytes is the XOR of the bits.
pub proof fn lemma_byte_bit_xor()
    by (bit_vector)
    ensures
        forall|a: u8, b: u8, k: u8| #[trigger] byte_bit(a ^ b, k) == (byte_bit(a, k) != byte_bit(
            b,
            k,
        )),
{
}

/// A bit extracted by shift-and-mask is zero or one.
pub proof fn lemma_bit_and_one()
    by (bit_vector)
    ensures
        forall|b: u8, k: u8| #[trigger] ((b >> k) & 1) == 0 || ((b >> k) & 1) == 1,
{
}

/// A byte written as eight bits reads back as itself.
pub proof fn lemma_byte_from_bits_of_byte(bits: Seq<bool>, start: int, b: u8)
    requires
        0 <= start,
        start + 8 <= bits.len(),
        forall|q: int| 0 <= q < 8 ==> #[trigger] bits[start + q] == byte_bit(b, (7 - q) as u8),
    ensures
        byte_from_bits_at(bits, start) == b,
{
    lemma_byte_reconstruct(b);
}

/// Append-only bit stream backed by bytes, most significant bit first.
#[derive(Debug, PartialEq, Eq)]
pub struct BitVec {
    value: Vec<u8>,
    len: usize,
}

impl View for BitVec {
    type V = Seq<bool>;

    closed spec fn view(&self) -> Seq<bool> {
        Seq::new(self.len as nat, |i: int| bit_of_bytes(self.value@, i))
    }
}

impl BitVec {
    /// The backing bytes hold exactly the pushed bits; every spare bit of
    /// the trailing byte stays 0.
    pub closed spec fn wf(&self) -> bool {
        &&& self.value@.len() == (self.len + 7) / 8
        &&& forall|i: int|
            self.len <= i < 8 * self.value@.len() ==> !bit_of_bytes(self.value@, i)
    }

    pub fn new() -> (r: Self)
        ensures
            r.wf(),
            r@ =~= Seq::<bool>::empty(),
    {
        BitVec { value: Vec::new(), len: 0 }
    }

    pub fn with_capacity(capacity: usize) -> (r: Self)
        ensures
            r.wf(),
            r@ =~= Seq::<bool>::empty(),
    {
        BitVec { value: Vec::with_capacity(capacity / 8 + 1), len: 0 }
    }

    pub fn len(&self) -> (n: usize)
        ensures
            n == self@.len(),
    {
        self.len
    }

    pub fn get(&self, i: usize) -> (b: bool)
        requires
            self.wf(),
            i < self@.len(),
        ensures
            b == self@[i as int],
    {
        (self.value[i / 8] >> (7 - (i % 8)) as u32) & 1 == 1
    }

    /// Turns bit `i` on, leaving every other bit as it was.
    pub fn set(&mut self, i: usize)
        requires
            old(self).wf(),
            i < old(self)@.len(),
        ensures
            final(self).wf(),
            final(self)@ =~= old(self)@.update(i as int, true),
    {
        proof {
            lemma_byte_bit_or();
        }
        let byte = self.value[i / 8];
        let updated = byte | (1u8 << (7 - (i % 8)) as u32);
        self.value.set(i / 8, updated);
        proof {
            assert forall|j: int| 0 <= j < 8 * self.value@.len() && j != i implies bit_of_bytes(
                self.value@,
                j,
            ) == bit_of_bytes(old(self).value@, j) by {
                if j / 8 == i as int / 8 {
                    assert(j % 8 != i as int % 8) by {
                        vstd::arithmetic::div_mod::lemma_fundamental_div_mod(j, 8);
                        vstd::arithmetic::div_mod::lemma_fundamental_div_mod(i as int, 8);
                    }
                }
            }
            assert(bit_of_bytes(self.value@, i as int));
        }
    }

    /// Appends one bit.
    fn push_bit(&mut self, b: bool)
        requires
            old(self).wf(),
            old(self)@.len() < usize::MAX,
        ensures
            final(self).wf(),
            final(self)@ =~= old(self)@.push(b),
    {
        proof {
            lemma_byte_bit_or();
            lemma_byte_bit_zero();
        }
        if self.len % 8 == 0 {
            self.value.push(0);
        }
        if b {
            let byte = self.value[self.len / 8];
            let updated = byte | (1u8 << (7 - (self.len % 8)) as u32);
            self.value.set(self.len / 8, updated);
        }
        self.len = self.len + 1;
        proof {
            let n = (self.len - 1) as int;
            assert forall|j: int| 0 <= j < 8 * self.value@.len() && j != n implies bit_of_bytes(
                self.value@,
                j,
            ) == (if j < 8 * old(self).value@.len() {
                bit_of_bytes(old(self).value@, j)
            } else {
                false
            }) by {
                if j / 8 == n / 8 {
                    assert(j % 8 != n % 8) by {
                        vstd::arithmetic::div_mod::lemma_fundamental_div_mod(j, 8);
                        vstd::arithmetic::div_mod::lemma_fundamental_div_mod(n, 8);
                    }
                }
            }
            assert(bit_of_bytes(self.value@, n) == b);
        }
    }

    /// Appends the low `n` bits of `input`, most significant first.
    pub fn push_n(&mut self, input: usize, n: usize)
        requires
            old(self).wf(),
            n <= 24,
            old(self)@.len() + n <= usize::MAX,
        ensures
            final(self).wf(),
            final(self)@ =~= old(self)@ + bits_of_uint(input, n as int),
    {
        let mut k: usize = 0;
        while k < n
            invariant
                self.wf(),
                k <= n,
                n <= 24,
                old(self)@.len() + n <= usize::MAX,
                self@ =~= old(self)@ + bits_of_uint(input, n as int).take(k as int),
            decreases n - k,
        {
            let b = (input >> (n - 1 - k)) & 1 == 1;
            self.push_bit(b);
            proof {
                assert(self@ =~= old(self)@ + bits_of_uint(input, n as int).take(k + 1));
            }
            k += 1;
        }
        proof {
            assert(bits_of_uint(input, n as int).take(n as int) =~= bits_of_uint(input, n as int));
        }
    }

    /// Appends one whole byte, most significant bit first.
    pub fn push_byte(&mut self, byte: u8)
        requires
            old(self).wf(),
            old(self)@.len() + 8 <= usize::MAX,
        ensures
            final(self).wf(),
            final(self)@ =~= old(self)@ + bits_of_byte(byte),
    {
        let mut k: usize = 0;
        while k < 8
            invariant
                self.wf(),
                k <= 8,
                old(self)@.len() + 8 <= usize::MAX,
                self@ =~= old(self)@ + bits_of_byte(byte).take(k as int),
            decreases 8 - k,
        {
            let b = (byte >> (7 - k) as u32) & 1 == 1;
            self.push_bit(b);
            proof {
                assert(self@ =~= old(self)@ + bits_of_byte(byte).take(k + 1));
            }
            k += 1;
        }
        proof {
            assert(bits_of_byte(byte).take(8) =~= bits_of_byte(byte));
        }
    }

    /// Grows the stream to exactly `bits` length: zero bits up to the next
    /// byte boundary, then whole copies of `fill`.
    pub fn resize(&mut self, bits: usize, fill: u8)
        requires
            old(self).wf(),
            old(self)@.len() <= bits,
            bits % 8 == 0,
            bits < usize::MAX - 8,
        ensures
            final(self).wf(),
            final(self)@.len() == bits,
            final(self)@.take(old(self)@.len() as int) =~= old(self)@,
            forall|i: int|
                old(self)@.len() <= i < bits ==> final(self)@[i] == (i >= 8 * ((old(self)@.len()
                    + 7) / 8) && byte_bit(fill, (7 - i % 8) as u8)),
    {
        let ghost orig = self@;
        let boundary: usize = ((self.len + 7) / 8) * 8;
        proof {
            vstd::arithmetic::div_mod::lemma_fundamental_div_mod(self.len as int, 8);
        }
        while self.len < bits
            invariant
                self.wf(),
                orig.len() <= self@.len() <= bits,
                bits < usize::MAX - 8,
                boundary == 8 * ((orig.len() + 7) / 8),
                self@.take(orig.len() as int) =~= orig,
                forall|i: int|
                    orig.len() <= i < self@.len() ==> self@[i] == (i >= boundary && byte_bit(
                        fill,
                        (7 - i % 8) as u8,
                    )),
            decreases bits - self.len,
        {
            let i = self.len;
            let b = if i >= boundary {
                (fill >> (7 - (i % 8)) as u32) & 1 == 1
            } else {
                false
            };
            self.push_bit(b);
        }
    }

    /// Appends whole bytes; the stream must be byte aligned. Drains `other`.
    pub fn append(&mut self, other: &mut Vec<u8>)
        requires
            old(self).wf(),
            old(self)@.len() % 8 == 0,
            old(self)@.len() + 8 * old(other)@.len() <= usize::MAX,
        ensures
            final(self).wf(),
            final(self)@ =~= old(self)@ + bits_of_bytes(old(other)@),
            final(other)@ =~= Seq::<u8>::empty(),
    {
        let ghost orig = self@;
        let ghost obytes = old(other)@;
        let mut j: usize = 0;
        let olen = other.len();
        while j < olen
            invariant
                self.wf(),
                j <= olen,
                olen == obytes.len(),
                other@ =~= obytes,
                self@.len() == orig.len() + 8 * j,
                orig.len() % 8 == 0,
                orig.len() + 8 * obytes.len() <= usize::MAX,
                self@ =~= orig + bits_of_bytes(obytes).take(8 * j),
            decreases olen - j,
        {
            let byte = other[j];
            let mut k: usize = 0;
            while k < 8
                invariant
                    self.wf(),
                    k <= 8,
                    j < olen,
                    olen == obytes.len(),
                    other@ =~= obytes,
                    byte == obytes[j as int],
                    orig.len() % 8 == 0,
                    orig.len() + 8 * obytes.len() <= usize::MAX,
                    self@.len() == orig.len() + 8 * j + k,
                    self@ =~= orig + bits_of_bytes(obytes).take(8 * j + k),
                decreases 8 - k,
            {
                let b = (byte >> (7 - k) as u32) & 1 == 1;
                self.push_bit(b);
                proof {
                    assert(8 * (j as int) + k < 8 * obytes.len());
                    assert(bits_of_bytes(obytes)[8 * (j as int) + k] == byte_bit(
                        obytes[(8 * (j as int) + k) / 8],
                        (7 - (8 * (j as int) + k) % 8) as u8,
                    ));
                    assert((8 * (j as int) + k) / 8 == j as int && (8 * (j as int) + k) % 8
                        == k as int) by {
                        vstd::arithmetic::div_mod::lemma_fundamental_div_mod_converse(
                            8 * (j as int) + k,
                            8,
                            j as int,
                            k as int,
                        );
                    }
                    assert(self@ =~= orig + bits_of_bytes(obytes).take(8 * j + k + 1));
                }
                k += 1;
            }
            j += 1;
        }
        other.clear();
        proof {
            assert(bits_of_bytes(obytes).take(8 * obytes.len() as int) =~= bits_of_bytes(obytes));
        }
    }

    /// An independent copy of the stream.
    pub fn duplicate(&self) -> (r: BitVec)
        requires
            self.wf(),
        ensures
            r.wf(),
            r@ =~= self@,
    {
        let mut value: Vec<u8> = Vec::new();
        let n = self.value.len();
        let mut j: usize = 0;
        while j < n
            invariant
                j <= n,
                n == self.value@.len(),
                value@.len() == j,
                forall|p: int| 0 <= p < j ==> value@[p] == self.value@[p],
            decreases n - j,
        {
            value.push(self.value[j]);
            j += 1;
        }
        proof {
            assert(value@ =~= self.value@);
        }
        BitVec { value, len: self.len }
    }

    /// Wraps whole bytes as a bit stream.
    pub fn from_bytes(value: Vec<u8>) -> (r: BitVec)
        requires
            8 * value@.len() <= usize::MAX,
        ensures
            r.wf(),
            r@ =~= bits_of_bytes(value@),
    {
        let len = 8 * value.len();
        let r = BitVec { value, len };
        proof {
            vstd::arithmetic::div_mod::lemma_fundamental_div_mod_converse(
                (len + 7) as int,
                8,
                (len / 8) as int,
                7,
            );
            vstd::arithmetic::div_mod::lemma_fundamental_div_mod_converse(
                len as int,
                8,
                (len / 8) as int,
                0,
            );
        }
        r
    }

    /// XORs another stream of the same length into this one, bit by bit.
    pub fn xor_with(&mut self, other: &BitVec)
        requires
            old(self).wf(),
            other.wf(),
            old(self)@.len() == other@.len(),
        ensures
            final(self).wf(),
            final(self)@.len() == old(self)@.len(),
            forall|i: int|
                0 <= i < old(self)@.len() ==> final(self)@[i] == (old(self)@[i] != other@[i]),
    {
        proof {
            lemma_byte_bit_xor();
        }
        let n = self.value.len();
        let mut j: usize = 0;
        while j < n
            invariant
                self.value@.len() == n,
                other.value@.len() == n,
                self.len == old(self).len,
                self.len == other.len,
                n == (self.len + 7) / 8,
                other.wf(),
                j <= n,
                forall|p: int|
                    0 <= p < j ==> self.value@[p] == (old(self).value@[p] ^ other.value@[p]),
                forall|p: int| j <= p < n ==> self.value@[p] == old(self).value@[p],
            decreases n - j,
        {
            let b = self.value[j] ^ other.value[j];
            self.value.set(j, b);
            j += 1;
        }
        proof {
            assert forall|i: int| self.len <= i < 8 * self.value@.len() implies !bit_of_bytes(
                self.value@,
                i,
            ) by {
                assert(!bit_of_bytes(old(self).value@, i));
                assert(!bit_of_bytes(other.value@, i));
            }
            assert forall|i: int| 0 <= i < self.len implies bit_of_bytes(self.value@, i) == (
            bit_of_bytes(old(self).value@, i) != bit_of_bytes(other.value@, i)) by {
                assert(0 <= i / 8 < self.value@.len()) by {
                    vstd::arithmetic::div_mod::lemma_fundamental_div_mod(i, 8);
                }
            }
        }
    }

    /// Hands the backing bytes out; they pack the bits of the stream.
    pub fn to_bytes(self) -> (r: Vec<u8>)
        requires
            self.wf(),
        ensures
            r@ =~= bytes_of_bits(self@),
    {
        proof {
            assert forall|j: int| 0 <= j < self.value@.len() implies self.value@[j]
                == byte_from_bits_at(self@, 8 * j) by {
                lemma_byte_reconstruct(self.value@[j]);
                assert forall|kk: u8| kk < 8 implies #[trigger] byte_bit(self.value@[j], kk) == (8
                    * j + (7 - kk as int) < self@.len() && self@[8 * j + 7 - kk as int]) by {
                    let k = 7 - kk as int;
                    assert((8 * j + k) / 8 == j && (8 * j + k) % 8 == k) by {
                        vstd::arithmetic::div_mod::lemma_fundamental_div_mod_converse(
                            8 * j + k,
                            8,
                            j,
                            k,
                        );
                    }
                    if 8 * j + k >= self.len {
                        assert(!bit_of_bytes(self.value@, 8 * j + k));
                    } else {
                        assert(self@[8 * j + k] == bit_of_bytes(self.value@, 8 * j + k));
                    }
                }
            }
        }
        self.value
    }
}

} // verus!
