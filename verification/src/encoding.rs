use vstd::prelude::*;

use vstd::string::StringSliceAdditionalSpecFns;

use crate::data::{bits_of_uint, Data};
use crate::qr_code::{Mode, Version};

verus! {

/// An ASCII decimal digit.
pub open spec fn is_digit(c: u8) -> bool {
    48 <= c <= 57
}

/// Value of a byte in the 45-symbol alphanumeric alphabet, 255 outside it.
pub open spec fn b45_value_spec(c: u8) -> int {
    if 65 <= c <= 90 {
        c - 65 + 10
    } else if c == 58 {
        44
    } else if 48 <= c <= 57 {
        c - 48
    } else if c == 32 {
        36
    } else if c == 36 {
        37
    } else if c == 37 {
        38
    } else if c == 42 {
        39
    } else if c == 43 {
        40
    } else if c == 45 {
        41
    } else if c == 46 {
        42
    } else if c == 47 {
        43
    } else {
        255
    }
}

/// A byte of the alphanumeric alphabet.
pub open spec fn is_b45(c: u8) -> bool {
    b45_value_spec(c) < 45
}

fn byte_to_b45(c: u8) -> (r: u8)
    ensures
        r as int == b45_value_spec(c),
{
    if c >= 65 && c <= 90 {
        c - 65 + 10
    } else if c == 58 {
        44
    } else if c >= 48 && c <= 57 {
        c - 48
    } else if c == 32 {
        36
    } else if c == 36 {
        37
    } else if c == 37 {
        38
    } else if c == 42 {
        39
    } else if c == 43 {
        40
    } else if c == 45 {
        41
    } else if c == 46 {
        42
    } else if c == 47 {
        43
    } else {
        255
    }
}

/// The tightest mode that can carry the bytes: Numeric when all are digits,
/// Alphanumeric when all are in the 45-symbol alphabet, else Byte.
pub open spec fn encoding_mode_spec(s: Seq<u8>) -> Mode {
    if forall|i: int| 0 <= i < s.len() ==> is_digit(#[trigger] s[i]) {
        Mode::Numeric
    } else if forall|i: int| 0 <= i < s.len() ==> is_b45(#[trigger] s[i]) {
        Mode::Alphanumeric
    } else {
        Mode::Byte
    }
}

/// Classifies the payload; see `encoding_mode_spec`.
pub fn encoding_mode(input: &str) -> (mode: Mode)
    ensures
        mode == encoding_mode_spec(input.spec_bytes()),
{
    let bytes = input.as_bytes();
    let mut all_digit = true;
    let mut all_b45 = true;
    let mut i: usize = 0;
    while i < bytes.len()
        invariant
            i <= bytes.len(),
            bytes@ == input.spec_bytes(),
            all_digit == forall|k: int| 0 <= k < i ==> is_digit(#[trigger] bytes@[k]),
            all_b45 == forall|k: int| 0 <= k < i ==> is_b45(#[trigger] bytes@[k]),
        decreases bytes.len() - i,
    {
        let c = bytes[i];
        if !(c >= 48 && c <= 57) {
            all_digit = false;
        }
        if byte_to_b45(c) >= 45 {
            all_b45 = false;
        }
        i += 1;
    }
    if all_digit {
        Mode::Numeric
    } else if all_b45 {
        Mode::Alphanumeric
    } else {
        Mode::Byte
    }
}

/// Width of the character count indicator of a mode at a version.
pub open spec fn num_cci_bits_spec(version: int, mode: Mode) -> int {
    match mode {
        Mode::Byte => if version < 10 {
            8int
        } else {
            16int
        },
        Mode::Numeric => 10 + (if version > 9 {
            2int
        } else {
            0int
        }) + (if version > 26 {
            2int
        } else {
            0int
        }),
        Mode::Alphanumeric => 9 + (if version > 9 {
            2int
        } else {
            0int
        }) + (if version > 26 {
            2int
        } else {
            0int
        }),
    }
}

/// Character-count indicator width; see `num_cci_bits_spec`.
pub fn num_cci_bits(version: Version, mode: Mode) -> (n: usize)
    ensures
        n as int == num_cci_bits_spec(version.0 as int, mode),
        8 <= n <= 16,
{
    if mode == Mode::Byte {
        return if version.0 < 10 {
            8
        } else {
            16
        };
    }
    let mut base: usize = match mode {
        Mode::Numeric => 10,
        Mode::Alphanumeric => 9,
        Mode::Byte => 8,
    };
    if version.0 > 9 {
        base += 2;
    }
    if version.0 > 26 {
        base += 2;
    }
    base
}

/// The numeric-mode payload bits of the digits from position `i` on: full
/// groups of three digits in 10 bits each, then a leftover pair in 7 bits
/// or single digit in 4.
pub open spec fn numeric_payload_from(s: Seq<u8>, i: int) -> Seq<bool>
    decreases s.len() - i,
{
    if 0 <= i && i + 3 <= s.len() {
        bits_of_uint(
            ((s[i] - 48) * 100 + (s[i + 1] - 48) * 10 + (s[i + 2] - 48)) as usize,
            10,
        ) + numeric_payload_from(s, i + 3)
    } else if 0 <= i && i + 2 == s.len() {
        bits_of_uint(((s[i] - 48) * 10 + (s[i + 1] - 48)) as usize, 7)
    } else if 0 <= i && i + 1 == s.len() {
        bits_of_uint((s[i] - 48) as usize, 4)
    } else {
        Seq::empty()
    }
}

/// The alphanumeric-mode payload bits of the symbols from position `i` on:
/// pairs as 45*a + b in 11 bits, a leftover single symbol in 6 bits.
pub open spec fn alphanumeric_payload_from(s: Seq<u8>, i: int) -> Seq<bool>
    decreases s.len() - i,
{
    if 0 <= i && i + 2 <= s.len() {
        bits_of_uint(
            (b45_value_spec(s[i]) * 45 + b45_value_spec(s[i + 1])) as usize,
            11,
        ) + alphanumeric_payload_from(s, i + 2)
    } else if 0 <= i && i + 1 == s.len() {
        bits_of_uint(b45_value_spec(s[i]) as usize, 6)
    } else {
        Seq::empty()
    }
}

/// The byte-mode payload bits: each byte verbatim, 8 bits each.
pub open spec fn byte_payload_from(s: Seq<u8>, i: int) -> Seq<bool>
    decreases s.len() - i,
{
    if 0 <= i && i + 1 <= s.len() {
        bits_of_uint(s[i] as usize, 8) + byte_payload_from(s, i + 1)
    } else {
        Seq::empty()
    }
}

/// Payload bits of a mode over the whole input.
pub open spec fn payload_bits_spec(mode: Mode, s: Seq<u8>) -> Seq<bool> {
    match mode {
        Mode::Numeric => numeric_payload_from(s, 0),
        Mode::Alphanumeric => alphanumeric_payload_from(s, 0),
        Mode::Byte => byte_payload_from(s, 0),
    }
}

/// Bit length of the payload of `len` characters in a mode.
pub open spec fn payload_bit_len_spec(mode: Mode, len: int) -> int {
    match mode {
        Mode::Numeric => 10 * (len / 3) + (if len % 3 == 1 {
            4int
        } else if len % 3 == 2 {
            7int
        } else {
            0int
        }),
        Mode::Alphanumeric => 11 * (len / 2) + 6 * (len % 2),
        Mode::Byte => 8 * len,
    }
}

/// The payload bits from position `i` count the remaining characters per
/// the closed length formula.
pub proof fn lemma_payload_len(mode: Mode, s: Seq<u8>, i: int)
    requires
        0 <= i <= s.len(),
    ensures
        (match mode {
            Mode::Numeric => numeric_payload_from(s, i),
            Mode::Alphanumeric => alphanumeric_payload_from(s, i),
            Mode::Byte => byte_payload_from(s, i),
        }).len() == payload_bit_len_spec(mode, s.len() - i),
    decreases s.len() - i,
{
    match mode {
        Mode::Numeric => {
            if i + 3 <= s.len() {
                lemma_payload_len(mode, s, i + 3);
            }
        },
        Mode::Alphanumeric => {
            if i + 2 <= s.len() {
                lemma_payload_len(mode, s, i + 2);
            }
        },
        Mode::Byte => {
            if i + 1 <= s.len() {
                lemma_payload_len(mode, s, i + 1);
            }
        },
    }
}

/// The four mode indicator bits: Numeric 1, Alphanumeric 2, Byte 4.
pub open spec fn mode_indicator_spec(mode: Mode) -> usize {
    match mode {
        Mode::Numeric => 1usize,
        Mode::Alphanumeric => 2usize,
        Mode::Byte => 4usize,
    }
}

/// The full bit stream of one encoded segment: mode indicator, character
/// count, payload.
pub open spec fn segment_bits_spec(mode: Mode, version: int, s: Seq<u8>) -> Seq<bool> {
    bits_of_uint(mode_indicator_spec(mode), 4) + bits_of_uint(
        s.len() as usize,
        num_cci_bits_spec(version, mode),
    ) + payload_bits_spec(mode, s)
}

/// Total bit length of a segment of `len` characters.
pub open spec fn segment_bit_len_spec(mode: Mode, version: int, len: int) -> int {
    4 + num_cci_bits_spec(version, mode) + payload_bit_len_spec(mode, len)
}

/// Appends a numeric-mode segment of `input` to the stream of `data`.
pub fn encode_numeric(data: &mut Data, input: &str)
    requires
        old(data).wf(),
        forall|i: int| 0 <= i < input.spec_bytes().len() ==> is_digit(#[trigger] input.spec_bytes()[i]),
        old(data).bits@.len() + segment_bit_len_spec(
            Mode::Numeric,
            old(data).version.0 as int,
            input.spec_bytes().len() as int,
        ) <= usize::MAX,
    ensures
        final(data).wf(),
        final(data).bits@ =~= old(data).bits@ + segment_bits_spec(
            Mode::Numeric,
            old(data).version.0 as int,
            input.spec_bytes(),
        ),
        final(data).mode == old(data).mode,
        final(data).version == old(data).version,
        final(data).ecl == old(data).ecl,
{
    let ghost s = input.spec_bytes();
    let ghost version = data.version.0 as int;
    let ghost target = old(data).bits@ + segment_bits_spec(Mode::Numeric, version, s);
    proof {
        lemma_payload_len(Mode::Numeric, s, 0);
    }
    data.bits.push_n(1, 4);
    let cci = num_cci_bits(data.version, Mode::Numeric);
    let bytes = input.as_bytes();
    data.bits.push_n(bytes.len(), cci);
    let groups = bytes.len() / 3;
    let mut i: usize = 0;
    while i < groups
        invariant
            data.wf(),
            data.version.0 as int == version,
            data.mode == old(data).mode,
            data.version == old(data).version,
            data.ecl == old(data).ecl,
            bytes@ == s,
            forall|k: int| 0 <= k < s.len() ==> is_digit(#[trigger] s[k]),
            i <= groups,
            groups == s.len() / 3,
            s.len() <= usize::MAX,
            target.len() <= usize::MAX,
            data.bits@.len() + numeric_payload_from(s, 3 * i as int).len() == target.len(),
            data.bits@ + numeric_payload_from(s, 3 * i as int) =~= target,
        decreases groups - i,
    {
        proof {
            vstd::arithmetic::div_mod::lemma_fundamental_div_mod(s.len() as int, 3);
            assert(3 * (i as int) + 2 < s.len());
        }
        let group: usize = (bytes[i * 3] - 48) as usize * 100 + (bytes[i * 3 + 1] - 48) as usize
            * 10 + (bytes[i * 3 + 2] - 48) as usize;
        data.bits.push_n(group, 10);
        proof {
            assert(3 * (i + 1) <= s.len());
            assert(numeric_payload_from(s, 3 * i as int) =~= bits_of_uint(group, 10)
                + numeric_payload_from(s, 3 * (i + 1)));
        }
        i += 1;
    }
    let rem = bytes.len() % 3;
    if rem == 1 {
        let group = (bytes[bytes.len() - 1] - 48) as usize;
        proof {
            assert(3 * (groups as int) + 1 == s.len());
        }
        data.bits.push_n(group, 4);
    } else if rem == 2 {
        let group = (bytes[bytes.len() - 2] - 48) as usize * 10 + (bytes[bytes.len() - 1]
            - 48) as usize;
        proof {
            assert(3 * (groups as int) + 2 == s.len());
        }
        data.bits.push_n(group, 7);
    }
    proof {
        assert(data.bits@ =~= target);
    }
}

/// Appends an alphanumeric-mode segment of `input` to the stream of `data`.
pub fn encode_alphanumeric(qrdata: &mut Data, input: &str)
    requires
        old(qrdata).wf(),
        forall|i: int| 0 <= i < input.spec_bytes().len() ==> is_b45(#[trigger] input.spec_bytes()[i]),
        old(qrdata).bits@.len() + segment_bit_len_spec(
            Mode::Alphanumeric,
            old(qrdata).version.0 as int,
            input.spec_bytes().len() as int,
        ) <= usize::MAX,
    ensures
        final(qrdata).wf(),
        final(qrdata).bits@ =~= old(qrdata).bits@ + segment_bits_spec(
            Mode::Alphanumeric,
            old(qrdata).version.0 as int,
            input.spec_bytes(),
        ),
        final(qrdata).mode == old(qrdata).mode,
        final(qrdata).version == old(qrdata).version,
        final(qrdata).ecl == old(qrdata).ecl,
{
    let ghost s = input.spec_bytes();
    let ghost version = qrdata.version.0 as int;
    let ghost target = old(qrdata).bits@ + segment_bits_spec(Mode::Alphanumeric, version, s);
    proof {
        lemma_payload_len(Mode::Alphanumeric, s, 0);
    }
    qrdata.bits.push_n(2, 4);
    let cci = num_cci_bits(qrdata.version, Mode::Alphanumeric);
    let bytes = input.as_bytes();
    qrdata.bits.push_n(bytes.len(), cci);
    let groups = bytes.len() / 2;
    let mut i: usize = 0;
    while i < groups
        invariant
            qrdata.wf(),
            qrdata.version.0 as int == version,
            qrdata.mode == old(qrdata).mode,
            qrdata.version == old(qrdata).version,
            qrdata.ecl == old(qrdata).ecl,
            bytes@ == s,
            forall|k: int| 0 <= k < s.len() ==> is_b45(#[trigger] s[k]),
            i <= groups,
            groups == s.len() / 2,
            s.len() <= usize::MAX,
            target.len() <= usize::MAX,
            qrdata.bits@.len() + alphanumeric_payload_from(s, 2 * i as int).len() == target.len(),
            qrdata.bits@ + alphanumeric_payload_from(s, 2 * i as int) =~= target,
        decreases groups - i,
    {
        proof {
            vstd::arithmetic::div_mod::lemma_fundamental_div_mod(s.len() as int, 2);
            assert(2 * (i as int) + 1 < s.len());
        }
        let group: usize = byte_to_b45(bytes[i * 2]) as usize * 45 + byte_to_b45(
            bytes[i * 2 + 1],
        ) as usize;
        qrdata.bits.push_n(group, 11);
        proof {
            assert(2 * (i + 1) <= s.len());
            assert(alphanumeric_payload_from(s, 2 * i as int) =~= bits_of_uint(group, 11)
                + alphanumeric_payload_from(s, 2 * (i + 1)));
        }
        i += 1;
    }
    if bytes.len() % 2 == 1 {
        let group = byte_to_b45(bytes[bytes.len() - 1]) as usize;
        proof {
            assert(2 * (groups as int) + 1 == s.len());
        }
        qrdata.bits.push_n(group, 6);
    }
    proof {
        assert(qrdata.bits@ =~= target);
    }
}

/// Appends a byte-mode segment of `input` to the stream of `data`.
pub fn encode_byte(qrdata: &mut Data, input: &str)
    requires
        old(qrdata).wf(),
        old(qrdata).bits@.len() + segment_bit_len_spec(
            Mode::Byte,
            old(qrdata).version.0 as int,
            input.spec_bytes().len() as int,
        ) <= usize::MAX,
    ensures
        final(qrdata).wf(),
        final(qrdata).bits@ =~= old(qrdata).bits@ + segment_bits_spec(
            Mode::Byte,
            old(qrdata).version.0 as int,
            input.spec_bytes(),
        ),
        final(qrdata).mode == old(qrdata).mode,
        final(qrdata).version == old(qrdata).version,
        final(qrdata).ecl == old(qrdata).ecl,
{
    let ghost s = input.spec_bytes();
    let ghost version = qrdata.version.0 as int;
    let ghost target = old(qrdata).bits@ + segment_bits_spec(Mode::Byte, version, s);
    proof {
        lemma_payload_len(Mode::Byte, s, 0);
    }
    qrdata.bits.push_n(4, 4);
    let cci = num_cci_bits(qrdata.version, Mode::Byte);
    let bytes = input.as_bytes();
    qrdata.bits.push_n(bytes.len(), cci);
    let mut i: usize = 0;
    while i < bytes.len()
        invariant
            qrdata.wf(),
            qrdata.version.0 as int == version,
            qrdata.mode == old(qrdata).mode,
            qrdata.version == old(qrdata).version,
            qrdata.ecl == old(qrdata).ecl,
            bytes@ == s,
            i <= s.len(),
            target.len() <= usize::MAX,
            qrdata.bits@.len() + byte_payload_from(s, i as int).len() == target.len(),
            qrdata.bits@ + byte_payload_from(s, i as int) =~= target,
        decreases bytes.len() - i,
    {
        let c = bytes[i];
        qrdata.bits.push_n(c as usize, 8);
        proof {
            assert(byte_payload_from(s, i as int) =~= bits_of_uint(c as usize, 8)
                + byte_payload_from(s, i + 1));
        }
        i += 1;
    }
    proof {
        assert(qrdata.bits@ =~= target);
    }
}

} // verus!
