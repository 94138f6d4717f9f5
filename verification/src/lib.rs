//! Generation of QR Code symbols, including picture-embedding ("qart")
//! symbols whose spare codeword bits are steered toward a target image
//! while the symbol remains a valid Reed-Solomon codeword.

pub mod bit_info;
pub mod constants;
pub mod data;
pub mod encoding;
pub mod error_correction;
pub mod mask;
pub mod math;
pub mod matrix;
pub mod qart;
pub mod qr_code;

use vstd::prelude::*;

use vstd::string::StringSliceAdditionalSpecFns;

verus! {

/// The mask predicate of `mask` at column `col`, row `row`; a true result
/// flips the module.
pub open spec fn mask_bit_spec(mask: crate::qr_code::Mask, col: int, row: int) -> bool {
    match mask {
        crate::qr_code::Mask::M0 => (row + col) % 2 == 0,
        crate::qr_code::Mask::M1 => row % 2 == 0,
        crate::qr_code::Mask::M2 => col % 3 == 0,
        crate::qr_code::Mask::M3 => (row + col) % 3 == 0,
        crate::qr_code::Mask::M4 => (row / 2 + col / 3) % 2 == 0,
        crate::qr_code::Mask::M5 => (row * col) % 2 + (row * col) % 3 == 0,
        crate::qr_code::Mask::M6 => ((row * col) % 2 + (row * col) % 3) % 2 == 0,
        crate::qr_code::Mask::M7 => ((row + col) % 2 + (row * col) % 3) % 2 == 0,
    }
}

/// Evaluates the mask predicate of `mask` at column `col`, row `row`.
pub fn mask_fn(mask: crate::qr_code::Mask, col: u16, row: u16) -> (b: bool)
    ensures
        b == mask_bit_spec(mask, col as int, row as int),
{
    proof {
        assert((row as u64) * (col as u64) <= 0xffff_ffffu64) by (nonlinear_arith)
            requires
                row <= 0xffffu16,
                col <= 0xffffu16,
        ;
    }
    let prod: u64 = row as u64 * col as u64;
    match mask {
        crate::qr_code::Mask::M0 => (row as u32 + col as u32) % 2 == 0,
        crate::qr_code::Mask::M1 => row % 2 == 0,
        crate::qr_code::Mask::M2 => col % 3 == 0,
        crate::qr_code::Mask::M3 => (row as u32 + col as u32) % 3 == 0,
        crate::qr_code::Mask::M4 => (row / 2 + col / 3) % 2 == 0,
        crate::qr_code::Mask::M5 => prod % 2 + prod % 3 == 0,
        crate::qr_code::Mask::M6 => (prod % 2 + prod % 3) % 2 == 0,
        crate::qr_code::Mask::M7 => ((row as u64 + col as u64) % 2 + prod % 3) % 2 == 0,
    }
}


/// Build-time options of `generate` and `generate_qart`.
#[derive(Debug)]
pub struct QrOptions {
    pub min_version: crate::qr_code::Version,
    pub min_ecl: crate::qr_code::ECL,
    pub mode: Option<crate::qr_code::Mode>,
    pub mask: Option<crate::qr_code::Mask>,
    pub strict_version: bool,
    pub strict_ecl: bool,
}

impl QrOptions {
    /// The defaults: version 1, level Low, everything else automatic.
    pub fn new() -> (r: QrOptions)
        ensures
            r.min_version == crate::qr_code::Version(1),
            r.min_ecl == crate::qr_code::ECL::Low,
            r.mode is None,
            r.mask is None,
            !r.strict_version,
            !r.strict_ecl,
    {
        QrOptions {
            min_version: crate::qr_code::Version(1),
            strict_version: false,
            min_ecl: crate::qr_code::ECL::Low,
            strict_ecl: false,
            mode: None,
            mask: None,
        }
    }

    /// Replaces the minimum version.
    pub fn min_version(self, version: crate::qr_code::Version) -> (r: QrOptions)
        ensures
            r == (QrOptions { min_version: version, ..self }),
    {
        QrOptions { min_version: version, ..self }
    }

    /// Replaces the minimum error correction level.
    pub fn min_ecl(self, min_ecl: crate::qr_code::ECL) -> (r: QrOptions)
        ensures
            r == (QrOptions { min_ecl, ..self }),
    {
        QrOptions { min_ecl, ..self }
    }

    /// Forces a mode, or None to classify the payload.
    pub fn mode(self, mode: Option<crate::qr_code::Mode>) -> (r: QrOptions)
        ensures
            r == (QrOptions { mode, ..self }),
    {
        QrOptions { mode, ..self }
    }

    /// Forces a mask, or None to score all eight.
    pub fn mask(self, mask: Option<crate::qr_code::Mask>) -> (r: QrOptions)
        ensures
            r == (QrOptions { mask, ..self }),
    {
        QrOptions { mask, ..self }
    }

    /// Refuses to grow past the minimum version.
    pub fn strict_version(self, strict: bool) -> (r: QrOptions)
        ensures
            r == (QrOptions { strict_version: strict, ..self }),
    {
        QrOptions { strict_version: strict, ..self }
    }

    /// Refuses to upgrade the error correction level.
    pub fn strict_ecl(self, strict: bool) -> (r: QrOptions)
        ensures
            r == (QrOptions { strict_ecl: strict, ..self }),
    {
        QrOptions { strict_ecl: strict, ..self }
    }
}

/// Why a symbol could not be generated.
#[derive(Clone, Copy, PartialEq, Eq, Structural, Debug)]
pub enum QrError {
    InvalidEncoding,
    ExceedsMaxCapacity,
}

/// Why a picture symbol could not be generated.
#[derive(Clone, Copy, PartialEq, Eq, Structural, Debug)]
pub enum QartError {
    InvalidEncoding,
    ExceedsMaxCapacity,
    InvalidPixelWeights,
}

/// The `QartError` a plain generation error maps to.
pub open spec fn qart_error_of_spec(value: QrError) -> QartError {
    match value {
        QrError::InvalidEncoding => QartError::InvalidEncoding,
        QrError::ExceedsMaxCapacity => QartError::ExceedsMaxCapacity,
    }
}

impl From<QrError> for QartError {
    fn from(value: QrError) -> (r: QartError)
        ensures
            r == qart_error_of_spec(value),
    {
        match value {
            QrError::InvalidEncoding => QartError::InvalidEncoding,
            QrError::ExceedsMaxCapacity => QartError::ExceedsMaxCapacity,
        }
    }
}

impl vstd::std_specs::convert::FromSpecImpl<QrError> for QartError {
    open spec fn obeys_from_spec() -> bool {
        true
    }

    open spec fn from_spec(value: QrError) -> QartError {
        qart_error_of_spec(value)
    }
}

/// The mode the resolver settles on: the forced one where it can carry the
/// payload, else the tightest mode of the payload; None when the forced
/// mode cannot carry it.
pub open spec fn resolved_mode_spec(s: Seq<u8>, requested: Option<crate::qr_code::Mode>) -> Option<
    crate::qr_code::Mode,
> {
    match requested {
        Option::Some(specified) => {
            if specified == crate::qr_code::Mode::Byte {
                Option::Some(crate::qr_code::Mode::Byte)
            } else if crate::qr_code::mode_index_spec(crate::encoding::encoding_mode_spec(s))
                > crate::qr_code::mode_index_spec(specified) {
                Option::None
            } else {
                Option::Some(specified)
            }
        },
        Option::None => Option::Some(crate::encoding::encoding_mode_spec(s)),
    }
}

/// What a successful generation returns for (payload, options): every field
/// of the symbol as a function of the inputs alone.
pub open spec fn generated_ok_spec(s: Seq<u8>, options: QrOptions, qr: crate::qr_code::QrCode) -> bool {
    let mode = resolved_mode_spec(s, options.mode)->Some_0;
    let len = s.len() as int;
    let v = crate::data::find_version_spec(mode, len, options.min_version.0 as int, options.min_ecl);
    let ecl = crate::data::chosen_ecl_spec(mode, len, v, options.min_ecl, options.strict_ecl);
    let bits = crate::encoding::segment_bits_spec(mode, v, s);
    let m0 = match options.mask {
        Option::Some(m) => m,
        Option::None => crate::qr_code::Mask::M0,
    };
    &&& qr.mode == mode
    &&& qr.version.0 as int == v
    &&& qr.ecl == ecl
    &&& qr.mask == (match options.mask {
        Option::Some(m) => m,
        Option::None => crate::qr_code::best_mask_spec(bits, v, ecl),
    })
    &&& qr.matrix.wf()
    &&& qr.matrix.width == 4 * v + 17
    &&& qr.matrix.value@ =~= crate::qr_code::candidate_matrix_spec(bits, v, ecl, m0, qr.mask)
}

/// Generates the QR symbol of `input` under `options`. Fails with
/// `InvalidEncoding` when a forced mode cannot carry the payload and with
/// `ExceedsMaxCapacity` when no version up to 40 fits it.
pub fn generate(input: &str, qr_options: &QrOptions) -> (r: Result<
    crate::qr_code::QrCode,
    QrError,
>)
    requires
        1 <= qr_options.min_version.0 <= 40,
    ensures
        ({
            let s = input.spec_bytes();
            match resolved_mode_spec(s, qr_options.mode) {
                Option::None => r == Result::<crate::qr_code::QrCode, QrError>::Err(
                    QrError::InvalidEncoding,
                ),
                Option::Some(mode) => {
                    let v = crate::data::find_version_spec(
                        mode,
                        s.len() as int,
                        qr_options.min_version.0 as int,
                        qr_options.min_ecl,
                    );
                    if (if qr_options.strict_version {
                        crate::data::fits_spec(
                            mode,
                            s.len() as int,
                            qr_options.min_version.0 as int,
                            qr_options.min_ecl,
                        )
                    } else {
                        v <= 40
                    }) {
                        r is Ok && generated_ok_spec(s, *qr_options, r->Ok_0)
                    } else {
                        r == Result::<crate::qr_code::QrCode, QrError>::Err(
                            QrError::ExceedsMaxCapacity,
                        )
                    }
                },
            }
        }),
{
    match resolve_data(input, qr_options) {
        Ok(data) => {
            proof {
                crate::encoding::lemma_payload_len(data.mode, input.spec_bytes(), 0);
                vstd::arithmetic::div_mod::lemma_fundamental_div_mod(
                    crate::encoding::segment_bit_len_spec(
                        data.mode,
                        data.version.0 as int,
                        input.spec_bytes().len() as int,
                    ) + 7,
                    8,
                );
            }
            Ok(crate::qr_code::QrCode::new(data, qr_options.mask))
        },
        Err(err) => Err(err),
    }
}

/// Two generations from one payload and one set of options agree in every
/// field and every module: generation is deterministic.
pub proof fn lemma_generate_deterministic(
    s: Seq<u8>,
    options: QrOptions,
    qr1: crate::qr_code::QrCode,
    qr2: crate::qr_code::QrCode,
)
    requires
        generated_ok_spec(s, options, qr1),
        generated_ok_spec(s, options, qr2),
    ensures
        qr1.mode == qr2.mode,
        qr1.version == qr2.version,
        qr1.ecl == qr2.ecl,
        qr1.mask == qr2.mask,
        qr1.matrix.value@ =~= qr2.matrix.value@,
        qr1.matrix.width == qr2.matrix.width,
{
    assert(qr1.version.0 == qr2.version.0);
}

/// Classifies the payload, resolves version and level, and encodes the
/// segment; the error taxonomy of `generate`.
#[verifier::rlimit(100)]
fn resolve_data(input: &str, qr_options: &QrOptions) -> (r: Result<crate::data::Data, QrError>)
    requires
        1 <= qr_options.min_version.0 <= 40,
    ensures
        ({
            let s = input.spec_bytes();
            match resolved_mode_spec(s, qr_options.mode) {
                Option::None => r == Result::<crate::data::Data, QrError>::Err(
                    QrError::InvalidEncoding,
                ),
                Option::Some(mode) => {
                    let v = crate::data::find_version_spec(
                        mode,
                        s.len() as int,
                        qr_options.min_version.0 as int,
                        qr_options.min_ecl,
                    );
                    if (if qr_options.strict_version {
                        crate::data::fits_spec(
                            mode,
                            s.len() as int,
                            qr_options.min_version.0 as int,
                            qr_options.min_ecl,
                        )
                    } else {
                        v <= 40
                    }) {
                        &&& r is Ok
                        &&& ({
                            let data = r->Ok_0;
                            &&& data.wf()
                            &&& data.mode == mode
                            &&& data.version.0 as int == v
                            &&& data.ecl == crate::data::chosen_ecl_spec(
                                mode,
                                s.len() as int,
                                v,
                                qr_options.min_ecl,
                                qr_options.strict_ecl,
                            )
                            &&& crate::data::fits_spec(mode, s.len() as int, v, data.ecl)
                            &&& data.bits@ =~= crate::encoding::segment_bits_spec(mode, v, s)
                        })
                    } else {
                        r == Result::<crate::data::Data, QrError>::Err(
                            QrError::ExceedsMaxCapacity,
                        )
                    }
                },
            }
        }),
{
    let mut mode = crate::qr_code::Mode::Byte;
    match qr_options.mode {
        Some(specified) => {
            if !crate::qr_code::modes_equal(specified, crate::qr_code::Mode::Byte) {
                let lowest = crate::encoding::encoding_mode(input);
                if crate::qr_code::mode_index(lowest) > crate::qr_code::mode_index(specified) {
                    return Err(QrError::InvalidEncoding);
                }
                mode = specified;
            }
        },
        None => {
            mode = crate::encoding::encoding_mode(input);
        },
    }
    proof {
        assert(crate::data::mode_compatible_spec(mode, input.spec_bytes()));
    }
    let data = crate::data::Data::new_verbose(
        input,
        mode,
        qr_options.min_version,
        qr_options.strict_version,
        qr_options.min_ecl,
        qr_options.strict_ecl,
    );
    proof {
        crate::data::lemma_find_version_fits(
            mode,
            input.spec_bytes().len() as int,
            qr_options.min_version.0 as int,
            qr_options.min_ecl,
        );
    }
    match data {
        Some(x) => Ok(x),
        None => Err(QrError::ExceedsMaxCapacity),
    }
}


/// What a successful picture generation returns for (payload, options,
/// image): the resolver's fields, and a matrix rendered from solved blocks
/// that stay in the affine span of the payload's codewords and the
/// Reed-Solomon basis.
pub open spec fn qart_ok_spec(
    s: Seq<u8>,
    options: QrOptions,
    img: Seq<crate::qart::WeightPixel>,
    qr: crate::qr_code::QrCode,
) -> bool {
    let mode = resolved_mode_spec(s, options.mode)->Some_0;
    let len = s.len() as int;
    let v = crate::data::find_version_spec(mode, len, options.min_version.0 as int, options.min_ecl);
    let ecl = crate::data::chosen_ecl_spec(mode, len, v, options.min_ecl, options.strict_ecl);
    let bits = crate::encoding::segment_bits_spec(mode, v, s);
    let mask = match options.mask {
        Option::Some(m) => m,
        Option::None => crate::qr_code::Mask::M0,
    };
    let w = 4 * v + 17;
    let padded = crate::error_correction::padded_data_bytes_spec(
        bits,
        crate::data::data_codewords_spec(v, ecl),
    );
    &&& qr.mode == mode
    &&& qr.version.0 as int == v
    &&& qr.ecl == ecl
    &&& qr.mask == mask
    &&& qr.matrix.wf()
    &&& qr.matrix.width == w
    &&& exists|solved: Seq<Seq<bool>>|
        {
            &&& #[trigger] solved.len() == crate::error_correction::blocks_of(v, ecl)
            &&& (forall|bi: int|
                0 <= bi < solved.len() ==> #[trigger] crate::qart::in_span(
                    solved[bi],
                    crate::data::bits_of_bytes(
                        crate::error_correction::block_data_spec(padded, v, ecl, bi)
                            + crate::error_correction::block_ec_spec(padded, v, ecl, bi),
                    ),
                    crate::qart::basis_views_spec(
                        v,
                        ecl,
                        crate::error_correction::block_data_len_spec(v, ecl, bi),
                    ),
                ))
            &&& (forall|bi: int, q: int|
                0 <= bi < solved.len() && 0 <= q < 8 * crate::error_correction::block_data_len_spec(
                    v,
                    ecl,
                    bi,
                ) && 8 * crate::error_correction::block_data_start_spec(v, ecl, bi) + q
                    < bits.len() + crate::error_correction::terminator_len_spec(
                    bits.len() as int,
                    crate::data::data_codewords_spec(v, ecl),
                ) ==> #[trigger] solved[bi][q] == crate::data::bit_of_bytes(
                    padded,
                    8 * crate::error_correction::block_data_start_spec(v, ecl, bi) + q,
                ))
            &&& (forall|x: int, y: int|
                0 <= x < w && 0 <= y < w ==> qr.matrix.value@[crate::matrix::grid_index(w, x, y)]
                    == #[trigger] crate::qart::qart_cell_spec(
                    crate::bit_info::bit_info_cells_spec(v, ecl, mask)[crate::matrix::grid_index(
                        w,
                        x,
                        y,
                    )],
                    mask,
                    x,
                    y,
                    img,
                    solved,
                    w,
                ))
        }
}

/// Generates the picture symbol of `input` under `options`, steering the
/// spare codeword bits toward the weighted image. Fails like `generate`,
/// and with `InvalidPixelWeights` when the image is not one pixel per
/// module.
#[verifier::rlimit(100)]
pub fn generate_qart(
    input: &str,
    qr_options: &QrOptions,
    pixel_weights: &Vec<crate::qart::WeightPixel>,
) -> (r: Result<crate::qr_code::QrCode, QartError>)
    requires
        1 <= qr_options.min_version.0 <= 40,
    ensures
        ({
            let s = input.spec_bytes();
            match resolved_mode_spec(s, qr_options.mode) {
                Option::None => r == Result::<crate::qr_code::QrCode, QartError>::Err(
                    QartError::InvalidEncoding,
                ),
                Option::Some(mode) => {
                    let v = crate::data::find_version_spec(
                        mode,
                        s.len() as int,
                        qr_options.min_version.0 as int,
                        qr_options.min_ecl,
                    );
                    if (if qr_options.strict_version {
                        crate::data::fits_spec(
                            mode,
                            s.len() as int,
                            qr_options.min_version.0 as int,
                            qr_options.min_ecl,
                        )
                    } else {
                        v <= 40
                    }) {
                        if pixel_weights@.len() != (4 * v + 17) * (4 * v + 17) {
                            r == Result::<crate::qr_code::QrCode, QartError>::Err(
                                QartError::InvalidPixelWeights,
                            )
                        } else {
                            r is Ok && qart_ok_spec(s, *qr_options, pixel_weights@, r->Ok_0)
                        }
                    } else {
                        r == Result::<crate::qr_code::QrCode, QartError>::Err(
                            QartError::ExceedsMaxCapacity,
                        )
                    }
                },
            }
        }),
{
    let data = match resolve_data(input, qr_options) {
        Ok(data) => data,
        Err(QrError::InvalidEncoding) => {
            return Err(QartError::InvalidEncoding);
        },
        Err(QrError::ExceedsMaxCapacity) => {
            return Err(QartError::ExceedsMaxCapacity);
        },
    };
    let qr_width = data.version.0 as usize * 4 + 17;
    proof {
        vstd::arithmetic::mul::lemma_mul_nonnegative(qr_width as int, qr_width as int);
        assert(qr_width * qr_width <= 31329) by (nonlinear_arith)
            requires
                21 <= qr_width <= 177,
        ;
    }
    if pixel_weights.len() != qr_width * qr_width {
        return Err(QartError::InvalidPixelWeights);
    }
    let mask = match qr_options.mask {
        Some(m) => m,
        None => crate::qr_code::Mask::M0,
    };
    proof {
        crate::encoding::lemma_payload_len(data.mode, input.spec_bytes(), 0);
        vstd::arithmetic::div_mod::lemma_fundamental_div_mod(
            crate::encoding::segment_bit_len_spec(
                data.mode,
                data.version.0 as int,
                input.spec_bytes().len() as int,
            ) + 7,
            8,
        );
    }
    let qart = crate::qart::QArtCode::new(data, mask);
    let ghost vi = qart.bit_info.version.0 as int;
    let ghost ecl = qart.bit_info.ecl;
    let ghost wi = qart.bit_info.width as int;
    let qr_code = qart.to_qr_code(pixel_weights);
    proof {
        let solved = choose|solved: Seq<Seq<bool>>|
            {
                &&& #[trigger] solved.len() == qart.blocks@.len()
                &&& (forall|bi: int|
                    0 <= bi < solved.len() ==> #[trigger] crate::qart::in_span(
                        solved[bi],
                        qart.blocks@[bi]@,
                        crate::qart::basis_views_spec(
                            vi,
                            ecl,
                            crate::error_correction::block_data_len_spec(vi, ecl, bi),
                        ),
                    ) && solved[bi].len() == qart.blocks@[bi]@.len())
                &&& (forall|bi: int, q: int|
                    0 <= bi < solved.len() && 0 <= q < 8
                        * crate::error_correction::block_data_len_spec(vi, ecl, bi) && 0 <= q
                        < qart.block_weights@[bi]@.len() && (
                    #[trigger] qart.block_weights@[bi]@[q]).weight_spec() == 127 ==> solved[bi][q]
                        == qart.block_weights@[bi]@[q].value_spec())
                &&& (forall|x: int, y: int|
                    0 <= x < wi && 0 <= y < wi ==> qr_code.matrix.value@[crate::matrix::grid_index(
                        wi,
                        x,
                        y,
                    )] == #[trigger] crate::qart::qart_cell_spec(
                        qart.bit_info.infos@[crate::matrix::grid_index(wi, x, y)],
                        qart.bit_info.mask,
                        x,
                        y,
                        pixel_weights@,
                        solved,
                        wi,
                    ))
            };
        assert(solved.len() == crate::error_correction::blocks_of(vi, ecl));
        let sbytes = input.spec_bytes();
        let bits = crate::encoding::segment_bits_spec(qart.bit_info.mode, vi, sbytes);
        let padded = crate::error_correction::padded_data_bytes_spec(
            bits,
            crate::data::data_codewords_spec(vi, ecl),
        );
        assert forall|bi: int| 0 <= bi < solved.len() implies #[trigger] crate::qart::in_span(
            solved[bi],
            crate::data::bits_of_bytes(
                crate::error_correction::block_data_spec(padded, vi, ecl, bi)
                    + crate::error_correction::block_ec_spec(padded, vi, ecl, bi),
            ),
            crate::qart::basis_views_spec(
                vi,
                ecl,
                crate::error_correction::block_data_len_spec(vi, ecl, bi),
            ),
        ) by {
            assert(qart.blocks@[bi]@ == crate::data::bits_of_bytes(
                crate::error_correction::block_data_spec(padded, vi, ecl, bi)
                    + crate::error_correction::block_ec_spec(padded, vi, ecl, bi),
            ));
        }
        assert forall|bi: int, q: int|
            0 <= bi < solved.len() && 0 <= q < 8 * crate::error_correction::block_data_len_spec(
                vi,
                ecl,
                bi,
            ) && 8 * crate::error_correction::block_data_start_spec(vi, ecl, bi) + q < bits.len()
                + crate::error_correction::terminator_len_spec(
                bits.len() as int,
                crate::data::data_codewords_spec(vi, ecl),
            ) implies #[trigger] solved[bi][q] == crate::data::bit_of_bytes(
            padded,
            8 * crate::error_correction::block_data_start_spec(vi, ecl, bi) + q,
        ) by {
            assert(qart.block_weights@[bi]@.len() == qart.blocks@[bi]@.len());
            assert((qart.block_weights@[bi]@[q]).weight_spec() == 127
                && qart.block_weights@[bi]@[q].value_spec() == crate::data::bit_of_bytes(
                padded,
                8 * crate::error_correction::block_data_start_spec(vi, ecl, bi) + q,
            ));
        }
        assert forall|x: int, y: int| 0 <= x < wi && 0 <= y < wi implies qr_code.matrix.value@[
            crate::matrix::grid_index(wi, x, y)
        ] == #[trigger] crate::qart::qart_cell_spec(
            crate::bit_info::bit_info_cells_spec(vi, ecl, qart.bit_info.mask)[
                crate::matrix::grid_index(wi, x, y)],
            qart.bit_info.mask,
            x,
            y,
            pixel_weights@,
            solved,
            wi,
        ) by {
            assert(qart.bit_info.infos@ == crate::bit_info::bit_info_cells_spec(
                vi,
                ecl,
                qart.bit_info.mask,
            ));
        }
    }
    Ok(qr_code)
}

} // verus!
