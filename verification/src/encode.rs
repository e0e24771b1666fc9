//! The pixel-level RGBM codec: encoding radiance into normalized RGBM
//! quadruples, quantizing to bytes, reconstructing approximate RGBA bytes,
//! and packing pixels into a flat raster buffer.
//!
//! All values are exact integers. A radiance channel is a fixed-point number
//! in units of `1/RADIANCE_SCALE`; an RGBM color channel is a rational
//! `num/den` in `[0, 1]`; the multiplier is the byte numerator of a fraction
//! over 255. Working on exact rationals lets every rounding step of the codec
//! be stated and proved precisely.

use vstd::prelude::*;

verus! {

/// Fixed-point resolution of a radiance channel: a stored value `v` means
/// the linear radiance `v / RADIANCE_SCALE`.
pub const RADIANCE_SCALE: u32 = 1000;

/// The calibration range of the encoding, in radiance units: radiance
/// `RANGE_UNITS / RADIANCE_SCALE` (6.0) is the largest value the encoding
/// is calibrated for. Larger channels are clamped to it before encoding.
pub const RANGE_UNITS: u32 = 6000;

/// Largest denominator a unit-interval rational may carry. Every denominator
/// produced by the encoder is `RANGE_UNITS * m` with `m <= 255`, so this
/// bound keeps all quantization arithmetic inside `u64`.
pub const MAX_DEN: u64 = 1530000;

/// One pixel's linear HDR radiance, each channel a fixed-point value in
/// units of `1/RADIANCE_SCALE`. Non-negative by construction (unsigned).
#[derive(Clone, Copy, PartialEq, Eq, Structural, Debug)]
pub struct Radiance {
    pub r: u32,
    pub g: u32,
    pub b: u32,
}

/// An exact rational intended to lie in the unit interval `[0, 1]`.
#[derive(Clone, Copy, PartialEq, Eq, Structural, Debug)]
pub struct UnitValue {
    pub num: u64,
    pub den: u64,
}

impl UnitValue {
    /// The value is a well-formed fraction in `[0, 1]` with a denominator
    /// small enough for quantization arithmetic to stay in `u64`.
    pub open spec fn wf(self) -> bool {
        &&& 1 <= self.den <= MAX_DEN
        &&& self.num <= self.den
    }
}

/// One pixel in RGBM form: three color channels in `[0, 1]` and the shared
/// multiplier `m`, stored as the numerator of the fraction `m/255`.
#[derive(Clone, Copy, PartialEq, Eq, Structural, Debug)]
pub struct Rgbm {
    pub r: UnitValue,
    pub g: UnitValue,
    pub b: UnitValue,
    pub m: u8,
}

impl Rgbm {
    /// All three channels are well-formed unit fractions and the multiplier
    /// is at least `1/255`, so no division by zero can arise downstream.
    pub open spec fn wf(self) -> bool {
        &&& self.r.wf()
        &&& self.g.wf()
        &&& self.b.wf()
        &&& 1 <= self.m
    }
}

/// Ceiling of `a / b` for non-negative `a` and positive `b`.
pub open spec fn ceil_div(a: int, b: int) -> int {
    (a + b - 1) / b
}

/// A radiance channel clamped to the calibration range.
pub open spec fn clamp_units(v: int) -> int {
    if v > RANGE_UNITS { RANGE_UNITS as int } else { v }
}

/// The brightest clamped channel of a radiance triple, in radiance units.
pub open spec fn peak_units(t: Radiance) -> int {
    let r = clamp_units(t.r as int);
    let g = clamp_units(t.g as int);
    let b = clamp_units(t.b as int);
    if r >= g && r >= b {
        r
    } else if g >= b {
        g
    } else {
        b
    }
}

/// The multiplier numerator chosen for a radiance triple: the normalized
/// peak rounded up to the next multiple of `1/255`, and never below `1/255`
/// so that a fully black pixel still gets a defined multiplier.
pub open spec fn mult_units(t: Radiance) -> int {
    let c = ceil_div(255 * peak_units(t), RANGE_UNITS as int);
    if c < 1 { 1 } else { c }
}

/// The quadruple the encoder produces for a radiance triple: each channel is
/// the exact rational `(clamped / RANGE) / (m / 255)`, kept unreduced over
/// the denominator `RANGE_UNITS * m`.
pub open spec fn encode_spec(t: Radiance) -> Rgbm {
    let m = mult_units(t);
    Rgbm {
        r: UnitValue { num: (255 * clamp_units(t.r as int)) as u64, den: (RANGE_UNITS * m) as u64 },
        g: UnitValue { num: (255 * clamp_units(t.g as int)) as u64, den: (RANGE_UNITS * m) as u64 },
        b: UnitValue { num: (255 * clamp_units(t.b as int)) as u64, den: (RANGE_UNITS * m) as u64 },
        m: m as u8,
    }
}

/// The chosen multiplier numerator always lies in `1..=255`.
pub proof fn lemma_mult_units_bounds(t: Radiance)
    ensures
        1 <= mult_units(t) <= 255,
{
    assert(0 <= peak_units(t) <= RANGE_UNITS);
}

/// The encoded quadruple is well-formed: every channel lies in `[0, 1]`
/// (numerator at most denominator) and the multiplier lies in `[1/255, 1]`.
/// This holds for every input triple, out-of-range channels included,
/// because channels are clamped to the calibration range first.
pub proof fn lemma_encode_unit_range(t: Radiance)
    ensures
        encode_spec(t).wf(),
        1 <= encode_spec(t).m <= 255,
{
    lemma_mult_units_bounds(t);
    let m = mult_units(t);
    let peak = peak_units(t);
    assert(RANGE_UNITS * m >= peak * 255) by {
        assert(RANGE_UNITS * mult_units(t) >= 255 * peak_units(t)) by {
            let a = 255 * peak_units(t);
            let d = RANGE_UNITS as int;
            let c = ceil_div(a, d);
            assert(d * c >= a) by {
                assert(a + d - 1 == d * ((a + d - 1) / d) + ((a + d - 1) % d)) by {
                    vstd::arithmetic::div_mod::lemma_fundamental_div_mod(a + d - 1, d);
                }
            }
            assert(RANGE_UNITS * mult_units(t) >= d * c) by (nonlinear_arith)
                requires
                    c <= mult_units(t),
                    d == RANGE_UNITS as int,
                    c == ceil_div(a, d),
                    d * c >= a,
                    mult_units(t) >= 1,
            ;
        }
        assert(peak * 255 == 255 * peak) by (nonlinear_arith);
    }
    assert(255 * clamp_units(t.r as int) <= RANGE_UNITS * m) by (nonlinear_arith)
        requires
            clamp_units(t.r as int) <= peak,
            RANGE_UNITS * m >= peak * 255,
    ;
    assert(255 * clamp_units(t.g as int) <= RANGE_UNITS * m) by (nonlinear_arith)
        requires
            clamp_units(t.g as int) <= peak,
            RANGE_UNITS * m >= peak * 255,
    ;
    assert(255 * clamp_units(t.b as int) <= RANGE_UNITS * m) by (nonlinear_arith)
        requires
            clamp_units(t.b as int) <= peak,
            RANGE_UNITS * m >= peak * 255,
    ;
    assert(RANGE_UNITS * m <= MAX_DEN);
}

/// Encode one radiance triple into an RGBM quadruple.
///
/// Channels above the calibration range are clamped to it; the multiplier is
/// the clamped, normalized peak rounded up to a multiple of `1/255`, floored
/// at `1/255` so that a fully black pixel encodes to `(0, 0, 0, 1/255)`
/// rather than dividing by zero.
pub fn encode_rgbe_float_to_rgbm(t: Radiance) -> (q: Rgbm)
    ensures
        q == encode_spec(t),
        q.wf(),
        1 <= q.m,
{
    proof {
        lemma_encode_unit_range(t);
    }
    let cr: u32 = if t.r > RANGE_UNITS { RANGE_UNITS } else { t.r };
    let cg: u32 = if t.g > RANGE_UNITS { RANGE_UNITS } else { t.g };
    let cb: u32 = if t.b > RANGE_UNITS { RANGE_UNITS } else { t.b };
    let peak: u32 = if cr >= cg && cr >= cb {
        cr
    } else if cg >= cb {
        cg
    } else {
        cb
    };
    let mraw: u32 = (255 * peak + (RANGE_UNITS - 1)) / RANGE_UNITS;
    let m: u8 = if mraw < 1 { 1 } else { mraw as u8 };
    let den: u64 = (RANGE_UNITS as u64) * (m as u64);
    Rgbm {
        r: UnitValue { num: 255 * (cr as u64), den },
        g: UnitValue { num: 255 * (cg as u64), den },
        b: UnitValue { num: 255 * (cb as u64), den },
        m,
    }
}

/// The byte a unit value quantizes to: `ceil(x * 255)`, the round-up policy
/// that never underestimates brightness.
pub open spec fn quant_byte(u: UnitValue) -> int {
    ceil_div(255 * u.num, u.den as int)
}

/// A well-formed unit value always quantizes into a byte.
pub proof fn lemma_quant_byte_range(u: UnitValue)
    requires
        u.wf(),
    ensures
        0 <= quant_byte(u) <= 255,
{
    let a = 255 * u.num + u.den - 1;
    let d = u.den as int;
    vstd::arithmetic::div_mod::lemma_div_pos_is_pos(a, d);
    vstd::arithmetic::div_mod::lemma_div_is_ordered(a, 256 * d - 1, d);
    vstd::arithmetic::div_mod::lemma_fundamental_div_mod_converse(256 * d - 1, d, 255, d - 1);
    assert(a <= 256 * d - 1) by (nonlinear_arith)
        requires
            u.num <= u.den,
            d == u.den as int,
            a == 255 * u.num + u.den - 1,
    ;
}

/// Quantize one unit value to a byte, rounding up.
fn quantize_unit(u: &UnitValue) -> (b: u8)
    requires
        u.wf(),
    ensures
        b as int == quant_byte(*u),
{
    proof {
        lemma_quant_byte_range(*u);
    }
    let n: u64 = 255 * u.num + (u.den - 1);
    (n / u.den) as u8
}

/// Quantize an RGBM quadruple to its four-byte form: each color channel and
/// the multiplier are mapped by `ceil(x * 255)`. For the multiplier, whose
/// value is `m/255`, that round-up returns the numerator `m` itself, so the
/// multiplier survives quantization losslessly.
pub fn convert_rgbm_float_to_8_bit(q: &Rgbm) -> (out: Vec<u8>)
    requires
        q.wf(),
    ensures
        out@.len() == 4,
        out@[0] as int == quant_byte(q.r),
        out@[1] as int == quant_byte(q.g),
        out@[2] as int == quant_byte(q.b),
        out@[3] == q.m,
        out@[3] as int == quant_byte(UnitValue { num: q.m as u64, den: 255 }),
{
    proof {
        lemma_requantize_idempotent(q.m);
    }
    let mut out: Vec<u8> = Vec::new();
    out.push(quantize_unit(&q.r));
    out.push(quantize_unit(&q.g));
    out.push(quantize_unit(&q.b));
    out.push(q.m);
    out
}

/// The byte the reconstructor produces for one color channel:
/// `floor(x * RANGE * m * 255)`, saturated at 255. In exact rational form
/// that is `floor(num * RANGE_UNITS * m / (den * RADIANCE_SCALE))`.
pub open spec fn recon_byte(u: UnitValue, m: u8) -> int {
    let v = (u.num * RANGE_UNITS * m) / (u.den * RADIANCE_SCALE);
    if v > 255 { 255 } else { v }
}

/// The reconstructed channel always fits in a byte.
pub proof fn lemma_recon_byte_range(u: UnitValue, m: u8)
    requires
        u.wf(),
    ensures
        0 <= recon_byte(u, m) <= 255,
{
    assert(u.num * RANGE_UNITS * m >= 0) by (nonlinear_arith);
    assert(u.den * RADIANCE_SCALE > 0) by (nonlinear_arith)
        requires
            u.den >= 1,
    ;
    vstd::arithmetic::div_mod::lemma_div_pos_is_pos(
        u.num * RANGE_UNITS * m as int,
        u.den * RADIANCE_SCALE as int,
    );
}

/// Reconstruct one channel byte from a unit value and the multiplier.
fn recon_unit(u: &UnitValue, m: u8) -> (b: u8)
    requires
        u.wf(),
    ensures
        b as int == recon_byte(*u, m),
{
    proof {
        lemma_recon_byte_range(*u, m);
        assert(u.num * (RANGE_UNITS as u64) * (m as u64) <= 1530000u64 * 6000 * 255)
            by (nonlinear_arith)
            requires
                u.num <= 1530000,
                m <= 255,
        ;
        assert(u.den * (RADIANCE_SCALE as u64) <= 1530000u64 * 1000) by (nonlinear_arith)
            requires
                u.den <= 1530000,
        ;
    }
    let a: u64 = u.num * (RANGE_UNITS as u64) * (m as u64);
    let d: u64 = u.den * (RADIANCE_SCALE as u64);
    let v: u64 = a / d;
    if v > 255 {
        255
    } else {
        v as u8
    }
}

/// Reconstruct an approximate opaque RGBA byte quadruple from an RGBM
/// quadruple: each color channel is `floor(x * RANGE * m * 255)` saturated
/// at 255 (truncation, not rounding — this path is a lossy viewable
/// approximation), and the alpha byte is forced to 255.
pub fn decode_rgbm_to_rgba8(q: &Rgbm) -> (out: Vec<u8>)
    requires
        q.wf(),
    ensures
        out@.len() == 4,
        out@[0] as int == recon_byte(q.r, q.m),
        out@[1] as int == recon_byte(q.g, q.m),
        out@[2] as int == recon_byte(q.b, q.m),
        out@[3] == 255,
{
    let mut out: Vec<u8> = Vec::new();
    out.push(recon_unit(&q.r, q.m));
    out.push(recon_unit(&q.g, q.m));
    out.push(recon_unit(&q.b, q.m));
    out.push(255);
    out
}

/// Law: quantization is idempotent across reconstruction. A byte `b`,
/// read back as the unit value `b/255` and quantized again, returns exactly
/// `b` — zero drift, within the one-unit tolerance the codec allows.
pub proof fn lemma_requantize_idempotent(b: u8)
    ensures
        quant_byte(UnitValue { num: b as u64, den: 255 }) == b as int,
{
    vstd::arithmetic::div_mod::lemma_fundamental_div_mod_converse(
        255 * (b as int) + 254,
        255,
        b as int,
        254,
    );
}

/// Law: reapplying the calibration range and the multiplier to an encoded
/// quadruple restores the clamped input radiance exactly. Cross-multiplied,
/// `(num/den) * (RANGE_UNITS/RADIANCE_SCALE) * (m/255)` equals
/// `clamped/RADIANCE_SCALE` for every channel — an exact round trip, well
/// within the one-quantization-step tolerance the encoding promises. For
/// in-range inputs the clamped radiance is the input itself.
pub proof fn lemma_rgbm_round_trip(t: Radiance)
    ensures
        ({
            let q = encode_spec(t);
            &&& q.r.num * RANGE_UNITS * q.m == clamp_units(t.r as int) * 255 * q.r.den
            &&& q.g.num * RANGE_UNITS * q.m == clamp_units(t.g as int) * 255 * q.g.den
            &&& q.b.num * RANGE_UNITS * q.m == clamp_units(t.b as int) * 255 * q.b.den
        }),
{
    lemma_mult_units_bounds(t);
    let m = mult_units(t);
    let q = encode_spec(t);
    assert(q.m as int == m);
    assert(q.r.den as int == RANGE_UNITS * m);
    let cr = clamp_units(t.r as int);
    let cg = clamp_units(t.g as int);
    let cb = clamp_units(t.b as int);
    assert((255 * cr) * RANGE_UNITS * m == cr * 255 * (RANGE_UNITS * m)) by (nonlinear_arith);
    assert((255 * cg) * RANGE_UNITS * m == cg * 255 * (RANGE_UNITS * m)) by (nonlinear_arith);
    assert((255 * cb) * RANGE_UNITS * m == cb * 255 * (RANGE_UNITS * m)) by (nonlinear_arith);
}

/// The four bytes one pixel contributes to the raster, as decided by the
/// selected output format: its quantized RGBM form, or its reconstructed
/// opaque RGBA form.
pub open spec fn quad_bytes(q: Rgbm, format: crate::cli::Format) -> Seq<u8> {
    match format {
        crate::cli::Format::Rgbm => seq![
            quant_byte(q.r) as u8,
            quant_byte(q.g) as u8,
            quant_byte(q.b) as u8,
            q.m,
        ],
        crate::cli::Format::Rgba => seq![
            recon_byte(q.r, q.m) as u8,
            recon_byte(q.g, q.m) as u8,
            recon_byte(q.b, q.m) as u8,
            255u8,
        ],
    }
}

/// The flat raster buffer for a pixel sequence: the per-pixel byte
/// quadruples concatenated in pixel order, four bytes per pixel.
pub open spec fn pack_spec(pixels: Seq<Rgbm>, format: crate::cli::Format) -> Seq<u8> {
    Seq::new(4 * pixels.len(), |i: int| quad_bytes(pixels[i / 4], format)[i % 4])
}

/// Law: switching the output format never changes the shape of the raster.
/// For the same pixels, the `Rgbm` and `Rgba` buffers have the same length
/// (and the packer accepts or rejects a pixel sequence on its length and the
/// dimensions alone, independent of format) — only byte content differs.
pub proof fn lemma_format_preserves_shape(pixels: Seq<Rgbm>)
    ensures
        pack_spec(pixels, crate::cli::Format::Rgbm).len() == pack_spec(
            pixels,
            crate::cli::Format::Rgba,
        ).len(),
{
}

/// Pack a pixel sequence into one flat raster buffer of `4 * width * height`
/// bytes, row-major, choosing per the selected format between the quantized
/// RGBM bytes and the reconstructed RGBA bytes — uniformly for every pixel.
///
/// Returns `None`, producing no buffer at all, when the pixel count does not
/// match the dimensions or the buffer size would not be addressable; a
/// buffer of the wrong length is thus rejected before it can reach any
/// container writer.
pub fn pack_raster(
    pixels: &Vec<Rgbm>,
    format: crate::cli::Format,
    width: u32,
    height: u32,
) -> (out: Option<Vec<u8>>)
    requires
        forall|i: int| 0 <= i < pixels@.len() ==> pixels@[i].wf(),
    ensures
        out is Some <==> (pixels@.len() == width as int * height as int && 4 * (width as int) * (
        height as int) <= usize::MAX),
        (out matches Some(buf) ==> buf@ == pack_spec(pixels@, format)),
        (out matches Some(buf) ==> buf@.len() == 4 * (width as int) * (height as int)),
{
    proof {
        assert((width as int) * (height as int) < u64::MAX) by (nonlinear_arith)
            requires
                width <= u32::MAX,
                height <= u32::MAX,
        ;
    }
    let wh: u64 = (width as u64) * (height as u64);
    if (pixels.len() as u64) != wh {
        return None;
    }
    if wh > (usize::MAX as u64) / 4 {
        proof {
            assert(4 * (width as int) * (height as int) > usize::MAX) by (nonlinear_arith)
                requires
                    wh == (width as int) * (height as int),
                    wh > (usize::MAX as int) / 4,
                    usize::MAX % 4 == 3,
            ;
        }
        return None;
    }
    proof {
        assert(4 * (width as int) * (height as int) <= usize::MAX) by (nonlinear_arith)
            requires
                wh == (width as int) * (height as int),
                wh <= (usize::MAX as int) / 4,
                usize::MAX % 4 == 3,
        ;
    }
    let mut out: Vec<u8> = Vec::new();
    let mut i: usize = 0;
    while i < pixels.len()
        invariant
            i <= pixels@.len(),
            forall|k: int| 0 <= k < pixels@.len() ==> pixels@[k].wf(),
            out@.len() == 4 * i,
            forall|k: int|
                0 <= k < 4 * i ==> out@[k] == #[trigger] pack_spec(pixels@, format)[k],
        decreases pixels@.len() - i,
    {
        let quad: Vec<u8> = match format {
            crate::cli::Format::Rgbm => convert_rgbm_float_to_8_bit(&pixels[i]),
            crate::cli::Format::Rgba => decode_rgbm_to_rgba8(&pixels[i]),
        };
        proof {
            lemma_quant_byte_range(pixels@[i as int].r);
            lemma_quant_byte_range(pixels@[i as int].g);
            lemma_quant_byte_range(pixels@[i as int].b);
            lemma_recon_byte_range(pixels@[i as int].r, pixels@[i as int].m);
            lemma_recon_byte_range(pixels@[i as int].g, pixels@[i as int].m);
            lemma_recon_byte_range(pixels@[i as int].b, pixels@[i as int].m);
            assert(quad@ == quad_bytes(pixels@[i as int], format));
        }
        out.push(quad[0]);
        out.push(quad[1]);
        out.push(quad[2]);
        out.push(quad[3]);
        i = i + 1;
    }
    proof {
        assert(out@ =~= pack_spec(pixels@, format));
        assert(4 * (pixels@.len() as int) == 4 * (width as int) * (height as int))
            by (nonlinear_arith)
            requires
                pixels@.len() == (width as int) * (height as int),
        ;
    }
    Some(out)
}

} // verus!
