//! Tests of the RGBM codec: the encoder, quantizer, reconstructor and
//! raster packer on concrete pixel values, including the edge cases at the
//! bottom (all-zero radiance) and top (radiance at the calibration range)
//! of the input domain.

use rgbm::cli::Format;
use rgbm::encode::{
    convert_rgbm_float_to_8_bit, decode_rgbm_to_rgba8, encode_rgbe_float_to_rgbm, pack_raster,
    Radiance, Rgbm, UnitValue, RANGE_UNITS,
};

/// A quadruple whose three color channels are the same byte fraction
/// `b/255`, with a full multiplier.
fn byte_quad(b: u8) -> Rgbm {
    let c = UnitValue { num: b as u64, den: 255 };
    Rgbm { r: c, g: c, b: c, m: 255 }
}

/// All-zero radiance encodes to a finite, defined quadruple with the
/// minimal multiplier `1/255` and zero channels, and quantizes to
/// `(0, 0, 0, 1)`.
#[test]
fn encode_zero_pixel() {
    let q = encode_rgbe_float_to_rgbm(Radiance { r: 0, g: 0, b: 0 });
    assert_eq!(q.m, 1);
    assert_eq!(q.r.num, 0);
    assert_eq!(q.g.num, 0);
    assert_eq!(q.b.num, 0);
    assert!(q.r.den > 0 && q.g.den > 0 && q.b.den > 0);
    assert_eq!(convert_rgbm_float_to_8_bit(&q), vec![0, 0, 0, 1]);
}

/// Radiance exactly at the calibration range normalizes to peak 1, takes
/// the full multiplier, carries unit channels, and quantizes to
/// `(255, 255, 255, 255)`.
#[test]
fn encode_at_range() {
    let q = encode_rgbe_float_to_rgbm(Radiance {
        r: RANGE_UNITS,
        g: RANGE_UNITS,
        b: RANGE_UNITS,
    });
    assert_eq!(q.m, 255);
    assert_eq!(q.r.num, q.r.den);
    assert_eq!(q.g.num, q.g.den);
    assert_eq!(q.b.num, q.b.den);
    assert_eq!(convert_rgbm_float_to_8_bit(&q), vec![255, 255, 255, 255]);
}

/// Every in-range triple encodes to a quadruple with all four components
/// in the unit interval: numerators never exceed denominators and the
/// multiplier byte stays in `1..=255`.
#[test]
fn encode_components_in_unit_interval() {
    let triples = [
        (0, 0, 0),
        (1, 0, 0),
        (3000, 1500, 600),
        (5999, 6000, 1),
        (6000, 0, 0),
        (123, 4567, 89),
    ];
    for &(r, g, b) in triples.iter() {
        let q = encode_rgbe_float_to_rgbm(Radiance { r, g, b });
        assert!(q.r.num <= q.r.den);
        assert!(q.g.num <= q.g.den);
        assert!(q.b.num <= q.b.den);
        assert!(q.m >= 1);
    }
}

/// Reapplying `x * RANGE * m` to each encoded channel restores the input
/// radiance exactly: the cross-multiplied rational identity
/// `num * RANGE_UNITS * m == v * 255 * den` holds channel by channel.
#[test]
fn round_trip_restores_radiance() {
    let triples = [(3000u32, 1500u32, 600u32), (1, 2, 3), (6000, 6000, 6000), (0, 4000, 0)];
    for &(r, g, b) in triples.iter() {
        let q = encode_rgbe_float_to_rgbm(Radiance { r, g, b });
        let m = q.m as u128;
        for (v, c) in [(r, q.r), (g, q.g), (b, q.b)] {
            let reapplied = c.num as u128 * RANGE_UNITS as u128 * m;
            let original = v as u128 * 255 * c.den as u128;
            assert_eq!(reapplied, original);
        }
    }
}

/// Quantizing an already-quantized value is exact: each byte `b`, read back
/// as the fraction `b/255` and quantized again, returns `b` with zero drift.
#[test]
fn requantize_is_idempotent() {
    for b in 0..=255u8 {
        let out = convert_rgbm_float_to_8_bit(&byte_quad(b));
        assert_eq!(out, vec![b, b, b, 255]);
    }
}

/// A mid-range triple quantizes to exact, hand-computed bytes, pinning the
/// round-up rounding policy of the quantizer.
#[test]
fn quantize_mid_range_pixel() {
    let q = encode_rgbe_float_to_rgbm(Radiance { r: 3000, g: 1500, b: 600 });
    assert_eq!(q.m, 128);
    assert_eq!(convert_rgbm_float_to_8_bit(&q), vec![255, 128, 51, 128]);
}

/// The reconstructor reverses normalization and multiplier with a
/// truncating, saturating cast, and always forces the alpha byte opaque.
#[test]
fn reconstruct_mid_range_pixel() {
    let q = encode_rgbe_float_to_rgbm(Radiance { r: 3000, g: 1500, b: 600 });
    // Radiance 3.0 and 1.5 rescale past byte range and saturate at 255;
    // radiance 0.6 rescales to exactly 153.
    assert_eq!(decode_rgbm_to_rgba8(&q), vec![255, 255, 153, 255]);
}

/// A channel below one 255th of the byte scale reconstructs by truncation,
/// not rounding: a channel worth 0.255 of a byte truncates to byte 0.
#[test]
fn reconstruct_truncates() {
    let q = encode_rgbe_float_to_rgbm(Radiance { r: 6000, g: 0, b: 0 });
    let dim = Rgbm { r: q.g, g: q.g, b: UnitValue { num: 255, den: q.r.den }, m: q.m };
    let out = decode_rgbm_to_rgba8(&dim);
    assert_eq!(out[2], 0);
    assert_eq!(out[3], 255);
}

/// The run configuration carries the format choice as an explicit value,
/// never as ambient state.
#[test]
fn config_carries_format() {
    let cfg = rgbm::cli::Cli {
        input: String::from("scene.hdr"),
        output: Some(String::from("scene.png")),
        format: Format::Rgba,
    };
    assert!(cfg.format == Format::Rgba);
    assert!(cfg.format != Format::Rgbm);
    assert_eq!(cfg.input, "scene.hdr");
}

/// Radiance above the calibration range is clamped to it before encoding:
/// an out-of-range channel encodes identically to one exactly at the range.
#[test]
fn out_of_range_radiance_is_clamped() {
    let over = encode_rgbe_float_to_rgbm(Radiance { r: 9000, g: 0, b: 250 });
    let at = encode_rgbe_float_to_rgbm(Radiance { r: 6000, g: 0, b: 250 });
    assert_eq!(over, at);
    assert_eq!(convert_rgbm_float_to_8_bit(&over)[0], 255);
}

/// A 2-by-1 image of a black pixel and a full-range pixel packs, in RGBM
/// format, to exactly the eight bytes `[0,0,0,1, 255,255,255,255]`.
#[test]
fn pack_two_pixel_image() {
    let pixels = vec![
        encode_rgbe_float_to_rgbm(Radiance { r: 0, g: 0, b: 0 }),
        encode_rgbe_float_to_rgbm(Radiance { r: RANGE_UNITS, g: RANGE_UNITS, b: RANGE_UNITS }),
    ];
    let buf = pack_raster(&pixels, Format::Rgbm, 2, 1).unwrap();
    assert_eq!(buf, vec![0, 0, 0, 1, 255, 255, 255, 255]);
}

/// The packed buffer always has length `4 * width * height`, and a pixel
/// sequence that does not match the dimensions is rejected outright.
#[test]
fn pack_checks_buffer_length() {
    let px = encode_rgbe_float_to_rgbm(Radiance { r: 100, g: 200, b: 300 });
    let pixels = vec![px; 6];
    let buf = pack_raster(&pixels, Format::Rgbm, 3, 2).unwrap();
    assert_eq!(buf.len(), 4 * 3 * 2);
    assert!(pack_raster(&pixels, Format::Rgbm, 3, 3).is_none());
    assert!(pack_raster(&pixels, Format::Rgba, 2, 2).is_none());
    assert!(pack_raster(&vec![], Format::Rgbm, 0, 0).is_some());
}

/// Switching the output format changes bytes only: for the same pixels and
/// dimensions, both formats accept, and the buffers have equal length while
/// differing in content.
#[test]
fn format_changes_content_not_shape() {
    let pixels = vec![
        encode_rgbe_float_to_rgbm(Radiance { r: 3000, g: 1500, b: 600 }),
        encode_rgbe_float_to_rgbm(Radiance { r: 0, g: 0, b: 0 }),
        encode_rgbe_float_to_rgbm(Radiance { r: 50, g: 5000, b: 500 }),
    ];
    let rgbm = pack_raster(&pixels, Format::Rgbm, 3, 1).unwrap();
    let rgba = pack_raster(&pixels, Format::Rgba, 3, 1).unwrap();
    assert_eq!(rgbm.len(), rgba.len());
    assert_ne!(rgbm, rgba);
}

/// The RGBA packing of a pixel is the reconstructor's bytes, and the RGBM
/// packing is the quantizer's bytes, uniformly for every pixel.
#[test]
fn pack_selects_per_format() {
    let pixels = vec![
        encode_rgbe_float_to_rgbm(Radiance { r: 3000, g: 1500, b: 600 }),
        encode_rgbe_float_to_rgbm(Radiance { r: 600, g: 600, b: 600 }),
    ];
    let rgbm = pack_raster(&pixels, Format::Rgbm, 2, 1).unwrap();
    let rgba = pack_raster(&pixels, Format::Rgba, 2, 1).unwrap();
    for (i, px) in pixels.iter().enumerate() {
        assert_eq!(&rgbm[4 * i..4 * i + 4], convert_rgbm_float_to_8_bit(px).as_slice());
        assert_eq!(&rgba[4 * i..4 * i + 4], decode_rgbm_to_rgba8(px).as_slice());
    }
}
