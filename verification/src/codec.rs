//! Base64 and pictures.

use vstd::prelude::*;

verus! {

/// What a standard base64 text decodes to, or nothing where it is malformed.
pub uninterp spec fn base64_decoded(text: Seq<u8>) -> Option<Seq<u8>>;

/// Calls `decode` of base64's `STANDARD` engine: the bytes that the text encodes,
/// or failure where the text is not canonical base64 with padding.
#[verifier::external_body]
pub(crate) fn base64_decode(text: &[u8]) -> (r: Option<Vec<u8>>)
    ensures
        match r {
            Some(v) => base64_decoded(text@) == Some(v@),
            None => base64_decoded(text@) is None,
        },
{
    base64::Engine::decode(&base64::engine::general_purpose::STANDARD, text).ok()
}

/// Bytes as a standard base64 text.
pub uninterp spec fn base64_encoded(data: Seq<u8>) -> Seq<char>;

/// Calls `encode` of base64's `STANDARD` engine: the base64 text of the bytes, with
/// padding. Decoding the text gives the bytes back.
#[verifier::external_body]
pub(crate) fn base64_encode(data: &[u8]) -> (r: String)
    ensures
        r@ == base64_encoded(data@),
        base64_decoded(vstd::utf8::encode_utf8(r@)) == Some(data@),
{
    base64::Engine::encode(&base64::engine::general_purpose::STANDARD, data)
}

/// Width and height of the picture that some bytes encode, and the number of bytes and
/// of channels of its pixels; nothing where they encode none.
pub uninterp spec fn picture_form(data: Seq<u8>) -> Option<(nat, nat, nat, nat)>;

/// Calls `image::load_from_memory`, `width`, `height` and `color` of `DynamicImage`, and
/// `bytes_per_pixel` and `channel_count` of `ColorType`: the size of the picture and the
/// form of its pixels, or failure where the bytes cannot be decoded.
#[verifier::external_body]
pub(crate) fn image_form(data: &[u8]) -> (r: Option<(u32, u32, u8, u8)>)
    ensures
        match r {
            Some(p) => picture_form(data@) == Some(
                (p.0 as nat, p.1 as nat, p.2 as nat, p.3 as nat),
            ),
            None => picture_form(data@) is None,
        },
{
    let picture = image::load_from_memory(data).ok()?;
    let color = picture.color();
    Some((picture.width(), picture.height(), color.bytes_per_pixel(), color.channel_count()))
}

/// The JPEG of the picture that some bytes encode, in a given quality.
pub uninterp spec fn picture_jpeg(data: Seq<u8>, quality: nat) -> Option<Seq<u8>>;

/// Calls `image::load_from_memory`, `DynamicImage::to_rgb8` and `write_image` of
/// `JpegEncoder`: decodes the picture and encodes it as JPEG, or fails. The result
/// depends on the arguments alone; the bytes of the JPEG are not stated.
#[verifier::external_body]
pub(crate) fn to_jpeg(data: &[u8], quality: u8) -> (r: Option<Vec<u8>>)
    requires
        1 <= quality <= 100,
    ensures
        match r {
            Some(v) => picture_jpeg(data@, quality as nat) == Some(v@),
            None => picture_jpeg(data@, quality as nat) is None,
        },
{
    let rgb = image::load_from_memory(data).ok()?.to_rgb8();
    let mut output = Vec::new();
    let encoder = image::codecs::jpeg::JpegEncoder::new_with_quality(&mut output, quality);
    let kind = image::ExtendedColorType::Rgb8;
    image::ImageEncoder::write_image(encoder, rgb.as_raw(), rgb.width(), rgb.height(), kind).ok()?;
    Some(output)
}

/// The JPEG of the picture that some bytes encode, scaled to the largest size that
/// fits in a square, in a given quality.
pub uninterp spec fn shrunk_jpeg(data: Seq<u8>, side: nat, quality: nat) -> Option<Seq<u8>>;

/// The most pixels with samples of 16 bits that may fall together in one pixel of a
/// thumbnail: the samples are added up in 32 bits, and half their number on top.
pub const WIDE_BLOCK: u32 = 65536;

/// The most pixels that may fall together where their samples are of 8 bits.
pub const NARROW_BLOCK: u32 = 16777216;

/// Whether a picture can be scaled to a square of the given side: it is not smaller,
/// and not too many of its pixels fall together. Along the longer edge that is at most
/// the ratio of the edges and two more; along the shorter edge, whose new length is
/// rounded, at most half as many again, and never more than there are. The term in
/// millions makes up for positions that are computed as 32-bit floats.
pub open spec fn can_shrink(
    width: nat,
    height: nat,
    pixel_bytes: nat,
    channels: nat,
    side: nat,
) -> bool {
    let long = if width >= height {
        width
    } else {
        height
    };
    let short = if width >= height {
        height
    } else {
        width
    };
    let most = 3 * long / (2 * side) + long / 1000000 + 2;
    &&& 0 < side <= long
    &&& (long / side + long / 1000000 + 2) * (if short <= most {
        short
    } else {
        most
    }) <= if pixel_bytes <= channels {
        NARROW_BLOCK
    } else {
        WIDE_BLOCK
    }
}

/// Whether a picture of this form can be scaled to a square of the given side.
pub fn is_shrinkable(width: u32, height: u32, pixel_bytes: u8, channels: u8, side: u32) -> (r: bool)
    ensures
        r == can_shrink(
            width as nat,
            height as nat,
            pixel_bytes as nat,
            channels as nat,
            side as nat,
        ),
{
    let long: u128 = if width >= height {
        width as u128
    } else {
        height as u128
    };
    let short: u128 = if width >= height {
        height as u128
    } else {
        width as u128
    };
    if side == 0 || (side as u128) > long {
        return false;
    }
    let side: u128 = side as u128;
    let across: u128 = long / side + long / 1000000 + 2;
    let most: u128 = 3 * long / (2 * side) + long / 1000000 + 2;
    let down: u128 = if short <= most {
        short
    } else {
        most
    };
    assert(long / side <= long && across * down <= 0x2_0000_0000 * 0x1_0000_0000) by (nonlinear_arith)
        requires
            0 < side <= long <= 0xffff_ffff,
            across == long / side + long / 1000000 + 2,
            0 <= down <= short <= 0xffff_ffff,
    ;
    let limit: u32 = if pixel_bytes <= channels {
        NARROW_BLOCK
    } else {
        WIDE_BLOCK
    };
    across * down <= limit as u128
}

/// Calls `image::load_from_memory`, `DynamicImage::thumbnail`,
/// `DynamicImage::to_rgb8` and `write_image` of `JpegEncoder`: decodes the picture,
/// scales it to the largest size that fits in a square of the given side and encodes
/// it as JPEG, or fails. The result depends on the arguments alone; the bytes of the
/// JPEG are not stated. `thumbnail` adds up the pixels that fall together in 32 bits,
/// so that pictures with too many of them are left out.
#[verifier::external_body]
pub(crate) fn shrink_to_jpeg(data: &[u8], side: u32, quality: u8) -> (r: Option<Vec<u8>>)
    requires
        picture_form(data@) matches Some((w, h, b, c)) && can_shrink(w, h, b, c, side as nat),
        1 <= quality <= 100,
    ensures
        match r {
            Some(v) => shrunk_jpeg(data@, side as nat, quality as nat) == Some(v@),
            None => shrunk_jpeg(data@, side as nat, quality as nat) is None,
        },
{
    let rgb = image::load_from_memory(data).ok()?.thumbnail(side, side).to_rgb8();
    let mut output = Vec::new();
    let encoder = image::codecs::jpeg::JpegEncoder::new_with_quality(&mut output, quality);
    let kind = image::ExtendedColorType::Rgb8;
    image::ImageEncoder::write_image(encoder, rgb.as_raw(), rgb.width(), rgb.height(), kind).ok()?;
    Some(output)
}

} // verus!
