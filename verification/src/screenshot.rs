//! A picture of the screen, for the clipboard.
use vstd::prelude::*;

use crate::text::copy;

verus! {

/// The type under which the picture is offered.
pub const MIME: &'static str = "image/png";

/// Why the encoder refuses a picture.
#[verifier::external_type_specification]
#[verifier::external_body]
pub struct ExEncodingError(png::EncodingError);

/// The file that the encoder writes for a picture of eight-bit red, green, blue
/// and alpha.
pub uninterp spec fn png_file(rgba: Seq<u8>, w: u32, h: u32) -> Seq<u8>;

/// The eight bytes at the start of every such file.
pub open spec fn png_signature() -> Seq<u8> {
    seq![137, 80, 78, 71, 13, 10, 26, 10]
}

/// Whether there is one pixel of four bytes for each place of the picture, and
/// at least one place.
pub open spec fn is_picture(rgba: Seq<u8>, w: u32, h: u32) -> bool {
    w > 0 && h > 0 && rgba.len() == 4 * w * h
}

/// `png::Encoder`, told that a pixel is eight bits of red, green, blue and alpha
/// each: it writes a header, and then the picture, into memory. It refuses a
/// picture without a width or a height, and one whose bytes are not four per
/// pixel, and no other: writing into memory does not fail. The file starts with
/// the signature. What else the file holds goes by the name [`png_file`].
#[verifier::external_body]
fn encode(rgba: &[u8], w: u32, h: u32) -> (r: Result<Vec<u8>, png::EncodingError>)
    requires
        4 * w * h <= usize::MAX,
    ensures
        match r {
            Ok(file) => is_picture(rgba@, w, h) && file@ == png_file(rgba@, w, h) && file@.len() >= 8
                && file@.take(8) == png_signature(),
            Err(_) => !is_picture(rgba@, w, h),
        },
{
    let mut out: Vec<u8> = Vec::new();
    let mut enc = png::Encoder::new(&mut out, w, h);
    enc.set_color(png::ColorType::Rgba);
    enc.set_depth(png::BitDepth::Eight);
    let mut writer = enc.write_header()?;
    writer.write_image_data(rgba)?;
    drop(writer);
    Ok(out)
}

/// A picture of `w` by `h` pixels as a file. `None` when there is no pixel, or
/// not four bytes for each.
pub fn encode_png(rgba: &[u8], w: u32, h: u32) -> (r: Option<Vec<u8>>)
    ensures
        match r {
            Some(file) => is_picture(rgba@, w, h) && file@ == png_file(rgba@, w, h) && file@.len()
                >= 8 && file@.take(8) == png_signature(),
            None => !is_picture(rgba@, w, h),
        },
{
    proof {
        assert(0 <= w * h <= 0xffff_ffff * 0xffff_ffff) by (nonlinear_arith)
            requires
                0 <= w <= 0xffff_ffff,
                0 <= h <= 0xffff_ffff,
        ;
        assert(4 * w * h == 4 * (w * h)) by (nonlinear_arith);
    }
    let need: u128 = 4 * (w as u128 * h as u128);
    if need > usize::MAX as u128 {
        proof {
            assert(rgba.len() == rgba@.len());
        }
        return None;
    }
    match encode(rgba, w, h) {
        Ok(file) => Some(file),
        Err(_) => None,
    }
}

/// What the clipboard offers.
#[derive(Debug)]
pub struct Offer {
    pub mime: String,
    pub bytes: Vec<u8>,
}

/// What the clipboard offers for an encoded picture, if there is one.
pub fn offer(file: Option<Vec<u8>>) -> (r: Option<Offer>)
    ensures
        match file {
            Some(bytes) => r is Some && r->0.mime@ == MIME@ && r->0.bytes@ == bytes@,
            None => r is None,
        },
{
    match file {
        Some(bytes) => Some(Offer { mime: copy(MIME), bytes }),
        None => None,
    }
}

/// What the clipboard offers for a picture of the screen. The selection stays as
/// it is when the picture cannot be encoded.
pub fn to_clipboard(rgba: &[u8], w: u32, h: u32) -> (r: Option<Offer>)
    ensures
        match r {
            Some(offer) => is_picture(rgba@, w, h) && offer.mime@ == MIME@ && offer.bytes@ == png_file(
                rgba@,
                w,
                h,
            ),
            None => !is_picture(rgba@, w, h),
        },
{
    offer(encode_png(rgba, w, h))
}

/// The clipboard offers every picture that has a pixel and four bytes for each,
/// as a PNG file, and nothing for any other.
pub proof fn law_picture_is_offered_as_png(rgba: &[u8], w: u32, h: u32, r: Option<Offer>)
    requires
        call_ensures(to_clipboard, (rgba, w, h), r),
    ensures
        r is Some <==> w > 0 && h > 0 && rgba@.len() == 4 * w * h,
        r is Some ==> r->0.mime@ == "image/png"@,
        r is Some ==> r->0.bytes@ == png_file(rgba@, w, h),
{
}

/// A picture is offered under its type with the bytes that it has; without a picture
/// nothing is offered.
pub proof fn law_picture_is_offered_as_it_is(file: Option<Vec<u8>>, r: Option<Offer>)
    requires
        call_ensures(offer, (file,), r),
    ensures
        r is Some <==> file is Some,
        file matches Some(bytes) ==> (r matches Some(o) && o.bytes@ == bytes@ && o.mime@ == "image/png"@),
{
}

/// A picture is made of four bytes for each of its points, and of nothing else; what
/// is made of it starts as such files do.
pub proof fn law_picture_needs_all_its_points(rgba: &[u8], w: u32, h: u32, r: Option<Vec<u8>>)
    requires
        call_ensures(encode_png, (rgba, w, h), r),
    ensures
        r is Some <==> w > 0 && h > 0 && rgba@.len() == 4 * w * h,
        r matches Some(file) ==> file@.len() >= 8 && file@[1] == 0x50 && file@[2] == 0x4e && file@[3]
            == 0x47,
{
    if r is Some {
        let file = r->0@;
        assert(file.take(8)[1] == file[1]);
        assert(file.take(8)[2] == file[2]);
        assert(file.take(8)[3] == file[3]);
    }
}

} // verus!
