//! Pictures: reading, changing and writing them with the `image` crate.

use crate::text;
use image::ImageFormat;
use vstd::prelude::*;

verus! {

/// A picture as the `image` crate holds it.
#[verifier::external_type_specification]
#[verifier::external_body]
pub struct ExDynamicImage(image::DynamicImage);

/// The kinds of pixels: grey, grey with alpha, colours, colours with alpha, in integers of
/// eight or sixteen bits or in floating point.
pub enum PixelKind {
    L8,
    La8,
    Rgb8,
    Rgba8,
    L16,
    La16,
    Rgb16,
    Rgba16,
    Rgb32F,
    Rgba32F,
}

/// The bytes that one pixel takes.
pub open spec fn pixel_bytes(kind: PixelKind) -> int {
    match kind {
        PixelKind::L8 => 1,
        PixelKind::La8 => 2,
        PixelKind::Rgb8 => 3,
        PixelKind::Rgba8 => 4,
        PixelKind::L16 => 2,
        PixelKind::La16 => 4,
        PixelKind::Rgb16 => 6,
        PixelKind::Rgba16 => 8,
        PixelKind::Rgb32F => 12,
        PixelKind::Rgba32F => 16,
    }
}

/// What a picture holds: its size, the kind of its pixels and their bytes.
#[verifier::ext_equal]
pub struct Raster {
    pub width: u32,
    pub height: u32,
    pub kind: PixelKind,
    pub bytes: Seq<u8>,
}

/// A picture of red, green, blue and alpha of eight bits each.
pub open spec fn rgba_raster(width: u32, height: u32, rgba: Seq<u8>) -> Raster {
    Raster { width, height, kind: PixelKind::Rgba8, bytes: rgba }
}

/// What a picture holds.
pub uninterp spec fn raster_of(img: image::DynamicImage) -> Raster;

/// Whether a picture has just the bytes that its size and the kind of its pixels say.
pub open spec fn is_whole(r: Raster) -> bool {
    r.bytes.len() == r.width * r.height * pixel_bytes(r.kind)
}

/// Whether two pictures are of one size.
pub open spec fn same_size(a: Raster, b: Raster) -> bool {
    a.width == b.width && a.height == b.height
}

/// The formats that pictures are told apart by.
#[derive(Clone, Copy, PartialEq, Eq, Debug, Structural)]
pub enum PictureFormat {
    Png,
    Jpeg,
    WebP,
    Bmp,
    Gif,
    Tiff,
    Ico,
    Tga,
    Pnm,
    Dds,
    Other,
}

/// The format that bytes begin like, or why none is known.
pub uninterp spec fn guessed(bytes: Seq<u8>) -> Result<PictureFormat, Seq<char>>;

/// The picture in bytes, or why they are none.
pub uninterp spec fn decoded(bytes: Seq<u8>) -> Result<Raster, Seq<char>>;

/// A part of a picture, from a corner on: of each of its rows, the pixels from the corner on.
pub open spec fn cut_out(r: Raster, x: u32, y: u32, width: u32, height: u32) -> Raster {
    let n = pixel_bytes(r.kind);
    Raster {
        width,
        height,
        kind: r.kind,
        bytes: Seq::new(
            (width * height * n) as nat,
            |i: int|
                {
                    let row = y + i / (width * n);
                    r.bytes[(row * r.width + x) * n + i % (width * n)]
                },
        ),
    }
}

/// Whether a picture is what the Lanczos filter gives, on some machine, when it scales another
/// one to a size. Where the size stays, that is the picture itself.
pub uninterp spec fn filtered(from: Raster, width: u32, height: u32, to: Raster) -> bool;

/// A picture scaled with the triangle filter.
pub uninterp spec fn smoothed(r: Raster, width: u32, height: u32) -> Raster;

/// A picture in a format, or why it cannot be written so.
pub uninterp spec fn written_as(r: Raster, format: PictureFormat) -> Result<Seq<u8>, Seq<char>>;

/// A picture as JPEG of a quality, or why it cannot be written so.
pub uninterp spec fn written_jpeg(r: Raster, quality: u8) -> Result<Seq<u8>, Seq<char>>;

/// The pixels of a picture as red, green, blue and alpha of eight bits each.
pub uninterp spec fn rgba_of(r: Raster) -> Seq<u8>;

/// A picture of eight bit pixels as BMP, or why it cannot be written so.
pub uninterp spec fn written_bmp(width: u32, height: u32, rgba: Seq<u8>) -> Result<
    Seq<u8>,
    Seq<char>,
>;

/// Pixels of red, green and blue as JPEG of a quality, or why they cannot be written so.
pub uninterp spec fn written_rgb_jpeg(
    width: u32,
    height: u32,
    rgb: Seq<u8>,
    quality: u8,
) -> Result<Seq<u8>, Seq<char>>;

/// Tells a format from the first bytes with `image::guess_format`.
///
/// The answer depends on the bytes alone.
#[verifier::external_body]
pub(crate) fn guess(bytes: &[u8]) -> (r: Result<PictureFormat, String>)
    ensures
        match r {
            Ok(f) => guessed(bytes@) is Ok && guessed(bytes@)->Ok_0 == f,
            Err(e) => guessed(bytes@) is Err && guessed(bytes@)->Err_0 == e@,
        },
{
    match image::guess_format(bytes) {
        Ok(ImageFormat::Png) => Ok(PictureFormat::Png),
        Ok(ImageFormat::Jpeg) => Ok(PictureFormat::Jpeg),
        Ok(ImageFormat::WebP) => Ok(PictureFormat::WebP),
        Ok(ImageFormat::Bmp) => Ok(PictureFormat::Bmp),
        Ok(ImageFormat::Gif) => Ok(PictureFormat::Gif),
        Ok(ImageFormat::Tiff) => Ok(PictureFormat::Tiff),
        Ok(ImageFormat::Ico) => Ok(PictureFormat::Ico),
        Ok(ImageFormat::Tga) => Ok(PictureFormat::Tga),
        Ok(ImageFormat::Pnm) => Ok(PictureFormat::Pnm),
        Ok(ImageFormat::Dds) => Ok(PictureFormat::Dds),
        Ok(_) => Ok(PictureFormat::Other),
        Err(e) => Err(e.to_string()),
    }
}

/// Reads a picture with `image::load_from_memory`.
///
/// What it holds, or the message, depends on the bytes alone; there are as many pixels as its
/// size says.
#[verifier::external_body]
pub(crate) fn load(bytes: &[u8]) -> (r: Result<image::DynamicImage, String>)
    ensures
        match r {
            Ok(img) => decoded(bytes@) is Ok && decoded(bytes@)->Ok_0 == raster_of(img)
                && is_whole(raster_of(img)),
            Err(e) => decoded(bytes@) is Err && decoded(bytes@)->Err_0 == e@,
        },
{
    image::load_from_memory(bytes).map_err(|e| e.to_string())
}

/// The size of a picture, from `image::DynamicImage::width` and `height`.
#[verifier::external_body]
pub(crate) fn size(img: &image::DynamicImage) -> (r: (u32, u32))
    ensures
        r == (raster_of(*img).width, raster_of(*img).height),
{
    (img.width(), img.height())
}

/// The longest side of a picture that a filter is sure to scale to any length. Filters compute
/// places along the side of the picture that they read in single precision; on longer sides the
/// last place may lie half a pixel or more behind the end, where a filter may find nothing to
/// take.
pub const MAX_SIDE: u32 = 0x40_0000;

/// The length to which a filter is sure to scale a side however long: its places are then so far
/// apart that the last one lies well before the end.
pub const SAFE_LENGTH: u32 = 0x2_0000;

/// Whether a filter is sure to find pixels all along a side that it scales to a length.
pub open spec fn side_fits(side: int, want: int) -> bool {
    side <= MAX_SIDE || want <= SAFE_LENGTH
}

/// The memory that a size takes, in bytes, is within what can be asked for.
pub open spec fn can_hold(width: int, height: int) -> bool {
    width * height * 16 <= isize::MAX
}

/// Whether a filter can scale a picture of a size to another size: it finds pixels along both
/// sides, and there can be memory for the heights on the way and for the result.
pub open spec fn can_filter(iw: int, ih: int, w: int, h: int) -> bool {
    side_fits(iw, w) && side_fits(ih, h) && can_hold(iw, h) && can_hold(w, h)
}

/// The size of a picture that is scaled into a box in its proportions.
pub uninterp spec fn fitted_size(iw: u32, ih: u32, w: u32, h: u32) -> (u32, u32);

/// The size of a picture that is scaled over a box in its proportions, before it is cut.
pub uninterp spec fn covering_size(iw: u32, ih: u32, w: u32, h: u32) -> (u32, u32);

/// Whether a size touches a box on one side, and keeps the proportions to less than a pixel.
/// Where a side of the picture is empty, that side gets one pixel.
pub open spec fn keeps_shape(iw: u32, ih: u32, w: u32, h: u32, rw: u32, rh: u32) -> bool {
    if iw == 0 {
        rw == 1 && rh == h
    } else if ih == 0 {
        rw == w && rh == 1
    } else {
        (rw == w && -(iw as int) < rh * iw - ih * w < iw) || (rh == h && -(ih as int) < rw * ih - iw
            * h < ih)
    }
}

/// Whether a size lies in a box, touches it on one side, and keeps the proportions to less
/// than a pixel. What is empty both ways gives one pixel.
pub open spec fn fits_box(iw: u32, ih: u32, w: u32, h: u32, rw: u32, rh: u32) -> bool {
    &&& 1 <= rw <= w
    &&& 1 <= rh <= h
    &&& if iw == 0 && ih == 0 {
        rw == 1 && rh == 1
    } else {
        keeps_shape(iw, ih, w, h, rw, rh)
    }
}

/// Whether a size covers a box, touches it on one side, and keeps the proportions to less than
/// a pixel.
pub open spec fn covers_box(iw: u32, ih: u32, w: u32, h: u32, rw: u32, rh: u32) -> bool {
    rw >= w && rh >= h && keeps_shape(iw, ih, w, h, rw, rh)
}

/// Whether a picture is another one scaled by the filter to a size that covers a box, in its
/// proportions, and cut to the box around its centre.
pub open spec fn covered(from: Raster, size: (u32, u32), w: u32, h: u32, to: Raster) -> bool {
    exists|mid: Raster|
        {
            &&& #[trigger] filtered(from, mid.width, mid.height, mid)
            &&& (mid.width, mid.height) == size
            &&& mid.kind == from.kind
            &&& is_whole(mid)
            &&& covers_box(from.width, from.height, w, h, mid.width, mid.height)
            &&& to == cut_out(
                mid,
                ((mid.width - w) / 2) as u32,
                ((mid.height - h) / 2) as u32,
                w,
                h,
            )
        }
}

/// Scales a picture into a box with `image::DynamicImage::resize` and the Lanczos filter.
///
/// The pixels may differ from machine to machine, so what is claimed of them is that the filter
/// gave them for the whole picture. The size depends on that of the picture and the box alone: it
/// lies in the box, touches it on one side and keeps the proportions to less than a pixel, but
/// which way a side is rounded is not said. The kind of the pixels is kept, and a picture that keeps its size stays as it
/// is. The picture must have just the bytes that its size says; where the box is not of its own
/// size, a filter must be able to scale it.
#[verifier::external_body]
pub(crate) fn scale_within(img: &image::DynamicImage, width: u32, height: u32) -> (r:
    image::DynamicImage)
    requires
        width > 0,
        height > 0,
        is_whole(raster_of(*img)),
        (raster_of(*img).width == width && raster_of(*img).height == height) || can_filter(
            raster_of(*img).width as int,
            raster_of(*img).height as int,
            width as int,
            height as int,
        ),
    ensures
        fits_box(
            raster_of(*img).width,
            raster_of(*img).height,
            width,
            height,
            raster_of(r).width,
            raster_of(r).height,
        ),
        (raster_of(r).width, raster_of(r).height) == fitted_size(
            raster_of(*img).width,
            raster_of(*img).height,
            width,
            height,
        ),
        filtered(raster_of(*img), raster_of(r).width, raster_of(r).height, raster_of(r)),
        raster_of(r).kind == raster_of(*img).kind,
        same_size(raster_of(r), raster_of(*img)) ==> raster_of(r) == raster_of(*img),
        is_whole(raster_of(r)),
{
    img.resize(width, height, image::imageops::FilterType::Lanczos3)
}

/// Scales a picture to a size with `image::DynamicImage::resize_exact` and the Lanczos filter.
///
/// The pixels may differ from machine to machine, so what is claimed of them is that the filter
/// gave them for the whole picture; the size is the one that was asked for. The kind of the
/// pixels is kept, and a picture that keeps its size stays as it is. It must have just the bytes
/// that its size says; where another size is asked for, a filter must be able to scale it.
#[verifier::external_body]
pub(crate) fn scale_to(img: &image::DynamicImage, width: u32, height: u32) -> (r:
    image::DynamicImage)
    requires
        width > 0,
        height > 0,
        is_whole(raster_of(*img)),
        (raster_of(*img).width == width && raster_of(*img).height == height) || can_filter(
            raster_of(*img).width as int,
            raster_of(*img).height as int,
            width as int,
            height as int,
        ),
    ensures
        raster_of(r).width == width,
        raster_of(r).height == height,
        filtered(raster_of(*img), width, height, raster_of(r)),
        raster_of(r).kind == raster_of(*img).kind,
        same_size(raster_of(r), raster_of(*img)) ==> raster_of(r) == raster_of(*img),
        is_whole(raster_of(r)),
{
    img.resize_exact(width, height, image::imageops::FilterType::Lanczos3)
}

/// Scales a picture to a size with `image::DynamicImage::resize_exact` and the triangle filter.
///
/// The pixels depend on the picture and the size alone; the size is the one that was asked for,
/// and the kind of the pixels is kept. The picture must have just the bytes that its size says,
/// and a filter must be able to scale it.
#[verifier::external_body]
pub(crate) fn smooth_to(img: &image::DynamicImage, width: u32, height: u32) -> (r:
    image::DynamicImage)
    requires
        is_whole(raster_of(*img)),
        can_filter(
            raster_of(*img).width as int,
            raster_of(*img).height as int,
            width as int,
            height as int,
        ),
    ensures
        raster_of(r) == smoothed(raster_of(*img), width, height),
        raster_of(r).width == width,
        raster_of(r).height == height,
        raster_of(r).kind == raster_of(*img).kind,
        is_whole(raster_of(r)),
{
    img.resize_exact(width, height, image::imageops::FilterType::Triangle)
}

/// The longest that a side may get when a picture is scaled to cover a box: the other side
/// decides, and rounding may add one.
pub open spec fn cover_side(side: int, other: int, want: int, other_want: int) -> int {
    let by_other = side * other_want / other + 1;
    if by_other > want {
        by_other
    } else {
        want
    }
}

/// Scales a picture to cover a box and cuts it to the box, with
/// `image::DynamicImage::resize_to_fill` and the Lanczos filter.
///
/// The pixels may differ from machine to machine, so what is claimed of them is that the filter
/// gave a picture in the same proportions that covers the box, of a size that depends on the
/// sizes alone, and that they are those around its centre, see [`covered`]; the size is the one
/// that was asked for. The kind of the pixels is
/// kept, and a picture that keeps its size stays as it is. The picture must not be empty and must
/// have just the bytes that its size says; where another size is asked for, a filter must be able
/// to scale it to what covers the box, with sides that the crate can count.
#[verifier::external_body]
pub(crate) fn scale_to_cover(img: &image::DynamicImage, width: u32, height: u32) -> (r:
    image::DynamicImage)
    requires
        width > 0,
        height > 0,
        raster_of(*img).width > 0,
        raster_of(*img).height > 0,
        is_whole(raster_of(*img)),
        (raster_of(*img).width == width && raster_of(*img).height == height) || ({
            let iw = raster_of(*img).width as int;
            let ih = raster_of(*img).height as int;
            let w2 = cover_side(iw, ih, width as int, height as int);
            let h2 = cover_side(ih, iw, height as int, width as int);
            w2 <= u32::MAX && h2 <= u32::MAX && can_filter(iw, ih, w2, h2)
        }),
    ensures
        raster_of(r).width == width,
        raster_of(r).height == height,
        covered(
            raster_of(*img),
            covering_size(raster_of(*img).width, raster_of(*img).height, width, height),
            width,
            height,
            raster_of(r),
        ),
        raster_of(r).kind == raster_of(*img).kind,
        same_size(raster_of(r), raster_of(*img)) ==> raster_of(r) == raster_of(*img),
        is_whole(raster_of(r)),
{
    img.resize_to_fill(width, height, image::imageops::FilterType::Lanczos3)
}

/// Cuts a part out of a picture with `image::DynamicImage::crop_imm`.
///
/// The part must lie in the picture. It holds just its pixels, see [`cut_out`].
#[verifier::external_body]
pub(crate) fn cut(img: &image::DynamicImage, x: u32, y: u32, width: u32, height: u32) -> (r:
    image::DynamicImage)
    requires
        x + width <= raster_of(*img).width,
        y + height <= raster_of(*img).height,
    ensures
        raster_of(r) == cut_out(raster_of(*img), x, y, width, height),
{
    img.crop_imm(x, y, width, height)
}

/// Writes a picture in a format with `image::DynamicImage::write_to`.
///
/// The bytes, or the message, depend on the picture and the format alone; one that has no name
/// here is not written. There must be just the bytes that the size says.
#[verifier::external_body]
pub(crate) fn write_as(img: &image::DynamicImage, format: PictureFormat) -> (r: Result<
    Vec<u8>,
    String,
>)
    requires
        is_whole(raster_of(*img)),
    ensures
        match r {
            Ok(b) => written_as(raster_of(*img), format) == Ok::<Seq<u8>, Seq<char>>(b@),
            Err(e) => written_as(raster_of(*img), format) == Err::<Seq<u8>, Seq<char>>(e@),
        },
{
    let known = match format {
        PictureFormat::Png => ImageFormat::Png,
        PictureFormat::Jpeg => ImageFormat::Jpeg,
        PictureFormat::WebP => ImageFormat::WebP,
        PictureFormat::Bmp => ImageFormat::Bmp,
        PictureFormat::Gif => ImageFormat::Gif,
        PictureFormat::Tiff => ImageFormat::Tiff,
        PictureFormat::Ico => ImageFormat::Ico,
        PictureFormat::Tga => ImageFormat::Tga,
        PictureFormat::Pnm => ImageFormat::Pnm,
        PictureFormat::Dds => ImageFormat::Dds,
        PictureFormat::Other => return Err(String::new()),
    };
    let mut out = std::io::Cursor::new(Vec::new());
    img.write_to(&mut out, known).map(|()| out.into_inner()).map_err(|e| e.to_string())
}

/// Writes a picture as JPEG with `image::codecs::jpeg::JpegEncoder::new_with_quality`, after
/// `image::DynamicImage::to_rgb8`.
///
/// The bytes, or the message, depend on the picture and the quality alone.
#[verifier::external_body]
pub(crate) fn write_jpeg(img: &image::DynamicImage, quality: u8) -> (r: Result<Vec<u8>, String>)
    requires
        1 <= quality <= 100,
        is_whole(raster_of(*img)),
    ensures
        match r {
            Ok(b) => written_jpeg(raster_of(*img), quality) == Ok::<Seq<u8>, Seq<char>>(b@),
            Err(e) => written_jpeg(raster_of(*img), quality) == Err::<Seq<u8>, Seq<char>>(e@),
        },
{
    let mut out: Vec<u8> = Vec::new();
    let encoder = image::codecs::jpeg::JpegEncoder::new_with_quality(&mut out, quality);
    img.to_rgb8().write_with_encoder(encoder).map_err(|e| e.to_string())?;
    Ok(out)
}

/// The pixels of a picture, from `image::DynamicImage::to_rgba8`.
///
/// They depend on the picture alone; there are four bytes for each.
#[verifier::external_body]
pub(crate) fn to_rgba(img: &image::DynamicImage) -> (r: Vec<u8>)
    requires
        is_whole(raster_of(*img)),
    ensures
        r@ == rgba_of(raster_of(*img)),
        r@.len() == raster_of(*img).width * raster_of(*img).height * 4,
{
    img.to_rgba8().into_raw()
}

/// Makes a picture of pixels with `image::RgbaImage::from_raw`.
///
/// There is one exactly when there are enough bytes; it has the size that was asked for and
/// holds all of the bytes.
#[verifier::external_body]
pub(crate) fn from_rgba(width: u32, height: u32, rgba: Vec<u8>) -> (r: Option<
    image::DynamicImage,
>)
    ensures
        match r {
            Some(img) => width * height * 4 <= rgba@.len() && raster_of(img) == rgba_raster(
                width,
                height,
                rgba@,
            ),
            None => width * height * 4 > rgba@.len(),
        },
{
    image::RgbaImage::from_raw(width, height, rgba).map(image::DynamicImage::ImageRgba8)
}

/// Writes pixels as BMP with `image::codecs::bmp::BmpEncoder::encode`.
///
/// There must be four bytes for each pixel. The bytes, or the message, depend on the size and
/// the pixels alone.
#[verifier::external_body]
pub(crate) fn write_bmp(width: u32, height: u32, rgba: &[u8]) -> (r: Result<Vec<u8>, String>)
    requires
        rgba@.len() == width * height * 4,
    ensures
        match r {
            Ok(b) => written_bmp(width, height, rgba@) == Ok::<Seq<u8>, Seq<char>>(b@),
            Err(e) => written_bmp(width, height, rgba@) == Err::<Seq<u8>, Seq<char>>(e@),
        },
{
    let mut out: Vec<u8> = Vec::new();
    image::codecs::bmp::BmpEncoder::new(&mut out)
        .encode(rgba, width, height, image::ExtendedColorType::Rgba8)
        .map_err(|e| e.to_string())?;
    Ok(out)
}

/// Writes pixels of red, green and blue as JPEG with
/// `image::codecs::jpeg::JpegEncoder::new_with_quality` and its `encode`.
///
/// There must be three bytes for each pixel. The bytes, or the message, depend on the size, the
/// pixels and the quality alone.
#[verifier::external_body]
pub(crate) fn write_rgb_jpeg(width: u32, height: u32, rgb: &[u8], quality: u8) -> (r: Result<
    Vec<u8>,
    String,
>)
    requires
        rgb@.len() == width * height * 3,
    ensures
        match r {
            Ok(b) => written_rgb_jpeg(width, height, rgb@, quality) == Ok::<Seq<u8>, Seq<char>>(
                b@,
            ),
            Err(e) => written_rgb_jpeg(width, height, rgb@, quality) == Err::<Seq<u8>, Seq<char>>(
                e@,
            ),
        },
{
    let mut out: Vec<u8> = Vec::new();
    image::codecs::jpeg::JpegEncoder::new_with_quality(&mut out, quality)
        .encode(rgb, width, height, image::ExtendedColorType::Rgb8)
        .map_err(|e| e.to_string())?;
    Ok(out)
}

// ---------------------------------------------------------------------------
// Pixels as files
// ---------------------------------------------------------------------------

/// Pixels as a PNG image, or why they are none.
pub open spec fn png_bytes(
    width: u32,
    height: u32,
    rgba: Seq<u8>,
    written: Result<Seq<u8>, Seq<char>>,
) -> Result<Seq<u8>, Seq<char>> {
    if rgba.len() < width * height * 4 {
        Err("图片尺寸与像素数据不符"@)
    } else {
        match written {
            Ok(b) => Ok(b),
            Err(e) => Err("PNG 编码失败: "@ + e),
        }
    }
}

/// Writes pixels as a PNG image, see [`png_bytes`]. There must not be more bytes than the size
/// says.
pub fn rgba_to_png(width: u32, height: u32, rgba: Vec<u8>) -> (r: Result<Vec<u8>, String>)
    requires
        rgba@.len() <= width * height * 4,
    ensures
        text::outcome(r) == png_bytes(
            width,
            height,
            rgba@,
            written_as(rgba_raster(width, height, rgba@), PictureFormat::Png),
        ),
{
    match from_rgba(width, height, rgba) {
        None => Err(text::owned("图片尺寸与像素数据不符")),
        Some(img) => match write_as(&img, PictureFormat::Png) {
            Ok(b) => Ok(b),
            Err(e) => Err(text::owned("PNG 编码失败: ").concat(e.as_str())),
        },
    }
}

/// Writes pixels as a BMP image. There must be four bytes for each pixel.
pub fn rgba_to_bmp(width: u32, height: u32, rgba: &[u8]) -> (r: Result<Vec<u8>, String>)
    requires
        rgba@.len() == width * height * 4,
    ensures
        text::outcome(r) == (match written_bmp(width, height, rgba@) {
            Ok(b) => Ok(b),
            Err(e) => Err("BMP 编码失败: "@ + e),
        }),
{
    match write_bmp(width, height, rgba) {
        Ok(b) => Ok(b),
        Err(e) => Err(text::owned("BMP 编码失败: ").concat(e.as_str())),
    }
}

/// Pixels with their size.
#[derive(Debug)]
pub struct Pixels {
    pub width: u32,
    pub height: u32,
    pub rgba: Vec<u8>,
}

/// Reads a picture and gives its pixels.
pub fn read_pixels(bytes: &[u8]) -> (r: Result<Pixels, String>)
    ensures
        match r {
            Ok(p) => {
                &&& decoded(bytes@) is Ok
                &&& p.width == decoded(bytes@)->Ok_0.width
                &&& p.height == decoded(bytes@)->Ok_0.height
                &&& p.rgba@ == rgba_of(decoded(bytes@)->Ok_0)
                &&& p.rgba@.len() == p.width * p.height * 4
            },
            Err(e) => decoded(bytes@) is Err && e@ == "图片解码失败: "@ + decoded(
                bytes@,
            )->Err_0,
        },
{
    match load(bytes) {
        Err(e) => Err(text::owned("图片解码失败: ").concat(e.as_str())),
        Ok(img) => {
            let (width, height) = size(&img);
            Ok(Pixels { width, height, rgba: to_rgba(&img) })
        },
    }
}

/// Every pixel of a part is the pixel of the picture at the same place, counted from where the
/// part starts: to the right from the left edge and down from the upper one. The part has the
/// size that was asked for and pixels of the same kind.
pub proof fn parts_keep_their_pixels(
    r: Raster,
    x: u32,
    y: u32,
    w: u32,
    h: u32,
    i: int,
    j: int,
    b: int,
)
    requires
        0 <= i < w,
        0 <= j < h,
        0 <= b < pixel_bytes(r.kind),
    ensures
        ({
            let part = cut_out(r, x, y, w, h);
            let n = pixel_bytes(r.kind);
            &&& part.width == w
            &&& part.height == h
            &&& part.kind == r.kind
            &&& is_whole(part)
            &&& 0 <= (j * w + i) * n + b < part.bytes.len()
            &&& part.bytes[(j * w + i) * n + b] == r.bytes[((y + j) * r.width + (x + i)) * n + b]
        }),
{
    let n = pixel_bytes(r.kind);
    let at = (j * w + i) * n + b;
    let row = w * n;
    let rest = i * n + b;
    assert(at == j * row + rest) by (nonlinear_arith)
        requires
            at == (j * w + i) * n + b,
            row == w * n,
            rest == i * n + b,
    ;
    assert(0 <= rest < row) by (nonlinear_arith)
        requires
            rest == i * n + b,
            row == w * n,
            0 <= i < w,
            0 <= b < n,
    ;
    vstd::arithmetic::div_mod::lemma_fundamental_div_mod_converse(at, row, j, rest);
    assert(at / row == j);
    assert(at % row == rest);
    assert(w * h * n == h * row) by (nonlinear_arith)
        requires
            row == w * n,
    ;
    assert(w * h * n >= 0) by (nonlinear_arith)
        requires
            n > 0,
    ;
    assert(0 <= at < h * row) by (nonlinear_arith)
        requires
            at == j * row + rest,
            0 <= rest < row,
            0 <= j < h,
    ;
    let from = ((y + j) * r.width + x) * n + rest;
    assert(from == ((y + j) * r.width + (x + i)) * n + b) by (nonlinear_arith)
        requires
            from == ((y + j) * r.width + x) * n + rest,
            rest == i * n + b,
    ;
}

} // verus!
