//! What plugins may do with pictures, and colors and places on the screen.

use crate::codec;
use crate::commands;
use crate::picture;
use crate::picture::PictureFormat;
use crate::text;
use vstd::prelude::*;

verus! {

// ---------------------------------------------------------------------------
// Formats
// ---------------------------------------------------------------------------

/// The short name of a format.
pub open spec fn name_of(f: PictureFormat) -> Seq<char> {
    match f {
        PictureFormat::Png => "png"@,
        PictureFormat::Jpeg => "jpeg"@,
        PictureFormat::WebP => "webp"@,
        PictureFormat::Bmp => "bmp"@,
        PictureFormat::Gif => "gif"@,
        PictureFormat::Tiff => "tiff"@,
        PictureFormat::Ico => "ico"@,
        PictureFormat::Tga => "tga"@,
        PictureFormat::Pnm => "pnm"@,
        PictureFormat::Dds => "dds"@,
        PictureFormat::Other => "其他格式"@,
    }
}

/// The short name of a format, see [`name_of`].
pub fn format_name(f: PictureFormat) -> (r: &'static str)
    ensures
        r@ == name_of(f),
{
    match f {
        PictureFormat::Png => "png",
        PictureFormat::Jpeg => "jpeg",
        PictureFormat::WebP => "webp",
        PictureFormat::Bmp => "bmp",
        PictureFormat::Gif => "gif",
        PictureFormat::Tiff => "tiff",
        PictureFormat::Ico => "ico",
        PictureFormat::Tga => "tga",
        PictureFormat::Pnm => "pnm",
        PictureFormat::Dds => "dds",
        PictureFormat::Other => "其他格式",
    }
}

/// The format that a name asks for: one of four.
pub open spec fn target_format(format: Seq<char>) -> Result<PictureFormat, Seq<char>> {
    let n = text::lowered(text::trimmed(format));
    if n == "png"@ {
        Ok(PictureFormat::Png)
    } else if n == "jpeg"@ || n == "jpg"@ {
        Ok(PictureFormat::Jpeg)
    } else if n == "webp"@ {
        Ok(PictureFormat::WebP)
    } else if n == "bmp"@ {
        Ok(PictureFormat::Bmp)
    } else {
        Err("不支持的目标格式："@ + n + "（仅支持 png/jpeg/webp/bmp）"@)
    }
}

/// The format that a name asks for, see [`target_format`].
pub fn parse_target_format(format: &str) -> (r: Result<PictureFormat, String>)
    ensures
        match r {
            Ok(f) => target_format(format@) is Ok && target_format(format@)->Ok_0 == f,
            Err(e) => target_format(format@) is Err && target_format(format@)->Err_0 == e@,
        },
{
    let t = text::trim_str(format);
    let low = text::to_lower(t.as_slice());
    let n = low.as_slice();
    if text::same(n, "png") {
        Ok(PictureFormat::Png)
    } else if text::same(n, "jpeg") || text::same(n, "jpg") {
        Ok(PictureFormat::Jpeg)
    } else if text::same(n, "webp") {
        Ok(PictureFormat::WebP)
    } else if text::same(n, "bmp") {
        Ok(PictureFormat::Bmp)
    } else {
        let s = text::string_of(n);
        Err(
            text::owned("不支持的目标格式：").concat(s.as_str()).concat(
                "（仅支持 png/jpeg/webp/bmp）",
            ),
        )
    }
}

// ---------------------------------------------------------------------------
// Reading what a page sent
// ---------------------------------------------------------------------------

/// A picture that a page sent: its format and what it holds.
pub struct Sent {
    pub format: PictureFormat,
    pub raster: picture::Raster,
}

/// The bytes that base64 text from a page stands for.
pub open spec fn sent_bytes(data: Seq<char>) -> Result<Seq<u8>, Seq<char>> {
    commands::sent_bytes(codec::base64_bytes(text::trimmed(data)))
}

/// The message for bytes that are no picture.
pub open spec fn decode_error(e: Seq<char>) -> Seq<char> {
    "图片解码失败: "@ + e
}

/// The message for bytes of no known format.
pub open spec fn guess_error(e: Seq<char>) -> Seq<char> {
    "识别图片格式失败: "@ + e
}

/// The picture in bytes: what it holds first, then its format.
pub open spec fn opened(bytes: Seq<u8>) -> Result<Sent, Seq<char>> {
    match picture::decoded(bytes) {
        Err(e) => Err(decode_error(e)),
        Ok(raster) => match picture::guessed(bytes) {
            Err(e) => Err(guess_error(e)),
            Ok(format) => Ok(Sent { format, raster }),
        },
    }
}

/// The text that a page gets for a picture that was written, or why it was not.
pub open spec fn reply(label: Seq<char>, written: Result<Seq<u8>, Seq<char>>) -> Result<
    Seq<char>,
    Seq<char>,
> {
    match written {
        Ok(b) => Ok(codec::base64_text(b)),
        Err(e) => Err(label + " 编码失败: "@ + e),
    }
}

/// The text that a page gets for a picture that was written, see [`reply`].
pub fn written_reply(label: &str, written: Result<Vec<u8>, String>) -> (r: Result<String, String>)
    ensures
        text::outcome(r) == reply(label@, text::outcome(written)),
{
    match written {
        Ok(b) => Ok(codec::base64_encode(b.as_slice())),
        Err(e) => Err(text::owned(label).concat(" 编码失败: ").concat(e.as_str())),
    }
}

fn open(bytes: &[u8]) -> (r: Result<(image::DynamicImage, PictureFormat), String>)
    ensures
        match r {
            Ok((img, f)) => {
                &&& opened(bytes@) is Ok
                &&& opened(bytes@)->Ok_0.raster == picture::raster_of(img)
                &&& opened(bytes@)->Ok_0.format == f
                &&& picture::is_whole(picture::raster_of(img))
            },
            Err(e) => opened(bytes@) is Err && opened(bytes@)->Err_0 == e@,
        },
{
    let img = match picture::load(bytes) {
        Ok(i) => i,
        Err(e) => {
            return Err(text::owned("图片解码失败: ").concat(e.as_str()));
        },
    };
    match picture::guess(bytes) {
        Ok(f) => Ok((img, f)),
        Err(e) => Err(text::owned("识别图片格式失败: ").concat(e.as_str())),
    }
}

// ---------------------------------------------------------------------------
// Scaling
// ---------------------------------------------------------------------------

/// How a picture is scaled to a size.
#[derive(Clone, Copy, PartialEq, Eq, Debug, Structural)]
pub enum Fit {
    /// Within the size, in its proportions.
    Contain,
    /// To the size.
    Fill,
    /// Over the size, in its proportions, and cut to it.
    Cover,
}

/// How a name says that a picture is scaled.
pub open spec fn fit_of(mode: Seq<char>) -> Result<Fit, Seq<char>> {
    let n = text::lowered(text::trimmed(mode));
    if n == "contain"@ {
        Ok(Fit::Contain)
    } else if n == "fill"@ {
        Ok(Fit::Fill)
    } else if n == "cover"@ {
        Ok(Fit::Cover)
    } else {
        Err(
            "不支持的缩放模式："@ + n
                + "（仅支持 contain=等比不裁剪 / fill=拉伸 / cover=裁剪填充）"@,
        )
    }
}

/// How a name says that a picture is scaled, see [`fit_of`].
pub fn parse_fit(mode: &str) -> (r: Result<Fit, String>)
    ensures
        match r {
            Ok(f) => fit_of(mode@) is Ok && fit_of(mode@)->Ok_0 == f,
            Err(e) => fit_of(mode@) is Err && fit_of(mode@)->Err_0 == e@,
        },
{
    let t = text::trim_str(mode);
    let low = text::to_lower(t.as_slice());
    let n = low.as_slice();
    if text::same(n, "contain") {
        Ok(Fit::Contain)
    } else if text::same(n, "fill") {
        Ok(Fit::Fill)
    } else if text::same(n, "cover") {
        Ok(Fit::Cover)
    } else {
        let s = text::string_of(n);
        Err(
            text::owned("不支持的缩放模式：").concat(s.as_str()).concat(
                "（仅支持 contain=等比不裁剪 / fill=拉伸 / cover=裁剪填充）",
            ),
        )
    }
}

/// Whether a picture of a size can be scaled to another one at all: it keeps its size, or the
/// filter is sure to find pixels and the buffers on the way are ones that can be asked for. An
/// empty picture covers nothing.
pub open spec fn can_scale(fit: Fit, iw: u32, ih: u32, w: u32, h: u32) -> bool {
    let (a, b, c, d) = (iw as int, ih as int, w as int, h as int);
    match fit {
        Fit::Contain => (a == c && b == d) || picture::can_filter(a, b, c, d),
        Fit::Fill => (a == c && b == d) || picture::can_filter(a, b, c, d),
        Fit::Cover => {
            let w2 = picture::cover_side(a, b, c, d);
            let h2 = picture::cover_side(b, a, d, c);
            a > 0 && b > 0 && ((a == c && b == d) || (w2 <= u32::MAX && h2 <= u32::MAX
                && picture::can_filter(a, b, w2, h2)))
        },
    }
}

fn holds(width: u32, height: u32) -> (r: bool)
    ensures
        r == picture::can_hold(width as int, height as int),
{
    assert(width * height <= 0xFFFF_FFFF * 0xFFFF_FFFF) by (nonlinear_arith)
        requires
            width <= 0xFFFF_FFFF,
            height <= 0xFFFF_FFFF,
    ;
    let pixels: u128 = (width as u128) * (height as u128);
    pixels * 16 <= isize::MAX as u128
}

fn may_filter(iw: u32, ih: u32, w: u32, h: u32) -> (r: bool)
    ensures
        r == picture::can_filter(iw as int, ih as int, w as int, h as int),
{
    (iw <= picture::MAX_SIDE || w <= picture::SAFE_LENGTH) && (ih <= picture::MAX_SIDE || h
        <= picture::SAFE_LENGTH) && holds(iw, h) && holds(w, h)
}

fn longest(side: u32, other: u32, want: u32, other_want: u32) -> (r: u64)
    requires
        other > 0,
    ensures
        r == picture::cover_side(side as int, other as int, want as int, other_want as int),
{
    assert(side * other_want <= 0xFFFF_FFFF * 0xFFFF_FFFF) by (nonlinear_arith)
        requires
            side <= 0xFFFF_FFFF,
            other_want <= 0xFFFF_FFFF,
    ;
    let product: u64 = (side as u64) * (other_want as u64);
    let by_other: u64 = product / (other as u64) + 1;
    if by_other > want as u64 {
        by_other
    } else {
        want as u64
    }
}

fn may_scale(fit: Fit, iw: u32, ih: u32, w: u32, h: u32) -> (r: bool)
    ensures
        r == can_scale(fit, iw, ih, w, h),
{
    let same = iw == w && ih == h;
    match fit {
        Fit::Contain => same || may_filter(iw, ih, w, h),
        Fit::Fill => same || may_filter(iw, ih, w, h),
        Fit::Cover => {
            if iw == 0 || ih == 0 {
                return false;
            }
            if same {
                return true;
            }
            let w2: u64 = longest(iw, ih, w, h);
            let h2: u64 = longest(ih, iw, h, w);
            w2 <= u32::MAX as u64 && h2 <= u32::MAX as u64 && may_filter(
                iw,
                ih,
                w2 as u32,
                h2 as u32,
            )
        },
    }
}

/// Why a picture is not scaled, before anything is scaled.
pub open spec fn resize_error(data: Seq<char>, w: u32, h: u32, mode: Seq<char>) -> Option<
    Seq<char>,
> {
    if w == 0 || h == 0 {
        Some("width/height 必须大于 0"@)
    } else {
        match sent_bytes(data) {
            Err(e) => Some(e),
            Ok(bytes) => match opened(bytes) {
                Err(e) => Some(e),
                Ok(sent) => match fit_of(mode) {
                    Err(e) => Some(e),
                    Ok(fit) => if can_scale(fit, sent.raster.width, sent.raster.height, w, h) {
                        None
                    } else {
                        Some("图片尺寸过大，无法缩放"@)
                    },
                },
            },
        }
    }
}

/// Whether a size is what scaling may give.
pub open spec fn scaled_size(fit: Fit, iw: u32, ih: u32, w: u32, h: u32, rw: u32, rh: u32) -> bool {
    match fit {
        Fit::Contain => (rw, rh) == picture::fitted_size(iw, ih, w, h) && picture::fits_box(
            iw,
            ih,
            w,
            h,
            rw,
            rh,
        ),
        _ => rw == w && rh == h,
    }
}

/// Whether a picture is what scaling another one may give: the whole of it as the filter scales
/// it, in its proportions or to the size, or the part around the centre of what covers the size.
/// It is of a right size and has the same kind of pixels, and where the size stays the picture
/// does.
pub open spec fn is_scaled(from: picture::Raster, fit: Fit, w: u32, h: u32, r: picture::Raster) -> bool {
    &&& scaled_size(fit, from.width, from.height, w, h, r.width, r.height)
    &&& match fit {
        Fit::Cover => picture::covered(
            from,
            picture::covering_size(from.width, from.height, w, h),
            w,
            h,
            r,
        ),
        _ => picture::filtered(from, r.width, r.height, r),
    }
    &&& r.kind == from.kind
    &&& picture::is_whole(r)
    &&& picture::same_size(r, from) ==> r == from
}

/// Whether an answer is one that scaling may give: the picture of a right size, in the format
/// that was sent, or why it cannot be written.
pub open spec fn resize_answer(
    sent: Sent,
    fit: Fit,
    w: u32,
    h: u32,
    answer: Result<Seq<char>, Seq<char>>,
) -> bool {
    exists|r: picture::Raster| #[trigger]
        is_scaled(sent.raster, fit, w, h, r) && answer == reply(
            name_of(sent.format),
            picture::written_as(r, sent.format),
        )
}

/// The answer for a picture that was scaled: written in the format that was sent.
pub fn scaled_reply(img: &image::DynamicImage, format: PictureFormat) -> (r: Result<
    String,
    String,
>)
    requires
        picture::is_whole(picture::raster_of(*img)),
    ensures
        text::outcome(r) == reply(
            name_of(format),
            picture::written_as(picture::raster_of(*img), format),
        ),
{
    let written = picture::write_as(img, format);
    written_reply(format_name(format), written)
}

/// Scales a picture. The answer keeps the format that was sent.
///
/// The pixels that a filter gives may differ from machine to machine, so what is said of them is
/// what the filter was given and what became of its result, see [`is_scaled`]. The errors, the
/// size and the kind of the pixels do not differ, and a picture that keeps its size stays as it
/// is.
pub fn resize_blocking(data: &str, width: u32, height: u32, mode: &str) -> (r: Result<
    String,
    String,
>)
    ensures
        match resize_error(data@, width, height, mode@) {
            Some(e) => r is Err && r->Err_0@ == e,
            None => resize_answer(
                opened(sent_bytes(data@)->Ok_0)->Ok_0,
                fit_of(mode@)->Ok_0,
                width,
                height,
                text::outcome(r),
            ),
        },
{
    if width == 0 || height == 0 {
        return Err(text::owned("width/height 必须大于 0"));
    }
    let bytes = match commands::read_base64(data) {
        Ok(b) => b,
        Err(e) => {
            return Err(e);
        },
    };
    let (img, format) = match open(bytes.as_slice()) {
        Ok(p) => p,
        Err(e) => {
            return Err(e);
        },
    };
    let fit = match parse_fit(mode) {
        Ok(f) => f,
        Err(e) => {
            return Err(e);
        },
    };
    let (iw, ih) = picture::size(&img);
    if !may_scale(fit, iw, ih, width, height) {
        return Err(text::owned("图片尺寸过大，无法缩放"));
    }
    let out = match fit {
        Fit::Contain => picture::scale_within(&img, width, height),
        Fit::Fill => picture::scale_to(&img, width, height),
        Fit::Cover => picture::scale_to_cover(&img, width, height),
    };
    assert(is_scaled(picture::raster_of(img), fit, width, height, picture::raster_of(out)));
    scaled_reply(&out, format)
}

// ---------------------------------------------------------------------------
// Cutting
// ---------------------------------------------------------------------------

/// Why no part is cut out of a picture of a size.
pub open spec fn part_error(iw: u32, ih: u32, x: i64, y: i64, w: u32, h: u32) -> Option<
    Seq<char>,
> {
    if x + w > iw || y + h > ih {
        Some(
            "裁剪区域超出图片范围：图片为 "@ + text::decimal_text(iw as nat) + "x"@
                + text::decimal_text(ih as nat) + "，请求区域为 ("@ + text::signed_text(
                x as int,
            ) + ","@ + text::signed_text(y as int) + ")+"@ + text::decimal_text(w as nat) + "x"@
                + text::decimal_text(h as nat),
        )
    } else {
        None
    }
}

/// The answer to a page that cuts a part out of a picture.
pub open spec fn crop_answer(data: Seq<char>, x: i64, y: i64, w: u32, h: u32) -> Result<
    Seq<char>,
    Seq<char>,
> {
    if w == 0 || h == 0 {
        Err("裁剪宽高必须大于 0"@)
    } else if x < 0 || y < 0 {
        Err("裁剪起点不能为负"@)
    } else {
        match sent_bytes(data) {
            Err(e) => Err(e),
            Ok(bytes) => match opened(bytes) {
                Err(e) => Err(e),
                Ok(sent) => match part_error(
                    sent.raster.width,
                    sent.raster.height,
                    x,
                    y,
                    w,
                    h,
                ) {
                    Some(e) => Err(e),
                    None => reply(
                        name_of(sent.format),
                        picture::written_as(
                            picture::cut_out(sent.raster, x as u32, y as u32, w, h),
                            sent.format,
                        ),
                    ),
                },
            },
        }
    }
}

/// Checks that a part lies in a picture of a size, see [`part_error`].
pub fn check_part(iw: u32, ih: u32, x: i64, y: i64, w: u32, h: u32) -> (r: Result<(), String>)
    ensures
        text::message_of(r) == part_error(iw, ih, x, y, w, h),
{
    if x as i128 + w as i128 > iw as i128 || y as i128 + h as i128 > ih as i128 {
        let a = text::decimal(iw as u64);
        let b = text::decimal(ih as u64);
        let c = text::signed(x);
        let d = text::signed(y);
        let e = text::decimal(w as u64);
        let f = text::decimal(h as u64);
        return Err(
            text::owned("裁剪区域超出图片范围：图片为 ").concat(a.as_str()).concat("x").concat(
                b.as_str(),
            ).concat("，请求区域为 (").concat(c.as_str()).concat(",").concat(d.as_str()).concat(
                ")+",
            ).concat(e.as_str()).concat("x").concat(f.as_str()),
        );
    }
    Ok(())
}

/// Cuts a part out of a picture, see [`crop_answer`]. The answer keeps the format that was
/// sent. A part that does not lie in the picture is refused.
pub fn crop_blocking(data: &str, x: i64, y: i64, w: u32, h: u32) -> (r: Result<String, String>)
    ensures
        text::outcome(r) == crop_answer(data@, x, y, w, h),
{
    if w == 0 || h == 0 {
        return Err(text::owned("裁剪宽高必须大于 0"));
    }
    if x < 0 || y < 0 {
        return Err(text::owned("裁剪起点不能为负"));
    }
    let bytes = match commands::read_base64(data) {
        Ok(b) => b,
        Err(e) => {
            return Err(e);
        },
    };
    let (img, format) = match open(bytes.as_slice()) {
        Ok(p) => p,
        Err(e) => {
            return Err(e);
        },
    };
    let (iw, ih) = picture::size(&img);
    match check_part(iw, ih, x, y, w, h) {
        Err(e) => {
            return Err(e);
        },
        Ok(_) => {},
    }
    let part = picture::cut(&img, x as u32, y as u32, w, h);
    let written = picture::write_as(&part, format);
    written_reply(format_name(format), written)
}

// ---------------------------------------------------------------------------
// Changing the format
// ---------------------------------------------------------------------------

/// The answer to a page that changes the format of a picture.
pub open spec fn convert_answer(data: Seq<char>, format: Seq<char>) -> Result<
    Seq<char>,
    Seq<char>,
> {
    match sent_bytes(data) {
        Err(e) => Err(e),
        Ok(bytes) => match target_format(format) {
            Err(e) => Err(e),
            Ok(target) => match picture::decoded(bytes) {
                Err(e) => Err(decode_error(e)),
                Ok(raster) => reply(
                    name_of(target),
                    picture::written_as(raster, target),
                ),
            },
        },
    }
}

/// Changes the format of a picture, see [`convert_answer`].
pub fn convert_blocking(data: &str, format: &str) -> (r: Result<String, String>)
    ensures
        text::outcome(r) == convert_answer(data@, format@),
{
    let bytes = match commands::read_base64(data) {
        Ok(b) => b,
        Err(e) => {
            return Err(e);
        },
    };
    let target = match parse_target_format(format) {
        Ok(f) => f,
        Err(e) => {
            return Err(e);
        },
    };
    let img = match picture::load(bytes.as_slice()) {
        Ok(i) => i,
        Err(e) => {
            return Err(text::owned("图片解码失败: ").concat(e.as_str()));
        },
    };
    let written = picture::write_as(&img, target);
    written_reply(format_name(target), written)
}

/// The quality that is used for a quality that was asked for: from 1 to 100.
pub open spec fn used_quality(quality: u8) -> u8 {
    if quality < 1 {
        1
    } else if quality > 100 {
        100
    } else {
        quality
    }
}

/// The message for a picture that is no JPEG.
pub open spec fn not_jpeg(f: PictureFormat) -> Seq<char> {
    "quality 压缩仅支持 JPEG 源图（当前识别为 "@ + name_of(f)
        + "）：WebP 在本项目里只有无损编码器、无法做有损质量压缩，PNG/BMP 等格式本身也没有「质量」这个参数——请先用 plugin_image_convert 转成 jpeg 再压缩"@
}

/// The answer to a page that makes a picture smaller.
pub open spec fn compress_answer(data: Seq<char>, quality: u8) -> Result<Seq<char>, Seq<char>> {
    match sent_bytes(data) {
        Err(e) => Err(e),
        Ok(bytes) => match picture::guessed(bytes) {
            Err(e) => Err(guess_error(e)),
            Ok(f) => if f != PictureFormat::Jpeg {
                Err(not_jpeg(f))
            } else {
                match picture::decoded(bytes) {
                    Err(e) => Err(decode_error(e)),
                    Ok(raster) => reply(
                        "JPEG"@,
                        picture::written_jpeg(raster, used_quality(quality)),
                    ),
                }
            },
        },
    }
}

/// Writes a JPEG picture anew with a quality, see [`compress_answer`].
pub fn compress_blocking(data: &str, quality: u8) -> (r: Result<String, String>)
    ensures
        text::outcome(r) == compress_answer(data@, quality),
{
    let bytes = match commands::read_base64(data) {
        Ok(b) => b,
        Err(e) => {
            return Err(e);
        },
    };
    let f = match picture::guess(bytes.as_slice()) {
        Ok(f) => f,
        Err(e) => {
            return Err(text::owned("识别图片格式失败: ").concat(e.as_str()));
        },
    };
    if f != PictureFormat::Jpeg {
        return Err(
            text::owned("quality 压缩仅支持 JPEG 源图（当前识别为 ").concat(
                format_name(f),
            ).concat(
                "）：WebP 在本项目里只有无损编码器、无法做有损质量压缩，PNG/BMP 等格式本身也没有「质量」这个参数——请先用 plugin_image_convert 转成 jpeg 再压缩",
            ),
        );
    }
    let img = match picture::load(bytes.as_slice()) {
        Ok(i) => i,
        Err(e) => {
            return Err(text::owned("图片解码失败: ").concat(e.as_str()));
        },
    };
    let q: u8 = if quality < 1 {
        1
    } else if quality > 100 {
        100
    } else {
        quality
    };
    let written = picture::write_jpeg(&img, q);
    written_reply("JPEG", written)
}

// ---------------------------------------------------------------------------
// Facts about a picture
// ---------------------------------------------------------------------------

/// What a page is told of a picture.
#[derive(Debug)]
pub struct ImageInfo {
    pub width: u32,
    pub height: u32,
    /// The short name of the format.
    pub format: String,
    /// The size of the file in bytes.
    pub size_bytes: usize,
}

/// What a page is told of a picture: width, height, format and size.
pub open spec fn info_answer(data: Seq<char>) -> Result<(u32, u32, Seq<char>, nat), Seq<char>> {
    match sent_bytes(data) {
        Err(e) => Err(e),
        Ok(bytes) => match picture::guessed(bytes) {
            Err(e) => Err(guess_error(e)),
            Ok(f) => match picture::decoded(bytes) {
                Err(e) => Err(decode_error(e)),
                Ok(raster) => Ok((raster.width, raster.height, name_of(f), bytes.len())),
            },
        },
    }
}

/// What a page is told of a picture, see [`info_answer`].
pub fn info_blocking(data: &str) -> (r: Result<ImageInfo, String>)
    ensures
        match r {
            Ok(i) => info_answer(data@) is Ok && info_answer(data@)->Ok_0 == (
                i.width,
                i.height,
                i.format@,
                i.size_bytes as nat,
            ),
            Err(e) => info_answer(data@) is Err && info_answer(data@)->Err_0 == e@,
        },
{
    let bytes = match commands::read_base64(data) {
        Ok(b) => b,
        Err(e) => {
            return Err(e);
        },
    };
    let f = match picture::guess(bytes.as_slice()) {
        Ok(f) => f,
        Err(e) => {
            return Err(text::owned("识别图片格式失败: ").concat(e.as_str()));
        },
    };
    let img = match picture::load(bytes.as_slice()) {
        Ok(i) => i,
        Err(e) => {
            return Err(text::owned("图片解码失败: ").concat(e.as_str()));
        },
    };
    let (width, height) = picture::size(&img);
    Ok(ImageInfo { width, height, format: text::owned(format_name(f)), size_bytes: bytes.len() })
}

// ---------------------------------------------------------------------------
// Colors on the screen
// ---------------------------------------------------------------------------

/// A place on the screen in pixels of the device.
#[derive(Clone, Copy, PartialEq, Eq, Debug, Structural)]
pub struct PhysicalPoint {
    pub x: i32,
    pub y: i32,
}

/// A part of the screen in pixels of the device.
#[derive(Clone, Copy, PartialEq, Eq, Debug, Structural)]
pub struct PhysicalRect {
    pub x: i32,
    pub y: i32,
    pub width: u32,
    pub height: u32,
}

/// A color: as `#rrggbb`, and its parts.
#[derive(Debug)]
pub struct PixelColor {
    pub hex: String,
    pub r: u8,
    pub g: u8,
    pub b: u8,
}

/// The number that the system gives for a place without a color.
pub const CLR_INVALID: u32 = 0xFFFF_FFFF;

/// The parts of a color number of the system: red lowest.
pub open spec fn color_parts(color: u32) -> (u8, u8, u8) {
    (
        (color % 256) as u8,
        (color / 256 % 256) as u8,
        (color / 65536 % 256) as u8,
    )
}

/// Makes the color of a place from the number that the system gave for it.
pub fn pixel_color(x: i32, y: i32, color: u32) -> (r: Result<PixelColor, String>)
    ensures
        match r {
            Ok(p) => {
                &&& color != CLR_INVALID
                &&& (p.r, p.g, p.b) == color_parts(color)
                &&& p.hex@ == seq!['#'] + codec::hex_text(seq![p.r, p.g, p.b])
            },
            Err(e) => color == CLR_INVALID && e@ == "坐标 ("@ + text::signed_text(x as int) + ", "@
                + text::signed_text(y as int) + ") 不在任何屏幕范围内，或取色失败"@,
        },
{
    if color == CLR_INVALID {
        let a = text::signed(x as i64);
        let b = text::signed(y as i64);
        return Err(
            text::owned("坐标 (").concat(a.as_str()).concat(", ").concat(b.as_str()).concat(
                ") 不在任何屏幕范围内，或取色失败",
            ),
        );
    }
    let r: u8 = (color % 256) as u8;
    let g: u8 = (color / 256 % 256) as u8;
    let b: u8 = (color / 65536 % 256) as u8;
    let mut parts: Vec<u8> = Vec::new();
    parts.push(r);
    parts.push(g);
    parts.push(b);
    assert(parts@ =~= seq![r, g, b]);
    let digits = codec::hex(parts.as_slice());
    proof {
        reveal_strlit("#");
        assert("#"@ =~= seq!['#']);
    }
    Ok(PixelColor { hex: text::owned("#").concat(digits.as_str()), r, g, b })
}

// ---------------------------------------------------------------------------
// Displays
// ---------------------------------------------------------------------------

/// A display: where it lies in pixels of the device.
#[derive(Clone, Copy, PartialEq, Eq, Debug, Structural)]
pub struct MonitorRect {
    pub x: i32,
    pub y: i32,
    pub width: u32,
    pub height: u32,
    pub is_primary: bool,
}

/// Whether a place lies on a display.
pub open spec fn on_display(m: MonitorRect, x: int, y: int) -> bool {
    m.x <= x < m.x + m.width && m.y <= y < m.y + m.height
}

/// The first display that a place lies on.
pub fn monitor_at_physical(mons: &[MonitorRect], x: i32, y: i32) -> (r: Option<usize>)
    ensures
        match r {
            Some(i) => is_first_on(mons@, x as int, y as int, i as int),
            None => forall|j: int|
                0 <= j < mons@.len() ==> !on_display(#[trigger] mons@[j], x as int, y as int),
        },
{
    let mut i: usize = 0;
    while i < mons.len()
        invariant
            i <= mons@.len(),
            forall|j: int| 0 <= j < i ==> !on_display(#[trigger] mons@[j], x as int, y as int),
        decreases mons@.len() - i,
    {
        let m = mons[i];
        let (px, py) = (x as i64, y as i64);
        if px >= m.x as i64 && px < m.x as i64 + m.width as i64 && py >= m.y as i64 && py
            < m.y as i64 + m.height as i64 {
            return Some(i);
        }
        i += 1;
    }
    None
}

/// How far a number lies outside a range.
pub open spec fn outside(v: int, from: int, to: int) -> int {
    if v < from {
        from - v
    } else if v > to {
        v - to
    } else {
        0
    }
}

/// The square of the distance of a place from a display, its edges included.
pub open spec fn distance2(m: MonitorRect, x: int, y: int) -> int {
    let dx = outside(x, m.x as int, m.x + m.width);
    let dy = outside(y, m.y as int, m.y + m.height);
    dx * dx + dy * dy
}

fn gap(v: i32, from: i32, size: u32) -> (r: i128)
    ensures
        r == outside(v as int, from as int, from + size),
        0 <= r <= 0x2_0000_0000,
{
    let v = v as i128;
    let from = from as i128;
    let to = from + size as i128;
    if v < from {
        from - v
    } else if v > to {
        v - to
    } else {
        0
    }
}

fn far(m: MonitorRect, x: i32, y: i32) -> (r: i128)
    ensures
        r == distance2(m, x as int, y as int),
{
    let dx: i128 = gap(x, m.x, m.width);
    let dy: i128 = gap(y, m.y, m.height);
    assert(0 <= dx * dx <= 0x2_0000_0000 * 0x2_0000_0000) by (nonlinear_arith)
        requires
            0 <= dx <= 0x2_0000_0000,
    ;
    assert(0 <= dy * dy <= 0x2_0000_0000 * 0x2_0000_0000) by (nonlinear_arith)
        requires
            0 <= dy <= 0x2_0000_0000,
    ;
    dx * dx + dy * dy
}

/// The first of the displays that are nearest to a place; 0 when there is none.
pub fn nearest_monitor_physical(mons: &[MonitorRect], x: i32, y: i32) -> (r: usize)
    ensures
        mons@.len() == 0 ==> r == 0,
        mons@.len() > 0 ==> is_first_nearest(mons@, x as int, y as int, r as int),
{
    if mons.len() == 0 {
        return 0;
    }
    let mut best: usize = 0;
    let mut least: i128 = far(mons[0], x, y);
    let mut i: usize = 1;
    while i < mons.len()
        invariant
            1 <= i <= mons@.len(),
            best < i,
            least == distance2(mons@[best as int], x as int, y as int),
            forall|j: int|
                0 <= j < i ==> least <= distance2(#[trigger] mons@[j], x as int, y as int),
            forall|j: int|
                0 <= j < best ==> least < distance2(#[trigger] mons@[j], x as int, y as int),
        decreases mons@.len() - i,
    {
        let d: i128 = far(mons[i], x, y);
        if d < least {
            best = i;
            least = d;
        }
        i += 1;
    }
    best
}

/// Whether a display is the first one that a place lies on.
pub open spec fn is_first_on(mons: Seq<MonitorRect>, x: int, y: int, i: int) -> bool {
    &&& 0 <= i < mons.len()
    &&& on_display(mons[i], x, y)
    &&& forall|j: int| 0 <= j < i ==> !on_display(#[trigger] mons[j], x, y)
}

/// Whether a display is the first of those that are nearest to a place.
pub open spec fn is_first_nearest(mons: Seq<MonitorRect>, x: int, y: int, i: int) -> bool {
    &&& 0 <= i < mons.len()
    &&& forall|j: int|
        0 <= j < mons.len() ==> distance2(mons[i], x, y) <= distance2(#[trigger] mons[j], x, y)
    &&& forall|j: int| 0 <= j < i ==> distance2(mons[i], x, y) < distance2(#[trigger] mons[j], x, y)
}

/// The display that a place belongs to: the first one that it lies on, or else the first of the
/// nearest.
pub fn monitor_for(mons: &[MonitorRect], x: i32, y: i32) -> (r: usize)
    requires
        mons@.len() > 0,
    ensures
        if exists|j: int|
            0 <= j < mons@.len() && on_display(#[trigger] mons@[j], x as int, y as int) {
            is_first_on(mons@, x as int, y as int, r as int)
        } else {
            is_first_nearest(mons@, x as int, y as int, r as int)
        },
{
    match monitor_at_physical(mons, x, y) {
        Some(i) => i,
        None => nearest_monitor_physical(mons, x, y),
    }
}

/// Checks that there are displays.
pub fn check_displays(count: usize) -> (r: Result<(), String>)
    ensures
        text::message_of(r) == (if count == 0 {
            Some("未检测到任何显示器"@)
        } else {
            None
        }),
{
    if count == 0 {
        return Err(text::owned("未检测到任何显示器"));
    }
    Ok(())
}

// ---------------------------------------------------------------------------
// What holds of the answers
// ---------------------------------------------------------------------------

/// A page that cuts a part out of a picture gets, in the format that it sent, a picture of just
/// that size whose pixel `i` to the right and `j` down is that of the sent picture `x + i` to
/// the right and `y + j` down.
pub proof fn cropped_pictures_keep_their_pixels(
    data: Seq<char>,
    bytes: Seq<u8>,
    sent: picture::Raster,
    format: PictureFormat,
    x: i64,
    y: i64,
    w: u32,
    h: u32,
) -> (r: picture::Raster)
    requires
        sent_bytes(data) == Ok::<Seq<u8>, Seq<char>>(bytes),
        picture::decoded(bytes) == Ok::<picture::Raster, Seq<char>>(sent),
        picture::guessed(bytes) == Ok::<PictureFormat, Seq<char>>(format),
        w > 0,
        h > 0,
        x >= 0,
        y >= 0,
        x + w <= sent.width,
        y + h <= sent.height,
    ensures
        crop_answer(data, x, y, w, h) == match picture::written_as(r, format) {
            Ok(b) => Ok(codec::base64_text(b)),
            Err(e) => Err(name_of(format) + " 编码失败: "@ + e),
        },
        r.width == w,
        r.height == h,
        r.kind == sent.kind,
        picture::is_whole(r),
        forall|i: int, j: int, b: int|
            #![trigger r.bytes[(j * w + i) * picture::pixel_bytes(r.kind) + b]]
            0 <= i < w && 0 <= j < h && 0 <= b < picture::pixel_bytes(r.kind) ==> r.bytes[(j * w
                + i) * picture::pixel_bytes(r.kind) + b] == sent.bytes[((y + j) * sent.width + (x
                + i)) * picture::pixel_bytes(r.kind) + b],
{
    let r = picture::cut_out(sent, x as u32, y as u32, w, h);
    picture::parts_keep_their_pixels(sent, x as u32, y as u32, w, h, 0, 0, 0);
    assert forall|i: int, j: int, b: int|
        #![trigger r.bytes[(j * w + i) * picture::pixel_bytes(r.kind) + b]]
        0 <= i < w && 0 <= j < h && 0 <= b < picture::pixel_bytes(r.kind) implies r.bytes[(j * w
        + i) * picture::pixel_bytes(r.kind) + b] == sent.bytes[((y + j) * sent.width + (x + i))
        * picture::pixel_bytes(r.kind) + b] by {
        picture::parts_keep_their_pixels(sent, x as u32, y as u32, w, h, i, j, b);
    }
    r
}

/// A part that is empty, or that does not lie in the picture wholly, is never cut out.
pub proof fn only_parts_inside_are_cropped(
    data: Seq<char>,
    bytes: Seq<u8>,
    sent: picture::Raster,
    x: i64,
    y: i64,
    w: u32,
    h: u32,
)
    requires
        sent_bytes(data) == Ok::<Seq<u8>, Seq<char>>(bytes),
        picture::decoded(bytes) == Ok::<picture::Raster, Seq<char>>(sent),
    ensures
        crop_answer(data, x, y, w, h) is Ok ==> w > 0 && h > 0 && x >= 0 && y >= 0 && x + w
            <= sent.width && y + h <= sent.height,
{
}

/// A picture keeps all it holds when its format changes; the format is one of four by name,
/// where neither the case of the letters nor white space around it counts.
pub proof fn converted_pictures_keep_their_contents(
    data: Seq<char>,
    bytes: Seq<u8>,
    sent: picture::Raster,
    name: Seq<char>,
    before: Seq<char>,
    after: Seq<char>,
)
    requires
        sent_bytes(data) == Ok::<Seq<u8>, Seq<char>>(bytes),
        picture::decoded(bytes) == Ok::<picture::Raster, Seq<char>>(sent),
        name.len() > 0,
        !text::is_space(name[0]),
        !text::is_space(name.last()),
        forall|i: int| 0 <= i < before.len() ==> text::is_space(#[trigger] before[i]),
        forall|i: int| 0 <= i < after.len() ==> text::is_space(#[trigger] after[i]),
    ensures
        ({
            let answer = convert_answer(data, before + name + after);
            let low = text::lowered(name);
            &&& low == "png"@ ==> answer == reply(
                "png"@,
                picture::written_as(sent, PictureFormat::Png),
            )
            &&& low == "jpeg"@ || low == "jpg"@ ==> answer == reply(
                "jpeg"@,
                picture::written_as(sent, PictureFormat::Jpeg),
            )
            &&& low == "webp"@ ==> answer == reply(
                "webp"@,
                picture::written_as(sent, PictureFormat::WebP),
            )
            &&& low == "bmp"@ ==> answer == reply(
                "bmp"@,
                picture::written_as(sent, PictureFormat::Bmp),
            )
            &&& low != "png"@ && low != "jpeg"@ && low != "jpg"@ && low != "webp"@ && low
                != "bmp"@ ==> answer is Err
        }),
{
    text::lemma_trimmed_around(before, name, after);
    reveal_strlit("png");
    reveal_strlit("jpeg");
    reveal_strlit("jpg");
    reveal_strlit("webp");
    reveal_strlit("bmp");
    assert("png"@[0] == 'p' && "jpeg"@[0] == 'j' && "jpg"@[0] == 'j' && "webp"@[0] == 'w'
        && "bmp"@[0] == 'b');
}

/// A JPEG picture keeps all it holds when it is made smaller, and the quality from 1 to 100 is
/// the one that was asked for; below and above, the nearest of them.
pub proof fn qualities_are_kept(
    data: Seq<char>,
    bytes: Seq<u8>,
    sent: picture::Raster,
    quality: u8,
)
    requires
        sent_bytes(data) == Ok::<Seq<u8>, Seq<char>>(bytes),
        picture::decoded(bytes) == Ok::<picture::Raster, Seq<char>>(sent),
        picture::guessed(bytes) == Ok::<PictureFormat, Seq<char>>(PictureFormat::Jpeg),
    ensures
        1 <= quality <= 100 ==> compress_answer(data, quality) == reply(
            "JPEG"@,
            picture::written_jpeg(sent, quality),
        ),
        quality == 0 ==> compress_answer(data, quality) == compress_answer(data, 1),
        quality > 100 ==> compress_answer(data, quality) == compress_answer(data, 100),
{
}

/// The facts about a picture are those of what it holds and of the bytes that were sent.
pub proof fn facts_are_those_of_the_picture(
    data: Seq<char>,
    bytes: Seq<u8>,
    sent: picture::Raster,
    format: PictureFormat,
)
    requires
        sent_bytes(data) == Ok::<Seq<u8>, Seq<char>>(bytes),
        picture::decoded(bytes) == Ok::<picture::Raster, Seq<char>>(sent),
        picture::guessed(bytes) == Ok::<PictureFormat, Seq<char>>(format),
    ensures
        info_answer(data) is Ok,
        info_answer(data)->Ok_0.0 == sent.width,
        info_answer(data)->Ok_0.1 == sent.height,
        info_answer(data)->Ok_0.3 == bytes.len(),
        format == PictureFormat::Png ==> info_answer(data)->Ok_0.2 == "png"@,
        format == PictureFormat::Jpeg ==> info_answer(data)->Ok_0.2 == "jpeg"@,
        format == PictureFormat::WebP ==> info_answer(data)->Ok_0.2 == "webp"@,
        format == PictureFormat::Bmp ==> info_answer(data)->Ok_0.2 == "bmp"@,
        format == PictureFormat::Gif ==> info_answer(data)->Ok_0.2 == "gif"@,
{
}

/// The parts of a color make up its number again: red, green and blue from the lowest byte on.
pub proof fn colors_are_made_of_their_parts(color: u32)
    ensures
        ({
            let (r, g, b) = color_parts(color);
            r + 256 * g + 65536 * b == color % 0x100_0000
        }),
{
    let (r, g, b) = color_parts(color);
    assert(r == color % 256);
    assert(g == color / 256 % 256);
    assert(b == color / 65536 % 256);
    assert(color % 256 + 256 * (color / 256 % 256) + 65536 * (color / 65536 % 256) == color
        % 0x100_0000) by (bit_vector);
}

/// No place on a display or its edge is nearer than the distance of the display, and one is
/// just as near. A place on a display is at no distance from it.
pub proof fn distances_are_least(m: MonitorRect, x: int, y: int, px: int, py: int) -> (near: (
    int,
    int,
))
    requires
        m.x <= px <= m.x + m.width,
        m.y <= py <= m.y + m.height,
    ensures
        distance2(m, x, y) <= (x - px) * (x - px) + (y - py) * (y - py),
        m.x <= near.0 <= m.x + m.width,
        m.y <= near.1 <= m.y + m.height,
        distance2(m, x, y) == (x - near.0) * (x - near.0) + (y - near.1) * (y - near.1),
        on_display(m, x, y) ==> distance2(m, x, y) == 0,
{
    let nx = if x < m.x {
        m.x as int
    } else if x > m.x + m.width {
        m.x + m.width
    } else {
        x
    };
    let ny = if y < m.y {
        m.y as int
    } else if y > m.y + m.height {
        m.y + m.height
    } else {
        y
    };
    let dx = outside(x, m.x as int, m.x + m.width);
    let dy = outside(y, m.y as int, m.y + m.height);
    let ax = x - px;
    let ay = y - py;
    assert(dx * dx == (x - nx) * (x - nx)) by (nonlinear_arith)
        requires
            dx == x - nx || dx == nx - x,
    ;
    assert(dy * dy == (y - ny) * (y - ny)) by (nonlinear_arith)
        requires
            dy == y - ny || dy == ny - y,
    ;
    assert(dx * dx <= ax * ax) by (nonlinear_arith)
        requires
            0 <= dx,
            dx <= ax || dx <= -ax,
    ;
    assert(dy * dy <= ay * ay) by (nonlinear_arith)
        requires
            0 <= dy,
            dy <= ay || dy <= -ay,
    ;
    (nx, ny)
}

/// The bytes of a picture that was written are sent in Base64, and nothing else is.
pub proof fn written_pictures_are_sent_whole(label: Seq<char>, bytes: Seq<u8>, why: Seq<char>)
    ensures
        reply(label, Ok(bytes)) == Ok::<Seq<char>, Seq<char>>(codec::base64_text(bytes)),
        reply(label, Err(why)) is Err,
        why.is_suffix_of(reply(label, Err(why))->Err_0),
{
    let e = reply(label, Err(why))->Err_0;
    assert(e.subrange(e.len() - why.len(), e.len() as int) =~= why);
}

/// A picture that was scaled has a size that the way of scaling promises: "contain" gives one
/// in the box that touches it and whose proportions are off by less than a pixel, "fill" and
/// "cover" give just the box. What is asked for at the size that it has stays as it is.
pub proof fn scaled_pictures_have_the_size(
    data: Seq<char>,
    bytes: Seq<u8>,
    sent: picture::Raster,
    format: PictureFormat,
    w: u32,
    h: u32,
    mode: Seq<char>,
    answer: Result<Seq<char>, Seq<char>>,
) -> (r: picture::Raster)
    requires
        sent_bytes(data) == Ok::<Seq<u8>, Seq<char>>(bytes),
        picture::decoded(bytes) == Ok::<picture::Raster, Seq<char>>(sent),
        picture::guessed(bytes) == Ok::<PictureFormat, Seq<char>>(format),
        sent.width > 0,
        sent.height > 0,
        resize_error(data, w, h, mode) is None,
        resize_answer(opened(bytes)->Ok_0, fit_of(mode)->Ok_0, w, h, answer),
    ensures
        answer is Ok <==> picture::written_as(r, format) is Ok,
        answer is Ok ==> answer->Ok_0 == codec::base64_text(picture::written_as(r, format)->Ok_0),
        picture::is_whole(r),
        r.kind == sent.kind,
        text::lowered(mode) == "contain"@ ==> {
            &&& 1 <= r.width <= w
            &&& 1 <= r.height <= h
            &&& r.width == w || r.height == h
            &&& r.width == w && r.height < h ==> -(sent.width as int) < r.height * sent.width
                - sent.height * r.width < sent.width
            &&& r.height == h && r.width < w ==> -(sent.height as int) < r.width * sent.height
                - sent.width * r.height < sent.height
            &&& picture::filtered(sent, r.width, r.height, r)
        },
        text::lowered(mode) == "fill"@ ==> {
            &&& r.width == w
            &&& r.height == h
            &&& picture::filtered(sent, w, h, r)
        },
        text::lowered(mode) == "cover"@ ==> r.width == w && r.height == h,
        r.width == sent.width && r.height == sent.height ==> r == sent,
{
    let fit = fit_of(mode)->Ok_0;
    let r = choose|r: picture::Raster| #[trigger]
        is_scaled(sent, fit, w, h, r) && answer == reply(
            name_of(format),
            picture::written_as(r, format),
        );
    assert(is_scaled(sent, fit, w, h, r));
    lemma_modes(mode);
    r
}

/// A text without white space around it that is one of the ways of scaling, in any case.
proof fn lemma_modes(mode: Seq<char>)
    ensures
        text::lowered(mode) == "contain"@ ==> fit_of(mode) == Ok::<Fit, Seq<char>>(Fit::Contain),
        text::lowered(mode) == "fill"@ ==> fit_of(mode) == Ok::<Fit, Seq<char>>(Fit::Fill),
        text::lowered(mode) == "cover"@ ==> fit_of(mode) == Ok::<Fit, Seq<char>>(Fit::Cover),
{
    reveal_strlit("contain");
    reveal_strlit("fill");
    reveal_strlit("cover");
    assert("contain"@.len() == 7 && "fill"@.len() == 4 && "cover"@.len() == 5);
    let low = text::lowered(mode);
    if low == "contain"@ || low == "fill"@ || low == "cover"@ {
        assert(low.len() == mode.len());
        assert(low[0] == text::lower_char(mode[0]));
        assert(low.last() == text::lower_char(mode.last()));
        assert(text::trimmed(mode) =~= mode);
    }
}

/// A picture is scaled, whatever the way, where its sides and those of the box are at most 4096
/// and none of its sides is more than twice the other: only a side of no pixels, an unreadable
/// picture or a way that does not exist is in the way.
pub proof fn pictures_of_common_sizes_are_scaled(
    data: Seq<char>,
    bytes: Seq<u8>,
    sent: picture::Raster,
    format: PictureFormat,
    w: u32,
    h: u32,
    mode: Seq<char>,
)
    requires
        sent_bytes(data) == Ok::<Seq<u8>, Seq<char>>(bytes),
        picture::decoded(bytes) == Ok::<picture::Raster, Seq<char>>(sent),
        picture::guessed(bytes) == Ok::<PictureFormat, Seq<char>>(format),
        1 <= sent.width <= 4096,
        1 <= sent.height <= 4096,
        sent.width <= 2 * sent.height,
        sent.height <= 2 * sent.width,
        1 <= w <= 4096,
        1 <= h <= 4096,
        text::lowered(mode) == "contain"@ || text::lowered(mode) == "fill"@ || text::lowered(mode)
            == "cover"@,
    ensures
        resize_error(data, w, h, mode) is None,
        resize_error(data, 0, h, mode) is Some,
        resize_error(data, w, 0, mode) is Some,
{
    lemma_modes(mode);
    let (a, b, c, d) = (sent.width as int, sent.height as int, w as int, h as int);
    assert(a * d / b <= 2 * d) by (nonlinear_arith)
        requires
            0 < b,
            a <= 2 * b,
            0 < d,
    ;
    assert(b * c / a <= 2 * c) by (nonlinear_arith)
        requires
            0 < a,
            b <= 2 * a,
            0 < c,
    ;
    assert(a * d / b >= 0 && b * c / a >= 0) by (nonlinear_arith)
        requires
            0 < a,
            0 < b,
            0 < c,
            0 < d,
    ;
    let w2 = picture::cover_side(a, b, c, d);
    let h2 = picture::cover_side(b, a, d, c);
    assert(0 < w2 <= 8193 && 0 < h2 <= 8193);
    lemma_small(a, d);
    lemma_small(c, d);
    lemma_small(a, h2);
    lemma_small(w2, h2);
}

proof fn lemma_small(a: int, b: int)
    requires
        0 <= a <= 8193,
        0 <= b <= 8193,
    ensures
        picture::can_hold(a, b),
{
    assert(a * b * 16 <= 8193 * 8193 * 16) by (nonlinear_arith)
        requires
            0 <= a <= 8193,
            0 <= b <= 8193,
    ;
}

/// The display that a place is said to lie on has the place between its edges, the right and
/// the lower one not counted; no display comes earlier that has it.
pub proof fn places_lie_on_their_display(mons: Seq<MonitorRect>, x: int, y: int, i: int, j: int)
    requires
        is_first_on(mons, x, y, i),
        0 <= j < mons.len(),
        mons[j].x <= x < mons[j].x + mons[j].width,
        mons[j].y <= y < mons[j].y + mons[j].height,
    ensures
        i <= j,
        mons[i].x <= x < mons[i].x + mons[i].width,
        mons[i].y <= y < mons[i].y + mons[i].height,
{
}

/// No display has a place that is nearer than the nearest display is.
pub proof fn nearest_displays_are_nearest(
    mons: Seq<MonitorRect>,
    x: int,
    y: int,
    i: int,
    j: int,
    px: int,
    py: int,
) -> (near: (int, int))
    requires
        is_first_nearest(mons, x, y, i),
        0 <= j < mons.len(),
        mons[j].x <= px <= mons[j].x + mons[j].width,
        mons[j].y <= py <= mons[j].y + mons[j].height,
    ensures
        mons[i].x <= near.0 <= mons[i].x + mons[i].width,
        mons[i].y <= near.1 <= mons[i].y + mons[i].height,
        (x - near.0) * (x - near.0) + (y - near.1) * (y - near.1) <= (x - px) * (x - px) + (y - py)
            * (y - py),
{
    distances_are_least(mons[j], x, y, px, py);
    distances_are_least(mons[i], x, y, mons[i].x as int, mons[i].y as int)
}

} // verus!
