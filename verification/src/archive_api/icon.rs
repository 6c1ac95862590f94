//! Icons of files as PNG images.

use crate::codec;
use crate::text;
use crate::utf16;
use vstd::prelude::*;

verus! {

/// A path as the shell takes it: backslashes, in UTF-16, ended by a zero.
pub open spec fn shell_units(path: Seq<char>) -> Seq<u16> {
    utf16::units_of(text::replaced(path, '/', '\\')).push(0)
}

/// Writes a path as the shell takes it, see [`shell_units`].
pub fn shell_path(path: &str) -> (r: Vec<u16>)
    ensures
        r@ == shell_units(path@),
{
    let v = text::chars_of(path);
    let unified = text::replace_char(v.as_slice(), '/', '\\');
    let mut units = utf16::encode(unified.as_slice());
    units.push(0);
    units
}

/// Whether a pixel of a four byte per pixel image has an alpha value other than 0.
pub open spec fn has_alpha(color: Seq<u8>) -> bool {
    exists|k: int| 0 <= k < color.len() / 4 && #[trigger] color[4 * k + 3] != 0
}

/// The alpha value of a pixel: the image's own where it has one anywhere; else what the mask
/// says, 0 in the mask being solid; else solid.
pub open spec fn alpha_of(color: Seq<u8>, mask: Option<Seq<u8>>, k: int) -> u8 {
    if has_alpha(color) {
        color[4 * k + 3]
    } else {
        match mask {
            Some(m) => if k >= m.len() / 4 {
                color[4 * k + 3]
            } else if m[4 * k] == 0 {
                255
            } else {
                0
            },
            None => 255,
        }
    }
}

/// A byte of the image after blue and red changed places and alpha was set.
pub open spec fn icon_byte(color: Seq<u8>, mask: Option<Seq<u8>>, i: int) -> u8 {
    let k = i / 4;
    if k >= color.len() / 4 {
        color[i]
    } else if i % 4 == 0 {
        color[4 * k + 2]
    } else if i % 4 == 1 {
        color[4 * k + 1]
    } else if i % 4 == 2 {
        color[4 * k]
    } else {
        alpha_of(color, mask, k)
    }
}

/// The pixels of an icon from blue-green-red-alpha bytes and the mask.
pub open spec fn icon_bytes(color: Seq<u8>, mask: Option<Seq<u8>>) -> Seq<u8> {
    Seq::new(color.len(), |i: int| icon_byte(color, mask, i))
}

fn any_alpha(color: &[u8]) -> (r: bool)
    ensures
        r == has_alpha(color@),
{
    let len: usize = color.len();
    let n: usize = len / 4;
    let mut k: usize = 0;
    while k < n
        invariant
            len == color@.len(),
            n == len / 4,
            k <= n,
            forall|j: int| 0 <= j < k ==> #[trigger] color@[4 * j + 3] == 0,
        decreases n - k,
    {
        if color[4 * k + 3] != 0 {
            assert(color@[4 * (k as int) + 3] != 0);
            return true;
        }
        k += 1;
    }
    false
}

/// Makes the pixels of an icon, see [`icon_bytes`].
pub fn icon_pixels(color: &[u8], mask: Option<&[u8]>) -> (r: Vec<u8>)
    ensures
        r@ == icon_bytes(
            color@,
            match mask {
                Some(m) => Some(m@),
                None => None,
            },
        ),
{
    let ghost gm: Option<Seq<u8>> = match mask {
        Some(m) => Some(m@),
        None => None,
    };
    let own = any_alpha(color);
    let whole: usize = color.len() / 4;
    let mut out: Vec<u8> = Vec::new();
    let mut i: usize = 0;
    while i < color.len()
        invariant
            i <= color@.len(),
            whole == color@.len() / 4,
            own == has_alpha(color@),
            gm == (match mask {
                Some(m) => Some(m@),
                None => None,
            }),
            out@ == icon_bytes(color@, gm).take(i as int),
        decreases color@.len() - i,
    {
        let k: usize = i / 4;
        let b: u8 = if k >= whole {
            color[i]
        } else if i % 4 == 0 {
            color[4 * k + 2]
        } else if i % 4 == 1 {
            color[4 * k + 1]
        } else if i % 4 == 2 {
            color[4 * k]
        } else if own {
            color[4 * k + 3]
        } else {
            match mask {
                Some(m) => if k >= m.len() / 4 {
                    color[4 * k + 3]
                } else if m[4 * k] == 0 {
                    255
                } else {
                    0
                },
                None => 255,
            }
        };
        out.push(b);
        assert(b == icon_byte(color@, gm, i as int));
        assert(out@ =~= icon_bytes(color@, gm).take(i + 1));
        i += 1;
    }
    assert(icon_bytes(color@, gm).take(i as int) =~= icon_bytes(color@, gm));
    out
}

/// The PNG image of red-green-blue-alpha pixels; `None` when they cannot be encoded.
pub uninterp spec fn png_image(width: u32, height: u32, rgba: Seq<u8>) -> Option<Seq<u8>>;

/// Encodes pixels with `png::Encoder`, 8 bits per channel, through `write_header`,
/// `write_image_data` and `finish`.
///
/// The image depends on the size and the pixels alone. There must be four bytes per pixel.
#[verifier::external_body]
pub(crate) fn encode_png(width: u32, height: u32, rgba: &[u8]) -> (r: Option<Vec<u8>>)
    requires
        width > 0,
        height > 0,
        rgba@.len() == width * height * 4,
    ensures
        text::opt_view(r) == png_image(width, height, rgba@),
{
    let mut out: Vec<u8> = Vec::new();
    let mut enc = png::Encoder::new(&mut out, width, height);
    enc.set_color(png::ColorType::Rgba);
    enc.set_depth(png::BitDepth::Eight);
    let mut w = enc.write_header().ok()?;
    w.write_image_data(rgba).ok()?;
    w.finish().ok()?;
    Some(out)
}

/// What the system told of an icon: its size, and its color and mask bitmaps as far as they
/// could be read.
#[derive(Debug)]
pub struct IconBits {
    pub width: i32,
    pub height: i32,
    pub color: Option<Vec<u8>>,
    pub mask: Option<Vec<u8>>,
}

/// Whether an icon can be drawn: it has a size and its color bitmap was read in full.
pub open spec fn drawable(width: i32, height: i32, color: Option<Seq<u8>>) -> bool {
    &&& width > 0
    &&& height > 0
    &&& color is Some
    &&& color->0.len() == width * height * 4
}

/// The icon as base64 text of a PNG image.
pub open spec fn icon_text(
    width: i32,
    height: i32,
    color: Option<Seq<u8>>,
    mask: Option<Seq<u8>>,
) -> Option<Seq<char>> {
    if drawable(width, height, color) {
        match png_image(width as u32, height as u32, icon_bytes(color->0, mask)) {
            Some(png) => Some(codec::base64_text(png)),
            None => None,
        }
    } else {
        None
    }
}

/// The base64 text of an icon's PNG image, see [`icon_text`].
pub fn icon_base64_png(icon: &IconBits) -> (r: Option<String>)
    ensures
        text::opt_view(r) == icon_text(
            icon.width,
            icon.height,
            text::opt_view(icon.color),
            text::opt_view(icon.mask),
        ),
{
    if icon.width <= 0 || icon.height <= 0 {
        return None;
    }
    let color = match &icon.color {
        Some(c) => c,
        None => {
            return None;
        },
    };
    let w: u128 = icon.width as u128;
    let h: u128 = icon.height as u128;
    assert(w * h <= 0x8000_0000 * 0x8000_0000) by (nonlinear_arith)
        requires
            w <= 0x8000_0000,
            h <= 0x8000_0000,
    ;
    assert((w * h) * 4 == icon.width * icon.height * 4);
    if color.len() as u128 != w * h * 4 {
        return None;
    }
    let mask: Option<&[u8]> = match &icon.mask {
        Some(m) => Some(m.as_slice()),
        None => None,
    };
    let pixels = icon_pixels(color.as_slice(), mask);
    match encode_png(icon.width as u32, icon.height as u32, pixels.as_slice()) {
        Some(png) => Some(codec::base64_encode(png.as_slice())),
        None => None,
    }
}

/// The answer to a page that asks for an icon: the image or why there is none.
pub fn icon_answer(image: Option<String>) -> (r: Result<String, String>)
    ensures
        text::outcome(r) == (match image {
            Some(s) => Ok(s@),
            None => Err("无法获取该文件的系统图标"@),
        }),
{
    match image {
        Some(s) => Ok(s),
        None => Err(text::owned("无法获取该文件的系统图标")),
    }
}

/// Every pixel of an icon keeps its red, green and blue, which are in the other order
/// afterwards. Where the picture has alpha anywhere, each pixel keeps its own; else the mask
/// decides, black being solid; and without a mask all is solid.
pub proof fn icons_keep_their_pixels(color: Seq<u8>, mask: Seq<u8>, k: int)
    requires
        0 <= k,
        4 * k + 4 <= color.len(),
        4 * k + 4 <= mask.len(),
    ensures
        ({
            let masked = icon_bytes(color, Some(mask));
            let plain = icon_bytes(color, None);
            let own = exists|j: int|
                0 <= j < color.len() / 4 && #[trigger] color[4 * j + 3] != 0;
            &&& masked.len() == color.len() && plain.len() == color.len()
            &&& masked[4 * k] == color[4 * k + 2] && plain[4 * k] == color[4 * k + 2]
            &&& masked[4 * k + 1] == color[4 * k + 1] && plain[4 * k + 1] == color[4 * k + 1]
            &&& masked[4 * k + 2] == color[4 * k] && plain[4 * k + 2] == color[4 * k]
            &&& own ==> masked[4 * k + 3] == color[4 * k + 3] && plain[4 * k + 3] == color[4 * k
                + 3]
            &&& !own ==> plain[4 * k + 3] == 255
            &&& !own && mask[4 * k] == 0 ==> masked[4 * k + 3] == 255
            &&& !own && mask[4 * k] != 0 ==> masked[4 * k + 3] == 0
        }),
{
    assert((4 * k) / 4 == k && (4 * k + 1) / 4 == k && (4 * k + 2) / 4 == k && (4 * k + 3) / 4
        == k);
    assert((4 * k) % 4 == 0 && (4 * k + 1) % 4 == 1 && (4 * k + 2) % 4 == 2 && (4 * k + 3) % 4
        == 3);
}

/// The shell is asked for the path that was meant, with backslashes, up to a zero.
pub proof fn the_shell_gets_the_path(p: Seq<char>)
    ensures
        ({
            let u = shell_units(p);
            let q = utf16::text_of(u.drop_last());
            &&& u.last() == 0
            &&& q.len() == p.len()
            &&& forall|i: int|
                0 <= i < p.len() ==> #[trigger] q[i] == if p[i] == '/' {
                    '\\'
                } else {
                    p[i]
                }
        }),
{
    let t = text::replaced(p, '/', '\\');
    let u = shell_units(p);
    assert(u.drop_last() =~= utf16::units_of(t));
    utf16::units_read_back(t);
}

/// An icon whose pixels were all read is drawn, in Base64; one that lacks a pixel, or has no
/// size, is not.
pub proof fn icons_that_were_read_are_drawn(
    width: i32,
    height: i32,
    color: Seq<u8>,
    mask: Option<Seq<u8>>,
)
    ensures
        icon_text(width, height, None, mask) is None,
        width <= 0 || height <= 0 ==> icon_text(width, height, Some(color), mask) is None,
        color.len() != width * height * 4 ==> icon_text(width, height, Some(color), mask) is None,
        width > 0 && height > 0 && color.len() == width * height * 4 ==> {
            let png = png_image(width as u32, height as u32, icon_bytes(color, mask));
            let drawn = icon_text(width, height, Some(color), mask);
            &&& drawn is Some <==> png is Some
            &&& png is Some ==> drawn->0 == codec::base64_text(png->0)
        },
{
}

} // verus!
