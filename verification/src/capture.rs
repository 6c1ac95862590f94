//! Pictures of the screen.

use crate::codec;
use crate::image_api;
use crate::image_api::MonitorRect;
use crate::picture;
use crate::text;
use vstd::prelude::*;
use vstd::utf8::encode_utf8;

verus! {

/// The permission for taking pictures of the screen.
pub const PERM_CAPTURE: &'static str = "screen-capture";

/// What is answered where the user takes no picture after all.
pub const CANCELLED: &'static str = "__cancelled__";

/// The milliseconds that a hidden page takes to leave the screen.
pub const NATIVE_PAUSE: u64 = 120;

pub const OVERLAY_PAUSE: u64 = 180;

/// The milliseconds after which the overlay is shown though it did not call.
pub const OVERLAY_SHOW_AFTER: u64 = 1500;

/// Checks that a plugin may take pictures of the screen.
pub fn require_capture(granted: bool) -> (r: Result<(), String>)
    ensures
        text::message_of(r) == (if granted {
            None
        } else {
            Some("插件未获授权截屏（请在「插件管理」里授权 screen-capture）"@)
        }),
{
    if granted {
        Ok(())
    } else {
        Err(text::owned("插件未获授权截屏（请在「插件管理」里授权 screen-capture）"))
    }
}

// ---------------------------------------------------------------------------
// Displays
// ---------------------------------------------------------------------------

/// Where the first mark stands; the number of marks where there is none.
pub open spec fn first_marked(marks: Seq<bool>) -> nat
    decreases marks.len(),
{
    if marks.len() == 0 {
        0
    } else if marks[0] {
        0
    } else {
        1 + first_marked(marks.skip(1))
    }
}

fn find_mark(marks: &Vec<bool>) -> (r: usize)
    ensures
        r == first_marked(marks@),
        r <= marks@.len(),
{
    let mut i: usize = 0;
    assert(marks@.skip(0) =~= marks@);
    while i < marks.len()
        invariant
            i <= marks@.len(),
            first_marked(marks@) == i + first_marked(marks@.skip(i as int)),
        decreases marks@.len() - i,
    {
        assert(marks@.skip(i as int).skip(1) =~= marks@.skip(i + 1));
        if marks[i] {
            return i;
        }
        i += 1;
    }
    i
}

/// The main display: the first that says so, else the first.
pub fn primary_monitor(is_primary: &Vec<bool>) -> (r: Result<usize, String>)
    ensures
        match r {
            Ok(i) => is_primary@.len() > 0 && i == (if first_marked(is_primary@)
                < is_primary@.len() {
                first_marked(is_primary@)
            } else {
                0
            }),
            Err(e) => is_primary@.len() == 0 && e@ == "未找到任何显示器"@,
        },
{
    if is_primary.len() == 0 {
        return Err(text::owned("未找到任何显示器"));
    }
    let i: usize = find_mark(is_primary);
    if i < is_primary.len() {
        Ok(i)
    } else {
        Ok(0)
    }
}

/// Which displays have an id.
pub open spec fn with_id(ids: Seq<Option<u32>>, want: u32) -> Seq<bool> {
    Seq::new(ids.len(), |i: int| ids[i] == Some(want))
}

/// The first display with an id. Displays that do not tell theirs have none.
pub fn display_by_id(ids: &Vec<Option<u32>>, want: u32) -> (r: Result<usize, String>)
    ensures
        ({
            let i = first_marked(with_id(ids@, want));
            match r {
                Ok(k) => k == i && i < ids@.len(),
                Err(e) => i == ids@.len() && e@ == "找不到显示器 id="@ + text::decimal_text(
                    want as nat,
                ),
            }
        }),
{
    let mut marks: Vec<bool> = Vec::new();
    let mut i: usize = 0;
    while i < ids.len()
        invariant
            i <= ids@.len(),
            marks@ == with_id(ids@, want).take(i as int),
        decreases ids@.len() - i,
    {
        let same = match ids[i] {
            Some(id) => id == want,
            None => false,
        };
        marks.push(same);
        assert(marks@ =~= with_id(ids@, want).take(i + 1));
        i += 1;
    }
    assert(marks@ =~= with_id(ids@, want));
    let k: usize = find_mark(&marks);
    if k < ids.len() {
        Ok(k)
    } else {
        let number = text::decimal(want as u64);
        Err(text::owned("找不到显示器 id=").concat(number.as_str()))
    }
}

/// The display that a place lies on, else the main one where there is one.
pub fn display_at(mons: &Vec<MonitorRect>, x: i32, y: i32, main: Option<MonitorRect>) -> (r: Option<
    MonitorRect,
>)
    ensures
        (forall|j: int|
            0 <= j < mons@.len() ==> !image_api::on_display(#[trigger] mons@[j], x as int, y as int))
            ==> r == main,
        (exists|j: int|
            0 <= j < mons@.len() && image_api::on_display(#[trigger] mons@[j], x as int, y as int))
            ==> exists|i: int|
            {
                &&& 0 <= i < mons@.len()
                &&& r == Some(#[trigger] mons@[i])
                &&& image_api::on_display(mons@[i], x as int, y as int)
                &&& forall|j: int|
                    0 <= j < i ==> !image_api::on_display(
                        #[trigger] mons@[j],
                        x as int,
                        y as int,
                    )
            },
{
    match image_api::monitor_at_physical(mons.as_slice(), x, y) {
        Some(i) => Some(mons[i]),
        None => main,
    }
}

// ---------------------------------------------------------------------------
// Pictures
// ---------------------------------------------------------------------------

/// A picture of red, green, blue and alpha.
#[derive(Debug)]
pub struct Shot {
    pub width: u32,
    pub height: u32,
    pub rgba: Vec<u8>,
}

impl Shot {
    /// Whether there are four bytes for each pixel.
    pub open spec fn is_whole(&self) -> bool {
        self.rgba@.len() == self.width * self.height * 4
    }
}

/// The height that keeps the proportions when a picture gets narrower; at least one.
pub open spec fn narrowed_height(width: u32, height: u32, max_w: u32) -> int {
    let h = height * max_w / (width as int);
    if h < 1 {
        1
    } else {
        h
    }
}

/// Makes a picture no wider than asked for, and keeps the proportions. A picture that is narrow
/// enough stays as it is; one that is not must be one that the filter can scale.
pub fn downscale(shot: Shot, max_w: u32) -> (r: Shot)
    requires
        shot.is_whole(),
        shot.width > max_w ==> picture::can_filter(
            shot.width as int,
            shot.height as int,
            max_w as int,
            narrowed_height(shot.width, shot.height, max_w),
        ),
    ensures
        shot.width <= max_w ==> r == shot,
        shot.width > max_w ==> {
            let h = narrowed_height(shot.width, shot.height, max_w);
            &&& r.width == max_w
            &&& r.height == h
            &&& r.rgba@ == picture::rgba_of(
                picture::smoothed(
                    picture::rgba_raster(shot.width, shot.height, shot.rgba@),
                    max_w,
                    h as u32,
                ),
            )
        },
        r.is_whole(),
{
    if shot.width <= max_w {
        return shot;
    }
    let width: u32 = shot.width;
    let height: u32 = shot.height;
    assert(height * max_w <= 0xFFFF_FFFF * 0xFFFF_FFFF) by (nonlinear_arith)
        requires
            height <= 0xFFFF_FFFF,
            max_w <= 0xFFFF_FFFF,
    ;
    let h: u64 = height as u64 * max_w as u64 / width as u64;
    assert(h <= height) by (nonlinear_arith)
        requires
            h == (height * max_w) / (width as int),
            max_w < width,
            height >= 0,
            max_w >= 0,
    ;
    let h: u32 = if h < 1 {
        1
    } else {
        h as u32
    };
    match picture::from_rgba(width, height, shot.rgba) {
        Some(img) => {
            let small = picture::smooth_to(&img, max_w, h);
            Shot { width: max_w, height: h, rgba: picture::to_rgba(&small) }
        },
        None => {
            assert(false);
            Shot { width: 0, height: 0, rgba: Vec::new() }
        },
    }
}

/// The answer to a picture of a display: a PNG image in Base64.
pub open spec fn full_text(width: u32, height: u32, rgba: Seq<u8>) -> Result<Seq<char>, Seq<char>> {
    match picture::png_bytes(
        width,
        height,
        rgba,
        picture::written_as(picture::rgba_raster(width, height, rgba), picture::PictureFormat::Png),
    ) {
        Ok(b) => Ok(codec::base64_text(b)),
        Err(e) => Err(e),
    }
}

/// The answer to a picture of a display, see [`full_text`].
pub fn full_answer(shot: Shot) -> (r: Result<String, String>)
    requires
        shot.is_whole(),
    ensures
        text::outcome(r) == full_text(shot.width, shot.height, shot.rgba@),
{
    match picture::rgba_to_png(shot.width, shot.height, shot.rgba) {
        Ok(b) => Ok(codec::base64_encode(b.as_slice())),
        Err(e) => Err(e),
    }
}

// ---------------------------------------------------------------------------
// Bitmaps
// ---------------------------------------------------------------------------

/// What keeps the system from giving the pixels of the screen.
#[derive(Clone, Copy, Debug)]
pub enum GdiFault {
    NoScreen,
    NoBitmap,
    NoPixels,
}

/// What is told of a fault.
pub open spec fn fault_message(f: GdiFault) -> Seq<char> {
    match f {
        GdiFault::NoScreen => "GetDC 失败"@,
        GdiFault::NoBitmap => "创建 DC/位图失败"@,
        GdiFault::NoPixels => "BitBlt/GetDIBits 失败"@,
    }
}

/// What is told of a fault, see [`fault_message`].
pub fn fault_text(f: GdiFault) -> (r: String)
    ensures
        r@ == fault_message(f),
{
    match f {
        GdiFault::NoScreen => text::owned("GetDC 失败"),
        GdiFault::NoBitmap => text::owned("创建 DC/位图失败"),
        GdiFault::NoPixels => text::owned("BitBlt/GetDIBits 失败"),
    }
}

/// Pixels with full alpha. Bytes that make no whole pixel stay.
pub open spec fn opaque_of(pixels: Seq<u8>) -> Seq<u8> {
    Seq::new(
        pixels.len(),
        |i: int|
            if i % 4 == 3 {
                0xFFu8
            } else {
                pixels[i]
            },
    )
}

/// Makes pixels opaque, see [`opaque_of`].
pub fn make_opaque(pixels: &mut Vec<u8>)
    ensures
        final(pixels)@ == opaque_of(old(pixels)@),
{
    let ghost was = pixels@;
    let mut i: usize = 0;
    while i < pixels.len()
        invariant
            i <= pixels@.len(),
            pixels@.len() == was.len(),
            forall|j: int| 0 <= j < i ==> pixels@[j] == opaque_of(was)[j],
            forall|j: int| i <= j < was.len() ==> pixels@[j] == was[j],
        decreases pixels@.len() - i,
    {
        if i % 4 == 3 {
            pixels.set(i, 0xFF);
        }
        i += 1;
    }
    assert(pixels@ =~= opaque_of(was));
}

/// The head of a bitmap of four bytes for each pixel, the top line first. Sizes that do not fit
/// their bytes keep their lowest ones.
pub open spec fn bitmap_head(w: i32, h: i32, len: nat) -> Seq<u8> {
    seq![0x42u8, 0x4Du8] + codec::le_bytes(54 + len, 4) + codec::le_bytes(0, 4) + codec::le_bytes(
        54,
        4,
    ) + codec::le_bytes(40, 4) + codec::le_bytes(w as nat, 4) + codec::le_bytes(
        (0x1_0000_0000 - h) as nat,
        4,
    ) + codec::le_bytes(1, 2) + codec::le_bytes(32, 2) + codec::le_bytes(0, 4) + codec::le_bytes(
        len,
        4,
    ) + codec::le_bytes(0, 16)
}

/// Makes a bitmap of the pixels of a part of the screen, see [`bitmap_head`].
pub fn bitmap(w: i32, h: i32, pixels: Vec<u8>) -> (r: Result<Vec<u8>, String>)
    ensures
        text::outcome(r) == (if w <= 0 || h <= 0 {
            Err("尺寸非法"@)
        } else {
            Ok(bitmap_head(w, h, pixels@.len()) + opaque_of(pixels@))
        }),
{
    if w <= 0 || h <= 0 {
        return Err(text::owned("尺寸非法"));
    }
    let len: u128 = pixels.len() as u128;
    let mut out: Vec<u8> = Vec::new();
    out.push(0x42);
    out.push(0x4D);
    codec::push_le(&mut out, 54 + len, 4);
    codec::push_le(&mut out, 0, 4);
    codec::push_le(&mut out, 54, 4);
    codec::push_le(&mut out, 40, 4);
    codec::push_le(&mut out, w as u128, 4);
    codec::push_le(&mut out, (0x1_0000_0000i64 - h as i64) as u128, 4);
    codec::push_le(&mut out, 1, 2);
    codec::push_le(&mut out, 32, 2);
    codec::push_le(&mut out, 0, 4);
    codec::push_le(&mut out, len, 4);
    codec::push_le(&mut out, 0, 16);
    assert(out@ =~= bitmap_head(w, h, pixels@.len()));
    let mut body = pixels;
    make_opaque(&mut body);
    out.append(&mut body);
    Ok(out)
}

/// The sizes in a bitmap are right: that of the whole file and that of the pixels, which begin
/// where the head says. This holds of every bitmap that the format has room for.
pub proof fn bitmap_sizes_are_right(w: i32, h: i32, pixels: Seq<u8>)
    requires
        w > 0,
        h > 0,
        54 + pixels.len() < 0x1_0000_0000,
    ensures
        ({
            let b = bitmap_head(w, h, pixels.len()) + opaque_of(pixels);
            &&& codec::le_value(b.subrange(2, 6)) == b.len()
            &&& codec::le_value(b.subrange(10, 14)) == b.len() - pixels.len()
            &&& codec::le_value(b.subrange(18, 22)) == w
            &&& codec::le_value(b.subrange(34, 38)) == pixels.len()
        }),
{
    let n = pixels.len();
    let b = bitmap_head(w, h, n) + opaque_of(pixels);
    codec::le_bytes_read_back(54 + n, 4);
    codec::le_bytes_read_back(54, 4);
    codec::le_bytes_read_back(w as nat, 4);
    codec::le_bytes_read_back(n, 4);
    codec::le_bytes_read_back(0, 4);
    codec::le_bytes_read_back(40, 4);
    codec::le_bytes_read_back((0x1_0000_0000 - h) as nat, 4);
    codec::le_bytes_read_back(1, 2);
    codec::le_bytes_read_back(32, 2);
    codec::le_bytes_read_back(0, 16);
    assert(vstd::arithmetic::power::pow(256, 4) == 0x1_0000_0000) by {
        reveal_with_fuel(vstd::arithmetic::power::pow, 5);
    }
    vstd::arithmetic::div_mod::lemma_small_mod(54 + n, 0x1_0000_0000);
    vstd::arithmetic::div_mod::lemma_small_mod(54, 0x1_0000_0000);
    vstd::arithmetic::div_mod::lemma_small_mod(w as nat, 0x1_0000_0000);
    vstd::arithmetic::div_mod::lemma_small_mod(n, 0x1_0000_0000);
    assert(b.subrange(2, 6) =~= codec::le_bytes(54 + n, 4));
    assert(b.subrange(10, 14) =~= codec::le_bytes(54, 4));
    assert(b.subrange(18, 22) =~= codec::le_bytes(w as nat, 4));
    assert(b.subrange(34, 38) =~= codec::le_bytes(n, 4));
}

/// A display as it was, and where the overlay goes.
#[derive(Debug)]
pub struct Frozen {
    pub bmp: Vec<u8>,
    pub x: i32,
    pub y: i32,
    pub width: u32,
    pub height: u32,
}

/// A display as it was, from a picture. The overlay goes where the display is, with the size of
/// the picture; to the corner where nothing is known of displays.
pub fn freeze_shot(at: Option<MonitorRect>, shot: Shot) -> (r: Result<Frozen, String>)
    requires
        shot.is_whole(),
    ensures
        match picture::written_bmp(shot.width, shot.height, shot.rgba@) {
            Ok(b) => r is Ok && r->Ok_0.bmp@ == b && r->Ok_0.width == shot.width && r->Ok_0.height
                == shot.height && (r->Ok_0.x, r->Ok_0.y) == (match at {
                Some(m) => (m.x, m.y),
                None => (0i32, 0i32),
            }),
            Err(e) => r is Err && r->Err_0@ == "BMP 编码失败: "@ + e,
        },
{
    let (x, y) = match at {
        Some(m) => (m.x, m.y),
        None => (0i32, 0i32),
    };
    match picture::rgba_to_bmp(shot.width, shot.height, shot.rgba.as_slice()) {
        Ok(bmp) => Ok(Frozen { bmp, x, y, width: shot.width, height: shot.height }),
        Err(e) => Err(e),
    }
}

/// A display as it was, from its pixels in the order blue, green, red. `None` where there are no
/// such pixels: a picture takes their place.
pub fn freeze_pixels(at: MonitorRect, pixels: Option<Vec<u8>>) -> (r: Option<Frozen>)
    ensures
        match pixels {
            None => r is None,
            Some(p) => if at.width > i32::MAX || at.height > i32::MAX || at.width == 0 || at.height
                == 0 {
                r is None
            } else {
                r is Some && r->0.bmp@ == bitmap_head(
                    at.width as i32,
                    at.height as i32,
                    p@.len(),
                ) + opaque_of(p@) && r->0.x == at.x && r->0.y == at.y && r->0.width == at.width
                    && r->0.height == at.height
            },
        },
{
    match pixels {
        None => None,
        Some(p) => {
            if at.width > i32::MAX as u32 || at.height > i32::MAX as u32 {
                return None;
            }
            match bitmap(at.width as i32, at.height as i32, p) {
                Ok(bmp) => Some(
                    Frozen { bmp, x: at.x, y: at.y, width: at.width, height: at.height },
                ),
                Err(_) => None,
            }
        },
    }
}

// ---------------------------------------------------------------------------
// The host's own screenshots
// ---------------------------------------------------------------------------

/// The key for screenshots, by its number.
#[derive(Debug)]
pub struct ScreenshotState {
    pub shortcut: Option<u32>,
}

impl ScreenshotState {
    pub fn new() -> (r: Self)
        ensures
            r.shortcut is None,
    {
        ScreenshotState { shortcut: None }
    }

    /// Makes room for a key. The answer is the old one, where it is another and has to be given
    /// back.
    pub fn release_for(&mut self, id: u32) -> (r: Option<u32>)
        ensures
            r == given_back(old(self).shortcut, id),
            final(self).shortcut is None,
            r == (match old(self).shortcut {
                Some(was) => if was != id {
                    Some(was)
                } else {
                    None
                },
                None => None,
            }),
    {
        let was = self.shortcut;
        self.shortcut = None;
        match was {
            Some(k) => if k != id {
                Some(k)
            } else {
                None
            },
            None => None,
        }
    }

    /// Takes in whether the system gave the key.
    pub fn bind(&mut self, id: u32, given: Result<(), String>) -> (r: Result<(), String>)
        ensures
            text::message_of(r) == (match given {
                Ok(_) => None,
                Err(e) => Some("注册截图热键失败（可能被占用）："@ + e@),
            }),
            final(self).shortcut == (if r is Ok {
                Some(id)
            } else {
                old(self).shortcut
            }),
    {
        match given {
            Ok(_) => {
                self.shortcut = Some(id);
                Ok(())
            },
            Err(e) => Err(text::owned("注册截图热键失败（可能被占用）：").concat(e.as_str())),
        }
    }
}

/// Whether a key is the one for screenshots.
pub fn is_screenshot_hotkey(state: &ScreenshotState, id: u32) -> (r: bool)
    ensures
        r == (state.shortcut == Some(id)),
{
    match state.shortcut {
        Some(k) => k == id,
        None => false,
    }
}

/// What is told of a key that cannot be read.
pub fn invalid_hotkey(accel: &str) -> (r: String)
    ensures
        r@ == "无效快捷键："@ + accel@,
{
    text::owned("无效快捷键：").concat(accel)
}

/// A picture that the user made in the overlay, and what is to be done with it.
#[derive(Debug)]
pub struct NativeResult {
    pub action: String,
    pub shot: Shot,
}

/// What is to be done with a picture.
#[derive(Debug)]
pub enum ShotPlan {
    Save { name: String, png: Vec<u8> },
    Pin { png: Vec<u8> },
    Ocr { png: Vec<u8> },
    Copy { shot: Shot },
}

/// A picture as PNG.
pub open spec fn shot_png(shot: Shot) -> Result<Seq<u8>, Seq<char>> {
    picture::png_bytes(
        shot.width,
        shot.height,
        shot.rgba@,
        picture::written_as(
            picture::rgba_raster(shot.width, shot.height, shot.rgba@),
            picture::PictureFormat::Png,
        ),
    )
}

/// Plans what is done with a picture; what is not known is copied. `millis` is the time.
pub fn plan_shot(made: NativeResult, millis: u64) -> (r: Result<ShotPlan, String>)
    requires
        made.shot.is_whole(),
    ensures
        ({
            let png = shot_png(made.shot);
            let a = made.action@;
            if a == "save"@ || a == "pin"@ || a == "ocr"@ {
                match png {
                    Err(e) => r is Err && r->Err_0@ == e,
                    Ok(b) => r is Ok && match r->Ok_0 {
                        ShotPlan::Save { name, png } => a == "save"@ && png@ == b && name@
                            == "Shot_"@ + text::decimal_text(millis as nat) + ".png"@,
                        ShotPlan::Pin { png } => a == "pin"@ && png@ == b,
                        ShotPlan::Ocr { png } => a == "ocr"@ && png@ == b,
                        ShotPlan::Copy { shot } => false,
                    },
                }
            } else {
                r == Ok::<ShotPlan, String>(ShotPlan::Copy { shot: made.shot })
            }
        }),
{
    proof {
        reveal_strlit("save");
        reveal_strlit("pin");
        reveal_strlit("ocr");
        assert("save"@.len() == 4);
        assert("pin"@[0] == 'p');
        assert("ocr"@[0] == 'o');
    }
    let a = text::chars_of(made.action.as_str());
    let save = text::same(a.as_slice(), "save");
    let pin = text::same(a.as_slice(), "pin");
    let ocr = text::same(a.as_slice(), "ocr");
    if !save && !pin && !ocr {
        return Ok(ShotPlan::Copy { shot: made.shot });
    }
    let png = match picture::rgba_to_png(made.shot.width, made.shot.height, made.shot.rgba) {
        Ok(b) => b,
        Err(e) => {
            return Err(e);
        },
    };
    if save {
        let time = text::decimal(millis);
        let name = text::owned("Shot_").concat(time.as_str()).concat(".png");
        Ok(ShotPlan::Save { name, png })
    } else if pin {
        Ok(ShotPlan::Pin { png })
    } else {
        Ok(ShotPlan::Ocr { png })
    }
}

/// Whether a text that was read off a picture goes to the clipboard.
pub fn keeps_text(found: &str) -> (r: bool)
    ensures
        r == (text::trimmed(found@).len() > 0),
{
    !text::is_blank(found)
}

// ---------------------------------------------------------------------------
// Parts of the screen
// ---------------------------------------------------------------------------

/// What the overlay sends back.
#[derive(Clone, Debug)]
pub struct RegionResult {
    pub b64: String,
    pub action: String,
}

/// The answer to a page that takes a part of the screen.
#[derive(Debug)]
pub struct RegionOut {
    pub action: String,
    pub b64: String,
}

impl View for RegionOut {
    type V = (Seq<char>, Seq<char>);

    open spec fn view(&self) -> (Seq<char>, Seq<char>) {
        (self.action@, self.b64@)
    }
}

/// The answer to a page, from what the overlay sends back. A picture of eight bytes or fewer is
/// none.
pub fn region_answer(result: Option<RegionResult>) -> (r: Result<RegionOut, String>)
    ensures
        text::outcome(r) == region_reply(
            match result {
                Some(x) => Some((x.action@, x.b64@)),
                None => None,
            },
        ),
        text::outcome(r) == (match result {
            Some(x) => if encode_utf8(x.b64@).len() > 8 {
                Ok((x.action@, x.b64@))
            } else {
                Err(CANCELLED@)
            },
            None => Err(CANCELLED@),
        }),
{
    match result {
        Some(x) => {
            if x.b64.as_str().as_bytes().len() > 8 {
                Ok(RegionOut { action: x.action, b64: x.b64 })
            } else {
                Err(text::owned(CANCELLED))
            }
        },
        None => Err(text::owned(CANCELLED)),
    }
}

/// The answer to a page, from what the system's own overlay gave.
pub fn native_answer(made: Option<NativeResult>) -> (r: Result<RegionOut, String>)
    requires
        made is Some ==> made->0.shot.is_whole(),
    ensures
        text::outcome(r) == (match made {
            None => Err(CANCELLED@),
            Some(m) => match full_text(m.shot.width, m.shot.height, m.shot.rgba@) {
                Ok(b64) => Ok((m.action@, b64)),
                Err(e) => Err(e),
            },
        }),
{
    match made {
        None => Err(text::owned(CANCELLED)),
        Some(m) => match full_answer(m.shot) {
            Ok(b64) => Ok(RegionOut { action: m.action, b64 }),
            Err(e) => Err(e),
        },
    }
}

/// The taking of a part of the screen; one at a time.
#[derive(Debug)]
pub struct CaptureFlow {
    frozen: Option<Vec<u8>>,
    waiting: bool,
    busy: bool,
    bust: u64,
}

/// The view of [`CaptureFlow`].
#[verifier::ext_equal]
pub struct FlowView {
    /// The picture that the overlay shows.
    pub frozen: Option<Seq<u8>>,
    /// Whether the overlay has not sent anything back.
    pub waiting: bool,
    pub busy: bool,
    /// The number of the next picture.
    pub bust: u64,
}

impl View for CaptureFlow {
    type V = FlowView;

    closed spec fn view(&self) -> FlowView {
        FlowView {
            frozen: text::opt_view(self.frozen),
            waiting: self.waiting,
            busy: self.busy,
            bust: self.bust,
        }
    }
}

impl CaptureFlow {
    pub fn new() -> (r: Self)
        ensures
            r@ == (FlowView { frozen: None, waiting: false, busy: false, bust: 0 }),
    {
        CaptureFlow { frozen: None, waiting: false, busy: false, bust: 0 }
    }

    /// Begins, unless another is under way.
    pub fn begin(&mut self) -> (r: Result<(), String>)
        ensures
            text::message_of(r) == (if old(self)@.busy {
                Some("截图正在进行中"@)
            } else {
                None
            }),
            final(self)@ == (FlowView { busy: true, ..old(self)@ }),
    {
        if self.busy {
            return Err(text::owned("截图正在进行中"));
        }
        self.busy = true;
        Ok(())
    }

    /// Takes in the picture that the overlay shows. The answer is the number by which the
    /// overlay knows it from the one before.
    pub fn freeze(&mut self, bmp: Vec<u8>) -> (r: u64)
        ensures
            final(self)@ == frozen_flow(old(self)@, bmp@),
            r == old(self)@.bust,
            final(self)@ == (FlowView {
                frozen: Some(bmp@),
                waiting: true,
                busy: old(self)@.busy,
                bust: (if old(self)@.bust == u64::MAX {
                    0
                } else {
                    (old(self)@.bust + 1) as u64
                }),
            }),
    {
        let number: u64 = self.bust;
        self.frozen = Some(bmp);
        self.waiting = true;
        self.bust = if number == u64::MAX {
            0
        } else {
            number + 1
        };
        number
    }

    /// The picture that the overlay shows.
    pub fn frozen_png(&self) -> (r: Option<Vec<u8>>)
        ensures
            text::opt_view(r) == self@.frozen,
    {
        match &self.frozen {
            Some(b) => {
                let mut out: Vec<u8> = Vec::new();
                out.extend_from_slice(b.as_slice());
                assert(out@ =~= b@);
                Some(out)
            },
            None => None,
        }
    }

    /// Whether the overlay is still to send something back.
    pub fn is_waiting(&self) -> (r: bool)
        ensures
            r == self@.waiting,
    {
        self.waiting
    }

    /// Takes note that the overlay sent something back, or went away. The answer says whether
    /// anyone waited for it: only the first time counts.
    pub fn report(&mut self) -> (r: bool)
        ensures
            r == old(self)@.waiting,
            final(self)@ == (FlowView { waiting: false, ..old(self)@ }),
    {
        let was = self.waiting;
        self.waiting = false;
        was
    }

    /// Ends, however it went.
    pub fn finish(&mut self)
        ensures
            final(self)@ == (FlowView {
                frozen: None,
                waiting: false,
                busy: false,
                bust: old(self)@.bust,
            }),
    {
        self.frozen = None;
        self.waiting = false;
        self.busy = false;
    }
}

/// The script that begins anew in an overlay that is there.
pub fn overlay_script(full: bool, bust: u64) -> (r: String)
    ensures
        r@ == "window.__begin && window.__begin("@ + (if full {
            "true"@
        } else {
            "false"@
        }) + ", "@ + text::decimal_text(bust as nat) + ")"@,
{
    let number = text::decimal(bust);
    let word = if full {
        "true"
    } else {
        "false"
    };
    text::owned("window.__begin && window.__begin(").concat(word).concat(", ").concat(
        number.as_str(),
    ).concat(")")
}

/// The address of the overlay's page.
pub fn overlay_url(full: bool, bust: u64) -> (r: String)
    ensures
        r@ == "itoverlay://localhost/overlay.html?full="@ + (if full {
            "1"@
        } else {
            "0"@
        }) + "&b="@ + text::decimal_text(bust as nat),
{
    let number = text::decimal(bust);
    let mark = if full {
        "1"
    } else {
        "0"
    };
    text::owned("itoverlay://localhost/overlay.html?full=").concat(mark).concat("&b=").concat(
        number.as_str(),
    )
}

/// The main display is the first that says so, and the first of all where none does.
pub proof fn first_marks_are_found(marks: Seq<bool>, k: int)
    requires
        0 <= k <= marks.len(),
        forall|j: int| 0 <= j < k ==> !#[trigger] marks[j],
        k < marks.len() ==> marks[k],
    ensures
        first_marked(marks) == k,
    decreases marks.len(),
{
    if k > 0 {
        assert(!marks[0]);
        let t = marks.skip(1);
        assert forall|j: int| 0 <= j < k - 1 implies !#[trigger] t[j] by {
            assert(t[j] == marks[j + 1]);
        }
        first_marks_are_found(t, k - 1);
    }
}

/// A picture that gets narrower keeps its proportions, to less than a line, and never loses all
/// its lines.
pub proof fn narrowed_pictures_keep_their_proportions(width: u32, height: u32, max_w: u32)
    requires
        width > 0,
    ensures
        ({
            let h = narrowed_height(width, height, max_w);
            &&& h >= 1
            &&& height * max_w < (h + 1) * width
            &&& h > 1 ==> h * width <= height * max_w
            &&& max_w <= width && height > 0 ==> h <= height
        }),
{
    let a = height * max_w;
    let w = width as int;
    let q = a / w;
    assert(a >= 0) by (nonlinear_arith)
        requires
            a == height * max_w,
    ;
    assert(q * w <= a < (q + 1) * w && q >= 0) by (nonlinear_arith)
        requires
            q == a / w,
            w > 0,
            a >= 0,
    ;
    let h = narrowed_height(width, height, max_w);
    assert((q + 1) * w <= (h + 1) * w) by (nonlinear_arith)
        requires
            q <= h,
            w > 0,
    ;
    if max_w <= width && height > 0 {
        assert(q <= height) by (nonlinear_arith)
            requires
                q * w <= a,
                a == height * max_w,
                max_w <= w,
                w > 0,
                height >= 0,
        ;
    }
}

/// Every pixel of a bitmap is the one that was given, in the same place, and opaque; and the
/// head says so: no compression, four bytes for each pixel, and lines from the top down.
pub proof fn bitmaps_hold_the_pixels(w: i32, h: i32, pixels: Seq<u8>, k: int)
    requires
        w > 0,
        h > 0,
        0 <= k,
        4 * k + 3 < pixels.len(),
    ensures
        ({
            let b = bitmap_head(w, h, pixels.len()) + opaque_of(pixels);
            &&& b[0] == 0x42 && b[1] == 0x4D
            &&& b.len() == 54 + pixels.len()
            &&& codec::le_value(b.subrange(14, 18)) == 40
            &&& codec::le_value(b.subrange(22, 26)) == 0x1_0000_0000 - h
            &&& codec::le_value(b.subrange(26, 28)) == 1
            &&& codec::le_value(b.subrange(28, 30)) == 32
            &&& codec::le_value(b.subrange(30, 34)) == 0
            &&& b[54 + 4 * k] == pixels[4 * k]
            &&& b[54 + 4 * k + 1] == pixels[4 * k + 1]
            &&& b[54 + 4 * k + 2] == pixels[4 * k + 2]
            &&& b[54 + 4 * k + 3] == 255
        }),
{
    let n = pixels.len();
    let b = bitmap_head(w, h, n) + opaque_of(pixels);
    let down = (0x1_0000_0000 - h) as nat;
    assert(vstd::arithmetic::power::pow(256, 4) == 0x1_0000_0000) by {
        reveal_with_fuel(vstd::arithmetic::power::pow, 5);
    }
    assert(vstd::arithmetic::power::pow(256, 2) == 0x1_0000) by {
        reveal_with_fuel(vstd::arithmetic::power::pow, 3);
    }
    codec::le_bytes_read_back(54 + n, 4);
    codec::le_bytes_read_back(0, 4);
    codec::le_bytes_read_back(54, 4);
    codec::le_bytes_read_back(40, 4);
    codec::le_bytes_read_back(w as nat, 4);
    codec::le_bytes_read_back(down, 4);
    codec::le_bytes_read_back(1, 2);
    codec::le_bytes_read_back(32, 2);
    codec::le_bytes_read_back(n, 4);
    codec::le_bytes_read_back(0, 16);
    vstd::arithmetic::div_mod::lemma_small_mod(down, 0x1_0000_0000);
    assert(b.subrange(14, 18) =~= codec::le_bytes(40, 4));
    assert(b.subrange(22, 26) =~= codec::le_bytes(down, 4));
    assert(b.subrange(26, 28) =~= codec::le_bytes(1, 2));
    assert(b.subrange(28, 30) =~= codec::le_bytes(32, 2));
    assert(b.subrange(30, 34) =~= codec::le_bytes(0, 4));
}

/// The answer to a page, from the action and the picture that the overlay sends back.
pub open spec fn region_reply(sent: Option<(Seq<char>, Seq<char>)>) -> Result<
    (Seq<char>, Seq<char>),
    Seq<char>,
> {
    match sent {
        Some((action, b64)) => if encode_utf8(b64).len() > 8 {
            Ok((action, b64))
        } else {
            Err(CANCELLED@)
        },
        None => Err(CANCELLED@),
    }
}

/// What the overlay sends back is handed on as it is, unless there is no picture: a text of
/// eight bytes or fewer is none.
pub proof fn pictures_of_the_overlay_are_handed_on(action: Seq<char>, b64: Seq<char>)
    ensures
        encode_utf8(b64).len() >= 9 ==> region_reply(Some((action, b64))) == Ok::<
            (Seq<char>, Seq<char>),
            Seq<char>,
        >((action, b64)),
        encode_utf8(b64).len() <= 8 ==> region_reply(Some((action, b64))) == Err::<
            (Seq<char>, Seq<char>),
            Seq<char>,
        >("__cancelled__"@),
        region_reply(None) == Err::<(Seq<char>, Seq<char>), Seq<char>>("__cancelled__"@),
{
}

/// The state with a picture that the overlay shows.
pub open spec fn frozen_flow(f: FlowView, bmp: Seq<u8>) -> FlowView {
    FlowView {
        frozen: Some(bmp),
        waiting: true,
        bust: if f.bust == u64::MAX {
            0
        } else {
            (f.bust + 1) as u64
        },
        ..f
    }
}

/// The overlay shows the picture that was taken last, under another number than the one before,
/// and waits; whether pictures are being taken does not change.
pub proof fn pictures_are_numbered_anew(f: FlowView, one: Seq<u8>, other: Seq<u8>)
    ensures
        ({
            let a = frozen_flow(f, one);
            let b = frozen_flow(a, other);
            &&& a.frozen == Some(one)
            &&& b.frozen == Some(other)
            &&& a.waiting && b.waiting
            &&& a.busy == f.busy && b.busy == f.busy
            &&& a.bust != f.bust
            &&& b.bust != a.bust
            &&& b.bust != f.bust
            &&& f.bust < u64::MAX ==> a.bust == f.bust + 1
        }),
{
}

/// The key that is given back for a new one.
pub open spec fn given_back(was: Option<u32>, id: u32) -> Option<u32> {
    match was {
        Some(k) => if k == id {
            None
        } else {
            Some(k)
        },
        None => None,
    }
}

/// A key is given back just where another one takes its place.
pub proof fn replaced_keys_are_given_back(was: u32, id: u32)
    ensures
        was != id ==> given_back(Some(was), id) == Some(was),
        given_back(Some(id), id) is None,
        given_back(None, id) is None,
{
}

} // verus!
