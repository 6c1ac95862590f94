//! Cameras: what they offer, single pictures, and streams of pictures.

use crate::codec;
use crate::indicator;
use crate::order;
use crate::picture;
use crate::session::ActiveSession;
use crate::table::Table;
use crate::text;
use vstd::prelude::*;

verus! {

/// The permission for using a camera.
pub const CAMERA_PERM: &'static str = "camera";

/// The event with a picture of a stream.
pub const EVT_FRAME: &'static str = "plugin-camera-frame";

/// The event that a stream broke off.
pub const EVT_STREAM_STOPPED: &'static str = "plugin-camera-stream-stopped";

/// The most pictures a second that a stream sends.
pub const MAX_STREAM_FPS: u32 = 15;

/// The pictures a second where nothing is asked for.
pub const DEFAULT_STREAM_FPS: u32 = 10;

/// The seconds in which a stream has to start.
pub const OPEN_TIMEOUT_SECS: u64 = 8;

/// The answer where there are no cameras to be had.
pub const ONLY_ON_WINDOWS: &'static str = "摄像头能力仅支持 Windows";

/// What a camera offers.
#[derive(Clone, Copy, PartialEq, Eq, Debug)]
pub struct CameraFormat {
    pub width: u32,
    pub height: u32,
    /// Pictures a second, rounded; unknown where the camera does not say.
    pub fps: Option<u32>,
}

/// A camera.
#[derive(Debug)]
pub struct CameraDevice {
    pub device_id: String,
    pub name: String,
    pub formats: Vec<CameraFormat>,
}

/// What is asked for of a single picture.
#[derive(Debug)]
pub struct GrabOptions {
    pub width: Option<u32>,
    pub height: Option<u32>,
    /// `jpeg`, `jpg`, or else a PNG image.
    pub format: Option<String>,
    /// From 1 to 100, for a JPEG image.
    pub quality: Option<u8>,
}

impl Default for GrabOptions {
    fn default() -> (r: Self)
        ensures
            r.width is None,
            r.height is None,
            r.format is None,
            r.quality is None,
    {
        GrabOptions { width: None, height: None, format: None, quality: None }
    }
}

/// What is asked for of a stream.
#[derive(Debug)]
pub struct StreamOptions {
    pub width: Option<u32>,
    pub height: Option<u32>,
    pub fps: Option<u32>,
    /// From 1 to 100.
    pub quality: Option<u8>,
}

impl Default for StreamOptions {
    fn default() -> (r: Self)
        ensures
            r.width is None,
            r.height is None,
            r.fps is None,
            r.quality is None,
    {
        StreamOptions { width: None, height: None, fps: None, quality: None }
    }
}

/// Checks that a plugin may use a camera.
pub fn check_camera(granted: bool) -> (r: Result<(), String>)
    ensures
        text::message_of(r) == (if granted {
            None
        } else {
            Some("插件未获授权使用摄像头（请在「插件管理」里授权 camera）"@)
        }),
{
    if granted {
        Ok(())
    } else {
        Err(text::owned("插件未获授权使用摄像头（请在「插件管理」里授权 camera）"))
    }
}

/// Checks that a camera is named.
pub fn check_device(device_id: &str) -> (r: Result<(), String>)
    ensures
        text::message_of(r) == (if text::trimmed(device_id@).len() == 0 {
            Some("deviceId 不能为空"@)
        } else {
            None
        }),
{
    if text::is_blank(device_id) {
        Err(text::owned("deviceId 不能为空"))
    } else {
        Ok(())
    }
}

/// A setting within limits.
pub open spec fn clamped(v: int, low: int, high: int) -> int {
    if v < low {
        low
    } else if v > high {
        high
    } else {
        v
    }
}

/// The quality of a JPEG image.
pub fn quality_or(quality: Option<u8>, default: u8) -> (r: u8)
    ensures
        r == clamped(
            (match quality {
                Some(q) => q,
                None => default,
            }) as int,
            1,
            100,
        ),
        1 <= r <= 100,
        quality is Some && 1 <= quality->0 <= 100 ==> r == quality->0,
        quality is Some && quality->0 > 100 ==> r == 100,
{
    let q: u8 = match quality {
        Some(q) => q,
        None => default,
    };
    if q < 1 {
        1
    } else if q > 100 {
        100
    } else {
        q
    }
}

/// The pictures a second of a stream.
pub fn stream_fps(fps: Option<u32>) -> (r: u32)
    ensures
        r == clamped(
            (match fps {
                Some(f) => f,
                None => DEFAULT_STREAM_FPS,
            }) as int,
            1,
            MAX_STREAM_FPS as int,
        ),
        1 <= r <= 15,
        fps is None ==> r == 10,
        fps is Some && 1 <= fps->0 <= 15 ==> r == fps->0,
        fps is Some && fps->0 > 15 ==> r == 15,
{
    let f: u32 = match fps {
        Some(f) => f,
        None => DEFAULT_STREAM_FPS,
    };
    if f < 1 {
        1
    } else if f > MAX_STREAM_FPS {
        MAX_STREAM_FPS
    } else {
        f
    }
}

// ---------------------------------------------------------------------------
// What cameras offer
// ---------------------------------------------------------------------------

/// Two numbers in one, the first in the upper half.
pub open spec fn packed(hi: u32, lo: u32) -> u64 {
    (hi * 0x1_0000_0000 + lo) as u64
}

/// Packs two numbers, see [`packed`].
pub fn pack_u64(hi: u32, lo: u32) -> (r: u64)
    ensures
        r == packed(hi, lo),
{
    hi as u64 * 0x1_0000_0000 + lo as u64
}

/// The two numbers in one.
pub open spec fn unpacked(v: u64) -> (u32, u32) {
    ((v / 0x1_0000_0000) as u32, (v % 0x1_0000_0000) as u32)
}

/// Takes two numbers out of one, see [`unpacked`].
pub fn unpack_u64(v: u64) -> (r: (u32, u32))
    ensures
        r == unpacked(v),
{
    ((v / 0x1_0000_0000) as u32, (v % 0x1_0000_0000) as u32)
}

/// Packed numbers can be taken out again, and the other way round.
pub proof fn packing_is_undone(hi: u32, lo: u32, v: u64)
    ensures
        unpacked(packed(hi, lo)) == (hi, lo),
        packed(unpacked(v).0, unpacked(v).1) == v,
{
}

/// The pictures a second that a packed fraction stands for, rounded half up; `None` for none.
pub open spec fn rate_of(rate: Option<u64>) -> Option<u32> {
    match rate {
        None => None,
        Some(v) => {
            let num = unpacked(v).0 as int;
            let den = unpacked(v).1 as int;
            if den == 0 {
                None
            } else if (2 * num + den) / (2 * den) > 0 {
                Some(((2 * num + den) / (2 * den)) as u32)
            } else {
                None
            }
        },
    }
}

/// The pictures a second, see [`rate_of`].
pub fn round_rate(rate: Option<u64>) -> (r: Option<u32>)
    ensures
        r == rate_of(rate),
{
    match rate {
        None => None,
        Some(v) => {
            let (num, den) = unpack_u64(v);
            if den == 0 {
                return None;
            }
            let up: u64 = 2 * num as u64 + den as u64;
            let f: u64 = up / (2 * den as u64);
            assert(f <= num + 1) by (nonlinear_arith)
                requires
                    f == (2 * num + den) / (2 * den as int),
                    den >= 1,
            ;
            assert(f <= 0xFFFF_FFFF) by (nonlinear_arith)
                requires
                    f == (2 * num + den) / (2 * den as int),
                    den >= 1,
                    num <= 0xFFFF_FFFF,
            ;
            if f > 0 {
                Some(f as u32)
            } else {
                None
            }
        },
    }
}

/// A format as the system gives it: the packed size and the packed rate, where it has them.
#[derive(Clone, Copy, Debug)]
pub struct NativeType {
    pub size: Option<u64>,
    pub rate: Option<u64>,
}

/// The most formats that are looked at.
pub const MAX_FORMATS: usize = 64;

/// The format of a type; `None` where it has no size.
pub open spec fn format_of(t: NativeType) -> Option<CameraFormat> {
    match t.size {
        None => None,
        Some(v) => if unpacked(v).0 > 0 && unpacked(v).1 > 0 {
            Some(
                CameraFormat {
                    width: unpacked(v).0,
                    height: unpacked(v).1,
                    fps: rate_of(t.rate),
                },
            )
        } else {
            None
        },
    }
}

/// The formats of types, each once.
pub open spec fn formats_of(types: Seq<NativeType>) -> Seq<CameraFormat>
    decreases types.len(),
{
    if types.len() == 0 {
        Seq::empty()
    } else {
        let before = formats_of(types.drop_last());
        match format_of(types.last()) {
            Some(f) => if before.contains(f) {
                before
            } else {
                before.push(f)
            },
            None => before,
        }
    }
}

/// The types that are looked at.
pub open spec fn looked_at(types: Seq<NativeType>) -> Seq<NativeType> {
    if types.len() > MAX_FORMATS {
        types.take(MAX_FORMATS as int)
    } else {
        types
    }
}

fn has_format(v: &Vec<CameraFormat>, f: CameraFormat) -> (r: bool)
    ensures
        r == v@.contains(f),
{
    let mut i: usize = 0;
    while i < v.len()
        invariant
            i <= v@.len(),
            forall|j: int| 0 <= j < i ==> v@[j] != f,
        decreases v@.len() - i,
    {
        let same_fps = match (v[i].fps, f.fps) {
            (Some(a), Some(b)) => a == b,
            (None, None) => true,
            _ => false,
        };
        if v[i].width == f.width && v[i].height == f.height && same_fps {
            assert(v@[i as int] == f);
            return true;
        }
        i += 1;
    }
    false
}

/// The formats that a camera offers, see [`formats_of`]; types beyond the first
/// [`MAX_FORMATS`] are not looked at.
pub fn native_formats(types: &Vec<NativeType>) -> (r: Vec<CameraFormat>)
    ensures
        r@ == formats_of(looked_at(types@)),
{
    let ghost all = looked_at(types@);
    let n: usize = if types.len() > MAX_FORMATS {
        MAX_FORMATS
    } else {
        types.len()
    };
    let mut out: Vec<CameraFormat> = Vec::new();
    let mut i: usize = 0;
    assert(all.take(0) =~= Seq::<NativeType>::empty());
    assert(out@ =~= Seq::<CameraFormat>::empty());
    while i < n
        invariant
            i <= n,
            n == all.len(),
            n <= types@.len(),
            all == looked_at(types@),
            out@ == formats_of(all.take(i as int)),
        decreases n - i,
    {
        assert(all.take(i + 1).drop_last() =~= all.take(i as int));
        assert(all.take(i + 1).last() == types@[i as int]);
        let t = types[i];
        if let Some(v) = t.size {
            let (width, height) = unpack_u64(v);
            if width > 0 && height > 0 {
                let f = CameraFormat { width, height, fps: round_rate(t.rate) };
                if !has_format(&out, f) {
                    out.push(f);
                }
            }
        }
        i += 1;
    }
    assert(all.take(i as int) =~= all);
    out
}

/// A camera as the system gives it.
#[derive(Debug)]
pub struct FoundDevice {
    pub name: Option<String>,
    pub device_id: Option<String>,
    pub types: Vec<NativeType>,
}

/// The view of [`CameraDevice`].
#[verifier::ext_equal]
pub struct DeviceView {
    pub device_id: Seq<char>,
    pub name: Seq<char>,
    pub formats: Seq<CameraFormat>,
}

impl View for CameraDevice {
    type V = DeviceView;

    open spec fn view(&self) -> DeviceView {
        DeviceView { device_id: self.device_id@, name: self.name@, formats: self.formats@ }
    }
}

/// The views of cameras.
pub open spec fn device_views(v: Seq<CameraDevice>) -> Seq<DeviceView> {
    Seq::new(v.len(), |i: int| v[i]@)
}

/// A text, or none at all.
pub open spec fn text_or_empty(s: Option<String>) -> Seq<char> {
    match s {
        Some(t) => t@,
        None => Seq::empty(),
    }
}

/// The cameras that can be used: those with an id.
pub open spec fn devices_of(found: Seq<FoundDevice>) -> Seq<DeviceView>
    decreases found.len(),
{
    if found.len() == 0 {
        Seq::empty()
    } else {
        let before = devices_of(found.drop_last());
        let f = found.last();
        if text_or_empty(f.device_id).len() == 0 {
            before
        } else {
            before.push(
                DeviceView {
                    device_id: text_or_empty(f.device_id),
                    name: text_or_empty(f.name),
                    formats: formats_of(looked_at(f.types@)),
                },
            )
        }
    }
}

fn or_empty(s: &Option<String>) -> (r: String)
    ensures
        r@ == text_or_empty(*s),
{
    match s {
        Some(t) => t.clone(),
        None => {
            proof {
                reveal_strlit("");
            }
            let none = text::owned("");
            assert(none@ =~= Seq::<char>::empty());
            none
        },
    }
}

/// The cameras that can be used, see [`devices_of`].
pub fn list_devices(found: &Vec<FoundDevice>) -> (r: Vec<CameraDevice>)
    ensures
        device_views(r@) == devices_of(found@),
{
    let mut out: Vec<CameraDevice> = Vec::new();
    let mut i: usize = 0;
    assert(found@.take(0) =~= Seq::<FoundDevice>::empty());
    assert(device_views(out@) =~= Seq::<DeviceView>::empty());
    while i < found.len()
        invariant
            i <= found@.len(),
            device_views(out@) == devices_of(found@.take(i as int)),
        decreases found@.len() - i,
    {
        assert(found@.take(i + 1).drop_last() =~= found@.take(i as int));
        let device_id = or_empty(&found[i].device_id);
        if !device_id.as_str().is_empty() {
            let name = or_empty(&found[i].name);
            let formats = native_formats(&found[i].types);
            let ghost before = out@;
            out.push(CameraDevice { device_id, name, formats });
            assert(device_views(out@) =~= device_views(before).push(out@.last()@));
        }
        i += 1;
    }
    assert(found@.take(i as int) =~= found@);
    out
}

/// Where an id stands first among those of the cameras; their number where it does not.
pub open spec fn id_place(ids: Seq<Option<String>>, device_id: Seq<char>) -> nat
    decreases ids.len(),
{
    if ids.len() == 0 {
        0
    } else if ids[0] is Some && (ids[0]->0)@ == device_id {
        0
    } else {
        1 + id_place(ids.skip(1), device_id)
    }
}

/// Finds a camera by its id, see [`id_place`].
pub fn find_device(ids: &Vec<Option<String>>, device_id: &str) -> (r: Result<usize, String>)
    ensures
        match r {
            Ok(i) => i == id_place(ids@, device_id@) && i < ids@.len(),
            Err(e) => id_place(ids@, device_id@) == ids@.len() && e@ == "找不到摄像头设备（deviceId="@
                + device_id@ + "，可能已拔出或被系统重新枚举，试试重新调用摄像头列表）"@,
        },
{
    let mut i: usize = 0;
    assert(ids@.skip(0) =~= ids@);
    while i < ids.len()
        invariant
            i <= ids@.len(),
            id_place(ids@, device_id@) == i + id_place(ids@.skip(i as int), device_id@),
        decreases ids@.len() - i,
    {
        assert(ids@.skip(i as int).skip(1) =~= ids@.skip(i + 1));
        if let Some(id) = &ids[i] {
            if text::str_eq(id.as_str(), device_id) {
                return Ok(i);
            }
        }
        i += 1;
    }
    Err(
        text::owned("找不到摄像头设备（deviceId=").concat(device_id).concat(
            "，可能已拔出或被系统重新枚举，试试重新调用摄像头列表）",
        ),
    )
}

// ---------------------------------------------------------------------------
// Opening a camera
// ---------------------------------------------------------------------------

/// The packed size to ask a camera for; `None` leaves it to the camera.
pub fn asked_size(width: Option<u32>, height: Option<u32>) -> (r: Option<u64>)
    ensures
        r == (match (width, height) {
            (Some(w), Some(h)) => Some(packed(w, h)),
            _ => None,
        }),
{
    match (width, height) {
        (Some(w), Some(h)) => Some(pack_u64(w, h)),
        _ => None,
    }
}

/// The steps of opening a camera.
#[derive(Clone, Copy, Debug)]
pub enum OpenStep {
    Startup,
    Activate,
    Attributes,
    Conversion,
    Reader,
    Format,
}

/// What is told where a step of opening a camera fails.
pub open spec fn open_message(step: OpenStep, e: Seq<char>) -> Seq<char> {
    match step {
        OpenStep::Startup => "初始化 Media Foundation 失败: "@ + e,
        OpenStep::Activate => "打开摄像头失败（可能被其它程序占用）: "@ + e,
        OpenStep::Attributes => "创建读取器属性失败: "@ + e,
        OpenStep::Conversion => "启用视频格式转换失败: "@ + e,
        OpenStep::Reader => "创建视频读取器失败: "@ + e,
        OpenStep::Format => "设置摄像头输出格式失败（该设备可能不支持直采 RGB，或不支持所选分辨率）: "@ + e,
    }
}

/// What a step of opening a camera came to. A size that the camera does not have is a failure
/// like any other: no other size takes its place.
pub fn open_result(step: OpenStep, done: Result<(), String>) -> (r: Result<(), String>)
    ensures
        text::message_of(r) == (match done {
            Ok(_) => None,
            Err(e) => Some(open_message(step, e@)),
        }),
{
    match done {
        Ok(_) => Ok(()),
        Err(e) => {
            let head = match step {
                OpenStep::Startup => "初始化 Media Foundation 失败: ",
                OpenStep::Activate => "打开摄像头失败（可能被其它程序占用）: ",
                OpenStep::Attributes => "创建读取器属性失败: ",
                OpenStep::Conversion => "启用视频格式转换失败: ",
                OpenStep::Reader => "创建视频读取器失败: ",
                OpenStep::Format => "设置摄像头输出格式失败（该设备可能不支持直采 RGB，或不支持所选分辨率）: ",
            };
            Err(text::owned(head).concat(e.as_str()))
        },
    }
}

/// The size of the pictures: the packed one that the camera reports, else the one asked for.
pub open spec fn size_of_pictures(
    reported: Option<u64>,
    width: Option<u32>,
    height: Option<u32>,
) -> (u32, u32) {
    match reported {
        Some(v) => unpacked(v),
        None => (
            match width {
                Some(w) => w,
                None => 0,
            },
            match height {
                Some(h) => h,
                None => 0,
            },
        ),
    }
}

/// The size of the pictures, see [`size_of_pictures`]; there must be one.
pub fn opened_size(reported: Option<u64>, width: Option<u32>, height: Option<u32>) -> (r: Result<
    (u32, u32),
    String,
>)
    ensures
        ({
            let s = size_of_pictures(reported, width, height);
            match r {
                Ok(t) => t == s && s.0 > 0 && s.1 > 0,
                Err(e) => (s.0 == 0 || s.1 == 0) && e@ == "无法确定摄像头输出分辨率"@,
            }
        }),
{
    let (w, h) = match reported {
        Some(v) => unpack_u64(v),
        None => (
            match width {
                Some(w) => w,
                None => 0,
            },
            match height {
                Some(h) => h,
                None => 0,
            },
        ),
    };
    if w == 0 || h == 0 {
        return Err(text::owned("无法确定摄像头输出分辨率"));
    }
    Ok((w, h))
}

// ---------------------------------------------------------------------------
// Reading pictures
// ---------------------------------------------------------------------------

/// The empty samples in a row after which reading is given up.
pub const EMPTY_SAMPLE_RETRIES: u32 = 60;

/// The milliseconds to wait after an empty sample.
pub const EMPTY_SAMPLE_PAUSE: u64 = 20;

/// What a read from a camera gave.
#[derive(Debug)]
pub enum ReadEvent {
    Failed(String),
    Ended,
    Empty,
    Sample,
}

/// The reads for one picture.
#[derive(Debug)]
pub struct FrameRead {
    empty: u32,
}

impl FrameRead {
    /// The empty samples so far.
    pub closed spec fn empty_samples(&self) -> nat {
        self.empty as nat
    }

    #[verifier::type_invariant]
    spec fn inv(self) -> bool {
        self.empty <= EMPTY_SAMPLE_RETRIES
    }

    pub fn new() -> (r: Self)
        ensures
            r.empty_samples() == 0,
    {
        FrameRead { empty: 0 }
    }

    /// Takes in what a read gave: an answer of true means that there is a sample, one of false
    /// that there has to be another read after a pause. An empty sample is no end; only many of
    /// them in a row are.
    pub fn step(&mut self, event: ReadEvent) -> (r: Result<bool, String>)
        ensures
            text::outcome_of(r) == read_outcome(event, old(self).empty_samples()),
            match event {
                ReadEvent::Failed(e) => r is Err && r->Err_0@ == "读取摄像头帧失败: "@ + e@,
                ReadEvent::Ended => r is Err && r->Err_0@ == "摄像头数据流已结束"@,
                ReadEvent::Sample => r == Ok::<bool, String>(true),
                ReadEvent::Empty => if old(self).empty_samples() + 1 >= EMPTY_SAMPLE_RETRIES {
                    r is Err && r->Err_0@
                        == "摄像头连续 60 次未返回帧数据（设备可能被其它程序独占）"@
                } else {
                    r == Ok::<bool, String>(false)
                },
            },
            final(self).empty_samples() == (if event is Empty && old(self).empty_samples()
                < EMPTY_SAMPLE_RETRIES {
                old(self).empty_samples() + 1
            } else {
                old(self).empty_samples()
            }),
    {
        proof {
            use_type_invariant(&*self);
        }
        match event {
            ReadEvent::Failed(e) => Err(text::owned("读取摄像头帧失败: ").concat(e.as_str())),
            ReadEvent::Ended => Err(text::owned("摄像头数据流已结束")),
            ReadEvent::Sample => Ok(true),
            ReadEvent::Empty => {
                if self.empty < EMPTY_SAMPLE_RETRIES {
                    self.empty = self.empty + 1;
                }
                if self.empty >= EMPTY_SAMPLE_RETRIES {
                    return Err(
                        text::owned("摄像头连续 60 次未返回帧数据（设备可能被其它程序独占）"),
                    );
                }
                Ok(false)
            },
        }
    }
}

/// Pixels of blue, green, red and a spare byte as red, green, blue and full alpha. Bytes that
/// make no whole pixel become zero.
pub open spec fn recoloured(data: Seq<u8>) -> Seq<u8> {
    Seq::new(
        data.len(),
        |i: int|
            if i / 4 * 4 + 4 > data.len() {
                0u8
            } else if i % 4 == 0 {
                data[i + 2]
            } else if i % 4 == 1 {
                data[i]
            } else if i % 4 == 2 {
                data[i - 2]
            } else {
                255u8
            },
    )
}

/// Turns pixels around, see [`recoloured`].
pub fn bgrx_to_rgba(data: &[u8]) -> (r: Vec<u8>)
    ensures
        r@ == recoloured(data@),
{
    let n: usize = data.len();
    let mut out: Vec<u8> = Vec::new();
    let mut i: usize = 0;
    while i < n
        invariant
            i <= n,
            n == data@.len(),
            out@ == recoloured(data@).take(i as int),
        decreases n - i,
    {
        let k: usize = i % 4;
        let whole = n - (i - k) >= 4;
        let b: u8 = if !whole {
            0
        } else if k == 0 {
            data[i + 2]
        } else if k == 1 {
            data[i]
        } else if k == 2 {
            data[i - 2]
        } else {
            255
        };
        out.push(b);
        assert(b == recoloured(data@)[i as int]);
        assert(out@ =~= recoloured(data@).take(i + 1));
        i += 1;
    }
    assert(recoloured(data@).take(i as int) =~= recoloured(data@));
    out
}

/// The pixels of a picture in the bytes that a camera gave. There may be more bytes than it
/// takes, but not fewer.
pub fn frame_pixels(data: &[u8], width: u32, height: u32) -> (r: Result<Vec<u8>, String>)
    requires
        width * height * 4 <= usize::MAX,
    ensures
        text::outcome(r) == pixels_of(data@, width, height),
        text::outcome(r) == (if data@.len() < width * height * 4 {
            Err(
                "帧数据大小异常（期望至少 "@ + text::decimal_text((width * height * 4) as nat)
                    + " 字节，实际 "@ + text::decimal_text(data@.len()) + "）"@,
            )
        } else {
            Ok(recoloured(data@.take(width * height * 4)))
        }),
        r is Ok ==> r->Ok_0@.len() == width * height * 4,
{
    assert(width * height <= usize::MAX) by (nonlinear_arith)
        requires
            width * height * 4 <= usize::MAX,
            width >= 0,
            height >= 0,
    ;
    let need: usize = width as usize * height as usize * 4;
    if data.len() < need {
        let a = text::decimal(need as u64);
        let b = text::decimal(data.len() as u64);
        return Err(
            text::owned("帧数据大小异常（期望至少 ").concat(a.as_str()).concat(
                " 字节，实际 ",
            ).concat(b.as_str()).concat("）"),
        );
    }
    let part = vstd::slice::slice_subrange(data, 0, need);
    assert(part@ =~= data@.take(width * height * 4));
    Ok(bgrx_to_rgba(part))
}

/// Pixels without their alpha.
pub open spec fn opaque_pixels(rgba: Seq<u8>) -> Seq<u8> {
    Seq::new((rgba.len() / 4 * 3) as nat, |i: int| rgba[i / 3 * 4 + i % 3])
}

fn drop_alpha(rgba: &[u8]) -> (r: Vec<u8>)
    ensures
        r@ == opaque_pixels(rgba@),
{
    let n: usize = rgba.len() / 4;
    let ghost all = opaque_pixels(rgba@);
    let mut out: Vec<u8> = Vec::new();
    let mut i: usize = 0;
    while i < n
        invariant
            i <= n,
            n == rgba@.len() / 4,
            4 * n <= usize::MAX,
            all == opaque_pixels(rgba@),
            out@ == all.take(3 * i),
        decreases n - i,
    {
        out.push(rgba[4 * i]);
        out.push(rgba[4 * i + 1]);
        out.push(rgba[4 * i + 2]);
        assert(out@ =~= all.take(3 * (i + 1))) by {
            assert(all[3 * i] == rgba@[4 * i]);
            assert(all[3 * i + 1] == rgba@[4 * i + 1]);
            assert(all[3 * i + 2] == rgba@[4 * i + 2]);
            assert(all.take(3 * (i + 1)) =~= all.take(3 * i).push(all[3 * i]).push(
                all[3 * i + 1],
            ).push(all[3 * i + 2]));
        }
        i += 1;
    }
    assert(all.take(3 * i) =~= all);
    out
}

/// Pixels as a JPEG image, or why they are none.
pub open spec fn jpeg_bytes(width: u32, height: u32, rgba: Seq<u8>, quality: u8) -> Result<
    Seq<u8>,
    Seq<char>,
> {
    match picture::written_rgb_jpeg(width, height, opaque_pixels(rgba), quality) {
        Ok(b) => Ok(b),
        Err(e) => Err("JPEG 编码失败: "@ + e),
    }
}

/// Writes pixels as a JPEG image, see [`jpeg_bytes`]. There must be four bytes for each pixel.
pub fn rgba_to_jpeg(width: u32, height: u32, rgba: &[u8], quality: u8) -> (r: Result<
    Vec<u8>,
    String,
>)
    requires
        rgba@.len() == width * height * 4,
    ensures
        text::outcome(r) == jpeg_bytes(width, height, rgba@, quality),
{
    let rgb = drop_alpha(rgba);
    assert(rgb@.len() == width * height * 3) by (nonlinear_arith)
        requires
            rgb@.len() == rgba@.len() / 4 * 3,
            rgba@.len() == width * height * 4,
    ;
    match picture::write_rgb_jpeg(width, height, rgb.as_slice(), quality) {
        Ok(b) => Ok(b),
        Err(e) => Err(text::owned("JPEG 编码失败: ").concat(e.as_str())),
    }
}

// ---------------------------------------------------------------------------
// A single picture
// ---------------------------------------------------------------------------

/// The reads for a single picture; the last that succeeds counts, because a camera takes a while
/// to get used to the light.
pub const GRAB_READS: usize = 3;

/// The last success, else the last error, else nothing.
pub open spec fn last_good(reads: Seq<Result<Vec<u8>, String>>) -> Option<Result<Seq<u8>, Seq<char>>>
    decreases reads.len(),
{
    if reads.len() == 0 {
        None
    } else {
        match reads.last() {
            Ok(v) => Some(Ok(v@)),
            Err(e) => match last_good(reads.drop_last()) {
                Some(Ok(v)) => Some(Ok(v)),
                _ => Some(Err(e@)),
            },
        }
    }
}

/// The picture among several reads, see [`last_good`].
pub fn pick_frame(reads: Vec<Result<Vec<u8>, String>>) -> (r: Result<Vec<u8>, String>)
    ensures
        text::outcome(r) == (match last_good(reads@) {
            Some(x) => x,
            None => Err("抓拍失败：连续多次读取不到有效帧"@),
        }),
{
    let mut rest = reads;
    let mut error: Option<String> = None;
    proof {
        assert(error is None);
    }
    while rest.len() > 0
        invariant
            match error {
                None => last_good(reads@) == last_good(rest@),
                Some(e) => last_good(reads@) == (match last_good(rest@) {
                    Some(Ok(v)) => Some(Ok(v)),
                    _ => Some(Err(e@)),
                }),
            },
        decreases rest@.len(),
    {
        let ghost before = rest@;
        match rest.pop() {
            Some(Ok(v)) => {
                return Ok(v);
            },
            Some(Err(e)) => {
                assert(rest@ =~= before.drop_last());
                if error.is_none() {
                    error = Some(e);
                }
            },
            None => {},
        }
    }
    match error {
        Some(e) => Err(e),
        None => Err(text::owned("抓拍失败：连续多次读取不到有效帧")),
    }
}

/// Whether a JPEG image is asked for.
pub open spec fn wants_jpeg(format: Option<String>) -> bool {
    match format {
        Some(f) => f@ == "jpeg"@ || f@ == "jpg"@,
        None => false,
    }
}

/// The answer to a grab: the picture in Base64, as JPEG where that is asked for, else as PNG.
pub open spec fn grab_text(width: u32, height: u32, rgba: Seq<u8>, format: Option<String>, quality: int)
    -> Result<Seq<char>, Seq<char>> {
    let file = if wants_jpeg(format) {
        jpeg_bytes(width, height, rgba, quality as u8)
    } else {
        picture::png_bytes(
            width,
            height,
            rgba,
            picture::written_as(
                picture::rgba_raster(width, height, rgba),
                picture::PictureFormat::Png,
            ),
        )
    };
    match file {
        Ok(b) => Ok(codec::base64_text(b)),
        Err(e) => Err(e),
    }
}

/// The answer to a grab, see [`grab_text`]. There must be four bytes for each pixel.
pub fn grab_answer(width: u32, height: u32, rgba: Vec<u8>, opts: &GrabOptions) -> (r: Result<
    String,
    String,
>)
    requires
        rgba@.len() == width * height * 4,
    ensures
        text::outcome(r) == grab_text(
            width,
            height,
            rgba@,
            opts.format,
            clamped(
                (match opts.quality {
                    Some(q) => q,
                    None => 90u8,
                }) as int,
                1,
                100,
            ),
        ),
{
    let jpeg = match &opts.format {
        Some(f) => text::str_eq(f.as_str(), "jpeg") || text::str_eq(f.as_str(), "jpg"),
        None => false,
    };
    let file = if jpeg {
        rgba_to_jpeg(width, height, rgba.as_slice(), quality_or(opts.quality, 90))
    } else {
        picture::rgba_to_png(width, height, rgba)
    };
    match file {
        Ok(b) => Ok(codec::base64_encode(b.as_slice())),
        Err(e) => Err(e),
    }
}

// ---------------------------------------------------------------------------
// Streams
// ---------------------------------------------------------------------------

/// The running streams and whose they are.
#[derive(Debug)]
pub struct CameraStreams {
    owners: Table<ActiveSession>,
}

impl View for CameraStreams {
    type V = Map<Seq<char>, ActiveSession>;

    closed spec fn view(&self) -> Map<Seq<char>, ActiveSession> {
        self.owners@
    }
}

/// What came of waiting for a stream to start.
#[derive(Debug)]
pub enum Opened {
    Running,
    Failed(String),
    Gone,
    Late,
}

/// What is told where a stream did not start.
pub open spec fn start_error(opened: Opened) -> Option<Seq<char>> {
    match opened {
        Opened::Running => None,
        Opened::Failed(e) => Some(e@),
        Opened::Gone => Some("预览流线程提前退出"@),
        Opened::Late => Some("打开摄像头超时"@),
    }
}

/// What is told to a session that wants to stop a stream.
pub open spec fn stop_error(
    m: Map<Seq<char>, ActiveSession>,
    stream_id: Seq<char>,
    by: (Seq<char>, bool),
) -> Option<Seq<char>> {
    if !m.dom().contains(stream_id) {
        Some("该预览流不存在或已结束"@)
    } else if m[stream_id]@ != by {
        Some("该预览流不属于本插件"@)
    } else {
        None
    }
}

impl CameraStreams {
    pub fn new() -> (r: Self)
        ensures
            r@ == Map::<Seq<char>, ActiveSession>::empty(),
    {
        CameraStreams { owners: Table::new() }
    }

    /// Notes a stream, before it has started, so that it can be stopped at any time.
    pub fn add(&mut self, stream_id: String, owner: ActiveSession)
        ensures
            final(self)@ == old(self)@.insert(stream_id@, owner),
    {
        self.owners.insert(stream_id, owner);
    }

    /// Forgets a stream that has ended.
    pub fn remove(&mut self, stream_id: &str)
        ensures
            final(self)@ == old(self)@.remove(stream_id@),
    {
        self.owners.remove(stream_id);
    }

    /// Takes in whether a stream started; one that did not is dropped.
    pub fn started(&mut self, stream_id: &str, opened: Opened) -> (r: Result<(), String>)
        ensures
            text::message_of(r) == start_error(opened),
            final(self)@ == (if r is Ok {
                old(self)@
            } else {
                old(self)@.remove(stream_id@)
            }),
    {
        match opened {
            Opened::Running => Ok(()),
            Opened::Failed(e) => {
                self.owners.remove(stream_id);
                Err(e)
            },
            Opened::Gone => {
                self.owners.remove(stream_id);
                Err(text::owned("预览流线程提前退出"))
            },
            Opened::Late => {
                self.owners.remove(stream_id);
                Err(text::owned("打开摄像头超时"))
            },
        }
    }

    /// Stops a stream of a session; nobody else can.
    pub fn stop(&mut self, stream_id: &str, session: &ActiveSession) -> (r: Result<(), String>)
        ensures
            text::message_of(r) == stop_error(old(self)@, stream_id@, session@),
            final(self)@ == (if r is Ok {
                old(self)@.remove(stream_id@)
            } else {
                old(self)@
            }),
    {
        let own = match self.owners.get(stream_id) {
            None => {
                return Err(text::owned("该预览流不存在或已结束"));
            },
            Some(owner) => owner.same_as(session),
        };
        if !own {
            return Err(text::owned("该预览流不属于本插件"));
        }
        self.owners.remove(stream_id);
        Ok(())
    }
}

/// Whether any stream runs.
pub fn is_active(streams: &CameraStreams) -> (r: bool)
    ensures
        r == exists|id: Seq<char>| streams@.dom().contains(id),
{
    let r = streams.owners.len() > 0;
    if r {
        let row = streams.owners.row(0);
        assert(streams@.dom().contains(row.0@));
    } else {
        proof {
            assert forall|id: Seq<char>| !streams@.dom().contains(id) by {
                if streams@.dom().contains(id) {
                    streams.owners.lemma_rows_cover(id);
                }
            }
        }
    }
    r
}

/// The order of sessions: by id, an installed plugin before one under development.
pub open spec fn before(a: (Seq<char>, bool), b: (Seq<char>, bool)) -> bool {
    order::le(a.0, b.0) && (a.0 != b.0 || (!a.1 && b.1))
}

/// Whether sessions stand in order, none twice.
pub open spec fn in_order(v: Seq<(Seq<char>, bool)>) -> bool {
    forall|i: int, j: int| 0 <= i < j < v.len() ==> before(#[trigger] v[i], #[trigger] v[j])
}

/// Whether a session has a stream.
pub open spec fn uses_camera(m: Map<Seq<char>, ActiveSession>, s: (Seq<char>, bool)) -> bool {
    exists|id: Seq<char>| #[trigger] m.dom().contains(id) && m[id]@ == s
}

fn comes_before(a: &ActiveSession, b: &ActiveSession) -> (r: bool)
    ensures
        r == before(a@, b@),
{
    let x = text::chars_of(a.id.as_str());
    let y = text::chars_of(b.id.as_str());
    if text::eq(x.as_slice(), y.as_slice()) {
        proof {
            order::texts_are_totally_ordered();
            assert(order::text_order()(a@.0, a@.0));
        }
        !a.dev && b.dev
    } else {
        order::at_most(x.as_slice(), y.as_slice())
    }
}

proof fn lemma_before_transitive(a: (Seq<char>, bool), b: (Seq<char>, bool), c: (Seq<char>, bool))
    requires
        before(a, b),
        before(b, c),
    ensures
        before(a, c),
{
    order::texts_are_totally_ordered();
    let o = order::text_order();
    assert(o(a.0, b.0) && o(b.0, c.0));
    assert(o(a.0, c.0));
    if a.0 == c.0 {
        assert(o(b.0, a.0));
        assert(a.0 == b.0);
    }
}

proof fn lemma_before_total(a: (Seq<char>, bool), b: (Seq<char>, bool))
    requires
        a != b,
        !before(a, b),
    ensures
        before(b, a),
{
    order::texts_are_totally_ordered();
    let o = order::text_order();
    assert(o(a.0, b.0) || o(b.0, a.0));
    assert(o(a.0, a.0));
}

/// Puts a session where it belongs among sessions in order, unless it is there.
fn put_in_order(v: &mut Vec<ActiveSession>, s: &ActiveSession)
    requires
        in_order(indicator::session_views(old(v)@)),
    ensures
        in_order(indicator::session_views(final(v)@)),
        forall|t: (Seq<char>, bool)|
            #[trigger] indicator::session_views(final(v)@).contains(t) == (t == s@
                || indicator::session_views(old(v)@).contains(t)),
{
    let ghost was = indicator::session_views(v@);
    if indicator::has_session(v, s) {
        return;
    }
    let mut i: usize = 0;
    while i < v.len() && comes_before(&v[i], s)
        invariant
            i <= v@.len(),
            was == indicator::session_views(v@),
            forall|j: int| 0 <= j < i ==> before(#[trigger] was[j], s@),
        decreases v@.len() - i,
    {
        assert(was[i as int] == v@[i as int]@);
        i += 1;
    }
    proof {
        assert forall|j: int| i <= j < was.len() implies before(s@, #[trigger] was[j]) by {
            assert(was[i as int] == v@[i as int]@);
            assert(was.contains(was[i as int]));
            lemma_before_total(was[i as int], s@);
            if j > i {
                lemma_before_transitive(s@, was[i as int], was[j]);
            }
        }
    }
    v.insert(i, s.clone());
    proof {
        let now = indicator::session_views(v@);
        assert(now =~= was.insert(i as int, s@));
        assert forall|a: int, b: int| 0 <= a < b < now.len() implies before(
            #[trigger] now[a],
            #[trigger] now[b],
        ) by {
            let x = if a < i {
                a
            } else {
                a - 1
            };
            let y = if b < i {
                b
            } else {
                b - 1
            };
            if a != i && b != i {
                assert(now[a] == was[x] && now[b] == was[y]);
            } else if a == i {
                assert(now[b] == was[y]);
            } else {
                assert(now[a] == was[x]);
            }
        }
        assert forall|t: (Seq<char>, bool)|
            #[trigger] now.contains(t) == (t == s@ || was.contains(t)) by {
            if was.contains(t) {
                let k = choose|k: int| 0 <= k < was.len() && was[k] == t;
                let m = if k < i {
                    k
                } else {
                    k + 1
                };
                assert(now[m] == t);
            }
            if t == s@ {
                assert(now[i as int] == t);
            }
            if now.contains(t) && t != s@ {
                let m = choose|m: int| 0 <= m < now.len() && now[m] == t;
                let k = if m < i {
                    m
                } else {
                    m - 1
                };
                assert(was[k] == t);
            }
        }
    }
}

/// Who uses a camera: every session with a stream, once, in order.
pub fn active_sessions(streams: &CameraStreams) -> (r: Vec<ActiveSession>)
    ensures
        in_order(indicator::session_views(r@)),
        forall|s: (Seq<char>, bool)|
            #[trigger] indicator::session_views(r@).contains(s) == uses_camera(streams@, s),
{
    let mut out: Vec<ActiveSession> = Vec::new();
    let mut i: usize = 0;
    while i < streams.owners.len()
        invariant
            i <= streams.owners.rows().len(),
            in_order(indicator::session_views(out@)),
            forall|s: (Seq<char>, bool)|
                #[trigger] indicator::session_views(out@).contains(s) ==> uses_camera(
                    streams@,
                    s,
                ),
            forall|j: int|
                0 <= j < i ==> indicator::session_views(out@).contains(
                    (#[trigger] streams.owners.rows()[j]).1@,
                ),
        decreases streams.owners.rows().len() - i,
    {
        let row = streams.owners.row(i);
        assert(streams@.dom().contains(row.0@));
        assert(uses_camera(streams@, row.1@));
        put_in_order(&mut out, &row.1);
        i += 1;
    }
    streams.owners.rows_are_distinct();
    proof {
        assert forall|s: (Seq<char>, bool)| uses_camera(
            streams@,
            s,
        ) implies #[trigger] indicator::session_views(out@).contains(s) by {
            let id = choose|id: Seq<char>| #[trigger]
                streams@.dom().contains(id) && streams@[id]@ == s;
            streams.owners.lemma_rows_cover(id);
            let j = choose|j: int|
                0 <= j < streams.owners.rows().len() && (#[trigger] streams.owners.rows()[j]).0@
                    == id;
            streams.owners.lemma_row_value(j);
        }
    }
    out
}

/// The streams of a session.
pub open spec fn streams_of(m: Map<Seq<char>, ActiveSession>, s: (Seq<char>, bool)) -> Set<
    Seq<char>,
> {
    Set::new(|id: Seq<char>| m.dom().contains(id) && m[id]@ == s)
}

/// Stops every stream of a session, and of no other; the answer names those streams.
pub fn stop_all_for_session(streams: &mut CameraStreams, session: &ActiveSession) -> (r: Vec<
    String,
>)
    ensures
        text::texts(r@).no_duplicates(),
        text::texts(r@).to_set() == streams_of(old(streams)@, session@),
        final(streams)@ == old(streams)@.remove_keys(streams_of(old(streams)@, session@)),
{
    let ghost m = streams@;
    let ghost rows = streams.owners.rows();
    streams.owners.rows_are_distinct();
    let mut ids: Vec<String> = Vec::new();
    let mut i: usize = 0;
    while i < streams.owners.len()
        invariant
            m == streams@,
            rows == streams.owners.rows(),
            crate::table::distinct(rows),
            i <= rows.len(),
            forall|k: int|
                0 <= k < ids@.len() ==> exists|j: int|
                    0 <= j < i && (#[trigger] rows[j]).0@ == (#[trigger] ids@[k])@ && rows[j].1@
                        == session@,
            forall|j: int|
                0 <= j < i && rows[j].1@ == session@ ==> text::texts(ids@).contains(
                    (#[trigger] rows[j]).0@,
                ),
            text::texts(ids@).no_duplicates(),
        decreases rows.len() - i,
    {
        let row = streams.owners.row(i);
        if row.1.same_as(session) {
            let ghost was = text::texts(ids@);
            ids.push(row.0.clone());
            proof {
                let now = text::texts(ids@);
                assert(now =~= was.push(row.0@));
                assert(rows[i as int].0@ == row.0@);
                assert(!was.contains(row.0@)) by {
                    if was.contains(row.0@) {
                        let k = choose|k: int| 0 <= k < was.len() && was[k] == row.0@;
                        assert(ids@[k]@ == row.0@);
                        let j = choose|j: int|
                            0 <= j < i && (#[trigger] rows[j]).0@ == ids@[k]@ && rows[j].1@
                                == session@;
                        assert(rows[j].0@ != rows[i as int].0@);
                    }
                }
                assert forall|j: int| 0 <= j < i + 1 && rows[j].1@ == session@ implies now.contains(
                    (#[trigger] rows[j]).0@,
                ) by {
                    if j < i {
                        let k = choose|k: int| 0 <= k < was.len() && was[k] == rows[j].0@;
                        assert(now[k] == rows[j].0@);
                    } else {
                        assert(now[was.len() as int] == rows[j].0@);
                    }
                }
            }
        }
        i += 1;
    }
    let ghost names = text::texts(ids@);
    proof {
        assert forall|id: Seq<char>| names.to_set().contains(id) == streams_of(
            m,
            session@,
        ).contains(id) by {
            if names.contains(id) {
                let k = choose|k: int| 0 <= k < names.len() && names[k] == id;
                assert(ids@[k]@ == id);
                let j = choose|j: int|
                    0 <= j < i && (#[trigger] rows[j]).0@ == ids@[k]@ && rows[j].1@ == session@;
                streams.owners.lemma_row_value(j);
            }
            if streams_of(m, session@).contains(id) {
                streams.owners.lemma_rows_cover(id);
                let j = choose|j: int| 0 <= j < rows.len() && (#[trigger] rows[j]).0@ == id;
                streams.owners.lemma_row_value(j);
                assert(names.contains(rows[j].0@));
            }
        }
        assert(names.to_set() =~= streams_of(m, session@));
    }
    let mut k: usize = 0;
    assert(m.remove_keys(names.take(0).to_set()) =~= m);
    while k < ids.len()
        invariant
            k <= ids@.len(),
            names == text::texts(ids@),
            streams@ == m.remove_keys(names.take(k as int).to_set()),
        decreases ids@.len() - k,
    {
        streams.owners.remove(ids[k].as_str());
        proof {
            let a = names.take(k as int);
            let b = names.take(k + 1);
            assert(b =~= a.push(names[k as int]));
            assert forall|id: Seq<char>| b.to_set().contains(id) == (a.to_set().contains(id)
                || id == names[k as int]) by {
                if a.contains(id) {
                    let x = choose|x: int| 0 <= x < a.len() && a[x] == id;
                    assert(b[x] == id);
                }
                assert(b[k as int] == names[k as int]);
            }
            assert(streams@ =~= m.remove_keys(b.to_set()));
        }
        k += 1;
    }
    assert(names.take(k as int) =~= names);
    ids
}

/// After a session's streams are stopped it uses no camera, and every other session keeps its
/// streams.
pub proof fn stopping_is_thorough(
    m: Map<Seq<char>, ActiveSession>,
    s: (Seq<char>, bool),
    other: (Seq<char>, bool),
)
    requires
        other != s,
    ensures
        ({
            let rest = m.remove_keys(streams_of(m, s));
            &&& !uses_camera(rest, s)
            &&& uses_camera(rest, other) == uses_camera(m, other)
            &&& streams_of(rest, other) == streams_of(m, other)
        }),
{
    let rest = m.remove_keys(streams_of(m, s));
    assert(streams_of(rest, other) =~= streams_of(m, other));
    if uses_camera(m, other) {
        let id = choose|id: Seq<char>| #[trigger] m.dom().contains(id) && m[id]@ == other;
        assert(rest.dom().contains(id));
    }
    if uses_camera(rest, other) {
        let id = choose|id: Seq<char>| #[trigger] rest.dom().contains(id) && rest[id]@ == other;
        assert(m.dom().contains(id));
    }
}

/// A picture of a stream.
#[derive(Debug)]
pub struct FramePayload {
    pub stream_id: String,
    /// A JPEG image in Base64.
    pub b64: String,
    pub width: u32,
    pub height: u32,
}

/// The end of a stream that nobody asked for.
#[derive(Debug)]
pub struct StreamStoppedPayload {
    pub stream_id: String,
    pub reason: String,
}

/// Makes a picture of a stream. There must be four bytes for each pixel.
pub fn frame_payload(stream_id: &str, width: u32, height: u32, rgba: &[u8], quality: u8) -> (r:
    Result<FramePayload, String>)
    requires
        rgba@.len() == width * height * 4,
    ensures
        match jpeg_bytes(width, height, rgba@, quality) {
            Ok(b) => r is Ok && r->Ok_0.stream_id@ == stream_id@ && r->Ok_0.b64@
                == codec::base64_text(b) && r->Ok_0.width == width && r->Ok_0.height == height,
            Err(e) => r is Err && r->Err_0@ == e,
        },
{
    match rgba_to_jpeg(width, height, rgba, quality) {
        Ok(b) => Ok(
            FramePayload {
                stream_id: text::owned(stream_id),
                b64: codec::base64_encode(b.as_slice()),
                width,
                height,
            },
        ),
        Err(e) => Err(e),
    }
}

/// The nanoseconds from one picture of a stream to the next.
pub open spec fn frame_interval(fps: u32) -> nat {
    let f: nat = if fps < 1 {
        1
    } else {
        fps as nat
    };
    let ms: nat = 1000nat / f;
    let whole: nat = if ms < 1 {
        1
    } else {
        ms
    };
    whole * 1000000
}

/// The nanoseconds from one picture to the next, see [`frame_interval`].
pub fn interval_of(fps: u32) -> (r: u64)
    ensures
        r == frame_interval(fps),
{
    let f: u32 = if fps < 1 {
        1
    } else {
        fps
    };
    let ms: u32 = 1000 / f;
    assert(ms <= 1000) by (nonlinear_arith)
        requires
            ms == 1000u32 / f,
            f >= 1,
    ;
    let ms: u32 = if ms < 1 {
        1
    } else {
        ms
    };
    ms as u64 * 1000000
}

/// What happens in a stream: it is stopped, a picture comes at a time, or a read fails.
#[derive(Debug)]
pub enum StreamEvent {
    Stop,
    Frame(u64),
    Failed(String),
}

/// What a stream does: it drops or sends the picture, or ends, with a reason where nobody asked
/// for it.
#[derive(Debug)]
pub enum StreamStep {
    Skip,
    Send,
    End(Option<String>),
}

/// Keeps a stream to its pictures a second.
#[derive(Debug)]
pub struct Pacer {
    interval: u64,
    last: Option<u64>,
}

/// Whether a picture is due.
pub open spec fn is_due(last: Option<u64>, interval: nat, now: u64) -> bool {
    match last {
        None => true,
        Some(t) => now >= t + interval,
    }
}

impl Pacer {
    /// The nanoseconds between pictures, and when the last one was sent.
    pub closed spec fn state(&self) -> (nat, Option<u64>) {
        (self.interval as nat, self.last)
    }

    pub fn new(fps: u32) -> (r: Self)
        ensures
            r.state() == (frame_interval(fps), None::<u64>),
    {
        Pacer { interval: interval_of(fps), last: None }
    }

    /// Takes in what happens in the stream. A picture that comes too early is dropped, not kept.
    pub fn step(&mut self, event: StreamEvent) -> (r: StreamStep)
        ensures
            match event {
                StreamEvent::Stop => r == StreamStep::End(None) && final(self).state() == old(
                    self,
                ).state(),
                StreamEvent::Failed(e) => r == StreamStep::End(Some(e)) && final(self).state()
                    == old(self).state(),
                StreamEvent::Frame(now) => if is_due(
                    old(self).state().1,
                    old(self).state().0,
                    now,
                ) {
                    r is Send && final(self).state() == (old(self).state().0, Some(now))
                } else {
                    r is Skip && final(self).state() == old(self).state()
                },
            },
    {
        match event {
            StreamEvent::Stop => StreamStep::End(None),
            StreamEvent::Failed(e) => StreamStep::End(Some(e)),
            StreamEvent::Frame(now) => {
                let due = match self.last {
                    None => true,
                    Some(t) => now >= t && now - t >= self.interval,
                };
                if due {
                    self.last = Some(now);
                    StreamStep::Send
                } else {
                    StreamStep::Skip
                }
            },
        }
    }
}

/// The times at which pictures are sent, of the times at which they come.
pub open spec fn sent_times(times: Seq<u64>, interval: nat) -> Seq<u64>
    decreases times.len(),
{
    if times.len() == 0 {
        Seq::empty()
    } else {
        let sent = sent_times(times.drop_last(), interval);
        let last = if sent.len() == 0 {
            None
        } else {
            Some(sent.last())
        };
        if is_due(last, interval, times.last()) {
            sent.push(times.last())
        } else {
            sent
        }
    }
}

/// However fast pictures come, those that are sent are an interval apart: from the first to the
/// last of them so many intervals have passed.
pub proof fn streams_keep_their_pace(times: Seq<u64>, interval: nat)
    ensures
        ({
            let sent = sent_times(times, interval);
            sent.len() > 0 ==> sent.last() - sent[0] >= (sent.len() - 1) * interval
        }),
    decreases times.len(),
{
    if times.len() > 0 {
        streams_keep_their_pace(times.drop_last(), interval);
        let was = sent_times(times.drop_last(), interval);
        if was.len() > 0 {
            assert((was.len() - 1) * interval + interval == was.len() * interval)
                by (nonlinear_arith)
                requires
                    was.len() > 0,
            ;
        } else {
            assert(0 * interval == 0) by (nonlinear_arith);
        }
    }
}

/// The pictures a second of a camera are the whole number that is nearest to its fraction, the
/// greater one of two; there is none where the fraction is less than one half, or none.
pub proof fn rates_are_rounded(num: u32, den: u32)
    ensures
        den == 0 ==> rate_of(Some(packed(num, den))) is None,
        den > 0 && 2 * num < den ==> rate_of(Some(packed(num, den))) is None,
        den > 0 && 2 * num >= den ==> {
            let r = rate_of(Some(packed(num, den)));
            &&& r is Some
            &&& (2 * r->0 - 1) * den <= 2 * num < (2 * r->0 + 1) * den
        },
{
    packing_is_undone(num, den, 0);
    if den > 0 {
        let n = num as int;
        let d = den as int;
        let q = (2 * n + d) / (2 * d);
        assert(q * (2 * d) <= 2 * n + d < (q + 1) * (2 * d)) by (nonlinear_arith)
            requires
                q == (2 * n + d) / (2 * d),
                d > 0,
        ;
        assert((2 * q - 1) * d <= 2 * n < (2 * q + 1) * d) by (nonlinear_arith)
            requires
                q * (2 * d) <= 2 * n + d < (q + 1) * (2 * d),
        ;
        if 2 * n >= d {
            assert(q >= 1) by (nonlinear_arith)
                requires
                    2 * n + d < (q + 1) * (2 * d),
                    2 * n >= d,
                    d > 0,
            ;
        } else {
            assert(q < 1) by (nonlinear_arith)
                requires
                    q * (2 * d) <= 2 * n + d,
                    2 * n < d,
                    d > 0,
            ;
        }
        assert(q <= 2 * n) by (nonlinear_arith)
            requires
                q * (2 * d) <= 2 * n + d,
                2 * n >= d || q < 1,
                d > 0,
                n >= 0,
        ;
        assert(q <= n + 1) by (nonlinear_arith)
            requires
                q * (2 * d) <= 2 * n + d,
                d > 0,
                n >= 0,
        ;
        if 2 * n >= d && q > u32::MAX {
            assert(false) by (nonlinear_arith)
                requires
                    q * (2 * d) <= 2 * n + d,
                    q > u32::MAX,
                    n <= u32::MAX,
                    d >= 1,
            ;
        }
    }
}

/// Every format that a camera has within its first 64 types is offered, with its size and its
/// rate; none is offered twice, and none that it does not have.
pub proof fn formats_are_those_of_the_camera(types: Seq<NativeType>, f: CameraFormat)
    ensures
        formats_of(types).no_duplicates(),
        formats_of(types).contains(f) <==> exists|k: int|
            0 <= k < types.len() && has_size(#[trigger] types[k], f.width, f.height) && f.fps
                == rate_of(types[k].rate),
        looked_at(types).is_prefix_of(types),
        looked_at(types).len() == if types.len() > 64 {
            64
        } else {
            types.len()
        },
    decreases types.len(),
{
    assert(types.subrange(0, looked_at(types).len() as int) =~= looked_at(types));
    if types.len() > 0 {
        let less = types.drop_last();
        formats_are_those_of_the_camera(less, f);
        let all = formats_of(types);
        let before = formats_of(less);
        let t = types.last();
        if t.size is Some {
            packing_is_undone(0, 0, t.size->0);
            if has_size(t, f.width, f.height) {
                packing_is_undone(f.width, f.height, 0);
            }
        }
        if before.contains(f) {
            let j = choose|j: int| 0 <= j < before.len() && before[j] == f;
            assert(all[j] == f);
            let k = choose|k: int|
                0 <= k < less.len() && has_size(#[trigger] less[k], f.width, f.height) && f.fps
                    == rate_of(less[k].rate);
            assert(types[k] == less[k]);
        }
        if all.contains(f) && !before.contains(f) {
            let j = choose|j: int| 0 <= j < all.len() && all[j] == f;
            assert(j == before.len()) by {
                if j < before.len() {
                    assert(before[j] == f);
                }
            }
            assert(format_of(t) == Some(f));
            assert(has_size(types[types.len() - 1], f.width, f.height));
        }
        if exists|k: int|
            0 <= k < types.len() && has_size(#[trigger] types[k], f.width, f.height) && f.fps
                == rate_of(types[k].rate) {
            let k = choose|k: int|
                0 <= k < types.len() && has_size(#[trigger] types[k], f.width, f.height) && f.fps
                    == rate_of(types[k].rate);
            if k < less.len() {
                assert(less[k] == types[k]);
                assert(before.contains(f));
            } else {
                assert(format_of(t) == Some(f));
                assert(all.contains(f)) by {
                    if !before.contains(f) {
                        assert(all[before.len() as int] == f);
                    }
                }
            }
        }
    }
}

/// Whether a type has a size, with both sides.
pub open spec fn has_size(t: NativeType, width: u32, height: u32) -> bool {
    width > 0 && height > 0 && t.size == Some((width * 0x1_0000_0000 + height) as u64)
}

/// Every whole pixel keeps its red, green and blue, which are in the other order afterwards, and
/// is opaque.
pub proof fn pixels_keep_their_colors(data: Seq<u8>, k: int)
    requires
        0 <= k,
        4 * k + 4 <= data.len(),
    ensures
        recoloured(data).len() == data.len(),
        recoloured(data)[4 * k] == data[4 * k + 2],
        recoloured(data)[4 * k + 1] == data[4 * k + 1],
        recoloured(data)[4 * k + 2] == data[4 * k],
        recoloured(data)[4 * k + 3] == 255,
{
    assert((4 * k) / 4 == k && (4 * k + 1) / 4 == k && (4 * k + 2) / 4 == k && (4 * k + 3) / 4
        == k);
    assert((4 * k) % 4 == 0 && (4 * k + 1) % 4 == 1 && (4 * k + 2) % 4 == 2 && (4 * k + 3) % 4
        == 3);
}

/// Without their alpha, pixels keep their red, green and blue, in order.
pub proof fn dropping_alpha_keeps_the_colors(rgba: Seq<u8>, k: int)
    requires
        0 <= k,
        4 * k + 4 <= rgba.len(),
    ensures
        opaque_pixels(rgba).len() == rgba.len() / 4 * 3,
        opaque_pixels(rgba)[3 * k] == rgba[4 * k],
        opaque_pixels(rgba)[3 * k + 1] == rgba[4 * k + 1],
        opaque_pixels(rgba)[3 * k + 2] == rgba[4 * k + 2],
{
    assert((3 * k) / 3 == k && (3 * k + 1) / 3 == k && (3 * k + 2) / 3 == k);
    assert((3 * k) % 3 == 0 && (3 * k + 1) % 3 == 1 && (3 * k + 2) % 3 == 2);
}

/// A camera with an id is offered with its name and formats, and one without is not.
pub proof fn cameras_with_an_id_are_offered(found: Seq<FoundDevice>, k: int)
    requires
        0 <= k < found.len(),
        found[k].device_id is Some,
        (found[k].device_id->0)@.len() > 0,
    ensures
        exists|j: int|
            0 <= j < devices_of(found).len() && (#[trigger] devices_of(found)[j]).device_id == (
            found[k].device_id->0)@ && devices_of(found)[j].name == (match found[k].name {
                Some(n) => n@,
                None => Seq::empty(),
            }) && devices_of(found)[j].formats == formats_of(looked_at(found[k].types@)),
    decreases found.len(),
{
    let less = found.drop_last();
    let all = devices_of(found);
    let before = devices_of(less);
    if k < less.len() {
        assert(less[k] == found[k]);
        cameras_with_an_id_are_offered(less, k);
        let j = choose|j: int|
            0 <= j < before.len() && (#[trigger] before[j]).device_id == (found[k].device_id->0)@
                && before[j].name == (match found[k].name {
                Some(n) => n@,
                None => Seq::empty(),
            }) && before[j].formats == formats_of(looked_at(found[k].types@));
        assert(all[j] == before[j]);
    } else {
        assert(all[before.len() as int].device_id == (found[k].device_id->0)@);
    }
}

/// No more cameras are offered than there are, and all have an id.
pub proof fn only_cameras_with_an_id_are_offered(found: Seq<FoundDevice>, j: int)
    requires
        0 <= j < devices_of(found).len(),
    ensures
        devices_of(found).len() <= found.len(),
        devices_of(found)[j].device_id.len() > 0,
    decreases found.len(),
{
    let less = found.drop_last();
    let before = devices_of(less);
    if j < before.len() {
        only_cameras_with_an_id_are_offered(less, j);
        assert(devices_of(found)[j] == before[j]);
    } else if before.len() > 0 {
        only_cameras_with_an_id_are_offered(less, 0);
    }
}

/// A camera is found by its id: the first one that has it.
pub proof fn cameras_are_found_by_their_id(ids: Seq<Option<String>>, device_id: Seq<char>, k: int)
    requires
        0 <= k <= ids.len(),
        forall|j: int|
            0 <= j < k ==> text::opt_view(#[trigger] ids[j]) != Some(device_id),
        k < ids.len() ==> text::opt_view(ids[k]) == Some(device_id),
    ensures
        id_place(ids, device_id) == k,
    decreases ids.len(),
{
    if k > 0 {
        assert(text::opt_view(ids[0]) != Some(device_id));
        let t = ids.skip(1);
        assert forall|j: int| 0 <= j < k - 1 implies text::opt_view(#[trigger] t[j]) != Some(
            device_id,
        ) by {
            assert(t[j] == ids[j + 1]);
        }
        cameras_are_found_by_their_id(t, device_id, k - 1);
    }
}

/// The last read that succeeded counts; where none did, the last error does.
pub proof fn the_last_good_read_counts(reads: Seq<Result<Vec<u8>, String>>, k: int)
    requires
        0 <= k < reads.len(),
        forall|j: int| k < j < reads.len() ==> (#[trigger] reads[j]) is Err,
    ensures
        reads[k] is Ok ==> last_good(reads) == Some(Ok::<Seq<u8>, Seq<char>>((reads[k]->Ok_0)@)),
        (forall|j: int| 0 <= j < reads.len() ==> (#[trigger] reads[j]) is Err) ==> last_good(reads)
            == Some(Err::<Seq<u8>, Seq<char>>((reads.last()->Err_0)@)),
    decreases reads.len(),
{
    let less = reads.drop_last();
    if less.len() == 0 {
        assert(last_good(less) is None);
        assert(reads.last() == reads[0]);
    } else {
        if k < less.len() {
            assert(less[k] == reads[k]);
            assert(reads[reads.len() - 1] is Err);
            assert forall|j: int| k < j < less.len() implies (#[trigger] less[j]) is Err by {
                assert(less[j] == reads[j]);
            }
            the_last_good_read_counts(less, k);
        }
        if forall|j: int| 0 <= j < reads.len() ==> (#[trigger] reads[j]) is Err {
            assert(reads[reads.len() - 1] is Err);
            assert forall|j: int| 0 <= j < less.len() implies (#[trigger] less[j]) is Err by {
                assert(less[j] == reads[j]);
            }
            the_last_good_read_counts(less, less.len() - 1);
        }
    }
}

/// So many pictures take a second, to less than a millisecond for each.
pub proof fn intervals_fill_a_second(fps: u32)
    requires
        1 <= fps <= 1000,
    ensures
        frame_interval(fps) * fps <= 1_000_000_000,
        (frame_interval(fps) + 1_000_000) * fps > 1_000_000_000,
        frame_interval(0) == 1_000_000_000,
{
    let f = fps as int;
    let ms = 1000int / f;
    assert(ms * f <= 1000 < (ms + 1) * f && ms >= 1) by (nonlinear_arith)
        requires
            ms == 1000int / f,
            1 <= f <= 1000,
    ;
    assert(frame_interval(fps) == ms * 1_000_000);
    assert(ms * 1_000_000 * f <= 1_000_000_000) by (nonlinear_arith)
        requires
            ms * f <= 1000,
    ;
    assert((ms * 1_000_000 + 1_000_000) * f > 1_000_000_000) by (nonlinear_arith)
        requires
            1000 < (ms + 1) * f,
    ;
}

/// The first picture is sent, and every later one as soon as an interval has passed since the
/// last that was; none sooner.
pub proof fn due_pictures_are_sent(times: Seq<u64>, interval: nat, now: u64)
    ensures
        ({
            let sent = sent_times(times, interval);
            let next = sent_times(times.push(now), interval);
            &&& sent.len() == 0 || now >= sent.last() + interval ==> next == sent.push(now)
            &&& sent.len() > 0 && now < sent.last() + interval ==> next == sent
            &&& times.len() > 0 ==> sent.len() > 0 && sent[0] == times[0]
        }),
    decreases times.len(),
{
    assert(times.push(now).drop_last() =~= times);
    if times.len() > 0 {
        due_pictures_are_sent(times.drop_last(), interval, times.last());
        assert(times.drop_last().push(times.last()) =~= times);
        if times.len() == 1 {
            assert(sent_times(times.drop_last(), interval) =~= Seq::<u64>::empty());
        } else {
            assert(times.drop_last()[0] == times[0]);
        }
    }
}

/// The pixels of a picture in the bytes that a camera gave, or why there are none.
pub open spec fn pixels_of(data: Seq<u8>, width: u32, height: u32) -> Result<Seq<u8>, Seq<char>> {
    if data.len() < width * height * 4 {
        Err(
            "帧数据大小异常（期望至少 "@ + text::decimal_text((width * height * 4) as nat)
                + " 字节，实际 "@ + text::decimal_text(data.len()) + "）"@,
        )
    } else {
        Ok(recoloured(data.take(width * height * 4)))
    }
}

/// What a read comes to after so many empty samples: whether there is a sample, or why there
/// will be none.
pub open spec fn read_outcome(event: ReadEvent, empty: nat) -> Result<bool, Seq<char>> {
    match event {
        ReadEvent::Failed(e) => Err("读取摄像头帧失败: "@ + e@),
        ReadEvent::Ended => Err("摄像头数据流已结束"@),
        ReadEvent::Sample => Ok(true),
        ReadEvent::Empty => if empty + 1 >= EMPTY_SAMPLE_RETRIES {
            Err("摄像头连续 60 次未返回帧数据（设备可能被其它程序独占）"@)
        } else {
            Ok(false)
        },
    }
}

/// A picture has just as many pixels as its size says, each with the color that the camera gave
/// it; bytes behind them do not matter, and with fewer bytes there is no picture.
pub proof fn pictures_have_all_their_pixels(data: Seq<u8>, width: u32, height: u32, k: int)
    ensures
        pixels_of(data, width, height) is Ok <==> data.len() >= width * height * 4,
        0 <= k < width * height && data.len() >= width * height * 4 ==> {
            let p = pixels_of(data, width, height)->Ok_0;
            &&& p.len() == width * height * 4
            &&& p[4 * k] == data[4 * k + 2]
            &&& p[4 * k + 1] == data[4 * k + 1]
            &&& p[4 * k + 2] == data[4 * k]
            &&& p[4 * k + 3] == 255
        },
{
    let n = width * height * 4;
    assert(width * height >= 0) by (nonlinear_arith);
    if 0 <= k < width * height && data.len() >= n {
        pixels_keep_their_colors(data.take(n), k);
    }
}

/// A camera may give up to 59 empty samples in a row; the sixtieth ends the reading. A sample
/// is always taken.
pub proof fn sixty_empty_samples_end_the_reading(empty: nat)
    ensures
        empty < 59 ==> read_outcome(ReadEvent::Empty, empty) == Ok::<bool, Seq<char>>(false),
        empty >= 59 ==> read_outcome(ReadEvent::Empty, empty) is Err,
        read_outcome(ReadEvent::Sample, empty) == Ok::<bool, Seq<char>>(true),
        read_outcome(ReadEvent::Ended, empty) is Err,
{
}

/// Only the session that has a stream can stop it, and it always can; a stream that did not
/// start is told.
pub proof fn streams_belong_to_their_session(
    m: Map<Seq<char>, ActiveSession>,
    stream_id: Seq<char>,
    by: (Seq<char>, bool),
    opened: Opened,
)
    ensures
        stop_error(m, stream_id, by) is None <==> m.dom().contains(stream_id) && m[stream_id]@
            == by,
        start_error(opened) is None <==> opened is Running,
{
}

/// A size is asked for as it was given, and a camera's own report of it counts before that.
pub proof fn sizes_are_asked_for_as_given(w: u32, h: u32, rw: u32, rh: u32)
    ensures
        size_of_pictures(Some(packed(rw, rh)), Some(w), Some(h)) == (rw, rh),
        size_of_pictures(None, Some(w), Some(h)) == (w, h),
        size_of_pictures(None, None, None) == (0u32, 0u32),
{
    packing_is_undone(rw, rh, 0);
}

/// A picture that is grabbed is answered in Base64: as JPEG of the quality where that is asked
/// for by one of its two names, else as PNG with all of its pixels.
pub proof fn grabbed_pictures_are_answered_as_asked(
    width: u32,
    height: u32,
    rgba: Seq<u8>,
    format: Option<String>,
    quality: u8,
)
    requires
        rgba.len() == width * height * 4,
    ensures
        ({
            let r = grab_text(width, height, rgba, format, quality as int);
            let asked = format is Some && (format->0@ == "jpeg"@ || format->0@ == "jpg"@);
            let jpeg = picture::written_rgb_jpeg(width, height, opaque_pixels(rgba), quality);
            let png = picture::written_as(
                picture::rgba_raster(width, height, rgba),
                picture::PictureFormat::Png,
            );
            &&& asked ==> (r is Ok <==> jpeg is Ok)
            &&& asked && jpeg is Ok ==> r->Ok_0 == codec::base64_text(jpeg->Ok_0)
            &&& !asked ==> (r is Ok <==> png is Ok)
            &&& !asked && png is Ok ==> r->Ok_0 == codec::base64_text(png->Ok_0)
        }),
{
}

/// A setting within its limits is kept, and any other is the nearest limit.
pub proof fn settings_within_limits_are_kept(v: int, low: int, high: int, w: int)
    requires
        low <= high,
        low <= w <= high,
    ensures
        low <= clamped(v, low, high) <= high,
        low <= v <= high ==> clamped(v, low, high) == v,
        v < low ==> clamped(v, low, high) - v <= w - v,
        v > high ==> v - clamped(v, low, high) <= v - w,
{
}

/// Sessions in order are those of smaller ids first, and of one id the installed plugin before
/// the one under development. None stands there twice, and of two that differ one comes first.
pub proof fn sessions_stand_in_order(v: Seq<(Seq<char>, bool)>, i: int, j: int)
    requires
        in_order(v),
        0 <= i < j < v.len(),
    ensures
        v[i] != v[j],
        order::le(v[i].0, v[j].0),
        v[i].0 == v[j].0 ==> !v[i].1 && v[j].1,
        !before(v[i], v[i]),
{
}

} // verus!
