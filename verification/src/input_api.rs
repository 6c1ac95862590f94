//! Keys and mouse moves that plugins send, file lists for the clipboard, and watching the
//! clipboard.

use crate::session::ActiveSession;
use crate::text;
use crate::utf16;
use vstd::prelude::*;

verus! {

/// The permission for sending keys and mouse moves.
pub const PERM_INPUT: &'static str = "input-inject";

/// The permission for watching the clipboard.
pub const PERM_CLIPBOARD_WATCH: &'static str = "clipboard-watch";

/// The event that tells a page of a change of the clipboard.
pub const EVT_CLIPBOARD_CHANGED: &'static str = "plugin-clipboard-changed";

/// The answer where keys cannot be sent at all.
pub const ONLY_ON_WINDOWS: &'static str = "输入注入仅在 Windows 上可用";

/// Checks that a plugin may send keys and mouse moves.
pub fn check_input(granted: bool) -> (r: Result<(), String>)
    ensures
        text::message_of(r) == (if granted {
            None
        } else {
            Some("插件未获授权模拟输入（请在「插件管理」里授权 input-inject）"@)
        }),
{
    if granted {
        Ok(())
    } else {
        Err(text::owned("插件未获授权模拟输入（请在「插件管理」里授权 input-inject）"))
    }
}

/// Checks that a plugin may watch the clipboard.
pub fn check_clipboard_watch(granted: bool) -> (r: Result<(), String>)
    ensures
        text::message_of(r) == (if granted {
            None
        } else {
            Some("插件未获授权监听剪贴板（请在「插件管理」里授权 clipboard-watch）"@)
        }),
{
    if granted {
        Ok(())
    } else {
        Err(text::owned("插件未获授权监听剪贴板（请在「插件管理」里授权 clipboard-watch）"))
    }
}

// ---------------------------------------------------------------------------
// Keys
// ---------------------------------------------------------------------------

pub const KEYEVENTF_KEYUP: u32 = 2;

pub const KEYEVENTF_UNICODE: u32 = 4;

/// A key event as the system takes it.
#[derive(Clone, Copy, PartialEq, Eq, Debug, Structural)]
pub struct KeyEvent {
    /// The number of the key; 0 for a unit of text.
    pub vk: u16,
    /// The unit of text; 0 for a key.
    pub scan: u16,
    pub flags: u32,
}

/// The event for a unit of text.
pub open spec fn unit_event(unit: u16, up: bool) -> KeyEvent {
    KeyEvent {
        vk: 0,
        scan: unit,
        flags: if up {
            6
        } else {
            4
        },
    }
}

/// The event for a key.
pub open spec fn key_event(vk: u16, up: bool) -> KeyEvent {
    KeyEvent {
        vk,
        scan: 0,
        flags: if up {
            2
        } else {
            0
        },
    }
}

/// The events that type units of text: each goes down and up.
pub open spec fn typed(units: Seq<u16>) -> Seq<KeyEvent> {
    Seq::new(2 * units.len(), |i: int| unit_event(units[i / 2], i % 2 == 1))
}

/// The events that type a text, whatever the layout of the keyboard; see [`typed`].
pub fn type_string(s: &str) -> (r: Vec<KeyEvent>)
    ensures
        r@ == typed(utf16::units_of(s@)),
{
    let v = text::chars_of(s);
    let units = utf16::encode(v.as_slice());
    let mut out: Vec<KeyEvent> = Vec::new();
    let mut i: usize = 0;
    while i < units.len()
        invariant
            i <= units@.len(),
            out@ == typed(units@).take(2 * i),
        decreases units@.len() - i,
    {
        let ghost before = out@;
        out.push(KeyEvent { vk: 0, scan: units[i], flags: 4 });
        out.push(KeyEvent { vk: 0, scan: units[i], flags: 6 });
        assert(out@ =~= typed(units@).take(2 * (i + 1))) by {
            assert forall|k: int| 0 <= k < out@.len() implies out@[k] == typed(units@)[k] by {
                if k < before.len() {
                    assert(before[k] == typed(units@).take(2 * i)[k]);
                }
            }
        }
        i += 1;
    }
    assert(typed(units@).take(2 * i) =~= typed(units@));
    out
}

/// The number of a key that has a name.
pub open spec fn named_key(name: Seq<char>) -> Option<u16> {
    let n = text::lowered(name);
    if n == "enter"@ || n == "return"@ {
        Some(0x0D)
    } else if n == "esc"@ || n == "escape"@ {
        Some(0x1B)
    } else if n == "tab"@ {
        Some(0x09)
    } else if n == "space"@ || n == "spacebar"@ {
        Some(0x20)
    } else if n == "backspace"@ {
        Some(0x08)
    } else if n == "delete"@ || n == "del"@ {
        Some(0x2E)
    } else if n == "insert"@ || n == "ins"@ {
        Some(0x2D)
    } else if n == "home"@ {
        Some(0x24)
    } else if n == "end"@ {
        Some(0x23)
    } else if n == "pageup"@ || n == "pgup"@ {
        Some(0x21)
    } else if n == "pagedown"@ || n == "pgdn"@ {
        Some(0x22)
    } else if n == "up"@ || n == "arrowup"@ {
        Some(0x26)
    } else if n == "down"@ || n == "arrowdown"@ {
        Some(0x28)
    } else if n == "left"@ || n == "arrowleft"@ {
        Some(0x25)
    } else if n == "right"@ || n == "arrowright"@ {
        Some(0x27)
    } else {
        function_key(n)
    }
}

/// The number of a function key.
pub open spec fn function_key(n: Seq<char>) -> Option<u16> {
    if n == "f1"@ {
        Some(0x70)
    } else if n == "f2"@ {
        Some(0x71)
    } else if n == "f3"@ {
        Some(0x72)
    } else if n == "f4"@ {
        Some(0x73)
    } else if n == "f5"@ {
        Some(0x74)
    } else if n == "f6"@ {
        Some(0x75)
    } else if n == "f7"@ {
        Some(0x76)
    } else if n == "f8"@ {
        Some(0x77)
    } else if n == "f9"@ {
        Some(0x78)
    } else if n == "f10"@ {
        Some(0x79)
    } else if n == "f11"@ {
        Some(0x7A)
    } else if n == "f12"@ {
        Some(0x7B)
    } else {
        None
    }
}

fn function_vk(n: &[char]) -> (r: Option<u16>)
    ensures
        r == function_key(n@),
{
    if text::same(n, "f1") {
        Some(0x70)
    } else if text::same(n, "f2") {
        Some(0x71)
    } else if text::same(n, "f3") {
        Some(0x72)
    } else if text::same(n, "f4") {
        Some(0x73)
    } else if text::same(n, "f5") {
        Some(0x74)
    } else if text::same(n, "f6") {
        Some(0x75)
    } else if text::same(n, "f7") {
        Some(0x76)
    } else if text::same(n, "f8") {
        Some(0x77)
    } else if text::same(n, "f9") {
        Some(0x78)
    } else if text::same(n, "f10") {
        Some(0x79)
    } else if text::same(n, "f11") {
        Some(0x7A)
    } else if text::same(n, "f12") {
        Some(0x7B)
    } else {
        None
    }
}

/// The number of a key that has a name, see [`named_key`].
pub fn named_vk(name: &str) -> (r: Option<u16>)
    ensures
        r == named_key(name@),
{
    let v = text::chars_of(name);
    let low = text::to_lower(v.as_slice());
    let n = low.as_slice();
    if text::same(n, "enter") || text::same(n, "return") {
        Some(0x0D)
    } else if text::same(n, "esc") || text::same(n, "escape") {
        Some(0x1B)
    } else if text::same(n, "tab") {
        Some(0x09)
    } else if text::same(n, "space") || text::same(n, "spacebar") {
        Some(0x20)
    } else if text::same(n, "backspace") {
        Some(0x08)
    } else if text::same(n, "delete") || text::same(n, "del") {
        Some(0x2E)
    } else if text::same(n, "insert") || text::same(n, "ins") {
        Some(0x2D)
    } else if text::same(n, "home") {
        Some(0x24)
    } else if text::same(n, "end") {
        Some(0x23)
    } else if text::same(n, "pageup") || text::same(n, "pgup") {
        Some(0x21)
    } else if text::same(n, "pagedown") || text::same(n, "pgdn") {
        Some(0x22)
    } else if text::same(n, "up") || text::same(n, "arrowup") {
        Some(0x26)
    } else if text::same(n, "down") || text::same(n, "arrowdown") {
        Some(0x28)
    } else if text::same(n, "left") || text::same(n, "arrowleft") {
        Some(0x25)
    } else if text::same(n, "right") || text::same(n, "arrowright") {
        Some(0x27)
    } else {
        function_vk(n)
    }
}

pub const VK_SHIFT: u16 = 0x10;

/// The number of a key that is held while another is pressed.
pub open spec fn modifier_key(name: Seq<char>) -> Option<u16> {
    let n = text::lowered(name);
    if n == "ctrl"@ || n == "control"@ {
        Some(0x11)
    } else if n == "shift"@ {
        Some(0x10)
    } else if n == "alt"@ || n == "menu"@ {
        Some(0x12)
    } else if n == "win"@ || n == "meta"@ || n == "super"@ {
        Some(0x5B)
    } else {
        None
    }
}

/// The number of a key that is held, see [`modifier_key`].
pub fn modifier_vk(name: &str) -> (r: Option<u16>)
    ensures
        r == modifier_key(name@),
{
    let v = text::chars_of(name);
    let low = text::to_lower(v.as_slice());
    let n = low.as_slice();
    if text::same(n, "ctrl") || text::same(n, "control") {
        Some(0x11)
    } else if text::same(n, "shift") {
        Some(0x10)
    } else if text::same(n, "alt") || text::same(n, "menu") {
        Some(0x12)
    } else if text::same(n, "win") || text::same(n, "meta") || text::same(n, "super") {
        Some(0x5B)
    } else {
        None
    }
}

/// The unit of text that the layout of the keyboard has to be asked for: that of a key without
/// a name that is a single character of one unit.
pub open spec fn scan_unit(key: Seq<char>) -> Option<u16> {
    if named_key(key) is None && key.len() == 1 && utf16::char_units(key[0]).len() == 1 {
        Some(utf16::char_units(key[0])[0])
    } else {
        None
    }
}

/// The unit of text that the layout has to be asked for, see [`scan_unit`].
pub fn unit_to_scan(key: &str) -> (r: Option<u16>)
    ensures
        r == scan_unit(key@),
{
    if named_vk(key).is_some() {
        return None;
    }
    let v = text::chars_of(key);
    if v.len() != 1 {
        return None;
    }
    let units = utf16::encode(v.as_slice());
    proof {
        assert(v@.drop_last() =~= Seq::<char>::empty());
        reveal_with_fuel(utf16::units_of, 2);
        assert(units@ =~= utf16::char_units(v@[0]));
    }
    if units.len() != 1 {
        return None;
    }
    Some(units[0])
}

/// The answer of the layout that there is no key.
pub const NO_KEY: u16 = 0xFFFF;

/// The number of a key and whether it takes the shift key, where `scanned` is what the layout
/// gives for [`scan_unit`]: the number in the low byte, shift in the lowest bit of the high one.
pub open spec fn resolved_key(key: Seq<char>, scanned: u16) -> Result<(u16, bool), Seq<char>> {
    match named_key(key) {
        Some(vk) => Ok((vk, false)),
        None => if key.len() != 1 {
            Err("不支持的按键名："@ + key)
        } else if scan_unit(key) is None || scanned == NO_KEY {
            Err("当前键盘布局无法输入按键："@ + key)
        } else {
            Ok(((scanned % 256) as u16, scanned / 256 % 2 == 1))
        },
    }
}

/// The number of a key, see [`resolved_key`].
pub fn resolve_key(key: &str, scanned: u16) -> (r: Result<(u16, bool), String>)
    ensures
        match r {
            Ok(k) => resolved_key(key@, scanned) is Ok && resolved_key(key@, scanned)->Ok_0 == k,
            Err(e) => resolved_key(key@, scanned) is Err && resolved_key(key@, scanned)->Err_0
                == e@,
        },
{
    if let Some(vk) = named_vk(key) {
        return Ok((vk, false));
    }
    if text::chars_of(key).len() != 1 {
        return Err(text::owned("不支持的按键名：").concat(key));
    }
    if unit_to_scan(key).is_none() || scanned == NO_KEY {
        return Err(text::owned("当前键盘布局无法输入按键：").concat(key));
    }
    Ok((scanned % 256, scanned / 256 % 2 == 1))
}

/// The keys that are held for names, each once, or the first name that is none.
pub open spec fn held_keys(names: Seq<Seq<char>>) -> Result<Seq<u16>, Seq<char>>
    decreases names.len(),
{
    if names.len() == 0 {
        Ok(Seq::empty())
    } else {
        match held_keys(names.drop_last()) {
            Err(e) => Err(e),
            Ok(keys) => match modifier_key(names.last()) {
                None => Err("不支持的修饰键："@ + names.last()),
                Some(vk) => Ok(
                    if keys.contains(vk) {
                        keys
                    } else {
                        keys.push(vk)
                    },
                ),
            },
        }
    }
}

/// Held keys with the shift key, where it is needed and not among them.
pub open spec fn with_shift(keys: Seq<u16>, needed: bool) -> Seq<u16> {
    if needed && !keys.contains(VK_SHIFT) {
        keys.push(VK_SHIFT)
    } else {
        keys
    }
}

/// The events of a tap: the held keys go down in order, the key goes down and up, the held keys
/// go up in the opposite order.
pub open spec fn tap_events(held: Seq<u16>, vk: u16) -> Seq<KeyEvent> {
    let n = held.len() as int;
    Seq::new(
        (2 * n + 2) as nat,
        |i: int|
            if i < n {
                key_event(held[i], false)
            } else if i == n {
                key_event(vk, false)
            } else if i == n + 1 {
                key_event(vk, true)
            } else {
                key_event(held[2 * n + 1 - i], true)
            },
    )
}

/// The events of a tap on a key while others are held.
pub open spec fn tapped(key: Seq<char>, modifiers: Seq<Seq<char>>, scanned: u16) -> Result<
    Seq<KeyEvent>,
    Seq<char>,
> {
    match resolved_key(key, scanned) {
        Err(e) => Err(e),
        Ok((vk, shift)) => match held_keys(modifiers) {
            Err(e) => Err(e),
            Ok(keys) => Ok(tap_events(with_shift(keys, shift), vk)),
        },
    }
}

fn holds_key(keys: &Vec<u16>, vk: u16) -> (r: bool)
    ensures
        r == keys@.contains(vk),
{
    let mut i: usize = 0;
    while i < keys.len()
        invariant
            i <= keys@.len(),
            forall|j: int| 0 <= j < i ==> keys@[j] != vk,
        decreases keys@.len() - i,
    {
        if keys[i] == vk {
            return true;
        }
        i += 1;
    }
    false
}

proof fn lemma_held_error(names: Seq<Seq<char>>, k: int)
    requires
        0 <= k <= names.len(),
        held_keys(names.take(k)) is Err,
    ensures
        held_keys(names) == held_keys(names.take(k)),
    decreases names.len() - k,
{
    if k < names.len() {
        assert(names.take(k + 1).drop_last() =~= names.take(k));
        lemma_held_error(names, k + 1);
    } else {
        assert(names.take(k) =~= names);
    }
}

fn hold(modifiers: &[String]) -> (r: Result<Vec<u16>, String>)
    ensures
        match r {
            Ok(v) => held_keys(text::texts(modifiers@)) is Ok && held_keys(
                text::texts(modifiers@),
            )->Ok_0 == v@,
            Err(e) => held_keys(text::texts(modifiers@)) is Err && held_keys(
                text::texts(modifiers@),
            )->Err_0 == e@,
        },
{
    let ghost all = text::texts(modifiers@);
    let mut keys: Vec<u16> = Vec::new();
    let mut i: usize = 0;
    assert(all.take(0) =~= Seq::<Seq<char>>::empty());
    assert(keys@ =~= Seq::<u16>::empty());
    while i < modifiers.len()
        invariant
            i <= modifiers@.len(),
            all == text::texts(modifiers@),
            held_keys(all.take(i as int)) is Ok,
            held_keys(all.take(i as int))->Ok_0 == keys@,
        decreases modifiers@.len() - i,
    {
        assert(all.take(i + 1).drop_last() =~= all.take(i as int));
        assert(all.take(i + 1).last() == modifiers@[i as int]@);
        match modifier_vk(modifiers[i].as_str()) {
            None => {
                proof {
                    lemma_held_error(all, i + 1);
                }
                return Err(text::owned("不支持的修饰键：").concat(modifiers[i].as_str()));
            },
            Some(vk) => {
                if !holds_key(&keys, vk) {
                    keys.push(vk);
                }
            },
        }
        i += 1;
    }
    assert(all.take(i as int) =~= all);
    Ok(keys)
}

/// The events of a tap on a key while others are held, see [`tapped`].
pub fn key_tap(key: &str, modifiers: &[String], scanned: u16) -> (r: Result<Vec<KeyEvent>, String>)
    ensures
        match r {
            Ok(v) => tapped(key@, text::texts(modifiers@), scanned) is Ok && tapped(
                key@,
                text::texts(modifiers@),
                scanned,
            )->Ok_0 == v@,
            Err(e) => tapped(key@, text::texts(modifiers@), scanned) is Err && tapped(
                key@,
                text::texts(modifiers@),
                scanned,
            )->Err_0 == e@,
        },
{
    let (vk, shift) = match resolve_key(key, scanned) {
        Ok(k) => k,
        Err(e) => {
            return Err(e);
        },
    };
    let mut held = match hold(modifiers) {
        Ok(v) => v,
        Err(e) => {
            return Err(e);
        },
    };
    if shift && !holds_key(&held, VK_SHIFT) {
        held.push(VK_SHIFT);
    }
    let ghost want = tap_events(held@, vk);
    let n: usize = held.len();
    let mut out: Vec<KeyEvent> = Vec::new();
    let mut i: usize = 0;
    while i < n
        invariant
            n == held@.len(),
            i <= n,
            want == tap_events(held@, vk),
            out@ == want.take(i as int),
        decreases n - i,
    {
        out.push(KeyEvent { vk: held[i], scan: 0, flags: 0 });
        assert(out@ =~= want.take(i + 1));
        i += 1;
    }
    out.push(KeyEvent { vk, scan: 0, flags: 0 });
    out.push(KeyEvent { vk, scan: 0, flags: 2 });
    assert(out@ =~= want.take(n + 2));
    let mut left: usize = n;
    while left > 0
        invariant
            n == held@.len(),
            left <= n,
            want == tap_events(held@, vk),
            out@ == want.take(2 * n + 2 - left),
        decreases left,
    {
        out.push(KeyEvent { vk: held[left - 1], scan: 0, flags: 2 });
        assert(out@ =~= want.take(2 * n + 2 - left + 1));
        left -= 1;
    }
    assert(want.take(2 * n + 2) =~= want);
    Ok(out)
}

/// The events that paste: a tap on V while Ctrl is held. `scanned` is what the layout gives for
/// V.
pub fn ctrl_v(scanned: u16) -> (r: Result<Vec<KeyEvent>, String>)
    ensures
        match r {
            Ok(v) => tapped("v"@, seq!["ctrl"@], scanned) is Ok && tapped(
                "v"@,
                seq!["ctrl"@],
                scanned,
            )->Ok_0 == v@,
            Err(e) => tapped("v"@, seq!["ctrl"@], scanned) is Err && tapped(
                "v"@,
                seq!["ctrl"@],
                scanned,
            )->Err_0 == e@,
        },
{
    let mut modifiers: Vec<String> = Vec::new();
    modifiers.push(text::owned("ctrl"));
    assert(text::texts(modifiers@) =~= seq!["ctrl"@]);
    key_tap("v", modifiers.as_slice(), scanned)
}

/// Every key that a tap presses is released again, the last one first.
pub proof fn taps_release_what_they_press(held: Seq<u16>, vk: u16, i: int)
    requires
        0 <= i <= held.len(),
    ensures
        ({
            let e = tap_events(held, vk);
            let j = e.len() - 1 - i;
            &&& e[i].flags == 0
            &&& e[j].flags == KEYEVENTF_KEYUP
            &&& e[i].vk == e[j].vk
            &&& i < j
        }),
{
}

/// What sending events came to: the system may take fewer than there are.
pub fn sent_result(sent: u32, total: usize) -> (r: Result<(), String>)
    ensures
        text::message_of(r) is None <==> all_were_taken(sent, total),
        text::message_of(r) == (if sent != total {
            Some(
                "输入注入被系统拒绝（已发送 "@ + text::decimal_text(sent as nat) + "/"@
                    + text::decimal_text(total as nat)
                    + " 个事件）：目标窗口可能运行在更高权限（如管理员/UAC 对话框），受 Windows UIPI 限制，非提权进程无法向其注入输入"@,
            )
        } else {
            None
        }),
{
    if sent as u64 != total as u64 {
        let a = text::decimal(sent as u64);
        let b = text::decimal(total as u64);
        return Err(
            text::owned("输入注入被系统拒绝（已发送 ").concat(a.as_str()).concat("/").concat(
                b.as_str(),
            ).concat(
                " 个事件）：目标窗口可能运行在更高权限（如管理员/UAC 对话框），受 Windows UIPI 限制，非提权进程无法向其注入输入",
            ),
        );
    }
    Ok(())
}

// ---------------------------------------------------------------------------
// The mouse
// ---------------------------------------------------------------------------

/// A mouse event as the system takes it.
#[derive(Clone, Copy, PartialEq, Eq, Debug, Structural)]
pub struct MouseEvent {
    pub dx: i32,
    pub dy: i32,
    pub flags: u32,
}

/// The area of all displays together.
#[derive(Clone, Copy, PartialEq, Eq, Debug, Structural)]
pub struct Desktop {
    pub x: i32,
    pub y: i32,
    pub width: i32,
    pub height: i32,
}

/// A place on a side of the desktop in the units of the system, from 0 to 65535.
pub open spec fn absolute(v: int, from: int, size: int) -> int {
    let span = if size - 1 > 1 {
        size - 1
    } else {
        1
    };
    let n = (v - from) * 65535 / span;
    if v < from {
        0
    } else if n > 65535 {
        65535
    } else {
        n
    }
}

fn to_units(v: i32, from: i32, size: i32) -> (r: i32)
    requires
        size > 0,
    ensures
        r == absolute(v as int, from as int, size as int),
        0 <= r <= 65535,
{
    if v < from {
        return 0;
    }
    let span: i64 = if size as i64 - 1 > 1 {
        size as i64 - 1
    } else {
        1
    };
    let d: i64 = v as i64 - from as i64;
    let n: i64 = d * 65535 / span;
    assert(n >= 0) by (nonlinear_arith)
        requires
            n == (d * 65535) / (span as int),
            d >= 0,
            span >= 1,
    ;
    if n > 65535 {
        65535
    } else {
        n as i32
    }
}

/// A place on the desktop in the units of the system; `None` when the desktop has no size.
pub open spec fn place_on(d: Desktop, x: i32, y: i32) -> Option<(int, int)> {
    if d.width <= 0 || d.height <= 0 {
        None
    } else {
        Some(
            (
                absolute(x as int, d.x as int, d.width as int),
                absolute(y as int, d.y as int, d.height as int),
            ),
        )
    }
}

/// A place on the desktop in the units of the system, see [`place_on`].
pub fn to_absolute(d: Desktop, x: i32, y: i32) -> (r: Option<(i32, i32)>)
    ensures
        match r {
            Some(p) => place_on(d, x, y) == Some((p.0 as int, p.1 as int)),
            None => place_on(d, x, y) is None,
        },
{
    if d.width <= 0 || d.height <= 0 {
        return None;
    }
    Some((to_units(x, d.x, d.width), to_units(y, d.y, d.height)))
}

/// The flags of a move to a place on the desktop.
pub const MOVE_FLAGS: u32 = 0xC001;

/// The flags of the buttons: left down and up, right down and up, each at a place.
pub const LEFT_DOWN: u32 = 0x8002;

pub const LEFT_UP: u32 = 0x8004;

pub const RIGHT_DOWN: u32 = 0x8008;

pub const RIGHT_UP: u32 = 0x8010;

/// The event of a move.
pub open spec fn moved(p: (int, int)) -> MouseEvent {
    MouseEvent { dx: p.0 as i32, dy: p.1 as i32, flags: MOVE_FLAGS }
}

/// The events of a click: the move, then down and up, twice for a double click.
pub open spec fn clicked(p: (int, int), right: bool, double: bool) -> Seq<MouseEvent> {
    let down = MouseEvent {
        dx: p.0 as i32,
        dy: p.1 as i32,
        flags: if right {
            RIGHT_DOWN
        } else {
            LEFT_DOWN
        },
    };
    let up = MouseEvent {
        dx: p.0 as i32,
        dy: p.1 as i32,
        flags: if right {
            RIGHT_UP
        } else {
            LEFT_UP
        },
    };
    if double {
        seq![moved(p), down, up, down, up]
    } else {
        seq![moved(p), down, up]
    }
}

/// The event that moves the mouse to a place.
pub fn mouse_move(d: Desktop, x: i32, y: i32) -> (r: Result<Vec<MouseEvent>, String>)
    ensures
        match place_on(d, x, y) {
            Some(p) => r is Ok && r->Ok_0@ == seq![moved(p)],
            None => r is Err && r->Err_0@ == "无法读取虚拟桌面尺寸"@,
        },
{
    match to_absolute(d, x, y) {
        None => Err(text::owned("无法读取虚拟桌面尺寸")),
        Some((dx, dy)) => {
            let mut out: Vec<MouseEvent> = Vec::new();
            out.push(MouseEvent { dx, dy, flags: MOVE_FLAGS });
            assert(out@ =~= seq![moved((dx as int, dy as int))]);
            Ok(out)
        },
    }
}

/// The events that click at a place, see [`clicked`].
pub fn mouse_click(d: Desktop, x: i32, y: i32, right: bool, double: bool) -> (r: Result<
    Vec<MouseEvent>,
    String,
>)
    ensures
        match place_on(d, x, y) {
            Some(p) => r is Ok && r->Ok_0@ == clicked(p, right, double),
            None => r is Err && r->Err_0@ == "无法读取虚拟桌面尺寸"@,
        },
{
    match to_absolute(d, x, y) {
        None => Err(text::owned("无法读取虚拟桌面尺寸")),
        Some((dx, dy)) => {
            let down: u32 = if right {
                RIGHT_DOWN
            } else {
                LEFT_DOWN
            };
            let up: u32 = if right {
                RIGHT_UP
            } else {
                LEFT_UP
            };
            let mut out: Vec<MouseEvent> = Vec::new();
            out.push(MouseEvent { dx, dy, flags: MOVE_FLAGS });
            out.push(MouseEvent { dx, dy, flags: down });
            out.push(MouseEvent { dx, dy, flags: up });
            if double {
                out.push(MouseEvent { dx, dy, flags: down });
                out.push(MouseEvent { dx, dy, flags: up });
            }
            assert(out@ =~= clicked((dx as int, dy as int), right, double));
            Ok(out)
        },
    }
}

/// The corners of the desktop are the ends of the units of the system.
pub proof fn corners_are_the_ends(d: Desktop)
    requires
        d.width > 1,
        d.height > 1,
    ensures
        absolute(d.x as int, d.x as int, d.width as int) == 0,
        absolute(d.x + d.width - 1, d.x as int, d.width as int) == 65535,
        absolute(d.y as int, d.y as int, d.height as int) == 0,
        absolute(d.y + d.height - 1, d.y as int, d.height as int) == 65535,
{
    let w = d.width - 1;
    let h = d.height - 1;
    assert(w * 65535 / w == 65535) by (nonlinear_arith)
        requires
            w >= 1,
    ;
    assert(h * 65535 / h == 65535) by (nonlinear_arith)
        requires
            h >= 1,
    ;
}

/// What a place on one side becomes: nothing in front of the desktop, all of it behind, and in
/// between the same share of 65535 that the place has of the side, rounded down.
proof fn lemma_share(v: int, from: int, size: int)
    requires
        size > 0,
    ensures
        ({
            let span = if size > 2 {
                size - 1
            } else {
                1
            };
            let n = absolute(v, from, size);
            &&& 0 <= n <= 65535
            &&& v < from ==> n == 0
            &&& v > from + span ==> n == 65535
            &&& from <= v <= from + span ==> n * span <= (v - from) * 65535 < (n + 1) * span
        }),
{
    let span = if size > 2 {
        size - 1
    } else {
        1
    };
    let d = v - from;
    let q = d * 65535 / span;
    assert(q * span <= d * 65535 < (q + 1) * span) by (nonlinear_arith)
        requires
            q == d * 65535 / span,
            span > 0,
    ;
    if d >= 0 {
        assert(q >= 0) by (nonlinear_arith)
            requires
                q == d * 65535 / span,
                d >= 0,
                span > 0,
        ;
    }
    if d > span {
        assert(q >= 65535) by (nonlinear_arith)
            requires
                d * 65535 < (q + 1) * span,
                d > span,
                span > 0,
        ;
    }
    if 0 <= d <= span {
        assert(q <= 65535) by (nonlinear_arith)
            requires
                q * span <= d * 65535,
                d <= span,
                span > 0,
        ;
    }
}

/// A place on the desktop keeps its proportions: its share of the width, and of the height, is
/// its share of the 65535 units of the system, to less than one unit. What lies outside goes to
/// the nearest end. There is a place exactly where the desktop has a size.
pub proof fn places_keep_their_proportions(d: Desktop, x: i32, y: i32)
    ensures
        place_on(d, x, y) is Some <==> d.width > 0 && d.height > 0,
        place_on(d, x, y) matches Some((nx, ny)) ==> {
            let w = if d.width > 2 {
                d.width - 1
            } else {
                1
            };
            let h = if d.height > 2 {
                d.height - 1
            } else {
                1
            };
            &&& 0 <= nx <= 65535
            &&& 0 <= ny <= 65535
            &&& x < d.x ==> nx == 0
            &&& x > d.x + w ==> nx == 65535
            &&& d.x <= x <= d.x + w ==> nx * w <= (x - d.x) * 65535 < (nx + 1) * w
            &&& y < d.y ==> ny == 0
            &&& y > d.y + h ==> ny == 65535
            &&& d.y <= y <= d.y + h ==> ny * h <= (y - d.y) * 65535 < (ny + 1) * h
        },
{
    if d.width > 0 && d.height > 0 {
        lemma_share(x as int, d.x as int, d.width as int);
        lemma_share(y as int, d.y as int, d.height as int);
    }
}

/// Further to the right is never further to the left in the units of the system, and further
/// down never further up.
pub proof fn places_keep_their_order(d: Desktop, a: (i32, i32), b: (i32, i32))
    requires
        d.width > 0,
        d.height > 0,
    ensures
        a.0 <= b.0 ==> (place_on(d, a.0, a.1)->0).0 <= (place_on(d, b.0, b.1)->0).0,
        a.1 <= b.1 ==> (place_on(d, a.0, a.1)->0).1 <= (place_on(d, b.0, b.1)->0).1,
{
    places_keep_their_proportions(d, a.0, a.1);
    places_keep_their_proportions(d, b.0, b.1);
    let w = if d.width > 2 {
        d.width - 1
    } else {
        1
    };
    let h = if d.height > 2 {
        d.height - 1
    } else {
        1
    };
    let (ax, ay) = place_on(d, a.0, a.1)->0;
    let (bx, by) = place_on(d, b.0, b.1)->0;
    if d.x <= a.0 <= b.0 <= d.x + w {
        assert(ax <= bx) by (nonlinear_arith)
            requires
                ax * w <= (a.0 - d.x) * 65535,
                (b.0 - d.x) * 65535 < (bx + 1) * w,
                a.0 <= b.0,
                w > 0,
        ;
    }
    if d.y <= a.1 <= b.1 <= d.y + h {
        assert(ay <= by) by (nonlinear_arith)
            requires
                ay * h <= (a.1 - d.y) * 65535,
                (b.1 - d.y) * 65535 < (by + 1) * h,
                a.1 <= b.1,
                h > 0,
        ;
    }
}

/// A click first moves to its place and then presses and releases one button there, twice for a
/// double click: every event is at that place, every press is followed by the release of the
/// same button, and a button of the other side is never touched. The numbers are those of the
/// system: 1 moves, 2 and 4 press and release the left button, 8 and 16 the right one, 32768
/// says that the place is on the desktop and 16384 that it is the desktop of all displays.
pub proof fn clicks_press_and_release(p: (int, int), right: bool, double: bool, i: int)
    requires
        0 <= p.0 <= 65535,
        0 <= p.1 <= 65535,
        0 <= i < clicked(p, right, double).len(),
    ensures
        ({
            let e = clicked(p, right, double);
            let press: int = if right {
                8
            } else {
                2
            };
            &&& e.len() == if double {
                5int
            } else {
                3
            }
            &&& e[i].dx == p.0 && e[i].dy == p.1
            &&& i == 0 ==> e[i].flags == 1 + 16384 + 32768
            &&& i % 2 == 1 ==> e[i].flags == press + 32768
            &&& i > 0 && i % 2 == 0 ==> e[i].flags == 2 * press + 32768
        }),
{
}

// ---------------------------------------------------------------------------
// File lists
// ---------------------------------------------------------------------------

/// The paths of a file list in UTF-16: each ended by a zero, the list by one more.
pub open spec fn list_units(paths: Seq<Seq<char>>) -> Seq<u16>
    decreases paths.len(),
{
    if paths.len() == 0 {
        Seq::empty()
    } else {
        list_units(paths.drop_last()) + utf16::units_of(paths.last()).push(0)
    }
}

/// Units as bytes, lowest first.
pub open spec fn unit_bytes(units: Seq<u16>) -> Seq<u8> {
    Seq::new(
        2 * units.len(),
        |i: int|
            if i % 2 == 0 {
                (units[i / 2] % 256) as u8
            } else {
                (units[i / 2] / 256) as u8
            },
    )
}

/// The head of a file list: where the paths begin, no place, and that they are in UTF-16.
pub open spec fn list_head() -> Seq<u8> {
    seq![
        20u8, 0u8, 0u8, 0u8,
        0u8, 0u8, 0u8, 0u8,
        0u8, 0u8, 0u8, 0u8,
        0u8, 0u8, 0u8, 0u8,
        1u8, 0u8, 0u8, 0u8,
    ]
}

fn push_units_as_bytes(out: &mut Vec<u8>, units: &Vec<u16>)
    ensures
        final(out)@ == old(out)@ + unit_bytes(units@),
{
    let ghost start = out@;
    let mut i: usize = 0;
    assert(start + unit_bytes(units@).take(0) =~= start);
    while i < units.len()
        invariant
            i <= units@.len(),
            out@ == start + unit_bytes(units@).take(2 * i),
        decreases units@.len() - i,
    {
        let ghost before = out@;
        out.push((units[i] % 256) as u8);
        out.push((units[i] / 256) as u8);
        assert(out@ =~= start + unit_bytes(units@).take(2 * (i + 1))) by {
            let all = unit_bytes(units@);
            assert(all.take(2 * (i + 1)) =~= all.take(2 * i).push(all[2 * i]).push(all[2 * i + 1]));
        }
        i += 1;
    }
    assert(unit_bytes(units@).take(2 * i) =~= unit_bytes(units@));
}

fn push_head(out: &mut Vec<u8>)
    requires
        old(out)@.len() == 0,
    ensures
        final(out)@ == list_head(),
{
    out.push(20);
    let mut i: usize = 1;
    while i < 20
        invariant
            1 <= i <= 20,
            out@ == list_head().take(i as int),
        decreases 20 - i,
    {
        out.push(
            if i == 16 {
                1
            } else {
                0
            },
        );
        assert(out@ =~= list_head().take(i + 1));
        i += 1;
    }
    assert(list_head().take(20) =~= list_head());
}

/// The bytes of a file list for the clipboard.
pub open spec fn list_bytes(paths: Seq<Seq<char>>) -> Seq<u8> {
    list_head() + unit_bytes(list_units(paths).push(0))
}

/// Makes a file list for the clipboard, see [`list_bytes`]; there must be a path.
pub fn file_list(paths: &Vec<String>) -> (r: Result<Vec<u8>, String>)
    ensures
        text::outcome(r) == (if paths@.len() == 0 {
            Err("文件路径列表为空"@)
        } else {
            Ok(list_bytes(text::texts(paths@)))
        }),
{
    if paths.len() == 0 {
        return Err(text::owned("文件路径列表为空"));
    }
    let ghost all = text::texts(paths@);
    let mut wide: Vec<u16> = Vec::new();
    let mut i: usize = 0;
    assert(all.take(0) =~= Seq::<Seq<char>>::empty());
    assert(wide@ =~= Seq::<u16>::empty());
    while i < paths.len()
        invariant
            i <= paths@.len(),
            all == text::texts(paths@),
            wide@ == list_units(all.take(i as int)),
        decreases paths@.len() - i,
    {
        assert(all.take(i + 1).drop_last() =~= all.take(i as int));
        assert(all.take(i + 1).last() == paths@[i as int]@);
        let v = text::chars_of(paths[i].as_str());
        let mut units = utf16::encode(v.as_slice());
        let ghost before = wide@;
        let ghost one = units@;
        wide.append(&mut units);
        wide.push(0);
        assert(wide@ =~= before + one.push(0));
        i += 1;
    }
    assert(all.take(i as int) =~= all);
    wide.push(0);
    let mut out: Vec<u8> = Vec::new();
    push_head(&mut out);
    push_units_as_bytes(&mut out, &wide);
    Ok(out)
}

// ---------------------------------------------------------------------------
// Watching the clipboard
// ---------------------------------------------------------------------------

/// The milliseconds between two looks at the clipboard.
pub const WATCH_POLL_INTERVAL: u64 = 300;

/// What a page is told of a change of the clipboard.
#[derive(Clone, Copy, PartialEq, Eq, Debug, Structural)]
pub struct ClipboardChanged {
    pub sequence: u32,
}

/// What to tell when the clipboard's number was one and is another.
pub fn clipboard_step(last: u32, current: u32) -> (r: Option<ClipboardChanged>)
    ensures
        r == change_of(last, current),
        r == (if last == current {
            None
        } else {
            Some(ClipboardChanged { sequence: current })
        }),
{
    if last == current {
        None
    } else {
        Some(ClipboardChanged { sequence: current })
    }
}

/// Who watches the clipboard; one at a time.
#[derive(Debug)]
pub struct ClipboardWatch {
    owner: Option<ActiveSession>,
}

impl View for ClipboardWatch {
    type V = Option<(Seq<char>, bool)>;

    closed spec fn view(&self) -> Option<(Seq<char>, bool)> {
        text::opt_view(self.owner)
    }
}

impl ClipboardWatch {
    pub fn new() -> (r: Self)
        ensures
            r@ == None::<(Seq<char>, bool)>,
    {
        ClipboardWatch { owner: None }
    }

    /// Lets a session watch, in place of whoever did; the answer says whether that watching has
    /// to be ended.
    pub fn start(&mut self, session: ActiveSession) -> (r: bool)
        ensures
            r == old(self)@ is Some,
            final(self)@ == Some(session@),
    {
        let had = self.owner.is_some();
        self.owner = Some(session);
        had
    }
}

/// Ends the watching of a session, and of no other; the answer says whether there was any.
pub fn stop_all_for_session(watch: &mut ClipboardWatch, session: &ActiveSession) -> (r: bool)
    ensures
        (r, final(watch)@) == watch_after_stop(old(watch)@, session@),
        r == (old(watch)@ == Some(session@)),
        final(watch)@ == (if old(watch)@ == Some(session@) {
            None
        } else {
            old(watch)@
        }),
{
    let own = match &watch.owner {
        Some(s) => s.same_as(session),
        None => false,
    };
    if own {
        watch.owner = None;
    }
    own
}

// ---------------------------------------------------------------------------
// What holds of keys and lists
// ---------------------------------------------------------------------------

/// Every unit of a text is typed, in order: it goes down and up again, as text and not as a
/// key.
pub proof fn texts_are_typed_whole(s: Seq<char>, i: int)
    requires
        0 <= i < utf16::units_of(s).len(),
    ensures
        ({
            let u = utf16::units_of(s);
            let e = typed(u);
            &&& e.len() == 2 * u.len()
            &&& e[2 * i] == (KeyEvent { vk: 0, scan: u[i], flags: 4 })
            &&& e[2 * i + 1] == (KeyEvent { vk: 0, scan: u[i], flags: 6 })
        }),
        utf16::text_of(utf16::units_of(s)) == s,
{
    assert((2 * i) / 2 == i && (2 * i + 1) / 2 == i);
    utf16::units_read_back(s);
}

/// The function keys are numbered one after the other, whatever the case of the letter.
pub proof fn function_keys_are_in_order(n: nat, name: Seq<char>)
    requires
        1 <= n <= 12,
        text::lowered(name) == "f"@ + text::decimal_text(n),
    ensures
        named_key(name) == Some((0x6F + n) as u16),
{
    let low = text::lowered(name);
    reveal_strlit("f");
    reveal_with_fuel(text::decimal_text, 3);
    lemma_key_names();
    assert(low[0] == 'f');
    assert(low.len() <= 3);
    if n < 10 {
        assert(low =~= seq!['f', text::digit_char(n as int)]);
    } else {
        assert(low =~= seq!['f', '1', text::digit_char(n - 10)]);
    }
    if n == 1 {
        assert(low =~= "f1"@);
    } else if n == 2 {
        assert(low =~= "f2"@);
    } else if n == 3 {
        assert(low =~= "f3"@);
    } else if n == 4 {
        assert(low =~= "f4"@);
    } else if n == 5 {
        assert(low =~= "f5"@);
    } else if n == 6 {
        assert(low =~= "f6"@);
    } else if n == 7 {
        assert(low =~= "f7"@);
    } else if n == 8 {
        assert(low =~= "f8"@);
    } else if n == 9 {
        assert(low =~= "f9"@);
    } else if n == 10 {
        assert(low =~= "f10"@);
    } else if n == 11 {
        assert(low =~= "f11"@);
    } else {
        assert(low =~= "f12"@);
    }
}

proof fn lemma_key_names()
    ensures
        "f1"@ =~= seq!['f', '1'],
        "f2"@ =~= seq!['f', '2'],
        "f3"@ =~= seq!['f', '3'],
        "f4"@ =~= seq!['f', '4'],
        "f5"@ =~= seq!['f', '5'],
        "f6"@ =~= seq!['f', '6'],
        "f7"@ =~= seq!['f', '7'],
        "f8"@ =~= seq!['f', '8'],
        "f9"@ =~= seq!['f', '9'],
        "f10"@ =~= seq!['f', '1', '0'],
        "f11"@ =~= seq!['f', '1', '1'],
        "f12"@ =~= seq!['f', '1', '2'],
        "enter"@[0] != 'f',
        "return"@[0] != 'f',
        "esc"@[0] != 'f',
        "escape"@[0] != 'f',
        "tab"@[0] != 'f',
        "space"@[0] != 'f',
        "spacebar"@[0] != 'f',
        "backspace"@[0] != 'f',
        "delete"@[0] != 'f',
        "del"@[0] != 'f',
        "insert"@[0] != 'f',
        "ins"@[0] != 'f',
        "home"@[0] != 'f',
        "end"@[0] != 'f',
        "pageup"@[0] != 'f',
        "pgup"@[0] != 'f',
        "pagedown"@[0] != 'f',
        "pgdn"@[0] != 'f',
        "up"@[0] != 'f',
        "arrowup"@[0] != 'f',
        "down"@[0] != 'f',
        "arrowdown"@[0] != 'f',
        "left"@[0] != 'f',
        "arrowleft"@[0] != 'f',
        "right"@[0] != 'f',
        "arrowright"@[0] != 'f',
{
    reveal_strlit("f1");
    reveal_strlit("f2");
    reveal_strlit("f3");
    reveal_strlit("f4");
    reveal_strlit("f5");
    reveal_strlit("f6");
    reveal_strlit("f7");
    reveal_strlit("f8");
    reveal_strlit("f9");
    reveal_strlit("f10");
    reveal_strlit("f11");
    reveal_strlit("f12");
    reveal_strlit("enter");
    reveal_strlit("return");
    reveal_strlit("esc");
    reveal_strlit("escape");
    reveal_strlit("tab");
    reveal_strlit("space");
    reveal_strlit("spacebar");
    reveal_strlit("backspace");
    reveal_strlit("delete");
    reveal_strlit("del");
    reveal_strlit("insert");
    reveal_strlit("ins");
    reveal_strlit("home");
    reveal_strlit("end");
    reveal_strlit("pageup");
    reveal_strlit("pgup");
    reveal_strlit("pagedown");
    reveal_strlit("pgdn");
    reveal_strlit("up");
    reveal_strlit("arrowup");
    reveal_strlit("down");
    reveal_strlit("arrowdown");
    reveal_strlit("left");
    reveal_strlit("arrowleft");
    reveal_strlit("right");
    reveal_strlit("arrowright");
}

/// The keys for moving about lie where the system has them: the keys for pages and ends, then
/// the four arrows, one after the other. The names of a key are the same key, whatever the case
/// of the letters.
pub proof fn named_keys_are_those_of_the_system(name: Seq<char>)
    ensures
        ({
            let low = text::lowered(name);
            let k = named_key(name);
            &&& low == "backspace"@ ==> k == Some(8u16)
            &&& low == "tab"@ ==> k == Some(9u16)
            &&& low == "enter"@ || low == "return"@ ==> k == Some(13u16)
            &&& low == "esc"@ || low == "escape"@ ==> k == Some(27u16)
            &&& low == "space"@ || low == "spacebar"@ ==> k == Some(32u16)
            &&& low == "pageup"@ || low == "pgup"@ ==> k == Some(33u16)
            &&& low == "pagedown"@ || low == "pgdn"@ ==> k == Some(34u16)
            &&& low == "end"@ ==> k == Some(35u16)
            &&& low == "home"@ ==> k == Some(36u16)
            &&& low == "left"@ || low == "arrowleft"@ ==> k == Some(37u16)
            &&& low == "up"@ || low == "arrowup"@ ==> k == Some(38u16)
            &&& low == "right"@ || low == "arrowright"@ ==> k == Some(39u16)
            &&& low == "down"@ || low == "arrowdown"@ ==> k == Some(40u16)
            &&& low == "insert"@ || low == "ins"@ ==> k == Some(45u16)
            &&& low == "delete"@ || low == "del"@ ==> k == Some(46u16)
        }),
        ({
            let low = text::lowered(name);
            let k = modifier_key(name);
            &&& low == "shift"@ ==> k == Some(16u16)
            &&& low == "ctrl"@ || low == "control"@ ==> k == Some(17u16)
            &&& low == "alt"@ || low == "menu"@ ==> k == Some(18u16)
            &&& low == "win"@ || low == "meta"@ || low == "super"@ ==> k == Some(91u16)
        }),
{
    reveal_strlit("enter");
    reveal_strlit("return");
    reveal_strlit("esc");
    reveal_strlit("escape");
    reveal_strlit("tab");
    reveal_strlit("space");
    reveal_strlit("spacebar");
    reveal_strlit("backspace");
    reveal_strlit("delete");
    reveal_strlit("del");
    reveal_strlit("insert");
    reveal_strlit("ins");
    reveal_strlit("home");
    reveal_strlit("end");
    reveal_strlit("pageup");
    reveal_strlit("pgup");
    reveal_strlit("pagedown");
    reveal_strlit("pgdn");
    reveal_strlit("up");
    reveal_strlit("arrowup");
    reveal_strlit("down");
    reveal_strlit("arrowdown");
    reveal_strlit("left");
    reveal_strlit("arrowleft");
    reveal_strlit("right");
    reveal_strlit("arrowright");
    reveal_strlit("ctrl");
    reveal_strlit("control");
    reveal_strlit("shift");
    reveal_strlit("alt");
    reveal_strlit("menu");
    reveal_strlit("win");
    reveal_strlit("meta");
    reveal_strlit("super");
    assert("enter"@.len() == 5 && "enter"@[0] == 'e' && "enter"@[1] == 'n' && "enter"@[2] == 't');
    assert("return"@.len() == 6 && "return"@[0] == 'r' && "return"@[1] == 'e' && "return"@[2] == 't');
    assert("esc"@.len() == 3 && "esc"@[0] == 'e' && "esc"@[1] == 's' && "esc"@[2] == 'c');
    assert("escape"@.len() == 6 && "escape"@[0] == 'e' && "escape"@[1] == 's' && "escape"@[2] == 'c');
    assert("tab"@.len() == 3 && "tab"@[0] == 't' && "tab"@[1] == 'a' && "tab"@[2] == 'b');
    assert("space"@.len() == 5 && "space"@[0] == 's' && "space"@[1] == 'p' && "space"@[2] == 'a');
    assert("spacebar"@.len() == 8 && "spacebar"@[0] == 's' && "spacebar"@[1] == 'p' && "spacebar"@[2] == 'a');
    assert("backspace"@.len() == 9 && "backspace"@[0] == 'b' && "backspace"@[1] == 'a' && "backspace"@[2] == 'c' && "backspace"@[5] == 'p');
    assert("delete"@.len() == 6 && "delete"@[0] == 'd' && "delete"@[1] == 'e' && "delete"@[2] == 'l');
    assert("del"@.len() == 3 && "del"@[0] == 'd' && "del"@[1] == 'e' && "del"@[2] == 'l');
    assert("insert"@.len() == 6 && "insert"@[0] == 'i' && "insert"@[1] == 'n' && "insert"@[2] == 's');
    assert("ins"@.len() == 3 && "ins"@[0] == 'i' && "ins"@[1] == 'n' && "ins"@[2] == 's');
    assert("home"@.len() == 4 && "home"@[0] == 'h' && "home"@[1] == 'o' && "home"@[2] == 'm');
    assert("end"@.len() == 3 && "end"@[0] == 'e' && "end"@[1] == 'n' && "end"@[2] == 'd');
    assert("pageup"@.len() == 6 && "pageup"@[0] == 'p' && "pageup"@[1] == 'a' && "pageup"@[2] == 'g');
    assert("pgup"@.len() == 4 && "pgup"@[0] == 'p' && "pgup"@[1] == 'g' && "pgup"@[2] == 'u');
    assert("pagedown"@.len() == 8 && "pagedown"@[0] == 'p' && "pagedown"@[1] == 'a' && "pagedown"@[2] == 'g');
    assert("pgdn"@.len() == 4 && "pgdn"@[0] == 'p' && "pgdn"@[1] == 'g' && "pgdn"@[2] == 'd');
    assert("up"@.len() == 2 && "up"@[0] == 'u' && "up"@[1] == 'p');
    assert("arrowup"@.len() == 7 && "arrowup"@[0] == 'a' && "arrowup"@[1] == 'r' && "arrowup"@[2] == 'r');
    assert("down"@.len() == 4 && "down"@[0] == 'd' && "down"@[1] == 'o' && "down"@[2] == 'w');
    assert("arrowdown"@.len() == 9 && "arrowdown"@[0] == 'a' && "arrowdown"@[1] == 'r' && "arrowdown"@[2] == 'r' && "arrowdown"@[5] == 'd');
    assert("left"@.len() == 4 && "left"@[0] == 'l' && "left"@[1] == 'e' && "left"@[2] == 'f');
    assert("arrowleft"@.len() == 9 && "arrowleft"@[0] == 'a' && "arrowleft"@[1] == 'r' && "arrowleft"@[2] == 'r' && "arrowleft"@[5] == 'l');
    assert("right"@.len() == 5 && "right"@[0] == 'r' && "right"@[1] == 'i' && "right"@[2] == 'g');
    assert("arrowright"@.len() == 10 && "arrowright"@[0] == 'a' && "arrowright"@[1] == 'r' && "arrowright"@[2] == 'r');
    assert("ctrl"@.len() == 4 && "ctrl"@[0] == 'c' && "ctrl"@[1] == 't' && "ctrl"@[2] == 'r');
    assert("control"@.len() == 7 && "control"@[0] == 'c' && "control"@[1] == 'o' && "control"@[2] == 'n');
    assert("shift"@.len() == 5 && "shift"@[0] == 's' && "shift"@[1] == 'h' && "shift"@[2] == 'i');
    assert("alt"@.len() == 3 && "alt"@[0] == 'a' && "alt"@[1] == 'l' && "alt"@[2] == 't');
    assert("menu"@.len() == 4 && "menu"@[0] == 'm' && "menu"@[1] == 'e' && "menu"@[2] == 'n');
    assert("win"@.len() == 3 && "win"@[0] == 'w' && "win"@[1] == 'i' && "win"@[2] == 'n');
    assert("meta"@.len() == 4 && "meta"@[0] == 'm' && "meta"@[1] == 'e' && "meta"@[2] == 't');
    assert("super"@.len() == 5 && "super"@[0] == 's' && "super"@[1] == 'u' && "super"@[2] == 'p');
}

/// What the layout gives for a character is taken apart without loss: the key is its low byte,
/// shift the lowest bit of the other.
pub proof fn layouts_are_taken_at_their_word(key: Seq<char>, scanned: u16)
    requires
        scan_unit(key) is Some,
        scanned != 0xFFFF,
    ensures
        ({
            let r = resolved_key(key, scanned);
            &&& r is Ok
            &&& r->Ok_0.0 < 256
            &&& (scanned - r->Ok_0.0) % 256 == 0
            &&& r->Ok_0.1 <==> (scanned - r->Ok_0.0) / 256 % 2 == 1
        }),
        resolved_key(key, 0xFFFF) is Err,
{
}

/// Every modifier that is named is held, each once, in the order in which they are first named,
/// and no other key; a name that is none holds none.
pub proof fn named_modifiers_are_held(names: Seq<Seq<char>>, k: int)
    requires
        0 <= k < names.len(),
    ensures
        modifier_key(names[k]) is None ==> held_keys(names) is Err,
        held_keys(names) is Ok ==> {
            let keys = held_keys(names)->Ok_0;
            &&& modifier_key(names[k]) is Some
            &&& keys.contains(modifier_key(names[k])->0)
            &&& keys.no_duplicates()
            &&& keys.len() <= names.len()
            &&& keys[0] == modifier_key(names[0])->0
        },
    decreases names.len(),
{
    let less = names.drop_last();
    if less.len() > 0 {
        named_modifiers_are_held(
            less,
            if k < less.len() {
                k
            } else {
                0
            },
        );
        assert(less[0] == names[0]);
        if k < less.len() {
            assert(less[k] == names[k]);
        }
    } else {
        assert(held_keys(less) == Ok::<Seq<u16>, Seq<char>>(Seq::empty()));
    }
    if held_keys(names) is Ok {
        let keys = held_keys(names)->Ok_0;
        let before = held_keys(less)->Ok_0;
        let last = modifier_key(names.last())->0;
        if k < less.len() {
            let j = choose|j: int|
                0 <= j < before.len() && before[j] == modifier_key(names[k])->0;
            assert(keys[j] == before[j]);
        } else if !before.contains(last) {
            assert(keys[before.len() as int] == last);
        }
    }
}

/// A tap presses the held keys in order and then its key, and releases that first; shift is
/// among the held keys where it is needed, once.
pub proof fn taps_press_in_order(held: Seq<u16>, vk: u16, i: int, needed: bool)
    requires
        0 <= i < held.len(),
        held.no_duplicates(),
    ensures
        ({
            let e = tap_events(held, vk);
            let n = held.len() as int;
            &&& e.len() == 2 * n + 2
            &&& e[i].vk == held[i] && e[i].flags == 0
            &&& e[n].vk == vk && e[n].flags == 0
            &&& e[n + 1].vk == vk && e[n + 1].flags == 2
            &&& e[2 * n + 1 - i].vk == held[i] && e[2 * n + 1 - i].flags == 2
        }),
        with_shift(held, needed).no_duplicates(),
        needed ==> with_shift(held, needed).contains(16u16),
        held.is_prefix_of(with_shift(held, needed)),
        !needed ==> with_shift(held, needed) == held,
{
    let w = with_shift(held, needed);
    assert(w.subrange(0, held.len() as int) =~= held);
    if needed && !held.contains(VK_SHIFT) {
        assert(w[held.len() as int] == 16u16);
    }
}

/// Where the first zero stands; the number of units where there is none.
pub open spec fn first_zero(u: Seq<u16>) -> nat
    decreases u.len(),
{
    if u.len() == 0 || u[0] == 0 {
        0
    } else {
        1 + first_zero(u.skip(1))
    }
}

/// The paths that a program reads in the units of a file list: each up to a zero, all up to an
/// empty one.
pub open spec fn listed(u: Seq<u16>) -> Seq<Seq<char>>
    decreases u.len(),
{
    let i = first_zero(u);
    if 0 < i < u.len() {
        seq![utf16::text_of(u.take(i as int))] + listed(u.skip(i as int + 1))
    } else {
        Seq::empty()
    }
}

proof fn lemma_char_has_no_zero(c: char, k: int)
    requires
        c as int != 0,
        0 <= k < utf16::char_units(c).len(),
    ensures
        utf16::char_units(c)[k] != 0,
{
    let n = c as int;
    if n >= 0x10000 {
        let m = n - 0x10000;
        assert(0 <= m / 0x400 < 0x400 && 0 <= m % 0x400 < 0x400);
    }
}

proof fn lemma_units_have_no_zero(s: Seq<char>, k: int)
    requires
        forall|i: int| 0 <= i < s.len() ==> #[trigger] s[i] as int != 0,
        0 <= k < utf16::units_of(s).len(),
    ensures
        utf16::units_of(s)[k] != 0,
    decreases s.len(),
{
    let less = s.drop_last();
    let n = utf16::units_of(less).len();
    if k < n {
        assert forall|i: int| 0 <= i < less.len() implies #[trigger] less[i] as int != 0 by {
            assert(less[i] == s[i]);
        }
        lemma_units_have_no_zero(less, k);
    } else {
        assert(s.last() == s[s.len() - 1]);
        lemma_char_has_no_zero(s.last(), k - n);
    }
}

proof fn lemma_first_zero(a: Seq<u16>, b: Seq<u16>)
    requires
        forall|i: int| 0 <= i < a.len() ==> #[trigger] a[i] != 0,
    ensures
        first_zero(a + seq![0u16] + b) == a.len(),
    decreases a.len(),
{
    let u = a + seq![0u16] + b;
    if a.len() > 0 {
        assert(u[0] == a[0]);
        assert(u.skip(1) =~= a.skip(1) + seq![0u16] + b);
        assert forall|i: int| 0 <= i < a.skip(1).len() implies #[trigger] a.skip(1)[i] != 0 by {
            assert(a.skip(1)[i] == a[i + 1]);
        }
        lemma_first_zero(a.skip(1), b);
    } else {
        assert(u[0] == 0);
    }
}

proof fn lemma_list_front(p: Seq<char>, rest: Seq<Seq<char>>)
    ensures
        list_units(seq![p] + rest) == utf16::units_of(p) + seq![0u16] + list_units(rest),
    decreases rest.len(),
{
    let all = seq![p] + rest;
    if rest.len() == 0 {
        assert(all.drop_last() =~= Seq::<Seq<char>>::empty());
        assert(all.last() == p);
        assert(list_units(all.drop_last()) =~= Seq::<u16>::empty());
        assert(list_units(all) =~= utf16::units_of(p) + seq![0u16] + list_units(rest));
    } else {
        assert(all.drop_last() =~= seq![p] + rest.drop_last());
        assert(all.last() == rest.last());
        lemma_list_front(p, rest.drop_last());
        assert(list_units(all) =~= utf16::units_of(p) + seq![0u16] + list_units(rest));
    }
}

/// A program that reads a file list finds the paths that were put into it, all of them and in
/// order.
pub proof fn listed_paths_read_back(paths: Seq<Seq<char>>)
    requires
        forall|k: int| 0 <= k < paths.len() ==> (#[trigger] paths[k]).len() > 0,
        forall|k: int, i: int|
            0 <= k < paths.len() && 0 <= i < paths[k].len() ==> #[trigger] paths[k][i] as int != 0,
    ensures
        listed(list_units(paths).push(0)) == paths,
    decreases paths.len(),
{
    if paths.len() == 0 {
        assert(list_units(paths).push(0) =~= seq![0u16]);
        assert(listed(list_units(paths).push(0)) =~= paths);
    } else {
        let p = paths[0];
        let rest = paths.skip(1);
        assert(paths =~= seq![p] + rest);
        lemma_list_front(p, rest);
        assert forall|k: int| 0 <= k < rest.len() implies (#[trigger] rest[k]).len() > 0 by {
            assert(rest[k] == paths[k + 1]);
        }
        assert forall|k: int, i: int|
            0 <= k < rest.len() && 0 <= i < rest[k].len() implies #[trigger] rest[k][i] as int
            != 0 by {
            assert(rest[k] == paths[k + 1]);
            assert(paths[k + 1][i] as int != 0);
        }
        listed_paths_read_back(rest);
        let a = utf16::units_of(p);
        let b = list_units(rest).push(0);
        let u = list_units(paths).push(0);
        assert(u =~= a + seq![0u16] + b);
        assert forall|i: int| 0 <= i < a.len() implies #[trigger] a[i] != 0 by {
            assert forall|j: int| 0 <= j < p.len() implies #[trigger] p[j] as int != 0 by {
                assert(paths[0][j] as int != 0);
            }
            lemma_units_have_no_zero(p, i);
        }
        lemma_first_zero(a, b);
        assert(a.len() > 0) by {
            assert(utf16::units_of(p) == utf16::units_of(p.drop_last()) + utf16::char_units(
                p.last(),
            ));
        }
        assert(u.take(a.len() as int) =~= a);
        assert(u.skip(a.len() as int + 1) =~= b);
        utf16::units_read_back(p);
    }
}

/// The head of a file list says where the units begin and that they are such, and every unit
/// stands in two bytes, the low one first.
pub proof fn lists_hold_their_units(paths: Seq<Seq<char>>, k: int)
    requires
        0 <= k <= list_units(paths).len(),
    ensures
        ({
            let b = list_bytes(paths);
            let u = list_units(paths).push(0);
            &&& b.len() == 20 + 2 * u.len()
            &&& b[0] == 20 && b[1] == 0 && b[2] == 0 && b[3] == 0
            &&& b[16] == 1 && b[17] == 0 && b[18] == 0 && b[19] == 0
            &&& b[20 + 2 * k] + 256 * b[21 + 2 * k] == u[k]
        }),
{
    assert((2 * k) / 2 == k && (2 * k + 1) / 2 == k);
}

/// Whether the system took all events that were sent.
pub open spec fn all_were_taken(sent: u32, total: usize) -> bool {
    sent == total
}

/// What is told when the clipboard's number was one and is another.
pub open spec fn change_of(last: u32, current: u32) -> Option<ClipboardChanged> {
    if last == current {
        None
    } else {
        Some(ClipboardChanged { sequence: current })
    }
}

/// Whether a session's watching was ended, and who watches afterwards.
pub open spec fn watch_after_stop(owner: Option<(Seq<char>, bool)>, by: (Seq<char>, bool)) -> (
    bool,
    Option<(Seq<char>, bool)>,
) {
    if owner == Some(by) {
        (true, None)
    } else {
        (false, owner)
    }
}

/// Sending succeeds only where nothing was left out.
pub proof fn sending_succeeds_only_whole(sent: u32, total: usize)
    ensures
        sent < total ==> !all_were_taken(sent, total),
        sent > total ==> !all_were_taken(sent, total),
        total <= u32::MAX ==> all_were_taken(total as u32, total),
{
}

/// Every change of the clipboard is told, with its new number, and nothing is told without one.
pub proof fn every_change_of_the_clipboard_is_told(last: u32, current: u32)
    ensures
        last != current ==> change_of(last, current) is Some && (change_of(
            last,
            current,
        )->0).sequence == current,
        change_of(current, current) is None,
{
}

/// A session ends its own watching and never that of another one.
pub proof fn only_the_watcher_stops_watching(
    owner: (Seq<char>, bool),
    by: (Seq<char>, bool),
)
    ensures
        watch_after_stop(Some(by), by) == (true, None::<(Seq<char>, bool)>),
        owner != by ==> watch_after_stop(Some(owner), by) == (false, Some(owner)),
        watch_after_stop(None, by) == (false, None::<(Seq<char>, bool)>),
{
}

/// A tap presses its own key once, with every modifier that is named down, and leaves no key
/// down: what goes down comes up again.
pub proof fn taps_leave_no_key_down(
    key: Seq<char>,
    modifiers: Seq<Seq<char>>,
    scanned: u16,
    i: int,
)
    requires
        tapped(key, modifiers, scanned) is Ok,
    ensures
        ({
            let e = tapped(key, modifiers, scanned)->Ok_0;
            let n = e.len() as int / 2;
            &&& e.len() == 2 * n
            &&& n >= 1
            &&& n <= modifiers.len() + 2
            &&& named_key(key) is Some ==> e[n - 1].vk == named_key(key)->0
            &&& named_key(key) is None ==> e[n - 1].vk == scanned % 256
            &&& 0 <= i < n ==> {
                &&& e[i].flags == 0
                &&& e[2 * n - 1 - i].flags == 2
                &&& e[2 * n - 1 - i].vk == e[i].vk
            }
            &&& 0 <= i < modifiers.len() ==> modifier_key(modifiers[i]) is Some && exists|j: int|
                0 <= j < n - 1 && (#[trigger] e[j]).vk == modifier_key(modifiers[i])->0
        }),
{
    let e = tapped(key, modifiers, scanned)->Ok_0;
    let keys = held_keys(modifiers)->Ok_0;
    let shift = resolved_key(key, scanned)->Ok_0.1;
    let held = with_shift(keys, shift);
    assert(e.len() == 2 * held.len() + 2);
    assert(e.len() as int / 2 == held.len() + 1);
    if modifiers.len() > 0 {
        named_modifiers_are_held(modifiers, 0);
    } else {
        assert(keys =~= Seq::<u16>::empty());
    }
    if 0 <= i < modifiers.len() {
        named_modifiers_are_held(modifiers, i);
        let want = modifier_key(modifiers[i])->0;
        let j = choose|j: int| 0 <= j < keys.len() && keys[j] == want;
        assert(held[j] == want);
        assert(e[j].vk == want);
    }
}

} // verus!
