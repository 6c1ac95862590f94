//! Watching directories: what the system reports, and what a plugin page is told of it.

use crate::codec;
use crate::session::ActiveSession;
use crate::table::Table;
use crate::text;
use crate::utf16;
use vstd::prelude::*;

verus! {

/// The most directories that one plugin may watch at a time.
pub const MAX_WATCHES_PER_SESSION: usize = 20;

/// The milliseconds without a further change after which a change is told.
pub const DEBOUNCE_WINDOW: u64 = 300;

/// The milliseconds between two looks for changes that are due.
pub const DEBOUNCE_TICK: u64 = 120;

/// The event that tells a page of a change.
pub const EVT_WATCH: &'static str = "plugin-fs-watch";

// ---------------------------------------------------------------------------
// Records of changes
// ---------------------------------------------------------------------------

/// The bytes of a record in front of the name.
pub const RECORD_HEAD: usize = 12;

/// The number in four bytes, lowest byte first.
pub open spec fn u32_at(b: Seq<u8>, i: int) -> int {
    b[i] + 256 * b[i + 1] + 65536 * b[i + 2] + 16777216 * b[i + 3]
}

/// The number in two bytes, lowest byte first.
pub open spec fn u16_at(b: Seq<u8>, i: int) -> u16 {
    (b[i] + 256 * b[i + 1]) as u16
}

fn read_u32(b: &[u8], i: usize) -> (r: u32)
    requires
        i + 4 <= b@.len(),
    ensures
        r == u32_at(b@, i as int),
{
    b[i] as u32 + 256 * (b[i + 1] as u32) + 65536 * (b[i + 2] as u32) + 16777216 * (b[i
        + 3] as u32)
}

/// One reported change: the number of the action and the name it concerns.
pub struct Record {
    pub action: u32,
    pub name: Vec<char>,
}

/// The view of [`Record`].
pub struct RecordView {
    pub action: u32,
    pub name: Seq<char>,
}

impl View for Record {
    type V = RecordView;

    open spec fn view(&self) -> RecordView {
        RecordView { action: self.action, name: self.name@ }
    }
}

/// Whether a whole record stands at an offset.
pub open spec fn record_fits(b: Seq<u8>, at: int) -> bool {
    &&& 0 <= at
    &&& at + RECORD_HEAD <= b.len()
    &&& at + RECORD_HEAD + u32_at(b, at + 8) <= b.len()
}

/// The name units of the record at an offset.
pub open spec fn name_units(b: Seq<u8>, at: int) -> Seq<u16> {
    Seq::new((u32_at(b, at + 8) / 2) as nat, |k: int| u16_at(b, at + RECORD_HEAD + 2 * k))
}

/// The record at an offset.
pub open spec fn record_at(b: Seq<u8>, at: int) -> RecordView {
    RecordView { action: u32_at(b, at + 4) as u32, name: utf16::text_of(name_units(b, at)) }
}

/// The records from an offset on: each says how far the next one is, 0 being the last.
pub open spec fn records_from(b: Seq<u8>, at: int) -> Seq<RecordView>
    decreases
            if at <= b.len() {
                b.len() - at
            } else {
                0
            },
{
    if !record_fits(b, at) {
        Seq::empty()
    } else if u32_at(b, at) <= 0 {
        seq![record_at(b, at)]
    } else {
        seq![record_at(b, at)] + records_from(b, at + u32_at(b, at))
    }
}

/// The view of a list of records.
pub open spec fn record_views(v: Seq<Record>) -> Seq<RecordView> {
    Seq::new(v.len(), |i: int| v[i]@)
}

fn read_name(b: &[u8], at: usize, len: u32) -> (r: Vec<u16>)
    requires
        record_fits(b@, at as int),
        len == u32_at(b@, at + 8),
    ensures
        r@ == name_units(b@, at as int),
{
    let total: usize = b.len();
    let count: u32 = len / 2;
    let mut out: Vec<u16> = Vec::new();
    let mut k: u32 = 0;
    while k < count
        invariant
            total == b@.len(),
            record_fits(b@, at as int),
            len == u32_at(b@, at + 8),
            count == len / 2,
            k <= count,
            out@ == name_units(b@, at as int).take(k as int),
        decreases count - k,
    {
        let i: usize = at + RECORD_HEAD + 2 * (k as usize);
        let u: u16 = b[i] as u16 + 256 * (b[i + 1] as u16);
        out.push(u);
        assert(u == u16_at(b@, at + RECORD_HEAD + 2 * k));
        assert(out@ =~= name_units(b@, at as int).take(k + 1));
        k += 1;
    }
    assert(name_units(b@, at as int).take(k as int) =~= name_units(b@, at as int));
    out
}

/// Reads the records that the system put into a buffer, see [`records_from`].
pub fn read_records(b: &[u8]) -> (r: Vec<Record>)
    ensures
        record_views(r@) == records_from(b@, 0),
{
    let total: usize = b.len();
    let mut out: Vec<Record> = Vec::new();
    let mut at: usize = 0;
    let mut more: bool = true;
    assert(record_views(out@) =~= Seq::<RecordView>::empty());
    assert(record_views(out@) + records_from(b@, 0) =~= records_from(b@, 0));
    while more && at <= total && total - at >= RECORD_HEAD
        invariant
            total == b@.len(),
            more ==> records_from(b@, 0) == record_views(out@) + records_from(b@, at as int),
            !more ==> records_from(b@, 0) == record_views(out@),
        decreases total - at + (if more {
            1int
        } else {
            0
        }),
    {
        let next: u32 = read_u32(b, at);
        let action: u32 = read_u32(b, at + 4);
        let len: u32 = read_u32(b, at + 8);
        if (total - at - RECORD_HEAD) as u64 >= len as u64 {
            let units = read_name(b, at, len);
            let name = utf16::decode_lossy(units.as_slice());
            let ghost before = out@;
            out.push(Record { action, name });
            assert(record_views(out@) =~= record_views(before).push(record_at(b@, at as int)));
            if next == 0 {
                assert(record_views(before) + seq![record_at(b@, at as int)] =~= record_views(
                    out@,
                ));
                more = false;
            } else {
                let ghost rest = records_from(b@, at + next);
                assert(record_views(before) + (seq![record_at(b@, at as int)] + rest)
                    =~= record_views(out@) + rest);
                if next as u64 >= (total - at) as u64 {
                    assert(rest =~= Seq::<RecordView>::empty());
                    assert(record_views(out@) + rest =~= record_views(out@));
                    more = false;
                } else {
                    at = at + next as usize;
                }
            }
        } else {
            assert(records_from(b@, at as int) =~= Seq::<RecordView>::empty());
            assert(record_views(out@) + records_from(b@, at as int) =~= record_views(out@));
            more = false;
        }
    }
    proof {
        if more {
            assert(records_from(b@, at as int) =~= Seq::<RecordView>::empty());
            assert(record_views(out@) + records_from(b@, at as int) =~= record_views(out@));
        }
    }
    out
}

// ---------------------------------------------------------------------------
// Changes
// ---------------------------------------------------------------------------

/// What happened, with the whole paths that it concerns, see [`full_path`].
#[derive(Debug)]
pub enum RawEvent {
    Change { kind: &'static str, path: String },
    Rename { old: String, new: String },
    /// Watching has ended for this reason.
    Error(String),
}

/// The view of [`RawEvent`].
pub enum RawEventView {
    Change(Seq<char>, Seq<char>),
    Rename(Seq<char>, Seq<char>),
    Error(Seq<char>),
}

impl View for RawEvent {
    type V = RawEventView;

    open spec fn view(&self) -> RawEventView {
        match self {
            RawEvent::Change { kind, path } => RawEventView::Change(kind@, path@),
            RawEvent::Rename { old, new } => RawEventView::Rename(old@, new@),
            RawEvent::Error(m) => RawEventView::Error(m@),
        }
    }
}

/// The view of a list of events.
pub open spec fn event_views(v: Seq<RawEvent>) -> Seq<RawEventView> {
    Seq::new(v.len(), |i: int| v[i]@)
}

pub const FILE_ACTION_ADDED: u32 = 1;

pub const FILE_ACTION_REMOVED: u32 = 2;

pub const FILE_ACTION_MODIFIED: u32 = 3;

pub const FILE_ACTION_RENAMED_OLD_NAME: u32 = 4;

pub const FILE_ACTION_RENAMED_NEW_NAME: u32 = 5;

/// Whether a name is one that is watched: any, or a given one whatever its case.
pub open spec fn passes(name: Seq<char>, only: Option<Seq<char>>) -> bool {
    match only {
        Some(f) => text::same_nocase(name, f),
        None => true,
    }
}

/// Whether a name can follow a directory's path without a separator between them: there is one
/// already, the path is empty, or it is a bare drive.
pub open spec fn is_open_ended(dir: Seq<char>) -> bool {
    ||| dir.len() == 0
    ||| dir.last() == '\\'
    ||| dir.last() == '/'
    ||| dir.len() == 2 && dir[1] == ':' && text::is_letter(dir[0])
}

/// The path of something in a watched directory: the directory, a separator and the reported
/// name. In a directory whose path is taken as it stands (`\\?\`), names are separated by
/// backslashes, else by slashes.
pub open spec fn full_path(dir: Seq<char>, name: Seq<char>) -> Seq<char> {
    let inner = if "\\\\?\\"@.is_prefix_of(dir) {
        text::replaced(name, '/', '\\')
    } else {
        text::replaced(name, '\\', '/')
    };
    if is_open_ended(dir) {
        dir + inner
    } else {
        dir.push('\\') + inner
    }
}

/// The path of something in a watched directory, see [`full_path`].
pub fn join_reported(dir: &str, name: &[char]) -> (r: String)
    ensures
        r@ == full_path(dir@, name@),
{
    let mut out = text::chars_of(dir);
    let n: usize = out.len();
    let inner = if text::has_prefix(out.as_slice(), "\\\\?\\") {
        text::replace_char(name, '/', '\\')
    } else {
        text::replace_char(name, '\\', '/')
    };
    let open = n == 0 || out[n - 1] == '\\' || out[n - 1] == '/' || (n == 2 && out[1] == ':'
        && (('a' <= out[0] && out[0] <= 'z') || ('A' <= out[0] && out[0] <= 'Z')));
    if !open {
        out.push('\\');
    }
    let mut inner = inner;
    out.append(&mut inner);
    text::string_of(out.as_slice())
}

/// The event that a record gives, and the old path that is kept for the record after it.
pub open spec fn record_event(
    rec: RecordView,
    dir: Seq<char>,
    only: Option<Seq<char>>,
    kept: Option<Seq<char>>,
) -> (Option<RawEventView>, Option<Seq<char>>) {
    let path = full_path(dir, rec.name);
    if !passes(rec.name, only) {
        (None, if rec.action == FILE_ACTION_RENAMED_OLD_NAME {
            None
        } else {
            kept
        })
    } else if rec.action == FILE_ACTION_ADDED {
        (Some(RawEventView::Change("created"@, path)), kept)
    } else if rec.action == FILE_ACTION_REMOVED {
        (Some(RawEventView::Change("removed"@, path)), kept)
    } else if rec.action == FILE_ACTION_MODIFIED {
        (Some(RawEventView::Change("modified"@, path)), kept)
    } else if rec.action == FILE_ACTION_RENAMED_OLD_NAME {
        (None, Some(path))
    } else if rec.action == FILE_ACTION_RENAMED_NEW_NAME {
        match kept {
            Some(old) => (Some(RawEventView::Rename(old, path)), None),
            None => (Some(RawEventView::Change("created"@, path)), None),
        }
    } else {
        (None, kept)
    }
}

/// The events that records give, and the old path that is kept after them.
pub open spec fn events_of(recs: Seq<RecordView>, dir: Seq<char>, only: Option<Seq<char>>) -> (
    Seq<RawEventView>,
    Option<Seq<char>>,
)
    decreases recs.len(),
{
    if recs.len() == 0 {
        (Seq::empty(), None)
    } else {
        let (before, kept) = events_of(recs.drop_last(), dir, only);
        let (event, kept_after) = record_event(recs.last(), dir, only, kept);
        (
            match event {
                Some(e) => before.push(e),
                None => before,
            },
            kept_after,
        )
    }
}

fn event_of(rec: &Record, dir: &str, only: Option<&str>, kept: &mut Option<String>) -> (r: Option<
    RawEvent,
>)
    ensures
        (text::opt_view(r), text::opt_view(*final(kept))) == record_event(
            rec@,
            dir@,
            text::opt_str(only),
            text::opt_view(*old(kept)),
        ),
{
    let pass = match only {
        Some(f) => {
            let g = text::chars_of(f);
            text::eq_nocase(rec.name.as_slice(), g.as_slice())
        },
        None => true,
    };
    if !pass {
        if rec.action == FILE_ACTION_RENAMED_OLD_NAME {
            *kept = None;
        }
        return None;
    }
    let path = join_reported(dir, rec.name.as_slice());
    if rec.action == FILE_ACTION_ADDED {
        Some(RawEvent::Change { kind: "created", path })
    } else if rec.action == FILE_ACTION_REMOVED {
        Some(RawEvent::Change { kind: "removed", path })
    } else if rec.action == FILE_ACTION_MODIFIED {
        Some(RawEvent::Change { kind: "modified", path })
    } else if rec.action == FILE_ACTION_RENAMED_OLD_NAME {
        *kept = Some(path);
        None
    } else if rec.action == FILE_ACTION_RENAMED_NEW_NAME {
        match kept.take() {
            Some(old_path) => Some(RawEvent::Rename { old: old_path, new: path }),
            None => Some(RawEvent::Change { kind: "created", path }),
        }
    } else {
        None
    }
}

/// Reads the changes of a directory out of a buffer that the system filled. With `only`,
/// changes of other names are left out.
pub fn read_changes(b: &[u8], dir: &str, only: Option<&str>) -> (r: Vec<RawEvent>)
    ensures
        event_views(r@) == events_of(records_from(b@, 0), dir@, text::opt_str(only)).0,
{
    let recs = read_records(b);
    let ghost all = record_views(recs@);
    let mut out: Vec<RawEvent> = Vec::new();
    let mut kept: Option<String> = None;
    let mut i: usize = 0;
    assert(all.take(0) =~= Seq::<RecordView>::empty());
    assert(event_views(out@) =~= Seq::<RawEventView>::empty());
    while i < recs.len()
        invariant
            i <= recs@.len(),
            all == record_views(recs@),
            (event_views(out@), text::opt_view(kept)) == events_of(
                all.take(i as int),
                dir@,
                text::opt_str(only),
            ),
        decreases recs@.len() - i,
    {
        assert(all.take(i + 1).drop_last() =~= all.take(i as int));
        assert(all.take(i + 1).last() == recs@[i as int]@);
        let ghost before = out@;
        match event_of(&recs[i], dir, only, &mut kept) {
            Some(e) => {
                out.push(e);
                assert(event_views(out@) =~= event_views(before).push(e@));
            },
            None => {},
        }
        i += 1;
    }
    assert(all.take(i as int) =~= all);
    out
}

/// When a record with an old name is followed by the one with the new name, one renaming is
/// told, with both paths.
pub proof fn renames_are_paired(recs: Seq<RecordView>, dir: Seq<char>, only: Option<Seq<char>>)
    requires
        recs.len() >= 2,
        recs[recs.len() - 2].action == FILE_ACTION_RENAMED_OLD_NAME,
        recs[recs.len() - 1].action == FILE_ACTION_RENAMED_NEW_NAME,
        passes(recs[recs.len() - 2].name, only),
        passes(recs[recs.len() - 1].name, only),
    ensures
        events_of(recs, dir, only).0 == events_of(recs.take(recs.len() - 2), dir, only).0.push(
            RawEventView::Rename(
                full_path(dir, recs[recs.len() - 2].name),
                full_path(dir, recs[recs.len() - 1].name),
            ),
        ),
{
    reveal_with_fuel(events_of, 3);
    assert(recs.drop_last().drop_last() =~= recs.take(recs.len() - 2));
    assert(recs.drop_last().last() == recs[recs.len() - 2]);
}

/// Whether all paths of an event begin with a directory's path.
pub open spec fn lies_in(e: RawEventView, dir: Seq<char>) -> bool {
    match e {
        RawEventView::Change(_, path) => dir.is_prefix_of(path),
        RawEventView::Rename(from, to) => dir.is_prefix_of(from) && dir.is_prefix_of(to),
        RawEventView::Error(_) => true,
    }
}

proof fn lemma_events_lie_in(recs: Seq<RecordView>, dir: Seq<char>, only: Option<Seq<char>>)
    ensures
        forall|k: int|
            0 <= k < events_of(recs, dir, only).0.len() ==> lies_in(
                #[trigger] events_of(recs, dir, only).0[k],
                dir,
            ),
        events_of(recs, dir, only).1 matches Some(p) ==> dir.is_prefix_of(p),
    decreases recs.len(),
{
    if recs.len() > 0 {
        lemma_events_lie_in(recs.drop_last(), dir, only);
        let (before, kept) = events_of(recs.drop_last(), dir, only);
        assert(dir.is_prefix_of(full_path(dir, recs.last().name)));
        assert forall|k: int| 0 <= k < events_of(recs, dir, only).0.len() implies lies_in(
            #[trigger] events_of(recs, dir, only).0[k],
            dir,
        ) by {
            if k < before.len() {
                assert(lies_in(before[k], dir));
            }
        }
    }
}

/// Whatever the system says, every path that the reader tells begins with the path of the
/// watched directory; where that is absolute, so are they.
pub proof fn told_paths_are_whole(input: ReaderInput, dir: Seq<char>, only: Option<Seq<char>>)
    ensures
        forall|k: int|
            0 <= k < reader_turn(input, dir, only).0.len() ==> lies_in(
                #[trigger] reader_turn(input, dir, only).0[k],
                dir,
            ),
{
    if let ReaderInput::Read(b) = input {
        lemma_events_lie_in(records_from(b@, 0), dir, only);
        if b@.len() > 0 {
            assert(reader_turn(input, dir, only).0 == events_of(
                records_from(b@, 0),
                dir,
                only,
            ).0);
        }
    }
}

// ---------------------------------------------------------------------------
// The reader
// ---------------------------------------------------------------------------

/// What the system said to the reader of a directory.
#[derive(Debug)]
pub enum ReaderInput {
    /// No event object could be made.
    NoEvent(String),
    /// Reading changes could not be started.
    NotStarted(String),
    /// Waiting ended with this object: 0 is the reading, 1 the stop signal.
    Waited(u32),
    /// The reading gave these bytes.
    Read(Vec<u8>),
    /// The reading failed.
    ReadFailed(String),
}

/// What the reader does next.
#[derive(Clone, Copy, PartialEq, Eq, Debug, Structural)]
pub enum ReaderThen {
    /// Start the next reading.
    Start,
    /// Take the result of the reading.
    Fetch,
    /// Cancel the reading and end.
    Cancel,
    /// End.
    Stop,
}

/// What the reader tells and does after an input.
pub open spec fn reader_turn(input: ReaderInput, dir: Seq<char>, only: Option<Seq<char>>) -> (
    Seq<RawEventView>,
    ReaderThen,
) {
    match input {
        ReaderInput::NoEvent(e) => (
            seq![RawEventView::Error("创建 IO 完成事件失败: "@ + e@)],
            ReaderThen::Stop,
        ),
        ReaderInput::NotStarted(e) => (
            seq![RawEventView::Error("目录监听已终止: "@ + e@)],
            ReaderThen::Stop,
        ),
        ReaderInput::Waited(index) => if index == 0 {
            (Seq::empty(), ReaderThen::Fetch)
        } else if index == 1 {
            (Seq::empty(), ReaderThen::Cancel)
        } else {
            (seq![RawEventView::Error("等待目录事件失败"@)], ReaderThen::Stop)
        },
        ReaderInput::Read(b) => if b@.len() == 0 {
            (seq![RawEventView::Change("modified"@, dir)], ReaderThen::Start)
        } else {
            (events_of(records_from(b@, 0), dir, only).0, ReaderThen::Start)
        },
        ReaderInput::ReadFailed(e) => (
            seq![RawEventView::Error("目录已不可访问，监听终止: "@ + e@)],
            ReaderThen::Stop,
        ),
    }
}

fn one_event(e: RawEvent) -> (r: Vec<RawEvent>)
    ensures
        event_views(r@) == seq![e@],
{
    let mut v: Vec<RawEvent> = Vec::new();
    v.push(e);
    assert(event_views(v@) =~= seq![e@]);
    v
}

fn no_events() -> (r: Vec<RawEvent>)
    ensures
        event_views(r@) == Seq::<RawEventView>::empty(),
{
    let v: Vec<RawEvent> = Vec::new();
    assert(event_views(v@) =~= Seq::<RawEventView>::empty());
    v
}

/// Decides what the reader of a directory tells and does, see [`reader_turn`]. An empty reading means that
/// there were more changes than fit: the directory itself is then told as modified.
pub fn reader_step(input: &ReaderInput, dir: &str, only: Option<&str>) -> (r: (
    Vec<RawEvent>,
    ReaderThen,
))
    ensures
        (event_views(r.0@), r.1) == reader_turn(*input, dir@, text::opt_str(only)),
{
    match input {
        ReaderInput::NoEvent(e) => (
            one_event(RawEvent::Error(text::owned("创建 IO 完成事件失败: ").concat(e.as_str()))),
            ReaderThen::Stop,
        ),
        ReaderInput::NotStarted(e) => (
            one_event(RawEvent::Error(text::owned("目录监听已终止: ").concat(e.as_str()))),
            ReaderThen::Stop,
        ),
        ReaderInput::Waited(index) => {
            if *index == 0 {
                (no_events(), ReaderThen::Fetch)
            } else if *index == 1 {
                (no_events(), ReaderThen::Cancel)
            } else {
                (one_event(RawEvent::Error(text::owned("等待目录事件失败"))), ReaderThen::Stop)
            }
        },
        ReaderInput::Read(b) => {
            if b.len() == 0 {
                let path = text::owned(dir);
                (one_event(RawEvent::Change { kind: "modified", path }), ReaderThen::Start)
            } else {
                (read_changes(b.as_slice(), dir, only), ReaderThen::Start)
            }
        },
        ReaderInput::ReadFailed(e) => (
            one_event(
                RawEvent::Error(text::owned("目录已不可访问，监听终止: ").concat(e.as_str())),
            ),
            ReaderThen::Stop,
        ),
    }
}

// ---------------------------------------------------------------------------
// Debouncing
// ---------------------------------------------------------------------------

/// What a plugin page is told.
#[derive(Debug)]
pub struct FsWatchEvent {
    pub watch_id: String,
    /// `created`, `modified`, `removed`, `renamed` or `error`.
    pub kind: String,
    /// The whole path; empty for an error.
    pub path: String,
    /// The path before a renaming.
    pub old_path: Option<String>,
    /// Why watching has ended, for an error.
    pub message: Option<String>,
}

/// The view of [`FsWatchEvent`].
#[verifier::ext_equal]
pub struct FsWatchEventView {
    pub watch_id: Seq<char>,
    pub kind: Seq<char>,
    pub path: Seq<char>,
    pub old_path: Option<Seq<char>>,
    pub message: Option<Seq<char>>,
}

impl View for FsWatchEvent {
    type V = FsWatchEventView;

    open spec fn view(&self) -> FsWatchEventView {
        FsWatchEventView {
            watch_id: self.watch_id@,
            kind: self.kind@,
            path: self.path@,
            old_path: text::opt_view(self.old_path),
            message: text::opt_view(self.message),
        }
    }
}

/// The view of a list of events for a page.
pub open spec fn told(v: Seq<FsWatchEvent>) -> Seq<FsWatchEventView> {
    Seq::new(v.len(), |i: int| v[i]@)
}

/// A change that waits to be told.
#[derive(Debug)]
pub struct Waiting {
    pub path: String,
    pub kind: String,
    pub old_path: Option<String>,
    /// When it was last seen, in milliseconds.
    pub seen: u64,
}

/// The view of [`Waiting`].
#[verifier::ext_equal]
pub struct WaitingView {
    pub path: Seq<char>,
    pub kind: Seq<char>,
    pub old_path: Option<Seq<char>>,
    pub seen: u64,
}

impl View for Waiting {
    type V = WaitingView;

    open spec fn view(&self) -> WaitingView {
        WaitingView {
            path: self.path@,
            kind: self.kind@,
            old_path: text::opt_view(self.old_path),
            seen: self.seen,
        }
    }
}

/// The view of a list of waiting changes.
pub open spec fn waiting_views(v: Seq<Waiting>) -> Seq<WaitingView> {
    Seq::new(v.len(), |i: int| v[i]@)
}

/// Whether a change has been quiet for long enough; at the end of watching, every one has.
pub open spec fn is_due(w: WaitingView, now: u64, force_all: bool) -> bool {
    force_all || now - w.seen >= DEBOUNCE_WINDOW
}

/// The changes of other paths.
pub open spec fn without(v: Seq<WaitingView>, path: Seq<char>) -> Seq<WaitingView>
    decreases v.len(),
{
    if v.len() == 0 {
        Seq::empty()
    } else if v.last().path == path {
        without(v.drop_last(), path)
    } else {
        without(v.drop_last(), path).push(v.last())
    }
}

/// The changes that go on waiting.
pub open spec fn still_waiting(v: Seq<WaitingView>, now: u64, force_all: bool) -> Seq<WaitingView>
    decreases v.len(),
{
    if v.len() == 0 {
        Seq::empty()
    } else if is_due(v.last(), now, force_all) {
        still_waiting(v.drop_last(), now, force_all)
    } else {
        still_waiting(v.drop_last(), now, force_all).push(v.last())
    }
}

/// The event for a change.
pub open spec fn change_event(id: Seq<char>, w: WaitingView) -> FsWatchEventView {
    FsWatchEventView {
        watch_id: id,
        kind: w.kind,
        path: w.path,
        old_path: w.old_path,
        message: None,
    }
}

/// The events for the changes that are due.
pub open spec fn due_events(
    id: Seq<char>,
    v: Seq<WaitingView>,
    now: u64,
    force_all: bool,
) -> Seq<FsWatchEventView>
    decreases v.len(),
{
    if v.len() == 0 {
        Seq::empty()
    } else if is_due(v.last(), now, force_all) {
        due_events(id, v.drop_last(), now, force_all).push(change_event(id, v.last()))
    } else {
        due_events(id, v.drop_last(), now, force_all)
    }
}

/// The waiting changes after an event. Only the last change of a path waits.
pub open spec fn noted(v: Seq<WaitingView>, e: RawEventView, now: u64) -> Seq<WaitingView> {
    match e {
        RawEventView::Change(kind, path) => without(v, path).push(
            WaitingView { path, kind, old_path: None, seen: now },
        ),
        RawEventView::Rename(old_path, path) => without(v, path).push(
            WaitingView { path, kind: "renamed"@, old_path: Some(old_path), seen: now },
        ),
        RawEventView::Error(_) => v,
    }
}

/// The event that is told at once: an error.
pub open spec fn told_at_once(id: Seq<char>, e: RawEventView) -> Option<FsWatchEventView> {
    match e {
        RawEventView::Error(m) => Some(
            FsWatchEventView {
                watch_id: id,
                kind: "error"@,
                path: Seq::empty(),
                old_path: None,
                message: Some(m),
            },
        ),
        _ => None,
    }
}

/// The changes of one watched directory that wait to be told.
#[derive(Debug)]
pub struct Debounce {
    pending: Vec<Waiting>,
}

impl View for Debounce {
    type V = Seq<WaitingView>;

    closed spec fn view(&self) -> Seq<WaitingView> {
        waiting_views(self.pending@)
    }
}

impl Debounce {
    pub fn new() -> (r: Self)
        ensures
            r@ == Seq::<WaitingView>::empty(),
    {
        let r = Debounce { pending: Vec::new() };
        assert(r@ =~= Seq::<WaitingView>::empty());
        r
    }

    fn put(&mut self, w: Waiting)
        ensures
            final(self)@ == without(old(self)@, w@.path).push(w@),
    {
        let mut before: Vec<Waiting> = Vec::new();
        std::mem::swap(&mut before, &mut self.pending);
        let ghost all = waiting_views(before@);
        let ghost whole = before@;
        let mut kept: Vec<Waiting> = Vec::new();
        assert(waiting_views(whole).take(0) =~= Seq::<WaitingView>::empty());
        assert(waiting_views(kept@) =~= Seq::<WaitingView>::empty());
        assert(before@ =~= whole.skip(0));
        while before.len() > 0
            invariant
                before@.len() <= whole.len(),
                all == waiting_views(whole),
                before@ == whole.skip(whole.len() - before@.len()),
                waiting_views(kept@) == without(
                    all.take(whole.len() - before@.len()),
                    w@.path,
                ),
            decreases before@.len(),
        {
            let ghost i = whole.len() - before@.len();
            assert(before@[0] == whole[i]);
            assert(all.take(i + 1).drop_last() =~= all.take(i));
            assert(all.take(i + 1).last() == whole[i]@);
            let x = before.remove(0);
            assert(before@ =~= whole.skip(i + 1));
            if !text::str_eq(x.path.as_str(), w.path.as_str()) {
                let ghost had = kept@;
                kept.push(x);
                assert(waiting_views(kept@) =~= waiting_views(had).push(x@));
            }
        }
        assert(all.take(whole.len() as int) =~= all);
        let ghost had = kept@;
        kept.push(w);
        assert(waiting_views(kept@) =~= waiting_views(had).push(w@));
        self.pending = kept;
    }

    /// Takes an event. Changes wait, see [`noted`]; an error is told at once.
    pub fn note(&mut self, watch_id: &str, event: RawEvent, now: u64) -> (r: Option<FsWatchEvent>)
        ensures
            final(self)@ == noted(old(self)@, event@, now),
            text::opt_view(r) == told_at_once(watch_id@, event@),
    {
        match event {
            RawEvent::Change { kind, path } => {
                self.put(Waiting { path, kind: text::owned(kind), old_path: None, seen: now });
                None
            },
            RawEvent::Rename { old: old_path, new: path } => {
                self.put(
                    Waiting {
                        path,
                        kind: text::owned("renamed"),
                        old_path: Some(old_path),
                        seen: now,
                    },
                );
                None
            },
            RawEvent::Error(m) => {
                let path = text::string_of(&[]);
                assert(path@ =~= Seq::<char>::empty());
                Some(
                    FsWatchEvent {
                        watch_id: text::owned(watch_id),
                        kind: text::owned("error"),
                        path,
                        old_path: None,
                        message: Some(m),
                    },
                )
            },
        }
    }

    /// Takes out the changes that are due and gives the events for them.
    pub fn flush_due(&mut self, watch_id: &str, now: u64, force_all: bool) -> (r: Vec<
        FsWatchEvent,
    >)
        ensures
            final(self)@ == still_waiting(old(self)@, now, force_all),
            told(r@) == due_events(watch_id@, old(self)@, now, force_all),
    {
        let mut before: Vec<Waiting> = Vec::new();
        std::mem::swap(&mut before, &mut self.pending);
        let ghost all = waiting_views(before@);
        let ghost whole = before@;
        let mut kept: Vec<Waiting> = Vec::new();
        let mut out: Vec<FsWatchEvent> = Vec::new();
        assert(all.take(0) =~= Seq::<WaitingView>::empty());
        assert(waiting_views(kept@) =~= Seq::<WaitingView>::empty());
        assert(told(out@) =~= Seq::<FsWatchEventView>::empty());
        assert(before@ =~= whole.skip(0));
        while before.len() > 0
            invariant
                before@.len() <= whole.len(),
                all == waiting_views(whole),
                before@ == whole.skip(whole.len() - before@.len()),
                waiting_views(kept@) == still_waiting(
                    all.take(whole.len() - before@.len()),
                    now,
                    force_all,
                ),
                told(out@) == due_events(
                    watch_id@,
                    all.take(whole.len() - before@.len()),
                    now,
                    force_all,
                ),
            decreases before@.len(),
        {
            let ghost i = whole.len() - before@.len();
            assert(before@[0] == whole[i]);
            assert(all.take(i + 1).drop_last() =~= all.take(i));
            assert(all.take(i + 1).last() == whole[i]@);
            let x = before.remove(0);
            assert(before@ =~= whole.skip(i + 1));
            if force_all || (now >= x.seen && now - x.seen >= DEBOUNCE_WINDOW) {
                let ghost had = out@;
                let ghost view = x@;
                let e = FsWatchEvent {
                    watch_id: text::owned(watch_id),
                    kind: x.kind,
                    path: x.path,
                    old_path: x.old_path,
                    message: None,
                };
                assert(e@ == change_event(watch_id@, view));
                out.push(e);
                assert(told(out@) =~= told(had).push(e@));
            } else {
                let ghost had = kept@;
                kept.push(x);
                assert(waiting_views(kept@) =~= waiting_views(had).push(x@));
            }
        }
        assert(all.take(whole.len() as int) =~= all);
        self.pending = kept;
        out
    }
}

proof fn lemma_without(v: Seq<WaitingView>, path: Seq<char>)
    ensures
        forall|k: int| 0 <= k < without(v, path).len() ==> #[trigger] without(v, path)[k].path
            != path,
    decreases v.len(),
{
    if v.len() > 0 {
        lemma_without(v.drop_last(), path);
        assert forall|k: int| 0 <= k < without(v, path).len() implies #[trigger] without(
            v,
            path,
        )[k].path != path by {
            if k < without(v.drop_last(), path).len() {
                assert(without(v.drop_last(), path)[k].path != path);
            }
        }
    }
}

/// However often a path changes within the window, it is told once, as it was last seen.
pub proof fn repeated_changes_are_told_once(
    v: Seq<WaitingView>,
    kind: Seq<char>,
    path: Seq<char>,
    now: u64,
)
    ensures
        ({
            let after = noted(v, RawEventView::Change(kind, path), now);
            &&& after.last() == (WaitingView { path, kind, old_path: None, seen: now })
            &&& forall|k: int| 0 <= k < after.len() - 1 ==> #[trigger] after[k].path != path
        }),
{
    lemma_without(v, path);
    let after = noted(v, RawEventView::Change(kind, path), now);
    assert forall|k: int| 0 <= k < after.len() - 1 implies #[trigger] after[k].path != path by {
        assert(without(v, path)[k].path != path);
    }
}

/// When watching ends, nothing is left untold.
pub proof fn last_flush_tells_all(id: Seq<char>, v: Seq<WaitingView>, now: u64)
    ensures
        still_waiting(v, now, true) == Seq::<WaitingView>::empty(),
        due_events(id, v, now, true) == v.map(|i: int, w: WaitingView| change_event(id, w)),
    decreases v.len(),
{
    if v.len() > 0 {
        last_flush_tells_all(id, v.drop_last(), now);
        assert(due_events(id, v, now, true) =~= v.map(
            |i: int, w: WaitingView| change_event(id, w),
        ));
    } else {
        assert(due_events(id, v, now, true) =~= v.map(
            |i: int, w: WaitingView| change_event(id, w),
        ));
    }
}

// ---------------------------------------------------------------------------
// Who watches
// ---------------------------------------------------------------------------

/// How many of the rows belong to a session.
pub open spec fn owned_count(rows: Seq<(String, ActiveSession)>, s: (Seq<char>, bool)) -> nat
    decreases rows.len(),
{
    if rows.len() == 0 {
        0
    } else {
        owned_count(rows.drop_last(), s) + if rows.last().1@ == s {
            1nat
        } else {
            0
        }
    }
}

/// The watches that are running, by their ids.
#[derive(Debug)]
pub struct Watches {
    owners: Table<ActiveSession>,
}

impl View for Watches {
    type V = Map<Seq<char>, ActiveSession>;

    closed spec fn view(&self) -> Map<Seq<char>, ActiveSession> {
        self.owners@
    }
}

/// The answer to a plugin that names a watch it does not have.
pub const UNKNOWN_WATCH: &'static str = "未知的监听（可能已停止）";

impl Watches {
    /// The watches, row by row.
    pub closed spec fn rows(&self) -> Seq<(String, ActiveSession)> {
        self.owners.rows()
    }

    pub fn new() -> (r: Self)
        ensures
            r@ == Map::<Seq<char>, ActiveSession>::empty(),
            r.rows() == Seq::<(String, ActiveSession)>::empty(),
    {
        Watches { owners: Table::new() }
    }

    /// How many watches a session has.
    pub fn count_for(&self, session: &ActiveSession) -> (r: usize)
        ensures
            r == owned_count(self.rows(), session@),
    {
        let n: usize = self.owners.len();
        let ghost rows = self.owners.rows();
        let mut i: usize = 0;
        let mut count: usize = 0;
        assert(rows.take(0) =~= Seq::<(String, ActiveSession)>::empty());
        while i < n
            invariant
                n == rows.len(),
                i <= n,
                rows == self.owners.rows(),
                count == owned_count(rows.take(i as int), session@),
                count <= i,
            decreases n - i,
        {
            assert(rows.take(i + 1).drop_last() =~= rows.take(i as int));
            if self.owners.row(i).1.same_as(session) {
                count += 1;
            }
            i += 1;
        }
        assert(rows.take(i as int) =~= rows);
        count
    }

    /// Whether a session may start one more watch.
    pub fn may_start(&self, session: &ActiveSession) -> (r: Result<(), String>)
        ensures
            text::message_of(r) is None <==> room_for_watch(owned_count(self.rows(), session@)),
            text::message_of(r) == (if owned_count(self.rows(), session@) >= MAX_WATCHES_PER_SESSION {
                Some("同一插件最多同时开 20 个目录监听，请先停掉不用的"@)
            } else {
                None
            }),
    {
        if self.count_for(session) >= MAX_WATCHES_PER_SESSION {
            return Err(text::owned("同一插件最多同时开 20 个目录监听，请先停掉不用的"));
        }
        Ok(())
    }

    /// Notes who started a watch.
    pub fn add(&mut self, watch_id: String, owner: ActiveSession)
        ensures
            final(self)@ == old(self)@.insert(watch_id@, owner),
            final(self).rows() == crate::table::rows_without(old(self).rows(), watch_id@).push(
                (watch_id, owner),
            ),
    {
        self.owners.insert(watch_id, owner);
    }

    /// Whether a session may stop a watch. One that another session has is answered like one
    /// that does not exist.
    pub fn stop(&self, watch_id: &str, session: &ActiveSession) -> (r: Result<(), String>)
        ensures
            text::message_of(r) is None <==> has_watch(self@, watch_id@, session@),
            text::message_of(r) == (if self@.dom().contains(watch_id@) && self@[watch_id@]@
                == session@ {
                None
            } else {
                Some(UNKNOWN_WATCH@)
            }),
    {
        match self.owners.get(watch_id) {
            Some(owner) => {
                if owner.same_as(session) {
                    Ok(())
                } else {
                    Err(text::owned(UNKNOWN_WATCH))
                }
            },
            None => Err(text::owned(UNKNOWN_WATCH)),
        }
    }

    /// Forgets a watch that has ended.
    pub fn remove(&mut self, watch_id: &str)
        ensures
            final(self)@ == old(self)@.remove(watch_id@),
            final(self).rows() == crate::table::rows_without(old(self).rows(), watch_id@),
    {
        self.owners.remove(watch_id);
    }
}

proof fn lemma_fewer_owned(
    rows: Seq<(String, ActiveSession)>,
    id: Seq<char>,
    s: (Seq<char>, bool),
)
    ensures
        owned_count(crate::table::rows_without(rows, id), s) <= owned_count(rows, s),
    decreases rows.len(),
{
    if rows.len() > 0 {
        lemma_fewer_owned(rows.drop_last(), id, s);
        let w = crate::table::rows_without(rows.drop_last(), id);
        if rows.last().0@ != id {
            assert(w.push(rows.last()).drop_last() =~= w);
        }
    }
}

/// A session that may start a watch has no more than the limit after it did, and no other
/// session has more than before.
pub proof fn watches_keep_the_limit(
    rows: Seq<(String, ActiveSession)>,
    id: String,
    owner: ActiveSession,
    s: (Seq<char>, bool),
)
    requires
        owned_count(rows, owner@) < MAX_WATCHES_PER_SESSION,
    ensures
        ({
            let after = crate::table::rows_without(rows, id@).push((id, owner));
            &&& owned_count(after, owner@) <= MAX_WATCHES_PER_SESSION
            &&& s != owner@ ==> owned_count(after, s) <= owned_count(rows, s)
        }),
{
    let w = crate::table::rows_without(rows, id@);
    lemma_fewer_owned(rows, id@, owner@);
    lemma_fewer_owned(rows, id@, s);
    assert(w.push((id, owner)).drop_last() =~= w);
}

/// The name of a watch: a running number and the time in nanoseconds.
pub fn new_watch_id(n: u64, nanos: u128) -> (r: String)
    ensures
        r@ == "watch-"@ + text::decimal_text(n as nat) + "-"@ + codec::hex_number(nanos as nat),
{
    let number = text::decimal(n);
    let time = codec::hex_of(nanos);
    text::owned("watch-").concat(number.as_str()).concat("-").concat(time.as_str())
}

// ---------------------------------------------------------------------------
// What is watched
// ---------------------------------------------------------------------------

/// What a watch looks at.
#[derive(Clone, Copy, PartialEq, Eq, Debug, Structural)]
pub enum WatchTarget {
    /// The directory that a chosen file is in, not deeper, and of it that file alone.
    ParentOfFile,
    /// A directory and everything below it.
    Directory,
}

/// Decides what a watch looks at.
pub fn watch_target(scope_is_file: bool, sub: &str) -> (r: Result<WatchTarget, String>)
    ensures
        (match r {
            Ok(t) => Some(t),
            Err(_) => None,
        }) == watched_of(scope_is_file, sub@),
        match r {
            Ok(t) => (t == WatchTarget::ParentOfFile) == scope_is_file && (scope_is_file
                ==> sub@.len() == 0),
            Err(e) => scope_is_file && sub@.len() > 0 && e@
                == "该 scope 是单个文件，sub_path 需留空"@,
        },
{
    if scope_is_file {
        if !sub.is_empty() {
            return Err(text::owned("该 scope 是单个文件，sub_path 需留空"));
        }
        Ok(WatchTarget::ParentOfFile)
    } else {
        Ok(WatchTarget::Directory)
    }
}

impl WatchTarget {
    /// Whether the watch looks at what is deeper too.
    pub fn is_recursive(&self) -> (r: bool)
        ensures
            r == (*self == WatchTarget::Directory),
    {
        *self == WatchTarget::Directory
    }
}

/// Checks that there is what a watch looks at. `found` says whether the chosen file has a
/// directory, or whether the target is one.
pub fn check_watched(target: WatchTarget, found: bool) -> (r: Result<(), String>)
    ensures
        text::message_of(r) == (if found {
            None
        } else if target == WatchTarget::ParentOfFile {
            Some("无法定位文件所在目录"@)
        } else {
            Some("监听目标不是文件夹"@)
        }),
{
    if found {
        return Ok(());
    }
    match target {
        WatchTarget::ParentOfFile => Err(text::owned("无法定位文件所在目录")),
        WatchTarget::Directory => Err(text::owned("监听目标不是文件夹")),
    }
}

// ---------------------------------------------------------------------------
// What holds of records and waiting changes
// ---------------------------------------------------------------------------

/// A record as the system writes it: how far the next one is, the action, the bytes of the name
/// and its units, the low byte of each first.
pub open spec fn written_record(next: nat, action: u32, units: Seq<u16>) -> Seq<u8> {
    codec::le_bytes(next, 4) + codec::le_bytes(action as nat, 4) + codec::le_bytes(
        2 * units.len(),
        4,
    ) + Seq::new(
        2 * units.len(),
        |i: int|
            if i % 2 == 0 {
                (units[i / 2] % 256) as u8
            } else {
                (units[i / 2] / 256) as u8
            },
    )
}

proof fn lemma_four_bytes(n: nat, rest: Seq<u8>, front: Seq<u8>)
    requires
        n < 0x1_0000_0000,
    ensures
        u32_at(front + codec::le_bytes(n, 4) + rest, front.len() as int) == n,
{
    reveal_with_fuel(codec::le_bytes, 5);
    let b = front + codec::le_bytes(n, 4) + rest;
    let i = front.len() as int;
    assert(b[i] == n % 256);
    assert(b[i + 1] == n / 256 % 256);
    assert(b[i + 2] == n / 256 / 256 % 256);
    assert(b[i + 3] == n / 256 / 256 / 256 % 256);
}

/// What the system wrote is what is read: the action and the name of a record, and behind it
/// the records that follow at the distance that it names.
pub proof fn records_read_back(next: nat, action: u32, name: Seq<char>, pad: Seq<u8>, rest: Seq<u8>)
    requires
        2 * utf16::units_of(name).len() < 0x1_0000_0000,
        next < 0x1_0000_0000,
        next == 0 || next == written_record(next, action, utf16::units_of(name)).len() + pad.len(),
    ensures
        ({
            let head = written_record(next, action, utf16::units_of(name));
            let all = records_from(head + pad + rest, 0);
            let rec = RecordView { action, name };
            &&& next == 0 ==> all == seq![rec]
            &&& next > 0 ==> all == seq![rec] + records_from(rest, 0)
        }),
{
    let units = utf16::units_of(name);
    let n = units.len();
    let bytes = Seq::new(
        2 * n,
        |i: int|
            if i % 2 == 0 {
                (units[i / 2] % 256) as u8
            } else {
                (units[i / 2] / 256) as u8
            },
    );
    let x = codec::le_bytes(next, 4);
    let y = codec::le_bytes(action as nat, 4);
    let z = codec::le_bytes(2 * n, 4);
    codec::le_bytes_read_back(next, 4);
    codec::le_bytes_read_back(action as nat, 4);
    codec::le_bytes_read_back(2 * n, 4);
    let head = written_record(next, action, units);
    let b = head + pad + rest;
    let none = Seq::<u8>::empty();
    lemma_four_bytes(next, y + z + bytes + pad + rest, none);
    assert(none + x + (y + z + bytes + pad + rest) =~= b);
    lemma_four_bytes(action as nat, z + bytes + pad + rest, x);
    assert(x + y + (z + bytes + pad + rest) =~= b);
    lemma_four_bytes(2 * n, bytes + pad + rest, x + y);
    assert(x + y + z + (bytes + pad + rest) =~= b);
    assert(record_fits(b, 0));
    assert forall|k: int| 0 <= k < n implies name_units(b, 0)[k] == units[k] by {
        assert((2 * k) / 2 == k && (2 * k + 1) / 2 == k);
        assert(b[12 + 2 * k] == bytes[2 * k]);
        assert(b[12 + 2 * k + 1] == bytes[2 * k + 1]);
        assert(units[k] % 256 + 256 * (units[k] / 256) == units[k]);
    }
    assert(name_units(b, 0) =~= units);
    utf16::units_read_back(name);
    assert(record_at(b, 0) == (RecordView { action, name }));
    if next > 0 {
        lemma_shifted(head + pad, rest, 0);
    }
}

proof fn lemma_shifted(a: Seq<u8>, b: Seq<u8>, at: int)
    requires
        0 <= at,
    ensures
        records_from(a + b, a.len() + at) == records_from(b, at),
    decreases
            if at <= b.len() {
                b.len() - at
            } else {
                0
            },
{
    let all = a + b;
    let from = a.len() + at;
    if at + RECORD_HEAD <= b.len() {
        assert forall|i: int| 0 <= i < b.len() implies #[trigger] all[a.len() + i] == b[i] by {}
        assert(all[a.len() + at] == b[at] && all[a.len() + (at + 1)] == b[at + 1] && all[a.len() + (
        at + 2)] == b[at + 2] && all[a.len() + (at + 3)] == b[at + 3]);
        assert(all[a.len() + (at + 4)] == b[at + 4] && all[a.len() + (at + 5)] == b[at + 5]
            && all[a.len() + (at + 6)] == b[at + 6] && all[a.len() + (at + 7)] == b[at + 7]);
        assert(all[a.len() + (at + 8)] == b[at + 8] && all[a.len() + (at + 9)] == b[at + 9]
            && all[a.len() + (at + 10)] == b[at + 10] && all[a.len() + (at + 11)] == b[at + 11]);
        assert(u32_at(all, from) == u32_at(b, at));
        assert(u32_at(all, from + 4) == u32_at(b, at + 4));
        assert(u32_at(all, from + 8) == u32_at(b, at + 8));
        assert(record_fits(all, from) == record_fits(b, at));
        if record_fits(b, at) {
            assert forall|k: int| 0 <= k < name_units(b, at).len() implies name_units(all, from)[k]
                == name_units(b, at)[k] by {
                assert(all[a.len() + (at + 12 + 2 * k)] == b[at + 12 + 2 * k]);
                assert(all[a.len() + (at + 12 + 2 * k + 1)] == b[at + 12 + 2 * k + 1]);
            }
            assert(name_units(all, from) =~= name_units(b, at));
            if u32_at(b, at) > 0 {
                lemma_shifted(a, b, at + u32_at(b, at));
            }
        }
    }
}

/// Each action is told as what it is, of the name that it concerns; a name that is not watched
/// is never told.
pub proof fn actions_are_told_as_what_they_are(
    name: Seq<char>,
    dir: Seq<char>,
    only: Option<Seq<char>>,
    kept: Option<Seq<char>>,
    action: u32,
)
    ensures
        ({
            let told = record_event(RecordView { action, name }, dir, only, kept).0;
            let watched = only is None || text::lowered(name) == text::lowered(only->0);
            let at = full_path(dir, name);
            &&& !watched ==> told is None
            &&& watched && action == 1 ==> told == Some(RawEventView::Change("created"@, at))
            &&& watched && action == 2 ==> told == Some(RawEventView::Change("removed"@, at))
            &&& watched && action == 3 ==> told == Some(RawEventView::Change("modified"@, at))
            &&& watched && action == 4 ==> told is None
            &&& watched && action == 5 && kept is None ==> told == Some(
                RawEventView::Change("created"@, at),
            )
            &&& watched && action == 5 && kept is Some ==> told == Some(
                RawEventView::Rename(kept->0, at),
            )
            &&& action == 0 || action > 5 ==> told is None
        }),
{
}

/// The path that is told is that of the directory, one separator and the name.
pub proof fn told_paths_are_those_of_the_directory(dir: Seq<char>, name: Seq<char>)
    requires
        !name.contains('/'),
        !name.contains('\\'),
        dir.len() > 2,
    ensures
        dir.last() != '/' && dir.last() != '\\' ==> full_path(dir, name) == dir + seq!['\\']
            + name,
        dir.last() == '/' || dir.last() == '\\' ==> full_path(dir, name) == dir + name,
{
    assert forall|i: int| 0 <= i < name.len() implies #[trigger] name[i] != '/' && name[i]
        != '\\' by {
        assert(name.contains(name[i]));
    }
    assert(text::replaced(name, '/', '\\') =~= name);
    assert(text::replaced(name, '\\', '/') =~= name);
    assert(dir.push('\\') + name =~= dir + seq!['\\'] + name);
}

/// A change is told as soon as its path has been quiet for 300 milliseconds, and not before;
/// till then it waits. None is lost.
pub proof fn quiet_changes_are_told(
    id: Seq<char>,
    v: Seq<WaitingView>,
    now: u64,
    w: WaitingView,
)
    ensures
        still_waiting(v, now, false).contains(w) <==> v.contains(w) && now < w.seen + 300,
        v.contains(w) && now >= w.seen + 300 ==> due_events(id, v, now, false).contains(
            FsWatchEventView {
                watch_id: id,
                kind: w.kind,
                path: w.path,
                old_path: w.old_path,
                message: None,
            },
        ),
        due_events(id, v, now, false).len() + still_waiting(v, now, false).len() == v.len(),
    decreases v.len(),
{
    let e = change_event(id, w);
    if v.len() > 0 {
        let less = v.drop_last();
        let last = v.last();
        quiet_changes_are_told(id, less, now, w);
        let still = still_waiting(v, now, false);
        let still_less = still_waiting(less, now, false);
        let due = due_events(id, v, now, false);
        let due_less = due_events(id, less, now, false);
        if v.contains(w) {
            let i = choose|i: int| 0 <= i < v.len() && v[i] == w;
            if i < less.len() {
                assert(less[i] == w);
            }
        }
        if less.contains(w) {
            let i = choose|i: int| 0 <= i < less.len() && less[i] == w;
            assert(v[i] == w);
        }
        if still_less.contains(w) {
            let i = choose|i: int| 0 <= i < still_less.len() && still_less[i] == w;
            assert(still[i] == w);
        }
        if still.contains(w) && !still_less.contains(w) {
            let i = choose|i: int| 0 <= i < still.len() && still[i] == w;
            if i < still_less.len() {
                assert(still_less[i] == w);
            }
            assert(v[v.len() - 1] == w);
        }
        if last == w && now < w.seen + 300 {
            assert(still[still_less.len() as int] == w);
        }
        if due_less.contains(e) {
            let i = choose|i: int| 0 <= i < due_less.len() && due_less[i] == e;
            assert(due[i] == e);
        }
        if last == w && now >= w.seen + 300 {
            assert(due[due_less.len() as int] == e);
        }
    }
}

/// A new change of a path takes the place of the one that waited, and the changes of all other
/// paths go on waiting.
pub proof fn other_changes_go_on_waiting(v: Seq<WaitingView>, e: RawEventView, now: u64, w: WaitingView)
    requires
        v.contains(w),
        match e {
            RawEventView::Change(_, path) => w.path != path,
            RawEventView::Rename(_, path) => w.path != path,
            RawEventView::Error(_) => true,
        },
    ensures
        noted(v, e, now).contains(w),
        match e {
            RawEventView::Change(kind, path) => noted(v, e, now).last() == (WaitingView {
                path,
                kind,
                old_path: None,
                seen: now,
            }),
            RawEventView::Rename(from, path) => noted(v, e, now).last() == (WaitingView {
                path,
                kind: "renamed"@,
                old_path: Some(from),
                seen: now,
            }),
            RawEventView::Error(_) => noted(v, e, now) == v,
        },
{
    match e {
        RawEventView::Change(_, path) => {
            lemma_without_keeps(v, path, w);
            let i = choose|i: int| 0 <= i < without(v, path).len() && without(v, path)[i] == w;
            assert(noted(v, e, now)[i] == w);
        },
        RawEventView::Rename(_, path) => {
            lemma_without_keeps(v, path, w);
            let i = choose|i: int| 0 <= i < without(v, path).len() && without(v, path)[i] == w;
            assert(noted(v, e, now)[i] == w);
        },
        RawEventView::Error(_) => {},
    }
}

proof fn lemma_without_keeps(v: Seq<WaitingView>, path: Seq<char>, w: WaitingView)
    requires
        v.contains(w),
        w.path != path,
    ensures
        without(v, path).contains(w),
    decreases v.len(),
{
    let less = v.drop_last();
    let i = choose|i: int| 0 <= i < v.len() && v[i] == w;
    if i < less.len() {
        assert(less[i] == w);
        lemma_without_keeps(less, path, w);
        let j = choose|j: int| 0 <= j < without(less, path).len() && without(less, path)[j] == w;
        assert(without(v, path)[j] == w);
    } else {
        assert(without(v, path)[without(less, path).len() as int] == w);
    }
}

/// A session may have twenty watches: one more may be started exactly while it has fewer.
pub proof fn twenty_watches_may_run(
    rows: Seq<(String, ActiveSession)>,
    id: String,
    owner: ActiveSession,
)
    requires
        owned_count(rows, owner@) < 20,
    ensures
        owned_count(rows, owner@) < MAX_WATCHES_PER_SESSION,
        owned_count(crate::table::rows_without(rows, id@).push((id, owner)), owner@) <= 20,
        MAX_WATCHES_PER_SESSION == 20,
{
    watches_keep_the_limit(rows, id, owner, owner@);
}

/// Whether a session with so many watches may start one more.
pub open spec fn room_for_watch(count: nat) -> bool {
    count < MAX_WATCHES_PER_SESSION
}

/// Whether a session has a watch.
pub open spec fn has_watch(
    m: Map<Seq<char>, ActiveSession>,
    watch_id: Seq<char>,
    s: (Seq<char>, bool),
) -> bool {
    m.dom().contains(watch_id) && m[watch_id]@ == s
}

/// The twentieth watch of a session may be started and the one after it not; a watch is stopped
/// by the session that started it and by no other.
pub proof fn sessions_stop_their_own_watches(
    m: Map<Seq<char>, ActiveSession>,
    watch_id: Seq<char>,
    owner: ActiveSession,
    s: (Seq<char>, bool),
    count: nat,
)
    ensures
        room_for_watch(count) <==> count <= 19,
        has_watch(m.insert(watch_id, owner), watch_id, s) <==> owner@ == s,
        !has_watch(m.remove(watch_id), watch_id, s),
{
}

/// An error is told at once, as it is, to who watches; nothing else is.
pub proof fn errors_are_told_at_once(id: Seq<char>, message: Seq<char>, e: RawEventView)
    ensures
        ({
            let t = told_at_once(id, RawEventView::Error(message));
            &&& t is Some
            &&& t->0.watch_id == id
            &&& t->0.kind == "error"@
            &&& t->0.message == Some(message)
        }),
        !(e is Error) ==> told_at_once(id, e) is None,
{
}

/// What is watched for a scope and a path in it.
pub open spec fn watched_of(scope_is_file: bool, sub: Seq<char>) -> Option<WatchTarget> {
    if !scope_is_file {
        Some(WatchTarget::Directory)
    } else if sub.len() == 0 {
        Some(WatchTarget::ParentOfFile)
    } else {
        None
    }
}

/// A directory is watched with all below it. A file is watched by itself, and there is no path
/// in it.
pub proof fn files_are_watched_alone(sub: Seq<char>)
    ensures
        watched_of(false, sub) == Some(WatchTarget::Directory),
        sub.len() > 0 ==> watched_of(true, sub) is None,
        sub.len() == 0 ==> watched_of(true, sub) == Some(WatchTarget::ParentOfFile),
{
}

} // verus!
