//! Running programs for plugins: what they may run, how long, and what their output says.

use crate::codec;
use crate::session::ActiveSession;
use crate::table::Table;
use crate::text;
use crate::utf16;
use crate::utf8;
use vstd::prelude::*;
use vstd::slice::slice_subrange;

verus! {

pub const EVT_STDOUT: &'static str = "plugin-exec-stdout";

pub const EVT_STDERR: &'static str = "plugin-exec-stderr";

pub const EVT_EXIT: &'static str = "plugin-exec-exit";

/// The most bytes that are kept of one output of a program: 16 MB.
pub const EXEC_OUTPUT_LIMIT: usize = 16_777_216;

/// How a program is run.
#[derive(Debug)]
pub struct ExecOptions {
    /// The directory in which it starts.
    pub cwd: Option<String>,
    /// The milliseconds after which it is ended.
    pub timeout_ms: Option<u64>,
    /// How its output is read: `utf8`, `gbk` or `auto`.
    pub encoding: Option<String>,
}

impl Default for ExecOptions {
    fn default() -> (r: Self)
        ensures
            r.cwd is None,
            r.timeout_ms is None,
            r.encoding is None,
    {
        ExecOptions { cwd: None, timeout_ms: None, encoding: None }
    }
}

/// What came of a program.
#[derive(Debug)]
pub struct ExecResult {
    pub code: i32,
    pub stdout: String,
    pub stderr: String,
    /// Whether it was ended because it took too long.
    pub timed_out: bool,
    /// Whether one of the outputs was longer than is kept.
    pub truncated: bool,
}

/// A piece of output for a page.
#[derive(Debug)]
pub struct ExecChunk {
    pub stream_id: String,
    pub data: String,
}

/// The end of a program for a page.
#[derive(Debug)]
pub struct ExecExit {
    pub stream_id: String,
    pub code: i32,
    pub timed_out: bool,
}

// ---------------------------------------------------------------------------
// Starting
// ---------------------------------------------------------------------------

/// Why a program is not run.
pub open spec fn exec_error(granted: bool, program: Seq<char>) -> Option<Seq<char>> {
    if !granted {
        Some("插件未获授权执行程序（请在「插件管理」里授权 runCommand）"@)
    } else if text::trimmed(program).len() == 0 {
        Some("program 为空"@)
    } else {
        None
    }
}

/// Checks whether a program may be run, see [`exec_error`].
pub fn check_exec(granted: bool, program: &str) -> (r: Result<(), String>)
    ensures
        text::message_of(r) == exec_error(granted, program@),
{
    if !granted {
        return Err(
            text::owned("插件未获授权执行程序（请在「插件管理」里授权 runCommand）"),
        );
    }
    if text::is_blank(program) {
        return Err(text::owned("program 为空"));
    }
    Ok(())
}

/// The flags with which a program starts: no window, and its own group where it may be asked
/// to quit.
pub fn creation_flags(with_new_process_group: bool) -> (r: u32)
    ensures
        r == flags_of(with_new_process_group),
        r == (if with_new_process_group {
            0x0800_0200u32
        } else {
            0x0800_0000u32
        }),
{
    if with_new_process_group {
        0x0800_0200
    } else {
        0x0800_0000
    }
}

/// The name of a running stream: the time in nanoseconds and a running number.
pub fn new_stream_id(nanos: u128, n: u64) -> (r: String)
    ensures
        r@ == codec::hex_number(nanos as nat) + "-"@ + codec::hex_number(n as nat),
{
    let time = codec::hex_of(nanos);
    let number = codec::hex_of(n as u128);
    time.concat("-").concat(number.as_str())
}

// ---------------------------------------------------------------------------
// Output of limited length
// ---------------------------------------------------------------------------

/// The output of a program as far as it is kept.
#[derive(Debug)]
pub struct Capped {
    kept: Vec<u8>,
    more: bool,
}

/// What is kept of bytes.
pub open spec fn capped(b: Seq<u8>) -> Seq<u8> {
    if b.len() > EXEC_OUTPUT_LIMIT {
        b.take(EXEC_OUTPUT_LIMIT as int)
    } else {
        b
    }
}

impl View for Capped {
    type V = Seq<u8>;

    closed spec fn view(&self) -> Seq<u8> {
        self.kept@
    }
}

impl Capped {
    #[verifier::type_invariant]
    spec fn inv(self) -> bool {
        self.kept@.len() <= EXEC_OUTPUT_LIMIT
    }

    /// Whether there was more than is kept.
    pub closed spec fn more(&self) -> bool {
        self.more
    }

    pub fn new() -> (r: Self)
        ensures
            r@ == Seq::<u8>::empty(),
            !r.more(),
    {
        Capped { kept: Vec::new(), more: false }
    }

    /// Takes more output. With `true`, there is more than is kept and reading ends.
    pub fn push(&mut self, chunk: &[u8]) -> (r: bool)
        ensures
            final(self)@ == capped(old(self)@ + chunk@),
            final(self)@.len() <= EXEC_OUTPUT_LIMIT,
            r == final(self).more(),
            final(self).more() == (old(self).more() || old(self)@.len() + chunk@.len()
                > EXEC_OUTPUT_LIMIT),
    {
        proof {
            use_type_invariant(&*self);
        }
        let mut v: Vec<u8> = Vec::new();
        std::mem::swap(&mut v, &mut self.kept);
        let room: usize = EXEC_OUTPUT_LIMIT - v.len();
        let over = chunk.len() > room;
        let n: usize = if over {
            room
        } else {
            chunk.len()
        };
        let part = slice_subrange(chunk, 0, n);
        let ghost before = v@;
        v.extend_from_slice(part);
        assert(v@ =~= before + chunk@.take(n as int));
        assert(v@ =~= capped(before + chunk@));
        self.kept = v;
        if over {
            self.more = true;
        }
        self.more
    }

    /// The bytes that were kept, and whether there were more.
    pub fn finish(self) -> (r: (Vec<u8>, bool))
        ensures
            r.0@ == self@,
            r.1 == self.more(),
    {
        (self.kept, self.more)
    }
}

// ---------------------------------------------------------------------------
// Encodings
// ---------------------------------------------------------------------------

/// How output is to be read.
#[derive(Clone, Copy, PartialEq, Eq, Debug, Structural)]
pub enum EncodingMode {
    Utf8,
    Gbk,
    Auto,
}

/// The mode that a name stands for. Unknown names stand for the automatic one.
pub open spec fn mode_of(raw: Option<Seq<char>>) -> EncodingMode {
    match raw {
        None => EncodingMode::Auto,
        Some(s) => {
            let n = text::lowered(text::trimmed(s));
            if n == "utf8"@ || n == "utf-8"@ {
                EncodingMode::Utf8
            } else if n == "gbk"@ || n == "gb2312"@ || n == "cp936"@ || n == "ansi"@ {
                EncodingMode::Gbk
            } else {
                EncodingMode::Auto
            }
        },
    }
}

/// The mode that a name stands for, see [`mode_of`].
pub fn resolve_encoding(raw: Option<&str>) -> (r: EncodingMode)
    ensures
        r == mode_of(text::opt_str(raw)),
{
    match raw {
        None => EncodingMode::Auto,
        Some(s) => {
            let t = text::trim_str(s);
            let low = text::to_lower(t.as_slice());
            let n = low.as_slice();
            if text::same(n, "utf8") || text::same(n, "utf-8") {
                EncodingMode::Utf8
            } else if text::same(n, "gbk") || text::same(n, "gb2312") || text::same(n, "cp936")
                || text::same(n, "ansi") {
                EncodingMode::Gbk
            } else {
                EncodingMode::Auto
            }
        },
    }
}

/// The text of bytes in a code page of the system, from the units that the system gave for
/// them; `None` where it gave none or they are no text.
pub open spec fn decoded(bytes: Seq<u8>, wide: Option<Seq<u16>>) -> Option<Seq<char>> {
    if bytes.len() == 0 {
        Some(Seq::empty())
    } else if bytes.len() > 0x7FFF_FFFF {
        None
    } else {
        match wide {
            Some(u) => if u.len() > 0 && utf16::is_text(u) {
                Some(utf16::text_of(u))
            } else {
                None
            },
            None => None,
        }
    }
}

/// The text of bytes in a code page, see [`decoded`].
pub fn decode(bytes: &[u8], wide: Option<&[u16]>) -> (r: Option<String>)
    ensures
        text::opt_view(r) == decoded(
            bytes@,
            match wide {
                Some(u) => Some(u@),
                None => None,
            },
        ),
{
    if bytes.len() == 0 {
        let empty = text::string_of(&[]);
        assert(empty@ =~= Seq::<char>::empty());
        return Some(empty);
    }
    if bytes.len() > 0x7FFF_FFFF {
        return None;
    }
    match wide {
        Some(u) => {
            if u.len() == 0 || !utf16::check(u) {
                return None;
            }
            let v = utf16::decode_lossy(u);
            Some(text::string_of(v.as_slice()))
        },
        None => None,
    }
}

/// The text of bytes in GBK: what the system made of them, or else what is UTF-8 in them.
pub open spec fn gbk_text(bytes: Seq<u8>, converted: Option<Seq<char>>) -> Seq<char> {
    match converted {
        Some(s) => s,
        None => utf8::lossy(bytes),
    }
}

/// The text of bytes in GBK, see [`gbk_text`].
pub fn text_of_gbk(bytes: &[u8], converted: Option<String>) -> (r: String)
    ensures
        r@ == gbk_text(bytes@, text::opt_view(converted)),
{
    match converted {
        Some(s) => s,
        None => {
            let v = utf8::read_lossy(bytes);
            text::string_of(v.as_slice())
        },
    }
}

/// Whether all of an output is read as GBK.
pub open spec fn reads_gbk(bytes: Seq<u8>, mode: EncodingMode) -> bool {
    bytes.len() > 0 && (mode == EncodingMode::Gbk || (mode == EncodingMode::Auto
        && !utf8::is_text(bytes)))
}

/// Whether the system has to convert an output before [`decode_full`], see [`reads_gbk`].
pub fn wants_gbk(bytes: &[u8], mode: EncodingMode) -> (r: bool)
    ensures
        r == reads_gbk(bytes@, mode),
{
    if bytes.len() == 0 {
        return false;
    }
    match mode {
        EncodingMode::Utf8 => false,
        EncodingMode::Gbk => true,
        EncodingMode::Auto => utf8::read_whole(bytes).0 != bytes.len(),
    }
}

/// The text of a whole output.
pub open spec fn full_text(
    bytes: Seq<u8>,
    mode: EncodingMode,
    converted: Option<Seq<char>>,
) -> Seq<char> {
    if reads_gbk(bytes, mode) {
        gbk_text(bytes, converted)
    } else {
        utf8::lossy(bytes)
    }
}

/// Reads a whole output. `converted` is what the system made of the bytes in GBK.
pub fn decode_full(bytes: &[u8], mode: EncodingMode, converted: Option<String>) -> (r: String)
    ensures
        r@ == full_text(bytes@, mode, text::opt_view(converted)),
{
    if wants_gbk(bytes, mode) {
        return text_of_gbk(bytes, converted);
    }
    let v = utf8::read_lossy(bytes);
    text::string_of(v.as_slice())
}

/// In the automatic mode, an output that is UTF-8 is read exactly.
pub proof fn utf8_output_is_exact(s: Seq<char>, converted: Option<Seq<char>>)
    ensures
        full_text(vstd::utf8::encode_utf8(s), EncodingMode::Auto, converted) == s,
{
    vstd::utf8::encode_utf8_valid_utf8(s);
    utf8::reading_is_decoding(vstd::utf8::encode_utf8(s));
    utf8::text_reads_back(s);
}

// ---------------------------------------------------------------------------
// Output that comes in pieces
// ---------------------------------------------------------------------------

/// The longest front of GBK bytes that does not end inside a character of two bytes.
pub open spec fn gbk_len(b: Seq<u8>) -> nat
    decreases b.len(),
{
    if b.len() == 0 {
        0
    } else if 0x81 <= b[0] <= 0xFE {
        if b.len() < 2 {
            0
        } else {
            2 + gbk_len(b.skip(2))
        }
    } else {
        1 + gbk_len(b.skip(1))
    }
}

proof fn lemma_gbk_len(b: Seq<u8>)
    ensures
        gbk_len(b) <= b.len(),
        b.len() - gbk_len(b) <= 1,
    decreases b.len(),
{
    if b.len() > 0 {
        if 0x81 <= b[0] <= 0xFE {
            if b.len() >= 2 {
                lemma_gbk_len(b.skip(2));
            }
        } else {
            lemma_gbk_len(b.skip(1));
        }
    }
}

/// The longest front that does not end inside a character, see [`gbk_len`].
pub fn gbk_complete_prefix_len(buf: &[u8]) -> (r: usize)
    ensures
        r == gbk_len(buf@),
        r <= buf@.len(),
{
    let n: usize = buf.len();
    let mut i: usize = 0;
    assert(buf@.skip(0) =~= buf@);
    while i < n
        invariant
            n == buf@.len(),
            i <= n,
            gbk_len(buf@) == i + gbk_len(buf@.skip(i as int)),
        decreases n - i,
    {
        let ghost t = buf@.skip(i as int);
        if 0x81 <= buf[i] && buf[i] <= 0xFE {
            if i < n - 1 {
                assert(t.skip(2) =~= buf@.skip(i + 2));
                i += 2;
            } else {
                return i;
            }
        } else {
            assert(t.skip(1) =~= buf@.skip(i + 1));
            i += 1;
        }
    }
    i
}

/// Cutting GBK bytes in two, keeping what was left of the first part for the second, gives
/// the same front as reading them in one go.
pub proof fn gbk_reading_ignores_cuts(a: Seq<u8>, b: Seq<u8>)
    ensures
        gbk_len(a + b) == gbk_len(a) + gbk_len(a.skip(gbk_len(a) as int) + b),
    decreases a.len(),
{
    lemma_gbk_len(a);
    if a.len() == 0 {
        assert(a.skip(0) + b =~= a + b);
    } else if 0x81 <= a[0] <= 0xFE {
        if a.len() >= 2 {
            let t = a.skip(2);
            gbk_reading_ignores_cuts(t, b);
            lemma_gbk_len(t);
            assert((a + b).skip(2) =~= t + b);
            assert(a.skip(gbk_len(a) as int) =~= t.skip(gbk_len(t) as int));
        } else {
            assert(a.skip(0) + b =~= a + b);
        }
    } else {
        let t = a.skip(1);
        gbk_reading_ignores_cuts(t, b);
        lemma_gbk_len(t);
        assert((a + b).skip(1) =~= t + b);
        assert(a.skip(gbk_len(a) as int) =~= t.skip(gbk_len(t) as int));
    }
}

/// The encoding that a stream turned out to have.
#[derive(Clone, Copy, PartialEq, Eq, Debug, Structural)]
pub enum ResolvedEncoding {
    Utf8,
    Gbk,
}

/// The encoding of a stream that starts with bytes; `None` while that is open.
pub open spec fn sniffed(mode: EncodingMode, b: Seq<u8>) -> Option<ResolvedEncoding> {
    match mode {
        EncodingMode::Utf8 => Some(ResolvedEncoding::Utf8),
        EncodingMode::Gbk => Some(ResolvedEncoding::Gbk),
        EncodingMode::Auto => if utf8::is_text(b) {
            Some(ResolvedEncoding::Utf8)
        } else if !utf8::is_cut(b) {
            Some(ResolvedEncoding::Gbk)
        } else if b.len() >= 256 {
            Some(ResolvedEncoding::Utf8)
        } else {
            None
        },
    }
}

/// A piece of a stream that can be told.
#[derive(Debug)]
pub enum Piece {
    Text(String),
    /// Bytes in GBK, for the system to convert.
    Gbk(Vec<u8>),
}

/// The view of [`Piece`].
pub enum PieceView {
    Text(Seq<char>),
    Gbk(Seq<u8>),
}

impl View for Piece {
    type V = PieceView;

    open spec fn view(&self) -> PieceView {
        match self {
            Piece::Text(s) => PieceView::Text(s@),
            Piece::Gbk(b) => PieceView::Gbk(b@),
        }
    }
}

/// What a decoder remembers: how to read, what it turned out to be, and the bytes that are not
/// told yet.
#[verifier::ext_equal]
pub struct DecoderView {
    pub mode: EncodingMode,
    pub resolved: Option<ResolvedEncoding>,
    pub carry: Seq<u8>,
}

/// What is told when bytes come in, and what is remembered then.
pub open spec fn pushed(d: DecoderView, chunk: Seq<u8>) -> (PieceView, DecoderView) {
    let all = d.carry + chunk;
    let resolved = match d.resolved {
        Some(e) => Some(e),
        None => sniffed(d.mode, all),
    };
    match resolved {
        None => (
            PieceView::Text(Seq::empty()),
            DecoderView { mode: d.mode, resolved, carry: all },
        ),
        Some(ResolvedEncoding::Utf8) => (
            PieceView::Text(utf8::whole_text(all)),
            DecoderView { mode: d.mode, resolved, carry: utf8::rest(all) },
        ),
        Some(ResolvedEncoding::Gbk) => (
            PieceView::Gbk(all.take(gbk_len(all) as int)),
            DecoderView { mode: d.mode, resolved, carry: all.skip(gbk_len(all) as int) },
        ),
    }
}

/// What is told at the end of a stream.
pub open spec fn finished(d: DecoderView) -> PieceView {
    if d.carry.len() == 0 {
        PieceView::Text(Seq::empty())
    } else if d.resolved == Some(ResolvedEncoding::Gbk) {
        PieceView::Gbk(d.carry)
    } else {
        PieceView::Text(utf8::lossy(d.carry))
    }
}

/// Reads a stream that comes in pieces without breaking characters.
#[derive(Debug)]
pub struct StreamDecoder {
    mode: EncodingMode,
    resolved: Option<ResolvedEncoding>,
    carry: Vec<u8>,
}

impl View for StreamDecoder {
    type V = DecoderView;

    closed spec fn view(&self) -> DecoderView {
        DecoderView { mode: self.mode, resolved: self.resolved, carry: self.carry@ }
    }
}

fn sniff(mode: EncodingMode, b: &[u8]) -> (r: Option<ResolvedEncoding>)
    ensures
        r == sniffed(mode, b@),
{
    match mode {
        EncodingMode::Utf8 => Some(ResolvedEncoding::Utf8),
        EncodingMode::Gbk => Some(ResolvedEncoding::Gbk),
        EncodingMode::Auto => {
            let (n, _, cut) = utf8::read_whole(b);
            if n == b.len() {
                Some(ResolvedEncoding::Utf8)
            } else if !cut {
                Some(ResolvedEncoding::Gbk)
            } else if b.len() >= 256 {
                Some(ResolvedEncoding::Utf8)
            } else {
                None
            }
        },
    }
}

fn empty_piece() -> (r: Piece)
    ensures
        r@ == PieceView::Text(Seq::empty()),
{
    let s = text::string_of(&[]);
    assert(s@ =~= Seq::<char>::empty());
    Piece::Text(s)
}

impl StreamDecoder {
    pub fn new(mode: EncodingMode) -> (r: Self)
        ensures
            r@ == (DecoderView { mode, resolved: None, carry: Seq::empty() }),
    {
        StreamDecoder { mode, resolved: None, carry: Vec::new() }
    }

    /// Takes more bytes and gives what can be told, see [`pushed`].
    pub fn push(&mut self, chunk: &[u8]) -> (r: Piece)
        ensures
            (r@, final(self)@) == pushed(old(self)@, chunk@),
    {
        self.carry.extend_from_slice(chunk);
        let ghost all = self.carry@;
        assert(all =~= old(self).carry@ + chunk@);
        let resolved = match self.resolved {
            Some(e) => Some(e),
            None => sniff(self.mode, self.carry.as_slice()),
        };
        self.resolved = resolved;
        match resolved {
            None => empty_piece(),
            Some(ResolvedEncoding::Utf8) => {
                let (n, v, _) = utf8::read_whole(self.carry.as_slice());
                let left = self.carry.split_off(n);
                self.carry = left;
                assert(self.carry@ =~= utf8::rest(all));
                Piece::Text(text::string_of(v.as_slice()))
            },
            Some(ResolvedEncoding::Gbk) => {
                let n: usize = gbk_complete_prefix_len(self.carry.as_slice());
                let left = self.carry.split_off(n);
                let mut done: Vec<u8> = left;
                std::mem::swap(&mut done, &mut self.carry);
                assert(self.carry@ =~= all.skip(n as int));
                assert(done@ =~= all.take(n as int));
                Piece::Gbk(done)
            },
        }
    }

    /// Gives what is left at the end of a stream, see [`finished`].
    pub fn finish(&mut self) -> (r: Piece)
        ensures
            r@ == finished(old(self)@),
            final(self)@.carry == Seq::<u8>::empty(),
            final(self)@.mode == old(self)@.mode,
            final(self)@.resolved == old(self)@.resolved,
    {
        let mut bytes: Vec<u8> = Vec::new();
        std::mem::swap(&mut bytes, &mut self.carry);
        assert(self.carry@ =~= Seq::<u8>::empty());
        if bytes.len() == 0 {
            return empty_piece();
        }
        match self.resolved {
            Some(ResolvedEncoding::Gbk) => Piece::Gbk(bytes),
            _ => {
                let v = utf8::read_lossy(bytes.as_slice());
                Piece::Text(text::string_of(v.as_slice()))
            },
        }
    }
}

/// The bytes of pieces, one after the other.
pub open spec fn flat(chunks: Seq<Seq<u8>>) -> Seq<u8>
    decreases chunks.len(),
{
    if chunks.len() == 0 {
        Seq::empty()
    } else {
        flat(chunks.drop_last()) + chunks.last()
    }
}

/// What a decoder remembers after pieces.
pub open spec fn decoder_after(d: DecoderView, chunks: Seq<Seq<u8>>) -> DecoderView
    decreases chunks.len(),
{
    if chunks.len() == 0 {
        d
    } else {
        pushed(decoder_after(d, chunks.drop_last()), chunks.last()).1
    }
}

/// The text that a decoder told while pieces came in.
pub open spec fn text_told(d: DecoderView, chunks: Seq<Seq<u8>>) -> Seq<char>
    decreases chunks.len(),
{
    if chunks.len() == 0 {
        Seq::empty()
    } else {
        let piece = pushed(decoder_after(d, chunks.drop_last()), chunks.last()).0;
        text_told(d, chunks.drop_last()) + (match piece {
            PieceView::Text(s) => s,
            PieceView::Gbk(_) => Seq::empty(),
        })
    }
}

/// The GBK bytes that a decoder told while pieces came in.
pub open spec fn gbk_told(d: DecoderView, chunks: Seq<Seq<u8>>) -> Seq<u8>
    decreases chunks.len(),
{
    if chunks.len() == 0 {
        Seq::empty()
    } else {
        let piece = pushed(decoder_after(d, chunks.drop_last()), chunks.last()).0;
        gbk_told(d, chunks.drop_last()) + (match piece {
            PieceView::Text(_) => Seq::empty(),
            PieceView::Gbk(b) => b,
        })
    }
}

proof fn lemma_utf8_told(chunks: Seq<Seq<u8>>)
    ensures
        ({
            let d = DecoderView { mode: EncodingMode::Utf8, resolved: None, carry: Seq::empty() };
            let all = flat(chunks);
            &&& decoder_after(d, chunks).carry == utf8::rest(all)
            &&& decoder_after(d, chunks).mode == EncodingMode::Utf8
            &&& decoder_after(d, chunks).resolved == None::<ResolvedEncoding> || decoder_after(
                d,
                chunks,
            ).resolved == Some(ResolvedEncoding::Utf8)
            &&& text_told(d, chunks) == utf8::whole_text(all)
        }),
    decreases chunks.len(),
{
    let d = DecoderView { mode: EncodingMode::Utf8, resolved: None, carry: Seq::empty() };
    if chunks.len() == 0 {
        assert(utf8::rest(Seq::<u8>::empty()) =~= Seq::<u8>::empty());
    } else {
        lemma_utf8_told(chunks.drop_last());
        utf8::reading_ignores_cuts(flat(chunks.drop_last()), chunks.last());
    }
}

/// However a UTF-8 stream is cut into pieces, the text that is told of it, up to its end, is
/// the text of the whole stream: no character is broken at a cut.
pub proof fn utf8_streams_ignore_cuts(chunks: Seq<Seq<u8>>)
    ensures
        ({
            let d = DecoderView { mode: EncodingMode::Utf8, resolved: None, carry: Seq::empty() };
            let last = finished(decoder_after(d, chunks));
            &&& last is Text
            &&& text_told(d, chunks) + last->Text_0 == utf8::lossy(flat(chunks))
        }),
{
    let d = DecoderView { mode: EncodingMode::Utf8, resolved: None, carry: Seq::empty() };
    let all = flat(chunks);
    lemma_utf8_told(chunks);
    utf8::lossy_splits(all);
    let last = finished(decoder_after(d, chunks));
    if utf8::rest(all).len() == 0 {
        assert(utf8::lossy(utf8::rest(all)) =~= Seq::<char>::empty());
    }
}

/// However a GBK stream is cut into pieces, the bytes that are told of it, up to its end, are
/// those of the whole stream, and no piece ends inside a character.
pub proof fn gbk_streams_ignore_cuts(chunks: Seq<Seq<u8>>)
    ensures
        ({
            let d = DecoderView { mode: EncodingMode::Gbk, resolved: None, carry: Seq::empty() };
            let all = flat(chunks);
            let after = decoder_after(d, chunks);
            &&& gbk_told(d, chunks) == all.take(gbk_len(all) as int)
            &&& after.carry == all.skip(gbk_len(all) as int)
            &&& after.mode == EncodingMode::Gbk
            &&& after.resolved == None::<ResolvedEncoding> || after.resolved == Some(
                ResolvedEncoding::Gbk,
            )
            &&& gbk_told(d, chunks) + after.carry == all
        }),
    decreases chunks.len(),
{
    let d = DecoderView { mode: EncodingMode::Gbk, resolved: None, carry: Seq::empty() };
    let all = flat(chunks);
    lemma_gbk_len(all);
    if chunks.len() > 0 {
        let before = flat(chunks.drop_last());
        let k = gbk_len(before) as int;
        gbk_streams_ignore_cuts(chunks.drop_last());
        gbk_reading_ignores_cuts(before, chunks.last());
        lemma_gbk_len(before);
        let both = before.skip(k) + chunks.last();
        lemma_gbk_len(both);
        assert(all.skip(k) =~= both);
        let m = gbk_len(both) as int;
        assert(before.take(k) + both.take(m) =~= all.take(k + m));
        assert(both.skip(m) =~= all.skip(k + m));
    } else {
        assert(all.take(0) =~= Seq::<u8>::empty());
        assert(all.skip(0) =~= Seq::<u8>::empty());
    }
    assert(all.take(gbk_len(all) as int) + all.skip(gbk_len(all) as int) =~= all);
}

/// What a decoder that has to find out the encoding told of a stream, and what it remembers:
/// nothing while the encoding is open, else what one that knew it from the start would.
pub open spec fn auto_state(chunks: Seq<Seq<u8>>) -> bool {
    let d = DecoderView { mode: EncodingMode::Auto, resolved: None, carry: Seq::empty() };
    let all = flat(chunks);
    let after = decoder_after(d, chunks);
    &&& after.mode == EncodingMode::Auto
    &&& match after.resolved {
        None => {
            &&& after.carry == all
            &&& text_told(d, chunks) == Seq::<char>::empty()
            &&& gbk_told(d, chunks) == Seq::<u8>::empty()
        },
        Some(ResolvedEncoding::Utf8) => {
            &&& after.carry == utf8::rest(all)
            &&& text_told(d, chunks) == utf8::whole_text(all)
            &&& gbk_told(d, chunks) == Seq::<u8>::empty()
        },
        Some(ResolvedEncoding::Gbk) => {
            &&& after.carry == all.skip(gbk_len(all) as int)
            &&& text_told(d, chunks) == Seq::<char>::empty()
            &&& gbk_told(d, chunks) == all.take(gbk_len(all) as int)
        },
    }
}

proof fn lemma_auto_state(chunks: Seq<Seq<u8>>)
    ensures
        auto_state(chunks),
    decreases chunks.len(),
{
    let d = DecoderView { mode: EncodingMode::Auto, resolved: None, carry: Seq::empty() };
    let all = flat(chunks);
    if chunks.len() > 0 {
        let chunk = chunks.last();
        let before = flat(chunks.drop_last());
        let mid = decoder_after(d, chunks.drop_last());
        lemma_auto_state(chunks.drop_last());
        lemma_gbk_len(all);
        lemma_gbk_len(before);
        let now = pushed(mid, chunk);
        match mid.resolved {
            None => {
                assert(mid.carry + chunk =~= all);
                assert(text_told(d, chunks) =~= (match now.0 {
                    PieceView::Text(t) => t,
                    PieceView::Gbk(_) => Seq::empty(),
                }));
                assert(gbk_told(d, chunks) =~= (match now.0 {
                    PieceView::Text(_) => Seq::empty(),
                    PieceView::Gbk(b) => b,
                }));
            },
            Some(ResolvedEncoding::Utf8) => {
                utf8::reading_ignores_cuts(before, chunk);
                assert(gbk_told(d, chunks) =~= Seq::<u8>::empty());
            },
            Some(ResolvedEncoding::Gbk) => {
                let k = gbk_len(before) as int;
                let both = before.skip(k) + chunk;
                gbk_reading_ignores_cuts(before, chunk);
                lemma_gbk_len(both);
                assert(all.skip(k) =~= both);
                let m = gbk_len(both) as int;
                assert(before.take(k) + both.take(m) =~= all.take(k + m));
                assert(both.skip(m) =~= all.skip(k + m));
                assert(text_told(d, chunks) =~= Seq::<char>::empty());
            },
        }
    }
}

/// However a stream of unknown encoding is cut into pieces, nothing of it is lost or broken: up
/// to its end it is told as the text of the whole stream, or, where it was found to be GBK, as
/// the bytes of the whole stream, of which no piece but the last ends inside a character.
pub proof fn automatic_streams_lose_nothing(chunks: Seq<Seq<u8>>)
    ensures
        ({
            let d = DecoderView { mode: EncodingMode::Auto, resolved: None, carry: Seq::empty() };
            let all = flat(chunks);
            let after = decoder_after(d, chunks);
            let last = finished(after);
            if after.resolved == Some(ResolvedEncoding::Gbk) {
                &&& text_told(d, chunks) == Seq::<char>::empty()
                &&& gbk_told(d, chunks) == all.take(gbk_len(all) as int)
                &&& gbk_told(d, chunks) + after.carry == all
                &&& last == (if after.carry.len() == 0 {
                    PieceView::Text(Seq::empty())
                } else {
                    PieceView::Gbk(after.carry)
                })
            } else {
                &&& gbk_told(d, chunks) == Seq::<u8>::empty()
                &&& last is Text
                &&& text_told(d, chunks) + last->Text_0 == utf8::lossy(all)
            }
        }),
{
    let d = DecoderView { mode: EncodingMode::Auto, resolved: None, carry: Seq::empty() };
    let all = flat(chunks);
    let after = decoder_after(d, chunks);
    let last = finished(after);
    lemma_auto_state(chunks);
    lemma_gbk_len(all);
    if after.resolved == Some(ResolvedEncoding::Gbk) {
        assert(all.take(gbk_len(all) as int) + all.skip(gbk_len(all) as int) =~= all);
    } else if after.resolved == Some(ResolvedEncoding::Utf8) {
        utf8::lossy_splits(all);
        if utf8::rest(all).len() == 0 {
            assert(utf8::lossy(utf8::rest(all)) =~= Seq::<char>::empty());
        }
    } else {
        assert(text_told(d, chunks) + last->Text_0 =~= utf8::lossy(all));
    }
}

proof fn lemma_text_is_never_gbk(chunks: Seq<Seq<u8>>, more: Seq<u8>)
    requires
        utf8::is_text(flat(chunks) + more),
    ensures
        decoder_after(
            DecoderView { mode: EncodingMode::Auto, resolved: None, carry: Seq::empty() },
            chunks,
        ).resolved != Some(ResolvedEncoding::Gbk),
    decreases chunks.len(),
{
    if chunks.len() > 0 {
        let before = flat(chunks.drop_last());
        let d = DecoderView { mode: EncodingMode::Auto, resolved: None, carry: Seq::empty() };
        assert(before + (chunks.last() + more) =~= flat(chunks) + more);
        lemma_text_is_never_gbk(chunks.drop_last(), chunks.last() + more);
        lemma_auto_state(chunks.drop_last());
        let mid = decoder_after(d, chunks.drop_last());
        if mid.resolved is None {
            assert(mid.carry + chunks.last() =~= flat(chunks));
            utf8::fronts_of_text_are_fine(flat(chunks), more);
        }
    }
}

/// A stream of UTF-8 text whose encoding has to be found out is told as that text, however it
/// is cut into pieces.
pub proof fn automatic_streams_keep_text(chunks: Seq<Seq<u8>>)
    requires
        utf8::is_text(flat(chunks)),
    ensures
        ({
            let d = DecoderView { mode: EncodingMode::Auto, resolved: None, carry: Seq::empty() };
            let last = finished(decoder_after(d, chunks));
            &&& last is Text
            &&& text_told(d, chunks) + last->Text_0 == utf8::whole_text(flat(chunks))
        }),
{
    let all = flat(chunks);
    assert(all + Seq::<u8>::empty() =~= all);
    lemma_text_is_never_gbk(chunks, Seq::empty());
    automatic_streams_lose_nothing(chunks);
    utf8::lossy_splits(all);
    assert(utf8::rest(all) =~= Seq::<u8>::empty());
    assert(utf8::lossy(all) =~= utf8::whole_text(all));
}

// ---------------------------------------------------------------------------
// Waiting for a program
// ---------------------------------------------------------------------------

/// What asking for the state of a program gave.
#[derive(Clone, Copy, PartialEq, Eq, Debug, Structural)]
pub enum Polled {
    Running,
    /// It ended, with a code where it has one.
    Ended(Option<i32>),
    /// The state cannot be had.
    Failed,
}

/// What to do with a program that is waited for.
#[derive(Clone, Copy, PartialEq, Eq, Debug, Structural)]
pub enum WaitStep {
    /// Ask again a little later.
    Sleep,
    /// It has ended with this code.
    Done(i32),
    /// End it.
    Kill,
}

/// The code of a program: -1 where it has none.
pub open spec fn code_of(code: Option<i32>) -> i32 {
    match code {
        Some(c) => c,
        None => (-1) as i32,
    }
}

/// Whether the time of a program is up.
pub open spec fn time_is_up(timeout_ms: Option<u64>, elapsed_ms: u64) -> bool {
    match timeout_ms {
        Some(t) => elapsed_ms >= t,
        None => false,
    }
}

/// A program has all the time that it was given and no more, to the millisecond: its time is up
/// from then on and not before, more time never ends it earlier, and without a limit its time is
/// never up.
pub proof fn programs_have_their_time(t: u64, longer: u64, e: u64, later: u64)
    requires
        t <= longer,
        e <= later,
    ensures
        e < t ==> !time_is_up(Some(t), e),
        time_is_up(Some(t), t),
        time_is_up(Some(t), e) ==> time_is_up(Some(t), later) && e >= t,
        time_is_up(Some(longer), e) ==> time_is_up(Some(t), e),
        !time_is_up(None, e),
{
}

/// A program whose whole output is collected: what to do, and whether it is ended because its
/// time is up. After [`WaitStep::Kill`] it is waited for until it has ended.
pub fn collect_step(polled: Polled, timeout_ms: Option<u64>, elapsed_ms: u64) -> (r: (
    WaitStep,
    bool,
))
    ensures
        r == (match polled {
            Polled::Ended(c) => (WaitStep::Done(code_of(c)), false),
            Polled::Failed => (WaitStep::Kill, false),
            Polled::Running => if time_is_up(timeout_ms, elapsed_ms) {
                (WaitStep::Kill, true)
            } else {
                (WaitStep::Sleep, false)
            },
        }),
        polled == Polled::Running ==> (r == (WaitStep::Kill, true) <==> timeout_ms is Some
            && elapsed_ms >= timeout_ms->0),
        polled == Polled::Running ==> (r == (WaitStep::Sleep, false) <==> timeout_ms is None
            || elapsed_ms < timeout_ms->0),
{
    match polled {
        Polled::Ended(c) => (WaitStep::Done(exit_code(c)), false),
        Polled::Failed => (WaitStep::Kill, false),
        Polled::Running => {
            let up = match timeout_ms {
                Some(t) => elapsed_ms >= t,
                None => false,
            };
            if up {
                (WaitStep::Kill, true)
            } else {
                (WaitStep::Sleep, false)
            }
        },
    }
}

/// The code of a program that has ended, see [`code_of`].
pub fn exit_code(code: Option<i32>) -> (r: i32)
    ensures
        r == code_of(code),
{
    match code {
        Some(c) => c,
        None => -1,
    }
}

/// The waiting for a program whose output is streamed.
#[derive(Clone, Copy, PartialEq, Eq, Debug, Structural)]
pub struct Waiter {
    pub timed_out: bool,
}

impl Waiter {
    /// What to do, and whether the waiting is over. A program whose time is up is ended once
    /// and then waited for; one whose state cannot be had is ended and given up.
    pub fn step(&mut self, polled: Polled, timeout_ms: Option<u64>, elapsed_ms: u64) -> (r: (
        WaitStep,
        Option<i32>,
    ))
        ensures
            final(self).timed_out == (old(self).timed_out || (polled == Polled::Running
                && time_is_up(timeout_ms, elapsed_ms))),
            r == (match polled {
                Polled::Ended(c) => (WaitStep::Done(code_of(c)), Some(code_of(c))),
                Polled::Failed => (WaitStep::Kill, Some(code_of(None))),
                Polled::Running => if !old(self).timed_out && time_is_up(timeout_ms, elapsed_ms) {
                    (WaitStep::Kill, None)
                } else {
                    (WaitStep::Sleep, None)
                },
            }),
            polled == Polled::Running && !old(self).timed_out ==> (r == (
                WaitStep::Kill,
                None::<i32>,
            ) <==> timeout_ms is Some && elapsed_ms >= timeout_ms->0),
            polled == Polled::Running && !old(self).timed_out ==> (final(self).timed_out
                <==> timeout_ms is Some && elapsed_ms >= timeout_ms->0),
    {
        match polled {
            Polled::Ended(c) => (WaitStep::Done(exit_code(c)), Some(exit_code(c))),
            Polled::Failed => (WaitStep::Kill, Some(-1)),
            Polled::Running => {
                let up = match timeout_ms {
                    Some(t) => elapsed_ms >= t,
                    None => false,
                };
                if !self.timed_out && up {
                    self.timed_out = true;
                    (WaitStep::Kill, None)
                } else {
                    (WaitStep::Sleep, None)
                }
            },
        }
    }
}

/// Puts the result of a program together. `out` and `err` are its outputs, each with whether
/// there was more, and what the system made of it in GBK.
pub fn exec_result(
    code: Option<i32>,
    timed_out: bool,
    mode: EncodingMode,
    out: (Vec<u8>, bool, Option<String>),
    err: (Vec<u8>, bool, Option<String>),
) -> (r: ExecResult)
    ensures
        r.code == code_of(code),
        r.timed_out == timed_out,
        r.truncated == (out.1 || err.1),
        r.stdout@ == full_text(out.0@, mode, text::opt_view(out.2)),
        r.stderr@ == full_text(err.0@, mode, text::opt_view(err.2)),
{
    ExecResult {
        code: exit_code(code),
        stdout: decode_full(out.0.as_slice(), mode, out.2),
        stderr: decode_full(err.0.as_slice(), mode, err.2),
        timed_out,
        truncated: out.1 || err.1,
    }
}

// ---------------------------------------------------------------------------
// Running streams
// ---------------------------------------------------------------------------

/// The running streams and who started them.
#[derive(Debug)]
pub struct ExecState {
    owners: Table<ActiveSession>,
}

impl View for ExecState {
    type V = Map<Seq<char>, ActiveSession>;

    closed spec fn view(&self) -> Map<Seq<char>, ActiveSession> {
        self.owners@
    }
}

/// Why a session may not end a stream.
pub open spec fn owner_error(
    m: Map<Seq<char>, ActiveSession>,
    stream_id: Seq<char>,
    s: (Seq<char>, bool),
) -> Option<Seq<char>> {
    if !m.dom().contains(stream_id) {
        Some("执行会话不存在或已结束"@)
    } else if m[stream_id]@ != s {
        Some("该执行会话不属于本插件"@)
    } else {
        None
    }
}

impl ExecState {
    pub fn new() -> (r: Self)
        ensures
            r@ == Map::<Seq<char>, ActiveSession>::empty(),
    {
        ExecState { owners: Table::new() }
    }

    /// Notes a stream.
    pub fn add(&mut self, stream_id: String, owner: ActiveSession)
        ensures
            final(self)@ == old(self)@.insert(stream_id@, owner),
    {
        self.owners.insert(stream_id, owner);
    }

    /// Forgets a stream that has ended.
    pub fn remove(&mut self, stream_id: &str)
        ensures
            final(self)@ == old(self)@.remove(stream_id@),
    {
        self.owners.remove(stream_id);
    }

    /// Checks that a stream is there and belongs to a session, see [`owner_error`].
    pub fn take_owned_child(&self, stream_id: &str, session: &ActiveSession) -> (r: Result<
        (),
        String,
    >)
        ensures
            text::message_of(r) == owner_error(self@, stream_id@, session@),
    {
        match self.owners.get(stream_id) {
            None => Err(text::owned("执行会话不存在或已结束")),
            Some(owner) => {
                if !owner.same_as(session) {
                    return Err(text::owned("该执行会话不属于本插件"));
                }
                Ok(())
            },
        }
    }
}

/// What asking a program to quit came to: its console may be out of reach, or the signal may
/// not be sent.
pub fn quit_result(pid: u32, attached: bool, sent: bool) -> (r: Result<(), String>)
    ensures
        text::message_of(r) == (if !attached {
            Some(
                "附加目标进程控制台失败（pid="@ + text::decimal_text(pid as nat)
                    + "，可能已退出）"@,
            )
        } else if !sent {
            Some("发送 CTRL_BREAK 失败（pid="@ + text::decimal_text(pid as nat) + "）"@)
        } else {
            None
        }),
{
    let number = text::decimal(pid as u64);
    if !attached {
        return Err(
            text::owned("附加目标进程控制台失败（pid=").concat(number.as_str()).concat(
                "，可能已退出）",
            ),
        );
    }
    if !sent {
        return Err(
            text::owned("发送 CTRL_BREAK 失败（pid=").concat(number.as_str()).concat("）"),
        );
    }
    Ok(())
}

/// The first 16 MB of an output are kept, and what is kept does not depend on how it comes in.
pub proof fn the_front_of_an_output_is_kept(a: Seq<u8>, b: Seq<u8>)
    ensures
        capped(a).is_prefix_of(a),
        capped(a).len() == if a.len() < 16 * 1024 * 1024 {
            a.len()
        } else {
            16 * 1024 * 1024
        },
        capped(capped(a) + b) == capped(a + b),
{
    assert(a.subrange(0, capped(a).len() as int) =~= capped(a));
    assert(capped(capped(a) + b) =~= capped(a + b));
}

/// An encoding goes by its name, where neither the case of the letters nor white space around
/// it counts; every other name leaves it open.
pub proof fn encodings_go_by_their_names(name: Seq<char>, before: Seq<char>, after: Seq<char>)
    requires
        name.len() > 0,
        !text::is_space(name[0]),
        !text::is_space(name.last()),
        forall|i: int| 0 <= i < before.len() ==> text::is_space(#[trigger] before[i]),
        forall|i: int| 0 <= i < after.len() ==> text::is_space(#[trigger] after[i]),
    ensures
        ({
            let low = text::lowered(name);
            let mode = mode_of(Some(before + name + after));
            &&& mode == EncodingMode::Utf8 <==> low == "utf8"@ || low == "utf-8"@
            &&& mode == EncodingMode::Gbk <==> low == "gbk"@ || low == "gb2312"@ || low
                == "cp936"@ || low == "ansi"@
        }),
        mode_of(None) == EncodingMode::Auto,
{
    text::lemma_trimmed_around(before, name, after);
    reveal_strlit("utf8");
    reveal_strlit("utf-8");
    reveal_strlit("gbk");
    reveal_strlit("gb2312");
    reveal_strlit("cp936");
    reveal_strlit("ansi");
    assert("utf8"@[0] == 'u' && "utf-8"@[0] == 'u' && "gbk"@[0] == 'g' && "gb2312"@[0] == 'g'
        && "cp936"@[0] == 'c' && "ansi"@[0] == 'a');
}

/// An output that is to be GBK is what the system made of it; one that is to be found out is so
/// only where it is no UTF-8, and one that is to be UTF-8 never.
pub proof fn outputs_are_read_as_asked(bytes: Seq<u8>, converted: Seq<char>)
    requires
        bytes.len() > 0,
    ensures
        full_text(bytes, EncodingMode::Gbk, Some(converted)) == converted,
        full_text(bytes, EncodingMode::Utf8, Some(converted)) == utf8::lossy(bytes),
        full_text(bytes, EncodingMode::Auto, Some(converted)) == if vstd::utf8::valid_utf8(bytes) {
            utf8::lossy(bytes)
        } else {
            converted
        },
        full_text(bytes, EncodingMode::Gbk, None) == utf8::lossy(bytes),
{
    utf8::only_utf8_is_text(bytes);
}

/// A stream whose encoding is asked for has it from the start. One that is to be found out
/// stays open only while it could go on as UTF-8 and holds fewer than 256 bytes; what is no
/// UTF-8 is GBK.
pub proof fn encodings_are_found_out_soon(b: Seq<u8>)
    ensures
        sniffed(EncodingMode::Utf8, b) == Some(ResolvedEncoding::Utf8),
        sniffed(EncodingMode::Gbk, b) == Some(ResolvedEncoding::Gbk),
        b.len() >= 256 ==> sniffed(EncodingMode::Auto, b) is Some,
        vstd::utf8::valid_utf8(b) ==> sniffed(EncodingMode::Auto, b) == Some(
            ResolvedEncoding::Utf8,
        ),
        sniffed(EncodingMode::Auto, b) == Some(ResolvedEncoding::Gbk) <==> !utf8::is_text(b)
            && !utf8::is_cut(b),
        utf8::is_cut(b) && !utf8::is_text(b) && b.len() < 256 ==> sniffed(EncodingMode::Auto, b)
            is None,
{
    utf8::only_utf8_is_text(b);
}

/// Whether bytes are one character of GBK: one byte, or a first byte from 0x81 to 0xFE and one
/// more.
pub open spec fn is_gbk_char(b: Seq<u8>) -> bool {
    (b.len() == 1 && !(0x81 <= b[0] <= 0xFE)) || (b.len() == 2 && 0x81 <= b[0] <= 0xFE)
}

/// Whole characters of GBK are told to the last, and the first byte of one more is kept back.
pub proof fn gbk_characters_are_told_whole(chars: Seq<Seq<u8>>, lead: u8)
    requires
        forall|k: int| 0 <= k < chars.len() ==> is_gbk_char(#[trigger] chars[k]),
        0x81 <= lead <= 0xFE,
    ensures
        gbk_len(flat(chars)) == flat(chars).len(),
        gbk_len(flat(chars).push(lead)) == flat(chars).len(),
    decreases chars.len(),
{
    let all = flat(chars);
    if chars.len() > 0 {
        let less = chars.drop_last();
        let last = chars.last();
        assert(is_gbk_char(chars[chars.len() - 1]));
        assert forall|k: int| 0 <= k < less.len() implies is_gbk_char(#[trigger] less[k]) by {
            assert(less[k] == chars[k]);
        }
        gbk_characters_are_told_whole(less, lead);
        let front = flat(less);
        assert(front.skip(gbk_len(front) as int) =~= Seq::<u8>::empty());
        assert(Seq::<u8>::empty() + last =~= last);
        gbk_reading_ignores_cuts(front, last);
        reveal_with_fuel(gbk_len, 3);
        assert(gbk_len(last) == last.len());
    }
    gbk_reading_ignores_cuts(all, seq![lead]);
    assert(all.skip(gbk_len(all) as int) =~= Seq::<u8>::empty());
    assert(Seq::<u8>::empty() + seq![lead] =~= seq![lead]);
    assert(all + seq![lead] =~= all.push(lead));
    assert(gbk_len(seq![lead]) == 0);
}

/// A program that ended has the code that it ended with, and -1 where it has none.
pub proof fn codes_are_kept(code: i32)
    ensures
        code_of(Some(code)) == code,
        code_of(None) == -1,
{
}

/// Nobody but the session that started a stream can end it, and that session always can.
pub proof fn streams_belong_to_their_session(
    m: Map<Seq<char>, ActiveSession>,
    stream_id: Seq<char>,
    s: (Seq<char>, bool),
)
    ensures
        owner_error(m, stream_id, s) is None <==> m.dom().contains(stream_id) && m[stream_id]@
            == s,
{
}

/// A program is run only where that is granted and where it has a name.
pub proof fn programs_need_a_permission(granted: bool, program: Seq<char>, k: int)
    requires
        0 <= k < program.len(),
        !text::is_space(program[k]),
    ensures
        exec_error(granted, program) is None <==> granted,
        exec_error(granted, Seq::empty()) is Some,
{
    let ends = text::trimming_takes_only_white_space(program);
    if text::trimmed(program).len() == 0 {
        assert(program =~= ends.0 + ends.1);
        if k < ends.0.len() {
            assert(program[k] == ends.0[k]);
        } else {
            assert(program[k] == ends.1[k - ends.0.len()]);
        }
    }
}

/// The flags with which a program starts.
pub open spec fn flags_of(own_group: bool) -> u32 {
    if own_group {
        0x0800_0200
    } else {
        0x0800_0000
    }
}

/// No program gets a window, and a group of its own exactly where that is asked for: these are
/// the flags 0x08000000 and 0x200 of the system, and no others are set.
pub proof fn programs_start_without_a_window(own_group: bool)
    ensures
        flags_of(own_group) & 0x0800_0000 == 0x0800_0000,
        flags_of(own_group) & 0x200 == 0x200 <==> own_group,
        flags_of(own_group) & !0x0800_0200u32 == 0,
{
    assert(0x0800_0200u32 & 0x0800_0000 == 0x0800_0000) by (bit_vector);
    assert(0x0800_0000u32 & 0x0800_0000 == 0x0800_0000) by (bit_vector);
    assert(0x0800_0200u32 & 0x200 == 0x200) by (bit_vector);
    assert(0x0800_0000u32 & 0x200 == 0) by (bit_vector);
    assert(0x0800_0200u32 & !0x0800_0200u32 == 0) by (bit_vector);
    assert(0x0800_0000u32 & !0x0800_0200u32 == 0) by (bit_vector);
}

} // verus!
