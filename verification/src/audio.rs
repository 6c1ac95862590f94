//! Recordings of the microphone.

use crate::codec;
use crate::session::ActiveSession;
use crate::text;
use vstd::prelude::*;

verus! {

/// The permission for recording.
pub const PERM_AUDIO: &'static str = "audio-capture";

/// The seconds after which a recording ends by itself.
pub const MAX_RECORD_SECS: u64 = 600;

/// The seconds in which a recording has to start.
pub const START_TIMEOUT_SECS: u64 = 5;

/// Checks that a plugin may record.
pub fn check_audio(granted: bool) -> (r: Result<(), String>)
    ensures
        text::message_of(r) == (if granted {
            None
        } else {
            Some("插件未获授权录音（请在「插件管理」里授权 audio-capture）"@)
        }),
{
    if granted {
        Ok(())
    } else {
        Err(text::owned("插件未获授权录音（请在「插件管理」里授权 audio-capture）"))
    }
}

/// What keeps a recording from starting.
#[derive(Debug)]
pub enum Fault {
    NoDevice,
    Config(String),
    Format(String),
    Build(String),
    Play(String),
}

/// What is told of a fault.
pub open spec fn fault_message(f: Fault) -> Seq<char> {
    match f {
        Fault::NoDevice => "找不到麦克风输入设备"@,
        Fault::Config(e) => "读取输入配置失败: "@ + e@,
        Fault::Format(e) => "不支持的采样格式: "@ + e@,
        Fault::Build(e) => "建立录音流失败: "@ + e@,
        Fault::Play(e) => "启动录音失败: "@ + e@,
    }
}

/// What is told of a fault, see [`fault_message`].
pub fn fault_text(f: &Fault) -> (r: String)
    ensures
        r@ == fault_message(*f),
{
    match f {
        Fault::NoDevice => text::owned("找不到麦克风输入设备"),
        Fault::Config(e) => text::owned("读取输入配置失败: ").concat(e.as_str()),
        Fault::Format(e) => text::owned("不支持的采样格式: ").concat(e.as_str()),
        Fault::Build(e) => text::owned("建立录音流失败: ").concat(e.as_str()),
        Fault::Play(e) => text::owned("启动录音失败: ").concat(e.as_str()),
    }
}

/// What came of waiting for a recording to start.
#[derive(Debug)]
pub enum Ready {
    Started,
    Failed(String),
    Gone,
    Late,
}

/// What is told where a recording did not start.
pub open spec fn start_error(ready: Ready) -> Option<Seq<char>> {
    match ready {
        Ready::Started => None,
        Ready::Failed(e) => Some(e@),
        Ready::Gone => Some("录音线程提前退出"@),
        Ready::Late => Some("录音启动超时"@),
    }
}

/// Who records; one at a time.
#[derive(Debug)]
pub struct AudioState {
    owner: Option<ActiveSession>,
}

impl View for AudioState {
    type V = Option<(Seq<char>, bool)>;

    closed spec fn view(&self) -> Option<(Seq<char>, bool)> {
        text::opt_view(self.owner)
    }
}

/// What is told to a session that wants to stop a recording.
pub open spec fn stop_error(owner: Option<(Seq<char>, bool)>, by: (Seq<char>, bool)) -> Option<
    Seq<char>,
> {
    match owner {
        None => Some("当前没有录音"@),
        Some(o) => if o != by {
            Some("该录音会话不属于本插件"@)
        } else {
            None
        },
    }
}

impl AudioState {
    pub fn new() -> (r: Self)
        ensures
            r@ == None::<(Seq<char>, bool)>,
    {
        AudioState { owner: None }
    }

    /// Who records.
    pub fn active_owner(&self) -> (r: Option<ActiveSession>)
        ensures
            text::opt_view(r) == self@,
    {
        match &self.owner {
            Some(s) => Some(s.clone()),
            None => None,
        }
    }

    /// Ends whatever recording there is; the answer says whether there was one.
    pub fn force_stop(&mut self) -> (r: bool)
        ensures
            r == old(self)@ is Some,
            final(self)@ == None::<(Seq<char>, bool)>,
    {
        let had = self.owner.is_some();
        self.owner = None;
        had
    }

    /// Notes a recording of a session. One that goes on stands in the way; one that is `over`
    /// by itself does not.
    pub fn start(&mut self, session: ActiveSession, over: bool) -> (r: Result<(), String>)
        ensures
            text::message_of(r) == recording_refused(old(self)@, over),
            text::message_of(r) == (if old(self)@ is Some && !over {
                Some("已经在录音了"@)
            } else {
                None
            }),
            final(self)@ == (if r is Ok {
                Some(session@)
            } else {
                old(self)@
            }),
    {
        if self.owner.is_some() && !over {
            return Err(text::owned("已经在录音了"));
        }
        self.owner = Some(session);
        Ok(())
    }

    /// Takes in whether the recording started; one that did not is dropped.
    pub fn started(&mut self, ready: Ready) -> (r: Result<(), String>)
        ensures
            text::message_of(r) == start_error(ready),
            final(self)@ == (if r is Ok {
                old(self)@
            } else {
                None
            }),
    {
        match ready {
            Ready::Started => Ok(()),
            Ready::Failed(e) => {
                self.owner = None;
                Err(e)
            },
            Ready::Gone => {
                self.owner = None;
                Err(text::owned("录音线程提前退出"))
            },
            Ready::Late => {
                self.owner = None;
                Err(text::owned("录音启动超时"))
            },
        }
    }

    /// Ends the recording of a session; nobody else can, not even a session of the same id on
    /// the other side.
    pub fn stop(&mut self, session: &ActiveSession) -> (r: Result<(), String>)
        ensures
            text::message_of(r) == stop_error(old(self)@, session@),
            final(self)@ == (if r is Ok {
                None
            } else {
                old(self)@
            }),
    {
        let own = match &self.owner {
            None => {
                return Err(text::owned("当前没有录音"));
            },
            Some(s) => s.same_as(session),
        };
        if !own {
            return Err(text::owned("该录音会话不属于本插件"));
        }
        self.owner = None;
        Ok(())
    }
}

/// Whether a recording goes on.
pub fn goes_on(stopped: bool, elapsed_secs: u64) -> (r: bool)
    ensures
        r == still_recording(stopped, elapsed_secs),
        r == (!stopped && elapsed_secs <= MAX_RECORD_SECS),
        elapsed_secs > 10 * 60 ==> !r,
        !stopped && elapsed_secs <= 10 * 60 ==> r,
{
    !stopped && elapsed_secs <= MAX_RECORD_SECS
}

// ---------------------------------------------------------------------------
// Samples
// ---------------------------------------------------------------------------

/// Appends samples that count from zero as samples around zero.
pub fn push_unsigned(out: &mut Vec<i16>, data: &[u16])
    ensures
        final(out)@ == old(out)@ + data@.map_values(|s: u16| around_zero(s)),
        final(out)@ == old(out)@ + data@.map_values(|s: u16| (s - 32768) as i16),
        final(out)@.len() == old(out)@.len() + data@.len(),
        forall|k: int|
            0 <= k < data@.len() ==> #[trigger] final(out)@[old(out)@.len() + k] + 32768
                == data@[k],
{
    let ghost all = data@.map_values(|s: u16| (s - 32768) as i16);
    let ghost start = out@;
    let mut i: usize = 0;
    assert(start + all.take(0) =~= start);
    while i < data.len()
        invariant
            i <= data@.len(),
            all == data@.map_values(|s: u16| (s - 32768) as i16),
            out@ == start + all.take(i as int),
        decreases data@.len() - i,
    {
        out.push((data[i] as i32 - 32768) as i16);
        assert(all.take(i + 1) =~= all.take(i as int).push(all[i as int]));
        assert(out@ =~= start + all.take(i + 1));
        i += 1;
    }
    assert(all.take(i as int) =~= all);
    assert(data@.map_values(|s: u16| around_zero(s)) =~= all);
}

/// The number that stands for a sample in two bytes.
pub open spec fn sample_bits(s: i16) -> nat {
    if s < 0 {
        (s + 65536) as nat
    } else {
        s as nat
    }
}

/// Samples as bytes, each in two, lowest first.
pub open spec fn sample_bytes(samples: Seq<i16>) -> Seq<u8>
    decreases samples.len(),
{
    if samples.len() == 0 {
        Seq::empty()
    } else {
        sample_bytes(samples.drop_last()) + codec::le_bytes(sample_bits(samples.last()), 2)
    }
}

/// The letters of a chunk's name.
pub open spec fn tag(a: u8, b: u8, c: u8, d: u8) -> Seq<u8> {
    seq![a, b, c, d]
}

/// The head of a WAV file for so many samples of 16 bits. Sizes that do not fit their bytes
/// keep their lowest ones.
pub open spec fn wav_head(count: nat, sample_rate: nat, channels: nat) -> Seq<u8> {
    tag(0x52, 0x49, 0x46, 0x46) + codec::le_bytes(36 + 2 * count, 4) + tag(
        0x57,
        0x41,
        0x56,
        0x45,
    ) + tag(0x66, 0x6D, 0x74, 0x20) + codec::le_bytes(16, 4) + codec::le_bytes(1, 2)
        + codec::le_bytes(channels, 2) + codec::le_bytes(sample_rate, 4) + codec::le_bytes(
        sample_rate * channels * 2,
        4,
    ) + codec::le_bytes(channels * 2, 2) + codec::le_bytes(16, 2) + tag(0x64, 0x61, 0x74, 0x61)
        + codec::le_bytes(2 * count, 4)
}

/// The bytes of a WAV file: the head, then the samples.
pub open spec fn wav_bytes(samples: Seq<i16>, sample_rate: u32, channels: u16) -> Seq<u8> {
    wav_head(samples.len(), sample_rate as nat, channels as nat) + sample_bytes(samples)
}

fn push_tag(out: &mut Vec<u8>, a: u8, b: u8, c: u8, d: u8)
    ensures
        final(out)@ == old(out)@ + tag(a, b, c, d),
{
    let ghost start = out@;
    out.push(a);
    out.push(b);
    out.push(c);
    out.push(d);
    assert(out@ =~= start + tag(a, b, c, d));
}

/// Makes a WAV file, see [`wav_bytes`].
pub fn encode_wav(samples: &[i16], sample_rate: u32, channels: u16) -> (r: Vec<u8>)
    ensures
        r@ == wav_bytes(samples@, sample_rate, channels),
{
    let count: u128 = samples.len() as u128;
    let rate: u128 = sample_rate as u128;
    let wide: u128 = channels as u128;
    assert(rate * wide * 2 <= 0xFFFF_FFFF * 0xFFFF * 2) by (nonlinear_arith)
        requires
            rate <= 0xFFFF_FFFF,
            wide <= 0xFFFF,
    ;
    assert(rate * wide <= 0xFFFF_FFFF * 0xFFFF) by (nonlinear_arith)
        requires
            rate <= 0xFFFF_FFFF,
            wide <= 0xFFFF,
    ;
    let mut out: Vec<u8> = Vec::new();
    push_tag(&mut out, 0x52, 0x49, 0x46, 0x46);
    codec::push_le(&mut out, 36 + 2 * count, 4);
    push_tag(&mut out, 0x57, 0x41, 0x56, 0x45);
    push_tag(&mut out, 0x66, 0x6D, 0x74, 0x20);
    codec::push_le(&mut out, 16, 4);
    codec::push_le(&mut out, 1, 2);
    codec::push_le(&mut out, wide, 2);
    codec::push_le(&mut out, rate, 4);
    codec::push_le(&mut out, rate * wide * 2, 4);
    codec::push_le(&mut out, wide * 2, 2);
    codec::push_le(&mut out, 16, 2);
    push_tag(&mut out, 0x64, 0x61, 0x74, 0x61);
    codec::push_le(&mut out, 2 * count, 4);
    let ghost head = wav_head(samples@.len(), sample_rate as nat, channels as nat);
    assert(out@ =~= head);
    let mut i: usize = 0;
    assert(samples@.take(0) =~= Seq::<i16>::empty());
    assert(out@ =~= head + sample_bytes(samples@.take(0)));
    while i < samples.len()
        invariant
            i <= samples@.len(),
            out@ == head + sample_bytes(samples@.take(i as int)),
        decreases samples@.len() - i,
    {
        assert(samples@.take(i + 1).drop_last() =~= samples@.take(i as int));
        let s: i16 = samples[i];
        let bits: u128 = if s < 0 {
            (s as i32 + 65536) as u128
        } else {
            s as u128
        };
        codec::push_le(&mut out, bits, 2);
        assert(out@ =~= head + sample_bytes(samples@.take(i + 1)));
        i += 1;
    }
    assert(samples@.take(i as int) =~= samples@);
    out
}

/// What a recording holds.
#[derive(Debug)]
pub struct Recorded {
    pub samples: Vec<i16>,
    pub sample_rate: u32,
    pub channels: u16,
}

/// The answer to a stopped recording: the WAV file in Base64. There is no recording where the
/// recorder broke down.
pub fn recording_answer(recorded: Option<Result<Recorded, String>>) -> (r: Result<String, String>)
    ensures
        text::outcome(r) == (match recorded {
            None => Err("录音线程异常"@),
            Some(Err(e)) => Err(e@),
            Some(Ok(rec)) => Ok(
                codec::base64_text(wav_bytes(rec.samples@, rec.sample_rate, rec.channels)),
            ),
        }),
{
    match recorded {
        None => Err(text::owned("录音线程异常")),
        Some(Err(e)) => Err(e),
        Some(Ok(rec)) => {
            let wav = encode_wav(rec.samples.as_slice(), rec.sample_rate, rec.channels);
            Ok(codec::base64_encode(wav.as_slice()))
        },
    }
}

proof fn lemma_sample_bytes(samples: Seq<i16>, k: int)
    ensures
        sample_bytes(samples).len() == 2 * samples.len(),
        0 <= k < samples.len() ==> sample_bytes(samples)[2 * k] + 256 * sample_bytes(
            samples,
        )[2 * k + 1] == sample_bits(samples[k]),
    decreases samples.len(),
{
    if samples.len() > 0 {
        lemma_sample_bytes(samples.drop_last(), k);
        reveal_with_fuel(codec::le_bytes, 3);
    }
}

/// The head of a WAV file takes 44 bytes, and behind it every sample stands in two bytes, in
/// order.
pub proof fn samples_read_back(samples: Seq<i16>, sample_rate: u32, channels: u16, k: int)
    ensures
        ({
            let b = wav_bytes(samples, sample_rate, channels);
            &&& b.len() == 44 + 2 * samples.len()
            &&& 0 <= k < samples.len() ==> b[44 + 2 * k] + 256 * b[45 + 2 * k] == sample_bits(
                samples[k],
            )
            &&& 0 <= k < samples.len() ==> {
                let low = b[44 + 2 * k] + 256 * b[45 + 2 * k];
                samples[k] == if low < 32768 {
                    low
                } else {
                    low - 65536
                }
            }
        }),
{
    lemma_sample_bytes(samples, k);
    reveal_with_fuel(codec::le_bytes, 5);
}

/// The two sizes in a WAV file are right: that of what follows the first one, and that of the
/// samples. This holds of every file that the format has room for.
pub proof fn wav_sizes_are_right(samples: Seq<i16>, sample_rate: u32, channels: u16)
    requires
        36 + 2 * samples.len() < 0x1_0000_0000,
    ensures
        ({
            let b = wav_bytes(samples, sample_rate, channels);
            &&& codec::le_value(b.subrange(4, 8)) == b.len() - 8
            &&& codec::le_value(b.subrange(40, 44)) == b.len() - 44
        }),
{
    let n = samples.len();
    let b = wav_bytes(samples, sample_rate, channels);
    samples_read_back(samples, sample_rate, channels, 0);
    codec::le_bytes_read_back(36 + 2 * n, 4);
    codec::le_bytes_read_back(2 * n, 4);
    assert(vstd::arithmetic::power::pow(256, 4) == 0x1_0000_0000) by {
        reveal_with_fuel(vstd::arithmetic::power::pow, 5);
    }
    vstd::arithmetic::div_mod::lemma_small_mod(36 + 2 * n, 0x1_0000_0000);
    vstd::arithmetic::div_mod::lemma_small_mod(2 * n, 0x1_0000_0000);
    reveal_with_fuel(codec::le_bytes, 5);
    assert(b.subrange(4, 8) =~= codec::le_bytes(36 + 2 * n, 4));
    assert(b.subrange(40, 44) =~= codec::le_bytes(2 * n, 4));
}

/// A WAV file says what it holds: uncompressed samples of 16 bits at the rate and for the
/// channels of the recording, with the bytes of a second and of a moment that follow from them.
/// The names of its parts stand where readers look for them.
pub proof fn wav_heads_tell_the_recording(samples: Seq<i16>, sample_rate: u32, channels: u16)
    requires
        channels < 0x8000,
        sample_rate * channels * 2 < 0x1_0000_0000,
    ensures
        ({
            let b = wav_bytes(samples, sample_rate, channels);
            &&& b.subrange(0, 4) == seq![0x52u8, 0x49, 0x46, 0x46]
            &&& b.subrange(8, 12) == seq![0x57u8, 0x41, 0x56, 0x45]
            &&& b.subrange(12, 16) == seq![0x66u8, 0x6D, 0x74, 0x20]
            &&& codec::le_value(b.subrange(16, 20)) == 16
            &&& codec::le_value(b.subrange(20, 22)) == 1
            &&& codec::le_value(b.subrange(22, 24)) == channels
            &&& codec::le_value(b.subrange(24, 28)) == sample_rate
            &&& codec::le_value(b.subrange(28, 32)) == sample_rate * channels * 2
            &&& codec::le_value(b.subrange(32, 34)) == channels * 2
            &&& codec::le_value(b.subrange(34, 36)) == 16
            &&& b.subrange(36, 40) == seq![0x64u8, 0x61, 0x74, 0x61]
        }),
{
    let n = samples.len();
    let b = wav_bytes(samples, sample_rate, channels);
    let rate = sample_rate as nat;
    let wide = channels as nat;
    samples_read_back(samples, sample_rate, channels, 0);
    assert(vstd::arithmetic::power::pow(256, 4) == 0x1_0000_0000) by {
        reveal_with_fuel(vstd::arithmetic::power::pow, 5);
    }
    assert(vstd::arithmetic::power::pow(256, 2) == 0x1_0000) by {
        reveal_with_fuel(vstd::arithmetic::power::pow, 3);
    }
    codec::le_bytes_read_back(16, 4);
    codec::le_bytes_read_back(1, 2);
    codec::le_bytes_read_back(wide, 2);
    codec::le_bytes_read_back(rate, 4);
    codec::le_bytes_read_back(rate * wide * 2, 4);
    codec::le_bytes_read_back(wide * 2, 2);
    codec::le_bytes_read_back(16, 2);
    vstd::arithmetic::div_mod::lemma_small_mod(rate, 0x1_0000_0000);
    vstd::arithmetic::div_mod::lemma_small_mod(rate * wide * 2, 0x1_0000_0000);
    assert(codec::le_bytes(36 + 2 * n, 4).len() == 4) by {
        codec::le_bytes_read_back(36 + 2 * n, 4);
    }
    assert(codec::le_bytes(2 * n, 4).len() == 4) by {
        codec::le_bytes_read_back(2 * n, 4);
    }
    assert(b.subrange(16, 20) =~= codec::le_bytes(16, 4));
    assert(b.subrange(20, 22) =~= codec::le_bytes(1, 2));
    assert(b.subrange(22, 24) =~= codec::le_bytes(wide, 2));
    assert(b.subrange(24, 28) =~= codec::le_bytes(rate, 4));
    assert(b.subrange(28, 32) =~= codec::le_bytes(rate * wide * 2, 4));
    assert(b.subrange(32, 34) =~= codec::le_bytes(wide * 2, 2));
    assert(b.subrange(34, 36) =~= codec::le_bytes(16, 2));
}

/// Whether a recording goes on: nobody stopped it, and its time is not over.
pub open spec fn still_recording(stopped: bool, elapsed_secs: u64) -> bool {
    !stopped && elapsed_secs <= MAX_RECORD_SECS
}

/// A sample that counts from zero as one around zero.
pub open spec fn around_zero(s: u16) -> i16 {
    (s - 32768) as i16
}

/// What is told to a session that wants to record while another recording may go on.
pub open spec fn recording_refused(owner: Option<(Seq<char>, bool)>, over: bool) -> Option<
    Seq<char>,
> {
    if owner is Some && !over {
        Some("已经在录音了"@)
    } else {
        None
    }
}

/// A recording lasts until it is stopped, and ten minutes at most.
pub proof fn recordings_last_ten_minutes(elapsed_secs: u64)
    ensures
        still_recording(false, elapsed_secs) <==> elapsed_secs <= 10 * 60,
        !still_recording(true, elapsed_secs),
{
}

/// Samples keep their distance from each other when they are put around zero, and silence,
/// which is in the middle, becomes zero.
pub proof fn samples_keep_their_distance(a: u16, b: u16)
    ensures
        around_zero(a) - around_zero(b) == a - b,
        around_zero(32768) == 0,
{
}

/// One session records at a time: a second one waits until the first is over. Only the session
/// that records can stop, and it always can; a recording that did not start is told.
pub proof fn one_session_records_at_a_time(
    owner: Option<(Seq<char>, bool)>,
    by: (Seq<char>, bool),
    over: bool,
    ready: Ready,
)
    ensures
        recording_refused(owner, over) is None <==> owner is None || over,
        stop_error(owner, by) is None <==> owner == Some(by),
        start_error(ready) is None <==> ready is Started,
{
}

} // verus!
