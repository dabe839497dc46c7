//! The capture to NDI pipeline: its configuration, its statistics, and the
//! state that the command line and the web panel share.

use crate::audio::{resolve_card, AudioCard};
use crate::capture::{Camera, Mode, TEN};
use crate::single::Single;
use crate::text::{append, copy};
use crate::{audio, capture, single, text};
use std::sync::Arc;
use vstd::arithmetic::div_mod::lemma_fundamental_div_mod_converse;
use vstd::prelude::*;

verus! {

/// What the stream is doing.
#[derive(Clone, Copy, Debug, PartialEq, Eq, Structural)]
pub enum State {
    Stopped,
    Preview,
    Live,
}

/// The name of a state.
pub open spec fn state_name(s: State) -> Seq<char> {
    match s {
        State::Stopped => "Stopped"@,
        State::Preview => "Preview"@,
        State::Live => "Live"@,
    }
}

/// Where audio comes from, and how it is captured.
#[derive(Clone, Debug)]
pub struct AudioSpec {
    pub device: String,
    pub rate: u32,
    pub channels: u32,
}

/// Where audio comes from, as a value.
pub struct AudioView {
    pub device: Seq<char>,
    pub rate: u32,
    pub channels: u32,
}

impl View for AudioSpec {
    type V = AudioView;

    open spec fn view(&self) -> AudioView {
        AudioView { device: self.device@, rate: self.rate, channels: self.channels }
    }
}

impl AudioSpec {
    /// The same audio source.
    pub fn duplicate(&self) -> (r: AudioSpec)
        ensures
            r@ == self@,
    {
        AudioSpec { device: self.device.clone(), rate: self.rate, channels: self.channels }
    }
}

/// The view of an optional audio source.
pub open spec fn opt_audio(a: Option<AudioSpec>) -> Option<AudioView> {
    match a {
        Some(a) => Some(a@),
        None => None,
    }
}

/// What is streamed, and under which name.
#[derive(Clone, Debug)]
pub struct StreamConfig {
    pub device_path: String,
    pub card: String,
    pub mode: Mode,
    pub ndi_name: String,
    pub groups: String,
    pub audio: Option<AudioSpec>,
}

/// What is streamed, as a value.
pub struct ConfigView {
    pub device_path: Seq<char>,
    pub card: Seq<char>,
    pub mode: capture::ModeView,
    pub ndi_name: Seq<char>,
    pub groups: Seq<char>,
    pub audio: Option<AudioView>,
}

impl View for StreamConfig {
    type V = ConfigView;

    open spec fn view(&self) -> ConfigView {
        ConfigView {
            device_path: self.device_path@,
            card: self.card@,
            mode: self.mode@,
            ndi_name: self.ndi_name@,
            groups: self.groups@,
            audio: opt_audio(self.audio),
        }
    }
}

impl StreamConfig {
    /// The same configuration.
    pub fn duplicate(&self) -> (r: StreamConfig)
        ensures
            r@ == self@,
    {
        StreamConfig {
            device_path: self.device_path.clone(),
            card: self.card.clone(),
            mode: self.mode.duplicate(),
            ndi_name: self.ndi_name.clone(),
            groups: self.groups.clone(),
            audio: match &self.audio {
                Some(a) => Some(a.duplicate()),
                None => None,
            },
        }
    }
}

/// What a running stream reports about itself.
#[derive(Clone, Debug)]
pub struct Stats {
    pub fps: Single,
    pub viewers: u32,
    pub tally: Option<(bool, bool)>,
    pub resolution: String,
    pub fourcc: String,
    pub camera_fps: Single,
    pub audio: bool,
    pub source: String,
    pub uptime: Single,
}

/// What a stream reports, as a value.
pub struct StatsView {
    pub fps: Single,
    pub viewers: u32,
    pub tally: Option<(bool, bool)>,
    pub resolution: Seq<char>,
    pub fourcc: Seq<char>,
    pub camera_fps: Single,
    pub audio: bool,
    pub source: Seq<char>,
    pub uptime: Single,
}

impl View for Stats {
    type V = StatsView;

    open spec fn view(&self) -> StatsView {
        StatsView {
            fps: self.fps,
            viewers: self.viewers,
            tally: self.tally,
            resolution: self.resolution@,
            fourcc: self.fourcc@,
            camera_fps: self.camera_fps,
            audio: self.audio,
            source: self.source@,
            uptime: self.uptime,
        }
    }
}

/// The number zero.
pub open spec fn zero() -> Single {
    Single { bits: 0 }
}

/// The statistics of a stream that has not run.
pub open spec fn no_stats() -> StatsView {
    StatsView {
        fps: zero(),
        viewers: 0,
        tally: None,
        resolution: Seq::empty(),
        fourcc: Seq::empty(),
        camera_fps: zero(),
        audio: false,
        source: Seq::empty(),
        uptime: zero(),
    }
}

impl Stats {
    /// The same statistics.
    pub fn duplicate(&self) -> (r: Stats)
        ensures
            r@ == self@,
    {
        Stats {
            fps: self.fps,
            viewers: self.viewers,
            tally: self.tally,
            resolution: self.resolution.clone(),
            fourcc: self.fourcc.clone(),
            camera_fps: self.camera_fps,
            audio: self.audio,
            source: self.source.clone(),
            uptime: self.uptime,
        }
    }
}

impl Default for Stats {
    fn default() -> (r: Stats)
        ensures
            r@ == no_stats(),
    {
        let r = Stats {
            fps: Single { bits: 0 },
            viewers: 0,
            tally: None,
            resolution: String::new(),
            fourcc: String::new(),
            camera_fps: Single { bits: 0 },
            audio: false,
            source: String::new(),
            uptime: Single { bits: 0 },
        };
        assert(r.resolution@ =~= Seq::<char>::empty());
        r
    }
}

/// A frame in BGRA.
#[derive(Clone, Debug)]
pub struct Frame {
    pub width: u32,
    pub height: u32,
    pub bgra: Vec<u8>,
}

/// A frame in BGRA, as a value.
pub struct FrameView {
    pub width: u32,
    pub height: u32,
    pub bgra: Seq<u8>,
}

impl View for Frame {
    type V = FrameView;

    open spec fn view(&self) -> FrameView {
        FrameView { width: self.width, height: self.height, bgra: self.bgra@ }
    }
}

/// The view of an optional frame.
pub open spec fn opt_frame(f: Option<Arc<Frame>>) -> Option<FrameView> {
    match f {
        Some(f) => Some((*f)@),
        None => None,
    }
}

/// `Arc::clone`: another pointer to the same value.
#[verifier::external_body]
fn share(f: &Arc<Frame>) -> (r: Arc<Frame>)
    ensures
        r == *f,
{
    Arc::clone(f)
}

/// `Arc::try_unwrap`: the value itself where this is the only pointer to it,
/// else the same pointer. Whether other pointers exist is not stated.
#[verifier::external_body]
fn reclaim(f: Arc<Frame>) -> (r: Result<Frame, Arc<Frame>>)
    ensures
        (match r {
            Ok(g) => g == *f,
            Err(a) => a == f,
        }),
{
    Arc::try_unwrap(f)
}

/// Why a stream could not be started: it is running already.
#[derive(Clone, Copy, Debug)]
pub struct AlreadyRunning {
    pub state: State,
}

impl AlreadyRunning {
    /// What is reported to the user.
    pub open spec fn report(self) -> Seq<char> {
        "already "@ + state_name(self.state)
    }

    /// What is reported to the user.
    pub fn message(&self) -> (r: String)
        ensures
            r@ == self.report(),
    {
        let mut r = copy("already ");
        append(
            &mut r,
            match self.state {
                State::Stopped => "Stopped",
                State::Preview => "Preview",
                State::Live => "Live",
            },
        );
        r
    }
}

/// How long after a block of audio the source counts as delivering, in
/// nanoseconds.
pub const AUDIO_FRESH: u64 = 500_000_000;

/// The state that the stream shares with those who control it. Times are
/// nanoseconds on one monotonic clock.
#[derive(Debug)]
pub struct Streamer {
    state: State,
    error: Option<String>,
    stats: Stats,
    frame: Option<Arc<Frame>>,
    stop: bool,
    config: StreamConfig,
    levels: Vec<Single>,
    last_audio: Option<u64>,
}

/// The state that the stream shares, as a value.
pub struct StreamerView {
    pub state: State,
    pub error: Option<Seq<char>>,
    pub stats: StatsView,
    pub frame: Option<FrameView>,
    pub stop: bool,
    pub config: ConfigView,
    pub levels: Seq<Single>,
    pub last_audio: Option<u64>,
}

impl View for Streamer {
    type V = StreamerView;

    closed spec fn view(&self) -> StreamerView {
        StreamerView {
            state: self.state,
            error: text::opt_view(self.error),
            stats: self.stats@,
            frame: opt_frame(self.frame),
            stop: self.stop,
            config: self.config@,
            levels: self.levels@,
            last_audio: self.last_audio,
        }
    }
}

impl StreamerView {
    /// A stopped stream shows no frame.
    pub open spec fn well_formed(self) -> bool {
        self.state == State::Stopped ==> self.frame is None
    }
}

/// The stream before its first start.
pub open spec fn fresh(config: ConfigView) -> StreamerView {
    StreamerView {
        state: State::Stopped,
        error: None,
        stats: no_stats(),
        frame: None,
        stop: false,
        config,
        levels: Seq::empty(),
        last_audio: None,
    }
}

/// The stream just after a start.
pub open spec fn started(s: StreamerView, preview_only: bool) -> StreamerView {
    StreamerView {
        state: if preview_only {
            State::Preview
        } else {
            State::Live
        },
        error: None,
        stats: no_stats(),
        stop: false,
        ..s
    }
}

/// The stream after its run ended, with an error or without.
pub open spec fn finished(s: StreamerView, error: Option<Seq<char>>) -> StreamerView {
    StreamerView {
        state: State::Stopped,
        error: if error is Some {
            error
        } else {
            s.error
        },
        frame: None,
        ..s
    }
}

/// The stream once it has been asked to stop.
pub open spec fn asked_to_stop(s: StreamerView) -> StreamerView {
    StreamerView { stop: true, ..s }
}

/// Whether audio arrived within the last half second. Before the first block
/// none did.
pub open spec fn delivering(last_audio: Option<u64>, now: u64) -> bool {
    match last_audio {
        Some(t) => now - t < AUDIO_FRESH,
        None => false,
    }
}

impl Streamer {
    /// A stopped stream.
    pub fn new(config: StreamConfig) -> (r: Streamer)
        ensures
            r@ == fresh(config@),
            r@.well_formed(),
    {
        let r = Streamer {
            state: State::Stopped,
            error: None,
            stats: Stats::default(),
            frame: None,
            stop: false,
            config,
            levels: Vec::new(),
            last_audio: None,
        };
        assert(r.levels@ =~= Seq::<Single>::empty());
        r
    }

    /// What the stream is doing.
    pub fn state(&self) -> (r: State)
        ensures
            r == self@.state,
    {
        self.state
    }

    /// Why the last run failed, if it did.
    pub fn error(&self) -> (r: Option<String>)
        ensures
            text::opt_view(r) == self@.error,
    {
        match &self.error {
            Some(e) => Some(e.clone()),
            None => None,
        }
    }

    /// What the stream reports about itself.
    pub fn stats(&self) -> (r: Stats)
        ensures
            r@ == self@.stats,
    {
        self.stats.duplicate()
    }

    /// The frame that was published last.
    pub fn frame(&self) -> (r: Option<Arc<Frame>>)
        ensures
            opt_frame(r) == self@.frame,
    {
        match &self.frame {
            Some(f) => Some(share(f)),
            None => None,
        }
    }

    /// The audio levels of the channels, and whether blocks are actually
    /// arriving.
    pub fn audio_levels(&self, now: u64) -> (r: (Vec<Single>, bool))
        ensures
            r.0@ == self@.levels,
            r.1 == delivering(self@.last_audio, now),
    {
        let mut levels: Vec<Single> = Vec::new();
        let mut i: usize = 0;
        while i < self.levels.len()
            invariant
                i <= self.levels@.len(),
                levels@ =~= self.levels@.take(i as int),
            decreases self.levels.len() - i,
        {
            levels.push(self.levels[i]);
            i += 1;
        }
        assert(levels@ =~= self.levels@);
        let active = match self.last_audio {
            Some(t) => now < t || now - t < AUDIO_FRESH,
            None => false,
        };
        (levels, active)
    }

    /// What is streamed at the next start.
    pub fn set_config(&mut self, config: StreamConfig)
        ensures
            final(self)@ == (StreamerView { config: config@, ..old(self)@ }),
    {
        self.config = config;
    }

    /// What is streamed.
    pub fn config(&self) -> (r: StreamConfig)
        ensures
            r@ == self@.config,
    {
        self.config.duplicate()
    }

    /// Whether the running stream has been asked to stop.
    pub fn stopping(&self) -> (r: bool)
        ensures
            r == self@.stop,
    {
        self.stop
    }

    /// Starts a stopped stream; a running one is left as it is.
    pub fn start(&mut self, preview_only: bool) -> (r: Result<(), AlreadyRunning>)
        ensures
            if old(self)@.state == State::Stopped {
                r is Ok && final(self)@ == started(old(self)@, preview_only)
            } else {
                r == Err::<(), _>(AlreadyRunning { state: old(self)@.state }) && final(self)@
                    == old(self)@
            },
            old(self)@.well_formed() ==> final(self)@.well_formed(),
    {
        if self.state != State::Stopped {
            return Err(AlreadyRunning { state: self.state });
        }
        self.error = None;
        self.stats = Stats::default();
        self.stop = false;
        self.state = if preview_only {
            State::Preview
        } else {
            State::Live
        };
        Ok(())
    }

    /// Asks the running stream to stop.
    pub fn stop(&mut self)
        ensures
            final(self)@ == asked_to_stop(old(self)@),
    {
        self.stop = true;
    }

    /// Ends a run, with an error or without.
    pub fn finish(&mut self, error: Option<String>)
        ensures
            final(self)@ == finished(old(self)@, text::opt_view(error)),
            final(self)@.well_formed(),
    {
        if let Some(e) = error {
            self.error = Some(e);
        }
        self.state = State::Stopped;
        self.frame = None;
    }
}

/// By how much a level falls with each block: 0.9.
pub const DECAY: u32 = 0x3f66_6666;

/// The largest level: one.
pub const FULL: u32 = 0x3f80_0000;

/// The levels after the first `n` samples of an interleaved block: each channel
/// has the largest size that it saw.
pub open spec fn peaked(
    levels: Seq<Single>,
    block: Seq<Single>,
    channels: nat,
    n: nat,
) -> Seq<Single>
    decreases n,
{
    if n == 0 {
        levels
    } else {
        let held = peaked(levels, block, channels, (n - 1) as nat);
        let c = (n - 1) as int % channels as int;
        let a = block[n - 1].absolute();
        if c < held.len() && a.above(held[c]) {
            held.update(c, a)
        } else {
            held
        }
    }
}

/// A level after one block without sound.
pub open spec fn decayed(level: Single) -> Single {
    Single { bits: level.times_bits(Single { bits: DECAY }) as u32 }
}

/// The levels after a block: the peaks, decayed once.
pub open spec fn metered(levels: Seq<Single>, block: Seq<Single>, channels: nat) -> Seq<Single> {
    peaked(levels, block, channels, block.len()).map_values(|v: Single| decayed(v))
}

/// Whether a level is a number from zero to one.
pub open spec fn in_scale(v: Single) -> bool {
    v.bits <= FULL
}

/// Updates the levels of the channels with an interleaved block.
pub fn update_levels(levels: &mut Vec<Single>, block: &Vec<Single>, channels: usize)
    requires
        channels > 0,
    ensures
        final(levels)@ == metered(old(levels)@, block@, channels as nat),
{
    let ghost before = levels@;
    let mut n: usize = 0;
    while n < block.len()
        invariant
            n <= block@.len(),
            channels > 0,
            levels@ == peaked(before, block@, channels as nat, n as nat),
        decreases block.len() - n,
    {
        let c = n % channels;
        let a = block[n].abs();
        if c < levels.len() && a.exceeds(levels[c]) {
            levels.set(c, a);
        }
        n += 1;
    }
    let ghost peaks = levels@;
    let decay = Single::from_bits(DECAY);
    let mut i: usize = 0;
    proof {
        single::units_grow(0, decay.magnitude());
    }
    while i < levels.len()
        invariant
            i <= levels@.len(),
            levels@.len() == peaks.len(),
            decay.bits == DECAY,
            decay.is_finite(),
            !decay.negative(),
            decay.units() > 0,
            forall|k: int| 0 <= k < i ==> #[trigger] levels@[k] == decayed(peaks[k]),
            forall|k: int| i <= k < peaks.len() ==> #[trigger] levels@[k] == peaks[k],
        decreases levels.len() - i,
    {
        let v = levels[i].times(decay);
        levels.set(i, v);
        i += 1;
    }
    assert(levels@ =~= metered(before, block@, channels as nat));
}

proof fn peaks_in_scale(levels: Seq<Single>, block: Seq<Single>, channels: nat, n: nat)
    requires
        channels > 0,
        n <= block.len(),
        forall|i: int| 0 <= i < levels.len() ==> in_scale(#[trigger] levels[i]),
        forall|i: int| 0 <= i < block.len() ==> in_scale((#[trigger] block[i]).absolute()),
    ensures
        peaked(levels, block, channels, n).len() == levels.len(),
        forall|i: int|
            0 <= i < levels.len() ==> in_scale(#[trigger] peaked(levels, block, channels, n)[i]),
    decreases n,
{
    if n > 0 {
        peaks_in_scale(levels, block, channels, (n - 1) as nat);
    }
}

/// Levels stay between zero and one, where the samples do not exceed full
/// scale.
pub proof fn levels_stay_in_scale(levels: Seq<Single>, block: Seq<Single>, channels: nat)
    requires
        channels > 0,
        forall|i: int| 0 <= i < levels.len() ==> in_scale(#[trigger] levels[i]),
        forall|i: int| 0 <= i < block.len() ==> in_scale((#[trigger] block[i]).absolute()),
    ensures
        metered(levels, block, channels).len() == levels.len(),
        forall|i: int|
            0 <= i < levels.len() ==> in_scale(#[trigger] metered(levels, block, channels)[i]),
{
    peaks_in_scale(levels, block, channels, block.len());
    let peaks = peaked(levels, block, channels, block.len());
    assert forall|i: int| 0 <= i < levels.len() implies in_scale(
        #[trigger] metered(levels, block, channels)[i],
    ) by {
        assert(in_scale(peaks[i]));
        decay_lowers(peaks[i]);
    }
}

/// A level does not rise without sound.
pub proof fn decay_lowers(v: Single)
    requires
        in_scale(v),
    ensures
        decayed(v).bits <= v.bits,
{
    let decay = Single { bits: DECAY };
    let u = v.units();
    let f = decay.units();
    let o = single::one();
    single::units_grow(decay.magnitude(), FULL as nat);
    vstd::arithmetic::power2::lemma_pow2_pos(149);
    full_is_one();
    assert(u * f <= u * o) by (nonlinear_arith)
        requires
            f <= o,
            0 <= u,
    ;
    single::nearest_at_most(u * f, o, v.magnitude());
}

/// The pattern of one stands for one.
proof fn full_is_one()
    ensures
        single::units_of(FULL as nat) == single::one(),
{
    vstd::arithmetic::power2::lemma2_to64();
    vstd::arithmetic::power2::lemma_pow2_adds(23, 126);
}

/// A sample of 16 bits does not exceed full scale.
pub proof fn samples_in_scale(s: i16)
    ensures
        in_scale(Single { bits: single::sample_bits(s) as u32 }.absolute()),
{
    let k = single::size(s as int);
    let p = vstd::arithmetic::power2::pow2(134);
    vstd::arithmetic::power2::lemma_pow2_pos(134);
    vstd::arithmetic::power2::lemma2_to64();
    vstd::arithmetic::power2::lemma_pow2_adds(15, 134);
    full_is_one();
    assert(k * p <= 0x8000 * p) by (nonlinear_arith)
        requires
            0 <= k <= 0x8000,
            0 < p,
    ;
    single::nearest_at_most(k * p, 1, FULL as nat);
}

/// An interleaved block, channel by channel.
pub open spec fn planar(block: Seq<Single>, channels: int) -> Seq<Single> {
    let frames = block.len() as int / channels;
    Seq::new(block.len(), |i: int| block[i % frames * channels + i / frames])
}

/// An interleaved block, channel by channel.
pub fn deinterleave(block: &Vec<Single>, channels: usize) -> (r: Vec<Single>)
    requires
        channels > 0,
        block@.len() % channels as nat == 0,
    ensures
        r@ == planar(block@, channels as int),
{
    let frames = block.len() / channels;
    let mut r: Vec<Single> = Vec::new();
    let ghost want = planar(block@, channels as int);
    let mut c: usize = 0;
    proof {
        vstd::arithmetic::div_mod::lemma_fundamental_div_mod(
            block@.len() as int,
            channels as int,
        );
        assert(0 * frames == 0) by (nonlinear_arith);
    }
    while c < channels
        invariant
            c <= channels,
            channels > 0,
            block@.len() == channels * frames,
            frames == block@.len() as int / channels as int,
            want == planar(block@, channels as int),
            r@ == want.take(c * frames),
        decreases channels - c,
    {
        let mut f: usize = 0;
        while f < frames
            invariant
                f <= frames,
                c < channels,
                channels > 0,
                block.len() == channels * frames,
                frames == block@.len() as int / channels as int,
                want == planar(block@, channels as int),
                r@ == want.take(c * frames + f),
            decreases frames - f,
        {
            let ghost at = c * frames + f;
            proof {
                sample_place(c as int, f as int, channels as int, frames as int);
            }
            r.push(block[f * channels + c]);
            proof {
                assert(want[at] == block@[f * channels + c]);
                assert(r@ =~= want.take(at + 1));
            }
            f += 1;
        }
        c += 1;
        proof {
            assert((c - 1) * frames + frames == c * frames) by (nonlinear_arith);
        }
    }
    assert(want.take(want.len() as int) =~= want);
    r
}

/// Where the sample of a channel in a frame stands in both orders.
proof fn sample_place(c: int, f: int, channels: int, frames: int)
    requires
        0 <= c < channels,
        0 <= f < frames,
    ensures
        0 <= f * channels,
        0 <= f * channels + c < channels * frames,
        0 <= c * frames + f < channels * frames,
        (c * frames + f) / frames == c,
        (c * frames + f) % frames == f,
        (f * channels + c) / channels == f,
        (f * channels + c) % channels == c,
{
    assert(0 <= f * channels && f * channels + c < channels * frames && 0 <= c * frames && c
        * frames + f < channels * frames) by (nonlinear_arith)
        requires
            0 <= c < channels,
            0 <= f < frames,
    ;
    lemma_fundamental_div_mod_converse(c * frames + f, frames, c, f);
    lemma_fundamental_div_mod_converse(f * channels + c, channels, f, c);
}

/// The sample of a channel in a frame is found again in the plane of that
/// channel: no sample is lost, and none moves to another channel.
pub proof fn planes_hold_channels(block: Seq<Single>, channels: int, c: int, f: int)
    requires
        channels > 0,
        block.len() as int % channels == 0,
        0 <= c < channels,
        0 <= f < block.len() as int / channels,
    ensures
        planar(block, channels)[c * (block.len() as int / channels) + f] == block[f * channels + c],
{
    let frames = block.len() as int / channels;
    vstd::arithmetic::div_mod::lemma_fundamental_div_mod(block.len() as int, channels);
    sample_place(c, f, channels, frames);
}

/// The name of the source: the one that was chosen, or the name of the card.
pub open spec fn source_name(config: ConfigView) -> Seq<char> {
    if config.ndi_name.len() == 0 {
        config.card
    } else {
        config.ndi_name
    }
}

/// The name of the source.
pub fn chosen_name(config: &StreamConfig) -> (r: String)
    ensures
        r@ == source_name(config@),
{
    if config.ndi_name.as_str().is_empty() {
        config.card.clone()
    } else {
        config.ndi_name.clone()
    }
}

/// A frame size as it is shown.
pub open spec fn size_text(width: u32, height: u32) -> Seq<char> {
    text::decimal(width as nat) + "x"@ + text::decimal(height as nat)
}

/// A frame size as it is shown.
pub fn show_size(width: u32, height: u32) -> (r: String)
    ensures
        r@ == size_text(width, height),
{
    let mut r = text::write_decimal(width as u64);
    append(&mut r, "x");
    append(&mut r, text::write_decimal(height as u64).as_str());
    r
}

/// The statistics of a stream that was just opened.
pub fn opening_stats(cam: &Camera, audio: bool, source: &str) -> (r: Stats)
    ensures
        r@ == (StatsView {
            resolution: size_text(cam.width, cam.height),
            fourcc: cam.fourcc@,
            camera_fps: cam.fps,
            audio,
            source: source@,
            ..no_stats()
        }),
{
    let mut r = Stats::default();
    r.resolution = show_size(cam.width, cam.height);
    r.fourcc = cam.fourcc.clone();
    r.camera_fps = cam.fps;
    r.audio = audio;
    r.source = copy(source);
    r
}

impl Streamer {
    /// Shows the statistics of a stream that was opened, and resets the levels
    /// where audio is configured.
    pub fn opened(&mut self, stats: &Stats, audio: &Option<AudioSpec>)
        ensures
            final(self)@ == (StreamerView {
                stats: stats@,
                levels: match *audio {
                    Some(a) => Seq::new(a.channels as nat, |i: int| zero()),
                    None => old(self)@.levels,
                },
                ..old(self)@
            }),
    {
        if let Some(a) = audio {
            let mut levels: Vec<Single> = Vec::new();
            let mut i: u32 = 0;
            while i < a.channels
                invariant
                    i <= a.channels,
                    levels@ =~= Seq::new(i as nat, |k: int| zero()),
                decreases a.channels - i,
            {
                levels.push(Single { bits: 0 });
                i += 1;
            }
            self.levels = levels;
        }
        self.stats = stats.duplicate();
    }

    /// Shows new statistics.
    pub fn report(&mut self, stats: &Stats)
        ensures
            final(self)@ == (StreamerView { stats: stats@, ..old(self)@ }),
    {
        self.stats = stats.duplicate();
    }

    /// Takes an interleaved block of audio into the levels.
    pub fn meter(&mut self, block: &Vec<Single>, channels: usize, now: u64)
        requires
            channels > 0,
        ensures
            final(self)@ == (StreamerView {
                levels: metered(old(self)@.levels, block@, channels as nat),
                last_audio: Some(now),
                ..old(self)@
            }),
    {
        update_levels(&mut self.levels, block, channels);
        self.last_audio = Some(now);
    }

    /// Publishes the image in `buf`, gives back the frame that was published
    /// before it, and leaves in `buf` the memory of the frame before that,
    /// where nobody else holds it.
    pub fn publish(
        &mut self,
        width: u32,
        height: u32,
        buf: &mut Vec<u8>,
        reuse: Option<Arc<Frame>>,
    ) -> (r: Option<Arc<Frame>>)
        requires
            old(self)@.state != State::Stopped,
        ensures
            final(self)@ == (StreamerView {
                frame: Some(FrameView { width, height, bgra: old(buf)@ }),
                ..old(self)@
            }),
            opt_frame(r) == old(self)@.frame,
            final(buf)@.len() == 0 || (reuse is Some && final(buf)@ == (*reuse->0).bgra@),
            final(self)@.well_formed(),
    {
        let mut image = match reuse {
            Some(f) => match reclaim(f) {
                Ok(g) => g.bgra,
                Err(_) => Vec::new(),
            },
            None => Vec::new(),
        };
        std::mem::swap(&mut image, buf);
        let frame = Arc::new(Frame { width, height, bgra: image });
        let before = self.frame.take();
        self.frame = Some(frame);
        before
    }
}

/// Every second the statistics are renewed, in nanoseconds.
pub const REPORT_EVERY: u64 = 1_000_000_000;

/// Counts the frames between two reports. Times are nanoseconds on one
/// monotonic clock.
#[derive(Clone, Copy, Debug, PartialEq, Eq, Structural)]
pub struct Ticker {
    pub frames: u64,
    pub last: u64,
    pub started: u64,
}

/// A frame rate: frames over seconds, rounded to tenths.
pub open spec fn measured(frames: u64, seconds: Single) -> Single {
    let n = Single { bits: single::nearest(frames as nat * single::one(), 1) as u32 };
    let ten = Single { bits: TEN };
    let q = Single { bits: n.over_bits(seconds) as u32 };
    let tenths = Single { bits: q.times_bits(ten) as u32 };
    let whole = Single { bits: tenths.round_bits() as u32 };
    Single { bits: whole.over_bits(ten) as u32 }
}

/// A frame rate: frames over seconds, rounded to tenths.
pub fn measure(frames: u64, seconds: Single) -> (r: Single)
    ensures
        r == measured(frames, seconds),
{
    let ten = Single::from_bits(TEN);
    proof {
        single::units_grow(0, ten.magnitude());
    }
    Single::from_integer(frames).over(seconds).times(ten).round().over(ten)
}

impl Ticker {
    /// Counts from now on.
    pub fn new(now: u64) -> (r: Ticker)
        ensures
            r == (Ticker { frames: 0, last: now, started: now }),
    {
        Ticker { frames: 0, last: now, started: now }
    }

    /// Counts a frame.
    pub fn frame(&mut self)
        ensures
            *final(self) == (Ticker {
                frames: ((old(self).frames + 1) % 0x1_0000_0000_0000_0000) as u64,
                ..*old(self)
            }),
    {
        self.frames = if self.frames == u64::MAX {
            0
        } else {
            self.frames + 1
        };
    }

    /// Whether the next report is due.
    pub open spec fn is_due(self, now: u64) -> bool {
        now - self.last >= REPORT_EVERY
    }

    /// Whether the next report is due.
    pub fn due(&self, now: u64) -> (r: bool)
        ensures
            r == self.is_due(now),
    {
        now >= self.last && now - self.last >= REPORT_EVERY
    }

    /// Renews the statistics where that is due: `window` and `uptime` are the
    /// seconds since the last report and since the start. Without an audience,
    /// in a preview, nobody views and there is no tally.
    pub fn tick(
        &mut self,
        stats: &mut Stats,
        now: u64,
        window: Single,
        uptime: Single,
        audience: Option<(u32, Option<(bool, bool)>)>,
    ) -> (due: bool)
        ensures
            due == old(self).is_due(now),
            if due {
                &&& *final(self) == (Ticker { frames: 0, last: now, ..*old(self) })
                &&& final(stats)@ == (StatsView {
                    fps: measured(old(self).frames, window),
                    viewers: match audience {
                        Some(a) => a.0,
                        None => 0,
                    },
                    tally: match audience {
                        Some(a) => a.1,
                        None => None,
                    },
                    uptime,
                    ..old(stats)@
                })
            } else {
                *final(self) == *old(self) && final(stats)@ == old(stats)@
            },
    {
        if !self.due(now) {
            return false;
        }
        stats.fps = measure(self.frames, window);
        match audience {
            Some((viewers, tally)) => {
                stats.viewers = viewers;
                stats.tally = tally;
            },
            None => {
                stats.viewers = 0;
                stats.tally = None;
            },
        }
        stats.uptime = uptime;
        self.frames = 0;
        self.last = now;
        true
    }
}

/// The number one thousand.
pub const THOUSAND: u32 = 0x447a_0000;

/// What is left of `a` after a division by `b` that is rounded towards zero.
pub open spec fn rest(a: int, b: int) -> int {
    if a >= 0 {
        a % (single::size(b) as int)
    } else {
        -((-a) % (single::size(b) as int))
    }
}

/// `a` divided by `b`, rounded towards zero.
pub open spec fn ratio(a: int, b: int) -> int {
    let q = single::size(a) as int / single::size(b) as int;
    if (a < 0) == (b < 0) {
        q
    } else {
        -q
    }
}

/// The greatest common divisor, by division with rest.
pub open spec fn divisor(a: int, b: int) -> int
    decreases single::size(b),
{
    if b == 0 {
        a
    } else {
        divisor(b, rest(a, b))
    }
}

/// The lower 32 bits of an integer, as a signed number.
pub open spec fn low_bits(x: int) -> int {
    let m = x % 0x1_0000_0000;
    if m >= 0x8000_0000 {
        m - 0x1_0000_0000
    } else {
        m
    }
}

/// The greatest common divisor of two integers.
pub fn gcd(a: i64, b: i64) -> (g: i64)
    ensures
        g == divisor(a as int, b as int),
    decreases single::size(b as int),
{
    if b == 0 {
        return a;
    }
    let y: i128 = if b < 0 {
        -(b as i128)
    } else {
        b as i128
    };
    let r: i128 = if a >= 0 {
        a as i128 % y
    } else {
        -((-(a as i128)) % y)
    };
    gcd(b, r as i64)
}

/// A frame rate in thousandths.
pub open spec fn thousandths(fps: Single) -> int {
    Single { bits: fps.times_bits(Single { bits: THOUSAND }) as u32 }.rounded_i64()
}

/// A frame rate in thousandths as a fraction in lowest terms.
pub open spec fn fraction(thousandths: int) -> (int, int) {
    let g = divisor(thousandths, 1000);
    (low_bits(ratio(thousandths, g)), ratio(1000, g))
}

/// The broadcast rate: 59.94.
pub const BROADCAST: u32 = 0x426f_c28f;

/// A frame rate as a fraction. The broadcast rate has a fraction of its own;
/// every other rate is in lowest terms.
pub open spec fn rational(fps: Single) -> (int, int) {
    if fps.bits == BROADCAST {
        (30_000, 500)
    } else {
        fraction(thousandths(fps))
    }
}

/// The greatest common divisor with a thousand lies between one thousand and
/// its negative, and is not zero.
proof fn divisor_bounds(a: int, b: int)
    requires
        a != 0 || b != 0,
    ensures
        divisor(a, b) != 0,
        b != 0 ==> single::size(divisor(a, b)) <= single::size(b),
    decreases single::size(b),
{
    if b != 0 {
        let r = rest(a, b);
        divisor_bounds(b, r);
    }
}

/// A number of thousandths as a fraction in lowest terms.
#[verifier::spinoff_prover]
#[verifier::rlimit(40)]
fn reduced(scaled: i64) -> (r: (i32, i32))
    ensures
        (r.0 as int, r.1 as int) == fraction(scaled as int),
{
    let g = gcd(scaled, 1000);
    proof {
        divisor_bounds(scaled as int, 1000);
    }
    let x: i128 = if scaled < 0 {
        -(scaled as i128)
    } else {
        scaled as i128
    };
    let y: i128 = if g < 0 {
        -(g as i128)
    } else {
        g as i128
    };
    let q = x / y;
    let d = 1000 / y;
    proof {
        assert(0 <= q <= x) by (nonlinear_arith)
            requires
                q == x as int / y as int,
                x >= 0,
                y >= 1,
        ;
        assert(0 <= d <= 1000) by (nonlinear_arith)
            requires
                d == 1000int / (y as int),
                y >= 1,
        ;
    }
    let n: i128 = if (scaled < 0) == (g < 0) {
        q
    } else {
        -q
    };
    let low: i128 = if n >= 0 {
        n % 0x1_0000_0000
    } else {
        (0x1_0000_0000_0000_0000 + n) % 0x1_0000_0000
    };
    let top: i128 = if low >= 0x8000_0000 {
        low - 0x1_0000_0000
    } else {
        low
    };
    let bottom: i128 = if g < 0 {
        -d
    } else {
        d
    };
    (top as i32, bottom as i32)
}

/// NDI wants a rational frame rate: 59.94 -> (30000, 500), 60 -> (60, 1).
pub fn rational_fps(fps: Single) -> (r: (i32, i32))
    ensures
        (r.0 as int, r.1 as int) == rational(fps),
{
    if fps.bits == BROADCAST {
        return (30_000, 500);
    }
    let thousand = Single::from_bits(THOUSAND);
    proof {
        single::units_grow(0, thousand.magnitude());
    }
    reduced(fps.times(thousand).round_to_i64())
}

/// Whether `d` divides `a`.
pub open spec fn divides(d: int, a: int) -> bool {
    a % d == 0
}

proof fn divisor_divides(a: int, b: int)
    requires
        a >= 0,
        b >= 0,
        a > 0 || b > 0,
    ensures
        divisor(a, b) > 0,
        divides(divisor(a, b), a),
        divides(divisor(a, b), b),
    decreases b,
{
    if b == 0 {
        assert(a % a == 0) by (nonlinear_arith)
            requires
                a > 0,
        ;
        vstd::arithmetic::div_mod::lemma_small_mod(0, a as nat);
    } else {
        let r = a % b;
        divisor_divides(b, r);
        let g = divisor(b, r);
        let q = a / b;
        vstd::arithmetic::div_mod::lemma_fundamental_div_mod(a, b);
        vstd::arithmetic::div_mod::lemma_fundamental_div_mod(b, g);
        vstd::arithmetic::div_mod::lemma_fundamental_div_mod(r, g);
        let (u, v) = (b / g, r / g);
        let k = u * q + v;
        assert(a == k * g) by (nonlinear_arith)
            requires
                a == b * q + r,
                b == g * u,
                r == g * v,
                k == u * q + v,
        ;
        vstd::arithmetic::div_mod::lemma_mod_multiples_basic(k, g);
    }
}

/// Every common divisor divides the greatest one.
proof fn divisor_is_greatest(a: int, b: int, k: int)
    requires
        a >= 0,
        b >= 0,
        k > 0,
        divides(k, a),
        divides(k, b),
    ensures
        divides(k, divisor(a, b)),
    decreases b,
{
    if b != 0 {
        let r = a % b;
        let q = a / b;
        vstd::arithmetic::div_mod::lemma_fundamental_div_mod(a, b);
        vstd::arithmetic::div_mod::lemma_fundamental_div_mod(a, k);
        vstd::arithmetic::div_mod::lemma_fundamental_div_mod(b, k);
        let (u, v) = (a / k, b / k);
        let w = u - v * q;
        assert(r == w * k) by (nonlinear_arith)
            requires
                a == b * q + r,
                a == k * u,
                b == k * v,
                w == u - v * q,
        ;
        vstd::arithmetic::div_mod::lemma_mod_multiples_basic(w, k);
        divisor_is_greatest(b, r, k);
    }
}

/// The fraction of a number of thousandths has its value and is in lowest
/// terms, where the number is not negative and fits in 32 bits.
pub proof fn fraction_is_lowest(t: int)
    requires
        0 <= t <= i32::MAX,
    ensures
        ({
            let (n, d) = fraction(t);
            &&& n >= 0
            &&& d > 0
            &&& n * 1000 == t * d
            &&& forall|k: int| k > 1 && #[trigger] divides(k, n) ==> !divides(k, d)
        }),
{
    let g = divisor(t, 1000);
    divisor_divides(t, 1000);
    let (n, d) = (t / g, 1000int / g);
    vstd::arithmetic::div_mod::lemma_fundamental_div_mod(t, g);
    vstd::arithmetic::div_mod::lemma_fundamental_div_mod(1000, g);
    assert(0 <= n <= t && 0 < d) by (nonlinear_arith)
        requires
            t == g * n,
            1000 == g * d,
            g > 0,
            t >= 0,
    ;
    assert(n * 1000 == t * d) by (nonlinear_arith)
        requires
            t == g * n,
            1000 == g * d,
    ;
    assert(fraction(t) == (n, d));
    assert forall|k: int| k > 1 && #[trigger] divides(k, n) implies !divides(k, d) by {
        if divides(k, d) {
            vstd::arithmetic::div_mod::lemma_fundamental_div_mod(n, k);
            vstd::arithmetic::div_mod::lemma_fundamental_div_mod(d, k);
            let (u, v) = (n / k, d / k);
            let big = g * k;
            assert(t == u * big && 1000 == v * big && big > g) by (nonlinear_arith)
                requires
                    t == g * n,
                    1000 == g * d,
                    n == k * u,
                    d == k * v,
                    big == g * k,
                    g > 0,
                    k > 1,
            ;
            vstd::arithmetic::div_mod::lemma_mod_multiples_basic(u, big);
            vstd::arithmetic::div_mod::lemma_mod_multiples_basic(v, big);
            divisor_is_greatest(t, 1000, big);
            vstd::arithmetic::div_mod::lemma_small_mod(g as nat, big as nat);
        }
    }
}

/// Every frame rate from zero on whose thousandths fit in 32 bits, but for the
/// broadcast rate, is a fraction of the same thousandths in lowest terms.
pub proof fn rates_are_lowest(fps: Single)
    requires
        fps.bits != BROADCAST,
        0 <= thousandths(fps) <= i32::MAX,
    ensures
        ({
            let (n, d) = rational(fps);
            &&& n >= 0
            &&& d > 0
            &&& n * 1000 == thousandths(fps) * d
            &&& forall|k: int| k > 1 && #[trigger] divides(k, n) ==> !divides(k, d)
        }),
{
    fraction_is_lowest(thousandths(fps));
}

/// The microphone of a card, as it is captured by default.
pub open spec fn own_mic(cards: Seq<audio::CardView>, card: Seq<char>) -> Option<AudioView> {
    match audio::resolved_card(cards, card) {
        Some(device) => Some(AudioView { device, rate: 48_000, channels: 2 }),
        None => None,
    }
}

/// The camera's own microphone, if the card has one.
pub fn auto_mic(cards: &Vec<AudioCard>, card: &str) -> (r: Option<AudioSpec>)
    ensures
        opt_audio(r) == own_mic(audio::card_views(cards@), card@),
{
    match resolve_card(cards, card) {
        Ok(device) => Some(AudioSpec { device, rate: 48_000, channels: 2 }),
        Err(_) => None,
    }
}

/// A run that ends leaves the stream stopped, without a frame; one that fails
/// nowhere leaves no error, not even that of an earlier run.
pub proof fn run_ends_stopped(s: StreamerView, preview_only: bool, error: Option<Seq<char>>)
    ensures
        finished(s, error).state == State::Stopped,
        finished(s, error).frame is None,
        finished(started(s, preview_only), None).error is None,
        error is Some ==> finished(s, error).error == error,
{
}

/// What can happen to a stream.
pub enum Step {
    Start { preview_only: bool },
    Stop,
    Configure { config: ConfigView },
    Report { stats: StatsView },
    Meter { levels: Seq<Single>, last_audio: Option<u64> },
    Publish { frame: FrameView },
    Finish { error: Option<Seq<char>> },
}

/// The stream after a step: a running one is not started, and a stopped one
/// publishes nothing.
pub open spec fn stepped(s: StreamerView, step: Step) -> StreamerView {
    match step {
        Step::Start { preview_only } => if s.state == State::Stopped {
            started(s, preview_only)
        } else {
            s
        },
        Step::Stop => asked_to_stop(s),
        Step::Configure { config } => StreamerView { config, ..s },
        Step::Report { stats } => StreamerView { stats, ..s },
        Step::Meter { levels, last_audio } => StreamerView { levels, last_audio, ..s },
        Step::Publish { frame } => if s.state == State::Stopped {
            s
        } else {
            StreamerView { frame: Some(frame), ..s }
        },
        Step::Finish { error } => finished(s, error),
    }
}

/// The stream after a sequence of steps from its making on.
pub open spec fn reached(config: ConfigView, steps: Seq<Step>) -> StreamerView
    decreases steps.len(),
{
    if steps.len() == 0 {
        fresh(config)
    } else {
        stepped(reached(config, steps.drop_last()), steps.last())
    }
}

/// Whatever has happened to a stream, it shows no frame while it is stopped.
pub proof fn streams_stay_well_formed(config: ConfigView, steps: Seq<Step>)
    ensures
        reached(config, steps).well_formed(),
    decreases steps.len(),
{
    if steps.len() > 0 {
        streams_stay_well_formed(config, steps.drop_last());
    }
}

/// The stream after a request to stop, once the run that was under way has
/// ended, with an error or without.
pub open spec fn settled(s: StreamerView, error: Option<Seq<char>>) -> StreamerView {
    if s.state == State::Stopped {
        asked_to_stop(s)
    } else {
        finished(asked_to_stop(s), error)
    }
}

/// Whatever has happened to a stream, a request to stop ends in a stopped
/// stream that shows no frame. A second request then changes nothing, and the
/// stream can be started again, in either way and without the old error.
pub proof fn stop_settles(
    config: ConfigView,
    steps: Seq<Step>,
    error: Option<Seq<char>>,
    preview_only: bool,
)
    ensures
        ({
            let end = settled(reached(config, steps), error);
            let again = started(end, preview_only);
            &&& end.state == State::Stopped
            &&& end.frame is None
            &&& asked_to_stop(end) == end
            &&& settled(end, error) == end
            &&& stepped(end, Step::Start { preview_only }) == again
            &&& again.state == if preview_only {
                State::Preview
            } else {
                State::Live
            }
            &&& again.error is None
            &&& !again.stop
        }),
{
    streams_stay_well_formed(config, steps);
}

} // verus!
