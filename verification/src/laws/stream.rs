//! The state of a stream, and one run of it: what changes with a call, and what
//! stays.

use crate::capture::Camera;
use crate::engine::{
    chosen_name, deinterleave, rational_fps, update_levels, AlreadyRunning, Frame, State,
    StreamConfig, Streamer,
};
use crate::ndi::{audio_header, timestamp_100ns, video_header, AudioHeader, VideoHeader};
use crate::pipeline::{Action, Event, Phase};
use crate::session::{AudioOut, Session};
use crate::single::Single;
use crate::{engine, pipeline};
use std::sync::Arc;
use vstd::prelude::*;

verus! {

/// A new stream is stopped, without an error, a frame or audio.
pub proof fn new_streams_are_stopped(config: StreamConfig, r: Streamer)
    requires
        call_ensures(Streamer::new, (config,), r),
    ensures
        r@.state == State::Stopped,
        r@.error is None && r@.frame is None && !r@.stop,
        r@.config == config@,
        r@.levels.len() == 0 && r@.last_audio is None,
        r@.stats.viewers == 0 && !r@.stats.audio && r@.stats.tally is None,
{
}

/// A start is taken exactly by a stopped stream. It is a preview or live, as it
/// was asked for; the old error is gone, the statistics begin anew, and the rest
/// stays.
pub proof fn starts_begin_anew(
    s: &mut Streamer,
    preview_only: bool,
    r: Result<(), AlreadyRunning>,
)
    requires
        call_ensures(Streamer::start, (s, preview_only), r),
    ensures
        r is Ok <==> old(s)@.state == State::Stopped,
        r matches Err(e) ==> e.state == old(s)@.state && final(s)@ == old(s)@,
        r is Ok ==> {
            let (a, b) = (old(s)@, final(s)@);
            &&& preview_only ==> b.state == State::Preview
            &&& !preview_only ==> b.state == State::Live
            &&& b.error is None && !b.stop
            &&& b.stats.fps.bits == 0 && b.stats.uptime.bits == 0 && b.stats.viewers == 0
            &&& b.stats.tally is None && !b.stats.audio && b.stats.source.len() == 0
            &&& b.frame == a.frame && b.config == a.config && b.levels == a.levels && b.last_audio
                == a.last_audio
        },
{
}

/// A request to stop changes nothing but that it was made.
pub proof fn stops_are_requests(s: &mut Streamer)
    requires
        call_ensures(Streamer::stop, (s,), ()),
    ensures
        final(s)@.stop,
        final(s)@.state == old(s)@.state && final(s)@.error == old(s)@.error,
        final(s)@.stats == old(s)@.stats && final(s)@.frame == old(s)@.frame,
        final(s)@.config == old(s)@.config && final(s)@.levels == old(s)@.levels,
        final(s)@.last_audio == old(s)@.last_audio,
{
}

/// A run that ended leaves a stopped stream without a frame, with the error of
/// the run where it had one; the rest stays.
pub proof fn ended_runs_show_no_frame(s: &mut Streamer, error: Option<String>)
    requires
        call_ensures(Streamer::finish, (s, error), ()),
    ensures
        final(s)@.state == State::Stopped,
        final(s)@.frame is None,
        error matches Some(e) ==> final(s)@.error == Some(e@),
        error is None ==> final(s)@.error == old(s)@.error,
        final(s)@.stop == old(s)@.stop && final(s)@.stats == old(s)@.stats,
        final(s)@.config == old(s)@.config && final(s)@.levels == old(s)@.levels,
        final(s)@.last_audio == old(s)@.last_audio,
{
}

/// Audio counts as arriving for half a second after each block, and not before
/// the first.
pub proof fn audio_is_fresh_for_half_a_second(s: &Streamer, now: u64, r: (Vec<Single>, bool))
    requires
        call_ensures(Streamer::audio_levels, (s, now), r),
    ensures
        r.0@ == s@.levels,
        r.1 <==> (s@.last_audio matches Some(t) && now < t + 500_000_000),
{
}

/// A block that is metered arrives now; all but the levels stays.
pub proof fn blocks_are_metered(s: &mut Streamer, block: &Vec<Single>, channels: usize, now: u64)
    requires
        call_ensures(Streamer::meter, (s, block, channels, now), ()),
        channels > 0,
    ensures
        final(s)@.last_audio == Some(now),
        final(s)@.levels.len() == old(s)@.levels.len(),
        final(s)@.state == old(s)@.state && final(s)@.frame == old(s)@.frame,
        final(s)@.stats == old(s)@.stats && final(s)@.config == old(s)@.config,
        final(s)@.stop == old(s)@.stop && final(s)@.error == old(s)@.error,
{
    peaks_are_found(old(s)@.levels, block@, channels as nat, block@.len());
}

/// Whether a number is the level of a channel, or the size of a sample of it
/// among the first `n`.
pub open spec fn heard(
    levels: Seq<Single>,
    block: Seq<Single>,
    channels: int,
    n: int,
    c: int,
    v: Single,
) -> bool {
    v == levels[c] || exists|i: int|
        0 <= i < n && i % channels == c && v == (#[trigger] block[i]).absolute()
}

proof fn peaks_are_found(levels: Seq<Single>, block: Seq<Single>, channels: nat, n: nat)
    requires
        channels > 0,
        n <= block.len(),
    ensures
        engine::peaked(levels, block, channels, n).len() == levels.len(),
        forall|c: int|
            0 <= c < levels.len() ==> heard(
                levels,
                block,
                channels as int,
                n as int,
                c,
                #[trigger] engine::peaked(levels, block, channels, n)[c],
            ),
        forall|c: int|
            0 <= c < levels.len() ==> !levels[c].above(
                #[trigger] engine::peaked(levels, block, channels, n)[c],
            ),
        forall|c: int, i: int|
            0 <= c < levels.len() && 0 <= i < n && i % (channels as int) == c
                ==> !(#[trigger] block[i]).absolute().above(
                #[trigger] engine::peaked(levels, block, channels, n)[c],
            ),
    decreases n,
{
    if n > 0 {
        peaks_are_found(levels, block, channels, (n - 1) as nat);
        let before = engine::peaked(levels, block, channels, (n - 1) as nat);
        let all = engine::peaked(levels, block, channels, n);
        let k = n - 1;
        let at = k % (channels as int);
        assert forall|c: int| 0 <= c < levels.len() implies heard(
            levels,
            block,
            channels as int,
            n as int,
            c,
            #[trigger] all[c],
        ) by {
            assert(heard(levels, block, channels as int, n - 1, c, before[c]));
            if all[c] != before[c] {
                assert(c == at && all[c] == block[k].absolute());
            }
        }
        assert forall|c: int| 0 <= c < levels.len() implies !levels[c].above(
            #[trigger] all[c],
        ) by {
            assert(!levels[c].above(before[c]));
        }
        assert forall|c: int, i: int|
            0 <= c < levels.len() && 0 <= i < n && i % (channels as int) == c implies !(
        #[trigger] block[i]).absolute().above(#[trigger] all[c]) by {
            if i < k {
                assert(!block[i].absolute().above(before[c]));
            }
        }
    }
}

/// The level of a channel is nine tenths of the largest that was heard: its old
/// level and the sizes of its samples. Nothing that was heard is above that.
pub proof fn levels_are_peaks(
    levels: &mut Vec<Single>,
    block: &Vec<Single>,
    channels: usize,
    c: int,
) -> (peak: Single)
    requires
        call_ensures(update_levels, (levels, block, channels), ()),
        channels > 0,
        0 <= c < old(levels)@.len(),
    ensures
        final(levels)@.len() == old(levels)@.len(),
        final(levels)@[c] == (Single {
            bits: peak.times_bits(Single { bits: 0x3f66_6666 }) as u32,
        }),
        heard(old(levels)@, block@, channels as int, block@.len() as int, c, peak),
        !old(levels)@[c].above(peak),
        forall|i: int|
            0 <= i < block@.len() && i % (channels as int) == c ==> !(
            #[trigger] block@[i]).absolute().above(peak),
{
    let before = old(levels)@;
    let peaks = engine::peaked(before, block@, channels as nat, block@.len());
    peaks_are_found(before, block@, channels as nat, block@.len());
    let peak = peaks[c];
    assert(final(levels)@[c] == engine::decayed(peaks[c]));
    peak
}

/// A frame that is published is the one that is shown; all else stays.
pub proof fn published_frames_are_shown(
    s: &mut Streamer,
    width: u32,
    height: u32,
    buf: &mut Vec<u8>,
    reuse: Option<Arc<Frame>>,
    r: Option<Arc<Frame>>,
)
    requires
        call_ensures(Streamer::publish, (s, width, height, buf, reuse), r),
    ensures
        final(s)@.frame matches Some(f) && f.width == width && f.height == height && f.bgra == old(
            buf,
        )@,
        engine::opt_frame(r) == old(s)@.frame,
        final(s)@.state == old(s)@.state && final(s)@.stats == old(s)@.stats,
        final(s)@.config == old(s)@.config && final(s)@.stop == old(s)@.stop,
        final(s)@.levels == old(s)@.levels && final(s)@.last_audio == old(s)@.last_audio,
{
}

/// Channels stand one behind the other in what is sent.
pub proof fn planes_stand_behind_each_other(
    block: &Vec<Single>,
    channels: usize,
    r: Vec<Single>,
    c: int,
    f: int,
)
    requires
        call_ensures(deinterleave, (block, channels), r),
        channels > 0,
        block@.len() as int % channels as int == 0,
        0 <= c < channels,
        0 <= f < block@.len() as int / channels as int,
    ensures
        r@.len() == block@.len(),
        r@[c * (block@.len() as int / channels as int) + f] == block@[f * channels + c],
{
    engine::planes_hold_channels(block@, channels as int, c, f);
}

/// The source has the name that was chosen, or that of the card.
pub proof fn sources_are_named(config: &StreamConfig, r: String)
    requires
        call_ensures(chosen_name, (config,), r),
    ensures
        config.ndi_name@.len() > 0 ==> r@ == config.ndi_name@,
        config.ndi_name@.len() == 0 ==> r@ == config.card@,
{
}

/// A frame rate is sent as a fraction with its value in thousandths, in lowest
/// terms; 59.94 alone is 30000/500.
pub proof fn rates_are_fractions(fps: Single, r: (i32, i32), k: int)
    requires
        call_ensures(rational_fps, (fps,), r),
        0 <= engine::thousandths(fps) <= i32::MAX,
        k > 1,
    ensures
        fps.bits == 0x426f_c28f ==> r == (30_000i32, 500i32),
        fps.bits != 0x426f_c28f ==> {
            &&& r.0 >= 0 && r.1 > 0
            &&& r.0 * 1000 == engine::thousandths(fps) * r.1
            &&& !(r.0 as int % k == 0 && r.1 as int % k == 0)
        },
{
    if fps.bits != 0x426f_c28f {
        engine::rates_are_lowest(fps);
        if r.0 as int % k == 0 {
            assert(engine::divides(k, r.0 as int));
            assert(!engine::divides(k, r.1 as int));
        }
    }
}

/// A time is sent in units of 100 nanoseconds.
pub proof fn times_are_hundreds(nanos: u128, r: i64)
    requires
        call_ensures(timestamp_100ns, (nanos,), r),
        nanos < 0x8000_0000_0000_0000,
    ensures
        100 * r <= nanos < 100 * (r + 1),
{
}

/// A frame is described by its own size and rate, in lines without padding.
pub proof fn video_is_described(
    width: u32,
    height: u32,
    n: i32,
    d: i32,
    timestamp: i64,
    r: VideoHeader,
)
    requires
        call_ensures(video_header, (width, height, n, d, timestamp), r),
        width < 0x2000_0000,
        height < 0x8000_0000,
    ensures
        r.xres == width && r.yres == height,
        r.line_stride_in_bytes == 4 * width,
        r.frame_rate_n == n && r.frame_rate_d == d,
        r.fourcc == 0x5852_4742 && r.frame_format_type == 1,
        r.timecode == 0 && r.timestamp == timestamp,
{
}

/// A block of audio is described by its rate, its channels and its samples for
/// each of them, four bytes each.
pub proof fn audio_is_described(
    samples: usize,
    channels: usize,
    rate: u32,
    timestamp: i64,
    r: AudioHeader,
)
    requires
        call_ensures(audio_header, (samples, channels, rate, timestamp), r),
        0 < channels < 0x8000_0000,
        samples as int / (channels as int) < 0x2000_0000,
        rate < 0x8000_0000,
    ensures
        r.sample_rate == rate && r.no_channels == channels,
        r.no_samples == samples as int / (channels as int),
        r.channel_stride_in_bytes == 4 * r.no_samples,
        r.timecode == i64::MAX && r.timestamp == timestamp,
{
    assert(0 <= samples as int / (channels as int)) by (nonlinear_arith)
        requires
            samples >= 0,
            channels > 0,
    ;
}

/// A run begins with what it was given: a name only where it is live, the rate
/// of its camera, and nothing counted yet.
pub proof fn runs_begin_as_given(
    config: StreamConfig,
    live: bool,
    cam: &Camera,
    host: Option<&str>,
    mic: bool,
    now: u64,
    r: Session,
    rate: (i32, i32),
)
    requires
        call_ensures(Session::new, (config, live, cam, host, mic, now), r),
        call_ensures(rational_fps, (cam.fps,), rate),
    ensures
        r@.config == config@,
        r@.pipeline.live == live && r@.pipeline.mic == mic && r@.pipeline.phase == Phase::Polling,
        r@.rate == rate,
        r@.stats.audio == mic && r@.stats.camera_fps == cam.fps && r@.stats.fourcc == cam.fourcc@,
        !live ==> r@.stats.source.len() == 0,
        r@.ticker.frames == 0 && r@.ticker.last == now && r@.ticker.started == now,
{
}

/// A block that is used arrives now, and is sent exactly where that is asked
/// for, with the rate and the channels of the run.
pub proof fn blocks_are_sent(
    s: &Session,
    streamer: &mut Streamer,
    block: &Vec<Single>,
    send: bool,
    now: u64,
    nanos: u128,
    r: Option<AudioOut>,
    a: engine::AudioView,
    c: int,
    f: int,
)
    requires
        call_ensures(Session::use_block, (s, streamer, block, send, now, nanos), r),
        s@.config.audio == Some(a),
        0 < a.channels < 0x8000_0000,
        a.rate < 0x8000_0000,
        block@.len() as int % a.channels as int == 0,
        block@.len() as int / (a.channels as int) < 0x2000_0000,
        nanos < 0x8000_0000_0000_0000,
        0 <= c < a.channels,
        0 <= f < block@.len() as int / a.channels as int,
    ensures
        r is Some <==> send,
        final(streamer)@.last_audio == Some(now),
        final(streamer)@.frame == old(streamer)@.frame,
        final(streamer)@.state == old(streamer)@.state,
        r matches Some(out) ==> {
            let frames = block@.len() as int / a.channels as int;
            &&& out.header.sample_rate == a.rate
            &&& out.header.no_channels == a.channels
            &&& out.header.no_samples == frames
            &&& out.header.channel_stride_in_bytes == 4 * frames
            &&& 100 * out.header.timestamp <= nanos < 100 * (out.header.timestamp + 1)
            &&& out.planar@.len() == block@.len()
            &&& out.planar@[c * frames + f] == block@[f * a.channels + c]
        },
{
    engine::planes_hold_channels(block@, a.channels as int, c, f);
}

/// A frame is sent exactly where that is asked for, with the size of the camera
/// and the rate of the run.
pub proof fn frames_are_sent(
    s: &Session,
    cam: &Camera,
    send: bool,
    nanos: u128,
    r: Option<VideoHeader>,
)
    requires
        call_ensures(Session::video_out, (s, cam, send, nanos), r),
        cam.width < 0x2000_0000,
        cam.height < 0x8000_0000,
        nanos < 0x8000_0000_0000_0000,
    ensures
        r is Some <==> send,
        r matches Some(v) ==> {
            &&& v.xres == cam.width && v.yres == cam.height && v.line_stride_in_bytes == 4
                * cam.width
            &&& v.frame_rate_n == s@.rate.0 && v.frame_rate_d == s@.rate.1
            &&& 100 * v.timestamp <= nanos < 100 * (v.timestamp + 1)
        },
{
}

/// A frame that is used is shown, in the size of its camera, and counted.
pub proof fn used_frames_are_counted(
    s: &mut Session,
    streamer: &mut Streamer,
    cam: &Camera,
    buf: &mut Vec<u8>,
)
    requires
        call_ensures(Session::use_frame, (s, streamer, cam, buf), ()),
        old(s)@.ticker.frames < u64::MAX,
    ensures
        final(s)@.ticker.frames == old(s)@.ticker.frames + 1,
        final(s)@.pipeline == old(s)@.pipeline && final(s)@.stats == old(s)@.stats,
        final(streamer)@.frame matches Some(f) && f.width == cam.width && f.height == cam.height
            && f.bgra == old(buf)@,
        final(streamer)@.state == old(streamer)@.state,
        final(streamer)@.levels == old(streamer)@.levels,
{
}

/// Once a second the statistics are shown, and the count begins anew. A preview
/// has no viewers; what was opened stays as it was.
pub proof fn reports_come_every_second(
    s: &mut Session,
    streamer: &mut Streamer,
    now: u64,
    window: Single,
    uptime: Single,
    audience: Option<(u32, Option<(bool, bool)>)>,
    due: bool,
)
    requires
        call_ensures(Session::report, (s, streamer, now, window, uptime, audience), due),
    ensures
        due <==> now >= old(s)@.ticker.last + 1_000_000_000,
        !due ==> final(s)@ == old(s)@ && final(streamer)@ == old(streamer)@,
        due ==> {
            let (a, b) = (old(s)@.stats, final(s)@.stats);
            &&& final(streamer)@.stats == b
            &&& final(streamer)@.frame == old(streamer)@.frame
            &&& final(streamer)@.state == old(streamer)@.state
            &&& final(s)@.ticker.frames == 0 && final(s)@.ticker.last == now
            &&& final(s)@.ticker.started == old(s)@.ticker.started
            &&& b.uptime == uptime
            &&& audience matches Some(x) ==> b.viewers == x.0 && b.tally == x.1
            &&& audience is None ==> b.viewers == 0 && b.tally is None
            &&& b.source == a.source && b.resolution == a.resolution && b.fourcc == a.fourcc
            &&& b.audio == a.audio && b.camera_fps == a.camera_fps
        },
{
}

/// The statistics show audio until the microphone is given up.
pub proof fn statistics_show_the_microphone(s: &mut Session, e: Event, r: Action)
    requires
        call_ensures(Session::step, (s, e), r),
    ensures
        r == Action::DropMic ==> !final(s)@.stats.audio,
        r != Action::DropMic ==> final(s)@.stats == old(s)@.stats,
        r == pipeline::asked(final(s)@.pipeline),
        final(s)@.rate == old(s)@.rate && final(s)@.config == old(s)@.config,
{
}

/// What is asked of a stream is what it holds; its configuration is the one that
/// was set last, and setting it changes nothing else.
pub proof fn streams_tell_what_they_hold(
    s: &mut Streamer,
    config: StreamConfig,
    back: StreamConfig,
    state: State,
    stopping: bool,
    error: Option<String>,
    frame: Option<Arc<Frame>>,
)
    requires
        call_ensures(Streamer::set_config, (s, config), ()),
        call_ensures(Streamer::config, (&*final(s),), back),
        call_ensures(Streamer::state, (&*final(s),), state),
        call_ensures(Streamer::stopping, (&*final(s),), stopping),
        call_ensures(Streamer::error, (&*final(s),), error),
        call_ensures(Streamer::frame, (&*final(s),), frame),
    ensures
        back@ == config@,
        state == old(s)@.state,
        stopping == old(s)@.stop,
        error is Some <==> old(s)@.error is Some,
        error matches Some(e) ==> old(s)@.error == Some(e@),
        engine::opt_frame(frame) == old(s)@.frame,
        final(s)@.levels == old(s)@.levels && final(s)@.last_audio == old(s)@.last_audio,
        final(s)@.stats == old(s)@.stats,
{
}

/// The times of a run are those since its last report and since its begin.
pub proof fn times_pass(s: &Session, now: u64, r: (u64, u64))
    requires
        call_ensures(Session::elapsed, (s, now), r),
        now >= s@.ticker.last,
        now >= s@.ticker.started,
    ensures
        s@.ticker.last + r.0 == now,
        s@.ticker.started + r.1 == now,
{
}

/// A block can be used exactly where each channel of the run has as many samples
/// as the others.
pub proof fn whole_blocks_fit(s: &Session, samples: usize, r: bool, a: engine::AudioView)
    requires
        call_ensures(Session::fits, (s, samples), r),
        s@.config.audio == Some(a),
    ensures
        r <==> a.channels > 0 && samples as int % a.channels as int == 0,
{
}

} // verus!
