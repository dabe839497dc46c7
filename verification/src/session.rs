//! One run of the stream: what is opened, sent, published and counted, from
//! the first frame to the last.

use crate::capture::Camera;
use crate::engine::{
    chosen_name, deinterleave, opening_stats, rational_fps, Frame, State, Stats, StreamConfig,
    Streamer, Ticker,
};
use crate::ndi::{advertised_name, audio_header, timestamp_100ns, video_header, AudioHeader, VideoHeader};
use crate::pipeline::{Action, Event, Phase, Pipeline};
use crate::single::Single;
use crate::{engine, ndi, pipeline, pump, text};
use std::sync::Arc;
use vstd::prelude::*;

verus! {

/// One run of the stream. Times are nanoseconds on one monotonic clock.
#[derive(Debug)]
pub struct Session {
    config: StreamConfig,
    pipeline: Pipeline,
    stats: Stats,
    rate: (i32, i32),
    ticker: Ticker,
    reuse: Option<Arc<Frame>>,
}

/// One run of the stream, as a value.
pub struct SessionView {
    pub config: engine::ConfigView,
    pub pipeline: Pipeline,
    pub stats: engine::StatsView,
    pub rate: (i32, i32),
    pub ticker: Ticker,
}

impl View for Session {
    type V = SessionView;

    closed spec fn view(&self) -> SessionView {
        SessionView {
            config: self.config@,
            pipeline: self.pipeline,
            stats: self.stats@,
            rate: self.rate,
            ticker: self.ticker,
        }
    }
}

/// The name that a run shows for its source: a preview has none.
pub open spec fn run_source(
    config: engine::ConfigView,
    live: bool,
    host: Option<Seq<char>>,
) -> Seq<char> {
    if live {
        ndi::shown_name(ndi::host_name(host), engine::source_name(config))
    } else {
        Seq::empty()
    }
}

/// The statistics with which a run begins.
pub open spec fn first_stats(cam: Camera, mic: bool, source: Seq<char>) -> engine::StatsView {
    engine::StatsView {
        resolution: engine::size_text(cam.width, cam.height),
        fourcc: cam.fourcc@,
        camera_fps: cam.fps,
        audio: mic,
        source,
        ..engine::no_stats()
    }
}

/// The channels of the audio that a run captures.
pub open spec fn run_channels(config: engine::ConfigView) -> u32 {
    match config.audio {
        Some(a) => a.channels,
        None => 2,
    }
}

/// The sample rate of the audio that a run captures.
pub open spec fn run_rate(config: engine::ConfigView) -> u32 {
    match config.audio {
        Some(a) => a.rate,
        None => 48_000,
    }
}

/// A block of audio as it is sent: channel by channel, and what describes it.
#[derive(Clone, Debug)]
pub struct AudioOut {
    pub planar: Vec<Single>,
    pub header: AudioHeader,
}

impl Session {
    /// A run that begins with a camera that was opened; `host` is what the file
    /// with the name of the machine holds.
    pub fn new(
        config: StreamConfig,
        live: bool,
        cam: &Camera,
        host: Option<&str>,
        mic: bool,
        now: u64,
    ) -> (r: Session)
        ensures
            r@.config == config@,
            r@.pipeline == (Pipeline {
                live,
                mic,
                pause: pipeline::FIRST_PAUSE,
                phase: Phase::Polling,
            }),
            r@.stats == first_stats(
                *cam,
                mic,
                run_source(config@, live, text::opt_str_view(host)),
            ),
            (r@.rate.0 as int, r@.rate.1 as int) == engine::rational(cam.fps),
            r@.ticker == (Ticker { frames: 0, last: now, started: now }),
    {
        let source = if live {
            advertised_name(host, chosen_name(&config).as_str())
        } else {
            String::new()
        };
        assert(source@ =~= run_source(config@, live, text::opt_str_view(host)));
        let stats = opening_stats(cam, mic, source.as_str());
        Session {
            config,
            pipeline: Pipeline::new(live, mic),
            stats,
            rate: rational_fps(cam.fps),
            ticker: Ticker::new(now),
            reuse: None,
        }
    }

    /// The name that the run shows for its source.
    pub fn source(&self) -> (r: String)
        ensures
            r@ == self@.stats.source,
    {
        self.stats.source.clone()
    }

    /// Shows in the shared state that the run has begun.
    pub fn begin(&self, streamer: &mut Streamer)
        ensures
            final(streamer)@ == (engine::StreamerView {
                stats: self@.stats,
                levels: match self@.config.audio {
                    Some(a) => Seq::new(a.channels as nat, |i: int| engine::zero()),
                    None => old(streamer)@.levels,
                },
                ..old(streamer)@
            }),
    {
        streamer.opened(&self.stats, &self.config.audio);
    }

    /// The action that the run asks for.
    pub fn action(&self) -> (r: Action)
        ensures
            r == pipeline::asked(self@.pipeline),
    {
        self.pipeline.action()
    }

    /// Takes the event that answers the last action, and asks for the next one.
    /// A microphone that is given up no longer counts in the statistics.
    pub fn step(&mut self, e: Event) -> (r: Action)
        requires
            pipeline::answers(old(self)@.pipeline, e),
        ensures
            ({
                let next = pipeline::advanced(old(self)@.pipeline, e);
                &&& r == pipeline::asked(next)
                &&& final(self)@ == SessionView {
                    pipeline: next,
                    stats: if next.phase == Phase::DroppingMic {
                        engine::StatsView { audio: false, ..old(self)@.stats }
                    } else {
                        old(self)@.stats
                    },
                    ..old(self)@
                }
            }),
    {
        let r = self.pipeline.step(e);
        if self.pipeline.phase == Phase::DroppingMic {
            self.stats.audio = false;
        }
        r
    }

    /// Whether a block of audio can be used: it has the same number of samples
    /// for each channel.
    pub fn fits(&self, samples: usize) -> (r: bool)
        ensures
            r == (run_channels(self@.config) > 0 && samples as int % run_channels(
                self@.config,
            ) as int == 0),
    {
        let channels = self.channels();
        channels > 0 && samples as u64 % channels as u64 == 0
    }

    fn channels(&self) -> (r: u32)
        ensures
            r == run_channels(self@.config),
    {
        match &self.config.audio {
            Some(a) => a.channels,
            None => 2,
        }
    }

    /// Shows the levels of a block of audio, and gives what is to be sent where
    /// `send` says so; `nanos` is the time on the clock of the sender.
    pub fn use_block(
        &self,
        streamer: &mut Streamer,
        block: &Vec<Single>,
        send: bool,
        now: u64,
        nanos: u128,
    ) -> (r: Option<AudioOut>)
        requires
            run_channels(self@.config) > 0,
            block@.len() as int % run_channels(self@.config) as int == 0,
        ensures
            final(streamer)@ == (engine::StreamerView {
                levels: engine::metered(
                    old(streamer)@.levels,
                    block@,
                    run_channels(self@.config) as nat,
                ),
                last_audio: Some(now),
                ..old(streamer)@
            }),
            r is Some == send,
            r matches Some(out) ==> {
                let channels = run_channels(self@.config) as int;
                let frames = block@.len() as int / channels;
                &&& out.planar@ == engine::planar(block@, channels)
                &&& out.header.sample_rate == ndi::as_signed(run_rate(self@.config))
                &&& out.header.no_channels == ndi::size_bits(channels)
                &&& out.header.no_samples == ndi::size_bits(frames)
                &&& out.header.timecode == ndi::SEND_TIMECODE_SYNTHESIZE
                &&& out.header.channel_stride_in_bytes == ndi::size_bits(frames * 4)
                &&& out.header.timestamp == ndi::hundreds(nanos as int)
            },
    {
        let channels = self.channels() as usize;
        streamer.meter(block, channels, now);
        if !send {
            return None;
        }
        let rate = match &self.config.audio {
            Some(a) => a.rate,
            None => 48_000,
        };
        Some(
            AudioOut {
                planar: deinterleave(block, channels),
                header: audio_header(block.len(), channels, rate, timestamp_100ns(nanos)),
            },
        )
    }

    /// What describes the frame that a camera gave, where `send` says that it is
    /// to be sent; `nanos` is the time on the clock of the sender.
    pub fn video_out(&self, cam: &Camera, send: bool, nanos: u128) -> (r: Option<VideoHeader>)
        ensures
            r is Some == send,
            r matches Some(v) ==> {
                &&& v.xres == ndi::as_signed(cam.width)
                &&& v.yres == ndi::as_signed(cam.height)
                &&& v.fourcc == ndi::FOURCC_BGRX
                &&& v.frame_rate_n == self@.rate.0
                &&& v.frame_rate_d == self@.rate.1
                &&& v.picture_aspect_ratio == ndi::aspect(cam.width, cam.height)
                &&& v.frame_format_type == ndi::FRAME_FORMAT_PROGRESSIVE
                &&& v.timecode == 0
                &&& v.line_stride_in_bytes == ndi::as_signed(
                    ((cam.width * 4) % 0x1_0000_0000) as u32,
                )
                &&& v.timestamp == ndi::hundreds(nanos as int)
            },
    {
        if send {
            Some(
                video_header(
                    cam.width,
                    cam.height,
                    self.rate.0,
                    self.rate.1,
                    timestamp_100ns(nanos),
                ),
            )
        } else {
            None
        }
    }

    /// Publishes and counts the frame in `buf`.
    pub fn use_frame(&mut self, streamer: &mut Streamer, cam: &Camera, buf: &mut Vec<u8>)
        requires
            old(streamer)@.state != State::Stopped,
        ensures
            final(streamer)@ == (engine::StreamerView {
                frame: Some(
                    engine::FrameView { width: cam.width, height: cam.height, bgra: old(buf)@ },
                ),
                ..old(streamer)@
            }),
            final(streamer)@.well_formed(),
            final(self)@ == (SessionView {
                ticker: Ticker {
                    frames: ((old(self)@.ticker.frames + 1) % 0x1_0000_0000_0000_0000) as u64,
                    ..old(self)@.ticker
                },
                ..old(self)@
            }),
    {
        self.ticker.frame();
        let reuse = self.reuse.take();
        self.reuse = streamer.publish(cam.width, cam.height, buf, reuse);
    }

    /// Whether the next report is due.
    pub fn due(&self, now: u64) -> (r: bool)
        ensures
            r == self@.ticker.is_due(now),
    {
        self.ticker.due(now)
    }

    /// The times since the last report and since the begin of the run.
    pub fn elapsed(&self, now: u64) -> (r: (u64, u64))
        ensures
            r.0 == if now >= self@.ticker.last {
                now - self@.ticker.last
            } else {
                0
            },
            r.1 == if now >= self@.ticker.started {
                now - self@.ticker.started
            } else {
                0
            },
    {
        (
            if now >= self.ticker.last {
                now - self.ticker.last
            } else {
                0
            },
            if now >= self.ticker.started {
                now - self.ticker.started
            } else {
                0
            },
        )
    }

    /// Renews the statistics where that is due, and shows them: `window` and
    /// `uptime` are the seconds since the last report and since the begin of the
    /// run, `audience` is who watches a live stream.
    pub fn report(
        &mut self,
        streamer: &mut Streamer,
        now: u64,
        window: Single,
        uptime: Single,
        audience: Option<(u32, Option<(bool, bool)>)>,
    ) -> (due: bool)
        ensures
            due == old(self)@.ticker.is_due(now),
            if due {
                let stats = engine::StatsView {
                    fps: engine::measured(old(self)@.ticker.frames, window),
                    viewers: match audience {
                        Some(a) => a.0,
                        None => 0,
                    },
                    tally: match audience {
                        Some(a) => a.1,
                        None => None,
                    },
                    uptime,
                    ..old(self)@.stats
                };
                &&& final(self)@ == SessionView {
                    stats,
                    ticker: Ticker { frames: 0, last: now, ..old(self)@.ticker },
                    ..old(self)@
                }
                &&& final(streamer)@ == engine::StreamerView { stats, ..old(streamer)@ }
            } else {
                final(self)@ == old(self)@ && final(streamer)@ == old(streamer)@
            },
    {
        let due = self.ticker.tick(&mut self.stats, now, window, uptime, audience);
        if due {
            streamer.report(&self.stats);
        }
        due
    }
}

/// A preview has no source, and a live run has one wherever its camera or its
/// user gave a name.
pub proof fn preview_has_no_source(config: engine::ConfigView, host: Option<Seq<char>>)
    ensures
        run_source(config, false, host).len() == 0,
        config.card.len() > 0 || config.ndi_name.len() > 0 ==> run_source(
            config,
            true,
            host,
        ).len() > 0,
{
}

/// The blocks that a capture delivers can be used: they have the same number of
/// samples for each of its channels.
pub proof fn captured_blocks_fit(all: Seq<Single>, channels: u32, n: int, i: int)
    requires
        channels > 0,
        0 <= i < n,
        n * (pump::BLOCK_FRAMES * channels) <= all.len(),
    ensures
        pump::blocks(all, pump::BLOCK_FRAMES * channels, n)[i].len() as int % channels as int == 0,
{
    let want = pump::BLOCK_FRAMES * channels;
    assert(0 <= i * want && (i + 1) * want <= n * want && (i + 1) * want - i * want == want)
        by (nonlinear_arith)
        requires
            0 <= i < n,
            want >= 0,
    ;
    vstd::arithmetic::div_mod::lemma_mod_multiples_basic(
        pump::BLOCK_FRAMES as int,
        channels as int,
    );
}

} // verus!
