//! What users are told, and what stands in where they say nothing.

use crate::audio::NoCard;
use crate::capture::{fourcc_bytes, Camera, DeviceError, DeviceInfo};
use crate::engine::{chosen_name, AlreadyRunning, State, StreamConfig, Streamer};
use crate::headless::{serving_name, StreamArgs};
use crate::ndi::advertised_name;
use crate::pixels::FrameError;
use crate::session::Session;
use crate::single::Single;
use crate::tray::{
    def_channels, def_fourcc, def_fps, def_height, def_rate, def_width, label, Command,
};
use crate::text;
use crate::web::{default_channels, default_rate, idle_config, Refusal};
use vstd::prelude::*;
use vstd::string::StringSliceAdditionalSpecFns;

verus! {

/// A stream that runs already is told so, by what it is doing.
pub proof fn running_streams_are_reported(e: &AlreadyRunning, r: String)
    requires
        call_ensures(AlreadyRunning::message, (e,), r),
    ensures
        e.state == State::Preview ==> r@ == "already "@ + "Preview"@,
        e.state == State::Live ==> r@ == "already "@ + "Live"@,
{
}

/// A device that is missing is reported with what was asked for.
pub proof fn missing_devices_are_reported(e: &DeviceError, r: String)
    requires
        call_ensures(DeviceError::message, (e,), r),
    ensures
        e is NoDevices ==> r@ == "no video capture devices found (check /dev/video*)"@,
        e matches DeviceError::NotCapture(s) ==> r@ == s@ + " is not a capture device"@,
        e matches DeviceError::NoIndex(n) ==> r@ == "no capture device with index "@
            + text::decimal(*n as nat),
        e matches DeviceError::NoMatch(s) ==> r@ == "no capture device matching "@ + text::quoted(
            s@,
        ),
{
}

/// A source that is missing is reported with what was asked for.
pub proof fn missing_sources_are_reported(e: &NoCard, r: String)
    requires
        call_ensures(NoCard::message, (e,), r),
    ensures
        r@ == "no ALSA capture card matching "@ + text::quoted(e.wanted@),
{
}

/// A frame that gives no picture is reported by what is wrong with it.
pub proof fn bad_frames_are_reported(e: &FrameError, r: String)
    requires
        call_ensures(FrameError::message, (e,), r),
    ensures
        e is Jpeg ==> r@ == "mjpeg decode failed"@,
        e is ShortYuyv ==> r@ == "short YUYV frame"@,
        e is ShortNv12 ==> r@ == "short NV12 frame"@,
        e matches FrameError::Unsupported(f) ==> r@ == "unsupported capture format "@ + f@,
{
}

/// A refused start is reported by its reason.
pub proof fn refusals_are_reported(e: &Refusal, r: String)
    requires
        call_ensures(Refusal::message, (e,), r),
    ensures
        e is Running ==> r@ == "stream already running"@,
        e is UnknownDevice ==> r@ == "unknown device"@,
        e matches Refusal::NoMicrophone(c) ==> r@ == c@
            + " has no microphone - pick 'No audio (video only)' or another card"@,
{
}

/// What stands in where nothing is said: 1920x1080 at 60 frames in MJPG, and two
/// channels at 48 kHz.
pub proof fn defaults_stand_in(
    fourcc: String,
    width: u32,
    height: u32,
    fps: Single,
    rate: u32,
    channels: u32,
    idle: StreamConfig,
)
    requires
        call_ensures(def_fourcc, (), fourcc),
        call_ensures(def_width, (), width),
        call_ensures(def_height, (), height),
        call_ensures(def_fps, (), fps),
        call_ensures(def_rate, (), rate) || call_ensures(default_rate, (), rate),
        call_ensures(def_channels, (), channels) || call_ensures(default_channels, (), channels),
        call_ensures(idle_config, (), idle),
    ensures
        fourcc@ == "MJPG"@ && width == 1920 && height == 1080 && fps.bits == 0x4270_0000,
        rate == 48_000 && channels == 2,
        idle.mode.fourcc@ == "MJPG"@ && idle.mode.width == 1920 && idle.mode.height == 1080
            && idle.mode.fps.bits == 0x4270_0000,
        idle.audio is None && idle.device_path@.len() == 0,
{
    assert(idle@.mode.fourcc == idle.mode@.fourcc);
    assert(idle@.device_path == idle.device_path@);
    assert(idle@.mode == idle.mode@);
}

/// The entries of the menu have their texts.
pub proof fn entries_have_texts(c: Command, shown: &str, r: String)
    requires
        call_ensures(label, (c, shown), r),
    ensures
        c == Command::Show ==> r@ == shown@,
        c == Command::GoLive ==> r@ == "Go live (last settings)"@,
        c == Command::Stop ==> r@ == "Stop"@,
        c == Command::OpenPanel ==> r@ == "Open control panel"@,
        c == Command::Quit ==> r@ == "Quit tray"@,
{
}

/// A pixel format of four bytes is asked for as it is, any other as MJPG.
pub proof fn formats_have_four_bytes(fourcc: &str, r: [u8; 4])
    requires
        call_ensures(fourcc_bytes, (fourcc,), r),
    ensures
        fourcc.spec_bytes().len() == 4 ==> r@ == fourcc.spec_bytes(),
        fourcc.spec_bytes().len() != 4 ==> r@ == seq![0x4du8, 0x4au8, 0x50u8, 0x47u8],
{
}

/// A camera is what it was opened as.
pub proof fn cameras_are_as_opened(fps: Single, width: u32, height: u32, fourcc: &str, r: Camera)
    requires
        call_ensures(Camera::open, (fps, width, height, fourcc), r),
    ensures
        r.width == width && r.height == height && r.fps == fps && r.fourcc@ == fourcc@,
{
}

/// The name on the command line, or that of the card, is announced with the
/// machine.
pub proof fn served_names_are_announced(
    args: &StreamArgs,
    dev: &DeviceInfo,
    host: Option<&str>,
    r: String,
    name: &str,
    shown: String,
)
    requires
        call_ensures(serving_name, (args, dev, host), r),
        name@ == match args.name {
            Some(n) => n@,
            None => dev.card@,
        },
        call_ensures(advertised_name, (host, name), shown),
    ensures
        r@ == shown@,
{
}

/// A live run shows the name that is announced for it, and its resolution.
pub proof fn live_runs_are_named(
    config: StreamConfig,
    cam: &Camera,
    host: Option<&str>,
    mic: bool,
    now: u64,
    r: Session,
    chosen: String,
    name: &str,
    shown: String,
)
    requires
        call_ensures(Session::new, (config, true, cam, host, mic, now), r),
        call_ensures(chosen_name, (&config,), chosen),
        name@ == chosen@,
        call_ensures(advertised_name, (host, name), shown),
    ensures
        r@.stats.source == shown@,
        r@.stats.resolution == text::decimal(cam.width as nat) + "x"@ + text::decimal(
            cam.height as nat,
        ),
        r@.stats.viewers == 0 && r@.stats.tally is None && r@.stats.fps.bits == 0,
{
}

/// A run that begins shows its statistics, and silent levels for each channel
/// that it captures; the rest stays.
pub proof fn runs_begin_silent(s: &Session, streamer: &mut Streamer, i: int)
    requires
        call_ensures(Session::begin, (s, streamer), ()),
    ensures
        final(streamer)@.stats == s@.stats,
        s@.config.audio matches Some(a) ==> final(streamer)@.levels.len() == a.channels && (0 <= i
            < a.channels ==> final(streamer)@.levels[i].bits == 0),
        s@.config.audio is None ==> final(streamer)@.levels == old(streamer)@.levels,
        final(streamer)@.state == old(streamer)@.state,
        final(streamer)@.frame == old(streamer)@.frame,
        final(streamer)@.last_audio == old(streamer)@.last_audio,
{
}

} // verus!
