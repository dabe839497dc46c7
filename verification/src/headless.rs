//! Streaming from the command line: what the arguments ask for, the status
//! line, and where the files of a background process are.

use crate::audio::{resolve_card, AudioCard, NoCard};
use crate::capture::{pick_mode, DeviceInfo};
use crate::engine::{AudioSpec, Stats, StreamConfig};
use crate::ndi::advertised_name;
use crate::single::Single;
use crate::text::{append, copy};
use crate::web::join;
use crate::{audio, capture, engine, ndi, text, web};
use vstd::prelude::*;

verus! {

/// What is asked for on the command line.
#[derive(Clone, Debug)]
pub struct StreamArgs {
    pub name: Option<String>,
    pub groups: String,
    pub width: u32,
    pub height: u32,
    pub fps: Single,
    pub fourcc: String,
    pub audio: bool,
    pub audio_card: Option<String>,
    pub audio_rate: u32,
    pub audio_channels: u32,
    pub video_only: bool,
}

/// What is asked for on the command line, as a value.
pub struct ArgsView {
    pub name: Option<Seq<char>>,
    pub groups: Seq<char>,
    pub width: u32,
    pub height: u32,
    pub fps: Single,
    pub fourcc: Seq<char>,
    pub audio: bool,
    pub audio_card: Option<Seq<char>>,
    pub audio_rate: u32,
    pub audio_channels: u32,
    pub video_only: bool,
}

impl View for StreamArgs {
    type V = ArgsView;

    open spec fn view(&self) -> ArgsView {
        ArgsView {
            name: text::opt_view(self.name),
            groups: self.groups@,
            width: self.width,
            height: self.height,
            fps: self.fps,
            fourcc: self.fourcc@,
            audio: self.audio,
            audio_card: text::opt_view(self.audio_card),
            audio_rate: self.audio_rate,
            audio_channels: self.audio_channels,
            video_only: self.video_only,
        }
    }
}

/// Whether audio is asked for: by its flag or by a card, unless it is switched
/// off.
pub open spec fn audio_wanted(args: ArgsView) -> bool {
    (args.audio || args.audio_card is Some) && !args.video_only
}

/// Whether audio is asked for.
pub fn wants_audio(args: &StreamArgs) -> (r: bool)
    ensures
        r == audio_wanted(args@),
{
    (args.audio || args.audio_card.is_some()) && !args.video_only
}

/// The name by which an audio source is looked for: that of the card that was
/// given, or that of the camera.
pub open spec fn audio_needle(dev: capture::DeviceView, args: ArgsView) -> Seq<char> {
    match args.audio_card {
        Some(c) => c,
        None => dev.card,
    }
}

/// What is streamed from a device for the arguments; an error names the audio
/// source that is missing.
pub open spec fn configured(
    dev: capture::DeviceView,
    args: ArgsView,
    cards: Seq<audio::CardView>,
) -> Result<engine::ConfigView, Seq<char>> {
    let needle = audio_needle(dev, args);
    let config = engine::ConfigView {
        device_path: dev.path,
        card: dev.card,
        mode: capture::picked(dev.modes, args.fourcc, args.width, args.height, args.fps),
        ndi_name: match args.name {
            Some(n) => n,
            None => Seq::empty(),
        },
        groups: args.groups,
        audio: None,
    };
    if audio_wanted(args) {
        match audio::resolved_card(cards, needle) {
            Some(device) => Ok(
                engine::ConfigView {
                    audio: Some(
                        engine::AudioView {
                            device,
                            rate: args.audio_rate,
                            channels: args.audio_channels,
                        },
                    ),
                    ..config
                },
            ),
            None => Err(needle),
        }
    } else {
        Ok(config)
    }
}

/// What is streamed from a device for the arguments.
pub fn configure(dev: &DeviceInfo, args: &StreamArgs, cards: &Vec<AudioCard>) -> (r: Result<
    StreamConfig,
    NoCard,
>)
    ensures
        (match configured(dev@, args@, audio::card_views(cards@)) {
            Ok(config) => r is Ok && r->Ok_0@ == config,
            Err(needle) => r is Err && r->Err_0.wanted@ == needle,
        }),
{
    let mode = pick_mode(dev, args.fourcc.as_str(), args.width, args.height, args.fps);
    let audio = if wants_audio(args) {
        let needle = match &args.audio_card {
            Some(c) => c.clone(),
            None => dev.card.clone(),
        };
        match resolve_card(cards, needle.as_str()) {
            Ok(device) => Some(
                AudioSpec { device, rate: args.audio_rate, channels: args.audio_channels },
            ),
            Err(e) => {
                return Err(e);
            },
        }
    } else {
        None
    };
    let ndi_name = match &args.name {
        Some(n) => n.clone(),
        None => String::new(),
    };
    proof {
        if args.name is None {
            assert(ndi_name@ =~= Seq::<char>::empty());
        }
    }
    Ok(
        StreamConfig {
            device_path: dev.path.clone(),
            card: dev.card.clone(),
            mode,
            ndi_name,
            groups: args.groups.clone(),
            audio,
        },
    )
}

/// Video only is video only: whatever else is asked for, and whatever sources
/// there are. So it is where no audio is asked for.
pub proof fn video_only_has_no_audio(
    dev: capture::DeviceView,
    args: ArgsView,
    cards: Seq<audio::CardView>,
)
    requires
        args.video_only || !(args.audio || args.audio_card is Some),
    ensures
        configured(dev, args, cards) is Ok,
        configured(dev, args, cards)->Ok_0.audio is None,
{
}

/// A card that is named asks for audio by itself.
pub proof fn card_implies_audio(
    dev: capture::DeviceView,
    args: ArgsView,
    cards: Seq<audio::CardView>,
)
    requires
        args.audio_card is Some,
    ensures
        configured(dev, args, cards) == configured(dev, ArgsView { audio: true, ..args }, cards),
{
}

/// The name under which the source is announced when it is started.
pub fn serving_name(args: &StreamArgs, dev: &DeviceInfo, host: Option<&str>) -> (r: String)
    ensures
        r@ == ndi::shown_name(
            ndi::host_name(text::opt_str_view(host)),
            match args@.name {
                Some(n) => n,
                None => dev@.card,
            },
        ),
{
    match &args.name {
        Some(n) => advertised_name(host, n.as_str()),
        None => advertised_name(host, dev.card.as_str()),
    }
}

/// How a tally is shown.
pub open spec fn tally_text(tally: Option<(bool, bool)>) -> Seq<char> {
    match tally {
        Some((true, true)) => "PGM/PRV"@,
        Some((true, false)) => "PGM"@,
        Some((false, true)) => "PRV"@,
        _ => "--"@,
    }
}

/// How a tally is shown: on program, on preview, on both or on neither.
pub fn show_tally(tally: Option<(bool, bool)>) -> (r: String)
    ensures
        r@ == tally_text(tally),
{
    match tally {
        Some((true, true)) => copy("PGM/PRV"),
        Some((true, false)) => copy("PGM"),
        Some((false, true)) => copy("PRV"),
        _ => copy("--"),
    }
}

/// The status line, without what moves the cursor.
pub open spec fn status_text(s: engine::StatsView, fps: Seq<char>) -> Seq<char> {
    "\u{25cf} "@ + s.resolution + " "@ + s.fourcc + " | "@ + fps + " fps | viewers "@
        + text::decimal(s.viewers as nat) + " | tally "@ + tally_text(s.tally) + " | "@ + s.source
}

/// The status line while a stream runs; `fps` is the frame rate as it is shown.
pub fn status_line(s: &Stats, fps: &str) -> (r: String)
    ensures
        r@ == status_text(s@, fps@),
{
    let mut r = copy("\u{25cf} ");
    append(&mut r, s.resolution.as_str());
    append(&mut r, " ");
    append(&mut r, s.fourcc.as_str());
    append(&mut r, " | ");
    append(&mut r, fps);
    append(&mut r, " fps | viewers ");
    append(&mut r, text::write_decimal(s.viewers as u64).as_str());
    append(&mut r, " | tally ");
    append(&mut r, show_tally(s.tally).as_str());
    append(&mut r, " | ");
    append(&mut r, s.source.as_str());
    r
}

/// The time between two status lines, in nanoseconds.
pub const STATUS_EVERY: u64 = 2_000_000_000;

/// Whether a status line is due, so long after the last one.
pub fn status_due(quiet: bool, since: u64) -> (r: bool)
    ensures
        r == (!quiet && since >= STATUS_EVERY),
{
    !quiet && since >= STATUS_EVERY
}

/// The directory for the files of a running process: the one that the session
/// names, or the one of the user with this number.
pub open spec fn runtime_place(session: Option<Seq<char>>, uid: u32) -> Seq<char> {
    match session {
        Some(d) => d,
        None => "/run/user/"@ + text::decimal(uid as nat),
    }
}

/// The directory for the files of a running process.
pub fn runtime_dir(session: Option<&str>, uid: u32) -> (r: String)
    ensures
        r@ == runtime_place(text::opt_str_view(session), uid),
{
    match session {
        Some(d) => copy(d),
        None => {
            let mut r = copy("/run/user/");
            append(&mut r, text::write_decimal(uid as u64).as_str());
            r
        },
    }
}

/// The directory that stands in where that one does not exist.
pub fn fallback_dir(home: Option<&str>) -> (r: String)
    ensures
        r@ == web::joined(web::home_or_tmp(text::opt_str_view(home)), ".local/state/lancam"@),
{
    match home {
        Some(h) => join(h, ".local/state/lancam"),
        None => join("/tmp", ".local/state/lancam"),
    }
}

/// The directory for the pid file and the log: that of the running session,
/// falling back to the one under the home directory.
pub fn state_dir(session: Option<&str>, uid: u32, session_exists: bool, home: Option<&str>) -> (r:
    String)
    ensures
        r@ == if session_exists {
            runtime_place(text::opt_str_view(session), uid)
        } else {
            web::joined(web::home_or_tmp(text::opt_str_view(home)), ".local/state/lancam"@)
        },
{
    if session_exists {
        runtime_dir(session, uid)
    } else {
        fallback_dir(home)
    }
}

} // verus!
