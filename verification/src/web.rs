//! The control panel: what is remembered between runs, what is offered when
//! the panel loads, and what a request to start comes to.

use crate::audio::{lists_device, AudioCard};
use crate::capture::{pick_mode, DeviceInfo, Mode};
use crate::engine::{auto_mic, AudioSpec, State, StreamConfig, Streamer};
use crate::single::Single;
use crate::text::{append, copy, equal};
use crate::{audio, capture, engine, order, text};
use vstd::prelude::*;

verus! {

/// The frame rate that is asked for by default: 60.
pub const SIXTY: u32 = 0x4270_0000;

/// How old a list of devices may get, in nanoseconds.
pub const DEVICES_FRESH: u64 = 30_000_000_000;

/// The settings of the last successful start.
#[derive(Clone, Debug)]
pub struct SavedSettings {
    pub device: String,
    pub card: String,
    pub fourcc: String,
    pub width: u32,
    pub height: u32,
    pub fps: Single,
    pub name: String,
    pub groups: String,
    pub audio: String,
    pub audio_rate: u32,
    pub audio_channels: u32,
}

/// The settings of the last successful start, as a value.
pub struct SavedView {
    pub device: Seq<char>,
    pub card: Seq<char>,
    pub fourcc: Seq<char>,
    pub width: u32,
    pub height: u32,
    pub fps: Single,
    pub name: Seq<char>,
    pub groups: Seq<char>,
    pub audio: Seq<char>,
    pub audio_rate: u32,
    pub audio_channels: u32,
}

impl View for SavedSettings {
    type V = SavedView;

    open spec fn view(&self) -> SavedView {
        SavedView {
            device: self.device@,
            card: self.card@,
            fourcc: self.fourcc@,
            width: self.width,
            height: self.height,
            fps: self.fps,
            name: self.name@,
            groups: self.groups@,
            audio: self.audio@,
            audio_rate: self.audio_rate,
            audio_channels: self.audio_channels,
        }
    }
}

/// The sample rate where none is given.
pub fn default_rate() -> (r: u32)
    ensures
        r == 48_000,
{
    48_000
}

/// The number of channels where none is given.
pub fn default_channels() -> (r: u32)
    ensures
        r == 2,
{
    2
}

/// A path with one more part.
pub open spec fn joined(base: Seq<char>, part: Seq<char>) -> Seq<char> {
    if base.len() == 0 || base.last() == '/' {
        base + part
    } else {
        base + "/"@ + part
    }
}

/// A path with one more part, which is not absolute.
pub fn join(base: &str, part: &str) -> (r: String)
    ensures
        r@ == joined(base@, part@),
{
    let mut r = copy(base);
    let v = text::chars(base);
    if v.len() > 0 && v[v.len() - 1] != '/' {
        append(&mut r, "/");
    }
    append(&mut r, part);
    r
}

/// A home directory, or the directory for temporary files.
pub open spec fn home_or_tmp(home: Option<Seq<char>>) -> Seq<char> {
    match home {
        Some(h) => h,
        None => "/tmp"@,
    }
}

/// Where settings are kept: in the directory for configurations.
pub open spec fn settings_place(config: Option<Seq<char>>, home: Option<Seq<char>>) -> Seq<char> {
    let base = match config {
        Some(c) => c,
        None => joined(home_or_tmp(home), ".config"@),
    };
    joined(joined(base, "lancam"@), "settings.json"@)
}

/// Where settings are kept, from the directory for configurations and the home
/// directory where they are known.
pub fn settings_path(config: Option<&str>, home: Option<&str>) -> (r: String)
    ensures
        r@ == settings_place(text::opt_str_view(config), text::opt_str_view(home)),
{
    let base = match config {
        Some(c) => copy(c),
        None => match home {
            Some(h) => join(h, ".config"),
            None => join("/tmp", ".config"),
        },
    };
    join(join(base.as_str(), "lancam").as_str(), "settings.json")
}

/// What the panel is filled with besides the device.
#[derive(Clone, Debug)]
pub struct Prefill {
    pub fourcc: String,
    pub width: u32,
    pub height: u32,
    pub fps: Single,
    pub name: String,
    pub groups: String,
    pub audio: String,
    pub audio_rate: u32,
    pub audio_channels: u32,
}

/// What the panel is filled with besides the device, as a value.
pub struct PrefillView {
    pub fourcc: Seq<char>,
    pub width: u32,
    pub height: u32,
    pub fps: Single,
    pub name: Seq<char>,
    pub groups: Seq<char>,
    pub audio: Seq<char>,
    pub audio_rate: u32,
    pub audio_channels: u32,
}

impl View for Prefill {
    type V = PrefillView;

    open spec fn view(&self) -> PrefillView {
        PrefillView {
            fourcc: self.fourcc@,
            width: self.width,
            height: self.height,
            fps: self.fps,
            name: self.name@,
            groups: self.groups@,
            audio: self.audio@,
            audio_rate: self.audio_rate,
            audio_channels: self.audio_channels,
        }
    }
}

/// What the panel is filled with: a device, and the rest where settings were
/// saved and a device is there.
#[derive(Clone, Debug)]
pub struct PanelSettings {
    pub device: String,
    pub rest: Option<Prefill>,
}

/// What the panel is filled with, as a value.
pub struct PanelView {
    pub device: Seq<char>,
    pub rest: Option<PrefillView>,
}

impl View for PanelSettings {
    type V = PanelView;

    open spec fn view(&self) -> PanelView {
        PanelView {
            device: self.device@,
            rest: match self.rest {
                Some(p) => Some(p@),
                None => None,
            },
        }
    }
}

/// Whether a device has this path.
pub open spec fn has_path(path: Seq<char>) -> spec_fn(capture::DeviceView) -> bool {
    |d: capture::DeviceView| d.path == path
}

/// Whether a device has this card name.
pub open spec fn has_card(card: Seq<char>) -> spec_fn(capture::DeviceView) -> bool {
    |d: capture::DeviceView| d.card == card
}

/// The device that was saved: the one at its path, else the one with its card
/// name, else the number of devices.
pub open spec fn saved_device(devices: Seq<capture::DeviceView>, saved: SavedView) -> int {
    let at = order::first(devices, has_path(saved.device));
    if at < devices.len() {
        at
    } else {
        order::first(devices, has_card(saved.card))
    }
}

/// The audio source that was saved, or none where it is gone.
pub open spec fn saved_audio(cards: Seq<audio::CardView>, name: Seq<char>) -> Seq<char> {
    if name.len() == 0 || name == "auto"@ || audio::has_device(cards, name) {
        name
    } else {
        Seq::empty()
    }
}

/// What the panel is filled with: saved settings, as far as what is present
/// right now allows. A camera that is gone falls back to the first device and
/// the default mode, a stale mode is negotiated again, an audio source that is
/// gone falls back to video only.
pub open spec fn restored(
    devices: Seq<capture::DeviceView>,
    saved: Option<SavedView>,
    cards: Seq<audio::CardView>,
) -> PanelView {
    if devices.len() == 0 {
        PanelView { device: Seq::empty(), rest: None }
    } else {
        match saved {
            None => PanelView { device: devices[0].path, rest: None },
            Some(s) => {
                let at = saved_device(devices, s);
                let dev = if at < devices.len() {
                    devices[at]
                } else {
                    devices[0]
                };
                let mode = if at < devices.len() {
                    capture::picked(dev.modes, s.fourcc, s.width, s.height, s.fps)
                } else {
                    capture::picked(dev.modes, "MJPG"@, 1920, 1080, Single { bits: SIXTY })
                };
                PanelView {
                    device: dev.path,
                    rest: Some(
                        PrefillView {
                            fourcc: mode.fourcc,
                            width: mode.width,
                            height: mode.height,
                            fps: mode.fps,
                            name: s.name,
                            groups: s.groups,
                            audio: saved_audio(cards, s.audio),
                            audio_rate: s.audio_rate,
                            audio_channels: s.audio_channels,
                        },
                    ),
                }
            },
        }
    }
}

/// The first device at a path, or the number of devices.
pub fn find_device(devices: &Vec<DeviceInfo>, path: &str) -> (at: usize)
    ensures
        at <= devices@.len(),
        at == order::first(capture::device_views(devices@), has_path(path@)),
{
    let ghost views = capture::device_views(devices@);
    let ghost p = has_path(path@);
    let mut i: usize = 0;
    while i < devices.len()
        invariant
            i <= devices@.len(),
            views == capture::device_views(devices@),
            p == has_path(path@),
            forall|k: int| 0 <= k < i ==> !p(#[trigger] views[k]),
        decreases devices.len() - i,
    {
        assert(views[i as int] == devices@[i as int]@);
        if equal(devices[i].path.as_str(), path) {
            proof {
                order::first_is(views, p, i as int);
            }
            return i;
        }
        i += 1;
    }
    proof {
        order::first_is(views, p, views.len() as int);
    }
    i
}

/// The first device with a card name, or the number of devices.
fn find_named(devices: &Vec<DeviceInfo>, card: &str) -> (at: usize)
    ensures
        at <= devices@.len(),
        at == order::first(capture::device_views(devices@), has_card(card@)),
{
    let ghost views = capture::device_views(devices@);
    let ghost p = has_card(card@);
    let mut i: usize = 0;
    while i < devices.len()
        invariant
            i <= devices@.len(),
            views == capture::device_views(devices@),
            p == has_card(card@),
            forall|k: int| 0 <= k < i ==> !p(#[trigger] views[k]),
        decreases devices.len() - i,
    {
        assert(views[i as int] == devices@[i as int]@);
        if equal(devices[i].card.as_str(), card) {
            proof {
                order::first_is(views, p, i as int);
            }
            return i;
        }
        i += 1;
    }
    proof {
        order::first_is(views, p, views.len() as int);
    }
    i
}

/// The view of optional saved settings.
pub open spec fn opt_saved(s: Option<&SavedSettings>) -> Option<SavedView> {
    match s {
        Some(s) => Some(s@),
        None => None,
    }
}

/// Validates saved settings against what is present right now.
pub fn resolve_saved(
    devices: &Vec<DeviceInfo>,
    saved: Option<&SavedSettings>,
    cards: &Vec<AudioCard>,
) -> (r: PanelSettings)
    ensures
        r@ == restored(
            capture::device_views(devices@),
            opt_saved(saved),
            audio::card_views(cards@),
        ),
{
    let ghost views = capture::device_views(devices@);
    if devices.len() == 0 {
        let device = String::new();
        assert(device@ =~= Seq::<char>::empty());
        return PanelSettings { device, rest: None };
    }
    assert(views[0] == devices@[0]@);
    let s = match saved {
        None => {
            return PanelSettings { device: devices[0].path.clone(), rest: None };
        },
        Some(s) => s,
    };
    let by_path = find_device(devices, s.device.as_str());
    let at = if by_path < devices.len() {
        by_path
    } else {
        find_named(devices, s.card.as_str())
    };
    let (dev, mode) = if at < devices.len() {
        assert(views[at as int] == devices@[at as int]@);
        let dev = &devices[at];
        (dev, pick_mode(dev, s.fourcc.as_str(), s.width, s.height, s.fps))
    } else {
        let dev = &devices[0];
        (dev, pick_mode(dev, "MJPG", 1920, 1080, Single::from_bits(SIXTY)))
    };
    let audio = if s.audio.as_str().is_empty() || equal(s.audio.as_str(), "auto") || lists_device(
        cards,
        s.audio.as_str(),
    ) {
        s.audio.clone()
    } else {
        String::new()
    };
    assert(audio@ =~= saved_audio(audio::card_views(cards@), s.audio@));
    PanelSettings {
        device: dev.path.clone(),
        rest: Some(
            Prefill {
                fourcc: mode.fourcc,
                width: mode.width,
                height: mode.height,
                fps: mode.fps,
                name: s.name.clone(),
                groups: s.groups.clone(),
                audio,
                audio_rate: s.audio_rate,
                audio_channels: s.audio_channels,
            },
        ),
    }
}

/// Whether a list of devices has to be renewed before it is used again.
pub fn devices_stale(refresh: bool, empty: bool, age: u64) -> (r: bool)
    ensures
        r == (refresh || empty || age > DEVICES_FRESH),
{
    refresh || empty || age > DEVICES_FRESH
}

/// A request to start a stream. Audio is none, `auto` for the microphone of the
/// camera, or a device.
#[derive(Clone, Debug)]
pub struct StartReq {
    pub preview: bool,
    pub device: String,
    pub fourcc: String,
    pub width: u32,
    pub height: u32,
    pub fps: Single,
    pub name: String,
    pub groups: String,
    pub audio: Option<String>,
    pub audio_rate: u32,
    pub audio_channels: u32,
}

/// A request to start a stream, as a value.
pub struct StartView {
    pub preview: bool,
    pub device: Seq<char>,
    pub fourcc: Seq<char>,
    pub width: u32,
    pub height: u32,
    pub fps: Single,
    pub name: Seq<char>,
    pub groups: Seq<char>,
    pub audio: Option<Seq<char>>,
    pub audio_rate: u32,
    pub audio_channels: u32,
}

impl View for StartReq {
    type V = StartView;

    open spec fn view(&self) -> StartView {
        StartView {
            preview: self.preview,
            device: self.device@,
            fourcc: self.fourcc@,
            width: self.width,
            height: self.height,
            fps: self.fps,
            name: self.name@,
            groups: self.groups@,
            audio: text::opt_view(self.audio),
            audio_rate: self.audio_rate,
            audio_channels: self.audio_channels,
        }
    }
}

/// Why a request to start is refused.
#[derive(Clone, Debug)]
pub enum Refusal {
    Running,
    UnknownDevice,
    /// The camera with this card name has no microphone.
    NoMicrophone(String),
}

/// Why a request to start is refused, as a value.
pub enum RefusalView {
    Running,
    UnknownDevice,
    NoMicrophone(Seq<char>),
}

impl View for Refusal {
    type V = RefusalView;

    open spec fn view(&self) -> RefusalView {
        match self {
            Refusal::Running => RefusalView::Running,
            Refusal::UnknownDevice => RefusalView::UnknownDevice,
            Refusal::NoMicrophone(card) => RefusalView::NoMicrophone(card@),
        }
    }
}

impl RefusalView {
    /// What is reported to the user.
    pub open spec fn report(self) -> Seq<char> {
        match self {
            RefusalView::Running => "stream already running"@,
            RefusalView::UnknownDevice => "unknown device"@,
            RefusalView::NoMicrophone(card) => card
                + " has no microphone - pick 'No audio (video only)' or another card"@,
        }
    }

    /// The HTTP status that goes with it.
    pub open spec fn code(self) -> u16 {
        match self {
            RefusalView::Running => 409,
            _ => 400,
        }
    }
}

impl Refusal {
    /// What is reported to the user.
    pub fn message(&self) -> (r: String)
        ensures
            r@ == self@.report(),
    {
        match self {
            Refusal::Running => copy("stream already running"),
            Refusal::UnknownDevice => copy("unknown device"),
            Refusal::NoMicrophone(card) => {
                let mut r = card.clone();
                append(
                    &mut r,
                    " has no microphone - pick 'No audio (video only)' or another card",
                );
                r
            },
        }
    }

    /// The HTTP status that goes with it.
    pub fn status(&self) -> (r: u16)
        ensures
            r == self@.code(),
    {
        match self {
            Refusal::Running => 409,
            _ => 400,
        }
    }
}

/// What a request for audio on a camera comes to; an error where it asks for
/// the camera's own microphone and there is none.
pub open spec fn chosen_audio(
    card: Seq<char>,
    cards: Seq<audio::CardView>,
    req: StartView,
) -> Result<Option<engine::AudioView>, RefusalView> {
    match req.audio {
        None => Ok(None),
        Some(name) => if name == "auto"@ {
            match engine::own_mic(cards, card) {
                Some(mic) => Ok(
                    Some(
                        engine::AudioView {
                            device: mic.device,
                            rate: req.audio_rate,
                            channels: req.audio_channels,
                        },
                    ),
                ),
                None => Err(RefusalView::NoMicrophone(card)),
            }
        } else {
            Ok(
                Some(
                    engine::AudioView {
                        device: name,
                        rate: req.audio_rate,
                        channels: req.audio_channels,
                    },
                ),
            )
        },
    }
}

/// What a request to start comes to while a stream is in a state: the
/// configuration that is started, or why it is refused.
pub open spec fn planned(
    state: State,
    devices: Seq<capture::DeviceView>,
    cards: Seq<audio::CardView>,
    req: StartView,
) -> Result<engine::ConfigView, RefusalView> {
    let at = order::first(devices, has_path(req.device));
    if state != State::Stopped {
        Err(RefusalView::Running)
    } else if at >= devices.len() {
        Err(RefusalView::UnknownDevice)
    } else {
        let dev = devices[at];
        match chosen_audio(dev.card, cards, req) {
            Err(e) => Err(e),
            Ok(audio) => Ok(
                engine::ConfigView {
                    device_path: dev.path,
                    card: dev.card,
                    mode: capture::picked(dev.modes, req.fourcc, req.width, req.height, req.fps),
                    ndi_name: req.name,
                    groups: req.groups,
                    audio,
                },
            ),
        }
    }
}

/// What is remembered of a request that was started with a configuration.
pub open spec fn remembered(config: engine::ConfigView, req: StartView) -> SavedView {
    SavedView {
        device: config.device_path,
        card: config.card,
        fourcc: config.mode.fourcc,
        width: config.mode.width,
        height: config.mode.height,
        fps: config.mode.fps,
        name: req.name,
        groups: req.groups,
        audio: match req.audio {
            Some(a) => a,
            None => Seq::empty(),
        },
        audio_rate: req.audio_rate,
        audio_channels: req.audio_channels,
    }
}

/// Whether a request asks for the microphone of the camera, which the audio
/// sources have to be listed for.
pub fn asks_own_mic(req: &StartReq) -> (r: bool)
    ensures
        r == (req@.audio == Some("auto"@)),
{
    match &req.audio {
        Some(name) => equal(name.as_str(), "auto"),
        None => false,
    }
}

/// What a request for audio on a camera comes to.
fn choose_audio(card: &str, cards: &Vec<AudioCard>, req: &StartReq) -> (r: Result<
    Option<AudioSpec>,
    Refusal,
>)
    ensures
        (match chosen_audio(card@, audio::card_views(cards@), req@) {
            Ok(a) => r is Ok && engine::opt_audio(r->Ok_0) == a,
            Err(e) => r is Err && r->Err_0@ == e,
        }),
{
    match &req.audio {
        None => Ok(None),
        Some(name) => {
            if equal(name.as_str(), "auto") {
                match auto_mic(cards, card) {
                    Some(mic) => Ok(
                        Some(
                            AudioSpec {
                                device: mic.device,
                                rate: req.audio_rate,
                                channels: req.audio_channels,
                            },
                        ),
                    ),
                    None => Err(Refusal::NoMicrophone(copy(card))),
                }
            } else {
                Ok(
                    Some(
                        AudioSpec {
                            device: name.clone(),
                            rate: req.audio_rate,
                            channels: req.audio_channels,
                        },
                    ),
                )
            }
        },
    }
}

/// A stream that a request has started: its mode, and what is remembered.
#[derive(Clone, Debug)]
pub struct Started {
    pub mode: Mode,
    pub saved: SavedSettings,
}

/// Starts what a request asks for, or refuses it and leaves the stream as it
/// is. Settings are remembered of a start that succeeded.
pub fn api_start(
    streamer: &mut Streamer,
    devices: &Vec<DeviceInfo>,
    cards: &Vec<AudioCard>,
    req: &StartReq,
) -> (r: Result<Started, Refusal>)
    ensures
        (match planned(
            old(streamer)@.state,
            capture::device_views(devices@),
            audio::card_views(cards@),
            req@,
        ) {
            Ok(config) => {
                &&& r is Ok
                &&& r->Ok_0.mode@ == config.mode
                &&& r->Ok_0.saved@ == remembered(config, req@)
                &&& final(streamer)@ == engine::started(
                    engine::StreamerView { config, ..old(streamer)@ },
                    req.preview,
                )
            },
            Err(e) => r is Err && r->Err_0@ == e && final(streamer)@ == old(streamer)@,
        }),
        old(streamer)@.well_formed() ==> final(streamer)@.well_formed(),
{
    let ghost views = capture::device_views(devices@);
    if streamer.state() != State::Stopped {
        return Err(Refusal::Running);
    }
    let at = find_device(devices, req.device.as_str());
    if at >= devices.len() {
        return Err(Refusal::UnknownDevice);
    }
    let dev = &devices[at];
    assert(views[at as int] == dev@);
    let mode = pick_mode(dev, req.fourcc.as_str(), req.width, req.height, req.fps);
    let audio = match choose_audio(dev.card.as_str(), cards, req) {
        Ok(a) => a,
        Err(e) => {
            return Err(e);
        },
    };
    let saved = SavedSettings {
        device: dev.path.clone(),
        card: dev.card.clone(),
        fourcc: mode.fourcc.clone(),
        width: mode.width,
        height: mode.height,
        fps: mode.fps,
        name: req.name.clone(),
        groups: req.groups.clone(),
        audio: match &req.audio {
            Some(a) => a.clone(),
            None => String::new(),
        },
        audio_rate: req.audio_rate,
        audio_channels: req.audio_channels,
    };
    let chosen = mode.duplicate();
    let config = StreamConfig {
        device_path: dev.path.clone(),
        card: dev.card.clone(),
        mode,
        ndi_name: req.name.clone(),
        groups: req.groups.clone(),
        audio,
    };
    proof {
        if req.audio is None {
            assert(saved.audio@ =~= Seq::<char>::empty());
        }
    }
    streamer.set_config(config);
    match streamer.start(req.preview) {
        Ok(()) => Ok(Started { mode: chosen, saved }),
        Err(_) => Err(Refusal::Running),
    }
}

/// What is streamed before anything was asked for.
pub fn idle_config() -> (r: StreamConfig)
    ensures
        r@ == (engine::ConfigView {
            device_path: Seq::empty(),
            card: Seq::empty(),
            mode: capture::ModeView {
                fourcc: "MJPG"@,
                width: 1920,
                height: 1080,
                fps: Single { bits: SIXTY },
            },
            ndi_name: Seq::empty(),
            groups: Seq::empty(),
            audio: None,
        }),
{
    let r = StreamConfig {
        device_path: String::new(),
        card: String::new(),
        mode: Mode {
            fourcc: copy("MJPG"),
            width: 1920,
            height: 1080,
            fps: Single::from_bits(SIXTY),
        },
        ndi_name: String::new(),
        groups: String::new(),
        audio: None,
    };
    assert(r.device_path@ =~= Seq::<char>::empty());
    r
}

/// The panel comes back with what was started last, as long as the devices and
/// the audio sources are the same, the audio source is listed, and a listed
/// mode has a finite frame rate.
pub proof fn settings_come_back(
    devices: Seq<capture::DeviceView>,
    cards: Seq<audio::CardView>,
    req: StartView,
)
    requires
        planned(State::Stopped, devices, cards, req) is Ok,
        ({
            let m = planned(State::Stopped, devices, cards, req)->Ok_0.mode;
            devices[order::first(devices, has_path(req.device))].modes.contains(m)
                ==> m.fps.is_finite()
        }),
        req.audio is Some ==> req.audio->0 == saved_audio(cards, req.audio->0),
    ensures
        ({
            let config = planned(State::Stopped, devices, cards, req)->Ok_0;
            let saved = remembered(config, req);
            restored(devices, Some(saved), cards) == PanelView {
                device: config.device_path,
                rest: Some(
                    PrefillView {
                        fourcc: config.mode.fourcc,
                        width: config.mode.width,
                        height: config.mode.height,
                        fps: config.mode.fps,
                        name: req.name,
                        groups: req.groups,
                        audio: saved.audio,
                        audio_rate: req.audio_rate,
                        audio_channels: req.audio_channels,
                    },
                ),
            }
        }),
{
    let at = order::first(devices, has_path(req.device));
    order::first_means(devices, has_path(req.device));
    let dev = devices[at];
    capture::picking_settles(dev.modes, req.fourcc, req.width, req.height, req.fps);
    assert(dev.path == req.device);
}

/// Where the saved camera is gone, the panel falls back to the first device
/// and its mode for the defaults; where the saved audio source is gone, to
/// video only.
pub proof fn gone_falls_back(
    devices: Seq<capture::DeviceView>,
    saved: SavedView,
    cards: Seq<audio::CardView>,
)
    requires
        devices.len() > 0,
    ensures
        ({
            let panel = restored(devices, Some(saved), cards);
            let first = devices[0];
            let default = capture::picked(
                first.modes,
                "MJPG"@,
                1920,
                1080,
                Single { bits: SIXTY },
            );
            &&& (forall|i: int|
                0 <= i < devices.len() ==> (#[trigger] devices[i]).path != saved.device
                    && devices[i].card != saved.card) ==> {
                &&& panel.device == first.path
                &&& panel.rest->0.fourcc == default.fourcc
                &&& panel.rest->0.width == default.width
                &&& panel.rest->0.height == default.height
                &&& panel.rest->0.fps == default.fps
            }
            &&& saved.audio != "auto"@ && !audio::has_device(cards, saved.audio)
                ==> panel.rest->0.audio.len() == 0
        }),
{
    order::first_means(devices, has_path(saved.device));
    order::first_means(devices, has_card(saved.card));
}

} // verus!
