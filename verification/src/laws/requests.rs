//! Requests for a stream: what the command line and the panel come to.

use crate::audio::{resolve_card, AudioCard, NoCard};
use crate::capture::{pick_mode, resolve_device, DeviceError, DeviceInfo, Mode};
use crate::engine::{auto_mic, AudioSpec, State, StreamConfig, Streamer};
use crate::headless::{configure, wants_audio, StreamArgs};
use crate::tray::{start_last, SettingsReply};
use crate::web::{
    api_start, asks_own_mic, resolve_saved, PanelSettings, Refusal, RefusalView, SavedSettings,
    StartReq, Started,
};
use crate::{audio, capture, order, text, web};
use vstd::prelude::*;

verus! {

/// What the command line asks for is what is streamed: the device, the name and
/// the groups, and the mode that is picked for the format, the size and the rate.
pub proof fn arguments_are_followed(
    dev: &DeviceInfo,
    args: &StreamArgs,
    cards: &Vec<AudioCard>,
    r: Result<StreamConfig, NoCard>,
    fourcc: &str,
    mode: Mode,
)
    requires
        call_ensures(configure, (dev, args, cards), r),
        fourcc@ == args.fourcc@,
        call_ensures(pick_mode, (dev, fourcc, args.width, args.height, args.fps), mode),
    ensures
        r matches Ok(c) ==> {
            &&& c.device_path@ == dev.path@
            &&& c.card@ == dev.card@
            &&& c.mode@ == mode@
            &&& c.groups@ == args.groups@
            &&& args.name matches Some(n) ==> c.ndi_name@ == n@
            &&& args.name is None ==> c.ndi_name@.len() == 0
        },
{
}

/// Audio is streamed exactly where it is asked for, by its flag or by a card,
/// and not switched off. It has the rate and the channels of the arguments,
/// whatever they are, and comes from the source that is resolved for the card
/// that was named, or for the camera.
pub proof fn audio_arguments_are_followed(
    dev: &DeviceInfo,
    args: &StreamArgs,
    cards: &Vec<AudioCard>,
    r: Result<StreamConfig, NoCard>,
    wanted: &str,
    source: Result<String, NoCard>,
)
    requires
        call_ensures(configure, (dev, args, cards), r),
        wanted@ == match args.audio_card {
            Some(c) => c@,
            None => dev.card@,
        },
        call_ensures(resolve_card, (cards, wanted), source),
    ensures
        ({
            let asked = !args.video_only && (args.audio || args.audio_card is Some);
            &&& r is Ok <==> !asked || source is Ok
            &&& r matches Ok(c) ==> (c.audio is Some <==> asked)
            &&& r matches Ok(c) ==> (c.audio matches Some(a) ==> {
                &&& a.rate == args.audio_rate
                &&& a.channels == args.audio_channels
                &&& a.device@ == source->Ok_0@
            })
            &&& r matches Err(e) ==> e.wanted@ == wanted@
        }),
{
}

/// Whether the device with this number is the first one at a path.
pub open spec fn first_at(devices: Seq<DeviceInfo>, path: Seq<char>, i: int) -> bool {
    &&& 0 <= i < devices.len()
    &&& devices[i].path@ == path
    &&& forall|j: int| 0 <= j < i ==> (#[trigger] devices[j]).path@ != path
}

proof fn first_is_found(devices: Seq<DeviceInfo>, path: Seq<char>, i: int)
    requires
        first_at(devices, path, i),
    ensures
        order::first(capture::device_views(devices), web::has_path(path)) == i,
        capture::device_views(devices)[i] == devices[i]@,
{
    let views = capture::device_views(devices);
    let p = web::has_path(path);
    assert forall|k: int| 0 <= k < i implies !p(#[trigger] views[k]) by {
        assert(views[k] == devices[k]@);
    }
    order::first_is(views, p, i);
}

/// A request to start a stopped stream on a device that is there is started as
/// it was asked for: the device, the name and the groups, the mode that is
/// picked, audio with its rate and its channels, as a preview or live. It fails
/// only where it asks for the microphone of a camera that has none. The same is
/// what is remembered.
pub proof fn starts_follow_requests(
    streamer: &mut Streamer,
    devices: &Vec<DeviceInfo>,
    cards: &Vec<AudioCard>,
    req: &StartReq,
    r: Result<Started, Refusal>,
    i: int,
    fourcc: &str,
    mode: Mode,
    card: &str,
    source: Result<String, NoCard>,
)
    requires
        call_ensures(api_start, (streamer, devices, cards, req), r),
        old(streamer)@.state == State::Stopped,
        first_at(devices@, req.device@, i),
        fourcc@ == req.fourcc@,
        call_ensures(
            pick_mode,
            (&devices@[i], fourcc, req.width, req.height, req.fps),
            mode,
        ),
        card@ == devices@[i].card@,
        call_ensures(resolve_card, (cards, card), source),
    ensures
        ({
            let own = req.audio matches Some(a) && a@ == "auto"@;
            let after = final(streamer)@;
            &&& r is Ok <==> !own || source is Ok
            &&& r matches Err(e) ==> e@ == RefusalView::NoMicrophone(card@) && after == old(
                streamer,
            )@
            &&& r matches Ok(s) ==> {
                &&& after.state == if req.preview {
                    State::Preview
                } else {
                    State::Live
                }
                &&& after.error is None && !after.stop
                &&& after.frame == old(streamer)@.frame
                &&& after.config.device_path == req.device@ && after.config.card == card@
                &&& after.config.mode == mode@ && s.mode@ == mode@
                &&& after.config.ndi_name == req.name@ && after.config.groups == req.groups@
                &&& after.config.audio is Some <==> req.audio is Some
                &&& after.config.audio matches Some(a) ==> a.rate == req.audio_rate && a.channels
                    == req.audio_channels && a.device == if own {
                    source->Ok_0@
                } else {
                    req.audio->0@
                }
                &&& s.saved.device@ == req.device@ && s.saved.card@ == card@
                &&& s.saved.fourcc@ == mode.fourcc@ && s.saved.fps == mode.fps
                &&& s.saved.width == mode.width && s.saved.height == mode.height
                &&& s.saved.name@ == req.name@ && s.saved.groups@ == req.groups@
                &&& s.saved.audio_rate == req.audio_rate && s.saved.audio_channels
                    == req.audio_channels
                &&& req.audio matches Some(a) ==> s.saved.audio@ == a@
                &&& req.audio is None ==> s.saved.audio@.len() == 0
            }
        }),
{
    first_is_found(devices@, req.device@, i);
    if let Ok(s) = r {
        assert(s.saved@.device == req.device@);
        assert(s.saved@.audio == s.saved.audio@);
        assert(mode@.fourcc == mode.fourcc@);
    }
}

/// A request to start is refused while a stream runs, and for a device that is
/// not there; the stream stays as it was.
pub proof fn bad_starts_are_refused(
    streamer: &mut Streamer,
    devices: &Vec<DeviceInfo>,
    cards: &Vec<AudioCard>,
    req: &StartReq,
    r: Result<Started, Refusal>,
)
    requires
        call_ensures(api_start, (streamer, devices, cards, req), r),
    ensures
        r is Err ==> final(streamer)@ == old(streamer)@,
        old(streamer)@.state != State::Stopped <==> (r matches Err(e) && e@
            == RefusalView::Running),
        old(streamer)@.state == State::Stopped && (forall|j: int|
            0 <= j < devices@.len() ==> (#[trigger] devices@[j]).path@ != req.device@) ==> (
        r matches Err(e) && e@ == RefusalView::UnknownDevice),
{
    let views = capture::device_views(devices@);
    let p = web::has_path(req.device@);
    order::first_means(views, p);
    let at = order::first(views, p);
    if at < views.len() {
        assert(views[at] == devices@[at]@);
        assert(devices@[at].path@ == req.device@);
    }
}

/// Refusals have their HTTP status: a conflict while a stream runs, else a bad
/// request.
pub proof fn refusals_have_a_status(e: &Refusal, status: u16)
    requires
        call_ensures(Refusal::status, (e,), status),
    ensures
        e@ == RefusalView::Running ==> status == 409,
        e@ != RefusalView::Running ==> status == 400,
{
}

/// The panel is filled with what was saved, as far as it is there: the device
/// at the saved path, else the first one with the saved card name, and the mode
/// that is picked on it for the saved one. Names, groups, rate and channels stay
/// as they were; audio does where it is none, the own microphone or a source
/// that is listed, else it is none.
pub proof fn panels_keep_what_was_saved(
    devices: &Vec<DeviceInfo>,
    saved: &SavedSettings,
    cards: &Vec<AudioCard>,
    r: PanelSettings,
    i: int,
    fourcc: &str,
    mode: Mode,
)
    requires
        call_ensures(resolve_saved, (devices, Some(saved), cards), r),
        0 <= i < devices@.len(),
        first_at(devices@, saved.device@, i) || {
            &&& forall|j: int| 0 <= j < devices@.len() ==> (#[trigger] devices@[j]).path@
                != saved.device@
            &&& devices@[i].card@ == saved.card@
            &&& forall|j: int| 0 <= j < i ==> (#[trigger] devices@[j]).card@ != saved.card@
        },
        fourcc@ == saved.fourcc@,
        call_ensures(
            pick_mode,
            (&devices@[i], fourcc, saved.width, saved.height, saved.fps),
            mode,
        ),
    ensures
        r.device@ == devices@[i].path@,
        r.rest matches Some(p) && {
            &&& p.fourcc@ == mode.fourcc@ && p.width == mode.width && p.height == mode.height
                && p.fps == mode.fps
            &&& p.name@ == saved.name@ && p.groups@ == saved.groups@
            &&& p.audio_rate == saved.audio_rate && p.audio_channels == saved.audio_channels
            &&& saved.audio@ == "auto"@ || audio::has_device(
                audio::card_views(cards@),
                saved.audio@,
            ) ==> p.audio@ == saved.audio@
            &&& saved.audio@ != "auto"@ && !audio::has_device(
                audio::card_views(cards@),
                saved.audio@,
            ) ==> p.audio@.len() == 0
        },
{
    let views = capture::device_views(devices@);
    assert(views[i] == devices@[i]@);
    if first_at(devices@, saved.device@, i) {
        first_is_found(devices@, saved.device@, i);
    } else {
        let p = web::has_path(saved.device@);
        let q = web::has_card(saved.card@);
        assert forall|k: int| 0 <= k < views.len() implies !p(#[trigger] views[k]) by {
            assert(views[k] == devices@[k]@);
        }
        order::first_is(views, p, views.len() as int);
        assert forall|k: int| 0 <= k < i implies !q(#[trigger] views[k]) by {
            assert(views[k] == devices@[k]@);
        }
        order::first_is(views, q, i);
    }
    assert(r@.rest is Some);
    assert(r.rest->0@.fourcc == mode@.fourcc);
    assert(r.rest->0@.audio == r.rest->0.audio@);
    assert(r@.device == r.device@);
}

/// Where the saved device is gone, the panel has the first one, with the mode
/// that is picked for 1920x1080 at 60 frames in MJPG. Without devices it has
/// none, and without saved settings just the first one.
pub proof fn panels_fall_back(
    devices: &Vec<DeviceInfo>,
    saved: Option<&SavedSettings>,
    cards: &Vec<AudioCard>,
    r: PanelSettings,
    fourcc: &str,
    mode: Mode,
)
    requires
        call_ensures(resolve_saved, (devices, saved, cards), r),
        fourcc@ == "MJPG"@,
        devices@.len() > 0 ==> call_ensures(
            pick_mode,
            (&devices@[0], fourcc, 1920, 1080, crate::single::Single { bits: 0x4270_0000 }),
            mode,
        ),
    ensures
        devices@.len() == 0 ==> r.device@.len() == 0 && r.rest is None,
        devices@.len() > 0 && saved is None ==> r.device@ == devices@[0].path@ && r.rest is None,
        devices@.len() > 0 && (saved matches Some(s) && forall|j: int|
            0 <= j < devices@.len() ==> (#[trigger] devices@[j]).path@ != s.device@
                && devices@[j].card@ != s.card@) ==> {
            &&& r.device@ == devices@[0].path@
            &&& r.rest matches Some(p) && p.fourcc@ == mode.fourcc@ && p.width == mode.width
                && p.height == mode.height && p.fps == mode.fps
        },
{
    let views = capture::device_views(devices@);
    assert(r@.device == r.device@);
    if devices@.len() > 0 {
        assert(views[0] == devices@[0]@);
        if let Some(s) = saved {
            if forall|j: int|
                0 <= j < devices@.len() ==> (#[trigger] devices@[j]).path@ != s.device@
                    && devices@[j].card@ != s.card@ {
                let p = web::has_path(s.device@);
                let q = web::has_card(s.card@);
                assert forall|k: int| 0 <= k < views.len() implies !p(#[trigger] views[k]) && !q(
                    views[k],
                ) by {
                    assert(views[k] == devices@[k]@);
                }
                order::first_is(views, p, views.len() as int);
                assert forall|k: int| 0 <= k < views.len() implies !q(#[trigger] views[k]) by {
                    assert(!p(views[k]) && !q(views[k]));
                }
                order::first_is(views, q, views.len() as int);
                assert(r.rest->0@.fourcc == mode@.fourcc);
            }
        }
    }
}

/// The tray goes live with the settings as they are.
pub proof fn the_tray_keeps_settings(s: &SettingsReply, r: StartReq)
    requires
        call_ensures(start_last, (s,), r),
    ensures
        !r.preview,
        r.device@ == s.device@ && r.fourcc@ == s.fourcc@,
        r.width == s.width && r.height == s.height && r.fps == s.fps,
        r.name@ == s.name@ && r.groups@ == s.groups@,
        r.audio is Some <==> s.audio@.len() > 0,
        r.audio matches Some(a) ==> a@ == s.audio@,
        r.audio_rate == s.audio_rate && r.audio_channels == s.audio_channels,
{
    assert(r@.device == r.device@);
    assert(r@.fourcc == r.fourcc@);
    assert(r@.name == r.name@);
    assert(r@.groups == r.groups@);
}

/// Whether a device is meant: by the end of its path, by its index, or by a part
/// of its card name in lowercase.
pub open spec fn device_meant(spec: Seq<char>, d: DeviceInfo) -> bool {
    match text::after_prefix(spec, "/dev/"@) {
        Some(path) => text::has_suffix(d.path@, path),
        None => match text::number(spec) {
            Some(n) => text::has_suffix(d.path@, "video"@ + text::decimal(n as nat)),
            None => text::occurs(text::lowercase(d.card@), text::lowercase(spec)),
        },
    }
}

/// A device that is asked for is the first one that is meant; without a request
/// it is the first one. It fails exactly where there is none.
pub proof fn the_first_device_is_taken(
    devices: Vec<DeviceInfo>,
    spec: Option<&str>,
    r: Result<DeviceInfo, DeviceError>,
)
    requires
        call_ensures(resolve_device, (devices, spec), r),
    ensures
        devices@.len() == 0 ==> r is Err && r->Err_0 is NoDevices,
        devices@.len() > 0 && spec is None ==> r is Ok && r->Ok_0@ == devices@[0]@,
        r is Ok && spec is Some ==> exists|i: int|
            0 <= i < devices@.len() && r->Ok_0@ == (#[trigger] devices@[i])@ && device_meant(
                spec->0@,
                devices@[i],
            ) && forall|j: int| 0 <= j < i ==> !device_meant(spec->0@, #[trigger] devices@[j]),
        r is Err && spec is Some ==> forall|j: int|
            0 <= j < devices@.len() ==> !device_meant(spec->0@, #[trigger] devices@[j]),
{
    let views = capture::device_views(devices@);
    if devices@.len() > 0 {
        assert(views[0] == devices@[0]@);
    }
    if let Some(s) = spec {
        let p = capture::device_matches(capture::wanted(s@));
        assert forall|j: int| 0 <= j < devices@.len() implies device_meant(
            s@,
            #[trigger] devices@[j],
        ) == p(views[j]) by {
            assert(views[j] == devices@[j]@);
        }
        order::first_means(views, p);
        let at = order::first(views, p);
        assert forall|j: int| 0 <= j < at implies !device_meant(s@, #[trigger] devices@[j]) by {
            assert(!p(views[j]));
        }
        if at < views.len() {
            assert(views[at] == devices@[at]@);
            assert(device_meant(s@, devices@[at]));
        }
    }
}

/// The own microphone of a card is the source that is resolved for its name, in
/// two channels at 48 kHz.
pub proof fn own_microphones_are_resolved(
    cards: &Vec<AudioCard>,
    card: &str,
    r: Option<AudioSpec>,
    source: Result<String, NoCard>,
)
    requires
        call_ensures(auto_mic, (cards, card), r),
        call_ensures(resolve_card, (cards, card), source),
    ensures
        r is Some <==> source is Ok,
        r matches Some(a) ==> a.device@ == source->Ok_0@ && a.rate == 48_000 && a.channels == 2,
{
    if let Some(a) = r {
        assert(a@.device == a.device@);
    }
}

/// The own microphone is asked for by one word.
pub proof fn one_word_asks_for_the_own_microphone(req: &StartReq, r: bool)
    requires
        call_ensures(asks_own_mic, (req,), r),
    ensures
        r <==> (req.audio matches Some(a) && a@ == "auto"@),
{
}

/// Audio is asked for by its flag or by a card, unless it is switched off.
pub proof fn flags_ask_for_audio(args: &StreamArgs, r: bool)
    requires
        call_ensures(wants_audio, (args,), r),
    ensures
        r <==> !args.video_only && (args.audio || args.audio_card is Some),
{
}

} // verus!
