//! The systray controller: what it shows of a running service, and what it
//! asks the service for.

use crate::engine::State;
use crate::single::Single;
use crate::text::{append, copy, equal};
use crate::web::{StartReq, SIXTY};
use crate::{audio, capture, engine, order, text, web};
use vstd::prelude::*;

verus! {

/// What the service is doing, as far as the tray knows.
#[derive(Clone, Copy, Debug, PartialEq, Eq, Structural)]
pub enum SvcState {
    Offline,
    Stopped,
    Preview,
    Live,
}

/// What the tray shows.
#[derive(Clone, Copy, Debug, PartialEq, Eq, Structural)]
pub struct Snapshot {
    pub state: SvcState,
    pub fps: Single,
    pub viewers: u32,
    pub audio: bool,
}

impl Default for Snapshot {
    fn default() -> (r: Snapshot)
        ensures
            r == (Snapshot {
                state: SvcState::Stopped,
                fps: Single { bits: 0 },
                viewers: 0,
                audio: false,
            }),
    {
        Snapshot { state: SvcState::Stopped, fps: Single { bits: 0 }, viewers: 0, audio: false }
    }
}

/// What the service answers about its state.
#[derive(Clone, Debug)]
pub struct StateReply {
    pub state: String,
    pub fps: Single,
    pub viewers: u32,
    pub audio: bool,
}

/// The state that the service names; everything unknown counts as stopped.
pub open spec fn named_state(name: Seq<char>) -> SvcState {
    if name == "live"@ {
        SvcState::Live
    } else if name == "preview"@ {
        SvcState::Preview
    } else {
        SvcState::Stopped
    }
}

/// What the tray shows after a poll; the service is offline where it did not
/// answer.
pub fn snapshot_of(reply: Option<&StateReply>) -> (r: Snapshot)
    ensures
        r == (match reply {
            Some(a) => Snapshot {
                state: named_state(a.state@),
                fps: a.fps,
                viewers: a.viewers,
                audio: a.audio,
            },
            None => Snapshot {
                state: SvcState::Offline,
                fps: Single { bits: 0 },
                viewers: 0,
                audio: false,
            },
        }),
{
    match reply {
        Some(a) => {
            let state = if equal(a.state.as_str(), "live") {
                SvcState::Live
            } else if equal(a.state.as_str(), "preview") {
                SvcState::Preview
            } else {
                SvcState::Stopped
            };
            Snapshot { state, fps: a.fps, viewers: a.viewers, audio: a.audio }
        },
        None => Snapshot {
            state: SvcState::Offline,
            fps: Single { bits: 0 },
            viewers: 0,
            audio: false,
        },
    }
}

/// What the service answers about its settings.
#[derive(Clone, Debug)]
pub struct SettingsReply {
    pub device: String,
    pub fourcc: String,
    pub width: u32,
    pub height: u32,
    pub fps: Single,
    pub name: String,
    pub groups: String,
    pub audio: String,
    pub audio_rate: u32,
    pub audio_channels: u32,
}

/// What the service answers about its settings, as a value.
pub struct SettingsView {
    pub device: Seq<char>,
    pub fourcc: Seq<char>,
    pub width: u32,
    pub height: u32,
    pub fps: Single,
    pub name: Seq<char>,
    pub groups: Seq<char>,
    pub audio: Seq<char>,
    pub audio_rate: u32,
    pub audio_channels: u32,
}

impl View for SettingsReply {
    type V = SettingsView;

    open spec fn view(&self) -> SettingsView {
        SettingsView {
            device: self.device@,
            fourcc: self.fourcc@,
            width: self.width,
            height: self.height,
            fps: self.fps,
            name: self.name@,
            groups: self.groups@,
            audio: self.audio@,
            audio_rate: self.audio_rate,
            audio_channels: self.audio_channels,
        }
    }
}

/// The pixel format where the answer has none.
pub fn def_fourcc() -> (r: String)
    ensures
        r@ == "MJPG"@,
{
    copy("MJPG")
}

/// The width where the answer has none.
pub fn def_width() -> (r: u32)
    ensures
        r == 1920,
{
    1920
}

/// The height where the answer has none.
pub fn def_height() -> (r: u32)
    ensures
        r == 1080,
{
    1080
}

/// The frame rate where the answer has none: 60.
pub fn def_fps() -> (r: Single)
    ensures
        r == (Single { bits: SIXTY }),
{
    Single::from_bits(SIXTY)
}

/// The sample rate where the answer has none.
pub fn def_rate() -> (r: u32)
    ensures
        r == 48_000,
{
    48_000
}

/// The number of channels where the answer has none.
pub fn def_channels() -> (r: u32)
    ensures
        r == 2,
{
    2
}

/// The settings that an answer stands for: what it does not hold has its
/// default.
pub open spec fn reply_of(panel: web::PanelView) -> SettingsView {
    match panel.rest {
        Some(p) => SettingsView {
            device: panel.device,
            fourcc: p.fourcc,
            width: p.width,
            height: p.height,
            fps: p.fps,
            name: p.name,
            groups: p.groups,
            audio: p.audio,
            audio_rate: p.audio_rate,
            audio_channels: p.audio_channels,
        },
        None => SettingsView {
            device: panel.device,
            fourcc: "MJPG"@,
            width: 1920,
            height: 1080,
            fps: Single { bits: SIXTY },
            name: Seq::empty(),
            groups: Seq::empty(),
            audio: Seq::empty(),
            audio_rate: 48_000,
            audio_channels: 2,
        },
    }
}

/// The request that goes live with settings.
pub open spec fn live_request(s: SettingsView) -> web::StartView {
    web::StartView {
        preview: false,
        device: s.device,
        fourcc: s.fourcc,
        width: s.width,
        height: s.height,
        fps: s.fps,
        name: s.name,
        groups: s.groups,
        audio: if s.audio.len() == 0 {
            None
        } else {
            Some(s.audio)
        },
        audio_rate: s.audio_rate,
        audio_channels: s.audio_channels,
    }
}

/// The request that goes live with the last settings.
pub fn start_last(s: &SettingsReply) -> (r: StartReq)
    ensures
        r@ == live_request(s@),
{
    StartReq {
        preview: false,
        device: s.device.clone(),
        fourcc: s.fourcc.clone(),
        width: s.width,
        height: s.height,
        fps: s.fps,
        name: s.name.clone(),
        groups: s.groups.clone(),
        audio: if s.audio.as_str().is_empty() {
            None
        } else {
            Some(s.audio.clone())
        },
        audio_rate: s.audio_rate,
        audio_channels: s.audio_channels,
    }
}

/// Going live with the last settings starts what was started last, as long as
/// the devices and the audio sources are the same, the audio source is listed,
/// and a listed mode has a finite frame rate.
pub proof fn last_settings_go_live(
    devices: Seq<capture::DeviceView>,
    cards: Seq<audio::CardView>,
    req: web::StartView,
)
    requires
        web::planned(State::Stopped, devices, cards, req) is Ok,
        ({
            let m = web::planned(State::Stopped, devices, cards, req)->Ok_0.mode;
            devices[order::first(devices, web::has_path(req.device))].modes.contains(m)
                ==> m.fps.is_finite()
        }),
        req.audio is Some ==> req.audio->0.len() > 0 && req.audio->0 == web::saved_audio(
            cards,
            req.audio->0,
        ),
    ensures
        ({
            let config = web::planned(State::Stopped, devices, cards, req)->Ok_0;
            let saved = web::remembered(config, req);
            let panel = web::restored(devices, Some(saved), cards);
            web::planned(State::Stopped, devices, cards, live_request(reply_of(panel)))
                == Ok::<engine::ConfigView, web::RefusalView>(config)
        }),
{
    web::settings_come_back(devices, cards, req);
    let at = order::first(devices, web::has_path(req.device));
    order::first_means(devices, web::has_path(req.device));
    let dev = devices[at];
    assert(dev.path == req.device);
    capture::picking_settles(dev.modes, req.fourcc, req.width, req.height, req.fps);
}

/// A value held between two limits.
pub open spec fn held(x: int, low: int, high: int) -> int {
    if x < low {
        low
    } else if x > high {
        high
    } else {
        x
    }
}

/// Whether a point lies in a rectangle with round corners: at `(x0, y0)`, `w`
/// wide, `h` high, with corners of radius `r`.
pub open spec fn rounded_holds(
    x: int,
    y: int,
    x0: int,
    y0: int,
    w: int,
    h: int,
    r: int,
) -> bool {
    let dx = x - held(x, x0 + r, x0 + w - 1 - r);
    let dy = y - held(y, y0 + r, y0 + h - 1 - r);
    &&& x0 <= x < x0 + w
    &&& y0 <= y < y0 + h
    &&& dx * dx + dy * dy <= r * r
}

fn hold(x: i64, low: i64, high: i64) -> (v: i64)
    requires
        low <= high,
    ensures
        v == held(x as int, low as int, high as int),
{
    if x < low {
        low
    } else if x > high {
        high
    } else {
        x
    }
}

/// Whether a point lies in a rectangle with round corners, which are no larger
/// than half its sides.
pub fn in_rounded(x: i32, y: i32, x0: i32, y0: i32, w: i32, h: i32, r: i32) -> (inside: bool)
    requires
        x0 <= x < x0 + w && y0 <= y < y0 + h ==> 2 * r <= w - 1 && 2 * r <= h - 1,
    ensures
        inside == rounded_holds(
            x as int,
            y as int,
            x0 as int,
            y0 as int,
            w as int,
            h as int,
            r as int,
        ),
{
    let (px, py) = (x as i64, y as i64);
    let (left, top) = (x0 as i64, y0 as i64);
    let right = left + w as i64 - 1;
    let bottom = top + h as i64 - 1;
    if px < left || px > right || py < top || py > bottom {
        return false;
    }
    let k = r as i64;
    let dx = (px - hold(px, left + k, right - k)) as i128;
    let dy = (py - hold(py, top + k, bottom - k)) as i128;
    proof {
        let big = 0x10_0000_0000int;
        square_bound(dx as int, big);
        square_bound(dy as int, big);
        square_bound(k as int, big);
    }
    dx * dx + dy * dy <= k as i128 * k as i128
}

proof fn square_bound(x: int, big: int)
    requires
        -big <= x <= big,
    ensures
        0 <= x * x <= big * big,
{
    assert(0 <= x * x <= big * big) by (nonlinear_arith)
        requires
            -big <= x <= big,
    ;
}

/// The side of the icon, in pixels.
pub const ICON_SIDE: i32 = 24;

/// Four times the squared distance of a pixel from the centre of the lens.
pub open spec fn lens_distance(x: int, y: int) -> int {
    (2 * x - 23) * (2 * x - 23) + (2 * y - 20) * (2 * y - 20)
}

/// Whether a pixel belongs to the centre dot of the lens.
pub open spec fn in_dot(x: int, y: int) -> bool {
    lens_distance(x, y) <= 6
}

/// Whether a pixel belongs to the outline of the body, the stand, or the ring
/// of the lens.
pub open spec fn in_outline(x: int, y: int) -> bool {
    ||| rounded_holds(x, y, 3, 4, 18, 13, 3) && !rounded_holds(x, y, 5, 6, 14, 9, 2)
    ||| (x == 11 || x == 12) && (y == 17 || y == 18)
    ||| (y == 19 || y == 20) && 8 <= x <= 15
    ||| 11 <= lens_distance(x, y) <= 36
}

/// Whether a pixel of the icon is set.
pub open spec fn lit(state: SvcState, x: int, y: int) -> bool {
    in_outline(x, y) || (state == SvcState::Live && in_dot(x, y))
}

/// How opaque the icon is.
pub open spec fn opacity(state: SvcState) -> u8 {
    if state == SvcState::Offline {
        90
    } else {
        255
    }
}

/// The bytes of the icon: four for each pixel, the first of them opacity.
pub open spec fn icon_bytes(state: SvcState) -> Seq<u8> {
    Seq::new(
        (ICON_SIDE * ICON_SIDE * 4) as nat,
        |i: int| icon_byte(state, i / 4 % 24, i / 4 / 24, i % 4),
    )
}

/// The byte `c` of a pixel of the icon.
pub open spec fn icon_byte(state: SvcState, x: int, y: int, c: int) -> u8 {
    if !lit(state, x, y) {
        0
    } else if c == 0 {
        opacity(state)
    } else {
        255
    }
}

/// Whether a pixel of the icon is set.
fn is_lit(state: SvcState, x: i32, y: i32) -> (r: bool)
    requires
        0 <= x < 24,
        0 <= y < 24,
    ensures
        r == lit(state, x as int, y as int),
{
    let body = in_rounded(x, y, 3, 4, 18, 13, 3) && !in_rounded(x, y, 5, 6, 14, 9, 2);
    let stand = (x == 11 || x == 12) && (y == 17 || y == 18) || (y == 19 || y == 20) && (8 <= x && x
        <= 15);
    let dx = 2 * x - 23;
    let dy = 2 * y - 20;
    proof {
        square_bound(dx as int, 100);
        square_bound(dy as int, 100);
    }
    let d = dx * dx + dy * dy;
    let lens = (d <= 36 && d >= 11) || (state == SvcState::Live && d <= 6);
    body || stand || lens
}

/// A webcam in one colour, 24 pixels wide and high: outlined body and stand, an
/// empty lens ring, and a centre dot that appears only when live. Offline dims
/// all of it.
pub fn state_icon(state: SvcState) -> (data: Vec<u8>)
    ensures
        data@ == icon_bytes(state),
{
    let alpha: u8 = match state {
        SvcState::Offline => 90,
        _ => 255,
    };
    let ghost whole = icon_bytes(state);
    let mut data: Vec<u8> = Vec::new();
    let mut y: i32 = 0;
    assert(data@ =~= whole.take(0));
    while y < 24
        invariant
            0 <= y <= 24,
            alpha == opacity(state),
            whole == icon_bytes(state),
            data@ == whole.take(96 * y),
        decreases 24 - y,
    {
        let mut x: i32 = 0;
        while x < 24
            invariant
                0 <= x <= 24,
                0 <= y < 24,
                alpha == opacity(state),
                whole == icon_bytes(state),
                data@ == whole.take(96 * y + 4 * x),
            decreases 24 - x,
        {
            let on = is_lit(state, x, y);
            let ghost before = data@;
            if on {
                data.push(alpha);
                data.push(255);
                data.push(255);
                data.push(255);
            } else {
                data.push(0);
                data.push(0);
                data.push(0);
                data.push(0);
            }
            proof {
                let n = 96 * y + 4 * x;
                assert forall|i: int| 0 <= i < n + 4 implies data@[i] == whole[i] by {
                    if i < n {
                        assert(data@[i] == before[i]);
                    } else {
                        assert(i / 4 == 24 * y + x && i % 4 == i - n);
                        assert(i / 4 % 24 == x && i / 4 / 24 == y);
                    }
                }
                assert(data@ =~= whole.take(n + 4));
            }
            x += 1;
        }
        y += 1;
    }
    assert(data@ =~= whole);
    data
}

/// The centre dot is set exactly when live, and the rest of the icon does not
/// depend on the state.
pub proof fn dot_means_live(state: SvcState, x: int, y: int)
    requires
        0 <= x < 24,
        0 <= y < 24,
    ensures
        in_dot(x, y) ==> (lit(state, x, y) <==> state == SvcState::Live),
        !in_dot(x, y) ==> (lit(state, x, y) <==> in_outline(x, y)),
{
    if in_dot(x, y) {
        let dx = 2 * x - 23;
        let dy = 2 * y - 20;
        square_bound(dx, 100);
        square_bound(dy, 100);
        assert(-2 <= dx <= 2 && -2 <= dy <= 2) by (nonlinear_arith)
            requires
                dx * dx + dy * dy <= 6,
        ;
        let zx = x - held(x, 7, 16);
        let zy = y - held(y, 8, 12);
        assert(zx == 0 && zy == 0);
        assert(zx * zx == 0 && zy * zy == 0) by (nonlinear_arith)
            requires
                zx == 0,
                zy == 0,
        ;
        assert(rounded_holds(x, y, 5, 6, 14, 9, 2));
    }
}

/// Offline dims the whole icon: it has the pixels of a stopped service, each of
/// them less opaque.
pub proof fn offline_dims_all(x: int, y: int)
    ensures
        lit(SvcState::Offline, x, y) == lit(SvcState::Stopped, x, y),
        lit(SvcState::Offline, x, y) ==> icon_byte(SvcState::Offline, x, y, 0) == 90
            && icon_byte(SvcState::Stopped, x, y, 0) == 255,
{
}

/// What the tray says about the service.
pub open spec fn description(s: Snapshot, fps: Seq<char>) -> Seq<char> {
    match s.state {
        SvcState::Offline => "service offline"@,
        SvcState::Stopped => "stopped"@,
        SvcState::Preview => "previewing, "@ + fps + " fps"@,
        SvcState::Live => "live, "@ + fps + " fps, "@ + text::decimal(s.viewers as nat)
            + " viewers, audio "@ + if s.audio {
            "on"@
        } else {
            "off"@
        },
    }
}

/// What the tray says about the service; `fps` is the frame rate as it is
/// shown.
pub fn describe(s: Snapshot, fps: &str) -> (r: String)
    ensures
        r@ == description(s, fps@),
{
    match s.state {
        SvcState::Offline => copy("service offline"),
        SvcState::Stopped => copy("stopped"),
        SvcState::Preview => {
            let mut r = copy("previewing, ");
            append(&mut r, fps);
            append(&mut r, " fps");
            r
        },
        SvcState::Live => {
            let mut r = copy("live, ");
            append(&mut r, fps);
            append(&mut r, " fps, ");
            append(&mut r, text::write_decimal(s.viewers as u64).as_str());
            append(&mut r, " viewers, audio ");
            append(
                &mut r,
                if s.audio {
                    "on"
                } else {
                    "off"
                },
            );
            r
        },
    }
}

/// What an entry of the menu does.
#[derive(Clone, Copy, Debug, PartialEq, Eq, Structural)]
pub enum Command {
    /// It only shows what the service is doing.
    Show,
    /// It only separates.
    Separate,
    GoLive,
    Stop,
    OpenPanel,
    Quit,
}

/// An entry of the menu: what it does, and whether it can be chosen.
#[derive(Clone, Copy, Debug, PartialEq, Eq, Structural)]
pub struct MenuEntry {
    pub command: Command,
    pub enabled: bool,
}

/// Whether a command can be given to a service in this state.
pub open spec fn offered(state: SvcState, c: Command) -> bool {
    match c {
        Command::Show | Command::Separate => false,
        Command::GoLive => state == SvcState::Stopped,
        Command::Stop => state == SvcState::Preview || state == SvcState::Live,
        Command::OpenPanel => state != SvcState::Offline,
        Command::Quit => true,
    }
}

/// The commands in the menu, from top to bottom.
pub open spec fn menu_commands() -> Seq<Command> {
    seq![
        Command::Show,
        Command::Separate,
        Command::GoLive,
        Command::Stop,
        Command::OpenPanel,
        Command::Separate,
        Command::Quit,
    ]
}

/// The menu for a state of the service.
pub fn menu(state: SvcState) -> (r: Vec<MenuEntry>)
    ensures
        r@ == menu_commands().map_values(
            |c: Command| MenuEntry { command: c, enabled: offered(state, c) },
        ),
{
    let running = state == SvcState::Preview || state == SvcState::Live;
    let mut r: Vec<MenuEntry> = Vec::new();
    r.push(MenuEntry { command: Command::Show, enabled: false });
    r.push(MenuEntry { command: Command::Separate, enabled: false });
    r.push(MenuEntry { command: Command::GoLive, enabled: state == SvcState::Stopped });
    r.push(MenuEntry { command: Command::Stop, enabled: running });
    r.push(MenuEntry { command: Command::OpenPanel, enabled: state != SvcState::Offline });
    r.push(MenuEntry { command: Command::Separate, enabled: false });
    r.push(MenuEntry { command: Command::Quit, enabled: true });
    assert(r@ =~= menu_commands().map_values(
        |c: Command| MenuEntry { command: c, enabled: offered(state, c) },
    ));
    r
}

/// The text of a command in the menu; `shown` is what the service is doing.
pub open spec fn command_label(c: Command, shown: Seq<char>) -> Seq<char> {
    match c {
        Command::Show => shown,
        Command::Separate => Seq::empty(),
        Command::GoLive => "Go live (last settings)"@,
        Command::Stop => "Stop"@,
        Command::OpenPanel => "Open control panel"@,
        Command::Quit => "Quit tray"@,
    }
}

/// The text of a command in the menu.
pub fn label(c: Command, shown: &str) -> (r: String)
    ensures
        r@ == command_label(c, shown@),
{
    match c {
        Command::Show => copy(shown),
        Command::Separate => {
            let r = String::new();
            assert(r@ =~= Seq::<char>::empty());
            r
        },
        Command::GoLive => copy("Go live (last settings)"),
        Command::Stop => copy("Stop"),
        Command::OpenPanel => copy("Open control panel"),
        Command::Quit => copy("Quit tray"),
    }
}

/// Where the service on a port of this machine answers.
pub fn base_url(port: u16) -> (r: String)
    ensures
        r@ == "http://127.0.0.1:"@ + text::decimal(port as nat),
{
    let mut r = copy("http://127.0.0.1:");
    append(&mut r, text::write_decimal(port as u64).as_str());
    r
}

} // verus!
