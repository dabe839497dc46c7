//! Capture devices: what they offer, which one is meant, and which mode is
//! closest to the one that was asked for.

use crate::pixels::{decode_mjpg, nv12_to_bgra, yuyv_to_bgra, FrameError};
use crate::single::Single;
use crate::text::{append, copy, equal, first_hit};
use crate::{order, pixels, single, text};
use vstd::prelude::*;
use vstd::string::StringSliceAdditionalSpecFns;

verus! {

/// The frame rate below which two rates count as the same: 0.11.
pub const NEAR: u32 = 0x3de1_47ae;

/// The number ten.
pub const TEN: u32 = 0x4120_0000;

/// A capture mode: pixel format, size and frame rate.
#[derive(Clone, Debug)]
pub struct Mode {
    pub fourcc: String,
    pub width: u32,
    pub height: u32,
    pub fps: Single,
}

/// A capture mode, as a value.
pub struct ModeView {
    pub fourcc: Seq<char>,
    pub width: u32,
    pub height: u32,
    pub fps: Single,
}

impl View for Mode {
    type V = ModeView;

    open spec fn view(&self) -> ModeView {
        ModeView { fourcc: self.fourcc@, width: self.width, height: self.height, fps: self.fps }
    }
}

impl Mode {
    /// A mode with the same values.
    pub fn duplicate(&self) -> (r: Mode)
        ensures
            r@ == self@,
    {
        Mode { fourcc: self.fourcc.clone(), width: self.width, height: self.height, fps: self.fps }
    }
}

/// A capture device and the modes that it offers.
#[derive(Clone, Debug)]
pub struct DeviceInfo {
    pub path: String,
    pub card: String,
    pub bus: String,
    pub modes: Vec<Mode>,
}

/// A capture device, as a value.
pub struct DeviceView {
    pub path: Seq<char>,
    pub card: Seq<char>,
    pub bus: Seq<char>,
    pub modes: Seq<ModeView>,
}

/// The values of a list of modes.
pub open spec fn mode_views(modes: Seq<Mode>) -> Seq<ModeView> {
    modes.map_values(|m: Mode| m@)
}

/// The values of a list of devices.
pub open spec fn device_views(devices: Seq<DeviceInfo>) -> Seq<DeviceView> {
    devices.map_values(|d: DeviceInfo| d@)
}

impl View for DeviceInfo {
    type V = DeviceView;

    open spec fn view(&self) -> DeviceView {
        DeviceView {
            path: self.path@,
            card: self.card@,
            bus: self.bus@,
            modes: mode_views(self.modes@),
        }
    }
}

/// The pixel formats that can be decoded in-process. NDI takes uncompressed
/// frames, so a compressed format needs a decoder; H264 has none here.
pub open spec fn decodes(fourcc: Seq<char>) -> bool {
    ||| fourcc == "MJPG"@
    ||| fourcc == "JPEG"@
    ||| fourcc == "YUYV"@
    ||| fourcc == "NV12"@
}

/// Whether frames in this pixel format can be decoded.
pub fn decodable(fourcc: &str) -> (r: bool)
    ensures
        r == decodes(fourcc@),
{
    equal(fourcc, "MJPG") || equal(fourcc, "JPEG") || equal(fourcc, "YUYV") || equal(fourcc, "NV12")
}

/// A frame area, in the 32 bits that it is computed in.
pub open spec fn area(width: u32, height: u32) -> int {
    (width * height) % 0x1_0000_0000
}

/// A frame area, in the 32 bits that it is computed in.
pub fn frame_area(width: u32, height: u32) -> (r: i64)
    ensures
        r == area(width, height),
        0 <= r < 0x1_0000_0000,
{
    proof {
        assert(width * height <= 0xffff_ffff * 0xffff_ffff) by (nonlinear_arith)
            requires
                0 <= width <= 0xffff_ffff,
                0 <= height <= 0xffff_ffff,
        ;
    }
    ((width as u64 * height as u64) % 0x1_0000_0000) as i64
}

/// Whether `m` is the requested mode, with its frame rate close enough.
pub open spec fn same_mode(
    m: ModeView,
    fourcc: Seq<char>,
    width: u32,
    height: u32,
    fps: Single,
) -> bool {
    &&& m.fourcc == fourcc
    &&& m.width == width
    &&& m.height == height
    &&& m.fps.gap_bits(fps) < NEAR
}

/// Whether a request is honored as it is: it can be decoded, and the device
/// lists it or lists nothing.
pub open spec fn honored(
    modes: Seq<ModeView>,
    fourcc: Seq<char>,
    width: u32,
    height: u32,
    fps: Single,
) -> bool {
    &&& decodes(fourcc)
    &&& modes.len() == 0 || exists|i: int|
        0 <= i < modes.len() && same_mode(#[trigger] modes[i], fourcc, width, height, fps)
}

/// Whether some mode has this pixel format and can be decoded.
pub open spec fn format_offered(modes: Seq<ModeView>, fourcc: Seq<char>) -> bool {
    exists|i: int|
        0 <= i < modes.len() && #[trigger] modes[i].fourcc == fourcc && decodes(modes[i].fourcc)
}

/// Whether a mode can stand in for a request: it can be decoded, and it has
/// the requested pixel format where some decodable mode has it.
pub open spec fn stands_in(modes: Seq<ModeView>, fourcc: Seq<char>, m: ModeView) -> bool {
    &&& decodes(m.fourcc)
    &&& format_offered(modes, fourcc) ==> m.fourcc == fourcc
}

/// How far a mode is from a request, from the weightiest part down: another
/// pixel format than MJPG, the difference in area, the difference in frame
/// rate in tenths.
pub struct Distance {
    pub other_format: bool,
    pub area: int,
    pub tenths: int,
}

/// How far a mode is from a request.
pub open spec fn distance(m: ModeView, width: u32, height: u32, fps: Single) -> Distance {
    let gap = Single { bits: m.fps.gap_bits(fps) as u32 };
    Distance {
        other_format: m.fourcc != "MJPG"@,
        area: single::size(area(m.width, m.height) - area(width, height)) as int,
        tenths: Single { bits: gap.times_bits(Single { bits: TEN }) as u32 }.truncated_i64(),
    }
}

/// Whether one distance is smaller than another.
pub open spec fn closer(a: Distance, b: Distance) -> bool {
    if a.other_format != b.other_format {
        b.other_format
    } else if a.area != b.area {
        a.area < b.area
    } else {
        a.tenths < b.tenths
    }
}

/// Whether the mode at `i` is the first of those that stand in for the request
/// at the smallest distance.
pub open spec fn is_closest(
    modes: Seq<ModeView>,
    fourcc: Seq<char>,
    width: u32,
    height: u32,
    fps: Single,
    i: int,
) -> bool {
    let d = distance(modes[i], width, height, fps);
    &&& 0 <= i < modes.len()
    &&& stands_in(modes, fourcc, modes[i])
    &&& forall|j: int|
        0 <= j < modes.len() && stands_in(modes, fourcc, #[trigger] modes[j]) ==> {
            let e = distance(modes[j], width, height, fps);
            if j < i {
                closer(d, e)
            } else {
                !closer(e, d)
            }
        }
}

/// The mode for a request: the request itself where it is honored, else the
/// closest mode that can be decoded, else the request in a pixel format that
/// can be decoded.
pub open spec fn picked(
    modes: Seq<ModeView>,
    fourcc: Seq<char>,
    width: u32,
    height: u32,
    fps: Single,
) -> ModeView {
    if honored(modes, fourcc, width, height, fps) {
        ModeView { fourcc, width, height, fps }
    } else if exists|i: int| is_closest(modes, fourcc, width, height, fps, i) {
        modes[choose|i: int| is_closest(modes, fourcc, width, height, fps, i)]
    } else {
        ModeView {
            fourcc: if decodes(fourcc) {
                fourcc
            } else {
                "MJPG"@
            },
            width,
            height,
            fps,
        }
    }
}

/// Only one mode is the closest.
pub proof fn closest_unique(
    modes: Seq<ModeView>,
    fourcc: Seq<char>,
    width: u32,
    height: u32,
    fps: Single,
    i: int,
    j: int,
)
    requires
        is_closest(modes, fourcc, width, height, fps, i),
        is_closest(modes, fourcc, width, height, fps, j),
    ensures
        i == j,
{
}

/// A distance that exec code compares.
struct Key {
    other_format: bool,
    area: i64,
    tenths: i64,
}

impl Key {
    spec fn distance(self) -> Distance {
        Distance {
            other_format: self.other_format,
            area: self.area as int,
            tenths: self.tenths as int,
        }
    }
}

fn key_of(m: &Mode, want_area: i64, fps: Single, Ghost(width): Ghost<u32>, Ghost(height): Ghost<u32>) -> (k: Key)
    requires
        want_area == area(width, height),
        0 <= want_area < 0x1_0000_0000,
    ensures
        k.distance() == distance(m@, width, height, fps),
{
    let have = frame_area(m.width, m.height);
    let gap = m.fps.gap(fps);
    let ten = Single::from_bits(TEN);
    proof {
        single::units_grow(0, ten.magnitude());
    }
    Key {
        other_format: !equal(m.fourcc.as_str(), "MJPG"),
        area: if have >= want_area {
            have - want_area
        } else {
            want_area - have
        },
        tenths: gap.times(ten).to_i64(),
    }
}

fn key_closer(a: &Key, b: &Key) -> (r: bool)
    ensures
        r == closer(a.distance(), b.distance()),
{
    if a.other_format != b.other_format {
        b.other_format
    } else if a.area != b.area {
        a.area < b.area
    } else {
        a.tenths < b.tenths
    }
}

/// Honors the requested mode when it is supported; otherwise picks the closest
/// decodable one.
pub fn pick_mode(dev: &DeviceInfo, fourcc: &str, width: u32, height: u32, fps: Single) -> (r: Mode)
    ensures
        r@ == picked(dev@.modes, fourcc@, width, height, fps),
{
    let ghost modes = dev@.modes;
    let known = decodable(fourcc);
    let n = dev.modes.len();
    let mut listed = false;
    let mut offered = false;
    let mut i: usize = 0;
    while i < n
        invariant
            n == dev.modes@.len(),
            i <= n,
            modes == mode_views(dev.modes@),
            listed == exists|j: int|
                0 <= j < i && same_mode(#[trigger] modes[j], fourcc@, width, height, fps),
            offered == exists|j: int|
                0 <= j < i && #[trigger] modes[j].fourcc == fourcc@ && decodes(modes[j].fourcc),
        decreases n - i,
    {
        let m = &dev.modes[i];
        assert(modes[i as int] == m@);
        if equal(m.fourcc.as_str(), fourcc) {
            if m.width == width && m.height == height && m.fps.gap(fps).bits < NEAR {
                listed = true;
            }
            if decodable(m.fourcc.as_str()) {
                offered = true;
            }
        }
        i += 1;
    }
    if known && (n == 0 || listed) {
        return Mode { fourcc: copy(fourcc), width, height, fps };
    }
    let want_area = frame_area(width, height);
    let mut best: Option<(usize, Key)> = None;
    let mut i: usize = 0;
    while i < n
        invariant
            n == dev.modes@.len(),
            i <= n,
            modes == mode_views(dev.modes@),
            offered == format_offered(modes, fourcc@),
            want_area == area(width, height),
            0 <= want_area < 0x1_0000_0000,
            match best {
                None => forall|j: int|
                    0 <= j < i ==> !stands_in(modes, fourcc@, #[trigger] modes[j]),
                Some((b, k)) => {
                    &&& b < i
                    &&& stands_in(modes, fourcc@, modes[b as int])
                    &&& k.distance() == distance(modes[b as int], width, height, fps)
                    &&& forall|j: int|
                        0 <= j < i && stands_in(modes, fourcc@, #[trigger] modes[j]) ==> {
                            let e = distance(modes[j], width, height, fps);
                            if j < b {
                                closer(k.distance(), e)
                            } else {
                                !closer(e, k.distance())
                            }
                        }
                },
            },
        decreases n - i,
    {
        let m = &dev.modes[i];
        assert(modes[i as int] == m@);
        if decodable(m.fourcc.as_str()) && (!offered || equal(m.fourcc.as_str(), fourcc)) {
            let k = key_of(m, want_area, fps, Ghost(width), Ghost(height));
            let better = match &best {
                None => true,
                Some((_, held)) => key_closer(&k, held),
            };
            if better {
                best = Some((i, k));
            }
        }
        i += 1;
    }
    match best {
        Some((b, _)) => {
            proof {
                assert(is_closest(modes, fourcc@, width, height, fps, b as int));
                closest_unique(
                    modes,
                    fourcc@,
                    width,
                    height,
                    fps,
                    b as int,
                    choose|i: int| is_closest(modes, fourcc@, width, height, fps, i),
                );
            }
            dev.modes[b].duplicate()
        },
        None => Mode {
            fourcc: if known {
                copy(fourcc)
            } else {
                copy("MJPG")
            },
            width,
            height,
            fps,
        },
    }
}

/// The mode for a request can always be decoded.
pub proof fn picked_decodes(
    modes: Seq<ModeView>,
    fourcc: Seq<char>,
    width: u32,
    height: u32,
    fps: Single,
)
    ensures
        decodes(picked(modes, fourcc, width, height, fps).fourcc),
{
}

/// Where some mode can be decoded and the request is not honored, the mode for
/// it is one that the device lists.
pub proof fn picked_is_listed(
    modes: Seq<ModeView>,
    fourcc: Seq<char>,
    width: u32,
    height: u32,
    fps: Single,
)
    requires
        exists|i: int| 0 <= i < modes.len() && decodes((#[trigger] modes[i]).fourcc),
        !honored(modes, fourcc, width, height, fps),
    ensures
        modes.contains(picked(modes, fourcc, width, height, fps)),
{
    let some = choose|i: int| 0 <= i < modes.len() && decodes((#[trigger] modes[i]).fourcc);
    some_mode_is_closest(modes, fourcc, width, height, fps, some);
}

/// Where some mode can be decoded, one is the closest.
pub proof fn some_mode_is_closest(
    modes: Seq<ModeView>,
    fourcc: Seq<char>,
    width: u32,
    height: u32,
    fps: Single,
    some: int,
)
    requires
        0 <= some < modes.len(),
        decodes(modes[some].fourcc),
    ensures
        exists|i: int| is_closest(modes, fourcc, width, height, fps, i),
{
    if format_offered(modes, fourcc) {
        let i = choose|i: int|
            0 <= i < modes.len() && #[trigger] modes[i].fourcc == fourcc && decodes(
                modes[i].fourcc,
            );
        assert(stands_in(modes, fourcc, modes[i]));
        closest_exists(modes, fourcc, width, height, fps, modes.len() as int, i);
    } else {
        assert(stands_in(modes, fourcc, modes[some]));
        closest_exists(modes, fourcc, width, height, fps, modes.len() as int, some);
    }
}

/// Whether the mode at `i` is the closest of the first `n`.
spec fn closest_of(
    modes: Seq<ModeView>,
    fourcc: Seq<char>,
    width: u32,
    height: u32,
    fps: Single,
    n: int,
    i: int,
) -> bool {
    let d = distance(modes[i], width, height, fps);
    &&& 0 <= i < n
    &&& stands_in(modes, fourcc, modes[i])
    &&& forall|j: int|
        0 <= j < n && stands_in(modes, fourcc, #[trigger] modes[j]) ==> {
            let e = distance(modes[j], width, height, fps);
            if j < i {
                closer(d, e)
            } else {
                !closer(e, d)
            }
        }
}

#[verifier::spinoff_prover]
#[verifier::rlimit(40)]
proof fn closest_of_exists(
    modes: Seq<ModeView>,
    fourcc: Seq<char>,
    width: u32,
    height: u32,
    fps: Single,
    n: int,
    at: int,
)
    requires
        0 <= at < n <= modes.len(),
        stands_in(modes, fourcc, modes[at]),
    ensures
        exists|i: int| closest_of(modes, fourcc, width, height, fps, n, i),
    decreases n,
{
    let last = n - 1;
    if exists|k: int| 0 <= k < last && stands_in(modes, fourcc, #[trigger] modes[k]) {
        let k = choose|k: int| 0 <= k < last && stands_in(modes, fourcc, #[trigger] modes[k]);
        closest_of_exists(modes, fourcc, width, height, fps, last, k);
        let i = choose|i: int| closest_of(modes, fourcc, width, height, fps, last, i);
        if stands_in(modes, fourcc, modes[last]) && closer(
            distance(modes[last], width, height, fps),
            distance(modes[i], width, height, fps),
        ) {
            assert(closest_of(modes, fourcc, width, height, fps, n, last));
        } else {
            assert(closest_of(modes, fourcc, width, height, fps, n, i));
        }
    } else {
        assert(at == last);
        assert(closest_of(modes, fourcc, width, height, fps, n, last));
    }
}

proof fn closest_exists(
    modes: Seq<ModeView>,
    fourcc: Seq<char>,
    width: u32,
    height: u32,
    fps: Single,
    n: int,
    at: int,
)
    requires
        n == modes.len(),
        0 <= at < n,
        stands_in(modes, fourcc, modes[at]),
    ensures
        exists|i: int| is_closest(modes, fourcc, width, height, fps, i),
{
    closest_of_exists(modes, fourcc, width, height, fps, n, at);
    let i = choose|i: int| closest_of(modes, fourcc, width, height, fps, n, i);
    assert(is_closest(modes, fourcc, width, height, fps, i));
}

/// Picking a mode for the mode that was picked gives it again. A listed mode
/// needs a finite frame rate for that.
pub proof fn picking_settles(
    modes: Seq<ModeView>,
    fourcc: Seq<char>,
    width: u32,
    height: u32,
    fps: Single,
)
    requires
        ({
            let m = picked(modes, fourcc, width, height, fps);
            modes.contains(m) ==> m.fps.is_finite()
        }),
    ensures
        ({
            let m = picked(modes, fourcc, width, height, fps);
            picked(modes, m.fourcc, m.width, m.height, m.fps) == m
        }),
{
    let m = picked(modes, fourcc, width, height, fps);
    if !honored(modes, fourcc, width, height, fps) {
        if exists|i: int| 0 <= i < modes.len() && decodes((#[trigger] modes[i]).fourcc) {
            picked_is_listed(modes, fourcc, width, height, fps);
            picked_decodes(modes, fourcc, width, height, fps);
            let i = choose|i: int| 0 <= i < modes.len() && modes[i] == m;
            single::units_grow_one(0);
            single::nearest_exact(0);
            assert(same_mode(modes[i], m.fourcc, m.width, m.height, m.fps));
        }
    }
}

/// Why no capture device could be chosen.
#[derive(Clone, Debug)]
pub enum DeviceError {
    NoDevices,
    NotCapture(String),
    NoIndex(u32),
    NoMatch(String),
}

impl DeviceError {
    /// What is reported to the user.
    pub open spec fn report(self) -> Seq<char> {
        match self {
            DeviceError::NoDevices => "no video capture devices found (check /dev/video*)"@,
            DeviceError::NotCapture(spec) => spec@ + " is not a capture device"@,
            DeviceError::NoIndex(idx) => "no capture device with index "@ + text::decimal(
                idx as nat,
            ),
            DeviceError::NoMatch(spec) => "no capture device matching "@ + text::quoted(spec@),
        }
    }

    /// What is reported to the user.
    pub fn message(&self) -> (r: String)
        ensures
            r@ == self.report(),
    {
        match self {
            DeviceError::NoDevices => copy("no video capture devices found (check /dev/video*)"),
            DeviceError::NotCapture(spec) => {
                let mut r = spec.clone();
                append(&mut r, " is not a capture device");
                r
            },
            DeviceError::NoIndex(idx) => {
                let mut r = copy("no capture device with index ");
                append(&mut r, text::write_decimal(*idx as u64).as_str());
                r
            },
            DeviceError::NoMatch(spec) => {
                let mut r = copy("no capture device matching ");
                append(&mut r, text::quote(spec.as_str()).as_str());
                r
            },
        }
    }
}

/// How a device is asked for.
pub enum Wanted {
    /// By the end of its path.
    Path(Seq<char>),
    /// By its index.
    Index(u32),
    /// By a part of its card name, in lowercase.
    Card(Seq<char>),
}

/// How a device is asked for: a path under `/dev/`, an index, or a part of the
/// card name.
pub open spec fn wanted(spec: Seq<char>) -> Wanted {
    match text::after_prefix(spec, "/dev/"@) {
        Some(path) => Wanted::Path(path),
        None => match text::number(spec) {
            Some(idx) => Wanted::Index(idx),
            None => Wanted::Card(text::lowercase(spec)),
        },
    }
}

/// Whether a device is the one that is asked for.
pub open spec fn device_matches(w: Wanted) -> spec_fn(DeviceView) -> bool {
    |d: DeviceView|
        match w {
            Wanted::Path(path) => text::has_suffix(d.path, path),
            Wanted::Index(idx) => text::has_suffix(d.path, "video"@ + text::decimal(idx as nat)),
            Wanted::Card(part) => text::occurs(text::lowercase(d.card), part),
        }
}

/// The index of the device that is asked for, or the number of devices where
/// there is none.
pub open spec fn device_found(devices: Seq<DeviceView>, spec: Option<Seq<char>>) -> int {
    match spec {
        None => 0,
        Some(spec) => order::first(devices, device_matches(wanted(spec))),
    }
}

/// The first device whose path ends in `end`, or the number of devices.
fn find_path(devices: &Vec<DeviceInfo>, end: &str, Ghost(w): Ghost<Wanted>) -> (at: usize)
    requires
        match w {
            Wanted::Path(path) => end@ == path,
            Wanted::Index(idx) => end@ == "video"@ + text::decimal(idx as nat),
            Wanted::Card(_) => false,
        },
    ensures
        at <= devices@.len(),
        at == order::first(device_views(devices@), device_matches(w)),
{
    let ghost views = device_views(devices@);
    let ghost p = device_matches(w);
    let mut i: usize = 0;
    while i < devices.len()
        invariant
            i <= devices@.len(),
            views == device_views(devices@),
            p == device_matches(w),
            match w {
                Wanted::Path(path) => end@ == path,
                Wanted::Index(idx) => end@ == "video"@ + text::decimal(idx as nat),
                Wanted::Card(_) => false,
            },
            forall|k: int| 0 <= k < i ==> !p(#[trigger] views[k]),
        decreases devices.len() - i,
    {
        assert(views[i as int] == devices@[i as int]@);
        if text::ends_with(devices[i].path.as_str(), end) {
            proof {
                order::first_is(views, p, i as int);
            }
            return i;
        }
        i += 1;
    }
    proof {
        order::first_is(views, p, views.len() as int);
    }
    i
}

/// The card names of devices, in lowercase.
fn lowercase_cards(devices: &Vec<DeviceInfo>) -> (r: Vec<String>)
    ensures
        text::texts_of(r@) == device_views(devices@).map_values(
            |d: DeviceView| text::lowercase(d.card),
        ),
{
    let ghost want = device_views(devices@).map_values(|d: DeviceView| text::lowercase(d.card));
    let mut r: Vec<String> = Vec::new();
    let mut i: usize = 0;
    assert(text::texts_of(r@) =~= want.take(0));
    while i < devices.len()
        invariant
            i <= devices@.len(),
            want == device_views(devices@).map_values(|d: DeviceView| text::lowercase(d.card)),
            text::texts_of(r@) == want.take(i as int),
        decreases devices.len() - i,
    {
        let low = devices[i].card.as_str().to_lowercase();
        let ghost before = text::texts_of(r@);
        let ghost added = low@;
        r.push(low);
        proof {
            assert(device_views(devices@)[i as int] == devices@[i as int]@);
            assert(want[i as int] == added);
            assert(text::texts_of(r@) =~= before.push(added));
            assert(want.take(i + 1) =~= want.take(i as int).push(added));
        }
        i += 1;
    }
    assert(want.take(want.len() as int) =~= want);
    r
}

/// The first device with `part` in its card name, both in lowercase, or the
/// number of devices.
fn find_card(devices: &Vec<DeviceInfo>, part: &str) -> (at: usize)
    ensures
        at <= devices@.len(),
        at == order::first(device_views(devices@), device_matches(Wanted::Card(part@))),
{
    let names = lowercase_cards(devices);
    let at = first_hit(&names, part);
    proof {
        let views = device_views(devices@);
        let texts = text::texts_of(names@);
        let p = device_matches(Wanted::Card(part@));
        let q = text::holds(part@);
        assert(views.len() == texts.len());
        order::first_means(texts, q);
        assert forall|k: int| 0 <= k < views.len() implies p(#[trigger] views[k]) == q(texts[k]) by {
            assert(texts[k] == text::lowercase(views[k].card));
        }
        order::first_is(views, p, at as int);
    }
    at
}

/// The device that is asked for: by path, by index, by a part of its card
/// name, or the first one.
pub fn resolve_device(devices: Vec<DeviceInfo>, spec: Option<&str>) -> (r: Result<
    DeviceInfo,
    DeviceError,
>)
    ensures
        ({
            let views = device_views(devices@);
            let at = device_found(views, text::opt_str_view(spec));
            match r {
                Ok(d) => at < views.len() && d@ == views[at],
                Err(e) => at >= views.len() && if views.len() == 0 {
                    e is NoDevices
                } else {
                    match wanted(spec->0@) {
                        Wanted::Path(_) => e matches DeviceError::NotCapture(s) && s@ == spec->0@,
                        Wanted::Index(idx) => e == DeviceError::NoIndex(idx),
                        Wanted::Card(_) => e matches DeviceError::NoMatch(s) && s@ == spec->0@,
                    }
                },
            }
        }),
{
    let ghost views = device_views(devices@);
    let mut devices = devices;
    if devices.len() == 0 {
        return Err(DeviceError::NoDevices);
    }
    let spec = match spec {
        None => {
            assert(views[0] == devices@[0]@);
            return Ok(devices.remove(0));
        },
        Some(spec) => spec,
    };
    if let Some(path) = text::strip_prefix(spec, "/dev/") {
        let i = find_path(&devices, path.as_str(), Ghost(wanted(spec@)));
        return if i < devices.len() {
            assert(views[i as int] == devices@[i as int]@);
            Ok(devices.remove(i))
        } else {
            Err(DeviceError::NotCapture(copy(spec)))
        };
    }
    if let Some(idx) = text::parse_number(spec) {
        let mut end = copy("video");
        append(&mut end, text::write_decimal(idx as u64).as_str());
        let i = find_path(&devices, end.as_str(), Ghost(wanted(spec@)));
        return if i < devices.len() {
            assert(views[i as int] == devices@[i as int]@);
            Ok(devices.remove(i))
        } else {
            Err(DeviceError::NoIndex(idx))
        };
    }
    let needle = spec.to_lowercase();
    let i = find_card(&devices, needle.as_str());
    if i < devices.len() {
        assert(views[i as int] == devices@[i as int]@);
        Ok(devices.remove(i))
    } else {
        Err(DeviceError::NoMatch(copy(spec)))
    }
}

/// The four bytes of a pixel format, or those of MJPG where it has not four.
pub open spec fn code_bytes(fourcc: &str) -> Seq<u8> {
    if fourcc.spec_bytes().len() == 4 {
        fourcc.spec_bytes()
    } else {
        seq![77u8, 74u8, 80u8, 71u8]
    }
}

/// The four bytes of a pixel format, or those of MJPG where it has not four.
pub fn fourcc_bytes(fourcc: &str) -> (r: [u8; 4])
    ensures
        r@ == code_bytes(fourcc),
{
    let b = fourcc.as_bytes();
    let r = if b.len() == 4 {
        [b[0], b[1], b[2], b[3]]
    } else {
        [77u8, 74u8, 80u8, 71u8]
    };
    assert(r@ =~= code_bytes(fourcc));
    r
}

/// The whole frame rate that a device is set to: the rounded rate, at least
/// one, at most what 32 bits hold.
pub open spec fn device_rate(fps: Single) -> int {
    let n = fps.rounded_i64();
    if n < 1 {
        1
    } else if n > u32::MAX {
        u32::MAX as int
    } else {
        n
    }
}

/// The whole frame rate that a device is set to.
pub fn capture_rate(fps: Single) -> (r: u32)
    ensures
        r == device_rate(fps),
{
    let n = fps.round_to_i64();
    if n < 1 {
        1
    } else if n > u32::MAX as i64 {
        u32::MAX
    } else {
        n as u32
    }
}

/// What came of asking for a frame.
#[derive(Clone, Copy, Debug, PartialEq, Eq, Structural)]
pub enum ReadOutcome {
    Frame,
    Timeout,
}

/// A camera as it was opened: what it sends, and how fast.
#[derive(Clone, Debug)]
pub struct Camera {
    pub width: u32,
    pub height: u32,
    pub fps: Single,
    pub fourcc: String,
}

/// The BGRA image that the bytes of a frame stand for, or why there is none.
pub open spec fn frame_image(
    fourcc: Seq<char>,
    width: u32,
    height: u32,
    bytes: Seq<u8>,
) -> Result<Seq<u8>, Seq<char>> {
    if fourcc == "MJPG"@ || fourcc == "JPEG"@ {
        match pixels::jpeg_as_bgra(bytes) {
            Some(image) => Ok(image),
            None => Err("mjpeg decode failed"@),
        }
    } else if fourcc == "YUYV"@ {
        if bytes.len() < pixels::yuyv_need(width, height) {
            Err("short YUYV frame"@)
        } else {
            Ok(pixels::yuyv_as_bgra(bytes))
        }
    } else if fourcc == "NV12"@ {
        if pixels::nv12_short(bytes.len(), width, height) {
            Err("short NV12 frame"@)
        } else {
            Ok(pixels::nv12_as_bgra(bytes, width, height))
        }
    } else {
        Err("unsupported capture format "@ + fourcc)
    }
}

/// Whether the bytes of a frame can be converted, or be refused: the NV12
/// frames with an odd side may lack their last chroma pair.
pub open spec fn frame_readable(
    fourcc: Seq<char>,
    width: u32,
    height: u32,
    len: nat,
) -> bool {
    fourcc == "NV12"@ ==> pixels::nv12_short(len, width, height) || pixels::nv12_chroma(
        len,
        width,
        height,
    )
}

/// Every frame can be converted, or be refused, where both sides are even.
pub proof fn even_frames_are_readable(fourcc: Seq<char>, width: u32, height: u32, len: nat)
    requires
        width % 2 == 0,
        height % 2 == 0,
    ensures
        frame_readable(fourcc, width, height, len),
{
    if !pixels::nv12_short(len, width, height) {
        pixels::even_frames_hold_chroma(len, width, height);
    }
}

impl Camera {
    /// A camera that was opened with a requested frame rate, and answered with
    /// what it sends.
    pub fn open(fps: Single, width: u32, height: u32, fourcc: &str) -> (r: Camera)
        ensures
            r.width == width,
            r.height == height,
            r.fps == fps,
            r.fourcc@ == fourcc@,
    {
        Camera { width, height, fps, fourcc: copy(fourcc) }
    }

    /// Whether the bytes of a frame can be converted, or be refused.
    pub fn readable(&self, len: usize) -> (r: bool)
        ensures
            r == frame_readable(self.fourcc@, self.width, self.height, len as nat),
    {
        !equal(self.fourcc.as_str(), "NV12") || pixels::nv12_readable(len, self.width, self.height)
    }

    /// Converts the frame that was received into BGRA in `dst`. Without a frame,
    /// or where it cannot be converted, `dst` stays as it was.
    pub fn read_bgra(&self, received: Option<&[u8]>, dst: &mut Vec<u8>) -> (r: Result<
        ReadOutcome,
        FrameError,
    >)
        requires
            match received {
                Some(bytes) => frame_readable(self.fourcc@, self.width, self.height, bytes@.len()),
                None => true,
            },
        ensures
            (match received {
                None => r == Ok::<ReadOutcome, FrameError>(ReadOutcome::Timeout) && final(dst)@
                    == old(dst)@,
                Some(bytes) => match frame_image(
                    self.fourcc@,
                    self.width,
                    self.height,
                    bytes@,
                ) {
                    Ok(image) => {
                        &&& r == Ok::<ReadOutcome, FrameError>(ReadOutcome::Frame)
                        &&& final(dst)@ == image
                    },
                    Err(report) => {
                        &&& r is Err
                        &&& r->Err_0.report() == report
                        &&& final(dst)@ == old(dst)@
                    },
                },
            }),
    {
        let bytes = match received {
            None => {
                return Ok(ReadOutcome::Timeout);
            },
            Some(bytes) => bytes,
        };
        let fourcc = self.fourcc.as_str();
        let done = if equal(fourcc, "MJPG") || equal(fourcc, "JPEG") {
            decode_mjpg(bytes, dst)
        } else if equal(fourcc, "YUYV") {
            yuyv_to_bgra(bytes, dst, self.width, self.height)
        } else if equal(fourcc, "NV12") {
            nv12_to_bgra(bytes, dst, self.width, self.height)
        } else {
            Err(FrameError::Unsupported(copy(fourcc)))
        };
        match done {
            Ok(()) => Ok(ReadOutcome::Frame),
            Err(e) => Err(e),
        }
    }
}

/// An index asks for the same device as the path with that index.
pub proof fn index_is_path(devices: Seq<DeviceView>, n: u32)
    ensures
        device_found(devices, Some(text::decimal(n as nat))) == device_found(
            devices,
            Some("/dev/video"@ + text::decimal(n as nat)),
        ),
{
    let digits = text::decimal(n as nat);
    let path = "/dev/video"@ + digits;
    reveal_strlit("/dev/video");
    reveal_strlit("/dev/");
    reveal_strlit("video");
    text::decimal_reads_back(n);
    assert(digits.len() > 0 && digits[0] != '/');
    assert(!text::stands_at(digits, 0, "/dev/"@)) by {
        if text::stands_at(digits, 0, "/dev/"@) {
            assert(digits[0] == "/dev/"@[0]);
        }
    }
    assert(path.subrange(0, 5) =~= "/dev/"@);
    assert(text::after_prefix(path, "/dev/"@) == Some("video"@ + digits)) by {
        assert(path.skip(5) =~= "video"@ + digits);
    }
    assert(device_matches(wanted(digits)) =~= device_matches(wanted(path)));
}

} // verus!
