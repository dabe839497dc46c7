//! Capture modes: which one a request comes to.

use crate::capture;
use crate::capture::{pick_mode, DeviceInfo, Mode, ModeView};
use crate::single::Single;
use vstd::prelude::*;

verus! {

/// Whether a pixel format is one of the four that can be decoded.
pub open spec fn known_format(fourcc: Seq<char>) -> bool {
    fourcc == "MJPG"@ || fourcc == "JPEG"@ || fourcc == "YUYV"@ || fourcc == "NV12"@
}

/// Whether two frame rates count as the same: they differ by less than 0.11, or
/// not at all.
pub open spec fn rates_agree(a: Single, b: Single) -> bool {
    a == b || a.gap_bits(b) < 0x3de1_47ae
}

/// Whether two modes have the same pixel format and size, at the same rate.
pub open spec fn modes_agree(a: ModeView, b: ModeView) -> bool {
    a.fourcc == b.fourcc && a.width == b.width && a.height == b.height && rates_agree(a.fps, b.fps)
}

/// Whether a device lists a mode that agrees with another one.
pub open spec fn listed(modes: Seq<ModeView>, m: ModeView) -> bool {
    exists|i: int| 0 <= i < modes.len() && modes_agree(#[trigger] modes[i], m)
}

/// Whether a device lists a mode that can be decoded.
pub open spec fn any_known(modes: Seq<ModeView>) -> bool {
    exists|i: int| 0 <= i < modes.len() && known_format((#[trigger] modes[i]).fourcc)
}

/// Where a device lists modes that can be decoded, only what it lists is picked:
/// its pixel format, its width, its height and its rate, whatever was asked for.
pub proof fn only_listed_modes_are_picked(
    dev: &DeviceInfo,
    fourcc: &str,
    width: u32,
    height: u32,
    fps: Single,
    r: Mode,
)
    requires
        call_ensures(pick_mode, (dev, fourcc, width, height, fps), r),
        any_known(dev@.modes),
    ensures
        listed(dev@.modes, r@),
{
    let modes = dev@.modes;
    let k = choose|i: int| 0 <= i < modes.len() && known_format((#[trigger] modes[i]).fourcc);
    assert(capture::decodes(modes[k].fourcc));
    if capture::honored(modes, fourcc@, width, height, fps) {
        let i = choose|i: int|
            0 <= i < modes.len() && capture::same_mode(
                #[trigger] modes[i],
                fourcc@,
                width,
                height,
                fps,
            );
        assert(modes_agree(modes[i], r@));
    } else {
        capture::picked_is_listed(modes, fourcc@, width, height, fps);
        let i = choose|i: int| 0 <= i < modes.len() && modes[i] == r@;
        assert(modes_agree(modes[i], r@));
    }
}

/// What is picked can be decoded.
pub proof fn picked_modes_decode(
    dev: &DeviceInfo,
    fourcc: &str,
    width: u32,
    height: u32,
    fps: Single,
    r: Mode,
)
    requires
        call_ensures(pick_mode, (dev, fourcc, width, height, fps), r),
    ensures
        known_format(r@.fourcc),
{
    capture::picked_decodes(dev@.modes, fourcc@, width, height, fps);
}

/// A request that can be decoded is honored as it is where the device lists it,
/// and where it lists nothing.
pub proof fn listed_requests_are_honored(
    dev: &DeviceInfo,
    fourcc: &str,
    width: u32,
    height: u32,
    fps: Single,
    r: Mode,
)
    requires
        call_ensures(pick_mode, (dev, fourcc, width, height, fps), r),
        known_format(fourcc@),
        dev@.modes.len() == 0 || exists|i: int|
            0 <= i < dev@.modes.len() && (#[trigger] dev@.modes[i]).fourcc == fourcc@
                && dev@.modes[i].width == width && dev@.modes[i].height == height
                && dev@.modes[i].fps.gap_bits(fps) < 0x3de1_47ae,
    ensures
        r@ == (ModeView { fourcc: fourcc@, width, height, fps }),
{
    let modes = dev@.modes;
    if modes.len() > 0 {
        let i = choose|i: int|
            0 <= i < modes.len() && (#[trigger] modes[i]).fourcc == fourcc@ && modes[i].width
                == width && modes[i].height == height && modes[i].fps.gap_bits(fps) < 0x3de1_47ae;
        assert(capture::same_mode(modes[i], fourcc@, width, height, fps));
    }
}

/// The pixel format that is asked for is kept where the device lists it and it
/// can be decoded.
pub proof fn offered_formats_are_kept(
    dev: &DeviceInfo,
    fourcc: &str,
    width: u32,
    height: u32,
    fps: Single,
    r: Mode,
    i: int,
)
    requires
        call_ensures(pick_mode, (dev, fourcc, width, height, fps), r),
        known_format(fourcc@),
        0 <= i < dev@.modes.len(),
        dev@.modes[i].fourcc == fourcc@,
    ensures
        r@.fourcc == fourcc@,
{
    let modes = dev@.modes;
    assert(capture::format_offered(modes, fourcc@));
    if !capture::honored(modes, fourcc@, width, height, fps) {
        assert(known_format(modes[i].fourcc));
        capture::picked_is_listed(modes, fourcc@, width, height, fps);
    }
}

/// Where nothing can be decoded on a device, the size and the rate are those
/// that were asked for, in MJPG where the format cannot be decoded either.
pub proof fn bare_devices_get_the_request(
    dev: &DeviceInfo,
    fourcc: &str,
    width: u32,
    height: u32,
    fps: Single,
    r: Mode,
)
    requires
        call_ensures(pick_mode, (dev, fourcc, width, height, fps), r),
        !any_known(dev@.modes),
    ensures
        r@.width == width && r@.height == height && r@.fps == fps,
        known_format(fourcc@) ==> r@.fourcc == fourcc@,
        !known_format(fourcc@) ==> r@.fourcc == "MJPG"@,
{
    let modes = dev@.modes;
    if exists|i: int| capture::is_closest(modes, fourcc@, width, height, fps, i) {
        let i = choose|i: int| capture::is_closest(modes, fourcc@, width, height, fps, i);
        assert(known_format(modes[i].fourcc));
    }
}

/// How many tenths two frame rates differ by.
pub open spec fn tenths_between(a: Single, b: Single) -> int {
    let gap = Single { bits: a.gap_bits(b) as u32 };
    Single { bits: gap.times_bits(Single { bits: 0x4120_0000 }) as u32 }.truncated_i64()
}

/// By how much two numbers differ.
pub open spec fn apart(a: int, b: int) -> int {
    if a >= b {
        a - b
    } else {
        b - a
    }
}

/// What stands in for a request is the closest of what the device lists: no
/// other mode that can be decoded, in the format that is asked for where that is
/// listed, comes before it. MJPG comes first, then the nearest area, then the
/// nearest rate.
#[verifier::spinoff_prover]
pub proof fn the_closest_mode_stands_in(
    dev: &DeviceInfo,
    fourcc: &str,
    width: u32,
    height: u32,
    fps: Single,
    r: Mode,
    j: int,
)
    requires
        call_ensures(pick_mode, (dev, fourcc, width, height, fps), r),
        r@ != (ModeView { fourcc: fourcc@, width, height, fps }),
        0 <= j < dev@.modes.len(),
        known_format(dev@.modes[j].fourcc),
        dev@.modes[j].fourcc == r@.fourcc || r@.fourcc != fourcc@,
        width * height <= u32::MAX,
        dev@.modes[j].width * dev@.modes[j].height <= u32::MAX,
        r@.width * r@.height <= u32::MAX,
    ensures
        ({
            let m = dev@.modes[j];
            let want = width * height;
            let (a, b) = (apart(r@.width * r@.height, want), apart(m.width * m.height, want));
            &&& m.fourcc == "MJPG"@ ==> r@.fourcc == "MJPG"@
            &&& (m.fourcc == "MJPG"@) == (r@.fourcc == "MJPG"@) ==> a <= b && (a == b
                ==> tenths_between(r@.fps, fps) <= tenths_between(m.fps, fps))
        }),
{
    let modes = dev@.modes;
    let m = modes[j];
    assert(capture::decodes(m.fourcc));
    assert(any_known(modes));
    assert(!capture::honored(modes, fourcc@, width, height, fps));
    capture::some_mode_is_closest(modes, fourcc@, width, height, fps, j);
    let i = choose|i: int| capture::is_closest(modes, fourcc@, width, height, fps, i);
    assert(modes[i] == r@);
    assert(capture::stands_in(modes, fourcc@, modes[i]));
    assert(capture::stands_in(modes, fourcc@, modes[j]));
    farther_is_not_closer(m, r@, width, height, fps, j < i);
}

proof fn area_is_product(width: u32, height: u32)
    requires
        width * height <= u32::MAX,
    ensures
        capture::area(width, height) == width * height,
{
    assert(width * height >= 0) by (nonlinear_arith)
        requires
            width >= 0,
            height >= 0,
    ;
    vstd::arithmetic::div_mod::lemma_small_mod((width * height) as nat, 0x1_0000_0000);
}

proof fn farther_is_not_closer(
    m: ModeView,
    r: ModeView,
    width: u32,
    height: u32,
    fps: Single,
    before: bool,
)
    requires
        ({
            let d = capture::distance(r, width, height, fps);
            let e = capture::distance(m, width, height, fps);
            if before {
                capture::closer(d, e)
            } else {
                !capture::closer(e, d)
            }
        }),
        width * height <= u32::MAX,
        m.width * m.height <= u32::MAX,
        r.width * r.height <= u32::MAX,
    ensures
        ({
            let want = width * height;
            let (a, b) = (apart(r.width * r.height, want), apart(m.width * m.height, want));
            &&& m.fourcc == "MJPG"@ ==> r.fourcc == "MJPG"@
            &&& (m.fourcc == "MJPG"@) == (r.fourcc == "MJPG"@) ==> a <= b && (a == b
                ==> tenths_between(r.fps, fps) <= tenths_between(m.fps, fps))
        }),
{
    area_is_product(width, height);
    area_is_product(m.width, m.height);
    area_is_product(r.width, r.height);
}

} // verus!
