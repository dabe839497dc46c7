//! What is shown: the tray, the status line, and the lists that are printed.

use crate::audio::AudioCard;
use crate::capture::{DeviceInfo, Mode};
use crate::engine::{show_size, Stats};
use crate::headless::{
    fallback_dir, runtime_dir, show_tally, state_dir, status_due, status_line,
};
use crate::listing::{card_line, device_line, group_modes, pad, ModeGroup};
use crate::ndi::advertised_name;
use crate::preview::wrap_image;
use crate::tray::{
    base_url, describe, menu, snapshot_of, state_icon, Command, MenuEntry, Snapshot, StateReply,
    SvcState,
};
use crate::web::{devices_stale, join, settings_path};
use crate::{capture, listing, preview, text};
use vstd::prelude::*;
use vstd::utf8;

verus! {

/// The tray shows what the service answers; without an answer it is offline, and
/// an unknown state counts as stopped.
pub proof fn the_tray_shows_the_service(reply: Option<&StateReply>, r: Snapshot)
    requires
        call_ensures(snapshot_of, (reply,), r),
    ensures
        reply is None <==> r.state == SvcState::Offline,
        reply matches Some(a) ==> {
            &&& r.fps == a.fps && r.viewers == a.viewers && r.audio == a.audio
            &&& r.state == SvcState::Live <==> a.state@ == "live"@
            &&& r.state == SvcState::Preview <==> a.state@ == "preview"@
        },
        reply is None ==> r.viewers == 0 && !r.audio,
{
    reveal_strlit("live");
    reveal_strlit("preview");
    assert("live"@.len() == 4 && "preview"@.len() == 7);
}

/// The menu offers what the service can do: go live only while it is stopped,
/// stop only while it runs, the panel unless it is offline, and quit always.
pub proof fn menus_offer_what_can_be_done(state: SvcState, r: Vec<MenuEntry>)
    requires
        call_ensures(menu, (state,), r),
    ensures
        r@.len() == 7,
        r@[0].command == Command::Show && !r@[0].enabled,
        r@[1].command == Command::Separate,
        r@[2].command == Command::GoLive && (r@[2].enabled <==> state == SvcState::Stopped),
        r@[3].command == Command::Stop && (r@[3].enabled <==> state == SvcState::Preview || state
            == SvcState::Live),
        r@[4].command == Command::OpenPanel && (r@[4].enabled <==> state != SvcState::Offline),
        r@[5].command == Command::Separate,
        r@[6].command == Command::Quit && r@[6].enabled,
{
}

/// A live service is described by its rate, its viewers and its audio; a preview
/// by its rate.
pub proof fn services_are_described(s: Snapshot, fps: &str, r: String)
    requires
        call_ensures(describe, (s, fps), r),
    ensures
        s.state == SvcState::Offline ==> r@ == "service offline"@,
        s.state == SvcState::Stopped ==> r@ == "stopped"@,
        s.state == SvcState::Preview ==> r@ == "previewing, "@ + fps@ + " fps"@,
        s.state == SvcState::Live && s.audio ==> r@ == "live, "@ + fps@ + " fps, "@ + text::decimal(
            s.viewers as nat,
        ) + " viewers, audio "@ + "on"@,
        s.state == SvcState::Live && !s.audio ==> r@ == "live, "@ + fps@ + " fps, "@
            + text::decimal(s.viewers as nat) + " viewers, audio "@ + "off"@,
{
}

/// The icons of two states have the same pixels but for the dot of a live one,
/// and offline is dimmer.
pub proof fn icons_tell_states(
    state: SvcState,
    r: Vec<u8>,
    stopped: Vec<u8>,
    i: int,
)
    requires
        call_ensures(state_icon, (state,), r),
        call_ensures(state_icon, (SvcState::Stopped,), stopped),
        0 <= i < 2304,
    ensures
        r@.len() == 2304 && stopped@.len() == 2304,
        state == SvcState::Preview ==> r@[i] == stopped@[i],
        state == SvcState::Offline && i % 4 == 0 ==> r@[i] == if stopped@[i] == 255 {
            90u8
        } else {
            0u8
        },
        state == SvcState::Offline && i % 4 != 0 ==> r@[i] == stopped@[i],
        state == SvcState::Live && stopped@[i] != 0 ==> r@[i] == stopped@[i],
        stopped@[i] == 0 || stopped@[i] == 255,
{
}

/// The panel is on this machine, at the port.
pub proof fn panels_have_an_address(port: u16, r: String)
    requires
        call_ensures(base_url, (port,), r),
    ensures
        r@ == "http://127.0.0.1:"@ + text::decimal(port as nat),
        text::number(text::decimal(port as nat)) == Some(port as u32),
{
    text::decimal_reads_back(port as u32);
}

/// The status line has the resolution, the format, the rate, the viewers, the
/// tally and the source, in this order.
pub proof fn status_lines_tell_all(s: &Stats, fps: &str, r: String, tally: String)
    requires
        call_ensures(status_line, (s, fps), r),
        call_ensures(show_tally, (s.tally,), tally),
    ensures
        r@ == "\u{25cf} "@ + s.resolution@ + " "@ + s.fourcc@ + " | "@ + fps@ + " fps | viewers "@
            + text::decimal(s.viewers as nat) + " | tally "@ + tally@ + " | "@ + s.source@,
        s.tally == Some((true, true)) ==> tally@ == "PGM/PRV"@,
        s.tally == Some((true, false)) ==> tally@ == "PGM"@,
        s.tally == Some((false, true)) ==> tally@ == "PRV"@,
        s.tally == Some((false, false)) || s.tally is None ==> tally@ == "--"@,
{
}

/// A status line comes every two seconds, unless it is quiet.
pub proof fn status_comes_every_two_seconds(quiet: bool, since: u64, r: bool)
    requires
        call_ensures(status_due, (quiet, since), r),
    ensures
        r <==> !quiet && since >= 2_000_000_000,
{
}

/// The files of a background process are in the directory of the session where
/// that exists, else under the home directory.
pub proof fn process_files_have_a_place(
    session: Option<&str>,
    uid: u32,
    there: bool,
    home: Option<&str>,
    r: String,
    own: String,
    other: String,
)
    requires
        call_ensures(state_dir, (session, uid, there, home), r),
        call_ensures(runtime_dir, (session, uid), own),
        call_ensures(fallback_dir, (home,), other),
    ensures
        there ==> r@ == own@,
        !there ==> r@ == other@,
        session matches Some(d) ==> own@ == d@,
        session is None ==> own@ == "/run/user/"@ + text::decimal(uid as nat),
        home is None ==> other@ == "/tmp"@ + "/"@ + ".local/state/lancam"@,
        home matches Some(h) && h@.len() > 0 && h@.last() != '/' ==> other@ == home->0@ + "/"@
            + ".local/state/lancam"@,
{
    reveal_strlit("/tmp");
    assert("/tmp"@.last() == 'p');
}

/// Paths are joined by one stroke.
pub proof fn paths_are_joined(base: &str, part: &str, r: String)
    requires
        call_ensures(join, (base, part), r),
    ensures
        base@.len() > 0 && base@.last() != '/' ==> r@ == base@ + "/"@ + part@,
        base@.len() == 0 || base@.last() == '/' ==> r@ == base@ + part@,
{
}

/// Settings are kept in the directory for configurations, in a file of their
/// own.
pub proof fn settings_have_a_place(config: Option<&str>, home: Option<&str>, r: String)
    requires
        call_ensures(settings_path, (config, home), r),
    ensures
        config matches Some(c) && c@.len() > 0 && c@.last() != '/' ==> r@ == config->0@ + "/"@
            + "lancam"@ + "/"@ + "settings.json"@,
        config is None && (home matches Some(h) && h@.len() > 0 && h@.last() != '/') ==> r@
            == home->0@ + "/"@ + ".config"@ + "/"@ + "lancam"@ + "/"@ + "settings.json"@,
{
    reveal_strlit("lancam");
    reveal_strlit(".config");
    reveal_strlit("/");
    assert("lancam"@.last() == 'm' && ".config"@.last() == 'g');
    if let Some(c) = config {
        assert((c@ + "/"@ + "lancam"@).last() == 'm');
    } else if let Some(h) = home {
        assert((h@ + "/"@ + ".config"@).last() == 'g');
        assert((h@ + "/"@ + ".config"@ + "/"@ + "lancam"@).last() == 'm');
    }
}

/// A list of devices is renewed on demand, where it is empty, and after half a
/// minute.
pub proof fn old_lists_are_renewed(refresh: bool, empty: bool, age: u64, r: bool)
    requires
        call_ensures(devices_stale, (refresh, empty, age), r),
    ensures
        r <==> refresh || empty || age > 30_000_000_000,
{
}

/// A source is shown with the machine in front of it, where that has a name.
pub proof fn sources_show_their_machine(file: Option<&str>, name: &str, r: String)
    requires
        call_ensures(advertised_name, (file, name), r),
    ensures
        file is None ==> r@ == name@,
        file matches Some(f) && text::trimmed(f@).len() == 0 ==> r@ == name@,
        file matches Some(f) && text::trimmed(f@).len() > 0 ==> r@ == text::trimmed(file->0@)
            + " ("@ + name@ + ")"@,
{
}

/// A size is its width, an `x` and its height.
pub proof fn sizes_are_written(width: u32, height: u32, r: String)
    requires
        call_ensures(show_size, (width, height), r),
    ensures
        r@ == text::decimal(width as nat) + "x"@ + text::decimal(height as nat),
{
}

/// A text is filled up at its end, and never cut.
pub proof fn texts_are_filled_up(s: &str, width: usize, r: String, i: int)
    requires
        call_ensures(pad, (s, width), r),
        0 <= i < r@.len(),
    ensures
        r@.len() == if s@.len() >= width {
            s@.len()
        } else {
            width as nat
        },
        i < s@.len() ==> r@[i] == s@[i],
        i >= s@.len() ==> r@[i] == ' ',
{
}

/// A device is printed with its path, its card and its bus, a source with its
/// device and its label.
pub proof fn lines_are_printed(d: &DeviceInfo, line: String, c: &AudioCard, card: String)
    requires
        call_ensures(device_line, (d,), line),
        call_ensures(card_line, (c,), card),
    ensures
        card@ == "  "@ + c.device@ + "  "@ + c.label@,
        d.path@.len() >= 13 ==> line@ == "  "@ + d.path@ + " "@ + d.card@ + "  ("@ + d.bus@ + ")"@,
{
}

/// Modes are printed in groups: each mode is in the one group of its format and
/// size, no rate is printed that no mode has, and the areas and rates descend.
pub proof fn modes_are_printed_once(
    modes: &Vec<Mode>,
    r: Vec<ModeGroup>,
    i: int,
    j: int,
    m: int,
    k: int,
) -> (own: int)
    requires
        call_ensures(group_modes, (modes,), r),
        0 <= i < j < r@.len(),
        0 <= m < modes@.len(),
        0 <= k < r@[i].rates@.len(),
    ensures
        0 <= own < r@.len(),
        r@[own].fourcc@ == modes@[m].fourcc@ && r@[own].width == modes@[m].width && r@[own].height
            == modes@[m].height,
        exists|x: int|
            0 <= x < r@[own].rates@.len() && (#[trigger] r@[own].rates@[x] == modes@[m].fps
                || r@[own].rates@[x].equals(modes@[m].fps)),
        !(r@[i].fourcc@ == r@[j].fourcc@ && r@[i].width == r@[j].width && r@[i].height
            == r@[j].height),
        capture::area(r@[i].width, r@[i].height) >= capture::area(r@[j].width, r@[j].height),
        exists|x: int|
            0 <= x < modes@.len() && (#[trigger] modes@[x]).fps == r@[i].rates@[k]
                && modes@[x].fourcc@ == r@[i].fourcc@ && modes@[x].width == r@[i].width
                && modes@[x].height == r@[i].height,
{
    let views = capture::mode_views(modes@);
    let groups = listing::listed(views);
    assert(groups.len() == r@.len());
    assert(forall|x: int| 0 <= x < r@.len() ==> groups[x] == (#[trigger] r@[x])@);
    assert(forall|x: int| 0 <= x < modes@.len() ==> views[x] == (#[trigger] modes@[x])@);
    listing::modes_are_listed_once(views);
    listing::listing_descends(views, i, j);
    assert(groups[i] == r@[i]@ && groups[j] == r@[j]@);
    listing::listed_rates_are_given(views, i, k);
    assert(views[m] == modes@[m]@);
    let own = choose|x: int|
        0 <= x < groups.len() && listing::covers(#[trigger] groups[x], views[m]);
    assert(groups[own] == r@[own]@);
    let y = choose|y: int|
        0 <= y < groups[own].rates.len() && (#[trigger] groups[own].rates[y] == views[m].fps
            || groups[own].rates[y].equals(views[m].fps));
    assert(r@[own].rates@[y] == groups[own].rates[y]);
    let x = choose|x: int|
        0 <= x < views.len() && listing::gives(
            #[trigger] views[x],
            groups[i],
            groups[i].rates[k],
        );
    assert(views[x] == modes@[x]@);
    assert(!listing::alike(groups[i], groups[j]));
    own
}

/// A part of the preview holds its image, with its length in front.
pub proof fn parts_hold_their_image(jpg: &Vec<u8>, r: Vec<u8>)
    requires
        call_ensures(wrap_image, (jpg,), r),
    ensures
        r@.len() >= jpg@.len() + 2,
        r@.subrange(r@.len() - 2 - jpg@.len(), r@.len() - 2) == jpg@,
        r@[r@.len() - 2] == 13 && r@[r@.len() - 1] == 10,
        r@.take(r@.len() - 2 - jpg@.len()) == utf8::encode_utf8(
            "--lancam\r\nContent-Type: image/jpeg\r\nContent-Length: "@ + text::decimal(
                jpg@.len(),
            ) + "\r\n\r\n"@,
        ),
{
    let head = utf8::encode_utf8(preview::part_head(jpg@.len()));
    assert(r@ == head + jpg@ + seq![13u8, 10u8]);
    assert(r@.take(head.len() as int) =~= head);
    assert(r@.subrange(head.len() as int, (head.len() + jpg@.len()) as int) =~= jpg@);
}

} // verus!
