//! Capture devices: what is listed of what the system reports.

use crate::audio::{card_rows, parse_row, CardRow};
use crate::capture::{capture_rate, DeviceInfo, Mode};
use crate::probe::{
    enum_modes, frame_rates, list_devices, node_path, read_node, video_nodes, DeviceReport,
    FormatReport, Interval, NodeEntry, VideoNode,
};
use crate::single::Single;
use crate::{audio, capture, order, probe, text};
use vstd::prelude::*;

verus! {

/// Whether an interval counts: it is discrete and has a numerator.
pub open spec fn interval_counts(i: Interval) -> bool {
    i.typ == 1 && i.numerator > 0
}

proof fn rates_come_from_intervals(intervals: Seq<Interval>)
    ensures
        forall|k: int|
            0 <= k < probe::rates_of(intervals).len() ==> exists|i: int|
                0 <= i < intervals.len() && interval_counts(#[trigger] intervals[i])
                    && #[trigger] probe::rates_of(intervals)[k] == probe::rate_of(intervals[i]),
        forall|i: int|
            0 <= i < intervals.len() && interval_counts(#[trigger] intervals[i])
                ==> probe::rates_of(intervals).contains(probe::rate_of(intervals[i]))
                || probe::has_rate(probe::rates_of(intervals), probe::rate_of(intervals[i])),
    decreases intervals.len(),
{
    if intervals.len() > 0 {
        let t = intervals.drop_last();
        let before = probe::rates_of(t);
        let all = probe::rates_of(intervals);
        let last = intervals.len() - 1;
        rates_come_from_intervals(t);
        assert forall|k: int| 0 <= k < all.len() implies exists|i: int|
            0 <= i < intervals.len() && interval_counts(#[trigger] intervals[i])
                && #[trigger] all[k] == probe::rate_of(intervals[i]) by {
            if k < before.len() {
                assert(all[k] == before[k]);
                let i = choose|i: int|
                    0 <= i < t.len() && interval_counts(#[trigger] t[i]) && before[k]
                        == probe::rate_of(t[i]);
                assert(intervals[i] == t[i]);
            } else {
                assert(interval_counts(intervals[last]));
            }
        }
        assert forall|i: int|
            0 <= i < intervals.len() && interval_counts(#[trigger] intervals[i]) implies
            all.contains(probe::rate_of(intervals[i])) || probe::has_rate(
            all,
            probe::rate_of(intervals[i]),
        ) by {
            let r = probe::rate_of(intervals[i]);
            if i < last {
                assert(t[i] == intervals[i]);
                assert(interval_counts(t[i]));
                if before.contains(r) {
                    let k = choose|k: int| 0 <= k < before.len() && before[k] == r;
                    assert(all[k] == r);
                } else {
                    let k = choose|k: int|
                        0 <= k < before.len() && (#[trigger] before[k]).equals(r);
                    assert(all[k].equals(r));
                }
            } else if probe::has_rate(before, r) {
                let k = choose|k: int| 0 <= k < before.len() && (#[trigger] before[k]).equals(r);
                assert(all[k].equals(r));
            } else {
                assert(all[before.len() as int] == r);
            }
        }
    }
}

/// The rates of a size are those of its intervals that count, no more and no
/// fewer, and none comes twice.
pub proof fn rates_are_those_of_intervals(intervals: &Vec<Interval>, r: Vec<Single>, j: int, k: int)
    requires
        call_ensures(frame_rates, (intervals,), r),
        0 <= j < k < r@.len(),
    ensures
        !r@[j].equals(r@[k]),
        exists|i: int|
            0 <= i < intervals@.len() && interval_counts(#[trigger] intervals@[i]) && r@[k]
                == probe::rate_of(intervals@[i]),
        forall|i: int|
            0 <= i < intervals@.len() && interval_counts(#[trigger] intervals@[i]) ==> r@.contains(
                probe::rate_of(intervals@[i]),
            ) || probe::has_rate(r@, probe::rate_of(intervals@[i])),
{
    rates_come_from_intervals(intervals@);
    probe::rates_differ(intervals@, j, k);
    assert(r@[k] == probe::rates_of(intervals@)[k]);
}

/// Whether a mode is one that a size of a format gives.
pub open spec fn mode_of(
    m: capture::ModeView,
    formats: Seq<probe::FormatView>,
    f: int,
    s: int,
    k: int,
) -> bool {
    &&& 0 <= f < formats.len()
    &&& 0 <= s < formats[f].sizes.len()
    &&& {
        let z = formats[f].sizes[s];
        &&& z.typ == 1
        &&& 0 <= k < probe::rates_of(z.intervals).len()
        &&& m.fourcc == formats[f].fourcc
        &&& m.width == z.width
        &&& m.height == z.height
        &&& m.fps == probe::rates_of(z.intervals)[k]
    }
}

/// Whether a mode is one of a size of the sizes of a format.
pub open spec fn mode_in(
    m: capture::ModeView,
    fourcc: Seq<char>,
    sizes: Seq<probe::SizeView>,
    s: int,
    k: int,
) -> bool {
    &&& 0 <= s < sizes.len()
    &&& sizes[s].typ == 1
    &&& 0 <= k < probe::rates_of(sizes[s].intervals).len()
    &&& m.fourcc == fourcc
    &&& m.width == sizes[s].width
    &&& m.height == sizes[s].height
    &&& m.fps == probe::rates_of(sizes[s].intervals)[k]
}

proof fn sizes_hold_modes(fourcc: Seq<char>, sizes: Seq<probe::SizeView>)
    ensures
        forall|m: capture::ModeView| #[trigger]
            probe::format_modes(fourcc, sizes).contains(m) <==> exists|s: int, k: int| #[trigger]
                mode_in(m, fourcc, sizes, s, k),
    decreases sizes.len(),
{
    let all = probe::format_modes(fourcc, sizes);
    if sizes.len() > 0 {
        let t = sizes.drop_last();
        let before = probe::format_modes(fourcc, t);
        let own = probe::size_modes(fourcc, sizes.last());
        let last = sizes.len() - 1;
        sizes_hold_modes(fourcc, t);
        assert forall|m: capture::ModeView| #[trigger] all.contains(m) <==> exists|s: int, k: int|
            #[trigger] mode_in(m, fourcc, sizes, s, k) by {
            if all.contains(m) {
                let x = choose|x: int| 0 <= x < all.len() && all[x] == m;
                if x < before.len() {
                    assert(before[x] == m);
                    assert(before.contains(m));
                    let (s, k) = choose|s: int, k: int| #[trigger] mode_in(m, fourcc, t, s, k);
                    assert(mode_in(m, fourcc, sizes, s, k));
                } else {
                    assert(own[x - before.len()] == m);
                    assert(mode_in(m, fourcc, sizes, last, x - before.len()));
                }
            }
            if exists|s: int, k: int| #[trigger] mode_in(m, fourcc, sizes, s, k) {
                let (s, k) = choose|s: int, k: int| #[trigger] mode_in(m, fourcc, sizes, s, k);
                if s < last {
                    assert(mode_in(m, fourcc, t, s, k));
                    assert(before.contains(m));
                    let x = choose|x: int| 0 <= x < before.len() && before[x] == m;
                    assert(all[x] == m);
                } else {
                    assert(own[k] == m);
                    assert(all[before.len() + k] == m);
                }
            }
        }
    } else {
        assert(forall|m: capture::ModeView| !#[trigger] all.contains(m));
    }
}

proof fn formats_hold_modes(formats: Seq<probe::FormatView>)
    ensures
        forall|m: capture::ModeView| #[trigger]
            probe::modes_of(formats).contains(m) <==> capture::decodes(m.fourcc) && exists|
                f: int,
                s: int,
                k: int,
            | #[trigger] mode_of(m, formats, f, s, k),
    decreases formats.len(),
{
    let all = probe::modes_of(formats);
    if formats.len() > 0 {
        let t = formats.drop_last();
        let before = probe::modes_of(t);
        let g = formats.last();
        let own = probe::format_modes(g.fourcc, g.sizes);
        let last = formats.len() - 1;
        formats_hold_modes(t);
        sizes_hold_modes(g.fourcc, g.sizes);
        assert forall|m: capture::ModeView| #[trigger] all.contains(m) <==> capture::decodes(
            m.fourcc,
        ) && exists|f: int, s: int, k: int| #[trigger] mode_of(m, formats, f, s, k) by {
            if all.contains(m) {
                let x = choose|x: int| 0 <= x < all.len() && all[x] == m;
                if x < before.len() {
                    assert(before[x] == m);
                    assert(before.contains(m));
                    let (f, s, k) = choose|f: int, s: int, k: int| #[trigger]
                        mode_of(m, t, f, s, k);
                    assert(mode_of(m, formats, f, s, k));
                } else {
                    assert(own[x - before.len()] == m);
                    assert(own.contains(m));
                    let (s, k) = choose|s: int, k: int| #[trigger]
                        mode_in(m, g.fourcc, g.sizes, s, k);
                    assert(mode_of(m, formats, last, s, k));
                }
            }
            if capture::decodes(m.fourcc) && exists|f: int, s: int, k: int| #[trigger]
                mode_of(m, formats, f, s, k) {
                let (f, s, k) = choose|f: int, s: int, k: int| #[trigger]
                    mode_of(m, formats, f, s, k);
                if f < last {
                    assert(mode_of(m, t, f, s, k));
                    assert(before.contains(m));
                    let x = choose|x: int| 0 <= x < before.len() && before[x] == m;
                    assert(all[x] == m);
                } else {
                    assert(mode_in(m, g.fourcc, g.sizes, s, k));
                    assert(own.contains(m));
                    let x = choose|x: int| 0 <= x < own.len() && own[x] == m;
                    assert(all[before.len() + x] == m);
                }
            }
        }
    } else {
        assert(forall|m: capture::ModeView| !#[trigger] all.contains(m));
    }
}

/// The modes of a device are one for each rate of each discrete size of each
/// format that can be decoded, and no others.
pub proof fn modes_are_what_is_reported(
    formats: &Vec<FormatReport>,
    modes: Vec<Mode>,
    m: capture::ModeView,
)
    requires
        call_ensures(enum_modes, (formats,), modes),
    ensures
        capture::mode_views(modes@).contains(m) <==> {
            &&& m.fourcc == "MJPG"@ || m.fourcc == "JPEG"@ || m.fourcc == "YUYV"@ || m.fourcc
                == "NV12"@
            &&& exists|f: int, s: int, k: int| #[trigger]
                mode_of(m, probe::format_views(formats@), f, s, k)
        },
{
    formats_hold_modes(probe::format_views(formats@));
}

/// Whether a device is that of a node and what it reported.
pub open spec fn device_is(
    d: capture::DeviceView,
    n: probe::NodeView,
    r: DeviceReport,
    with_modes: bool,
) -> bool {
    &&& d.path == "/dev/video"@ + text::decimal(n.index as nat)
    &&& d.card == n.card
    &&& d.bus == r.bus@
    &&& !with_modes || r.formats is None ==> d.modes.len() == 0
    &&& with_modes && r.formats is Some ==> d.modes == probe::modes_of(
        probe::format_views(r.formats->0@),
    )
}

/// Whether a device that reported captures video.
pub open spec fn captures(r: Option<DeviceReport>) -> bool {
    r matches Some(r) && r.capabilities % 2 == 1
}

/// How many of the first `n` devices capture video.
pub open spec fn capturing(reports: Seq<Option<DeviceReport>>, n: int) -> int
    decreases n,
{
    if n <= 0 {
        0
    } else if captures(reports[n - 1]) {
        capturing(reports, n - 1) + 1
    } else {
        capturing(reports, n - 1)
    }
}

proof fn nodes_become_devices(
    nodes: Seq<probe::NodeView>,
    reports: Seq<Option<DeviceReport>>,
    with_modes: bool,
)
    requires
        nodes.len() <= reports.len(),
    ensures
        ({
            let all = probe::devices_of(nodes, reports, with_modes);
            &&& all.len() == capturing(reports, nodes.len() as int)
            &&& forall|i: int|
                0 <= i < nodes.len() && captures(reports[i]) ==> {
                    &&& 0 <= #[trigger] capturing(reports, i) < all.len()
                    &&& device_is(all[capturing(reports, i)], nodes[i], reports[i]->0, with_modes)
                }
        }),
    decreases nodes.len(),
{
    if nodes.len() > 0 {
        let t = nodes.drop_last();
        nodes_become_devices(t, reports, with_modes);
        let before = probe::devices_of(t, reports, with_modes);
        let all = probe::devices_of(nodes, reports, with_modes);
        let last = nodes.len() - 1;
        assert(captures(reports[last]) == (probe::device_for(
            nodes[last],
            probe::opt_report(reports[last]),
            with_modes,
        ) is Some));
        assert forall|i: int| 0 <= i < nodes.len() && captures(reports[i]) implies {
            &&& 0 <= #[trigger] capturing(reports, i) < all.len()
            &&& device_is(all[capturing(reports, i)], nodes[i], reports[i]->0, with_modes)
        } by {
            if i < last {
                assert(t[i] == nodes[i]);
                assert(all[capturing(reports, i)] == before[capturing(reports, i)]);
            }
        }
    }
}

/// Each node that could be opened and captures video is a device, in the order
/// of the nodes, and there is no other one. Modes are listed where they are asked
/// for.
pub proof fn capturing_nodes_are_listed(
    nodes: &Vec<VideoNode>,
    reports: &Vec<Option<DeviceReport>>,
    with_modes: bool,
    out: Vec<DeviceInfo>,
    i: int,
)
    requires
        call_ensures(list_devices, (nodes, reports, with_modes), out),
        nodes@.len() == reports@.len(),
        0 <= i < nodes@.len(),
    ensures
        out@.len() == capturing(reports@, nodes@.len() as int),
        captures(reports@[i]) ==> {
            &&& 0 <= capturing(reports@, i) < out@.len()
            &&& device_is(
                out@[capturing(reports@, i)]@,
                nodes@[i]@,
                reports@[i]->0,
                with_modes,
            )
        },
{
    let views = probe::node_views(nodes@);
    nodes_become_devices(views, reports@, with_modes);
    assert(views[i] == nodes@[i]@);
    let devices = capture::device_views(out@);
    assert(devices.len() == out@.len());
    if captures(reports@[i]) {
        assert(devices[capturing(reports@, i)] == out@[capturing(reports@, i)]@);
    }
}

/// A file `video` with a number is the node with that index; its card is what
/// stands before the first colon of its name.
pub proof fn video_files_are_nodes(e: &NodeEntry, r: Option<VideoNode>, n: u32)
    requires
        call_ensures(read_node, (e,), r),
        e.file@ == "video"@ + text::decimal(n as nat),
    ensures
        r matches Some(v) && v.index == n && (e.name is None ==> v.card@.len() == 0) && (e.name
            matches Some(s) ==> v.card@ == text::trimmed(
            s@.take(text::position(s@, 0, ':')),
        )),
{
    reveal_strlit("video");
    text::decimal_reads_back(n);
    let d = text::decimal(n as nat);
    assert(e.file@.subrange(0, 5) =~= "video"@);
    assert(e.file@.skip(5) =~= d);
    assert(r->0@.card == r->0.card@);
}

/// The path of a node ends in its index.
pub proof fn nodes_have_paths(index: u32, r: String)
    requires
        call_ensures(node_path, (index,), r),
    ensures
        r@ == "/dev/video"@ + text::decimal(index as nat),
{
}

/// The nodes are those of the files, by ascending index.
pub proof fn nodes_are_sorted(entries: &Vec<NodeEntry>, r: Vec<VideoNode>, i: int, j: int, e: int)
    requires
        call_ensures(video_nodes, (entries,), r),
        0 <= i <= j < r@.len(),
        0 <= e < entries@.len(),
    ensures
        r@[i].index <= r@[j].index,
        probe::node_for(entries@[e]@) matches Some(n) ==> exists|k: int|
            0 <= k < r@.len() && (#[trigger] r@[k])@ == n,
{
    let entry_views = probe::entry_views(entries@);
    let found = probe::found_nodes(entry_views);
    let key = probe::node_index();
    let views = probe::node_views(r@);
    order::arranged_ascends(found, key);
    order::arranged_keeps(found, key);
    assert(views[i] == r@[i]@ && views[j] == r@[j]@);
    assert(key(views[i]) <= key(views[j]));
    assert(entry_views[e] == entries@[e]@);
    if let Some(n) = probe::node_for(entries@[e]@) {
        found_holds(entry_views, e);
        assert(views.contains(n));
        let k = choose|k: int| 0 <= k < views.len() && views[k] == n;
        assert(r@[k]@ == n);
    }
}

proof fn found_holds(entries: Seq<probe::EntryView>, e: int)
    requires
        0 <= e < entries.len(),
        probe::node_for(entries[e]) is Some,
    ensures
        probe::found_nodes(entries).contains(probe::node_for(entries[e])->0),
    decreases entries.len(),
{
    let n = probe::node_for(entries[e])->0;
    let before = probe::found_nodes(entries.drop_last());
    let all = probe::found_nodes(entries);
    if e < entries.len() - 1 {
        assert(entries.drop_last()[e] == entries[e]);
        found_holds(entries.drop_last(), e);
        let k = choose|k: int| 0 <= k < before.len() && before[k] == n;
        assert(all[k] == n);
    } else {
        assert(all[before.len() as int] == n);
    }
}

/// A camera is set to the whole rate nearest to the one that is asked for, and to
/// one at least.
pub proof fn cameras_get_whole_rates(fps: Single, r: u32)
    requires
        call_ensures(capture_rate, (fps,), r),
    ensures
        r >= 1,
        1 <= fps.rounded_i64() <= u32::MAX ==> r == fps.rounded_i64(),
        fps.rounded_i64() < 1 ==> r == 1,
        fps.rounded_i64() > u32::MAX ==> r == u32::MAX,
{
}

/// A line of the kernel's list is read back as it was written: the number of the
/// card, its short name in brackets, a colon and its label.
pub proof fn card_lines_are_read(
    v: &Vec<char>,
    r: Option<CardRow>,
    n: u32,
    short: Seq<char>,
    label: Seq<char>,
)
    requires
        call_ensures(parse_row, (v, 0usize, v@.len() as usize), r),
        v@.len() <= usize::MAX,
        forall|i: int| 0 <= i < short.len() ==> #[trigger] short[i] != ']',
        v@ == text::decimal(n as nat) + seq![' ', '['] + short + seq![']', ':'] + label,
    ensures
        r matches Some(row) && row.index == n && row.label@ == text::trimmed(label),
{
    let line = v@;
    let d = text::decimal(n as nat);
    text::decimal_reads_back(n);
    text::decimal_is_digits(n as nat);
    assert(line.subrange(0, line.len() as int) =~= line);
    assert(text::is_digit(d[0]));
    assert(line[0] == d[0]);
    assert(!text::white_space(line[0]));
    assert(text::trimmed_start(line) == line);
    assert forall|k: int| 0 <= k < d.len() implies #[trigger] line[k] != ' ' by {
        assert(text::is_digit(d[k]));
    }
    let space = d.len() as int;
    text::position_is(line, 0, ' ', space);
    text::position_is(line, space, '[', space + 1);
    let close = space + 2 + short.len();
    assert forall|k: int| space + 1 <= k < close implies #[trigger] line[k] != ']' by {
        if k > space + 1 {
            assert(line[k] == short[k - space - 2]);
        }
    }
    text::position_is(line, space + 1, ']', close);
    assert(line.take(space) =~= d);
    assert(line.skip(close + 2) =~= label);
    assert(r->0@.label == r->0.label@);
}

/// The kernel's list is read line by line, with both ends of lines, and the last
/// line may lack its end: the cards come in the order of the lines.
pub proof fn card_lists_are_read_by_lines(
    list: &str,
    r: Vec<CardRow>,
    a: Seq<char>,
    b: Seq<char>,
    returned: bool,
)
    requires
        call_ensures(card_rows, (list,), r),
        list@ == a + (if returned {
            seq!['\r', '\n']
        } else {
            seq!['\n']
        }) + b,
        forall|i: int| 0 <= i < a.len() ==> #[trigger] a[i] != '\n' && a[i] != '\r',
        forall|i: int| 0 <= i < b.len() ==> #[trigger] b[i] != '\n',
        b.len() > 0,
        audio::row_of(a) is Some,
        audio::row_of(b) is Some,
    ensures
        r@.len() == 2,
        r@[0]@ == audio::row_of(a)->0,
        r@[1]@ == audio::row_of(b)->0,
{
    let s = list@;
    let end = if returned {
        a.len() as int + 1
    } else {
        a.len() as int
    };
    assert forall|k: int| 0 <= k < end implies #[trigger] s[k] != '\n' by {
        if k < a.len() {
            assert(s[k] == a[k]);
        }
    }
    text::position_is(s, 0, '\n', end);
    if returned {
        assert(s.subrange(0, end).last() == '\r');
        assert(s.subrange(0, end).drop_last() =~= a);
    } else {
        assert(s.subrange(0, end) =~= a);
        if a.len() > 0 {
            assert(a.last() == a[a.len() - 1]);
        }
    }
    let rest = end + 1;
    assert forall|k: int| rest <= k < s.len() implies #[trigger] s[k] != '\n' by {
        assert(s[k] == b[k - rest]);
    }
    no_position(s, rest, '\n');
    assert(s.subrange(rest, s.len() as int) =~= b);
    assert(audio::lines_from(s, rest) =~= seq![b]);
    let lines = audio::lines_from(s, 0);
    assert(lines =~= seq![a, b]);
    assert(lines.skip(1) =~= seq![b]);
    assert(seq![b].skip(1) =~= Seq::empty());
    let (x, y) = (audio::row_of(a)->0, audio::row_of(b)->0);
    assert(audio::rows_of(Seq::<Seq<char>>::empty()) =~= Seq::empty());
    assert(audio::rows_of(seq![b]) =~= seq![y]);
    assert(audio::rows_of(lines) =~= seq![x, y]);
    let views = audio::row_views(r@);
    assert(views.len() == r@.len());
    assert(views[0] == r@[0]@ && views[1] == r@[1]@);
}

proof fn no_position(s: Seq<char>, from: int, c: char)
    requires
        0 <= from <= s.len(),
        forall|k: int| from <= k < s.len() ==> #[trigger] s[k] != c,
    ensures
        text::position(s, from, c) == s.len(),
    decreases s.len() - from,
{
    if from < s.len() {
        no_position(s, from + 1, c);
    }
}

} // verus!
