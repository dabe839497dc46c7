//! What the capture devices report: video nodes, frame sizes and frame rates,
//! made into a list of devices with their modes.

use crate::capture::{decodable, DeviceInfo, Mode, TEN};
use crate::single::Single;
use crate::text::{append, copy};
use crate::{capture, order, single, text};
use vstd::arithmetic::power2::{lemma2_to64, lemma_pow2_adds, lemma_pow2_pos};
use vstd::prelude::*;

verus! {

/// The kind of a size or an interval that stands for itself alone.
pub const DISCRETE: u32 = 1;

/// A frame interval that a device reports: a fraction of a second.
#[derive(Clone, Copy, Debug, PartialEq, Eq, Structural)]
pub struct Interval {
    pub typ: u32,
    pub numerator: u32,
    pub denominator: u32,
}

/// The frame rate for an interval, rounded to tenths.
pub open spec fn rate_of(i: Interval) -> Single {
    let n = Single { bits: single::nearest(i.numerator as nat * single::one(), 1) as u32 };
    let d = Single { bits: single::nearest(i.denominator as nat * single::one(), 1) as u32 };
    let ten = Single { bits: TEN };
    let q = Single { bits: d.over_bits(n) as u32 };
    let tenths = Single { bits: q.times_bits(ten) as u32 };
    let whole = Single { bits: tenths.round_bits() as u32 };
    Single { bits: whole.over_bits(ten) as u32 }
}

/// The frame rate for an interval, rounded to tenths.
pub fn frame_rate(i: Interval) -> (r: Single)
    ensures
        r == rate_of(i),
{
    let n = Single::from_integer(i.numerator as u64);
    let d = Single::from_integer(i.denominator as u64);
    let ten = Single::from_bits(TEN);
    proof {
        single::units_grow(0, ten.magnitude());
    }
    d.over(n).times(ten).round().over(ten)
}

/// Whether a rate equals one of a list.
pub open spec fn has_rate(rates: Seq<Single>, r: Single) -> bool {
    exists|i: int| 0 <= i < rates.len() && (#[trigger] rates[i]).equals(r)
}

/// The rates for a list of intervals: the discrete ones with a numerator, each
/// rate once, where it comes first.
pub open spec fn rates_of(intervals: Seq<Interval>) -> Seq<Single>
    decreases intervals.len(),
{
    if intervals.len() == 0 {
        Seq::empty()
    } else {
        let before = rates_of(intervals.drop_last());
        let i = intervals.last();
        if i.typ == DISCRETE && i.numerator > 0 && !has_rate(before, rate_of(i)) {
            before.push(rate_of(i))
        } else {
            before
        }
    }
}

/// Whether a rate equals one of a list.
pub fn contains_rate(rates: &Vec<Single>, r: Single) -> (found: bool)
    ensures
        found == has_rate(rates@, r),
{
    let mut i: usize = 0;
    while i < rates.len()
        invariant
            i <= rates@.len(),
            forall|k: int| 0 <= k < i ==> !(#[trigger] rates@[k]).equals(r),
        decreases rates.len() - i,
    {
        if rates[i].equal(r) {
            return true;
        }
        i += 1;
    }
    false
}

/// The rates for a list of intervals.
pub fn frame_rates(intervals: &Vec<Interval>) -> (out: Vec<Single>)
    ensures
        out@ == rates_of(intervals@),
{
    let mut out: Vec<Single> = Vec::new();
    let mut k: usize = 0;
    assert(intervals@.take(0) =~= Seq::<Interval>::empty());
    while k < intervals.len()
        invariant
            k <= intervals@.len(),
            out@ == rates_of(intervals@.take(k as int)),
        decreases intervals.len() - k,
    {
        let i = intervals[k];
        assert(intervals@.take(k + 1).drop_last() =~= intervals@.take(k as int));
        assert(intervals@.take(k + 1).last() == i);
        if i.typ == DISCRETE && i.numerator > 0 {
            let r = frame_rate(i);
            if !contains_rate(&out, r) {
                out.push(r);
            }
        }
        k += 1;
    }
    assert(intervals@.take(intervals@.len() as int) =~= intervals@);
    out
}

/// No rate is listed twice.
pub proof fn rates_differ(intervals: Seq<Interval>, i: int, j: int)
    requires
        0 <= i < j < rates_of(intervals).len(),
    ensures
        !rates_of(intervals)[i].equals(rates_of(intervals)[j]),
    decreases intervals.len(),
{
    let before = rates_of(intervals.drop_last());
    if j < before.len() {
        rates_differ(intervals.drop_last(), i, j);
    } else {
        assert(!before[i].equals(rate_of(intervals.last())));
    }
}

/// A rate is a finite number, where its interval has a numerator.
pub proof fn rates_are_finite(i: Interval)
    requires
        i.numerator > 0,
    ensures
        rate_of(i).is_finite(),
{
    let o = single::one();
    let ten = Single { bits: TEN };
    let (num, den) = (i.numerator as nat, i.denominator as nat);
    let n = Single { bits: single::nearest(num * o, 1) as u32 };
    let d = Single { bits: single::nearest(den * o, 1) as u32 };
    let q = Single { bits: d.over_bits(n) as u32 };
    let tenths = Single { bits: q.times_bits(ten) as u32 };
    let whole = Single { bits: tenths.round_bits() as u32 };
    lemma_pow2_pos(149);
    lemma2_to64();
    // The integers lie between one and 2^32, the quotient below 2^32.
    single::power_pattern(0);
    single::power_pattern(32);
    lemma_pow2_adds(149, 32);
    let top = 0x1_0000_0000nat;
    assert(vstd::arithmetic::power2::pow2(32) == top);
    assert(num * o <= top * o && den * o <= top * o && num * o >= o) by (nonlinear_arith)
        requires
            1 <= num <= top,
            0 <= den <= top,
            o > 0,
    ;
    assert(o * top == top * o) by (nonlinear_arith);
    single::nearest_at_most(num * o, 1, 0x4f80_0000);
    single::nearest_at_most(den * o, 1, 0x4f80_0000);
    single::nearest_at_least(num * o, 1, 0x3f80_0000);
    if n.magnitude() > 0x3f80_0000 {
        single::units_grow(0x3f80_0000, n.magnitude());
    }
    if d.magnitude() < 0x4f80_0000 {
        single::units_grow(d.magnitude(), 0x4f80_0000);
    }
    let (x, y) = (d.units(), n.units());
    assert(x * o <= (top * o) * y) by (nonlinear_arith)
        requires
            x <= top * o,
            o <= y,
            0 < o,
            0 <= x,
    ;
    single::nearest_at_most(x * o, y, 0x4f80_0000);
    if q.magnitude() < 0x4f80_0000 {
        single::units_grow(q.magnitude(), 0x4f80_0000);
    }
    // Ten times that lies below 2^36, and so does the rounded number.
    single::power_pattern(36);
    lemma_pow2_adds(149, 36);
    lemma_pow2_adds(32, 4);
    let big = 0x10_0000_0000nat;
    assert(vstd::arithmetic::power2::pow2(36) == big);
    single::power_pattern(4);
    lemma_pow2_adds(149, 4);
    assert(vstd::arithmetic::power2::pow2(4) == 16);
    single::units_grow(TEN as nat, 0x4180_0000);
    let (u, f) = (q.units(), ten.units());
    assert(u * f <= (big * o) * o) by (nonlinear_arith)
        requires
            u <= top * o,
            f <= o * 16,
            big == 16 * top,
            0 <= u,
            0 <= f,
    ;
    assert(o * big == big * o) by (nonlinear_arith);
    single::nearest_at_most(u * f, o, 0x5180_0000);
    if tenths.magnitude() < 0x5180_0000 {
        single::units_grow(tenths.magnitude(), 0x5180_0000);
    }
    let t = tenths.units();
    let r = (2 * t + o) / (2 * o);
    assert(r <= big) by (nonlinear_arith)
        requires
            r == (2 * t + o) / (2 * o),
            t <= big * o,
            o > 0,
    ;
    assert(r * o <= big * o) by (nonlinear_arith)
        requires
            r <= big,
            o > 0,
    ;
    single::nearest_at_most(r * o, 1, 0x5180_0000);
    if whole.magnitude() < 0x5180_0000 {
        single::units_grow(whole.magnitude(), 0x5180_0000);
    }
    let w = whole.units();
    single::units_grow(0x3f80_0000, TEN as nat);
    assert(w * o <= (big * o) * f) by (nonlinear_arith)
        requires
            w <= big * o,
            o <= f,
            0 < o,
            0 <= w,
    ;
    single::nearest_at_most(w * o, f, 0x5180_0000);
}

/// A frame size that a device reports for a pixel format, with the intervals
/// at that size.
#[derive(Clone, Debug)]
pub struct SizeReport {
    pub typ: u32,
    pub width: u32,
    pub height: u32,
    pub intervals: Vec<Interval>,
}

/// A reported frame size, as a value.
pub struct SizeView {
    pub typ: u32,
    pub width: u32,
    pub height: u32,
    pub intervals: Seq<Interval>,
}

impl View for SizeReport {
    type V = SizeView;

    open spec fn view(&self) -> SizeView {
        SizeView {
            typ: self.typ,
            width: self.width,
            height: self.height,
            intervals: self.intervals@,
        }
    }
}

/// A pixel format that a device reports, with its frame sizes.
#[derive(Clone, Debug)]
pub struct FormatReport {
    pub fourcc: String,
    pub sizes: Vec<SizeReport>,
}

/// A reported pixel format, as a value.
pub struct FormatView {
    pub fourcc: Seq<char>,
    pub sizes: Seq<SizeView>,
}

impl View for FormatReport {
    type V = FormatView;

    open spec fn view(&self) -> FormatView {
        FormatView {
            fourcc: self.fourcc@,
            sizes: self.sizes@.map_values(|s: SizeReport| s@),
        }
    }
}

/// Whether the intervals at a reported size count: the size stands for itself
/// alone.
pub fn discrete(typ: u32) -> (r: bool)
    ensures
        r == (typ == DISCRETE),
{
    typ == DISCRETE
}

/// The modes at one frame size: one for each frame rate.
pub open spec fn size_modes(fourcc: Seq<char>, s: SizeView) -> Seq<capture::ModeView> {
    if s.typ == DISCRETE {
        rates_of(s.intervals).map_values(
            |r: Single|
                capture::ModeView { fourcc, width: s.width, height: s.height, fps: r },
        )
    } else {
        Seq::empty()
    }
}

/// The modes in one pixel format, size by size.
pub open spec fn format_modes(fourcc: Seq<char>, sizes: Seq<SizeView>) -> Seq<capture::ModeView>
    decreases sizes.len(),
{
    if sizes.len() == 0 {
        Seq::empty()
    } else {
        format_modes(fourcc, sizes.drop_last()) + size_modes(fourcc, sizes.last())
    }
}

/// The modes in all pixel formats that can be decoded, format by format.
pub open spec fn modes_of(formats: Seq<FormatView>) -> Seq<capture::ModeView>
    decreases formats.len(),
{
    if formats.len() == 0 {
        Seq::empty()
    } else {
        let before = modes_of(formats.drop_last());
        let f = formats.last();
        if capture::decodes(f.fourcc) {
            before + format_modes(f.fourcc, f.sizes)
        } else {
            before
        }
    }
}

/// The values of a list of reported formats.
pub open spec fn format_views(formats: Seq<FormatReport>) -> Seq<FormatView> {
    formats.map_values(|f: FormatReport| f@)
}

/// Appends the modes at one frame size.
fn add_size(modes: &mut Vec<Mode>, fourcc: &str, size: &SizeReport)
    ensures
        capture::mode_views(final(modes)@) == capture::mode_views(old(modes)@) + size_modes(
            fourcc@,
            size@,
        ),
{
    let ghost before = capture::mode_views(modes@);
    if size.typ != DISCRETE {
        assert(before + size_modes(fourcc@, size@) =~= before);
        return ;
    }
    let rates = frame_rates(&size.intervals);
    let ghost added = size_modes(fourcc@, size@);
    let mut k: usize = 0;
    assert(before + added.take(0) =~= before);
    while k < rates.len()
        invariant
            k <= rates@.len(),
            rates@ == rates_of(size@.intervals),
            size.typ == DISCRETE,
            added == size_modes(fourcc@, size@),
            capture::mode_views(modes@) == before + added.take(k as int),
        decreases rates.len() - k,
    {
        let m = Mode {
            fourcc: copy(fourcc),
            width: size.width,
            height: size.height,
            fps: rates[k],
        };
        let ghost held = modes@;
        modes.push(m);
        proof {
            assert(added[k as int] == m@);
            assert(capture::mode_views(modes@) =~= capture::mode_views(held).push(m@));
            assert(before + added.take(k + 1) =~= (before + added.take(k as int)).push(m@));
        }
        k += 1;
    }
    assert(added.take(added.len() as int) =~= added);
}

/// The modes that a device offers in the formats that can be decoded.
pub fn enum_modes(formats: &Vec<FormatReport>) -> (modes: Vec<Mode>)
    ensures
        capture::mode_views(modes@) == modes_of(format_views(formats@)),
{
    let ghost views = format_views(formats@);
    let mut modes: Vec<Mode> = Vec::new();
    let mut i: usize = 0;
    assert(capture::mode_views(modes@) =~= modes_of(views.take(0)));
    while i < formats.len()
        invariant
            i <= formats@.len(),
            views == format_views(formats@),
            capture::mode_views(modes@) == modes_of(views.take(i as int)),
        decreases formats.len() - i,
    {
        let f = &formats[i];
        proof {
            assert(views[i as int] == f@);
            assert(views.take(i + 1).drop_last() =~= views.take(i as int));
            assert(views.take(i + 1).last() == f@);
        }
        if decodable(f.fourcc.as_str()) {
            let ghost before = capture::mode_views(modes@);
            let ghost sizes = f@.sizes;
            let mut j: usize = 0;
            assert(before + format_modes(f.fourcc@, sizes.take(0)) =~= before);
            while j < f.sizes.len()
                invariant
                    j <= f.sizes@.len(),
                    sizes == f@.sizes,
                    capture::mode_views(modes@) == before + format_modes(
                        f.fourcc@,
                        sizes.take(j as int),
                    ),
                decreases f.sizes.len() - j,
            {
                let ghost held = capture::mode_views(modes@);
                add_size(&mut modes, f.fourcc.as_str(), &f.sizes[j]);
                proof {
                    assert(sizes[j as int] == f.sizes@[j as int]@);
                    assert(sizes.take(j + 1).drop_last() =~= sizes.take(j as int));
                    assert(sizes.take(j + 1).last() == sizes[j as int]);
                    assert(before + format_modes(f.fourcc@, sizes.take(j + 1)) =~= held
                        + size_modes(f.fourcc@, sizes[j as int]));
                }
                j += 1;
            }
            assert(sizes.take(sizes.len() as int) =~= sizes);
        }
        i += 1;
    }
    assert(views.take(views.len() as int) =~= views);
    modes
}

/// Every mode that a device is listed with has a finite frame rate.
pub proof fn modes_are_finite(formats: Seq<FormatView>, i: int)
    requires
        0 <= i < modes_of(formats).len(),
    ensures
        modes_of(formats)[i].fps.is_finite(),
    decreases formats.len(),
{
    let before = modes_of(formats.drop_last());
    if i < before.len() {
        modes_are_finite(formats.drop_last(), i);
    } else {
        let f = formats.last();
        format_is_finite(f.fourcc, f.sizes, i - before.len());
    }
}

proof fn format_is_finite(fourcc: Seq<char>, sizes: Seq<SizeView>, i: int)
    requires
        0 <= i < format_modes(fourcc, sizes).len(),
    ensures
        format_modes(fourcc, sizes)[i].fps.is_finite(),
    decreases sizes.len(),
{
    let before = format_modes(fourcc, sizes.drop_last());
    if i < before.len() {
        format_is_finite(fourcc, sizes.drop_last(), i);
    } else {
        rates_stay_finite(sizes.last().intervals, i - before.len());
    }
}

proof fn rates_stay_finite(intervals: Seq<Interval>, i: int)
    requires
        0 <= i < rates_of(intervals).len(),
    ensures
        rates_of(intervals)[i].is_finite(),
    decreases intervals.len(),
{
    let before = rates_of(intervals.drop_last());
    if i < before.len() {
        rates_stay_finite(intervals.drop_last(), i);
    } else {
        rates_are_finite(intervals.last());
    }
}

/// Every mode that a device is listed with can be decoded.
pub proof fn modes_decode(formats: Seq<FormatView>, i: int)
    requires
        0 <= i < modes_of(formats).len(),
    ensures
        capture::decodes(modes_of(formats)[i].fourcc),
    decreases formats.len(),
{
    let before = modes_of(formats.drop_last());
    if i < before.len() {
        modes_decode(formats.drop_last(), i);
    } else {
        let f = formats.last();
        format_is_kept(f.fourcc, f.sizes, i - before.len());
    }
}

proof fn format_is_kept(fourcc: Seq<char>, sizes: Seq<SizeView>, i: int)
    requires
        0 <= i < format_modes(fourcc, sizes).len(),
    ensures
        format_modes(fourcc, sizes)[i].fourcc == fourcc,
    decreases sizes.len(),
{
    let before = format_modes(fourcc, sizes.drop_last());
    if i < before.len() {
        format_is_kept(fourcc, sizes.drop_last(), i);
    }
}

/// An entry of the directory of video nodes: its file name, and what its name
/// file holds where that could be read.
#[derive(Clone, Debug)]
pub struct NodeEntry {
    pub file: String,
    pub name: Option<String>,
}

/// An entry of the directory of video nodes, as a value.
pub struct EntryView {
    pub file: Seq<char>,
    pub name: Option<Seq<char>>,
}

impl View for NodeEntry {
    type V = EntryView;

    open spec fn view(&self) -> EntryView {
        EntryView { file: self.file@, name: text::opt_view(self.name) }
    }
}

/// A video node: its index and its card name.
#[derive(Clone, Debug)]
pub struct VideoNode {
    pub index: u32,
    pub card: String,
}

/// A video node, as a value.
pub struct NodeView {
    pub index: u32,
    pub card: Seq<char>,
}

impl View for VideoNode {
    type V = NodeView;

    open spec fn view(&self) -> NodeView {
        NodeView { index: self.index, card: self.card@ }
    }
}

/// The card name in a name file: what stands before the first colon, without
/// the white space around it.
pub open spec fn card_name(name: Option<Seq<char>>) -> Seq<char> {
    match name {
        Some(s) => text::trimmed(s.take(text::position(s, 0, ':'))),
        None => Seq::empty(),
    }
}

/// The node for a directory entry: its file is `video` and an index.
pub open spec fn node_for(e: EntryView) -> Option<NodeView> {
    match text::after_prefix(e.file, "video"@) {
        None => None,
        Some(digits) => match text::number(digits) {
            None => None,
            Some(index) => Some(NodeView { index, card: card_name(e.name) }),
        },
    }
}

/// The nodes among the directory entries.
pub open spec fn found_nodes(entries: Seq<EntryView>) -> Seq<NodeView>
    decreases entries.len(),
{
    if entries.len() == 0 {
        Seq::empty()
    } else {
        let before = found_nodes(entries.drop_last());
        match node_for(entries.last()) {
            Some(n) => before.push(n),
            None => before,
        }
    }
}

/// The index of a node, by which nodes are ordered.
pub open spec fn node_index() -> spec_fn(NodeView) -> int {
    |n: NodeView| n.index as int
}

/// The nodes among the directory entries, ordered by their index.
pub open spec fn nodes_of(entries: Seq<EntryView>) -> Seq<NodeView> {
    order::arranged(found_nodes(entries), node_index())
}

/// The values of a list of nodes.
pub open spec fn node_views(nodes: Seq<VideoNode>) -> Seq<NodeView> {
    nodes.map_values(|n: VideoNode| n@)
}

/// The values of a list of directory entries.
pub open spec fn entry_views(entries: Seq<NodeEntry>) -> Seq<EntryView> {
    entries.map_values(|e: NodeEntry| e@)
}

/// The card name in a name file.
fn read_card(name: &Option<String>) -> (r: String)
    ensures
        r@ == card_name(text::opt_view(*name)),
{
    match name {
        None => {
            let r = String::new();
            assert(r@ =~= Seq::<char>::empty());
            r
        },
        Some(s) => {
            let v = text::chars(s.as_str());
            let colon = text::find(&v, 0, ':');
            let head = text::text_of(&v, 0, colon);
            assert(head@ =~= s@.take(text::position(s@, 0, ':')));
            text::trim(head.as_str())
        },
    }
}

/// The node for a directory entry.
pub fn read_node(e: &NodeEntry) -> (r: Option<VideoNode>)
    ensures
        (match r {
            Some(n) => node_for(e@) == Some(n@),
            None => node_for(e@) is None,
        }),
{
    match text::strip_prefix(e.file.as_str(), "video") {
        None => None,
        Some(digits) => match text::parse_number(digits.as_str()) {
            None => None,
            Some(index) => Some(VideoNode { index, card: read_card(&e.name) }),
        },
    }
}

/// Puts a node behind those whose index is not above its own.
fn put_node(nodes: &mut Vec<VideoNode>, n: VideoNode)
    ensures
        node_views(final(nodes)@) == order::put(node_views(old(nodes)@), n@, node_index()),
{
    let ghost views = node_views(nodes@);
    let key = Ghost(node_index());
    let mut at: usize = nodes.len();
    while at > 0 && nodes[at - 1].index > n.index
        invariant
            at <= nodes@.len(),
            views == node_views(nodes@),
            key@ == node_index(),
            forall|k: int| at <= k < views.len() ==> key@(#[trigger] views[k]) > key@(n@),
        decreases at,
    {
        at -= 1;
        assert(views[at as int] == nodes@[at as int]@);
    }
    proof {
        if at > 0 {
            assert(views[at - 1] == nodes@[at - 1]@);
        }
        order::put_inserts(views, n@, node_index(), at as int);
    }
    let ghost held = nodes@;
    let ghost value = n;
    nodes.insert(at, n);
    assert(node_views(nodes@) =~= views.insert(at as int, value@));
}

/// The nodes among the directory entries, ordered by their index.
pub fn video_nodes(entries: &Vec<NodeEntry>) -> (nodes: Vec<VideoNode>)
    ensures
        node_views(nodes@) == nodes_of(entry_views(entries@)),
{
    let ghost views = entry_views(entries@);
    let mut nodes: Vec<VideoNode> = Vec::new();
    let mut i: usize = 0;
    assert(node_views(nodes@) =~= nodes_of(views.take(0)));
    while i < entries.len()
        invariant
            i <= entries@.len(),
            views == entry_views(entries@),
            node_views(nodes@) == nodes_of(views.take(i as int)),
        decreases entries.len() - i,
    {
        proof {
            assert(views[i as int] == entries@[i as int]@);
            assert(views.take(i + 1).drop_last() =~= views.take(i as int));
            assert(views.take(i + 1).last() == views[i as int]);
        }
        if let Some(n) = read_node(&entries[i]) {
            proof {
                let before = found_nodes(views.take(i as int));
                assert(before.push(n@).drop_last() =~= before);
            }
            put_node(&mut nodes, n);
        }
        i += 1;
    }
    assert(views.take(views.len() as int) =~= views);
    nodes
}

/// The video nodes come in ascending order of their indices, each found one
/// once.
pub proof fn nodes_ascend(entries: Seq<EntryView>)
    ensures
        order::ascending(nodes_of(entries), node_index()),
        nodes_of(entries).to_multiset() == found_nodes(entries).to_multiset(),
{
    order::arranged_ascends(found_nodes(entries), node_index());
}

/// What a device reports when it is opened: its capabilities, its bus, and its
/// pixel formats where they could be asked for.
#[derive(Clone, Debug)]
pub struct DeviceReport {
    pub capabilities: u32,
    pub bus: String,
    pub formats: Option<Vec<FormatReport>>,
}

/// What a device reports, as a value.
pub struct ReportView {
    pub capabilities: u32,
    pub bus: Seq<char>,
    pub formats: Option<Seq<FormatView>>,
}

impl View for DeviceReport {
    type V = ReportView;

    open spec fn view(&self) -> ReportView {
        ReportView {
            capabilities: self.capabilities,
            bus: self.bus@,
            formats: match self.formats {
                Some(f) => Some(format_views(f@)),
                None => None,
            },
        }
    }
}

/// The view of what a device reports, where it could be opened.
pub open spec fn opt_report(r: Option<DeviceReport>) -> Option<ReportView> {
    match r {
        Some(r) => Some(r@),
        None => None,
    }
}

/// The device for a node: one that could be opened and captures video, which
/// the lowest bit of its capabilities says.
pub open spec fn device_for(
    n: NodeView,
    r: Option<ReportView>,
    with_modes: bool,
) -> Option<capture::DeviceView> {
    match r {
        None => None,
        Some(r) => if r.capabilities % 2 == 0 {
            None
        } else {
            Some(
                capture::DeviceView {
                    path: "/dev/video"@ + text::decimal(n.index as nat),
                    card: n.card,
                    bus: r.bus,
                    modes: match r.formats {
                        Some(f) => if with_modes {
                            modes_of(f)
                        } else {
                            Seq::empty()
                        },
                        None => Seq::empty(),
                    },
                },
            )
        },
    }
}

/// The devices for a list of nodes.
pub open spec fn devices_of(
    nodes: Seq<NodeView>,
    reports: Seq<Option<DeviceReport>>,
    with_modes: bool,
) -> Seq<capture::DeviceView>
    decreases nodes.len(),
{
    if nodes.len() == 0 {
        Seq::empty()
    } else {
        let last = nodes.len() - 1;
        let before = devices_of(nodes.drop_last(), reports, with_modes);
        match device_for(nodes[last], opt_report(reports[last]), with_modes) {
            Some(d) => before.push(d),
            None => before,
        }
    }
}

/// The path of the node with an index.
pub fn node_path(index: u32) -> (r: String)
    ensures
        r@ == "/dev/video"@ + text::decimal(index as nat),
{
    let mut path = copy("/dev/video");
    append(&mut path, text::write_decimal(index as u64).as_str());
    path
}

/// The capture devices for a list of nodes and what each of them reported.
pub fn list_devices(
    nodes: &Vec<VideoNode>,
    reports: &Vec<Option<DeviceReport>>,
    with_modes: bool,
) -> (out: Vec<DeviceInfo>)
    requires
        nodes@.len() == reports@.len(),
    ensures
        capture::device_views(out@) == devices_of(node_views(nodes@), reports@, with_modes),
{
    let ghost views = node_views(nodes@);
    let mut out: Vec<DeviceInfo> = Vec::new();
    let mut i: usize = 0;
    assert(capture::device_views(out@) =~= devices_of(views.take(0), reports@, with_modes));
    while i < nodes.len()
        invariant
            i <= nodes@.len(),
            nodes@.len() == reports@.len(),
            views == node_views(nodes@),
            capture::device_views(out@) == devices_of(views.take(i as int), reports@, with_modes),
        decreases nodes.len() - i,
    {
        proof {
            assert(views[i as int] == nodes@[i as int]@);
            assert(views.take(i + 1).drop_last() =~= views.take(i as int));
            assert(views.take(i + 1).last() == views[i as int]);
        }
        if let Some(r) = &reports[i] {
            if r.capabilities % 2 != 0 {
                let modes = match &r.formats {
                    Some(f) => if with_modes {
                        enum_modes(f)
                    } else {
                        Vec::new()
                    },
                    None => Vec::new(),
                };
                let d = DeviceInfo {
                    path: node_path(nodes[i].index),
                    card: nodes[i].card.clone(),
                    bus: r.bus.clone(),
                    modes,
                };
                let ghost held = out@;
                proof {
                    assert(capture::mode_views(Seq::<Mode>::empty()) =~= Seq::empty());
                    assert(device_for(views[i as int], Some(r@), with_modes) == Some(d@));
                }
                out.push(d);
                assert(capture::device_views(out@) =~= capture::device_views(held).push(d@));
            }
        }
        i += 1;
    }
    assert(views.take(views.len() as int) =~= views);
    out
}

} // verus!
