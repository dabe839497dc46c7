//! The list of capture devices as it is printed: modes of one format and size
//! in one line, the largest sizes and the highest rates first.

use crate::audio::AudioCard;
use crate::capture::{frame_area, DeviceInfo, Mode};
use crate::engine::show_size;
use crate::probe::contains_rate;
use crate::single::Single;
use crate::text::{append, copy, equal};
use crate::{capture, engine, order, probe};
use vstd::prelude::*;

verus! {

/// The modes of one format and size.
#[derive(Clone, Debug)]
pub struct ModeGroup {
    pub fourcc: String,
    pub width: u32,
    pub height: u32,
    pub rates: Vec<Single>,
}

/// The modes of one format and size, as a value.
pub struct GroupView {
    pub fourcc: Seq<char>,
    pub width: u32,
    pub height: u32,
    pub rates: Seq<Single>,
}

impl View for ModeGroup {
    type V = GroupView;

    open spec fn view(&self) -> GroupView {
        GroupView {
            fourcc: self.fourcc@,
            width: self.width,
            height: self.height,
            rates: self.rates@,
        }
    }
}

/// The values of a list of groups.
pub open spec fn group_views(groups: Seq<ModeGroup>) -> Seq<GroupView> {
    groups.map_values(|g: ModeGroup| g@)
}

/// Whether a group is the one of a mode.
pub open spec fn group_of(m: capture::ModeView) -> spec_fn(GroupView) -> bool {
    |g: GroupView| g.fourcc == m.fourcc && g.width == m.width && g.height == m.height
}

/// Groups with one more mode: its rate joins its group where it is not there
/// yet, or it begins a new group.
pub open spec fn with_mode(groups: Seq<GroupView>, m: capture::ModeView) -> Seq<GroupView> {
    let at = order::first(groups, group_of(m));
    if at < groups.len() {
        let g = groups[at];
        if probe::has_rate(g.rates, m.fps) {
            groups
        } else {
            groups.update(at, GroupView { rates: g.rates.push(m.fps), ..g })
        }
    } else {
        groups.push(
            GroupView { fourcc: m.fourcc, width: m.width, height: m.height, rates: seq![m.fps] },
        )
    }
}

/// The groups of a list of modes, in the order in which they begin.
pub open spec fn groups_of(modes: Seq<capture::ModeView>) -> Seq<GroupView>
    decreases modes.len(),
{
    if modes.len() == 0 {
        Seq::empty()
    } else {
        with_mode(groups_of(modes.drop_last()), modes.last())
    }
}

/// What groups are ordered by: the largest area first.
pub open spec fn area_key() -> spec_fn(GroupView) -> int {
    |g: GroupView| -capture::area(g.width, g.height)
}

/// What rates are ordered by: the highest first.
pub open spec fn rate_key() -> spec_fn(Single) -> int {
    |r: Single| -r.rank()
}

/// A group with its rates in order.
pub open spec fn tidy(g: GroupView) -> GroupView {
    GroupView { rates: order::arranged(g.rates, rate_key()), ..g }
}

/// The groups of a list of modes, as they are printed.
pub open spec fn listed(modes: Seq<capture::ModeView>) -> Seq<GroupView> {
    order::arranged(groups_of(modes), area_key()).map_values(|g: GroupView| tidy(g))
}

/// Takes one more mode into its group.
fn add_mode(groups: &mut Vec<ModeGroup>, m: &Mode)
    ensures
        group_views(final(groups)@) == with_mode(group_views(old(groups)@), m@),
{
    let ghost views = group_views(groups@);
    let ghost p = group_of(m@);
    let mut at: usize = 0;
    while at < groups.len() && !(equal(groups[at].fourcc.as_str(), m.fourcc.as_str())
        && groups[at].width == m.width && groups[at].height == m.height)
        invariant
            at <= groups@.len(),
            views == group_views(groups@),
            p == group_of(m@),
            forall|k: int| 0 <= k < at ==> !p(#[trigger] views[k]),
        decreases groups.len() - at,
    {
        assert(views[at as int] == groups@[at as int]@);
        at += 1;
    }
    proof {
        if at < groups.len() {
            assert(views[at as int] == groups@[at as int]@);
        }
        order::first_is(views, p, at as int);
    }
    if at < groups.len() {
        if !contains_rate(&groups[at].rates, m.fps) {
            let mut g = groups.remove(at);
            g.rates.push(m.fps);
            let ghost value = g@;
            groups.insert(at, g);
            assert(group_views(groups@) =~= views.update(at as int, value));
        }
    } else {
        let mut rates: Vec<Single> = Vec::new();
        rates.push(m.fps);
        let g = ModeGroup { fourcc: m.fourcc.clone(), width: m.width, height: m.height, rates };
        assert(g.rates@ =~= seq![m.fps]);
        let ghost value = g@;
        groups.push(g);
        assert(group_views(groups@) =~= views.push(value));
    }
}

/// Rates, the highest first.
pub fn sort_rates(rates: &Vec<Single>) -> (r: Vec<Single>)
    ensures
        r@ == order::arranged(rates@, rate_key()),
{
    let mut r: Vec<Single> = Vec::new();
    let mut i: usize = 0;
    assert(r@ =~= order::arranged(rates@.take(0), rate_key()));
    while i < rates.len()
        invariant
            i <= rates@.len(),
            r@ == order::arranged(rates@.take(i as int), rate_key()),
        decreases rates.len() - i,
    {
        let x = rates[i];
        let key = Ghost(rate_key());
        let ghost held = r@;
        let mut at: usize = r.len();
        while at > 0 && r[at - 1].place() < x.place()
            invariant
                at <= r@.len(),
                r@ == held,
                key@ == rate_key(),
                forall|k: int| at <= k < held.len() ==> key@(#[trigger] held[k]) > key@(x),
            decreases at,
        {
            at -= 1;
        }
        proof {
            order::put_inserts(held, x, rate_key(), at as int);
            assert(rates@.take(i + 1).drop_last() =~= rates@.take(i as int));
            assert(rates@.take(i + 1).last() == x);
        }
        r.insert(at, x);
        i += 1;
    }
    assert(rates@.take(rates@.len() as int) =~= rates@);
    r
}

/// Puts a group behind those whose area is not below its own.
fn put_group(groups: &mut Vec<ModeGroup>, g: ModeGroup)
    ensures
        group_views(final(groups)@) == order::put(group_views(old(groups)@), g@, area_key()),
{
    let ghost views = group_views(groups@);
    let key = Ghost(area_key());
    let area = frame_area(g.width, g.height);
    let mut at: usize = groups.len();
    while at > 0 && frame_area(groups[at - 1].width, groups[at - 1].height) < area
        invariant
            at <= groups@.len(),
            views == group_views(groups@),
            key@ == area_key(),
            area == capture::area(g.width, g.height),
            forall|k: int| at <= k < views.len() ==> key@(#[trigger] views[k]) > key@(g@),
        decreases at,
    {
        at -= 1;
        assert(views[at as int] == groups@[at as int]@);
    }
    proof {
        if at > 0 {
            assert(views[at - 1] == groups@[at - 1]@);
        }
        order::put_inserts(views, g@, area_key(), at as int);
    }
    let ghost value = g@;
    groups.insert(at, g);
    assert(group_views(groups@) =~= views.insert(at as int, value));
}

/// The modes of a device in groups, as they are printed.
pub fn group_modes(modes: &Vec<Mode>) -> (r: Vec<ModeGroup>)
    ensures
        group_views(r@) == listed(capture::mode_views(modes@)),
{
    let ghost views = capture::mode_views(modes@);
    let mut groups: Vec<ModeGroup> = Vec::new();
    let mut i: usize = 0;
    assert(group_views(groups@) =~= groups_of(views.take(0)));
    while i < modes.len()
        invariant
            i <= modes@.len(),
            views == capture::mode_views(modes@),
            group_views(groups@) == groups_of(views.take(i as int)),
        decreases modes.len() - i,
    {
        proof {
            assert(views[i as int] == modes@[i as int]@);
            assert(views.take(i + 1).drop_last() =~= views.take(i as int));
            assert(views.take(i + 1).last() == views[i as int]);
        }
        add_mode(&mut groups, &modes[i]);
        i += 1;
    }
    assert(views.take(views.len() as int) =~= views);
    let ghost found = group_views(groups@);
    let mut sorted: Vec<ModeGroup> = Vec::new();
    let mut j: usize = 0;
    assert(group_views(sorted@) =~= order::arranged(found.take(0), area_key()));
    while j < groups.len()
        invariant
            j <= groups@.len(),
            found == group_views(groups@),
            group_views(sorted@) == order::arranged(found.take(j as int), area_key()),
        decreases groups.len() - j,
    {
        let g = &groups[j];
        let copied = ModeGroup {
            fourcc: g.fourcc.clone(),
            width: g.width,
            height: g.height,
            rates: copy_rates(&g.rates),
        };
        proof {
            assert(found[j as int] == copied@);
            assert(found.take(j + 1).drop_last() =~= found.take(j as int));
            assert(found.take(j + 1).last() == copied@);
        }
        put_group(&mut sorted, copied);
        j += 1;
    }
    assert(found.take(found.len() as int) =~= found);
    let ghost want = listed(views);
    let ghost order = group_views(sorted@);
    let mut r: Vec<ModeGroup> = Vec::new();
    let mut k: usize = 0;
    assert(group_views(r@) =~= want.take(0));
    while k < sorted.len()
        invariant
            k <= sorted@.len(),
            order == group_views(sorted@),
            want == order.map_values(|g: GroupView| tidy(g)),
            group_views(r@) == want.take(k as int),
        decreases sorted.len() - k,
    {
        let g = &sorted[k];
        let t = ModeGroup {
            fourcc: g.fourcc.clone(),
            width: g.width,
            height: g.height,
            rates: sort_rates(&g.rates),
        };
        let ghost before = r@;
        proof {
            assert(order[k as int] == g@);
            assert(want[k as int] == t@);
        }
        r.push(t);
        proof {
            assert(group_views(r@) =~= group_views(before).push(t@));
            assert(want.take(k + 1) =~= want.take(k as int).push(t@));
        }
        k += 1;
    }
    assert(want.take(want.len() as int) =~= want);
    r
}

fn copy_rates(rates: &Vec<Single>) -> (r: Vec<Single>)
    ensures
        r@ == rates@,
{
    let mut r: Vec<Single> = Vec::new();
    let mut i: usize = 0;
    while i < rates.len()
        invariant
            i <= rates@.len(),
            r@ =~= rates@.take(i as int),
        decreases rates.len() - i,
    {
        r.push(rates[i]);
        i += 1;
    }
    assert(r@ =~= rates@);
    r
}

/// The groups are printed with the largest areas first, and each with its
/// highest rates first.
pub proof fn listing_descends(modes: Seq<capture::ModeView>, i: int, j: int)
    requires
        0 <= i <= j < listed(modes).len(),
    ensures
        capture::area(listed(modes)[i].width, listed(modes)[i].height) >= capture::area(
            listed(modes)[j].width,
            listed(modes)[j].height,
        ),
        order::ascending(listed(modes)[i].rates, rate_key()),
{
    let s = order::arranged(groups_of(modes), area_key());
    order::arranged_ascends(groups_of(modes), area_key());
    order::arranged_ascends(s[i].rates, rate_key());
    let key = area_key();
    assert(key(s[i]) <= key(s[j]));
}

/// Whether a group lists a rate.
pub open spec fn lists(g: GroupView, r: Single) -> bool {
    exists|k: int| 0 <= k < g.rates.len() && (#[trigger] g.rates[k] == r || g.rates[k].equals(r))
}

/// Whether a group is the one of a mode and lists its rate.
pub open spec fn covers(g: GroupView, m: capture::ModeView) -> bool {
    group_of(m)(g) && lists(g, m.fps)
}

/// Whether a mode is one of a group, with this rate.
pub open spec fn gives(m: capture::ModeView, g: GroupView, r: Single) -> bool {
    group_of(m)(g) && m.fps == r
}

/// Whether some mode of a list is one of a group, with this rate.
pub open spec fn given(modes: Seq<capture::ModeView>, g: GroupView, r: Single) -> bool {
    exists|m: int| 0 <= m < modes.len() && gives(#[trigger] modes[m], g, r)
}

/// Whether two groups have the same format and size.
pub open spec fn alike(a: GroupView, b: GroupView) -> bool {
    a.fourcc == b.fourcc && a.width == b.width && a.height == b.height
}

/// Whether no two rates of a list are equal.
pub open spec fn apart(rates: Seq<Single>) -> bool {
    forall|j: int, k: int|
        0 <= j < k < rates.len() ==> !(#[trigger] rates[j]).equals(#[trigger] rates[k])
}

/// What holds of the groups of a list of modes: no two are alike, each mode has
/// its group, each rate comes from a mode, and no rate is there twice.
pub open spec fn faithful(groups: Seq<GroupView>, modes: Seq<capture::ModeView>) -> bool {
    &&& forall|a: int, b: int|
        0 <= a < b < groups.len() ==> !alike(#[trigger] groups[a], #[trigger] groups[b])
    &&& forall|m: int|
        0 <= m < modes.len() ==> exists|i: int|
            0 <= i < groups.len() && covers(#[trigger] groups[i], #[trigger] modes[m])
    &&& forall|i: int, k: int|
        0 <= i < groups.len() && 0 <= k < groups[i].rates.len() ==> given(
            modes,
            groups[i],
            #[trigger] groups[i].rates[k],
        )
    &&& forall|i: int| 0 <= i < groups.len() ==> apart((#[trigger] groups[i]).rates)
}

proof fn groups_are_faithful(modes: Seq<capture::ModeView>)
    ensures
        faithful(groups_of(modes), modes),
    decreases modes.len(),
{
    if modes.len() > 0 {
        let before = modes.drop_last();
        let m = modes.last();
        let old_groups = groups_of(before);
        let groups = groups_of(modes);
        let at = order::first(old_groups, group_of(m));
        groups_are_faithful(before);
        order::first_means(old_groups, group_of(m));
        one_more_is_faithful(old_groups, groups, before, modes, at);
    }
}

proof fn one_more_is_faithful(
    held: Seq<GroupView>,
    groups: Seq<GroupView>,
    before: Seq<capture::ModeView>,
    modes: Seq<capture::ModeView>,
    at: int,
)
    requires
        modes.len() > 0,
        before == modes.drop_last(),
        faithful(held, before),
        groups == with_mode(held, modes.last()),
        at == order::first(held, group_of(modes.last())),
        0 <= at <= held.len(),
        at < held.len() ==> group_of(modes.last())(held[at]),
        forall|k: int| 0 <= k < at ==> !group_of(modes.last())(#[trigger] held[k]),
    ensures
        faithful(groups, modes),
{
    let m = modes.last();
    let last = modes.len() - 1;
    let known = at < held.len() && probe::has_rate(held[at].rates, m.fps);
    assert(modes[last] == m);
    assert forall|i: int| 0 <= i < held.len() implies alike(held[i], groups[i]) && forall|r: Single|
        #[trigger] lists(held[i], r) ==> lists(groups[i], r) by {
        if i == at && !known {
            assert forall|r: Single| #[trigger] lists(held[i], r) implies lists(groups[i], r) by {
                let k = choose|k: int|
                    0 <= k < held[i].rates.len() && (#[trigger] held[i].rates[k] == r
                        || held[i].rates[k].equals(r));
                assert(groups[i].rates[k] == held[i].rates[k]);
            }
        }
    }
    assert forall|a: int, b: int| 0 <= a < b < groups.len() implies !alike(
        #[trigger] groups[a],
        #[trigger] groups[b],
    ) by {
        assert(alike(held[a], groups[a]));
        if b < held.len() {
            assert(alike(held[b], groups[b]));
            assert(!alike(held[a], held[b]));
        } else {
            assert(!group_of(m)(held[a]));
        }
    }
    assert forall|x: int| 0 <= x < modes.len() implies exists|i: int|
        0 <= i < groups.len() && covers(#[trigger] groups[i], #[trigger] modes[x]) by {
        if x < last {
            assert(before[x] == modes[x]);
            let i = choose|i: int| 0 <= i < held.len() && covers(#[trigger] held[i], before[x]);
            assert(alike(held[i], groups[i]));
            assert(lists(held[i], modes[x].fps));
            assert(covers(groups[i], modes[x]));
        } else {
            if known {
                let k = choose|k: int|
                    0 <= k < held[at].rates.len() && (#[trigger] held[at].rates[k]).equals(m.fps);
                assert(groups[at].rates[k].equals(m.fps));
            } else {
                let k = groups[at].rates.len() - 1;
                assert(groups[at].rates[k] == m.fps);
            }
            assert(covers(groups[at], modes[x]));
        }
    }
    assert forall|i: int, k: int|
        0 <= i < groups.len() && 0 <= k < groups[i].rates.len() implies given(
        modes,
        groups[i],
        #[trigger] groups[i].rates[k],
    ) by {
        let r = groups[i].rates[k];
        if i < held.len() && k < held[i].rates.len() {
            assert(held[i].rates[k] == r);
            assert(given(before, held[i], r));
            let x = choose|x: int|
                0 <= x < before.len() && gives(#[trigger] before[x], held[i], r);
            assert(alike(held[i], groups[i]));
            assert(before[x] == modes[x]);
            assert(gives(modes[x], groups[i], r));
        } else {
            assert(i == at && r == m.fps);
            assert(gives(modes[last], groups[i], r));
        }
    }
    assert forall|i: int| 0 <= i < groups.len() implies apart((#[trigger] groups[i]).rates) by {
        if i < held.len() {
            assert(apart(held[i].rates));
            if i == at && !known {
                let (o, n) = (held[i].rates, groups[i].rates);
                assert forall|j: int, k: int| 0 <= j < k < n.len() implies !(
                #[trigger] n[j]).equals(#[trigger] n[k]) by {
                    assert(n[j] == o[j]);
                    if k < o.len() {
                        assert(n[k] == o[k]);
                    }
                }
            }
        }
    }
}

/// What stands in the list is a tidy group of the modes.
proof fn listed_place(modes: Seq<capture::ModeView>, i: int) -> (at: int)
    requires
        0 <= i < listed(modes).len(),
    ensures
        0 <= at < groups_of(modes).len(),
        listed(modes)[i] == tidy(groups_of(modes)[at]),
        order::arranged(groups_of(modes), area_key())[i] == groups_of(modes)[at],
{
    let groups = groups_of(modes);
    let order = order::arranged(groups, area_key());
    order::arranged_keeps(groups, area_key());
    assert(order.contains(order[i]));
    choose|at: int| 0 <= at < groups.len() && groups[at] == order[i]
}

/// Each mode has its group in the list, and no two groups have the same format
/// and size: a format and size of the modes has exactly one group, which lists
/// all rates of its modes.
pub proof fn modes_are_listed_once(modes: Seq<capture::ModeView>)
    ensures
        forall|m: int|
            0 <= m < modes.len() ==> exists|i: int|
                0 <= i < listed(modes).len() && covers(
                    #[trigger] listed(modes)[i],
                    #[trigger] modes[m],
                ),
        forall|i: int, j: int|
            0 <= i < j < listed(modes).len() ==> !alike(
                #[trigger] listed(modes)[i],
                #[trigger] listed(modes)[j],
            ),
{
    let groups = groups_of(modes);
    let order = order::arranged(groups, area_key());
    let all = listed(modes);
    groups_are_faithful(modes);
    order::arranged_keeps(groups, area_key());
    order::arranged_ascends(groups, area_key());
    assert forall|m: int| 0 <= m < modes.len() implies exists|i: int|
        0 <= i < all.len() && covers(#[trigger] all[i], #[trigger] modes[m]) by {
        let at = choose|at: int| 0 <= at < groups.len() && covers(#[trigger] groups[at], modes[m]);
        assert(order.contains(groups[at]));
        let i = choose|i: int| 0 <= i < order.len() && order[i] == groups[at];
        let r = modes[m].fps;
        let k = choose|k: int|
            0 <= k < groups[at].rates.len() && (#[trigger] groups[at].rates[k] == r
                || groups[at].rates[k].equals(r));
        let x = groups[at].rates[k];
        order::arranged_keeps(groups[at].rates, rate_key());
        assert(groups[at].rates.contains(x));
        assert(all[i].rates.contains(x));
        let y = choose|y: int| 0 <= y < all[i].rates.len() && all[i].rates[y] == x;
        assert(all[i].rates[y] == r || all[i].rates[y].equals(r));
        assert(covers(all[i], modes[m]));
    }
    assert forall|i: int, j: int| 0 <= i < j < all.len() implies !alike(
        #[trigger] all[i],
        #[trigger] all[j],
    ) by {
        let a = listed_place(modes, i);
        let b = listed_place(modes, j);
        assert forall|x: int, y: int|
            0 <= x < groups.len() && 0 <= y < groups.len() && x != y implies groups[x]
            != groups[y] by {
            if x < y {
                assert(!alike(groups[x], groups[y]));
            } else {
                assert(!alike(groups[y], groups[x]));
            }
        }
        assert(groups.no_duplicates());
        assert(order[i] != order[j]);
        if a < b {
            assert(!alike(groups[a], groups[b]));
        } else {
            assert(!alike(groups[b], groups[a]));
        }
    }
}

/// A group lists only rates of its modes.
pub proof fn listed_rates_are_given(modes: Seq<capture::ModeView>, i: int, k: int)
    requires
        0 <= i < listed(modes).len(),
        0 <= k < listed(modes)[i].rates.len(),
    ensures
        given(modes, listed(modes)[i], listed(modes)[i].rates[k]),
{
    let groups = groups_of(modes);
    let g = listed(modes)[i];
    let at = listed_place(modes, i);
    groups_are_faithful(modes);
    order::arranged_keeps(groups[at].rates, rate_key());
    assert(g.rates.contains(g.rates[k]));
    let x = choose|x: int| 0 <= x < groups[at].rates.len() && groups[at].rates[x] == g.rates[k];
    assert(given(modes, groups[at], groups[at].rates[x]));
    let m = choose|m: int|
        0 <= m < modes.len() && gives(#[trigger] modes[m], groups[at], groups[at].rates[x]);
    assert(gives(modes[m], g, g.rates[k]));
}

/// The rates of a group fall from each one to the next, where they are numbers.
pub proof fn listed_rates_fall(modes: Seq<capture::ModeView>, i: int, j: int, k: int)
    requires
        forall|m: int| 0 <= m < modes.len() ==> !(#[trigger] modes[m]).fps.is_nan(),
        0 <= i < listed(modes).len(),
        0 <= j < k < listed(modes)[i].rates.len(),
    ensures
        listed(modes)[i].rates[j].rank() > listed(modes)[i].rates[k].rank(),
{
    let groups = groups_of(modes);
    let at = listed_place(modes, i);
    let held = groups[at].rates;
    let rates = listed(modes)[i].rates;
    let key = rate_key();
    groups_are_faithful(modes);
    order::arranged_keeps(held, key);
    order::arranged_ascends(held, key);
    assert forall|x: int| 0 <= x < held.len() implies !(#[trigger] held[x]).is_nan() by {
        assert(given(modes, groups[at], groups[at].rates[x]));
    }
    assert forall|x: int, y: int| 0 <= x < held.len() && 0 <= y < held.len() && x != y implies (
    #[trigger] held[x]).rank() != (#[trigger] held[y]).rank() by {
        assert(apart(held));
        if x < y {
            assert(!held[x].equals(held[y]));
        } else {
            assert(!held[y].equals(held[x]));
        }
    }
    assert(held.no_duplicates());
    assert(rates.contains(rates[j]) && rates.contains(rates[k]));
    let x = choose|x: int| 0 <= x < held.len() && held[x] == rates[j];
    let y = choose|y: int| 0 <= y < held.len() && held[y] == rates[k];
    assert(rates[j] != rates[k]);
    assert(key(rates[j]) <= key(rates[k]));
}

/// A text filled up with spaces to a width.
pub open spec fn padded(s: Seq<char>, width: nat) -> Seq<char> {
    if s.len() >= width {
        s
    } else {
        s + Seq::new((width - s.len()) as nat, |i: int| ' ')
    }
}

/// A text filled up with spaces to a width.
pub fn pad(s: &str, width: usize) -> (r: String)
    ensures
        r@ == padded(s@, width as nat),
{
    let n = crate::text::chars(s).len();
    let mut r = copy(s);
    let mut i: usize = n;
    while i < width
        invariant
            n == s@.len(),
            n <= i,
            i <= width || i == n,
            r@ =~= s@ + Seq::new((i - n) as nat, |k: int| ' '),
        decreases width - i,
    {
        r.push(' ');
        i += 1;
    }
    assert(r@ =~= padded(s@, width as nat));
    r
}

/// The line of a device.
pub open spec fn device_text(d: capture::DeviceView) -> Seq<char> {
    "  "@ + padded(d.path, 13) + " "@ + d.card + "  ("@ + d.bus + ")"@
}

/// The line of a device.
pub fn device_line(d: &DeviceInfo) -> (r: String)
    ensures
        r@ == device_text(d@),
{
    let mut r = copy("  ");
    append(&mut r, pad(d.path.as_str(), 13).as_str());
    append(&mut r, " ");
    append(&mut r, d.card.as_str());
    append(&mut r, "  (");
    append(&mut r, d.bus.as_str());
    append(&mut r, ")");
    r
}

/// The line of a group; `rates` are its rates as they are shown.
pub fn group_line(g: &ModeGroup, rates: &str) -> (r: String)
    ensures
        r@ == "      "@ + g.fourcc@ + "  "@ + engine::size_text(g.width, g.height) + " @ "@ + rates@,
{
    let mut r = copy("      ");
    append(&mut r, g.fourcc.as_str());
    append(&mut r, "  ");
    append(&mut r, show_size(g.width, g.height).as_str());
    append(&mut r, " @ ");
    append(&mut r, rates);
    r
}

/// The line of an audio source.
pub fn card_line(c: &AudioCard) -> (r: String)
    ensures
        r@ == "  "@ + c.device@ + "  "@ + c.label@,
{
    let mut r = copy("  ");
    append(&mut r, c.device.as_str());
    append(&mut r, "  ");
    append(&mut r, c.label.as_str());
    r
}

} // verus!
