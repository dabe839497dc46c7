//! The measures of a JPEG frame whose components have different numbers of
//! samples, and which of them the decoder can bring together.

use crate::markers::{samples, Layout, LARGEST};
use crate::markers;
use vstd::prelude::*;

verus! {

/// The most samples across that a component up to `k` has.
pub open spec fn widest(s: Seq<u8>, l: Layout, k: int) -> int
    decreases k,
{
    let most = if k <= 0 {
        1
    } else {
        widest(s, l, k - 1)
    };
    if markers::across(s, l, k) > most {
        markers::across(s, l, k) as int
    } else {
        most
    }
}

/// The most samples down that a component up to `k` has.
pub open spec fn tallest(s: Seq<u8>, l: Layout, k: int) -> int
    decreases k,
{
    let most = if k <= 0 {
        1
    } else {
        tallest(s, l, k - 1)
    };
    if markers::down(s, l, k) > most {
        markers::down(s, l, k) as int
    } else {
        most
    }
}

/// How many groups of `most` blocks of eight samples cover an extent.
pub open spec fn groups(extent: int, most: int) -> int {
    (extent + 8 * most - 1) / (8 * most)
}

/// The samples in a row of component `k`, as the decoder stores it: it counts
/// with the components up to that one.
pub open spec fn stride(s: Seq<u8>, l: Layout, k: int) -> int {
    8 * markers::across(s, l, k) * groups(l.width as int, widest(s, l, k))
}

/// The measures of a frame: the most samples that a component has across and
/// down, and the groups of blocks across and down.
#[derive(Clone, Copy, Debug, PartialEq, Eq, Structural)]
pub struct Grid {
    pub across: u64,
    pub down: u64,
    pub columns: u64,
    pub rows: u64,
}

/// The measures of a frame.
pub open spec fn grid(s: Seq<u8>, l: Layout) -> Grid {
    let across = widest(s, l, l.count - 1);
    let down = tallest(s, l, l.count - 1);
    Grid {
        across: across as u64,
        down: down as u64,
        columns: groups(l.width as int, across) as u64,
        rows: groups(l.height as int, down) as u64,
    }
}

proof fn extremes(s: Seq<u8>, l: Layout, k: int)
    requires
        l.fits(s),
        0 <= k < l.count,
    ensures
        markers::power(widest(s, l, k) as u8),
        markers::power(tallest(s, l, k) as u8),
        1 <= widest(s, l, k) <= 8,
        1 <= tallest(s, l, k) <= 8,
        markers::across(s, l, k) <= widest(s, l, k),
        markers::down(s, l, k) <= tallest(s, l, k),
    decreases k,
{
    assert(markers::sound(s, l, k));
    if k > 0 {
        extremes(s, l, k - 1);
    }
}

proof fn groups_bounds(extent: int, most: int)
    requires
        1 <= extent <= LARGEST,
        1 <= most <= 8,
    ensures
        1 <= groups(extent, most) <= 2048,
{
    assert(1 <= groups(extent, most) <= 2048) by (nonlinear_arith)
        requires
            1 <= extent <= 16384,
            1 <= most <= 8,
            groups(extent, most) == (extent + 8 * most - 1) / (8 * most),
    ;
}

fn count_groups(extent: u16, most: u64) -> (r: u64)
    requires
        1 <= extent <= LARGEST,
        1 <= most <= 8,
    ensures
        r == groups(extent as int, most as int),
        1 <= r <= 2048,
{
    proof {
        groups_bounds(extent as int, most as int);
    }
    (extent as u64 + 8 * most - 1) / (8 * most)
}

fn measure(s: &[u8], l: &Layout, last: usize) -> (r: (u64, u64))
    requires
        l.fits(s@),
        last < l.count,
    ensures
        r.0 == widest(s@, *l, last as int),
        r.1 == tallest(s@, *l, last as int),
        1 <= r.0 <= 8,
        1 <= r.1 <= 8,
{
    let mut wide: u64 = 1;
    let mut tall: u64 = 1;
    let mut k: usize = 0;
    while k <= last
        invariant
            l.fits(s@),
            last < l.count,
            k <= last + 1,
            k == 0 ==> wide == 1 && tall == 1,
            k > 0 ==> wide == widest(s@, *l, k - 1) && tall == tallest(s@, *l, k - 1),
            1 <= wide <= 8,
            1 <= tall <= 8,
        decreases last + 1 - k,
    {
        proof {
            extremes(s@, *l, k as int);
        }
        let both = samples(s, l, k);
        if (both / 16) as u64 > wide {
            wide = (both / 16) as u64;
        }
        if (both % 16) as u64 > tall {
            tall = (both % 16) as u64;
        }
        k += 1;
    }
    (wide, tall)
}

fn read_stride(s: &[u8], l: &Layout, k: usize) -> (r: u64)
    requires
        l.fits(s@),
        k < l.count,
    ensures
        r == stride(s@, *l, k as int),
        8 <= r <= 131_072,
{
    let (wide, _) = measure(s, l, k);
    let g = count_groups(l.width, wide);
    proof {
        assert(markers::sound(s@, *l, k as int));
    }
    let a = (samples(s, l, k) / 16) as u64;
    proof {
        assert(8 <= 8 * a * g <= 131_072) by (nonlinear_arith)
            requires
                1 <= a <= 8,
                1 <= g <= 2048,
        ;
    }
    8 * a * g
}

pub(crate) fn read_grid(s: &[u8], l: &Layout) -> (r: Grid)
    requires
        l.fits(s@),
    ensures
        r == grid(s@, *l),
        1 <= r.across <= 8,
        1 <= r.down <= 8,
        1 <= r.columns <= 2048,
        1 <= r.rows <= 2048,
{
    let (across, down) = measure(s, l, l.count as usize - 1);
    Grid {
        across,
        down,
        columns: count_groups(l.width, across),
        rows: count_groups(l.height, down),
    }
}

/// By how much component `k` is stretched across.
pub open spec fn wider(s: Seq<u8>, l: Layout, k: int) -> int {
    grid(s, l).across as int / markers::across(s, l, k) as int
}

/// By how much component `k` is stretched down.
pub open spec fn taller(s: Seq<u8>, l: Layout, k: int) -> int {
    grid(s, l).down as int / markers::down(s, l, k) as int
}

/// Whether component `k` is stretched with the rows of the groups above and
/// below.
pub open spec fn blended(s: Seq<u8>, l: Layout, k: int) -> bool {
    taller(s, l, k) == 2 && 1 <= wider(s, l, k) <= 2
}

/// Whether some component is stretched with the rows of the groups above and
/// below.
pub open spec fn any_blended(s: Seq<u8>, l: Layout) -> bool {
    exists|k: int| 0 <= k < l.count && #[trigger] blended(s, l, k)
}

/// How much room the decoder gives to the stretched component `k`: twice the
/// usual one where the first component has two samples in some direction, and
/// this other one has more than one.
pub open spec fn room(s: Seq<u8>, l: Layout, k: int) -> int {
    let pairs = markers::across(s, l, 0) == 2 || markers::down(s, l, 0) == 2;
    let several = markers::across(s, l, k) != 1 || markers::down(s, l, k) != 1;
    if k > 0 && pairs && several {
        2
    } else {
        1
    }
}

/// How many lines of a group of blocks are shown, at most.
pub open spec fn shown(s: Seq<u8>, l: Layout) -> int {
    if 8 * grid(s, l).down < l.height {
        8 * grid(s, l).down
    } else {
        l.height as int
    }
}

/// Whether the decoder can stretch component `k` to the size of the image.
pub open spec fn stretches(s: Seq<u8>, l: Layout, k: int) -> bool {
    let x = wider(s, l, k);
    let y = taller(s, l, k);
    if x == 1 && y == 1 {
        true
    } else if x == 2 && y == 1 {
        markers::down(s, l, k) == room(s, l, k)
    } else if x == 1 && y == 2 {
        markers::down(s, l, k) == 1
    } else if x == 2 && y == 2 {
        markers::down(s, l, k) == 1 && stride(s, l, 0) == 2 * stride(s, l, k)
    } else {
        &&& any_blended(s, l) ==> x * y <= 8
        &&& shown(s, l) * (grid(s, l).across * grid(s, l).columns) <= stride(s, l, k) * (x * y)
            * room(s, l, k)
    }
}

/// Whether each component has one sample for each pixel.
pub open spec fn plain(s: Seq<u8>, l: Layout) -> bool {
    grid(s, l).across == 1 && grid(s, l).down == 1
}

/// Whether the decoder can bring the components of a frame together, where
/// `chroma` says whether it converts from luma and chroma: with three components
/// or more, narrow images are converted in one row of 16 pixels.
pub open spec fn joins(s: Seq<u8>, l: Layout, chroma: bool) -> bool {
    ||| l.count == 1
    ||| plain(s, l)
    ||| {
        &&& forall|k: int| 0 <= k < l.count ==> #[trigger] stretches(s, l, k)
        &&& chroma && l.count >= 3 ==> grid(s, l).across <= 2 || l.width >= 16
    }
}

fn measure_component(s: &[u8], l: &Layout, g: &Grid, k: usize) -> (r: (u64, u64, u64, u64))
    requires
        l.fits(s@),
        *g == grid(s@, *l),
        k < l.count,
    ensures
        r.0 == markers::across(s@, *l, k as int),
        r.1 == markers::down(s@, *l, k as int),
        r.2 == wider(s@, *l, k as int),
        r.3 == taller(s@, *l, k as int),
        1 <= r.0 <= 8,
        1 <= r.1 <= 8,
        r.2 <= 8,
        r.3 <= 8,
{
    proof {
        assert(markers::sound(s@, *l, k as int));
        extremes(s@, *l, l.count - 1);
    }
    let a = (samples(s, l, k) / 16) as u64;
    let d = (samples(s, l, k) % 16) as u64;
    proof {
        assert(g.across as int / a as int <= g.across && g.down as int / d as int <= g.down)
            by (nonlinear_arith)
            requires
                1 <= a,
                1 <= d,
                0 <= g.across,
                0 <= g.down,
        ;
    }
    (a, d, g.across / a, g.down / d)
}

fn has_blended(s: &[u8], l: &Layout, g: &Grid) -> (r: bool)
    requires
        l.fits(s@),
        *g == grid(s@, *l),
    ensures
        r == any_blended(s@, *l),
{
    let mut k: usize = 0;
    while k < l.count as usize
        invariant
            l.fits(s@),
            *g == grid(s@, *l),
            k <= l.count,
            forall|j: int| 0 <= j < k ==> !#[trigger] blended(s@, *l, j),
        decreases l.count - k,
    {
        let (_, _, x, y) = measure_component(s, l, g, k);
        if y == 2 && 1 <= x && x <= 2 {
            assert(blended(s@, *l, k as int));
            return true;
        }
        k += 1;
    }
    false
}

fn get_room(s: &[u8], l: &Layout, k: usize) -> (r: u64)
    requires
        l.fits(s@),
        k < l.count,
    ensures
        r == room(s@, *l, k as int),
        1 <= r <= 2,
{
    let first = samples(s, l, 0);
    let own = samples(s, l, k);
    if k > 0 && (first / 16 == 2 || first % 16 == 2) && (own / 16 != 1 || own % 16 != 1) {
        2
    } else {
        1
    }
}

fn can_stretch(s: &[u8], l: &Layout, g: &Grid, k: usize) -> (r: bool)
    requires
        l.fits(s@),
        *g == grid(s@, *l),
        1 <= g.across <= 8,
        1 <= g.down <= 8,
        1 <= g.columns <= 2048,
        k < l.count,
    ensures
        r == stretches(s@, *l, k as int),
{
    let (_, d, x, y) = measure_component(s, l, g, k);
    let own = read_stride(s, l, k);
    let room = get_room(s, l, k);
    if x == 1 && y == 1 {
        true
    } else if x == 2 && y == 1 {
        d == room
    } else if x == 1 && y == 2 {
        d == 1
    } else if x == 2 && y == 2 {
        d == 1 && read_stride(s, l, 0) == 2 * own
    } else {
        let lines = if 8 * g.down < l.height as u64 {
            8 * g.down
        } else {
            l.height as u64
        };
        proof {
            let (a, c) = (g.across, g.columns);
            assert(0 <= x * y <= 64 && 0 <= a * c <= 16_384) by (nonlinear_arith)
                requires
                    x <= 8,
                    y <= 8,
                    a <= 8,
                    c <= 2048,
            ;
        }
        let area = x * y;
        let pixels = g.across * g.columns;
        proof {
            assert(0 <= lines * pixels <= 1_048_576) by (nonlinear_arith)
                requires
                    lines <= 64,
                    pixels <= 16_384,
            ;
            assert(0 <= own * area <= 8_388_608) by (nonlinear_arith)
                requires
                    own <= 131_072,
                    area <= 64,
            ;
        }
        let held = own * area;
        (!has_blended(s, l, g) || area <= 8) && lines * pixels <= held * room
    }
}

pub(crate) fn can_join(s: &[u8], l: &Layout, chroma: bool) -> (r: bool)
    requires
        l.fits(s@),
    ensures
        r == joins(s@, *l, chroma),
{
    let g = read_grid(s, l);
    if l.count == 1 || g.across == 1 && g.down == 1 {
        return true;
    }
    let mut k: usize = 0;
    while k < l.count as usize
        invariant
            l.fits(s@),
            g == grid(s@, *l),
            1 <= g.across <= 8,
            1 <= g.down <= 8,
            1 <= g.columns <= 2048,
            l.count > 1,
            !plain(s@, *l),
            k <= l.count,
            forall|j: int| 0 <= j < k ==> #[trigger] stretches(s@, *l, j),
        decreases l.count - k,
    {
        if !can_stretch(s, l, &g, k) {
            return false;
        }
        k += 1;
    }
    !chroma || l.count < 3 || g.across <= 2 || l.width >= 16
}

/// Whether the decoder stores the rows of component `k` without gaps, so that
/// those of several scans fit together.
pub open spec fn gapless(s: Seq<u8>, l: Layout, k: int) -> bool {
    stride(s, l, k) == 8 * markers::across(s, l, k) * grid(s, l).columns
}

/// Whether the decoder has room for a scan of component `k` alone.
pub open spec fn alone(s: Seq<u8>, l: Layout, k: int) -> bool {
    let g = grid(s, l);
    let single = k == 0 && (markers::across(s, l, 0) != 1 || markers::down(s, l, 0) != 1);
    let columns = if single {
        groups(l.width as int, 1)
    } else {
        g.columns as int
    };
    let rows = if single {
        groups(l.height as int, 1)
    } else {
        g.rows as int
    };
    let wide = g.columns * markers::across(s, l, k);
    let tall = g.rows * markers::down(s, l, k);
    (rows - 1) * (stride(s, l, k) / 8) + columns <= wide * tall
}

pub(crate) fn is_gapless(s: &[u8], l: &Layout, k: usize) -> (r: bool)
    requires
        l.fits(s@),
        k < l.count,
    ensures
        r == gapless(s@, *l, k as int),
{
    let g = read_grid(s, l);
    let (a, _, _, _) = measure_component(s, l, &g, k);
    proof {
        let c = g.columns;
        assert(0 <= 8 * a * c <= 131_072) by (nonlinear_arith)
            requires
                a <= 8,
                c <= 2048,
        ;
    }
    read_stride(s, l, k) == 8 * a * g.columns
}

pub(crate) fn fits_alone(s: &[u8], l: &Layout, k: usize) -> (r: bool)
    requires
        l.fits(s@),
        k < l.count,
    ensures
        r == alone(s@, *l, k as int),
{
    let g = read_grid(s, l);
    let (a, d, _, _) = measure_component(s, l, &g, k);
    let own = read_stride(s, l, k) / 8;
    let single = k == 0 && (a != 1 || d != 1);
    let columns = if single {
        count_groups(l.width, 1)
    } else {
        g.columns
    };
    let rows = if single {
        count_groups(l.height, 1)
    } else {
        g.rows
    };
    proof {
        let (c, r) = (g.columns, g.rows);
        let above = (rows - 1) as int;
        assert(0 <= above * own <= 2048 * 16_384) by (nonlinear_arith)
            requires
                0 <= above <= 2048,
                own <= 16_384,
        ;
        assert(0 <= c * a <= 16_384 && 0 <= r * d <= 16_384) by (nonlinear_arith)
            requires
                a <= 8,
                d <= 8,
                c <= 2048,
                r <= 2048,
        ;
    }
    let wide = g.columns * a;
    let tall = g.rows * d;
    proof {
        assert(0 <= wide * tall <= 16_384 * 16_384) by (nonlinear_arith)
            requires
                wide <= 16_384,
                tall <= 16_384,
        ;
    }
    (rows - 1) * own + columns <= wide * tall
}

/// Whether a frame has the usual samples: one component, or three of which the
/// first has one or two samples in each direction and the others have one.
pub open spec fn usual(s: Seq<u8>, l: Layout) -> bool {
    ||| l.count == 1
    ||| {
        &&& l.count == 3
        &&& markers::across(s, l, 0) <= 2
        &&& markers::down(s, l, 0) <= 2
        &&& markers::across(s, l, 1) == 1
        &&& markers::down(s, l, 1) == 1
        &&& markers::across(s, l, 2) == 1
        &&& markers::down(s, l, 2) == 1
    }
}

/// The decoder can bring the components of usual frames together, and stores
/// their rows without gaps.
pub proof fn usual_frames_join(s: Seq<u8>, l: Layout, chroma: bool)
    requires
        l.fits(s),
        usual(s, l),
    ensures
        joins(s, l, chroma),
        forall|k: int| 0 <= k < l.count ==> #[trigger] gapless(s, l, k),
{
    usual_measures(s, l);
    let g = grid(s, l);
    groups_bounds(l.width as int, g.across as int);
    assert forall|k: int| 0 <= k < l.count implies #[trigger] gapless(s, l, k) by {
        assert(widest(s, l, k) == g.across);
    }
    if l.count == 3 {
        assert forall|k: int| 0 <= k < l.count implies #[trigger] stretches(s, l, k) by {
            usual_component_stretches(s, l, k);
        }
    }
}

proof fn usual_component_stretches(s: Seq<u8>, l: Layout, k: int)
    requires
        l.fits(s),
        usual(s, l),
        l.count == 3,
        0 <= k < 3,
        gapless(s, l, 0),
        gapless(s, l, k),
    ensures
        stretches(s, l, k),
{
    usual_measures(s, l);
    let g = grid(s, l);
    let (a, d) = (g.across as int, g.down as int);
    if k == 0 {
        assert(a / a == 1 && d / d == 1) by (nonlinear_arith)
            requires
                a >= 1,
                d >= 1,
        ;
        assert(wider(s, l, k) == 1 && taller(s, l, k) == 1);
    } else {
        assert(markers::across(s, l, k) == 1 && markers::down(s, l, k) == 1);
        assert(wider(s, l, k) == a && taller(s, l, k) == d);
        assert(room(s, l, k) == 1);
        assert(stride(s, l, k) == 8 * 1 * g.columns);
        if a == 2 {
            let (w, x, c) = (stride(s, l, 0), stride(s, l, k), g.columns as int);
            assert(w == 2 * x) by (nonlinear_arith)
                requires
                    w == 8 * 2 * c,
                    x == 8 * 1 * c,
            ;
            assert(d == 1 || d == 2);
        } else {
            assert(a == 1 && (d == 1 || d == 2));
        }
    }
}

/// The first component of a usual frame has the most samples.
proof fn usual_measures(s: Seq<u8>, l: Layout)
    requires
        l.fits(s),
        usual(s, l),
    ensures
        forall|k: int| 0 <= k < l.count ==> #[trigger] widest(s, l, k) == markers::across(s, l, 0),
        grid(s, l).across == markers::across(s, l, 0),
        grid(s, l).down == markers::down(s, l, 0),
        grid(s, l).columns == groups(l.width as int, markers::across(s, l, 0) as int),
        grid(s, l).rows == groups(l.height as int, markers::down(s, l, 0) as int),
        1 <= markers::across(s, l, 0) <= 8,
        1 <= markers::down(s, l, 0) <= 8,
{
    reveal_with_fuel(widest, 4);
    reveal_with_fuel(tallest, 4);
    assert(markers::sound(s, l, 0));
    groups_bounds(l.width as int, markers::across(s, l, 0) as int);
    groups_bounds(l.height as int, markers::down(s, l, 0) as int);
}

proof fn doubling_covers(extent: int)
    requires
        1 <= extent <= LARGEST,
    ensures
        groups(extent, 1) <= 2 * groups(extent, 2),
{
    assert(groups(extent, 1) == (extent + 7) / 8);
    assert(groups(extent, 2) == (extent + 15) / 16);
}

/// A scan of one component of a usual frame finds its room.
pub proof fn usual_components_fit(s: Seq<u8>, l: Layout)
    requires
        l.fits(s),
        usual(s, l),
        l.count == 3,
    ensures
        forall|k: int| 0 <= k < l.count ==> #[trigger] alone(s, l, k),
{
    usual_frames_join(s, l, true);
    usual_measures(s, l);
    let g = grid(s, l);
    groups_bounds(l.width as int, g.across as int);
    groups_bounds(l.height as int, g.down as int);
    assert forall|k: int| 0 <= k < l.count implies #[trigger] alone(s, l, k) by {
        assert(gapless(s, l, k));
        let a = markers::across(s, l, k) as int;
        let d = markers::down(s, l, k) as int;
        let (c, r) = (g.columns as int, g.rows as int);
        let (columns, rows) = if k == 0 && (a != 1 || d != 1) {
            (groups(l.width as int, 1), groups(l.height as int, 1))
        } else {
            (c, r)
        };
        doubling_covers(l.width as int);
        doubling_covers(l.height as int);
        groups_bounds(l.width as int, 1);
        groups_bounds(l.height as int, 1);
        assert(1 <= a <= 2 && 1 <= d <= 2);
        assert(a * c == if a == 1 { c } else { 2 * c }) by (nonlinear_arith)
            requires
                1 <= a <= 2,
        ;
        assert(d * r == if d == 1 { r } else { 2 * r }) by (nonlinear_arith)
            requires
                1 <= d <= 2,
        ;
        assert(columns <= a * c && 1 <= rows <= d * r);
        let w = stride(s, l, k);
        let x = a * c;
        assert(w == 8 * x) by (nonlinear_arith)
            requires
                w == 8 * a * c,
                x == a * c,
        ;
        let t = w / 8;
        assert(t == x) by (nonlinear_arith)
            requires
                w == 8 * x,
                t == w / 8,
        ;
        assert((rows - 1) * t + columns <= c * a * (r * d)) by (nonlinear_arith)
            requires
                t == a * c,
                columns <= a * c,
                1 <= rows <= d * r,
                0 <= a * c,
        ;
    }
}

} // verus!
