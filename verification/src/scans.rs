//! From which JPEG images the decoder comes back.

use crate::markers::{
    component, find_marker, is_known, read_headers, read_scan, read_segment, Colours, Headers,
    Layout, Scan, Slots, ADOBE, FIRST_RESTART, IMAGE_END, LAST_RESTART, SCAN,
};
use crate::sampling::{can_join, fits_alone, is_gapless, read_grid};
use crate::{markers, sampling};
use vstd::prelude::*;

verus! {

/// How many components an image of these colours has.
pub open spec fn parts(colours: Colours) -> int {
    match colours {
        Colours::Luma => 1,
        Colours::YCbCr => 3,
        Colours::Rgb => 3,
        Colours::Cmyk => 4,
        Colours::Ycck => 4,
    }
}

/// What the decoder takes the components of an image for; none where it gives
/// up because there are too few.
pub open spec fn taken(colours: Colours, count: u8) -> Option<Colours> {
    if colours == Colours::Cmyk && count == 3 {
        Some(Colours::Rgb)
    } else if parts(colours) <= count {
        Some(colours)
    } else if colours == Colours::Ycck {
        Some(Colours::YCbCr)
    } else {
        None
    }
}

/// Whether the colours are luma and chroma, with or without black.
pub open spec fn chromatic(colours: Colours) -> bool {
    colours == Colours::YCbCr || colours == Colours::Ycck
}

impl Headers {
    /// The Huffman tables for the constant coefficient, with those that a film
    /// leaves out.
    pub open spec fn constants(self) -> Slots {
        if self.film {
            self.dc.with(0).with(1)
        } else {
            self.dc
        }
    }

    /// The Huffman tables for the other coefficients, with those that a film
    /// leaves out.
    pub open spec fn others(self) -> Slots {
        if self.film {
            self.ac.with(0).with(1)
        } else {
            self.ac
        }
    }

    /// Whether every component has its quantization table.
    pub open spec fn quantized(self, s: Seq<u8>, l: Layout) -> bool {
        forall|k: int| 0 <= k < l.count ==> self.quant.has(#[trigger] markers::table(s, l, k))
    }

    fn get_constants(&self) -> (r: Slots)
        ensures
            r == self.constants(),
    {
        if self.film {
            self.dc.adding(0).adding(1)
        } else {
            self.dc
        }
    }

    fn get_others(&self) -> (r: Slots)
        ensures
            r == self.others(),
    {
        if self.film {
            self.ac.adding(0).adding(1)
        } else {
            self.ac
        }
    }

    fn is_quantized(&self, s: &[u8], l: &Layout) -> (r: bool)
        requires
            l.fits(s@),
        ensures
            r == self.quantized(s@, *l),
    {
        let mut k: usize = 0;
        while k < l.count as usize
            invariant
                k <= l.count,
                l.at + 3 * l.count <= s.len(),
                forall|j: int| 0 <= j < k ==> self.quant.has(#[trigger] markers::table(s@, *l, j)),
            decreases l.count - k,
        {
            if !self.quant.defines(s[l.at + 3 * k + 2]) {
                assert(!self.quant.has(markers::table(s@, *l, k as int)));
                return false;
            }
            k += 1;
        }
        true
    }
}

/// Whether the tables that entry `i` of a scan names are defined.
pub open spec fn provided(s: Seq<u8>, at: int, i: int, dc: Slots, ac: Slots) -> bool {
    dc.has(s[at + 2 * i + 1] / 16) && ac.has(s[at + 2 * i + 1] % 16)
}

/// Whether all tables that the components have after the first scan's header
/// are defined: a component that the scan does not name has the first ones.
pub open spec fn all_provided(s: Seq<u8>, l: Layout, c: Scan, dc: Slots, ac: Slots) -> bool {
    &&& forall|i: int| 0 <= i < c.count ==> #[trigger] provided(s, c.at as int, i, dc, ac)
    &&& c.count < l.count ==> dc.has(0) && ac.has(0)
}

fn are_provided(s: &[u8], l: &Layout, c: &Scan, dc: &Slots, ac: &Slots) -> (r: bool)
    requires
        c.at + 2 * c.count <= s@.len(),
    ensures
        r == all_provided(s@, *l, *c, *dc, *ac),
{
    let mut i: usize = 0;
    while i < c.count as usize
        invariant
            i <= c.count,
            c.at + 2 * c.count <= s.len(),
            forall|j: int| 0 <= j < i ==> #[trigger] provided(s@, c.at as int, j, *dc, *ac),
        decreases c.count - i,
    {
        let both = s[c.at + 2 * i + 1];
        if !dc.defines(both / 16) || !ac.defines(both % 16) {
            assert(!provided(s@, c.at as int, i as int, *dc, *ac));
            return false;
        }
        i += 1;
    }
    c.count >= l.count || dc.defines(0) && ac.defines(0)
}

/// What the components stand for once the first marker behind `p` has been
/// read, restarts and unknown ones left out.
pub open spec fn late_colours(s: Seq<u8>, p: int, h: Headers) -> Colours
    decreases s.len() - p,
{
    let q = markers::next_marker(s, p);
    if !(p < q < s.len()) {
        h.colours
    } else if markers::restart(s[q]) || !markers::known(s[q]) {
        late_colours(s, q, h)
    } else if s[q] == ADOBE {
        match markers::segment(h, s, q + 1, ADOBE) {
            Some((late, _)) => late.colours,
            None => h.colours,
        }
    } else {
        h.colours
    }
}

/// Whether the tables that entry `i` of a later scan names, counted modulo
/// four, are defined, and the rows of its component have no gaps.
pub open spec fn served(s: Seq<u8>, l: Layout, at: int, i: int, dc: Slots, ac: Slots) -> bool {
    dc.has(s[at + 2 * i + 1] / 16 % 4) && ac.has(s[at + 2 * i + 1] % 16 % 4) && seamless(
        s,
        l,
        at,
        i,
    )
}

/// Whether the rows of the component that entry `i` of a scan names have no
/// gaps.
pub open spec fn seamless(s: Seq<u8>, l: Layout, at: int, i: int) -> bool {
    forall|k: int| #[trigger] markers::chosen(s, l, at, i, k) ==> sampling::gapless(s, l, k)
}

/// Whether a later scan can be decoded.
pub open spec fn all_served(s: Seq<u8>, l: Layout, c: Scan, dc: Slots, ac: Slots) -> bool {
    forall|i: int| 0 <= i < c.count ==> #[trigger] served(s, l, c.at as int, i, dc, ac)
}

/// Whether the scans after `p` can be decoded, up to the first marker that is
/// neither a scan nor a restart, or the first malformed scan.
pub open spec fn scans_served(s: Seq<u8>, p: int, l: Layout, dc: Slots, ac: Slots) -> bool
    decreases s.len() - p,
{
    let q = markers::next_marker(s, p);
    if !(p < q < s.len()) {
        true
    } else if s[q] == SCAN {
        match markers::scan(s, q + 1, l) {
            Some(c) => all_served(s, l, c, dc, ac) && (q < c.end <= s.len() ==> scans_served(
                s,
                c.end as int,
                l,
                dc,
                ac,
            )),
            None => true,
        }
    } else if markers::restart(s[q]) || !markers::known(s[q]) {
        scans_served(s, q, l, dc, ac)
    } else {
        true
    }
}

/// Whether the decoder comes back from a sequential image with only some of its
/// components in the first scan.
pub open spec fn series_returns(s: Seq<u8>, h: Headers, l: Layout, first: Scan) -> bool {
    &&& forall|i: int| 0 <= i < first.count ==> #[trigger] seamless(s, l, first.at as int, i)
    &&& scans_served(s, first.end as int, l, h.constants(), h.others())
}

/// Whether the decoder comes back from a sequential image: the first scan lacks
/// a table, which is an error, or the components can be brought together, and
/// the scans, if there are several, can be decoded. Where all components are in
/// the first scan, the colours may change inside it.
pub open spec fn sequence_returns(
    s: Seq<u8>,
    h: Headers,
    l: Layout,
    first: Scan,
    colours: Colours,
) -> bool {
    ||| !all_provided(s, l, first, h.constants(), h.others())
    ||| {
        &&& sampling::joins(s, l, chromatic(colours))
        &&& if first.count == l.count {
            sampling::joins(s, l, chromatic(late_colours(s, first.end as int, h)))
        } else {
            series_returns(s, h, l, first)
        }
    }
}

/// Whether the decoder can make the pixels of a progressive image of these
/// colours: a fourth component has room only where the colours have it.
pub open spec fn finishes(s: Seq<u8>, l: Layout, colours: Colours) -> bool {
    sampling::joins(s, l, chromatic(colours)) && (l.count == 4 ==> parts(colours) == 4)
}

/// Whether a scan of a progressive image finds its room: one of a single
/// component needs it, and only the first `owned` components have any.
pub open spec fn roomy(s: Seq<u8>, l: Layout, c: Scan, owned: int) -> bool {
    c.count == 1 ==> forall|k: int| #[trigger]
        markers::chosen(s, l, c.at as int, 0, k) ==> k < owned && (l.count == 1
            || sampling::plain(s, l) || sampling::alone(s, l, k))
}

/// What was read last of a progressive image.
#[derive(Clone, Copy, Debug, PartialEq, Eq, Structural)]
pub enum Read {
    Scan,
    Restart,
    Segment,
}

/// Whether the decoder comes back from the rest of a progressive image, from
/// `p` on. It makes the pixels at the end of the image; it may make them where
/// a scan is followed by nothing, or by a marker that it does not know.
pub open spec fn progress(
    s: Seq<u8>,
    p: int,
    h: Headers,
    l: Layout,
    owned: int,
    last: Read,
) -> bool
    decreases s.len() - p,
{
    let q = markers::next_marker(s, p);
    if !(p < q < s.len()) {
        last == Read::Segment || last == Read::Scan && finishes(s, l, h.colours)
    } else if !markers::known(s[q]) {
        last != Read::Segment && finishes(s, l, h.colours) && progress(s, q, h, l, owned, last)
    } else if markers::restart(s[q]) {
        progress(s, q, h, l, owned, Read::Restart)
    } else if s[q] == IMAGE_END {
        finishes(s, l, h.colours)
    } else if s[q] == SCAN {
        match markers::scan(s, q + 1, l) {
            Some(c) => roomy(s, l, c, owned) && (q < c.end <= s.len() ==> progress(
                s,
                c.end as int,
                h,
                l,
                owned,
                Read::Scan,
            )),
            None => true,
        }
    } else {
        match markers::segment(h, s, q + 1, s[q]) {
            Some((late, next)) => q < next <= s.len() ==> progress(
                s,
                next,
                late,
                l,
                owned,
                Read::Segment,
            ),
            None => true,
        }
    }
}

/// Whether the decoder comes back from a progressive image: each component has
/// its place, the scans find their room, and the components can be brought
/// together.
pub open spec fn progression_returns(
    s: Seq<u8>,
    h: Headers,
    l: Layout,
    first: Scan,
    colours: Colours,
) -> bool {
    &&& parts(colours) <= l.count
    &&& roomy(s, l, first, parts(colours))
    &&& progress(
        s,
        first.end as int,
        Headers { colours, ..h },
        l,
        parts(colours),
        Read::Scan,
    )
}

/// Whether the decoder comes back from an image with these headers and this
/// first scan.
pub open spec fn image_returns(s: Seq<u8>, h: Headers, l: Layout, first: Scan) -> bool {
    match taken(h.colours, l.count) {
        Some(colours) => {
            ||| !h.quantized(s, l)
            ||| l.progressive && progression_returns(s, h, l, first, colours)
            ||| !l.progressive && sequence_returns(s, h, l, first, colours)
        },
        None => true,
    }
}

/// Whether the decoder comes back from an image, with pixels or with an error,
/// whatever its scan data hold. It does where the headers are malformed;
/// otherwise the headers and the later markers decide. The other images have a
/// fault at which it panics, and whether it gets there depends on the scan data.
/// It may come upon an error first; and data that run on behind the last row of a
/// scan can keep it from a fault in what follows.
pub open spec fn readable(s: Seq<u8>) -> bool {
    if !begins(s) {
        true
    } else {
        match markers::headers(s, 2, markers::unsaid()) {
            Some((h, first)) => image_returns(s, h, h.layout->0, first),
            None => true,
        }
    }
}

/// Whether bytes begin as an image does.
pub open spec fn begins(s: Seq<u8>) -> bool {
    s.len() >= 2 && s[0] == 0xff && s[1] == 0xd8
}

/// Whether an image has one component, of luma.
pub open spec fn grey(s: Seq<u8>) -> bool {
    begins(s) && match markers::headers(s, 2, markers::unsaid()) {
        Some((h, _)) => h.layout->0.count == 1,
        None => false,
    }
}

fn is_seamless(s: &[u8], l: &Layout, at: usize, i: usize) -> (r: bool)
    requires
        l.fits(s@),
        at + 2 * i < s@.len(),
    ensures
        r == seamless(s@, *l, at as int, i as int),
{
    let k = component(s, l, at, i);
    if k < l.count as usize {
        assert(markers::chosen(s@, *l, at as int, i as int, k as int));
        let r = is_gapless(s, l, k);
        proof {
            assert forall|j: int| #[trigger]
                markers::chosen(s@, *l, at as int, i as int, j) implies j == k by {
                if j < k {
                    assert(!markers::names(s@, *l, at as int, i as int, j));
                } else if j > k {
                    assert(!markers::names(s@, *l, at as int, i as int, k as int));
                }
            }
        }
        r
    } else {
        true
    }
}

fn is_served(s: &[u8], l: &Layout, c: &Scan, dc: &Slots, ac: &Slots) -> (r: bool)
    requires
        l.fits(s@),
        c.at + 2 * c.count <= s@.len(),
    ensures
        r == all_served(s@, *l, *c, *dc, *ac),
{
    let mut i: usize = 0;
    while i < c.count as usize
        invariant
            i <= c.count,
            l.fits(s@),
            c.at + 2 * c.count <= s.len(),
            forall|j: int| 0 <= j < i ==> #[trigger] served(s@, *l, c.at as int, j, *dc, *ac),
        decreases c.count - i,
    {
        let both = s[c.at + 2 * i + 1];
        if !dc.defines(both / 16 % 4) || !ac.defines(both % 16 % 4) || !is_seamless(s, l, c.at, i) {
            assert(!served(s@, *l, c.at as int, i as int, *dc, *ac));
            return false;
        }
        i += 1;
    }
    true
}

fn are_served(s: &[u8], from: usize, l: &Layout, dc: &Slots, ac: &Slots) -> (r: bool)
    requires
        from <= s@.len(),
        l.fits(s@),
    ensures
        r == scans_served(s@, from as int, *l, *dc, *ac),
{
    let n = s.len();
    let mut p: usize = from;
    loop
        invariant
            n == s@.len(),
            p <= n,
            l.fits(s@),
            scans_served(s@, p as int, *l, *dc, *ac) == scans_served(
                s@,
                from as int,
                *l,
                *dc,
                *ac,
            ),
        decreases n - p,
    {
        let q = find_marker(s, p);
        if q >= n {
            return true;
        }
        if s[q] == SCAN {
            match read_scan(s, q + 1, l) {
                Some(c) => {
                    if !is_served(s, l, &c, dc, ac) {
                        return false;
                    }
                    p = c.end;
                },
                None => return true,
            }
        } else if is_known(s[q]) && !is_restart(s[q]) {
            return true;
        } else {
            p = q;
        }
    }
}

fn is_series(s: &[u8], h: &Headers, l: &Layout, first: &Scan) -> (r: bool)
    requires
        l.fits(s@),
        markers::scan_fits(s@, *l, *first),
    ensures
        r == series_returns(s@, *h, *l, *first),
{
    let mut i: usize = 0;
    while i < first.count as usize
        invariant
            i <= first.count,
            l.fits(s@),
            first.at + 2 * first.count < s.len(),
            forall|j: int| 0 <= j < i ==> #[trigger] seamless(s@, *l, first.at as int, j),
        decreases first.count - i,
    {
        if !is_seamless(s, l, first.at, i) {
            return false;
        }
        i += 1;
    }
    are_served(s, first.end, l, &h.get_constants(), &h.get_others())
}

fn is_restart(m: u8) -> (r: bool)
    ensures
        r == markers::restart(m),
{
    FIRST_RESTART <= m && m <= LAST_RESTART
}

fn read_late_colours(s: &[u8], from: usize, h: &Headers) -> (r: Colours)
    requires
        from <= s@.len(),
        h.fits(s@),
    ensures
        r == late_colours(s@, from as int, *h),
{
    let n = s.len();
    let mut p: usize = from;
    loop
        invariant
            n == s@.len(),
            p <= n,
            h.fits(s@),
            late_colours(s@, p as int, *h) == late_colours(s@, from as int, *h),
        decreases n - p,
    {
        let q = find_marker(s, p);
        if q >= n {
            return h.colours;
        }
        if is_known(s[q]) && !is_restart(s[q]) {
            if s[q] == ADOBE {
                return match read_segment(h, s, q + 1, ADOBE) {
                    Some((late, _)) => late.colours,
                    None => h.colours,
                };
            }
            return h.colours;
        }
        p = q;
    }
}

fn is_chromatic(colours: Colours) -> (r: bool)
    ensures
        r == chromatic(colours),
{
    colours == Colours::YCbCr || colours == Colours::Ycck
}

fn count_parts(colours: Colours) -> (r: u8)
    ensures
        r == parts(colours),
{
    match colours {
        Colours::Luma => 1,
        Colours::YCbCr => 3,
        Colours::Rgb => 3,
        Colours::Cmyk => 4,
        Colours::Ycck => 4,
    }
}

fn take(colours: Colours, count: u8) -> (r: Option<Colours>)
    ensures
        r == taken(colours, count),
{
    if colours == Colours::Cmyk && count == 3 {
        Some(Colours::Rgb)
    } else if count_parts(colours) <= count {
        Some(colours)
    } else if colours == Colours::Ycck {
        Some(Colours::YCbCr)
    } else {
        None
    }
}

fn sequence_is_readable(s: &[u8], h: &Headers, l: &Layout, first: &Scan, colours: Colours) -> (r:
    bool)
    requires
        l.fits(s@),
        h.fits(s@),
        markers::scan_fits(s@, *l, *first),
    ensures
        r == sequence_returns(s@, *h, *l, *first, colours),
{
    if !are_provided(s, l, first, &h.get_constants(), &h.get_others()) {
        return true;
    }
    if !can_join(s, l, is_chromatic(colours)) {
        return false;
    }
    if first.count == l.count {
        can_join(s, l, is_chromatic(read_late_colours(s, first.end, h)))
    } else {
        is_series(s, h, l, first)
    }
}

fn can_finish(s: &[u8], l: &Layout, colours: Colours) -> (r: bool)
    requires
        l.fits(s@),
    ensures
        r == finishes(s@, *l, colours),
{
    can_join(s, l, is_chromatic(colours)) && (l.count != 4 || count_parts(colours) == 4)
}

fn is_roomy(s: &[u8], l: &Layout, c: &Scan, owned: u8) -> (r: bool)
    requires
        l.fits(s@),
        markers::scan_fits(s@, *l, *c),
    ensures
        r == roomy(s@, *l, *c, owned as int),
{
    if c.count != 1 {
        return true;
    }
    let k = component(s, l, c.at, 0);
    proof {
        assert(markers::named(s@, *l, c.at as int, 0));
        assert(markers::chosen(s@, *l, c.at as int, 0, k as int));
        assert forall|j: int| #[trigger] markers::chosen(s@, *l, c.at as int, 0, j) implies j
            == k by {
            if j < k {
                assert(!markers::names(s@, *l, c.at as int, 0, j));
            } else if j > k {
                assert(!markers::names(s@, *l, c.at as int, 0, k as int));
            }
        }
    }
    let g = read_grid(s, l);
    k < owned as usize && (l.count == 1 || g.across == 1 && g.down == 1 || fits_alone(s, l, k))
}

fn progresses(s: &[u8], from: usize, headers: &Headers, l: &Layout, owned: u8) -> (r: bool)
    requires
        from <= s@.len(),
        headers.fits(s@),
        l.fits(s@),
    ensures
        r == progress(s@, from as int, *headers, *l, owned as int, Read::Scan),
{
    let n = s.len();
    let mut p: usize = from;
    let mut h: Headers = *headers;
    let mut last = Read::Scan;
    loop
        invariant
            n == s@.len(),
            p <= n,
            l.fits(s@),
            h.fits(s@),
            progress(s@, p as int, h, *l, owned as int, last) == progress(
                s@,
                from as int,
                *headers,
                *l,
                owned as int,
                Read::Scan,
            ),
        decreases n - p,
    {
        let q = find_marker(s, p);
        if q >= n {
            return last == Read::Segment || last == Read::Scan && can_finish(s, l, h.colours);
        }
        let m = s[q];
        if !is_known(m) {
            if last == Read::Segment || !can_finish(s, l, h.colours) {
                return false;
            }
            p = q;
        } else if is_restart(m) {
            last = Read::Restart;
            p = q;
        } else if m == IMAGE_END {
            return can_finish(s, l, h.colours);
        } else if m == SCAN {
            match read_scan(s, q + 1, l) {
                Some(c) => {
                    if !is_roomy(s, l, &c, owned) {
                        return false;
                    }
                    last = Read::Scan;
                    p = c.end;
                },
                None => return true,
            }
        } else {
            match read_segment(&h, s, q + 1, m) {
                Some((late, next)) => {
                    h = late;
                    last = Read::Segment;
                    p = next;
                },
                None => return true,
            }
        }
    }
}

fn progression_is_readable(
    s: &[u8],
    h: &Headers,
    l: &Layout,
    first: &Scan,
    colours: Colours,
) -> (r: bool)
    requires
        l.fits(s@),
        h.fits(s@),
        markers::scan_fits(s@, *l, *first),
    ensures
        r == progression_returns(s@, *h, *l, *first, colours),
{
    let n = count_parts(colours);
    n <= l.count && is_roomy(s, l, first, n) && progresses(
        s,
        first.end,
        &Headers { colours, ..*h },
        l,
        n,
    )
}

fn has_start(s: &[u8]) -> (r: bool)
    ensures
        r == begins(s@),
{
    s.len() >= 2 && s[0] == 0xff && s[1] == 0xd8
}

/// Whether an image has one component, of luma.
pub fn is_grey(s: &[u8]) -> (r: bool)
    ensures
        r == grey(s@),
{
    if !has_start(s) {
        return false;
    }
    match read_headers(s, 2) {
        Some((h, _)) => match h.layout {
            Some(l) => l.count == 1,
            None => false,
        },
        None => false,
    }
}

/// Whether the decoder comes back from an image, with pixels or with an error.
pub fn jpeg_readable(s: &[u8]) -> (r: bool)
    ensures
        r == readable(s@),
{
    if !has_start(s) {
        return true;
    }
    match read_headers(s, 2) {
        Some((h, first)) => match h.layout {
            Some(l) => match take(h.colours, l.count) {
                Some(colours) => if !h.is_quantized(s, &l) {
                    true
                } else if l.progressive {
                    progression_is_readable(s, &h, &l, &first, colours)
                } else {
                    sequence_is_readable(s, &h, &l, &first, colours)
                },
                None => true,
            },
            None => true,
        },
        None => true,
    }
}

/// The decoder comes back from every sequential image with the usual samples
/// whose first scan holds all components, or whose scans lack no table.
pub proof fn usual_sequences_are_readable(s: Seq<u8>, h: Headers, l: Layout, first: Scan)
    requires
        l.fits(s),
        !l.progressive,
        sampling::usual(s, l),
        first.count == l.count || scans_served(
            s,
            first.end as int,
            l,
            h.constants(),
            h.others(),
        ),
    ensures
        image_returns(s, h, l, first),
{
    sampling::usual_frames_join(s, l, true);
    sampling::usual_frames_join(s, l, false);
}

/// A progressive image with the usual samples, in colours with as many
/// components, finds room for every scan, and its pixels can be made even where
/// a late mark names other colours.
pub proof fn usual_progressions_have_room(s: Seq<u8>, l: Layout, c: Scan, late: Colours)
    requires
        l.fits(s),
        sampling::usual(s, l),
    ensures
        roomy(s, l, c, l.count as int),
        finishes(s, l, late),
{
    sampling::usual_frames_join(s, l, chromatic(late));
    if l.count == 3 {
        sampling::usual_components_fit(s, l);
    }
}

} // verus!
