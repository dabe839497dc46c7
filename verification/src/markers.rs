//! The marker segments of a JPEG image: what they define in front of the first
//! scan, and which scans follow.

use vstd::prelude::*;

verus! {

/// Which of four numbered tables are defined.
#[derive(Clone, Copy, Debug, PartialEq, Eq, Structural)]
pub struct Slots {
    pub zero: bool,
    pub one: bool,
    pub two: bool,
    pub three: bool,
}

impl Slots {
    /// Whether a table is defined.
    pub open spec fn has(self, i: u8) -> bool {
        ||| i == 0 && self.zero
        ||| i == 1 && self.one
        ||| i == 2 && self.two
        ||| i == 3 && self.three
    }

    /// The tables with one more.
    pub open spec fn with(self, i: u8) -> Slots {
        Slots {
            zero: self.zero || i == 0,
            one: self.one || i == 1,
            two: self.two || i == 2,
            three: self.three || i == 3,
        }
    }

    /// No table.
    fn none() -> (r: Slots)
        ensures
            r == no_slots(),
    {
        Slots { zero: false, one: false, two: false, three: false }
    }

    /// Whether a table is defined.
    pub(crate) fn defines(&self, i: u8) -> (r: bool)
        ensures
            r == self.has(i),
    {
        match i {
            0 => self.zero,
            1 => self.one,
            2 => self.two,
            3 => self.three,
            _ => false,
        }
    }

    /// The tables with one more.
    pub(crate) fn adding(&self, i: u8) -> (r: Slots)
        ensures
            r == self.with(i),
    {
        Slots {
            zero: self.zero || i == 0,
            one: self.one || i == 1,
            two: self.two || i == 2,
            three: self.three || i == 3,
        }
    }
}

/// No table.
pub open spec fn no_slots() -> Slots {
    Slots { zero: false, one: false, two: false, three: false }
}

/// What the components of an image stand for.
#[derive(Clone, Copy, Debug, PartialEq, Eq, Structural)]
pub enum Colours {
    Luma,
    YCbCr,
    Rgb,
    Cmyk,
    Ycck,
}

/// The frame of an image: three bytes for each component stand from `at` on.
#[derive(Clone, Copy, Debug, PartialEq, Eq, Structural)]
pub struct Layout {
    pub progressive: bool,
    pub width: u16,
    pub height: u16,
    pub count: u8,
    pub at: usize,
}

/// A scan of an image: two bytes for each component in it stand from `at` on,
/// its data from `end` on.
#[derive(Clone, Copy, Debug, PartialEq, Eq, Structural)]
pub struct Scan {
    pub count: u8,
    pub at: usize,
    pub end: usize,
}

/// What the segments in front of the first scan define.
#[derive(Clone, Copy, Debug, PartialEq, Eq, Structural)]
pub struct Headers {
    /// Huffman tables for the constant and for the other coefficients.
    pub dc: Slots,
    pub ac: Slots,
    /// Quantization tables.
    pub quant: Slots,
    /// Whether the image is a frame of a film that leaves out the usual tables.
    pub film: bool,
    pub colours: Colours,
    pub layout: Option<Layout>,
}

/// Two bytes as a number, the high one first.
pub open spec fn word(s: Seq<u8>, p: int) -> int {
    s[p] * 256 + s[p + 1]
}

/// Where `n` bytes from `p` on end, at most the end of the image.
pub open spec fn past(s: Seq<u8>, p: int, n: int) -> int {
    if p + n <= s.len() {
        p + n
    } else {
        s.len() as int
    }
}

/// Whether a marker stands at `p`: a byte after `0xff` that is neither `0xff`
/// nor zero.
pub open spec fn marker_at(s: Seq<u8>, p: int) -> bool {
    s[p - 1] == 0xff && s[p] != 0xff && s[p] != 0
}

/// Where the first marker after `p` stands; the end of the image where there
/// is none.
pub open spec fn next_marker(s: Seq<u8>, p: int) -> int
    decreases s.len() - p,
{
    if p + 1 >= s.len() {
        s.len() as int
    } else if marker_at(s, p + 1) {
        p + 1
    } else {
        next_marker(s, p + 1)
    }
}

pub(crate) fn find_marker(s: &[u8], from: usize) -> (r: usize)
    requires
        from <= s@.len(),
    ensures
        r == next_marker(s@, from as int),
        r <= s@.len(),
        r > from || r == s@.len(),
{
    let n = s.len();
    let mut p: usize = from;
    while p < n && n - p > 1
        invariant
            n == s@.len(),
            from <= p <= n,
            next_marker(s@, p as int) == next_marker(s@, from as int),
        decreases n - p,
    {
        if s[p] == 0xff && s[p + 1] != 0xff && s[p + 1] != 0 {
            return p + 1;
        }
        p += 1;
    }
    n
}

/// The sum of `n` bytes from `p` on.
pub open spec fn total(s: Seq<u8>, p: int, n: nat) -> int
    decreases n,
{
    if n == 0 {
        0
    } else {
        total(s, p, (n - 1) as nat) + s[p + n - 1]
    }
}

/// The Huffman tables after a segment with `left` bytes of definitions from
/// `p` on; none where it is malformed. Whether the codes of a table make sense
/// is not asked.
pub open spec fn huffman(s: Seq<u8>, p: int, left: int, dc: Slots, ac: Slots) -> Option<
    (Slots, Slots),
>
    decreases left,
{
    if left <= 16 {
        if left == 0 {
            Some((dc, ac))
        } else {
            None
        }
    } else if p + 17 > s.len() || s[p] % 16 > 3 || s[p] / 16 > 1 {
        None
    } else {
        let symbols = total(s, p + 1, 16);
        if symbols < 0 || symbols > 256 || symbols > left - 17 || p + 17 + symbols > s.len() {
            None
        } else if s[p] / 16 == 0 {
            huffman(s, p + 17 + symbols, left - 17 - symbols, dc.with(s[p] % 16), ac)
        } else {
            huffman(s, p + 17 + symbols, left - 17 - symbols, dc, ac.with(s[p] % 16))
        }
    }
}

fn sum(s: &[u8], p: usize) -> (r: usize)
    requires
        p + 16 <= s@.len(),
    ensures
        r == total(s@, p as int, 16),
        r <= 16 * 255,
{
    let mut r: usize = 0;
    let mut i: usize = 0;
    while i < 16
        invariant
            i <= 16,
            p + 16 <= s.len(),
            r == total(s@, p as int, i as nat),
            r <= i * 255,
        decreases 16 - i,
    {
        r += s[p + i] as usize;
        i += 1;
    }
    r
}

fn read_huffman(s: &[u8], from: usize, length: usize, dc: Slots, ac: Slots) -> (r: Option<
    (Slots, Slots),
>)
    requires
        from <= s@.len(),
    ensures
        r == huffman(s@, from as int, length as int, dc, ac),
{
    let n = s.len();
    let mut p: usize = from;
    let mut left: usize = length;
    let mut dcs: Slots = dc;
    let mut acs: Slots = ac;
    while left > 16
        invariant
            n == s@.len(),
            p <= n,
            huffman(s@, p as int, left as int, dcs, acs) == huffman(
                s@,
                from as int,
                length as int,
                dc,
                ac,
            ),
        decreases left,
    {
        if n - p < 17 || s[p] % 16 > 3 || s[p] / 16 > 1 {
            return None;
        }
        let symbols = sum(s, p + 1);
        if symbols > 256 || symbols > left - 17 || symbols > n - p - 17 {
            return None;
        }
        if s[p] / 16 == 0 {
            dcs = dcs.adding(s[p] % 16);
        } else {
            acs = acs.adding(s[p] % 16);
        }
        p = p + 17 + symbols;
        left = left - 17 - symbols;
    }
    if left == 0 {
        Some((dcs, acs))
    } else {
        None
    }
}

/// The quantization tables after a segment with `left` bytes of definitions
/// from `p` on; none where it is malformed.
pub open spec fn quantization(s: Seq<u8>, p: int, left: int, tables: Slots) -> Option<Slots>
    decreases left,
{
    if left <= 0 {
        Some(tables)
    } else if p >= s.len() || s[p] / 16 > 1 || s[p] % 16 > 3 {
        None
    } else {
        let size = 65 + s[p] / 16 * 64;
        if size > left || p + size > s.len() {
            None
        } else {
            quantization(s, p + size, left - size, tables.with(s[p] % 16))
        }
    }
}

fn read_quantization(s: &[u8], from: usize, length: usize, tables: Slots) -> (r: Option<Slots>)
    requires
        from <= s@.len(),
    ensures
        r == quantization(s@, from as int, length as int, tables),
{
    let n = s.len();
    let mut p: usize = from;
    let mut left: usize = length;
    let mut slots: Slots = tables;
    while left > 0
        invariant
            n == s@.len(),
            p <= n,
            quantization(s@, p as int, left as int, slots) == quantization(
                s@,
                from as int,
                length as int,
                tables,
            ),
        decreases left,
    {
        if p >= n || s[p] / 16 > 1 || s[p] % 16 > 3 {
            return None;
        }
        let size = 65 + (s[p] / 16) as usize * 64;
        if size > left || size > n - p {
            return None;
        }
        slots = slots.adding(s[p] % 16);
        p = p + size;
        left = left - size;
    }
    Some(slots)
}

/// The identifier of component `k` of a frame.
pub open spec fn label(s: Seq<u8>, l: Layout, k: int) -> u8 {
    s[l.at + 3 * k]
}

/// How many samples component `k` has across where another may have more.
pub open spec fn across(s: Seq<u8>, l: Layout, k: int) -> u8 {
    s[l.at + 3 * k + 1] / 16
}

/// How many samples component `k` has down where another may have more.
pub open spec fn down(s: Seq<u8>, l: Layout, k: int) -> u8 {
    s[l.at + 3 * k + 1] % 16
}

/// The quantization table of component `k`.
pub open spec fn table(s: Seq<u8>, l: Layout, k: int) -> u8 {
    s[l.at + 3 * k + 2]
}

/// Whether a number of samples is a power of two.
pub open spec fn power(x: u8) -> bool {
    x == 1 || x == 2 || x == 4 || x == 8
}

/// Whether the description of component `k` makes sense.
pub open spec fn sound(s: Seq<u8>, l: Layout, k: int) -> bool {
    power(across(s, l, k)) && power(down(s, l, k)) && table(s, l, k) < 4
}

/// The largest width and height that the decoder takes.
pub const LARGEST: u16 = 16384;

impl Layout {
    /// Whether this is the frame of an image with these bytes.
    pub open spec fn fits(self, s: Seq<u8>) -> bool {
        &&& 1 <= self.width <= LARGEST
        &&& 1 <= self.height <= LARGEST
        &&& 1 <= self.count <= 4
        &&& self.at + 3 * self.count <= s.len()
        &&& forall|k: int| 0 <= k < self.count ==> #[trigger] sound(s, self, k)
    }
}

/// The frame whose segment stands at `p`; none where it is malformed or not
/// supported.
pub open spec fn layout(s: Seq<u8>, p: int, progressive: bool) -> Option<Layout> {
    let l = Layout {
        progressive,
        height: word(s, p + 3) as u16,
        width: word(s, p + 5) as u16,
        count: s[p + 7],
        at: (p + 8) as usize,
    };
    if p + 8 <= s.len() && s[p + 2] == 8 && l.fits(s) && word(s, p) == 8 + 3 * l.count {
        Some(l)
    } else {
        None
    }
}

fn read_word(s: &[u8], p: usize) -> (r: u16)
    requires
        p + 2 <= s@.len(),
    ensures
        r == word(s@, p as int),
{
    s[p] as u16 * 256 + s[p + 1] as u16
}

fn is_power(x: u8) -> (r: bool)
    ensures
        r == power(x),
{
    x == 1 || x == 2 || x == 4 || x == 8
}

/// The byte that holds the samples of component `k` across and down.
pub(crate) fn samples(s: &[u8], l: &Layout, k: usize) -> (r: u8)
    requires
        l.at + 3 * l.count <= s@.len(),
        k < l.count,
    ensures
        r / 16 == across(s@, *l, k as int),
        r % 16 == down(s@, *l, k as int),
{
    assert(s@.len() == s.len());
    s[l.at + 3 * k + 1]
}

fn all_sound(s: &[u8], l: &Layout) -> (r: bool)
    requires
        l.at + 3 * l.count <= s@.len(),
    ensures
        r == forall|k: int| 0 <= k < l.count ==> #[trigger] sound(s@, *l, k),
{
    let mut k: usize = 0;
    while k < l.count as usize
        invariant
            k <= l.count,
            l.at + 3 * l.count <= s.len(),
            forall|j: int| 0 <= j < k ==> #[trigger] sound(s@, *l, j),
        decreases l.count - k,
    {
        let both = samples(s, l, k);
        if !is_power(both / 16) || !is_power(both % 16) || s[l.at + 3 * k + 2] > 3 {
            assert(!sound(s@, *l, k as int));
            return false;
        }
        k += 1;
    }
    true
}

fn read_layout(s: &[u8], p: usize, progressive: bool) -> (r: Option<Layout>)
    requires
        p <= s@.len(),
    ensures
        r == layout(s@, p as int, progressive),
{
    let n = s.len();
    if n - p < 8 {
        return None;
    }
    let l = Layout {
        progressive,
        height: read_word(s, p + 3),
        width: read_word(s, p + 5),
        count: s[p + 7],
        at: p + 8,
    };
    if s[p + 2] != 8 || l.width < 1 || l.width > LARGEST || l.height < 1 || l.height > LARGEST
        || l.count < 1 || l.count > 4 || n - l.at < 3 * l.count as usize || read_word(s, p) != 8 + 3
        * l.count as u16 {
        return None;
    }
    if all_sound(s, &l) {
        Some(l)
    } else {
        None
    }
}

/// Whether entry `i` of a scan from `at` on names component `k` of the frame.
pub open spec fn names(s: Seq<u8>, l: Layout, at: int, i: int, k: int) -> bool {
    0 <= k < l.count && s[at + 2 * i] == label(s, l, k)
}

/// Whether entry `i` of a scan names a component of the frame that no entry in
/// front of it names.
pub open spec fn named(s: Seq<u8>, l: Layout, at: int, i: int) -> bool {
    &&& exists|k: int| #[trigger] names(s, l, at, i, k)
    &&& forall|j: int| 0 <= j < i ==> #[trigger] s[at + 2 * j] != s[at + 2 * i]
}

/// Whether the first `n` entries of a scan name different components of the
/// frame.
pub open spec fn all_named(s: Seq<u8>, l: Layout, at: int, n: int) -> bool {
    forall|i: int| 0 <= i < n ==> #[trigger] named(s, l, at, i)
}

/// Whether the three bytes behind the entries of a scan are in range.
pub open spec fn selected(s: Seq<u8>, p: int) -> bool {
    s[p] <= 63 && s[p + 1] <= 63 && s[p + 2] / 16 <= 13 && s[p + 2] % 16 <= 13
}

/// The scan whose segment stands at `p`; none where it is malformed.
pub open spec fn scan(s: Seq<u8>, p: int, l: Layout) -> Option<Scan> {
    let n = s[p + 2];
    if p + 3 <= s.len() && 1 <= n <= 4 && word(s, p) == 6 + 2 * n && p + 6 + 2 * n <= s.len()
        && selected(s, p + 3 + 2 * n) && all_named(s, l, p + 3, n as int) {
        Some(Scan { count: n, at: (p + 3) as usize, end: (p + 6 + 2 * n) as usize })
    } else {
        None
    }
}

/// Whether component `k` is the first one that entry `i` of a scan names.
pub open spec fn chosen(s: Seq<u8>, l: Layout, at: int, i: int, k: int) -> bool {
    names(s, l, at, i, k) && forall|j: int| 0 <= j < k ==> !names(s, l, at, i, j)
}

/// Which component of the frame entry `i` of a scan names; the number of
/// components where it names none.
pub(crate) fn component(s: &[u8], l: &Layout, at: usize, i: usize) -> (r: usize)
    requires
        l.fits(s@),
        at + 2 * i < s@.len(),
    ensures
        r <= l.count,
        r < l.count ==> chosen(s@, *l, at as int, i as int, r as int),
        forall|k: int| 0 <= k < r ==> !names(s@, *l, at as int, i as int, k),
{
    let mut k: usize = 0;
    while k < l.count as usize
        invariant
            k <= l.count,
            l.fits(s@),
            at + 2 * i < s.len(),
            forall|j: int| 0 <= j < k ==> !names(s@, *l, at as int, i as int, j),
        decreases l.count - k,
    {
        if s[l.at + 3 * k] == s[at + 2 * i] {
            return k;
        }
        k += 1;
    }
    k
}

fn is_named(s: &[u8], l: &Layout, at: usize, i: usize) -> (r: bool)
    requires
        l.fits(s@),
        at + 2 * i < s@.len(),
    ensures
        r == named(s@, *l, at as int, i as int),
{
    let k = component(s, l, at, i);
    if k == l.count as usize {
        return false;
    }
    assert(names(s@, *l, at as int, i as int, k as int));
    let mut j: usize = 0;
    while j < i
        invariant
            j <= i,
            at + 2 * i < s.len(),
            forall|k: int| 0 <= k < j ==> #[trigger] s@[at + 2 * k] != s@[at + 2 * i],
        decreases i - j,
    {
        if s[at + 2 * j] == s[at + 2 * i] {
            assert(s@[at + 2 * (j as int)] == s@[at + 2 * i]);
            return false;
        }
        j += 1;
    }
    true
}

fn are_named(s: &[u8], l: &Layout, at: usize, count: usize) -> (r: bool)
    requires
        l.fits(s@),
        at + 2 * count < s@.len(),
    ensures
        r == all_named(s@, *l, at as int, count as int),
{
    let mut i: usize = 0;
    while i < count
        invariant
            i <= count,
            at + 2 * count < s.len(),
            l.fits(s@),
            forall|j: int| 0 <= j < i ==> #[trigger] named(s@, *l, at as int, j),
        decreases count - i,
    {
        if !is_named(s, l, at, i) {
            return false;
        }
        i += 1;
    }
    true
}

pub(crate) fn read_scan(s: &[u8], p: usize, l: &Layout) -> (r: Option<Scan>)
    requires
        p <= s@.len(),
        l.fits(s@),
    ensures
        r == scan(s@, p as int, *l),
{
    let n = s.len();
    if n - p < 3 {
        return None;
    }
    let count = s[p + 2];
    if count < 1 || count > 4 || read_word(s, p) != 6 + 2 * count as u16 || n - p < 6 + 2
        * count as usize {
        return None;
    }
    let last = p + 3 + 2 * count as usize;
    if s[last] > 63 || s[last + 1] > 63 || s[last + 2] / 16 > 13 || s[last + 2] % 16 > 13 {
        return None;
    }
    if are_named(s, l, p + 3, count as usize) {
        Some(Scan { count, at: p + 3, end: last + 3 })
    } else {
        None
    }
}

/// Whether these bytes stand at `p`.
pub open spec fn reads(s: Seq<u8>, p: int, text: Seq<u8>) -> bool {
    p + text.len() <= s.len() && s.subrange(p, p + text.len()) == text
}

fn has_text(s: &[u8], p: usize, text: &[u8]) -> (r: bool)
    requires
        p <= s@.len(),
    ensures
        r == reads(s@, p as int, text@),
{
    let n = s.len();
    let m = text.len();
    if n - p < m {
        return false;
    }
    let mut i: usize = 0;
    while i < m
        invariant
            n == s@.len(),
            m == text@.len(),
            i <= m,
            p + m <= n,
            forall|j: int| 0 <= j < i ==> s@[p + j] == #[trigger] text@[j],
        decreases m - i,
    {
        if s[p + i] != text[i] {
            assert(s@.subrange(p as int, p + m)[i as int] != text@[i as int]);
            return false;
        }
        i += 1;
    }
    assert(s@.subrange(p as int, p + m) =~= text@);
    true
}

/// The mark of a frame of a film: `AVI1` and a zero.
pub open spec fn film_mark() -> Seq<u8> {
    seq![0x41, 0x56, 0x49, 0x31, 0]
}

/// `Adobe`.
pub open spec fn adobe_mark() -> Seq<u8> {
    seq![0x41, 0x64, 0x6f, 0x62, 0x65]
}

/// `Photoshop 3.0`.
pub open spec fn caption_mark() -> Seq<u8> {
    seq![0x50, 0x68, 0x6f, 0x74, 0x6f, 0x73, 0x68, 0x6f, 0x70, 0x20, 0x33, 0x2e, 0x30]
}

fn is_film(s: &[u8], p: usize) -> (r: bool)
    requires
        p <= s@.len(),
    ensures
        r == reads(s@, p as int, film_mark()),
{
    let mark: [u8; 5] = [0x41, 0x56, 0x49, 0x31, 0];
    assert(mark@ =~= film_mark());
    has_text(s, p, &mark)
}

fn is_adobe(s: &[u8], p: usize) -> (r: bool)
    requires
        p <= s@.len(),
    ensures
        r == reads(s@, p as int, adobe_mark()),
{
    let mark: [u8; 5] = [0x41, 0x64, 0x6f, 0x62, 0x65];
    assert(mark@ =~= adobe_mark());
    has_text(s, p, &mark)
}

fn is_caption(s: &[u8], p: usize) -> (r: bool)
    requires
        p <= s@.len(),
    ensures
        r == reads(s@, p as int, caption_mark()),
{
    let mark: [u8; 13] = [
        0x50,
        0x68,
        0x6f,
        0x74,
        0x6f,
        0x73,
        0x68,
        0x6f,
        0x70,
        0x20,
        0x33,
        0x2e,
        0x30,
    ];
    assert(mark@ =~= caption_mark());
    has_text(s, p, &mark)
}

/// The bytes that follow `0xff` in a marker.
pub const FRAME: u8 = 0xc0;
pub const LONG_FRAME: u8 = 0xc1;
pub const PROGRESSIVE_FRAME: u8 = 0xc2;
pub const HUFFMAN: u8 = 0xc4;
pub const ARITHMETIC: u8 = 0xcc;
pub const FIRST_RESTART: u8 = 0xd0;
pub const LAST_RESTART: u8 = 0xd7;
pub const IMAGE_END: u8 = 0xd9;
pub const SCAN: u8 = 0xda;
pub const QUANTIZATION: u8 = 0xdb;
pub const LINES: u8 = 0xdc;
pub const INTERVAL: u8 = 0xdd;
pub const NOTE: u8 = 0xe0;
pub const METADATA: u8 = 0xe1;
pub const PROFILE: u8 = 0xe2;
pub const CAPTION: u8 = 0xed;
pub const ADOBE: u8 = 0xee;
pub const COMMENT: u8 = 0xfe;

/// What the headers say after the segment of the marker `m` whose length
/// stands at `p`, and where the search for the next marker starts; none where
/// the decoder gives up.
pub open spec fn segment(h: Headers, s: Seq<u8>, p: int, m: u8) -> Option<(Headers, int)> {
    let n = word(s, p);
    let next = past(s, p, n);
    if p + 2 > s.len() || n < 2 {
        None
    } else if m == FRAME || m == LONG_FRAME || m == PROGRESSIVE_FRAME {
        match (h.layout, layout(s, p, m == PROGRESSIVE_FRAME)) {
            (None, Some(l)) => Some(
                (Headers { layout: Some(l), colours: framed(h.colours, l.count), ..h }, next),
            ),
            _ => None,
        }
    } else if m == HUFFMAN {
        match huffman(s, p + 2, n - 2, h.dc, h.ac) {
            Some((dc, ac)) => Some((Headers { dc, ac, ..h }, next)),
            None => None,
        }
    } else if m == QUANTIZATION {
        match quantization(s, p + 2, n - 2, h.quant) {
            Some(quant) => Some((Headers { quant, ..h }, next)),
            None => None,
        }
    } else if m == ARITHMETIC || m == LINES || m == IMAGE_END {
        None
    } else if m == INTERVAL {
        if n == 4 && p + 4 <= s.len() {
            Some((h, next))
        } else {
            None
        }
    } else if m == NOTE {
        if n > 5 && p + 7 <= s.len() {
            let film = h.film || reads(s, p + 2, film_mark());
            Some((Headers { film, ..h }, if n == 6 { p + 7 } else { next }))
        } else {
            Some((h, next))
        }
    } else if m == METADATA || m == PROFILE {
        if p + n <= s.len() {
            Some((h, next))
        } else {
            None
        }
    } else if m == CAPTION {
        if n > 15 && (p + 15 > s.len() || reads(s, p + 2, caption_mark()) && p + n > s.len()) {
            None
        } else {
            Some((h, next))
        }
    } else if m == ADOBE {
        if p + n > s.len() || n < 14 {
            None
        } else if !reads(s, p + 2, adobe_mark()) {
            Some((h, next))
        } else if s[p + 13] == 0 {
            Some((Headers { colours: Colours::Cmyk, ..h }, next))
        } else if s[p + 13] == 1 {
            Some((Headers { colours: Colours::YCbCr, ..h }, next))
        } else if s[p + 13] == 2 {
            Some((Headers { colours: Colours::Ycck, ..h }, next))
        } else {
            None
        }
    } else {
        Some((h, next))
    }
}

/// What the components stand for once their number is known.
pub open spec fn framed(colours: Colours, count: u8) -> Colours {
    if count == 1 {
        Colours::Luma
    } else if count == 4 && colours == Colours::YCbCr {
        Colours::Cmyk
    } else {
        colours
    }
}

impl Headers {
    /// Whether the frame, if there is one, is that of an image with these
    /// bytes.
    pub open spec fn fits(self, s: Seq<u8>) -> bool {
        match self.layout {
            Some(l) => l.fits(s),
            None => true,
        }
    }
}

fn read_frame(h: &Headers, s: &[u8], p: usize, next: usize, m: u8) -> (r: Option<(Headers, usize)>)
    requires
        p + 2 <= s@.len(),
        word(s@, p as int) >= 2,
        next == past(s@, p as int, word(s@, p as int)),
        m == FRAME || m == LONG_FRAME || m == PROGRESSIVE_FRAME,
    ensures
        match r {
            Some((h2, q)) => segment(*h, s@, p as int, m) == Some((h2, q as int)) && q == next
                && h2.fits(s@),
            None => segment(*h, s@, p as int, m) is None,
        },
{
    if h.layout.is_some() {
        return None;
    }
    match read_layout(s, p, m == PROGRESSIVE_FRAME) {
        Some(l) => {
            let colours = if l.count == 1 {
                Colours::Luma
            } else if l.count == 4 && h.colours == Colours::YCbCr {
                Colours::Cmyk
            } else {
                h.colours
            };
            Some((Headers { layout: Some(l), colours, ..*h }, next))
        },
        None => None,
    }
}

fn read_adobe(h: &Headers, s: &[u8], p: usize, next: usize) -> (r: Option<(Headers, usize)>)
    requires
        p + 2 <= s@.len(),
        word(s@, p as int) >= 2,
        next == past(s@, p as int, word(s@, p as int)),
        h.fits(s@),
    ensures
        match r {
            Some((h2, q)) => segment(*h, s@, p as int, ADOBE) == Some((h2, q as int)) && q == next
                && h2.fits(s@),
            None => segment(*h, s@, p as int, ADOBE) is None,
        },
{
    let left = s.len() - p;
    let n = read_word(s, p) as usize;
    if left < n || n < 14 {
        return None;
    }
    if !is_adobe(s, p + 2) {
        return Some((*h, next));
    }
    let colours = match s[p + 13] {
        0 => Colours::Cmyk,
        1 => Colours::YCbCr,
        2 => Colours::Ycck,
        _ => return None,
    };
    Some((Headers { colours, ..*h }, next))
}

pub(crate) fn read_segment(h: &Headers, s: &[u8], p: usize, m: u8) -> (r: Option<(Headers, usize)>)
    requires
        p <= s@.len(),
        h.fits(s@),
    ensures
        match r {
            Some((h2, q)) => segment(*h, s@, p as int, m) == Some((h2, q as int)) && p < q
                <= s@.len() && h2.fits(s@),
            None => segment(*h, s@, p as int, m) is None,
        },
{
    let left = s.len() - p;
    if left < 2 {
        return None;
    }
    let n = read_word(s, p) as usize;
    if n < 2 {
        return None;
    }
    let next = if n <= left {
        p + n
    } else {
        s.len()
    };
    if m == FRAME || m == LONG_FRAME || m == PROGRESSIVE_FRAME {
        read_frame(h, s, p, next, m)
    } else if m == HUFFMAN {
        match read_huffman(s, p + 2, n - 2, h.dc, h.ac) {
            Some((dc, ac)) => Some((Headers { dc, ac, ..*h }, next)),
            None => None,
        }
    } else if m == QUANTIZATION {
        match read_quantization(s, p + 2, n - 2, h.quant) {
            Some(quant) => Some((Headers { quant, ..*h }, next)),
            None => None,
        }
    } else if m == ARITHMETIC || m == LINES || m == IMAGE_END {
        None
    } else if m == INTERVAL {
        if n == 4 && left >= 4 {
            Some((*h, next))
        } else {
            None
        }
    } else if m == NOTE {
        if n > 5 && left >= 7 {
            let film = h.film || is_film(s, p + 2);
            let q = if n == 6 {
                p + 7
            } else {
                next
            };
            Some((Headers { film, ..*h }, q))
        } else {
            Some((*h, next))
        }
    } else if m == METADATA || m == PROFILE {
        if n <= left {
            Some((*h, next))
        } else {
            None
        }
    } else if m == CAPTION {
        if n > 15 && (left < 15 || is_caption(s, p + 2) && n > left) {
            None
        } else {
            Some((*h, next))
        }
    } else if m == ADOBE {
        read_adobe(h, s, p, next)
    } else {
        Some((*h, next))
    }
}

/// What nothing has been said about yet.
pub open spec fn unsaid() -> Headers {
    Headers {
        dc: no_slots(),
        ac: no_slots(),
        quant: no_slots(),
        film: false,
        colours: Colours::YCbCr,
        layout: None,
    }
}

/// What the headers from `p` on say, and the first scan; none where the decoder
/// gives up in front of it.
pub open spec fn headers(s: Seq<u8>, p: int, h: Headers) -> Option<(Headers, Scan)>
    decreases s.len() - p,
{
    let q = next_marker(s, p);
    if !(p < q < s.len()) {
        None
    } else if s[q] == SCAN {
        match h.layout {
            Some(l) => match scan(s, q + 1, l) {
                Some(first) => Some((h, first)),
                None => None,
            },
            None => None,
        }
    } else {
        match segment(h, s, q + 1, s[q]) {
            Some((h2, next)) => if next > q {
                headers(s, next, h2)
            } else {
                None
            },
            None => None,
        }
    }
}

pub(crate) fn read_headers(s: &[u8], from: usize) -> (r: Option<(Headers, Scan)>)
    requires
        from <= s@.len(),
    ensures
        r == headers(s@, from as int, unsaid()),
        match r {
            Some((h, first)) => h.layout is Some && h.fits(s@) && scan_fits(s@, h.layout->0, first),
            None => true,
        },
{
    let n = s.len();
    let mut p: usize = from;
    let mut h: Headers = Headers {
        dc: Slots::none(),
        ac: Slots::none(),
        quant: Slots::none(),
        film: false,
        colours: Colours::YCbCr,
        layout: None,
    };
    loop
        invariant
            n == s@.len(),
            p <= n,
            h.fits(s@),
            headers(s@, p as int, h) == headers(s@, from as int, unsaid()),
        decreases n - p,
    {
        let q = find_marker(s, p);
        if q >= n {
            return None;
        }
        if s[q] == SCAN {
            return match h.layout {
                Some(l) => match read_scan(s, q + 1, &l) {
                    Some(first) => Some((h, first)),
                    None => None,
                },
                None => None,
            };
        }
        match read_segment(&h, s, q + 1, s[q]) {
            Some((h2, next)) => {
                h = h2;
                p = next;
            },
            None => return None,
        }
    }
}

/// Whether a scan has its entries in the bytes of an image.
pub open spec fn scan_fits(s: Seq<u8>, l: Layout, c: Scan) -> bool {
    &&& 1 <= c.count <= 4
    &&& c.at + 2 * c.count < c.end <= s.len()
    &&& all_named(s, l, c.at as int, c.count as int)
}

/// Whether the decoder knows a marker.
pub open spec fn known(m: u8) -> bool {
    ||| FRAME <= m <= PROGRESSIVE_FRAME
    ||| m == HUFFMAN
    ||| m == ARITHMETIC
    ||| FIRST_RESTART <= m <= INTERVAL
    ||| NOTE <= m <= PROFILE
    ||| m == CAPTION
    ||| m == ADOBE
    ||| m == COMMENT
}

/// Whether a marker is one between two stretches of a scan.
pub open spec fn restart(m: u8) -> bool {
    FIRST_RESTART <= m <= LAST_RESTART
}

pub(crate) fn is_known(m: u8) -> (r: bool)
    ensures
        r == known(m),
{
    (FRAME <= m && m <= PROGRESSIVE_FRAME) || m == HUFFMAN || m == ARITHMETIC || (FIRST_RESTART <= m
        && m <= INTERVAL) || (NOTE <= m && m <= PROFILE) || m == CAPTION || m == ADOBE || m
        == COMMENT
}

} // verus!
