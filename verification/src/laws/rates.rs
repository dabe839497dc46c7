//! Frame rates and texts: how they are computed and compared.

use crate::engine::{measure, rational_fps};
use crate::probe::{frame_rate, Interval};
use crate::single::Single;
use crate::text::{parse_number, replace, trim, write_decimal};
use crate::{engine, single, text};
use vstd::prelude::*;

verus! {

/// Rates that differ by 0.11 or more do not count as the same, and those that
/// differ by less, to the last bit, do.
pub proof fn near_rates_differ_by_a_tenth(a: Single, b: Single, gap: Single)
    requires
        call_ensures(Single::gap, (a, b), gap),
        a.is_finite(),
        b.is_finite(),
    ensures
        a.signed_units() - b.signed_units() >= single::units_of(0x3de1_47ae) || b.signed_units()
            - a.signed_units() >= single::units_of(0x3de1_47ae) ==> gap.bits >= 0x3de1_47ae,
        -(single::units_of(0x3de1_47ad) as int) <= a.signed_units() - b.signed_units()
            <= single::units_of(0x3de1_47ad) ==> gap.bits < 0x3de1_47ae,
{
    let n = single::size(a.signed_units() - b.signed_units());
    if n >= single::units_of(0x3de1_47ae) {
        single::nearest_at_least(n, 1, 0x3de1_47ae);
    }
    if n <= single::units_of(0x3de1_47ad) {
        single::nearest_at_most(n, 1, 0x3de1_47ad);
    }
}

/// The rate of an interval is its denominator over its numerator, rounded to
/// tenths.
pub proof fn intervals_have_rates(
    i: Interval,
    r: Single,
    num: Single,
    den: Single,
    q: Single,
    tenths: Single,
    whole: Single,
    want: Single,
)
    requires
        call_ensures(frame_rate, (i,), r),
        call_ensures(Single::from_integer, (i.numerator as u64,), num),
        call_ensures(Single::from_integer, (i.denominator as u64,), den),
        call_ensures(Single::over, (den, num), q),
        call_ensures(Single::times, (q, Single { bits: 0x4120_0000 }), tenths),
        call_ensures(Single::round, (tenths,), whole),
        call_ensures(Single::over, (whole, Single { bits: 0x4120_0000 }), want),
    ensures
        r == want,
{
    assert(num.bits as nat == single::nearest(i.numerator as nat * single::one(), 1));
    assert(den.bits as nat == single::nearest(i.denominator as nat * single::one(), 1));
}

/// A measured rate is the number of frames over the seconds, rounded to tenths.
pub proof fn measured_rates_are_frames_over_seconds(
    frames: u64,
    seconds: Single,
    r: Single,
    n: Single,
    q: Single,
    tenths: Single,
    whole: Single,
    want: Single,
)
    requires
        call_ensures(measure, (frames, seconds), r),
        call_ensures(Single::from_integer, (frames,), n),
        call_ensures(Single::over, (n, seconds), q),
        call_ensures(Single::times, (q, Single { bits: 0x4120_0000 }), tenths),
        call_ensures(Single::round, (tenths,), whole),
        call_ensures(Single::over, (whole, Single { bits: 0x4120_0000 }), want),
    ensures
        r == want,
{
    assert(n.bits as nat == single::nearest(frames as nat * single::one(), 1));
}

/// A rate other than 59.94 is sent as the fraction of its thousandths, rounded.
pub proof fn sent_rates_are_thousandths(fps: Single, r: (i32, i32), scaled: Single, t: i64)
    requires
        call_ensures(rational_fps, (fps,), r),
        fps.bits != 0x426f_c28f,
        call_ensures(Single::times, (fps, Single { bits: 0x447a_0000 }), scaled),
        call_ensures(Single::round_to_i64, (scaled,), t),
        0 <= t <= i32::MAX,
    ensures
        r.1 > 0,
        r.0 * 1000 == t * r.1,
{
    assert(engine::thousandths(fps) == t);
    engine::rates_are_lowest(fps);
}

/// A number that is written in decimal is read back.
pub proof fn numbers_are_read_back(n: u32, s: String, t: &str, r: Option<u32>)
    requires
        call_ensures(write_decimal, (n as u64,), s),
        t@ == s@,
        call_ensures(parse_number, (t,), r),
    ensures
        r == Some(n),
        forall|i: int| 0 <= i < s@.len() ==> '0' <= #[trigger] s@[i] <= '9',
{
    text::decimal_reads_back(n);
    text::decimal_is_digits(n as nat);
    assert forall|i: int| 0 <= i < s@.len() implies '0' <= #[trigger] s@[i] <= '9' by {
        assert(text::is_digit(text::decimal(n as nat)[i]));
    }
}

proof fn start_is_trimmed(s: Seq<char>) -> (from: int)
    ensures
        0 <= from <= s.len(),
        text::trimmed_start(s) == s.skip(from),
        forall|i: int| 0 <= i < from ==> text::white_space(#[trigger] s[i]),
        from < s.len() ==> !text::white_space(s[from]),
    decreases s.len(),
{
    if s.len() > 0 && text::white_space(s[0]) {
        let t = s.skip(1);
        let from = start_is_trimmed(t);
        assert(t.skip(from) =~= s.skip(from + 1));
        assert forall|i: int| 0 <= i < from + 1 implies text::white_space(#[trigger] s[i]) by {
            if i > 0 {
                assert(t[i - 1] == s[i]);
            }
        }
        from + 1
    } else {
        assert(s.skip(0) =~= s);
        0
    }
}

proof fn end_is_trimmed(s: Seq<char>) -> (to: int)
    ensures
        0 <= to <= s.len(),
        text::trimmed_end(s) == s.take(to),
        forall|i: int| to <= i < s.len() ==> text::white_space(#[trigger] s[i]),
        to > 0 ==> !text::white_space(s[to - 1]),
    decreases s.len(),
{
    if s.len() > 0 && text::white_space(s.last()) {
        let t = s.drop_last();
        let to = end_is_trimmed(t);
        assert(t.take(to) =~= s.take(to));
        assert forall|i: int| to <= i < s.len() implies text::white_space(#[trigger] s[i]) by {
            if i < t.len() {
                assert(t[i] == s[i]);
            }
        }
        to
    } else {
        assert(s.take(s.len() as int) =~= s);
        s.len() as int
    }
}

/// Trimming takes white space away at both ends, all of it and nothing else.
pub proof fn white_space_is_trimmed(s: &str, r: String) -> (from: int)
    requires
        call_ensures(trim, (s,), r),
    ensures
        0 <= from && from + r@.len() <= s@.len(),
        r@ == s@.subrange(from, from + r@.len()),
        forall|i: int| 0 <= i < from ==> text::white_space(#[trigger] s@[i]),
        forall|i: int| from + r@.len() <= i < s@.len() ==> text::white_space(#[trigger] s@[i]),
        r@.len() > 0 ==> !text::white_space(r@[0]) && !text::white_space(r@.last()),
{
    let from = start_is_trimmed(s@);
    let t = s@.skip(from);
    let to = end_is_trimmed(t);
    assert(t.take(to) =~= s@.subrange(from, from + to));
    assert forall|i: int| from + to <= i < s@.len() implies text::white_space(
        #[trigger] s@[i],
    ) by {
        assert(t[i - from] == s@[i]);
    }
    if to > 0 {
        assert(r@[0] == s@[from]);
        assert(r@.last() == t[to - 1]);
    }
    from
}

/// The characters that count as white space in what the system reports.
pub proof fn blanks_are_white_space()
    ensures
        text::white_space(' ') && text::white_space('\t') && text::white_space('\n')
            && text::white_space('\r'),
        forall|c: char| '!' <= c <= '~' ==> !#[trigger] text::white_space(c),
{
}

/// Replacing changes one character and keeps all others in their places.
pub proof fn replacing_keeps_places(s: &str, from: char, to: char, r: String, i: int)
    requires
        call_ensures(replace, (s, from, to), r),
        0 <= i < s@.len(),
    ensures
        r@.len() == s@.len(),
        s@[i] == from ==> r@[i] == to,
        s@[i] != from ==> r@[i] == s@[i],
{
}

} // verus!
