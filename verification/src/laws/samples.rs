//! Samples and pixels on their way: nothing is lost, doubled or moved.

use crate::engine::Frame;
use crate::pixels::{bgra_to_rgb, downscale_bgra};
use crate::preview::{preview_part, wrap_image};
use crate::pump::{
    alsa_patience, fill_start, read_exact_or_eof, reader_patience, samples_le, FillStep, Patience,
    Pump, PumpAction, PumpEvent, ReadEvent,
};
use crate::{jpeg, pixels, pump};
use vstd::prelude::*;

verus! {

/// A capture hands on all samples in their order, in full blocks; what is left
/// waits for the next read. An error streak is over.
pub proof fn captures_hand_on_all_samples(
    p: &mut Pump,
    s: Vec<i16>,
    action: PumpAction,
    i: int,
)
    requires
        call_ensures(Pump::step, (p, PumpEvent::Samples(s)), action),
        old(p).want() > 0,
    ensures
        final(p).pending().len() < old(p).want(),
        final(p).want() == old(p).want(),
        final(p).errors() == 0,
        action matches PumpAction::Deliver(out) && {
            &&& pump::joined(pump::block_views(out@)) + final(p).pending() == old(p).pending()
                + pump::scaled(s@)
            &&& 0 <= i < out@.len() ==> out@[i]@.len() == old(p).want()
        },
{
    let all = old(p).pending() + pump::scaled(s@);
    let want = old(p).want();
    let n = all.len() as int / want;
    vstd::arithmetic::div_mod::lemma_fundamental_div_mod(all.len() as int, want);
    vstd::arithmetic::mul::lemma_mul_is_commutative(n, want);
    assert(n >= 0) by (nonlinear_arith)
        requires
            n == all.len() as int / want,
            want > 0,
            all.len() >= 0,
    ;
    pump::no_sample_lost(all, want, n);
    pump::blocks_are_full(all, want);
    if let PumpAction::Deliver(out) = action {
        assert(pump::block_views(out@).len() == out@.len());
        if 0 <= i < out@.len() {
            assert(pump::block_views(out@)[i] == out@[i]@);
        }
    }
}

/// A capture waits after an error, complains once in a streak, and gives up when
/// the streak is too long. Samples that wait are kept. Nothing to read is no
/// error, and the end is the end.
pub proof fn captures_take_errors_in_patience(p: &mut Pump, e: PumpEvent, action: PumpAction)
    requires
        call_ensures(Pump::step, (p, e), action),
    ensures
        e is Failed ==> {
            let streak = old(p).errors() + 1;
            &&& final(p).pending() == old(p).pending()
            &&& final(p).errors() == streak
            &&& action is GiveUp <==> streak > old(p).patience().give_up_after
            &&& streak <= old(p).patience().give_up_after ==> (action matches PumpAction::Pause {
                ms,
                complain,
            } && ms == old(p).patience().pause_ms && (complain <==> streak
                == old(p).patience().complain_at))
        },
        e is Nothing ==> final(p).errors() == old(p).errors() && final(p).pending()
            == old(p).pending() && (action matches PumpAction::Pause { ms, complain } && ms == old(
            p,
        ).patience().pause_ms && !complain),
        e is End ==> action is Finish,
{
}

/// How patient captures are.
pub proof fn captures_are_patient(alsa: Patience, reader: Patience)
    requires
        call_ensures(alsa_patience, (), alsa),
        call_ensures(reader_patience, (), reader),
    ensures
        alsa.complain_at == 200 && alsa.give_up_after == 400 && alsa.pause_ms == 5,
        reader.complain_at == 20 && reader.give_up_after == 100 && reader.pause_ms == 10,
{
}

/// Samples are pairs of bytes, the low one first, in two's complement.
pub proof fn samples_are_pairs_of_bytes(raw: &Vec<u8>, r: Vec<i16>, i: int)
    requires
        call_ensures(samples_le, (raw,), r),
        0 <= i < raw@.len() / 2,
    ensures
        r@.len() == raw@.len() / 2,
        (r@[i] - (raw@[2 * i] + 256 * raw@[2 * i + 1])) % 0x1_0000 == 0,
{
    assert(r@[i] == pump::sample_in(raw@[2 * i], raw@[2 * i + 1]));
}

/// A buffer is filled from where the last read ended, until it is full. A read
/// of nothing is the end, and an interrupted one is done again.
pub proof fn buffers_are_filled(
    filled: usize,
    len: usize,
    e: ReadEvent,
    r: FillStep,
    start: FillStep,
)
    requires
        call_ensures(read_exact_or_eof, (filled, len, e), r),
        call_ensures(fill_start, (len,), start),
        filled < len,
        e matches ReadEvent::Bytes(n) ==> n <= len - filled,
    ensures
        start == FillStep::ReadFrom(0),
        e == ReadEvent::Bytes(0) ==> r == FillStep::Ended,
        e == ReadEvent::Interrupted ==> r == FillStep::ReadFrom(filled),
        e == ReadEvent::Failed ==> r == FillStep::Failed,
        e matches ReadEvent::Bytes(n) && n > 0 ==> {
            &&& r == FillStep::Full <==> filled + e->Bytes_0 == len
            &&& filled + e->Bytes_0 < len ==> (r matches FillStep::ReadFrom(at) && at == filled
                + e->Bytes_0)
        },
{
}

/// Whether all bytes `c` of a square of pixels lie between two limits.
pub open spec fn square_within(
    src: Seq<u8>,
    w: int,
    f: int,
    top: int,
    left: int,
    c: int,
    low: u8,
    high: u8,
) -> bool {
    forall|dy: int, dx: int|
        0 <= dy < f && 0 <= dx < f ==> low <= #[trigger] src[((top + dy) * w + left + dx) * 4 + c]
            <= high
}

proof fn row_within(src: Seq<u8>, base: int, c: int, n: nat, low: u8, high: u8)
    requires
        forall|dx: int| 0 <= dx < n ==> low <= #[trigger] src[base + dx * 4 + c] <= high,
    ensures
        n * low <= pixels::row_sum(src, base, c, n) <= n * high,
    decreases n,
{
    if n > 0 {
        row_within(src, base, c, (n - 1) as nat, low, high);
        let last = n - 1;
        assert(low <= src[base + last * 4 + c] <= high);
        assert((n - 1) * low + low == n * low && (n - 1) * high + high == n * high)
            by (nonlinear_arith);
    } else {
        assert(n * low == 0 && n * high == 0) by (nonlinear_arith)
            requires
                n == 0,
        ;
    }
}

proof fn block_within(
    src: Seq<u8>,
    w: int,
    f: nat,
    top: int,
    left: int,
    c: int,
    n: nat,
    low: u8,
    high: u8,
)
    requires
        n <= f,
        square_within(src, w, f as int, top, left, c, low, high),
    ensures
        n * (f * low) <= pixels::block_sum(src, w, f, top, left, c, n) <= n * (f * high),
    decreases n,
{
    let (a, b) = (f * low, f * high);
    if n > 0 {
        block_within(src, w, f, top, left, c, (n - 1) as nat, low, high);
        let base = ((top + n - 1) * w + left) * 4;
        assert forall|dx: int| 0 <= dx < f implies low <= #[trigger] src[base + dx * 4 + c]
            <= high by {
            let dy = n - 1;
            assert(low <= src[((top + dy) * w + left + dx) * 4 + c] <= high);
            assert(((top + dy) * w + left + dx) * 4 + c == base + dx * 4 + c);
        }
        row_within(src, base, c, f, low, high);
        assert((n - 1) * a + a == n * a && (n - 1) * b + b == n * b) by (nonlinear_arith);
    } else {
        assert(n * a == 0 && n * b == 0) by (nonlinear_arith)
            requires
                n == 0,
        ;
    }
}

/// A pixel of a smaller image is the mean of its square: it is not below all of
/// its pixels, nor above all of them, and it is opaque. The image has as many
/// pixels as whole squares fit in.
pub proof fn small_pixels_are_means(
    src: &[u8],
    w: u32,
    h: u32,
    f: u32,
    out: Vec<u8>,
    row: int,
    col: int,
    c: int,
    low: u8,
    high: u8,
)
    requires
        call_ensures(downscale_bgra, (src, w, h, f), out),
        f > 0,
        0 <= row < h as int / f as int,
        0 <= col < w as int / f as int,
        0 <= c < 3,
        square_within(src@, w as int, f as int, row * f, col * f, c, low, high),
    ensures
        out@.len() == (w as int / f as int) * (h as int / f as int) * 4,
        low <= out@[(row * (w as int / f as int) + col) * 4 + c] <= high,
        out@[(row * (w as int / f as int) + col) * 4 + 3] == 255,
{
    let nw = w as int / f as int;
    let nh = h as int / f as int;
    let p = row * nw + col;
    vstd::arithmetic::div_mod::lemma_fundamental_div_mod_converse(p, nw, row, col);
    assert(0 <= p < nw * nh) by (nonlinear_arith)
        requires
            p == row * nw + col,
            0 <= row < nh,
            0 <= col < nw,
    ;
    assert((p * 4 + c) / 4 == p && (p * 4 + c) % 4 == c);
    assert((p * 4 + 3) / 4 == p && (p * 4 + 3) % 4 == 3);
    block_within(src@, w as int, f as nat, row * f, col * f, c, f as nat, low, high);
    let sum = pixels::block_sum(src@, w as int, f as nat, row * f, col * f, c, f as nat) as int;
    let n = (f * f) as int;
    let g = f as int;
    assert(n > 0 && g * (g * low) == n * low && g * (g * high) == n * high) by (nonlinear_arith)
        requires
            n == g * g,
            g > 0,
    ;
    assert(low <= sum / n <= high) by (nonlinear_arith)
        requires
            n > 0,
            n * low <= sum <= n * high,
    ;
}

/// A frame within 960 pixels is encoded as it is, and a wider one in the least
/// whole fraction that is within them, at quality 80 and in a part of its own.
/// None is shown exactly where the image is empty or bytes are missing.
pub proof fn previews_are_encoded_frames(
    f: &Frame,
    r: Option<Vec<u8>>,
    k: u32,
    src: &[u8],
    small: Vec<u8>,
    bgra: &[u8],
    rgb: Vec<u8>,
    jpg: &Vec<u8>,
    part: Vec<u8>,
)
    requires
        call_ensures(preview_part, (f,), r),
        0 < f.width,
        0 < k,
        960 * (k - 1) < f.width <= 960 * k,
        f.height < 0x1_0000,
        src@ == f.bgra@,
        k > 1 ==> call_ensures(downscale_bgra, (src, f.width, f.height, k), small),
        k > 1 ==> bgra@ == small@,
        k == 1 ==> bgra@ == f.bgra@,
        call_ensures(bgra_to_rgb, (bgra,), rgb),
        jpg@ == jpeg::jpeg_image(
            rgb@,
            (f.width as int / k as int) as u16,
            (f.height as int / k as int) as u16,
            80,
        ),
        call_ensures(wrap_image, (jpg,), part),
    ensures
        ({
            let (w, h) = (f.width as int / k as int, f.height as int / k as int);
            &&& w <= 960
            &&& r is Some <==> w > 0 && h > 0 && rgb@.len() >= w * h * 3
            &&& r matches Some(out) ==> out@ == part@
        }),
{
    let (w, h) = (f.width as int / k as int, f.height as int / k as int);
    let x = f.width as int;
    let y = f.height as int;
    assert(0 <= w <= 960 && 0 <= h <= y) by (nonlinear_arith)
        requires
            w == x / (k as int),
            h == y / (k as int),
            0 <= x <= 960 * k,
            0 <= y,
            k >= 1,
    ;
    assert(crate::preview::shrink_factor(f.width) == k);
    if k == 1 {
        assert(w == x && h == y);
    }
    assert(w % 0x1_0000 == w && h % 0x1_0000 == h);
    let small_view = crate::preview::small_image(f@);
    assert(small_view.width == w && small_view.height == h && small_view.bgra == bgra@);
}

} // verus!
