//! The samples of a capture, gathered into blocks.

use crate::single;
use crate::single::Single;
use vstd::prelude::*;

verus! {

/// The frames in a block: 10 ms at 48 kHz.
pub const BLOCK_FRAMES: usize = 480;

/// The sample in two bytes, the low one first.
pub open spec fn sample_in(low: u8, high: u8) -> int {
    let u = low + 256 * high;
    if u < 0x8000 {
        u
    } else {
        u - 0x1_0000
    }
}

/// The samples in pairs of bytes, the low one first; an odd byte at the end is
/// left out.
pub fn samples_le(raw: &Vec<u8>) -> (samples: Vec<i16>)
    ensures
        samples@.len() == raw@.len() / 2,
        forall|i: int|
            0 <= i < samples@.len() ==> #[trigger] samples@[i] == sample_in(
                raw@[2 * i],
                raw@[2 * i + 1],
            ),
{
    let n = raw.len() / 2;
    let mut samples: Vec<i16> = Vec::new();
    let mut i: usize = 0;
    while i < n
        invariant
            n == raw.len() / 2,
            i <= n,
            samples@.len() == i,
            forall|k: int|
                0 <= k < i ==> #[trigger] samples@[k] == sample_in(raw@[2 * k], raw@[2 * k + 1]),
        decreases n - i,
    {
        let u: i32 = raw[2 * i] as i32 + 256 * (raw[2 * i + 1] as i32);
        samples.push(
            if u < 0x8000 {
                u as i16
            } else {
                (u - 0x1_0000) as i16
            },
        );
        i += 1;
    }
    samples
}

/// How a capture takes errors: from how many in a row on it complains, after
/// how many it gives up, and how long it waits after each.
#[derive(Clone, Copy, Debug, PartialEq, Eq, Structural)]
pub struct Patience {
    pub complain_at: u32,
    pub give_up_after: u32,
    pub pause_ms: u64,
}

/// How a capture from an ALSA device takes errors. A stray one right after the
/// start is normal; a long streak means the device is gone or misconfigured.
pub fn alsa_patience() -> (r: Patience)
    ensures
        r == (Patience { complain_at: 200, give_up_after: 400, pause_ms: 5 }),
{
    Patience { complain_at: 200, give_up_after: 400, pause_ms: 5 }
}

/// How a capture from the output of a process takes errors.
pub fn reader_patience() -> (r: Patience)
    ensures
        r == (Patience { complain_at: 20, give_up_after: 100, pause_ms: 10 }),
{
    Patience { complain_at: 20, give_up_after: 100, pause_ms: 10 }
}

/// What a read from a source gave.
#[derive(Clone, Debug)]
pub enum PumpEvent {
    /// Samples, interleaved.
    Samples(Vec<i16>),
    /// Nothing yet.
    Nothing,
    /// An error.
    Failed,
    /// The end: the producer is gone.
    End,
}

/// What a capture does next.
#[derive(Clone, Debug)]
pub enum PumpAction {
    /// Hand on these blocks, and read on. A block that finds no room is
    /// dropped, rather than growing latency.
    Deliver(Vec<Vec<Single>>),
    /// Wait, then read on; with a complaint or without.
    Pause { ms: u64, complain: bool },
    /// Stop: the source no longer delivers.
    GiveUp,
    /// Stop: the source has ended.
    Finish,
}

/// A capture that gathers samples into blocks of one size. Reads return
/// whatever is ready, often slivers; NDI wants sane blocks.
#[derive(Clone, Debug)]
pub struct Pump {
    pending: Vec<Single>,
    errors: u32,
    want: usize,
    patience: Patience,
}

/// Samples as fractions of full scale.
pub open spec fn scaled(samples: Seq<i16>) -> Seq<Single> {
    samples.map_values(|s: i16| Single { bits: single::sample_bits(s) as u32 })
}

/// The first `n` blocks of `want` samples each.
pub open spec fn blocks(all: Seq<Single>, want: int, n: int) -> Seq<Seq<Single>> {
    Seq::new(n as nat, |i: int| all.subrange(i * want, (i + 1) * want))
}

/// The values of a list of blocks.
pub open spec fn block_views(v: Seq<Vec<Single>>) -> Seq<Seq<Single>> {
    v.map_values(|b: Vec<Single>| b@)
}

impl Pump {
    /// The samples that wait for their block to fill.
    pub closed spec fn pending(self) -> Seq<Single> {
        self.pending@
    }

    /// The errors in a row so far.
    pub closed spec fn errors(self) -> int {
        self.errors as int
    }

    /// The samples in a block.
    pub closed spec fn want(self) -> int {
        self.want as int
    }

    pub closed spec fn patience(self) -> Patience {
        self.patience
    }

    /// Less than a block waits, and the capture has not given up.
    pub open spec fn wf(self) -> bool {
        &&& self.want() > 0
        &&& self.pending().len() < self.want()
        &&& 0 <= self.errors() <= self.patience().give_up_after
    }

    /// A capture of `channels` channels.
    pub fn new(channels: u32, patience: Patience) -> (r: Pump)
        requires
            0 < channels,
            BLOCK_FRAMES * channels <= usize::MAX,
        ensures
            r.wf(),
            r.pending() == Seq::<Single>::empty(),
            r.errors() == 0,
            r.want() == BLOCK_FRAMES * channels,
            r.patience() == patience,
    {
        Pump {
            pending: Vec::new(),
            errors: 0,
            want: BLOCK_FRAMES * channels as usize,
            patience,
        }
    }

    /// Takes what a read gave, and tells what to do next.
    pub fn step(&mut self, event: PumpEvent) -> (action: PumpAction)
        requires
            old(self).wf(),
            old(self).patience().give_up_after < u32::MAX,
            event matches PumpEvent::Samples(s) ==> old(self).pending().len() + s@.len()
                <= usize::MAX,
        ensures
            final(self).want() == old(self).want(),
            final(self).patience() == old(self).patience(),
            (match event {
                PumpEvent::Samples(s) => {
                    let all = old(self).pending() + scaled(s@);
                    let n = all.len() as int / old(self).want();
                    &&& final(self).wf()
                    &&& final(self).errors() == 0
                    &&& final(self).pending() == all.skip(n * old(self).want())
                    &&& action matches PumpAction::Deliver(out)
                    &&& block_views(out@) == blocks(all, old(self).want(), n)
                },
                PumpEvent::Nothing => {
                    &&& *final(self) == *old(self)
                    &&& action == PumpAction::Pause {
                        ms: old(self).patience().pause_ms,
                        complain: false,
                    }
                },
                PumpEvent::Failed => {
                    &&& final(self).pending() == old(self).pending()
                    &&& final(self).errors() == old(self).errors() + 1
                    &&& if final(self).errors() > old(self).patience().give_up_after {
                        action == PumpAction::GiveUp
                    } else {
                        final(self).wf() && action == PumpAction::Pause {
                            ms: old(self).patience().pause_ms,
                            complain: final(self).errors() == old(self).patience().complain_at,
                        }
                    }
                },
                PumpEvent::End => *final(self) == *old(self) && action == PumpAction::Finish,
            }),
    {
        match event {
            PumpEvent::Samples(s) => {
                self.errors = 0;
                self.gather(&s);
                PumpAction::Deliver(self.drain())
            },
            PumpEvent::Nothing => PumpAction::Pause { ms: self.patience.pause_ms, complain: false },
            PumpEvent::Failed => {
                self.errors = self.errors + 1;
                if self.errors > self.patience.give_up_after {
                    PumpAction::GiveUp
                } else {
                    PumpAction::Pause {
                        ms: self.patience.pause_ms,
                        complain: self.errors == self.patience.complain_at,
                    }
                }
            },
            PumpEvent::End => PumpAction::Finish,
        }
    }

    /// Appends samples to those that wait.
    fn gather(&mut self, s: &Vec<i16>)
        ensures
            final(self).pending@ == old(self).pending@ + scaled(s@),
            final(self).errors == old(self).errors,
            final(self).want == old(self).want,
            final(self).patience == old(self).patience,
    {
        let mut i: usize = 0;
        while i < s.len()
            invariant
                i <= s@.len(),
                self.pending@ =~= old(self).pending@ + scaled(s@).take(i as int),
                self.errors == old(self).errors,
                self.want == old(self).want,
                self.patience == old(self).patience,
            decreases s.len() - i,
        {
            let x = Single::from_sample(s[i]);
            assert(x == scaled(s@)[i as int]);
            self.pending.push(x);
            i += 1;
        }
        assert(scaled(s@).take(i as int) =~= scaled(s@));
    }

    /// Takes the full blocks out of the samples that wait.
    fn drain(&mut self) -> (out: Vec<Vec<Single>>)
        requires
            old(self).want > 0,
        ensures
            ({
                let all = old(self).pending@;
                let want = old(self).want as int;
                let n = all.len() as int / want;
                &&& block_views(out@) == blocks(all, want, n)
                &&& final(self).pending@ == all.skip(n * want)
                &&& final(self).pending@.len() < want
            }),
            final(self).errors == old(self).errors,
            final(self).want == old(self).want,
            final(self).patience == old(self).patience,
    {
        let ghost all = self.pending@;
        let want = self.want;
        let total = self.pending.len();
        let n = total / want;
        let mut out: Vec<Vec<Single>> = Vec::new();
        let mut b: usize = 0;
        let mut at: usize = 0;
        proof {
            vstd::arithmetic::div_mod::lemma_fundamental_div_mod(total as int, want as int);
            vstd::arithmetic::mul::lemma_mul_is_commutative(n as int, want as int);
        }
        while b < n
            invariant
                *self == *old(self),
                all == self.pending@,
                want == self.want,
                total == all.len(),
                want > 0,
                b <= n,
                n * want <= total,
                at == b * want,
                block_views(out@) =~= blocks(all, want as int, b as int),
            decreases n - b,
        {
            proof {
                assert((b + 1) * want == b * want + want && (b + 1) * want <= n * want)
                    by (nonlinear_arith)
                    requires
                        b + 1 <= n,
                        want > 0,
                ;
            }
            let mut block: Vec<Single> = Vec::new();
            let mut i: usize = 0;
            while i < want
                invariant
                    all == self.pending@,
                    i <= want,
                    at + want <= all.len(),
                    all.len() == total,
                    block@ =~= all.subrange(at as int, at + i),
                decreases want - i,
            {
                block.push(self.pending[at + i]);
                i += 1;
            }
            let ghost before = block_views(out@);
            out.push(block);
            assert(block_views(out@) =~= before.push(block@));
            at += want;
            b += 1;
        }
        let mut rest: Vec<Single> = Vec::new();
        let mut i: usize = at;
        while i < total
            invariant
                *self == *old(self),
                all == self.pending@,
                at <= i <= total,
                total == all.len(),
                rest@ =~= all.subrange(at as int, i as int),
            decreases total - i,
        {
            rest.push(self.pending[i]);
            i += 1;
        }
        assert(rest@ =~= all.skip(at as int));
        self.pending = rest;
        out
    }
}

/// Blocks, one behind the other.
pub open spec fn joined(b: Seq<Seq<Single>>) -> Seq<Single>
    decreases b.len(),
{
    if b.len() == 0 {
        Seq::empty()
    } else {
        joined(b.drop_last()) + b.last()
    }
}

/// The blocks that a capture hands on, one behind the other and followed by
/// what still waits, are all the samples in their order: none is lost, doubled
/// or moved.
pub proof fn no_sample_lost(all: Seq<Single>, want: int, n: int)
    requires
        want > 0,
        0 <= n,
        n * want <= all.len(),
    ensures
        joined(blocks(all, want, n)) + all.skip(n * want) == all,
{
    joined_blocks(all, want, n);
    assert(all.take(n * want) + all.skip(n * want) =~= all);
}

proof fn joined_blocks(all: Seq<Single>, want: int, n: int)
    requires
        want > 0,
        0 <= n,
        n * want <= all.len(),
    ensures
        joined(blocks(all, want, n)) == all.take(n * want),
    decreases n,
{
    if n == 0 {
        assert(all.take(0 * want) =~= Seq::empty());
    } else {
        assert(0 <= (n - 1) * want && (n - 1) * want + want == n * want) by (nonlinear_arith)
            requires
                n >= 1,
                want > 0,
        ;
        joined_blocks(all, want, n - 1);
        assert(blocks(all, want, n).drop_last() =~= blocks(all, want, n - 1));
        assert(all.take((n - 1) * want) + all.subrange((n - 1) * want, n * want) =~= all.take(
            n * want,
        ));
    }
}

/// Every block has the same size, and what waits is less than a block.
pub proof fn blocks_are_full(all: Seq<Single>, want: int)
    requires
        want > 0,
    ensures
        forall|i: int|
            0 <= i < all.len() as int / want ==> (#[trigger] blocks(
                all,
                want,
                all.len() as int / want,
            )[i]).len() == want,
        all.skip((all.len() as int / want) * want).len() < want,
{
    let n = all.len() as int / want;
    vstd::arithmetic::div_mod::lemma_fundamental_div_mod(all.len() as int, want);
    vstd::arithmetic::mul::lemma_mul_is_commutative(n, want);
    assert forall|i: int| 0 <= i < n implies (#[trigger] blocks(all, want, n)[i]).len() == want by {
        assert(0 <= i * want && (i + 1) * want == i * want + want && (i + 1) * want <= n * want)
            by (nonlinear_arith)
            requires
                0 <= i < n,
                want > 0,
        ;
    }
}

/// What one read into a buffer gave.
#[derive(Clone, Copy, Debug, PartialEq, Eq, Structural)]
pub enum ReadEvent {
    /// So many bytes.
    Bytes(usize),
    /// Nothing: the read was interrupted.
    Interrupted,
    /// An error.
    Failed,
}

/// What follows from it.
#[derive(Clone, Copy, Debug, PartialEq, Eq, Structural)]
pub enum FillStep {
    /// Read on, from this position of the buffer.
    ReadFrom(usize),
    /// The buffer is full.
    Full,
    /// The producer is gone.
    Ended,
    /// The read failed.
    Failed,
}

/// What is to be done with a buffer of `len` bytes of which `filled` are
/// there.
pub open spec fn fill_need(filled: usize, len: usize) -> FillStep {
    if filled < len {
        FillStep::ReadFrom(filled)
    } else {
        FillStep::Full
    }
}

/// What is to be done with a buffer of which `filled` bytes are there, before
/// the first read.
pub fn fill_start(len: usize) -> (r: FillStep)
    ensures
        r == fill_need(0, len),
{
    if len > 0 {
        FillStep::ReadFrom(0)
    } else {
        FillStep::Full
    }
}

/// What follows from a read into a buffer of `len` bytes behind its first
/// `filled`: a read of nothing is the end, and one that was interrupted is
/// done again.
pub fn read_exact_or_eof(filled: usize, len: usize, event: ReadEvent) -> (r: FillStep)
    requires
        filled < len,
        event matches ReadEvent::Bytes(n) ==> n <= len - filled,
    ensures
        r == match event {
            ReadEvent::Bytes(n) => if n == 0 {
                FillStep::Ended
            } else {
                fill_need((filled + n) as usize, len)
            },
            ReadEvent::Interrupted => FillStep::ReadFrom(filled),
            ReadEvent::Failed => FillStep::Failed,
        },
{
    match event {
        ReadEvent::Bytes(n) => if n == 0 {
            FillStep::Ended
        } else if filled + n < len {
            FillStep::ReadFrom(filled + n)
        } else {
            FillStep::Full
        },
        ReadEvent::Interrupted => FillStep::ReadFrom(filled),
        ReadEvent::Failed => FillStep::Failed,
    }
}

} // verus!
