//! The order of work in a running stream: audio first, then one frame, and a
//! camera that fails is opened again after a growing pause.

use crate::capture::ReadOutcome;
use vstd::prelude::*;

verus! {

/// The first pause before a camera is opened again, in milliseconds.
pub const FIRST_PAUSE: u64 = 500;

/// The longest pause before a camera is opened again, in milliseconds.
pub const LONGEST_PAUSE: u64 = 10_000;

/// What a step of the pipeline asks for.
#[derive(Clone, Copy, Debug, PartialEq, Eq, Structural)]
pub enum Action {
    /// Look whether the stream is to stop, and whether the microphone lives.
    Poll,
    /// Give up the microphone that died.
    DropMic,
    /// Take a block of audio that is waiting.
    TakeBlock,
    /// Show the levels of the block that was taken, and send it where `send`
    /// says so.
    UseBlock { send: bool },
    /// Read a frame from the camera.
    ReadFrame,
    /// Send the frame that was read where `send` says so, then publish and
    /// count it.
    UseFrame { send: bool },
    /// Close the camera.
    CloseCamera,
    /// Wait for so many milliseconds.
    Sleep { millis: u64 },
    /// Open the camera again.
    OpenCamera,
    /// End the run.
    Finish,
}

/// What became of the last action.
#[derive(Clone, Copy, Debug, PartialEq, Eq, Structural)]
pub enum Event {
    /// The answer to a poll.
    Polled { stop: bool, mic_alive: bool },
    /// Whether a block of audio was waiting.
    Block { waiting: bool },
    /// What came of reading a frame; none where it failed.
    Read { outcome: Option<ReadOutcome> },
    /// Whether the camera could be opened.
    Opened { ok: bool },
    /// The action is done.
    Done,
}

/// Where the pipeline stands: which action it has asked for last.
#[derive(Clone, Copy, Debug, PartialEq, Eq, Structural)]
pub enum Phase {
    Polling,
    DroppingMic,
    Draining,
    UsingBlock,
    Reading,
    UsingFrame,
    Closing,
    /// Polling before the next pause.
    Waiting,
    Pausing,
    Opening,
    Finished,
}

/// The decisions of a running stream.
#[derive(Clone, Copy, Debug, PartialEq, Eq, Structural)]
pub struct Pipeline {
    /// Whether audio and video are sent.
    pub live: bool,
    /// Whether there is a microphone.
    pub mic: bool,
    /// The next pause before the camera is opened again, in milliseconds.
    pub pause: u64,
    pub phase: Phase,
}

/// The action that a phase stands for.
pub open spec fn asked(p: Pipeline) -> Action {
    match p.phase {
        Phase::Polling => Action::Poll,
        Phase::DroppingMic => Action::DropMic,
        Phase::Draining => Action::TakeBlock,
        Phase::UsingBlock => Action::UseBlock { send: p.live },
        Phase::Reading => Action::ReadFrame,
        Phase::UsingFrame => Action::UseFrame { send: p.live },
        Phase::Closing => Action::CloseCamera,
        Phase::Waiting => Action::Poll,
        Phase::Pausing => Action::Sleep { millis: p.pause },
        Phase::Opening => Action::OpenCamera,
        Phase::Finished => Action::Finish,
    }
}

/// Whether an event answers the action that was asked for.
pub open spec fn answers(p: Pipeline, e: Event) -> bool {
    match p.phase {
        Phase::Polling | Phase::Waiting => e is Polled,
        Phase::Draining => e is Block,
        Phase::Reading => e is Read,
        Phase::Opening => e is Opened,
        Phase::Finished => true,
        _ => e is Done,
    }
}

/// The pause after a failure to open the camera: twice as long, up to the
/// longest.
pub open spec fn longer(pause: u64) -> u64 {
    if pause >= LONGEST_PAUSE / 2 {
        LONGEST_PAUSE
    } else {
        (pause * 2) as u64
    }
}

/// The pipeline after an event that answers what it asked for.
pub open spec fn advanced(p: Pipeline, e: Event) -> Pipeline {
    match (p.phase, e) {
        (Phase::Polling, Event::Polled { stop, mic_alive }) => if stop {
            Pipeline { phase: Phase::Finished, ..p }
        } else if p.mic && !mic_alive {
            Pipeline { phase: Phase::DroppingMic, mic: false, ..p }
        } else if p.mic {
            Pipeline { phase: Phase::Draining, ..p }
        } else {
            Pipeline { phase: Phase::Reading, ..p }
        },
        (Phase::DroppingMic, _) => Pipeline { phase: Phase::Reading, ..p },
        (Phase::Draining, Event::Block { waiting }) => if waiting {
            Pipeline { phase: Phase::UsingBlock, ..p }
        } else {
            Pipeline { phase: Phase::Reading, ..p }
        },
        (Phase::UsingBlock, _) => Pipeline { phase: Phase::Draining, ..p },
        (Phase::Reading, Event::Read { outcome }) => match outcome {
            Some(ReadOutcome::Frame) => Pipeline { phase: Phase::UsingFrame, ..p },
            Some(ReadOutcome::Timeout) => Pipeline { phase: Phase::Polling, ..p },
            None => Pipeline { phase: Phase::Closing, ..p },
        },
        (Phase::UsingFrame, _) => Pipeline { phase: Phase::Polling, ..p },
        (Phase::Closing, _) => Pipeline { phase: Phase::Waiting, pause: FIRST_PAUSE, ..p },
        (Phase::Waiting, Event::Polled { stop, .. }) => if stop {
            Pipeline { phase: Phase::Finished, ..p }
        } else {
            Pipeline { phase: Phase::Pausing, ..p }
        },
        (Phase::Pausing, _) => Pipeline { phase: Phase::Opening, ..p },
        (Phase::Opening, Event::Opened { ok }) => if ok {
            Pipeline { phase: Phase::Polling, ..p }
        } else {
            Pipeline { phase: Phase::Waiting, pause: longer(p.pause), ..p }
        },
        _ => p,
    }
}

impl Pipeline {
    /// The pauses stay within their limits.
    pub open spec fn well_formed(self) -> bool {
        FIRST_PAUSE <= self.pause <= LONGEST_PAUSE
    }

    /// A pipeline that asks for its first poll.
    pub fn new(live: bool, mic: bool) -> (r: Pipeline)
        ensures
            r == (Pipeline { live, mic, pause: FIRST_PAUSE, phase: Phase::Polling }),
            r.well_formed(),
    {
        Pipeline { live, mic, pause: FIRST_PAUSE, phase: Phase::Polling }
    }

    /// The action that the pipeline asks for.
    pub fn action(&self) -> (r: Action)
        ensures
            r == asked(*self),
    {
        match self.phase {
            Phase::Polling => Action::Poll,
            Phase::DroppingMic => Action::DropMic,
            Phase::Draining => Action::TakeBlock,
            Phase::UsingBlock => Action::UseBlock { send: self.live },
            Phase::Reading => Action::ReadFrame,
            Phase::UsingFrame => Action::UseFrame { send: self.live },
            Phase::Closing => Action::CloseCamera,
            Phase::Waiting => Action::Poll,
            Phase::Pausing => Action::Sleep { millis: self.pause },
            Phase::Opening => Action::OpenCamera,
            Phase::Finished => Action::Finish,
        }
    }

    /// Takes the event that answers the last action, and asks for the next one.
    pub fn step(&mut self, e: Event) -> (r: Action)
        requires
            answers(*old(self), e),
        ensures
            *final(self) == advanced(*old(self), e),
            r == asked(*final(self)),
            old(self).well_formed() ==> final(self).well_formed(),
    {
        match (self.phase, e) {
            (Phase::Polling, Event::Polled { stop, mic_alive }) => {
                if stop {
                    self.phase = Phase::Finished;
                } else if self.mic && !mic_alive {
                    self.mic = false;
                    self.phase = Phase::DroppingMic;
                } else if self.mic {
                    self.phase = Phase::Draining;
                } else {
                    self.phase = Phase::Reading;
                }
            },
            (Phase::DroppingMic, _) => {
                self.phase = Phase::Reading;
            },
            (Phase::Draining, Event::Block { waiting }) => {
                self.phase = if waiting {
                    Phase::UsingBlock
                } else {
                    Phase::Reading
                };
            },
            (Phase::UsingBlock, _) => {
                self.phase = Phase::Draining;
            },
            (Phase::Reading, Event::Read { outcome }) => {
                self.phase = match outcome {
                    Some(ReadOutcome::Frame) => Phase::UsingFrame,
                    Some(ReadOutcome::Timeout) => Phase::Polling,
                    None => Phase::Closing,
                };
            },
            (Phase::UsingFrame, _) => {
                self.phase = Phase::Polling;
            },
            (Phase::Closing, _) => {
                self.pause = FIRST_PAUSE;
                self.phase = Phase::Waiting;
            },
            (Phase::Waiting, Event::Polled { stop, .. }) => {
                self.phase = if stop {
                    Phase::Finished
                } else {
                    Phase::Pausing
                };
            },
            (Phase::Pausing, _) => {
                self.phase = Phase::Opening;
            },
            (Phase::Opening, Event::Opened { ok }) => {
                if ok {
                    self.phase = Phase::Polling;
                } else {
                    self.pause = if self.pause >= LONGEST_PAUSE / 2 {
                        LONGEST_PAUSE
                    } else {
                        self.pause * 2
                    };
                    self.phase = Phase::Waiting;
                }
            },
            _ => {},
        }
        self.action()
    }
}

/// The pipeline after a run of events.
pub open spec fn after(p: Pipeline, events: Seq<Event>) -> Pipeline
    decreases events.len(),
{
    if events.len() == 0 {
        p
    } else {
        advanced(after(p, events.drop_last()), events.last())
    }
}

/// A preview sends nothing, whatever happens: neither audio nor video.
pub proof fn preview_sends_nothing(p: Pipeline, events: Seq<Event>)
    requires
        !p.live,
    ensures
        asked(after(p, events)) != (Action::UseBlock { send: true }),
        asked(after(p, events)) != (Action::UseFrame { send: true }),
{
    live_is_kept(p, events);
}

/// A live stream sends every block and every frame that it uses.
pub proof fn live_sends_all(p: Pipeline, events: Seq<Event>)
    requires
        p.live,
    ensures
        asked(after(p, events)) != (Action::UseBlock { send: false }),
        asked(after(p, events)) != (Action::UseFrame { send: false }),
{
    live_is_kept(p, events);
}

proof fn live_is_kept(p: Pipeline, events: Seq<Event>)
    ensures
        after(p, events).live == p.live,
    decreases events.len(),
{
    if events.len() > 0 {
        live_is_kept(p, events.drop_last());
    }
}

/// The pause before a camera is opened again is never shorter than the first
/// nor longer than the longest.
pub proof fn pauses_are_bounded(p: Pipeline, events: Seq<Event>)
    requires
        p.well_formed(),
    ensures
        after(p, events).well_formed(),
        asked(after(p, events)) matches Action::Sleep { millis } ==> FIRST_PAUSE <= millis
            <= LONGEST_PAUSE,
    decreases events.len(),
{
    if events.len() > 0 {
        pauses_are_bounded(p, events.drop_last());
    }
}

/// A microphone that died is not used again: no block is taken after it was
/// given up.
pub proof fn dead_mic_stays_dead(p: Pipeline, events: Seq<Event>)
    requires
        !p.mic,
        !(p.phase is Draining),
        !(p.phase is UsingBlock),
    ensures
        !after(p, events).mic,
        asked(after(p, events)) != Action::TakeBlock,
        !(asked(after(p, events)) is UseBlock),
    decreases events.len(),
{
    if events.len() > 0 {
        dead_mic_stays_dead(p, events.drop_last());
    }
}

/// A stream that is asked to stop ends at its next poll, and stays ended.
pub proof fn stop_ends(p: Pipeline, mic_alive: bool, events: Seq<Event>)
    requires
        asked(p) == Action::Poll,
    ensures
        asked(after(advanced(p, Event::Polled { stop: true, mic_alive }), events))
            == Action::Finish,
    decreases events.len(),
{
    if events.len() > 0 {
        stop_ends(p, mic_alive, events.drop_last());
    }
}

} // verus!
