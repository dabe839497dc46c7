//! A running stream: what is asked for next, and what is kept from one step to
//! the next.

use crate::capture::ReadOutcome;
use crate::pipeline;
use crate::pipeline::{Action, Event, Phase, Pipeline};
use vstd::prelude::*;

verus! {

/// Whether an event says that the microphone has died.
pub open spec fn reports_death(e: Event) -> bool {
    e matches Event::Polled { mic_alive, .. } && !mic_alive
}

/// The microphone is kept as long as it lives: nothing but a poll that finds it
/// dead takes it away, least of all a camera that is opened again. What was
/// taken away does not come back.
pub proof fn living_microphone_is_kept(p: &mut Pipeline, e: Event, r: Action)
    requires
        call_ensures(Pipeline::step, (p, e), r),
    ensures
        old(p).mic && !reports_death(e) ==> final(p).mic,
        old(p).mic && !final(p).mic ==> r == Action::DropMic,
        !old(p).mic ==> !final(p).mic,
        final(p).live == old(p).live,
{
}

proof fn microphone_outlives(p: Pipeline, events: Seq<Event>)
    requires
        p.mic,
        forall|i: int| 0 <= i < events.len() ==> !reports_death(#[trigger] events[i]),
    ensures
        pipeline::after(p, events).mic,
    decreases events.len(),
{
    if events.len() > 0 {
        assert forall|i: int| 0 <= i < events.drop_last().len() implies !reports_death(
            #[trigger] events.drop_last()[i],
        ) by {
            assert(!reports_death(events[i]));
        }
        microphone_outlives(p, events.drop_last());
        assert(!reports_death(events[events.len() - 1]));
    }
}

/// Whatever happened, failures of the camera included: while the microphone
/// lives, every poll between two frames leads to the audio that is waiting, and
/// never is the microphone given up.
pub proof fn living_microphone_is_drained(
    p: Pipeline,
    events: Seq<Event>,
    q: &mut Pipeline,
    r: Action,
)
    requires
        p.mic,
        p.phase == Phase::Polling,
        forall|i: int| 0 <= i < events.len() ==> !reports_death(#[trigger] events[i]),
        *old(q) == pipeline::after(p, events),
        call_ensures(Pipeline::step, (q, Event::Polled { stop: false, mic_alive: true }), r),
    ensures
        old(q).phase == Phase::Polling ==> r == Action::TakeBlock,
        r != Action::DropMic,
{
    microphone_outlives(p, events);
    never_dropped(p, events);
}

proof fn never_dropped(p: Pipeline, events: Seq<Event>)
    requires
        p.mic,
        p.phase != Phase::DroppingMic,
        forall|i: int| 0 <= i < events.len() ==> !reports_death(#[trigger] events[i]),
    ensures
        pipeline::after(p, events).phase != Phase::DroppingMic,
    decreases events.len(),
{
    if events.len() > 0 {
        let before = events.drop_last();
        assert forall|i: int| 0 <= i < before.len() implies !reports_death(
            #[trigger] before[i],
        ) by {
            assert(!reports_death(events[i]));
        }
        never_dropped(p, before);
        microphone_outlives(p, before);
        assert(!reports_death(events[events.len() - 1]));
    }
}

/// A pipeline begins with a poll, and goes by what it was given.
pub proof fn runs_begin_with_a_poll(live: bool, mic: bool, p: Pipeline, r: Action)
    requires
        call_ensures(Pipeline::new, (live, mic), p),
        call_ensures(Pipeline::action, (&p,), r),
    ensures
        r == Action::Poll,
        p.phase == Phase::Polling,
        p.live == live,
        p.mic == mic,
        p.pause == 500,
{
}

/// Asking again gives what the last step asked for.
pub proof fn asking_again_is_the_same(p: &mut Pipeline, e: Event, r: Action, again: Action)
    requires
        call_ensures(Pipeline::step, (p, e), r),
        call_ensures(Pipeline::action, (&*final(p),), again),
    ensures
        again == r,
{
}

/// A request to stop is met at every poll, and nothing else ends a run.
pub proof fn only_a_stop_ends(p: &mut Pipeline, e: Event, r: Action)
    requires
        call_ensures(Pipeline::step, (p, e), r),
        old(p).phase != Phase::Finished,
    ensures
        (old(p).phase == Phase::Polling || old(p).phase == Phase::Waiting) && (e matches
            Event::Polled { stop, .. } && stop) <==> r == Action::Finish,
        r == Action::Finish <==> final(p).phase == Phase::Finished,
{
}

/// A run that has ended stays so.
pub proof fn ends_are_final(p: &mut Pipeline, e: Event, r: Action)
    requires
        call_ensures(Pipeline::step, (p, e), r),
        old(p).phase == Phase::Finished,
    ensures
        r == Action::Finish,
        *final(p) == *old(p),
{
}

/// Between two frames all audio that is waiting is taken, each block is used at
/// once, and then a frame is read. Without a microphone the frame comes first,
/// and so it does after a dead one was given up.
pub proof fn audio_goes_first(p: &mut Pipeline, e: Event, r: Action)
    requires
        call_ensures(Pipeline::step, (p, e), r),
    ensures
        old(p).phase == Phase::Polling && (e matches Event::Polled { stop, mic_alive } && !stop)
            ==> r == if !old(p).mic {
            Action::ReadFrame
        } else if reports_death(e) {
            Action::DropMic
        } else {
            Action::TakeBlock
        },
        old(p).phase == Phase::DroppingMic ==> r == Action::ReadFrame,
        old(p).phase == Phase::Draining && e == (Event::Block { waiting: true }) ==> r
            == (Action::UseBlock { send: old(p).live }),
        old(p).phase == Phase::Draining && e == (Event::Block { waiting: false }) ==> r
            == Action::ReadFrame,
        old(p).phase == Phase::UsingBlock ==> r == Action::TakeBlock,
{
}

/// A frame that was read is used, then the next poll comes; so it does where no
/// frame came in time. A failure closes the camera.
pub proof fn frames_are_used(p: &mut Pipeline, e: Event, r: Action)
    requires
        call_ensures(Pipeline::step, (p, e), r),
    ensures
        old(p).phase == Phase::Reading && e == (Event::Read { outcome: Some(ReadOutcome::Frame) })
            ==> r == (Action::UseFrame { send: old(p).live }),
        old(p).phase == Phase::Reading && e == (Event::Read { outcome: Some(ReadOutcome::Timeout) })
            ==> r == Action::Poll && final(p).phase == Phase::Polling,
        old(p).phase == Phase::Reading && e == (Event::Read { outcome: None }) ==> r
            == Action::CloseCamera,
        old(p).phase == Phase::UsingFrame ==> r == Action::Poll && final(p).phase
            == Phase::Polling,
{
}

/// A camera that was closed is opened again after a pause: half a second at
/// first, twice as long after each failure, never more than ten seconds. Before
/// each pause there is a poll, and once it is open the stream goes on.
pub proof fn cameras_are_opened_again(p: &mut Pipeline, e: Event, r: Action)
    requires
        call_ensures(Pipeline::step, (p, e), r),
    ensures
        old(p).phase == Phase::Closing ==> r == Action::Poll && final(p).phase == Phase::Waiting
            && final(p).pause == 500,
        old(p).phase == Phase::Waiting && (e matches Event::Polled { stop, .. } && !stop) ==> r
            == (Action::Sleep { millis: old(p).pause }),
        old(p).phase == Phase::Pausing ==> r == Action::OpenCamera,
        old(p).phase == Phase::Opening && e == (Event::Opened { ok: true }) ==> r == Action::Poll
            && final(p).phase == Phase::Polling,
        old(p).phase == Phase::Opening && e == (Event::Opened { ok: false }) ==> {
            &&& r == Action::Poll
            &&& final(p).phase == Phase::Waiting
            &&& final(p).pause <= 10_000
            &&& 2 * old(p).pause <= 10_000 ==> final(p).pause == 2 * old(p).pause
            &&& 2 * old(p).pause > 10_000 ==> final(p).pause == 10_000
        },
        old(p).phase != Phase::Closing && old(p).phase != Phase::Opening ==> final(p).pause
            == old(p).pause,
{
}

} // verus!
