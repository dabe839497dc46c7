use lancam::capture::ReadOutcome;
use lancam::pipeline::{Action, Event, Pipeline};

fn poll(p: &mut Pipeline) -> Action {
    p.step(Event::Polled { stop: false, mic_alive: true })
}

fn read(p: &mut Pipeline, outcome: Option<ReadOutcome>) -> Action {
    p.step(Event::Read { outcome })
}

#[test]
fn frames_are_sent_live_and_kept_in_preview() {
    for live in [true, false] {
        let mut p = Pipeline::new(live, false);
        assert_eq!(p.action(), Action::Poll);
        assert_eq!(poll(&mut p), Action::ReadFrame);
        assert_eq!(read(&mut p, Some(ReadOutcome::Frame)), Action::UseFrame { send: live });
        assert_eq!(p.step(Event::Done), Action::Poll);
        assert_eq!(poll(&mut p), Action::ReadFrame);
        assert_eq!(read(&mut p, Some(ReadOutcome::Timeout)), Action::Poll);
    }
}

#[test]
fn all_waiting_audio_comes_before_the_frame() {
    for live in [true, false] {
        let mut p = Pipeline::new(live, true);
        assert_eq!(poll(&mut p), Action::TakeBlock);
        for _ in 0..3 {
            assert_eq!(p.step(Event::Block { waiting: true }), Action::UseBlock { send: live });
            assert_eq!(p.step(Event::Done), Action::TakeBlock);
        }
        assert_eq!(p.step(Event::Block { waiting: false }), Action::ReadFrame);
    }
}

#[test]
fn a_dead_microphone_is_dropped_once() {
    let mut p = Pipeline::new(true, true);
    assert_eq!(p.step(Event::Polled { stop: false, mic_alive: false }), Action::DropMic);
    assert_eq!(p.step(Event::Done), Action::ReadFrame);
    read(&mut p, Some(ReadOutcome::Timeout));
    assert_eq!(p.step(Event::Polled { stop: false, mic_alive: false }), Action::ReadFrame);
    read(&mut p, Some(ReadOutcome::Timeout));
    assert_eq!(poll(&mut p), Action::ReadFrame);
}

#[test]
fn a_failing_camera_is_opened_again_after_growing_pauses() {
    let mut p = Pipeline::new(true, true);
    poll(&mut p);
    p.step(Event::Block { waiting: false });
    assert_eq!(read(&mut p, None), Action::CloseCamera);
    assert_eq!(p.step(Event::Done), Action::Poll);
    for millis in [500, 1000, 2000, 4000, 8000, 10_000, 10_000] {
        assert_eq!(poll(&mut p), Action::Sleep { millis });
        assert_eq!(p.step(Event::Done), Action::OpenCamera);
        assert_eq!(p.step(Event::Opened { ok: false }), Action::Poll);
    }
    poll(&mut p);
    p.step(Event::Done);
    assert_eq!(p.step(Event::Opened { ok: true }), Action::Poll);
    // The next failure begins with the first pause again.
    poll(&mut p);
    p.step(Event::Block { waiting: false });
    read(&mut p, None);
    p.step(Event::Done);
    assert_eq!(poll(&mut p), Action::Sleep { millis: 500 });
}

#[test]
fn a_stop_ends_the_run_at_the_next_poll() {
    let stop = Event::Polled { stop: true, mic_alive: true };
    let mut p = Pipeline::new(true, true);
    assert_eq!(p.step(stop), Action::Finish);
    assert_eq!(p.step(Event::Done), Action::Finish);
    let mut p = Pipeline::new(true, false);
    poll(&mut p);
    read(&mut p, None);
    p.step(Event::Done);
    assert_eq!(p.step(stop), Action::Finish);
}
