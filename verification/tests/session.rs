use lancam::capture::{Camera, Mode, ReadOutcome};
use lancam::engine::{AudioSpec, StreamConfig, Streamer};
use lancam::pipeline::{Action, Event};
use lancam::session::Session;
use lancam::single::Single;

fn single(x: f32) -> Single {
    Single::from_bits(x.to_bits())
}

fn config(name: &str, audio: bool) -> StreamConfig {
    StreamConfig {
        device_path: "/dev/video0".to_string(),
        card: "cam".to_string(),
        mode: Mode { fourcc: "MJPG".to_string(), width: 4, height: 2, fps: single(30.0) },
        ndi_name: name.to_string(),
        groups: String::new(),
        audio: audio.then_some(AudioSpec {
            device: "pw:mix".to_string(),
            rate: 44_100,
            channels: 2,
        }),
    }
}

fn camera() -> Camera {
    Camera::open(single(29.97), 4, 2, "YUYV")
}

fn session(live: bool, audio: bool) -> Session {
    Session::new(config("", audio), live, &camera(), Some("desk\n"), audio, 1_000)
}

#[test]
fn a_live_run_shows_its_source() {
    assert_eq!(session(true, false).source(), "desk (cam)");
    assert_eq!(session(false, false).source(), "");
    let named = Session::new(config("studio", false), true, &camera(), None, false, 0);
    assert_eq!(named.source(), "studio");
}

#[test]
fn a_run_begins_with_fresh_levels_and_stats() {
    let mut s = Streamer::new(config("", true));
    s.start(false).unwrap();
    session(true, true).begin(&mut s);
    assert_eq!(s.audio_levels(0).0, vec![single(0.0); 2]);
    let stats = s.stats();
    assert_eq!((stats.resolution.as_str(), stats.fourcc.as_str()), ("4x2", "YUYV"));
    assert!(stats.audio);
    assert_eq!(stats.source, "desk (cam)");
}

#[test]
fn blocks_are_metered_and_sent_when_live() {
    let mut s = Streamer::new(config("", true));
    s.start(false).unwrap();
    let run = session(true, true);
    run.begin(&mut s);
    let block: Vec<Single> = [0.5f32, -0.25, 0.125, 0.75].iter().map(|x| single(*x)).collect();
    assert!(run.fits(4) && !run.fits(3));
    let out = run.use_block(&mut s, &block, true, 7_000, 12_345).unwrap();
    let planar: Vec<f32> = out.planar.iter().map(|x| f32::from_bits(x.bits)).collect();
    assert_eq!(planar, vec![0.5, 0.125, -0.25, 0.75]);
    assert_eq!((out.header.sample_rate, out.header.no_channels, out.header.no_samples), (44_100, 2, 2));
    assert_eq!(out.header.channel_stride_in_bytes, 8);
    assert_eq!(out.header.timestamp, 123);
    assert_eq!(s.audio_levels(7_000), (vec![single(0.5 * 0.9), single(0.75 * 0.9)], true));
    assert!(run.use_block(&mut s, &block, false, 8_000, 0).is_none());
}

#[test]
fn frames_are_described_published_and_counted() {
    let mut s = Streamer::new(config("", false));
    s.start(false).unwrap();
    let mut run = session(true, false);
    let header = run.video_out(&camera(), true, 99_999).unwrap();
    assert_eq!((header.xres, header.yres, header.line_stride_in_bytes), (4, 2, 16));
    assert_eq!((header.frame_rate_n, header.frame_rate_d), (2997, 100));
    assert_eq!(f32::from_bits(header.picture_aspect_ratio.bits), 2.0);
    assert_eq!(header.timestamp, 999);
    assert!(run.video_out(&camera(), false, 0).is_none());
    for i in 0..30u8 {
        let mut buf = vec![i; 32];
        run.use_frame(&mut s, &camera(), &mut buf);
        assert_eq!(s.frame().unwrap().bgra, vec![i; 32]);
    }
    assert!(!run.due(1_000_000_999));
    assert!(run.due(1_000_001_000));
    assert_eq!(run.elapsed(1_000_001_000), (1_000_000_000, 1_000_000_000));
    let audience = Some((2, Some((false, true))));
    assert!(run.report(&mut s, 1_000_001_000, single(1.0), single(1.0), audience));
    let stats = s.stats();
    assert_eq!(f32::from_bits(stats.fps.bits), 30.0);
    assert_eq!((stats.viewers, stats.tally), (2, Some((false, true))));
    assert!(!run.report(&mut s, 1_000_001_001, single(1.0), single(1.0), None));
    assert_eq!(s.stats().viewers, 2);
    assert_eq!(run.elapsed(2_000_001_000), (1_000_000_000, 2_000_000_000));
}

#[test]
fn a_microphone_that_died_leaves_the_stats() {
    let mut s = Streamer::new(config("", true));
    s.start(false).unwrap();
    let mut run = session(true, true);
    assert_eq!(run.action(), Action::Poll);
    assert_eq!(run.step(Event::Polled { stop: false, mic_alive: false }), Action::DropMic);
    assert_eq!(run.step(Event::Done), Action::ReadFrame);
    run.step(Event::Read { outcome: Some(ReadOutcome::Timeout) });
    run.report(&mut s, 2_000_000_000, single(2.0), single(2.0), None);
    assert!(!s.stats().audio);
}
