use lancam::audio::AudioCard;
use lancam::capture::{Camera, Mode};
use lancam::engine::{
    auto_mic, chosen_name, deinterleave, gcd, measure, opening_stats, rational_fps, show_size,
    update_levels, AudioSpec, State, Stats, StreamConfig, Streamer, Ticker,
};
use lancam::single::Single;

fn single(x: f32) -> Single {
    Single::from_bits(x.to_bits())
}

fn value(s: Single) -> f32 {
    f32::from_bits(s.bits)
}

fn config(name: &str, audio: Option<AudioSpec>) -> StreamConfig {
    StreamConfig {
        device_path: "/dev/video0".to_string(),
        card: "cam".to_string(),
        mode: Mode { fourcc: "MJPG".to_string(), width: 4, height: 2, fps: single(30.0) },
        ndi_name: name.to_string(),
        groups: "g".to_string(),
        audio,
    }
}

#[test]
fn a_stopped_stream_starts_and_a_running_one_does_not() {
    let mut s = Streamer::new(config("", None));
    assert_eq!(s.state(), State::Stopped);
    assert!(s.error().is_none());
    assert!(s.frame().is_none());
    assert!(s.start(true).is_ok());
    assert_eq!(s.state(), State::Preview);
    assert_eq!(s.start(false).unwrap_err().message(), "already Preview");
    s.finish(None);
    assert!(s.start(false).is_ok());
    assert_eq!(s.state(), State::Live);
    assert_eq!(s.start(true).unwrap_err().message(), "already Live");
}

#[test]
fn a_run_ends_stopped_and_keeps_its_error_until_the_next() {
    let mut s = Streamer::new(config("", None));
    s.start(false).unwrap();
    let mut buf = vec![1, 2, 3, 4];
    assert!(s.publish(1, 1, &mut buf, None).is_none());
    assert!(!s.stopping());
    s.stop();
    assert!(s.stopping());
    assert_eq!(s.state(), State::Live);
    s.finish(Some("camera gone".to_string()));
    assert_eq!(s.state(), State::Stopped);
    assert!(s.frame().is_none());
    assert_eq!(s.error().unwrap(), "camera gone");
    s.start(false).unwrap();
    assert!(s.error().is_none());
    assert!(!s.stopping());
    s.finish(None);
    assert!(s.error().is_none());
}

#[test]
fn a_stopped_stream_stays_stopped_and_starts_again() {
    for preview_only in [true, false] {
        for error in [None, Some("camera gone".to_string())] {
            let mut s = Streamer::new(config("", None));
            s.stop();
            assert_eq!(s.state(), State::Stopped);
            s.start(false).unwrap();
            assert!(s.publish(1, 1, &mut vec![1, 2, 3, 4], None).is_none());
            s.stop();
            s.finish(error.clone());
            for _ in 0..2 {
                assert_eq!(s.state(), State::Stopped);
                assert!(s.frame().is_none());
                assert_eq!(s.error(), error);
                assert!(s.stopping());
                s.stop();
            }
            assert!(s.start(preview_only).is_ok());
            assert_eq!(s.state(), if preview_only { State::Preview } else { State::Live });
            assert!(s.error().is_none() && !s.stopping());
        }
    }
}

#[test]
fn frames_are_published_and_their_memory_comes_back() {
    let mut s = Streamer::new(config("", None));
    s.start(false).unwrap();
    let mut buf = vec![1u8, 1, 1, 1];
    let reuse = s.publish(1, 1, &mut buf, None);
    assert!(reuse.is_none() && buf.is_empty());
    assert_eq!(s.frame().unwrap().bgra, vec![1, 1, 1, 1]);
    buf = vec![2u8; 8];
    let reuse = s.publish(2, 1, &mut buf, reuse);
    let frame = s.frame().unwrap();
    assert_eq!((frame.width, frame.height, frame.bgra.len()), (2, 1, 8));
    assert_eq!(reuse.as_ref().unwrap().bgra, vec![1, 1, 1, 1]);
    buf = vec![3u8; 4];
    let reuse = s.publish(1, 1, &mut buf, reuse);
    // Nobody else held the first frame: its memory is back.
    assert_eq!(buf, vec![1, 1, 1, 1]);
    assert_eq!(reuse.as_ref().unwrap().bgra, vec![2; 8]);
    buf = vec![4u8; 4];
    s.publish(1, 1, &mut buf, reuse);
    // The second one is still held above.
    assert!(buf.is_empty());
    assert_eq!(frame.bgra, vec![2; 8]);
}

#[test]
fn audio_counts_as_delivering_for_half_a_second() {
    let mut s = Streamer::new(config("", None));
    assert!(s.audio_levels(0).0.is_empty());
    assert!(!s.audio_levels(0).1);
    assert!(!s.audio_levels(1_000).1);
    s.start(true).unwrap();
    assert!(!s.audio_levels(1_000).1);
    s.meter(&vec![single(0.5)], 1, 2_000_000_000);
    assert!(s.audio_levels(2_000_000_000).1);
    assert!(s.audio_levels(2_499_999_999).1);
    assert!(!s.audio_levels(2_500_000_000).1);
    assert!(s.audio_levels(0).1);
}

#[test]
fn levels_hold_peaks_and_decay() {
    let mut levels = vec![single(0.0), single(0.4)];
    let block: Vec<Single> = [0.5f32, -0.25, -0.75, 0.25].iter().map(|x| single(*x)).collect();
    update_levels(&mut levels, &block, 2);
    assert_eq!(value(levels[0]), 0.75f32 * 0.9);
    assert_eq!(value(levels[1]), 0.4f32 * 0.9);
    // A channel without a level is left out.
    let mut one = vec![single(0.0)];
    update_levels(&mut one, &block, 2);
    assert_eq!(value(one[0]), 0.75f32 * 0.9);
}

#[test]
fn levels_agree_with_the_machine_and_stay_in_scale() {
    let mut levels = vec![single(0.0); 2];
    let mut machine = vec![0.0f32; 2];
    let mut seed: u32 = 7;
    for _ in 0..50 {
        let mut block = Vec::new();
        for _ in 0..96 {
            seed = seed.wrapping_mul(1_664_525).wrapping_add(1_013_904_223);
            block.push((seed >> 16) as i16 as f32 / 32768.0);
        }
        for (i, s) in block.iter().enumerate() {
            if s.abs() > machine[i % 2] {
                machine[i % 2] = s.abs();
            }
        }
        for v in machine.iter_mut() {
            *v *= 0.9;
        }
        let singles: Vec<Single> = block.iter().map(|x| single(*x)).collect();
        update_levels(&mut levels, &singles, 2);
        for c in 0..2 {
            assert_eq!(levels[c].bits, machine[c].to_bits());
            assert!((0.0..=1.0).contains(&value(levels[c])));
        }
    }
}

#[test]
fn opening_resets_levels_where_audio_is_configured() {
    let audio = Some(AudioSpec { device: "pw:x".to_string(), rate: 48_000, channels: 3 });
    let mut s = Streamer::new(config("", None));
    let stats = Stats { viewers: 4, ..Stats::default() };
    s.opened(&stats, &audio);
    assert_eq!(s.audio_levels(0).0, vec![single(0.0); 3]);
    assert_eq!(s.stats().viewers, 4);
    s.meter(&vec![single(1.0); 3], 3, 9);
    s.opened(&Stats::default(), &None);
    assert_eq!(s.audio_levels(0).0, vec![single(0.9); 3]);
    assert_eq!(s.stats().viewers, 0);
}

#[test]
fn blocks_are_deinterleaved() {
    let block: Vec<Single> = (0..12u32).map(Single::from_bits).collect();
    let bits = |v: Vec<Single>| v.into_iter().map(|s| s.bits).collect::<Vec<u32>>();
    assert_eq!(bits(deinterleave(&block, 1)), (0..12).collect::<Vec<u32>>());
    assert_eq!(bits(deinterleave(&block, 2)), vec![0, 2, 4, 6, 8, 10, 1, 3, 5, 7, 9, 11]);
    assert_eq!(bits(deinterleave(&block, 3)), vec![0, 3, 6, 9, 1, 4, 7, 10, 2, 5, 8, 11]);
    assert!(deinterleave(&vec![], 2).is_empty());
}

#[test]
fn the_source_is_named_after_the_card_by_default() {
    assert_eq!(chosen_name(&config("", None)), "cam");
    assert_eq!(chosen_name(&config("desk", None)), "desk");
}

#[test]
fn opening_stats_tell_what_was_opened() {
    let cam = Camera::open(single(59.9), 1920, 1080, "YUYV");
    let s = opening_stats(&cam, true, "desk (cam)");
    assert_eq!(s.resolution, "1920x1080");
    assert_eq!(s.fourcc, "YUYV");
    assert_eq!(value(s.camera_fps), 59.9);
    assert!(s.audio);
    assert_eq!(s.source, "desk (cam)");
    assert_eq!((s.viewers, s.tally, value(s.fps), value(s.uptime)), (0, None, 0.0, 0.0));
    assert_eq!(show_size(0, 4_294_967_295), "0x4294967295");
}

#[test]
fn reports_are_due_every_second() {
    let mut t = Ticker::new(100);
    let mut stats = Stats::default();
    for _ in 0..60 {
        t.frame();
    }
    assert!(!t.tick(&mut stats, 1_000_000_099, single(1.0), single(1.0), Some((1, None))));
    assert_eq!(stats.viewers, 0);
    assert!(t.tick(
        &mut stats,
        1_000_000_100,
        single(1.001),
        single(7.5),
        Some((3, Some((true, false))))
    ));
    assert_eq!(value(stats.fps), 59.9);
    assert_eq!(stats.viewers, 3);
    assert_eq!(stats.tally, Some((true, false)));
    assert_eq!(value(stats.uptime), 7.5);
    assert_eq!((t.frames, t.last, t.started), (0, 1_000_000_100, 100));
    assert!(t.tick(&mut stats, 3_000_000_000, single(2.0), single(9.0), None));
    assert_eq!((stats.viewers, stats.tally, value(stats.fps)), (0, None, 0.0));
}

#[test]
fn measured_rates_agree_with_the_machine() {
    for frames in [0u64, 1, 29, 30, 59, 60, 61, 12_345_678, u64::MAX] {
        for secs in [1.0f32, 1.0000001, 1.016, 1.5, 2.0, 33.3, 0.0] {
            let want = (frames as f32 / secs * 10.0).round() / 10.0;
            let got = measure(frames, single(secs));
            assert!(
                got.bits == want.to_bits() || (want.is_nan() && value(got).is_nan()),
                "{frames}/{secs}"
            );
        }
    }
}

#[test]
fn frame_rates_are_fractions() {
    assert_eq!(rational_fps(single(60.0)), (60, 1));
    assert_eq!(rational_fps(single(59.94)), (30_000, 500));
    // The exception is for that rate alone, not for its neighbours.
    assert_eq!(single(59.94).bits, 0x426f_c28f);
    assert_eq!(rational_fps(Single { bits: 0x426f_c2f8 }), (2997, 50));
    assert_eq!(rational_fps(Single { bits: 0x426f_c290 }), (2997, 50));
    assert_eq!(rational_fps(Single { bits: 0x426f_c28e }), (2997, 50));
    assert_eq!(rational_fps(single(30.0)), (30, 1));
    assert_eq!(rational_fps(single(29.97)), (2997, 100));
    assert_eq!(rational_fps(single(23.976)), (2997, 125));
    assert_eq!(rational_fps(single(7.5)), (15, 2));
    assert_eq!(rational_fps(single(0.0)), (0, 1));
}

fn euclid(a: i64, b: i64) -> i64 {
    if b == 0 {
        a
    } else {
        euclid(b, a % b)
    }
}

fn machine_fraction(fps: f32) -> (i32, i32) {
    let scaled = (fps * 1000.0).round() as i64;
    let g = euclid(scaled, 1000);
    ((scaled / g) as i32, (1000 / g) as i32)
}

#[test]
fn fractions_agree_with_the_machine() {
    for fps in [
        0.0f32, 1.0, 2.5, 14.985, 15.0, 24.0, 25.0, 29.97, 50.0, 90.0, 119.88, 120.0, 1e6, 3e9, 1e17,
        1e30, -1.0, -29.97, -7.5, -1e30, f32::NAN, f32::INFINITY, f32::NEG_INFINITY, 0.0004, 0.0006,
    ] {
        assert_eq!(rational_fps(single(fps)), machine_fraction(fps), "{fps}");
    }
}

#[test]
fn divisors_agree_with_the_machine() {
    assert_eq!(gcd(60_000, 1000), 1000);
    assert_eq!(gcd(29_970, 1000), 10);
    assert_eq!(gcd(0, 1000), 1000);
    assert_eq!(gcd(-5, 1000), -5);
    assert_eq!(gcd(0, 0), 0);
    assert_eq!(gcd(i64::MIN, 1000), -8);
    assert_eq!(gcd(12, -18), -6);
    for a in [0, 1, -1, 7, 1000, -1001, 59_940, i64::MAX, i64::MIN + 1] {
        for b in [0, 1, 2, -3, 18, 1000, -1000, i64::MAX] {
            assert_eq!(gcd(a, b), euclid(a, b), "{a} {b}");
        }
    }
}

#[test]
fn fractions_are_in_lowest_terms() {
    for t in (0..200_000i64).step_by(37) {
        let fps = t as f32 / 1000.0;
        if fps == 59.94 {
            continue;
        }
        let (n, d) = rational_fps(single(fps));
        let scaled = (fps * 1000.0).round() as i64;
        assert_eq!(n as i64 * 1000, scaled * d as i64);
        assert_eq!(gcd(n as i64, d as i64), 1);
    }
}

#[test]
fn the_own_microphone_is_found_by_card_name() {
    let cards = vec![
        AudioCard { device: "plughw:0,0".to_string(), label: "HDA".to_string(), alt: String::new() },
        AudioCard {
            device: "pw:brio".to_string(),
            label: "Logitech BRIO Analog".to_string(),
            alt: "brio".to_string(),
        },
    ];
    let mic = auto_mic(&cards, "logitech brio").unwrap();
    assert_eq!((mic.device.as_str(), mic.rate, mic.channels), ("pw:brio", 48_000, 2));
    assert!(auto_mic(&cards, "OBS").is_none());
}
