use lancam::audio::AudioCard;
use lancam::capture::{DeviceInfo, Mode};
use lancam::engine::Stats;
use lancam::headless::{
    configure, fallback_dir, runtime_dir, serving_name, show_tally, state_dir, status_due,
    status_line, wants_audio, StreamArgs,
};
use lancam::single::Single;

fn single(x: f32) -> Single {
    Single::from_bits(x.to_bits())
}

fn args() -> StreamArgs {
    StreamArgs {
        name: None,
        groups: "g".to_string(),
        width: 1920,
        height: 1080,
        fps: single(60.0),
        fourcc: "MJPG".to_string(),
        audio: false,
        audio_card: None,
        audio_rate: 48_000,
        audio_channels: 2,
        video_only: false,
    }
}

fn device() -> DeviceInfo {
    DeviceInfo {
        path: "/dev/video0".to_string(),
        card: "BRIO".to_string(),
        bus: String::new(),
        modes: vec![Mode { fourcc: "MJPG".to_string(), width: 1280, height: 720, fps: single(30.0) }],
    }
}

fn cards() -> Vec<AudioCard> {
    let card = |device: &str, label: &str| AudioCard {
        device: device.to_string(),
        label: label.to_string(),
        alt: String::new(),
    };
    vec![card("plughw:1,0", "USB - BRIO"), card("plughw:2,0", "Wave XLR")]
}

#[test]
fn audio_is_asked_for_by_flag_or_card() {
    for (audio, card, video_only, want) in [
        (false, None, false, false),
        (true, None, false, true),
        (false, Some("x"), false, true),
        (true, Some("x"), true, false),
        (true, None, true, false),
    ] {
        let a = StreamArgs {
            audio,
            audio_card: card.map(|s: &str| s.to_string()),
            video_only,
            ..args()
        };
        assert_eq!(wants_audio(&a), want);
    }
}

#[test]
fn the_closest_mode_is_configured() {
    let c = configure(&device(), &args(), &cards()).unwrap();
    assert_eq!((c.mode.width, c.mode.height), (1280, 720));
    assert_eq!((c.device_path.as_str(), c.card.as_str()), ("/dev/video0", "BRIO"));
    assert_eq!((c.ndi_name.as_str(), c.groups.as_str()), ("", "g"));
    assert!(c.audio.is_none());
}

#[test]
fn audio_comes_from_the_camera_or_a_card() {
    let a = StreamArgs { audio: true, name: Some("desk".to_string()), ..args() };
    let c = configure(&device(), &a, &cards()).unwrap();
    assert_eq!(c.audio.unwrap().device, "plughw:1,0");
    assert_eq!(c.ndi_name, "desk");
    let a = StreamArgs { audio_card: Some("wave".to_string()), audio_rate: 44_100, ..args() };
    let audio = configure(&device(), &a, &cards()).unwrap().audio.unwrap();
    assert_eq!((audio.device.as_str(), audio.rate, audio.channels), ("plughw:2,0", 44_100, 2));
    let a = StreamArgs { audio_card: Some("none".to_string()), ..args() };
    assert_eq!(
        configure(&device(), &a, &cards()).unwrap_err().message(),
        "no ALSA capture card matching \"none\""
    );
}

#[test]
fn video_only_overrides_audio() {
    let a = StreamArgs {
        audio: true,
        audio_card: Some("none".to_string()),
        video_only: true,
        ..args()
    };
    assert!(configure(&device(), &a, &cards()).unwrap().audio.is_none());
}

#[test]
fn the_source_is_announced() {
    assert_eq!(serving_name(&args(), &device(), Some("desk\n")), "desk (BRIO)");
    let named = StreamArgs { name: Some("cam".to_string()), ..args() };
    assert_eq!(serving_name(&named, &device(), Some("desk")), "desk (cam)");
    assert_eq!(serving_name(&named, &device(), None), "cam");
}

#[test]
fn tallies_are_shown() {
    assert_eq!(show_tally(Some((true, true))), "PGM/PRV");
    assert_eq!(show_tally(Some((true, false))), "PGM");
    assert_eq!(show_tally(Some((false, true))), "PRV");
    assert_eq!(show_tally(Some((false, false))), "--");
    assert_eq!(show_tally(None), "--");
}

#[test]
fn the_status_line_tells_what_runs() {
    let s = Stats {
        viewers: 1,
        tally: Some((false, true)),
        resolution: "1920x1080".to_string(),
        fourcc: "MJPG".to_string(),
        source: "desk (camera card name)".to_string(),
        ..Stats::default()
    };
    assert_eq!(
        status_line(&s, &format!("{:5.1}", 60.0f32)),
        "\u{25cf} 1920x1080 MJPG |  60.0 fps | viewers 1 | tally PRV | desk (camera card name)"
    );
}

#[test]
fn status_lines_are_due_every_two_seconds() {
    assert!(!status_due(false, 1_999_999_999));
    assert!(status_due(false, 2_000_000_000));
    assert!(!status_due(true, 9_000_000_000));
}

#[test]
fn state_lives_in_the_session_or_under_home() {
    assert_eq!(runtime_dir(Some("/run/x"), 7), "/run/x");
    assert_eq!(runtime_dir(None, 1000), "/run/user/1000");
    assert_eq!(fallback_dir(Some("/home/u")), "/home/u/.local/state/lancam");
    assert_eq!(fallback_dir(None), "/tmp/.local/state/lancam");
    assert_eq!(state_dir(None, 5, true, None), "/run/user/5");
    assert_eq!(state_dir(None, 5, false, Some("/h/")), "/h/.local/state/lancam");
}
