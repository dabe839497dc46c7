use lancam::audio::AudioCard;
use lancam::capture::{DeviceInfo, Mode};
use lancam::engine::{State, Streamer};
use lancam::single::Single;
use lancam::tray::{start_last, SettingsReply};
use lancam::web::{
    api_start, asks_own_mic, default_channels, default_rate, devices_stale, find_device, idle_config,
    join, resolve_saved, settings_path, PanelSettings, SavedSettings, StartReq,
};

fn single(x: f32) -> Single {
    Single::from_bits(x.to_bits())
}

fn value(s: Single) -> f32 {
    f32::from_bits(s.bits)
}

fn mode(fourcc: &str, width: u32, height: u32, fps: f32) -> Mode {
    Mode { fourcc: fourcc.to_string(), width, height, fps: single(fps) }
}

fn devices() -> Vec<DeviceInfo> {
    let device = |path: &str, card: &str, modes: Vec<Mode>| DeviceInfo {
        path: path.to_string(),
        card: card.to_string(),
        bus: String::new(),
        modes,
    };
    vec![
        device("/dev/video0", "BRIO", vec![mode("MJPG", 1920, 1080, 30.0), mode("YUYV", 640, 480, 30.0)]),
        device("/dev/video2", "Other", vec![mode("NV12", 1280, 720, 25.0)]),
    ]
}

fn cards() -> Vec<AudioCard> {
    vec![AudioCard {
        device: "pw:brio".to_string(),
        label: "BRIO mic".to_string(),
        alt: "brio".to_string(),
    }]
}

fn saved() -> SavedSettings {
    SavedSettings {
        device: "/dev/video2".to_string(),
        card: "Other".to_string(),
        fourcc: "NV12".to_string(),
        width: 1280,
        height: 720,
        fps: single(25.0),
        name: "desk".to_string(),
        groups: "a,b".to_string(),
        audio: "pw:brio".to_string(),
        audio_rate: 44_100,
        audio_channels: 1,
    }
}

fn request(device: &str, audio: Option<&str>) -> StartReq {
    StartReq {
        preview: false,
        device: device.to_string(),
        fourcc: "MJPG".to_string(),
        width: 1920,
        height: 1080,
        fps: single(60.0),
        name: "desk".to_string(),
        groups: "a".to_string(),
        audio: audio.map(|s| s.to_string()),
        audio_rate: 44_100,
        audio_channels: 1,
    }
}

#[test]
fn settings_live_under_the_configuration_directory() {
    assert_eq!(settings_path(Some("/c"), Some("/home/u")), "/c/lancam/settings.json");
    assert_eq!(settings_path(Some("/c/"), None), "/c/lancam/settings.json");
    assert_eq!(settings_path(None, Some("/home/u")), "/home/u/.config/lancam/settings.json");
    assert_eq!(settings_path(None, None), "/tmp/.config/lancam/settings.json");
    assert_eq!(settings_path(Some(""), None), "lancam/settings.json");
}

#[test]
fn joining_agrees_with_std() {
    for base in ["", "/", "a", "a/", "/a/b", "a//"] {
        for part in ["x", ".local/state/lancam"] {
            let want = std::path::Path::new(base).join(part);
            assert_eq!(join(base, part), want.to_str().unwrap());
        }
    }
}

#[test]
fn defaults_for_audio() {
    assert_eq!((default_rate(), default_channels()), (48_000, 2));
}

#[test]
fn without_saved_settings_the_first_device_is_offered() {
    let p = resolve_saved(&devices(), None, &cards());
    assert_eq!(p.device, "/dev/video0");
    assert!(p.rest.is_none());
    let p = resolve_saved(&vec![], None, &cards());
    assert_eq!(p.device, "");
    let p = resolve_saved(&vec![], Some(&saved()), &cards());
    assert_eq!(p.device, "");
    assert!(p.rest.is_none());
}

fn fill(p: &PanelSettings) -> (String, u32, u32, f32, String) {
    let r = p.rest.as_ref().unwrap();
    (r.fourcc.clone(), r.width, r.height, value(r.fps), r.audio.clone())
}

#[test]
fn saved_settings_are_restored() {
    let p = resolve_saved(&devices(), Some(&saved()), &cards());
    assert_eq!(p.device, "/dev/video2");
    assert_eq!(fill(&p), ("NV12".to_string(), 1280, 720, 25.0, "pw:brio".to_string()));
    let r = p.rest.unwrap();
    assert_eq!((r.name.as_str(), r.groups.as_str()), ("desk", "a,b"));
    assert_eq!((r.audio_rate, r.audio_channels), (44_100, 1));
}

#[test]
fn a_camera_that_moved_is_found_by_its_name() {
    let mut s = saved();
    s.device = "/dev/video9".to_string();
    assert_eq!(resolve_saved(&devices(), Some(&s), &cards()).device, "/dev/video2");
}

#[test]
fn a_camera_that_is_gone_falls_back_to_the_first() {
    let mut s = saved();
    s.device = "/dev/video9".to_string();
    s.card = "gone".to_string();
    let p = resolve_saved(&devices(), Some(&s), &cards());
    assert_eq!(p.device, "/dev/video0");
    assert_eq!(fill(&p), ("MJPG".to_string(), 1920, 1080, 30.0, "pw:brio".to_string()));
}

#[test]
fn a_stale_mode_is_negotiated_again() {
    let mut s = saved();
    s.fourcc = "MJPG".to_string();
    s.width = 1920;
    let p = resolve_saved(&devices(), Some(&s), &cards());
    assert_eq!(fill(&p).0, "NV12");
    assert_eq!(fill(&p).1, 1280);
}

#[test]
fn audio_that_is_gone_falls_back_to_video_only() {
    for (audio, want) in [("pw:gone", ""), ("", ""), ("auto", "auto"), ("pw:brio", "pw:brio")] {
        let mut s = saved();
        s.audio = audio.to_string();
        assert_eq!(fill(&resolve_saved(&devices(), Some(&s), &cards())).4, want);
    }
}

#[test]
fn device_lists_get_stale() {
    assert!(devices_stale(true, false, 0));
    assert!(devices_stale(false, true, 0));
    assert!(!devices_stale(false, false, 30_000_000_000));
    assert!(devices_stale(false, false, 30_000_000_001));
}

#[test]
fn a_request_starts_the_stream() {
    let mut s = Streamer::new(idle_config());
    let r = api_start(&mut s, &devices(), &cards(), &request("/dev/video0", Some("pw:x"))).unwrap();
    assert_eq!(s.state(), State::Live);
    assert_eq!((r.mode.fourcc.as_str(), r.mode.width, value(r.mode.fps)), ("MJPG", 1920, 30.0));
    let c = s.config();
    assert_eq!((c.device_path.as_str(), c.card.as_str()), ("/dev/video0", "BRIO"));
    assert_eq!((c.ndi_name.as_str(), c.groups.as_str()), ("desk", "a"));
    let audio = c.audio.unwrap();
    assert_eq!((audio.device.as_str(), audio.rate, audio.channels), ("pw:x", 44_100, 1));
    assert_eq!(r.saved.audio, "pw:x");
    assert_eq!((r.saved.device.as_str(), r.saved.card.as_str()), ("/dev/video0", "BRIO"));
    assert_eq!(value(r.saved.fps), 30.0);
}

#[test]
fn a_preview_is_started_as_one() {
    let mut s = Streamer::new(idle_config());
    let mut req = request("/dev/video2", None);
    req.preview = true;
    let r = api_start(&mut s, &devices(), &cards(), &req).unwrap();
    assert_eq!(s.state(), State::Preview);
    assert!(s.config().audio.is_none());
    assert_eq!(r.saved.audio, "");
}

#[test]
fn the_own_microphone_can_be_asked_for() {
    let req = request("/dev/video0", Some("auto"));
    assert!(asks_own_mic(&req));
    assert!(!asks_own_mic(&request("/dev/video0", None)));
    assert!(!asks_own_mic(&request("/dev/video0", Some("pw:x"))));
    let mut s = Streamer::new(idle_config());
    let r = api_start(&mut s, &devices(), &cards(), &req).unwrap();
    let audio = s.config().audio.unwrap();
    assert_eq!((audio.device.as_str(), audio.rate, audio.channels), ("pw:brio", 44_100, 1));
    assert_eq!(r.saved.audio, "auto");
}

#[test]
fn requests_are_refused() {
    let mut s = Streamer::new(idle_config());
    let e = api_start(&mut s, &devices(), &cards(), &request("/dev/video9", None)).unwrap_err();
    assert_eq!((e.status(), e.message().as_str()), (400, "unknown device"));
    let e = api_start(&mut s, &devices(), &cards(), &request("/dev/video2", Some("auto")))
        .unwrap_err();
    assert_eq!(e.status(), 400);
    assert_eq!(
        e.message(),
        "Other has no microphone - pick 'No audio (video only)' or another card"
    );
    assert_eq!(s.state(), State::Stopped);
    assert_eq!(s.config().device_path, "");
    s.start(true).unwrap();
    let e = api_start(&mut s, &devices(), &cards(), &request("/dev/video9", None)).unwrap_err();
    assert_eq!((e.status(), e.message().as_str()), (409, "stream already running"));
}

#[test]
fn what_was_started_comes_back() {
    for (device, audio) in [
        ("/dev/video0", None),
        ("/dev/video0", Some("auto")),
        ("/dev/video2", Some("pw:brio")),
    ] {
        let mut s = Streamer::new(idle_config());
        let r = api_start(&mut s, &devices(), &cards(), &request(device, audio)).unwrap();
        let p = resolve_saved(&devices(), Some(&r.saved), &cards());
        assert_eq!(p.device, device);
        let want = (
            r.mode.fourcc.clone(),
            r.mode.width,
            r.mode.height,
            value(r.mode.fps),
            audio.unwrap_or("").to_string(),
        );
        assert_eq!(fill(&p), want);
    }
}

#[test]
fn nothing_is_streamed_at_first() {
    let c = idle_config();
    assert_eq!((c.mode.fourcc.as_str(), c.mode.width, c.mode.height), ("MJPG", 1920, 1080));
    assert_eq!(value(c.mode.fps), 60.0);
    assert!(c.device_path.is_empty() && c.card.is_empty() && c.audio.is_none());
    assert!(c.ndi_name.is_empty() && c.groups.is_empty());
    assert_eq!(find_device(&devices(), "/dev/video2"), 1);
    assert_eq!(find_device(&devices(), "nope"), 2);
}

#[test]
fn going_live_with_the_last_settings_starts_the_same() {
    for (device, audio) in [("/dev/video0", None), ("/dev/video2", Some("pw:brio"))] {
        let mut first = Streamer::new(idle_config());
        let started = api_start(&mut first, &devices(), &cards(), &request(device, audio)).unwrap();
        let panel = resolve_saved(&devices(), Some(&started.saved), &cards());
        let rest = panel.rest.unwrap();
        let again = start_last(&SettingsReply {
            device: panel.device,
            fourcc: rest.fourcc,
            width: rest.width,
            height: rest.height,
            fps: rest.fps,
            name: rest.name,
            groups: rest.groups,
            audio: rest.audio,
            audio_rate: rest.audio_rate,
            audio_channels: rest.audio_channels,
        });
        let mut second = Streamer::new(idle_config());
        api_start(&mut second, &devices(), &cards(), &again).unwrap();
        assert_eq!(format!("{:?}", first.config()), format!("{:?}", second.config()));
        assert_eq!(second.state(), State::Live);
    }
}
