use lancam::single::Single;
use lancam::tray::{
    base_url, def_channels, def_fourcc, def_fps, def_height, def_rate, def_width, describe,
    in_rounded, label, menu, snapshot_of, start_last, state_icon, Command, SettingsReply, Snapshot,
    StateReply, SvcState,
};

fn reply(state: &str) -> StateReply {
    StateReply {
        state: state.to_string(),
        fps: Single::from_bits(60.0f32.to_bits()),
        viewers: 2,
        audio: true,
    }
}

#[test]
fn polls_become_snapshots() {
    assert_eq!(snapshot_of(None).state, SvcState::Offline);
    assert_eq!(snapshot_of(None).viewers, 0);
    for (name, state) in [
        ("live", SvcState::Live),
        ("preview", SvcState::Preview),
        ("stopped", SvcState::Stopped),
        ("Live", SvcState::Stopped),
    ] {
        let s = snapshot_of(Some(&reply(name)));
        assert_eq!((s.state, s.viewers, s.audio), (state, 2, true));
        assert_eq!(f32::from_bits(s.fps.bits), 60.0);
    }
    assert_eq!(Snapshot::default().state, SvcState::Stopped);
}

#[test]
fn the_service_is_described() {
    let s = |name: &str| snapshot_of(Some(&reply(name)));
    assert_eq!(describe(snapshot_of(None), "60"), "service offline");
    assert_eq!(describe(s("stopped"), "60"), "stopped");
    assert_eq!(describe(s("preview"), "60"), "previewing, 60 fps");
    assert_eq!(describe(s("live"), "60"), "live, 60 fps, 2 viewers, audio on");
    let quiet = Snapshot { audio: false, ..s("live") };
    assert_eq!(describe(quiet, "30"), "live, 30 fps, 2 viewers, audio off");
}

#[test]
fn commands_are_offered_by_state() {
    let enabled = |state: SvcState, c: Command| {
        menu(state).iter().find(|e| e.command == c).unwrap().enabled
    };
    for (state, live, stop, open) in [
        (SvcState::Offline, false, false, false),
        (SvcState::Stopped, true, false, true),
        (SvcState::Preview, false, true, true),
        (SvcState::Live, false, true, true),
    ] {
        assert_eq!(menu(state).len(), 7);
        assert_eq!(enabled(state, Command::GoLive), live);
        assert_eq!(enabled(state, Command::Stop), stop);
        assert_eq!(enabled(state, Command::OpenPanel), open);
        assert!(enabled(state, Command::Quit));
        assert!(!enabled(state, Command::Show));
    }
    let texts: Vec<String> =
        menu(SvcState::Stopped).iter().map(|e| label(e.command, "stopped")).collect();
    assert_eq!(
        texts,
        ["stopped", "", "Go live (last settings)", "Stop", "Open control panel", "", "Quit tray"]
    );
}

fn reference_lit(state: SvcState, x: i32, y: i32) -> bool {
    let rounded = |x0: i32, y0: i32, w: i32, h: i32, r: i32| {
        if x < x0 || x > x0 + w - 1 || y < y0 || y > y0 + h - 1 {
            return false;
        }
        let cx = x.clamp(x0 + r, x0 + w - 1 - r);
        let cy = y.clamp(y0 + r, y0 + h - 1 - r);
        (x - cx) * (x - cx) + (y - cy) * (y - cy) <= r * r
    };
    let body = rounded(3, 4, 18, 13, 3) && !rounded(5, 6, 14, 9, 2);
    let stand = (x == 11 || x == 12) && (y == 17 || y == 18)
        || (y == 19 || y == 20) && (8..=15).contains(&x);
    let dx = x as f32 - 11.5;
    let dy = y as f32 - 10.0;
    let d2 = dx * dx + dy * dy;
    let lens = (d2 <= 9.0 && d2 >= 2.6) || (state == SvcState::Live && d2 <= 1.6);
    body || stand || lens
}

#[test]
fn the_icon_is_drawn_by_state() {
    for state in [SvcState::Offline, SvcState::Stopped, SvcState::Preview, SvcState::Live] {
        let data = state_icon(state);
        assert_eq!(data.len(), 24 * 24 * 4);
        let alpha = if state == SvcState::Offline { 90 } else { 255 };
        for y in 0..24 {
            for x in 0..24 {
                let at = ((y * 24 + x) * 4) as usize;
                let want = if reference_lit(state, x, y) { [alpha, 255, 255, 255] } else { [0; 4] };
                assert_eq!(data[at..at + 4], want, "{state:?} {x} {y}");
            }
        }
    }
}

#[test]
fn the_dot_means_live() {
    let stopped = state_icon(SvcState::Stopped);
    let live = state_icon(SvcState::Live);
    let changed: Vec<usize> = (0..576).filter(|i| stopped[i * 4] != live[i * 4]).collect();
    assert_eq!(changed, vec![9 * 24 + 11, 9 * 24 + 12, 10 * 24 + 11, 10 * 24 + 12, 11 * 24 + 11, 11 * 24 + 12]);
    assert_eq!(stopped, state_icon(SvcState::Preview));
}

#[test]
fn corners_are_round() {
    assert!(!in_rounded(0, 0, 0, 0, 9, 9, 3));
    assert!(in_rounded(1, 1, 0, 0, 9, 9, 3));
    assert!(in_rounded(0, 3, 0, 0, 9, 9, 3));
    assert!(in_rounded(8, 5, 0, 0, 9, 9, 3));
    assert!(!in_rounded(9, 5, 0, 0, 9, 9, 3));
    assert!(!in_rounded(-1, 5, 0, 0, 9, 9, 3));
}

fn settings(audio: &str) -> SettingsReply {
    SettingsReply {
        device: "/dev/video0".to_string(),
        fourcc: def_fourcc(),
        width: def_width(),
        height: def_height(),
        fps: def_fps(),
        name: "desk".to_string(),
        groups: "g".to_string(),
        audio: audio.to_string(),
        audio_rate: def_rate(),
        audio_channels: def_channels(),
    }
}

#[test]
fn the_last_settings_go_live() {
    let r = start_last(&settings("pw:mix"));
    assert!(!r.preview);
    assert_eq!((r.device.as_str(), r.fourcc.as_str()), ("/dev/video0", "MJPG"));
    assert_eq!((r.width, r.height, f32::from_bits(r.fps.bits)), (1920, 1080, 60.0));
    assert_eq!((r.name.as_str(), r.groups.as_str()), ("desk", "g"));
    assert_eq!(r.audio.as_deref(), Some("pw:mix"));
    assert_eq!((r.audio_rate, r.audio_channels), (48_000, 2));
    assert!(start_last(&settings("")).audio.is_none());
}

#[test]
fn the_service_answers_on_this_machine() {
    assert_eq!(base_url(8765), "http://127.0.0.1:8765");
}
