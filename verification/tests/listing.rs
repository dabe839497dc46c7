use lancam::audio::AudioCard;
use lancam::capture::{DeviceInfo, Mode};
use lancam::listing::{card_line, device_line, group_line, group_modes, pad, sort_rates};
use lancam::single::Single;

fn single(x: f32) -> Single {
    Single::from_bits(x.to_bits())
}

fn mode(fourcc: &str, width: u32, height: u32, fps: f32) -> Mode {
    Mode { fourcc: fourcc.to_string(), width, height, fps: single(fps) }
}

#[test]
fn modes_are_grouped_and_ordered() {
    let modes = vec![
        mode("MJPG", 640, 480, 15.0),
        mode("YUYV", 640, 480, 30.0),
        mode("MJPG", 1920, 1080, 30.0),
        mode("MJPG", 640, 480, 30.0),
        mode("MJPG", 1920, 1080, 60.0),
        mode("MJPG", 640, 480, 15.0),
        mode("MJPG", 480, 640, 7.5),
    ];
    let got: Vec<(String, u32, u32, Vec<f32>)> = group_modes(&modes)
        .into_iter()
        .map(|g| {
            let rates = g.rates.iter().map(|r| f32::from_bits(r.bits)).collect();
            (g.fourcc, g.width, g.height, rates)
        })
        .collect();
    let want = [
        ("MJPG", 1920, 1080, vec![60.0, 30.0]),
        ("MJPG", 640, 480, vec![30.0, 15.0]),
        ("YUYV", 640, 480, vec![30.0]),
        ("MJPG", 480, 640, vec![7.5]),
    ];
    assert_eq!(got.len(), want.len());
    for (g, w) in got.iter().zip(want) {
        assert_eq!((g.0.as_str(), g.1, g.2, g.3.clone()), w);
    }
    assert!(group_modes(&vec![]).is_empty());
}

#[test]
fn each_mode_is_in_one_group() {
    let mut modes = Vec::new();
    for i in 0..60u32 {
        let fourcc = ["MJPG", "YUYV"][(i % 2) as usize];
        modes.push(mode(fourcc, 320 * (i % 3 + 1), 240, (i % 7) as f32 * 7.5));
    }
    let groups = group_modes(&modes);
    assert_eq!(groups.len(), 6);
    for m in &modes {
        let own: Vec<_> = groups
            .iter()
            .filter(|g| g.fourcc == m.fourcc && g.width == m.width && g.height == m.height)
            .collect();
        assert_eq!(own.len(), 1);
        assert!(own[0].rates.contains(&m.fps));
    }
    for g in &groups {
        let rates: Vec<f32> = g.rates.iter().map(|r| f32::from_bits(r.bits)).collect();
        assert!(rates.windows(2).all(|r| r[0] > r[1]));
        for r in &g.rates {
            assert!(modes.iter().any(|m| m.fourcc == g.fourcc && m.width == g.width && m.fps == *r));
        }
    }
}

#[test]
fn rates_descend() {
    let list: Vec<Single> = [5.0f32, 60.0, -1.0, 59.9, 0.0, f32::INFINITY].iter().map(|x| single(*x)).collect();
    let got: Vec<f32> = sort_rates(&list).iter().map(|r| f32::from_bits(r.bits)).collect();
    assert_eq!(got, vec![f32::INFINITY, 60.0, 59.9, 5.0, 0.0, -1.0]);
}

#[test]
fn lines_are_printed() {
    let dev = DeviceInfo {
        path: "/dev/video0".to_string(),
        card: "BRIO".to_string(),
        bus: "usb-1".to_string(),
        modes: vec![mode("MJPG", 640, 480, 30.0)],
    };
    assert_eq!(device_line(&dev), format!("  {:<13} {}  ({})", "/dev/video0", "BRIO", "usb-1"));
    assert_eq!(device_line(&dev), "  /dev/video0   BRIO  (usb-1)");
    let g = &group_modes(&dev.modes)[0];
    assert_eq!(group_line(g, "30, 15"), "      MJPG  640x480 @ 30, 15");
    let c = AudioCard { device: "pw:a".to_string(), label: "A".to_string(), alt: String::new() };
    assert_eq!(card_line(&c), "  pw:a  A");
}

#[test]
fn padding_fills_up() {
    for s in ["", "abc", "\u{e4}\u{e4}", "/dev/video12345"] {
        assert_eq!(pad(s, 13), format!("{s:<13}"));
    }
}
