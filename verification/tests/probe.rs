use lancam::probe::{
    contains_rate, discrete, enum_modes, frame_rate, frame_rates, list_devices, node_path,
    read_node, video_nodes, DeviceReport, FormatReport, Interval, NodeEntry, SizeReport, VideoNode,
};
use lancam::single::Single;

fn interval(numerator: u32, denominator: u32) -> Interval {
    Interval { typ: 1, numerator, denominator }
}

fn value(s: Single) -> f32 {
    f32::from_bits(s.bits)
}

#[test]
fn rates_agree_with_the_machine() {
    for num in [1u32, 2, 3, 7, 333_333, 1001, 10_000_000, 4_000_000_000, u32::MAX] {
        for den in [0u32, 1, 15, 30, 60, 1000, 24_000, 30_000, 60_000, 10_000_000, u32::MAX] {
            let want = (den as f32 / num as f32 * 10.0).round() / 10.0;
            let got = frame_rate(interval(num, den));
            assert_eq!(got.bits, want.to_bits(), "{den}/{num}");
            assert!(value(got).is_finite());
        }
    }
    assert_eq!(value(frame_rate(interval(1001, 60_000))), 59.9);
    assert_eq!(value(frame_rate(interval(333_333, 10_000_000))), 30.0);
}

#[test]
fn rates_are_listed_once() {
    let list = vec![
        interval(1, 30),
        interval(333_333, 10_000_000),
        interval(0, 5),
        Interval { typ: 2, numerator: 1, denominator: 99 },
        interval(1, 60),
        interval(2, 60),
    ];
    let got: Vec<f32> = frame_rates(&list).into_iter().map(value).collect();
    assert_eq!(got, vec![30.0, 60.0]);
}

#[test]
fn zero_has_two_signs_and_one_rate() {
    let rates = vec![Single::from_bits(0)];
    assert!(contains_rate(&rates, Single::from_bits(0x8000_0000)));
    let nan = Single::from_bits(f32::NAN.to_bits());
    assert!(!contains_rate(&vec![nan], nan));
}

fn size(typ: u32, width: u32, height: u32, rates: &[u32]) -> SizeReport {
    SizeReport { typ, width, height, intervals: rates.iter().map(|r| interval(1, *r)).collect() }
}

fn formats() -> Vec<FormatReport> {
    vec![
        FormatReport {
            fourcc: "MJPG".to_string(),
            sizes: vec![size(1, 1920, 1080, &[60, 30]), size(3, 99, 99, &[5]), size(1, 640, 480, &[30])],
        },
        FormatReport { fourcc: "H264".to_string(), sizes: vec![size(1, 1920, 1080, &[60])] },
        FormatReport { fourcc: "YUYV".to_string(), sizes: vec![size(1, 640, 480, &[15])] },
    ]
}

#[test]
fn modes_come_by_format_size_and_rate() {
    let got: Vec<(String, u32, u32, f32)> = enum_modes(&formats())
        .iter()
        .map(|m| (m.fourcc.clone(), m.width, m.height, value(m.fps)))
        .collect();
    let want = [
        ("MJPG", 1920, 1080, 60.0),
        ("MJPG", 1920, 1080, 30.0),
        ("MJPG", 640, 480, 30.0),
        ("YUYV", 640, 480, 15.0),
    ];
    assert_eq!(got.len(), want.len());
    for (g, w) in got.iter().zip(want) {
        assert_eq!((g.0.as_str(), g.1, g.2, g.3), w);
    }
    assert!(discrete(1) && !discrete(2) && !discrete(0));
}

fn entry(file: &str, name: Option<&str>) -> NodeEntry {
    NodeEntry { file: file.to_string(), name: name.map(|s| s.to_string()) }
}

#[test]
fn nodes_are_read_and_ordered() {
    let entries = vec![
        entry("video10", Some("C920: HD Pro\n")),
        entry("video2", Some("  Plain name \n")),
        entry("v4l-subdev0", Some("x")),
        entry("video", Some("x")),
        entry("videoX", Some("x")),
        entry("video0", None),
        entry("video2", Some("second")),
    ];
    let got: Vec<(u32, String)> =
        video_nodes(&entries).into_iter().map(|n| (n.index, n.card)).collect();
    let want = [(0, ""), (2, "Plain name"), (2, "second"), (10, "C920")];
    assert_eq!(got.len(), want.len());
    for (g, w) in got.iter().zip(want) {
        assert_eq!((g.0, g.1.as_str()), w);
    }
    assert!(read_node(&entry("video99999999999", None)).is_none());
}

#[test]
fn devices_are_nodes_that_capture() {
    let node = |index: u32| VideoNode { index, card: format!("card {index}") };
    let nodes = vec![node(0), node(1), node(2), node(3)];
    let report = |capabilities: u32, formats: Option<Vec<FormatReport>>| {
        Some(DeviceReport { capabilities, bus: "usb".to_string(), formats })
    };
    let reports = vec![
        report(0x0420_0001, Some(formats())),
        None,
        report(0x04a0_0000, Some(formats())),
        report(1, None),
    ];
    let with = list_devices(&nodes, &reports, true);
    assert_eq!(with.len(), 2);
    assert_eq!(with[0].path, "/dev/video0");
    assert_eq!(with[0].card, "card 0");
    assert_eq!(with[0].bus, "usb");
    assert_eq!(with[0].modes.len(), 4);
    assert_eq!(with[1].path, "/dev/video3");
    assert!(with[1].modes.is_empty());
    let without = list_devices(&nodes, &reports, false);
    assert_eq!(without.len(), 2);
    assert!(without[0].modes.is_empty());
    assert_eq!(node_path(42), "/dev/video42");
}
