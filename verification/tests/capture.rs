use lancam::capture::{
    capture_rate, decodable, fourcc_bytes, pick_mode, resolve_device, Camera, DeviceError,
    DeviceInfo, Mode, ReadOutcome,
};
use lancam::pixels::FrameError;
use lancam::single::Single;

fn single(x: f32) -> Single {
    Single::from_bits(x.to_bits())
}

fn mode(fourcc: &str, width: u32, height: u32, fps: f32) -> Mode {
    Mode { fourcc: fourcc.to_string(), width, height, fps: single(fps) }
}

fn device(path: &str, card: &str, modes: Vec<Mode>) -> DeviceInfo {
    DeviceInfo { path: path.to_string(), card: card.to_string(), bus: "usb-1".to_string(), modes }
}

fn tuple(m: &Mode) -> (String, u32, u32, f32) {
    (m.fourcc.clone(), m.width, m.height, f32::from_bits(m.fps.bits))
}

fn pick(modes: &[Mode], fourcc: &str, width: u32, height: u32, fps: f32) -> (String, u32, u32, f32) {
    let dev = device("/dev/video0", "cam", modes.to_vec());
    tuple(&pick_mode(&dev, fourcc, width, height, single(fps)))
}

#[test]
fn only_four_formats_decode() {
    for f in ["MJPG", "JPEG", "YUYV", "NV12"] {
        assert!(decodable(f));
    }
    for f in ["H264", "mjpg", "MJPG ", "", "YUY2"] {
        assert!(!decodable(f));
    }
}

#[test]
fn a_supported_mode_is_honored() {
    let modes = [mode("YUYV", 640, 480, 30.0), mode("MJPG", 1920, 1080, 60.0)];
    assert_eq!(pick(&modes, "MJPG", 1920, 1080, 60.0), ("MJPG".to_string(), 1920, 1080, 60.0));
    // Within the tolerance, the request itself is kept.
    assert_eq!(pick(&modes, "MJPG", 1920, 1080, 59.94), ("MJPG".to_string(), 1920, 1080, 59.94));
    assert_eq!(pick(&modes, "YUYV", 640, 480, 30.1), ("YUYV".to_string(), 640, 480, 30.1));
}

#[test]
fn the_tolerance_ends_at_eleven_hundredths() {
    let modes = [mode("MJPG", 640, 480, 30.0)];
    assert_eq!(pick(&modes, "MJPG", 640, 480, 30.1).3, 30.1);
    assert_eq!(pick(&modes, "MJPG", 640, 480, 30.12).3, 30.0);
}

#[test]
fn a_device_without_modes_honors_what_decodes() {
    assert_eq!(pick(&[], "NV12", 111, 222, 7.5), ("NV12".to_string(), 111, 222, 7.5));
    assert_eq!(pick(&[], "H264", 111, 222, 7.5), ("MJPG".to_string(), 111, 222, 7.5));
}

#[test]
fn the_closest_mode_stands_in() {
    let modes = [
        mode("MJPG", 1280, 720, 30.0),
        mode("MJPG", 1280, 720, 60.0),
        mode("MJPG", 640, 480, 60.0),
        mode("YUYV", 1920, 1080, 60.0),
    ];
    // The requested format stays where it is offered, area comes before rate.
    assert_eq!(pick(&modes, "MJPG", 1920, 1080, 60.0), ("MJPG".to_string(), 1280, 720, 60.0));
    assert_eq!(pick(&modes, "MJPG", 1920, 1080, 25.0), ("MJPG".to_string(), 1280, 720, 30.0));
    assert_eq!(pick(&modes, "YUYV", 640, 480, 30.0), ("YUYV".to_string(), 1920, 1080, 60.0));
    // A format that is not offered falls back to MJPG first.
    assert_eq!(pick(&modes, "NV12", 1920, 1080, 60.0), ("MJPG".to_string(), 1280, 720, 60.0));
    assert_eq!(pick(&modes, "H264", 640, 480, 60.0), ("MJPG".to_string(), 640, 480, 60.0));
}

#[test]
fn of_equally_close_modes_the_first_stands_in() {
    let modes = [mode("MJPG", 640, 480, 20.0), mode("MJPG", 640, 480, 40.0)];
    assert_eq!(pick(&modes, "MJPG", 640, 480, 30.0).3, 20.0);
    let swapped = [mode("MJPG", 640, 480, 40.0), mode("MJPG", 640, 480, 20.0)];
    assert_eq!(pick(&swapped, "MJPG", 640, 480, 30.0).3, 40.0);
}

#[test]
fn modes_that_do_not_decode_never_stand_in() {
    let modes = [mode("H264", 1920, 1080, 60.0)];
    assert_eq!(pick(&modes, "H264", 1920, 1080, 60.0), ("MJPG".to_string(), 1920, 1080, 60.0));
    assert_eq!(pick(&modes, "YUYV", 1920, 1080, 60.0), ("YUYV".to_string(), 1920, 1080, 60.0));
}

#[test]
fn areas_are_compared_in_32_bits() {
    // 65536 * 65536 is zero in 32 bits, the area of the second mode.
    let modes = [mode("MJPG", 640, 480, 30.0), mode("MJPG", 0, 480, 30.0)];
    assert_eq!(pick(&modes, "MJPG", 65536, 65536, 30.0).1, 0);
}

#[test]
fn picking_a_picked_mode_keeps_it() {
    let modes = [
        mode("MJPG", 1280, 720, 30.0),
        mode("YUYV", 640, 480, 15.0),
        mode("NV12", 320, 240, 7.5),
        mode("H264", 1920, 1080, 60.0),
    ];
    for fourcc in ["MJPG", "YUYV", "NV12", "H264", "JPEG"] {
        for (w, h, fps) in [(1920, 1080, 60.0), (640, 480, 15.0), (1, 1, 1.0)] {
            let once = pick(&modes, fourcc, w, h, fps);
            assert!(decodable(&once.0));
            assert_eq!(pick(&modes, &once.0, once.1, once.2, once.3), once);
        }
    }
}

fn devices() -> Vec<DeviceInfo> {
    vec![
        device("/dev/video0", "Logitech BRIO", vec![]),
        device("/dev/video10", "OBS Camera", vec![]),
        device("/dev/video1", "Wave Cam", vec![]),
    ]
}

fn found(spec: Option<&str>) -> String {
    resolve_device(devices(), spec).unwrap().path
}

#[test]
fn devices_are_found_by_path_index_and_name() {
    assert_eq!(found(None), "/dev/video0");
    assert_eq!(found(Some("/dev/video1")), "/dev/video1");
    assert_eq!(found(Some("1")), "/dev/video1");
    assert_eq!(found(Some("+10")), "/dev/video10");
    assert_eq!(found(Some("0")), "/dev/video0");
    assert_eq!(found(Some("brio")), "/dev/video0");
    assert_eq!(found(Some("CAM")), "/dev/video10");
    assert_eq!(found(Some("wave")), "/dev/video1");
}

#[test]
fn an_index_and_its_path_find_the_same_device() {
    for n in ["0", "1", "10"] {
        assert_eq!(found(Some(n)), found(Some(&format!("/dev/video{n}"))));
    }
}

#[test]
fn missing_devices_are_reported() {
    let none = resolve_device(vec![], Some("0"));
    assert!(matches!(none, Err(DeviceError::NoDevices)));
    assert_eq!(
        none.unwrap_err().message(),
        "no video capture devices found (check /dev/video*)"
    );
    assert_eq!(
        resolve_device(devices(), Some("/dev/null")).unwrap_err().message(),
        "/dev/null is not a capture device"
    );
    assert_eq!(
        resolve_device(devices(), Some("7")).unwrap_err().message(),
        "no capture device with index 7"
    );
    assert_eq!(
        resolve_device(devices(), Some("a\"b")).unwrap_err().message(),
        "no capture device matching \"a\\\"b\""
    );
}

#[test]
fn formats_without_four_bytes_open_as_mjpg() {
    assert_eq!(&fourcc_bytes("YUYV"), b"YUYV");
    assert_eq!(&fourcc_bytes("GREY8"), b"MJPG");
    assert_eq!(&fourcc_bytes(""), b"MJPG");
    assert_eq!(fourcc_bytes("\u{e9}\u{e9}"), [0xc3, 0xa9, 0xc3, 0xa9]);
}

#[test]
fn the_rate_of_a_device_is_whole_and_above_zero() {
    for (fps, want) in [
        (59.94, 60),
        (30.0, 30),
        (0.5, 1),
        (0.2, 1),
        (-3.0, 1),
        (7.5, 8),
        (f32::NAN, 1),
        (f32::INFINITY, u32::MAX),
        (1e20, u32::MAX),
    ] {
        assert_eq!(capture_rate(single(fps)), want, "{fps}");
        assert_eq!(capture_rate(single(fps)), fps.round().max(1.0) as u32, "{fps}");
    }
}

#[test]
fn no_frame_is_a_timeout() {
    let cam = Camera::open(single(30.0), 2, 2, "MJPG");
    let mut dst = vec![7u8];
    assert!(matches!(cam.read_bgra(None, &mut dst), Ok(ReadOutcome::Timeout)));
    assert_eq!(dst, vec![7]);
}

#[test]
fn frames_are_read_by_format() {
    let yuyv = Camera::open(single(30.0), 2, 1, "YUYV");
    let mut dst = Vec::new();
    let bytes = [16u8, 128, 235, 128];
    assert!(matches!(yuyv.read_bgra(Some(&bytes), &mut dst), Ok(ReadOutcome::Frame)));
    assert_eq!(dst, vec![0, 0, 0, 255, 255, 255, 255, 255]);

    let nv12 = Camera::open(single(30.0), 2, 2, "NV12");
    let bytes = [16u8, 16, 235, 235, 128, 128];
    assert!(nv12.readable(bytes.len()));
    assert!(matches!(nv12.read_bgra(Some(&bytes), &mut dst), Ok(ReadOutcome::Frame)));
    assert_eq!(dst.len(), 16);
    assert_eq!(&dst[..4], &[0, 0, 0, 255]);
    assert_eq!(&dst[12..], &[255, 255, 255, 255]);
}

#[test]
fn frames_that_cannot_be_read_are_reported() {
    let mut dst = vec![1u8, 2, 3];
    let report = |fourcc: &str, bytes: &[u8], dst: &mut Vec<u8>| {
        let cam = Camera::open(single(30.0), 4, 4, fourcc);
        assert!(cam.readable(bytes.len()));
        cam.read_bgra(Some(bytes), dst).unwrap_err()
    };
    assert_eq!(report("MJPG", b"no image", &mut dst).message(), "mjpeg decode failed");
    assert_eq!(report("JPEG", b"", &mut dst).message(), "mjpeg decode failed");
    assert_eq!(report("YUYV", &[0; 31], &mut dst).message(), "short YUYV frame");
    assert_eq!(report("NV12", &[0; 23], &mut dst).message(), "short NV12 frame");
    let e = report("H264", &[0; 64], &mut dst);
    assert!(matches!(e, FrameError::Unsupported(_)));
    assert_eq!(e.message(), "unsupported capture format H264");
    assert_eq!(dst, vec![1, 2, 3]);
}

#[test]
fn jpeg_frames_are_read_from_their_bytes() {
    let mut jpg = Vec::new();
    let mut encoder = jpeg_encoder::Encoder::new(&mut jpg, 100);
    encoder.set_optimized_huffman_tables(true);
    encoder.encode(&[60; 192], 8, 8, jpeg_encoder::ColorType::Rgb).unwrap();
    let scan = (1..jpg.len()).rfind(|i| jpg[i - 1] == 0xff && jpg[*i] == 0xda).unwrap();
    for fourcc in ["MJPG", "JPEG"] {
        let cam = Camera::open(single(30.0), 8, 8, fourcc);
        let mut dst = Vec::new();
        assert!(cam.readable(jpg.len()));
        assert!(matches!(cam.read_bgra(Some(&jpg), &mut dst), Ok(ReadOutcome::Frame)));
        assert_eq!(dst.len(), 256);
        let mut other = jpg.clone();
        other[scan + 5] = 0x33;
        assert!(matches!(cam.read_bgra(Some(&other), &mut dst), Err(FrameError::Jpeg)));
        assert_eq!(dst.len(), 256);
    }
}

#[test]
fn odd_frames_may_lack_their_last_chroma_pair() {
    let cam = Camera::open(single(30.0), 3, 3, "NV12");
    assert!(cam.readable(12));
    assert!(!cam.readable(13));
    assert!(cam.readable(16));
    assert!(!cam.readable(15));
    let other = Camera::open(single(30.0), 3, 3, "YUYV");
    assert!(other.readable(13));
}
