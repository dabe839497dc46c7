use lancam::ndi::{
    advertised_name, audio_header, signed, timestamp_100ns, video_header, Tally, FOURCC_BGRX,
    FRAME_FORMAT_PROGRESSIVE, SEND_TIMECODE_SYNTHESIZE,
};

#[test]
fn constants_of_the_library() {
    assert_eq!(FOURCC_BGRX, u32::from_le_bytes(*b"BGRX"));
    assert_eq!(FRAME_FORMAT_PROGRESSIVE, 1);
    assert_eq!(SEND_TIMECODE_SYNTHESIZE, i64::MAX);
    assert_eq!(Tally::default(), Tally { on_program: false, on_preview: false });
}

#[test]
fn video_headers_describe_the_frame() {
    for (w, h) in [(1920u32, 1080u32), (640, 480), (1, 3), (4_000_000_000, 7), (5, 0), (0, 0)] {
        let v = video_header(w, h, 60, 1, 77);
        assert_eq!((v.xres, v.yres), (w as i32, h as i32));
        assert_eq!(v.fourcc, FOURCC_BGRX);
        assert_eq!((v.frame_rate_n, v.frame_rate_d), (60, 1));
        let want = w as f32 / h as f32;
        let got = f32::from_bits(v.picture_aspect_ratio.bits);
        assert!(got == want || (got.is_nan() && want.is_nan()));
        assert_eq!(v.frame_format_type, 1);
        assert_eq!(v.timecode, 0);
        assert_eq!(v.line_stride_in_bytes, w.wrapping_mul(4) as i32);
        assert_eq!(v.timestamp, 77);
    }
}

#[test]
fn audio_headers_describe_the_block() {
    let a = audio_header(960, 2, 48_000, 5);
    assert_eq!((a.sample_rate, a.no_channels, a.no_samples), (48_000, 2, 480));
    assert_eq!(a.channel_stride_in_bytes, 1920);
    assert_eq!(a.timecode, i64::MAX);
    assert_eq!(a.timestamp, 5);
    assert_eq!(audio_header(3, 2, 4_000_000_000, 0).sample_rate, 4_000_000_000u32 as i32);
}

#[test]
fn timestamps_count_hundreds_of_nanoseconds() {
    for nanos in [0u128, 99, 100, 12_345_678_901, i64::MAX as u128, 1 << 63, (1 << 64) - 1, 1 << 64, 1 << 100] {
        assert_eq!(timestamp_100ns(nanos), nanos as i64 / 100, "{nanos}");
    }
    assert_eq!(timestamp_100ns(250), 2);
    let stamps: Vec<i64> = (0..1000u128).map(|n| timestamp_100ns(n * 33)).collect();
    assert!(stamps.windows(2).all(|w| w[0] <= w[1]));
}

#[test]
fn patterns_become_signed() {
    for x in [0u32, 1, 0x7fff_ffff, 0x8000_0000, u32::MAX] {
        assert_eq!(signed(x), x as i32);
    }
}

#[test]
fn sources_are_advertised_with_their_machine() {
    assert_eq!(advertised_name(Some("desk\n"), "cam"), "desk (cam)");
    assert_eq!(advertised_name(Some(" \n"), "cam"), "cam");
    assert_eq!(advertised_name(None, "cam"), "cam");
}
