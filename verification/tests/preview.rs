use lancam::engine::Frame;
use lancam::pixels::{bgra_to_rgb, downscale_bgra};
use lancam::preview::{can_show, preview_part, wrap_image};

fn frame(width: u32, height: u32) -> Frame {
    let bgra = (0..width * height * 4).map(|i| (i / 7) as u8).collect();
    Frame { width, height, bgra }
}

fn encode(rgb: &[u8], w: u16, h: u16) -> Vec<u8> {
    let mut jpg = Vec::new();
    jpeg_encoder::Encoder::new(&mut jpg, 80)
        .encode(rgb, w, h, jpeg_encoder::ColorType::Rgb)
        .unwrap();
    jpg
}

#[test]
fn images_are_wrapped() {
    let mut want = b"--lancam\r\nContent-Type: image/jpeg\r\nContent-Length: 3\r\n\r\n".to_vec();
    want.extend_from_slice(&[7, 8, 9]);
    want.extend_from_slice(b"\r\n");
    assert_eq!(wrap_image(&vec![7, 8, 9]), want);
}

#[test]
fn small_frames_are_shown_as_they_are() {
    let f = frame(16, 8);
    assert!(can_show(&f));
    assert_eq!(preview_part(&f).unwrap(), wrap_image(&encode(&bgra_to_rgb(&f.bgra), 16, 8)));
}

#[test]
fn wide_frames_are_made_smaller() {
    for (w, h, k) in [(961u32, 4u32, 2u32), (1920, 6, 2), (1921, 6, 3)] {
        let f = frame(w, h);
        assert!(can_show(&f));
        let small = downscale_bgra(&f.bgra, w, h, k);
        let jpg = encode(&bgra_to_rgb(&small), (w / k) as u16, (h / k) as u16);
        assert_eq!(preview_part(&f).unwrap(), wrap_image(&jpg));
        assert!(w / k <= 960);
    }
}

#[test]
fn empty_and_short_frames_are_not_shown() {
    assert!(preview_part(&Frame { width: 0, height: 0, bgra: vec![] }).is_none());
    assert!(preview_part(&Frame { width: 4, height: 4, bgra: vec![0; 60] }).is_none());
    let wide = Frame { width: 1920, height: 4, bgra: vec![0; 100] };
    assert!(!can_show(&wide));
    // One row of a wide frame is nothing after it was made smaller.
    let flat = frame(1920, 1);
    assert!(can_show(&flat));
    assert!(preview_part(&flat).is_none());
}
