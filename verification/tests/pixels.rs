use lancam::pixels::{
    bgra_to_rgb, can_shrink, decode_mjpg, downscale_bgra, nv12_readable, nv12_to_bgra, rgb_to_bgra,
    yuv_pixel, yuyv_to_bgra, FrameError,
};

fn reference_pixel(y: u8, u: u8, v: u8) -> [u8; 4] {
    let (y, u, v) = (y as i32, u as i32 - 128, v as i32 - 128);
    let c = y - 16;
    let b = (298 * c + 516 * u + 128) >> 8;
    let g = (298 * c - 100 * u - 208 * v + 128) >> 8;
    let r = (298 * c + 409 * v + 128) >> 8;
    [b.clamp(0, 255) as u8, g.clamp(0, 255) as u8, r.clamp(0, 255) as u8, 255]
}

#[test]
fn yuv_pixels_follow_the_formula() {
    for y in 0..=255u8 {
        for u in (0..=255u8).step_by(5) {
            for v in (0..=255u8).step_by(3) {
                let mut dst = vec![9u8];
                yuv_pixel(y, u, v, &mut dst);
                assert_eq!(dst[0], 9);
                assert_eq!(dst[1..], reference_pixel(y, u, v));
            }
        }
    }
}

#[test]
fn known_yuv_pixels() {
    let mut dst = Vec::new();
    yuv_pixel(16, 128, 128, &mut dst);
    yuv_pixel(235, 128, 128, &mut dst);
    yuv_pixel(81, 90, 240, &mut dst);
    yuv_pixel(41, 240, 110, &mut dst);
    // Black, white, red and blue.
    let want = vec![0, 0, 0, 255, 255, 255, 255, 255, 0, 0, 255, 255, 255, 0, 0, 255];
    assert_eq!(dst, want);
}

#[test]
fn blue_and_red_yuyv_frames_keep_their_colours() {
    let mut dst = Vec::new();
    assert!(yuyv_to_bgra(&[41, 240, 41, 110], &mut dst, 2, 1).is_ok());
    assert_eq!(dst, vec![255, 0, 0, 255, 255, 0, 0, 255]);
    assert!(yuyv_to_bgra(&[81, 90, 81, 240], &mut dst, 2, 1).is_ok());
    assert_eq!(dst, vec![0, 0, 255, 255, 0, 0, 255, 255]);
}

#[test]
fn blue_nv12_frames_keep_their_colour() {
    let mut dst = Vec::new();
    assert!(nv12_to_bgra(&[41, 41, 41, 41, 240, 110], &mut dst, 2, 2).is_ok());
    assert_eq!(dst, vec![255, 0, 0, 255, 255, 0, 0, 255, 255, 0, 0, 255, 255, 0, 0, 255]);
}

#[test]
fn yuyv_shares_chroma_between_two_pixels() {
    let src = [50u8, 90, 200, 160, 80, 10, 90, 20, 99];
    let mut dst = vec![1u8];
    assert!(yuyv_to_bgra(&src, &mut dst, 2, 2).is_ok());
    let mut want = Vec::new();
    want.extend_from_slice(&reference_pixel(50, 90, 160));
    want.extend_from_slice(&reference_pixel(200, 90, 160));
    want.extend_from_slice(&reference_pixel(80, 10, 20));
    want.extend_from_slice(&reference_pixel(90, 10, 20));
    assert_eq!(dst, want);
}

#[test]
fn yuyv_and_nv12_give_the_same_picture() {
    let (w, h) = (6usize, 4usize);
    let mut nv12: Vec<u8> = (0..w * h).map(|i| (i * 37) as u8).collect();
    nv12.extend((0..w * h / 2).map(|i| (i * 53 + 11) as u8));
    let mut yuyv = Vec::new();
    for row in 0..h {
        for col in (0..w).step_by(2) {
            let uv = w * h + row / 2 * w + col;
            let p = row * w + col;
            yuyv.extend_from_slice(&[nv12[p], nv12[uv], nv12[p + 1], nv12[uv + 1]]);
        }
    }
    let (mut a, mut b) = (Vec::new(), Vec::new());
    assert!(yuyv_to_bgra(&yuyv, &mut a, 6, 4).is_ok());
    assert!(nv12_to_bgra(&nv12, &mut b, 6, 4).is_ok());
    assert_eq!(a.len(), 96);
    assert_eq!(a, b);
}

#[test]
fn short_yuyv_frames_are_refused() {
    let mut dst = vec![1u8];
    assert!(matches!(yuyv_to_bgra(&[0; 7], &mut dst, 2, 2), Err(FrameError::ShortYuyv)));
    assert_eq!(dst, vec![1]);
    // The size that is needed is counted in 32 bits.
    assert!(yuyv_to_bgra(&[], &mut dst, 0x8000_0000, 1).is_ok());
    assert!(dst.is_empty());
}

#[test]
fn nv12_shares_chroma_between_four_pixels() {
    let (w, h) = (4usize, 4usize);
    let src: Vec<u8> = (0..24u8).map(|i| i.wrapping_mul(37).wrapping_add(11)).collect();
    let mut dst = Vec::new();
    assert!(nv12_to_bgra(&src, &mut dst, w as u32, h as u32).is_ok());
    let mut want = Vec::new();
    for row in 0..h {
        for col in 0..w {
            let uv = w * h + (row / 2) * w + (col & !1);
            want.extend_from_slice(&reference_pixel(src[row * w + col], src[uv], src[uv + 1]));
        }
    }
    assert_eq!(dst, want);
}

#[test]
fn short_nv12_frames_are_refused() {
    let mut dst = vec![1u8];
    assert!(matches!(nv12_to_bgra(&[0; 5], &mut dst, 2, 2), Err(FrameError::ShortNv12)));
    assert_eq!(dst, vec![1]);
    assert!(nv12_to_bgra(&[], &mut dst, 0, 9).is_ok());
    assert!(dst.is_empty());
}

#[test]
fn even_nv12_frames_are_always_readable() {
    for w in (0..8u32).step_by(2) {
        for h in (0..8u32).step_by(2) {
            for len in 0..100usize {
                assert!(nv12_readable(len, w, h), "{w}x{h} {len}");
            }
        }
    }
    assert!(!nv12_readable(2, 1, 1));
    assert!(nv12_readable(3, 1, 1));
}

#[test]
fn rgb_comes_back_from_bgra() {
    let rgb: Vec<u8> = (0..60u8).map(|i| i.wrapping_mul(91)).collect();
    let mut bgra = vec![5u8; 3];
    rgb_to_bgra(&rgb, &mut bgra);
    assert_eq!(bgra.len(), 80);
    assert_eq!(&bgra[..4], &[rgb[2], rgb[1], rgb[0], 255]);
    assert_eq!(bgra_to_rgb(&bgra), rgb);
    // What does not fill a pixel is left out.
    assert_eq!(bgra_to_rgb(&[1, 2, 3, 4, 5]), vec![3, 2, 1]);
    rgb_to_bgra(&[1, 2, 3, 4], &mut bgra);
    assert_eq!(bgra, vec![3, 2, 1, 255]);
}

fn encode(rgb: &[u8], w: u16, h: u16) -> Vec<u8> {
    let mut jpg = Vec::new();
    jpeg_encoder::Encoder::new(&mut jpg, 100)
        .encode(rgb, w, h, jpeg_encoder::ColorType::Rgb)
        .unwrap();
    jpg
}

#[test]
fn jpeg_images_decode_into_bgra() {
    let mut rgb = Vec::new();
    for _ in 0..64 {
        rgb.extend_from_slice(&[200, 40, 90]);
    }
    let jpg = encode(&rgb, 8, 8);
    let mut dst = vec![3u8];
    assert!(decode_mjpg(&jpg, &mut dst).is_ok());
    assert_eq!(dst.len(), 256);
    for px in dst.chunks(4) {
        for (got, want) in px.iter().zip([90i32, 40, 200, 255]) {
            assert!((*got as i32 - want).abs() <= 3, "{px:?}");
        }
    }
    let direct = zune_jpeg::JpegDecoder::new(&jpg[..]).decode().unwrap();
    assert_eq!(bgra_to_rgb(&dst), direct);
}

#[test]
fn bytes_that_are_no_jpeg_are_refused() {
    let mut dst = vec![3u8];
    assert!(matches!(decode_mjpg(b"garbage", &mut dst), Err(FrameError::Jpeg)));
    assert_eq!(dst, vec![3]);
}

fn reference_downscale(src: &[u8], w: usize, h: usize, f: usize) -> Vec<u8> {
    let mut out = Vec::new();
    for row in 0..h / f {
        for col in 0..w / f {
            let mut acc = [0u32; 3];
            for dy in 0..f {
                for dx in 0..f {
                    let p = ((row * f + dy) * w + col * f + dx) * 4;
                    for c in 0..3 {
                        acc[c] += src[p + c] as u32;
                    }
                }
            }
            for a in acc {
                out.push((a / (f * f) as u32) as u8);
            }
            out.push(255);
        }
    }
    out
}

#[test]
fn shrinking_takes_means() {
    for (w, h, f) in [(4, 4, 2), (7, 5, 2), (9, 9, 3), (3, 2, 1), (5, 3, 5), (2, 2, 3)] {
        let src: Vec<u8> = (0..w * h * 4).map(|i| (i * i * 31 + 7 * i) as u8).collect();
        assert!(can_shrink(src.len(), w as u32, h as u32, f as u32));
        assert_eq!(
            downscale_bgra(&src, w as u32, h as u32, f as u32),
            reference_downscale(&src, w, h, f),
            "{w}x{h} by {f}"
        );
    }
    let two = [1u8, 2, 3, 0, 2, 4, 6, 0, 10, 20, 30, 0, 20, 40, 60, 0];
    assert_eq!(downscale_bgra(&two, 2, 2, 2), vec![8, 16, 24, 255]);
}

#[test]
fn shrinking_keeps_one_colour() {
    let src: Vec<u8> = [17u8, 99, 201, 3].repeat(12 * 10);
    let out = downscale_bgra(&src, 12, 10, 4);
    assert_eq!(out, [17u8, 99, 201, 255].repeat(3 * 2));
}

#[test]
fn shrinking_needs_all_bytes() {
    assert!(!can_shrink(4 * 4 * 4 - 2, 4, 4, 2));
    assert!(can_shrink(4 * 4 * 4 - 1, 4, 4, 2));
    assert!(can_shrink(0, 1, 1, 2));
    assert!(!can_shrink(100, 4, 4, 0));
    assert!(can_shrink(0, 4, 4, 4104));
    assert!(!can_shrink(0, 4, 4, 4105));
}
