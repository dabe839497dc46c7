use jpeg_encoder::{ColorType, Encoder, SamplingFactor};
use lancam::pixels::{decode_mjpg, decoded_to_bgra, grey_to_bgra, FrameError};
use lancam::scans::{is_grey, jpeg_readable};

fn picture(w: u16, h: u16, factor: SamplingFactor, set: fn(&mut Encoder<&mut Vec<u8>>)) -> Vec<u8> {
    let mut rgb = Vec::new();
    for y in 0..h as usize {
        for x in 0..w as usize {
            rgb.extend_from_slice(&[(x * 5) as u8, (y * 7) as u8, (x + y) as u8]);
        }
    }
    let mut jpg = Vec::new();
    let mut encoder = Encoder::new(&mut jpg, 90);
    encoder.set_sampling_factor(factor);
    set(&mut encoder);
    encoder.encode(&rgb, w, h, ColorType::Rgb).unwrap();
    jpg
}

fn one_scan(_: &mut Encoder<&mut Vec<u8>>) {}

fn many_scans(encoder: &mut Encoder<&mut Vec<u8>>) {
    encoder.set_optimized_huffman_tables(true);
}

fn progressive(encoder: &mut Encoder<&mut Vec<u8>>) {
    encoder.set_progressive(true);
}

fn restarts(encoder: &mut Encoder<&mut Vec<u8>>) {
    encoder.set_restart_interval(2);
}

fn progressive_restarts(encoder: &mut Encoder<&mut Vec<u8>>) {
    encoder.set_progressive(true);
    encoder.set_restart_interval(2);
}

/// Where the markers with the byte `m` stand, in images that hold nothing else
/// that looks like them.
fn places(jpg: &[u8], m: u8) -> Vec<usize> {
    (1..jpg.len()).filter(|i| jpg[i - 1] == 0xff && jpg[*i] == m).collect()
}

/// The image without the segments of a marker.
fn without(jpg: &[u8], m: u8) -> Vec<u8> {
    let mut out = jpg.to_vec();
    for at in places(jpg, m).into_iter().rev() {
        let n = out[at + 1] as usize * 256 + out[at + 2] as usize;
        out.drain(at - 1..at + 1 + n);
    }
    out
}

fn decoded(jpg: &[u8]) -> Result<Vec<u8>, FrameError> {
    assert!(jpeg_readable(jpg));
    let mut dst = Vec::new();
    decode_mjpg(jpg, &mut dst)?;
    Ok(dst)
}

/// The pixels that the decoder gives, as BGRA.
fn direct(jpg: &[u8]) -> Option<Vec<u8>> {
    let rgb = zune_jpeg::JpegDecoder::new(jpg).decode().ok()?;
    Some(rgb.chunks_exact(3).flat_map(|p| [p[2], p[1], p[0], 255]).collect())
}

/// An image that is not handed to the decoder.
fn refused(jpg: &[u8]) {
    assert!(!jpeg_readable(jpg));
    let mut dst = vec![1, 2, 3];
    assert!(matches!(decode_mjpg(jpg, &mut dst), Err(FrameError::Jpeg)));
    assert_eq!(dst, vec![1, 2, 3]);
}

#[test]
fn usual_images_are_readable() {
    for factor in [
        SamplingFactor::F_1_1,
        SamplingFactor::F_2_1,
        SamplingFactor::F_1_2,
        SamplingFactor::F_2_2,
    ] {
        for set in [one_scan, many_scans, progressive, restarts, progressive_restarts] {
            for (w, h) in [(1, 1), (8, 8), (15, 9), (33, 17), (40, 48)] {
                let jpg = picture(w, h, factor, set);
                assert_eq!(decoded(&jpg).ok(), direct(&jpg), "{factor:?} {w}x{h}");
            }
        }
    }
    for set in [one_scan, progressive, restarts] {
        let jpg = picture(33, 17, SamplingFactor::F_2_1, set);
        assert_eq!(decoded(&jpg).unwrap().len(), 33 * 17 * 4);
    }
    let jpg = picture(33, 17, SamplingFactor::F_1_1, many_scans);
    assert_eq!(decoded(&jpg).unwrap().len(), 33 * 17 * 4);
}

#[test]
fn rare_samples_are_readable_in_wide_images() {
    for factor in [
        SamplingFactor::F_4_1,
        SamplingFactor::F_4_2,
        SamplingFactor::F_1_4,
        SamplingFactor::F_2_4,
    ] {
        for set in [many_scans, restarts] {
            for (w, h) in [(16, 8), (33, 17), (64, 70)] {
                let jpg = picture(w, h, factor, set);
                assert_eq!(decoded(&jpg).ok(), direct(&jpg), "{factor:?} {w}x{h}");
            }
        }
    }
    // Rows of fewer than 16 pixels are not stretched four times.
    assert!(!jpeg_readable(&picture(15, 8, SamplingFactor::F_4_1, many_scans)));
    assert!(jpeg_readable(&picture(15, 8, SamplingFactor::F_1_4, many_scans)));
}

#[test]
fn broken_headers_are_errors() {
    let jpg = picture(20, 20, SamplingFactor::F_2_2, one_scan);
    let scan = places(&jpg, 0xda)[0];
    for end in 0..scan + 8 {
        assert!(matches!(decoded(&jpg[..end]), Err(FrameError::Jpeg)), "{end}");
    }
    for m in [0xc0, 0xc4, 0xdb, 0xda] {
        assert!(matches!(decoded(&without(&jpg, m)), Err(FrameError::Jpeg)), "{m:x}");
    }
    // A scan of a component that the frame lacks.
    let mut other = jpg.clone();
    other[scan + 4] = 77;
    assert!(matches!(decoded(&other), Err(FrameError::Jpeg)));
    // Five components, and three samples in a row.
    let frame = places(&jpg, 0xc0)[0];
    let mut other = jpg.clone();
    other[frame + 8] = 5;
    assert!(matches!(decoded(&other), Err(FrameError::Jpeg)));
    let mut other = jpg.clone();
    other[frame + 10] = 0x31;
    assert!(matches!(decoded(&other), Err(FrameError::Jpeg)));
}

#[test]
fn data_that_breaks_off_is_readable() {
    for set in [one_scan, many_scans, restarts, progressive] {
        let jpg = picture(40, 40, SamplingFactor::F_2_1, set);
        let scan = places(&jpg, 0xda)[0];
        for end in [scan + 20, scan + 60, jpg.len() - 2] {
            assert!(jpeg_readable(&jpg[..end]));
            let _ = decode_mjpg(&jpg[..end], &mut Vec::new());
        }
    }
}

#[test]
fn a_first_scan_without_its_table_is_an_error() {
    let jpg = picture(16, 16, SamplingFactor::F_1_1, one_scan);
    let scan = places(&jpg, 0xda)[0];
    for named in [0x20, 0x03, 0xf0, 0x0f] {
        let mut other = jpg.clone();
        other[scan + 5] = named;
        assert!(matches!(decoded(&other), Err(FrameError::Jpeg)), "{named:x}");
    }
}

#[test]
fn films_may_leave_out_the_usual_tables() {
    let jpg = picture(32, 16, SamplingFactor::F_2_1, one_scan);
    let mut film = vec![0xff, 0xd8, 0xff, 0xe0, 0, 16, b'A', b'V', b'I', b'1', 0];
    film.extend_from_slice(&[0; 9]);
    film.extend_from_slice(&without(&jpg, 0xc4)[2..]);
    assert_eq!(decoded(&film).unwrap(), decoded(&jpg).unwrap());
}

#[test]
fn later_scans_need_their_tables() {
    let jpg = picture(24, 24, SamplingFactor::F_1_1, many_scans);
    let scans = places(&jpg, 0xda);
    assert_eq!(scans.len(), 3);
    assert_eq!(jpg[scans[1] + 3], 1);
    assert!(jpeg_readable(&jpg));
    for later in [scans[1], scans[2]] {
        for named in [0x21, 0x12, 0x33] {
            let mut other = jpg.clone();
            other[later + 5] = named;
            refused(&other);
        }
        // Tables are counted modulo four.
        let mut other = jpg.clone();
        other[later + 5] = 0x55;
        assert_eq!(decoded(&other).unwrap(), decoded(&jpg).unwrap());
        // What stands after the end of the image, or after another marker, is
        // no scan.
        let mut other = jpg.clone();
        other[later + 5] = 0x33;
        other.splice(later - 1..later - 1, [0xff, 0xd9]);
        assert!(jpeg_readable(&other));
    }
    // Where the first scan holds all components, a second one is not decoded.
    let jpg = picture(24, 24, SamplingFactor::F_1_1, one_scan);
    let mut other = jpg[..jpg.len() - 2].to_vec();
    other.extend_from_slice(&[0xff, 0xda, 0, 8, 1, jpg[places(&jpg, 0xda)[0] + 4], 0x33, 0, 63, 0]);
    other.extend_from_slice(&[0xff, 0xd9]);
    assert_eq!(decoded(&other).unwrap(), decoded(&jpg).unwrap());
}

#[test]
fn films_serve_later_scans() {
    let mut jpg = vec![0xff, 0xd8, 0xff, 0xe0, 0, 7, b'A', b'V', b'I', b'1', 0];
    let plain = picture(24, 24, SamplingFactor::F_1_1, many_scans);
    jpg.extend_from_slice(&without(&plain, 0xc4)[2..]);
    let scans = places(&jpg, 0xda);
    assert!(jpeg_readable(&jpg));
    jpg[scans[2] + 5] = 0x22;
    assert!(!jpeg_readable(&jpg));
    // Without the mark of a film the first scan lacks its tables already.
    jpg[6] = b'B';
    assert!(matches!(decoded(&jpg), Err(FrameError::Jpeg)));
}

#[test]
fn components_must_fit_together() {
    let jpg = picture(32, 64, SamplingFactor::F_1_4, many_scans);
    let frame = places(&jpg, 0xc0)[0];
    assert_eq!(jpg[frame + 10], 0x14);
    let with = |first: u8, second: u8, third: u8| {
        let mut other = jpg.clone();
        other[frame + 10] = first;
        other[frame + 13] = second;
        other[frame + 16] = third;
        jpeg_readable(&other)
    };
    assert!(with(0x14, 0x11, 0x11));
    assert!(with(0x22, 0x21, 0x11));
    assert!(with(0x22, 0x12, 0x12));
    assert!(with(0x44, 0x11, 0x11));
    // Two rows that would each be stretched twice.
    assert!(!with(0x14, 0x12, 0x11));
    // The first component is not the largest one.
    assert!(!with(0x11, 0x22, 0x11));
    assert!(!with(0x12, 0x22, 0x12));
    // Half of the samples across, with four rows.
    assert!(!with(0x24, 0x14, 0x14));
}

#[test]
fn progressive_images_that_break_off_are_errors() {
    let jpg = picture(40, 40, SamplingFactor::F_1_1, progressive_restarts);
    assert!(jpeg_readable(&jpg));
    let restart = places(&jpg, 0xd0)[0];
    for end in [restart + 1, restart + 2] {
        refused(&jpg[..end]);
        assert!(direct(&jpg[..end]).is_none());
    }
    let jpg = picture(40, 40, SamplingFactor::F_1_1, progressive);
    for scan in places(&jpg, 0xda) {
        assert!(matches!(decoded(&jpg[..scan + 11]), Err(FrameError::Jpeg)));
    }
    // What stands behind the end of the image does not count.
    let mut other = jpg.clone();
    other.extend_from_slice(&[0xff, 0xd0]);
    assert_eq!(decoded(&other).unwrap(), decoded(&jpg).unwrap());
    // A sequential image may break off behind a restart.
    let jpg = picture(40, 40, SamplingFactor::F_1_1, restarts);
    let restart = places(&jpg, 0xd0)[0];
    assert!(decoded(&jpg[..restart + 1]).is_err());
}

/// The mark of the colours of an image.
fn adobe(transform: u8) -> Vec<u8> {
    let mut m = vec![0xff, 0xee, 0, 14];
    m.extend_from_slice(b"Adobe");
    m.extend_from_slice(&[0, 100, 0, 0, 0, 0, transform]);
    m
}

/// An image of 8 rows whose blocks are all zero, with `late` behind its data.
fn blank(width: u8, samples: &[u8], early: u8, late: &[u8]) -> Vec<u8> {
    let n = samples.len() as u8;
    let mut jpg = vec![0xff, 0xd8];
    jpg.extend_from_slice(&adobe(early));
    jpg.extend_from_slice(&[0xff, 0xdb, 0, 67, 0]);
    jpg.extend_from_slice(&[1; 64]);
    jpg.extend_from_slice(&[0xff, 0xc0, 0, 8 + 3 * n, 8, 0, 8, 0, width, n]);
    for (i, both) in samples.iter().enumerate() {
        jpg.extend_from_slice(&[i as u8 + 1, *both, 0]);
    }
    for class in [0, 0x10] {
        jpg.extend_from_slice(&[0xff, 0xc4, 0, 20, class, 1]);
        jpg.extend_from_slice(&[0; 16]);
    }
    jpg.extend_from_slice(&[0xff, 0xda, 0, 6 + 2 * n, n]);
    for i in 0..n {
        jpg.extend_from_slice(&[i + 1, 0]);
    }
    jpg.extend_from_slice(&[0, 63, 0, 0, 0, 0]);
    jpg.extend_from_slice(late);
    jpg
}

#[test]
fn colours_may_not_change_in_narrow_rows() {
    let end = [0xff, 0xd9];
    // Three components that are red, green and blue.
    assert_eq!(decoded(&blank(8, &[0x41, 0x11, 0x11], 0, &end)).unwrap().len(), 256);
    for transform in [1, 2] {
        let narrow = blank(8, &[0x41, 0x11, 0x11], 0, &adobe(transform));
        refused(&narrow);
        // The decoder refuses a marker in the data of a scan.
        assert!(direct(&narrow).is_none());
        assert!(decoded(&blank(16, &[0x41, 0x11, 0x11], 0, &adobe(transform))).is_err());
        assert!(decoded(&blank(8, &[0x21, 0x11, 0x11], 0, &adobe(transform))).is_err());
        // Behind the end of the image the mark is not read.
        let mut behind = end.to_vec();
        behind.extend_from_slice(&adobe(transform));
        assert!(decoded(&blank(8, &[0x41, 0x11, 0x11], 0, &behind)).is_ok());
    }
    assert!(decoded(&blank(8, &[0x41, 0x11, 0x11], 0, &adobe(0))).is_err());
    refused(&blank(8, &[0x41, 0x11, 0x11], 1, &end));
    // Four components.
    assert_eq!(decoded(&blank(8, &[0x41, 0x11, 0x11, 0x41], 0, &end)).unwrap().len(), 256);
    refused(&blank(8, &[0x41, 0x11, 0x11, 0x41], 0, &adobe(2)));
    refused(&blank(8, &[0x41, 0x11, 0x11, 0x41], 2, &end));
    // Two of them give no pixels, but no harm is done.
    assert!(decoded(&blank(8, &[0x41, 0x11], 2, &end)).is_ok());
}

#[test]
fn progressive_images_may_repeat_their_colours() {
    let cmyk: Vec<u8> = (0..40 * 40 * 4u32).map(|i| (i % 251) as u8).collect();
    let mut jpg = Vec::new();
    let mut encoder = Encoder::new(&mut jpg, 90);
    encoder.set_progressive(true);
    encoder.encode(&cmyk, 40, 40, ColorType::Cmyk).unwrap();
    let whole = decoded(&jpg).unwrap();
    assert_eq!(Some(&whole), direct(&jpg).as_ref());
    let scan = places(&jpg, 0xda)[1] - 1;
    // The same colours again, and others of four components.
    let with = |transform: u8| {
        let mut other = jpg.clone();
        other.splice(scan..scan, adobe(transform));
        other
    };
    assert_eq!(decoded(&with(0)).unwrap(), whole);
    assert_eq!(decoded(&with(2)).ok(), direct(&with(2)));
    assert!(decoded(&with(2)).is_ok());
    // Colours of three components leave no room for the fourth.
    refused(&with(1));
}

#[test]
fn grey_images_are_converted_pixel_by_pixel() {
    let mut jpg = Vec::new();
    let grey: Vec<u8> = (0..35).map(|i| i * 7).collect();
    Encoder::new(&mut jpg, 100).encode(&grey, 7, 5, ColorType::Luma).unwrap();
    assert!(is_grey(&jpg));
    let dst = decoded(&jpg).unwrap();
    assert_eq!(dst.len(), 140);
    for (px, want) in dst.chunks(4).zip(&grey) {
        assert_eq!(px, [px[0], px[0], px[0], 255]);
        assert!((px[0] as i32 - *want as i32).abs() <= 4, "{px:?} {want}");
    }
    let direct = zune_jpeg::JpegDecoder::new(&jpg[..]).decode().unwrap();
    assert_eq!(direct.len(), 35);
    let mut same = vec![9];
    grey_to_bgra(&direct, &mut same);
    assert_eq!(same, dst);
    assert!(!is_grey(&picture(8, 8, SamplingFactor::F_1_1, one_scan)));
    assert!(!is_grey(b"no image"));
}

#[test]
fn decoded_bytes_are_taken_for_pixels_by_the_components() {
    let mut grey = Vec::new();
    Encoder::new(&mut grey, 100).encode(&[9; 4], 2, 2, ColorType::Luma).unwrap();
    let colour = picture(2, 1, SamplingFactor::F_1_1, one_scan);
    let mut dst = Vec::new();
    decoded_to_bgra(&grey, &[1, 2, 3], &mut dst);
    assert_eq!(dst, vec![1, 1, 1, 255, 2, 2, 2, 255, 3, 3, 3, 255]);
    decoded_to_bgra(&colour, &[1, 2, 3], &mut dst);
    assert_eq!(dst, vec![3, 2, 1, 255]);
}

#[test]
fn colours_must_have_their_components() {
    let cases = [(0, false, true), (1, false, true), (2, true, true), (3, false, false)];
    for (transform, grey, colour) in cases {
        for (whole, ok) in [(false, grey), (true, colour)] {
            let mut jpg = Vec::new();
            if whole {
                jpg = picture(20, 20, SamplingFactor::F_1_1, one_scan);
            } else {
                Encoder::new(&mut jpg, 100).encode(&[90; 36], 6, 6, ColorType::Luma).unwrap();
            }
            let scan = places(&jpg, 0xda)[0] - 1;
            jpg.splice(scan..scan, adobe(transform));
            assert_eq!(decoded(&jpg).is_ok(), ok, "{transform} {whole}");
        }
    }
    // A progressive image of one component that claims four.
    let mut jpg = Vec::new();
    let mut encoder = Encoder::new(&mut jpg, 100);
    encoder.set_progressive(true);
    encoder.encode(&[90; 36], 6, 6, ColorType::Luma).unwrap();
    assert!(decoded(&jpg).is_ok());
    let scan = places(&jpg, 0xda)[0] - 1;
    jpg.splice(scan..scan, adobe(2));
    refused(&jpg);
}
