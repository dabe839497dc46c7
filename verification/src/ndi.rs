//! What is handed to the NDI library with each frame, and how a source is
//! named.

use crate::single::Single;
use crate::text::{append, copy};
use crate::{single, text};
use vstd::prelude::*;

verus! {

/// The code of the pixel format BGRX: its four letters, the first one lowest.
pub const FOURCC_BGRX: u32 = 0x5852_4742;

/// The code for whole frames, one after the other.
pub const FRAME_FORMAT_PROGRESSIVE: i32 = 1;

/// "Make up a timecode at send time": required on audio frames when the stream
/// is not clocked by the library; a bare zero gets the frames dropped.
pub const SEND_TIMECODE_SYNTHESIZE: i64 = 0x7fff_ffff_ffff_ffff;

/// Who shows the source.
#[derive(Clone, Copy, Debug, PartialEq, Eq, Structural)]
pub struct Tally {
    pub on_program: bool,
    pub on_preview: bool,
}

impl Default for Tally {
    fn default() -> (r: Tally)
        ensures
            r == (Tally { on_program: false, on_preview: false }),
    {
        Tally { on_program: false, on_preview: false }
    }
}

/// A 32-bit pattern as a signed number.
pub open spec fn as_signed(x: u32) -> int {
    if x >= 0x8000_0000 {
        x - 0x1_0000_0000
    } else {
        x as int
    }
}

/// A 32-bit pattern as a signed number.
pub fn signed(x: u32) -> (r: i32)
    ensures
        r == as_signed(x),
{
    let wide = x as i64;
    if wide >= 0x8000_0000 {
        (wide - 0x1_0000_0000) as i32
    } else {
        wide as i32
    }
}

/// A time in nanoseconds as units of 100 nanoseconds, in the 64 bits that it is
/// counted in.
pub open spec fn hundreds(nanos: int) -> int {
    let low = nanos % 0x1_0000_0000_0000_0000;
    if low >= 0x8000_0000_0000_0000 {
        -((0x1_0000_0000_0000_0000 - low) / 100)
    } else {
        low / 100
    }
}

/// A time in nanoseconds as units of 100 nanoseconds: the time base that audio
/// and video share.
pub fn timestamp_100ns(nanos: u128) -> (r: i64)
    ensures
        r == hundreds(nanos as int),
{
    let low: u128 = nanos % 0x1_0000_0000_0000_0000;
    if low >= 0x8000_0000_0000_0000 {
        -(((0x1_0000_0000_0000_0000 - low) / 100) as i64)
    } else {
        (low / 100) as i64
    }
}

/// What describes a video frame.
#[derive(Clone, Copy, Debug, PartialEq, Eq, Structural)]
pub struct VideoHeader {
    pub xres: i32,
    pub yres: i32,
    pub fourcc: u32,
    pub frame_rate_n: i32,
    pub frame_rate_d: i32,
    pub picture_aspect_ratio: Single,
    pub frame_format_type: i32,
    pub timecode: i64,
    pub line_stride_in_bytes: i32,
    pub timestamp: i64,
}

/// The ratio of two sides.
pub open spec fn aspect(width: u32, height: u32) -> Single {
    let w = Single { bits: single::nearest(width as nat * single::one(), 1) as u32 };
    let h = Single { bits: single::nearest(height as nat * single::one(), 1) as u32 };
    Single { bits: w.over_bits(h) as u32 }
}

/// The header of a BGRX frame without padding between its lines.
pub fn video_header(width: u32, height: u32, fps_n: i32, fps_d: i32, timestamp: i64) -> (r:
    VideoHeader)
    ensures
        r.xres == as_signed(width),
        r.yres == as_signed(height),
        r.fourcc == FOURCC_BGRX,
        r.frame_rate_n == fps_n,
        r.frame_rate_d == fps_d,
        r.picture_aspect_ratio == aspect(width, height),
        r.frame_format_type == FRAME_FORMAT_PROGRESSIVE,
        r.timecode == 0,
        r.line_stride_in_bytes == as_signed(((width * 4) % 0x1_0000_0000) as u32),
        r.timestamp == timestamp,
{
    let stride = (width as u64 * 4) % 0x1_0000_0000;
    VideoHeader {
        xres: signed(width),
        yres: signed(height),
        fourcc: FOURCC_BGRX,
        frame_rate_n: fps_n,
        frame_rate_d: fps_d,
        picture_aspect_ratio: Single::from_integer(width as u64).over(
            Single::from_integer(height as u64),
        ),
        frame_format_type: FRAME_FORMAT_PROGRESSIVE,
        timecode: 0,
        line_stride_in_bytes: signed(stride as u32),
        timestamp,
    }
}

/// What describes a block of audio.
#[derive(Clone, Copy, Debug, PartialEq, Eq, Structural)]
pub struct AudioHeader {
    pub sample_rate: i32,
    pub no_channels: i32,
    pub no_samples: i32,
    pub timecode: i64,
    pub channel_stride_in_bytes: i32,
    pub timestamp: i64,
}

/// The lower 32 bits of a size, as a signed number.
pub open spec fn size_bits(n: int) -> int {
    as_signed((n % 0x1_0000_0000) as u32)
}

fn cut_size(n: u128) -> (r: i32)
    ensures
        r == size_bits(n as int),
{
    signed((n % 0x1_0000_0000) as u32)
}

/// The header of a block with so many samples in all, channel by channel. Its
/// timecode is made up when it is sent.
pub fn audio_header(samples: usize, channels: usize, rate: u32, timestamp: i64) -> (r: AudioHeader)
    requires
        channels > 0,
    ensures
        r.sample_rate == as_signed(rate),
        r.no_channels == size_bits(channels as int),
        r.no_samples == size_bits(samples as int / channels as int),
        r.timecode == SEND_TIMECODE_SYNTHESIZE,
        r.channel_stride_in_bytes == size_bits(samples as int / channels as int * 4),
        r.timestamp == timestamp,
{
    let frames = samples / channels;
    AudioHeader {
        sample_rate: signed(rate),
        no_channels: cut_size(channels as u128),
        no_samples: cut_size(frames as u128),
        timecode: SEND_TIMECODE_SYNTHESIZE,
        channel_stride_in_bytes: cut_size(frames as u128 * 4),
        timestamp,
    }
}

/// How a source is shown: the machine, and its name in brackets; the name alone
/// where the machine has none.
pub open spec fn shown_name(host: Seq<char>, name: Seq<char>) -> Seq<char> {
    if host.len() == 0 {
        name
    } else {
        host + " ("@ + name + ")"@
    }
}

/// What the file with the name of the machine holds, without the white space
/// around it; nothing where it could not be read.
pub open spec fn host_name(file: Option<Seq<char>>) -> Seq<char> {
    match file {
        Some(s) => text::trimmed(s),
        None => Seq::empty(),
    }
}

/// NDI advertises sources as "MACHINE (name)"; this mirrors that for display.
pub fn advertised_name(file: Option<&str>, name: &str) -> (r: String)
    ensures
        r@ == shown_name(host_name(text::opt_str_view(file)), name@),
{
    let mut host = match file {
        Some(s) => text::trim(s),
        None => String::new(),
    };
    assert(host@ =~= host_name(text::opt_str_view(file)));
    if host.as_str().is_empty() {
        copy(name)
    } else {
        append(&mut host, " (");
        append(&mut host, name);
        append(&mut host, ")");
        host
    }
}

/// Timestamps never go back, for as long as the clock fits its 64 bits.
pub proof fn timestamps_ascend(a: int, b: int)
    requires
        0 <= a <= b < 0x8000_0000_0000_0000,
    ensures
        hundreds(a) <= hundreds(b),
{
}

} // verus!
