//! The light the switcher has that the rig did not make: what an input is,
//! the pattern drawn here rather than decoded, and the ffmpeg command line
//! that decodes the others.
//!
//! [`Input::File`] and [`Input::Capture`] are both an `ffmpeg` reading
//! something and writing raw RGBA down a pipe, so anything ffmpeg can open is
//! an input. [`Input::Pattern`] is drawn here instead: no process, no
//! thread, no decode, and exact levels a test can assert.

use vstd::prelude::*;
use crate::text::{decimal, push_decimal};

verus! {

/// One external source.
#[derive(Clone, Debug, PartialEq, Eq)]
pub enum Input {
    /// Drawn here, once. Still on purpose: motion in this instrument is the
    /// camera's job.
    Pattern(Pattern),
    /// A video file, played on a loop at its own frame rate.
    File(String),
    /// A live device: `format` is ffmpeg's `-f` and `device` its `-i`, so
    /// `v4l2` + `/dev/video0` is a webcam.
    Capture { format: String, device: String },
}

/// The patterns that are drawn rather than decoded.
#[derive(Clone, Copy, Debug, PartialEq, Eq, Structural)]
pub enum Pattern {
    /// Eight vertical bars at 75%: white, yellow, cyan, green, magenta, red,
    /// blue, black. Every primary and both ends of the scale.
    Bars,
}

impl Input {
    /// What the log calls the input.
    pub open spec fn spec_describe(&self) -> Seq<char> {
        match self {
            Input::Pattern(Pattern::Bars) => "pattern Bars"@,
            Input::File(path) => "file "@ + path@,
            Input::Capture { format, device } => "capture "@ + format@ + ":"@ + device@,
        }
    }

    pub fn describe(&self) -> (text: String)
        ensures
            text@ == self.spec_describe(),
    {
        match self {
            Input::Pattern(Pattern::Bars) => String::from_str("pattern Bars"),
            Input::File(path) => {
                let mut text = String::from_str("file ");
                text.append(path.as_str());
                text
            },
            Input::Capture { format, device } => {
                let mut text = String::from_str("capture ");
                text.append(format.as_str());
                text.append(":");
                text.append(device.as_str());
                text
            },
        }
    }
}

/// Bytes in one tightly packed RGBA8 frame of `width` by `height`.
pub open spec fn spec_frame_bytes(width: u32, height: u32) -> int {
    width * height * 4
}

pub fn frame_bytes(size: (u32, u32)) -> (bytes: usize)
    requires
        spec_frame_bytes(size.0, size.1) <= usize::MAX,
    ensures
        bytes == spec_frame_bytes(size.0, size.1),
{
    proof {
        let w = size.0 as int;
        let h = size.1 as int;
        assert(w * h <= w * h * 4) by (nonlinear_arith)
            requires
                w >= 0,
                h >= 0,
        ;
    }
    size.0 as usize * size.1 as usize * 4
}

/// 75% of full scale, which is what a bar generator puts out.
pub const BAR_LEVEL: u8 = 191;

/// Which channels are on in each bar, in descending luma, which is what
/// puts a staircase on a waveform monitor.
pub open spec fn bars() -> Seq<(bool, bool, bool)> {
    seq![
        (true, true, true),
        (true, true, false),
        (false, true, true),
        (false, true, false),
        (true, false, true),
        (true, false, false),
        (false, false, true),
        (false, false, false),
    ]
}

/// A channel that is on in a bar, or off.
pub open spec fn level(on: bool) -> u8 {
    if on {
        BAR_LEVEL
    } else {
        0
    }
}

/// Which bar column `x` of a frame `width` wide falls in.
pub open spec fn bar_index(x: u32, width: u32) -> int {
    let i = (x * 8) / (width as int);
    if i > 7 {
        7
    } else {
        i
    }
}

/// The colour of column `x` of the bars, `width` wide.
pub open spec fn bar_colour(x: u32, width: u32) -> (u8, u8, u8) {
    let on = bars()[bar_index(x, width)];
    (level(on.0), level(on.1), level(on.2))
}

pub fn bar(x: u32, width: u32) -> (rgb: [u8; 3])
    requires
        width > 0,
    ensures
        (rgb[0], rgb[1], rgb[2]) == bar_colour(x, width),
{
    let i = x as u64 * 8 / width as u64;
    let i = if i > 7 { 7 } else { i };
    let (r, g, b) = match i {
        0 => (true, true, true),
        1 => (true, true, false),
        2 => (false, true, true),
        3 => (false, true, false),
        4 => (true, false, true),
        5 => (true, false, false),
        6 => (false, false, true),
        _ => (false, false, false),
    };
    let level_of = |on: bool| -> (l: u8)
        ensures
            l == level(on),
        { if on { BAR_LEVEL } else { 0 } };
    [level_of(r), level_of(g), level_of(b)]
}

/// Whether the texel at column `x`, row `y` of `pixels`, a frame `width`
/// wide, is opaque and the colour of its bar.
pub open spec fn texel_drawn(pixels: Seq<u8>, width: u32, x: u32, y: u32) -> bool {
    let i = (y * width + x) * 4;
    &&& (pixels[i], pixels[i + 1], pixels[i + 2]) == bar_colour(x, width)
    &&& pixels[i + 3] == 255
}

/// A pattern, drawn into a tightly packed RGBA8 frame: every texel opaque,
/// and each column the colour of its bar.
pub fn draw(pattern: Pattern, size: (u32, u32)) -> (pixels: Vec<u8>)
    requires
        spec_frame_bytes(size.0, size.1) <= usize::MAX,
    ensures
        pixels@.len() == spec_frame_bytes(size.0, size.1),
        forall|x: u32, y: u32| x < size.0 && y < size.1 ==> #[trigger] texel_drawn(pixels@, size.0, x, y),
{
    let (width, height) = size;
    let mut pixels: Vec<u8> = Vec::new();
    let mut y: u32 = 0;
    while y < height
        invariant
            y <= height,
            pixels@.len() == y * width * 4,
            forall|px: u32, py: u32| px < width && py < y ==> #[trigger] texel_drawn(pixels@, width, px, py),
        decreases height - y,
    {
        let mut x: u32 = 0;
        while x < width
            invariant
                y < height,
                x <= width,
                pixels@.len() == (y * width + x) * 4,
                forall|px: u32, py: u32|
                    (px < width && py < y) || (py == y && px < x) ==> #[trigger] texel_drawn(pixels@, width, px, py),
            decreases width - x,
        {
            let rgb = bar(x, width);
            let ghost before = pixels@;
            pixels.push(rgb[0]);
            pixels.push(rgb[1]);
            pixels.push(rgb[2]);
            pixels.push(255);
            proof {
                let here = (y * width + x) * 4;
                assert(here == before.len());
                assert forall|px: u32, py: u32|
                    (px < width && py < y) || (py == y && px < x + 1) implies #[trigger] texel_drawn(pixels@, width, px, py) by {
                    let i = (py * width + px) * 4;
                    if py == y && px == x {
                        assert(i == here);
                    } else {
                        assert(py * width + px < y * width + x) by (nonlinear_arith)
                            requires
                                (px < width && py < y) || (py == y && px < x),
                        ;
                        assert(i + 3 < here);
                        assert(texel_drawn(before, width, px, py));
                        assert(pixels@[i] == before[i] && pixels@[i + 1] == before[i + 1]
                            && pixels@[i + 2] == before[i + 2] && pixels@[i + 3] == before[i + 3]);
                    }
                }
            }
            x = x + 1;
        }
        assert((y + 1) * width == y * width + width) by (nonlinear_arith);
        y = y + 1;
    }
    proof {
        assert(height * width * 4 == width * height * 4) by (nonlinear_arith);
    }
    pixels
}

/// A sequence of strings as the characters each holds.
pub open spec fn texts(strings: Seq<String>) -> Seq<Seq<char>> {
    strings.map_values(|s: String| s@)
}

pub(crate) fn push_text(args: &mut Vec<String>, text: &str)
    ensures
        texts(final(args)@) == texts(old(args)@).push(text@),
{
    args.push(String::from_str(text));
    assert(texts(final(args)@) =~= texts(old(args)@).push(text@));
}

/// The input-side options for a file: at its own frame rate and forever,
/// through the file protocol and no other, all before `-i`.
pub open spec fn file_options(path: Seq<char>) -> Seq<Seq<char>> {
    seq!["-protocol_whitelist"@, "file"@, "-re"@, "-stream_loop"@, "-1"@, "-i"@, path]
}

pub fn file_args(path: &str) -> (args: Vec<String>)
    ensures
        texts(args@) == file_options(path@),
{
    let mut args: Vec<String> = Vec::new();
    push_text(&mut args, "-protocol_whitelist");
    push_text(&mut args, "file");
    push_text(&mut args, "-re");
    push_text(&mut args, "-stream_loop");
    push_text(&mut args, "-1");
    push_text(&mut args, "-i");
    push_text(&mut args, path);
    assert(texts(args@) =~= file_options(path@));
    args
}

/// The input-side options for a live device. No `-re`: a device paces
/// itself.
pub open spec fn capture_options(format: Seq<char>, device: Seq<char>) -> Seq<Seq<char>> {
    seq!["-f"@, format, "-i"@, device]
}

pub fn capture_args(format: &str, device: &str) -> (args: Vec<String>)
    ensures
        texts(args@) == capture_options(format@, device@),
{
    let mut args: Vec<String> = Vec::new();
    push_text(&mut args, "-f");
    push_text(&mut args, format);
    push_text(&mut args, "-i");
    push_text(&mut args, device);
    assert(texts(args@) =~= capture_options(format@, device@));
    args
}

/// Letterboxed, not stretched: an input's own shape is not the monitor's.
pub open spec fn letterbox(width: u32, height: u32) -> Seq<char> {
    "scale="@ + decimal(width as nat) + ":"@ + decimal(height as nat)
        + ":force_original_aspect_ratio=decrease,pad="@ + decimal(width as nat) + ":"@ + decimal(
        height as nat,
    ) + ":(ow-iw)/2:(oh-ih)/2"@
}

/// The ffmpeg command line around `source`, the input-side options naming
/// what to open. Every piece not in `source` is chosen here: each thing a
/// config supplies lands as the argument of an option, so nothing it says
/// becomes a flag.
pub open spec fn command_line(source: Seq<Seq<char>>, width: u32, height: u32) -> Seq<Seq<char>> {
    seq!["-nostdin"@, "-loglevel"@, "error"@] + source + seq![
        "-an"@,
        "-vf"@,
        letterbox(width, height),
        "-f"@,
        "rawvideo"@,
        "-pix_fmt"@,
        "rgba"@,
        "-"@,
    ]
}

/// The picture a source hands over is fitted and centred: the argument of
/// `-vf` scales it inside the frame keeping its shape, then pads it out to
/// the frame with the padding split evenly on both sides — the scaled
/// picture placed at `(ow-iw)/2`, `(oh-ih)/2`.
pub proof fn lemma_the_input_is_letterboxed_and_centred(source: Seq<Seq<char>>, width: u32, height: u32)
    ensures
        ({
            let line = command_line(source, width, height);
            let w = decimal(width as nat);
            let h = decimal(height as nat);
            let scale = "scale="@ + w + ":"@ + h + ":force_original_aspect_ratio=decrease"@;
            let pad = "pad="@ + w + ":"@ + h + ":"@;
            let centre = "(ow-iw)/2:(oh-ih)/2"@;
            let at = source.len() as int;
            &&& line[at + 4] == "-vf"@
            &&& line[at + 5] == scale + ","@ + pad + centre
            &&& line[at + 5].take(scale.len() as int) == scale
            &&& line[at + 5].skip(line[at + 5].len() - centre.len()) == centre
        }),
{
    let w = decimal(width as nat);
    let h = decimal(height as nat);
    let scale = "scale="@ + w + ":"@ + h + ":force_original_aspect_ratio=decrease"@;
    let pad = "pad="@ + w + ":"@ + h + ":"@;
    let centre = "(ow-iw)/2:(oh-ih)/2"@;
    reveal_strlit("scale=");
    reveal_strlit(":");
    reveal_strlit(":force_original_aspect_ratio=decrease");
    reveal_strlit(":force_original_aspect_ratio=decrease,pad=");
    reveal_strlit(",");
    reveal_strlit("pad=");
    reveal_strlit("(ow-iw)/2:(oh-ih)/2");
    reveal_strlit(":(ow-iw)/2:(oh-ih)/2");
    let filter = letterbox(width, height);
    assert(filter =~= scale + ","@ + pad + centre);
    assert(filter.take(scale.len() as int) =~= scale);
    assert(filter.skip(filter.len() - centre.len()) =~= centre);
}

pub fn argv(source: Vec<String>, size: (u32, u32)) -> (argv: Vec<String>)
    ensures
        texts(argv@) == command_line(texts(source@), size.0, size.1),
{
    let (width, height) = size;
    let mut argv: Vec<String> = Vec::new();
    push_text(&mut argv, "-nostdin");
    push_text(&mut argv, "-loglevel");
    push_text(&mut argv, "error");
    let ghost head = texts(argv@);
    let mut source = source;
    let ghost given = texts(source@);
    argv.append(&mut source);
    assert(texts(argv@) =~= head + given);
    push_text(&mut argv, "-an");
    push_text(&mut argv, "-vf");
    let mut filter = String::from_str("scale=");
    push_decimal(&mut filter, width as u64);
    filter.append(":");
    push_decimal(&mut filter, height as u64);
    filter.append(":force_original_aspect_ratio=decrease,pad=");
    push_decimal(&mut filter, width as u64);
    filter.append(":");
    push_decimal(&mut filter, height as u64);
    filter.append(":(ow-iw)/2:(oh-ih)/2");
    assert(filter@ =~= letterbox(width, height));
    let ghost before = texts(argv@);
    argv.push(filter);
    assert(texts(argv@) =~= before.push(letterbox(width, height)));
    push_text(&mut argv, "-f");
    push_text(&mut argv, "rawvideo");
    push_text(&mut argv, "-pix_fmt");
    push_text(&mut argv, "rgba");
    push_text(&mut argv, "-");
    assert(texts(argv@) =~= command_line(given, width, height));
    argv
}

} // verus!
