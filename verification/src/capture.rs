//! What a capture of the display is called and how it is written: the
//! wall-clock moment it was taken, as a name that sorts, the display's size
//! fitted inside what an encoder is asked to take, and the raw pixel format
//! the encoder is told the display's frames are in.

use vstd::prelude::*;
use crate::text::{decimal, padded, push_decimal, push_padded, lemma_padded_is_digits, is_digit};
use crate::input::{push_text, texts};


verus! {

/// The widest a capture is written. A 4K display read back frame by frame
/// is a gigabyte a second over the bus and more than a real-time encoder
/// takes; bigger windows are fitted inside this, keeping their shape.
pub const MAX_WIDTH: u32 = 1920;

/// The tallest a capture is written.
pub const MAX_HEIGHT: u32 = 1080;

/// Whether `year` of the Gregorian calendar has a 29th of February.
pub open spec fn is_leap(year: int) -> bool {
    (year % 4 == 0 && year % 100 != 0) || year % 400 == 0
}

/// How many days `month` (1 to 12) of `year` has.
pub open spec fn month_days(year: int, month: int) -> int {
    if month == 2 {
        if is_leap(year) {
            29
        } else {
            28
        }
    } else if month == 4 || month == 6 || month == 9 || month == 11 {
        30
    } else {
        31
    }
}

/// How many days `year` has.
pub open spec fn year_days(year: int) -> int {
    if is_leap(year) {
        366
    } else {
        365
    }
}

/// Leap years before `year`, counted from a fixed origin: the difference
/// between two of these is how many leap years lie between.
#[verifier::opaque]
pub open spec fn leaps_before(year: int) -> int {
    (year - 1) / 4 - (year - 1) / 100 + (year - 1) / 400
}

/// The days from the first of January 1970 to the first of January of
/// `year`, negative before it.
pub open spec fn days_before_year(year: int) -> int {
    365 * (year - 1970) + leaps_before(year) - leaps_before(1970)
}

/// The days of `year` before the first of `month`.
pub open spec fn days_before_month(year: int, month: int) -> int
    decreases month,
{
    if month <= 1 {
        0
    } else {
        days_before_month(year, month - 1) + month_days(year, month - 1)
    }
}

/// Whether `(year, month, date)` is a day of the calendar.
pub open spec fn is_date(year: int, month: int, date: int) -> bool {
    1 <= month <= 12 && 1 <= date <= month_days(year, month)
}

/// Which day after the first of January 1970 a date is.
pub open spec fn epoch_day(year: int, month: int, date: int) -> int {
    days_before_year(year) + days_before_month(year, month) + date - 1
}

proof fn lemma_next_year(year: int)
    ensures
        days_before_year(year + 1) == days_before_year(year) + year_days(year),
{
    reveal(leaps_before);
    let x = year - 1;
    assert(year / 4 == x / 4 + (if year % 4 == 0 { 1int } else { 0 }));
    assert(year / 100 == x / 100 + (if year % 100 == 0 { 1int } else { 0 }));
    assert(year / 400 == x / 400 + (if year % 400 == 0 { 1int } else { 0 }));
}

proof fn lemma_four_centuries(year: int)
    ensures
        days_before_year(year + 400) == days_before_year(year) + 146097,
{
    reveal(leaps_before);
    let x = year - 1;
    assert((x + 400) / 4 == x / 4 + 100);
    assert((x + 400) / 100 == x / 100 + 4);
    assert((x + 400) / 400 == x / 400 + 1);
}

proof fn lemma_cycles(cycles: int)
    ensures
        days_before_year(1970 + 400 * cycles) == 146097 * cycles,
    decreases (if cycles >= 0 { cycles } else { -cycles }),
{
    if cycles > 0 {
        lemma_cycles(cycles - 1);
        lemma_four_centuries(1970 + 400 * (cycles - 1));
    } else if cycles < 0 {
        lemma_cycles(cycles + 1);
        lemma_four_centuries(1970 + 400 * cycles);
    }
}

proof fn lemma_months(year: int)
    ensures
        days_before_month(year, 13) == year_days(year),
        forall|m: int|
            1 <= m <= 12 ==> #[trigger] days_before_month(year, m) + month_days(year, m)
                == days_before_month(year, m + 1),
        forall|m: int| 1 <= m <= 12 ==> days_before_month(year, m) + month_days(year, m) <= days_before_month(year, 13) && #[trigger] days_before_month(year, m) >= 0,
{
    reveal_with_fuel(days_before_month, 13);
}

proof fn lemma_years_grow(a: int, b: int)
    requires
        a <= b,
    ensures
        days_before_year(a) + 365 * (b - a) <= days_before_year(b),
    decreases b - a,
{
    if a < b {
        lemma_years_grow(a, b - 1);
        lemma_next_year(b - 1);
    }
}

/// One date per day: two dates of the calendar that fall on the same day
/// are the same date, so the day a date falls on names it.
pub proof fn lemma_one_date_per_day(y1: int, m1: int, d1: int, y2: int, m2: int, d2: int)
    requires
        is_date(y1, m1, d1),
        is_date(y2, m2, d2),
        epoch_day(y1, m1, d1) == epoch_day(y2, m2, d2),
    ensures
        y1 == y2 && m1 == m2 && d1 == d2,
{
    lemma_months(y1);
    lemma_months(y2);
    if y1 < y2 {
        lemma_next_year(y1);
        lemma_years_grow(y1 + 1, y2);
        assert(epoch_day(y1, m1, d1) < days_before_year(y1 + 1));
    } else if y2 < y1 {
        lemma_next_year(y2);
        lemma_years_grow(y2 + 1, y1);
        assert(epoch_day(y2, m2, d2) < days_before_year(y2 + 1));
    } else {
        if m1 != m2 {
            let (lo, hi, dlo) = if m1 < m2 { (m1, m2, d1) } else { (m2, m1, d2) };
            lemma_months_grow(y1, lo + 1, hi);
            assert(days_before_month(y1, lo) + dlo - 1 < days_before_month(y1, lo + 1));
        }
    }
}

proof fn lemma_months_grow(year: int, a: int, b: int)
    requires
        1 <= a <= b <= 13,
    ensures
        days_before_month(year, a) <= days_before_month(year, b),
    decreases b - a,
{
    if a < b {
        lemma_months_grow(year, a, b - 1);
        lemma_months(year);
    }
}

/// Whether `by` divides `year`.
fn divides(year: i64, by: i64) -> (divides: bool)
    requires
        by > 0,
    ensures
        divides == ((year as int) % (by as int) == 0),
{
    match year.checked_rem_euclid(by) {
        Some(rest) => rest == 0,
        None => false,
    }
}

/// Whether `year` has a 29th of February.
fn leap(year: i64) -> (leap: bool)
    ensures
        leap == is_leap(year as int),
{
    (divides(year, 4) && !divides(year, 100)) || divides(year, 400)
}

fn year_length(year: i64) -> (days: i64)
    ensures
        days == year_days(year as int),
{
    if leap(year) {
        366
    } else {
        365
    }
}

fn month_length(year: i64, month: u32) -> (days: i64)
    ensures
        days == month_days(year as int, month as int),
{
    if month == 2 {
        if leap(year) {
            29
        } else {
            28
        }
    } else if month == 4 || month == 6 || month == 9 || month == 11 {
        30
    } else {
        31
    }
}

/// The date `day` days after the first of January 1970, which is the one
/// thing a timestamp needs that the standard library does not give: the
/// year, the month (1 to 12) and the day of the month.
pub fn civil(day: i64) -> (date: (i64, u32, u32))
    ensures
        is_date(date.0 as int, date.1 as int, date.2 as int),
        epoch_day(date.0 as int, date.1 as int, date.2 as int) == day,
{
    let cycles = match day.checked_div_euclid(146_097) {
        Some(cycles) => cycles,
        None => 0,
    };
    let mut rest = match day.checked_rem_euclid(146_097) {
        Some(rest) => rest,
        None => 0,
    };
    assert(day == 146097 * cycles + rest && 0 <= rest < 146097);
    let ghost start: int = 1970 + 400 * cycles;
    let ghost from: int = rest as int;
    proof {
        lemma_cycles(cycles as int);
        lemma_four_centuries(start);
        assert(-63_200_000_000_000 <= cycles <= 63_200_000_000_000) by (nonlinear_arith)
            requires
                day == 146097 * cycles + rest,
                0 <= rest < 146097,
                -0x8000_0000_0000_0000 <= day < 0x8000_0000_0000_0000,
        ;
    }
    let mut year: i64 = 1970 + 400 * cycles;
    let mut k: i64 = 0;
    let mut length = year_length(year);
    while k < 400 && rest >= length
        invariant
            0 <= k <= 400,
            year == start + k,
            0 <= rest,
            0 <= from < 146097,
            days_before_year(year as int) - days_before_year(start) + rest == from,
            days_before_year(start + 400) == days_before_year(start) + 146097,
            length == year_days(year as int),
            -26_000_000_000_000_000 <= start <= 26_000_000_000_000_000,
        decreases 400 - k,
    {
        proof {
            lemma_next_year(year as int);
        }
        rest = rest - length;
        year = year + 1;
        k = k + 1;
        length = year_length(year);
    }
    proof {
        if k == 400 {
            assert(false);
        }
        lemma_months(year as int);
    }
    let mut month: u32 = 1;
    let ghost within: int = rest as int;
    loop
        invariant
            1 <= month <= 12,
            0 <= rest,
            within < year_days(year as int),
            days_before_month(year as int, month as int) + rest == within,
            days_before_year(year as int) + within == day,
            days_before_month(year as int, 13) == year_days(year as int),
            forall|m: int|
                1 <= m <= 12 ==> #[trigger] days_before_month(year as int, m) + month_days(year as int, m)
                    == days_before_month(year as int, m + 1),
            forall|m: int| 1 <= m <= 12 ==> days_before_month(year as int, m) + month_days(year as int, m) <= days_before_month(year as int, 13) && #[trigger] days_before_month(year as int, m) >= 0,
        ensures
            1 <= month <= 12,
            0 <= rest < month_days(year as int, month as int),
            days_before_month(year as int, month as int) + rest + days_before_year(year as int) == day,
        decreases 12 - month,
    {
        let days = month_length(year, month);
        if rest < days {
            break;
        }
        assert(days_before_month(year as int, month as int) + month_days(year as int, month as int) == days_before_month(year as int, month as int + 1));
        rest = rest - days;
        month = month + 1;
    }
    (year, month, (rest + 1) as u32)
}

/// A side of a capture: even, since an odd one has no 4:2:0 to encode to,
/// and never under two.
pub open spec fn even(side: int) -> int {
    let down = side - side % 2;
    if down < 2 {
        2
    } else {
        down
    }
}

/// A display of `width` by `height` fitted inside the largest capture,
/// keeping its shape: scaled down by whichever side is further over, never
/// up, and each side then made even. A side of nothing counts as one.
pub open spec fn fit(width: int, height: int) -> (int, int) {
    let w = if width < 1 {
        1
    } else {
        width
    };
    let h = if height < 1 {
        1
    } else {
        height
    };
    if w <= MAX_WIDTH && h <= MAX_HEIGHT {
        (even(w), even(h))
    } else if MAX_WIDTH * h <= MAX_HEIGHT * w {
        (even(MAX_WIDTH as int), even(h * MAX_WIDTH / w))
    } else {
        (even(w * MAX_HEIGHT / h), even(MAX_HEIGHT as int))
    }
}

fn even_side(side: u64) -> (even_side: u32)
    requires
        side <= u32::MAX,
    ensures
        even_side == even(side as int),
{
    let down = side - side % 2;
    if down < 2 {
        2
    } else {
        down as u32
    }
}

/// `size` inside the largest capture, keeping its shape, and even on both
/// sides.
pub fn fitted(size: (u32, u32)) -> (fitted: (u32, u32))
    ensures
        (fitted.0 as int, fitted.1 as int) == fit(size.0 as int, size.1 as int),
        fitted.0 % 2 == 0 && fitted.1 % 2 == 0,
        2 <= fitted.0 <= MAX_WIDTH,
        2 <= fitted.1 <= MAX_HEIGHT,
{
    let w: u64 = if size.0 < 1 { 1 } else { size.0 as u64 };
    let h: u64 = if size.1 < 1 { 1 } else { size.1 as u64 };
    if w <= MAX_WIDTH as u64 && h <= MAX_HEIGHT as u64 {
        (even_side(w), even_side(h))
    } else if MAX_WIDTH as u64 * h <= MAX_HEIGHT as u64 * w {
        let tall = h * MAX_WIDTH as u64 / w;
        assert(tall <= MAX_HEIGHT) by (nonlinear_arith)
            requires
                tall == (h * 1920) as int / w as int,
                1920 * h <= 1080 * w,
                w >= 1,
        ;
        (even_side(MAX_WIDTH as u64), even_side(tall))
    } else {
        let wide = w * MAX_HEIGHT as u64 / h;
        assert(wide <= MAX_WIDTH) by (nonlinear_arith)
            requires
                wide == (w * 1080) as int / h as int,
                1920 * h > 1080 * w,
                h >= 1,
        ;
        (even_side(wide), even_side(MAX_HEIGHT as u64))
    }
}

/// A capture's name on the day `year`-`month`-`date`, `second` seconds into
/// it (UTC) and `millis` into that second: the whole moment, sortable, with
/// nothing in it a filesystem argues with.
pub open spec fn name_of(year: nat, month: nat, date: nat, second: nat, millis: nat) -> Seq<char> {
    (if year < 10000 {
        padded(year, 4)
    } else {
        decimal(year)
    }) + padded(month, 2) + padded(date, 2) + seq!['-'] + padded(second / 3600, 2) + padded(
        (second / 60) % 60,
        2,
    ) + padded(second % 60, 2) + seq!['-'] + padded(millis, 3)
}

proof fn lemma_after_the_epoch(year: int, month: int, date: int)
    requires
        is_date(year, month, date),
        epoch_day(year, month, date) >= 0,
    ensures
        year >= 1970,
{
    if year < 1970 {
        lemma_months(year);
        lemma_next_year(year);
        lemma_years_grow(year + 1, 1970);
        assert(epoch_day(year, month, date) < days_before_year(year + 1));
    }
}

proof fn lemma_decimal_is_digits(n: nat)
    ensures
        decimal(n).len() >= 1,
        forall|i: int| 0 <= i < decimal(n).len() ==> is_digit(#[trigger] decimal(n)[i]),
    decreases n,
{
    if n >= 10 {
        lemma_decimal_is_digits(n / 10);
    }
}

/// The name of a capture taken `secs` seconds and `millis` milliseconds
/// after the first of January 1970, UTC: its date, then its time of day to
/// the millisecond — finer than a hand presses, so two captures cannot land
/// on one name.
pub fn stamp(secs: u64, millis: u32) -> (name: String)
    requires
        millis < 1000,
    ensures
        exists|year: int, month: int, date: int|
            {
                &&& is_date(year, month, date)
                &&& epoch_day(year, month, date) == secs / 86400
                &&& year >= 1970
                &&& name@ == name_of(year as nat, month as nat, date as nat, (secs % 86400) as nat, millis as nat)
            },
        name@.len() >= 19,
        forall|i: int| 0 <= i < name@.len() ==> is_digit(#[trigger] name@[i]) || name@[i] == '-',
{
    let day = secs / 86400;
    let second = secs % 86400;
    let (year, month, date) = civil(day as i64);
    proof {
        lemma_after_the_epoch(year as int, month as int, date as int);
    }
    let mut name = String::new();
    if year < 10000 {
        push_padded(&mut name, year as u64, 4);
    } else {
        push_decimal(&mut name, year as u64);
    }
    push_padded(&mut name, month as u64, 2);
    push_padded(&mut name, date as u64, 2);
    name.append("-");
    push_padded(&mut name, second / 3600, 2);
    push_padded(&mut name, second / 60 % 60, 2);
    push_padded(&mut name, second % 60, 2);
    name.append("-");
    push_padded(&mut name, millis as u64, 3);
    proof {
        reveal_strlit("-");
        let y = year as nat;
        let s = second as nat;
        let whole = name_of(y, month as nat, date as nat, s, millis as nat);
        assert(name@ =~= whole);
        lemma_padded_is_digits(y, 4);
        lemma_decimal_is_digits(y);
        lemma_padded_is_digits(month as nat, 2);
        lemma_padded_is_digits(date as nat, 2);
        lemma_padded_is_digits(s / 3600, 2);
        lemma_padded_is_digits((s / 60) % 60, 2);
        lemma_padded_is_digits(s % 60, 2);
        lemma_padded_is_digits(millis as nat, 3);
        if y >= 10000 {
            reveal_with_fuel(decimal, 5);
            lemma_decimal_is_digits(y / 10000);
        }
    }
    name
}

/// Frames a second a recording is written at, whatever rate the display
/// hands frames out at.
pub const RATE: u32 = 30;

/// What a capture takes: the display once, as a picture, or for as long as a
/// hand holds the button, as a video. The two differ in what the encoder is
/// told to write and in nothing else.
#[derive(Clone, Copy, Debug, PartialEq, Eq, Structural)]
pub enum Take {
    Still,
    Video,
}

/// The file a take is written to ends in this.
pub open spec fn spec_extension(take: Take) -> Seq<char> {
    match take {
        Take::Still => "png"@,
        Take::Video => "mp4"@,
    }
}

pub fn extension(take: Take) -> (ext: &'static str)
    ensures
        ext@ == spec_extension(take),
{
    match take {
        Take::Still => "png",
        Take::Video => "mp4",
    }
}

/// How a take is encoded: a still as the picture its file is named for, a
/// video as H.264 in the one chroma layout everything plays back, encoded
/// as fast as it goes, since it runs beside a playing instrument.
pub open spec fn encoding(take: Take) -> Seq<Seq<char>> {
    match take {
        Take::Still => Seq::empty(),
        Take::Video => seq!["-c:v"@, "libx264"@, "-preset"@, "ultrafast"@, "-pix_fmt"@, "yuv420p"@],
    }
}

/// The encoder's command line for a take of a display `width` by `height`
/// whose frames are in raw format `pix`, read on its stdin at [`RATE`] and
/// written to `path`.
pub open spec fn encoder_line(
    pix: Seq<char>,
    width: u32,
    height: u32,
    take: Take,
    path: Seq<char>,
) -> Seq<Seq<char>> {
    seq![
        "-hide_banner"@,
        "-loglevel"@,
        "error"@,
        "-y"@,
        "-f"@,
        "rawvideo"@,
        "-pix_fmt"@,
        pix,
        "-s"@,
        decimal(width as nat) + "x"@ + decimal(height as nat),
        "-framerate"@,
        decimal(RATE as nat),
        "-i"@,
        "-"@,
    ] + encoding(take) + seq![path]
}

pub fn encoder_args(pix: &str, size: (u32, u32), take: Take, path: &str) -> (args: Vec<String>)
    ensures
        texts(args@) == encoder_line(pix@, size.0, size.1, take, path@),
{
    let mut args: Vec<String> = Vec::new();
    push_text(&mut args, "-hide_banner");
    push_text(&mut args, "-loglevel");
    push_text(&mut args, "error");
    push_text(&mut args, "-y");
    push_text(&mut args, "-f");
    push_text(&mut args, "rawvideo");
    push_text(&mut args, "-pix_fmt");
    push_text(&mut args, pix);
    push_text(&mut args, "-s");
    let mut shape = String::new();
    push_decimal(&mut shape, size.0 as u64);
    shape.append("x");
    push_decimal(&mut shape, size.1 as u64);
    let ghost before = texts(args@);
    args.push(shape);
    assert(texts(args@) =~= before.push(decimal(size.0 as nat) + "x"@ + decimal(size.1 as nat)));
    push_text(&mut args, "-framerate");
    let mut rate = String::new();
    push_decimal(&mut rate, RATE as u64);
    let ghost before = texts(args@);
    args.push(rate);
    assert(texts(args@) =~= before.push(decimal(RATE as nat)));
    push_text(&mut args, "-i");
    push_text(&mut args, "-");
    let ghost head = texts(args@);
    match take {
        Take::Still => {},
        Take::Video => {
            push_text(&mut args, "-c:v");
            push_text(&mut args, "libx264");
            push_text(&mut args, "-preset");
            push_text(&mut args, "ultrafast");
            push_text(&mut args, "-pix_fmt");
            push_text(&mut args, "yuv420p");
        },
    }
    assert(texts(args@) =~= head + encoding(take));
    push_text(&mut args, path);
    assert(texts(args@) =~= encoder_line(pix@, size.0, size.1, take, path@));
    args
}

/// The texture format of a display.
#[verifier::external_type_specification]
#[verifier::external_body]
pub struct ExTextureFormat(wgpu::TextureFormat);

/// What a capture can tell of a display's format: one of the four eight-bit
/// orders an encoder has a raw format for, or another.
#[derive(Clone, Copy, Debug, PartialEq, Eq, Structural)]
pub enum Display {
    Rgba8Unorm,
    Rgba8UnormSrgb,
    Bgra8Unorm,
    Bgra8UnormSrgb,
    Other,
}

/// Which of [`Display`]'s formats a wgpu texture format is: a function of
/// the format alone, too long to write out here, one arm per wgpu variant.
pub uninterp spec fn display_kind(format: wgpu::TextureFormat) -> Display;

/// The text of wgpu's derived `Debug` for a texture format (its variant's
/// name): a function of the format alone.
pub uninterp spec fn debug_text(format: wgpu::TextureFormat) -> Seq<char>;

/// Which of [`Display`]'s formats `format` is, telling wgpu's variants
/// apart one arm each: the four eight-bit orders by name, every other
/// variant as [`Display::Other`].
#[verifier::external_body]
fn display_of(format: wgpu::TextureFormat) -> (display: Display)
    ensures
        display == display_kind(format),
{
    match format {
        wgpu::TextureFormat::Rgba8Unorm => Display::Rgba8Unorm,
        wgpu::TextureFormat::Rgba8UnormSrgb => Display::Rgba8UnormSrgb,
        wgpu::TextureFormat::Bgra8Unorm => Display::Bgra8Unorm,
        wgpu::TextureFormat::Bgra8UnormSrgb => Display::Bgra8UnormSrgb,
        _ => Display::Other,
    }
}

/// wgpu's derived `Debug` for a texture format, written out: its variant's
/// name. What the text spells is not stated, only that it is that of the
/// format given.
#[verifier::external_body]
fn format_name(format: wgpu::TextureFormat) -> (name: String)
    ensures
        name@ == debug_text(format),
{
    format!("{format:?}")
}

/// The raw pixel format an encoder reads a display of `display` in: the
/// channel order of the bytes, whatever their colour space, and nothing for
/// a format with no raw name.
pub open spec fn spec_raw_format(display: Display) -> Option<Seq<char>> {
    match display {
        Display::Rgba8Unorm | Display::Rgba8UnormSrgb => Some("rgba"@),
        Display::Bgra8Unorm | Display::Bgra8UnormSrgb => Some("bgra"@),
        Display::Other => None,
    }
}

pub fn raw_format(display: Display) -> (name: Option<&'static str>)
    ensures
        match name {
            Some(n) => spec_raw_format(display) == Some(n@),
            None => spec_raw_format(display) is None,
        },
{
    match display {
        Display::Rgba8Unorm | Display::Rgba8UnormSrgb => Some("rgba"),
        Display::Bgra8Unorm | Display::Bgra8UnormSrgb => Some("bgra"),
        Display::Other => None,
    }
}

/// The raw pixel format a capture of a display in `format` is written from,
/// and a refusal naming the format for one no raw format names.
pub fn pix_fmt(format: wgpu::TextureFormat) -> (raw: Result<&'static str, String>)
    ensures
        raw is Err <==> spec_raw_format(display_kind(format)) is None,
        raw matches Ok(n) ==> spec_raw_format(display_kind(format)) == Some(n@),
        raw matches Err(why) ==> why@ == "a "@ + debug_text(format)
            + " display is not one a capture can write"@,
{
    match raw_format(display_of(format)) {
        Some(name) => Ok(name),
        None => {
            let mut why = String::from_str("a ");
            let name = format_name(format);
            why.append(name.as_str());
            why.append(" display is not one a capture can write");
            proof {
                reveal_strlit("a ");
                assert(why@ =~= "a "@ + name@ + " display is not one a capture can write"@);
            }
            Err(why)
        },
    }
}

} // verus!
