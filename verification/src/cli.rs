//! The command line: how much detail the loop carries, how fast the piece
//! plays, whether the window covers the display, and which run this is.
//! There is one instrument, so nothing on the command line names one: a bare
//! word is a typo rather than a piece to play.

use vstd::prelude::*;
use crate::cards::{number, number_in};
use crate::params::same_text;
use crate::text::{chars_of, decimal, push_decimal};
use crate::input::texts;

verus! {

/// How big every monitor in the bank is unless asked otherwise.
pub const DEFAULT_WIDTH: u32 = 1920;
pub const DEFAULT_HEIGHT: u32 = 1080;

/// The largest monitor accepted, per side: the side of a texture, where
/// every GPU worth deploying on stops.
pub const MAX_RESOLUTION: u32 = 7680;

/// Passes a second unless `--rate` says otherwise, and the range it plays
/// at, as the usage prints them.
pub const DEFAULT_RATE: u32 = 60;
pub const MIN_RATE: u32 = 1;
pub const MAX_RATE: u32 = 240;

/// How many frames `--bench` times.
pub const BENCH_FRAMES: u32 = 600;

/// Which run this is.
#[derive(Clone, Copy, Debug, PartialEq, Eq, Structural)]
pub enum Mode {
    /// Open a window and play.
    Play,
    /// Print the controls, the surface as it is actually mapped, and exit.
    Cheatsheet,
    /// Step the rig off screen, as fast as the GPU will take it, and report
    /// what a frame costs.
    Bench,
    /// Print how to start it, and stop.
    Usage,
}

/// What the command line asked for. The rate is the text typed: reading it
/// as a number of passes a second is the tempo's business.
#[derive(Debug)]
pub struct Options {
    pub resolution: (u32, u32),
    pub rate: Option<String>,
    pub fullscreen: bool,
    pub mode: Mode,
}

/// What the command line asked for, as plain values.
pub struct Asked {
    pub resolution: (u32, u32),
    pub rate: Option<Seq<char>>,
    pub fullscreen: bool,
    pub mode: Mode,
}

impl View for Options {
    type V = Asked;

    open spec fn view(&self) -> Asked {
        Asked {
            resolution: self.resolution,
            rate: match self.rate {
                Some(r) => Some(r@),
                None => None,
            },
            fullscreen: self.fullscreen,
            mode: self.mode,
        }
    }
}

/// An empty command line: the default resolution and rate, over the whole
/// display, playing.
pub open spec fn defaults() -> Asked {
    Asked { resolution: (DEFAULT_WIDTH, DEFAULT_HEIGHT), rate: None, fullscreen: true, mode: Mode::Play }
}

/// How to start it.
pub open spec fn usage_text() -> Seq<char> {
    "usage: lightherder [options]\n  --windowed          open a window instead of covering the display\n  --resolution WxH    how big every monitor is (default "@
        + decimal(DEFAULT_WIDTH as nat) + "x"@ + decimal(DEFAULT_HEIGHT as nat)
        + ")\n  --rate HZ           passes a second, the speed the piece plays at\n                      (default "@
        + decimal(DEFAULT_RATE as nat) + ", "@ + decimal(MIN_RATE as nat) + " to "@ + decimal(
        MAX_RATE as nat,
    ) + "; the surface's track pair moves it from there)\n  --cheatsheet        print the controls and exit\n  --bench             time "@
        + decimal(BENCH_FRAMES as nat)
        + " frames off screen and exit\n  --help              this\n"@
}

pub fn usage() -> (text: String)
    ensures
        text@ == usage_text(),
{
    let mut text = String::from_str(
        "usage: lightherder [options]\n  --windowed          open a window instead of covering the display\n  --resolution WxH    how big every monitor is (default ",
    );
    push_decimal(&mut text, DEFAULT_WIDTH as u64);
    text.append("x");
    push_decimal(&mut text, DEFAULT_HEIGHT as u64);
    text.append(
        ")\n  --rate HZ           passes a second, the speed the piece plays at\n                      (default ",
    );
    push_decimal(&mut text, DEFAULT_RATE as u64);
    text.append(", ");
    push_decimal(&mut text, MIN_RATE as u64);
    text.append(" to ");
    push_decimal(&mut text, MAX_RATE as u64);
    text.append(
        "; the surface's track pair moves it from there)\n  --cheatsheet        print the controls and exit\n  --bench             time ",
    );
    push_decimal(&mut text, BENCH_FRAMES as u64);
    text.append(" frames off screen and exit\n  --help              this\n");
    assert(text@ =~= usage_text());
    text
}

/// `text` as `{:?}` writes a string: in double quotes, with what would not
/// read back escaped.
pub uninterp spec fn debug_quoted(text: Seq<char>) -> Seq<char>;

/// The standard library's `Debug` for `str`, which quotes the text and
/// escapes quotes, backslashes and characters that do not print. The
/// contract claims only that the result is a function of the text.
#[verifier::external_body]
fn quoted(text: &str) -> (quoted: String)
    ensures
        quoted@ == debug_quoted(text@),
{
    format!("{text:?}")
}

/// The name a mode goes by in a refusal.
pub open spec fn mode_name(mode: Mode) -> Seq<char> {
    match mode {
        Mode::Play => "Play"@,
        Mode::Cheatsheet => "Cheatsheet"@,
        Mode::Bench => "Bench"@,
        Mode::Usage => "Usage"@,
    }
}

fn name_of(mode: Mode) -> (name: &'static str)
    ensures
        name@ == mode_name(mode),
{
    match mode {
        Mode::Play => "Play",
        Mode::Cheatsheet => "Cheatsheet",
        Mode::Bench => "Bench",
        Mode::Usage => "Usage",
    }
}

/// Take `wanted`, unless a mode other than playing has already been taken:
/// one mode a run, since last-flag-wins answers a typo by doing one of two
/// things silently.
pub open spec fn take_mode(current: Mode, wanted: Mode) -> Result<Mode, Seq<char>> {
    if current != Mode::Play {
        Err(mode_name(current) + " and "@ + mode_name(wanted) + " are two different runs; ask for one\n"@
            + usage_text())
    } else {
        Ok(wanted)
    }
}

/// The refusal of a resolution that is not spelled as one.
pub open spec fn not_a_size(value: Seq<char>) -> Seq<char> {
    "resolution "@ + debug_quoted(value) + " is not WIDTHxHEIGHT, e.g. 3840x2160"@
}

/// Where the first `x` or `X` of `value` is, if it has one.
pub open spec fn split_at(value: Seq<char>, from: int) -> Option<int>
    decreases value.len() - from,
{
    if from < 0 || from >= value.len() {
        None
    } else if value[from] == 'x' || value[from] == 'X' {
        Some(from)
    } else {
        split_at(value, from + 1)
    }
}

/// One side of a resolution: a number, not zero and not past the largest.
pub open spec fn side_of(text: Seq<char>, value: Seq<char>) -> Result<u32, Seq<char>> {
    match number(text) {
        None => Err(not_a_size(value)),
        Some(n) => if n == 0 {
            Err("a monitor with a zero side shows nothing"@)
        } else if n > MAX_RESOLUTION {
            Err(decimal(n as nat) + " is past "@ + decimal(MAX_RESOLUTION as nat) + ", the widest monitor this builds"@)
        } else {
            Ok(n)
        },
    }
}

/// `WIDTHxHEIGHT`, the way a display is spelled everywhere else; the width
/// is judged before the height.
pub open spec fn resolution_of(value: Seq<char>) -> Result<(u32, u32), Seq<char>> {
    match split_at(value, 0) {
        None => Err(not_a_size(value)),
        Some(at) => match side_of(value.take(at), value) {
            Err(why) => Err(why),
            Ok(w) => match side_of(value.skip(at + 1), value) {
                Err(why) => Err(why),
                Ok(h) => Ok((w, h)),
            },
        },
    }
}

/// Whether `text` begins with `prefix`.
pub open spec fn begins(text: Seq<char>, prefix: Seq<char>) -> bool {
    text.len() >= prefix.len() && text.take(prefix.len() as int) == prefix
}

/// The command line `args` read over what `asked` holds already, left to
/// right, stopping at the first thing wrong with it. Both spellings of a
/// flag with a value are taken, since the usage shows one and hands reach
/// for the other.
pub open spec fn read_args(args: Seq<Seq<char>>, asked: Asked) -> Result<Asked, Seq<char>>
    decreases args.len(),
{
    if args.len() == 0 {
        Ok(asked)
    } else {
        let arg = args[0];
        let rest = args.drop_first();
        if arg == "--windowed"@ {
            read_args(rest, Asked { fullscreen: false, ..asked })
        } else if arg == "--cheatsheet"@ || arg == "--bench"@ || arg == "--help"@ || arg == "-h"@ {
            let wanted = if arg == "--cheatsheet"@ {
                Mode::Cheatsheet
            } else if arg == "--bench"@ {
                Mode::Bench
            } else {
                Mode::Usage
            };
            match take_mode(asked.mode, wanted) {
                Err(why) => Err(why),
                Ok(mode) => read_args(rest, Asked { mode, ..asked }),
            }
        } else if arg == "--resolution"@ {
            if rest.len() == 0 {
                Err("--resolution needs a size\n"@ + usage_text())
            } else {
                match resolution_of(rest[0]) {
                    Err(why) => Err(why),
                    Ok(size) => read_args(rest.drop_first(), Asked { resolution: size, ..asked }),
                }
            }
        } else if arg == "--rate"@ {
            if rest.len() == 0 {
                Err("--rate needs a number of passes\n"@ + usage_text())
            } else {
                read_args(rest.drop_first(), Asked { rate: Some(rest[0]), ..asked })
            }
        } else if begins(arg, "--resolution="@) {
            match resolution_of(arg.skip(13)) {
                Err(why) => Err(why),
                Ok(size) => read_args(rest, Asked { resolution: size, ..asked }),
            }
        } else if begins(arg, "--rate="@) {
            read_args(rest, Asked { rate: Some(arg.skip(7)), ..asked })
        } else if arg.len() > 0 && arg[0] == '-' {
            Err("no such option: "@ + arg + "\n"@ + usage_text())
        } else {
            Err(debug_quoted(arg) + " is not an option; there is one instrument\n"@ + usage_text())
        }
    }
}

fn refuse_size(value: &str) -> (why: String)
    ensures
        why@ == not_a_size(value@),
{
    let mut why = String::from_str("resolution ");
    let shown = quoted(value);
    why.append(shown.as_str());
    why.append(" is not WIDTHxHEIGHT, e.g. 3840x2160");
    assert(why@ =~= not_a_size(value@));
    why
}

fn side(chars: &Vec<char>, start: usize, end: usize, value: &str) -> (side: Result<u32, String>)
    requires
        start <= end <= chars@.len(),
    ensures
        match side {
            Ok(n) => side_of(chars@.subrange(start as int, end as int), value@) == Ok::<u32, Seq<char>>(n),
            Err(why) => side_of(chars@.subrange(start as int, end as int), value@) == Err::<u32, Seq<char>>(why@),
        },
{
    match number_in(chars, start, end) {
        None => Err(refuse_size(value)),
        Some(n) => {
            if n == 0 {
                Err(String::from_str("a monitor with a zero side shows nothing"))
            } else if n > MAX_RESOLUTION {
                let mut why = String::new();
                push_decimal(&mut why, n as u64);
                why.append(" is past ");
                push_decimal(&mut why, MAX_RESOLUTION as u64);
                why.append(", the widest monitor this builds");
                assert(why@ =~= decimal(n as nat) + " is past "@ + decimal(MAX_RESOLUTION as nat)
                    + ", the widest monitor this builds"@);
                Err(why)
            } else {
                Ok(n)
            }
        },
    }
}

/// `WIDTHxHEIGHT`, read, or why not.
pub fn resolution(value: &str) -> (size: Result<(u32, u32), String>)
    ensures
        match size {
            Ok(s) => resolution_of(value@) == Ok::<(u32, u32), Seq<char>>(s),
            Err(why) => resolution_of(value@) == Err::<(u32, u32), Seq<char>>(why@),
        },
{
    let chars = chars_of(value);
    let mut at: usize = 0;
    while at < chars.len() && chars[at] != 'x' && chars[at] != 'X'
        invariant
            at <= chars@.len(),
            chars@ == value@,
            split_at(value@, at as int) == split_at(value@, 0),
        decreases chars@.len() - at,
    {
        at = at + 1;
    }
    if at >= chars.len() {
        return Err(refuse_size(value));
    }
    assert(split_at(value@, 0) == Some(at as int));
    assert(chars@.subrange(0, at as int) =~= value@.take(at as int));
    assert(chars@.subrange(at + 1, chars@.len() as int) =~= value@.skip(at + 1));
    let w = match side(&chars, 0, at, value) {
        Err(why) => return Err(why),
        Ok(w) => w,
    };
    let h = match side(&chars, at + 1, chars.len(), value) {
        Err(why) => return Err(why),
        Ok(h) => h,
    };
    Ok((w, h))
}

fn begins_with(text: &str, prefix: &str) -> (found: bool)
    ensures
        found == begins(text@, prefix@),
{
    let t = chars_of(text);
    let p = chars_of(prefix);
    if t.len() < p.len() {
        return false;
    }
    let mut i: usize = 0;
    while i < p.len()
        invariant
            t@ == text@,
            p@ == prefix@,
            p@.len() <= t@.len(),
            i <= p@.len(),
            forall|j: int| 0 <= j < i ==> t@[j] == p@[j],
        decreases p@.len() - i,
    {
        if t[i] != p[i] {
            assert(text@.take(prefix@.len() as int)[i as int] != prefix@[i as int]);
            return false;
        }
        i = i + 1;
    }
    assert(text@.take(prefix@.len() as int) =~= prefix@);
    true
}

/// The command line, with the program name already dropped, read left to
/// right: what it asks for, or the first thing wrong with it.
pub fn parse(args: Vec<String>) -> (parsed: Result<Options, String>)
    ensures
        match parsed {
            Ok(options) => read_args(texts(args@), defaults()) == Ok::<Asked, Seq<char>>(options@),
            Err(why) => read_args(texts(args@), defaults()) == Err::<Asked, Seq<char>>(why@),
        },
{
    let mut options = Options {
        resolution: (DEFAULT_WIDTH, DEFAULT_HEIGHT),
        rate: None,
        fullscreen: true,
        mode: Mode::Play,
    };
    let ghost all = texts(args@);
    let mut i: usize = 0;
    assert(all.skip(0) =~= all);
    proof {
        reveal_strlit("--windowed");
        reveal_strlit("--cheatsheet");
        reveal_strlit("--bench");
        reveal_strlit("--help");
        reveal_strlit("-h");
        reveal_strlit("--resolution");
        reveal_strlit("--rate");
        reveal_strlit("--resolution=");
        reveal_strlit("--rate=");
    }
    while i < args.len()
        invariant
            all == texts(args@),
            i <= args@.len(),
            read_args(all, defaults()) == read_args(all.skip(i as int), options@),
        decreases args@.len() - i,
    {
        proof {
            reveal_strlit("--resolution=");
            reveal_strlit("--rate=");
        }
        let arg = args[i].as_str();
        let ghost now = all.skip(i as int);
        assert(now[0] == arg@);
        assert(now.drop_first() =~= all.skip(i + 1));
        if same_text(arg, "--windowed") {
            options.fullscreen = false;
            i = i + 1;
        } else if same_text(arg, "--cheatsheet") || same_text(arg, "--bench") || same_text(arg, "--help")
            || same_text(arg, "-h") {
            let wanted = if same_text(arg, "--cheatsheet") {
                Mode::Cheatsheet
            } else if same_text(arg, "--bench") {
                Mode::Bench
            } else {
                Mode::Usage
            };
            if options.mode != Mode::Play {
                let mut why = String::from_str(name_of(options.mode));
                why.append(" and ");
                why.append(name_of(wanted));
                why.append(" are two different runs; ask for one\n");
                let help = usage();
                why.append(help.as_str());
                assert(why@ =~= take_mode(options.mode, wanted)->Err_0);
                return Err(why);
            }
            options.mode = wanted;
            i = i + 1;
        } else if same_text(arg, "--resolution") {
            if i + 1 >= args.len() {
                let mut why = String::from_str("--resolution needs a size\n");
                let help = usage();
                why.append(help.as_str());
                assert(now.drop_first().len() == 0);
                return Err(why);
            }
            assert(now.drop_first()[0] == args@[i + 1]@);
            assert(now.drop_first().drop_first() =~= all.skip(i + 2));
            match resolution(args[i + 1].as_str()) {
                Err(why) => {
                    return Err(why);
                },
                Ok(size) => {
                    options.resolution = size;
                },
            }
            i = i + 2;
        } else if same_text(arg, "--rate") {
            if i + 1 >= args.len() {
                let mut why = String::from_str("--rate needs a number of passes\n");
                let help = usage();
                why.append(help.as_str());
                assert(now.drop_first().len() == 0);
                return Err(why);
            }
            assert(now.drop_first()[0] == args@[i + 1]@);
            assert(now.drop_first().drop_first() =~= all.skip(i + 2));
            options.rate = Some(String::from_str(args[i + 1].as_str()));
            i = i + 2;
        } else if begins_with(arg, "--resolution=") {
            let n = arg.unicode_len();
            let value = arg.substring_char(13, n);
            assert(value@ =~= arg@.skip(13));
            match resolution(value) {
                Err(why) => {
                    return Err(why);
                },
                Ok(size) => {
                    options.resolution = size;
                },
            }
            i = i + 1;
        } else if begins_with(arg, "--rate=") {
            let n = arg.unicode_len();
            let value = arg.substring_char(7, n);
            assert(value@ =~= arg@.skip(7));
            options.rate = Some(String::from_str(value));
            i = i + 1;
        } else if arg.unicode_len() > 0 && arg.get_char(0) == '-' {
            let mut why = String::from_str("no such option: ");
            why.append(arg);
            why.append("\n");
            let help = usage();
            why.append(help.as_str());
            assert(why@ =~= "no such option: "@ + arg@ + "\n"@ + usage_text());
            return Err(why);
        } else {
            let mut why = quoted(arg);
            why.append(" is not an option; there is one instrument\n");
            let help = usage();
            why.append(help.as_str());
            assert(why@ =~= debug_quoted(arg@) + " is not an option; there is one instrument\n"@ + usage_text());
            return Err(why);
        }
    }
    assert(all.skip(i as int) =~= Seq::<Seq<char>>::empty());
    Ok(options)
}

} // verus!
