//! Which sound card is the surface: the card lines of ALSA's card list,
//! ` 2 [nanoKONTROL2  ]: USB-Audio - nanoKONTROL2`, and the raw MIDI
//! endpoints of the cards that name the device.

use vstd::prelude::*;
use crate::text::{chars_of, decimal, push_decimal};

verus! {

/// Matched, case-insensitively, against the lines of the card list: a card
/// whose line contains it is the surface. A substring because the line
/// carries the driver and the bus as well as the name.
pub open spec fn spec_device() -> Seq<char> {
    "nanoKONTROL"@
}

pub fn device() -> (name: &'static str)
    ensures
        name@ == spec_device(),
{
    "nanoKONTROL"
}

/// How many raw MIDI endpoints of a card are tried.
pub const ENDPOINTS: u32 = 8;

/// `text` with every letter lower case, as the standard library's
/// `str::to_lowercase` writes it.
pub uninterp spec fn lowered(text: Seq<char>) -> Seq<char>;

/// `str::to_lowercase`: the text with every character mapped to its
/// lower-case form by Unicode's tables. The contract claims only that the
/// result is a function of the text alone, which it is: the tables are
/// fixed for a given standard library.
#[verifier::external_body]
fn lowercase(text: &str) -> (lower: String)
    ensures
        lower@ == lowered(text@),
{
    text.to_lowercase()
}

/// Whether `c` is white space, as `char::is_whitespace` has it: Unicode's
/// White_Space property.
pub open spec fn is_space(c: char) -> bool {
    ||| '\u{9}' <= c <= '\u{d}'
    ||| c == ' '
    ||| c == '\u{85}'
    ||| c == '\u{a0}'
    ||| c == '\u{1680}'
    ||| '\u{2000}' <= c <= '\u{200a}'
    ||| c == '\u{2028}'
    ||| c == '\u{2029}'
    ||| c == '\u{202f}'
    ||| c == '\u{205f}'
    ||| c == '\u{3000}'
}

fn space(c: char) -> (space: bool)
    ensures
        space == is_space(c),
{
    ('\u{9}' <= c && c <= '\u{d}') || c == ' ' || c == '\u{85}' || c == '\u{a0}' || c == '\u{1680}'
        || ('\u{2000}' <= c && c <= '\u{200a}') || c == '\u{2028}' || c == '\u{2029}' || c
        == '\u{202f}' || c == '\u{205f}' || c == '\u{3000}'
}

/// Where the first line feed at or after `from` is, or the end of the text.
pub open spec fn line_end(text: Seq<char>, from: int) -> int
    decreases text.len() - from,
{
    if from >= text.len() || text[from] == '\n' {
        from
    } else {
        line_end(text, from + 1)
    }
}

/// Where a line ends: at or after where it starts, on a line feed unless the
/// text ran out first, and with no line feed before it.
pub proof fn lemma_line_end(text: Seq<char>, from: int)
    requires
        0 <= from,
    ensures
        from <= line_end(text, from),
        line_end(text, from) <= text.len() || line_end(text, from) == from,
        line_end(text, from) < text.len() ==> text[line_end(text, from)] == '\n',
        forall|i: int| from <= i < line_end(text, from) && i < text.len() ==> text[i] != '\n',
    decreases text.len() - from,
{
    if from < text.len() && text[from] != '\n' {
        lemma_line_end(text, from + 1);
    }
}

/// A line with the carriage return of a `\r\n` ending taken off.
pub open spec fn without_return(line: Seq<char>) -> Seq<char> {
    if line.len() > 0 && line.last() == '\r' {
        line.drop_last()
    } else {
        line
    }
}

/// The lines of `text` from `from` on, as `str::lines` splits them: at each
/// line feed, with a carriage return just before one taken off too, and a
/// last line feed ending the text rather than starting an empty line.
pub open spec fn lines_from(text: Seq<char>, from: int) -> Seq<Seq<char>>
    decreases text.len() - from,
{
    if from < 0 || from >= text.len() {
        Seq::empty()
    } else {
        let end = line_end(text, from);
        proof {
            lemma_line_end(text, from);
        }
        if end >= text.len() {
            seq![text.subrange(from, text.len() as int)]
        } else {
            seq![without_return(text.subrange(from, end))] + lines_from(text, end + 1)
        }
    }
}

/// Where the first character at or after `from` that is not white space is.
pub open spec fn word_start(line: Seq<char>, from: int) -> int
    decreases line.len() - from,
{
    if from >= line.len() || !is_space(line[from]) {
        from
    } else {
        word_start(line, from + 1)
    }
}

/// Where the run of characters that are not white space from `from` ends.
pub open spec fn word_end(line: Seq<char>, from: int) -> int
    decreases line.len() - from,
{
    if from >= line.len() || is_space(line[from]) {
        from
    } else {
        word_end(line, from + 1)
    }
}

/// The first word of a line, as `split_whitespace` finds it, if it has one.
pub open spec fn first_word(line: Seq<char>) -> Option<Seq<char>> {
    let start = word_start(line, 0);
    if start >= line.len() {
        None
    } else {
        Some(line.subrange(start, word_end(line, start)))
    }
}

/// Whether `c` is a decimal digit, and what it is worth.
pub open spec fn is_digit(c: char) -> bool {
    '0' <= c <= '9'
}

/// The number the digits of `digits` write, most significant first.
pub open spec fn value(digits: Seq<char>) -> nat
    decreases digits.len(),
{
    if digits.len() == 0 {
        0
    } else {
        value(digits.drop_last()) * 10 + ((digits.last() as u32) - ('0' as u32)) as nat
    }
}

/// A word read as a `u32`, as `str::parse` reads one: an optional `+`, then
/// one or more decimal digits and nothing else, worth no more than the
/// largest `u32`.
pub open spec fn number(word: Seq<char>) -> Option<u32> {
    let digits = unsigned(word);
    if digits.len() > 0 && all_digits(digits) && value(digits) <= u32::MAX {
        Some(value(digits) as u32)
    } else {
        None
    }
}

/// A word with a leading `+` taken off.
pub open spec fn unsigned(word: Seq<char>) -> Seq<char> {
    if word.len() > 0 && word[0] == '+' {
        word.drop_first()
    } else {
        word
    }
}

/// Whether every character of `s` is a decimal digit.
pub open spec fn all_digits(s: Seq<char>) -> bool {
    forall|i: int| 0 <= i < s.len() ==> is_digit(#[trigger] s[i])
}

/// The card a line of the list names, if it names one: its first word, read
/// as a number. Each card has a second, indented line as well, which has no
/// number in front and so is not one of these. The number is the card's,
/// not its place in the list — unloading a module leaves a gap.
pub open spec fn card_of(line: Seq<char>) -> Option<u32> {
    match first_word(line) {
        Some(word) => number(word),
        None => None,
    }
}

/// The card lines among `lines`, in order, each with the card it names.
pub open spec fn card_lines(lines: Seq<Seq<char>>) -> Seq<(u32, Seq<char>)>
    decreases lines.len(),
{
    if lines.len() == 0 {
        Seq::empty()
    } else {
        let rest = card_lines(lines.drop_first());
        match card_of(lines[0]) {
            Some(card) => seq![(card, lines[0])] + rest,
            None => rest,
        }
    }
}

proof fn lemma_value_grows(digits: Seq<char>, longer: Seq<char>)
    requires
        digits.len() <= longer.len(),
        digits == longer.take(digits.len() as int),
        forall|i: int| 0 <= i < longer.len() ==> is_digit(#[trigger] longer[i]),
    ensures
        value(digits) <= value(longer),
    decreases longer.len(),
{
    if digits.len() < longer.len() {
        let shorter = longer.drop_last();
        assert(shorter.take(digits.len() as int) =~= digits);
        lemma_value_grows(digits, shorter);
    } else {
        assert(digits =~= longer);
    }
}

/// The number written by `chars[start..end]`, as `str::parse` reads a
/// `u32`.
pub fn number_in(chars: &Vec<char>, start: usize, end: usize) -> (n: Option<u32>)
    requires
        start <= end <= chars@.len(),
    ensures
        n == number(chars@.subrange(start as int, end as int)),
{
    let ghost word = chars@.subrange(start as int, end as int);
    let mut i = start;
    if start < end && chars[start] == '+' {
        i = start + 1;
    }
    let ghost first = i;
    let ghost digits = chars@.subrange(first as int, end as int);
    assert(digits =~= unsigned(word));
    if i >= end {
        assert(digits.len() == 0);
        return None;
    }
    let mut v: u64 = 0;
    let mut big = false;
    while i < end
        invariant
            first <= i <= end <= chars@.len(),
            digits == chars@.subrange(first as int, end as int),
            word == chars@.subrange(start as int, end as int),
            start <= first,
            digits == unsigned(word),
            forall|j: int| first <= j < i ==> is_digit(#[trigger] chars@[j]),
            !big ==> v == value(chars@.subrange(first as int, i as int)) && v <= u32::MAX,
            big ==> value(chars@.subrange(first as int, i as int)) > u32::MAX,
        decreases end - i,
    {
        let c = chars[i];
        if !('0' <= c && c <= '9') {
            assert(!is_digit(digits[i - first]));
            return None;
        }
        let ghost before = chars@.subrange(first as int, i as int);
        let ghost after = chars@.subrange(first as int, i + 1);
        assert(after.drop_last() =~= before);
        if !big {
            v = v * 10 + (c as u64 - '0' as u64);
            if v > 0xFFFF_FFFF {
                big = true;
            }
        } else {
            proof {
                assert(value(after) == value(before) * 10 + ((c as u32) - ('0' as u32)) as nat);
            }
        }
        i = i + 1;
    }
    proof {
        assert(chars@.subrange(first as int, end as int) =~= digits);
        assert forall|j: int| 0 <= j < digits.len() implies is_digit(#[trigger] digits[j]) by {
            assert(digits[j] == chars@[first + j]);
        }
    }
    if big {
        None
    } else {
        Some(v as u32)
    }
}

/// The card `chars[start..end]` names, if it is a card line.
fn card_in(chars: &Vec<char>, start: usize, end: usize) -> (card: Option<u32>)
    requires
        start <= end <= chars@.len(),
    ensures
        card == card_of(chars@.subrange(start as int, end as int)),
{
    let ghost line = chars@.subrange(start as int, end as int);
    let mut s = start;
    while s < end && space(chars[s])
        invariant
            start <= s <= end <= chars@.len(),
            line == chars@.subrange(start as int, end as int),
            word_start(line, s - start) == word_start(line, 0),
        decreases end - s,
    {
        assert(line[s - start] == chars@[s as int]);
        s = s + 1;
    }
    assert(word_start(line, s - start) == s - start);
    if s >= end {
        return None;
    }
    let mut e = s;
    while e < end && !space(chars[e])
        invariant
            start <= s <= e <= end <= chars@.len(),
            line == chars@.subrange(start as int, end as int),
            word_end(line, e - start) == word_end(line, s - start),
        decreases end - e,
    {
        assert(line[e - start] == chars@[e as int]);
        e = e + 1;
    }
    assert(word_end(line, e - start) == e - start);
    assert(line.subrange(s - start, e - start) =~= chars@.subrange(s as int, e as int));
    number_in(chars, s, e)
}

/// Every card line of the card list, in order, with the card it names.
pub fn cards<'a>(text: &'a str) -> (found: Vec<(u32, &'a str)>)
    ensures
        found@.len() == card_lines(lines_from(text@, 0)).len(),
        forall|i: int|
            0 <= i < found@.len() ==> (#[trigger] found@[i]).0 == card_lines(lines_from(text@, 0))[i].0
                && found@[i].1@ == card_lines(lines_from(text@, 0))[i].1,
{
    let chars = chars_of(text);
    let n = chars.len();
    let mut found: Vec<(u32, &'a str)> = Vec::new();
    let mut from: usize = 0;
    let ghost done: Seq<(u32, Seq<char>)> = Seq::empty();
    while from < n
        invariant
            chars@ == text@,
            n == chars@.len(),
            from <= n,
            card_lines(lines_from(text@, 0)) == done + card_lines(lines_from(text@, from as int)),
            found@.len() == done.len(),
            forall|i: int| 0 <= i < found@.len() ==> (#[trigger] found@[i]).0 == done[i].0 && found@[i].1@ == done[i].1,
        decreases n - from,
    {
        let mut end = from;
        while end < n && chars[end] != '\n'
            invariant
                from <= end <= n,
                n == chars@.len(),
                line_end(chars@, end as int) == line_end(chars@, from as int),
            decreases n - end,
        {
            end = end + 1;
        }
        assert(line_end(chars@, end as int) == end);
        let stop = if end < n && end > from && chars[end - 1] == '\r' { end - 1 } else { end };
        let ghost line = if end >= n {
            chars@.subrange(from as int, n as int)
        } else {
            without_return(chars@.subrange(from as int, end as int))
        };
        assert(line =~= chars@.subrange(from as int, stop as int));
        let ghost rest = lines_from(text@, end + 1);
        assert(lines_from(text@, from as int) =~= seq![line] + (if end >= n { Seq::empty() } else { rest }));
        let ghost later = if end >= n { Seq::<Seq<char>>::empty() } else { rest };
        assert((seq![line] + later).drop_first() =~= later);
        assert(lines_from(text@, end + 1) =~= later);
        match card_in(&chars, from, stop) {
            Some(card) => {
                let words = text.substring_char(from, stop);
                found.push((card, words));
                proof {
                    done = done.push((card, line));
                }
            },
            None => {},
        }
        from = if end < n { end + 1 } else { n };
    }
    proof {
        assert(lines_from(text@, from as int) =~= Seq::empty());
        assert(done + card_lines(Seq::<Seq<char>>::empty()) =~= done);
    }
    found
}

/// Whether `needle` occurs in `hay`, as `str::contains` finds it.
pub open spec fn contains(hay: Seq<char>, needle: Seq<char>) -> bool {
    exists|i: int| 0 <= i <= hay.len() - needle.len() && #[trigger] hay.subrange(i, i + needle.len()) == needle
}

fn occurs_at(hay: &Vec<char>, needle: &Vec<char>, at: usize) -> (here: bool)
    requires
        at + needle@.len() <= hay@.len(),
    ensures
        here == (hay@.subrange(at as int, at + needle@.len()) == needle@),
{
    let n = hay.len();
    let mut i: usize = 0;
    while i < needle.len()
        invariant
            at + needle@.len() <= hay@.len(),
            n == hay@.len(),
            i <= needle@.len(),
            forall|j: int| 0 <= j < i ==> hay@[at + j] == needle@[j],
        decreases needle@.len() - i,
    {
        if hay[at + i] != needle[i] {
            assert(hay@.subrange(at as int, at + needle@.len())[i as int] != needle@[i as int]);
            return false;
        }
        i = i + 1;
    }
    assert(hay@.subrange(at as int, at + needle@.len()) =~= needle@);
    true
}

fn has_text(hay: &Vec<char>, needle: &Vec<char>) -> (found: bool)
    ensures
        found == contains(hay@, needle@),
{
    if needle.len() > hay.len() {
        return false;
    }
    let last = hay.len() - needle.len();
    let mut at: usize = 0;
    loop
        invariant
            last == hay@.len() - needle@.len(),
            at <= last,
            forall|i: int| 0 <= i < at ==> #[trigger] hay@.subrange(i, i + needle@.len()) != needle@,
        decreases last - at,
    {
        if occurs_at(hay, needle, at) {
            return true;
        }
        if at == last {
            return false;
        }
        at = at + 1;
    }
}

/// Whether `line` has `name` in it, both already lowered: the test a card's
/// line is put to, once case is out of the way.
pub fn mentions(line: &str, name: &str) -> (found: bool)
    ensures
        found == contains(line@, name@),
{
    let line = chars_of(line);
    let name = chars_of(name);
    has_text(&line, &name)
}

/// The cards among `lines` whose line names the device, whatever the case
/// of either.
pub open spec fn surface_cards(lines: Seq<(u32, Seq<char>)>) -> Seq<u32>
    decreases lines.len(),
{
    if lines.len() == 0 {
        Seq::empty()
    } else {
        let rest = surface_cards(lines.drop_first());
        if contains(lowered(lines[0].1), lowered(spec_device())) {
            seq![lines[0].0] + rest
        } else {
            rest
        }
    }
}

/// The cards of the card list that name the device, in the order to try
/// them. All of them, not the first: two cards can match one name.
pub fn surfaces(text: &str) -> (found: Vec<u32>)
    ensures
        found@ == surface_cards(card_lines(lines_from(text@, 0))),
{
    let lines = cards(text);
    let ghost all = card_lines(lines_from(text@, 0));
    let wanted = lowercase(device());
    let mut found: Vec<u32> = Vec::new();
    let mut i: usize = 0;
    assert(all.skip(0) =~= all);
    while i < lines.len()
        invariant
            lines@.len() == all.len(),
            forall|j: int| 0 <= j < lines@.len() ==> (#[trigger] lines@[j]).0 == all[j].0 && lines@[j].1@ == all[j].1,
            wanted@ == lowered(spec_device()),
            i <= lines@.len(),
            surface_cards(all) == found@ + surface_cards(all.skip(i as int)),
        decreases lines@.len() - i,
    {
        let (card, line) = lines[i];
        let lower = lowercase(line);
        let ghost rest = all.skip(i as int);
        assert(rest[0] == all[i as int]);
        assert(rest.drop_first() =~= all.skip(i + 1));
        if mentions(lower.as_str(), wanted.as_str()) {
            found.push(card);
            assert(surface_cards(all) =~= found@ + surface_cards(all.skip(i + 1)));
        }
        i = i + 1;
    }
    assert(all.skip(i as int) =~= Seq::empty());
    assert(found@ + Seq::<u32>::empty() =~= found@);
    found
}

/// The name of raw MIDI endpoint `device` of `card` under ALSA's device
/// directory: `midiC5D0`.
pub open spec fn endpoint_name(card: u32, device: u32) -> Seq<char> {
    "midiC"@ + decimal(card as nat) + "D"@ + decimal(device as nat)
}

/// Every raw MIDI endpoint of `card`, lowest first: the lowest can be the
/// one that is busy or output-only, so each is tried in turn.
pub fn endpoints(card: u32) -> (names: Vec<String>)
    ensures
        names@.len() == ENDPOINTS,
        forall|d: int| 0 <= d < ENDPOINTS ==> (#[trigger] names@[d])@ == endpoint_name(card, d as u32),
{
    let mut names: Vec<String> = Vec::new();
    let mut d: u32 = 0;
    while d < ENDPOINTS
        invariant
            d <= ENDPOINTS,
            names@.len() == d,
            forall|j: int| 0 <= j < d ==> (#[trigger] names@[j])@ == endpoint_name(card, j as u32),
        decreases ENDPOINTS - d,
    {
        let mut name = String::from_str("midiC");
        push_decimal(&mut name, card as u64);
        name.append("D");
        push_decimal(&mut name, d as u64);
        assert(name@ =~= endpoint_name(card, d));
        names.push(name);
        d = d + 1;
    }
    names
}

} // verus!
