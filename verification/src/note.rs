//! Note names: `C4`, `C#4`, `Bb3`, `A-1` and the like, and the numbers they
//! stand for.

use crate::text::{char_is_whitespace, is_whitespace, to_uppercase, uppercase};
use vstd::prelude::*;

verus! {

/// The semitone of a note letter within its octave.
pub open spec fn letter_semitone(c: char) -> Option<int> {
    if c == 'C' {
        Some(0)
    } else if c == 'D' {
        Some(2)
    } else if c == 'E' {
        Some(4)
    } else if c == 'F' {
        Some(5)
    } else if c == 'G' {
        Some(7)
    } else if c == 'A' {
        Some(9)
    } else if c == 'B' {
        Some(11)
    } else {
        None
    }
}

/// The value of a decimal digit.
pub open spec fn digit_value(c: char) -> Option<int> {
    if '0' <= c <= '9' {
        Some(c as int - '0' as int)
    } else {
        None
    }
}

/// Why a text is no note name.
#[derive(Clone, Copy, Debug, PartialEq, Eq, Structural)]
pub enum NoteError {
    /// The text is empty.
    Empty,
    /// The first character is none of the letters `A` to `G`.
    InvalidName,
    /// A character after the letter is no accidental and begins no octave.
    UnexpectedCharacter,
    /// A `-` without a digit behind it.
    MissingOctave,
    /// The accidentals, or the note's number, leave the range -128..=127.
    OutOfRange,
}

impl NoteError {
    /// The text of the diagnostic.
    pub open spec fn spec_message(self) -> Seq<char> {
        match self {
            NoteError::Empty => "Invalid note: empty input"@,
            NoteError::InvalidName => "Invalid note: invalid note name"@,
            NoteError::UnexpectedCharacter => "Invalid note: unexpected character"@,
            NoteError::MissingOctave => "Invalid note: expected a digit after `-`"@,
            NoteError::OutOfRange => "Invalid note: note out of range"@,
        }
    }

    /// The text of the diagnostic.
    pub fn message(&self) -> (text: String)
        ensures
            text@ == self.spec_message(),
    {
        let text = match self {
            NoteError::Empty => "Invalid note: empty input",
            NoteError::InvalidName => "Invalid note: invalid note name",
            NoteError::UnexpectedCharacter => "Invalid note: unexpected character",
            NoteError::MissingOctave => "Invalid note: expected a digit after `-`",
            NoteError::OutOfRange => "Invalid note: note out of range",
        };
        String::from_str(text)
    }
}

/// A semitone within the octave, moved by accidentals, and the octave's
/// number plus one.
pub struct Pitch {
    pub semitone: int,
    pub octave: int,
}

/// Reads what follows the note letter, from position `at`, with the semitone
/// reached so far. Each `#` raises the semitone by one and each `B` (a flat,
/// in upper case) lowers it by one, within -128..=127. A digit `d` ends the
/// name with octave `d + 1`; `-` and a digit `d` end it with octave
/// `1 - d`; the end of the text ends it with octave 0. What follows the
/// octave's digit is not read. Anything else is no note.
pub open spec fn read_pitch(s: Seq<char>, at: int, semitone: int) -> Result<Pitch, NoteError>
    decreases s.len() - at,
{
    if at < 0 {
        Err(NoteError::UnexpectedCharacter)
    } else if at >= s.len() {
        Ok(Pitch { semitone, octave: 0 })
    } else if s[at] == '#' {
        if semitone + 1 > 127 {
            Err(NoteError::OutOfRange)
        } else {
            read_pitch(s, at + 1, semitone + 1)
        }
    } else if s[at] == 'B' {
        if semitone - 1 < -128 {
            Err(NoteError::OutOfRange)
        } else {
            read_pitch(s, at + 1, semitone - 1)
        }
    } else if digit_value(s[at]) is Some {
        Ok(Pitch { semitone, octave: digit_value(s[at])->0 + 1 })
    } else if s[at] == '-' {
        if at + 1 < s.len() && digit_value(s[at + 1]) is Some {
            Ok(Pitch { semitone, octave: 1 - digit_value(s[at + 1])->0 })
        } else {
            Err(NoteError::MissingOctave)
        }
    } else {
        Err(NoteError::UnexpectedCharacter)
    }
}

/// The number of a note name in upper case without surrounding space:
/// twelve for each octave plus the semitone, where that lies in -128..=127;
/// a negative number is given as its low eight bits. A text that is no note
/// name has the error of the first thing wrong with it.
pub open spec fn note_number(s: Seq<char>) -> Result<u8, NoteError> {
    if s.len() == 0 {
        Err(NoteError::Empty)
    } else {
        match letter_semitone(s[0]) {
            None => Err(NoteError::InvalidName),
            Some(base) => match read_pitch(s, 1, base) {
                Err(e) => Err(e),
                Ok(pitch) => {
                    let number = pitch.semitone + 12 * pitch.octave;
                    if number < -128 || number > 127 {
                        Err(NoteError::OutOfRange)
                    } else if number < 0 {
                        Ok((number + 256) as u8)
                    } else {
                        Ok(number as u8)
                    }
                },
            },
        }
    }
}

/// A run of characters in a text: from `start` up to `end`.
#[derive(Clone, Copy, Debug, PartialEq, Eq, Structural)]
pub struct Span {
    pub start: usize,
    pub end: usize,
}

/// For each character of a text, whether it is white space.
pub open spec fn space_flags(s: Seq<char>) -> Seq<bool> {
    s.map_values(|c: char| is_whitespace(c))
}

/// How many flags at the front are set.
pub open spec fn leading(flags: Seq<bool>) -> nat
    decreases flags.len(),
{
    if flags.len() > 0 && flags[0] {
        1 + leading(flags.drop_first())
    } else {
        0
    }
}

/// How many flags at the back are set.
pub open spec fn trailing(flags: Seq<bool>) -> nat
    decreases flags.len(),
{
    if flags.len() > 0 && flags.last() {
        1 + trailing(flags.drop_last())
    } else {
        0
    }
}

/// What is left of a text without the white space at its front and at its
/// back, given the flags of its characters. Where all is white space, the
/// empty run at the end is left.
pub open spec fn trim_of(flags: Seq<bool>) -> Span {
    if leading(flags) >= flags.len() {
        Span { start: flags.len() as usize, end: flags.len() as usize }
    } else {
        Span { start: leading(flags) as usize, end: (flags.len() - trailing(flags)) as usize }
    }
}

/// `s` without the white space at its front and at its back.
pub open spec fn trimmed(s: Seq<char>) -> Seq<char> {
    s.subrange(trim_of(space_flags(s)).start as int, trim_of(space_flags(s)).end as int)
}

/// A note name as it is read: trimmed, then in upper case.
pub open spec fn normalized(s: Seq<char>) -> Seq<char> {
    uppercase(trimmed(s))
}

/// The words of a text, given the flags of its characters, read from
/// position `at` with a word begun at `begun`: the runs of characters that
/// are no white space, in order.
pub open spec fn spans(flags: Seq<bool>, at: int, begun: int) -> Seq<Span>
    decreases flags.len() - at,
{
    let ended = if begun < at {
        seq![Span { start: begun as usize, end: at as usize }]
    } else {
        Seq::empty()
    };
    if at < 0 || at >= flags.len() {
        ended
    } else if flags[at] {
        ended + spans(flags, at + 1, at + 1)
    } else {
        spans(flags, at + 1, begun)
    }
}

/// The words of a text: what white space separates.
pub open spec fn words(s: Seq<char>) -> Seq<Seq<char>> {
    spans(space_flags(s), 0, 0).map_values(|w: Span| s.subrange(w.start as int, w.end as int))
}

/// A word of a text that is no note name: which word, from zero, and why.
#[derive(Clone, Copy, Debug, PartialEq, Eq, Structural)]
pub struct BadNote {
    pub word: usize,
    pub error: NoteError,
}

/// The numbers of a list of note names, or the first of them that is no
/// note name.
pub open spec fn note_numbers(names: Seq<Seq<char>>) -> Result<Seq<u8>, BadNote>
    decreases names.len(),
{
    if names.len() == 0 {
        Ok(Seq::empty())
    } else {
        match note_numbers(names.drop_last()) {
            Err(bad) => Err(bad),
            Ok(numbers) => match note_number(normalized(names.last())) {
                Ok(number) => Ok(numbers.push(number)),
                Err(error) => Err(BadNote { word: (names.len() - 1) as usize, error }),
            },
        }
    }
}

/// The characters of a string.
fn chars_of(s: &str) -> (chars: Vec<char>)
    ensures
        chars@ == s@,
{
    let n = s.unicode_len();
    let mut chars: Vec<char> = Vec::new();
    let mut i: usize = 0;
    while i < n
        invariant
            0 <= i <= n,
            n == s@.len(),
            chars@ == s@.take(i as int),
        decreases n - i,
    {
        chars.push(s.get_char(i));
        assert(chars@ =~= s@.take(i + 1));
        i += 1;
    }
    assert(s@.take(n as int) =~= s@);
    chars
}

fn semitone_of(c: char) -> (r: Option<i16>)
    ensures
        match r {
            Some(v) => letter_semitone(c) == Some(v as int),
            None => letter_semitone(c) is None,
        },
{
    if c == 'C' {
        Some(0)
    } else if c == 'D' {
        Some(2)
    } else if c == 'E' {
        Some(4)
    } else if c == 'F' {
        Some(5)
    } else if c == 'G' {
        Some(7)
    } else if c == 'A' {
        Some(9)
    } else if c == 'B' {
        Some(11)
    } else {
        None
    }
}

fn digit_of(c: char) -> (r: Option<i16>)
    ensures
        match r {
            Some(v) => digit_value(c) == Some(v as int),
            None => digit_value(c) is None,
        },
{
    if '0' <= c && c <= '9' {
        Some((c as u32 - '0' as u32) as i16)
    } else {
        None
    }
}

/// Reads a note name that is trimmed and in upper case.
pub fn read_note(name: &str) -> (number: Result<u8, NoteError>)
    ensures
        number == note_number(name@),
{
    let s = chars_of(name);
    if s.len() == 0 {
        return Err(NoteError::Empty);
    }
    let base = match semitone_of(s[0]) {
        Some(base) => base,
        None => {
            return Err(NoteError::InvalidName);
        },
    };
    let mut semitone: i16 = base;
    let mut octave: i16 = 0;
    let mut at: usize = 1;
    let mut reading = true;
    while reading
        invariant
            1 <= at <= s.len(),
            s@ == name@,
            letter_semitone(s[0]) == Some(base as int),
            -128 <= semitone <= 127,
            reading ==> octave == 0 && read_pitch(s@, 1, base as int) == read_pitch(
                s@,
                at as int,
                semitone as int,
            ),
            !reading ==> read_pitch(s@, 1, base as int) == Ok::<Pitch, NoteError>(
                Pitch { semitone: semitone as int, octave: octave as int },
            ),
            -8 <= octave <= 10,
        ensures
            read_pitch(s@, 1, base as int) == Ok::<Pitch, NoteError>(
                Pitch { semitone: semitone as int, octave: octave as int },
            ),
            -128 <= semitone <= 127,
            -8 <= octave <= 10,
        decreases s.len() - at + (if reading { 1int } else { 0int }),
    {
        if at >= s.len() {
            reading = false;
        } else {
            let c = s[at];
            if c == '#' {
                if semitone + 1 > 127 {
                    return Err(NoteError::OutOfRange);
                }
                semitone = semitone + 1;
                at = at + 1;
            } else if c == 'B' {
                if semitone - 1 < -128 {
                    return Err(NoteError::OutOfRange);
                }
                semitone = semitone - 1;
                at = at + 1;
            } else if let Some(d) = digit_of(c) {
                octave = d + 1;
                reading = false;
            } else if c == '-' {
                if at + 1 >= s.len() {
                    return Err(NoteError::MissingOctave);
                }
                match digit_of(s[at + 1]) {
                    Some(d) => {
                        octave = 1 - d;
                        reading = false;
                    },
                    None => {
                        return Err(NoteError::MissingOctave);
                    },
                }
            } else {
                return Err(NoteError::UnexpectedCharacter);
            }
        }
    }
    let number: i16 = semitone + 12 * octave;
    if number < -128 || number > 127 {
        Err(NoteError::OutOfRange)
    } else if number < 0 {
        Ok((number + 256) as u8)
    } else {
        Ok(number as u8)
    }
}

/// The flags at the front that are set are those before the first that is
/// not.
proof fn lemma_leading(flags: Seq<bool>, k: int)
    requires
        0 <= k <= flags.len(),
        forall|j: int| 0 <= j < k ==> #[trigger] flags[j],
        k < flags.len() ==> !flags[k],
    ensures
        leading(flags) == k,
    decreases k,
{
    if k > 0 {
        let rest = flags.drop_first();
        assert forall|j: int| 0 <= j < k - 1 implies #[trigger] rest[j] by {
            assert(rest[j] == flags[j + 1]);
        }
        if k < flags.len() {
            assert(rest[k - 1] == flags[k]);
        }
        lemma_leading(rest, k - 1);
    }
}

/// The flags at the back that are set are those behind the last that is
/// not.
proof fn lemma_trailing(flags: Seq<bool>, k: int)
    requires
        0 <= k <= flags.len(),
        forall|j: int| flags.len() - k <= j < flags.len() ==> #[trigger] flags[j],
        k < flags.len() ==> !flags[flags.len() - k - 1],
    ensures
        trailing(flags) == k,
    decreases k,
{
    if k > 0 {
        let rest = flags.drop_last();
        assert forall|j: int| rest.len() - (k - 1) <= j < rest.len() implies #[trigger] rest[j] by {
            assert(rest[j] == flags[j]);
        }
        if k < flags.len() {
            assert(rest[rest.len() - (k - 1) - 1] == flags[flags.len() - k - 1]);
        }
        assert(flags[flags.len() - 1]);
        lemma_trailing(rest, k - 1);
    }
}

/// For each character, whether it is white space.
fn flags_of(chars: &Vec<char>) -> (flags: Vec<bool>)
    ensures
        flags@ == space_flags(chars@),
{
    let mut flags: Vec<bool> = Vec::new();
    let mut i: usize = 0;
    while i < chars.len()
        invariant
            0 <= i <= chars.len(),
            flags.len() == i,
            forall|k: int| 0 <= k < i ==> #[trigger] flags[k] == is_whitespace(chars[k]),
        decreases chars.len() - i,
    {
        flags.push(char_is_whitespace(chars[i]));
        i += 1;
    }
    assert(flags@ =~= space_flags(chars@));
    flags
}

/// What is left of a text without the white space around it, given for each
/// character whether it is white space.
pub fn trim_span(flags: &Vec<bool>) -> (span: Span)
    ensures
        span == trim_of(flags@),
        span.start <= span.end <= flags.len(),
{
    let n = flags.len();
    let mut start: usize = 0;
    while start < n && flags[start]
        invariant
            0 <= start <= n,
            n == flags.len(),
            forall|j: int| 0 <= j < start ==> #[trigger] flags[j],
        decreases n - start,
    {
        start += 1;
    }
    proof {
        lemma_leading(flags@, start as int);
    }
    let mut end: usize = n;
    while end > start && flags[end - 1]
        invariant
            start <= end <= n,
            n == flags.len(),
            forall|j: int| end <= j < n ==> #[trigger] flags[j],
            start < n ==> !flags[start as int],
        decreases end,
    {
        end -= 1;
    }
    proof {
        if start < n {
            lemma_trailing(flags@, n - end);
        }
    }
    Span { start, end }
}

/// The words of a text, given for each character whether it is white space.
pub fn word_spans(flags: &Vec<bool>) -> (found: Vec<Span>)
    ensures
        found@ == spans(flags@, 0, 0),
        forall|k: int| 0 <= k < found.len() ==> (#[trigger] found[k]).start < found[k].end <= flags.len(),
{
    let n = flags.len();
    let mut found: Vec<Span> = Vec::new();
    let mut begun: usize = 0;
    let mut at: usize = 0;
    while at < n
        invariant
            0 <= begun <= at <= n,
            n == flags.len(),
            spans(flags@, 0, 0) == found@ + spans(flags@, at as int, begun as int),
            forall|k: int| 0 <= k < found.len() ==> (#[trigger] found[k]).start < found[k].end <= n,
        decreases n - at,
    {
        if flags[at] {
            if begun < at {
                let ghost before = found@;
                found.push(Span { start: begun, end: at });
                assert(before + (seq![Span { start: begun, end: at }] + spans(
                    flags@,
                    at + 1,
                    at + 1,
                )) =~= found@ + spans(flags@, at + 1, at + 1));
            }
            begun = at + 1;
        }
        at += 1;
    }
    if begun < at {
        let ghost before = found@;
        found.push(Span { start: begun, end: at });
        assert(before + seq![Span { start: begun, end: at }] =~= found@);
    } else {
        assert(found@ + Seq::<Span>::empty() =~= found@);
    }
    found
}

/// A note name as it is read: without the white space around it, and in
/// upper case.
pub fn normalize(input: &str) -> (name: String)
    ensures
        name@ == normalized(input@),
{
    let chars = chars_of(input);
    let flags = flags_of(&chars);
    let span = trim_span(&flags);
    to_uppercase(input.substring_char(span.start, span.end))
}

/// The number of a note name, such as 60 for `C4`, 61 for `C#4` and 58 for
/// `Bb3`. The name is read without the white space around it and without
/// regard to case.
pub fn parse_note(input: &str) -> (number: u8)
    requires
        note_number(normalized(input@)) is Ok,
    ensures
        Ok::<u8, NoteError>(number) == note_number(normalized(input@)),
{
    let name = normalize(input);
    read_note(name.as_str()).unwrap()
}

/// The number of a note name, or why the text is no note name.
pub fn note(input: &str) -> (number: Result<u8, NoteError>)
    ensures
        number == note_number(normalized(input@)),
{
    let name = normalize(input);
    match read_note(name.as_str()) {
        Ok(_) => Ok(parse_note(input)),
        Err(e) => Err(e),
    }
}

/// What the first names of a list have for numbers or for an error, the
/// whole list has too, where it is an error.
proof fn lemma_bad_note_stays(names: Seq<Seq<char>>, more: Seq<Seq<char>>)
    requires
        note_numbers(names) is Err,
    ensures
        note_numbers(names + more) == note_numbers(names),
    decreases more.len(),
{
    if more.len() == 0 {
        assert(names + more =~= names);
    } else {
        lemma_bad_note_stays(names, more.drop_last());
        assert((names + more).drop_last() =~= names + more.drop_last());
    }
}

/// A run moved `by` characters to the back.
pub open spec fn shifted(w: Span, by: int) -> Span {
    Span { start: (w.start + by) as usize, end: (w.end + by) as usize }
}

/// Runs moved `by` characters to the back.
pub open spec fn shift(ws: Seq<Span>, by: int) -> Seq<Span> {
    ws.map_values(|w: Span| shifted(w, by))
}

/// The words of a text lie within it, behind where the reading began.
proof fn lemma_spans_within(flags: Seq<bool>, at: int, begun: int, k: int)
    requires
        0 <= begun <= at <= flags.len() <= usize::MAX,
        0 <= k < spans(flags, at, begun).len(),
    ensures
        begun <= spans(flags, at, begun)[k].start < spans(flags, at, begun)[k].end <= flags.len(),
    decreases flags.len() - at,
{
    let ended = if begun < at {
        seq![Span { start: begun as usize, end: at as usize }]
    } else {
        Seq::empty()
    };
    if at >= flags.len() {
    } else if flags[at] {
        if k >= ended.len() {
            lemma_spans_within(flags, at + 1, at + 1, k - ended.len());
        }
    } else {
        lemma_spans_within(flags, at + 1, begun, k);
    }
}

/// The words behind a prefix are the words of what follows it, moved by the
/// prefix's length.
proof fn lemma_spans_behind(pre: Seq<bool>, flags: Seq<bool>, at: int, begun: int)
    requires
        0 <= begun <= at <= flags.len(),
        pre.len() + flags.len() <= usize::MAX,
    ensures
        spans(pre + flags, pre.len() + at, pre.len() + begun) == shift(
            spans(flags, at, begun),
            pre.len() as int,
        ),
    decreases flags.len() - at,
{
    let all = pre + flags;
    let by = pre.len() as int;
    let ended = if begun < at {
        seq![Span { start: begun as usize, end: at as usize }]
    } else {
        Seq::empty()
    };
    let ended_all = if by + begun < by + at {
        seq![Span { start: (by + begun) as usize, end: (by + at) as usize }]
    } else {
        Seq::empty()
    };
    assert(shift(ended, by) =~= ended_all);
    if at >= flags.len() {
    } else {
        assert(all[by + at] == flags[at]);
        if flags[at] {
            lemma_spans_behind(pre, flags, at + 1, at + 1);
            assert(shift(ended + spans(flags, at + 1, at + 1), by) =~= shift(ended, by) + shift(
                spans(flags, at + 1, at + 1),
                by,
            ));
        } else {
            lemma_spans_behind(pre, flags, at + 1, begun);
        }
    }
}

/// The words of two texts with a white-space character between them are
/// the words of the first and then those of the second, moved behind it.
proof fn lemma_spans_joined(first: Seq<bool>, second: Seq<bool>, at: int, begun: int)
    requires
        0 <= begun <= at <= first.len(),
        first.len() + 1 + second.len() <= usize::MAX,
    ensures
        spans(first + seq![true] + second, at, begun) == spans(first, at, begun) + shift(
            spans(second, 0, 0),
            (first.len() + 1) as int,
        ),
    decreases first.len() - at,
{
    let all = first + seq![true] + second;
    let behind = shift(spans(second, 0, 0), (first.len() + 1) as int);
    let ended = if begun < at {
        seq![Span { start: begun as usize, end: at as usize }]
    } else {
        Seq::empty()
    };
    if at == first.len() {
        assert(all[at] == true);
        lemma_spans_behind(first + seq![true], second, 0, 0);
        assert((first + seq![true]).len() == first.len() + 1);
    } else {
        assert(all[at] == first[at]);
        if first[at] {
            lemma_spans_joined(first, second, at + 1, at + 1);
            assert(ended + (spans(first, at + 1, at + 1) + behind) =~= (ended + spans(
                first,
                at + 1,
                at + 1,
            )) + behind);
        } else {
            lemma_spans_joined(first, second, at + 1, begun);
        }
    }
}

/// The words of two texts with a white-space character between them are the
/// words of the first followed by the words of the second.
pub proof fn lemma_words_joined(first: Seq<char>, between: char, second: Seq<char>)
    requires
        is_whitespace(between),
        first.len() + 1 + second.len() <= usize::MAX,
    ensures
        words(first + seq![between] + second) == words(first) + words(second),
{
    let all = first + seq![between] + second;
    let by = (first.len() + 1) as int;
    let f1 = space_flags(first);
    let f2 = space_flags(second);
    assert(space_flags(all) =~= f1 + seq![true] + f2);
    lemma_spans_joined(f1, f2, 0, 0);
    let w1 = spans(f1, 0, 0);
    let w2 = spans(f2, 0, 0);
    let w = spans(space_flags(all), 0, 0);
    assert(w == w1 + shift(w2, by));
    assert(words(all).len() == (words(first) + words(second)).len());
    assert forall|k: int| 0 <= k < w.len() implies #[trigger] words(all)[k] == (words(first)
        + words(second))[k] by {
        if k < w1.len() {
            lemma_spans_within(f1, 0, 0, k);
            assert(w[k] == w1[k]);
            assert(all.subrange(w1[k].start as int, w1[k].end as int) =~= first.subrange(
                w1[k].start as int,
                w1[k].end as int,
            ));
        } else {
            let j = k - w1.len();
            lemma_spans_within(f2, 0, 0, j);
            assert(w[k] == shifted(w2[j], by));
            assert(all.subrange(w2[j].start + by, w2[j].end + by) =~= second.subrange(
                w2[j].start as int,
                w2[j].end as int,
            ));
        }
    }
    assert(words(all) =~= words(first) + words(second));
}

/// The numbers of two lists of note names, one after the other, are the
/// numbers of the first followed by the numbers of the second.
pub proof fn lemma_numbers_joined(first: Seq<Seq<char>>, second: Seq<Seq<char>>)
    requires
        note_numbers(first) is Ok,
        note_numbers(second) is Ok,
    ensures
        note_numbers(first + second) == Ok::<Seq<u8>, BadNote>(
            note_numbers(first)->Ok_0 + note_numbers(second)->Ok_0,
        ),
    decreases second.len(),
{
    if second.len() == 0 {
        assert(first + second =~= first);
        assert(note_numbers(first)->Ok_0 + note_numbers(second)->Ok_0 =~= note_numbers(
            first,
        )->Ok_0);
    } else {
        lemma_numbers_joined(first, second.drop_last());
        assert((first + second).drop_last() =~= first + second.drop_last());
        assert((first + second).last() == second.last());
        let p = note_numbers(first)->Ok_0;
        let q = note_numbers(second.drop_last())->Ok_0;
        let n = note_number(normalized(second.last()))->Ok_0;
        assert((p + q).push(n) =~= p + q.push(n));
    }
}

/// The numbers of two texts of note names with a white-space character
/// between them are the numbers of the first followed by the numbers of the
/// second; and where the first text has a word that is no note name, that
/// word is reported for the joined text too.
pub proof fn lemma_note_arrays_joined(first: Seq<char>, between: char, second: Seq<char>)
    requires
        is_whitespace(between),
        first.len() + 1 + second.len() <= usize::MAX,
    ensures
        note_numbers(words(first)) is Err ==> note_numbers(
            words(first + seq![between] + second),
        ) == note_numbers(words(first)),
        note_numbers(words(first)) is Ok && note_numbers(words(second)) is Ok ==> note_numbers(
            words(first + seq![between] + second),
        ) == Ok::<Seq<u8>, BadNote>(
            note_numbers(words(first))->Ok_0 + note_numbers(words(second))->Ok_0,
        ),
{
    lemma_words_joined(first, between, second);
    if note_numbers(words(first)) is Err {
        lemma_bad_note_stays(words(first), words(second));
    } else if note_numbers(words(second)) is Ok {
        lemma_numbers_joined(words(first), words(second));
    }
}

/// The numbers of the note names in a text, which white space separates; or
/// the first word that is no note name, and why.
pub fn note_array(input: &str) -> (numbers: Result<Vec<u8>, BadNote>)
    ensures
        match numbers {
            Ok(numbers) => note_numbers(words(input@)) == Ok::<Seq<u8>, BadNote>(numbers@),
            Err(bad) => note_numbers(words(input@)) == Err::<Seq<u8>, BadNote>(bad),
        },
{
    let chars = chars_of(input);
    let flags = flags_of(&chars);
    let found = word_spans(&flags);
    let ghost names = words(input@);
    let mut numbers: Vec<u8> = Vec::new();
    let mut k: usize = 0;
    assert(names.take(0) =~= Seq::<Seq<char>>::empty());
    while k < found.len()
        invariant
            0 <= k <= found.len(),
            chars@ == input@,
            flags@ == space_flags(chars@),
            found@ == spans(flags@, 0, 0),
            forall|j: int|
                0 <= j < found.len() ==> (#[trigger] found[j]).start < found[j].end <= flags.len(),
            names == words(input@),
            names.len() == found.len(),
            note_numbers(names.take(k as int)) == Ok::<Seq<u8>, BadNote>(numbers@),
        decreases found.len() - k,
    {
        let word = input.substring_char(found[k].start, found[k].end);
        proof {
            assert(names.take(k + 1).drop_last() =~= names.take(k as int));
            assert(names.take(k + 1).last() == names[k as int]);
            assert(word@ == names[k as int]);
        }
        match note(word) {
            Ok(number) => {
                numbers.push(number);
            },
            Err(error) => {
                proof {
                    lemma_bad_note_stays(names.take(k + 1), names.skip(k + 1));
                    assert(names.take(k + 1) + names.skip(k + 1) =~= names);
                }
                return Err(BadNote { word: k, error });
            },
        }
        k += 1;
    }
    assert(names.take(k as int) =~= names);
    Ok(numbers)
}

} // verus!
