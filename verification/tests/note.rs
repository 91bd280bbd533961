use raug_macros::note::{
    normalize, note, note_array, parse_note, read_note, trim_span, word_spans, BadNote,
    NoteError, Span,
};

#[test]
fn note_names_have_their_numbers() {
    assert_eq!(parse_note("C4"), 60);
    assert_eq!(parse_note("C#4"), 61);
    assert_eq!(parse_note("Bb3"), 58);
    assert_eq!(parse_note("A4"), 69);
    assert_eq!(parse_note("C0"), 12);
    assert_eq!(parse_note("G9"), 127);
    assert_eq!(parse_note("D"), 2);
    assert_eq!(parse_note("E#"), 5);
    assert_eq!(parse_note("F##2"), 43);
    assert_eq!(parse_note("Abb4"), 67);
    assert_eq!(parse_note("C-0"), 12);
    assert_eq!(parse_note("C-1"), 0);
    assert_eq!(parse_note("B-1"), 11);
}

#[test]
fn case_and_surrounding_space_do_not_matter() {
    assert_eq!(parse_note("c4"), 60);
    assert_eq!(parse_note("bb3"), 58);
    assert_eq!(parse_note("bB3"), 58);
    assert_eq!(parse_note("  C4"), 60);
    assert_eq!(parse_note("C4\n"), 60);
    assert_eq!(parse_note("\t c#4 \u{a0}"), 61);
    assert_eq!(note(" g9 "), Ok(127));
}

#[test]
fn what_follows_the_octave_is_not_read() {
    assert_eq!(parse_note("C10"), 24);
    assert_eq!(parse_note("C4 and more"), 60);
    assert_eq!(note("C4#"), Ok(60));
}

#[test]
fn numbers_below_zero_wrap() {
    assert_eq!(parse_note("C-2"), 244);
    assert_eq!(parse_note("Cb-1"), 255);
    assert_eq!(parse_note("C-9"), 160);
}

#[test]
fn what_is_no_note_has_its_reason() {
    for (text, reason) in [
        ("", NoteError::Empty),
        ("   ", NoteError::Empty),
        ("H4", NoteError::InvalidName),
        ("4", NoteError::InvalidName),
        ("#C", NoteError::InvalidName),
        ("do", NoteError::UnexpectedCharacter),
        ("Cx", NoteError::UnexpectedCharacter),
        ("C 4", NoteError::UnexpectedCharacter),
        ("C+1", NoteError::UnexpectedCharacter),
        ("C-", NoteError::MissingOctave),
        ("C-x", NoteError::MissingOctave),
        ("C#--1", NoteError::MissingOctave),
        ("A9", NoteError::OutOfRange),
        ("B9", NoteError::OutOfRange),
        ("G#9", NoteError::OutOfRange),
    ] {
        assert_eq!(note(text), Err(reason), "{text:?}");
    }
    // the first thing wrong decides
    assert_eq!(note("H-"), Err(NoteError::InvalidName));
    assert_eq!(note("Cx-"), Err(NoteError::UnexpectedCharacter));
}

#[test]
fn too_many_accidentals_are_out_of_range() {
    let sharps = format!("B{}", "#".repeat(116));
    assert_eq!(note(&sharps), Ok(127));
    let sharps = format!("B{}", "#".repeat(117));
    assert_eq!(note(&sharps), Err(NoteError::OutOfRange));
    let flats = format!("C{}", "b".repeat(128));
    assert_eq!(note(&flats), Ok(128));
    let flats = format!("C{}", "b".repeat(129));
    assert_eq!(note(&flats), Err(NoteError::OutOfRange));
    let back = format!("B{}{}4", "#".repeat(116), "b".repeat(116));
    assert_eq!(note(&back), Ok(71));
    // the range is left before the bad character is reached
    let sharps = format!("B{}x", "#".repeat(117));
    assert_eq!(note(&sharps), Err(NoteError::OutOfRange));
}

#[test]
fn note_errors_have_their_messages() {
    for (error, message) in [
        (NoteError::Empty, "Invalid note: empty input"),
        (NoteError::InvalidName, "Invalid note: invalid note name"),
        (NoteError::UnexpectedCharacter, "Invalid note: unexpected character"),
        (NoteError::MissingOctave, "Invalid note: expected a digit after `-`"),
        (NoteError::OutOfRange, "Invalid note: note out of range"),
    ] {
        assert_eq!(error.message(), message);
    }
}

#[test]
fn read_note_takes_the_name_as_it_is() {
    assert_eq!(read_note("C4"), Ok(60));
    assert_eq!(read_note("c4"), Err(NoteError::InvalidName));
    assert_eq!(read_note(" C4"), Err(NoteError::InvalidName));
    assert_eq!(read_note("BB3"), Ok(58));
    assert_eq!(read_note("Bb3"), Err(NoteError::UnexpectedCharacter));
    assert_eq!(read_note(""), Err(NoteError::Empty));
}

#[test]
fn normalize_trims_and_raises() {
    assert_eq!(normalize("  c#4\t"), "C#4");
    assert_eq!(normalize(""), "");
    assert_eq!(normalize(" \n "), "");
    assert_eq!(normalize("a b"), "A B");
    assert_eq!(normalize("\u{2003}bb3\u{3000}"), "BB3");
    assert_eq!(normalize("x\u{200b}"), "X\u{200b}");
}

#[test]
fn note_arrays_are_split_at_white_space() {
    assert_eq!(note_array("C4 Db4 E4"), Ok(vec![60, 61, 64]));
    assert_eq!(note_array("  c4\n\tdb4   e4  "), Ok(vec![60, 61, 64]));
    assert_eq!(note_array("C4"), Ok(vec![60]));
    assert_eq!(note_array(""), Ok(vec![]));
    assert_eq!(note_array(" \n "), Ok(vec![]));
    assert_eq!(note_array("C4\u{2003}G4"), Ok(vec![60, 67]));
    assert_eq!(note_array("C4,E4"), Ok(vec![60]));
}

#[test]
fn the_first_bad_word_of_an_array_is_reported() {
    assert_eq!(
        note_array("C4 X4 E4"),
        Err(BadNote { word: 1, error: NoteError::InvalidName })
    );
    assert_eq!(
        note_array("C4 E4 cx"),
        Err(BadNote { word: 2, error: NoteError::UnexpectedCharacter })
    );
    assert_eq!(
        note_array("  B9 C- H"),
        Err(BadNote { word: 0, error: NoteError::OutOfRange })
    );
    assert_eq!(
        note_array("C4 C- H"),
        Err(BadNote { word: 1, error: NoteError::MissingOctave })
    );
}

fn flags(text: &str) -> Vec<bool> {
    text.chars().map(|c| c == '_').collect()
}

#[test]
fn trimming_leaves_what_stands_between_the_space() {
    assert_eq!(trim_span(&flags("")), Span { start: 0, end: 0 });
    assert_eq!(trim_span(&flags("abc")), Span { start: 0, end: 3 });
    assert_eq!(trim_span(&flags("__abc")), Span { start: 2, end: 5 });
    assert_eq!(trim_span(&flags("abc_")), Span { start: 0, end: 3 });
    assert_eq!(trim_span(&flags("_a_b__")), Span { start: 1, end: 4 });
    assert_eq!(trim_span(&flags("_")), Span { start: 1, end: 1 });
    assert_eq!(trim_span(&flags("___")), Span { start: 3, end: 3 });
}

#[test]
fn words_are_the_runs_between_the_space() {
    let span = |start, end| Span { start, end };
    assert_eq!(word_spans(&flags("")), vec![]);
    assert_eq!(word_spans(&flags("___")), vec![]);
    assert_eq!(word_spans(&flags("abc")), vec![span(0, 3)]);
    assert_eq!(word_spans(&flags("_abc_")), vec![span(1, 4)]);
    assert_eq!(word_spans(&flags("a_b")), vec![span(0, 1), span(2, 3)]);
    assert_eq!(word_spans(&flags("ab__cd___e")), vec![span(0, 2), span(4, 6), span(9, 10)]);
    assert_eq!(word_spans(&flags("__ab_c_")), vec![span(2, 4), span(5, 6)]);
}

#[test]
fn joined_texts_give_joined_arrays() {
    let texts = ["", "C4", "c4  e4", " G9\n", "A-1\tBb3 F##2 "];
    for first in texts {
        for second in texts {
            for between in [' ', '\n', '\t', '\u{a0}', '\u{3000}'] {
                let joined = format!("{first}{between}{second}");
                let mut expected = note_array(first).unwrap();
                expected.extend(note_array(second).unwrap());
                assert_eq!(note_array(&joined), Ok(expected), "{joined:?}");
            }
        }
    }
    // a bad word of the first text is reported for the joined text
    assert_eq!(note_array("C4 H2"), note_array("C4 H2 E4 X"));
    assert_eq!(note_array("C4 H2 E4 X"), Err(BadNote { word: 1, error: NoteError::InvalidName }));
}

#[test]
fn white_space_is_what_unicode_lists() {
    let listed = |c: char| {
        matches!(
            c as u32,
            0x0009..=0x000D
                | 0x0020
                | 0x0085
                | 0x00A0
                | 0x1680
                | 0x2000..=0x200A
                | 0x2028
                | 0x2029
                | 0x202F
                | 0x205F
                | 0x3000
        )
    };
    let mut count = 0;
    for code in 0..=0x10FFFFu32 {
        let Some(c) = char::from_u32(code) else { continue };
        // a character is trimmed away exactly where it is white space
        assert_eq!(normalize(&c.to_string()).is_empty(), listed(c), "U+{code:04X}");
        assert_eq!(trim_span(&[listed(c)].to_vec()) == Span { start: 1, end: 1 }, listed(c));
        if listed(c) {
            count += 1;
            assert_eq!(note_array(&format!("C4{c}E4")), Ok(vec![60, 64]), "U+{code:04X}");
        }
    }
    assert_eq!(count, 25);
    // a zero-width space and the Mongolian vowel separator separate nothing
    assert_eq!(note_array("C4\u{200b}E4"), Ok(vec![60]));
    assert_eq!(note_array("C4\u{180e}E4"), Ok(vec![60]));
}
