use regex::syntax::unicode::UnicodeWordData;
use regex::syntax::{is_word_byte, is_word_character, try_is_word_character};
use unicode_properties::{GeneralCategory, UnicodeGeneralCategory};

/// The Unicode word-character class of UTS#18 Annex C: `Alphabetic`,
/// `Join_Control`, `Decimal_Number`, `Mark` or `Connector_Punctuation`.
fn reference_word_character(c: char) -> bool {
    c.is_alphabetic()
        || c == '\u{200C}'
        || c == '\u{200D}'
        || matches!(
            c.general_category(),
            GeneralCategory::DecimalNumber
                | GeneralCategory::NonspacingMark
                | GeneralCategory::SpacingMark
                | GeneralCategory::EnclosingMark
                | GeneralCategory::ConnectorPunctuation
        )
}

/// Builds the injected capability from real Unicode data: the canonical
/// range list of every scalar value in the word-character class.
fn word_data() -> UnicodeWordData {
    let mut ranges: Vec<(u32, u32)> = Vec::new();
    let mut run: Option<(u32, u32)> = None;
    for v in 0u32..=0x10FFFF {
        let word = match char::from_u32(v) {
            Some(c) => reference_word_character(c),
            None => false,
        };
        run = match (run, word) {
            (None, true) => Some((v, v)),
            (None, false) => None,
            (Some((start, _)), true) => Some((start, v)),
            (Some(done), false) => {
                ranges.push(done);
                None
            }
        };
    }
    if let Some(done) = run {
        ranges.push(done);
    }
    UnicodeWordData::new(ranges).expect("scanning scalar values in order yields a canonical list")
}

#[test]
fn word_byte() {
    assert!(is_word_byte(b'a'));
    assert!(!is_word_byte(b'-'));
}

#[test]
fn word_byte_class_boundaries() {
    assert!(is_word_byte(b'_'));
    assert!(is_word_byte(b'0'));
    assert!(is_word_byte(b'9'));
    assert!(is_word_byte(b'A'));
    assert!(is_word_byte(b'Z'));
    assert!(is_word_byte(b'z'));
    assert!(!is_word_byte(b' '));
    assert!(!is_word_byte(b'@'));
    assert!(!is_word_byte(b'['));
    assert!(!is_word_byte(b'`'));
    assert!(!is_word_byte(b'{'));
    assert!(!is_word_byte(0xFF));
}

#[test]
fn word_char() {
    let data = word_data();
    assert!(is_word_character('a', &data), "ASCII");
    assert!(is_word_character('à', &data), "Latin-1");
    assert!(is_word_character('β', &data), "Greek");
    assert!(is_word_character('\u{11011}', &data), "Brahmi (Unicode 6.0)");
    assert!(is_word_character('\u{11611}', &data), "Modi (Unicode 7.0)");
    assert!(is_word_character('\u{11711}', &data), "Ahom (Unicode 8.0)");
    assert!(is_word_character('\u{17828}', &data), "Tangut (Unicode 9.0)");
    assert!(is_word_character('\u{1B1B1}', &data), "Nushu (Unicode 10.0)");
    assert!(is_word_character('\u{16E40}', &data), "Medefaidrin (Unicode 11.0)");
    assert!(!is_word_character('-', &data));
    assert!(!is_word_character('☃', &data));
}

#[test]
fn word_char_disabled_error() {
    let data = UnicodeWordData::unavailable();
    assert!(try_is_word_character('a', &data).is_err());
}

#[test]
fn word_char_fallible_agrees() {
    let data = word_data();
    assert_eq!(try_is_word_character('a', &data), Ok(true));
    assert_eq!(try_is_word_character('-', &data), Ok(false));
    assert_eq!(try_is_word_character('_', &data), Ok(true));
    assert_eq!(try_is_word_character('\u{200D}', &data), Ok(true));
}

#[test]
fn enabling_the_capability_only_adds_answers() {
    // With the table absent every query is rejected; enabling the capability
    // answers the same queries without changing any earlier outcome.
    let absent = UnicodeWordData::unavailable();
    let present = word_data();
    for c in ['a', '-', 'β', '☃'] {
        assert!(try_is_word_character(c, &absent).is_err());
        assert!(try_is_word_character(c, &present).is_ok());
    }
}

#[test]
fn small_hand_made_table() {
    let data = UnicodeWordData::new(vec![(97, 122)]).expect("a single range is canonical");
    assert_eq!(try_is_word_character('a', &data), Ok(true));
    assert_eq!(try_is_word_character('z', &data), Ok(true));
    assert_eq!(try_is_word_character('`', &data), Ok(false));
    assert_eq!(try_is_word_character('{', &data), Ok(false));
    assert_eq!(try_is_word_character('A', &data), Ok(false));
}

#[test]
fn non_canonical_tables_are_rejected() {
    // An empty range.
    assert!(UnicodeWordData::new(vec![(5, 4)]).is_none());
    // Beyond the scalar-value domain.
    assert!(UnicodeWordData::new(vec![(0, 0x110000)]).is_none());
    // Inside the surrogate gap.
    assert!(UnicodeWordData::new(vec![(0xD800, 0xD800)]).is_none());
    // Out of order.
    assert!(UnicodeWordData::new(vec![(20, 30), (0, 10)]).is_none());
    // Overlapping.
    assert!(UnicodeWordData::new(vec![(0, 10), (10, 20)]).is_none());
    // Touching ranges must be merged.
    assert!(UnicodeWordData::new(vec![(0, 10), (11, 20)]).is_none());
    // With one value of separation the list is canonical.
    assert!(UnicodeWordData::new(vec![(0, 10), (12, 20)]).is_some());
    // The empty list is canonical and matches nothing.
    let empty = UnicodeWordData::new(Vec::new()).expect("an empty list is canonical");
    assert_eq!(try_is_word_character('a', &empty), Ok(false));
}

#[test]
fn word_table_matches_the_reference() {
    let data = word_data();
    for v in [0u32, 47, 48, 57, 58, 0x200B, 0x200C, 0x200D, 0x200E, 0xABCD, 0x10FFFF] {
        if let Some(c) = char::from_u32(v) {
            assert_eq!(
                try_is_word_character(c, &data),
                Ok(reference_word_character(c)),
                "scalar value {v:#x}"
            );
        }
    }
}
