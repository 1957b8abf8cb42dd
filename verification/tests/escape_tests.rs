use regex::syntax::{escape, escape_into, is_escapeable_character, is_meta_character};

const META_CHARACTERS: [char; 18] = [
    '\\', '.', '+', '*', '?', '(', ')', '|', '[', ']', '{', '}', '^', '$', '#', '&', '-', '~',
];

#[test]
fn escape_meta() {
    assert_eq!(
        escape(r"\.+*?()|[]{}^$#&-~"),
        r"\\\.\+\*\?\(\)\|\[\]\{\}\^\$\#\&\-\~".to_string()
    );
}

#[test]
fn escape_literal_text_unchanged() {
    assert_eq!(escape(""), "".to_string());
    assert_eq!(escape("abc"), "abc".to_string());
    assert_eq!(escape("sno\u{2603}man"), "sno\u{2603}man".to_string());
}

#[test]
fn escape_mixed_text() {
    assert_eq!(regex::escape("a.b*c"), r"a\.b\*c".to_string());
}

#[test]
fn escape_into_appends() {
    let mut buf = String::from("x");
    escape_into("a+b", &mut buf);
    assert_eq!(buf, r"xa\+b".to_string());
}

#[test]
fn escape_every_meta_character() {
    for c in META_CHARACTERS {
        let escaped = escape(&c.to_string());
        assert_eq!(escaped, format!("\\{}", c));
    }
}

#[test]
fn meta_character_membership() {
    assert!(is_meta_character('?'));
    assert!(is_meta_character('-'));
    assert!(is_meta_character('&'));
    assert!(is_meta_character('#'));

    assert!(!is_meta_character('%'));
    assert!(!is_meta_character('/'));
    assert!(!is_meta_character('!'));
    assert!(!is_meta_character('"'));
    assert!(!is_meta_character('e'));
}

#[test]
fn escapeable_character_membership() {
    assert!(is_escapeable_character('?'));
    assert!(is_escapeable_character('-'));
    assert!(is_escapeable_character('&'));
    assert!(is_escapeable_character('#'));
    assert!(is_escapeable_character('%'));
    assert!(is_escapeable_character('/'));
    assert!(is_escapeable_character('!'));
    assert!(is_escapeable_character('"'));

    assert!(!is_escapeable_character('e'));
    assert!(!is_escapeable_character('0'));
    assert!(!is_escapeable_character('Z'));
    assert!(!is_escapeable_character('<'));
    assert!(!is_escapeable_character('>'));
    assert!(!is_escapeable_character('\u{2603}'));
}

#[test]
fn meta_characters_are_escapeable() {
    for c in META_CHARACTERS {
        assert!(is_meta_character(c));
        assert!(is_escapeable_character(c));
    }
}
