use oxc_toolchain::base54::base54;
use oxc_toolchain::candidate::{next_name, LONG_NAMES};
use oxc_toolchain::keyword::is_keyword;

const RESERVED: [&str; 26] = [
    "as", "do", "if", "in", "is", "of", "any", "for", "get", "let", "new", "out", "set", "try",
    "var", "case", "else", "enum", "from", "meta", "null", "this", "true", "type", "void", "with",
];

const ALPHABET: &str = "abcdefghijklmnopqrstuvwxyzABCDEFGHIJKLMNOPQRSTUVWXYZ$_0123456789";

fn ordinal_of(name: &str) -> u128 {
    let mut ordinal = 0;
    for (i, c) in name.chars().enumerate() {
        let place = ALPHABET.find(c).expect("a symbol of the alphabet") as u128;
        ordinal = if i == 0 { place } else { 54 + 64 * ordinal + place };
    }
    ordinal
}

#[test]
fn the_reserved_words_are_keywords() {
    for word in RESERVED {
        assert!(is_keyword(word), "{word}");
    }
}

#[test]
fn other_words_are_no_keywords() {
    for word in [
        "", "a", "s", "i", "f", "at", "id", "fi", "As", "AS", "iff", "fo", "lets", "va", "var1",
        "cases", "while", "return", "function", "class", "const", "typeof", "as ", " as", "nul",
        "tru", "True", "voi", "wit", "withe", "\u{e9}", "a\u{e9}",
    ] {
        assert!(!is_keyword(word), "{word}");
    }
}

#[test]
fn no_single_character_is_a_keyword() {
    for c in ALPHABET.chars() {
        assert!(!is_keyword(&c.to_string()), "{c}");
    }
}

#[test]
fn exactly_the_reserved_words_are_left_out_of_the_short_names() {
    let mut reserved = Vec::new();
    for ordinal in 0..224_694u128 {
        let name = base54(ordinal);
        if is_keyword(&name) {
            reserved.push(name);
        }
    }
    let short: Vec<&str> = RESERVED.iter().copied().filter(|word| word.len() < 4).collect();
    let mut expected: Vec<&str> = short.clone();
    expected.sort_by_key(|word| ordinal_of(word));
    assert_eq!(reserved, expected);
}

#[test]
fn the_next_name_is_the_name_at_hand_unless_it_is_reserved() {
    let mut ordinal = 0;
    assert_eq!(next_name(&mut ordinal), "a");
    assert_eq!(ordinal, 1);
    assert_eq!(next_name(&mut ordinal), "b");
    assert_eq!(ordinal, 2);
    let mut ordinal = 53;
    assert_eq!(next_name(&mut ordinal), "_");
    assert_eq!(next_name(&mut ordinal), "aa");
    assert_eq!(ordinal, 55);
}

#[test]
fn the_next_name_steps_over_each_reserved_word() {
    for word in RESERVED {
        let at = ordinal_of(word);
        assert_eq!(base54(at), word);
        let mut ordinal = at;
        let name = next_name(&mut ordinal);
        assert_eq!(name, base54(at + 1), "{word}");
        assert_eq!(ordinal, at + 2, "{word}");
        assert!(!is_keyword(&name));
        let mut ordinal = at - 1;
        assert_eq!(next_name(&mut ordinal), base54(at - 1), "{word}");
        assert_eq!(ordinal, at, "{word}");
    }
}

#[test]
fn no_reserved_word_is_as_long_as_the_long_names() {
    assert_eq!(LONG_NAMES, 14_380_470);
    assert_eq!(base54(LONG_NAMES).len(), 5);
    assert_eq!(base54(LONG_NAMES - 1).len(), 4);
    assert!(RESERVED.iter().all(|word| ordinal_of(word) < LONG_NAMES));
    let mut ordinal = LONG_NAMES;
    assert_eq!(next_name(&mut ordinal), "aaaaa");
    let mut ordinal = u128::MAX - LONG_NAMES - 1;
    assert_eq!(next_name(&mut ordinal), base54(u128::MAX - LONG_NAMES - 1));
    assert_eq!(ordinal, u128::MAX - LONG_NAMES);
}
