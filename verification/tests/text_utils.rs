use centaur_example::text_utils::{count_words, join_words, reverse_string, to_title_case};

#[test]
fn test_reverse_simple_string() {
    assert_eq!(reverse_string("hello"), "olleh");
}

#[test]
fn test_reverse_empty_string() {
    assert_eq!(reverse_string(""), "");
}

#[test]
fn test_reverse_single_character() {
    assert_eq!(reverse_string("a"), "a");
}

#[test]
fn test_reverse_with_spaces() {
    assert_eq!(reverse_string("hello world"), "dlrow olleh");
}

#[test]
fn test_reverse_palindrome() {
    assert_eq!(reverse_string("racecar"), "racecar");
}

#[test]
fn test_reverse_unicode() {
    assert_eq!(reverse_string("hello 🌍"), "🌍 olleh");
}

#[test]
fn test_count_simple_sentence() {
    assert_eq!(count_words("hello world"), 2);
}

#[test]
fn test_count_empty_string() {
    assert_eq!(count_words(""), 0);
}

#[test]
fn test_count_single_word() {
    assert_eq!(count_words("hello"), 1);
}

#[test]
fn test_count_with_multiple_spaces() {
    assert_eq!(count_words("  multiple   spaces  "), 2);
}

#[test]
fn test_count_whitespace_only() {
    assert_eq!(count_words("   "), 0);
}

#[test]
fn test_count_with_newlines() {
    assert_eq!(count_words("hello\nworld"), 2);
}

#[test]
fn test_title_case_lowercase() {
    assert_eq!(to_title_case("hello world"), "Hello World");
}

#[test]
fn test_title_case_uppercase() {
    assert_eq!(to_title_case("HELLO WORLD"), "Hello World");
}

#[test]
fn test_title_case_mixed() {
    assert_eq!(to_title_case("hElLo WoRlD"), "Hello World");
}

#[test]
fn test_title_case_empty() {
    assert_eq!(to_title_case(""), "");
}

#[test]
fn test_title_case_single_word() {
    assert_eq!(to_title_case("hello"), "Hello");
}

#[test]
fn test_reverse_twice_gives_the_text_back() {
    for text in ["", "a", "hello world", "hello 🌍", "ßtraße", "e\u{301}a", " \t\n"] {
        assert_eq!(reverse_string(&reverse_string(text)), text);
    }
}

#[test]
fn test_reverse_keeps_the_byte_length() {
    for text in ["", "a", "hello 🌍", "añ€🌍", "\u{7f}\u{80}\u{7ff}\u{800}\u{ffff}\u{10000}"] {
        assert_eq!(reverse_string(text).len(), text.len());
    }
}

#[test]
fn test_reverse_goes_by_scalar_values() {
    assert_eq!(reverse_string("añ€🌍"), "🌍€ña");
    assert_eq!(reverse_string("e\u{301}"), "\u{301}e");
}

#[test]
fn test_count_with_tabs_and_mixed_whitespace() {
    assert_eq!(count_words("one\ttwo\r\nthree \u{b}four\u{c}five"), 5);
    assert_eq!(count_words("\n\t leading and trailing \t\n"), 3);
}

#[test]
fn test_count_with_unicode_whitespace() {
    assert_eq!(count_words("a\u{a0}b\u{3000}c\u{2003}d\u{85}e\u{1680}f"), 6);
    assert_eq!(count_words("a\u{2028}b\u{2029}c\u{202f}d\u{205f}e\u{2000}f\u{200a}g"), 7);
}

#[test]
fn test_count_does_not_split_at_what_is_not_whitespace() {
    assert_eq!(count_words("a\u{200b}b"), 1);
    assert_eq!(count_words("a\u{180e}b"), 1);
    assert_eq!(count_words("a\u{feff}b"), 1);
    assert_eq!(count_words("a\u{1f}b\u{0}c"), 1);
    assert_eq!(count_words("a-b_c.d"), 1);
}

#[test]
fn test_whitespace_is_what_std_takes_for_it() {
    for c in ('\0'..=char::MAX).filter(|c| c.is_whitespace()) {
        assert_eq!(count_words(&format!("a{}b", c)), 2);
        assert_eq!(count_words(&c.to_string()), 0);
    }
    for c in ('\0'..='\u{ffff}').filter(|c| !c.is_whitespace()) {
        assert_eq!(count_words(&c.to_string()), 1);
    }
}

#[test]
fn test_count_is_at_most_the_length() {
    for text in ["", " ", "a", "a b c", "🌍 🌍", "  x  "] {
        assert!(count_words(text) <= text.chars().count());
        assert!(count_words(text) <= text.len());
    }
}

#[test]
fn test_title_case_whitespace_only() {
    assert_eq!(to_title_case("   "), "");
    assert_eq!(to_title_case("\t\n\u{3000}"), "");
}

#[test]
fn test_title_case_normalizes_whitespace() {
    assert_eq!(to_title_case("  hello \t\n world  "), "Hello World");
    assert_eq!(to_title_case("one\u{a0}two\u{3000}three"), "One Two Three");
}

#[test]
fn test_title_case_single_letters() {
    assert_eq!(to_title_case("a b c"), "A B C");
    assert_eq!(to_title_case("X"), "X");
}

#[test]
fn test_title_case_leaves_what_has_no_case() {
    assert_eq!(to_title_case("123 4five !wow"), "123 4five !wow");
    assert_eq!(to_title_case("🌍world"), "🌍world");
}

#[test]
fn test_title_case_first_letter_with_a_longer_uppercase() {
    assert_eq!(to_title_case("ßa"), "SSa");
    assert_eq!(to_title_case("ǆungla"), "Ǆungla");
}

#[test]
fn test_title_case_lowercases_the_rest_as_one_text() {
    assert_eq!(to_title_case("ΟΔΟΣ"), "Οδος");
    assert_eq!(to_title_case("ÉCOLE ÉTÉ"), "École Été");
    assert_eq!(to_title_case("aİ"), "Ai\u{307}");
}

#[test]
fn test_title_case_keeps_the_word_count() {
    for text in ["", "   ", "hello world", "  multiple   spaces  ", "ßa ΟΔΟΣ\tǆ", "a\nb\nc"] {
        assert_eq!(count_words(&to_title_case(text)), count_words(text));
    }
}

#[test]
fn test_title_case_twice_is_title_case() {
    for text in ["hello world", "  hElLo   WoRlD ", "a b c"] {
        let once = to_title_case(text);
        assert_eq!(to_title_case(&once), once);
    }
}

#[test]
fn test_join_words() {
    assert_eq!(join_words(&vec![]), "");
    assert_eq!(join_words(&vec![String::from("one")]), "one");
    assert_eq!(
        join_words(&vec![String::from("one"), String::from("two"), String::from("three")]),
        "one two three"
    );
}

#[test]
fn test_join_words_keeps_empty_texts() {
    assert_eq!(join_words(&vec![String::new(), String::new()]), " ");
    assert_eq!(join_words(&vec![String::from("a"), String::new(), String::from("b")]), "a  b");
}

#[test]
fn test_words_of_joined_words_are_as_many() {
    let words = vec![String::from("Hello"), String::from("🌍"), String::from("x")];
    assert_eq!(count_words(&join_words(&words)), 3);
}
