use wordstats::tokenizer::is_word_str;
use wordstats::tokenizer::split;
use wordstats::tokenizer::split_whitespace;
use wordstats::tokenizer::tokenize;
use wordstats::tokenizer::Separators;

fn strings(words: &[&str]) -> Vec<String> {
    words.iter().map(|w| w.to_string()).collect()
}

#[test]
fn tokenize_lowercases_and_splits_on_whitespace() {
    assert_eq!(tokenize("The Cat SAT"), strings(&["the", "cat", "sat"]));
}

#[test]
fn tokenize_splits_on_each_punctuation_mark() {
    assert_eq!(
        tokenize("a,b.c\"d!e?f-g\u{2014}h"),
        strings(&["a", "b", "c", "d", "e", "f", "g", "h"])
    );
}

#[test]
fn tokenize_splits_on_tabs_and_newlines() {
    assert_eq!(tokenize("one\ttwo\nthree\r\nfour"), strings(&["one", "two", "three", "four"]));
}

#[test]
fn tokenize_splits_on_unicode_whitespace() {
    assert_eq!(tokenize("left\u{a0}right\u{3000}end"), strings(&["left", "right", "end"]));
}

#[test]
fn tokenize_drops_empty_pieces_between_separators() {
    assert_eq!(tokenize("  hello,,  world..  "), strings(&["hello", "world"]));
}

#[test]
fn tokenize_rejects_a_piece_with_a_digit_whole() {
    assert_eq!(tokenize("abc123 def"), strings(&["def"]));
}

#[test]
fn tokenize_rejects_a_piece_with_an_apostrophe_whole() {
    assert_eq!(tokenize("it's fine"), strings(&["fine"]));
}

#[test]
fn tokenize_rejects_a_piece_that_starts_with_letters_and_ends_otherwise() {
    assert_eq!(tokenize("word; next"), strings(&["next"]));
}

#[test]
fn tokenize_keeps_letters_of_other_scripts() {
    assert_eq!(tokenize("Stra\u{df}e \u{c9}COLE \u{4eac}"), strings(&["stra\u{df}e", "\u{e9}cole", "\u{4eac}"]));
}

#[test]
fn tokenize_of_empty_text_is_empty() {
    assert_eq!(tokenize(""), Vec::<String>::new());
}

#[test]
fn tokenize_of_punctuation_only_is_empty() {
    assert_eq!(tokenize("... --- !!! 123"), Vec::<String>::new());
}

#[test]
fn tokenize_keeps_the_order_and_the_repeats() {
    assert_eq!(tokenize("b a b a a"), strings(&["b", "a", "b", "a", "a"]));
}

#[test]
fn tokenize_is_at_rest_on_its_own_output() {
    let tokens = tokenize("The quick, brown fox. The lazy dog!");
    let text = tokens.join(" ");
    assert_eq!(text, "the quick brown fox the lazy dog");
    assert_eq!(tokenize(&text), tokens);
}

#[test]
fn split_gives_one_piece_more_than_separators() {
    assert_eq!(split("a,,b", Separators::WordBreaks), strings(&["a", "", "b"]));
    assert_eq!(split("", Separators::WordBreaks), strings(&[""]));
    assert_eq!(split(",", Separators::WordBreaks), strings(&["", ""]));
}

#[test]
fn split_on_whitespace_leaves_punctuation_alone() {
    assert_eq!(split("a,b c", Separators::Whitespace), strings(&["a,b", "c"]));
}

#[test]
fn split_does_not_change_the_case() {
    assert_eq!(split("Ab Cd", Separators::WordBreaks), strings(&["Ab", "Cd"]));
}

#[test]
fn separators_tell_breaks_from_letters() {
    assert!(Separators::WordBreaks.separates(' '));
    assert!(Separators::WordBreaks.separates('\n'));
    assert!(Separators::WordBreaks.separates('\u{2014}'));
    assert!(Separators::WordBreaks.separates('-'));
    assert!(!Separators::WordBreaks.separates('a'));
    assert!(!Separators::WordBreaks.separates(';'));
    assert!(Separators::Whitespace.separates('\t'));
    assert!(!Separators::Whitespace.separates(','));
}

#[test]
fn split_whitespace_keeps_words_as_they_stand() {
    assert_eq!(
        split_whitespace("  Hello,  World!\nbye "),
        strings(&["Hello,", "World!", "bye"])
    );
    assert_eq!(split_whitespace(" \t "), Vec::<String>::new());
}

#[test]
fn is_word_str_wants_letters_only_and_at_least_one() {
    assert!(is_word_str("hello"));
    assert!(is_word_str("\u{e9}t\u{e9}"));
    assert!(!is_word_str(""));
    assert!(!is_word_str("a1"));
    assert!(!is_word_str("a b"));
}
