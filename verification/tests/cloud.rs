use wordstats::cloud::blank;
use wordstats::cloud::center;
use wordstats::cloud::CloudWord;
use wordstats::cloud::WordCloud;
use wordstats::WordData;

fn entry(text: &str, count: usize) -> WordData {
    WordData { text: text.to_string(), count }
}

fn table(len: usize) -> Vec<WordData> {
    (0..len).map(|i| entry(&format!("w{}", (b'a' + i as u8) as char), len - i)).collect()
}

#[test]
fn blank_is_spaces() {
    assert_eq!(blank(0), "");
    assert_eq!(blank(3), "   ");
}

#[test]
fn center_puts_the_odd_space_on_the_right() {
    assert_eq!(center("CAT ", 7), " CAT   ");
    assert_eq!(center("ab", 6), "  ab  ");
    assert_eq!(center("ab", 3), "ab ");
    assert_eq!(center("", 2), "  ");
}

#[test]
fn center_leaves_a_wide_line_alone() {
    assert_eq!(center("abcdef", 6), "abcdef");
    assert_eq!(center("abcdef", 3), "abcdef");
    assert_eq!(center("abc", 0), "abc");
}

#[test]
fn center_counts_characters() {
    assert_eq!(center("\u{e9}\u{e9}", 4), " \u{e9}\u{e9} ");
}

#[test]
fn new_cloud_holds_the_first_thirty_words() {
    let cloud = WordCloud::new(&table(26), 40);
    assert_eq!(cloud.remaining.len(), 26);
    assert_eq!(cloud.remaining[0], CloudWord { rank: 0, text: "wa".to_string() });
    assert_eq!(cloud.remaining[25].rank, 25);
    assert_eq!(cloud.width, 40);
    assert_eq!(cloud.line, "");
    assert_eq!(cloud.streak, 0);
    assert!(cloud.lines.is_empty());
    let words: Vec<WordData> = (0..45).map(|i| entry(&format!("w{}", i), 50 - i)).collect();
    let cloud = WordCloud::new(&words, 40);
    assert_eq!(cloud.remaining.len(), 30);
    assert_eq!(cloud.remaining[29].text, "w29");
}

#[test]
fn placing_writes_the_most_frequent_words_in_capitals() {
    let mut cloud = WordCloud::new(&vec![entry("cat", 2), entry("dog", 1)], 10);
    assert!(cloud.place(0));
    assert_eq!(cloud.line, "CAT ");
    assert_eq!(cloud.streak, 1);
    assert!(cloud.place(0));
    assert_eq!(cloud.line, "CAT DOG ");
    assert_eq!(cloud.streak, 2);
    assert!(cloud.is_done());
    assert!(cloud.lines.is_empty());
}

#[test]
fn placing_finishes_the_line_when_the_width_is_reached() {
    let mut cloud = WordCloud::new(&vec![entry("cat", 2), entry("dog", 1)], 7);
    assert!(cloud.place(1));
    assert_eq!(cloud.line, "DOG ");
    assert!(cloud.place(0));
    assert_eq!(cloud.lines, vec![" DOG   ".to_string()]);
    assert_eq!(cloud.line, "CAT ");
    assert_eq!(cloud.streak, 1);
}

#[test]
fn placing_does_not_break_just_below_the_width() {
    let mut cloud = WordCloud::new(&vec![entry("cat", 2), entry("dog", 1)], 8);
    assert!(cloud.place(0));
    assert!(cloud.place(0));
    assert_eq!(cloud.line, "CAT DOG ");
    assert!(cloud.lines.is_empty());
}

#[test]
fn placing_a_word_as_wide_as_the_line_finishes_an_empty_line() {
    let mut cloud = WordCloud::new(&vec![entry("elephant", 1)], 5);
    assert!(cloud.place(0));
    assert_eq!(cloud.lines, vec!["     ".to_string()]);
    assert_eq!(cloud.line, "ELEPHANT ");
}

#[test]
fn placing_out_of_range_changes_nothing() {
    let mut cloud = WordCloud::new(&vec![entry("cat", 2)], 10);
    let before = cloud.clone();
    assert!(!cloud.place(1));
    assert_eq!(cloud, before);
    assert!(!cloud.allows(7));
    assert!(cloud.allows(0));
}

#[test]
fn words_below_the_tenth_are_written_as_they_are() {
    let mut cloud = WordCloud::new(&table(12), 100);
    assert!(cloud.place(11));
    assert_eq!(cloud.line, "wl ");
    assert_eq!(cloud.streak, 0);
    assert!(cloud.place(9));
    assert_eq!(cloud.line, "wl WJ ");
    assert_eq!(cloud.streak, 1);
    assert!(cloud.place(9));
    assert_eq!(cloud.line, "wl WJ wk ");
    assert_eq!(cloud.streak, 1);
}

#[test]
fn after_four_capitalized_words_the_others_are_preferred() {
    let mut cloud = WordCloud::new(&table(12), 1000);
    for _ in 0..3 {
        assert!(!cloud.avoids_emphasis());
        assert!(cloud.place(0));
    }
    assert_eq!(cloud.streak, 3);
    assert!(!cloud.avoids_emphasis());
    assert!(cloud.place(0));
    assert_eq!(cloud.streak, 4);
    assert!(cloud.avoids_emphasis());
    assert_eq!(cloud.plain_places(), vec![6, 7]);
    let before = cloud.clone();
    assert!(!cloud.allows(0));
    assert!(!cloud.place(0));
    assert_eq!(cloud, before);
    assert!(cloud.place(6));
    assert!(cloud.avoids_emphasis());
    assert!(cloud.place(6));
    // no other word is left, so capitalized words are allowed again
    assert!(!cloud.avoids_emphasis());
    assert!(cloud.plain_places().is_empty());
    assert!(cloud.place(0));
    assert_eq!(cloud.streak, 5);
    assert_eq!(cloud.line, "WA WB WC WD wk wl WE ");
}

#[test]
fn a_finished_line_ends_the_streak() {
    let mut cloud = WordCloud::new(&table(12), 12);
    for _ in 0..4 {
        assert!(cloud.place(0));
    }
    // "WA WB WC WD " is twelve wide: the next word finishes the line
    assert_eq!(cloud.streak, 4);
    assert!(cloud.place(6));
    assert_eq!(cloud.lines, vec!["WA WB WC WD ".to_string()]);
    assert_eq!(cloud.streak, 0);
    assert_eq!(cloud.line, "wk ");
    assert!(cloud.place(0));
    assert_eq!(cloud.streak, 1);
}

#[test]
fn scatter_places_every_word_once() {
    let words: Vec<WordData> = (0..35).map(|i| entry(&format!("word{}", (b'a' + i as u8) as char), 40 - i)).collect();
    for _ in 0..20 {
        let cloud = WordCloud::scatter(&words, 40);
        assert!(cloud.is_done());
        let mut placed: Vec<String> = Vec::new();
        for line in cloud.lines.iter().chain(std::iter::once(&cloud.line)) {
            placed.extend(line.split_whitespace().map(|w| w.to_string()));
        }
        placed.sort();
        let mut expected: Vec<String> = words
            .iter()
            .take(30)
            .enumerate()
            .map(|(i, e)| if i < 10 { e.text.to_uppercase() } else { e.text.clone() })
            .collect();
        expected.sort();
        assert_eq!(placed, expected);
    }
}

#[test]
fn scatter_centers_every_finished_line_to_the_width() {
    let words: Vec<WordData> = (0..30).map(|i| entry(&format!("w{}", (b'a' + i as u8) as char), 40 - i)).collect();
    for _ in 0..20 {
        let cloud = WordCloud::scatter(&words, 24);
        assert!(!cloud.lines.is_empty());
        for line in &cloud.lines {
            assert_eq!(line.chars().count(), 24);
            assert!(!line.trim().is_empty());
        }
    }
}

#[test]
fn scatter_never_writes_more_than_four_capitalized_words_before_the_others_run_out() {
    let words: Vec<WordData> = (0..30).map(|i| entry(&format!("w{}", (b'a' + i as u8) as char), 40 - i)).collect();
    for _ in 0..50 {
        // one long line: the streak never ends, so after four capitalized
        // words every plain word comes before the fifth
        let cloud = WordCloud::scatter(&words, 10_000);
        assert!(cloud.lines.is_empty());
        let placed: Vec<&str> = cloud.line.split_whitespace().collect();
        assert_eq!(placed.len(), 30);
        let fifth = placed
            .iter()
            .enumerate()
            .filter(|(_, w)| w.chars().all(|c| c.is_uppercase()))
            .map(|(i, _)| i)
            .nth(4)
            .unwrap();
        assert_eq!(fifth, 24);
    }
}

#[test]
fn scatter_of_nothing_is_empty() {
    let cloud = WordCloud::scatter(&Vec::new(), 40);
    assert!(cloud.is_done());
    assert!(cloud.lines.is_empty());
    assert_eq!(cloud.line, "");
}
