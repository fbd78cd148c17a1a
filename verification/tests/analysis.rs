use wordstats::analysis::count_rare;
use wordstats::analysis::sum_lengths;
use wordstats::analysis::Variation;
use wordstats::AnalysisError;
use wordstats::WordData;
use wordstats::WordFilter;
use wordstats::WordProcessor;

fn strings(words: &[&str]) -> Vec<String> {
    words.iter().map(|w| w.to_string()).collect()
}

fn entry(text: &str, count: usize) -> WordData {
    WordData { text: text.to_string(), count }
}

fn filter(words: &[&str]) -> Option<WordFilter> {
    Some(WordFilter::new(strings(words)))
}

fn report(unique_words: usize, total_words: usize) -> WordProcessor {
    WordProcessor {
        total_length: 0,
        total_words,
        rare_words: 0,
        unique_words,
        words: Vec::new(),
        bigrams: Vec::new(),
        trigrams: Vec::new(),
    }
}

#[test]
fn analysis_counts_words_pairs_and_triples() {
    let report = WordProcessor::from_str("a b b a b", None).unwrap();
    assert_eq!(report.words, vec![entry("b", 3), entry("a", 2)]);
    assert_eq!(report.bigrams, vec![entry("a b", 2), entry("b b", 1), entry("b a", 1)]);
    assert_eq!(report.trigrams, vec![entry("a b b", 1), entry("b b a", 1), entry("b a b", 1)]);
    assert_eq!(report.total_words, 5);
    assert_eq!(report.unique_words, 2);
    assert_eq!(report.rare_words, 0);
    assert_eq!(report.total_length, 2);
}

#[test]
fn counts_add_up_to_total_words_without_a_filter() {
    let text = "It was the best of times, it was the worst of times - it was the age of wisdom.";
    let report = WordProcessor::from_str(text, None).unwrap();
    let sum: usize = report.words.iter().map(|e| e.count).sum();
    assert_eq!(sum, report.total_words);
    assert_eq!(report.total_words, 18);
    assert_eq!(report.unique_words, report.words.len());
}

#[test]
fn every_count_is_at_least_one_and_rare_words_occur_once() {
    let text = "one two two three three three four";
    let report = WordProcessor::from_str(text, None).unwrap();
    assert!(report.words.iter().all(|e| e.count >= 1));
    assert!(report.bigrams.iter().all(|e| e.count >= 1));
    assert!(report.trigrams.iter().all(|e| e.count >= 1));
    assert_eq!(report.rare_words, report.words.iter().filter(|e| e.count == 1).count());
    assert_eq!(report.rare_words, 2);
}

#[test]
fn tables_are_ranked_by_falling_count() {
    let text = "c b c a b c d";
    let report = WordProcessor::from_str(text, None).unwrap();
    assert_eq!(report.words, vec![entry("c", 3), entry("b", 2), entry("a", 1), entry("d", 1)]);
    for table in [&report.words, &report.bigrams, &report.trigrams] {
        assert!(table.windows(2).all(|pair| pair[0].count >= pair[1].count));
    }
}

#[test]
fn stopwords_count_toward_total_words_but_not_toward_words() {
    let report = WordProcessor::from_str("the cat and the dog", filter(&["the", "and"])).unwrap();
    assert_eq!(report.total_words, 5);
    assert_eq!(report.unique_words, 2);
    assert_eq!(report.words, vec![entry("cat", 1), entry("dog", 1)]);
    assert_eq!(report.rare_words, 2);
    assert_eq!(report.total_length, 6);
}

#[test]
fn bigram_and_trigram_rejection() {
    let report = WordProcessor::from_str("the cat sat", filter(&["the"])).unwrap();
    assert_eq!(report.bigrams, vec![entry("cat sat", 1)]);
    assert_eq!(report.trigrams, Vec::<WordData>::new());
    assert_eq!(report.words, vec![entry("cat", 1), entry("sat", 1)]);
    assert_eq!(report.total_words, 3);
}

#[test]
fn without_a_filter_stopwords_take_part_in_every_table() {
    let report = WordProcessor::from_str("the cat sat", None).unwrap();
    assert_eq!(report.bigrams, vec![entry("the cat", 1), entry("cat sat", 1)]);
    assert_eq!(report.trigrams, vec![entry("the cat sat", 1)]);
}

#[test]
fn a_stopword_in_the_middle_rejects_both_pairs_and_the_triple() {
    let report = WordProcessor::from_str("cat the dog ran", filter(&["the"])).unwrap();
    assert_eq!(report.bigrams, vec![entry("dog ran", 1)]);
    assert_eq!(report.trigrams, Vec::<WordData>::new());
}

#[test]
fn empty_text_is_an_error() {
    assert_eq!(WordProcessor::from_str("", None), Err(AnalysisError::EmptyInput));
}

#[test]
fn text_without_a_word_is_an_error() {
    assert_eq!(WordProcessor::from_str("123 ... 4x4 !?", None), Err(AnalysisError::EmptyInput));
    assert_eq!(WordProcessor::from_str(" \n\t ", None), Err(AnalysisError::EmptyInput));
}

#[test]
fn text_of_stopwords_only_is_an_error() {
    assert_eq!(
        WordProcessor::from_str("the the The", filter(&["the"])),
        Err(AnalysisError::EmptyInput)
    );
}

#[test]
fn a_single_word_is_analysed() {
    let report = WordProcessor::from_str("Hello!", None).unwrap();
    assert_eq!(report.words, vec![entry("hello", 1)]);
    assert_eq!(report.bigrams, Vec::<WordData>::new());
    assert_eq!(report.trigrams, Vec::<WordData>::new());
    assert_eq!(report.total_words, 1);
    assert_eq!(report.unique_words, 1);
    assert_eq!(report.rare_words, 1);
    assert_eq!(report.total_length, 5);
}

#[test]
fn words_differing_in_case_are_one_word() {
    let report = WordProcessor::from_str("Word word WORD", None).unwrap();
    assert_eq!(report.words, vec![entry("word", 3)]);
    assert_eq!(report.bigrams, vec![entry("word word", 2)]);
}

#[test]
fn total_length_counts_characters_of_distinct_words() {
    let report = WordProcessor::from_str("\u{e9}t\u{e9} \u{e9}t\u{e9} no", None).unwrap();
    assert_eq!(report.total_length, 5);
    assert_eq!(report.unique_words, 2);
    let average = report.total_length as f64 / report.unique_words as f64;
    assert!((average - 2.5).abs() < 1e-12);
}

#[test]
fn type_token_ratio_is_unique_over_total() {
    let report = WordProcessor::from_str("a b b c c c d d d d", None).unwrap();
    let ratio = report.unique_words as f64 / report.total_words as f64;
    assert!((ratio - 0.4).abs() < 1e-12);
    assert_eq!(report.variation(), Variation::High);
}

#[test]
fn retokenizing_the_joined_words_gives_the_words() {
    let report = WordProcessor::from_str("Never odd, or even. Never!", None).unwrap();
    let keys: Vec<String> = report.words.iter().map(|e| e.text.clone()).collect();
    let again = WordProcessor::from_str(&keys.join(" "), None).unwrap();
    let mut first = keys.clone();
    let mut second: Vec<String> = again.words.iter().map(|e| e.text.clone()).collect();
    first.sort();
    second.sort();
    assert_eq!(first, second);
    assert!(again.words.iter().all(|e| e.count == 1));
}

#[test]
fn variation_buckets_at_their_bounds() {
    assert_eq!(report(4, 100).variation(), Variation::Low);
    assert_eq!(report(5, 100).variation(), Variation::Medium);
    assert_eq!(report(14, 100).variation(), Variation::Medium);
    assert_eq!(report(15, 100).variation(), Variation::MediumHigh);
    assert_eq!(report(29, 100).variation(), Variation::MediumHigh);
    assert_eq!(report(30, 100).variation(), Variation::High);
    assert_eq!(report(100, 100).variation(), Variation::High);
    assert_eq!(report(1, 21).variation(), Variation::Low);
    assert_eq!(report(1, 20).variation(), Variation::Medium);
    assert_eq!(report(3, 20).variation(), Variation::MediumHigh);
    assert_eq!(report(3, 10).variation(), Variation::High);
}

#[test]
fn variation_without_words_is_high() {
    assert_eq!(report(0, 0).variation(), Variation::High);
}

#[test]
fn variation_of_the_largest_counts_does_not_overflow() {
    assert_eq!(report(usize::MAX, usize::MAX).variation(), Variation::High);
    assert_eq!(report(1, usize::MAX).variation(), Variation::Low);
}

#[test]
fn variation_strings() {
    assert_eq!(report(1, 100).get_variation_string(), "low variation");
    assert_eq!(report(10, 100).get_variation_string(), "medium variation");
    assert_eq!(report(20, 100).get_variation_string(), "medium-high variation");
    assert_eq!(report(50, 100).get_variation_string(), "high variation");
    assert_eq!(Variation::MediumHigh.name(), "medium-high variation");
}

#[test]
fn count_rare_and_sum_lengths() {
    let table = vec![entry("abc", 1), entry("de", 2), entry("f", 1)];
    assert_eq!(count_rare(&table), 2);
    assert_eq!(sum_lengths(&table), 6);
    assert_eq!(count_rare(&Vec::new()), 0);
    assert_eq!(sum_lengths(&Vec::new()), 0);
}
