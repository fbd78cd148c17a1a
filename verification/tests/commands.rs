use wordstats::commands::FilterSource;
use wordstats::commands::Task;
use wordstats::listing::NgramOrder;
use wordstats::listing::RankedEntry;
use wordstats::AnalysisError;
use wordstats::Commands;
use wordstats::FileArgs;
use wordstats::WordProcessor;

fn commands() -> Commands {
    Commands {
        file_args: FileArgs { analyze: Some("text.txt".to_string()), compare: None },
        analyze_stopwords: false,
        top: None,
        diversity: false,
        out: None,
        n_grams: None,
        custom_filter: None,
        concordance: None,
        max: None,
        cloud: false,
        width: 40,
    }
}

fn ranked(rank: usize, text: &str, count: usize) -> RankedEntry {
    RankedEntry { rank, text: text.to_string(), count }
}

#[test]
fn top_beyond_the_words_gives_all_and_says_so() {
    let report = WordProcessor::from_str("a b b", None).unwrap();
    let listing = Commands { top: Some(10), ..commands() }.top(&report).unwrap();
    assert_eq!(listing.entries, vec![ranked(1, "b", 2), ranked(2, "a", 1)]);
    assert!(listing.exceeds);
    assert_eq!(listing.requested, 10);
    assert_eq!(listing.unique_words, 2);
    assert_eq!(listing.order, NgramOrder::Words);
    let percent = 100.0 * listing.entries[0].count as f64 / listing.unique_words as f64;
    assert!((percent - 100.0).abs() < 1e-9);
}

#[test]
fn top_within_the_words_does_not_exceed() {
    let report = WordProcessor::from_str("a b b c c c", None).unwrap();
    let listing = Commands { top: Some(2), ..commands() }.top(&report).unwrap();
    assert_eq!(listing.entries, vec![ranked(1, "c", 3), ranked(2, "b", 2)]);
    assert!(!listing.exceeds);
    let listing = Commands { top: Some(3), ..commands() }.top(&report).unwrap();
    assert_eq!(listing.entries.len(), 3);
    assert!(!listing.exceeds);
}

#[test]
fn top_is_none_where_not_asked_for() {
    let report = WordProcessor::from_str("a b b", None).unwrap();
    assert_eq!(commands().top(&report), None);
}

#[test]
fn top_lists_pairs_and_triples_by_order() {
    let report = WordProcessor::from_str("a b a b c", None).unwrap();
    let pairs = Commands { top: Some(1), n_grams: Some(2), ..commands() }.top(&report).unwrap();
    assert_eq!(pairs.order, NgramOrder::Bigrams);
    assert_eq!(pairs.entries, vec![ranked(1, "a b", 2)]);
    assert_eq!(pairs.unique_words, 3);
    let triples = Commands { top: Some(9), n_grams: Some(3), ..commands() }.top(&report).unwrap();
    assert_eq!(triples.order, NgramOrder::Trigrams);
    assert_eq!(triples.entries.len(), 3);
    assert!(triples.exceeds);
}

#[test]
fn top_below_one_lists_nothing() {
    let report = WordProcessor::from_str("a b b", None).unwrap();
    let listing = Commands { top: Some(0), ..commands() }.top(&report).unwrap();
    assert!(listing.entries.is_empty());
    assert!(!listing.exceeds);
    let listing = Commands { top: Some(-4), ..commands() }.top(&report).unwrap();
    assert!(listing.entries.is_empty());
    assert_eq!(listing.requested, 0);
}

#[test]
fn diversity_only_where_asked_for() {
    let report = WordProcessor::from_str("a bb a", None).unwrap();
    assert_eq!(commands().diversity(&report), None);
    let summary = Commands { diversity: true, ..commands() }.diversity(&report).unwrap();
    assert_eq!(summary.total_words, 3);
    assert_eq!(summary.unique_words, 2);
    assert_eq!(summary.longest_word, "bb");
    assert_eq!(summary.rare_words, 1);
}

#[test]
fn filter_source_follows_the_options() {
    assert_eq!(commands().filter_source(), FilterSource::BuiltIn);
    let custom = Commands { custom_filter: Some("stop.json".to_string()), ..commands() };
    assert_eq!(custom.filter_source(), FilterSource::Custom { path: "stop.json".to_string() });
    let all = Commands { analyze_stopwords: true, custom_filter: Some("stop.json".to_string()), ..commands() };
    assert_eq!(all.filter_source(), FilterSource::Off);
}

#[test]
fn word_filter_is_read_unless_stopwords_are_analysed() {
    let filter = commands().get_word_filter("[\"the\"]").unwrap().unwrap();
    assert!(filter.contains("the"));
    assert!(!filter.contains("cat"));
    let all = Commands { analyze_stopwords: true, ..commands() };
    assert!(all.get_word_filter("[\"the\"]").unwrap().is_none());
    assert!(all.get_word_filter("no json").unwrap().is_none());
}

#[test]
fn word_filter_that_is_no_json_is_a_format_error() {
    assert!(matches!(commands().get_word_filter("the"), Err(AnalysisError::Format { .. })));
}

#[test]
fn handle_commands_analyses_the_one_text() {
    assert_eq!(commands().handle_commands(), Task::Analyze { path: "text.txt".to_string() });
}

#[test]
fn handle_commands_compares_two_texts_and_names_what_is_ignored() {
    let run = Commands {
        file_args: FileArgs {
            analyze: None,
            compare: Some(vec!["one.txt".to_string(), "two.txt".to_string()]),
        },
        top: Some(3),
        cloud: true,
        out: Some("report.json".to_string()),
        ..commands()
    };
    assert_eq!(
        run.handle_commands(),
        Task::Compare {
            first: "one.txt".to_string(),
            second: "two.txt".to_string(),
            ignored: vec!["top".to_string(), "out".to_string(), "cloud".to_string()],
        }
    );
}

#[test]
fn handle_commands_without_a_text_is_idle() {
    let run = Commands { file_args: FileArgs { analyze: None, compare: None }, ..commands() };
    assert_eq!(run.handle_commands(), Task::Idle);
}

#[test]
fn ignored_options_come_in_a_fixed_order() {
    let run = Commands {
        analyze_stopwords: true,
        top: Some(1),
        n_grams: Some(2),
        concordance: Some("x".to_string()),
        out: Some("o".to_string()),
        cloud: true,
        diversity: true,
        ..commands()
    };
    assert_eq!(
        run.ignored_options(),
        vec!["analyze_stopwords", "top", "n_grams", "concordance", "out", "cloud"]
    );
    assert!(commands().ignored_options().is_empty());
}

#[test]
fn concordance_only_where_a_needle_is_set() {
    assert_eq!(commands().concordance("one two three"), None);
    let run = Commands { concordance: Some("two".to_string()), max: Some(1), ..commands() };
    let found = run.concordance("one two three two").unwrap();
    assert_eq!(found.lines.len(), 1);
    assert_eq!(found.suppressed, 1);
    assert_eq!(found.lines[0].render(), "one *two* three two");
}

#[test]
fn cloud_only_where_asked_for() {
    let report = WordProcessor::from_str("a b b c c c", None).unwrap();
    assert_eq!(commands().cloud(&report), None);
    let cloud = Commands { cloud: true, width: 6, ..commands() }.cloud(&report).unwrap();
    assert!(cloud.is_done());
    assert_eq!(cloud.width, 6);
    let mut placed: Vec<String> = cloud
        .lines
        .iter()
        .chain(std::iter::once(&cloud.line))
        .flat_map(|line| line.split_whitespace().map(|w| w.to_string()).collect::<Vec<_>>())
        .collect();
    placed.sort();
    assert_eq!(placed, vec!["A", "B", "C"]);
}
