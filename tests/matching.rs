use word_finder::dictionary::get_word_list;
use word_finder::matcher::{fits_pattern, get_possible_words};
use word_finder::prompt::{max_words_outcome, word_count_outcome, LoopControl};
use word_finder::resolver::get_all_pos_words;
use word_finder::text::{chars_of, remove_newline};

fn dict(words: &[&str]) -> Vec<String> {
    words.iter().map(|w| w.to_string()).collect()
}

fn phrase(words: &[&str]) -> Vec<String> {
    dict(words)
}

#[test]
fn wildcard_in_middle_matches_in_dictionary_order() {
    let d = dict(&["cat", "car", "cot", "dog"]);
    assert_eq!(get_possible_words(&d, 10, "c t"), vec!["cat", "cot"]);
}

#[test]
fn limit_stops_the_scan_early() {
    let d = dict(&["cat", "car", "cot"]);
    assert_eq!(get_possible_words(&d, 1, "c t"), vec!["cat"]);
}

#[test]
fn all_wildcards_match_only_equal_length() {
    let d = dict(&["ox", "cat"]);
    assert_eq!(get_possible_words(&d, 5, "  "), vec!["ox"]);
}

#[test]
fn literals_compare_case_insensitively() {
    let d = dict(&["cat"]);
    assert_eq!(get_possible_words(&d, 3, "CAT"), vec!["cat"]);
    let d = dict(&["Dog", "DOT"]);
    assert_eq!(get_possible_words(&d, 3, "do "), vec!["dog", "dot"]);
}

#[test]
fn results_have_the_pattern_length() {
    let d = dict(&["a", "ab", "abc", "xy", "abcd"]);
    let r = get_possible_words(&d, 10, "  ");
    assert_eq!(r, vec!["ab", "xy"]);
    for w in &r {
        assert_eq!(w.chars().count(), 2);
    }
}

#[test]
fn results_agree_with_literals() {
    let d = dict(&["bat", "bit", "bot", "but", "tab"]);
    let r = get_possible_words(&d, 10, "b t");
    assert_eq!(r, vec!["bat", "bit", "bot", "but"]);
    for w in &r {
        let cs: Vec<char> = w.chars().collect();
        assert_eq!(cs[0], 'b');
        assert_eq!(cs[2], 't');
    }
}

#[test]
fn first_n_qualifying_entries() {
    let d = dict(&["zz", "w1", "yy", "w2", "w3"]);
    assert_eq!(get_possible_words(&d, 2, "w "), vec!["w1", "w2"]);
    assert_eq!(get_possible_words(&d, 3, "w "), vec!["w1", "w2", "w3"]);
    assert_eq!(get_possible_words(&d, 7, "w "), vec!["w1", "w2", "w3"]);
}

#[test]
fn all_wildcards_with_large_limit_give_every_word_of_that_length() {
    let d = dict(&["Ab", "abc", "CD", "e", "fg"]);
    assert_eq!(get_possible_words(&d, 3, "  "), vec!["ab", "cd", "fg"]);
}

#[test]
fn no_match_is_an_empty_result() {
    let d = dict(&["cat", "dog"]);
    assert!(get_possible_words(&d, 4, "x  ").is_empty());
    assert!(get_possible_words(&d, 4, "cats").is_empty());
}

#[test]
fn empty_pattern_matches_empty_entries_only() {
    let d = get_word_list("cat\ndog\n");
    assert_eq!(get_possible_words(&d, 5, ""), vec![""]);
    let d = dict(&["cat"]);
    assert!(get_possible_words(&d, 5, "").is_empty());
}

#[test]
fn loader_splits_on_line_feeds() {
    assert_eq!(get_word_list("cat\ncar\ncot"), vec!["cat", "car", "cot"]);
}

#[test]
fn loader_keeps_trailing_empty_entry() {
    assert_eq!(get_word_list("ox\ncat\n"), vec!["ox", "cat", ""]);
    assert_eq!(get_word_list(""), vec![""]);
    assert_eq!(get_word_list("\n\n"), vec!["", "", ""]);
}

#[test]
fn loader_does_not_trim_or_lowercase() {
    assert_eq!(get_word_list(" Cat\r\ncat"), vec![" Cat\r", "cat"]);
}

#[test]
fn resolve_keeps_order_and_counts_the_largest_set() {
    let d = dict(&["cat", "car", "cot", "dog", "ox"]);
    let (sets, most) = get_all_pos_words(&d, 10, &phrase(&["c t", "  ", "zzz"]));
    assert_eq!(sets.len(), 3);
    assert_eq!(sets[0], vec!["cat", "cot"]);
    assert_eq!(sets[1], vec!["ox"]);
    assert!(sets[2].is_empty());
    assert_eq!(most, 2);
}

#[test]
fn resolve_words_are_independent() {
    let d = dict(&["cat", "car", "cot"]);
    let (sets, most) = get_all_pos_words(&d, 2, &phrase(&["ca ", "ca "]));
    assert_eq!(sets[0], vec!["cat", "car"]);
    assert_eq!(sets[1], vec!["cat", "car"]);
    assert_eq!(most, 2);
}

#[test]
fn resolve_max_is_zero_when_all_empty() {
    let d = dict(&["cat"]);
    let (sets, most) = get_all_pos_words(&d, 3, &phrase(&["q", "zz"]));
    assert_eq!(sets.len(), 2);
    assert_eq!(most, 0);
    let (sets, most) = get_all_pos_words(&d, 3, &phrase(&[]));
    assert!(sets.is_empty());
    assert_eq!(most, 0);
}

#[test]
fn fits_pattern_exact_cases() {
    assert!(fits_pattern("c t", "cat"));
    assert!(!fits_pattern("c t", "car"));
    assert!(!fits_pattern("c t", "cats"));
    assert!(fits_pattern("   ", "xyz"));
    assert!(fits_pattern("", ""));
    assert!(!fits_pattern("CAT", "cat"));
}

#[test]
fn chars_of_keeps_order() {
    assert_eq!(chars_of("héllo"), vec!['h', 'é', 'l', 'l', 'o']);
    assert!(chars_of("").is_empty());
}

#[test]
fn remove_newline_drops_line_breaks_only() {
    assert_eq!(remove_newline("c t\r\n".to_string()), "c t");
    assert_eq!(remove_newline("a\nb\rc".to_string()), "abc");
    assert_eq!(remove_newline(String::new()), "");
}

#[test]
fn word_count_outcomes() {
    assert_eq!(word_count_outcome(Some(3)), Ok(3));
    assert_eq!(word_count_outcome(Some(0)), Err(LoopControl::Exit));
    assert_eq!(word_count_outcome(Some(-2)), Err(LoopControl::Restart));
    assert_eq!(word_count_outcome(None), Err(LoopControl::Restart));
}

#[test]
fn max_words_outcomes() {
    assert_eq!(max_words_outcome(Some(1)), Ok(1));
    assert_eq!(max_words_outcome(Some(0)), Err(LoopControl::Restart));
    assert_eq!(max_words_outcome(Some(-5)), Err(LoopControl::Restart));
    assert_eq!(max_words_outcome(None), Err(LoopControl::Restart));
}
