use passrs::fuzzy::{split_word, word_splits, ClosestMatch};

fn dictionary() -> Vec<String> {
    ["hello".to_string(), "bullo".to_string(), "hello world".to_string()].to_vec()
}

#[test]
fn it_works() {
    let cm = ClosestMatch::new(
        ["hello".to_string(), "bullo".to_string(), "hello world".to_string()].to_vec(),
        [1, 2, 3].to_vec(),
    );
    let closest = cm.get_closest(&"hlo".to_string());
    println!("{:?}", closest);
    assert_eq!(closest, Some("hello".to_string()));
}

#[test]
fn closest_prefers_highest_share() {
    let cm = ClosestMatch::new(dictionary(), vec![1, 2, 3]);
    assert_eq!(cm.get_closest("bul"), Some("bullo".to_string()));
    assert_eq!(cm.get_closest("world"), Some("hello world".to_string()));
}

#[test]
fn closest_is_lower_case() {
    let cm = ClosestMatch::new(vec!["HeLLo".to_string(), "Other".to_string()], vec![2]);
    assert_eq!(cm.get_closest("HELL"), Some("hello".to_string()));
}

#[test]
fn closest_on_empty_dictionary_is_none() {
    let cm = ClosestMatch::new(Vec::new(), vec![1, 2]);
    assert_eq!(cm.get_closest("abc"), None);
    assert!(cm.get_closest_n("abc", 3).is_empty());
}

#[test]
fn closest_n_repeats_the_best() {
    let cm = ClosestMatch::new(dictionary(), vec![1, 2, 3]);
    assert_eq!(
        cm.get_closest_n("hlo", 3),
        vec!["hello".to_string(), "hello".to_string(), "hello".to_string()]
    );
    assert!(cm.get_closest_n("hlo", 0).is_empty());
}

#[test]
fn ties_go_to_the_later_word() {
    // "ab" and "ba" share the same one-letter substrings with "x", none at
    // all: both score 0, and the later one is kept.
    let cm = ClosestMatch::new(vec!["ab".to_string(), "ba".to_string()], vec![1]);
    assert_eq!(cm.get_closest("x"), Some("ba".to_string()));
}

#[test]
fn nan_score_keeps_the_first_word() {
    // With no size that fits, every substring set is empty: 0 / 0 for every
    // word, and the first word is never replaced.
    let cm = ClosestMatch::new(vec!["ab".to_string(), "cd".to_string()], vec![5]);
    assert_eq!(cm.get_closest("x"), Some("ab".to_string()));
}

#[test]
fn split_word_takes_every_window_once() {
    let sw = split_word("ABA", &[1, 2, 5]);
    assert_eq!(sw.word, "ABA");
    let mut subs = sw.substrings.clone();
    subs.sort();
    assert_eq!(subs, vec!["a".to_string(), "ab".to_string(), "b".to_string(), "ba".to_string()]);
}

#[test]
fn word_splits_checks_char_boundaries() {
    assert!(word_splits("abc", &[1, 2]));
    assert!(word_splits("é", &[2]));
    assert!(!word_splits("é", &[1]));
    assert!(!word_splits("é", &[0]));
}

#[test]
fn try_new_refuses_words_cut_inside_a_character() {
    assert!(ClosestMatch::try_new(vec!["é".to_string()], vec![1]).is_none());
    let cm = ClosestMatch::try_new(vec!["abc".to_string()], vec![1]).unwrap();
    assert_eq!(cm.get_closest("b"), Some("abc".to_string()));
}

#[test]
fn answers_are_lower_cased_dictionary_words() {
    let cm = ClosestMatch::new(vec!["Hello".to_string(), "HELLO".to_string(), "World".to_string()], vec![2, 3]);
    let answer = cm.get_closest("helo").unwrap();
    assert!(answer == "hello" || answer == "world");
    assert_eq!(cm.get_closest_n("helo", 1), vec![answer.clone()]);
    assert_eq!(cm.get_closest_n("helo", 0), Vec::<String>::new());
    assert_eq!(cm.get_closest_n("helo", 3), vec![answer.clone(), answer.clone(), answer]);
    let empty = ClosestMatch::new(Vec::new(), vec![2]);
    assert_eq!(empty.get_closest("helo"), None);
    assert!(empty.get_closest_n("helo", 4).is_empty());
}
