use bigtea_arch::args::{
    bias_parts, count_from, count_or, finish_prompt, flag_names, flag_of, opening, read_args,
    take_word, takes_value, Flag, Given, Opening,
};

fn words(line: &[&str]) -> Vec<String> {
    line.iter().map(|s| s.to_string()).collect()
}

fn spelled(given: &[Given]) -> Vec<String> {
    given
        .iter()
        .map(|g| match g {
            Given::Word(w) => format!("word {w}"),
            Given::Setting { flag, value, .. } => format!("{flag:?} {value:?}"),
        })
        .collect()
}

#[test]
fn a_line_is_read_from_left_to_right() {
    let line = words(&["hello", "-n", "12", "--chat", "--temperature", "0.5", "again"]);
    assert_eq!(
        spelled(&read_args(&line)),
        vec![
            "word hello".to_string(),
            "Predict Some(\"12\")".to_string(),
            "Chat None".to_string(),
            "Temperature Some(\"0.5\")".to_string(),
            "word again".to_string(),
        ]
    );
}

#[test]
fn a_value_is_taken_even_where_it_looks_like_a_flag() {
    let line = words(&["--stop", "--chat", "-r"]);
    assert_eq!(
        spelled(&read_args(&line)),
        vec!["Stop Some(\"--chat\")".to_string(), "Stop None".to_string()]
    );
    assert!(read_args(&vec![]).is_empty());
}

#[test]
fn spellings_share_their_setting() {
    assert_eq!(flag_of("-ctk"), Some(Flag::CacheType));
    assert_eq!(flag_of("--cache-type-v"), Some(Flag::CacheType));
    assert_eq!(flag_of("--no-mmap"), Some(Flag::BufferedIo));
    assert_eq!(flag_of("--log-verbose"), Some(Flag::Verbose));
    assert_eq!(flag_of("--rope-scale"), Some(Flag::RopeScale));
    assert_eq!(flag_of("--dry-base"), Some(Flag::DryBase));
    assert_eq!(flag_of("-sp"), Some(Flag::Special));
    assert_eq!(flag_of("--nonsense"), None);
    assert_eq!(flag_of(""), None);
    assert!(takes_value(Flag::Seed));
    assert!(!takes_value(Flag::Warmup));
}

#[test]
fn every_name_listed_is_accepted() {
    let names = flag_names();
    assert!(names.len() > 120);
    for name in &names {
        assert!(flag_of(name).is_some(), "{name}");
    }
    assert!(names.contains(&"--perplexity"));
}

#[test]
fn the_first_argument_may_ask_for_something_else() {
    assert_eq!(opening(None), Opening::Usage);
    assert_eq!(opening(Some("-h")), Opening::Usage);
    assert_eq!(opening(Some("--usage")), Opening::ShortUsage);
    assert_eq!(opening(Some("--version")), Opening::Version);
    assert_eq!(opening(Some("--completion-bash")), Opening::Completion);
    assert_eq!(opening(Some("-m")), Opening::Run { path_first: false });
    assert_eq!(opening(Some("-")), Opening::Run { path_first: true });
    assert_eq!(opening(Some("x.gguf")), Opening::Run { path_first: true });
}

#[test]
fn counts_fall_back_where_none_can_be_read() {
    assert_eq!(count_or(Some("17"), 8), 17);
    assert_eq!(count_or(Some("many"), 8), 8);
    assert_eq!(count_or(None, 8), 8);
    assert_eq!(count_from(Some("2"), 2), Some(2));
    assert_eq!(count_from(Some("1"), 2), None);
    assert_eq!(count_from(Some("-4"), 0), None);
    assert_eq!(count_from(None, 0), None);
}

#[test]
fn a_bias_is_cut_at_its_sign() {
    assert_eq!(bias_parts("42-100"), Some((42, "-100".to_string())));
    assert_eq!(bias_parts("7+0.5-1"), Some((7, "+0.5-1".to_string())));
    assert_eq!(bias_parts("-5"), None);
    assert_eq!(bias_parts("42"), None);
    assert_eq!(bias_parts("4294967296+1"), None);
}

#[test]
fn a_prompt_is_the_first_word_and_never_empty() {
    let prompt = take_word(String::new(), "one".to_string());
    assert_eq!(take_word(prompt, "two".to_string()), "one");
    assert_eq!(finish_prompt(String::new(), true), "The capital of France is");
    assert_eq!(finish_prompt("a\\nb".to_string(), true), "a\nb");
    assert_eq!(finish_prompt("a\\nb".to_string(), false), "a\\nb");
}

#[test]
fn a_setting_keeps_the_name_it_was_given_by() {
    let names: Vec<String> = read_args(&words(&["-ctk", "q8_0", "--cache-type-v", "f16"]))
        .iter()
        .map(|g| match g {
            Given::Setting { name, .. } => name.clone(),
            Given::Word(w) => panic!("{w}"),
        })
        .collect();
    assert_eq!(names, words(&["-ctk", "--cache-type-v"]));
}
