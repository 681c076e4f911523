use minigrep::config::{run, Config, ConfigError};
use minigrep::search::{contains_folded, search, search_case_insensitive, search_with};
use minigrep::text::{chars_of, contains_text, split_lines};

#[test]
fn search_result() {
    let query = "duct";
    let contents = "\
Rust:
safe, fast, productive.
Pick three.";

    assert_eq!(vec!["safe, fast, productive."], search(query, contents));
}

#[test]
fn case_sensitive() {
    let query = "duct";
    let contents = "\
Rust:
safe, fast, productive.
Pick three.
Duck tape.";

    assert_eq!(vec!["safe, fast, productive."], search(query, contents));
}

#[test]
fn case_insensitive() {
    let query = "rUsT";
    let contents = "\
Rust:
safe, fast, productive.
Pick three.
Trust me.";

    assert_eq!(
        vec!["Rust:", "Trust me."],
        search_case_insensitive(query, contents)
    );
}

#[test]
fn exact_result_lines_hold_query() {
    let contents = "one\ntwo\nthree\nfour";
    let r = search("o", contents);
    assert_eq!(vec!["one", "two", "four"], r);
    for line in contents.lines() {
        assert_eq!(line.contains("o"), r.contains(&line));
    }
}

#[test]
fn insensitive_keeps_at_least_as_many() {
    let contents = "Rust:\nrust\nTRUST\nno";
    let exact = search("rust", contents);
    let folded = search_case_insensitive("rust", contents);
    assert_eq!(vec!["rust"], exact);
    assert_eq!(vec!["Rust:", "rust", "TRUST"], folded);
    assert!(exact.len() <= folded.len());
}

#[test]
fn empty_query_keeps_all_lines() {
    let contents = "a\n\nb c\r\nd";
    assert_eq!(vec!["a", "", "b c", "d"], search("", contents));
}

#[test]
fn empty_content_gives_nothing() {
    assert!(search("x", "").is_empty());
    assert!(search("", "").is_empty());
    assert!(search_case_insensitive("X", "").is_empty());
}

#[test]
fn no_match_gives_empty() {
    assert!(search("zebra", "cat\ndog").is_empty());
}

#[test]
fn lines_split_on_lf_and_crlf() {
    assert_eq!(vec!["a", "b", "c"], split_lines("a\r\nb\nc\n"));
    assert_eq!(vec!["x", ""], split_lines("x\r\n\n"));
    assert_eq!(vec!["end\r"], split_lines("end\r"));
    assert!(split_lines("").is_empty());
    assert_eq!(vec![""], split_lines("\n"));
}

#[test]
fn substring_test() {
    assert!(contains_text("productive", "duct"));
    assert!(!contains_text("Duck", "duct"));
    assert!(contains_text("abc", ""));
    assert!(!contains_text("", "a"));
    assert!(contains_text("aab", "ab"));
}

#[test]
fn folded_test_takes_lowered_values() {
    let q = chars_of("rust");
    assert!(contains_folded("trust me.", &q));
    assert!(!contains_folded("Trust me.", &chars_of("RUST")));
}

#[test]
fn lowering_applies_to_the_line() {
    // A line that only matches once lowered.
    assert_eq!(vec!["TRUST"], search_with("rust", "TRUST\nno", false));
    assert!(search_with("rust", "TRUST\nno", true).is_empty());
    // The query is lowered too.
    assert_eq!(vec!["trust"], search_with("RUST", "trust", false));
}

#[test]
fn config_from_tokens() {
    let args = vec!["minigrep".to_string(), "needle".to_string(), "poem.txt".to_string()];
    let c = Config::new(&args, None).unwrap();
    assert_eq!("needle", c.query);
    assert_eq!("poem.txt", c.filename);
    assert!(c.case_sensitive);
    let c = Config::new(&args, Some("1".to_string())).unwrap();
    assert!(!c.case_sensitive);
}

#[test]
fn config_needs_two_tokens() {
    let few = vec!["minigrep".to_string(), "needle".to_string()];
    assert_eq!(Some(ConfigError::InsufficientArguments), Config::new(&few, None).err());
    assert_eq!(Some(ConfigError::InsufficientArguments), Config::new(&vec![], None).err());
    let empty = vec!["minigrep".to_string(), "".to_string(), "poem.txt".to_string()];
    assert_eq!(Some(ConfigError::InsufficientArguments), Config::new(&empty, None).err());
    assert_eq!("not enough arguments", ConfigError::InsufficientArguments.message());
}

#[test]
fn run_follows_the_mode() {
    let args = vec!["minigrep".to_string(), "rUsT".to_string(), "f".to_string()];
    let contents = "Rust:\nsafe, fast, productive.\nPick three.\nTrust me.";
    let exact = Config::new(&args, None).unwrap();
    assert!(run(&exact, contents).is_empty());
    let folded = Config::new(&args, Some(String::new())).unwrap();
    assert_eq!(vec!["Rust:", "Trust me."], run(&folded, contents));
}
