use link_cleaner::cleaner::Cleaner;
use link_cleaner::normalize::{clean_link, Clean, LinkError};

fn assert_cleaned(input: &str, expected: &str) {
    assert_eq!(
        clean_link(input).unwrap(),
        Clean::Cleaned(String::from(expected))
    );
}

fn assert_original(input: &str, expected: &str) {
    assert_eq!(
        clean_link(input).unwrap(),
        Clean::Original(String::from(expected))
    );
}

#[test]
fn full_url() {
    assert_cleaned(
        "https://www.amazon.de/-/en/Jon-Gjengset/dp/1718501854?keywords=rust+for+rustaceans&qid=1663667521&sprefix=rust+for%2Caps%2C88&sr=8-1",
        "https://www.amazon.de/Jon-Gjengset/dp/1718501854"
    );
}

#[test]
fn full_path_with_question_mark() {
    assert_cleaned(
        "https://www.amazon.de/-/en/Jon-Gjengset/dp/1718501854?",
        "https://www.amazon.de/Jon-Gjengset/dp/1718501854",
    );
}

#[test]
fn full_path() {
    assert_cleaned(
        "https://www.amazon.de/-/en/Jon-Gjengset/dp/1718501854",
        "https://www.amazon.de/Jon-Gjengset/dp/1718501854",
    );
}

#[test]
fn almost_clean() {
    assert_cleaned(
        "https://www.amazon.de/-/en/dp/1718501854",
        "https://www.amazon.de/en/dp/1718501854",
    );
}

#[test]
fn remove_query() {
    assert_cleaned(
        "https://www.amazon.de/dp/1718501854#qid=1663667521",
        "https://www.amazon.de/dp/1718501854",
    );
}

#[test]
fn prepend_https() {
    assert_cleaned(
        "www.amazon.de/dp/1718501854",
        "https://www.amazon.de/dp/1718501854",
    );
}

#[test]
fn keep_original() {
    assert_original(
        "https://www.amazon.de/something/unexpected/1718501854?keywords=rust+for+rustaceans&qid=1663667521&sprefix=rust+for%2Caps%2C88&sr=8-1",
        "https://www.amazon.de/something/unexpected/1718501854?keywords=rust+for+rustaceans&qid=1663667521&sprefix=rust+for%2Caps%2C88&sr=8-1"
    );
}

#[test]
fn match_dp_case_sensitive() {
    assert_original(
        "https://www.amazon.de/-/en/Jon-Gjengset/DP/1718501854?",
        "https://www.amazon.de/-/en/Jon-Gjengset/DP/1718501854?",
    );
}

#[test]
fn prepend_https_in_original() {
    assert_original("www.amazon.de", "https://www.amazon.de/");
}

fn scan(segments: Vec<&str>) -> (Vec<String>, bool) {
    let segs: Vec<String> = segments.into_iter().map(String::from).collect();
    let mut cleaner = Cleaner::new(segs);
    let out = cleaner.collect_all();
    let done = cleaner.is_done();
    (out, done)
}

#[test]
fn scanner_marker_at_start() {
    let (out, done) = scan(vec!["dp", "1718501854"]);
    assert_eq!(out, vec!["dp", "1718501854"]);
    assert!(done);
}

#[test]
fn scanner_keeps_predecessor() {
    let (out, done) = scan(vec!["Jon-Gjengset", "dp", "1718501854"]);
    assert_eq!(out, vec!["Jon-Gjengset", "dp", "1718501854"]);
    assert!(done);
}

#[test]
fn scanner_drops_all_but_immediate_predecessor() {
    let (out, done) = scan(vec!["-", "en", "Jon-Gjengset", "dp", "1718501854", "ref=sr_1_1"]);
    assert_eq!(out, vec!["Jon-Gjengset", "dp", "1718501854"]);
    assert!(done);
}

#[test]
fn scanner_no_marker_emits_nothing() {
    let (out, done) = scan(vec!["something", "unexpected", "1718501854"]);
    assert_eq!(out, Vec::<String>::new());
    assert!(!done);
}

#[test]
fn scanner_is_case_sensitive() {
    let (out, done) = scan(vec!["Jon-Gjengset", "DP", "1718501854"]);
    assert_eq!(out, Vec::<String>::new());
    assert!(!done);
}

#[test]
fn scanner_marker_last_still_succeeds() {
    let (out, done) = scan(vec!["Jon-Gjengset", "dp"]);
    assert_eq!(out, vec!["Jon-Gjengset", "dp"]);
    assert!(done);
}

#[test]
fn scanner_only_first_marker_counts() {
    let (out, done) = scan(vec!["a", "dp", "dp", "b"]);
    assert_eq!(out, vec!["a", "dp", "dp"]);
    assert!(done);
}

#[test]
fn scanner_empty_input() {
    let (out, done) = scan(vec![]);
    assert_eq!(out, Vec::<String>::new());
    assert!(!done);
}

#[test]
fn cleaning_twice_changes_nothing() {
    let once = match clean_link("https://www.amazon.de/-/en/Jon-Gjengset/dp/1718501854?qid=1").unwrap() {
        Clean::Cleaned(url) => url,
        Clean::Original(url) => panic!("expected a cleaned URL, got the original {}", url),
    };
    assert_eq!(
        clean_link(&once).unwrap(),
        Clean::Cleaned(once.clone()),
        "cleaning an already-cleaned URL must keep it unchanged"
    );
}

#[test]
fn query_kept_when_no_marker() {
    assert_original(
        "https://www.amazon.de/gp/cart?ref=nav#top",
        "https://www.amazon.de/gp/cart?ref=nav#top",
    );
}

#[test]
fn fragment_stripped_on_success() {
    assert_cleaned(
        "https://www.amazon.de/dp/1718501854?k=v#frag",
        "https://www.amazon.de/dp/1718501854",
    );
}

#[test]
fn malformed_url_is_a_parse_error() {
    match clean_link("http://") {
        Err(LinkError::Parse(_)) => {}
        other => panic!("expected a parse error, got {:?}", other),
    }
}

#[test]
fn opaque_url_cannot_be_base() {
    match clean_link("httpx:opaque-path") {
        Err(LinkError::CannotBeBase) => {}
        other => panic!("expected the cannot-be-base error, got {:?}", other),
    }
}
