use rust_shell::circular_buffer::CircularBuffer;
use rust_shell::suggest::{compute_suggestion, find_match_directory, find_match_history, token_start};

fn bytes(s: &str) -> Vec<u8> {
    s.as_bytes().to_vec()
}

fn empty_history() -> CircularBuffer<Vec<u8>> {
    CircularBuffer::new(16).unwrap()
}

#[test]
fn token_is_the_text_after_the_last_space() {
    assert_eq!(token_start(&bytes("ls src")), 3);
    assert_eq!(token_start(&bytes("src")), 0);
    assert_eq!(token_start(&bytes("ls ")), 3);
    assert_eq!(token_start(&bytes("")), 0);
    assert_eq!(token_start(&bytes("a b c")), 4);
}

#[test]
fn directory_match_takes_first_entry_with_prefix() {
    let entries = vec![bytes("srv"), bytes("src"), bytes("static")];
    assert_eq!(find_match_directory(&entries, &bytes("src")), Some(bytes("src")));
    assert_eq!(find_match_directory(&entries, &bytes("sr")), Some(bytes("srv")));
    assert_eq!(find_match_directory(&entries, &bytes("x")), None);
}

#[test]
fn directory_match_is_case_sensitive() {
    let entries = vec![bytes("Src")];
    assert_eq!(find_match_directory(&entries, &bytes("src")), None);
}

#[test]
fn suggestion_for_src_resolves_to_src() {
    // Buffer "ls src" with a working directory holding src and srv: the
    // token "src" resolves to the entry "src", completing the line as is.
    let entries = vec![bytes("src"), bytes("srv")];
    let history = empty_history();
    let (got, from_history) = compute_suggestion(&bytes("ls src"), &entries, &history);
    assert_eq!(got, Some(bytes("ls src")));
    assert!(!from_history);
}

#[test]
fn suggestion_completes_partial_token_from_directory() {
    let entries = vec![bytes("src"), bytes("srv")];
    let history = empty_history();
    let (got, from_history) = compute_suggestion(&bytes("ls sr"), &entries, &history);
    assert_eq!(got, Some(bytes("ls src")));
    assert!(!from_history);
}

#[test]
fn suggestion_falls_through_to_history() {
    // No directory entry matches, so the whole buffer is completed from
    // history, newest first.
    let entries = vec![bytes("docs")];
    let mut history = empty_history();
    history.push(bytes("ls src"));
    history.push(bytes("ls srv"));
    let (got, from_history) = compute_suggestion(&bytes("ls sr"), &entries, &history);
    assert_eq!(got, Some(bytes("ls srv")));
    assert!(from_history);
}

#[test]
fn history_match_skips_entry_equal_to_pattern() {
    let mut history = empty_history();
    history.push(bytes("make"));
    assert_eq!(find_match_history(&history, &bytes("make")), None);
    history.push(bytes("make test"));
    assert_eq!(find_match_history(&history, &bytes("make")), Some(bytes("make test")));
}

#[test]
fn history_match_prefers_newest() {
    let mut history = empty_history();
    history.push(bytes("git status"));
    history.push(bytes("git show"));
    assert_eq!(find_match_history(&history, &bytes("git")), Some(bytes("git show")));
}

#[test]
fn no_suggestion_for_empty_token_or_option() {
    let entries = vec![bytes("src")];
    let history = empty_history();
    assert_eq!(compute_suggestion(&bytes(""), &entries, &history), (None, false));
    assert_eq!(compute_suggestion(&bytes("ls "), &entries, &history), (None, false));
    assert_eq!(compute_suggestion(&bytes("ls -la"), &entries, &history), (None, false));
}

#[test]
fn no_suggestion_when_nothing_matches() {
    let entries = vec![bytes("docs")];
    let history = empty_history();
    assert_eq!(compute_suggestion(&bytes("ls sr"), &entries, &history), (None, false));
}
