use rust_shell::circular_buffer::CircularBuffer;
use rust_shell::editor::{EditorOutcome, PromptState};
use rust_shell::keys::DecodedKey;

fn bytes(s: &str) -> Vec<u8> {
    s.as_bytes().to_vec()
}

fn history_with(entries: &[&str]) -> CircularBuffer<Vec<u8>> {
    let mut h = CircularBuffer::new(32).unwrap();
    for e in entries {
        h.push(bytes(e));
    }
    h
}

fn history_entries(h: &CircularBuffer<Vec<u8>>) -> Vec<Vec<u8>> {
    let mut out = Vec::new();
    let mut it = h.iter();
    while let Some(e) = it.next() {
        out.push(e.clone());
    }
    out
}

fn type_line(st: &mut PromptState, h: &mut CircularBuffer<Vec<u8>>, line: &str) {
    let no_entries: Vec<Vec<u8>> = Vec::new();
    for b in line.bytes() {
        let o = st.apply_key(DecodedKey::Char(b), &no_entries, h);
        assert_eq!(o, EditorOutcome::Editing);
    }
}

#[test]
fn characters_insert_at_cursor_and_advance_it() {
    let mut st = PromptState::new();
    let mut h = history_with(&[]);
    type_line(&mut st, &mut h, "ls");
    assert_eq!(st.input_buffer, bytes("ls"));
    assert_eq!(st.cursor_position, 2);
}

#[test]
fn character_inserted_mid_line_lands_at_cursor() {
    let mut st = PromptState::new();
    let mut h = history_with(&[]);
    let no_entries: Vec<Vec<u8>> = Vec::new();
    type_line(&mut st, &mut h, "ac");
    st.apply_key(DecodedKey::ArrowLeft, &no_entries, &mut h);
    st.apply_key(DecodedKey::Char(b'b'), &no_entries, &mut h);
    assert_eq!(st.input_buffer, bytes("abc"));
    assert_eq!(st.cursor_position, 2);
}

#[test]
fn backspace_removes_before_cursor() {
    let mut st = PromptState::new();
    let mut h = history_with(&[]);
    let no_entries: Vec<Vec<u8>> = Vec::new();
    type_line(&mut st, &mut h, "abc");
    st.apply_key(DecodedKey::Backspace, &no_entries, &mut h);
    assert_eq!(st.input_buffer, bytes("ab"));
    assert_eq!(st.cursor_position, 2);
}

#[test]
fn backspace_at_start_is_a_no_op() {
    let mut st = PromptState::new();
    let mut h = history_with(&[]);
    let no_entries: Vec<Vec<u8>> = Vec::new();
    st.apply_key(DecodedKey::Backspace, &no_entries, &mut h);
    assert_eq!(st.input_buffer, bytes(""));
    assert_eq!(st.cursor_position, 0);
}

#[test]
fn delete_removes_at_cursor_and_keeps_it() {
    let mut st = PromptState::new();
    let mut h = history_with(&[]);
    let no_entries: Vec<Vec<u8>> = Vec::new();
    type_line(&mut st, &mut h, "abc");
    st.apply_key(DecodedKey::ArrowLeft, &no_entries, &mut h);
    st.apply_key(DecodedKey::ArrowLeft, &no_entries, &mut h);
    st.apply_key(DecodedKey::Delete, &no_entries, &mut h);
    assert_eq!(st.input_buffer, bytes("ac"));
    assert_eq!(st.cursor_position, 1);
}

#[test]
fn delete_at_end_is_a_no_op() {
    let mut st = PromptState::new();
    let mut h = history_with(&[]);
    let no_entries: Vec<Vec<u8>> = Vec::new();
    type_line(&mut st, &mut h, "ab");
    st.apply_key(DecodedKey::Delete, &no_entries, &mut h);
    assert_eq!(st.input_buffer, bytes("ab"));
}

#[test]
fn arrows_move_cursor_within_bounds() {
    let mut st = PromptState::new();
    let mut h = history_with(&[]);
    let no_entries: Vec<Vec<u8>> = Vec::new();
    type_line(&mut st, &mut h, "ab");
    st.apply_key(DecodedKey::ArrowLeft, &no_entries, &mut h);
    assert_eq!(st.cursor_position, 1);
    st.apply_key(DecodedKey::ArrowLeft, &no_entries, &mut h);
    st.apply_key(DecodedKey::ArrowLeft, &no_entries, &mut h);
    assert_eq!(st.cursor_position, 0);
    st.apply_key(DecodedKey::ArrowRight, &no_entries, &mut h);
    assert_eq!(st.cursor_position, 1);
    st.apply_key(DecodedKey::ArrowRight, &no_entries, &mut h);
    st.apply_key(DecodedKey::ArrowRight, &no_entries, &mut h);
    assert_eq!(st.cursor_position, 2);
}

#[test]
fn arrow_up_on_empty_buffer_recalls_oldest() {
    // History holds "cd /tmp" then "ls -la": arrow-up recalls the oldest,
    // "cd /tmp".
    let mut st = PromptState::new();
    let mut h = history_with(&["cd /tmp", "ls -la"]);
    let no_entries: Vec<Vec<u8>> = Vec::new();
    let o = st.apply_key(DecodedKey::ArrowUp, &no_entries, &mut h);
    assert_eq!(o, EditorOutcome::Editing);
    assert_eq!(st.input_buffer, bytes("cd /tmp"));
    assert_eq!(st.cursor_position, bytes("cd /tmp").len());
}

#[test]
fn arrow_up_on_nonempty_buffer_is_ignored() {
    let mut st = PromptState::new();
    let mut h = history_with(&["cd /tmp"]);
    type_line(&mut st, &mut h, "x");
    st.apply_key(DecodedKey::ArrowUp, &Vec::new(), &mut h);
    assert_eq!(st.input_buffer, bytes("x"));
}

#[test]
fn arrow_up_with_empty_history_leaves_buffer_empty() {
    let mut st = PromptState::new();
    let mut h = history_with(&[]);
    st.apply_key(DecodedKey::ArrowUp, &Vec::new(), &mut h);
    assert_eq!(st.input_buffer, bytes(""));
    assert_eq!(st.cursor_position, 0);
}

#[test]
fn tab_accepts_the_active_suggestion() {
    let mut st = PromptState::new();
    let mut h = history_with(&[]);
    let entries = vec![bytes("src"), bytes("srv")];
    for b in "ls sr".bytes() {
        st.apply_key(DecodedKey::Char(b), &entries, &mut h);
    }
    assert_eq!(st.suggestion, bytes("ls src"));
    assert!(!st.suggestion_from_history);
    st.apply_key(DecodedKey::Tab, &entries, &mut h);
    assert_eq!(st.input_buffer, bytes("ls src"));
    assert_eq!(st.cursor_position, bytes("ls src").len());
    assert_eq!(st.suggestion, bytes(""));
}

#[test]
fn tab_splices_history_suggestion_after_last_whitespace() {
    // With no directory match, the suggestion candidate is a whole history
    // entry extending the buffer; Tab replaces the token after the last
    // whitespace with that candidate.
    let mut st = PromptState::new();
    let mut h = history_with(&["cd /tmp"]);
    let no_entries: Vec<Vec<u8>> = Vec::new();
    for b in "cd /t".bytes() {
        st.apply_key(DecodedKey::Char(b), &no_entries, &mut h);
    }
    assert_eq!(st.suggestion, bytes("cd /tmp"));
    assert!(st.suggestion_from_history);
    let o = st.apply_key(DecodedKey::Tab, &no_entries, &mut h);
    assert_eq!(o, EditorOutcome::Editing);
    assert_eq!(st.input_buffer, bytes("cd cd /tmp"));
    assert_eq!(st.cursor_position, bytes("cd cd /tmp").len());
    assert_eq!(st.suggestion, bytes(""));
    assert_eq!(history_entries(&h), vec![bytes("cd /tmp")]);
}

#[test]
fn tab_on_whitespace_free_buffer_takes_candidate_alone() {
    // A buffer without whitespace is one token; Tab replaces it entirely
    // with the history candidate, and entering the result deduplicates
    // against the identical newest history entry.
    let mut st = PromptState::new();
    let mut h = history_with(&["make test"]);
    let no_entries: Vec<Vec<u8>> = Vec::new();
    for b in "make".bytes() {
        st.apply_key(DecodedKey::Char(b), &no_entries, &mut h);
    }
    assert_eq!(st.suggestion, bytes("make test"));
    st.apply_key(DecodedKey::Tab, &no_entries, &mut h);
    assert_eq!(st.input_buffer, bytes("make test"));
    st.apply_key(DecodedKey::Enter, &no_entries, &mut h);
    assert_eq!(history_entries(&h), vec![bytes("make test")]);
}

#[test]
fn tab_without_suggestion_is_a_no_op() {
    let mut st = PromptState::new();
    let mut h = history_with(&[]);
    type_line(&mut st, &mut h, "zz");
    st.apply_key(DecodedKey::Tab, &Vec::new(), &mut h);
    assert_eq!(st.input_buffer, bytes("zz"));
}

#[test]
fn suggestion_suffix_is_what_renders_after_the_buffer() {
    let mut st = PromptState::new();
    let mut h = history_with(&[]);
    let entries = vec![bytes("src")];
    for b in "ls sr".bytes() {
        st.apply_key(DecodedKey::Char(b), &entries, &mut h);
    }
    assert_eq!(st.suggestion_suffix(), bytes("c"));
    assert_eq!(st.total_len, bytes("ls src").len());
}

#[test]
fn interrupt_discards_the_buffer() {
    let mut st = PromptState::new();
    let mut h = history_with(&[]);
    type_line(&mut st, &mut h, "half a comm");
    let o = st.apply_key(DecodedKey::Interrupt, &Vec::new(), &mut h);
    assert_eq!(o, EditorOutcome::Editing);
    assert_eq!(st.input_buffer, bytes(""));
    assert_eq!(st.cursor_position, 0);
    assert_eq!(st.total_len, 0);
}

#[test]
fn end_of_input_terminates_only_on_empty_buffer() {
    let mut st = PromptState::new();
    let mut h = history_with(&[]);
    type_line(&mut st, &mut h, "x");
    assert_eq!(
        st.apply_key(DecodedKey::EndOfInput, &Vec::new(), &mut h),
        EditorOutcome::Editing
    );
    st.apply_key(DecodedKey::Backspace, &Vec::new(), &mut h);
    assert_eq!(
        st.apply_key(DecodedKey::EndOfInput, &Vec::new(), &mut h),
        EditorOutcome::Terminated
    );
}

#[test]
fn enter_commits_and_appends_to_history() {
    let mut st = PromptState::new();
    let mut h = history_with(&["earlier"]);
    type_line(&mut st, &mut h, "ls -la");
    let o = st.apply_key(DecodedKey::Enter, &Vec::new(), &mut h);
    assert_eq!(o, EditorOutcome::Committed);
    assert_eq!(st.input_buffer, bytes("ls -la"));
    assert_eq!(history_entries(&h), vec![bytes("earlier"), bytes("ls -la")]);
}

#[test]
fn enter_on_empty_buffer_pushes_nothing() {
    let mut st = PromptState::new();
    let mut h = history_with(&["earlier"]);
    let o = st.apply_key(DecodedKey::Enter, &Vec::new(), &mut h);
    assert_eq!(o, EditorOutcome::Committed);
    assert_eq!(history_entries(&h), vec![bytes("earlier")]);
}

#[test]
fn enter_on_duplicate_of_tail_pushes_nothing() {
    let mut st = PromptState::new();
    let mut h = history_with(&["make", "ls"]);
    type_line(&mut st, &mut h, "ls");
    st.apply_key(DecodedKey::Enter, &Vec::new(), &mut h);
    assert_eq!(history_entries(&h), vec![bytes("make"), bytes("ls")]);
}

#[test]
fn enter_repeating_an_older_entry_still_pushes() {
    let mut st = PromptState::new();
    let mut h = history_with(&["ls", "make"]);
    type_line(&mut st, &mut h, "ls");
    st.apply_key(DecodedKey::Enter, &Vec::new(), &mut h);
    assert_eq!(
        history_entries(&h),
        vec![bytes("ls"), bytes("make"), bytes("ls")]
    );
}

#[test]
fn clear_suggestion_keeps_the_buffer() {
    let mut st = PromptState::new();
    let mut h = history_with(&[]);
    let entries = vec![bytes("src")];
    for b in "sr".bytes() {
        st.apply_key(DecodedKey::Char(b), &entries, &mut h);
    }
    assert_eq!(st.suggestion, bytes("src"));
    st.clear_suggestion();
    assert_eq!(st.suggestion, bytes(""));
    assert_eq!(st.input_buffer, bytes("sr"));
    assert_eq!(st.total_len, 2);
}
