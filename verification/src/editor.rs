use crate::bytes::{bytes_equal, clone_bytes, head_to, is_prefix_of, seq_views, tail_from};
use crate::circular_buffer::{lemma_seq_views_ring_push, spec_ring_push, CircularBuffer};
use crate::keys::DecodedKey;
use crate::suggest::{
    compute_suggestion, lemma_suggestion_extends_buffer, lemma_token_start_bounds,
    spec_suggestion, spec_suggestion_from_history, spec_token_start, token_start,
};
use vstd::prelude::*;

verus! {

/// Outcome of applying one decoded key event.
#[derive(Clone, Copy, Debug, PartialEq, Eq, Structural)]
pub enum EditorOutcome {
    /// The line-read session continues.
    Editing,
    /// Enter committed the buffer; the caller takes the finished line.
    Committed,
    /// End-of-input on an empty buffer: the session ends.
    Terminated,
}

/// The in-progress command line: its text, the cursor offset, the currently
/// displayed inline suggestion (stored as the full line the suggestion
/// renders, empty when no suggestion is active), whether that suggestion
/// came from the history fallback rather than a directory match (the two
/// accept differently under Tab), and the on-screen width currently occupied
/// by buffer plus suggestion (what a redraw must erase).
pub struct PromptState {
    pub input_buffer: Vec<u8>,
    pub suggestion: Vec<u8>,
    pub suggestion_from_history: bool,
    pub cursor_position: usize,
    pub total_len: usize,
}

/// The stored suggestion for a buffer: the full rendered line when the
/// engine finds one, empty otherwise.
pub open spec fn suggestion_after(
    buffer: Seq<u8>,
    dir_entries: Seq<Seq<u8>>,
    history: Seq<Seq<u8>>,
) -> Seq<u8> {
    match spec_suggestion(buffer, dir_entries, history) {
        Some(s) => s,
        None => Seq::empty(),
    }
}

impl PromptState {
    /// The cursor stays within the text; an active suggestion is always the
    /// current buffer extended; the occupied width is the rendered line:
    /// the buffer, or the suggestion's line while one is shown.
    pub open spec fn wf(&self) -> bool {
        &&& self.cursor_position <= self.input_buffer@.len()
        &&& (self.suggestion@.len() == 0 || is_prefix_of(self.input_buffer@, self.suggestion@))
        &&& (self.suggestion@.len() == 0 ==> !self.suggestion_from_history)
        &&& self.total_len == if self.suggestion@.len() == 0 {
            self.input_buffer@.len() as int
        } else {
            self.suggestion@.len() as int
        }
    }

    /// A fresh, empty editing session.
    pub fn new() -> (s: Self)
        ensures
            s.wf(),
            s.input_buffer@ == Seq::<u8>::empty(),
            s.suggestion@ == Seq::<u8>::empty(),
            s.suggestion_from_history == false,
            s.cursor_position == 0,
            s.total_len == 0,
    {
        PromptState {
            input_buffer: Vec::new(),
            suggestion: Vec::new(),
            suggestion_from_history: false,
            cursor_position: 0,
            total_len: 0,
        }
    }

    /// Drop any active suggestion; the occupied width shrinks back to the
    /// buffer itself.
    pub fn clear_suggestion(&mut self)
        requires
            old(self).wf(),
        ensures
            final(self).wf(),
            final(self).input_buffer == old(self).input_buffer,
            final(self).cursor_position == old(self).cursor_position,
            final(self).suggestion@ == Seq::<u8>::empty(),
            final(self).suggestion_from_history == false,
    {
        self.suggestion.clear();
        self.suggestion_from_history = false;
        self.total_len = self.input_buffer.len();
    }

    /// The bytes of the active suggestion beyond the typed buffer: what is
    /// rendered after the cursor end in a distinguishing style.
    pub fn suggestion_suffix(&self) -> (r: Vec<u8>)
        requires
            self.wf(),
        ensures
            r@ == if self.suggestion@.len() == 0 {
                Seq::<u8>::empty()
            } else {
                self.suggestion@.skip(self.input_buffer@.len() as int)
            },
    {
        if self.suggestion.len() == 0 {
            Vec::new()
        } else {
            tail_from(&self.suggestion, self.input_buffer.len())
        }
    }

    /// Recompute the inline suggestion for the current buffer.
    fn refresh_suggestion(&mut self, dir_entries: &Vec<Vec<u8>>, history: &CircularBuffer<Vec<u8>>)
        requires
            old(self).cursor_position <= old(self).input_buffer@.len(),
        ensures
            final(self).wf(),
            final(self).input_buffer == old(self).input_buffer,
            final(self).cursor_position == old(self).cursor_position,
            final(self).suggestion@ == suggestion_after(
                old(self).input_buffer@,
                seq_views(dir_entries@),
                seq_views(history@),
            ),
            final(self).suggestion_from_history == spec_suggestion_from_history(
                old(self).input_buffer@,
                seq_views(dir_entries@),
                seq_views(history@),
            ),
    {
        let (found, from_history) = compute_suggestion(&self.input_buffer, dir_entries, history);
        match found {
            Some(s) => {
                proof {
                    lemma_suggestion_extends_buffer(
                        self.input_buffer@,
                        seq_views(dir_entries@),
                        seq_views(history@),
                    );
                    lemma_token_start_bounds(self.input_buffer@);
                }
                self.total_len = s.len();
                self.suggestion = s;
                self.suggestion_from_history = from_history;
            },
            None => {
                self.suggestion.clear();
                self.suggestion_from_history = false;
                self.total_len = self.input_buffer.len();
            },
        }
    }

    /// Apply one decoded key event: the editor's full transition table (see
    /// [`key_applied`]).  The committed line, if any, stays in
    /// `input_buffer`; the caller reads it on `Committed`.
    pub fn apply_key(
        &mut self,
        key: DecodedKey,
        dir_entries: &Vec<Vec<u8>>,
        history: &mut CircularBuffer<Vec<u8>>,
    ) -> (outcome: EditorOutcome)
        requires
            old(self).wf(),
        ensures
            final(self).wf(),
            final(history).spec_capacity() == old(history).spec_capacity(),
            key_applied(
                *old(self),
                *final(self),
                key,
                seq_views(dir_entries@),
                seq_views(old(history)@),
                seq_views(final(history)@),
                old(history).spec_capacity(),
                outcome,
            ),
    {
        match key {
            DecodedKey::Char(c) => {
                self.input_buffer.insert(self.cursor_position, c);
                let end = self.input_buffer.len();
                if self.cursor_position < end {
                    self.cursor_position = self.cursor_position + 1;
                }
                self.refresh_suggestion(dir_entries, history);
                EditorOutcome::Editing
            },
            DecodedKey::Backspace => {
                if self.cursor_position > 0 {
                    self.cursor_position = self.cursor_position - 1;
                    self.input_buffer.remove(self.cursor_position);
                    self.refresh_suggestion(dir_entries, history);
                }
                EditorOutcome::Editing
            },
            DecodedKey::Delete => {
                if self.cursor_position < self.input_buffer.len() {
                    self.input_buffer.remove(self.cursor_position);
                    self.refresh_suggestion(dir_entries, history);
                }
                EditorOutcome::Editing
            },
            DecodedKey::ArrowLeft => {
                if self.cursor_position > 0 {
                    self.cursor_position = self.cursor_position - 1;
                }
                EditorOutcome::Editing
            },
            DecodedKey::ArrowRight => {
                if self.cursor_position < self.input_buffer.len() {
                    self.cursor_position = self.cursor_position + 1;
                }
                EditorOutcome::Editing
            },
            DecodedKey::ArrowUp => {
                if self.input_buffer.len() == 0 {
                    match history.head() {
                        Some(e) => {
                            let recalled = clone_bytes(e);
                            self.cursor_position = recalled.len();
                            self.input_buffer = recalled;
                        },
                        None => {
                            proof {
                                assert(self.input_buffer@ =~= Seq::<u8>::empty());
                            }
                        },
                    }
                    self.suggestion.clear();
                    self.suggestion_from_history = false;
                    self.total_len = self.input_buffer.len();
                    proof {
                        assert(seq_views(history@).len() > 0 ==> seq_views(history@).first()
                            == history@.first()@);
                    }
                }
                EditorOutcome::Editing
            },
            DecodedKey::Tab => {
                if self.suggestion.len() > 0 {
                    let start = token_start(&self.input_buffer);
                    let mut committed = head_to(&self.input_buffer, start);
                    let mut candidate = if self.suggestion_from_history {
                        clone_bytes(&self.suggestion)
                    } else {
                        tail_from(&self.suggestion, start)
                    };
                    committed.append(&mut candidate);
                    self.cursor_position = committed.len();
                    self.total_len = committed.len();
                    self.input_buffer = committed;
                    self.suggestion.clear();
                    self.suggestion_from_history = false;
                }
                EditorOutcome::Editing
            },
            DecodedKey::Interrupt => {
                self.input_buffer.clear();
                self.cursor_position = 0;
                self.suggestion.clear();
                self.suggestion_from_history = false;
                self.total_len = 0;
                EditorOutcome::Editing
            },
            DecodedKey::EndOfInput => {
                if self.input_buffer.len() == 0 {
                    EditorOutcome::Terminated
                } else {
                    EditorOutcome::Editing
                }
            },
            DecodedKey::Enter => {
                self.suggestion.clear();
                self.suggestion_from_history = false;
                self.total_len = self.input_buffer.len();
                let duplicate = match history.tail() {
                    Some(t) => bytes_equal(t, &self.input_buffer),
                    None => false,
                };
                proof {
                    assert(seq_views(history@).len() > 0 ==> seq_views(history@).last()
                        == history@.last()@);
                }
                if !duplicate && self.input_buffer.len() > 0 {
                    let ghost h0 = history@;
                    let line = clone_bytes(&self.input_buffer);
                    let ghost line_snap = line;
                    history.push(line);
                    proof {
                        lemma_seq_views_ring_push(h0, old(history).spec_capacity(), line_snap);
                    }
                }
                EditorOutcome::Committed
            },
            DecodedKey::ArrowDown => EditorOutcome::Editing,
            DecodedKey::Unknown => EditorOutcome::Editing,
        }
    }
}

/// The editor's transition table, relating the state and history before one
/// key event to the state, history and outcome after it.  `dir_entries` is
/// the working directory's entry enumeration consulted by the suggestion
/// engine; `hist_pre` and `hist_post` are the history ring's contents
/// (oldest first) before and after; `cap` its capacity.
///
/// Notably: printable bytes insert at the cursor and recompute the
/// suggestion; arrow-up on an empty buffer recalls the oldest history entry;
/// Enter commits the buffer and appends it to history exactly when it is
/// non-empty and differs from the newest entry, so an empty line is never
/// pushed and a line equal to the newest entry is never duplicated.
///
/// Tab accepts an active suggestion by replacing the token after the last
/// whitespace with the suggestion candidate: the buffer becomes its own
/// text up to and including the last whitespace, followed by the candidate
/// (the candidate alone when the buffer holds no whitespace); the cursor
/// moves to the end and the suggestion is cleared.  The candidate is the
/// matched directory entry name, or, for the history fallback, the whole
/// matching line.  For a directory completion the committed line is exactly
/// the line the suggestion rendered; for a history completion on a buffer
/// containing whitespace it extends beyond what was rendered.
pub open spec fn key_applied(
    pre: PromptState,
    post: PromptState,
    key: DecodedKey,
    dir_entries: Seq<Seq<u8>>,
    hist_pre: Seq<Seq<u8>>,
    hist_post: Seq<Seq<u8>>,
    cap: int,
    outcome: EditorOutcome,
) -> bool {
    match key {
        DecodedKey::Char(c) => {
            let edited = pre.input_buffer@.insert(pre.cursor_position as int, c);
            &&& outcome == EditorOutcome::Editing
            &&& hist_post == hist_pre
            &&& post.input_buffer@ == edited
            &&& post.cursor_position == pre.cursor_position + 1
            &&& post.suggestion@ == suggestion_after(edited, dir_entries, hist_pre)
            &&& post.suggestion_from_history == spec_suggestion_from_history(
                edited,
                dir_entries,
                hist_pre,
            )
        },
        DecodedKey::Backspace => {
            &&& outcome == EditorOutcome::Editing
            &&& hist_post == hist_pre
            &&& if pre.cursor_position > 0 {
                let edited = pre.input_buffer@.remove(pre.cursor_position - 1);
                &&& post.input_buffer@ == edited
                &&& post.cursor_position == pre.cursor_position - 1
                &&& post.suggestion@ == suggestion_after(edited, dir_entries, hist_pre)
                &&& post.suggestion_from_history == spec_suggestion_from_history(
                    edited,
                    dir_entries,
                    hist_pre,
                )
            } else {
                post == pre
            }
        },
        DecodedKey::Delete => {
            &&& outcome == EditorOutcome::Editing
            &&& hist_post == hist_pre
            &&& if pre.cursor_position < pre.input_buffer@.len() {
                let edited = pre.input_buffer@.remove(pre.cursor_position as int);
                &&& post.input_buffer@ == edited
                &&& post.cursor_position == pre.cursor_position
                &&& post.suggestion@ == suggestion_after(edited, dir_entries, hist_pre)
                &&& post.suggestion_from_history == spec_suggestion_from_history(
                    edited,
                    dir_entries,
                    hist_pre,
                )
            } else {
                post == pre
            }
        },
        DecodedKey::ArrowLeft => {
            &&& outcome == EditorOutcome::Editing
            &&& hist_post == hist_pre
            &&& post.input_buffer == pre.input_buffer
            &&& post.suggestion == pre.suggestion
            &&& post.suggestion_from_history == pre.suggestion_from_history
            &&& post.total_len == pre.total_len
            &&& post.cursor_position == if pre.cursor_position > 0 {
                pre.cursor_position - 1
            } else {
                0
            }
        },
        DecodedKey::ArrowRight => {
            &&& outcome == EditorOutcome::Editing
            &&& hist_post == hist_pre
            &&& post.input_buffer == pre.input_buffer
            &&& post.suggestion == pre.suggestion
            &&& post.suggestion_from_history == pre.suggestion_from_history
            &&& post.total_len == pre.total_len
            &&& post.cursor_position == if pre.cursor_position < pre.input_buffer@.len() {
                pre.cursor_position + 1
            } else {
                pre.cursor_position as int
            }
        },
        DecodedKey::ArrowUp => {
            &&& outcome == EditorOutcome::Editing
            &&& hist_post == hist_pre
            &&& if pre.input_buffer@.len() == 0 {
                let recalled = if hist_pre.len() > 0 {
                    hist_pre.first()
                } else {
                    Seq::<u8>::empty()
                };
                &&& post.input_buffer@ == recalled
                &&& post.cursor_position == recalled.len()
                &&& post.suggestion@ == Seq::<u8>::empty()
                &&& post.suggestion_from_history == false
            } else {
                post == pre
            }
        },
        DecodedKey::Tab => {
            // The stored suggestion is the rendered line; the candidate is
            // what it holds beyond the token (a directory match) or the
            // whole matching history line.
            &&& outcome == EditorOutcome::Editing
            &&& hist_post == hist_pre
            &&& if pre.suggestion@.len() > 0 {
                let start = spec_token_start(pre.input_buffer@);
                let candidate = if pre.suggestion_from_history {
                    pre.suggestion@
                } else {
                    pre.suggestion@.skip(start)
                };
                &&& post.input_buffer@ == pre.input_buffer@.take(start) + candidate
                &&& post.cursor_position == post.input_buffer@.len()
                &&& post.suggestion@ == Seq::<u8>::empty()
                &&& post.suggestion_from_history == false
            } else {
                post == pre
            }
        },
        DecodedKey::Interrupt => {
            &&& outcome == EditorOutcome::Editing
            &&& hist_post == hist_pre
            &&& post.input_buffer@ == Seq::<u8>::empty()
            &&& post.cursor_position == 0
            &&& post.suggestion@ == Seq::<u8>::empty()
            &&& post.suggestion_from_history == false
        },
        DecodedKey::EndOfInput => {
            &&& hist_post == hist_pre
            &&& post == pre
            &&& outcome == if pre.input_buffer@.len() == 0 {
                EditorOutcome::Terminated
            } else {
                EditorOutcome::Editing
            }
        },
        DecodedKey::Enter => {
            &&& outcome == EditorOutcome::Committed
            &&& post.input_buffer == pre.input_buffer
            &&& post.cursor_position == pre.cursor_position
            &&& post.suggestion@ == Seq::<u8>::empty()
            &&& post.suggestion_from_history == false
            &&& if pre.input_buffer@.len() > 0 && !(hist_pre.len() > 0 && hist_pre.last()
                == pre.input_buffer@) {
                hist_post == spec_ring_push(hist_pre, cap, pre.input_buffer@)
            } else {
                hist_post == hist_pre
            }
        },
        DecodedKey::ArrowDown => {
            &&& outcome == EditorOutcome::Editing
            &&& hist_post == hist_pre
            &&& post == pre
        },
        DecodedKey::Unknown => {
            &&& outcome == EditorOutcome::Editing
            &&& hist_post == hist_pre
            &&& post == pre
        },
    }
}

} // verus!
