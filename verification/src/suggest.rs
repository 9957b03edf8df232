use crate::bytes::{
    bytes_equal, clone_bytes, head_to, is_prefix, is_prefix_of, seq_views, tail_from,
};
use crate::circular_buffer::CircularBuffer;
use vstd::prelude::*;

verus! {

/// Index where the completion token begins: just after the last space, or
/// the start of the buffer when it holds no space.
pub open spec fn spec_token_start(s: Seq<u8>) -> int
    decreases s.len(),
{
    if s.len() == 0 {
        0
    } else if s.last() == 32 {
        s.len() as int
    } else {
        spec_token_start(s.drop_last())
    }
}

/// The token always lies within the buffer.
pub proof fn lemma_token_start_bounds(s: Seq<u8>)
    ensures
        0 <= spec_token_start(s) <= s.len(),
    decreases s.len(),
{
    if s.len() > 0 && s.last() != 32 {
        lemma_token_start_bounds(s.drop_last());
    }
}

/// The completion token: the substring after the last space (the whole
/// buffer when it holds no space).
pub open spec fn spec_last_token(s: Seq<u8>) -> Seq<u8> {
    s.skip(spec_token_start(s))
}

/// The first entry, in the given enumeration order, whose name starts with
/// the pattern.
pub open spec fn spec_first_prefix_match(entries: Seq<Seq<u8>>, pat: Seq<u8>) -> Option<Seq<u8>>
    decreases entries.len(),
{
    if entries.len() == 0 {
        None
    } else if is_prefix_of(pat, entries.first()) {
        Some(entries.first())
    } else {
        spec_first_prefix_match(entries.drop_first(), pat)
    }
}

/// The first entry, in the given order, that starts with the whole buffer
/// and is not byte-equal to it.
pub open spec fn spec_first_history_match(entries: Seq<Seq<u8>>, buffer: Seq<u8>) -> Option<Seq<u8>>
    decreases entries.len(),
{
    if entries.len() == 0 {
        None
    } else if is_prefix_of(buffer, entries.first()) && entries.first() != buffer {
        Some(entries.first())
    } else {
        spec_first_history_match(entries.drop_first(), buffer)
    }
}

/// The suggestion for a buffer: no suggestion when the token is empty or
/// starts with `-`; otherwise the buffer completed by the first matching
/// directory entry; otherwise the first newest-first history entry that
/// extends the whole buffer; otherwise none.  The result is always the full
/// line the suggestion renders.
pub open spec fn spec_suggestion(
    buffer: Seq<u8>,
    dir_entries: Seq<Seq<u8>>,
    history: Seq<Seq<u8>>,
) -> Option<Seq<u8>> {
    let start = spec_token_start(buffer);
    let tok = spec_last_token(buffer);
    if tok.len() == 0 || tok.first() == 45 {
        None
    } else {
        match spec_first_prefix_match(dir_entries, tok) {
            Some(e) => Some(buffer.take(start) + e),
            None => spec_first_history_match(history.reverse(), buffer),
        }
    }
}

/// Whether the suggestion for this buffer comes from the history fallback
/// rather than a directory match: the token is usable, no directory entry
/// extends it, and some history entry extends the whole buffer.
pub open spec fn spec_suggestion_from_history(
    buffer: Seq<u8>,
    dir_entries: Seq<Seq<u8>>,
    history: Seq<Seq<u8>>,
) -> bool {
    let tok = spec_last_token(buffer);
    &&& tok.len() > 0
    &&& tok.first() != 45
    &&& spec_first_prefix_match(dir_entries, tok) is None
    &&& spec_first_history_match(history.reverse(), buffer) is Some
}

/// A directory match extends the pattern.
proof fn lemma_prefix_match_is_match(entries: Seq<Seq<u8>>, pat: Seq<u8>)
    ensures
        spec_first_prefix_match(entries, pat) matches Some(e) ==> is_prefix_of(pat, e),
    decreases entries.len(),
{
    if entries.len() > 0 && !is_prefix_of(pat, entries.first()) {
        lemma_prefix_match_is_match(entries.drop_first(), pat);
    }
}

/// A history match extends the whole buffer and differs from it.
proof fn lemma_history_match_is_match(entries: Seq<Seq<u8>>, buffer: Seq<u8>)
    ensures
        spec_first_history_match(entries, buffer) matches Some(e) ==> is_prefix_of(buffer, e)
            && e != buffer,
    decreases entries.len(),
{
    if entries.len() > 0 && !(is_prefix_of(buffer, entries.first()) && entries.first() != buffer) {
        lemma_history_match_is_match(entries.drop_first(), buffer);
    }
}

/// Every suggestion is the buffer itself extended: the completed line starts
/// with the current buffer and is at least as long.
pub proof fn lemma_suggestion_extends_buffer(
    buffer: Seq<u8>,
    dir_entries: Seq<Seq<u8>>,
    history: Seq<Seq<u8>>,
)
    ensures
        spec_suggestion(buffer, dir_entries, history) matches Some(s) ==> is_prefix_of(buffer, s),
{
    lemma_token_start_bounds(buffer);
    let start = spec_token_start(buffer);
    let tok = buffer.skip(start);
    if tok.len() > 0 && tok.first() != 45 {
        match spec_first_prefix_match(dir_entries, tok) {
            Some(e) => {
                lemma_prefix_match_is_match(dir_entries, tok);
                let s = buffer.take(start) + e;
                assert(buffer.len() <= s.len());
                assert forall|i: int| 0 <= i < buffer.len() implies s.take(buffer.len() as int)[i]
                    == buffer[i] by {
                    if i >= start {
                        assert(e.take(tok.len() as int)[i - start] == tok[i - start]);
                    }
                }
                assert(s.take(buffer.len() as int) =~= buffer);
            },
            None => {
                lemma_history_match_is_match(history.reverse(), buffer);
            },
        }
    }
}

/// Index where the completion token of the buffer begins.
pub fn token_start(buffer: &Vec<u8>) -> (i: usize)
    ensures
        i as int == spec_token_start(buffer@),
        i <= buffer@.len(),
{
    let mut j = buffer.len();
    proof {
        assert(buffer@.take(buffer@.len() as int) =~= buffer@);
    }
    while j > 0
        invariant
            j <= buffer@.len(),
            spec_token_start(buffer@) == spec_token_start(buffer@.take(j as int)),
        decreases j,
    {
        if buffer[j - 1] == 32 {
            proof {
                assert(buffer@.take(j as int).last() == 32);
            }
            return j;
        }
        proof {
            assert(buffer@.take(j as int).drop_last() =~= buffer@.take(j as int - 1));
        }
        j = j - 1;
    }
    proof {
        assert(buffer@.take(0).len() == 0);
    }
    0
}

/// Scan the working directory's entry names, in the order given, and return
/// the first whose name starts with the pattern.
pub fn find_match_directory(entries: &Vec<Vec<u8>>, pattern: &Vec<u8>) -> (r: Option<Vec<u8>>)
    ensures
        match r {
            Some(e) => spec_first_prefix_match(seq_views(entries@), pattern@) == Some(e@),
            None => spec_first_prefix_match(seq_views(entries@), pattern@) is None,
        },
{
    let ghost all = seq_views(entries@);
    let mut i: usize = 0;
    proof {
        assert(all.skip(0) =~= all);
    }
    while i < entries.len()
        invariant
            i <= entries@.len(),
            all == seq_views(entries@),
            spec_first_prefix_match(all, pattern@) == spec_first_prefix_match(
                all.skip(i as int),
                pattern@,
            ),
        decreases entries@.len() - i,
    {
        proof {
            assert(all.skip(i as int).first() == all[i as int]);
            assert(all[i as int] == entries@[i as int]@);
        }
        if is_prefix(pattern, &entries[i]) {
            return Some(clone_bytes(&entries[i]));
        }
        proof {
            assert(all.skip(i as int).drop_first() =~= all.skip(i as int + 1));
        }
        i = i + 1;
    }
    None
}

/// Scan history newest-first and return the first entry that starts with the
/// whole buffer and is not byte-equal to it.
pub fn find_match_history(history: &CircularBuffer<Vec<u8>>, pattern: &Vec<u8>) -> (r: Option<
    Vec<u8>,
>)
    ensures
        match r {
            Some(e) => spec_first_history_match(seq_views(history@).reverse(), pattern@) == Some(
                e@,
            ),
            None => spec_first_history_match(seq_views(history@).reverse(), pattern@) is None,
        },
{
    let ghost rev = seq_views(history@).reverse();
    let mut it = history.iter_rev();
    proof {
        assert(seq_views(it.pending()) =~= rev);
    }
    loop
        invariant
            it.source() == history@,
            rev == seq_views(history@).reverse(),
            spec_first_history_match(rev, pattern@) == spec_first_history_match(
                seq_views(it.pending()),
                pattern@,
            ),
        decreases it.pending().len(),
    {
        let ghost pend = seq_views(it.pending());
        match it.next() {
            None => {
                return None;
            },
            Some(entry) => {
                proof {
                    assert(pend.first() == entry@);
                }
                if is_prefix(pattern, entry) && !bytes_equal(entry, pattern) {
                    return Some(clone_bytes(entry));
                }
                proof {
                    assert(pend.drop_first() =~= seq_views(it.pending()));
                }
            },
        }
    }
}

/// The suggestion for the current buffer, as the full rendered line:
/// directory-prefix match on the token first, then history-prefix match on
/// the whole buffer, newest first.  The second component tells whether the
/// suggestion came from the history fallback.
pub fn compute_suggestion(
    buffer: &Vec<u8>,
    dir_entries: &Vec<Vec<u8>>,
    history: &CircularBuffer<Vec<u8>>,
) -> (r: (Option<Vec<u8>>, bool))
    ensures
        match r.0 {
            Some(s) => spec_suggestion(buffer@, seq_views(dir_entries@), seq_views(history@))
                == Some(s@),
            None => spec_suggestion(buffer@, seq_views(dir_entries@), seq_views(history@)) is None,
        },
        r.1 == spec_suggestion_from_history(
            buffer@,
            seq_views(dir_entries@),
            seq_views(history@),
        ),
{
    let start = token_start(buffer);
    if start == buffer.len() {
        return (None, false);
    }
    proof {
        assert(spec_last_token(buffer@).len() > 0);
        assert(spec_last_token(buffer@).first() == buffer@[start as int]);
    }
    if buffer[start] == 45 {
        return (None, false);
    }
    let tok = tail_from(buffer, start);
    match find_match_directory(dir_entries, &tok) {
        Some(e) => {
            let mut line = head_to(buffer, start);
            let mut completion = e;
            line.append(&mut completion);
            (Some(line), false)
        },
        None => {
            match find_match_history(history, buffer) {
                Some(e) => (Some(e), true),
                None => (None, false),
            }
        },
    }
}

} // verus!
