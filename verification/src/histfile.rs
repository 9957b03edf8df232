//! The durable history format: one entry per newline-terminated line.
//! Entries are raw bytes end to end, so no line can fail to decode on load;
//! text that is not valid UTF-8 is carried through unchanged.

use crate::bytes::{clone_bytes, seq_views};
use crate::circular_buffer::{ring_after, CircularBuffer};
use crate::error::ShellError;
use vstd::prelude::*;

verus! {

/// Ring capacity used when the configuration gives none, or one that cannot
/// be used.
pub const DEFAULT_HISTORY_CAPACITY: usize = 10000;

/// Every byte of `s` is a decimal digit.
pub open spec fn spec_all_digits(s: Seq<u8>) -> bool {
    forall|i: int| 0 <= i < s.len() ==> 48 <= #[trigger] s[i] <= 57
}

/// The number denoted by a string of decimal digit bytes.
pub open spec fn spec_digits_value(s: Seq<u8>) -> int
    decreases s.len(),
{
    if s.len() == 0 {
        0
    } else {
        spec_digits_value(s.drop_last()) * 10 + (s.last() - 48)
    }
}

/// A digit string denotes a non-negative number.
proof fn lemma_digits_value_nonneg(s: Seq<u8>)
    requires
        spec_all_digits(s),
    ensures
        spec_digits_value(s) >= 0,
    decreases s.len(),
{
    if s.len() > 0 {
        assert(spec_all_digits(s.drop_last()));
        lemma_digits_value_nonneg(s.drop_last());
    }
}

/// A prefix of a digit string never denotes more than the whole string.
proof fn lemma_digits_value_prefix(s: Seq<u8>, i: int)
    requires
        spec_all_digits(s),
        0 <= i <= s.len(),
    ensures
        spec_digits_value(s.take(i)) <= spec_digits_value(s),
    decreases s.len() - i,
{
    if i == s.len() {
        assert(s.take(i) =~= s);
    } else {
        assert(spec_all_digits(s.take(i + 1)));
        assert(s.take(i + 1).drop_last() =~= s.take(i));
        lemma_digits_value_nonneg(s.take(i));
        lemma_digits_value_prefix(s, i + 1);
    }
}

/// The digit part of a capacity text: what follows one optional leading
/// plus sign.
pub open spec fn spec_capacity_digits(s: Seq<u8>) -> Seq<u8> {
    if s.len() > 0 && s[0] == 43 {
        s.skip(1)
    } else {
        s
    }
}

/// The ring capacity configured by the given text: its decimal value when
/// the text is a positive decimal number the machine can hold (one leading
/// `+` allowed), the default otherwise (also when no configuration is
/// present).
pub fn parse_capacity(text: Option<&Vec<u8>>) -> (r: usize)
    ensures
        r >= 1,
        match text {
            Some(t) => {
                let digits = spec_capacity_digits(t@);
                if digits.len() > 0 && spec_all_digits(digits) && 1 <= spec_digits_value(digits)
                    <= usize::MAX {
                    r == spec_digits_value(digits)
                } else {
                    r == DEFAULT_HISTORY_CAPACITY
                }
            },
            None => r == DEFAULT_HISTORY_CAPACITY,
        },
{
    let t = match text {
        Some(t) => t,
        None => {
            return DEFAULT_HISTORY_CAPACITY;
        },
    };
    if t.len() == 0 {
        return DEFAULT_HISTORY_CAPACITY;
    }
    let first: usize = if t[0] == 43 {
        1
    } else {
        0
    };
    if first == t.len() {
        return DEFAULT_HISTORY_CAPACITY;
    }
    let ghost digits = spec_capacity_digits(t@);
    let mut value: usize = 0;
    let mut i: usize = first;
    proof {
        assert(digits =~= t@.skip(first as int));
        assert(digits.take(0) =~= Seq::<u8>::empty());
    }
    while i < t.len()
        invariant
            text == Some(t),
            t@.len() > 0,
            first <= i <= t@.len(),
            digits == spec_capacity_digits(t@),
            digits == t@.skip(first as int),
            spec_all_digits(digits.take(i - first)),
            value == spec_digits_value(digits.take(i - first)),
        decreases t@.len() - i,
    {
        let b = t[i];
        proof {
            assert(digits[i - first] == t@[i as int]);
        }
        if b < 48 || b > 57 {
            proof {
                assert(!spec_all_digits(digits));
            }
            return DEFAULT_HISTORY_CAPACITY;
        }
        let d = (b - 48) as usize;
        proof {
            assert(digits.take(i - first + 1).drop_last() =~= digits.take(i - first));
            assert(digits.take(i - first + 1).last() == digits[i - first]);
            assert(spec_all_digits(digits.take(i - first + 1)));
        }
        let scaled = match value.checked_mul(10) {
            Some(v) => v,
            None => {
                proof {
                    if spec_all_digits(digits) {
                        lemma_digits_value_nonneg(digits.take(i - first + 1));
                        lemma_digits_value_prefix(digits, i - first + 1);
                    }
                }
                return DEFAULT_HISTORY_CAPACITY;
            },
        };
        value = match scaled.checked_add(d) {
            Some(v) => v,
            None => {
                proof {
                    if spec_all_digits(digits) {
                        lemma_digits_value_prefix(digits, i - first + 1);
                    }
                }
                return DEFAULT_HISTORY_CAPACITY;
            },
        };
        i = i + 1;
    }
    proof {
        assert(digits.take(t@.len() - first) =~= digits);
    }
    if value == 0 {
        return DEFAULT_HISTORY_CAPACITY;
    }
    value
}

/// The durable history format: each entry, oldest first, followed by one
/// newline byte.
pub open spec fn spec_encode(entries: Seq<Seq<u8>>) -> Seq<u8>
    decreases entries.len(),
{
    if entries.len() == 0 {
        Seq::empty()
    } else {
        entries.first() + seq![10u8] + spec_encode(entries.drop_first())
    }
}

/// Length of the first line of `s`: the index of its first newline byte, or
/// its whole length when it has none.
pub open spec fn spec_line_end(s: Seq<u8>) -> nat
    decreases s.len(),
{
    if s.len() == 0 {
        0
    } else if s.first() == 10 {
        0
    } else {
        1 + spec_line_end(s.drop_first())
    }
}

/// The entries held by a durable byte sequence: the text split at newline
/// bytes; an unterminated final fragment is kept, a terminating newline adds
/// no empty entry.
pub open spec fn spec_decode(s: Seq<u8>) -> Seq<Seq<u8>>
    decreases s.len(),
{
    if s.len() == 0 {
        Seq::empty()
    } else {
        let e = spec_line_end(s) as int;
        if e >= s.len() {
            seq![s]
        } else {
            seq![s.take(e)] + spec_decode(s.skip(e + 1))
        }
    }
}

/// The first line of a newline-free text is the whole text.
proof fn lemma_line_end_no_newline(a: Seq<u8>)
    requires
        !a.contains(10u8),
    ensures
        spec_line_end(a) == a.len(),
    decreases a.len(),
{
    if a.len() > 0 {
        assert(a.first() != 10) by {
            assert(a[0] == a.first());
        }
        assert(!a.drop_first().contains(10u8)) by {
            assert(forall|j: int|
                0 <= j < a.drop_first().len() ==> #[trigger] a.drop_first()[j] == a[j + 1]);
        }
        lemma_line_end_no_newline(a.drop_first());
    }
}

/// The first line of a newline-free text followed by a newline is exactly
/// that text.
proof fn lemma_line_end_concat(a: Seq<u8>, b: Seq<u8>)
    requires
        !a.contains(10u8),
        b.len() > 0,
        b.first() == 10u8,
    ensures
        spec_line_end(a + b) == a.len(),
    decreases a.len(),
{
    if a.len() == 0 {
        assert(a + b =~= b);
    } else {
        assert((a + b).first() == a.first());
        assert(a.first() != 10) by {
            assert(a[0] == a.first());
        }
        assert(!a.drop_first().contains(10u8)) by {
            assert(forall|j: int|
                0 <= j < a.drop_first().len() ==> #[trigger] a.drop_first()[j] == a[j + 1]);
        }
        assert((a + b).drop_first() =~= a.drop_first() + b);
        lemma_line_end_concat(a.drop_first(), b);
    }
}

/// Entries free of newline bytes survive the durable form unchanged:
/// decoding what was encoded gives back the same entries in the same order.
pub proof fn lemma_decode_encode(entries: Seq<Seq<u8>>)
    requires
        forall|i: int| 0 <= i < entries.len() ==> !(#[trigger] entries[i]).contains(10u8),
    ensures
        spec_decode(spec_encode(entries)) == entries,
    decreases entries.len(),
{
    if entries.len() > 0 {
        let first = entries.first();
        let rest = entries.drop_first();
        let s = spec_encode(entries);
        assert(!first.contains(10u8)) by {
            assert(entries[0] == first);
        }
        assert(forall|i: int| 0 <= i < rest.len() ==> #[trigger] rest[i] == entries[i + 1]);
        lemma_decode_encode(rest);
        lemma_line_end_concat(first, seq![10u8] + spec_encode(rest));
        assert(s =~= first + (seq![10u8] + spec_encode(rest)));
        assert(spec_line_end(s) == first.len());
        assert(s.take(first.len() as int) =~= first);
        assert(s.skip(first.len() as int + 1) =~= spec_encode(rest));
        assert(seq![s.take(first.len() as int)] + spec_decode(spec_encode(rest)) =~= entries);
    }
}

/// Encode a ring's contents into the durable history format, oldest first.
pub fn encode_history(history: &CircularBuffer<Vec<u8>>) -> (r: Vec<u8>)
    ensures
        r@ == spec_encode(seq_views(history@)),
{
    let mut out: Vec<u8> = Vec::new();
    let mut it = history.iter();
    proof {
        assert(Seq::<u8>::empty() + spec_encode(seq_views(history@)) =~= spec_encode(
            seq_views(history@),
        ));
    }
    loop
        invariant
            it.source() == history@,
            spec_encode(seq_views(history@)) == out@ + spec_encode(seq_views(it.pending())),
        decreases it.pending().len(),
    {
        let ghost pend = seq_views(it.pending());
        let ghost out_before = out@;
        match it.next() {
            None => {
                proof {
                    assert(out@ + spec_encode(pend) =~= out@);
                }
                return out;
            },
            Some(entry) => {
                let mut chunk = clone_bytes(entry);
                out.append(&mut chunk);
                out.push(10);
                proof {
                    assert(pend.first() == entry@);
                    assert(pend.drop_first() =~= seq_views(it.pending()));
                    assert(out_before + (entry@ + seq![10u8] + spec_encode(pend.drop_first()))
                        =~= out@ + spec_encode(pend.drop_first()));
                }
            },
        }
    }
}

/// Decode a durable history file into its entries, oldest first.
pub fn decode_history(data: &Vec<u8>) -> (r: Vec<Vec<u8>>)
    ensures
        seq_views(r@) == spec_decode(data@),
{
    let mut out: Vec<Vec<u8>> = Vec::new();
    let mut cur: Vec<u8> = Vec::new();
    let mut i: usize = 0;
    proof {
        assert(cur@ + data@.skip(0) =~= data@);
        assert(seq_views(out@) + spec_decode(data@) =~= spec_decode(data@));
    }
    while i < data.len()
        invariant
            i <= data@.len(),
            !cur@.contains(10u8),
            spec_decode(data@) == seq_views(out@) + spec_decode(cur@ + data@.skip(i as int)),
        decreases data@.len() - i,
    {
        let ghost rest = data@.skip(i as int);
        let ghost cur_before = cur@;
        let ghost out_before = out@;
        let b = data[i];
        proof {
            assert(rest.first() == data@[i as int]);
        }
        if b == 10 {
            out.push(cur);
            cur = Vec::new();
            proof {
                lemma_line_end_concat(cur_before, rest);
                let joined = cur_before + rest;
                assert(joined.len() > 0);
                assert(joined.take(cur_before.len() as int) =~= cur_before);
                assert(joined.skip(cur_before.len() as int + 1) =~= cur@ + data@.skip(
                    i as int + 1,
                ));
                assert(seq_views(out@) =~= seq_views(out_before).push(cur_before));
                assert(seq_views(out_before) + (seq![cur_before] + spec_decode(
                    cur@ + data@.skip(i as int + 1),
                )) =~= seq_views(out@) + spec_decode(cur@ + data@.skip(i as int + 1)));
            }
        } else {
            cur.push(b);
            proof {
                assert(cur_before + rest =~= cur@ + data@.skip(i as int + 1));
                assert(!cur@.contains(10u8)) by {
                    assert(forall|j: int|
                        0 <= j < cur_before.len() ==> #[trigger] cur@[j] == cur_before[j]);
                }
            }
        }
        i = i + 1;
    }
    proof {
        assert(cur@ + data@.skip(data@.len() as int) =~= cur@);
    }
    if cur.len() > 0 {
        proof {
            lemma_line_end_no_newline(cur@);
        }
        let ghost out_before = out@;
        let ghost last_line = cur@;
        out.push(cur);
        proof {
            assert(spec_decode(last_line) =~= seq![last_line]);
            assert(seq_views(out@) =~= seq_views(out_before).push(last_line));
            assert(seq_views(out_before) + spec_decode(last_line) =~= seq_views(out@));
        }
        out
    } else {
        proof {
            assert(cur@ =~= Seq::<u8>::empty());
            assert(seq_views(out@) + spec_decode(cur@) =~= seq_views(out@));
        }
        out
    }
}

/// Build a history ring of the given capacity from decoded entries, oldest
/// first; entries beyond capacity evict the oldest, exactly as pushes during
/// a session would.  Fails exactly on capacity zero.
pub fn history_from_lines(lines: &Vec<Vec<u8>>, capacity: usize) -> (r: Result<
    CircularBuffer<Vec<u8>>,
    ShellError,
>)
    ensures
        match r {
            Ok(h) => {
                &&& capacity >= 1
                &&& h.spec_capacity() == capacity
                &&& seq_views(h@) == ring_after(seq_views(lines@), capacity as int)
            },
            Err(e) => capacity == 0 && e == ShellError::InvalidCapacity,
        },
{
    let mut h = match CircularBuffer::<Vec<u8>>::new(capacity) {
        Ok(h) => h,
        Err(e) => {
            return Err(e);
        },
    };
    let ghost all = seq_views(lines@);
    let mut i: usize = 0;
    proof {
        assert(seq_views(h@) =~= Seq::<Seq<u8>>::empty());
        assert(ring_after(all.take(0), capacity as int) =~= Seq::<Seq<u8>>::empty());
    }
    while i < lines.len()
        invariant
            i <= lines@.len(),
            capacity >= 1,
            all == seq_views(lines@),
            h.spec_capacity() == capacity,
            seq_views(h@) == ring_after(all.take(i as int), capacity as int),
        decreases lines@.len() - i,
    {
        let ghost h_before = h@;
        let line = clone_bytes(&lines[i]);
        let ghost line_snap = line;
        h.push(line);
        proof {
            crate::circular_buffer::lemma_seq_views_ring_push(
                h_before,
                capacity as int,
                line_snap,
            );
            assert(all.take(i as int + 1).drop_last() =~= all.take(i as int));
            assert(all.take(i as int + 1).last() == lines@[i as int]@);
        }
        i = i + 1;
    }
    proof {
        assert(all.take(lines@.len() as int) =~= all);
    }
    Ok(h)
}

/// Saving a ring's contents to the durable format and reloading them with
/// capacity `cap` reproduces the same ordered entries, truncated to the last
/// `cap` when the file holds more lines than the ring can hold.  Entries may
/// not contain the format's line separator.
pub proof fn lemma_save_load_round_trip(entries: Seq<Seq<u8>>, cap: int)
    requires
        1 <= cap,
        forall|i: int| 0 <= i < entries.len() ==> !(#[trigger] entries[i]).contains(10u8),
    ensures
        ring_after(spec_decode(spec_encode(entries)), cap) == entries.skip(
            if entries.len() <= cap {
                0
            } else {
                entries.len() - cap
            },
        ),
{
    lemma_decode_encode(entries);
    crate::circular_buffer::lemma_ring_retains_latest(entries, cap);
}

} // verus!
