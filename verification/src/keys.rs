use vstd::prelude::*;

verus! {

/// A logical edit event decoded from the raw terminal byte stream.
#[derive(Clone, Copy, Debug, PartialEq, Eq, Structural)]
pub enum DecodedKey {
    Char(u8),
    Enter,
    Backspace,
    Delete,
    Interrupt,
    EndOfInput,
    Tab,
    ArrowUp,
    ArrowDown,
    ArrowLeft,
    ArrowRight,
    Unknown,
}

/// Decoder state.  `Idle` consumes one byte and decides; after an escape
/// introducer the decoder commits to consuming exactly two more bytes
/// (`remaining` counts them down) before yielding exactly one event.  No byte
/// is ever pushed back.
#[derive(Clone, Copy, Debug, PartialEq, Eq, Structural)]
pub enum DecoderState {
    Idle,
    AwaitingEscapeBody { remaining: u8 },
}

/// The control-byte convention for a byte read in the `Idle` state, apart
/// from the escape introducer `0x1B`, which the state machine handles.
pub open spec fn spec_decode_single(b: u8) -> DecodedKey {
    if b == 0x03 {
        DecodedKey::Interrupt
    } else if b == 0x04 {
        DecodedKey::EndOfInput
    } else if b == 0x09 {
        DecodedKey::Tab
    } else if b == 0x0d {
        DecodedKey::Enter
    } else if b == 0x7e {
        DecodedKey::Delete
    } else if b == 0x7f {
        DecodedKey::Backspace
    } else {
        DecodedKey::Char(b)
    }
}

/// The event determined by the second byte of an escape body.
pub open spec fn spec_decode_escape(b: u8) -> DecodedKey {
    if b == 0x41 {
        DecodedKey::ArrowUp
    } else if b == 0x42 {
        DecodedKey::ArrowDown
    } else if b == 0x43 {
        DecodedKey::ArrowRight
    } else if b == 0x44 {
        DecodedKey::ArrowLeft
    } else {
        DecodedKey::Unknown
    }
}

/// One transition of the decoder on one input byte.
pub open spec fn spec_step(st: DecoderState, b: u8) -> (DecoderState, Option<DecodedKey>) {
    match st {
        DecoderState::Idle => {
            if b == 0x1b {
                (DecoderState::AwaitingEscapeBody { remaining: 2 }, None)
            } else {
                (DecoderState::Idle, Some(spec_decode_single(b)))
            }
        },
        DecoderState::AwaitingEscapeBody { remaining } => {
            if remaining > 1 {
                (DecoderState::AwaitingEscapeBody { remaining: 1 }, None)
            } else {
                (DecoderState::Idle, Some(spec_decode_escape(b)))
            }
        },
    }
}

/// The decoder run over a whole byte sequence: final state and the events
/// yielded, in order.
pub open spec fn spec_run(st: DecoderState, bytes: Seq<u8>) -> (DecoderState, Seq<DecodedKey>)
    decreases bytes.len(),
{
    if bytes.len() == 0 {
        (st, Seq::empty())
    } else {
        let head_step = spec_step(st, bytes.first());
        let rest = spec_run(head_step.0, bytes.drop_first());
        (
            rest.0,
            match head_step.1 {
                Some(k) => seq![k] + rest.1,
                None => rest.1,
            },
        )
    }
}

impl DecoderState {
    /// Feed one byte to the decoder; yields at most one decoded event.
    pub fn step(self, b: u8) -> (r: (DecoderState, Option<DecodedKey>))
        ensures
            r == spec_step(self, b),
    {
        match self {
            DecoderState::Idle => {
                if b == 0x1b {
                    (DecoderState::AwaitingEscapeBody { remaining: 2 }, None)
                } else if b == 0x03 {
                    (DecoderState::Idle, Some(DecodedKey::Interrupt))
                } else if b == 0x04 {
                    (DecoderState::Idle, Some(DecodedKey::EndOfInput))
                } else if b == 0x09 {
                    (DecoderState::Idle, Some(DecodedKey::Tab))
                } else if b == 0x0d {
                    (DecoderState::Idle, Some(DecodedKey::Enter))
                } else if b == 0x7e {
                    (DecoderState::Idle, Some(DecodedKey::Delete))
                } else if b == 0x7f {
                    (DecoderState::Idle, Some(DecodedKey::Backspace))
                } else {
                    (DecoderState::Idle, Some(DecodedKey::Char(b)))
                }
            },
            DecoderState::AwaitingEscapeBody { remaining } => {
                if remaining > 1 {
                    (DecoderState::AwaitingEscapeBody { remaining: 1 }, None)
                } else if b == 0x41 {
                    (DecoderState::Idle, Some(DecodedKey::ArrowUp))
                } else if b == 0x42 {
                    (DecoderState::Idle, Some(DecodedKey::ArrowDown))
                } else if b == 0x43 {
                    (DecoderState::Idle, Some(DecodedKey::ArrowRight))
                } else if b == 0x44 {
                    (DecoderState::Idle, Some(DecodedKey::ArrowLeft))
                } else {
                    (DecoderState::Idle, Some(DecodedKey::Unknown))
                }
            },
        }
    }
}

/// Decode a whole byte sequence, starting idle: every byte is consumed and
/// the events come in order.
pub fn decode_bytes(bytes: &Vec<u8>) -> (keys: Vec<DecodedKey>)
    ensures
        keys@ == spec_run(DecoderState::Idle, bytes@).1,
{
    let mut keys: Vec<DecodedKey> = Vec::new();
    let mut st = DecoderState::Idle;
    let mut i: usize = 0;
    proof {
        assert(bytes@.skip(0) =~= bytes@);
    }
    while i < bytes.len()
        invariant
            i <= bytes.len(),
            spec_run(DecoderState::Idle, bytes@).1 == keys@ + spec_run(st, bytes@.skip(i as int)).1,
        decreases bytes.len() - i,
    {
        let ghost rest = bytes@.skip(i as int);
        let ghost keys_before = keys@;
        let (st2, out) = st.step(bytes[i]);
        proof {
            assert(rest.first() == bytes@[i as int]);
            assert(rest.drop_first() =~= bytes@.skip(i as int + 1));
        }
        st = st2;
        let ghost rest_keys = spec_run(st2, bytes@.skip(i as int + 1)).1;
        match out {
            Some(k) => {
                keys.push(k);
                proof {
                    assert(keys_before + (seq![k] + rest_keys) =~= keys@ + rest_keys);
                }
            },
            None => {},
        }
        i = i + 1;
    }
    proof {
        assert(bytes@.skip(bytes@.len() as int) =~= Seq::<u8>::empty());
        assert(keys@ + Seq::<DecodedKey>::empty() =~= keys@);
    }
    keys
}

} // verus!
