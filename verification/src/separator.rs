//! Detector for the blank line that ends a header block.

use vstd::prelude::*;

verus! {

/// Carriage return.
pub const CR: u8 = 13;

/// Line feed.
pub const LF: u8 = 10;

/// How much of the sequence `\r\n\r\n` the most recent bytes have spelled.
#[derive(Clone, Copy, Debug, PartialEq, Eq, Structural)]
pub enum PacketSeparatorState {
    Searching,
    FirstReturn,
    FirstNewline,
    SecondReturn,
    SecondNewline,
}

/// The state after `byte` was read in state `state`.
pub open spec fn step_spec(state: PacketSeparatorState, byte: u8) -> PacketSeparatorState {
    match state {
        PacketSeparatorState::Searching => if byte == CR {
            PacketSeparatorState::FirstReturn
        } else {
            PacketSeparatorState::Searching
        },
        PacketSeparatorState::FirstReturn => if byte == LF {
            PacketSeparatorState::FirstNewline
        } else {
            PacketSeparatorState::Searching
        },
        PacketSeparatorState::FirstNewline => if byte == CR {
            PacketSeparatorState::SecondReturn
        } else {
            PacketSeparatorState::Searching
        },
        PacketSeparatorState::SecondReturn => if byte == LF {
            PacketSeparatorState::SecondNewline
        } else {
            PacketSeparatorState::Searching
        },
        PacketSeparatorState::SecondNewline => PacketSeparatorState::SecondNewline,
    }
}

/// The state reached from `PacketSeparatorState::Searching` after all of `bytes`.
pub open spec fn run(bytes: Seq<u8>) -> PacketSeparatorState
    decreases bytes.len(),
{
    if bytes.len() == 0 {
        PacketSeparatorState::Searching
    } else {
        step_spec(run(bytes.drop_last()), bytes.last())
    }
}

impl PacketSeparatorState {
    /// Advances the detector by one byte.
    pub fn step(&self, byte: &u8) -> (next: Self)
        ensures
            next == step_spec(*self, *byte),
    {
        match self {
            PacketSeparatorState::Searching => {
                if *byte == CR {
                    Self::FirstReturn
                } else {
                    Self::Searching
                }
            },
            PacketSeparatorState::FirstReturn => {
                if *byte == LF {
                    Self::FirstNewline
                } else {
                    Self::Searching
                }
            },
            PacketSeparatorState::FirstNewline => {
                if *byte == CR {
                    Self::SecondReturn
                } else {
                    Self::Searching
                }
            },
            PacketSeparatorState::SecondReturn => {
                if *byte == LF {
                    Self::SecondNewline
                } else {
                    Self::Searching
                }
            },
            PacketSeparatorState::SecondNewline => Self::SecondNewline,
        }
    }

    /// Whether the whole of `\r\n\r\n` has been seen.
    pub fn is_done(&self) -> (done: bool)
        ensures
            done == (*self == PacketSeparatorState::SecondNewline),
    {
        if let PacketSeparatorState::SecondNewline = self {
            true
        } else {
            false
        }
    }
}

/// The four bytes of a blank line, `\r\n\r\n`, stand in `bytes` at `at`.
pub open spec fn blank_line_at(bytes: Seq<u8>, at: int) -> bool {
    &&& 0 <= at
    &&& at + 4 <= bytes.len()
    &&& bytes[at] == CR
    &&& bytes[at + 1] == LF
    &&& bytes[at + 2] == CR
    &&& bytes[at + 3] == LF
}

/// `bytes` hold a blank line.
pub open spec fn has_blank_line(bytes: Seq<u8>) -> bool {
    exists|at: int| blank_line_at(bytes, at)
}

/// Two carriage returns stand in `bytes` at `at`.
pub open spec fn doubled_return_at(bytes: Seq<u8>, at: int) -> bool {
    0 <= at && at + 1 < bytes.len() && bytes[at] == CR && bytes[at + 1] == CR
}

/// `bytes` hold two carriage returns in a row.
pub open spec fn has_doubled_return(bytes: Seq<u8>) -> bool {
    exists|at: int| doubled_return_at(bytes, at)
}

/// The state that the end of `bytes` calls for: the longest beginning of a
/// blank line that `bytes` end with, or the final state where they hold a
/// whole one.
pub open spec fn state_by_suffix(bytes: Seq<u8>) -> PacketSeparatorState {
    let n = bytes.len() as int;
    if has_blank_line(bytes) {
        PacketSeparatorState::SecondNewline
    } else if n >= 3 && bytes[n - 3] == CR && bytes[n - 2] == LF && bytes[n - 1] == CR {
        PacketSeparatorState::SecondReturn
    } else if n >= 2 && bytes[n - 2] == CR && bytes[n - 1] == LF {
        PacketSeparatorState::FirstNewline
    } else if n >= 1 && bytes[n - 1] == CR {
        PacketSeparatorState::FirstReturn
    } else {
        PacketSeparatorState::Searching
    }
}

/// One more byte brings a blank line only at the very end.
pub proof fn lemma_blank_line_push(bytes: Seq<u8>, byte: u8)
    ensures
        has_blank_line(bytes.push(byte)) <==> has_blank_line(bytes) || blank_line_at(
            bytes.push(byte),
            bytes.len() - 3,
        ),
{
    let longer = bytes.push(byte);
    if has_blank_line(longer) {
        let at = choose|at: int| blank_line_at(longer, at);
        if at + 4 <= bytes.len() {
            assert(blank_line_at(bytes, at));
        } else {
            assert(at == bytes.len() - 3);
        }
    }
    if has_blank_line(bytes) {
        let at = choose|at: int| blank_line_at(bytes, at);
        assert(blank_line_at(longer, at));
    }
}

/// What the detector has seen, by its state: each state but the first tells
/// how `bytes` end, and the final state that they hold a blank line.
pub proof fn lemma_state_tells_suffix(bytes: Seq<u8>)
    ensures
        ({
            let n = bytes.len() as int;
            match run(bytes) {
                PacketSeparatorState::Searching => true,
                PacketSeparatorState::FirstReturn => n >= 1 && bytes[n - 1] == CR,
                PacketSeparatorState::FirstNewline => n >= 2 && bytes[n - 2] == CR && bytes[n - 1]
                    == LF,
                PacketSeparatorState::SecondReturn => n >= 3 && bytes[n - 3] == CR && bytes[n - 2]
                    == LF && bytes[n - 1] == CR,
                PacketSeparatorState::SecondNewline => has_blank_line(bytes),
            }
        }),
    decreases bytes.len(),
{
    if bytes.len() > 0 {
        let before = bytes.drop_last();
        lemma_state_tells_suffix(before);
        assert(before.push(bytes.last()) =~= bytes);
        lemma_blank_line_push(before, bytes.last());
        if run(bytes) == PacketSeparatorState::SecondNewline && run(before)
            != PacketSeparatorState::SecondNewline {
            assert(blank_line_at(bytes, bytes.len() - 4));
        }
    }
}

/// The detector ends only on a blank line: where it is in its final state,
/// the bytes hold `\r\n\r\n`.
pub proof fn lemma_done_means_blank_line(bytes: Seq<u8>)
    requires
        run(bytes) == PacketSeparatorState::SecondNewline,
    ensures
        has_blank_line(bytes),
{
    lemma_state_tells_suffix(bytes);
}

/// The byte on which the detector ends is the last of a blank line.
pub proof fn lemma_done_at_blank_line(bytes: Seq<u8>)
    requires
        bytes.len() > 0,
        run(bytes) == PacketSeparatorState::SecondNewline,
        run(bytes.drop_last()) != PacketSeparatorState::SecondNewline,
    ensures
        blank_line_at(bytes, bytes.len() - 4),
{
    lemma_state_tells_suffix(bytes.drop_last());
}

/// The final state is never left.
pub proof fn lemma_done_stays(bytes: Seq<u8>, more: Seq<u8>)
    requires
        run(bytes) == PacketSeparatorState::SecondNewline,
    ensures
        run(bytes + more) == PacketSeparatorState::SecondNewline,
    decreases more.len(),
{
    if more.len() == 0 {
        assert(bytes + more =~= bytes);
    } else {
        lemma_done_stays(bytes, more.drop_last());
        assert((bytes + more).drop_last() =~= bytes + more.drop_last());
    }
}

/// Among bytes that never hold two carriage returns in a row, the detector
/// is exact: its state is the one that the end of the bytes calls for.
pub proof fn lemma_exact_without_doubled_return(bytes: Seq<u8>)
    requires
        !has_doubled_return(bytes),
    ensures
        run(bytes) == state_by_suffix(bytes),
    decreases bytes.len(),
{
    if bytes.len() > 0 {
        let before = bytes.drop_last();
        let byte = bytes.last();
        let n = bytes.len() as int;
        assert(before.push(byte) =~= bytes);
        assert(!has_doubled_return(before)) by {
            if has_doubled_return(before) {
                let i = choose|i: int| doubled_return_at(before, i);
                assert(doubled_return_at(bytes, i));
            }
        }
        lemma_exact_without_doubled_return(before);
        lemma_blank_line_push(before, byte);
        if n >= 2 && byte == CR {
            assert(before[n - 2] != CR) by {
                if before[n - 2] == CR {
                    assert(doubled_return_at(bytes, n - 2));
                }
            }
        }
        assert(forall|i: int| 0 <= i < n - 1 ==> before[i] == bytes[i]);
    }
}

/// A blank line among bytes that never hold two carriage returns in a row
/// is found.
pub proof fn lemma_blank_line_is_found(bytes: Seq<u8>)
    requires
        has_blank_line(bytes),
        !has_doubled_return(bytes),
    ensures
        run(bytes) == PacketSeparatorState::SecondNewline,
{
    lemma_exact_without_doubled_return(bytes);
}

} // verus!
