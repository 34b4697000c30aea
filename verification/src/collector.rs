//! Expiry of uploads: which entries of the storage root a sweep removes.

use vstd::prelude::*;
use vstd::string::StringSliceAdditionalSpecFns;
use crate::bytes::same_bytes;

verus! {

/// The entry of the storage root that is never swept: it holds assets that
/// are no uploads.
pub const RESERVED: &'static str = "static";

/// One entry of the storage root as a sweep found it.
#[derive(Debug, PartialEq, Eq)]
pub struct Entry {
    /// The entry's name.
    pub name: Vec<u8>,
    /// Nanoseconds since the entry was created, where that could be read.
    pub age: Option<u128>,
}

/// What a sweep does with an entry.
#[derive(Clone, Copy, Debug, PartialEq, Eq, Structural)]
pub enum Verdict {
    /// The reserved entry: left alone.
    Reserved,
    /// The age could not be read: left alone.
    Unknown,
    /// Not older than the lifetime: left alone.
    Keep,
    /// Older than the lifetime: removed with all that it holds.
    Remove,
}

/// What a sweep does with an entry of this name and age, for uploads that
/// live `lifetime` nanoseconds.
pub open spec fn judge_spec(name: Seq<u8>, age: Option<u128>, lifetime: u128) -> Verdict {
    if name == RESERVED.spec_bytes() {
        Verdict::Reserved
    } else {
        match age {
            None => Verdict::Unknown,
            Some(age) => if age > lifetime {
                Verdict::Remove
            } else {
                Verdict::Keep
            },
        }
    }
}

/// A sweep removes entry `i` of `entries`.
pub open spec fn expired(entries: Seq<Entry>, i: int, lifetime: u128) -> bool {
    0 <= i < entries.len() && judge_spec(entries[i].name@, entries[i].age, lifetime)
        == Verdict::Remove
}

/// What a sweep does with `entry`.
pub fn judge(entry: &Entry, lifetime: u128) -> (verdict: Verdict)
    ensures
        verdict == judge_spec(entry.name@, entry.age, lifetime),
{
    if same_bytes(entry.name.as_slice(), RESERVED.as_bytes()) {
        Verdict::Reserved
    } else {
        match entry.age {
            None => Verdict::Unknown,
            Some(age) => {
                if age > lifetime {
                    Verdict::Remove
                } else {
                    Verdict::Keep
                }
            },
        }
    }
}

/// The entries that one sweep removes, by their positions in `entries`, in
/// rising order: every entry older than `lifetime` but the reserved one, and
/// no other.
pub fn garbage_collect(entries: &[Entry], lifetime: u128) -> (doomed: Vec<usize>)
    ensures
        forall|k: int| 0 <= k < doomed@.len() ==> expired(entries@, #[trigger] doomed@[k] as int, lifetime),
        forall|j: int, k: int| 0 <= j < k < doomed@.len() ==> doomed@[j] < doomed@[k],
        forall|i: int|
            expired(entries@, i, lifetime) ==> exists|k: int|
                0 <= k < doomed@.len() && doomed@[k] == i,
{
    let mut doomed: Vec<usize> = Vec::new();
    let mut i: usize = 0;
    while i < entries.len()
        invariant
            i <= entries.len(),
            forall|k: int| 0 <= k < doomed@.len() ==> expired(entries@, #[trigger] doomed@[k] as int, lifetime),
            forall|k: int| 0 <= k < doomed@.len() ==> doomed@[k] < i,
            forall|j: int, k: int| 0 <= j < k < doomed@.len() ==> doomed@[j] < doomed@[k],
            forall|e: int|
                0 <= e < i && expired(entries@, e, lifetime) ==> exists|k: int|
                    0 <= k < doomed@.len() && doomed@[k] == e,
        decreases entries.len() - i,
    {
        let ghost before = doomed@;
        match judge(&entries[i], lifetime) {
            Verdict::Remove => {
                doomed.push(i);
                assert(doomed@[before.len() as int] == i);
                assert forall|e: int| 0 <= e < i + 1 && expired(entries@, e, lifetime) implies exists|
                    k: int,
                | 0 <= k < doomed@.len() && doomed@[k] == e by {
                    if e < i {
                        let k = choose|k: int| 0 <= k < before.len() && before[k] == e;
                        assert(doomed@[k] == e);
                    }
                }
            },
            _ => {},
        }
        i += 1;
    }
    doomed
}

} // verus!
