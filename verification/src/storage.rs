//! Names of stored uploads: the identifier of a new upload, the check that a
//! client's relative path stays below the storage root, and the place of an
//! upload on disk.

use vstd::prelude::*;
use vstd::std_specs::hash::DefaultHasherAdditionalSpecFns;
use std::collections::hash_map::DefaultHasher;
use std::hash::{Hash, Hasher};

verus! {

pub const SLASH: u8 = 47;

pub const BACKSLASH: u8 = 92;

pub const DOT: u8 = 46;

pub const TILDE: u8 = 126;

pub const STAR: u8 = 42;

/// Length of an upload's identifier.
pub const ID_LENGTH: usize = 6;

/// The segment of `path` that begins at `from` is `..`: two dots, with the
/// beginning of the path or a slash before them and the end of the path or a
/// slash after them.
pub open spec fn parent_segment_at(path: Seq<u8>, from: int) -> bool {
    &&& 0 <= from
    &&& from + 2 <= path.len()
    &&& path[from] == DOT
    &&& path[from + 1] == DOT
    &&& (from == 0 || path[from - 1] == SLASH)
    &&& (from + 2 == path.len() || path[from + 2] == SLASH)
}

/// `path` has a segment `..`.
pub open spec fn has_parent_segment(path: Seq<u8>) -> bool {
    exists|from: int| parent_segment_at(path, from)
}

/// `path` may not be used below the storage root: it has a segment `..`,
/// begins with a slash or a backslash, or holds a tilde or a star.
pub open spec fn forbidden(path: Seq<u8>) -> bool {
    ||| has_parent_segment(path)
    ||| (path.len() > 0 && (path[0] == SLASH || path[0] == BACKSLASH))
    ||| path.contains(TILDE)
    ||| path.contains(STAR)
}

/// A relative path was refused.
#[derive(Clone, Copy, Debug, PartialEq, Eq, Structural)]
pub struct Forbidden;

/// Whether the segment of `path` that begins at `from` is `..`.
fn is_parent_segment(path: &[u8], from: usize) -> (found: bool)
    requires
        from < path.len(),
    ensures
        found == parent_segment_at(path@, from as int),
{
    if path.len() - from < 2 {
        return false;
    }
    path[from] == DOT && path[from + 1] == DOT && (from == 0 || path[from - 1] == SLASH) && (
    path.len() - from == 2 || path[from + 2] == SLASH)
}

/// Accepts a relative path that stays below the storage root, and refuses
/// every other. Nothing else about the path is examined or changed.
pub fn sanitize(path: &[u8]) -> (checked: Result<(), Forbidden>)
    ensures
        checked.is_err() == forbidden(path@),
{
    if path.len() > 0 && (path[0] == SLASH || path[0] == BACKSLASH) {
        return Err(Forbidden);
    }
    let mut i: usize = 0;
    while i < path.len()
        invariant
            i <= path.len(),
            forall|j: int| 0 <= j < i ==> !parent_segment_at(path@, j),
            forall|j: int| 0 <= j < i ==> path@[j] != TILDE && path@[j] != STAR,
        decreases path.len() - i,
    {
        if path[i] == TILDE || path[i] == STAR {
            return Err(Forbidden);
        }
        if is_parent_segment(path, i) {
            return Err(Forbidden);
        }
        i += 1;
    }
    Ok(())
}

/// The digit of value `d` in lower-case hexadecimal.
pub open spec fn hex_digit(d: nat) -> u8 {
    if d < 10 {
        (48 + d) as u8
    } else {
        (87 + d) as u8
    }
}

/// `n` in lower-case hexadecimal, without leading zeros.
pub open spec fn hex(n: nat) -> Seq<u8>
    decreases n,
{
    if n < 16 {
        seq![hex_digit(n)]
    } else {
        hex(n / 16).push(hex_digit(n % 16))
    }
}

/// The first `len` bytes of `digits` repeated without end.
pub open spec fn cycled(digits: Seq<u8>, len: nat) -> Seq<u8> {
    Seq::new(len, |i: int| digits[i % digits.len() as int])
}

/// The identifier that a hash gives: its hexadecimal digits, repeated as
/// often as needed, cut to `ID_LENGTH`.
pub open spec fn id_of(hash: u64) -> Seq<u8> {
    cycled(hex(hash as nat), ID_LENGTH as nat)
}

/// Appends `n` in lower-case hexadecimal.
fn push_hex(out: &mut Vec<u8>, n: u64)
    ensures
        final(out)@ == old(out)@ + hex(n as nat),
    decreases n,
{
    if n >= 16 {
        push_hex(out, n / 16);
    }
    let d: u8 = (n % 16) as u8;
    let digit: u8 = if d < 10 {
        48 + d
    } else {
        87 + d
    };
    out.push(digit);
    assert(out@ =~= old(out)@ + hex(n as nat));
}

/// The identifier that `hash` gives.
pub fn upload_id(hash: u64) -> (id: Vec<u8>)
    ensures
        id@ == id_of(hash),
{
    let mut digits: Vec<u8> = Vec::new();
    push_hex(&mut digits, hash);
    assert(digits@ =~= hex(hash as nat));
    proof {
        lemma_hex_not_empty(hash as nat);
    }
    let mut id: Vec<u8> = Vec::new();
    let mut i: usize = 0;
    while i < ID_LENGTH
        invariant
            i <= ID_LENGTH,
            digits@.len() > 0,
            id@ == cycled(digits@, i as nat),
        decreases ID_LENGTH - i,
    {
        id.push(digits[i % digits.len()]);
        assert(id@ =~= cycled(digits@, (i + 1) as nat));
        i += 1;
    }
    id
}

/// A number has at least one hexadecimal digit.
pub proof fn lemma_hex_not_empty(n: nat)
    ensures
        hex(n).len() > 0,
    decreases n,
{
    if n >= 16 {
        lemma_hex_not_empty(n / 16);
    }
}

/// What a hasher has been given once `nanos` was fed to one that had been
/// given `before`.
pub uninterp spec fn fed(before: Seq<Seq<u8>>, nanos: u128) -> Seq<Seq<u8>>;

/// The identifier of an upload made at `nanos` nanoseconds since the epoch:
/// the one that the hash of `nanos` gives, taken by a hasher that was given
/// nothing before.
pub open spec fn allocated(nanos: u128) -> Seq<u8> {
    id_of(DefaultHasher::spec_finish(fed(Seq::empty(), nanos)))
}

/// Feeds `nanos` to `hasher` through `Hash::hash` of `u128`. What the hasher
/// has been given afterwards depends on what it had been given and on
/// `nanos` alone; which bytes these are is std's own matter and is not
/// stated.
#[verifier::external_body]
fn feed_nanos(hasher: &mut DefaultHasher, nanos: u128)
    ensures
        final(hasher)@ == fed(old(hasher)@, nanos),
{
    nanos.hash(hasher);
}

/// A fresh identifier for an upload made at `nanos` nanoseconds since the
/// epoch: the identifier that the hash of `nanos` gives. Two uploads in one
/// nanosecond get one identifier: whether it is in use is not looked up.
pub fn allocate(nanos: u128) -> (id: Vec<u8>)
    ensures
        id@ == allocated(nanos),
        is_upload_id(id@),
{
    let mut hasher = DefaultHasher::new();
    feed_nanos(&mut hasher, nanos);
    let hash: u64 = hasher.finish();
    proof {
        lemma_id_is_upload_id(hash);
    }
    upload_id(hash)
}

/// `byte` is a lower-case hexadecimal digit.
pub open spec fn is_hex_digit(byte: u8) -> bool {
    (48 <= byte <= 57) || (97 <= byte <= 102)
}

/// `id` has the form of an upload's identifier: `ID_LENGTH` lower-case
/// hexadecimal digits.
pub open spec fn is_upload_id(id: Seq<u8>) -> bool {
    id.len() == ID_LENGTH && forall|i: int| 0 <= i < id.len() ==> is_hex_digit(#[trigger] id[i])
}

/// Every byte of a hexadecimal numeral is a hexadecimal digit.
pub proof fn lemma_hex_digits(n: nat)
    ensures
        forall|i: int| 0 <= i < hex(n).len() ==> is_hex_digit(#[trigger] hex(n)[i]),
    decreases n,
{
    if n >= 16 {
        lemma_hex_digits(n / 16);
        let front = hex(n / 16);
        assert forall|i: int| 0 <= i < hex(n).len() implies is_hex_digit(#[trigger] hex(n)[i]) by {
            if i < front.len() {
                assert(hex(n)[i] == front[i]);
            } else {
                assert(hex(n)[i] == hex_digit(n % 16));
            }
        }
    } else {
        assert(hex(n)[0] == hex_digit(n));
    }
}

/// Every identifier made from a hash has the form of an identifier.
pub proof fn lemma_id_is_upload_id(hash: u64)
    ensures
        is_upload_id(id_of(hash)),
{
    let digits = hex(hash as nat);
    lemma_hex_not_empty(hash as nat);
    lemma_hex_digits(hash as nat);
    assert forall|i: int| 0 <= i < id_of(hash).len() implies is_hex_digit(
        #[trigger] id_of(hash)[i],
    ) by {
        let k = i % digits.len() as int;
        assert(0 <= k < digits.len());
        assert(id_of(hash)[i] == digits[k]);
    }
}

/// Whether `id` has the form of an upload's identifier.
pub fn check_upload_id(id: &[u8]) -> (ok: bool)
    ensures
        ok == is_upload_id(id@),
{
    if id.len() != ID_LENGTH {
        return false;
    }
    let mut i: usize = 0;
    while i < id.len()
        invariant
            i <= id.len(),
            forall|j: int| 0 <= j < i ==> is_hex_digit(#[trigger] id@[j]),
        decreases id.len() - i,
    {
        let b: u8 = id[i];
        if !((48 <= b && b <= 57) || (97 <= b && b <= 102)) {
            return false;
        }
        i += 1;
    }
    true
}

/// Where the upload `id` keeps the file `name` below `root`: the root, the
/// identifier and the name, joined by slashes.
pub open spec fn location(root: Seq<u8>, id: Seq<u8>, name: Seq<u8>) -> Seq<u8> {
    root + seq![SLASH] + id + seq![SLASH] + name
}

/// The directory of the upload `id` below `root`.
pub open spec fn directory(root: Seq<u8>, id: Seq<u8>) -> Seq<u8> {
    root + seq![SLASH] + id
}

/// The directory of the upload `id` below `root`.
pub fn upload_directory(root: &[u8], id: &[u8]) -> (path: Vec<u8>)
    ensures
        path@ == directory(root@, id@),
{
    let mut path: Vec<u8> = Vec::new();
    path.extend_from_slice(root);
    path.push(SLASH);
    path.extend_from_slice(id);
    assert(path@ =~= directory(root@, id@));
    path
}

/// Where the upload `id` keeps the file `name` below `root`. The name is
/// taken as it is: `sanitize` is for the caller to apply first.
pub fn resolve(root: &[u8], id: &[u8], name: &[u8]) -> (path: Vec<u8>)
    ensures
        path@ == location(root@, id@, name@),
{
    let mut path = upload_directory(root, id);
    path.push(SLASH);
    path.extend_from_slice(name);
    assert(path@ =~= location(root@, id@, name@));
    path
}

} // verus!
