//! Searching, comparing and cutting byte strings.

use vstd::prelude::*;
use vstd::string::StringSliceAdditionalSpecFns;
use vstd::utf8::valid_utf8;

verus! {

/// `needle` stands in `hay` at offset `at`.
pub open spec fn occurs_at(hay: Seq<u8>, needle: Seq<u8>, at: int) -> bool {
    0 <= at && at + needle.len() <= hay.len() && hay.subrange(at, at + needle.len()) == needle
}

/// `needle` stands somewhere in `hay`.
pub open spec fn contains(hay: Seq<u8>, needle: Seq<u8>) -> bool {
    exists|at: int| occurs_at(hay, needle, at)
}

/// `at` is the smallest offset at which `needle` stands in `hay`.
pub open spec fn first_occurrence(hay: Seq<u8>, needle: Seq<u8>, at: int) -> bool {
    occurs_at(hay, needle, at) && forall|earlier: int|
        0 <= earlier < at ==> !occurs_at(hay, needle, earlier)
}

/// `hay` begins with `prefix`.
pub open spec fn starts_with(hay: Seq<u8>, prefix: Seq<u8>) -> bool {
    occurs_at(hay, prefix, 0)
}

/// What a split at the first `sep` gives: the bytes before it and the bytes
/// after it, or nothing where `sep` does not occur.
pub open spec fn split_once(s: Seq<u8>, sep: Seq<u8>) -> Option<(Seq<u8>, Seq<u8>)> {
    if contains(s, sep) {
        let at = choose|at: int| first_occurrence(s, sep, at);
        Some((s.subrange(0, at), s.subrange(at + sep.len(), s.len() as int)))
    } else {
        None
    }
}

/// Two first occurrences of one needle are the same offset.
pub proof fn lemma_first_occurrence_unique(hay: Seq<u8>, needle: Seq<u8>, a: int, b: int)
    requires
        first_occurrence(hay, needle, a),
        first_occurrence(hay, needle, b),
    ensures
        a == b,
{
}

/// A needle that occurs has a first occurrence.
pub proof fn lemma_first_occurrence_exists(hay: Seq<u8>, needle: Seq<u8>, at: int)
    requires
        occurs_at(hay, needle, at),
    ensures
        exists|first: int| first_occurrence(hay, needle, first) && first <= at,
    decreases at,
{
    if exists|earlier: int| 0 <= earlier < at && occurs_at(hay, needle, earlier) {
        let earlier = choose|earlier: int| 0 <= earlier < at && occurs_at(hay, needle, earlier);
        lemma_first_occurrence_exists(hay, needle, earlier);
    } else {
        assert(first_occurrence(hay, needle, at));
    }
}

/// The split at a known first occurrence.
pub proof fn lemma_split_once_at(s: Seq<u8>, sep: Seq<u8>, at: int)
    requires
        first_occurrence(s, sep, at),
    ensures
        split_once(s, sep) == Some(
            (s.subrange(0, at), s.subrange(at + sep.len(), s.len() as int)),
        ),
{
    let chosen = choose|c: int| first_occurrence(s, sep, c);
    lemma_first_occurrence_unique(s, sep, at, chosen);
}

/// Whether `needle` stands in `hay` at offset `at`.
pub fn matches_at(hay: &[u8], needle: &[u8], at: usize) -> (found: bool)
    ensures
        found == occurs_at(hay@, needle@, at as int),
{
    if at > hay.len() || needle.len() > hay.len() - at {
        return false;
    }
    let mut k: usize = 0;
    while k < needle.len()
        invariant
            at + needle.len() <= hay.len(),
            k <= needle.len(),
            forall|j: int| 0 <= j < k ==> hay@[at + j] == needle@[j],
        decreases needle.len() - k,
    {
        if hay[at + k] != needle[k] {
            assert(hay@.subrange(at as int, at + needle.len())[k as int] != needle@[k as int]);
            return false;
        }
        k += 1;
    }
    assert(hay@.subrange(at as int, at + needle.len()) =~= needle@);
    true
}

/// The first offset at which `needle` stands in `hay`.
pub fn find(hay: &[u8], needle: &[u8]) -> (found: Option<usize>)
    ensures
        match found {
            Some(at) => first_occurrence(hay@, needle@, at as int),
            None => !contains(hay@, needle@),
        },
{
    if needle.len() > hay.len() {
        return None;
    }
    let last: usize = hay.len() - needle.len();
    let mut at: usize = 0;
    loop
        invariant
            last == hay.len() - needle.len(),
            at <= last,
            forall|earlier: int| 0 <= earlier < at ==> !occurs_at(hay@, needle@, earlier),
        decreases last - at,
    {
        if matches_at(hay, needle, at) {
            return Some(at);
        }
        if at == last {
            return None;
        }
        at += 1;
    }
}

/// A copy of the bytes of `src` from `from` up to `to`.
pub fn copy_range(src: &[u8], from: usize, to: usize) -> (out: Vec<u8>)
    requires
        from <= to <= src.len(),
    ensures
        out@ == src@.subrange(from as int, to as int),
{
    let mut out: Vec<u8> = Vec::new();
    let mut i: usize = from;
    while i < to
        invariant
            from <= i <= to <= src.len(),
            out@ == src@.subrange(from as int, i as int),
        decreases to - i,
    {
        out.push(src[i]);
        assert(out@ =~= src@.subrange(from as int, i + 1));
        i += 1;
    }
    out
}

/// Splits `s` at the first `sep` and copies both sides.
pub fn split_at_first(s: &[u8], sep: &[u8]) -> (halves: Option<(Vec<u8>, Vec<u8>)>)
    ensures
        match halves {
            Some((before, after)) => split_once(s@, sep@) == Some((before@, after@)),
            None => split_once(s@, sep@).is_none(),
        },
{
    match find(s, sep) {
        Some(at) => {
            proof {
                lemma_split_once_at(s@, sep@, at as int);
                assert(occurs_at(s@, sep@, at as int));
            }
            let width: usize = sep.len();
            assert(at + width <= s.len());
            let before = copy_range(s, 0, at);
            let after = copy_range(s, at + width, s.len());
            Some((before, after))
        },
        None => None,
    }
}

/// Whether two byte strings are the same.
pub fn same_bytes(a: &[u8], b: &[u8]) -> (same: bool)
    ensures
        same == (a@ == b@),
{
    if a.len() != b.len() {
        return false;
    }
    let same = matches_at(a, b, 0);
    assert(a@.subrange(0, a@.len() as int) =~= a@);
    same
}

/// Whether `bytes` are well-formed UTF-8, as `core::str::from_utf8` finds:
/// it accepts exactly the well-formed sequences.
#[verifier::external_body]
pub(crate) fn is_utf8(bytes: &[u8]) -> (ok: bool)
    ensures
        ok == valid_utf8(bytes@),
{
    match core::str::from_utf8(bytes) {
        Ok(_) => true,
        Err(_) => false,
    }
}

/// `byte` in lower case, where it is an upper-case letter of ASCII.
pub open spec fn lower(byte: u8) -> u8 {
    if 65 <= byte <= 90 {
        (byte + 32) as u8
    } else {
        byte
    }
}

/// `s` with each upper-case letter of ASCII in lower case.
pub open spec fn lowered(s: Seq<u8>) -> Seq<u8> {
    s.map_values(|byte: u8| lower(byte))
}

/// `byte` is white space of ASCII: a space, a tab, a line feed, a vertical
/// tab, a form feed or a carriage return.
pub open spec fn is_space(byte: u8) -> bool {
    byte == 32 || (9 <= byte <= 13)
}

/// The two bytes encode a white space of two bytes in UTF-8: U+0085 or
/// U+00A0.
pub open spec fn is_space_of_two(a: u8, b: u8) -> bool {
    a == 0xC2 && (b == 0x85 || b == 0xA0)
}

/// The three bytes encode a white space of three bytes in UTF-8: U+1680,
/// one of U+2000 to U+200A, U+2028, U+2029, U+202F, U+205F or U+3000.
pub open spec fn is_space_of_three(a: u8, b: u8, c: u8) -> bool {
    ||| (a == 0xE1 && b == 0x9A && c == 0x80)
    ||| (a == 0xE2 && b == 0x80 && ((0x80 <= c <= 0x8A) || c == 0xA8 || c == 0xA9 || c == 0xAF))
    ||| (a == 0xE2 && b == 0x81 && c == 0x9F)
    ||| (a == 0xE3 && b == 0x80 && c == 0x80)
}

/// How many bytes the white space takes that `s` begins with: one for white
/// space of ASCII, two or three for the other white space of Unicode, and
/// none where `s` begins with no white space.
pub open spec fn space_at_start(s: Seq<u8>) -> nat {
    if s.len() >= 1 && is_space(s[0]) {
        1
    } else if s.len() >= 2 && is_space_of_two(s[0], s[1]) {
        2
    } else if s.len() >= 3 && is_space_of_three(s[0], s[1], s[2]) {
        3
    } else {
        0
    }
}

/// How many bytes the white space takes that `s` ends with.
pub open spec fn space_at_end(s: Seq<u8>) -> nat {
    let n = s.len() as int;
    if n >= 1 && is_space(s[n - 1]) {
        1
    } else if n >= 2 && is_space_of_two(s[n - 2], s[n - 1]) {
        2
    } else if n >= 3 && is_space_of_three(s[n - 3], s[n - 2], s[n - 1]) {
        3
    } else {
        0
    }
}

/// `s` without the white space at its beginning.
pub open spec fn trimmed_start(s: Seq<u8>) -> Seq<u8>
    decreases s.len(),
{
    if space_at_start(s) > 0 {
        trimmed_start(s.skip(space_at_start(s) as int))
    } else {
        s
    }
}

/// `s` without the white space at its end.
pub open spec fn trimmed_end(s: Seq<u8>) -> Seq<u8>
    decreases s.len(),
{
    if space_at_end(s) > 0 {
        trimmed_end(s.take(s.len() - space_at_end(s)))
    } else {
        s
    }
}

/// `s` without the white space at its beginning and at its end.
pub open spec fn trimmed(s: Seq<u8>) -> Seq<u8> {
    trimmed_end(trimmed_start(s))
}

/// `s` is `word` but for white space around it and the case of its letters.
/// `word` is given in lower case. Only the letters of ASCII are folded.
pub open spec fn spells(s: Seq<u8>, word: Seq<u8>) -> bool {
    lowered(trimmed(s)) == word
}

/// Whether `byte` is white space of ASCII.
pub fn space_byte(byte: u8) -> (space: bool)
    ensures
        space == is_space(byte),
{
    byte == 32 || (9 <= byte && byte <= 13)
}

/// How many bytes the white space takes that `s[from..to]` begins with.
pub fn leading_space(s: &[u8], from: usize, to: usize) -> (width: usize)
    requires
        from <= to <= s.len(),
    ensures
        width == space_at_start(s@.subrange(from as int, to as int)),
        width <= to - from,
{
    let n: usize = to - from;
    if n >= 1 && space_byte(s[from]) {
        1
    } else if n >= 2 && s[from] == 0xC2 && (s[from + 1] == 0x85 || s[from + 1] == 0xA0) {
        2
    } else if n >= 3 && three_byte_space(s[from], s[from + 1], s[from + 2]) {
        3
    } else {
        0
    }
}

/// How many bytes the white space takes that `s[from..to]` ends with.
pub fn trailing_space(s: &[u8], from: usize, to: usize) -> (width: usize)
    requires
        from <= to <= s.len(),
    ensures
        width == space_at_end(s@.subrange(from as int, to as int)),
        width <= to - from,
{
    let n: usize = to - from;
    if n >= 1 && space_byte(s[to - 1]) {
        1
    } else if n >= 2 && s[to - 2] == 0xC2 && (s[to - 1] == 0x85 || s[to - 1] == 0xA0) {
        2
    } else if n >= 3 && three_byte_space(s[to - 3], s[to - 2], s[to - 1]) {
        3
    } else {
        0
    }
}

/// Whether the three bytes encode a white space of three bytes.
fn three_byte_space(a: u8, b: u8, c: u8) -> (space: bool)
    ensures
        space == is_space_of_three(a, b, c),
{
    (a == 0xE1 && b == 0x9A && c == 0x80) || (a == 0xE2 && b == 0x80 && ((0x80 <= c && c <= 0x8A)
        || c == 0xA8 || c == 0xA9 || c == 0xAF)) || (a == 0xE2 && b == 0x81 && c == 0x9F) || (a
        == 0xE3 && b == 0x80 && c == 0x80)
}

/// Whether `s` is `word` but for white space around it and the case of its
/// letters.
pub fn spells_word(s: &[u8], word: &[u8]) -> (same: bool)
    ensures
        same == spells(s@, word@),
{
    let mut from: usize = 0;
    assert(s@.subrange(0, s@.len() as int) =~= s@);
    loop
        invariant
            from <= s.len(),
            trimmed_start(s@) == trimmed_start(s@.subrange(from as int, s@.len() as int)),
        ensures
            from <= s.len(),
            trimmed_start(s@) == s@.subrange(from as int, s@.len() as int),
        decreases s.len() - from,
    {
        let width: usize = leading_space(s, from, s.len());
        if width == 0 {
            break;
        }
        assert(s@.subrange(from as int, s@.len() as int).skip(width as int) =~= s@.subrange(
            from + width,
            s@.len() as int,
        ));
        from += width;
    }
    let ghost tail = s@.subrange(from as int, s@.len() as int);
    let mut to: usize = s.len();
    loop
        invariant
            from <= to <= s.len(),
            tail == s@.subrange(from as int, s@.len() as int),
            trimmed_end(tail) == trimmed_end(s@.subrange(from as int, to as int)),
        ensures
            from <= to <= s.len(),
            trimmed_end(tail) == s@.subrange(from as int, to as int),
        decreases to,
    {
        let width: usize = trailing_space(s, from, to);
        if width == 0 {
            break;
        }
        assert(s@.subrange(from as int, to as int).take(to - from - width) =~= s@.subrange(
            from as int,
            to - width,
        ));
        to -= width;
    }
    let ghost core = s@.subrange(from as int, to as int);
    assert(trimmed(s@) == core);
    assert(lowered(core).len() == core.len());
    if to - from != word.len() {
        return false;
    }
    let mut k: usize = 0;
    while k < word.len()
        invariant
            from <= to <= s.len(),
            to - from == word.len(),
            k <= word.len(),
            core == s@.subrange(from as int, to as int),
            trimmed(s@) == core,
            forall|j: int| 0 <= j < k ==> lowered(core)[j] == word@[j],
        decreases word.len() - k,
    {
        let byte: u8 = s[from + k];
        let low: u8 = if 65 <= byte && byte <= 90 {
            byte + 32
        } else {
            byte
        };
        assert(lowered(core)[k as int] == low);
        if low != word[k] {
            return false;
        }
        k += 1;
    }
    assert(lowered(core) =~= word@);
    true
}

/// `n` in decimal, without leading zeros.
pub open spec fn decimal(n: nat) -> Seq<u8>
    decreases n,
{
    if n < 10 {
        seq![(48 + n) as u8]
    } else {
        decimal(n / 10).push((48 + n % 10) as u8)
    }
}

/// Appends `n` in decimal.
pub fn push_decimal(out: &mut Vec<u8>, n: u64)
    ensures
        final(out)@ == old(out)@ + decimal(n as nat),
    decreases n,
{
    if n >= 10 {
        push_decimal(out, n / 10);
    }
    let digit: u8 = 48 + (n % 10) as u8;
    out.push(digit);
    assert(out@ =~= old(out)@ + decimal(n as nat));
}

/// Appends the bytes of `text`.
pub fn push_text(out: &mut Vec<u8>, text: &str)
    ensures
        final(out)@ == old(out)@ + text.spec_bytes(),
{
    out.extend_from_slice(text.as_bytes());
}

} // verus!
