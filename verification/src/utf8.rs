//! Cutting well-formed UTF-8 at bytes of ASCII leaves well-formed UTF-8. The
//! request line and the header block are cut at spaces, colons and line
//! ends only, so every field taken from them can be read as text.

use vstd::prelude::*;
use vstd::utf8::{
    is_char_boundary_iff_not_is_continuation_byte,
    valid_utf8,
    valid_utf8_split,
};
use crate::bytes::{contains, first_occurrence, lemma_first_occurrence_exists, lemma_split_once_at, occurs_at, split_once};
use crate::headers::{
    first_line_len,
    header_map,
    lemma_map_of_sound,
    lines,
    name_separator,
    pairs_on,
    without_trailing_return,
};
use crate::request::{method_of, path_of, protocol_of, space};
use crate::separator::LF;

verus! {

/// Every byte of `s` is a byte of ASCII.
pub open spec fn is_ascii_bytes(s: Seq<u8>) -> bool {
    forall|i: int| 0 <= i < s.len() ==> #[trigger] s[i] < 0x80
}

/// Well-formed UTF-8 cut at a byte of ASCII: what stands before the byte and
/// what stands after it are both well-formed.
pub proof fn lemma_cut_at_ascii(s: Seq<u8>, at: int)
    requires
        valid_utf8(s),
        0 <= at < s.len(),
        s[at] < 0x80,
    ensures
        valid_utf8(s.subrange(0, at)),
        valid_utf8(s.subrange(at + 1, s.len() as int)),
{
    is_char_boundary_iff_not_is_continuation_byte(s, at);
    valid_utf8_split(s, at);
    let tail = s.subrange(at, s.len() as int);
    assert(tail[0] == s[at]);
    assert(vstd::utf8::pop_first_scalar(tail) =~= s.subrange(at + 1, s.len() as int));
}

/// Well-formed UTF-8 that begins with `width` bytes of ASCII: what stands
/// after them is well-formed.
pub proof fn lemma_skip_ascii(s: Seq<u8>, width: int)
    requires
        valid_utf8(s),
        0 <= width <= s.len(),
        forall|j: int| 0 <= j < width ==> s[j] < 0x80,
    ensures
        valid_utf8(s.subrange(width, s.len() as int)),
    decreases width,
{
    if width == 0 {
        assert(s.subrange(0, s.len() as int) =~= s);
    } else {
        lemma_cut_at_ascii(s, 0);
        let rest = s.subrange(1, s.len() as int);
        assert(forall|j: int| 0 <= j < width - 1 ==> rest[j] == s[1 + j]);
        lemma_skip_ascii(rest, width - 1);
        assert(rest.subrange(width - 1, rest.len() as int) =~= s.subrange(width, s.len() as int));
    }
}

/// Well-formed UTF-8 without a run of ASCII in it: what stands before the
/// run and what stands after it are both well-formed.
pub proof fn lemma_cut_out_ascii(s: Seq<u8>, at: int, width: int)
    requires
        valid_utf8(s),
        0 <= at,
        1 <= width,
        at + width <= s.len(),
        forall|j: int| at <= j < at + width ==> s[j] < 0x80,
    ensures
        valid_utf8(s.subrange(0, at)),
        valid_utf8(s.subrange(at + width, s.len() as int)),
{
    lemma_cut_at_ascii(s, at);
    let rest = s.subrange(at + 1, s.len() as int);
    assert(forall|j: int| 0 <= j < width - 1 ==> rest[j] == s[at + 1 + j]);
    lemma_skip_ascii(rest, width - 1);
    assert(rest.subrange(width - 1, rest.len() as int) =~= s.subrange(at + width, s.len() as int));
}

/// Both sides of a split at a separator of ASCII are well-formed where the
/// whole is.
pub proof fn lemma_split_keeps_utf8(s: Seq<u8>, sep: Seq<u8>)
    requires
        valid_utf8(s),
        sep.len() > 0,
        is_ascii_bytes(sep),
    ensures
        split_once(s, sep) matches Some(halves) ==> valid_utf8(halves.0) && valid_utf8(halves.1),
{
    if contains(s, sep) {
        let some = choose|at: int| occurs_at(s, sep, at);
        lemma_first_occurrence_exists(s, sep, some);
        let at = choose|at: int| first_occurrence(s, sep, at);
        lemma_split_once_at(s, sep, at);
        assert forall|j: int| at <= j < at + sep.len() implies s[j] < 0x80 by {
            assert(s.subrange(at, at + sep.len())[j - at] == sep[j - at]);
        }
        lemma_cut_out_ascii(s, at, sep.len() as int);
    }
}

/// The method, the path and the protocol on a well-formed request line are
/// well-formed.
pub proof fn lemma_fields_are_utf8(line: Seq<u8>)
    requires
        valid_utf8(line),
    ensures
        method_of(line) matches Some(method) ==> valid_utf8(method),
        path_of(line) matches Some(path) ==> valid_utf8(path),
        protocol_of(line) matches Some(protocol) ==> valid_utf8(protocol),
{
    assert(is_ascii_bytes(space()));
    lemma_split_keeps_utf8(line, space());
    if let Some(fields) = split_once(line, space()) {
        lemma_split_keeps_utf8(fields.1, space());
    }
}

/// The first line of `s` ends within `s`, and where it ends before the end
/// of `s` a line feed stands there.
pub proof fn lemma_first_line_ends_at_line_feed(s: Seq<u8>)
    ensures
        first_line_len(s) <= s.len(),
        first_line_len(s) < s.len() ==> s[first_line_len(s) as int] == LF,
    decreases s.len(),
{
    if s.len() > 0 && s[0] != LF {
        lemma_first_line_ends_at_line_feed(s.drop_first());
    }
}

/// Every line of a well-formed block is well-formed.
pub proof fn lemma_lines_are_utf8(block: Seq<u8>)
    requires
        valid_utf8(block),
    ensures
        forall|i: int| 0 <= i < lines(block).len() ==> valid_utf8(#[trigger] lines(block)[i]),
    decreases block.len(),
{
    if block.len() > 0 {
        let n = first_line_len(block) as int;
        lemma_first_line_ends_at_line_feed(block);
        if n < block.len() {
            lemma_cut_at_ascii(block, n);
            let raw = block.take(n);
            let rest = block.skip(n + 1);
            assert(raw =~= block.subrange(0, n));
            assert(rest =~= block.subrange(n + 1, block.len() as int));
            let line = without_trailing_return(raw);
            if line != raw {
                lemma_cut_at_ascii(raw, raw.len() - 1);
                assert(raw.drop_last() =~= raw.subrange(0, raw.len() - 1));
            }
            lemma_lines_are_utf8(rest);
            assert forall|i: int| 0 <= i < lines(block).len() implies valid_utf8(
                #[trigger] lines(block)[i],
            ) by {
                if i > 0 {
                    assert(lines(block)[i] == lines(rest)[i - 1]);
                }
            }
        }
    }
}

/// Every name and every value on well-formed lines is well-formed.
pub proof fn lemma_pairs_are_utf8(lines: Seq<Seq<u8>>)
    requires
        forall|i: int| 0 <= i < lines.len() ==> valid_utf8(#[trigger] lines[i]),
    ensures
        forall|k: int|
            0 <= k < pairs_on(lines).len() ==> valid_utf8((#[trigger] pairs_on(lines)[k]).0)
                && valid_utf8(pairs_on(lines)[k].1),
    decreases lines.len(),
{
    if lines.len() > 0 {
        let before = lines.drop_last();
        assert(forall|i: int| 0 <= i < before.len() ==> before[i] == lines[i]);
        lemma_pairs_are_utf8(before);
        assert(is_ascii_bytes(name_separator()));
        assert(valid_utf8(lines[lines.len() - 1]));
        lemma_split_keeps_utf8(lines.last(), name_separator());
        let found = pairs_on(lines);
        let earlier = pairs_on(before);
        assert forall|k: int| 0 <= k < found.len() implies valid_utf8((#[trigger] found[k]).0)
            && valid_utf8(found[k].1) by {
            if k < earlier.len() {
                assert(found[k] == earlier[k]);
            }
        }
    }
}

/// Every header of a well-formed block has a well-formed name and a
/// well-formed value.
pub proof fn lemma_headers_are_utf8(block: Seq<u8>, name: Seq<u8>)
    requires
        valid_utf8(block),
        header_map(block).contains_key(name),
    ensures
        valid_utf8(name),
        valid_utf8(header_map(block)[name]),
{
    lemma_lines_are_utf8(block);
    lemma_pairs_are_utf8(lines(block));
    let pairs = pairs_on(lines(block));
    lemma_map_of_sound(pairs, name);
    let i = choose|i: int| 0 <= i < pairs.len() && pairs[i] == (name, header_map(block)[name]);
    assert(valid_utf8(pairs[i].0));
}

} // verus!
