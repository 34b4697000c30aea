//! The header block of a request: its lines, and the name–value pairs on them.

use vstd::prelude::*;
use vstd::utf8::valid_utf8;
use crate::bytes::{copy_range, is_utf8, same_bytes, split_at_first, split_once};
use crate::separator::{CR, LF};

verus! {

/// The two bytes that part a header's name from its value: a colon and a space.
pub open spec fn name_separator() -> Seq<u8> {
    seq![58u8, 32u8]
}

/// How many bytes of `s` stand before its first line feed; all of them where
/// it has none.
pub open spec fn first_line_len(s: Seq<u8>) -> nat
    decreases s.len(),
{
    if s.len() == 0 || s[0] == LF {
        0
    } else {
        1 + first_line_len(s.drop_first())
    }
}

/// `line` without one carriage return at its end.
pub open spec fn without_trailing_return(line: Seq<u8>) -> Seq<u8> {
    if line.len() > 0 && line.last() == CR {
        line.drop_last()
    } else {
        line
    }
}

/// The lines of `block`. A line ends at a line feed; the line feed, and a
/// carriage return just before it, belong to no line. Bytes after the last
/// line feed form a last line, kept as they are.
pub open spec fn lines(block: Seq<u8>) -> Seq<Seq<u8>>
    decreases block.len(),
{
    if block.len() == 0 {
        Seq::empty()
    } else {
        let n = first_line_len(block);
        if n >= block.len() {
            seq![block]
        } else {
            seq![without_trailing_return(block.take(n as int))] + lines(block.skip(n as int + 1))
        }
    }
}

/// The name–value pairs on `lines`, in their order. A line without a colon and
/// a space gives none; the name ends at the first such pair of bytes.
pub open spec fn pairs_on(lines: Seq<Seq<u8>>) -> Seq<(Seq<u8>, Seq<u8>)>
    decreases lines.len(),
{
    if lines.len() == 0 {
        Seq::empty()
    } else {
        let before = pairs_on(lines.drop_last());
        match split_once(lines.last(), name_separator()) {
            Some(pair) => before.push(pair),
            None => before,
        }
    }
}

/// The mapping that `pairs` build when each is inserted in turn, so that of
/// two pairs with one name the later stays.
pub open spec fn map_of(pairs: Seq<(Seq<u8>, Seq<u8>)>) -> Map<Seq<u8>, Seq<u8>>
    decreases pairs.len(),
{
    if pairs.len() == 0 {
        Map::empty()
    } else {
        map_of(pairs.drop_last()).insert(pairs.last().0, pairs.last().1)
    }
}

/// The headers that a block of bytes holds.
pub open spec fn header_map(block: Seq<u8>) -> Map<Seq<u8>, Seq<u8>> {
    map_of(pairs_on(lines(block)))
}

/// One header as it was received.
#[derive(Debug, PartialEq, Eq)]
pub struct Header {
    pub name: Vec<u8>,
    pub value: Vec<u8>,
}

/// The headers of one request, in the order received.
pub struct Headers {
    entries: Vec<Header>,
}

/// The pairs that `entries` stand for.
pub open spec fn pairs_of(entries: Seq<Header>) -> Seq<(Seq<u8>, Seq<u8>)> {
    entries.map_values(|h: Header| (h.name@, h.value@))
}

impl View for Headers {
    type V = Map<Seq<u8>, Seq<u8>>;

    closed spec fn view(&self) -> Map<Seq<u8>, Seq<u8>> {
        map_of(pairs_of(self.entries@))
    }
}

/// The last pair with a given name decides what the mapping holds for it.
pub proof fn lemma_map_of_last_wins(pairs: Seq<(Seq<u8>, Seq<u8>)>, i: int)
    requires
        0 <= i < pairs.len(),
        forall|j: int| i < j < pairs.len() ==> pairs[j].0 != pairs[i].0,
    ensures
        map_of(pairs).contains_key(pairs[i].0),
        map_of(pairs)[pairs[i].0] == pairs[i].1,
    decreases pairs.len(),
{
    if i < pairs.len() - 1 {
        lemma_map_of_last_wins(pairs.drop_last(), i);
    }
}

/// A name on none of the pairs is not in the mapping.
pub proof fn lemma_map_of_absent(pairs: Seq<(Seq<u8>, Seq<u8>)>, name: Seq<u8>)
    requires
        forall|j: int| 0 <= j < pairs.len() ==> pairs[j].0 != name,
    ensures
        !map_of(pairs).contains_key(name),
    decreases pairs.len(),
{
    if pairs.len() > 0 {
        lemma_map_of_absent(pairs.drop_last(), name);
    }
}

/// Every name in the mapping stands on one of the pairs, with its value.
pub proof fn lemma_map_of_sound(pairs: Seq<(Seq<u8>, Seq<u8>)>, name: Seq<u8>)
    requires
        map_of(pairs).contains_key(name),
    ensures
        exists|i: int| 0 <= i < pairs.len() && pairs[i] == (name, map_of(pairs)[name]),
    decreases pairs.len(),
{
    if pairs.len() > 0 {
        let last = pairs.len() - 1;
        if pairs[last].0 == name {
            assert(pairs[last] == (name, map_of(pairs)[name]));
        } else {
            lemma_map_of_sound(pairs.drop_last(), name);
            let i = choose|i: int|
                0 <= i < pairs.drop_last().len() && pairs.drop_last()[i] == (
                    name,
                    map_of(pairs.drop_last())[name],
                );
            assert(pairs[i] == (name, map_of(pairs)[name]));
        }
    }
}

impl Headers {
    /// No headers.
    pub fn new() -> (headers: Self)
        ensures
            headers@ == Map::<Seq<u8>, Seq<u8>>::empty(),
            headers.received() == Seq::<(Seq<u8>, Seq<u8>)>::empty(),
    {
        let headers = Headers { entries: Vec::new() };
        assert(pairs_of(headers.entries@) =~= Seq::<(Seq<u8>, Seq<u8>)>::empty());
        headers
    }

    /// The pairs as received, in their order.
    pub closed spec fn received(&self) -> Seq<(Seq<u8>, Seq<u8>)> {
        pairs_of(self.entries@)
    }

    /// The mapping is built from the pairs received.
    pub proof fn lemma_view_is_map_of_received(&self)
        ensures
            self@ == map_of(self.received()),
    {
    }

    /// Records a header after those already held.
    pub fn insert(&mut self, name: Vec<u8>, value: Vec<u8>)
        ensures
            final(self)@ == old(self)@.insert(name@, value@),
            final(self).received() == old(self).received().push((name@, value@)),
    {
        let ghost before = self.entries@;
        self.entries.push(Header { name, value });
        assert(pairs_of(self.entries@).drop_last() =~= pairs_of(before));
        assert(pairs_of(self.entries@) =~= pairs_of(before).push((name@, value@)));
    }

    /// Number of pairs received, counting a repeated name each time.
    pub fn count(&self) -> (n: usize)
        ensures
            n == self.received().len(),
    {
        self.entries.len()
    }

    /// The pair at position `i` of those received.
    pub fn entry(&self, i: usize) -> (header: &Header)
        requires
            i < self.received().len(),
        ensures
            (header.name@, header.value@) == self.received()[i as int],
    {
        &self.entries[i]
    }

    /// The value held for `name`.
    pub fn get(&self, name: &[u8]) -> (value: Option<&Vec<u8>>)
        ensures
            match value {
                Some(v) => self@.contains_key(name@) && self@[name@] == v@,
                None => !self@.contains_key(name@),
            },
    {
        let ghost pairs = pairs_of(self.entries@);
        let mut i: usize = self.entries.len();
        while i > 0
            invariant
                i <= self.entries.len(),
                pairs == pairs_of(self.entries@),
                forall|j: int| i <= j < pairs.len() ==> pairs[j].0 != name@,
            decreases i,
        {
            i -= 1;
            if same_bytes(self.entries[i].name.as_slice(), name) {
                proof {
                    lemma_map_of_last_wins(pairs, i as int);
                }
                return Some(&self.entries[i].value);
            }
        }
        proof {
            lemma_map_of_absent(pairs, name@);
        }
        None
    }
}

/// `line` is a header line whose name is `name`.
pub open spec fn line_names(line: Seq<u8>, name: Seq<u8>) -> bool {
    split_once(line, name_separator()) matches Some(pair) && pair.0 == name
}

/// Line `i` is the last of `lines` whose name is `name`.
pub open spec fn last_line_naming(lines: Seq<Seq<u8>>, name: Seq<u8>, i: int) -> bool {
    &&& 0 <= i < lines.len()
    &&& line_names(lines[i], name)
    &&& forall|j: int| i < j < lines.len() ==> !line_names(lines[j], name)
}

/// What the mapping built from some lines holds: a name is in it exactly when
/// a line carries that name, and its value is the one on the last such line.
pub proof fn lemma_pairs_last_write_wins(lines: Seq<Seq<u8>>, name: Seq<u8>)
    ensures
        map_of(pairs_on(lines)).contains_key(name) <==> exists|i: int|
            0 <= i < lines.len() && line_names(lines[i], name),
        map_of(pairs_on(lines)).contains_key(name) ==> exists|i: int|
            last_line_naming(lines, name, i) && split_once(lines[i], name_separator())
                == Some((name, map_of(pairs_on(lines))[name])),
    decreases lines.len(),
{
    if lines.len() > 0 {
        let before = lines.drop_last();
        let last = lines.len() - 1;
        lemma_pairs_last_write_wins(before, name);
        assert(forall|i: int| 0 <= i < before.len() ==> before[i] == lines[i]);
        let names_last = line_names(lines[last], name);
        if let Some(pair) = split_once(lines.last(), name_separator()) {
            assert(pairs_on(lines).drop_last() =~= pairs_on(before));
            assert(map_of(pairs_on(lines)) == map_of(pairs_on(before)).insert(pair.0, pair.1));
        }
        if names_last {
            assert(last_line_naming(lines, name, last));
        } else {
            assert(map_of(pairs_on(lines)).contains_key(name) == map_of(
                pairs_on(before),
            ).contains_key(name));
            if map_of(pairs_on(before)).contains_key(name) {
                let i = choose|i: int|
                    last_line_naming(before, name, i) && split_once(before[i], name_separator())
                        == Some((name, map_of(pairs_on(before))[name]));
                assert(last_line_naming(lines, name, i));
                assert(line_names(lines[i], name));
            }
            if exists|i: int| 0 <= i < lines.len() && line_names(lines[i], name) {
                let i = choose|i: int| 0 <= i < lines.len() && line_names(lines[i], name);
                assert(line_names(before[i], name));
            }
        }
    }
}

/// The headers of a block are exactly the named lines in it, the last line
/// with a name deciding its value.
pub proof fn lemma_header_map_last_write_wins(block: Seq<u8>, name: Seq<u8>)
    ensures
        header_map(block).contains_key(name) <==> exists|i: int|
            0 <= i < lines(block).len() && line_names(lines(block)[i], name),
        header_map(block).contains_key(name) ==> exists|i: int|
            last_line_naming(lines(block), name, i) && split_once(
                lines(block)[i],
                name_separator(),
            ) == Some((name, header_map(block)[name])),
{
    lemma_pairs_last_write_wins(lines(block), name);
}

/// The length of the first line, from where its line feed stands.
pub proof fn lemma_first_line_len(s: Seq<u8>, n: int)
    requires
        0 <= n <= s.len(),
        forall|j: int| 0 <= j < n ==> s[j] != LF,
        n == s.len() || s[n] == LF,
    ensures
        first_line_len(s) == n,
    decreases n,
{
    if n > 0 {
        lemma_first_line_len(s.drop_first(), n - 1);
    }
}

/// Where the line that begins at `from` ends: at its line feed, or at the end
/// of `block`.
fn line_end(block: &[u8], from: usize) -> (end: usize)
    requires
        from <= block.len(),
    ensures
        from <= end <= block.len(),
        end - from == first_line_len(block@.skip(from as int)),
{
    let mut end: usize = from;
    while end < block.len() && block[end] != LF
        invariant
            from <= end <= block.len(),
            forall|j: int| from <= j < end ==> block@[j] != LF,
        decreases block.len() - end,
    {
        end += 1;
    }
    proof {
        lemma_first_line_len(block@.skip(from as int), end - from);
    }
    end
}

/// The byte strings that `lines` hold.
pub open spec fn line_views(lines: Seq<Vec<u8>>) -> Seq<Seq<u8>> {
    lines.map_values(|line: Vec<u8>| line@)
}

/// Cuts a block of bytes into its lines.
pub fn split_lines(block: &[u8]) -> (found: Vec<Vec<u8>>)
    ensures
        line_views(found@) == lines(block@),
{
    let mut found: Vec<Vec<u8>> = Vec::new();
    let mut pos: usize = 0;
    assert(block@.skip(0) =~= block@);
    assert(line_views(found@) =~= Seq::<Seq<u8>>::empty());
    while pos < block.len()
        invariant
            pos <= block.len(),
            lines(block@) == line_views(found@) + lines(block@.skip(pos as int)),
        decreases block.len() - pos,
    {
        let end: usize = line_end(block, pos);
        let ghost rest = block@.skip(pos as int);
        let ghost done = line_views(found@);
        let stop: usize = if end < block.len() && end > pos && block[end - 1] == CR {
            end - 1
        } else {
            end
        };
        let next: usize = if end < block.len() {
            end + 1
        } else {
            end
        };
        let line = copy_range(block, pos, stop);
        proof {
            if end < block.len() {
                assert(rest.take(end - pos) =~= block@.subrange(pos as int, end as int));
                assert(rest.skip(end - pos + 1) =~= block@.skip(next as int));
                assert(line@ =~= without_trailing_return(rest.take(end - pos)));
                assert(lines(rest) == seq![line@] + lines(block@.skip(next as int)));
            } else {
                assert(line@ =~= rest);
                assert(block@.skip(next as int).len() == 0);
                assert(lines(rest) =~= seq![line@] + lines(block@.skip(next as int)));
            }
            assert(done.push(line@) + lines(block@.skip(next as int)) =~= done + lines(rest));
        }
        found.push(line);
        assert(line_views(found@) =~= done.push(line@));
        pos = next;
    }
    proof {
        assert(lines(block@.skip(pos as int)) =~= Seq::<Seq<u8>>::empty());
        assert(line_views(found@) + Seq::<Seq<u8>>::empty() =~= line_views(found@));
    }
    found
}

/// Reads the headers out of a block of bytes.
///
/// A block that is not well-formed UTF-8 gives nothing at all. Otherwise
/// every line with a colon and a space gives a pair, a line without is passed
/// over, and of two pairs with one name the later stays.
pub fn parse_headers(block: &[u8]) -> (headers: Option<Headers>)
    ensures
        headers.is_some() == valid_utf8(block@),
        headers matches Some(h) ==> h@ == header_map(block@) && h.received() == pairs_on(
            lines(block@),
        ),
{
    if !is_utf8(block) {
        return None;
    }
    let mut sep: Vec<u8> = Vec::new();
    sep.push(58u8);
    sep.push(32u8);
    assert(sep@ =~= name_separator());
    let found = split_lines(block);
    let mut headers = Headers::new();
    let mut i: usize = 0;
    assert(line_views(found@).take(0) =~= Seq::<Seq<u8>>::empty());
    while i < found.len()
        invariant
            i <= found.len(),
            sep@ == name_separator(),
            headers.received() == pairs_on(line_views(found@).take(i as int)),
        decreases found.len() - i,
    {
        proof {
            let upto = line_views(found@).take(i + 1);
            assert(upto.drop_last() =~= line_views(found@).take(i as int));
            assert(upto.last() == found@[i as int]@);
        }
        match split_at_first(found[i].as_slice(), sep.as_slice()) {
            Some((name, value)) => {
                headers.insert(name, value);
            },
            None => {},
        }
        i += 1;
    }
    proof {
        assert(line_views(found@).take(found@.len() as int) =~= line_views(found@));
        headers.lemma_view_is_map_of_received();
    }
    Some(headers)
}

} // verus!
