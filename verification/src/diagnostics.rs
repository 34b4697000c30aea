//! The text that shows one request and what was sent back to it.

use vstd::prelude::*;
use vstd::string::StringSliceAdditionalSpecFns;
use crate::bytes::{push_text, same_bytes};
use crate::headers::{line_views, lines, split_lines, Headers};

verus! {

/// The row of one header: the name, a colon and a space, the value.
pub open spec fn row(pair: (Seq<u8>, Seq<u8>)) -> Seq<u8> {
    "< ".spec_bytes() + pair.0 + ": ".spec_bytes() + pair.1 + "\r\n".spec_bytes()
}

/// No pair of `pairs` after pair `i` has its name, so that pair `i` holds
/// the value that stays for the name.
pub open spec fn last_of_its_name(pairs: Seq<(Seq<u8>, Seq<u8>)>, i: int) -> bool {
    forall|j: int| i < j < pairs.len() ==> pairs[j].0 != pairs[i].0
}

/// The rows for the first `n` of `pairs`: one for each that is the last of
/// its name, in their order.
pub open spec fn rows_upto(pairs: Seq<(Seq<u8>, Seq<u8>)>, n: nat) -> Seq<u8>
    decreases n,
{
    if n == 0 {
        Seq::empty()
    } else if last_of_its_name(pairs, n - 1) {
        rows_upto(pairs, (n - 1) as nat) + row(pairs[n - 1])
    } else {
        rows_upto(pairs, (n - 1) as nat)
    }
}

/// One row for each name on `pairs`, with the value that stays for it: the
/// one received last.
pub open spec fn header_rows(pairs: Seq<(Seq<u8>, Seq<u8>)>) -> Seq<u8> {
    rows_upto(pairs, pairs.len())
}

/// What is shown of a request: its line and one row for each header name
/// received. A missing line shows as an empty one.
pub open spec fn incoming(line: Option<Seq<u8>>, pairs: Seq<(Seq<u8>, Seq<u8>)>) -> Seq<u8> {
    "----- INCOMING -----\n".spec_bytes() + "< ".spec_bytes() + (match line {
        Some(line) => line,
        None => Seq::empty(),
    }) + "\r\n".spec_bytes() + header_rows(pairs) + "< \r\n".spec_bytes()
        + "< (BODY NOT DISPLAYED FOR MEMORY PURPOSES)\r\n".spec_bytes()
}

/// The lines `shown`, each after `> `, with a line end between two of them.
pub open spec fn quoted(shown: Seq<Seq<u8>>) -> Seq<u8>
    decreases shown.len(),
{
    if shown.len() == 0 {
        Seq::empty()
    } else if shown.len() == 1 {
        "> ".spec_bytes() + shown.last()
    } else {
        quoted(shown.drop_last()) + "\r\n> ".spec_bytes() + shown.last()
    }
}

/// What is shown of the bytes sent back: the record of them line by line,
/// and three dots where the record was cut short.
pub open spec fn outgoing(response: Seq<u8>, truncated: bool) -> Seq<u8> {
    "----- OUTGOING -----\n".spec_bytes() + quoted(lines(response)) + if truncated {
        "\r\n...".spec_bytes()
    } else {
        Seq::empty()
    }
}

/// Appends what is shown of a request.
pub fn push_incoming(out: &mut Vec<u8>, line: Option<&[u8]>, headers: Option<&Headers>)
    ensures
        final(out)@ == old(out)@ + incoming(
            match line {
                Some(l) => Some(l@),
                None => None,
            },
            match headers {
                Some(h) => h.received(),
                None => Seq::empty(),
            },
        ),
{
    let ghost start = out@;
    push_text(out, "----- INCOMING -----\n");
    push_text(out, "< ");
    match line {
        Some(line) => {
            out.extend_from_slice(line);
        },
        None => {},
    }
    push_text(out, "\r\n");
    let ghost head = out@;
    let ghost pairs = match headers {
        Some(h) => h.received(),
        None => Seq::empty(),
    };
    match headers {
        Some(map) => {
            let count: usize = map.count();
            let mut i: usize = 0;
            while i < count
                invariant
                    i <= count,
                    count == pairs.len(),
                    pairs == map.received(),
                    out@ == head + rows_upto(pairs, i as nat),
                decreases count - i,
            {
                let header = map.entry(i);
                let mut j: usize = i + 1;
                let mut last: bool = true;
                while j < count && last
                    invariant
                        i < j <= count,
                        count == pairs.len(),
                        pairs == map.received(),
                        (header.name@, header.value@) == pairs[i as int],
                        last ==> forall|k: int| i < k < j ==> pairs[k].0 != pairs[i as int].0,
                        !last ==> !last_of_its_name(pairs, i as int),
                    decreases count - j + if last { 1int } else { 0int },
                {
                    if same_bytes(map.entry(j).name.as_slice(), header.name.as_slice()) {
                        last = false;
                    } else {
                        j += 1;
                    }
                }
                if last {
                    push_text(out, "< ");
                    out.extend_from_slice(header.name.as_slice());
                    push_text(out, ": ");
                    out.extend_from_slice(header.value.as_slice());
                    push_text(out, "\r\n");
                    assert(out@ =~= head + rows_upto(pairs, i as nat) + row(pairs[i as int]));
                }
                assert(out@ =~= head + rows_upto(pairs, (i + 1) as nat));
                i += 1;
            }
        },
        None => {
            assert(out@ =~= head + header_rows(pairs));
        },
    }
    push_text(out, "< \r\n");
    push_text(out, "< (BODY NOT DISPLAYED FOR MEMORY PURPOSES)\r\n");
    assert(out@ =~= start + incoming(
        match line {
            Some(l) => Some(l@),
            None => None,
        },
        pairs,
    ));
}

/// Appends what is shown of the bytes sent back.
pub fn push_outgoing(out: &mut Vec<u8>, response: &[u8], truncated: bool)
    ensures
        final(out)@ == old(out)@ + outgoing(response@, truncated),
{
    let ghost start = out@;
    push_text(out, "----- OUTGOING -----\n");
    let ghost head = out@;
    let shown = split_lines(response);
    let ghost views = lines(response@);
    let mut i: usize = 0;
    assert(views.take(0) =~= Seq::<Seq<u8>>::empty());
    while i < shown.len()
        invariant
            i <= shown.len(),
            views == line_views(shown@),
            out@ == head + quoted(views.take(i as int)),
        decreases shown.len() - i,
    {
        if i == 0 {
            push_text(out, "> ");
        } else {
            push_text(out, "\r\n> ");
        }
        out.extend_from_slice(shown[i].as_slice());
        proof {
            let upto = views.take(i + 1);
            assert(upto.drop_last() =~= views.take(i as int));
            assert(upto.last() == shown@[i as int]@);
            assert(out@ =~= head + quoted(upto));
        }
        i += 1;
    }
    assert(views.take(views.len() as int) =~= views);
    if truncated {
        push_text(out, "\r\n...");
    }
    assert(out@ =~= start + outgoing(response@, truncated));
}

} // verus!
