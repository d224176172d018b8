//! What holds of every stream: how the count of a stream follows from its
//! lines.

use vstd::prelude::*;
use crate::kmer::kmers;
use crate::sequence::{
    is_line_boundary, record_lengths, residues, scan, sequence_count, total_kmers, Scan,
    HEADER_MARKER,
};

verus! {

/// No byte of `bytes` ends a line.
pub open spec fn within_line(bytes: Seq<u8>) -> bool {
    forall|i: int| 0 <= i < bytes.len() ==> !is_line_boundary(#[trigger] bytes[i])
}

/// No byte of `bytes` is a header marker.
pub open spec fn without_marker(bytes: Seq<u8>) -> bool {
    forall|i: int| 0 <= i < bytes.len() ==> #[trigger] bytes[i] != HEADER_MARKER
}

/// No header marker is the first byte of a line of `bytes`.
pub open spec fn without_header(bytes: Seq<u8>) -> bool {
    forall|i: int|
        0 <= i < bytes.len() && #[trigger] bytes[i] == HEADER_MARKER ==> i > 0 && !is_line_boundary(
            bytes[i - 1],
        )
}

/// One whole record: the marker, the rest of the header line, the byte that
/// ends it, and the body.
pub open spec fn record(title: Seq<u8>, end: u8, body: Seq<u8>) -> Seq<u8> {
    seq![HEADER_MARKER] + title + seq![end] + body
}

/// The lengths of the records of `bytes`; none where it is not of the
/// sequence format.
pub open spec fn lengths_or_none(bytes: Seq<u8>) -> Seq<nat> {
    match record_lengths(bytes) {
        Some(lengths) => lengths,
        None => Seq::empty(),
    }
}

/// Reading a stream in two pieces is reading it whole.
pub proof fn lemma_run_concat(state: Scan, first: Seq<u8>, second: Seq<u8>)
    ensures
        state.run(first + second) == state.run(first).run(second),
    decreases second.len(),
{
    if second.len() == 0 {
        assert(first + second =~= first);
    } else {
        lemma_run_concat(state, first, second.drop_last());
        assert((first + second).drop_last() =~= first + second.drop_last());
    }
}

/// Reading one byte is one step.
pub proof fn lemma_run_one(state: Scan, byte: u8)
    ensures
        state.run(seq![byte]) == state.step(byte),
{
    assert(seq![byte].drop_last() =~= Seq::<u8>::empty());
    reveal_with_fuel(Scan::run, 2);
}

/// Once a stream is rejected, no further byte changes that.
pub proof fn lemma_rejected_stays(bytes: Seq<u8>)
    ensures
        Scan::Rejected.run(bytes) == Scan::Rejected,
    decreases bytes.len(),
{
    if bytes.len() > 0 {
        lemma_rejected_stays(bytes.drop_last());
    }
}

/// A header line goes on while no byte ends it.
pub proof fn lemma_header_line(closed: Seq<nat>, title: Seq<u8>)
    requires
        within_line(title),
    ensures
        (Scan::Header { closed }).run(title) == (Scan::Header { closed }),
    decreases title.len(),
{
    if title.len() > 0 {
        lemma_header_line(closed, title.drop_last());
    }
}

/// A body without a header marker adds its residues to the open record.
pub proof fn lemma_body_lines(closed: Seq<nat>, len: nat, line_start: bool, body: Seq<u8>)
    requires
        without_marker(body),
    ensures
        (Scan::Body { closed, len, line_start }).run(body) == (Scan::Body {
            closed,
            len: len + residues(body),
            line_start: if body.len() == 0 {
                line_start
            } else {
                is_line_boundary(body.last())
            },
        }),
    decreases body.len(),
{
    if body.len() > 0 {
        lemma_body_lines(closed, len, line_start, body.drop_last());
    }
}

/// A stream in which no header marker starts a line is not of the sequence
/// format: it has no count at all, which is not a count of zero. This holds
/// of the empty stream and of every stream without a header marker.
pub proof fn lemma_without_header_negative(bytes: Seq<u8>, k: nat)
    requires
        without_header(bytes),
    ensures
        scan(bytes) == (Scan::Seeking {
            line_start: bytes.len() == 0 || is_line_boundary(bytes.last()),
        }),
        record_lengths(bytes) is None,
        sequence_count(bytes, k) is None,
    decreases bytes.len(),
{
    if bytes.len() > 0 {
        let front = bytes.drop_last();
        assert forall|i: int| 0 <= i < front.len() && #[trigger] front[i] == HEADER_MARKER implies i
            > 0 && !is_line_boundary(front[i - 1]) by {
            assert(bytes[i] == HEADER_MARKER);
        }
        lemma_without_header_negative(front, k);
        let last = bytes.len() - 1;
        if bytes[last] == HEADER_MARKER {
            assert(last > 0 && !is_line_boundary(bytes[last - 1]));
            assert(front.last() == bytes[last - 1]);
        }
    }
}

/// A stream without any header marker is not of the sequence format.
pub proof fn lemma_without_marker_negative(bytes: Seq<u8>, k: nat)
    requires
        without_marker(bytes),
    ensures
        sequence_count(bytes, k) is None,
{
    lemma_without_header_negative(bytes, k);
}

/// A whole record that starts at the start of a line is counted with the
/// residues of its body as its length, after the records before it. What
/// stands before it may be anything that leaves the reader at the start of a
/// line: nothing, lines without a header, or earlier records.
pub proof fn lemma_record_appended(prefix: Seq<u8>, title: Seq<u8>, end: u8, body: Seq<u8>)
    requires
        scan(prefix).at_line_start(),
        within_line(title),
        is_line_boundary(end),
        without_marker(body),
    ensures
        scan(prefix + record(title, end, body)) == (Scan::Body {
            closed: lengths_or_none(prefix),
            len: residues(body),
            line_start: body.len() == 0 || is_line_boundary(body.last()),
        }),
        record_lengths(prefix + record(title, end, body)) == Some(
            lengths_or_none(prefix).push(residues(body)),
        ),
{
    let before = scan(prefix);
    let closed = lengths_or_none(prefix);
    let header = Scan::Header { closed };
    let marker = seq![HEADER_MARKER];
    lemma_run_one(before, HEADER_MARKER);
    assert(before.run(marker) == header);
    lemma_header_line(closed, title);
    lemma_run_one(header, end);
    lemma_body_lines(closed, 0, true, body);
    lemma_run_concat(before, marker, title);
    lemma_run_concat(before, marker + title, seq![end]);
    lemma_run_concat(before, marker + title + seq![end], body);
    lemma_run_concat(Scan::start(), prefix, record(title, end, body));
}

/// A stream that is one whole record, with a body of `residues(body)`
/// residues on any number of lines, counts the k-mers of that one length.
pub proof fn lemma_single_record(title: Seq<u8>, end: u8, body: Seq<u8>, k: nat)
    requires
        within_line(title),
        is_line_boundary(end),
        without_marker(body),
    ensures
        record_lengths(record(title, end, body)) == Some(seq![residues(body)]),
        sequence_count(record(title, end, body), k) == Some(kmers(residues(body), k)),
{
    let empty = Seq::<u8>::empty();
    lemma_record_appended(empty, title, end, body);
    assert(empty + record(title, end, body) =~= record(title, end, body));
    assert(Seq::<nat>::empty().push(residues(body)) =~= seq![residues(body)]);
    assert(seq![residues(body)].drop_last() =~= Seq::<nat>::empty());
    reveal_with_fuel(total_kmers, 2);
}

/// A header marker inside a line of a body makes the whole stream negative,
/// whatever stood before that line and whatever follows the marker.
pub proof fn lemma_marker_inside_line_rejects(prefix: Seq<u8>, rest: Seq<u8>, k: nat)
    requires
        scan(prefix).inside_body_line(),
    ensures
        scan(prefix + seq![HEADER_MARKER] + rest) is Rejected,
        record_lengths(prefix + seq![HEADER_MARKER] + rest) is None,
        sequence_count(prefix + seq![HEADER_MARKER] + rest, k) is None,
{
    let marker = seq![HEADER_MARKER];
    lemma_run_one(scan(prefix), HEADER_MARKER);
    lemma_run_concat(Scan::start(), prefix, marker);
    lemma_run_concat(Scan::start(), prefix + marker, rest);
    lemma_rejected_stays(rest);
}

/// A record whose body has a header marker behind a residue makes the whole
/// stream negative, however many whole records stand before it and whatever
/// follows the marker.
pub proof fn lemma_marker_inside_record_rejects(
    prefix: Seq<u8>,
    title: Seq<u8>,
    end: u8,
    body: Seq<u8>,
    rest: Seq<u8>,
    k: nat,
)
    requires
        scan(prefix).at_line_start(),
        within_line(title),
        is_line_boundary(end),
        without_marker(body),
        body.len() > 0,
        !is_line_boundary(body.last()),
    ensures
        sequence_count(prefix + record(title, end, body) + seq![HEADER_MARKER] + rest, k) is None,
{
    lemma_record_appended(prefix, title, end, body);
    lemma_marker_inside_line_rejects(prefix + record(title, end, body), rest, k);
}

/// The k-mers of two runs of records, one after the other, are the k-mers of
/// the first and those of the second.
pub proof fn lemma_total_kmers_concat(first: Seq<nat>, second: Seq<nat>, k: nat)
    ensures
        total_kmers(first + second, k) == total_kmers(first, k) + total_kmers(second, k),
    decreases second.len(),
{
    if second.len() == 0 {
        assert(first + second =~= first);
    } else {
        lemma_total_kmers_concat(first, second.drop_last(), k);
        assert((first + second).drop_last() =~= first + second.drop_last());
    }
}

} // verus!
