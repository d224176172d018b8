//! A stream that is held in memory, with what an archive reader makes of it,
//! and the k-mers that sniffing it gives.

use vstd::prelude::*;
use vstd::slice::slice_subrange;
use crate::counter::count_records;
use crate::sequence::sequence_count;
use crate::sniffer::{Finding, Sniffer, Sniffing};
use crate::sums::{lemma_sum_bounds_prefix, lemma_sum_bounds_term, lemma_sum_push, sum};

verus! {

/// What becomes of a stream that is asked to go back to its start after a
/// negative archive attempt.
#[derive(Clone, Copy, PartialEq, Eq, Debug)]
pub enum Reposition {
    /// It goes back: the sequence format is read from its first byte.
    Rewinds,
    /// It can be asked, and fails: nothing more is read.
    Fails,
    /// It cannot be asked. The archive attempt has read its first `consumed`
    /// bytes, and the sequence format is read from the byte after them.
    Unavailable { consumed: usize },
}

/// A stream as a plain value.
pub ghost struct StreamModel {
    pub bytes: Seq<u8>,
    pub entries: Option<Seq<StreamModel>>,
    pub reposition: Reposition,
}

/// A stream that is held in memory.
pub struct Stream {
    /// All its bytes.
    pub bytes: Vec<u8>,
    /// What an archive reader makes of the bytes: `None` where it cannot
    /// frame them, else the entries that it gives before it ends or fails.
    pub entries: Option<Vec<Stream>>,
    /// What becomes of it when it is asked to go back to its start.
    pub reposition: Reposition,
}

impl Stream {
    /// The stream as a plain value: its bytes, its entries as plain values
    /// in their order, and what becomes of it when it is asked to go back.
    pub open spec fn model(&self) -> StreamModel
        decreases self,
    {
        StreamModel {
            bytes: self.bytes@,
            entries: match self.entries {
                Some(entries) => Some(
                    Seq::new(
                        entries@.len(),
                        |i: int|
                            if 0 <= i < entries@.len() {
                                entries@[i].model()
                            } else {
                                arbitrary()
                            },
                    ),
                ),
                None => None,
            },
            reposition: self.reposition,
        }
    }
}

impl View for Stream {
    type V = StreamModel;

    open spec fn view(&self) -> StreamModel {
        self.model()
    }
}

/// The k-mers of `bytes` read as the sequence format; none where they are not
/// of that format.
pub open spec fn sequence_total(bytes: Seq<u8>, k: nat) -> nat {
    match sequence_count(bytes, k) {
        Some(n) => n,
        None => 0,
    }
}

/// The bytes that are read as the sequence format after a negative archive
/// attempt, or `None` where nothing is read.
pub open spec fn left_to_read(stream: StreamModel) -> Option<Seq<u8>> {
    match stream.reposition {
        Reposition::Rewinds => Some(stream.bytes),
        Reposition::Fails => None,
        Reposition::Unavailable { consumed } => {
            if consumed <= stream.bytes.len() {
                Some(stream.bytes.skip(consumed as int))
            } else {
                Some(Seq::empty())
            }
        },
    }
}

/// The k-mers that the stream gives after a negative archive attempt.
pub open spec fn fallback_total(stream: StreamModel, k: nat) -> nat {
    match left_to_read(stream) {
        Some(bytes) => sequence_total(bytes, k),
        None => 0,
    }
}

/// The k-mers of the stream: those of its entries where it can be framed as
/// an archive and its entries hold any, else those that it gives read as the
/// sequence format.
pub open spec fn stream_total(stream: StreamModel, k: nat) -> nat
    decreases stream, 0nat,
{
    let archive = match stream.entries {
        Some(entries) => first_entries_total(entries, entries.len(), k),
        None => 0,
    };
    if archive > 0 {
        archive
    } else {
        fallback_total(stream, k)
    }
}

/// The k-mers of the first `n` of `entries`, all together.
pub open spec fn first_entries_total(entries: Seq<StreamModel>, n: nat, k: nat) -> nat
    decreases entries, n,
{
    if n == 0 || n > entries.len() {
        0
    } else {
        first_entries_total(entries, (n - 1) as nat, k) + stream_total(entries[n - 1], k)
    }
}

/// The k-mers of each of `streams`, in their order.
pub open spec fn stream_totals(streams: Seq<StreamModel>, k: nat) -> Seq<nat> {
    Seq::new(streams.len(), |i: int| stream_total(streams[i], k))
}

/// The k-mers of the entries of the stream, all together; none where it
/// cannot be framed as an archive.
pub open spec fn archive_total(stream: StreamModel, k: nat) -> nat {
    match stream.entries {
        Some(entries) => sum(stream_totals(entries, k)),
        None => 0,
    }
}

/// The k-mers of the first `n` entries are the sum of the first `n` of their
/// totals.
pub proof fn lemma_first_entries_total(entries: Seq<StreamModel>, n: nat, k: nat)
    requires
        n <= entries.len(),
    ensures
        first_entries_total(entries, n, k) == sum(stream_totals(entries, k).take(n as int)),
    decreases n,
{
    let totals = stream_totals(entries, k);
    if n > 0 {
        lemma_first_entries_total(entries, (n - 1) as nat, k);
        assert(totals.take(n as int).drop_last() =~= totals.take(n - 1));
    }
}

/// The k-mers of a stream are those of its entries where these hold any, and
/// those of its bytes read as the sequence format where they hold none.
pub proof fn lemma_stream_total(stream: StreamModel, k: nat)
    ensures
        stream_total(stream, k) == if archive_total(stream, k) > 0 {
            archive_total(stream, k)
        } else {
            fallback_total(stream, k)
        },
{
    if let Some(entries) = stream.entries {
        lemma_first_entries_total(entries, entries.len(), k);
        assert(stream_totals(entries, k).take(entries.len() as int) =~= stream_totals(entries, k));
    }
}

/// A stream that is neither an archive with k-mers in it nor of the sequence
/// format holds no k-mer.
pub proof fn lemma_unrecognized_stream(stream: StreamModel, k: nat)
    requires
        archive_total(stream, k) == 0,
        match left_to_read(stream) {
            Some(bytes) => sequence_count(bytes, k) is None,
            None => true,
        },
    ensures
        stream_total(stream, k) == 0,
{
    lemma_stream_total(stream, k);
}

/// An archive whose entries hold k-mers holds those of all its entries, and
/// its own bytes are not read as the sequence format.
pub proof fn lemma_archive_stream(stream: StreamModel, k: nat)
    requires
        stream.entries is Some,
        sum(stream_totals(stream.entries->0, k)) > 0,
    ensures
        stream_total(stream, k) == sum(stream_totals(stream.entries->0, k)),
{
    lemma_stream_total(stream, k);
}

/// The model of a stream holds its bytes, and the models of its entries in
/// their order.
pub proof fn lemma_stream_view(stream: &Stream)
    ensures
        stream@.bytes == stream.bytes@,
        stream@.reposition == stream.reposition,
        match stream.entries {
            Some(entries) => {
                &&& stream@.entries is Some
                &&& stream@.entries->0.len() == entries@.len()
                &&& forall|i: int|
                    0 <= i < entries@.len() ==> (#[trigger] stream@.entries->0[i]) == entries@[i]@
            },
            None => stream@.entries is None,
        },
{
    reveal_with_fuel(Stream::model, 2);
}

impl Stream {
    /// The bytes that are read as the sequence format after a negative
    /// archive attempt, or `None` where nothing is read.
    pub fn rest(&self) -> (rest: Option<&[u8]>)
        ensures
            match rest {
                Some(bytes) => left_to_read(self@) == Some(bytes@),
                None => left_to_read(self@) is None,
            },
    {
        proof {
            lemma_stream_view(self);
        }
        let bytes = self.bytes.as_slice();
        match self.reposition {
            Reposition::Rewinds => Some(bytes),
            Reposition::Fails => None,
            Reposition::Unavailable { consumed } => {
                let from = if consumed <= bytes.len() {
                    consumed
                } else {
                    bytes.len()
                };
                let rest = slice_subrange(bytes, from, bytes.len());
                assert(rest@ =~= left_to_read(self@)->0);
                Some(rest)
            },
        }
    }
}

/// Sniffs a stream that is held in memory, and gives its k-mers.
pub fn count_stream(stream: &Stream, k: usize) -> (total: usize)
    requires
        stream_total(stream@, k as nat) <= usize::MAX,
    ensures
        total == stream_total(stream@, k as nat),
    decreases stream,
{
    proof {
        lemma_stream_total(stream@, k as nat);
        lemma_stream_view(stream);
    }
    let seekable = match stream.reposition {
        Reposition::Unavailable { .. } => false,
        _ => true,
    };
    let mut sniffer = Sniffer::new(seekable);
    match &stream.entries {
        None => {
            sniffer.record(Finding::Unframed);
        },
        Some(entries) => {
            let ghost totals = stream_totals(stream@.entries->0, k as nat);
            let mut i: usize = 0;
            while i < entries.len()
                invariant
                    i <= entries.len(),
                    stream.entries == Some(*entries),
                    totals == stream_totals(stream@.entries->0, k as nat),
                    totals.len() == entries.len(),
                    sum(totals) == 0 || sum(totals) <= usize::MAX,
                    sniffer == (Sniffer {
                        seekable,
                        state: Sniffing::Archive { sum: sum(totals.take(i as int)) as usize },
                    }),
                    sum(totals.take(i as int)) <= usize::MAX,
                decreases entries.len() - i,
            {
                proof {
                    lemma_sum_bounds_term(totals, i as int);
                    lemma_sum_bounds_prefix(totals, i + 1);
                    lemma_sum_push(totals.take(i as int), totals[i as int]);
                    assert(totals.take(i + 1) =~= totals.take(i as int).push(totals[i as int]));
                    lemma_stream_view(stream);
                }
                let count = count_stream(&entries[i], k);
                sniffer.record(Finding::Entry { count });
                i = i + 1;
            }
            proof {
                assert(totals.take(i as int) =~= totals);
            }
            sniffer.record(Finding::EndOfEntries);
        },
    }
    if let Sniffing::Rewind = sniffer.state() {
        let ok = match stream.reposition {
            Reposition::Rewinds => true,
            _ => false,
        };
        sniffer.record(Finding::Rewound { ok });
    }
    if let Sniffing::Sequence = sniffer.state() {
        let verdict = match stream.rest() {
            Some(bytes) => count_records(bytes, k),
            None => None,
        };
        sniffer.record(Finding::Sequence { verdict });
    }
    match sniffer.state() {
        Sniffing::Done { total } => total,
        _ => 0,
    }
}

} // verus!
