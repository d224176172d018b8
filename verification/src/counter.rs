//! Counting the k-mers of a stream in the sequence format, chunk by chunk.

use vstd::prelude::*;
use crate::kmer::kmers_in_record;
use crate::sequence::{
    is_line_boundary, scan, sequence_count, total_kmers, Scan, CARRIAGE_RETURN, HEADER_MARKER,
    LINE_FEED,
};

verus! {

/// A count on machine integers as a natural number; `None` stays `None`.
pub open spec fn as_nat(count: Option<usize>) -> Option<nat> {
    match count {
        Some(n) => Some(n as nat),
        None => None,
    }
}

/// Whether `byte` ends a line.
pub fn ends_line(byte: u8) -> (r: bool)
    ensures
        r == is_line_boundary(byte),
{
    byte == LINE_FEED || byte == CARRIAGE_RETURN
}

#[derive(Clone, Copy)]
enum Phase {
    Seeking,
    Header,
    Body,
    Rejected,
}

/// Reads a stream piece by piece and keeps, of all it has read, only what the
/// count needs: the k-mers of the closed records and the length of the open
/// one.
pub struct SequenceCounter {
    k: usize,
    phase: Phase,
    line_start: bool,
    sum: usize,
    len: usize,
    seen: usize,
    bytes: Ghost<Seq<u8>>,
}

impl SequenceCounter {
    #[verifier::type_invariant]
    spec fn agrees_with_scan(self) -> bool {
        &&& self.seen == self.bytes@.len()
        &&& match scan(self.bytes@) {
            Scan::Seeking { line_start } => {
                &&& self.phase is Seeking
                &&& self.line_start == line_start
            },
            Scan::Header { closed } => {
                &&& self.phase is Header
                &&& self.sum == total_kmers(closed, self.k as nat)
                &&& self.sum + 1 <= self.seen
            },
            Scan::Body { closed, len, line_start } => {
                &&& self.phase is Body
                &&& self.sum == total_kmers(closed, self.k as nat)
                &&& self.len == len
                &&& self.line_start == line_start
                &&& self.sum + self.len + 1 <= self.seen
            },
            Scan::Rejected => self.phase is Rejected,
        }
    }

    /// The bytes read so far, in their order.
    pub closed spec fn bytes(&self) -> Seq<u8> {
        self.bytes@
    }

    /// The length of the substrings that are counted.
    pub closed spec fn k(&self) -> nat {
        self.k as nat
    }

    /// A counter of `k`-mers that has read nothing yet.
    pub fn new(k: usize) -> (counter: SequenceCounter)
        ensures
            counter.bytes() == Seq::<u8>::empty(),
            counter.k() == k,
    {
        SequenceCounter {
            k,
            phase: Phase::Seeking,
            line_start: true,
            sum: 0,
            len: 0,
            seen: 0,
            bytes: Ghost(Seq::empty()),
        }
    }

    /// The number of bytes read so far.
    pub fn seen(&self) -> (n: usize)
        ensures
            n == self.bytes().len(),
    {
        proof {
            use_type_invariant(self);
        }
        self.seen
    }

    /// Reads one more byte.
    pub fn push(&mut self, byte: u8)
        requires
            old(self).bytes().len() < usize::MAX,
        ensures
            final(self).bytes() == old(self).bytes().push(byte),
            final(self).k() == old(self).k(),
    {
        proof {
            use_type_invariant(&*self);
            assert(self.bytes@.push(byte).drop_last() =~= self.bytes@);
        }
        let boundary = ends_line(byte);
        let mut phase = self.phase;
        let mut line_start = self.line_start;
        let mut sum = self.sum;
        let mut len = self.len;
        match self.phase {
            Phase::Seeking => {
                if line_start && byte == HEADER_MARKER {
                    phase = Phase::Header;
                    sum = 0;
                } else {
                    line_start = boundary;
                }
            },
            Phase::Header => {
                if boundary {
                    phase = Phase::Body;
                    len = 0;
                    line_start = true;
                }
            },
            Phase::Body => {
                if byte == HEADER_MARKER {
                    if line_start {
                        proof {
                            let closed = scan(self.bytes@)->Body_closed;
                            assert(closed.push(len as nat).drop_last() =~= closed);
                        }
                        sum = sum + kmers_in_record(len, self.k);
                        phase = Phase::Header;
                    } else {
                        phase = Phase::Rejected;
                    }
                } else if boundary {
                    line_start = true;
                } else {
                    len = len + 1;
                    line_start = false;
                }
            },
            Phase::Rejected => {},
        }
        *self = SequenceCounter {
            k: self.k,
            phase,
            line_start,
            sum,
            len,
            seen: self.seen + 1,
            bytes: Ghost(self.bytes@.push(byte)),
        };
    }

    /// Reads the bytes of `chunk`, in their order.
    pub fn feed(&mut self, chunk: &[u8])
        requires
            old(self).bytes().len() + chunk@.len() <= usize::MAX,
        ensures
            final(self).bytes() == old(self).bytes() + chunk@,
            final(self).k() == old(self).k(),
    {
        let mut i: usize = 0;
        while i < chunk.len()
            invariant
                i <= chunk@.len(),
                self.bytes() == old(self).bytes() + chunk@.subrange(0, i as int),
                self.k() == old(self).k(),
                old(self).bytes().len() + chunk@.len() <= usize::MAX,
            decreases chunk@.len() - i,
        {
            proof {
                assert(chunk@.subrange(0, i + 1) =~= chunk@.subrange(0, i as int).push(chunk@[i as int]));
                assert((old(self).bytes() + chunk@.subrange(0, i as int)).push(chunk@[i as int])
                    =~= old(self).bytes() + chunk@.subrange(0, i + 1));
            }
            self.push(chunk[i]);
            i = i + 1;
        }
        proof {
            assert(chunk@.subrange(0, i as int) =~= chunk@);
        }
    }

    /// Whether the bytes read so far already show that the stream is not of
    /// the sequence format, whatever follows.
    pub fn is_rejected(&self) -> (r: bool)
        ensures
            r == (scan(self.bytes()) is Rejected),
    {
        proof {
            use_type_invariant(self);
        }
        match self.phase {
            Phase::Rejected => true,
            _ => false,
        }
    }

    /// The count, if the stream ends with the bytes read so far: the k-mers
    /// of all its records, or `None` if it is not of the sequence format.
    pub fn finish(&self) -> (count: Option<usize>)
        ensures
            as_nat(count) == sequence_count(self.bytes(), self.k()),
    {
        proof {
            use_type_invariant(self);
        }
        match self.phase {
            Phase::Seeking => None,
            Phase::Header => Some(self.sum),
            Phase::Body => {
                proof {
                    let closed = scan(self.bytes@)->Body_closed;
                    assert(closed.push(self.len as nat).drop_last() =~= closed);
                }
                Some(self.sum + kmers_in_record(self.len, self.k))
            },
            Phase::Rejected => None,
        }
    }
}

/// Counts the k-mers of a whole stream that is held in memory: the sum over
/// its records, or `None` if it is not of the sequence format.
pub fn count_records(bytes: &[u8], k: usize) -> (count: Option<usize>)
    ensures
        as_nat(count) == sequence_count(bytes@, k as nat),
{
    let mut counter = SequenceCounter::new(k);
    assert(bytes@.len() == bytes.len());
    counter.feed(bytes);
    assert(Seq::<u8>::empty() + bytes@ =~= bytes@);
    counter.finish()
}

} // verus!
