//! The sequence format, as a machine that reads one byte at a time.
//!
//! A record is a header line, which starts with [`HEADER_MARKER`], and the
//! residues on the lines after it, up to the next header line or the end of
//! the stream. Of a record only the number of its residues is kept.

use vstd::prelude::*;
use crate::kmer::kmers;

verus! {

/// The byte that starts a header line, `>`.
pub const HEADER_MARKER: u8 = 0x3e;

/// Line feed.
pub const LINE_FEED: u8 = 0x0a;

/// Carriage return.
pub const CARRIAGE_RETURN: u8 = 0x0d;

/// Whether `byte` ends a line: a line feed or a carriage return.
pub open spec fn is_line_boundary(byte: u8) -> bool {
    byte == LINE_FEED || byte == CARRIAGE_RETURN
}

/// What is known of a stream after some of its bytes.
pub enum Scan {
    /// No header has been seen yet.
    Seeking {
        /// The next byte is the first of a line.
        line_start: bool,
    },
    /// Inside a header line, after the records of the lengths `closed`.
    Header { closed: Seq<nat> },
    /// Inside the body of a record with `len` residues so far, after the
    /// records of the lengths `closed`.
    Body {
        closed: Seq<nat>,
        len: nat,
        /// The next byte is the first of a line.
        line_start: bool,
    },
    /// A header marker stood inside a line of a body: the stream is not of
    /// this format, whatever follows.
    Rejected,
}

impl Scan {
    /// Before the first byte. The start of the stream counts as the start of
    /// a line.
    pub open spec fn start() -> Scan {
        Scan::Seeking { line_start: true }
    }

    /// The state after one more byte.
    pub open spec fn step(self, byte: u8) -> Scan {
        match self {
            Scan::Seeking { line_start } => {
                if line_start && byte == HEADER_MARKER {
                    Scan::Header { closed: Seq::empty() }
                } else {
                    Scan::Seeking { line_start: is_line_boundary(byte) }
                }
            },
            Scan::Header { closed } => {
                if is_line_boundary(byte) {
                    Scan::Body { closed, len: 0, line_start: true }
                } else {
                    self
                }
            },
            Scan::Body { closed, len, line_start } => {
                if byte == HEADER_MARKER {
                    if line_start {
                        Scan::Header { closed: closed.push(len) }
                    } else {
                        Scan::Rejected
                    }
                } else if is_line_boundary(byte) {
                    Scan::Body { closed, len, line_start: true }
                } else {
                    Scan::Body { closed, len: len + 1, line_start: false }
                }
            },
            Scan::Rejected => Scan::Rejected,
        }
    }

    /// The state after all of `bytes`, in their order.
    pub open spec fn run(self, bytes: Seq<u8>) -> Scan
        decreases bytes.len(),
    {
        if bytes.len() == 0 {
            self
        } else {
            self.run(bytes.drop_last()).step(bytes.last())
        }
    }

    /// The lengths of the records, if the stream ends here: the record that
    /// is open is closed by the end. A header line that the end cuts short
    /// starts no record. `None` says that the stream is not of this format:
    /// it holds no header, or a header marker inside a line of a body.
    pub open spec fn records(self) -> Option<Seq<nat>> {
        match self {
            Scan::Seeking { .. } => None,
            Scan::Header { closed } => Some(closed),
            Scan::Body { closed, len, .. } => Some(closed.push(len)),
            Scan::Rejected => None,
        }
    }

    /// Whether a header marker as the next byte would start a header line.
    pub open spec fn at_line_start(self) -> bool {
        match self {
            Scan::Seeking { line_start } => line_start,
            Scan::Body { line_start, .. } => line_start,
            _ => false,
        }
    }

    /// Whether the next byte continues a line of a record's body.
    pub open spec fn inside_body_line(self) -> bool {
        self matches Scan::Body { line_start: false, .. }
    }
}

/// The state after reading the whole of `bytes` from its first byte.
pub open spec fn scan(bytes: Seq<u8>) -> Scan {
    Scan::start().run(bytes)
}

/// The lengths of the records of the stream `bytes`, in their order, or
/// `None` if it is not of the sequence format.
pub open spec fn record_lengths(bytes: Seq<u8>) -> Option<Seq<nat>> {
    scan(bytes).records()
}

/// The k-mers of records of the given lengths, all together.
pub open spec fn total_kmers(lengths: Seq<nat>, k: nat) -> nat
    decreases lengths.len(),
{
    if lengths.len() == 0 {
        0
    } else {
        total_kmers(lengths.drop_last(), k) + kmers(lengths.last(), k)
    }
}

/// The k-mers in the stream `bytes`, or `None` if it is not of the sequence
/// format. A stream of the format may well hold none: `Some(0)`.
pub open spec fn sequence_count(bytes: Seq<u8>, k: nat) -> Option<nat> {
    match record_lengths(bytes) {
        Some(lengths) => Some(total_kmers(lengths, k)),
        None => None,
    }
}

/// The number of residues among `bytes`: the bytes that end no line.
pub open spec fn residues(bytes: Seq<u8>) -> nat
    decreases bytes.len(),
{
    if bytes.len() == 0 {
        0
    } else if is_line_boundary(bytes.last()) {
        residues(bytes.drop_last())
    } else {
        residues(bytes.drop_last()) + 1
    }
}

} // verus!
