//! Counting k-mers under a set of paths.
//!
//! A path is a directory, a file, or nothing that can be opened. A file is
//! an archive, a file of the sequence format, or neither; which, only
//! reading it shows. The k-mers of a record of `len` residues are
//! `len - k + 1`, or none where the record is shorter than `k`, and the
//! k-mers under a set of paths are those of all the records found there.
//!
//! The library opens and reads nothing itself. [`walker`], [`sniffer`] and
//! [`counter`] say what to try next and take what the caller found;
//! [`stream`] and [`tree`] do the same on data that is held in memory, and
//! state what the outcome is.

pub mod async_file;
pub mod counter;
pub mod kmer;
pub mod sequence;
pub mod sequence_proofs;
pub mod sniffer;
pub mod stream;
pub mod sums;
pub mod tree;
pub mod walker;
