//! Telling what a stream of unknown type is, by trying.
//!
//! A stream is read as an archive first. An archive whose entries hold no
//! k-mer at all is taken for no archive: bytes that are no archive can look
//! like a table of entries, and nothing else tells the two apart. After a
//! negative archive attempt the stream is read as the sequence format, from
//! its start where it can go back there and from where it stands where it
//! cannot. The reading is the caller's: the sniffer says what to try next
//! and takes what was found.

use vstd::prelude::*;

verus! {

/// What the caller is to do next with the stream.
#[derive(Clone, Copy, PartialEq, Eq, Debug)]
pub enum Sniffing {
    /// Read it as an archive: frame it, and sniff each entry in turn. The
    /// entries found so far hold `sum` k-mers.
    Archive { sum: usize },
    /// Move it back to its start.
    Rewind,
    /// Read it as the sequence format, from where it stands.
    Sequence,
    /// Nothing more: the stream holds `total` k-mers.
    Done { total: usize },
}

/// What the caller found when it did as it was told.
#[derive(Clone, Copy, PartialEq, Eq, Debug)]
pub enum Finding {
    /// The stream cannot be framed as an archive.
    Unframed,
    /// The archive gave one more entry, which holds `count` k-mers.
    Entry { count: usize },
    /// The archive gives no further entry: it has ended, or reading it
    /// failed.
    EndOfEntries,
    /// The stream was asked to go back to its start, and `ok` says whether
    /// it did.
    Rewound { ok: bool },
    /// What reading the stream as the sequence format gave: its k-mers, or
    /// `None` where it is not of that format.
    Sequence { verdict: Option<usize> },
}

/// The sniffer of one stream.
#[derive(Clone, Copy, PartialEq, Eq, Debug)]
pub struct Sniffer {
    /// Whether the stream can be asked to go back to its start.
    pub seekable: bool,
    /// What is to be done next.
    pub state: Sniffing,
}

impl Sniffer {
    /// The state after a negative archive verdict.
    pub open spec fn fallback(seekable: bool) -> Sniffing {
        if seekable {
            Sniffing::Rewind
        } else {
            Sniffing::Sequence
        }
    }

    /// Whether `finding` can be taken in: the k-mers of the entries must fit
    /// in a `usize`.
    pub open spec fn has_room(self, finding: Finding) -> bool {
        match (self.state, finding) {
            (Sniffing::Archive { sum }, Finding::Entry { count }) => sum + count <= usize::MAX,
            _ => true,
        }
    }

    /// The sniffer after `finding`. A finding that does not answer what was
    /// to be done changes nothing.
    pub open spec fn after(self, finding: Finding) -> Sniffer {
        let state = match (self.state, finding) {
            (Sniffing::Archive { sum }, Finding::Unframed) => Self::fallback(self.seekable),
            (Sniffing::Archive { sum }, Finding::Entry { count }) => Sniffing::Archive {
                sum: (sum + count) as usize,
            },
            (Sniffing::Archive { sum }, Finding::EndOfEntries) => {
                if sum == 0 {
                    Self::fallback(self.seekable)
                } else {
                    Sniffing::Done { total: sum }
                }
            },
            (Sniffing::Rewind, Finding::Rewound { ok }) => {
                if ok {
                    Sniffing::Sequence
                } else {
                    Sniffing::Done { total: 0 }
                }
            },
            (Sniffing::Sequence, Finding::Sequence { verdict }) => Sniffing::Done {
                total: match verdict {
                    Some(n) => n,
                    None => 0,
                },
            },
            _ => self.state,
        };
        Sniffer { seekable: self.seekable, state }
    }

    /// The sniffer of a stream of which nothing is known yet.
    pub fn new(seekable: bool) -> (sniffer: Sniffer)
        ensures
            sniffer == (Sniffer { seekable, state: Sniffing::Archive { sum: 0 } }),
    {
        Sniffer { seekable, state: Sniffing::Archive { sum: 0 } }
    }

    /// What is to be done next.
    pub fn state(&self) -> (state: Sniffing)
        ensures
            state == self.state,
    {
        self.state
    }

    /// Whether [`Sniffer::record`] can take `finding` in.
    pub fn can_record(&self, finding: Finding) -> (r: bool)
        ensures
            r == self.has_room(finding),
    {
        match (self.state, finding) {
            (Sniffing::Archive { sum }, Finding::Entry { count }) => count <= usize::MAX - sum,
            _ => true,
        }
    }

    /// Takes in what the caller found.
    pub fn record(&mut self, finding: Finding)
        requires
            old(self).has_room(finding),
        ensures
            *final(self) == old(self).after(finding),
    {
        match (self.state, finding) {
            (Sniffing::Archive { sum }, Finding::Unframed) => {
                self.state = Self::negative(self.seekable);
            },
            (Sniffing::Archive { sum }, Finding::Entry { count }) => {
                self.state = Sniffing::Archive { sum: sum + count };
            },
            (Sniffing::Archive { sum }, Finding::EndOfEntries) => {
                if sum == 0 {
                    self.state = Self::negative(self.seekable);
                } else {
                    self.state = Sniffing::Done { total: sum };
                }
            },
            (Sniffing::Rewind, Finding::Rewound { ok }) => {
                if ok {
                    self.state = Sniffing::Sequence;
                } else {
                    self.state = Sniffing::Done { total: 0 };
                }
            },
            (Sniffing::Sequence, Finding::Sequence { verdict }) => {
                self.state = Sniffing::Done { total: verdict.unwrap_or(0) };
            },
            _ => {},
        }
    }

    fn negative(seekable: bool) -> (state: Sniffing)
        ensures
            state == Self::fallback(seekable),
    {
        if seekable {
            Sniffing::Rewind
        } else {
            Sniffing::Sequence
        }
    }
}

} // verus!
