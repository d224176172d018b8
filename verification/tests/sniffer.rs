use kmer_count::sniffer::{Finding, Sniffer, Sniffing};

#[test]
fn sniffer_starts_with_the_archive() {
    assert_eq!(Sniffer::new(true).state(), Sniffing::Archive { sum: 0 });
    assert_eq!(Sniffer::new(false).state(), Sniffing::Archive { sum: 0 });
    assert!(Sniffer::new(true).seekable);
    assert!(!Sniffer::new(false).seekable);
}

#[test]
fn unframed_stream_falls_back() {
    let mut sniffer = Sniffer::new(true);
    sniffer.record(Finding::Unframed);
    assert_eq!(sniffer.state(), Sniffing::Rewind);
    let mut sniffer = Sniffer::new(false);
    sniffer.record(Finding::Unframed);
    assert_eq!(sniffer.state(), Sniffing::Sequence);
}

#[test]
fn entries_are_summed() {
    let mut sniffer = Sniffer::new(true);
    sniffer.record(Finding::Entry { count: 6 });
    assert_eq!(sniffer.state(), Sniffing::Archive { sum: 6 });
    sniffer.record(Finding::Entry { count: 0 });
    sniffer.record(Finding::Entry { count: 16 });
    assert_eq!(sniffer.state(), Sniffing::Archive { sum: 22 });
    sniffer.record(Finding::EndOfEntries);
    assert_eq!(sniffer.state(), Sniffing::Done { total: 22 });
}

#[test]
fn archive_without_kmers_is_taken_for_no_archive() {
    let mut sniffer = Sniffer::new(true);
    sniffer.record(Finding::Entry { count: 0 });
    sniffer.record(Finding::Entry { count: 0 });
    sniffer.record(Finding::EndOfEntries);
    assert_eq!(sniffer.state(), Sniffing::Rewind);
    let mut sniffer = Sniffer::new(false);
    sniffer.record(Finding::EndOfEntries);
    assert_eq!(sniffer.state(), Sniffing::Sequence);
}

#[test]
fn rewound_stream_is_read_as_sequence() {
    let mut sniffer = Sniffer::new(true);
    sniffer.record(Finding::Unframed);
    sniffer.record(Finding::Rewound { ok: true });
    assert_eq!(sniffer.state(), Sniffing::Sequence);
    sniffer.record(Finding::Sequence { verdict: Some(5) });
    assert_eq!(sniffer.state(), Sniffing::Done { total: 5 });
}

#[test]
fn stream_that_fails_to_rewind_gives_zero() {
    let mut sniffer = Sniffer::new(true);
    sniffer.record(Finding::EndOfEntries);
    sniffer.record(Finding::Rewound { ok: false });
    assert_eq!(sniffer.state(), Sniffing::Done { total: 0 });
}

#[test]
fn negative_sequence_verdict_gives_zero() {
    let mut sniffer = Sniffer::new(false);
    sniffer.record(Finding::Unframed);
    sniffer.record(Finding::Sequence { verdict: None });
    assert_eq!(sniffer.state(), Sniffing::Done { total: 0 });
    let mut sniffer = Sniffer::new(false);
    sniffer.record(Finding::Unframed);
    sniffer.record(Finding::Sequence { verdict: Some(0) });
    assert_eq!(sniffer.state(), Sniffing::Done { total: 0 });
}

#[test]
fn finding_that_answers_nothing_is_ignored() {
    let mut sniffer = Sniffer::new(true);
    sniffer.record(Finding::Rewound { ok: true });
    sniffer.record(Finding::Sequence { verdict: Some(9) });
    assert_eq!(sniffer.state(), Sniffing::Archive { sum: 0 });
    sniffer.record(Finding::Unframed);
    sniffer.record(Finding::Entry { count: 3 });
    sniffer.record(Finding::Sequence { verdict: Some(9) });
    sniffer.record(Finding::EndOfEntries);
    assert_eq!(sniffer.state(), Sniffing::Rewind);
    sniffer.record(Finding::Rewound { ok: true });
    sniffer.record(Finding::Rewound { ok: false });
    sniffer.record(Finding::Entry { count: 3 });
    assert_eq!(sniffer.state(), Sniffing::Sequence);
    sniffer.record(Finding::Sequence { verdict: Some(4) });
    sniffer.record(Finding::Sequence { verdict: Some(9) });
    sniffer.record(Finding::Unframed);
    assert_eq!(sniffer.state(), Sniffing::Done { total: 4 });
}

#[test]
fn sniffer_knows_its_room() {
    let mut sniffer = Sniffer::new(true);
    sniffer.record(Finding::Entry { count: usize::MAX - 1 });
    assert!(sniffer.can_record(Finding::Entry { count: 1 }));
    assert!(!sniffer.can_record(Finding::Entry { count: 2 }));
    assert!(sniffer.can_record(Finding::EndOfEntries));
    assert!(sniffer.can_record(Finding::Sequence { verdict: Some(usize::MAX) }));
    sniffer.record(Finding::Entry { count: 1 });
    assert_eq!(sniffer.state(), Sniffing::Archive { sum: usize::MAX });
    sniffer.record(Finding::EndOfEntries);
    assert!(sniffer.can_record(Finding::Entry { count: 2 }));
}
