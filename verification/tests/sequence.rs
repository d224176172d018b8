use kmer_count::counter::{count_records, ends_line, SequenceCounter};

fn record_of(len: usize) -> Vec<u8> {
    let mut bytes = b">title of the record\n".to_vec();
    for i in 0..len {
        bytes.push(b"ACGT"[i % 4]);
    }
    bytes
}

#[test]
fn line_feed_and_carriage_return_end_a_line() {
    assert!(ends_line(b'\n'));
    assert!(ends_line(b'\r'));
    assert!(!ends_line(b'>'));
    assert!(!ends_line(b'A'));
    assert!(!ends_line(b' '));
    assert!(!ends_line(0));
}

#[test]
fn single_record_gives_its_kmers() {
    for len in 0..40usize {
        for k in 1..12usize {
            let expected = if len + 1 > k { len + 1 - k } else { 0 };
            assert_eq!(count_records(&record_of(len), k), Some(expected));
        }
    }
}

#[test]
fn single_record_with_a_last_line_end() {
    let mut bytes = record_of(9);
    bytes.push(b'\n');
    assert_eq!(count_records(&bytes, 3), Some(7));
}

#[test]
fn body_on_several_lines_counts_residues_only() {
    assert_eq!(count_records(b">r\nACGT\nACGT\nAC\n", 4), Some(7));
    assert_eq!(count_records(b">r\r\nACGT\r\nACGT\r\nAC\r\n", 4), Some(7));
    assert_eq!(count_records(b">r\rACGT\rACGT\rAC", 4), Some(7));
    assert_eq!(count_records(b">r\n\n\nACGT\n\n\nAC\n\n", 1), Some(6));
}

#[test]
fn two_records_are_summed() {
    assert_eq!(count_records(b">seqA\nACGTACGT\n>seqB\nAC\n", 4), Some(5));
    assert_eq!(count_records(b">seqA\nACGTACGT\n>seqB\nAC\n", 2), Some(8));
    assert_eq!(count_records(b">seqA\nACGTACGT\n>seqB\nAC\n", 1), Some(10));
}

#[test]
fn stream_without_header_is_negative() {
    assert_eq!(count_records(b"", 1), None);
    assert_eq!(count_records(b"ACGTACGT\nACGT\n", 1), None);
    assert_eq!(count_records(b"\n\n\r\n", 3), None);
    assert_eq!(count_records(b"some text, no marker", 3), None);
}

#[test]
fn marker_inside_first_lines_is_no_header() {
    assert_eq!(count_records(b"a>b\nACGT\n", 2), None);
    assert_eq!(count_records(b" >title\nACGT\n", 2), None);
}

#[test]
fn lines_before_the_first_header_are_passed_over() {
    assert_eq!(count_records(b"a note\nanother > note\n>r\nACGTA\n", 2), Some(4));
    assert_eq!(count_records(b"\n>r\nACGTA\n", 2), Some(4));
    assert_eq!(count_records(b"\r>r\nACGTA\n", 5), Some(1));
}

#[test]
fn marker_inside_a_body_line_is_negative() {
    assert_eq!(count_records(b">r\nAC>GT\n", 1), None);
    assert_eq!(count_records(b">r\nACGT>", 1), None);
    assert_eq!(count_records(b">a\nACGT\n>b\nACGT\n>c\nAC>GT\n>d\nACGT\n", 1), None);
}

#[test]
fn marker_inside_a_header_line_is_part_of_the_title() {
    assert_eq!(count_records(b">a>b >c\nACGT\n", 2), Some(3));
    assert_eq!(count_records(b">>\nACGT\n", 4), Some(1));
}

#[test]
fn header_cut_short_by_the_end_starts_no_record() {
    assert_eq!(count_records(b">", 1), Some(0));
    assert_eq!(count_records(b">title", 1), Some(0));
    assert_eq!(count_records(b">a\nACGT\n>b", 2), Some(3));
    assert_eq!(count_records(b">title", 0), Some(0));
    assert_eq!(count_records(b">title\n", 0), Some(1));
}

#[test]
fn record_without_residues_gives_zero() {
    assert_eq!(count_records(b">a\n", 1), Some(0));
    assert_eq!(count_records(b">a\n>b\nAC\n>c\n", 1), Some(2));
    assert_eq!(count_records(b">a\n\n\n>b\n", 3), Some(0));
}

#[test]
fn format_with_no_kmer_is_zero_and_not_negative() {
    assert_eq!(count_records(b">r\nACGT\n", 5), Some(0));
    assert_eq!(count_records(b">r\nACGT\n", 500), Some(0));
    assert_eq!(count_records(b"ACGT\n", 5), None);
}

#[test]
fn counter_starts_empty() {
    let counter = SequenceCounter::new(3);
    assert_eq!(counter.seen(), 0);
    assert!(!counter.is_rejected());
    assert_eq!(counter.finish(), None);
}

#[test]
fn counter_fed_in_pieces_agrees_with_the_whole() {
    let bytes = b"note\n>a one\nACGTAC\nGTAC\n>b\r\nAC\r\n>c\nACGTACGTACGT".to_vec();
    for k in 1..8usize {
        let whole = count_records(&bytes, k);
        for cut in 0..=bytes.len() {
            let mut counter = SequenceCounter::new(k);
            counter.feed(&bytes[..cut]);
            counter.feed(&bytes[cut..]);
            assert_eq!(counter.seen(), bytes.len());
            assert_eq!(counter.finish(), whole);
        }
        let mut counter = SequenceCounter::new(k);
        for byte in &bytes {
            counter.push(*byte);
        }
        assert_eq!(counter.finish(), whole);
    }
    assert_eq!(count_records(&bytes, 3), Some(8 + 0 + 10));
}

#[test]
fn counter_gives_the_count_of_every_prefix() {
    let mut counter = SequenceCounter::new(2);
    assert_eq!(counter.finish(), None);
    counter.feed(b">r");
    assert_eq!(counter.finish(), Some(0));
    counter.feed(b"\nA");
    assert_eq!(counter.finish(), Some(0));
    counter.feed(b"C");
    assert_eq!(counter.finish(), Some(1));
    counter.feed(b"\nGT\n");
    assert_eq!(counter.finish(), Some(3));
    counter.feed(b">s\nACG");
    assert_eq!(counter.finish(), Some(5));
    assert_eq!(counter.seen(), 15);
}

#[test]
fn counter_stays_rejected() {
    let mut counter = SequenceCounter::new(1);
    counter.feed(b">r\nAC");
    assert!(!counter.is_rejected());
    assert_eq!(counter.finish(), Some(2));
    counter.push(b'>');
    assert!(counter.is_rejected());
    assert_eq!(counter.finish(), None);
    counter.feed(b"\n>s\nACGT\n");
    assert!(counter.is_rejected());
    assert_eq!(counter.finish(), None);
    assert_eq!(counter.seen(), 15);
}

#[test]
fn counter_is_not_rejected_before_a_header() {
    let mut counter = SequenceCounter::new(1);
    counter.feed(b"a>b>c");
    assert!(!counter.is_rejected());
    assert_eq!(counter.finish(), None);
}
