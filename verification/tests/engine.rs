use ccwc::engine::{count, invoke, run, values, CountEntry, CountError, Source};
use ccwc::selection::{CountKind, CountSelection};

fn entry(kind: CountKind, value: usize) -> CountEntry {
    CountEntry { kind, value }
}

#[test]
fn small_file_has_16_bytes_2_lines_3_words() {
    let content = b"hello world\nfoo\n";
    assert_eq!(count(CountKind::Bytes, content), Ok(16));
    assert_eq!(count(CountKind::Lines, content), Ok(2));
    assert_eq!(count(CountKind::Words, content), Ok(3));
}

#[test]
fn empty_file_has_zero_of_everything() {
    assert_eq!(count(CountKind::Bytes, b""), Ok(0));
    assert_eq!(count(CountKind::Lines, b""), Ok(0));
    assert_eq!(count(CountKind::Words, b""), Ok(0));
    let all = CountSelection::new(true, true, true);
    assert_eq!(values(&run(&all, b"").unwrap()), vec![0, 0, 0]);
    let unset = CountSelection::new(false, false, false);
    assert_eq!(values(&run(&unset, b"").unwrap()), vec![0, 0, 0]);
}

#[test]
fn words_only_reports_one_count() {
    let selection = CountSelection::new(false, false, true);
    let entries = run(&selection, b"a b  c\n\nd").unwrap();
    assert_eq!(entries, vec![entry(CountKind::Words, 4)]);
    assert_eq!(values(&entries), vec![4]);
}

#[test]
fn no_flag_reports_lines_words_bytes() {
    let selection = CountSelection::new(false, false, false);
    let entries = run(&selection, b"hello world\nfoo\n").unwrap();
    assert_eq!(
        entries,
        vec![entry(CountKind::Lines, 2), entry(CountKind::Words, 3), entry(CountKind::Bytes, 16)]
    );
    assert_eq!(values(&entries), vec![2, 3, 16]);
}

#[test]
fn all_flags_report_bytes_lines_words() {
    let selection = CountSelection::new(true, true, true);
    let entries = run(&selection, b"hello world\nfoo\n").unwrap();
    assert_eq!(
        entries,
        vec![entry(CountKind::Bytes, 16), entry(CountKind::Lines, 2), entry(CountKind::Words, 3)]
    );
}

#[test]
fn no_flag_and_all_flags_report_the_same_counts() {
    let samples: [&[u8]; 4] = [b"", b"one\n", b"a b  c\n\nd", "\u{e9}t\u{e9}\n".as_bytes()];
    for sample in samples {
        let unset = run(&CountSelection::new(false, false, false), sample).unwrap();
        let all = run(&CountSelection::new(true, true, true), sample).unwrap();
        assert_eq!(unset.len(), 3);
        assert_eq!(unset, vec![all[1], all[2], all[0]]);
    }
}

#[test]
fn each_flag_alone_reports_its_count() {
    let content = b"one two three\nfour\nfive";
    assert_eq!(
        run(&CountSelection::new(true, false, false), content),
        Ok(vec![entry(CountKind::Bytes, 23)])
    );
    assert_eq!(
        run(&CountSelection::new(false, true, false), content),
        Ok(vec![entry(CountKind::Lines, 3)])
    );
    assert_eq!(
        run(&CountSelection::new(false, false, true), content),
        Ok(vec![entry(CountKind::Words, 5)])
    );
}

#[test]
fn two_flags_report_in_the_fixed_order() {
    let content = b"one two three\nfour\nfive";
    assert_eq!(
        values(&run(&CountSelection::new(true, true, false), content).unwrap()),
        vec![23, 3]
    );
    assert_eq!(
        values(&run(&CountSelection::new(true, false, true), content).unwrap()),
        vec![23, 5]
    );
    assert_eq!(
        values(&run(&CountSelection::new(false, true, true), content).unwrap()),
        vec![3, 5]
    );
}

#[test]
fn running_twice_gives_the_same_result() {
    let samples: [&[u8]; 4] = [b"", b"hello world\nfoo\n", &[0xff, 0x0a], b"a b  c\n\nd"];
    for sample in samples {
        for flags in 0..8u8 {
            let selection = CountSelection::new(flags & 1 != 0, flags & 2 != 0, flags & 4 != 0);
            assert_eq!(run(&selection, sample), run(&selection, sample));
        }
        for kind in [CountKind::Bytes, CountKind::Lines, CountKind::Words] {
            assert_eq!(count(kind, sample), count(kind, sample));
        }
    }
}

#[test]
fn words_are_counted_in_decoded_text() {
    let content = "na\u{ef}ve caf\u{e9}\u{a0}au\u{3000}lait\n";
    assert_eq!(count(CountKind::Words, content.as_bytes()), Ok(4));
    assert_eq!(count(CountKind::Bytes, content.as_bytes()), Ok(24));
}

#[test]
fn words_of_undecodable_content_are_a_read_failure() {
    assert_eq!(count(CountKind::Words, &[0xff]), Err(CountError::ReadFailure));
    assert_eq!(count(CountKind::Words, &[b'a', b' ', 0xc3]), Err(CountError::ReadFailure));
    assert_eq!(count(CountKind::Words, &[0xed, 0xa0, 0x80]), Err(CountError::ReadFailure));
    assert_eq!(count(CountKind::Words, &[0xc0, 0xaf]), Err(CountError::ReadFailure));
    assert_eq!(count(CountKind::Words, &[0xf4, 0x90, 0x80, 0x80]), Err(CountError::ReadFailure));
}

#[test]
fn bytes_and_lines_of_undecodable_content_are_counted() {
    let content: [u8; 5] = [0xff, 0x0a, 0x00, 0xc3, 0x0a];
    assert_eq!(count(CountKind::Bytes, &content), Ok(5));
    assert_eq!(count(CountKind::Lines, &content), Ok(2));
    assert_eq!(
        run(&CountSelection::new(true, true, false), &content),
        Ok(vec![entry(CountKind::Bytes, 5), entry(CountKind::Lines, 2)])
    );
}

#[test]
fn a_failed_pass_leaves_no_partial_result() {
    let content: [u8; 3] = [b'a', 0x0a, 0xff];
    assert_eq!(run(&CountSelection::new(true, true, true), &content), Err(CountError::ReadFailure));
    assert_eq!(run(&CountSelection::new(false, false, true), &content), Err(CountError::ReadFailure));
    assert_eq!(
        run(&CountSelection::new(false, false, false), &content),
        Err(CountError::ReadFailure)
    );
}

#[test]
fn unavailable_source_fails_before_counting() {
    for flags in 0..8u8 {
        let selection = CountSelection::new(flags & 1 != 0, flags & 2 != 0, flags & 4 != 0);
        assert_eq!(invoke(&selection, &Source::Unavailable), Err(CountError::SourceUnavailable));
    }
}

#[test]
fn interrupted_read_fails_whatever_had_arrived() {
    let selection = CountSelection::new(true, false, false);
    assert_eq!(
        invoke(&selection, &Source::Interrupted(b"hello wor".to_vec())),
        Err(CountError::ReadFailure)
    );
    assert_eq!(invoke(&selection, &Source::Interrupted(Vec::new())), Err(CountError::ReadFailure));
}

#[test]
fn complete_source_is_counted() {
    let source = Source::Complete(b"hello world\nfoo\n".to_vec());
    assert_eq!(
        invoke(&CountSelection::new(false, false, false), &source).map(|e| values(&e)),
        Ok(vec![2, 3, 16])
    );
    assert_eq!(
        invoke(&CountSelection::new(true, false, false), &source),
        Ok(vec![entry(CountKind::Bytes, 16)])
    );
    let broken = Source::Complete(vec![0xff]);
    assert_eq!(
        invoke(&CountSelection::new(false, false, true), &broken),
        Err(CountError::ReadFailure)
    );
    assert_eq!(
        invoke(&CountSelection::new(true, true, false), &broken),
        Ok(vec![entry(CountKind::Bytes, 1), entry(CountKind::Lines, 1)])
    );
}

#[test]
fn values_drop_the_kinds_and_keep_the_order() {
    assert_eq!(values(&[]), Vec::<usize>::new());
    assert_eq!(
        values(&[entry(CountKind::Words, 7), entry(CountKind::Bytes, 0), entry(CountKind::Words, 9)]),
        vec![7, 0, 9]
    );
}

#[test]
fn no_count_exceeds_the_bytes() {
    let samples: [&[u8]; 4] = [b"\n\n\n", b"a b c d", b"a", "\u{1f600} \u{1f600}\n".as_bytes()];
    for sample in samples {
        for kind in [CountKind::Bytes, CountKind::Lines, CountKind::Words] {
            assert!(count(kind, sample).unwrap() <= sample.len());
        }
    }
}

#[test]
fn text_is_always_counted() {
    let samples = ["", "\n", "plain words\n", "h\u{e9}llo\u{a0}w\u{f6}rld", "\u{1f600}\n\u{4e16}\u{754c}"];
    for sample in samples {
        let feeds = sample.chars().filter(|c| *c == '\n').count();
        let tail = if !sample.is_empty() && !sample.ends_with('\n') { 1 } else { 0 };
        assert_eq!(count(CountKind::Bytes, sample.as_bytes()), Ok(sample.len()));
        assert_eq!(count(CountKind::Lines, sample.as_bytes()), Ok(feeds + tail));
        assert_eq!(
            count(CountKind::Words, sample.as_bytes()),
            Ok(sample.split_whitespace().count())
        );
    }
}
