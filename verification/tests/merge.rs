use fcc::{ErrorKind, FileMerger, Newline, Pad, Skip, SkipEnd};

fn sources() -> Vec<Vec<u8>> {
    vec![
        b"111 112\n121 122\n131 132\n".to_vec(),
        b"211 212\n221 222\n231 232\n".to_vec(),
        b"311 312\n332 322\n331 332".to_vec(),
    ]
}

#[test]
fn merge_default_is_plain_concatenation() {
    let merger = FileMerger::new();
    let out = merger.merge(&sources()).unwrap();
    assert_eq!(
        out,
        b"111 112\n121 122\n131 132\n211 212\n221 222\n231 232\n311 312\n332 322\n331 332"
            .to_vec()
    );
}

#[test]
fn merge_nothing_is_an_error() {
    let merger = FileMerger::new();
    let e = merger.merge(&Vec::new()).unwrap_err();
    assert_eq!(e.into_kind(), ErrorKind::NothingPassed);
}

#[test]
fn skip_head_lines() {
    let mut merger = FileMerger::new();
    merger.skip_head(Skip::Lines(0));
    let out = merger.merge(&sources()).unwrap();
    assert_eq!(
        out,
        b"111 112\n121 122\n131 132\n211 212\n221 222\n231 232\n311 312\n332 322\n331 332"
            .to_vec()
    );

    let mut merger = FileMerger::new();
    merger.skip_head(Skip::Lines(1));
    let out = merger.merge(&sources()).unwrap();
    assert_eq!(out, b"121 122\n131 132\n221 222\n231 232\n332 322\n331 332".to_vec());

    let mut merger = FileMerger::new();
    merger.skip_head(Skip::Lines(2));
    let out = merger.merge(&sources()).unwrap();
    assert_eq!(out, b"131 132\n231 232\n331 332".to_vec());

    let mut merger = FileMerger::new();
    merger.skip_head(Skip::Lines(3));
    let out = merger.merge(&sources()).unwrap();
    assert_eq!(out, b"".to_vec());

    let mut merger = FileMerger::new();
    merger.skip_head(Skip::Lines(4));
    assert!(merger.merge(&sources()).is_err());
}

#[test]
fn skip_tail_lines() {
    let mut merger = FileMerger::new();
    merger.skip_tail(Skip::Lines(0));
    let out = merger.merge(&sources()).unwrap();
    assert_eq!(
        out,
        b"111 112\n121 122\n131 132\n211 212\n221 222\n231 232\n311 312\n332 322\n331 332"
            .to_vec()
    );

    let mut merger = FileMerger::new();
    merger.skip_tail(Skip::Lines(1));
    let out = merger.merge(&sources()).unwrap();
    assert_eq!(out, b"111 112\n121 122\n211 212\n221 222\n311 312\n332 322\n".to_vec());

    let mut merger = FileMerger::new();
    merger.skip_tail(Skip::Lines(3));
    let out = merger.merge(&sources()).unwrap();
    assert_eq!(out, b"".to_vec());

    let mut merger = FileMerger::new();
    merger.skip_tail(Skip::Lines(4));
    assert!(merger.merge(&sources()).is_err());
}

#[test]
fn skip_head_once_exempts_the_first_source() {
    let mut merger = FileMerger::new();
    merger.skip_head(Skip::LinesOnce(0));
    let out = merger.merge(&sources()).unwrap();
    assert_eq!(
        out,
        b"111 112\n121 122\n131 132\n211 212\n221 222\n231 232\n311 312\n332 322\n331 332"
            .to_vec()
    );

    let mut merger = FileMerger::new();
    merger.skip_head(Skip::LinesOnce(1));
    let out = merger.merge(&sources()).unwrap();
    assert_eq!(
        out,
        b"111 112\n121 122\n131 132\n221 222\n231 232\n332 322\n331 332".to_vec()
    );

    let mut merger = FileMerger::new();
    merger.skip_head(Skip::LinesOnce(2));
    let out = merger.merge(&sources()).unwrap();
    assert_eq!(out, b"111 112\n121 122\n131 132\n231 232\n331 332".to_vec());

    let mut merger = FileMerger::new();
    merger.skip_head(Skip::LinesOnce(3));
    let out = merger.merge(&sources()).unwrap();
    assert_eq!(out, b"111 112\n121 122\n131 132\n".to_vec());
}

#[test]
fn skip_tail_once_exempts_the_last_source() {
    let mut merger = FileMerger::new();
    merger.skip_tail(Skip::LinesOnce(0));
    let out = merger.merge(&sources()).unwrap();
    assert_eq!(
        out,
        b"111 112\n121 122\n131 132\n211 212\n221 222\n231 232\n311 312\n332 322\n331 332"
            .to_vec()
    );

    let mut merger = FileMerger::new();
    merger.skip_tail(Skip::LinesOnce(1));
    let out = merger.merge(&sources()).unwrap();
    assert_eq!(
        out,
        b"111 112\n121 122\n211 212\n221 222\n311 312\n332 322\n331 332".to_vec()
    );

    let mut merger = FileMerger::new();
    merger.skip_tail(Skip::LinesOnce(3));
    let out = merger.merge(&sources()).unwrap();
    assert_eq!(out, b"311 312\n332 322\n331 332".to_vec());
}

#[test]
fn skip_head_bytes() {
    let mut merger = FileMerger::new();
    merger.skip_head(Skip::Bytes(4));
    let out = merger.merge(&sources()).unwrap();
    assert_eq!(
        out,
        b"112\n121 122\n131 132\n212\n221 222\n231 232\n312\n332 322\n331 332".to_vec()
    );

    let mut merger = FileMerger::new();
    merger.skip_head(Skip::Bytes(8));
    let out = merger.merge(&sources()).unwrap();
    assert_eq!(out, b"121 122\n131 132\n221 222\n231 232\n332 322\n331 332".to_vec());

    let mut merger = FileMerger::new();
    merger.skip_head(Skip::Bytes(24));
    assert!(merger.merge(&sources()).is_err());
}

#[test]
fn skip_tail_bytes() {
    let mut merger = FileMerger::new();
    merger.skip_tail(Skip::Bytes(4));
    let out = merger.merge(&sources()).unwrap();
    assert_eq!(
        out,
        b"111 112\n121 122\n131 211 212\n221 222\n231 311 312\n332 322\n331".to_vec()
    );

    let mut merger = FileMerger::new();
    merger.skip_tail(Skip::Bytes(8));
    let out = merger.merge(&sources()).unwrap();
    assert_eq!(out, b"111 112\n121 122\n211 212\n221 222\n311 312\n332 322".to_vec());

    let mut merger = FileMerger::new();
    merger.skip_tail(Skip::Bytes(24));
    assert!(merger.merge(&sources()).is_err());
}

#[test]
fn byte_skip_of_exact_length_leaves_an_empty_range() {
    // One source of 23 bytes: skipping 23 bytes succeeds and contributes
    // nothing; skipping 24 is insufficient content.
    let one = vec![b"311 312\n332 322\n331 332".to_vec()];
    assert_eq!(one[0].len(), 23);

    let mut merger = FileMerger::new();
    merger.skip_head(Skip::Bytes(23));
    let out = merger.merge(&one).unwrap();
    assert_eq!(out, b"".to_vec());

    let mut merger = FileMerger::new();
    merger.skip_head(Skip::Bytes(24));
    let e = merger.merge(&one).unwrap_err();
    assert_eq!(e.into_kind(), ErrorKind::InvalidSkip { index: 0, end: SkipEnd::Head });
}

#[test]
fn insufficient_content_names_the_file_and_end() {
    let mut merger = FileMerger::new();
    merger.skip_head(Skip::Lines(4));
    let e = merger.merge(&sources()).unwrap_err();
    assert_eq!(e.into_kind(), ErrorKind::InvalidSkip { index: 0, end: SkipEnd::Head });

    let mut merger = FileMerger::new();
    merger.skip_tail(Skip::Lines(4));
    let e = merger.merge(&sources()).unwrap_err();
    assert_eq!(e.into_kind(), ErrorKind::InvalidSkip { index: 0, end: SkipEnd::Tail });

    // With the first source exempted, the second is the one that fails.
    let mut merger = FileMerger::new();
    merger.skip_head(Skip::LinesOnce(4));
    let e = merger.merge(&sources()).unwrap_err();
    assert_eq!(e.into_kind(), ErrorKind::InvalidSkip { index: 1, end: SkipEnd::Head });
}

#[test]
fn pad_between_goes_after_every_source_but_the_last() {
    let mut merger = FileMerger::new();
    merger.pad_with(Pad::Between(b" padding ".to_vec()));
    let out = merger.merge(&sources()).unwrap();
    assert_eq!(
        out,
        b"111 112\n121 122\n131 132\n padding 211 212\n221 222\n231 232\n padding 311 312\n332 322\n331 332"
            .to_vec()
    );
}

#[test]
fn pad_before_goes_once_before_the_first_source() {
    let mut merger = FileMerger::new();
    merger.pad_with(Pad::Before(b" padding ".to_vec()));
    let out = merger.merge(&sources()).unwrap();
    assert_eq!(
        out,
        b" padding 111 112\n121 122\n131 132\n211 212\n221 222\n231 232\n311 312\n332 322\n331 332"
            .to_vec()
    );
}

#[test]
fn pad_after_goes_once_after_the_last_source() {
    let mut merger = FileMerger::new();
    merger.pad_with(Pad::After(b" padding ".to_vec()));
    let out = merger.merge(&sources()).unwrap();
    assert_eq!(
        out,
        b"111 112\n121 122\n131 132\n211 212\n221 222\n231 232\n311 312\n332 322\n331 332 padding "
            .to_vec()
    );
}

#[test]
fn pad_custom_fills_all_four_positions() {
    let p = b" padding ".to_vec();
    let mut merger = FileMerger::new();
    merger.pad_with(Pad::Custom(Some(p.clone()), Some(p.clone()), Some(p.clone())));
    let out = merger.merge(&sources()).unwrap();
    assert_eq!(
        out,
        b" padding 111 112\n121 122\n131 132\n padding 211 212\n221 222\n231 232\n padding 311 312\n332 322\n331 332 padding "
            .to_vec()
    );
}

#[test]
fn forced_newline_lf_touches_only_unterminated_sources() {
    let mut merger = FileMerger::new();
    merger.force_ending_newline(Newline::Lf);
    let out = merger.merge(&sources()).unwrap();
    assert_eq!(
        out,
        b"111 112\n121 122\n131 132\n211 212\n221 222\n231 232\n311 312\n332 322\n331 332\n"
            .to_vec()
    );
}

#[test]
fn forced_newline_crlf_appends_both_bytes() {
    let mut merger = FileMerger::new();
    merger.force_ending_newline(Newline::Crlf);
    let out = merger.merge(&sources()).unwrap();
    assert_eq!(
        out,
        b"111 112\n121 122\n131 132\n211 212\n221 222\n231 232\n311 312\n332 322\n331 332\r\n"
            .to_vec()
    );
}

#[test]
fn mixed_options_compose() {
    let p = b" padding ".to_vec();
    let mut merger = FileMerger::new();
    merger.skip_head(Skip::Lines(1));
    merger.skip_tail(Skip::LinesOnce(1));
    merger.force_ending_newline(Newline::Lf);
    merger.pad_with(Pad::Custom(Some(p.clone()), Some(p.clone()), Some(p.clone())));
    let out = merger.merge(&sources()).unwrap();
    assert_eq!(
        out,
        b" padding 121 122\n padding 221 222\n padding 332 322\n331 332\n padding ".to_vec()
    );
}

#[test]
fn overlapping_head_and_tail_skips_collapse_to_empty() {
    // Two lines per end requested of a three-line source: boundaries cross,
    // the source contributes nothing, and that is not an error.
    let one = vec![b"a\nb\nc\n".to_vec()];
    let mut merger = FileMerger::new();
    merger.skip_head(Skip::Lines(2));
    merger.skip_tail(Skip::Lines(2));
    let out = merger.merge(&one).unwrap();
    assert_eq!(out, b"".to_vec());
}

#[test]
fn crlf_terminated_lines_are_skipped_whole() {
    let crlf_sources = vec![b"aa\r\nbb\r\ncc\r\n".to_vec()];
    let mut merger = FileMerger::new();
    merger.skip_head(Skip::Lines(1));
    merger.skip_tail(Skip::Lines(1));
    let out = merger.merge(&crlf_sources).unwrap();
    assert_eq!(out, b"bb\r\n".to_vec());
}

#[test]
fn unterminated_final_fragment_counts_as_a_line() {
    // Two line feeds plus an unterminated fragment: three addressable
    // lines; skipping all three leaves nothing, four is an error.
    let one = vec![b"a\nb\nc".to_vec()];

    let mut merger = FileMerger::new();
    merger.skip_tail(Skip::Lines(1));
    let out = merger.merge(&one).unwrap();
    assert_eq!(out, b"a\nb\n".to_vec());

    let mut merger = FileMerger::new();
    merger.skip_head(Skip::Lines(3));
    let out = merger.merge(&one).unwrap();
    assert_eq!(out, b"".to_vec());

    let mut merger = FileMerger::new();
    merger.skip_tail(Skip::Lines(3));
    let out = merger.merge(&one).unwrap();
    assert_eq!(out, b"".to_vec());

    let mut merger = FileMerger::new();
    merger.skip_head(Skip::Lines(4));
    assert!(merger.merge(&one).is_err());
}

#[test]
fn forced_newline_on_empty_contribution_appends_the_terminator() {
    // The trimmed content is empty, so it does not end with a line feed and
    // the terminator is appended for each source.
    let two = vec![b"a\n".to_vec(), b"b\n".to_vec()];
    let mut merger = FileMerger::new();
    merger.skip_head(Skip::Lines(1));
    merger.force_ending_newline(Newline::Lf);
    let out = merger.merge(&two).unwrap();
    assert_eq!(out, b"\n\n".to_vec());
}
