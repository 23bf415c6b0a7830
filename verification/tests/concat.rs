use fcc::{Concat, ErrorKind};

fn sources() -> Vec<Vec<u8>> {
    vec![
        b"111 112\n121 122\n131 132\n".to_vec(),
        b"211 212\n221 222\n231 232\n".to_vec(),
        b"311 312\n332 322\n331 332".to_vec(),
    ]
}

#[test]
fn concat_default_is_plain_concatenation() {
    let concat = Concat::new().open(Vec::new());
    let out = concat.write(&sources()).unwrap();
    assert_eq!(
        out,
        b"111 112\n121 122\n131 132\n211 212\n221 222\n231 232\n311 312\n332 322\n331 332"
            .to_vec()
    );
}

#[test]
fn concat_nothing_is_an_error() {
    let concat = Concat::new();
    let e = concat.write(&Vec::new()).unwrap_err();
    assert_eq!(e.into_kind(), ErrorKind::NothingPassed);
}

#[test]
fn concat_skip_start_drops_leading_lines() {
    let mut concat = Concat::new();
    concat.skip_start(1);
    let out = concat.write(&sources()).unwrap();
    assert_eq!(out, b"121 122\n131 132\n221 222\n231 232\n332 322\n331 332".to_vec());
}

#[test]
fn concat_skip_end_drops_trailing_lines() {
    let mut concat = Concat::new();
    concat.skip_end(1);
    let out = concat.write(&sources()).unwrap();
    assert_eq!(out, b"111 112\n121 122\n211 212\n221 222\n311 312\n332 322\n".to_vec());
}

#[test]
fn concat_header_prepends_the_first_header_and_skips_the_rest() {
    let mut concat = Concat::new();
    concat.header(true);
    let out = concat.write(&sources()).unwrap();
    assert_eq!(
        out,
        b"111 112\n121 122\n131 132\n221 222\n231 232\n332 322\n331 332".to_vec()
    );
}

#[test]
fn concat_skip_start_set_after_header_skips_more() {
    let mut concat = Concat::new();
    concat.header(true);
    concat.skip_start(2);
    let out = concat.write(&sources()).unwrap();
    assert_eq!(out, b"111 112\n131 132\n231 232\n331 332".to_vec());
}

#[test]
fn concat_padding_goes_after_every_source() {
    let mut concat = Concat::new();
    concat.pad_with(&b"--".to_vec());
    let out = concat.write(&sources()).unwrap();
    assert_eq!(
        out,
        b"111 112\n121 122\n131 132\n--211 212\n221 222\n231 232\n--311 312\n332 322\n331 332--"
            .to_vec()
    );
}

#[test]
fn concat_newline_normalises_each_source() {
    let mut concat = Concat::new();
    concat.newline(true);
    let out = concat.write(&sources()).unwrap();
    assert_eq!(
        out,
        b"111 112\n121 122\n131 132\n211 212\n221 222\n231 232\n311 312\n332 322\n331 332\n"
            .to_vec()
    );
}

#[test]
fn concat_crlf_changes_the_forced_terminator() {
    let mut concat = Concat::new();
    concat.newline(true);
    concat.use_crlf(true);
    let out = concat.write(&sources()).unwrap();
    assert_eq!(
        out,
        b"111 112\n121 122\n131 132\n211 212\n221 222\n231 232\n311 312\n332 322\n331 332\r\n"
            .to_vec()
    );
}

#[test]
fn concat_get_header_returns_the_first_line() {
    let concat = Concat::new();
    let h = concat.get_header(&sources()).unwrap();
    assert_eq!(h, b"111 112\n".to_vec());

    let unterminated = vec![b"no newline at all".to_vec()];
    let h = concat.get_header(&unterminated).unwrap();
    assert_eq!(h, b"no newline at all".to_vec());

    let e = concat.get_header(&Vec::new()).unwrap_err();
    assert_eq!(e.into_kind(), ErrorKind::NothingPassed);
}

#[test]
fn concat_setters_chain() {
    let mut concat = Concat::new();
    let opened = concat
        .newline(true)
        .skip_end(1)
        .pad_with(&b"|".to_vec())
        .open(vec!["a".to_string()]);
    let out = opened.write(&sources()).unwrap();
    assert_eq!(
        out,
        b"111 112\n121 122\n|211 212\n221 222\n|311 312\n332 322\n|".to_vec()
    );
}

#[test]
fn concat_open_keeps_options_and_takes_paths() {
    let mut concat = Concat::new();
    concat.skip_start(1);
    let opened = concat.open(vec!["alpha.csv".to_string(), "beta.csv".to_string()]);
    assert_eq!(opened.paths().len(), 2);
    assert_eq!(opened.paths()[0], "alpha.csv");
    let out = opened.write(&sources()).unwrap();
    assert_eq!(out, b"121 122\n131 132\n221 222\n231 232\n332 322\n331 332".to_vec());
}
