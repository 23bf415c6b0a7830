use fcc::{count_occurrences, ends_with_newline, get_last_byte, ErrorKind};

#[test]
fn get_last_byte_returns_the_final_byte() {
    let bytes: Vec<u8> = vec![1, 2, 3, b'\n'];
    assert_eq!(get_last_byte(&bytes).unwrap(), b'\n');

    let bytes: Vec<u8> = vec![7];
    assert_eq!(get_last_byte(&bytes).unwrap(), 7);
}

#[test]
fn get_last_byte_of_nothing_is_seek_negative() {
    let bytes: Vec<u8> = Vec::new();
    let e = get_last_byte(&bytes).unwrap_err();
    assert_eq!(e.into_kind(), ErrorKind::SeekNegative);
}

#[test]
fn ends_with_newline_checks_the_final_byte() {
    assert!(ends_with_newline(&b"hello\n".to_vec()));
    assert!(!ends_with_newline(&b"hello".to_vec()));
    assert!(!ends_with_newline(&Vec::new()));
}

#[test]
fn count_occurrences_counts_every_match() {
    assert_eq!(count_occurrences(&b"a\nb\nc\n".to_vec(), b'\n'), 3);
    assert_eq!(count_occurrences(&b"a\nb\nc".to_vec(), b'\n'), 2);
    assert_eq!(count_occurrences(&Vec::new(), b'\n'), 0);
    assert_eq!(count_occurrences(&b"xxxx".to_vec(), b'x'), 4);
}
