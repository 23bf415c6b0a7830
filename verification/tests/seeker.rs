use fcc::ByteSeeker;
use fcc::ErrorKind;

#[test]
fn test_seek_vec0() {
    // test empty vec<u8>
    let bytes: Vec<u8> = vec![];
    let mut seeker = ByteSeeker::new(&bytes);
    match seeker.seek(b'\n') {
        Ok(_) => assert!(false),
        Err(_) => assert!(true),
    }
}

#[test]
fn test_seek_vec1() {
    // test vec<u8> with only 1 byte.
    let bytes: Vec<u8> = vec![b'0'];
    let mut seeker = ByteSeeker::new(&bytes);
    match seeker.seek(b'\n') {
        Ok(_) => assert!(false),
        Err(_) => assert!(true),
    }

    let bytes: Vec<u8> = vec![b'\n'];
    let mut seeker = ByteSeeker::new(&bytes);
    assert_eq!(seeker.seek(b'\n').unwrap(), 0);
    match seeker.seek(b'\n') {
        Ok(_) => assert!(false),
        Err(_) => assert!(true),
    }
}

#[test]
fn test_seek_vec3() {
    // test vec<u8> with 3 bytes.
    let bytes: Vec<u8> = vec![b'\n', 0, b'\n'];
    let mut seeker = ByteSeeker::new(&bytes);
    assert_eq!(seeker.seek(b'\n').unwrap(), 0);
    assert_eq!(seeker.seek(b'\n').unwrap(), 2);
    match seeker.seek(b'\n') {
        Ok(_) => assert!(false),
        Err(_) => assert!(true),
    }

    let bytes: Vec<u8> = vec![0, 0, 0];
    let mut seeker = ByteSeeker::new(&bytes);
    match seeker.seek(b'\n') {
        Ok(_) => assert!(false),
        Err(_) => assert!(true),
    }
}

#[test]
fn test_seek_vecn() {
    // test vec<u8> with more than one chunk's worth of bytes.
    let chunk: usize = 1024 * 4;
    let bytes: Vec<u8> = std::iter::repeat(0u8)
        .take(chunk)
        .chain(std::iter::repeat(b'\n').take(1))
        .chain(std::iter::repeat(0u8).take(chunk))
        .chain(std::iter::repeat(b'\n').take(1))
        .collect();
    let mut seeker = ByteSeeker::new(&bytes);
    assert_eq!(seeker.seek(b'\n').unwrap(), chunk);
    assert_eq!(seeker.seek(b'\n').unwrap(), chunk * 2 + 1);
    match seeker.seek(b'\n') {
        Ok(_) => assert!(false),
        Err(_) => assert!(true),
    }

    let bytes: Vec<u8> = std::iter::repeat(0u8).take(chunk + 42).collect();
    let mut seeker = ByteSeeker::new(&bytes);
    match seeker.seek(b'\n') {
        Ok(_) => assert!(false),
        Err(_) => assert!(true),
    }
}

#[test]
fn test_seek_back_vec0() {
    // test empty vec<u8>
    let bytes: Vec<u8> = vec![];
    let mut seeker = ByteSeeker::new(&bytes);
    match seeker.seek_back(b'\n') {
        Ok(_) => assert!(false),
        Err(_) => assert!(true),
    }
}

#[test]
fn test_seek_back_vec1() {
    // test vec<u8> with only 1 byte.
    let bytes: Vec<u8> = vec![b'0'];
    let mut seeker = ByteSeeker::new(&bytes);
    match seeker.seek_back(b'\n') {
        Ok(_) => assert!(false),
        Err(_) => assert!(true),
    }

    let bytes: Vec<u8> = vec![b'\n'];
    let mut seeker = ByteSeeker::new(&bytes);
    assert_eq!(seeker.seek_back(b'\n').unwrap(), 0);
    match seeker.seek_back(b'\n') {
        Ok(_) => assert!(false),
        Err(_) => assert!(true),
    }
}

#[test]
fn test_seek_back_vec3() {
    // test vec<u8> with 3 bytes.
    let bytes: Vec<u8> = vec![b'\n', 0, b'\n'];
    let mut seeker = ByteSeeker::new(&bytes);
    assert_eq!(seeker.seek_back(b'\n').unwrap(), 2);
    assert_eq!(seeker.seek_back(b'\n').unwrap(), 0);
    match seeker.seek_back(b'\n') {
        Ok(_) => assert!(false),
        Err(_) => assert!(true),
    }

    let bytes: Vec<u8> = vec![0, 0, 0];
    let mut seeker = ByteSeeker::new(&bytes);
    match seeker.seek_back(b'\n') {
        Ok(_) => assert!(false),
        Err(_) => assert!(true),
    }
}

#[test]
fn test_seek_back_vecn() {
    // test vec<u8> with more than one chunk's worth of bytes.
    let chunk: usize = 1024 * 4;
    let bytes: Vec<u8> = std::iter::repeat(0u8)
        .take(chunk)
        .chain(std::iter::repeat(b'\n').take(1))
        .chain(std::iter::repeat(0u8).take(chunk))
        .chain(std::iter::repeat(b'\n').take(1))
        .collect();
    let mut seeker = ByteSeeker::new(&bytes);
    assert_eq!(seeker.seek_back(b'\n').unwrap(), chunk * 2 + 1);
    assert_eq!(seeker.seek_back(b'\n').unwrap(), chunk);
    match seeker.seek_back(b'\n') {
        Ok(_) => assert!(false),
        Err(_) => assert!(true),
    }

    let bytes: Vec<u8> = std::iter::repeat(0u8).take(chunk + 42).collect();
    let mut seeker = ByteSeeker::new(&bytes);
    match seeker.seek_back(b'\n') {
        Ok(_) => assert!(false),
        Err(_) => assert!(true),
    }
}

#[test]
fn test_seek_nth() {
    let chunk: usize = 1024 * 4;
    let bytes: Vec<u8> = std::iter::repeat(0u8)
        .take(chunk)
        .chain(std::iter::repeat(b'\n').take(1))
        .chain(std::iter::repeat(0u8).take(chunk))
        .chain(std::iter::repeat(b'\n').take(1))
        .chain(std::iter::repeat(0u8).take(100))
        .chain(std::iter::repeat(b'\n').take(1))
        .collect();

    let mut seeker = ByteSeeker::new(&bytes);
    assert_eq!(seeker.seek_nth(b'\n', 1).unwrap(), chunk);

    let mut seeker = ByteSeeker::new(&bytes);
    assert_eq!(seeker.seek_nth(b'\n', 2).unwrap(), chunk * 2 + 1);

    let mut seeker = ByteSeeker::new(&bytes);
    assert_eq!(seeker.seek_nth(b'\n', 3).unwrap(), chunk * 2 + 100 + 2);

    let mut seeker = ByteSeeker::new(&bytes);
    match seeker.seek_nth(b'\n', 4) {
        Ok(_) => assert!(false),
        Err(_) => assert!(true),
    }
}

#[test]
fn test_seek_nth_back() {
    let chunk: usize = 1024 * 4;
    let bytes: Vec<u8> = std::iter::repeat(0u8)
        .take(chunk)
        .chain(std::iter::repeat(b'\n').take(1))
        .chain(std::iter::repeat(0u8).take(chunk))
        .chain(std::iter::repeat(b'\n').take(1))
        .chain(std::iter::repeat(0u8).take(100))
        .chain(std::iter::repeat(b'\n').take(1))
        .collect();

    let mut seeker = ByteSeeker::new(&bytes);
    assert_eq!(seeker.seek_nth_back(b'\n', 1).unwrap(), chunk * 2 + 100 + 2);

    let mut seeker = ByteSeeker::new(&bytes);
    assert_eq!(seeker.seek_nth_back(b'\n', 2).unwrap(), chunk * 2 + 1);

    let mut seeker = ByteSeeker::new(&bytes);
    assert_eq!(seeker.seek_nth_back(b'\n', 3).unwrap(), chunk);

    let mut seeker = ByteSeeker::new(&bytes);
    match seeker.seek_nth(b'\n', 4) {
        Ok(_) => assert!(false),
        Err(_) => assert!(true),
    }
}

#[test]
fn seek_errors_carry_byte_not_found() {
    let bytes: Vec<u8> = vec![1, 2, 3];
    let mut seeker = ByteSeeker::new(&bytes);
    let e = seeker.seek(b'\n').unwrap_err();
    assert_eq!(e.into_kind(), ErrorKind::ByteNotFound);
    let mut seeker = ByteSeeker::new(&bytes);
    let e = seeker.seek_back(b'\n').unwrap_err();
    assert_eq!(*e.kind(), ErrorKind::ByteNotFound);
}

#[test]
fn seek_both_directions_locate_the_same_delimiters() {
    // Three occurrences; the walks meet on the same offsets.
    let bytes: Vec<u8> = b"a\nbb\nccc\ndddd".to_vec();
    let mut fwd = ByteSeeker::new(&bytes);
    let mut bwd = ByteSeeker::new(&bytes);
    assert_eq!(fwd.seek_nth(b'\n', 3).unwrap(), bwd.seek_nth_back(b'\n', 1).unwrap());
    fwd.reset();
    bwd.reset();
    assert_eq!(fwd.seek_nth(b'\n', 1).unwrap(), bwd.seek_nth_back(b'\n', 3).unwrap());
}

#[test]
fn reset_replays_identical_offsets() {
    let bytes: Vec<u8> = b"one\ntwo\nthree\nfour\n".to_vec();
    let mut seeker = ByteSeeker::new(&bytes);
    let first_run = (
        seeker.seek(b'\n').unwrap(),
        seeker.seek(b'\n').unwrap(),
        seeker.seek_back(b'\n').unwrap(),
        seeker.seek_back(b'\n').unwrap(),
    );
    seeker.reset();
    let second_run = (
        seeker.seek(b'\n').unwrap(),
        seeker.seek(b'\n').unwrap(),
        seeker.seek_back(b'\n').unwrap(),
        seeker.seek_back(b'\n').unwrap(),
    );
    assert_eq!(first_run, second_run);
    assert_eq!(first_run, (3, 7, 18, 13));
}

#[test]
fn exhausted_direction_keeps_failing_until_reset() {
    let bytes: Vec<u8> = b"x\ny".to_vec();
    let mut seeker = ByteSeeker::new(&bytes);
    assert_eq!(seeker.seek(b'\n').unwrap(), 1);
    assert!(seeker.seek(b'\n').is_err());
    assert!(seeker.seek(b'\n').is_err());
    // The backward walk is independent of the forward one.
    assert_eq!(seeker.seek_back(b'\n').unwrap(), 1);
    seeker.reset();
    assert_eq!(seeker.seek(b'\n').unwrap(), 1);
}
