//! Tests of the sliding-window quit watcher.

use terminal_input::quit::{check_quit_buffer, substr_cmp};

#[test]
fn test_substr_cmp() {
    // Test case with empty first string.
    assert_eq!(substr_cmp(b"", b"abc"), true);
    // Test normal cases.
    for b in 0..=u8::MAX {
        let buf = vec![b];
        match b {
            b'a' => {
                assert_eq!(substr_cmp(&buf, b"abc"), true);
            },
            _ => {
                assert_eq!(substr_cmp(&buf, b"abc"), false);
            },
        }
    }
    for b in 0..=u8::MAX {
        let buf1 = vec![b, b'b'];
        let buf2 = vec![b'a', b];
        match b {
            b'a' => {
                assert_eq!(substr_cmp(&buf1, b"abc"), true);
                assert_eq!(substr_cmp(&buf2, b"abc"), false);
            },
            b'b' => {
                assert_eq!(substr_cmp(&buf1, b"abc"), false);
                assert_eq!(substr_cmp(&buf2, b"abc"), true);
            },
            _ => {
                assert_eq!(substr_cmp(&buf1, b"abc"), false);
                assert_eq!(substr_cmp(&buf2, b"abc"), false);
            },
        }
    }
    assert_eq!(substr_cmp(b"abc", b"abc"), true);
    // Test case where first string is too large.
    assert_eq!(substr_cmp(b"abcd", b"abc"), false);
}

#[test]
fn test_check_quit_buffer() {
    // Simple test of single seqence value (Single CTRL-X)
    let test_seq = [24];
    for b in 0..=u8::MAX {
        let mut test_buf = vec![];
        assert_eq!(24 == b, check_quit_buffer(b, &mut test_buf, &test_seq));
        match b {
            24 => {
                assert_eq!(&test_buf, &[24]);
            },
            _ => {
                assert_eq!(&test_buf, &[]);
            },
        }
    }
    // Simple test of two character sequence (Double CTRL-X)
    let mut test_buf = vec![];
    let test_seq = [24, 24];
    assert_eq!(false, check_quit_buffer(24, &mut test_buf, &test_seq));
    assert_eq!(&test_buf, &[24]);
    assert_eq!(true, check_quit_buffer(24, &mut test_buf, &test_seq));
    assert_eq!(&test_buf, &[24, 24]);
    // Simple test of three character sequence (CTRL-X, CTRL-C, CTRL-X)
    let mut test_buf = vec![];
    let test_seq = [24, 3, 24];
    assert_eq!(false, check_quit_buffer(24, &mut test_buf, &test_seq)); // 1
    assert_eq!(&test_buf, &[24]);
    assert_eq!(false, check_quit_buffer(3, &mut test_buf, &test_seq)); // 2
    assert_eq!(&test_buf, &[24, 3]);
    assert_eq!(false, check_quit_buffer(3, &mut test_buf, &test_seq)); // 0
    assert_eq!(&test_buf, &[]);
    assert_eq!(false, check_quit_buffer(24, &mut test_buf, &test_seq)); // 1
    assert_eq!(&test_buf, &[24]);
    assert_eq!(false, check_quit_buffer(24, &mut test_buf, &test_seq)); // 1
    assert_eq!(&test_buf, &[24]);
    assert_eq!(false, check_quit_buffer(3, &mut test_buf, &test_seq)); // 2
    assert_eq!(&test_buf, &[24, 3]);
    assert_eq!(true, check_quit_buffer(24, &mut test_buf, &test_seq)); // 3
    assert_eq!(&test_buf, &[24, 3, 24]);
    // More complex test of three character sequence (CTRL-X, CTRL-C, CTRL-X, CTRL-D)
    let mut test_buf = vec![];
    let test_seq = [24, 3, 24, 4];
    assert_eq!(false, check_quit_buffer(24, &mut test_buf, &test_seq)); // 1
    assert_eq!(&test_buf, &[24]);
    assert_eq!(false, check_quit_buffer(3, &mut test_buf, &test_seq)); // 2
    assert_eq!(&test_buf, &[24, 3]);
    assert_eq!(false, check_quit_buffer(24, &mut test_buf, &test_seq)); // 3
    assert_eq!(&test_buf, &[24, 3, 24]);
    assert_eq!(false, check_quit_buffer(3, &mut test_buf, &test_seq)); // 2
    assert_eq!(&test_buf, &[24, 3]);
    assert_eq!(false, check_quit_buffer(24, &mut test_buf, &test_seq)); // 3
    assert_eq!(&test_buf, &[24, 3, 24]);
    assert_eq!(true, check_quit_buffer(4, &mut test_buf, &test_seq)); // 4
    assert_eq!(&test_buf, &[24, 3, 24, 4]);
    // If given an empty sequence, it will always return false.
    let mut test_buf = vec![];
    let test_seq = [];
    for b in 0..=u8::MAX {
        assert_eq!(false, check_quit_buffer(b, &mut test_buf, &test_seq));
        assert_eq!(&test_buf, &[]);
    }
}

#[test]
fn quit_single_byte_sequence() {
    // Sequence [24]: byte 24 matches at once, any other byte leaves the
    // buffer empty.
    let seq = [24u8];
    for b in 0..=u8::MAX {
        let mut buf = vec![];
        let hit = check_quit_buffer(b, &mut buf, &seq);
        assert_eq!(hit, b == 24);
        if b == 24 {
            assert_eq!(buf, vec![24]);
        } else {
            assert!(buf.is_empty());
        }
    }
}

#[test]
fn quit_two_byte_sequence() {
    let seq = [24u8, 24];
    let mut buf = vec![];
    assert!(!check_quit_buffer(24, &mut buf, &seq));
    assert_eq!(buf, vec![24]);
    assert!(check_quit_buffer(24, &mut buf, &seq));
    assert_eq!(buf, vec![24, 24]);
}

#[test]
fn quit_resync_to_empty() {
    // Sequence [24, 3, 24] fed 24, 3, 3: after the mismatching second 3 no
    // suffix matches any prefix, so the window empties.
    let seq = [24u8, 3, 24];
    let mut buf = vec![];
    assert!(!check_quit_buffer(24, &mut buf, &seq));
    assert!(!check_quit_buffer(3, &mut buf, &seq));
    assert!(!check_quit_buffer(3, &mut buf, &seq));
    assert!(buf.is_empty());
    // The watcher can still match a fresh occurrence afterwards.
    assert!(!check_quit_buffer(24, &mut buf, &seq));
    assert!(!check_quit_buffer(3, &mut buf, &seq));
    assert!(check_quit_buffer(24, &mut buf, &seq));
}

#[test]
fn quit_resync_overlap() {
    // Sequence [24, 3, 24, 4] fed 24, 3, 24, 3, 24, 4: after the fourth
    // byte the window resynchronizes to [24, 3] instead of discarding
    // everything, so the overlapping occurrence is still caught.
    let seq = [24u8, 3, 24, 4];
    let mut buf = vec![];
    let feed = [24u8, 3, 24, 3, 24, 4];
    let expected = [false, false, false, false, false, true];
    for (b, e) in feed.iter().zip(expected.iter()) {
        assert_eq!(check_quit_buffer(*b, &mut buf, &seq), *e);
    }
    assert_eq!(buf, vec![24, 3, 24, 4]);
}
