use procserve::text::{chunk_len, read_string, CHUNK_LEN};

#[test]
fn chunk_lengths() {
    assert_eq!(CHUNK_LEN, 4096);
    assert_eq!(chunk_len(0), 0);
    assert_eq!(chunk_len(1), 1);
    assert_eq!(chunk_len(4095), 4095);
    assert_eq!(chunk_len(4096), 4096);
    assert_eq!(chunk_len(4097), 4096);
    assert_eq!(chunk_len(65535), 4096);
}

#[test]
fn short_texts() {
    assert_eq!(read_string(b""), "");
    assert_eq!(read_string(b"ls"), "ls");
    assert_eq!(read_string("gr\u{fc}n \u{1f600}".as_bytes()), "gr\u{fc}n \u{1f600}");
}

#[test]
fn a_piece_that_is_not_utf8_is_left_out() {
    assert_eq!(read_string(&[0xff]), "");
    assert_eq!(read_string(&[b'a', 0xc3]), "");
    let mut bytes = vec![b'a'; 4096];
    bytes.push(0xff);
    assert_eq!(read_string(&bytes), "a".repeat(4096));
    bytes[0] = 0x80;
    bytes[4096] = b'z';
    assert_eq!(read_string(&bytes), "z");
}

#[test]
fn long_ascii_is_kept_whole() {
    let text: String = (0..10000u32).map(|i| (b'a' + (i % 26) as u8) as char).collect();
    assert_eq!(read_string(text.as_bytes()), text);
}

#[test]
fn a_character_between_two_pieces_loses_both() {
    let mut text = "x".repeat(4095);
    text.push('\u{e9}');
    text.push_str("tail");
    assert_eq!(read_string(text.as_bytes()), "");

    let mut text = "x".repeat(4094);
    text.push('\u{e9}');
    text.push_str("tail");
    assert_eq!(read_string(text.as_bytes()), text);
}

#[test]
fn text_of_two_parts() {
    let mut bytes = vec![b'a'; 4096];
    let part = "\u{4e16}\u{754c}".as_bytes();
    bytes.extend_from_slice(part);
    assert_eq!(read_string(&bytes), read_string(&bytes[..4096]) + &read_string(part));
}

#[test]
fn pieces_add_up() {
    for n in [0usize, 1, 4096, 4097, 12288, 65535] {
        let mut left = n;
        let mut taken = 0;
        while left > 0 {
            let piece = chunk_len(left);
            assert!(0 < piece && piece <= CHUNK_LEN);
            left -= piece;
            taken += piece;
        }
        assert_eq!(taken, n);
    }
}
