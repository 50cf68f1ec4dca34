use ops_plagiary::{h_to_string, try_h_to_string, usize_to_ar_data, HashDecodeError, CALL_DATA_LEN};

fn hex_of(bytes: &[u8]) -> String {
    bytes.iter().map(|b| format!("{:02x}", b)).collect()
}

#[test]
fn call_data_of_token_one() {
    let expected = format!("0x0e89341c{}1", "0".repeat(63));
    assert_eq!(usize_to_ar_data(1), expected);
}

#[test]
fn call_data_of_token_zero_and_255() {
    assert_eq!(usize_to_ar_data(0), format!("0x0e89341c{}", "0".repeat(64)));
    assert_eq!(usize_to_ar_data(255), format!("0x0e89341c{}ff", "0".repeat(62)));
}

#[test]
fn call_data_always_has_the_same_length_and_reads_back() {
    for n in [0usize, 1, 9, 10, 16, 4096, 123456789, usize::MAX] {
        let d = usize_to_ar_data(n);
        assert_eq!(d.len(), CALL_DATA_LEN);
        assert!(d.starts_with("0x0e89341c"));
        assert_eq!(u128::from_str_radix(&d[10..], 16).unwrap(), n as u128);
    }
}

#[test]
fn decodes_text_between_question_marks() {
    let hex = format!("0x{}", hex_of(b"\0\0ar?hello?rest"));
    assert_eq!(h_to_string(&hex), "hello");
}

#[test]
fn decodes_to_end_when_one_question_mark() {
    let hex = hex_of(b"xyz?arweave.net/abc");
    assert_eq!(h_to_string(&hex), "arweave.net/abc");
}

#[test]
fn strips_repeated_0x_prefixes() {
    let hex = format!("0x0x0x{}", hex_of(b"?ok"));
    assert_eq!(h_to_string(&hex), "ok");
}

#[test]
fn accepts_upper_case_and_plus_pieces() {
    assert_eq!(h_to_string("3F4142"), "AB");
    assert_eq!(h_to_string("+f3f41"), "A");
}

#[test]
fn invalid_utf8_is_replaced() {
    assert_eq!(h_to_string("3fff41"), "\u{fffd}A");
}

#[test]
fn odd_length_is_invalid_hex() {
    assert_eq!(try_h_to_string("0x3f4"), Err(HashDecodeError::InvalidHex));
}

#[test]
fn non_hex_is_invalid_hex() {
    assert_eq!(try_h_to_string("3fzz"), Err(HashDecodeError::InvalidHex));
    assert_eq!(try_h_to_string("-f3f"), Err(HashDecodeError::InvalidHex));
    assert_eq!(try_h_to_string("é3f"), Err(HashDecodeError::InvalidHex));
}

#[test]
fn no_question_mark_is_missing_separator() {
    assert_eq!(try_h_to_string("0x6162"), Err(HashDecodeError::MissingSeparator));
    assert_eq!(try_h_to_string(""), Err(HashDecodeError::MissingSeparator));
}

#[test]
fn try_agrees_with_h_to_string() {
    let hex = hex_of(b"a?b?c");
    assert_eq!(try_h_to_string(&hex), Ok("b".to_string()));
}

#[test]
fn different_tokens_have_different_call_data() {
    assert_ne!(usize_to_ar_data(1), usize_to_ar_data(16));
    assert_ne!(usize_to_ar_data(10), usize_to_ar_data(16));
}

#[test]
fn valid_utf8_segment_decodes_plainly() {
    assert_eq!(h_to_string("3f61"), "a");
    let hex = format!("0x{}", hex_of("p?好\0\0".as_bytes()));
    assert_eq!(h_to_string(&hex), "好\0\0");
    let bytes: Vec<u8> = vec![0xff, b'?', 0xe5, b'a', b'?', b'z'];
    let expected = String::from_utf8_lossy(&bytes).split('?').nth(1).unwrap().to_string();
    assert_eq!(h_to_string(&hex_of(&bytes)), expected);
}
