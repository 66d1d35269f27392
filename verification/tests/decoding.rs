use ziro::encoding::{
    safe_command_output_to_string, try_decode_as_gbk, try_decode_as_windows_1252,
};
use ziro::text::{
    parse_u16_dec, parse_u16_hex, parse_u32_dec, parse_u64_dec, split_into_lines, split_ws_fields,
    u64_to_dec,
};

#[test]
fn test_utf8_output_is_decoded_exactly() {
    let out = safe_command_output_to_string("h\u{00e9}llo".as_bytes());
    assert_eq!(out.text, "h\u{00e9}llo");
    assert!(!out.notice);
}

#[test]
fn test_plausible_double_byte_output_gets_a_notice_text() {
    let data: Vec<u8> = vec![0xB0, 0xA1];
    let out = safe_command_output_to_string(&data);
    assert_eq!(out.text, "[GBK data, length 2]");
    assert!(!out.notice);
    assert_eq!(try_decode_as_gbk(&data), Some("[GBK data, length 2]".to_string()));
}

#[test]
fn test_western_code_page_markers_get_a_notice_text() {
    let data: Vec<u8> = vec![0xFF, 0x8D];
    let out = safe_command_output_to_string(&data);
    assert_eq!(out.text, "[Windows-1252 data, length 2]");
    assert!(!out.notice);
    assert_eq!(
        try_decode_as_windows_1252(&data),
        Some("[Windows-1252 data, length 2]".to_string())
    );
    assert_eq!(try_decode_as_windows_1252(&[0x41, 0x42]), None);
}

#[test]
fn test_undecodable_output_is_lossy_with_a_notice() {
    let data: Vec<u8> = vec![0xFF, 0x20];
    let out = safe_command_output_to_string(&data);
    assert_eq!(out.text, "\u{FFFD} ");
    assert!(out.notice);
}

#[test]
fn test_decimal_parsing() {
    assert_eq!(parse_u64_dec(b"0"), Some(0));
    assert_eq!(parse_u64_dec(b"18446744073709551615"), Some(u64::MAX));
    assert_eq!(parse_u64_dec(b"18446744073709551616"), None);
    assert_eq!(parse_u64_dec(b""), None);
    assert_eq!(parse_u64_dec(b"12a"), None);
    assert_eq!(parse_u32_dec(b"4294967295"), Some(u32::MAX));
    assert_eq!(parse_u32_dec(b"4294967296"), None);
    assert_eq!(parse_u16_dec(b"8080"), Some(8080));
    assert_eq!(parse_u16_dec(b"65536"), None);
}

#[test]
fn test_hex_parsing() {
    assert_eq!(parse_u16_hex(b"1F90"), Some(0x1F90));
    assert_eq!(parse_u16_hex(b"1f90"), Some(0x1F90));
    assert_eq!(parse_u16_hex(b"0016"), Some(22));
    assert_eq!(parse_u16_hex(b"10000"), None);
    assert_eq!(parse_u16_hex(b""), None);
    assert_eq!(parse_u16_hex(b"xy"), None);
}

#[test]
fn test_decimal_rendering() {
    assert_eq!(u64_to_dec(0), "0");
    assert_eq!(u64_to_dec(7), "7");
    assert_eq!(u64_to_dec(1234567890), "1234567890");
    assert_eq!(u64_to_dec(u64::MAX), "18446744073709551615");
}

#[test]
fn test_field_splitting() {
    let fields = split_ws_fields(b"  TCP\t 0.0.0.0:135   LISTENING  1234 ");
    let texts: Vec<&[u8]> = fields.iter().map(|f| f.as_slice()).collect();
    assert_eq!(texts, vec![&b"TCP"[..], b"0.0.0.0:135", b"LISTENING", b"1234"]);
    assert!(split_ws_fields(b"   ").is_empty());
}

#[test]
fn test_line_splitting() {
    let lines = split_into_lines(b"one\ntwo\n\nthree\n");
    let texts: Vec<&[u8]> = lines.iter().map(|l| l.as_slice()).collect();
    assert_eq!(texts, vec![&b"one"[..], b"two", b"", b"three"]);
    assert!(split_into_lines(b"").is_empty());
}
