//! Descriptor parsing against raw byte buffers.
use ghost_meta::descript::parse_descript;
use ghost_meta::descript::{detect_charset, Charset};

fn bytes_of(s: &str) -> Vec<u8> {
    s.as_bytes().to_vec()
}

#[test]
fn utf8_bom_file_parses() {
    let mut content = vec![0xEF, 0xBB, 0xBF];
    content.extend_from_slice(b"name,BOM Test\ncharset,UTF-8\n");

    let result = parse_descript(&content);
    assert_eq!(result.get("name"), Some(&"BOM Test".to_string()));
    assert_eq!(result.get("charset"), Some(&"UTF-8".to_string()));
}

#[test]
fn charset_utf8_field_selects_utf8_decoding() {
    let content = bytes_of("charset,UTF-8\nname,UTF-8テスト\n");

    let result = parse_descript(&content);
    assert_eq!(result.get("name"), Some(&"UTF-8テスト".to_string()));
}

#[test]
fn comment_and_blank_lines_are_skipped() {
    let content = bytes_of("// this is a comment\n\ncharset,UTF-8\nname,ゴースト\n");

    let result = parse_descript(&content);
    assert!(!result.contains_key("// this is a comment"));
    assert_eq!(result.get("name"), Some(&"ゴースト".to_string()));
    // no key from the blank line sneaks in
    assert_eq!(result.len(), 2);
}

#[test]
fn charset_other_than_utf8_falls_back_to_shift_jis() {
    // Shift_JIS-encoded "charset,Shift_JIS\nname,てすと\n": the header is
    // ASCII-compatible, the value is the Shift_JIS byte sequence
    let mut bytes: Vec<u8> = b"charset,Shift_JIS\nname,".to_vec();
    bytes.extend_from_slice(&[0x82, 0xC4, 0x82, 0xB7, 0x82, 0xC6]);
    bytes.push(b'\n');

    let result = parse_descript(&bytes);
    assert_eq!(result.get("name"), Some(&"てすと".to_string()));
}

#[test]
fn missing_charset_field_defaults_to_shift_jis() {
    // ASCII only: both decodings agree on the result
    let content = bytes_of("name,ASCII Ghost\n");

    assert_eq!(detect_charset(&content), Charset::ShiftJis);
    let result = parse_descript(&content);
    assert_eq!(result.get("name"), Some(&"ASCII Ghost".to_string()));
}

#[test]
fn value_with_commas_splits_at_the_first_comma() {
    let content = bytes_of("charset,UTF-8\ndescription,a,b,c\n");

    let result = parse_descript(&content);
    assert_eq!(result.get("description"), Some(&"a,b,c".to_string()));
}

#[test]
fn charset_key_is_case_insensitive() {
    let content = bytes_of("CHARSET,utf-8\nname,Mixed\n");

    assert_eq!(detect_charset(&content), Charset::Utf8);
    let result = parse_descript(&content);
    assert_eq!(result.get("name"), Some(&"Mixed".to_string()));
}

#[test]
fn later_occurrence_of_a_key_wins() {
    let content = bytes_of("charset,UTF-8\nname,First\nname,Second\n");

    let result = parse_descript(&content);
    assert_eq!(result.get("name"), Some(&"Second".to_string()));
    assert_eq!(result.len(), 2);
}

#[test]
fn carriage_returns_are_tolerated() {
    let content = bytes_of("charset,UTF-8\r\nname,Windows Line\r\n");

    let result = parse_descript(&content);
    assert_eq!(result.get("name"), Some(&"Windows Line".to_string()));
}

#[test]
fn keys_and_values_are_trimmed() {
    let content = bytes_of("charset,UTF-8\n  name  ,  Padded  \n");

    let result = parse_descript(&content);
    assert_eq!(result.get("name"), Some(&"Padded".to_string()));
}

#[test]
fn empty_input_yields_no_fields() {
    let result = parse_descript(&Vec::new());
    assert_eq!(result.len(), 0);
    assert!(!result.contains_key("name"));
}

#[test]
fn charset_beyond_the_scan_limit_is_ignored() {
    // the pre-scan reads at most the leading 4096 bytes; a charset field
    // after that cannot switch the decoding
    let mut content = Vec::new();
    for _ in 0..300 {
        content.extend_from_slice(b"// padding padding\n");
    }
    content.extend_from_slice(b"charset,UTF-8\nname,Late\n");
    assert_eq!(detect_charset(&content), Charset::ShiftJis);

    let result = parse_descript(&content);
    assert_eq!(result.get("name"), Some(&"Late".to_string()));
}

#[test]
fn charset_within_the_scan_limit_is_honoured() {
    let mut content = Vec::new();
    for _ in 0..100 {
        content.extend_from_slice(b"// padding padding\n");
    }
    content.extend_from_slice(b"charset,UTF-8\nname,Early\n");
    assert_eq!(detect_charset(&content), Charset::Utf8);
}

#[test]
fn ascii_content_parses_identically_under_both_decodings() {
    // the same ASCII body, once forced to UTF-8 and once left to the
    // Shift_JIS default, yields the same fields
    let utf8 = bytes_of("charset,UTF-8\ntitle,Same Body\n");
    let sjis = bytes_of("charset,Shift_JIS\ntitle,Same Body\n");

    let a = parse_descript(&utf8);
    let b = parse_descript(&sjis);
    assert_eq!(a.get("title"), b.get("title"));
    assert_eq!(a.get("title"), Some(&"Same Body".to_string()));
}
