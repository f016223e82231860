use redis_nav::format::detect_format;
use redis_nav::format::format_label;
use redis_nav::format::hex_dump;
use redis_nav::format::is_valid_text;
use redis_nav::format::DetectedFormat;

#[test]
fn test_detect_json_object() {
    let json = r#"{"name": "test", "value": 123}"#;
    assert_eq!(detect_format(json.as_bytes()), DetectedFormat::Json);
}

#[test]
fn test_detect_json_array() {
    let json = r#"[1, 2, 3]"#;
    assert_eq!(detect_format(json.as_bytes()), DetectedFormat::Json);
}

#[test]
fn test_detect_xml() {
    let xml = r#"<?xml version="1.0"?><root></root>"#;
    assert_eq!(detect_format(xml.as_bytes()), DetectedFormat::Xml);
}

#[test]
fn test_detect_html() {
    let html = r#"<html><body></body></html>"#;
    assert_eq!(detect_format(html.as_bytes()), DetectedFormat::Html);
}

#[test]
fn test_detect_plain_text() {
    let text = "Hello, world!";
    assert_eq!(detect_format(text.as_bytes()), DetectedFormat::PlainText);
}

#[test]
fn test_detect_binary_png() {
    let png_header = [0x89, 0x50, 0x4E, 0x47, 0x0D, 0x0A, 0x1A, 0x0A];
    assert_eq!(detect_format(&png_header), DetectedFormat::Binary);
}

#[test]
fn bracketed_non_json_is_plain_text() {
    // bracketed but not parseable: the JSON validity call must decide
    assert_eq!(detect_format(b"{not json}"), DetectedFormat::PlainText);
}

#[test]
fn uppercase_html_is_detected() {
    // found only through lowercase folding
    assert_eq!(detect_format(b"x <HTML> y"), DetectedFormat::Html);
}

#[test]
fn angle_bracketed_text_is_xml() {
    assert_eq!(detect_format(b"  <note>hi</note>  "), DetectedFormat::Xml);
}

#[test]
fn invalid_utf8_is_binary() {
    assert_eq!(detect_format(&[b'a', 0xC3, 0x28, b'b', b'c']), DetectedFormat::Binary);
}

#[test]
fn control_heavy_bytes_are_binary() {
    let bytes = [0x00, 0x01, 0x02, 0x03, b'a', b'b'];
    assert!(!is_valid_text(&bytes));
    assert_eq!(detect_format(&bytes), DetectedFormat::Binary);
}

#[test]
fn labels_match_formats() {
    assert_eq!(format_label(DetectedFormat::Json), "JSON");
    assert_eq!(format_label(DetectedFormat::Xml), "XML");
    assert_eq!(format_label(DetectedFormat::Html), "HTML");
    assert_eq!(format_label(DetectedFormat::Binary), "BINARY");
    assert_eq!(format_label(DetectedFormat::PlainText), "TEXT");
}

#[test]
fn hex_dump_one_full_row() {
    let bytes: Vec<u8> = (0u8..16).collect();
    let rows = hex_dump(&bytes);
    assert_eq!(rows.len(), 1);
    assert_eq!(rows[0].addr, "00000000");
    assert_eq!(rows[0].hex, "00 01 02 03 04 05 06 07  0809 0a 0b 0c 0d 0e 0f ");
    assert_eq!(rows[0].padding, "");
    assert_eq!(rows[0].ascii, "................");
}

#[test]
fn hex_dump_short_row_pads_and_maps_ascii() {
    let rows = hex_dump(b"Hi!");
    assert_eq!(rows.len(), 1);
    assert_eq!(rows[0].addr, "00000000");
    assert_eq!(rows[0].hex, "48 69 21 ");
    // 13 missing bytes, three blanks each, plus one for the half-row gap
    assert_eq!(rows[0].padding, " ".repeat(13 * 3 + 1));
    assert_eq!(rows[0].ascii, "Hi!");
}

#[test]
fn hex_dump_second_row_addr() {
    let bytes = vec![0u8; 17];
    let rows = hex_dump(&bytes);
    assert_eq!(rows.len(), 2);
    assert_eq!(rows[1].addr, "00000010");
    assert_eq!(rows[1].hex, "00 ");
    assert_eq!(rows[1].ascii, ".");
}
