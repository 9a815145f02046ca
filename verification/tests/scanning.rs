use quick_accent::scan::{parse_geometry, parse_mode, scan_object, Geometry};
use quick_accent::text::{
    contains_str, parse_i32_str, parse_u32_str, split_lines, split_once_str, starts_with_str,
    str_eq, tokenize, trim_of,
};

#[test]
fn geometry_well_formed_tokens() {
    assert_eq!(
        parse_geometry("1920x1080+0+0"),
        Some(Geometry { width: 1920, height: 1080, x: 0, y: 0 })
    );
    assert_eq!(
        parse_geometry("1080x1920+3840+0"),
        Some(Geometry { width: 1080, height: 1920, x: 3840, y: 0 })
    );
    assert_eq!(
        parse_geometry("2560x1440+-100+-5"),
        Some(Geometry { width: 2560, height: 1440, x: -100, y: -5 })
    );
}

#[test]
fn geometry_malformed_tokens() {
    // missing separators
    assert_eq!(parse_geometry("1920x1080"), None);
    assert_eq!(parse_geometry("19201080+0+0"), None);
    assert_eq!(parse_geometry("1920x1080+0"), None);
    // non-numeric fields
    assert_eq!(parse_geometry("ax1080+0+0"), None);
    assert_eq!(parse_geometry("1920xb+0+0"), None);
    assert_eq!(parse_geometry("1920x1080+c+0"), None);
    assert_eq!(parse_geometry("1920x1080+0+d"), None);
    assert_eq!(parse_geometry(""), None);
}

#[test]
fn mode_tokens() {
    assert_eq!(parse_mode("1920x1080"), Some((1920, 1080)));
    assert_eq!(parse_mode("640x480"), Some((640, 480)));
    assert_eq!(parse_mode("1920x1080i"), None);
    assert_eq!(parse_mode("1920"), None);
}

#[test]
fn numeric_bounds() {
    assert_eq!(parse_u32_str("0"), Some(0));
    assert_eq!(parse_u32_str("4294967295"), Some(u32::MAX));
    assert_eq!(parse_u32_str("4294967296"), None);
    assert_eq!(parse_u32_str("123456789012345678901234567890"), None);
    assert_eq!(parse_u32_str(""), None);
    assert_eq!(parse_u32_str("12a"), None);
    assert_eq!(parse_i32_str("2147483647"), Some(i32::MAX));
    assert_eq!(parse_i32_str("2147483648"), None);
    assert_eq!(parse_i32_str("-2147483648"), Some(i32::MIN));
    assert_eq!(parse_i32_str("-2147483649"), None);
    assert_eq!(parse_i32_str("-"), None);
    assert_eq!(parse_i32_str("-12"), Some(-12));
}

#[test]
fn text_helpers() {
    assert_eq!(trim_of("  \t hello \r\n"), "hello");
    assert_eq!(trim_of(""), "");
    assert!(starts_with_str("\"width\": 10,", "\"width\":"));
    assert!(!starts_with_str("width", "\"width\":"));
    assert!(contains_str("a \"focused\": true,", "\"focused\": true"));
    assert!(!contains_str("\"focused\": false", "\"focused\": true"));
    assert!(str_eq("}", "}"));
    assert!(!str_eq("}", "},"));
    assert_eq!(split_once_str("a+b+c", '+'), Some(("a", "b+c")));
    assert_eq!(split_once_str("abc", '+'), None);
    let lines = split_lines("a\nb\n\nc");
    assert_eq!(lines, vec!["a", "b", "", "c"]);
    assert_eq!(split_lines("a\n"), vec!["a"]);
    assert_eq!(split_lines("").len(), 0);
    let toks = tokenize("  1920x1080 px, 59.99 Hz (current)");
    assert_eq!(toks[0], "1920x1080");
    assert_eq!(toks.len(), 5);
}

const ONE_FOCUSED: &str = r#"[
{
    "id": 1,
    "focused": true,
    "width": 2560,
    "height": 1440
}
]"#;

const NONE_FOCUSED: &str = r#"[
{
    "focused": false,
    "width": 2560,
    "height": 1440
}
]"#;

const TWO_FOCUSED: &str = r#"[
{
    "focused": true,
    "width": 1024,
    "height": 768
}
{
    "focused": true,
    "width": 2560,
    "height": 1440
}
]"#;

#[test]
fn scan_single_focused_object() {
    assert_eq!(scan_object(ONE_FOCUSED, "\"focused\": true"), Some((2560, 1440)));
}

#[test]
fn scan_no_focused_object() {
    assert_eq!(scan_object(NONE_FOCUSED, "\"focused\": true"), None);
    assert_eq!(scan_object("", "\"focused\": true"), None);
}

#[test]
fn scan_first_of_two_focused_objects() {
    assert_eq!(scan_object(TWO_FOCUSED, "\"focused\": true"), Some((1024, 768)));
}

#[test]
fn scan_incomplete_object_then_complete_one() {
    // the first marked object lacks a height: its partial record is dropped
    // and the later complete object is still found
    let doc = "{\n\"focused\": true,\n\"width\": 800,\n}\n{\n\"focused\": true,\n\"width\": 640,\n\"height\": 480,\n}\n";
    assert_eq!(scan_object(doc, "\"focused\": true"), Some((640, 480)));
}

#[test]
fn scan_unparsable_number_leaves_field_unset() {
    let doc = "{\n\"focused\": true,\n\"width\": wide,\n\"height\": 480,\n}\n";
    assert_eq!(scan_object(doc, "\"focused\": true"), None);
}
