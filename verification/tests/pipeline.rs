//! End-to-end behavior of the schema, matcher, filter and render pipeline.

use log_viewer::filter::FilterConfig;
use log_viewer::matcher::parse_line;
use log_viewer::render::{render_row, get_color, pad_to, LogColor, RenderConfig};
use log_viewer::schema::{extract_schema, field_index, Schema, SchemaError};
use log_viewer::viewer::process_line;

fn schema_of(header: &[u8]) -> Schema {
    extract_schema(header).unwrap()
}

fn names(s: &Schema) -> Vec<&[u8]> {
    s.names.iter().map(|n| n.as_slice()).collect()
}

#[test]
fn schema_four_names_in_order() {
    let s = schema_of(b"Time|Level|Msg|Data\n");
    assert_eq!(names(&s), vec![&b"Time"[..], b"Level", b"Msg", b"Data"]);
}

#[test]
fn schema_names_are_trimmed() {
    let s = schema_of(b"  Time | Level\t|Msg \r\n");
    assert_eq!(names(&s), vec![&b"Time"[..], b"Level", b"Msg"]);
}

#[test]
fn schema_preserves_empty_names() {
    let s = schema_of(b"A||B");
    assert_eq!(names(&s), vec![&b"A"[..], b"", b"B"]);
}

#[test]
fn schema_empty_header_is_refused() {
    assert_eq!(extract_schema(b"").unwrap_err(), SchemaError::EmptyHeader);
    assert_eq!(extract_schema(b"  \r\n").unwrap_err(), SchemaError::EmptyHeader);
}

#[test]
fn field_index_finds_first_occurrence() {
    let s = schema_of(b"Time|Level|Msg|Data");
    assert_eq!(field_index(&s, b"Level"), Some(1));
    assert_eq!(field_index(&s, b"Data"), Some(3));
    assert_eq!(field_index(&s, b"Nope"), None);
}

#[test]
fn match_exact_segment_count_populates_all_fields() {
    let s = schema_of(b"Time|Level|Msg|Data");
    let row = parse_line(b"t1|INFO|hello|x", &s).unwrap();
    let vals: Vec<&[u8]> = row.values.iter().map(|v| v.as_slice()).collect();
    assert_eq!(vals, vec![&b"t1"[..], b"INFO", b"hello", b"x"]);
}

#[test]
fn match_empty_segments_are_kept() {
    let s = schema_of(b"A|B|C");
    let row = parse_line(b"||", &s).unwrap();
    let vals: Vec<&[u8]> = row.values.iter().map(|v| v.as_slice()).collect();
    assert_eq!(vals, vec![&b""[..], b"", b""]);
}

#[test]
fn match_rejects_fewer_segments() {
    let s = schema_of(b"Time|Level|Msg|Data");
    assert!(parse_line(b"t1|INFO|hello", &s).is_none());
}

#[test]
fn match_rejects_more_segments() {
    let s = schema_of(b"Time|Level|Msg|Data");
    assert!(parse_line(b"t1|INFO|hello|x|extra", &s).is_none());
}

fn no_filters() -> FilterConfig {
    FilterConfig::none()
}

#[test]
fn word_filter_on_raw_line() {
    let s = schema_of(b"Time|Level|Msg|Data");
    let row = parse_line(b"t1|INFO|boom happened|x", &s).unwrap();
    let mut f = no_filters();
    f.word = Some(b"boom".to_vec());
    assert!(f.passes(&s, &row, b"t1|INFO|boom happened|x"));
    f.word = Some(b"quiet".to_vec());
    assert!(!f.passes(&s, &row, b"t1|INFO|boom happened|x"));
    // The word filter is case-sensitive.
    f.word = Some(b"BOOM".to_vec());
    assert!(!f.passes(&s, &row, b"t1|INFO|boom happened|x"));
}

#[test]
fn level_filter_is_case_insensitive() {
    let s = schema_of(b"Time|Level|Msg|Data");
    let row = parse_line(b"t1|Warning|w|x", &s).unwrap();
    let mut f = no_filters();
    f.level = Some(b"warning".to_vec());
    assert!(f.passes(&s, &row, b"t1|Warning|w|x"));
    f.level = Some(b"ERROR".to_vec());
    assert!(!f.passes(&s, &row, b"t1|Warning|w|x"));
}

#[test]
fn date_bounds_are_inclusive_and_lexicographic() {
    let s = schema_of(b"DateTime|Level|Msg|Data");
    let row = parse_line(b"2024-06-15|INFO|m|x", &s).unwrap();
    let raw = b"2024-06-15|INFO|m|x";
    let mut f = no_filters();
    f.start = Some(b"2024-06-15".to_vec());
    f.end = Some(b"2024-06-15".to_vec());
    assert!(f.passes(&s, &row, raw));
    f.start = Some(b"2024-06-16".to_vec());
    assert!(!f.passes(&s, &row, raw));
    f.start = Some(b"2024-01-01".to_vec());
    f.end = Some(b"2024-06-14".to_vec());
    assert!(!f.passes(&s, &row, raw));
}

#[test]
fn missing_datetime_field_makes_date_filter_pass() {
    let s = schema_of(b"Time|Level|Msg|Data");
    let row = parse_line(b"t1|INFO|m|x", &s).unwrap();
    let mut f = no_filters();
    f.start = Some(b"9999".to_vec());
    assert!(f.passes(&s, &row, b"t1|INFO|m|x"));
}

#[test]
fn missing_level_field_makes_level_filter_pass() {
    let s = schema_of(b"Time|Msg");
    let row = parse_line(b"t1|m", &s).unwrap();
    let mut f = no_filters();
    f.level = Some(b"ERROR".to_vec());
    assert!(f.passes(&s, &row, b"t1|m"));
}

#[test]
fn unsetting_a_filter_never_rejects_an_accepted_row() {
    let s = schema_of(b"DateTime|Level|Msg|Data");
    let row = parse_line(b"2024-06-15|INFO|boom|x", &s).unwrap();
    let raw = b"2024-06-15|INFO|boom|x";
    let mut full = no_filters();
    full.word = Some(b"boom".to_vec());
    full.level = Some(b"info".to_vec());
    full.start = Some(b"2024-01-01".to_vec());
    full.end = Some(b"2024-12-31".to_vec());
    assert!(full.passes(&s, &row, raw));
    // Unset each filter in turn: the row must still pass.
    let mut g = no_filters();
    g.level = full.level.clone();
    g.start = full.start.clone();
    g.end = full.end.clone();
    assert!(g.passes(&s, &row, raw));
    let mut g = no_filters();
    g.word = full.word.clone();
    assert!(g.passes(&s, &row, raw));
    assert!(no_filters().passes(&s, &row, raw));
}

#[test]
fn color_table() {
    assert_eq!(get_color(b"DEBUG"), LogColor::White);
    assert_eq!(get_color(b"INFO"), LogColor::Blue);
    assert_eq!(get_color(b"NOTICE"), LogColor::Cyan);
    assert_eq!(get_color(b"WARNING"), LogColor::Yellow);
    assert_eq!(get_color(b"ERROR"), LogColor::Red);
    assert_eq!(get_color(b"CRITICAL"), LogColor::Magenta);
    assert_eq!(get_color(b"ALERT"), LogColor::DarkRed);
    assert_eq!(get_color(b"EMERGENCY"), LogColor::DarkMagenta);
    assert_eq!(get_color(b"WHATEVER"), LogColor::Default);
    assert_eq!(get_color(b""), LogColor::Default);
}

#[test]
fn padding_pads_short_and_keeps_long() {
    assert_eq!(pad_to(b"ab", 5), b"ab   ".to_vec());
    assert_eq!(pad_to(b"abcdef", 5), b"abcdef".to_vec());
    assert_eq!(pad_to(b"", 3), b"   ".to_vec());
}

fn cfg(widths: Vec<usize>, verbose: bool, detailed: bool) -> RenderConfig {
    RenderConfig { widths, verbose, detailed }
}

#[test]
fn detailed_error_row_renders_red_with_pretty_json_block() {
    let s = schema_of(b"Time|Level|Msg|Data");
    let f = no_filters();
    let c = cfg(vec![20, 10, 50, 30], false, true);
    let raw = b"2024-01-01T10:00|ERROR|boom|{\"x\":1}";
    let (color, body) = process_line(&s, &f, &c, raw).unwrap();
    assert_eq!(color, LogColor::Red);
    let mut expect = Vec::new();
    expect.extend_from_slice(format!("{:20} | ", "2024-01-01T10:00").as_bytes());
    expect.extend_from_slice(format!("{:10} | ", "ERROR").as_bytes());
    expect.extend_from_slice(format!("{:50} | ", "boom").as_bytes());
    expect.extend_from_slice(b"{\n  \"x\": 1\n}\n");
    assert_eq!(String::from_utf8(body).unwrap(), String::from_utf8(expect).unwrap());
}

#[test]
fn detailed_falls_back_to_raw_on_invalid_json() {
    let s = schema_of(b"Time|Level|Msg|Data");
    let f = no_filters();
    let c = cfg(vec![4, 4, 4, 4], false, true);
    let (_, body) = process_line(&s, &f, &c, b"t|INFO|m|not json").unwrap();
    let text = String::from_utf8(body).unwrap();
    assert_eq!(text, "t    | INFO | m    | not json\n");
}

#[test]
fn level_filter_scenario_keeps_only_warning_in_yellow() {
    let s = schema_of(b"Time|Level|Msg|Data");
    let mut f = no_filters();
    f.level = Some(b"WARNING".to_vec());
    let c = RenderConfig::standard();
    assert!(process_line(&s, &f, &c, b"t1|INFO|fine|x").is_none());
    let (color, _) = process_line(&s, &f, &c, b"t2|WARNING|uh oh|x").unwrap();
    assert_eq!(color, LogColor::Yellow);
}

#[test]
fn short_width_list_falls_back_to_default_width() {
    let s = schema_of(b"A|B|C|D");
    let f = no_filters();
    // Widths 5 and 8 for the first two columns; 15 for the rest.
    let c = cfg(vec![5, 8], true, false);
    let (_, body) = process_line(&s, &f, &c, b"a|b|c|d").unwrap();
    let text = String::from_utf8(body).unwrap();
    assert_eq!(
        text,
        format!("{:5} | {:8} | {:15} | {:15} | ", "a", "b", "c", "d")
    );
}

#[test]
fn data_field_omitted_without_flags_and_inline_with_verbose() {
    let s = schema_of(b"Time|Level|Msg|Data");
    let f = no_filters();
    let quiet = cfg(vec![2, 2, 2, 2], false, false);
    let (_, body) = process_line(&s, &f, &quiet, b"t|I|m|payload").unwrap();
    assert_eq!(String::from_utf8(body).unwrap(), "t  | I  | m  | ");
    let verbose = cfg(vec![2, 2, 2, 2], true, false);
    let (_, body) = process_line(&s, &f, &verbose, b"t|I|m|payload").unwrap();
    assert_eq!(String::from_utf8(body).unwrap(), "t  | I  | m  | payload | ");
}

#[test]
fn unmatched_lines_are_silently_skipped() {
    let s = schema_of(b"Time|Level|Msg|Data");
    let f = no_filters();
    let c = RenderConfig::standard();
    assert!(process_line(&s, &f, &c, b"garbage without pipes").is_none());
    assert!(process_line(&s, &f, &c, b"").is_none());
}

#[test]
fn render_row_colors_by_level_field() {
    let s = schema_of(b"Time|Level|Msg|Data");
    let row = parse_line(b"t|error|m|x", &s).unwrap();
    let c = RenderConfig::standard();
    let (color, _) = render_row(&s, &row, &c);
    // The level is upper-cased before the table lookup.
    assert_eq!(color, LogColor::Red);
}

#[test]
fn render_row_without_level_field_uses_default_color() {
    let s = schema_of(b"Time|Msg");
    let row = parse_line(b"t|m", &s).unwrap();
    let c = RenderConfig::standard();
    let (color, _) = render_row(&s, &row, &c);
    assert_eq!(color, LogColor::Default);
}
