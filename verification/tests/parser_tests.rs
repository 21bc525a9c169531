use sui_dev_mcp::location::parse_location;
use sui_dev_mcp::records::Severity;
use sui_dev_mcp::sanitize::sanitize;
use sui_dev_mcp::scanner::{extract_build_output, split_lines};

#[test]
fn sanitize_strips_ansi_sequences() {
    let colored = "\x1b[32mfoo\x1b[m bar";
    assert_eq!(sanitize(colored), "foo bar");
}

#[test]
fn sanitize_clean_text_is_unchanged() {
    let clean = "warning[W1001]: unused variable\n  \u{250c}\u{2500} sources/a.move:10:5\nplain";
    assert_eq!(sanitize(clean), clean);
}

#[test]
fn sanitize_is_idempotent_on_its_own_output() {
    let noisy = "\x1b[1mbold\x1b[0m text\r\nnext";
    let once = sanitize(noisy);
    let twice = sanitize(&once);
    assert_eq!(once, twice);
}

#[test]
fn split_lines_matches_str_lines() {
    let s = "a\nb\r\n\nc";
    let got = split_lines(s);
    let want: Vec<String> = s.lines().map(|l| l.to_string()).collect();
    assert_eq!(got, want);
}

#[test]
fn split_lines_drops_final_terminator() {
    let got = split_lines("one\ntwo\n");
    assert_eq!(got, vec!["one".to_string(), "two".to_string()]);
    assert_eq!(split_lines(""), Vec::<String>::new());
}

#[test]
fn parse_location_reads_file_line_column() {
    let r = parse_location("  \u{250c}\u{2500} sources/a.move:10:5").unwrap();
    assert_eq!(r.0, "sources/a.move");
    assert_eq!(r.1, 10);
    assert_eq!(r.2, 5);
}

#[test]
fn parse_location_needs_the_marker() {
    assert!(parse_location("sources/a.move:10:5").is_none());
}

#[test]
fn parse_location_needs_three_fields() {
    assert!(parse_location("\u{250c}\u{2500} sources/a.move:10").is_none());
}

#[test]
fn parse_location_rejects_non_numeric_fields() {
    assert!(parse_location("\u{250c}\u{2500} a.move:x:5").is_none());
    assert!(parse_location("\u{250c}\u{2500} a.move:10:y").is_none());
    assert!(parse_location("\u{250c}\u{2500} a.move: 10:5").is_none());
}

#[test]
fn parse_location_handles_u32_limits() {
    let r = parse_location("\u{250c}\u{2500} f.move:4294967295:1").unwrap();
    assert_eq!(r.1, 4294967295);
    assert!(parse_location("\u{250c}\u{2500} f.move:4294967296:1").is_none());
}

#[test]
fn parse_location_takes_third_field_before_extra_colons() {
    let r = parse_location("\u{250c}\u{2500} f.move:7:9:tail").unwrap();
    assert_eq!((r.0.as_str(), r.1, r.2), ("f.move", 7, 9));
}

#[test]
fn scanner_emits_one_warning_record() {
    // A warning block: header, location marker, `=` terminator.
    let input = "warning[W1001]: unused variable\n  \u{250c}\u{2500} sources/a.move:10:5\n  =\n";
    let (warnings, errors) = extract_build_output(input).unwrap();
    assert_eq!(warnings.len(), 1);
    assert_eq!(errors.len(), 0);
    let rec = &warnings.items[0];
    assert_eq!(rec.severity, Severity::Warning);
    assert_eq!(rec.notice.code, "W1001");
    assert_eq!(rec.notice.file, "sources/a.move");
    assert_eq!(rec.notice.line_number, 10);
    assert_eq!(rec.notice.column_number, 5);
    assert_eq!(
        rec.body,
        "warning[W1001]: unused variable\n  \u{250c}\u{2500} sources/a.move:10:5"
    );
}

#[test]
fn scanner_error_block_ends_at_blank_line() {
    let input = "error[E0001]: boom\n  \u{250c}\u{2500} sources/b.move:3:7\n  = note\n\nrest\n";
    let (warnings, errors) = extract_build_output(input).unwrap();
    assert_eq!(warnings.len(), 0);
    assert_eq!(errors.len(), 1);
    let rec = &errors.items[0];
    assert_eq!(rec.severity, Severity::Error);
    assert_eq!(rec.notice.code, "E0001");
    assert_eq!(rec.notice.file, "sources/b.move");
    assert_eq!(rec.notice.line_number, 3);
    assert_eq!(rec.notice.column_number, 7);
}

#[test]
fn scanner_reports_malformed_block_without_location() {
    // An error block whose lines never contain a location marker.
    let input = "error[E02]: broken\nsome detail\n\n";
    let err = extract_build_output(input).unwrap_err();
    assert_eq!(err.header, "error[E02]: broken");
    assert!(err.body.starts_with("error[E02]: broken\n"));
}

#[test]
fn scanner_handles_adjacent_blocks_without_blank_line() {
    // A warning block immediately followed by an error block.
    let input = "warning[W1]: a\n  \u{250c}\u{2500} s/a.move:1:2\n  =\nerror[E1]: b\n  \u{250c}\u{2500} s/b.move:3:4\n\n";
    let (warnings, errors) = extract_build_output(input).unwrap();
    assert_eq!(warnings.len(), 1);
    assert_eq!(errors.len(), 1);
    assert_eq!(warnings.items[0].notice.code, "W1");
    assert_eq!(errors.items[0].notice.code, "E1");
}

#[test]
fn scanner_deduplicates_by_identity_later_body_wins() {
    let input = "warning[W9]: first\n  \u{250c}\u{2500} s/a.move:5:6\n  =\nwarning[W9]: second\n  \u{250c}\u{2500} s/a.move:5:6\n  =\n";
    let (warnings, errors) = extract_build_output(input).unwrap();
    assert_eq!(errors.len(), 0);
    assert_eq!(warnings.len(), 1);
    assert!(warnings.items[0].body.starts_with("warning[W9]: second"));
}

#[test]
fn scanner_distinct_identities_both_survive() {
    let input = "warning[W9]: one\n  \u{250c}\u{2500} s/a.move:5:6\n  =\nwarning[W9]: two\n  \u{250c}\u{2500} s/a.move:5:7\n  =\n";
    let (warnings, _) = extract_build_output(input).unwrap();
    assert_eq!(warnings.len(), 2);
}

#[test]
fn scanner_is_order_independent_for_independent_blocks() {
    let block_a = "warning[W1]: a\n  \u{250c}\u{2500} s/a.move:1:1\n  =\n";
    let block_b = "warning[W2]: b\n  \u{250c}\u{2500} s/b.move:2:2\n  =\n";
    let block_c = "error[E1]: c\n  \u{250c}\u{2500} s/c.move:3:3\n\n";
    let one = format!("{}{}{}", block_a, block_b, block_c);
    let two = format!("{}{}{}", block_c, block_b, block_a);
    let (w1, e1) = extract_build_output(&one).unwrap();
    let (w2, e2) = extract_build_output(&two).unwrap();
    assert_eq!(w1.len(), w2.len());
    assert_eq!(e1.len(), e2.len());
    for rec in &w1.items {
        assert!(w2.items.iter().any(|o| {
            o.notice == rec.notice && o.severity == rec.severity && o.body == rec.body
        }));
    }
    for rec in &e1.items {
        assert!(e2.items.iter().any(|o| {
            o.notice == rec.notice && o.severity == rec.severity && o.body == rec.body
        }));
    }
}

#[test]
fn scanner_emits_open_block_with_location_at_end_of_input() {
    // Truncated capture: the block never sees its terminator.
    let input = "warning[W5]: tail\n  \u{250c}\u{2500} s/t.move:8:9";
    let (warnings, errors) = extract_build_output(input).unwrap();
    assert_eq!(warnings.len(), 1);
    assert_eq!(errors.len(), 0);
    assert_eq!(warnings.items[0].notice.code, "W5");
}

#[test]
fn scanner_discards_open_block_without_location_at_end_of_input() {
    let input = "warning[W5]: tail\nno location here";
    let (warnings, errors) = extract_build_output(input).unwrap();
    assert_eq!(warnings.len(), 0);
    assert_eq!(errors.len(), 0);
}

#[test]
fn scanner_code_runs_to_line_end_without_bracket() {
    let input = "warning[Wxx: odd\n  \u{250c}\u{2500} s/a.move:1:2\n  =\n";
    let (warnings, _) = extract_build_output(input).unwrap();
    assert_eq!(warnings.items[0].notice.code, "Wxx: odd");
}

#[test]
fn scanner_skips_unrelated_lines() {
    let input = "Compiling...\nnothing here\nwarning[W1]: a\n  \u{250c}\u{2500} s/a.move:1:2\n  =\ndone\n";
    let (warnings, errors) = extract_build_output(input).unwrap();
    assert_eq!(warnings.len(), 1);
    assert_eq!(errors.len(), 0);
}

#[test]
fn parse_location_accepts_plus_sign_like_u32_parse() {
    let r = parse_location("\u{250c}\u{2500} f.move:+10:5").unwrap();
    assert_eq!((r.1, r.2), (10, 5));
}

#[test]
fn scanner_finds_location_on_a_later_line() {
    let input = "warning[W3]: deep\nsome note first\n  \u{250c}\u{2500} s/d.move:6:7\nmore\n  =\n";
    let (warnings, _) = extract_build_output(input).unwrap();
    assert_eq!(warnings.len(), 1);
    assert_eq!(warnings.items[0].notice.file, "s/d.move");
    assert_eq!(warnings.items[0].notice.line_number, 6);
}

#[test]
fn scanner_absorbs_header_like_lines_inside_an_error_block() {
    // No blank line yet, so the nested header text belongs to the open block.
    let input = "error[E9]: outer\n  \u{250c}\u{2500} s/e.move:1:1\nwarning[W8]: swallowed\n\n";
    let (warnings, errors) = extract_build_output(input).unwrap();
    assert_eq!(warnings.len(), 0);
    assert_eq!(errors.len(), 1);
    assert!(errors.items[0].body.contains("warning[W8]: swallowed"));
}

#[test]
fn scanner_reads_through_ansi_colour() {
    let input = "\x1b[33mwarning[W1]\x1b[0m: a\n  \u{250c}\u{2500} s/a.move:1:2\n  =\n";
    let (warnings, _) = extract_build_output(input).unwrap();
    assert_eq!(warnings.len(), 1);
    assert_eq!(warnings.items[0].notice.code, "W1");
}
