use mach3_to_ucnc::extract::{extract_line, extract_subexpressions};
use mach3_to_ucnc::line::SourceLine;
use mach3_to_ucnc::pipeline::render_output;
use mach3_to_ucnc::splitter::split_lines;
use mach3_to_ucnc::stages::{inject_dwells, remap_registers, remove_pauses};
use mach3_to_ucnc::text::chars_of;

#[test]
fn split_numbers_lines_from_one() {
    let lines = split_lines(&chars_of("a\nb\nc"));
    assert_eq!(lines.len(), 3);
    assert_eq!(lines[0].text, chars_of("a"));
    assert_eq!(lines[0].loc, 1);
    assert_eq!(lines[1].loc, 2);
    assert_eq!(lines[2].text, chars_of("c"));
    assert_eq!(lines[2].loc, 3);
}

#[test]
fn split_keeps_blank_lines() {
    let lines = split_lines(&chars_of("a\n\nb"));
    assert_eq!(lines.len(), 3);
    assert_eq!(lines[1].text, chars_of(""));
    assert_eq!(lines[1].loc, 2);
}

#[test]
fn split_lf_text_keeps_carriage_returns_out() {
    let lines = split_lines(&chars_of("a\r\nb"));
    assert_eq!(lines.len(), 2);
    assert_eq!(lines[0].text, chars_of("a"));
    assert_eq!(lines[1].text, chars_of("b"));
}

#[test]
fn synthetic_lines_have_no_position() {
    let l = SourceLine::synthetic(chars_of("G4 P8000"));
    assert!(l.is_synthetic());
    assert_eq!(l.format_lineno(), chars_of("<generated code>"));
}

#[test]
fn original_lines_format_their_number() {
    let l = SourceLine::original(chars_of("G0"), 42);
    assert!(!l.is_synthetic());
    assert_eq!(l.format_lineno(), chars_of("42"));
}

#[test]
fn format_lineno_multi_digit() {
    let l = SourceLine::original(chars_of("G0"), 1203);
    assert_eq!(l.format_lineno(), chars_of("1203"));
}

#[test]
fn remap_rewrites_probe_register() {
    let lines = vec![SourceLine::original(chars_of("G38.2 #2002 #2002"), 1)];
    let out = remap_registers(&lines);
    assert_eq!(out[0].text, chars_of("G38.2 #5063 #5063"));
    assert_eq!(out[0].loc, 1);
}

#[test]
fn remove_pauses_preserves_rest_in_order() {
    let lines = vec![
        SourceLine::original(chars_of("G0"), 1),
        SourceLine::original(chars_of("M0 (PAUSE PROGRAM)"), 2),
        SourceLine::original(chars_of("G1"), 3),
    ];
    let out = remove_pauses(&lines);
    assert_eq!(out.len(), 2);
    assert_eq!(out[0].text, chars_of("G0"));
    assert_eq!(out[0].loc, 1);
    assert_eq!(out[1].text, chars_of("G1"));
    assert_eq!(out[1].loc, 3);
}

#[test]
fn inject_dwells_after_spindle_on() {
    let lines = vec![
        SourceLine::original(chars_of("M3 S1000"), 1),
        SourceLine::original(chars_of("G0"), 2),
    ];
    let out = inject_dwells(&lines);
    assert_eq!(out.len(), 3);
    assert_eq!(out[0].text, chars_of("M3 S1000"));
    assert_eq!(out[1].text, chars_of("G4 P8000 (m3tu: added sleep after M3)"));
    assert!(out[1].is_synthetic());
    assert_eq!(out[2].text, chars_of("G0"));
}

#[test]
fn spindle_prefix_requires_trailing_space() {
    let lines = vec![SourceLine::original(chars_of("M30"), 1)];
    let out = inject_dwells(&lines);
    assert_eq!(out.len(), 1);
}

#[test]
fn extract_line_passes_plain_lines_through() {
    let l = SourceLine::original(chars_of("G0 X1 Y2"), 7);
    let out = extract_line(&l).unwrap();
    assert_eq!(out.len(), 1);
    assert_eq!(out[0].text, chars_of("G0 X1 Y2"));
    assert_eq!(out[0].loc, 7);
}

#[test]
fn extract_line_rewrites_axis_expression() {
    let l = SourceLine::original(chars_of("G1 Y[2*#7]"), 9);
    let out = extract_line(&l).unwrap();
    assert_eq!(out.len(), 3);
    assert_eq!(out[0].text, chars_of("(m3tu: \"G1 Y[2*#7]\")"));
    assert!(out[0].is_synthetic());
    assert_eq!(
        out[1].text,
        chars_of("#103 = [2*#7] (m3tu: extracted subexpression for Y)")
    );
    assert!(out[1].is_synthetic());
    assert_eq!(out[2].text, chars_of("G1 Y#103"));
    assert_eq!(out[2].loc, 9);
}

#[test]
fn synthetic_line_error_renders_generated_marker() {
    let lines = vec![SourceLine::synthetic(chars_of("G1 Z[1+[2]]"))];
    let err = extract_subexpressions(&lines).unwrap_err();
    assert_eq!(
        err.message,
        chars_of("Nested brackets are not supported\n\n  G1 Z[1+[2]]\n\n(line <generated code>)")
    );
}

#[test]
fn synthetic_collision_renders_generated_marker() {
    let lines = vec![SourceLine::synthetic(chars_of("#103 = 1"))];
    let err = extract_subexpressions(&lines).unwrap_err();
    assert_eq!(
        err.message,
        chars_of("Temp variable '103' is assigned to on line <generated code>")
    );
}

#[test]
fn extraction_stops_at_first_error() {
    let lines = vec![
        SourceLine::original(chars_of("G1 Z[1+[2]]"), 1),
        SourceLine::original(chars_of("#103 = 5"), 2),
    ];
    let err = extract_subexpressions(&lines).unwrap_err();
    assert_eq!(
        err.message,
        chars_of("Nested brackets are not supported\n\n  G1 Z[1+[2]]\n\n(line 1)")
    );
}

#[test]
fn render_joins_lines_with_newlines() {
    let lines = vec![
        SourceLine::original(chars_of("G0"), 1),
        SourceLine::original(chars_of("G1"), 2),
    ];
    assert_eq!(render_output(&lines), chars_of("G0\nG1\n"));
}

#[test]
fn render_of_nothing_is_empty() {
    let lines: Vec<SourceLine> = vec![];
    assert_eq!(render_output(&lines), chars_of(""));
}
