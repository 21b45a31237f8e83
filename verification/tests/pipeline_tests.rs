use mach3_to_ucnc::pipeline::run_pipeline;
use mach3_to_ucnc::text::chars_of;

#[test]
fn passthrough_with_rename() {
    let out = run_pipeline("G0 X1\n#2002 G38.2\nG1 Y2").unwrap();
    assert_eq!(out, chars_of("G0 X1\n#5063 G38.2\nG1 Y2\n"));
}

#[test]
fn rename_replaces_every_occurrence() {
    let out = run_pipeline("G0 #2002 #2002 X#2002").unwrap();
    assert_eq!(out, chars_of("G0 #5063 #5063 X#5063\n"));
}

#[test]
fn pause_lines_removed() {
    let out = run_pipeline("G0\nM0 (PAUSE PROGRAM)\nG1\nM0 (PAUSE PROGRAM)").unwrap();
    assert_eq!(out, chars_of("G0\nG1\n"));
}

#[test]
fn pause_must_match_whole_line() {
    let out = run_pipeline("M0 (PAUSE PROGRAM) ").unwrap();
    assert_eq!(out, chars_of("M0 (PAUSE PROGRAM) \n"));
}

#[test]
fn dwell_after_spindle_on() {
    let out = run_pipeline("M3 S1000\nG0").unwrap();
    assert_eq!(
        out,
        chars_of("M3 S1000\nG4 P8000 (m3tu: added sleep after M3)\nG0\n")
    );
}

#[test]
fn extraction_three_lines() {
    let out = run_pipeline("G1 X 6.9210 Y 2.1120 Z[-0.100+#100]").unwrap();
    assert_eq!(
        out,
        chars_of("(m3tu: \"G1 X 6.9210 Y 2.1120 Z[-0.100+#100]\")\n#103 = [-0.100+#100] (m3tu: extracted subexpression for Z)\nG1 X 6.9210 Y 2.1120 Z#103\n")
    );
}

#[test]
fn extraction_trims_comment_echo() {
    let out = run_pipeline("  G1 Z[#100]  ").unwrap();
    assert_eq!(
        out,
        chars_of("(m3tu: \"G1 Z[#100]\")\n#103 = [#100] (m3tu: extracted subexpression for Z)\n  G1 Z#103  \n")
    );
}

#[test]
fn nested_brackets_rejected() {
    let err = run_pipeline("G1 Z[1+[2]]").unwrap_err();
    assert_eq!(
        err.message,
        chars_of("Nested brackets are not supported\n\n  G1 Z[1+[2]]\n\n(line 1)")
    );
}

#[test]
fn nested_bracket_error_reports_right_line() {
    let err = run_pipeline("G0\nG1\nG1 Y[8*[2]]").unwrap_err();
    assert_eq!(
        err.message,
        chars_of("Nested brackets are not supported\n\n  G1 Y[8*[2]]\n\n(line 3)")
    );
}

#[test]
fn collision_detected() {
    let err = run_pipeline("G0 X1\n#103 = 5\nG1 Z[1]").unwrap_err();
    assert_eq!(
        err.message,
        chars_of("Temp variable '103' is assigned to on line 2")
    );
}

#[test]
fn collision_beats_extraction_on_same_line() {
    let err = run_pipeline("#103 = 5").unwrap_err();
    assert_eq!(
        err.message,
        chars_of("Temp variable '103' is assigned to on line 1")
    );
}

#[test]
fn crlf_programs_split_on_crlf() {
    let out = run_pipeline("G0\r\nM0 (PAUSE PROGRAM)\r\nG1").unwrap();
    assert_eq!(out, chars_of("G0\nG1\n"));
}

#[test]
fn first_bracketed_argument_only() {
    let out = run_pipeline("G1 X[1+2] Y[3+4]").unwrap();
    assert_eq!(
        out,
        chars_of("(m3tu: \"G1 X[1+2] Y[3+4]\")\n#103 = [1+2] (m3tu: extracted subexpression for X)\nG1 X#103 Y[3+4]\n")
    );
}

#[test]
fn register_prefixed_line_not_extracted() {
    let out = run_pipeline("#100 = 5").unwrap();
    assert_eq!(out, chars_of("#100 = 5\n"));
}

#[test]
fn empty_brackets_pass_through() {
    let out = run_pipeline("G1 Z[]").unwrap();
    assert_eq!(out, chars_of("G1 Z[]\n"));
}

#[test]
fn empty_input_is_one_blank_line() {
    let out = run_pipeline("").unwrap();
    assert_eq!(out, chars_of("\n"));
}

#[test]
fn trailing_newline_yields_final_blank_line() {
    let out = run_pipeline("G0\n").unwrap();
    assert_eq!(out, chars_of("G0\n\n"));
}

#[test]
fn error_later_in_file_suppresses_all_output() {
    let res = run_pipeline("G0\nG1 X2\nG1 Z[1+[2]]\nG2");
    assert!(res.is_err());
}

#[test]
fn renamed_line_still_extracted() {
    let out = run_pipeline("G38.2 Z[#2002+1]").unwrap();
    assert_eq!(
        out,
        chars_of("(m3tu: \"G38.2 Z[#5063+1]\")\n#103 = [#5063+1] (m3tu: extracted subexpression for Z)\nG38.2 Z#103\n")
    );
}
