use texlog::parser::LogParser;
use texlog::report::{BuildReport, Message};

fn create_parser(line: &str) -> BuildReport {
    let mut parser = LogParser::new(2);
    parser.parse_line(line);
    parser.into_report()
}

#[test]
fn test_underfull_vbox_while_output_active() {
    let line = "Underfull \\vbox (badness 1234) has occurred while \\output is active []";
    let report = create_parser(&line);

    assert_eq!(report.badboxes, 1);
    assert_eq!(report.errors, 0);
    assert_eq!(report.warnings, 0);
    assert_eq!(report.info, 0);
}

#[test]
fn test_underfull_vbox_detected_at() {
    let line = "Underfull \\vbox (badness 10000) detected at line 19";
    let report = create_parser(&line);

    assert_eq!(report.badboxes, 1);
    assert_eq!(report.errors, 0);
    assert_eq!(report.warnings, 0);
    assert_eq!(report.info, 0);
}

#[test]
fn test_underfull_hbox_at_lines() {
    let line = "Underfull \\hbox (badness 1234) in paragraph at lines 9--10";
    let report = create_parser(&line);

    assert_eq!(report.badboxes, 1);
    assert_eq!(report.errors, 0);
    assert_eq!(report.warnings, 0);
    assert_eq!(report.info, 0);
}

#[test]
fn test_overfull_vbox_while_output_active() {
    let line = "Overfull \\vbox (19.05511pt too high) has occurred while \\output is active []";
    let report = create_parser(&line);

    assert_eq!(report.badboxes, 1);
    assert_eq!(report.errors, 0);
    assert_eq!(report.warnings, 0);
    assert_eq!(report.info, 0);
}

#[test]
fn test_overfull_hbox_on_line() {
    let line = "Overfull \\hbox (54.95697pt too wide) in paragraph at lines 397--397";
    let report = create_parser(&line);

    assert_eq!(report.badboxes, 1);
    assert_eq!(report.errors, 0);
    assert_eq!(report.warnings, 0);
    assert_eq!(report.info, 0);
}

#[test]
fn test_package_not_found_error() {
    let line = "! LaTeX Error: File `foobar.sty' not found.";
    let report = create_parser(&line);

    assert_eq!(report.errors, 1);
}

#[test]
fn test_undefined_control_sequence_tex_error() {
    let line = "! Undefined control sequence.";
    let report = create_parser(&line);

    assert_eq!(report.errors, 1);
}

#[test]
fn test_too_many_braces_tex_error() {
    let line = "! Too many }'s.";
    let report = create_parser(&line);

    assert_eq!(report.errors, 1);
}

#[test]
fn test_missing_math_mod_text_error() {
    let line = "! Missing $ inserted";
    let report = create_parser(&line);

    assert_eq!(report.errors, 1);
}

#[test]
fn test_package_error() {
    let line = "! Package babel Error: Unknown option `latin'. Either you misspelled it";
    let report = create_parser(&line);

    assert_eq!(report.errors, 1);
}

#[test]
fn test_pdftex_error() {
    let line = "! pdfTeX error (\\pdfsetmatrix): Unrecognized format..";
    let report = create_parser(&line);

    assert_eq!(report.errors, 1);
}

#[test]
fn test_class_error() {
    let line = "! Class article Error: Unrecognized argument for \\macro.";
    let report = create_parser(&line);

    assert_eq!(report.errors, 1);
}

#[test]
fn test_latex_font_warning() {
    let line = "LaTeX Font Warning: Font shape `OT1/cmr/bx/sc' undefined";
    let report = create_parser(&line);

    assert_eq!(report.warnings, 1);
}

#[test]
fn test_package_warning() {
    let line = "Package hyperref Warning: Draft mode on.";
    let report = create_parser(&line);

    assert_eq!(report.warnings, 1);
}

#[test]
fn test_class_warning() {
    let line = "Class article Warning: Unknown option `foo'.";
    let report = create_parser(&line);

    assert_eq!(report.warnings, 1);
}

#[test]
fn test_missing_reference_warning() {
    let line = "LaTeX Warning: Reference `not present' on page 1 undefined on input line 7.";
    let report = create_parser(&line);

    assert_eq!(report.missing_references, 1);

    if let Message::Warning(warning_message) = report.messages.get(0).unwrap() {
        let message = warning_message.details.get("message").unwrap();

        assert_eq!(message, "Reference `not present' on page 1 undefined on input line 7.")
    }
}

#[test]
fn test_missing_citation_warning() {
    let line = "LaTeX Warning: Citation `not present' on page 1 undefined on input line 7.";
    let report = create_parser(&line);

    assert_eq!(report.missing_citations, 1);

    if let Message::Warning(warning_message) = report.messages.get(0).unwrap() {
        let message = warning_message.details.get("message").unwrap();

        assert_eq!(message, "Citation `not present' on page 1 undefined on input line 7.")
    }
}

#[test]
fn test_underfull_vbox_has_occurred_with_page() {
    let line = "Underfull \\vbox (badness 10000) has occurred while \\output is active [38]";

    let report = create_parser(&line);
    assert_eq!(report.badboxes, 1);
}
