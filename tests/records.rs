use texlog::parser::{classify_line, parse_lines, LogParser};
use texlog::report::{Details, Message, MessageInfo};

fn lines(ls: &[&str]) -> Vec<String> {
    ls.iter().map(|l| l.to_string()).collect()
}

fn record(m: &Message) -> &MessageInfo {
    m.as_ref().unwrap()
}

fn field<'a>(m: &'a Message, k: &str) -> Option<&'a String> {
    record(m).details.get(k)
}

#[test]
fn underfull_page_fields() {
    let m = classify_line("Underfull \\vbox (badness 10000) has occurred while \\output is active [38]")
        .unwrap();
    assert!(matches!(m, Message::Badbox(_)));
    assert_eq!(field(&m, "type").unwrap(), "Under");
    assert_eq!(field(&m, "direction").unwrap(), "v");
    assert_eq!(field(&m, "by").unwrap(), "10000");
    assert_eq!(field(&m, "page").unwrap(), "38");
    assert!(field(&m, "line").is_none());
}

#[test]
fn underfull_without_page_number() {
    let m = classify_line("Underfull \\vbox (badness 1234) has occurred while \\output is active []")
        .unwrap();
    assert!(field(&m, "page").is_none());
    assert_eq!(field(&m, "by").unwrap(), "1234");
}

#[test]
fn overfull_range_fields() {
    let m = classify_line("Overfull \\hbox (54.95697pt too wide) in paragraph at lines 397--398 []")
        .unwrap();
    assert_eq!(field(&m, "type").unwrap(), "Over");
    assert_eq!(field(&m, "direction").unwrap(), "h");
    assert_eq!(field(&m, "by").unwrap(), "54.95697pt");
    assert_eq!(field(&m, "start_line").unwrap(), "397");
    assert_eq!(field(&m, "end_line").unwrap(), "398");
    assert_eq!(record(&m).full, "Overfull \\hbox (54.95697pt too wide) in paragraph at lines 397--398");
}

#[test]
fn badbox_single_line() {
    let m = classify_line("Underfull \\vbox (badness 10000) detected at line 19").unwrap();
    assert_eq!(field(&m, "line").unwrap(), "19");
    assert!(field(&m, "start_line").is_none());
}

#[test]
fn bare_error_message_is_text_after_mark() {
    let m = classify_line("! Undefined control sequence.\n").unwrap();
    assert!(matches!(m, Message::Error(_)));
    assert_eq!(field(&m, "message").unwrap(), "Undefined control sequence.");
    assert!(field(&m, "type").is_none());
    assert_eq!(m.to_str(), "! Undefined control sequence.");
}

#[test]
fn pdftex_error_fields() {
    let m = classify_line("! pdfTeX error (\\pdfsetmatrix): Unrecognized format..").unwrap();
    assert_eq!(field(&m, "type").unwrap(), "pdfTeX");
    assert_eq!(field(&m, "extra").unwrap(), "\\pdfsetmatrix");
    assert_eq!(field(&m, "message").unwrap(), "Unrecognized format..");
    assert!(field(&m, "component").is_none());
}

#[test]
fn package_error_fields() {
    let m = classify_line("! Package babel Error: Unknown option `latin'.").unwrap();
    assert_eq!(field(&m, "type").unwrap(), "Package");
    assert_eq!(field(&m, "package").unwrap(), "babel");
    assert_eq!(field(&m, "message").unwrap(), "Unknown option `latin'.");
}

#[test]
fn font_warning_component() {
    let m = classify_line("LaTeX Font Warning: Font shape `OT1/cmr/bx/sc' undefined").unwrap();
    assert!(matches!(m, Message::Warning(_)));
    assert_eq!(field(&m, "component").unwrap(), "Font");
    assert_eq!(field(&m, "message").unwrap(), "Font shape `OT1/cmr/bx/sc' undefined");
}

#[test]
fn info_before_warning() {
    let m = classify_line("Package hyperref Info: Link coloring OFF on input line 5.").unwrap();
    assert!(matches!(m, Message::Info(_)));
    assert_eq!(field(&m, "package").unwrap(), "hyperref");
}

#[test]
fn missing_reference_label() {
    let r = parse_lines(&lines(&[
        "LaTeX Warning: Reference `sec:intro' on page 1 undefined on input line 7.",
    ]));
    assert_eq!(r.missing_references, 1);
    assert_eq!(r.warnings, 0);
    match &r.messages[0] {
        Message::MissingReference { label } => assert_eq!(label, "sec:intro"),
        _ => panic!("expected a missing reference"),
    }
    assert_eq!(r.messages[0].to_str(), "Missing reference: sec:intro");
}

#[test]
fn missing_citation_label() {
    let r = parse_lines(&lines(&[
        "LaTeX Warning: Citation `knuth84' on page 1 undefined on input line 7.",
    ]));
    assert_eq!(r.missing_citations, 1);
    assert_eq!(r.warnings, 0);
    assert_eq!(r.messages[0].to_str(), "Missing citation: knuth84");
}

#[test]
fn unrecognized_lines_dropped() {
    let r = parse_lines(&lines(&["This is pdfTeX, Version 3.14", "", "(./main.tex"]));
    assert_eq!(r.messages.len(), 0);
    assert_eq!(r.errors + r.warnings + r.badboxes + r.info, 0);
}

#[test]
fn continuation_lines_merge() {
    let r = parse_lines(&lines(&[
        "Package hyperref Warning: Token not allowed in a PDF string,\n",
        "(hyperref)                removing `\\\\' on input line 12.\n",
        "(hyperref) more.\n",
    ]));
    assert_eq!(r.messages.len(), 1);
    assert_eq!(r.warnings, 1);
    assert_eq!(
        field(&r.messages[0], "message").unwrap(),
        "Token not allowed in a PDF string,removing `\\\\' on input line 12.\nmore.\n"
    );
}

#[test]
fn continuation_of_other_component_is_classified() {
    let r = parse_lines(&lines(&[
        "Package hyperref Warning: Draft mode on.",
        "(babel) something",
        "! Undefined control sequence.",
        "(hyperref) not merged into an error without component",
    ]));
    assert_eq!(r.messages.len(), 2);
    assert_eq!(r.errors, 1);
    assert_eq!(field(&r.messages[0], "message").unwrap(), "Draft mode on.");
}

#[test]
fn badbox_never_merges() {
    let r = parse_lines(&lines(&[
        "Underfull \\hbox (badness 1234) in paragraph at lines 9--10",
        "(Under) text",
    ]));
    assert_eq!(r.messages.len(), 1);
    assert_eq!(field(&r.messages[0], "by").unwrap(), "1234");
}

#[test]
fn parsing_twice_gives_same_report() {
    let log = lines(&[
        "! LaTeX Error: File `foobar.sty' not found.",
        "Package hyperref Warning: Draft mode on.",
        "(hyperref) again",
        "Overfull \\hbox (1.5pt too wide) in paragraph at lines 1--2",
    ]);
    let a = parse_lines(&log);
    let b = parse_lines(&log);
    assert_eq!(format!("{:?}", a), format!("{:?}", b));
    assert_eq!(a.errors, 1);
    assert_eq!(a.badboxes, 1);
}

#[test]
fn feed_matches_parse() {
    let mut p = LogParser::new(0);
    p.feed("Class article Warning: Unknown option `foo'.");
    p.feed("(article) second part");
    let r = p.into_report();
    assert_eq!(field(&r.messages[0], "class").unwrap(), "article");
    assert_eq!(field(&r.messages[0], "message").unwrap(), "Unknown option `foo'.second part");
}

#[test]
fn details_insert_replaces() {
    let mut d = Details::new();
    d.insert("a".to_string(), "1".to_string());
    d.insert("b".to_string(), "2".to_string());
    d.insert("a".to_string(), "3".to_string());
    assert_eq!(d.get("a").unwrap(), "3");
    assert_eq!(d.get("b").unwrap(), "2");
    assert!(d.get("c").is_none());
}

#[test]
fn as_mut_changes_record() {
    let mut m = classify_line("! Oops").unwrap();
    m.as_mut().unwrap().extend_message(" again");
    assert_eq!(field(&m, "message").unwrap(), "Oops again");
    let mut c = Message::MissingCitation { label: "x".to_string() };
    assert!(c.as_mut().is_none());
    assert!(c.as_ref().is_none());
}

#[test]
fn add_context_only_on_records() {
    let mut m = classify_line("! Oops").unwrap();
    m.add_context("l.12 \\foo".to_string());
    assert_eq!(record(&m).context_lines, vec!["l.12 \\foo".to_string()]);
    let mut c = Message::MissingReference { label: "x".to_string() };
    c.add_context("ignored".to_string());
    assert!(matches!(c, Message::MissingReference { .. }));
}

#[test]
fn overfull_with_badness_keeps_it() {
    let m = classify_line("Overfull \\hbox (badness 10000) detected at line 3").unwrap();
    assert_eq!(field(&m, "by").unwrap(), "10000");
}

#[test]
fn continuation_strips_unicode_white_space() {
    let r = parse_lines(&lines(&[
        "Package foo Warning: first",
        "(foo) \u{a0}\u{3000}second",
    ]));
    assert_eq!(r.messages.len(), 1);
    assert_eq!(field(&r.messages[0], "message").unwrap(), "firstsecond");
}

#[test]
fn overfull_whole_points_size() {
    let m = classify_line("Overfull \\hbox (12pt too wide) in paragraph at lines 3--4").unwrap();
    assert_eq!(field(&m, "by").unwrap(), "12pt");
    assert_eq!(field(&m, "start_line").unwrap(), "3");
    assert_eq!(field(&m, "end_line").unwrap(), "4");
    assert!(field(&m, "line").is_none());
    assert!(field(&m, "page").is_none());
}
