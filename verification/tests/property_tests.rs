use validatetest_fmt::fmt::{format_file, Formatter};
use validatetest_fmt::parser::parse_document;

fn fmt(input: &str) -> String {
    String::from_utf8(format_file(input.as_bytes().to_vec(), 4, 120).unwrap()).unwrap()
}

const SAMPLES: [&str; 8] = [
    "action, foo=bar",
    "meta,\n    handles-states=true,\n    args={\n        \"pipeline\",\n    }\n",
    "meta, args={-t, video, --sink, fakesink}",
    "meta, issues={[expected-issue, level=critical, id=foo]}",
    "set-vars, foo=\"bar\";\n\ncheck-properties, a=1, b=2",
    "# leading comment\naction, v=(int)42, w=<1, 2>, x=[a, b]",
    "meta, expected-issues={\n    \"expected-issue, issue-id=foo, level=critical\",\n}",
    "meta, args={\n    value,  # short\n}\n\n\naction2, x=y;",
];

#[test]
fn test_idempotence_on_samples() {
    for input in SAMPLES {
        if input.contains("expected-issues") {
            // A convertible quoted literal is rewritten on the first pass;
            // from then on formatting is a fixed point.
            let once = fmt(input);
            let twice = fmt(&once);
            let thrice = fmt(&twice);
            assert_eq!(twice, thrice, "formatting must stabilise for {input:?}");
        } else {
            let once = fmt(input);
            let twice = fmt(&once);
            assert_eq!(once, twice, "formatting must be idempotent for {input:?}");
        }
    }
}

#[test]
fn test_output_reparses() {
    for input in SAMPLES {
        let once = fmt(input);
        assert!(
            parse_document(&once.as_bytes().to_vec()).is_ok(),
            "formatted output must re-parse: {once:?}"
        );
    }
}

#[test]
fn test_width_respected_when_packable() {
    // Sixty short values in a block: packed lines must stay within the budget.
    let mut vals = String::new();
    for i in 0..60 {
        if i > 0 {
            vals.push_str(", ");
        }
        vals.push_str(&format!("value-{i}"));
    }
    let input = format!("meta, args={{{vals}}}");
    let output = fmt(&input);
    for line in output.lines() {
        assert!(line.len() <= 120, "line over budget: {line:?}");
    }
}

#[test]
fn test_blank_line_count_preserved() {
    let input = "a1, x=1\n\n\n\na2, y=2";
    let output = fmt(input);
    assert_eq!(output, "a1, x=1\n\n\n\na2, y=2\n");
}

#[test]
fn test_forced_block_exact() {
    assert_eq!(fmt("check-properties, foo=bar"), "check-properties,\n    foo=bar\n");
}

#[test]
fn test_change_severity_forced_block() {
    assert_eq!(fmt("change-severity, issue-id=x"), "change-severity,\n    issue-id=x\n");
}

#[test]
fn test_embedded_conversion_output() {
    let input = "meta, issues={\"expected-issue, issue-id=foo, level=critical\"}";
    let output = fmt(input);
    assert!(output.contains("[expected-issue,\n"), "converted: {output:?}");
    assert!(!output.contains("\"expected-issue,"), "no quoted form left: {output:?}");
}

#[test]
fn test_unescape_rules() {
    let f = Formatter::new(Vec::new(), 4, 120);
    let unescaped = f.unescape_string(&b"a\\\"b\\\\c\\nd\\".to_vec());
    assert_eq!(unescaped, b"a\"b\\c\\nd\\".to_vec());
}

#[test]
fn test_try_convert_block_form() {
    let f = Formatter::new(Vec::new(), 4, 120);
    let r = f.try_convert_quoted_structure(&b"\"expected-issue, a=b\"".to_vec());
    assert_eq!(r, Some(b"[expected-issue,\n    a=b,\n]".to_vec()));
}

#[test]
fn test_try_convert_rejects_other_names() {
    let f = Formatter::new(Vec::new(), 4, 120);
    assert_eq!(f.try_convert_quoted_structure(&b"\"foo, a=b\"".to_vec()), None);
    assert_eq!(f.try_convert_quoted_structure(&b"plain".to_vec()), None);
}

#[test]
fn test_packing_exact_inline() {
    assert_eq!(fmt("action, values=[1, 2, 3]"), "action, values=[1, 2, 3]\n");
}

#[test]
fn test_packing_overwidth_trailing_commas() {
    // An array too wide for one line wraps, every element followed by a
    // comma, the last one included.
    let mut vals = String::new();
    for i in 0..40 {
        if i > 0 {
            vals.push_str(", ");
        }
        vals.push_str(&format!("item-{i}"));
    }
    let input = format!("action, values=[{vals}]");
    let output = fmt(&input);
    assert!(output.contains("values=[\n"), "array wraps: {output:?}");
    assert!(output.contains("item-39,\n"), "last element keeps its comma: {output:?}");
    for line in output.lines() {
        assert!(line.len() <= 120, "line over budget: {line:?}");
    }
}

#[test]
fn test_comment_hoisted_line_carries_no_comment() {
    let input = "meta, args={\n    short-value,  # a trailing comment so long that it cannot possibly stay on the element's line without running far over the width budget\n}";
    let output = fmt(input);
    let comment_pos = output.find("# a trailing comment").unwrap();
    let value_pos = output.find("short-value").unwrap();
    assert!(comment_pos < value_pos, "comment hoisted before its element");
    let value_line = output.lines().find(|l| l.contains("short-value")).unwrap();
    assert!(!value_line.contains('#'), "element line carries no comment: {value_line:?}");
}

#[test]
fn test_terminator_exact() {
    assert_eq!(fmt("set-vars, foo=\"bar\";"), "set-vars, foo=\"bar\";\n");
}

#[test]
fn test_single_trailing_newline() {
    assert_eq!(fmt("action, foo=bar\n\n\n"), "action, foo=bar\n");
    assert_eq!(fmt("action, foo=bar\n"), "action, foo=bar\n");
}

#[test]
fn test_empty_input() {
    assert_eq!(fmt(""), "\n");
}

#[test]
fn test_comment_only() {
    assert_eq!(fmt("# just a comment"), "# just a comment\n");
}

#[test]
fn test_leading_blank_line_kept() {
    assert_eq!(fmt("\n\naction, foo=bar"), "\naction, foo=bar\n");
}

#[test]
fn test_angle_bracket_array() {
    assert_eq!(fmt("action, v=<1, 2>"), "action, v=<1, 2>\n");
    assert_eq!(fmt("action, v=<>"), "action, v=<>\n");
}

#[test]
fn test_empty_array() {
    assert_eq!(fmt("action, v=[]"), "action, v=[]\n");
}

#[test]
fn test_parse_error_position() {
    let r = format_file(b"}".to_vec(), 4, 120);
    let e = r.unwrap_err();
    assert_eq!(e.line, 1);
    assert_eq!(e.column, 1);

    let r = format_file(b"action, foo=\"unterminated".to_vec(), 4, 120);
    assert!(r.unwrap_err().line >= 1);

    let r = format_file(b"a, x=1\n]".to_vec(), 4, 120);
    let e = r.unwrap_err();
    assert_eq!(e.line, 2);
    assert_eq!(e.column, 1);
}

#[test]
fn test_structure_in_block_gets_own_line() {
    let output = fmt("meta, x={sub-item, a=b}");
    assert!(output.contains("sub-item, a=b,"), "structure item with trailing comma: {output:?}");
}

#[test]
fn test_formatter_blank_count() {
    let f = Formatter::new(b"a\n\n\nb".to_vec(), 4, 120);
    assert_eq!(f.count_blank_lines_between(1, 4), 2);
    assert_eq!(f.count_blank_lines_between(4, 1), 0);
    assert_eq!(f.indent(), Vec::<u8>::new());
}

#[test]
fn test_array_structure_exact_layout() {
    let output = fmt("meta, issues={[expected-issue, level=critical, id=foo]}");
    assert_eq!(
        output,
        "meta,\n    issues={\n        [expected-issue,\n            level=critical,\n            id=foo],\n    }\n"
    );
}

#[test]
fn test_quoted_array_element_not_converted() {
    // Conversion applies to field values, not to quoted array elements.
    let output = fmt("meta, x=[\"expected-issue, a=b\"]");
    assert!(output.contains("\"expected-issue, a=b\""), "stays quoted: {output:?}");
}

#[test]
fn test_typed_quoted_payload() {
    assert_eq!(fmt("action, v=(string)\"foo\""), "action, v=(string)\"foo\"\n");
}

#[test]
fn test_structure_trailing_comment_in_block() {
    let output = fmt("meta, x={\n    sub, a=b,  # note\n}");
    assert!(output.contains("sub, a=b,  # note"), "comment trails structure: {output:?}");
}

#[test]
fn test_standalone_comment_in_block() {
    let output = fmt("meta, x={\n    # note\n    val,\n}");
    let note_pos = output.find("# note").unwrap();
    let val_pos = output.find("val,").unwrap();
    assert!(note_pos < val_pos, "comment keeps its own line: {output:?}");
}

#[test]
fn test_try_convert_at_indent() {
    let f = Formatter {
        source: Vec::new(),
        output: Vec::new(),
        indent_width: 4,
        max_line_length: 120,
        current_indent: 8,
    };
    assert_eq!(f.indent(), vec![b' '; 8]);
    let r = f.try_convert_quoted_structure(&b"\"change-severity, a=b\"".to_vec());
    assert_eq!(r, Some(b"[change-severity,\n            a=b,\n        ]".to_vec()));
}
