use validatetest_fmt::fmt::format_file;

fn fmt(input: &str) -> String {
    String::from_utf8(format_file(input.as_bytes().to_vec(), 4, 120).unwrap()).unwrap()
}

#[test]
fn test_simple_structure_inline() {
    assert_eq!(fmt("action, foo=bar"), "action, foo=bar\n");
}

#[test]
fn test_simple_structure_multiline() {
    assert_eq!(
        fmt("action, foo=bar, baz=123"),
        "action, foo=bar, baz=123\n"
    );
}

#[test]
fn test_long_structure_splits() {
    // This input is >150 chars when formatted, so it should split
    let input="very-long-action-name-here, field1=\"some long value here\", field2=\"another long value\", field3=\"yet another value\", field4=\"and more values\", field5=\"even more values here to exceed the limit\"";
    let output = fmt(input);
    assert!(
        output.contains(",\n    "),
        "Long structure should split to multiple lines"
    );
}

#[test]
fn test_nested_block_packing() {
    let input = "meta, args={-t, video, --sink, fakesink}";
    let output = fmt(input);
    // Short values should be packed on same line
    assert!(output.contains("-t, video, --sink, fakesink"));
}

#[test]
fn test_nested_block_long_value_own_line() {
    // The nested block content exceeds 150 chars, so the structure should go multiline
    // and the long string should be on its own line within the block
    let input = r#"meta, args={-t, video, --sink, "this is a very long string value that definitely exceeds one hundred and fifty characters so it should cause line breaking to occur"}"#;
    let output = fmt(input);
    // Structure should split because nested block is long
    assert!(
        output.contains("args={\n"),
        "Should split to multiline when block content is long"
    );
}

#[test]
fn test_preserves_blank_lines() {
    let input = "action1, foo=bar\n\naction2, baz=123";
    let output = fmt(input);
    assert!(
        output.contains("\n\n"),
        "Should preserve blank line between structures"
    );
}

#[test]
fn test_no_extra_blank_lines() {
    let input = "action1, foo=bar\naction2, baz=123";
    let output = fmt(input);
    assert!(!output.contains("\n\n"), "Should not add blank lines");
}

#[test]
fn test_comment_preserved() {
    let input = "# This is a comment\naction, foo=bar";
    let output = fmt(input);
    assert!(output.starts_with("# This is a comment\n"));
}

#[test]
fn test_long_comment_wrapped() {
    let long_comment="# This is a very long comment that exceeds 150 characters and should be wrapped to multiple lines because we want to keep lines under 150 chars for readability";
    let input = format!("{}\naction, foo=bar", long_comment);
    let output = fmt(&input);
    // Comment should be wrapped to multiple lines
    let lines: Vec<&str> = output.lines().collect();
    assert!(lines[0].starts_with("# "));
    assert!(lines[1].starts_with("# "));
    assert!(lines[0].len() <= 120);
    assert!(lines[1].len() <= 120);
}

#[test]
fn test_array_inline_short() {
    let input = "action, values=[1, 2, 3]";
    let output = fmt(input);
    assert_eq!(output, "action, values=[1, 2, 3]\n");
}

#[test]
fn test_array_with_structures() {
    // expected-issue should be multiline
    let input = "meta, issues={[expected-issue, level=critical, id=foo]}";
    let output = fmt(input);
    assert!(
        output.contains("[expected-issue,\n"),
        "expected-issue should be multiline: {output}"
    );
    assert!(output.contains("level=critical"));
    assert!(output.contains("id=foo"));
}

#[test]
fn test_semicolon_preserved() {
    let input = "set-vars, foo=\"bar\";";
    let output = fmt(input);
    assert!(output.ends_with(";\n"));
}

#[test]
fn test_typed_value() {
    let input = "action, value=(int)42";
    let output = fmt(input);
    assert!(output.contains("value=(int)42"));
}

#[test]
fn test_spaces_around_equals() {
    let input = "action,foo=bar,baz=123";
    let output = fmt(input);
    assert!(output.contains("foo=bar"));
    assert!(output.contains("baz=123"));
}

#[test]
fn test_idempotent() {
    let input = "meta,\n    handles-states=true,\n    args={\n        \"pipeline\",\n    }\n";
    let output1 = fmt(input);
    let output2 = fmt(&output1);
    assert_eq!(output1, output2, "Formatting should be idempotent");
}

#[test]
fn test_file_ends_with_newline() {
    let input = "action, foo=bar";
    let output = fmt(input);
    assert!(output.ends_with('\n'));
}

#[test]
fn test_trailing_comment_short_stays_on_line() {
    let input = "meta, args={\n    value,  # short\n}";
    let output = fmt(input);
    assert!(
        output.contains("value,  # short"),
        "Short trailing comment should stay on same line"
    );
}

#[test]
fn test_trailing_comment_long_moves_before() {
    let input = "meta, args={\n    [action-with-long-name, param=\"value\"],  # this is a very very very long trailing comment that exceeds the line length limit and should be moved before\n}";
    let output = fmt(input);
    // The comment should appear BEFORE the element it was trailing
    assert!(
        output.contains("# this is a very very very long trailing comment"),
        "Long comment should be preserved"
    );
    assert!(
        output.contains("[action-with-long-name, param=\"value\"],\n"),
        "Element should have comma and newline after, no trailing comment"
    );
    // Verify order: comment comes before element
    let comment_pos = output.find("# this is a very very").unwrap();
    let element_pos = output.find("[action-with-long-name").unwrap();
    assert!(
        comment_pos < element_pos,
        "Comment should appear before element when too long"
    );
}

#[test]
fn test_property_actions_always_multiline() {
    // These short structures should still be multiline
    let input = "check-properties, foo=bar, baz=123";
    let output = fmt(input);
    assert!(
        output.contains(",\n    "),
        "check-properties should always be multiline: {output}"
    );

    let input = "set-properties, foo=bar";
    let output = fmt(input);
    assert!(
        output.contains(",\n    "),
        "set-properties should always be multiline: {output}"
    );

    let input = "check-child-properties, foo=bar";
    let output = fmt(input);
    assert!(
        output.contains(",\n    "),
        "check-child-properties should always be multiline: {output}"
    );

    let input = "set-child-properties, foo=bar";
    let output = fmt(input);
    assert!(
        output.contains(",\n    "),
        "set-child-properties should always be multiline: {output}"
    );
}

#[test]
fn test_expected_issue_always_multiline() {
    let input = "expected-issue, issue-id=foo, level=critical";
    let output = fmt(input);
    assert!(
        output.contains(",\n    "),
        "expected-issue should always be multiline: {output}"
    );
}

#[test]
fn test_quoted_string_to_array_structure_conversion() {
    // Quoted expected-issue strings should be converted to array structures
    let input = r#"meta, expected-issues={
    "expected-issue, issue-id=foo, level=critical",
}"#;
    let output = fmt(input);
    assert!(
        output.contains("[expected-issue,"),
        "Quoted expected-issue should be converted to array structure: {output}"
    );
    assert!(
        !output.contains("\"expected-issue,"),
        "Should not contain quoted expected-issue: {output}"
    );
}

#[test]
fn test_quoted_string_escapes_unescaped() {
    // Escaped quotes and backslashes should be properly unescaped
    let input = r#"meta, expected-issues={
    "expected-issue, issue-id=foo, details=\"test\\\\nvalue\"",
}"#;
    let output = fmt(input);
    // The \" should become " and \\\\ should become \\
    assert!(
        output.contains(r#"details="test\\nvalue""#),
        "Escapes should be properly unescaped: {output}"
    );
}

#[test]
fn test_change_severity_conversion() {
    let input = r#"meta, overrides={
    "change-severity, issue-id=foo, new-severity=warning",
}"#;
    let output = fmt(input);
    assert!(
        output.contains("[change-severity,"),
        "Quoted change-severity should be converted to array structure: {output}"
    );
}
