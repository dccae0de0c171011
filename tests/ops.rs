use simple_text_editor::ops::{parse, parse_operation, Operation};

#[test]
fn test_op_from_str() {
    let cases = [
        ("1 abc", Operation::Append("abc".to_string())),
        ("1  abc", Operation::Append(" abc".to_string())),
        ("1  ", Operation::Append(" ".to_string())),
        ("1 abc def ghi", Operation::Append("abc def ghi".to_string())),
        ("3 3", Operation::Print(3)),
        ("3          3", Operation::Print(3)),
        ("2 3", Operation::Delete(3)),
        ("2      3", Operation::Delete(3)),
        ("1      xy", Operation::Append("     xy".to_string())),
        ("4", Operation::Undo),
        ("5", Operation::Invalid),
        ("", Operation::Invalid),
        (" ", Operation::Invalid),
        ("    ", Operation::Invalid),
    ];
    for case in cases.iter() {
        assert_eq!(Operation::from(case.0), case.1);
    }
}

#[test]
fn test_parse_input() {
    let input = r#"8
    1 abc
    3 3
    2 3
    1 xy
    3 2
    4 
    4 
    3 1"#;
    let output = (
        8,
        vec![
            Operation::Append("abc".to_string()),
            Operation::Print(3),
            Operation::Delete(3),
            Operation::Append("xy".to_string()),
            Operation::Print(2),
            Operation::Undo,
            Operation::Undo,
            Operation::Print(1),
        ],
    );

    assert_eq!(parse(input).unwrap(), output);
}

#[test]
fn only_one_separator_is_dropped() {
    assert_eq!(parse_operation("1  abc"), Operation::Append(" abc".to_string()));
}

#[test]
fn unknown_code_is_invalid() {
    assert_eq!(parse_operation("5"), Operation::Invalid);
    assert_eq!(parse_operation("0 1"), Operation::Invalid);
    assert_eq!(parse_operation("x"), Operation::Invalid);
}

#[test]
fn parsing_is_deterministic() {
    let lines = ["1 abc", "2 7", "3 1", "4", "9", "  2 x"];
    for line in lines.iter() {
        assert_eq!(parse_operation(line), parse_operation(line));
    }
}

#[test]
fn bare_append_code_appends_nothing() {
    assert_eq!(parse_operation("1"), Operation::Append(String::new()));
    assert_eq!(parse_operation("   1"), Operation::Append(String::new()));
}

#[test]
fn undo_ignores_its_argument() {
    assert_eq!(parse_operation("4 anything"), Operation::Undo);
    assert_eq!(parse_operation("4x"), Operation::Undo);
}

#[test]
fn numeric_arguments() {
    assert_eq!(parse_operation("2 +5"), Operation::Delete(5));
    assert_eq!(parse_operation("3 0"), Operation::Print(0));
    assert_eq!(parse_operation("2\t12\t"), Operation::Delete(12));
    assert_eq!(parse_operation("\u{3000}3 42"), Operation::Print(42));
    assert_eq!(parse_operation("2"), Operation::Invalid);
    assert_eq!(parse_operation("2 "), Operation::Invalid);
    assert_eq!(parse_operation("2 -1"), Operation::Invalid);
    assert_eq!(parse_operation("2 +"), Operation::Invalid);
    assert_eq!(parse_operation("2 1 2"), Operation::Invalid);
    assert_eq!(parse_operation("3 1a"), Operation::Invalid);
    assert_eq!(parse_operation("2x5"), Operation::Delete(5));
    assert_eq!(
        parse_operation("3 18446744073709551615"),
        Operation::Print(18446744073709551615)
    );
    assert_eq!(parse_operation("3 18446744073709551616"), Operation::Invalid);
}

#[test]
fn append_keeps_text_verbatim() {
    assert_eq!(parse_operation("1 h\u{e9}llo \u{2603} "), Operation::Append("h\u{e9}llo \u{2603} ".to_string()));
    assert_eq!(parse_operation("1\u{a0}ab"), Operation::Append("ab".to_string()));
}

#[test]
fn header_must_be_a_number() {
    assert_eq!(parse(""), None);
    assert_eq!(parse("x\n1 a\n"), None);
    assert_eq!(parse(" 1\n1 a\n"), None);
    assert_eq!(parse("1 \n1 a\n"), None);
    assert_eq!(parse("0"), Some((0, vec![])));
    assert_eq!(parse("+2\n4\n"), Some((2, vec![Operation::Undo])));
}

#[test]
fn lines_are_split_as_str_lines() {
    assert_eq!(
        parse("3\r\n1 ab\r\n\n5\n"),
        Some((
            3,
            vec![
                Operation::Append("ab".to_string()),
                Operation::Invalid,
                Operation::Invalid,
            ]
        ))
    );
    assert_eq!(parse("1\n1 a\r"), Some((1, vec![Operation::Append("a\r".to_string())])));
    assert_eq!(parse("2\n\n"), Some((2, vec![Operation::Invalid])));
}

#[test]
fn invalid_lines_are_kept_in_order() {
    assert_eq!(
        parse("3\n4\nbad\n2 1\n"),
        Some((3, vec![Operation::Undo, Operation::Invalid, Operation::Delete(1)]))
    );
}
