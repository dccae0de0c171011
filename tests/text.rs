use simple_text_editor::ops::{parse, Operation};
use simple_text_editor::text::{ApplyError, Text, MAX_DELETE_OPS, MAX_OPS};

fn run_script(input: &str) -> (Vec<char>, String) {
    let (count, ops) = parse(input).unwrap();
    let mut text = Text::new("", count);
    let printed = text.apply(ops).unwrap();
    (printed, text.output())
}

#[test]
fn test_apply_ops() {
    let (count, ops) = parse(
        r#"8
    1 abc
    3 3
    2 3
    1 xy
    3 2
    4 
    4 
    3 1"#,
    )
    .unwrap();
    assert_eq!(count, ops.len());

    let mut text = Text::new("", count);
    text.apply(ops).unwrap();
    assert_eq!("abc", text.output());
}

#[test]
fn deletes_then_append() {
    let (_, out) = run_script("4\n1 hello\n2 1\n2 1\n1 p me!\n");
    assert_eq!(out, "help me!");
    let (_, out) = run_script("4\n1 abc\n2 1\n2 1\n1 p me!\n");
    assert_eq!(out, "ap me!");
}

#[test]
fn prints_in_order_and_undo_twice() {
    let (printed, out) = run_script("8\n1 abc\n3 3\n2 3\n1 xy\n3 2\n4\n4\n3 1\n");
    assert_eq!(printed, vec!['c', 'y', 'a']);
    assert_eq!(out, "abc");
}

#[test]
fn append_then_undo_restores() {
    let mut text = Text::new("base", 2);
    let printed = text
        .apply(vec![Operation::Append(" more".to_string()), Operation::Undo])
        .unwrap();
    assert!(printed.is_empty());
    assert_eq!(text.output(), "base");
}

#[test]
fn delete_then_undo_restores() {
    let mut text = Text::new("abcdef", 3);
    let printed = text
        .apply(vec![Operation::Delete(4), Operation::Print(2), Operation::Undo])
        .unwrap();
    assert_eq!(printed, vec!['b']);
    assert_eq!(text.output(), "abcdef");
}

#[test]
fn no_op_paths() {
    let mut text = Text::new("abc", 7);
    let printed = text
        .apply(vec![
            Operation::Undo,
            Operation::Delete(4),
            Operation::Print(0),
            Operation::Print(4),
            Operation::Invalid,
            Operation::Undo,
            Operation::Print(3),
        ])
        .unwrap();
    assert_eq!(printed, vec!['c']);
    assert_eq!(text.output(), "abc");
}

#[test]
fn invalid_has_no_effect() {
    let (count, ops) = parse("2\n1 xy\n5\n").unwrap();
    assert_eq!(ops[1], Operation::Invalid);
    let mut text = Text::new("", count);
    assert!(text.apply(ops).unwrap().is_empty());
    assert_eq!(text.output(), "xy");
}

#[test]
fn delete_whole_buffer_and_undo() {
    let mut text = Text::new("", 5);
    let printed = text
        .apply(vec![
            Operation::Append("ab".to_string()),
            Operation::Append("cd".to_string()),
            Operation::Delete(4),
            Operation::Undo,
            Operation::Undo,
        ])
        .unwrap();
    assert!(printed.is_empty());
    assert_eq!(text.output(), "ab");
}

#[test]
fn characters_not_bytes() {
    let mut text = Text::new("h\u{e9}", 4);
    let printed = text
        .apply(vec![
            Operation::Append("\u{2603}!".to_string()),
            Operation::Delete(1),
            Operation::Print(3),
            Operation::Print(2),
        ])
        .unwrap();
    assert_eq!(printed, vec!['\u{2603}', '\u{e9}']);
    assert_eq!(text.output(), "h\u{e9}\u{2603}");
}

#[test]
fn count_mismatch_is_refused() {
    let mut text = Text::new("keep", 2);
    let r = text.apply(vec![Operation::Delete(1)]);
    assert!(matches!(r, Err(ApplyError::CountMismatch)));
    assert_eq!(text.output(), "keep");
}

#[test]
fn too_many_operations_is_refused() {
    let ops = vec![Operation::Invalid; MAX_OPS + 1];
    let mut text = Text::new("keep", MAX_OPS + 1);
    let r = text.apply(ops);
    assert!(matches!(r, Err(ApplyError::TooManyOperations)));
    assert_eq!(text.output(), "keep");
}

#[test]
fn largest_operation_count_is_accepted() {
    let ops = vec![Operation::Print(1); MAX_OPS];
    let mut text = Text::new("z", MAX_OPS);
    let printed = text.apply(ops).unwrap();
    assert_eq!(printed.len(), MAX_OPS);
    assert_eq!(text.output(), "z");
}

#[test]
fn deletion_ceiling_stops_the_run() {
    let init: String = std::iter::repeat('a').take(MAX_DELETE_OPS).collect();
    let mut text = Text::new(&init, 5);
    let r = text.apply(vec![
        Operation::Delete(MAX_DELETE_OPS - 1),
        Operation::Print(1),
        Operation::Undo,
        Operation::Delete(2),
        Operation::Append("never".to_string()),
    ]);
    match r {
        Err(ApplyError::TooManyDeletions(printed)) => assert_eq!(printed, vec!['a']),
        _ => panic!("expected the deletion ceiling"),
    }
    assert_eq!(text.output(), init);
}

#[test]
fn deletion_ceiling_reached_exactly() {
    let init: String = std::iter::repeat('b').take(MAX_DELETE_OPS).collect();
    let mut text = Text::new(&init, 2);
    let printed = text
        .apply(vec![Operation::Delete(MAX_DELETE_OPS), Operation::Append("c".to_string())])
        .unwrap();
    assert!(printed.is_empty());
    assert_eq!(text.output(), "c");
}

#[test]
fn new_and_output_keep_initial_value() {
    let text = Text::new("start \u{1f600}", 0);
    assert_eq!(text.output(), "start \u{1f600}");
}
