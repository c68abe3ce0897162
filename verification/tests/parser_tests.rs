use taintflow::parser::{parse_python, preprocess_python, tree_from_events, CstNode, SyntaxEvent};

fn open(kind: &'static str, named: bool, row: usize, text: &str) -> SyntaxEvent {
    SyntaxEvent::Open(kind, named, row, 0, row, text.len(), text.to_string())
}

#[test]
fn walk_becomes_tree_of_named_nodes() {
    let events = vec![
        open("module", true, 0, "f(x)"),
        open("call", true, 0, "f(x)"),
        open("identifier", true, 0, "f"),
        SyntaxEvent::Close,
        open("(", false, 0, "("),
        SyntaxEvent::Close,
        open("identifier", true, 0, "x"),
        SyntaxEvent::Close,
        SyntaxEvent::Close,
        SyntaxEvent::Close,
    ];
    let root = tree_from_events(&events).unwrap();
    assert_eq!(root.kind, "module");
    assert_eq!(root.span.start_line, 1);
    assert_eq!(root.children.len(), 1);
    let call = &root.children[0];
    assert_eq!(call.kind, "CallExpression");
    assert_eq!(call.children.len(), 2);
    assert_eq!(call.children[0].kind, "Identifier");
    assert_eq!(call.children[1].raw, "x");
}

#[test]
fn unbalanced_walks_are_errors() {
    assert_eq!(tree_from_events(&Vec::new()).err(), Some("Failed to parse Python code".to_string()));
    let events = vec![open("module", true, 0, ""), open("identifier", true, 0, "x"), SyntaxEvent::Close];
    assert_eq!(tree_from_events(&events).err(), Some("Failed to parse Python code".to_string()));
    assert!(tree_from_events(&vec![SyntaxEvent::Close]).is_err());
}

#[test]
fn text_with_little_indentation_is_kept() {
    let code = "x = 1\n    y = 2\n";
    assert_eq!(preprocess_python(code), code);
}

#[test]
fn indented_fragments_are_cleaned() {
    let code = "        x = 1\n        class A(Base):\n                    extra = 2\n                    more = 3\n        def f(self):\n            return 1";
    let cleaned = preprocess_python(code);
    assert_eq!(
        cleaned,
        "x = 1\n        class A(Base):\n    pass\n# stripped: more = 3\n        def f(self):\n            return 1"
    );
}

#[test]
fn parse_keeps_kinds_and_text() {
    let cst = parse_python("x = input()\n").unwrap();
    assert_eq!(cst.kind(), "module");
    let stmt = cst.children()[0];
    assert!(stmt.raw().contains("x = input()"));
}
