use taintflow::common::Span;
use taintflow::semantic::{ScopeKind, SemanticInfo, Symbol, SymbolKind};

fn sym(name: &str, kind: SymbolKind) -> Symbol {
    Symbol { name: name.to_string(), kind, span: Span { start_line: 1, start_col: 0, end_line: 1, end_col: 4 } }
}

#[test]
fn nested_scopes_resolve_outward() {
    let mut info = SemanticInfo::new();
    assert_eq!(info.scopes[0].name, "global");
    info.insert_symbol(0, sym("Account", SymbolKind::Class));
    let class_scope = info.alloc_scope(ScopeKind::Class, "Account".to_string(), 0);
    info.insert_symbol(class_scope, sym("set_balance", SymbolKind::Method));
    let fn_scope = info.alloc_scope(ScopeKind::Function, "set_balance".to_string(), class_scope);
    info.insert_symbol(fn_scope, sym("amount", SymbolKind::Parameter));
    assert_eq!(info.scopes[0].children_ids, vec![class_scope]);
    assert_eq!(info.scopes[class_scope].children_ids, vec![fn_scope]);
    assert_eq!(info.lookup("amount", fn_scope).unwrap().kind, SymbolKind::Parameter);
    assert_eq!(info.lookup("Account", fn_scope).unwrap().kind, SymbolKind::Class);
    assert!(info.lookup("amount", class_scope).is_none());
    assert!(info.lookup("nothing", 99).is_none());
}

#[test]
fn inserting_a_symbol_again_replaces_it() {
    let mut info = SemanticInfo::new();
    info.insert_symbol(0, sym("x", SymbolKind::Variable));
    info.insert_symbol(0, sym("x", SymbolKind::Import));
    assert_eq!(info.scopes[0].symbols.len(), 1);
    assert_eq!(info.lookup("x", 0).unwrap().kind, SymbolKind::Import);
    info.insert_symbol(7, sym("y", SymbolKind::Variable));
    assert!(info.lookup("y", 0).is_none());
}

#[test]
fn superclass_records_are_replaced() {
    let mut info = SemanticInfo::new();
    info.set_superclass("A".to_string(), None);
    info.set_superclass("A".to_string(), Some("B".to_string()));
    assert_eq!(info.types_hierarchy.len(), 1);
    assert_eq!(info.types_hierarchy[0].1, Some("B".to_string()));
}

fn node(kind: &str, raw: &str, children: Vec<taintflow::parser::SimpleCstNode>) -> taintflow::parser::SimpleCstNode {
    taintflow::parser::SimpleCstNode {
        kind: kind.to_string(),
        span: Span { start_line: 1, start_col: 0, end_line: 1, end_col: 1 },
        raw: raw.to_string(),
        children,
    }
}

#[test]
fn resolving_a_tree_opens_scopes_and_records_symbols() {
    let tree = node("module", "", vec![
        node("ClassDefinition", "class Dog(Animal): ...", vec![
            node("Identifier", "Dog", vec![]),
            node("argument_list", "(Animal)", vec![node("Identifier", " Animal ", vec![])]),
            node("FunctionDefinition", "def bark(self): ...", vec![
                node("Identifier", "bark", vec![]),
                node("parameters", "(self)", vec![node("Identifier", "self", vec![])]),
                node("AssignmentExpression", "x = 1", vec![
                    node("Identifier", "x", vec![]),
                    node("Literal", "1", vec![]),
                ]),
            ]),
        ]),
        node("ImportStatement", "import os", vec![node("dotted_name", " os", vec![])]),
    ]);
    let info = taintflow::semantic::resolve_semantics(&tree);
    assert_eq!(info.scopes.len(), 3);
    assert_eq!(info.scopes[1].name, "Dog");
    assert_eq!(info.scopes[1].kind, ScopeKind::Class);
    assert_eq!(info.scopes[1].parent_id, Some(0));
    assert_eq!(info.scopes[2].name, "bark");
    assert_eq!(info.scopes[2].kind, ScopeKind::Function);
    assert_eq!(info.scopes[2].parent_id, Some(1));
    assert_eq!(info.scopes[0].children_ids, vec![1]);
    let global: Vec<(String, SymbolKind)> = info.scopes[0].symbols.iter().map(|s| (s.name.clone(), s.kind)).collect();
    assert_eq!(global, vec![("Dog".to_string(), SymbolKind::Class), ("os".to_string(), SymbolKind::Import)]);
    let in_class: Vec<String> = info.scopes[1].symbols.iter().map(|s| s.name.clone()).collect();
    assert_eq!(in_class, vec!["bark".to_string()]);
    let in_fn: Vec<(String, SymbolKind)> = info.scopes[2].symbols.iter().map(|s| (s.name.clone(), s.kind)).collect();
    assert_eq!(in_fn, vec![("self".to_string(), SymbolKind::Parameter), ("x".to_string(), SymbolKind::Variable)]);
    assert_eq!(info.types_hierarchy, vec![("Dog".to_string(), Some("Animal".to_string()))]);
}

#[test]
fn an_assigned_name_already_in_scope_is_kept() {
    let tree = node("module", "", vec![
        node("ImportStatement", "import x", vec![node("Identifier", "x", vec![])]),
        node("AssignmentExpression", "x = y", vec![
            node("Identifier", "x", vec![]),
            node("Identifier", "y", vec![]),
        ]),
    ]);
    let info = taintflow::semantic::resolve_semantics(&tree);
    assert_eq!(info.scopes.len(), 1);
    assert_eq!(info.scopes[0].symbols.len(), 1);
    assert_eq!(info.scopes[0].symbols[0].kind, SymbolKind::Import);
}
