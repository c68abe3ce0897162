use taintflow::frontend::LanguageFrontend;
use taintflow::ir::{Constant, InstructionKind, Operand};
use taintflow::parser::{parse_python, CstNode};
use taintflow::python::PythonFrontend;
use taintflow::semantic::resolve_semantics;

#[test]
fn test_parse_simple_python() {
    let code = "def add(x, y):\n    return x + y\n";
    let cst = parse_python(code).unwrap();
    assert_eq!(cst.kind(), "module");
    let children = cst.children();
    assert!(!children.is_empty());
    let func = children[0];
    assert_eq!(func.kind(), "FunctionDefinition");
    assert!(func.raw().contains("def add(x, y):"));
}

#[test]
fn test_resolve_nested_scopes() {
    let code = r#"
class Account(BaseModel):
    def set_balance(self, amount):
        balance = amount
        return balance
"#;
    let cst = parse_python(code).unwrap();
    let info = resolve_semantics(&cst);

    let account = info.types_hierarchy.iter().find(|(name, _)| name == "Account").unwrap();
    assert_eq!(&account.1, &Some("BaseModel".to_string()));

    let global_scope = &info.scopes[info.global_scope_id];
    assert!(global_scope.symbols.iter().any(|s| s.name == "Account"));

    let class_scope_id = *global_scope.children_ids.first().unwrap();
    let class_scope = &info.scopes[class_scope_id];
    assert_eq!(class_scope.name, "Account");
    assert!(class_scope.symbols.iter().any(|s| s.name == "set_balance"));

    let method_scope_id = *class_scope.children_ids.first().unwrap();
    let method_scope = &info.scopes[method_scope_id];
    assert_eq!(method_scope.name, "set_balance");
    for name in ["self", "amount", "balance"] {
        assert!(method_scope.symbols.iter().any(|s| s.name == name), "missing {}", name);
    }
}

#[test]
fn test_lower_python_tac() {
    let code = r#"
class User:
    def greet(self):
        msg = "Hello"
        x = msg + " World"
        return x
"#;
    let cst = parse_python(code).unwrap();
    let semantic_info = resolve_semantics(&cst);
    let program = PythonFrontend.lower(code, &semantic_info, "main.py").unwrap();

    assert_eq!(program.methods.len(), 2);
    let method = program.methods.iter().find(|m| m.name == "greet").expect("greet method not found");
    assert_eq!(method.name, "greet");
    assert_eq!(method.parameters.len(), 1);
    assert!(method.body.len() >= 3);

    let inst1 = program.instruction(method.body[0]).unwrap();
    if let InstructionKind::Assign { dest, src } = &inst1.kind {
        assert_eq!(dest, &Operand::Var("msg".to_string()));
        assert_eq!(src, &Operand::Const(Constant::String("Hello".to_string())));
    } else {
        panic!("Expected Assign instruction");
    }
}

#[test]
fn module_level_calls_go_to_module_method() {
    let code = "x = input()\neval(x)\n";
    let cst = parse_python(code).unwrap();
    let info = resolve_semantics(&cst);
    let program = PythonFrontend.lower(code, &info, "app/main.py").unwrap();
    assert_eq!(program.modules[0].name, "main");
    let module_method = program.methods.iter().find(|m| m.name == "__module__").unwrap();
    let kinds: Vec<InstructionKind> = module_method.body.iter().map(|i| program.instruction(*i).unwrap().kind.clone()).collect();
    assert!(kinds.iter().any(|k| matches!(k, InstructionKind::Call { callee, .. } if callee == "input")));
    assert!(kinds.iter().any(|k| matches!(k, InstructionKind::Call { callee, args, .. } if callee == "eval" && args == &vec![Operand::Var("x".to_string())])));
}

#[test]
fn class_instantiation_lowers_to_allocation() {
    let code = "class Box:\n    pass\nb = Box()\n";
    let cst = parse_python(code).unwrap();
    let info = resolve_semantics(&cst);
    let program = PythonFrontend.lower(code, &info, "m.py").unwrap();
    let module_method = program.methods.iter().find(|m| m.name == "__module__").unwrap();
    let kinds: Vec<InstructionKind> = module_method.body.iter().map(|i| program.instruction(*i).unwrap().kind.clone()).collect();
    assert!(kinds.iter().any(|k| matches!(k, InstructionKind::Alloc { class_name, .. } if class_name == "Box")));
}

#[test]
fn an_if_statement_branches_over_its_body() {
    let code = "def f(c):\n    if c:\n        a()\n";
    let cst = parse_python(code).unwrap();
    let info = resolve_semantics(&cst);
    let program = PythonFrontend.lower(code, &info, "m.py").unwrap();
    let method = program.methods.iter().find(|m| m.name == "f").unwrap();
    let kinds: Vec<InstructionKind> = method.body.iter().map(|i| program.instruction(*i).unwrap().kind.clone()).collect();
    let branch = kinds.iter().position(|k| matches!(k, InstructionKind::Branch { cond, .. } if cond == &Operand::Var("c".to_string()))).unwrap();
    let jump = kinds.iter().position(|k| matches!(k, InstructionKind::Jump { .. })).unwrap();
    let call = kinds.iter().position(|k| matches!(k, InstructionKind::Call { callee, .. } if callee == "a")).unwrap();
    let labels: Vec<usize> = kinds.iter().enumerate().filter(|(_, k)| matches!(k, InstructionKind::Label(_))).map(|(i, _)| i).collect();
    assert_eq!(labels.len(), 2);
    assert!(branch < jump && jump < labels[0] && labels[0] < call && call < labels[1]);
    if let (InstructionKind::Branch { target, .. }, InstructionKind::Label(l1), InstructionKind::Jump { target: exit }, InstructionKind::Label(l2)) =
        (&kinds[branch], &kinds[labels[0]], &kinds[jump], &kinds[labels[1]]) {
        assert_eq!(target, l1);
        assert_eq!(exit, l2);
        assert_ne!(l1, l2);
    } else {
        panic!("unexpected instruction kinds");
    }
}

#[test]
fn each_function_gets_its_own_body_name_and_parameters() {
    let code = "def f(a, b):\n    x = a\n\ndef g():\n    return 1\n";
    let cst = parse_python(code).unwrap();
    let info = resolve_semantics(&cst);
    let program = PythonFrontend.lower(code, &info, "m.py").unwrap();
    assert_eq!(program.methods.len(), 3);
    assert_eq!(program.methods[0].name, "__module__");
    assert!(program.methods[0].parameters.is_empty());
    assert!(program.methods[0].body.is_empty());
    assert_eq!(program.methods[1].name, "f");
    assert_eq!(program.methods[1].parameters, vec!["a".to_string(), "b".to_string()]);
    assert_eq!(program.methods[2].name, "g");
    assert!(program.methods[2].parameters.is_empty());
    let f_kinds: Vec<InstructionKind> = program.methods[1].body.iter().map(|i| program.instruction(*i).unwrap().kind.clone()).collect();
    assert_eq!(f_kinds, vec![InstructionKind::Assign { dest: Operand::Var("x".to_string()), src: Operand::Var("a".to_string()) }]);
    let g_kinds: Vec<InstructionKind> = program.methods[2].body.iter().map(|i| program.instruction(*i).unwrap().kind.clone()).collect();
    assert_eq!(g_kinds, vec![InstructionKind::Return { val: Some(Operand::Const(Constant::Int(1))) }]);
}
