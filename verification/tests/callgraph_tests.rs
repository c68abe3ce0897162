use taintflow::callgraph::{CallGraphBuilder, CallSiteId, JavaResolver, PythonResolver};
use taintflow::common::Span;
use taintflow::ir::{InstructionKind, MethodId, Operand, Program};
use taintflow::semantic::{ScopeKind, SemanticInfo, Symbol, SymbolKind};

#[test]
fn test_direct_and_recursive_calls() {
    let mut program = Program::new();
    let m_id = program.alloc_module("main".to_string(), "main.py".to_string());

    let m_greet = program.alloc_method("recursive_greet".to_string(), None, Vec::new(), Some(m_id));
    let call_inst = program.alloc_instruction(
        InstructionKind::Call {
            dest: None,
            callee: "recursive_greet".to_string(),
            args: Vec::new(),
        },
        None,
    );
    program.push_to_body(m_greet, call_inst);

    let sem_info = SemanticInfo::new();
    let builder = CallGraphBuilder::new(&program, &sem_info);
    let resolver = PythonResolver;
    let cg = builder.build(&resolver);

    assert_eq!(cg.edges.len(), 1);
    let edge = &cg.edges[0];
    assert_eq!(edge.caller, m_greet);
    assert_eq!(edge.callee, m_greet);
}

#[test]
fn test_cha_virtual_dispatch() {
    let mut program = Program::new();
    let m_id = program.alloc_module("main".to_string(), "main.py".to_string());

    let t_shape = program.alloc_type("Shape".to_string(), None, m_id);
    let m_draw_shape = program.alloc_method("draw".to_string(), Some(t_shape), Vec::new(), Some(m_id));

    let t_circle = program.alloc_type("Circle".to_string(), Some("Shape".to_string()), m_id);
    let m_draw_circle = program.alloc_method("draw".to_string(), Some(t_circle), Vec::new(), Some(m_id));

    let t_square = program.alloc_type("Square".to_string(), Some("Shape".to_string()), m_id);
    let m_draw_square = program.alloc_method("draw".to_string(), Some(t_square), Vec::new(), Some(m_id));

    let m_caller = program.alloc_method("render".to_string(), None, Vec::new(), Some(m_id));
    let callsite = program.alloc_instruction(
        InstructionKind::Call {
            dest: None,
            callee: "Shape.draw".to_string(),
            args: Vec::new(),
        },
        None,
    );
    program.push_to_body(m_caller, callsite);

    let mut sem_info = SemanticInfo::new();
    sem_info.set_superclass("Circle".to_string(), Some("Shape".to_string()));
    sem_info.set_superclass("Square".to_string(), Some("Shape".to_string()));

    let builder = CallGraphBuilder::new(&program, &sem_info);
    let resolver = JavaResolver;
    let cg = builder.build(&resolver);

    assert_eq!(cg.edges.len(), 3);

    let callees: Vec<MethodId> = cg.edges.iter().map(|e| e.callee).collect();
    assert!(callees.contains(&m_draw_shape));
    assert!(callees.contains(&m_draw_circle));
    assert!(callees.contains(&m_draw_square));
}

#[test]
fn python_constructor_and_receiver_resolution() {
    let mut program = Program::new();
    let m = program.alloc_module("m".to_string(), "m.py".to_string());
    let t = program.alloc_type("Account".to_string(), None, m);
    let init = program.alloc_method("__init__".to_string(), Some(t), vec!["self".to_string()], Some(m));
    let save = program.alloc_method("save".to_string(), Some(t), Vec::new(), Some(m));
    let other_save = program.alloc_method("save".to_string(), None, Vec::new(), Some(m));
    let main = program.alloc_method("main".to_string(), None, Vec::new(), Some(m));
    let c1 = program.alloc_instruction(InstructionKind::Call { dest: Some(Operand::Var("a".to_string())), callee: "Account".to_string(), args: Vec::new() }, None);
    let c2 = program.alloc_instruction(InstructionKind::Call { dest: None, callee: "Account.save".to_string(), args: Vec::new() }, None);
    let c3 = program.alloc_instruction(InstructionKind::Call { dest: None, callee: "x.y.z".to_string(), args: Vec::new() }, None);
    for c in [c1, c2, c3] {
        program.push_to_body(main, c);
    }
    let mut info = SemanticInfo::new();
    let scope = info.alloc_scope(ScopeKind::Function, "main".to_string(), 0);
    info.insert_symbol(scope, Symbol { name: "Account".to_string(), kind: SymbolKind::Variable, span: Span { start_line: 1, start_col: 0, end_line: 1, end_col: 1 } });
    let cg = CallGraphBuilder::new(&program, &info).build(&PythonResolver);
    assert_eq!(cg.callsite_to_callees(CallSiteId(c1)), vec![init]);
    assert_eq!(cg.callsite_to_callees(CallSiteId(c2)), vec![save]);
    assert!(cg.callsite_to_callees(CallSiteId(c3)).is_empty());
    // Without the receiver in scope, every method of that name is a target.
    let bare = SemanticInfo::new();
    let cg2 = CallGraphBuilder::new(&program, &bare).build(&PythonResolver);
    assert_eq!(cg2.callsite_to_callees(CallSiteId(c2)), vec![save, other_save]);
}

#[test]
fn java_walks_up_to_the_inherited_method() {
    let mut program = Program::new();
    let m = program.alloc_module("m".to_string(), "M.java".to_string());
    let base = program.alloc_type("Base".to_string(), None, m);
    let run = program.alloc_method("run".to_string(), Some(base), Vec::new(), Some(m));
    let _child = program.alloc_type("Child".to_string(), Some("Base".to_string()), m);
    let caller = program.alloc_method("main".to_string(), None, Vec::new(), Some(m));
    let c = program.alloc_instruction(InstructionKind::Call { dest: None, callee: "Child.run".to_string(), args: Vec::new() }, None);
    let u = program.alloc_instruction(InstructionKind::Call { dest: None, callee: "Missing.run".to_string(), args: Vec::new() }, None);
    program.push_to_body(caller, c);
    program.push_to_body(caller, u);
    let info = SemanticInfo::new();
    let cg = CallGraphBuilder::new(&program, &info).build(&JavaResolver);
    assert_eq!(cg.callsite_to_callees(CallSiteId(c)), vec![run]);
    assert_eq!(cg.callsite_to_callees(CallSiteId(u)), vec![run]);
}
