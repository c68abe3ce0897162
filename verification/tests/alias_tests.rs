use taintflow::accesspath::{AccessPath, PathRoot};
use taintflow::alias::{join, operand_to_access_path, AliasEngine, AliasState};
use taintflow::pointsto::{HeapObject, PointsToSet};
use taintflow::callgraph::{CallGraphBuilder, PythonResolver};
use taintflow::cfg::{BasicBlock, BlockId, CfgBuilder, CfgEdge, ControlFlowGraph, EdgeKind};
use taintflow::icfg::{IcfgBuilder, IcfgEdgeKind, IcfgNode};
use taintflow::ir::{Constant, InstructionKind, MethodId, Operand, Program};
use taintflow::semantic::SemanticInfo;

fn var(name: &str) -> Operand {
    Operand::Var(name.to_string())
}

fn local(name: &str) -> AccessPath {
    AccessPath::new(PathRoot::Local(name.to_string()))
}

#[test]
fn test_flow_sensitive_local_alias() {
    let mut program = Program::new();
    let m_id = program.alloc_module("main".to_string(), "main.py".to_string());
    let m_main = program.alloc_method("main".to_string(), None, Vec::new(), Some(m_id));

    let i_alloc = program.alloc_instruction(
        InstructionKind::Alloc { dest: var("x"), class_name: "User".to_string() },
        None,
    );
    let i_assign = program.alloc_instruction(InstructionKind::Assign { dest: var("y"), src: var("x") }, None);
    program.push_to_body(m_main, i_alloc);
    program.push_to_body(m_main, i_assign);

    let mut cfgs: Vec<(MethodId, ControlFlowGraph)> = Vec::new();
    let mut cfg_builder = CfgBuilder::new(&program);
    let body = program.method(m_main).unwrap().body.clone();
    cfgs.push((m_main, cfg_builder.build(&body)));

    let sem_info = SemanticInfo::new();
    let cg = CallGraphBuilder::new(&program, &sem_info).build(&PythonResolver);

    let icfg = IcfgBuilder::new(&program, &cg, &cfgs).build();
    let engine = AliasEngine::new(&program, &icfg);
    let result = engine.run();

    let node_assign = IcfgNode::Instruction(i_assign);
    assert!(result.may_alias(&node_assign, &local("x"), &local("y")));
    assert!(result.must_alias(&node_assign, &local("x"), &local("y")));
}

fn block(id: u32, instructions: Vec<taintflow::ir::InstructionId>) -> BasicBlock {
    BasicBlock { id: BlockId(id), instructions }
}

fn edge(from: u32, to: u32) -> CfgEdge {
    CfgEdge { from: BlockId(from), to: BlockId(to), kind: EdgeKind::Fallthrough }
}

#[test]
fn test_diamond_cfg_merge() {
    let mut program = Program::new();
    let m_id = program.alloc_module("main".to_string(), "main.py".to_string());
    let m_main = program.alloc_method("main".to_string(), None, Vec::new(), Some(m_id));

    let i_start = program.alloc_instruction(
        InstructionKind::Assign { dest: var("z"), src: Operand::Const(Constant::Int(0)) },
        None,
    );
    let i_alloc1 = program.alloc_instruction(
        InstructionKind::Alloc { dest: var("x"), class_name: "A".to_string() },
        None,
    );
    let i_alloc2 = program.alloc_instruction(
        InstructionKind::Alloc { dest: var("x"), class_name: "B".to_string() },
        None,
    );
    let i_assign = program.alloc_instruction(InstructionKind::Assign { dest: var("y"), src: var("x") }, None);
    for i in [i_start, i_alloc1, i_alloc2, i_assign] {
        program.push_to_body(m_main, i);
    }

    let cfg = ControlFlowGraph {
        blocks: vec![
            block(0, Vec::new()),
            block(1, vec![i_start]),
            block(2, vec![i_alloc1]),
            block(3, vec![i_alloc2]),
            block(4, vec![i_assign]),
            block(u32::MAX, Vec::new()),
        ],
        edges: vec![edge(0, 1), edge(1, 2), edge(1, 3), edge(2, 4), edge(3, 4), edge(4, u32::MAX)],
        entry: BlockId(0),
        exit: BlockId(u32::MAX),
    };
    let cfgs: Vec<(MethodId, ControlFlowGraph)> = vec![(m_main, cfg)];

    let sem_info = SemanticInfo::new();
    let cg = CallGraphBuilder::new(&program, &sem_info).build(&PythonResolver);

    let icfg = IcfgBuilder::new(&program, &cg, &cfgs).build();
    let engine = AliasEngine::new(&program, &icfg);
    let result = engine.run();

    let pts = result.lookup(&IcfgNode::Instruction(i_assign), &local("y"));
    // both allocation points reach the join
    assert_eq!(pts.len(), 2);
}

#[test]
fn test_icfg_direct_call_return() {
    let mut program = Program::new();
    let m_id = program.alloc_module("main".to_string(), "main.py".to_string());

    let m_greet = program.alloc_method("greet".to_string(), None, Vec::new(), Some(m_id));
    let i_ret = program.alloc_instruction(
        InstructionKind::Return { val: Some(Operand::Const(Constant::String("hello".to_string()))) },
        None,
    );
    program.push_to_body(m_greet, i_ret);

    let m_main = program.alloc_method("main".to_string(), None, Vec::new(), Some(m_id));
    let i_call = program.alloc_instruction(
        InstructionKind::Call { dest: Some(var("x")), callee: "greet".to_string(), args: Vec::new() },
        None,
    );
    let i_next = program.alloc_instruction(InstructionKind::Return { val: None }, None);
    program.push_to_body(m_main, i_call);
    program.push_to_body(m_main, i_next);

    let mut cfgs: Vec<(MethodId, ControlFlowGraph)> = Vec::new();
    let mut builder_cfg = CfgBuilder::new(&program);
    let greet_body = program.method(m_greet).unwrap().body.clone();
    let main_body = program.method(m_main).unwrap().body.clone();
    cfgs.push((m_greet, builder_cfg.build(&greet_body)));
    cfgs.push((m_main, builder_cfg.build(&main_body)));

    let sem_info = SemanticInfo::new();
    let cg = CallGraphBuilder::new(&program, &sem_info).build(&PythonResolver);
    let icfg = IcfgBuilder::new(&program, &cg, &cfgs).build();

    let call_node = IcfgNode::Instruction(i_call);
    let next_node = IcfgNode::Instruction(i_next);
    assert!(icfg.edges.iter().any(|e| e.from == call_node && e.to == next_node && e.kind == IcfgEdgeKind::CallToReturn));

    let callee_entry = IcfgNode::Entry(m_greet);
    assert!(icfg.edges.iter().any(|e| e.from == call_node && e.to == callee_entry && e.kind == IcfgEdgeKind::Call));

    let callee_exit = IcfgNode::Exit(m_greet);
    assert!(icfg.edges.iter().any(|e| e.from == callee_exit && e.to == next_node && e.kind == IcfgEdgeKind::Return));
}

#[test]
fn alias_kill_on_reassignment() {
    // x = A; y = x; x = B  -> y keeps A, x now B: no must-alias after the reassignment
    let mut program = Program::new();
    let m_id = program.alloc_module("main".to_string(), "main.py".to_string());
    let m_main = program.alloc_method("main".to_string(), None, Vec::new(), Some(m_id));
    let i1 = program.alloc_instruction(InstructionKind::Alloc { dest: var("x"), class_name: "A".to_string() }, None);
    let i2 = program.alloc_instruction(InstructionKind::Assign { dest: var("y"), src: var("x") }, None);
    let i3 = program.alloc_instruction(InstructionKind::Alloc { dest: var("x"), class_name: "B".to_string() }, None);
    let i4 = program.alloc_instruction(InstructionKind::Return { val: None }, None);
    for i in [i1, i2, i3, i4] {
        program.push_to_body(m_main, i);
    }
    let mut cfg_builder = CfgBuilder::new(&program);
    let body = program.method(m_main).unwrap().body.clone();
    let cfgs = vec![(m_main, cfg_builder.build(&body))];
    let sem_info = SemanticInfo::new();
    let cg = CallGraphBuilder::new(&program, &sem_info).build(&PythonResolver);
    let icfg = IcfgBuilder::new(&program, &cg, &cfgs).build();
    let result = AliasEngine::new(&program, &icfg).run();
    let at_ret = IcfgNode::Instruction(i4);
    assert!(!result.may_alias(&at_ret, &local("x"), &local("y")));
    assert_eq!(result.lookup(&at_ret, &local("y")).len(), 1);
}

#[test]
fn constant_operands_become_roots_named_by_their_debug_text() {
    let cases = vec![
        (Constant::String("x".to_string()), "String(\"x\")"),
        (Constant::String("a\"b".to_string()), "String(\"a\\\"b\")"),
        (Constant::Int(-5), "Int(-5)"),
        (Constant::Float("1.5".to_string()), "Float(\"1.5\")"),
        (Constant::Bool(true), "Bool(true)"),
        (Constant::Null, "Null"),
    ];
    for (c, text) in cases {
        let ap = operand_to_access_path(&Operand::Const(c));
        assert_eq!(ap.root, PathRoot::Constant(text.to_string()));
        assert!(ap.segments.is_empty());
    }
    let distinct_a = operand_to_access_path(&Operand::Const(Constant::String("a".to_string())));
    let distinct_b = operand_to_access_path(&Operand::Const(Constant::String("b".to_string())));
    assert_ne!(distinct_a, distinct_b);
}

#[test]
fn joining_states_is_commutative() {
    let obj = |n: &str| HeapObject::Synthetic { name: n.to_string(), type_id: None };
    let mut a = AliasState::new();
    a.insert(local("x"), PointsToSet::singleton(obj("o1")));
    a.insert(local("y"), PointsToSet::singleton(obj("o2")));
    let mut b = AliasState::new();
    b.insert(local("x"), PointsToSet::singleton(obj("o3")));
    b.insert(local("z"), PointsToSet::singleton(obj("o4")));
    let ab = join(&a, &b, None);
    let ba = join(&b, &a, None);
    for p in ["x", "y", "z", "w"] {
        assert_eq!(ab.lookup(&local(p)), ba.lookup(&local(p)));
    }
    assert_eq!(ab.lookup(&local("x")), PointsToSet::singleton(obj("o1")).insert(obj("o3")));
}
