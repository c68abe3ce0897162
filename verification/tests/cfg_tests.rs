use taintflow::cfg::{BlockId, CfgBuilder, EdgeKind};
use taintflow::ir::{Constant, InstructionKind, Label, Operand, Program};

#[test]
fn test_cfg_construction() {
    let mut program = Program::new();

    // t1 = true
    // branch t1 goto TrueLabel
    // x = 1
    // jump ExitLabel
    // Label(TrueLabel)
    // x = 2
    // Label(ExitLabel)
    // return x

    let t1 = Operand::Temp(1);
    let x = Operand::Var("x".to_string());

    let true_lbl = Label(1);
    let exit_lbl = Label(2);

    let i1 = program.alloc_instruction(InstructionKind::Assign { dest: t1.clone(), src: Operand::Var("true".to_string()) }, None);
    let i2 = program.alloc_instruction(InstructionKind::Branch { cond: t1, target: true_lbl }, None);
    let i3 = program.alloc_instruction(InstructionKind::Assign { dest: x.clone(), src: Operand::Const(Constant::Int(1)) }, None);
    let i4 = program.alloc_instruction(InstructionKind::Jump { target: exit_lbl }, None);
    let i5 = program.alloc_instruction(InstructionKind::Label(true_lbl), None);
    let i6 = program.alloc_instruction(InstructionKind::Assign { dest: x.clone(), src: Operand::Const(Constant::Int(2)) }, None);
    let i7 = program.alloc_instruction(InstructionKind::Label(exit_lbl), None);
    let i8 = program.alloc_instruction(InstructionKind::Return { val: Some(x) }, None);

    let body = vec![i1, i2, i3, i4, i5, i6, i7, i8];
    let mut builder = CfgBuilder::new(&program);
    let cfg = builder.build(&body);

    assert_eq!(cfg.blocks.len(), 6);

    assert!(cfg.edges.iter().any(|e| e.from == BlockId(0) && e.to == BlockId(1)));
    assert!(cfg.edges.iter().any(|e| e.from == BlockId(1) && e.to == BlockId(3) && e.kind == EdgeKind::BranchTrue));
    assert!(cfg.edges.iter().any(|e| e.from == BlockId(1) && e.to == BlockId(2) && e.kind == EdgeKind::BranchFalse));
    assert!(cfg.edges.iter().any(|e| e.from == BlockId(2) && e.to == BlockId(4) && e.kind == EdgeKind::Unconditional));
    assert!(cfg.edges.iter().any(|e| e.from == BlockId(3) && e.to == BlockId(4) && e.kind == EdgeKind::Fallthrough));
    assert!(cfg.edges.iter().any(|e| e.from == BlockId(4) && e.to == BlockId(u32::MAX) && e.kind == EdgeKind::Fallthrough));
}

#[test]
fn empty_body_links_entry_to_exit() {
    let program = Program::new();
    let mut builder = CfgBuilder::new(&program);
    let cfg = builder.build(&[]);
    assert_eq!(cfg.blocks.len(), 2);
    assert_eq!(cfg.edges.len(), 1);
    assert_eq!(cfg.edges[0].from, BlockId(0));
    assert_eq!(cfg.edges[0].to, BlockId(u32::MAX));
    assert_eq!(cfg.entry, BlockId(0));
    assert_eq!(cfg.exit, BlockId(u32::MAX));
}

#[test]
fn backward_jump_is_a_loop_edge_and_ids_continue() {
    let mut program = Program::new();
    let head = Label(7);
    let l = program.alloc_instruction(InstructionKind::Label(head), None);
    let a = program.alloc_instruction(InstructionKind::Assign { dest: Operand::Temp(1), src: Operand::Temp(2) }, None);
    let j = program.alloc_instruction(InstructionKind::Jump { target: head }, None);
    let mut builder = CfgBuilder::new(&program);
    let cfg = builder.build(&[l, a, j]);
    assert_eq!(cfg.blocks.len(), 3);
    assert_eq!(cfg.blocks[2].id, BlockId(1));
    assert_eq!(cfg.blocks[2].instructions, vec![l, a, j]);
    assert_eq!(cfg.edges.len(), 2);
    assert_eq!(cfg.edges[1].from, BlockId(1));
    assert_eq!(cfg.edges[1].to, BlockId(1));
    assert_eq!(cfg.edges[1].kind, EdgeKind::LoopBack);
    // A second graph from the same builder numbers its blocks on from 2.
    let again = builder.build(&[a]);
    assert_eq!(again.blocks[2].id, BlockId(2));
    assert_eq!(again.edges[1].to, BlockId(u32::MAX));
}

#[test]
fn blocks_split_the_body_at_leaders() {
    let mut program = Program::new();
    let t1 = Operand::Temp(1);
    let x = Operand::Var("x".to_string());
    let i1 = program.alloc_instruction(InstructionKind::Assign { dest: t1.clone(), src: Operand::Var("c".to_string()) }, None);
    let i2 = program.alloc_instruction(InstructionKind::Branch { cond: t1, target: Label(1) }, None);
    let i3 = program.alloc_instruction(InstructionKind::Assign { dest: x.clone(), src: Operand::Const(Constant::Int(1)) }, None);
    let i4 = program.alloc_instruction(InstructionKind::Label(Label(1)), None);
    let i5 = program.alloc_instruction(InstructionKind::Return { val: Some(x) }, None);
    let body = vec![i1, i2, i3, i4, i5];
    let cfg = CfgBuilder::new(&program).build(&body);
    let joined: Vec<_> = cfg.blocks[2..].iter().flat_map(|b| b.instructions.iter().copied()).collect();
    assert_eq!(joined, body);
    let firsts: Vec<_> = cfg.blocks[2..].iter().map(|b| b.instructions[0]).collect();
    assert_eq!(firsts, vec![i1, i3, i4]);
    assert!(cfg.blocks[0].instructions.is_empty());
    assert!(cfg.blocks[1].instructions.is_empty());
}
