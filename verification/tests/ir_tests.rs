use taintflow::ir::{Constant, InstructionKind, Operand, Program};

#[test]
fn test_tac_constructors() {
    let mut program = Program::new();
    let module_id = program.alloc_module("main".to_string(), "main.py".to_string());
    let type_id = program.alloc_type("User".to_string(), None, module_id);
    let method_id = program.alloc_method("get_name".to_string(), Some(type_id), vec!["self".to_string()], Some(module_id));

    // t1 = alloc User
    let inst1_id = program.alloc_instruction(
        InstructionKind::Alloc { dest: Operand::Temp(1), class_name: "User".to_string() },
        None,
    );
    // t1.name = "John"
    let inst2_id = program.alloc_instruction(
        InstructionKind::HeapStore {
            base: Operand::Temp(1),
            field: "name".to_string(),
            src: Operand::Const(Constant::String("John".to_string())),
        },
        None,
    );
    // t2 = t1.name
    let inst3_id = program.alloc_instruction(
        InstructionKind::HeapLoad { dest: Operand::Temp(2), base: Operand::Temp(1), field: "name".to_string() },
        None,
    );
    // return t2
    let inst4_id = program.alloc_instruction(InstructionKind::Return { val: Some(Operand::Temp(2)) }, None);

    for id in [inst1_id, inst2_id, inst3_id, inst4_id] {
        program.push_to_body(method_id, id);
    }

    assert_eq!(program.modules.len(), 1);
    assert_eq!(program.types.len(), 1);
    assert_eq!(program.methods.len(), 1);
    assert_eq!(program.instructions.len(), 4);
}

#[test]
fn ids_follow_allocation_order() {
    let mut program = Program::new();
    let m = program.alloc_module("a".to_string(), "a.py".to_string());
    let t1 = program.alloc_type("A".to_string(), None, m);
    let t2 = program.alloc_type("B".to_string(), Some("A".to_string()), m);
    assert_eq!(t1.0, 1);
    assert_eq!(t2.0, 2);
    assert_eq!(program.modules[0].types, vec![t1, t2]);
    let f = program.alloc_field("x".to_string(), t2);
    assert_eq!(program.types[1].fields, vec![f]);
    let meth = program.alloc_method("run".to_string(), Some(t1), Vec::new(), Some(m));
    assert_eq!(program.types[0].methods, vec![meth]);
    assert_eq!(program.modules[0].methods, vec![meth]);
    assert!(program.method(meth).is_some());
    assert!(program.type_of(taintflow::ir::TypeId(7)).is_none());
}
