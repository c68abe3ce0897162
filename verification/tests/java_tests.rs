use taintflow::frontend::LanguageFrontend;
use taintflow::ir::{InstructionKind, Operand};
use taintflow::java::{preprocess_java, JavaFrontend};
use taintflow::semantic::SemanticInfo;

#[test]
fn test_single_line_assignment_and_call() {
    let code = "
        class App {
            void run() {
                String param = request.getParameter(\"q\");
                execute(param);
            }
        }
        ";
    let logical = preprocess_java(code);
    assert!(!logical.is_empty());
    assert!(logical.iter().any(|l| l.text.contains("getParameter")));
}

#[test]
fn test_multi_line_chained_call() {
    let code = "
        class App {
            void run() {
                response.getWriter()
                    .println(x);
            }
        }
        ";
    let logical = preprocess_java(code);
    let target = logical.iter().find(|l| l.text.contains("getWriter"));
    assert!(target.is_some());
    let joined = &target.unwrap().text;
    assert!(joined.contains("println"));
    assert_eq!(target.unwrap().span.start_line, 4);
    assert_eq!(target.unwrap().span.end_line, 5);
}

#[test]
fn test_multi_line_sql_construction() {
    let code = "
        class App {
            void run() {
                String sql = \"SELECT * \"
                    + \"FROM users \"
                    + \"WHERE id = \" + id;
            }
        }
        ";
    let logical = preprocess_java(code);
    let target = logical.iter().find(|l| l.text.contains("SELECT"));
    assert!(target.is_some());
    let joined = &target.unwrap().text;
    assert!(joined.contains("FROM"));
    assert!(joined.contains("WHERE"));
    assert_eq!(target.unwrap().span.start_line, 4);
    assert_eq!(target.unwrap().span.end_line, 6);
}

#[test]
fn test_nested_method_invocation() {
    let code = "
        class App {
            void run() {
                bar = new String(
                    Base64.decodeBase64(
                        Base64.encodeBase64(param.getBytes())
                    )
                );
            }
        }
        ";
    let logical = preprocess_java(code);
    let target = logical.iter().find(|l| l.text.contains("new String"));
    assert!(target.is_some());
    let joined = &target.unwrap().text;
    assert!(joined.contains("decodeBase64"));
    assert!(joined.contains("encodeBase64"));
    assert_eq!(target.unwrap().span.start_line, 4);
    assert_eq!(target.unwrap().span.end_line, 8);
}

#[test]
fn comments_are_dropped_and_lines_are_trimmed() {
    let code = "int a = 1; // note; here\n/* block; */ b = a;\r\n  tail  ";
    let logical = preprocess_java(code);
    let texts: Vec<&str> = logical.iter().map(|l| l.text.as_str()).collect();
    assert_eq!(texts, vec!["int a = 1;", "b = a;", "tail"]);
    assert_eq!(logical[0].span.start_line, 1);
    assert_eq!(logical[0].span.start_col, 1);
    assert_eq!(logical[0].span.end_col, 10);
    assert_eq!(logical[1].span.start_line, 2);
    assert_eq!(logical[2].span.start_line, 3);
}

#[test]
fn strings_keep_their_delimiters_and_escapes() {
    let logical = preprocess_java("s = \"a;b\\\"c\";");
    assert_eq!(logical.len(), 1);
    assert_eq!(logical[0].text, "s = \"a;b\\\"c\";");
}

fn lowered_calls(code: &str) -> Vec<taintflow::ir::Instruction> {
    let frontend = JavaFrontend;
    let program = frontend.lower(code, &SemanticInfo::new(), "App.java").unwrap();
    let run_method = program.methods.iter().find(|m| m.name == "run").unwrap();
    let mut insts = Vec::new();
    for inst_id in &run_method.body {
        if let Some(inst) = program.instruction(*inst_id) {
            insts.push(inst.clone());
        }
    }
    insts
}

fn call_args<'a>(insts: &'a [taintflow::ir::Instruction], name: &str) -> &'a Vec<Operand> {
    let call = insts
        .iter()
        .find(|i| matches!(&i.kind, InstructionKind::Call { callee, .. } if callee == name))
        .unwrap();
    match &call.kind {
        InstructionKind::Call { args, .. } => args,
        _ => unreachable!(),
    }
}

#[test]
fn test_receiver_normalization_static_and_instance() {
    let code = "
        class App {
            void run() {
                String val = URLDecoder.decode(param, \"UTF-8\");
                response.setContentType(\"text/html\");
                ps.execute();
                pb.start();
                Runtime.getRuntime().exec(cmd);
            }
        }
        ";
    let insts = lowered_calls(code);

    let args = call_args(&insts, "URLDecoder.decode");
    assert_eq!(args.len(), 2);
    assert_eq!(args[0], Operand::Var("param".to_string()));
    assert_eq!(args[1], Operand::Var("UTF".to_string()));

    let args = call_args(&insts, "setContentType");
    assert_eq!(args.len(), 3);
    assert_eq!(args[0], Operand::Var("response".to_string()));
    assert_eq!(args[1], Operand::Var("text".to_string()));
    assert_eq!(args[2], Operand::Var("html".to_string()));

    let args = call_args(&insts, "execute");
    assert_eq!(args.len(), 1);
    assert_eq!(args[0], Operand::Var("ps".to_string()));

    let args = call_args(&insts, "start");
    assert_eq!(args.len(), 1);
    assert_eq!(args[0], Operand::Var("pb".to_string()));

    let args = call_args(&insts, "exec");
    assert_eq!(args.len(), 1);
    assert_eq!(args[0], Operand::Var("cmd".to_string()));
}

#[test]
fn lowering_names_module_after_file_and_records_class() {
    let code = "class Shop {\n    public void buy(String item, int n) {\n        String q = \"a\" + item;\n    }\n}\n";
    let program = JavaFrontend.lower(code, &SemanticInfo::new(), "src/Shop.java").unwrap();
    assert_eq!(program.modules.len(), 1);
    assert_eq!(program.modules[0].name, "Shop");
    assert_eq!(program.modules[0].file_path, "src/Shop.java");
    assert_eq!(program.types.len(), 1);
    assert_eq!(program.types[0].name, "Shop");
    let buy = program.methods.iter().find(|m| m.name == "buy").unwrap();
    assert_eq!(buy.parameters, vec!["item".to_string(), "n".to_string()]);
    assert_eq!(buy.parent_type_id, Some(program.types[0].id));
    let kinds: Vec<InstructionKind> = buy.body.iter().map(|i| program.instruction(*i).unwrap().kind.clone()).collect();
    assert!(kinds.contains(&InstructionKind::Assign { dest: Operand::Var("q".to_string()), src: Operand::Var("item".to_string()) }));
}

#[test]
fn enhanced_for_assigns_collection_to_item() {
    let code = "class A {\n    void run() {\n        for (int s : names) {\n        }\n    }\n}\n";
    let program = JavaFrontend.lower(code, &SemanticInfo::new(), "A.java").unwrap();
    let run = program.methods.iter().find(|m| m.name == "run").unwrap();
    let kinds: Vec<InstructionKind> = run.body.iter().map(|i| program.instruction(*i).unwrap().kind.clone()).collect();
    assert!(kinds.contains(&InstructionKind::Assign { dest: Operand::Var("s".to_string()), src: Operand::Var("names".to_string()) }));
}

#[test]
fn statements_end_at_terminators_and_spans_run_forward() {
    let logical = preprocess_java("a = b; // c;");
    assert_eq!(logical.len(), 1);
    assert_eq!(logical[0].text, "a = b;");
    assert_eq!(
        (logical[0].span.start_line, logical[0].span.start_col, logical[0].span.end_line, logical[0].span.end_col),
        (1, 1, 1, 6)
    );
    let logical = preprocess_java("class A {\n  void f() {\n    g(\n      x);\n  }\n}\nrest");
    for l in &logical[..logical.len() - 1] {
        assert!(l.text.ends_with(';') || l.text.ends_with('{') || l.text.ends_with('}'));
    }
    for l in &logical {
        assert!(l.span.start_line <= l.span.end_line);
    }
    assert_eq!(logical.last().unwrap().text, "rest");
}
