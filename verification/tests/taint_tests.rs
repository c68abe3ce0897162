use taintflow::accesspath::{AccessPath, PathRoot};
use taintflow::alias::{AliasEngine, AliasResult};
use taintflow::callgraph::{CallGraphBuilder, PythonResolver};
use taintflow::cfg::{CfgBuilder, ControlFlowGraph};
use taintflow::icfg::{IcfgBuilder, IcfgNode, InterproceduralFlowGraph};
use taintflow::ir::{InstructionKind, MethodId, Operand, Program};
use taintflow::rules::{default_registry, default_rule_pack, Matcher, Rule, RuleKind, RulePack, RuleRegistry, Severity};
use taintflow::semantic::SemanticInfo;
use taintflow::solver::DataFlowFact;
use taintflow::taint::{TaintAnalysis, TaintResults};

fn build_cfgs(program: &Program) -> Vec<(MethodId, ControlFlowGraph)> {
    let mut cfgs = Vec::new();
    let mut cfg_builder = CfgBuilder::new(program);
    for method in &program.methods {
        cfgs.push((method.id, cfg_builder.build(&method.body)));
    }
    cfgs
}

fn setup(program: &Program, cfgs: &Vec<(MethodId, ControlFlowGraph)>) -> (InterproceduralFlowGraph, AliasResult) {
    let sem_info = SemanticInfo::new();
    let cg = CallGraphBuilder::new(program, &sem_info).build(&PythonResolver);
    let icfg = IcfgBuilder::new(program, &cg, cfgs).build();
    let alias_result = AliasEngine::new(program, &icfg).run();
    (icfg, alias_result)
}

fn build_analysis(
    program: &Program,
    icfg: &InterproceduralFlowGraph,
    alias_result: &AliasResult,
    rules: &RuleRegistry,
    entry: MethodId,
) -> TaintResults {
    TaintAnalysis::new(program, icfg, alias_result, rules, vec![entry]).run()
}

fn rule(id: &str, name: &str, kind: RuleKind, severity: Severity) -> Rule {
    Rule {
        id: id.to_string(),
        name: name.to_string(),
        kind,
        language: None,
        cwe: None,
        severity,
        category: None,
        description: None,
        matcher: Matcher::FunctionName(name.to_string()),
    }
}

fn source_registry() -> RuleRegistry {
    let mut rules = RuleRegistry::new();
    let mut pack = RulePack::new("test");
    pack.add_rule(rule("t-src-001", "source", RuleKind::Source, Severity::High));
    rules.load(&pack);
    rules
}

fn call(dest: Option<&str>, callee: &str, args: &[&str]) -> InstructionKind {
    InstructionKind::Call {
        dest: dest.map(|d| Operand::Var(d.to_string())),
        callee: callee.to_string(),
        args: args.iter().map(|a| Operand::Var(a.to_string())).collect(),
    }
}

fn var(name: &str) -> Operand {
    Operand::Var(name.to_string())
}

fn local(name: &str) -> DataFlowFact<AccessPath> {
    DataFlowFact::Fact(AccessPath::new(PathRoot::Local(name.to_string())))
}


#[test]
fn test_source_recognition_via_rules() {
    let rules = default_registry();
    assert!(rules.is_source("input"));
    assert!(!rules.is_source("eval"));
}

#[test]
fn test_sink_recognition_via_rules() {
    let rules = default_registry();
    assert!(rules.is_sink("eval"));
    assert!(!rules.is_sink("input"));
}

#[test]
fn test_sanitizer_recognition_via_rules() {
    let rules = default_registry();
    assert!(rules.is_sanitizer("html.escape"));
    assert!(!rules.is_sanitizer("eval"));
}

#[test]
fn test_default_rules_source_is_input() {
    let rules = default_registry();
    assert!(rules.is_source("input"));
}

#[test]
fn test_default_rules_sink_is_eval() {
    let rules = default_registry();
    assert!(rules.is_sink("eval"));
}

#[test]
fn test_default_rules_sanitizer_is_html_escape() {
    let rules = default_registry();
    assert!(rules.is_sanitizer("html.escape"));
}

#[test]
fn test_simple_assignment_taint() {
    let mut program = Program::new();
    let m_id = program.alloc_module("main".to_string(), "main.py".to_string());
    let m_main = program.alloc_method("main".to_string(), None, Vec::new(), Some(m_id));
    let i_source = program.alloc_instruction(call(Some("x"), "source", &[]), None);
    let i_assign = program.alloc_instruction(InstructionKind::Assign { dest: var("y"), src: var("x") }, None);
    program.push_to_body(m_main, i_source);
    program.push_to_body(m_main, i_assign);

    let rules = source_registry();
    let cfgs = build_cfgs(&program);
    let (icfg, alias_result) = setup(&program, &cfgs);
    let results = build_analysis(&program, &icfg, &alias_result, &rules, m_main);

    let active_facts = results.get(&IcfgNode::Exit(m_main)).unwrap();
    assert!(active_facts.contains(&local("y")));
}

#[test]
fn test_heap_store() {
    let mut program = Program::new();
    let m_id = program.alloc_module("main".to_string(), "main.py".to_string());
    let m_main = program.alloc_method("main".to_string(), None, Vec::new(), Some(m_id));
    let i_source = program.alloc_instruction(call(Some("x"), "source", &[]), None);
    let i_store = program.alloc_instruction(InstructionKind::HeapStore { base: var("obj"), field: "f".to_string(), src: var("x") }, None);
    program.push_to_body(m_main, i_source);
    program.push_to_body(m_main, i_store);

    let rules = source_registry();
    let cfgs = build_cfgs(&program);
    let (icfg, alias_result) = setup(&program, &cfgs);
    let results = build_analysis(&program, &icfg, &alias_result, &rules, m_main);

    let ap_obj_f = AccessPath::new(PathRoot::Local("obj".to_string())).append_field("f".to_string());
    assert!(results.get(&IcfgNode::Exit(m_main)).unwrap().contains(&DataFlowFact::Fact(ap_obj_f)));
}

#[test]
fn test_heap_load() {
    let mut program = Program::new();
    let m_id = program.alloc_module("main".to_string(), "main.py".to_string());
    let m_main = program.alloc_method("main".to_string(), None, Vec::new(), Some(m_id));
    let i_source = program.alloc_instruction(call(Some("x"), "source", &[]), None);
    let i_store = program.alloc_instruction(InstructionKind::HeapStore { base: var("obj"), field: "f".to_string(), src: var("x") }, None);
    let i_load = program.alloc_instruction(InstructionKind::HeapLoad { dest: var("y"), base: var("obj"), field: "f".to_string() }, None);
    program.push_to_body(m_main, i_source);
    program.push_to_body(m_main, i_store);
    program.push_to_body(m_main, i_load);

    let rules = source_registry();
    let cfgs = build_cfgs(&program);
    let (icfg, alias_result) = setup(&program, &cfgs);
    let results = build_analysis(&program, &icfg, &alias_result, &rules, m_main);

    assert!(results.get(&IcfgNode::Exit(m_main)).unwrap().contains(&local("y")));
}

#[test]
fn test_alias_propagation() {
    let mut program = Program::new();
    let m_id = program.alloc_module("main".to_string(), "main.py".to_string());
    let m_main = program.alloc_method("main".to_string(), None, Vec::new(), Some(m_id));
    let i_alloc = program.alloc_instruction(InstructionKind::Alloc { dest: var("a"), class_name: "Obj".to_string() }, None);
    let i_assign_b = program.alloc_instruction(InstructionKind::Assign { dest: var("b"), src: var("a") }, None);
    let i_source = program.alloc_instruction(call(Some("x"), "source", &[]), None);
    let i_store = program.alloc_instruction(InstructionKind::HeapStore { base: var("a"), field: "f".to_string(), src: var("x") }, None);
    let i_load = program.alloc_instruction(InstructionKind::HeapLoad { dest: var("y"), base: var("b"), field: "f".to_string() }, None);
    for i in [i_alloc, i_assign_b, i_source, i_store, i_load] {
        program.push_to_body(m_main, i);
    }

    let rules = source_registry();
    let cfgs = build_cfgs(&program);
    let (icfg, alias_result) = setup(&program, &cfgs);
    let results = build_analysis(&program, &icfg, &alias_result, &rules, m_main);

    assert!(results.get(&IcfgNode::Exit(m_main)).unwrap().contains(&local("y")));
}

#[test]
fn test_call_return_flow() {
    let mut program = Program::new();
    let m_id = program.alloc_module("main".to_string(), "main.py".to_string());
    let m_identity = program.alloc_method("identity".to_string(), None, vec!["p".to_string()], Some(m_id));
    let i_ret = program.alloc_instruction(InstructionKind::Return { val: Some(var("p")) }, None);
    program.push_to_body(m_identity, i_ret);
    let m_main = program.alloc_method("main".to_string(), None, Vec::new(), Some(m_id));
    let i_source = program.alloc_instruction(call(Some("x"), "source", &[]), None);
    let i_call = program.alloc_instruction(call(Some("y"), "identity", &["x"]), None);
    program.push_to_body(m_main, i_source);
    program.push_to_body(m_main, i_call);

    let rules = source_registry();
    let cfgs = build_cfgs(&program);
    let (icfg, alias_result) = setup(&program, &cfgs);
    let results = build_analysis(&program, &icfg, &alias_result, &rules, m_main);

    assert!(results.get(&IcfgNode::Exit(m_main)).unwrap().contains(&local("y")));
}

#[test]
fn test_call_to_return_bypass() {
    let mut program = Program::new();
    let m_id = program.alloc_module("main".to_string(), "main.py".to_string());
    let m_identity = program.alloc_method("identity".to_string(), None, vec!["p".to_string()], Some(m_id));
    let i_ret = program.alloc_instruction(InstructionKind::Return { val: Some(var("p")) }, None);
    program.push_to_body(m_identity, i_ret);
    let m_main = program.alloc_method("main".to_string(), None, Vec::new(), Some(m_id));
    let i_source_x = program.alloc_instruction(call(Some("x"), "source", &[]), None);
    let i_source_z = program.alloc_instruction(call(Some("z"), "source", &[]), None);
    let i_call = program.alloc_instruction(call(Some("y"), "identity", &["x"]), None);
    for i in [i_source_x, i_source_z, i_call] {
        program.push_to_body(m_main, i);
    }

    let rules = source_registry();
    let cfgs = build_cfgs(&program);
    let (icfg, alias_result) = setup(&program, &cfgs);
    let results = build_analysis(&program, &icfg, &alias_result, &rules, m_main);

    assert!(results.get(&IcfgNode::Exit(m_main)).unwrap().contains(&local("z")));
}

#[test]
fn test_recursive_functions() {
    let mut program = Program::new();
    let m_id = program.alloc_module("main".to_string(), "main.py".to_string());
    let m_rec = program.alloc_method("rec".to_string(), None, vec!["p".to_string()], Some(m_id));
    let i_call_rec = program.alloc_instruction(call(Some("x"), "rec", &["p"]), None);
    let i_ret = program.alloc_instruction(InstructionKind::Return { val: Some(var("p")) }, None);
    program.push_to_body(m_rec, i_call_rec);
    program.push_to_body(m_rec, i_ret);
    let m_main = program.alloc_method("main".to_string(), None, Vec::new(), Some(m_id));
    let i_source = program.alloc_instruction(call(Some("x"), "source", &[]), None);
    let i_call = program.alloc_instruction(call(Some("y"), "rec", &["x"]), None);
    program.push_to_body(m_main, i_source);
    program.push_to_body(m_main, i_call);

    let rules = source_registry();
    let cfgs = build_cfgs(&program);
    let (icfg, alias_result) = setup(&program, &cfgs);
    let results = build_analysis(&program, &icfg, &alias_result, &rules, m_main);

    assert!(results.get(&IcfgNode::Exit(m_main)).unwrap().contains(&local("y")));
}

#[test]
fn test_arrays() {
    let mut program = Program::new();
    let m_id = program.alloc_module("main".to_string(), "main.py".to_string());
    let m_main = program.alloc_method("main".to_string(), None, Vec::new(), Some(m_id));
    let i_source = program.alloc_instruction(call(Some("x"), "source", &[]), None);
    let i_store = program.alloc_instruction(InstructionKind::HeapStore { base: var("arr"), field: "[*]".to_string(), src: var("x") }, None);
    let i_load = program.alloc_instruction(InstructionKind::HeapLoad { dest: var("y"), base: var("arr"), field: "[*]".to_string() }, None);
    for i in [i_source, i_store, i_load] {
        program.push_to_body(m_main, i);
    }

    let rules = source_registry();
    let cfgs = build_cfgs(&program);
    let (icfg, alias_result) = setup(&program, &cfgs);
    let results = build_analysis(&program, &icfg, &alias_result, &rules, m_main);

    assert!(results.get(&IcfgNode::Exit(m_main)).unwrap().contains(&local("y")));
}

#[test]
fn test_sanitizer() {
    let mut program = Program::new();
    let m_id = program.alloc_module("main".to_string(), "main.py".to_string());
    let m_main = program.alloc_method("main".to_string(), None, Vec::new(), Some(m_id));
    let i_source = program.alloc_instruction(call(Some("x"), "source", &[]), None);
    let i_sanitize = program.alloc_instruction(call(Some("y"), "sanitize", &["x"]), None);
    program.push_to_body(m_main, i_source);
    program.push_to_body(m_main, i_sanitize);

    let mut rules = RuleRegistry::new();
    let mut pack = RulePack::new("test");
    pack.add_rule(rule("t-src-001", "source", RuleKind::Source, Severity::High));
    pack.add_rule(rule("t-san-001", "sanitize", RuleKind::Sanitizer, Severity::Info));
    rules.load(&pack);

    let cfgs = build_cfgs(&program);
    let (icfg, alias_result) = setup(&program, &cfgs);
    let results = build_analysis(&program, &icfg, &alias_result, &rules, m_main);

    assert!(!results.get(&IcfgNode::Exit(m_main)).unwrap().contains(&local("y")));
}

#[test]
fn test_rule_driven_sink_reporting() {
    let mut program = Program::new();
    let m_id = program.alloc_module("main".to_string(), "main.py".to_string());
    let m_main = program.alloc_method("main".to_string(), None, Vec::new(), Some(m_id));
    let i_source = program.alloc_instruction(call(Some("x"), "source", &[]), None);
    let i_sink = program.alloc_instruction(call(None, "eval", &["x"]), None);
    program.push_to_body(m_main, i_source);
    program.push_to_body(m_main, i_sink);

    let mut rules = RuleRegistry::new();
    let pack = default_rule_pack();
    rules.load(&pack);
    let mut pack2 = RulePack::new("test-extra");
    pack2.add_rule(rule("t-src-001", "source", RuleKind::Source, Severity::High));
    rules.load(&pack2);

    let cfgs = build_cfgs(&program);
    let (icfg, alias_result) = setup(&program, &cfgs);

    let analysis = TaintAnalysis::new(&program, &icfg, &alias_result, &rules, vec![m_main]);
    let (_results, findings) = analysis.run_with_findings();
    assert!(!findings.is_empty(), "expected at least one finding at eval()");
    assert_eq!(findings[0].rule_id, "py-sink-001");
}

fn receiver_mutation_findings(propagator: &str, args: &[&str], receiver: &str) -> usize {
    let mut program = Program::new();
    let m_id = program.alloc_module("main".to_string(), "main.py".to_string());
    let m_main = program.alloc_method("main".to_string(), None, Vec::new(), Some(m_id));
    let i_source = program.alloc_instruction(call(Some("userInput"), "source", &[]), None);
    let i_prop = program.alloc_instruction(call(None, propagator, args), None);
    let i_sink = program.alloc_instruction(call(None, "eval", &[receiver]), None);
    for i in [i_source, i_prop, i_sink] {
        program.push_to_body(m_main, i);
    }

    let mut rules = RuleRegistry::new();
    let mut pack = RulePack::new("test");
    pack.add_rule(rule("t-src", "source", RuleKind::Source, Severity::High));
    pack.add_rule(rule("t-prop", propagator, RuleKind::Propagator, Severity::Info));
    pack.add_rule(rule("t-sink", "eval", RuleKind::Sink, Severity::High));
    rules.load(&pack);

    let cfgs = build_cfgs(&program);
    let (icfg, alias_result) = setup(&program, &cfgs);
    let analysis = TaintAnalysis::new(&program, &icfg, &alias_result, &rules, vec![m_main]);
    let (_results, findings) = analysis.run_with_findings();
    findings.len()
}

#[test]
fn test_receiver_mutating_propagation_list() {
    assert!(receiver_mutation_findings("add", &["list", "userInput"], "list") > 0,
        "Expected list.add() to propagate taint to list and trigger eval(list)");
}

#[test]
fn test_receiver_mutating_propagation_map() {
    assert!(receiver_mutation_findings("put", &["map", "key", "userInput"], "map") > 0,
        "Expected map.put() to propagate taint to map and trigger eval(map)");
}

#[test]
fn test_receiver_mutating_propagation_stringbuilder() {
    assert!(receiver_mutation_findings("append", &["sb", "userInput"], "sb") > 0,
        "Expected sb.append() to propagate taint to sb and trigger eval(sb)");
}

#[test]
fn test_receiver_mutating_propagation_processbuilder() {
    assert!(receiver_mutation_findings("command", &["pb", "userInput"], "pb") > 0,
        "Expected pb.command() to propagate taint to pb and trigger eval(pb)");
}

#[test]
fn finding_fields_at_sink() {
    let mut program = Program::new();
    let m_id = program.alloc_module("main".to_string(), "main.py".to_string());
    let m_main = program.alloc_method("main".to_string(), None, Vec::new(), Some(m_id));
    let i_source = program.alloc_instruction(call(Some("x"), "source", &[]), None);
    let i_sink = program.alloc_instruction(call(None, "eval", &["x"]), None);
    program.push_to_body(m_main, i_source);
    program.push_to_body(m_main, i_sink);

    let mut rules = RuleRegistry::new();
    let mut pack = RulePack::new("test");
    pack.add_rule(rule("t-src", "source", RuleKind::Source, Severity::High));
    pack.add_rule(rule("t-sink", "eval", RuleKind::Sink, Severity::Critical));
    rules.load(&pack);

    let cfgs = build_cfgs(&program);
    let (icfg, alias_result) = setup(&program, &cfgs);
    let analysis = TaintAnalysis::new(&program, &icfg, &alias_result, &rules, vec![m_main]);
    let (_results, findings) = analysis.run_with_findings();
    assert_eq!(findings.len(), 1);
    assert_eq!(findings[0].rule_id, "t-sink");
    assert_eq!(findings[0].sink_location, Some(format!("inst:{}", i_sink.0)));
    assert_eq!(findings[0].access_path, "Local(\"x\")");
    assert_eq!(findings[0].severity, Severity::Critical);
    assert!(findings[0].call_trace.is_empty());
}

#[test]
fn untainted_argument_reports_nothing() {
    assert_eq!(receiver_mutation_findings("add", &["list", "other"], "list"), 0);
}

#[test]
fn seed_reaches_entry_with_zero_fact() {
    let mut program = Program::new();
    let m_id = program.alloc_module("main".to_string(), "main.py".to_string());
    let m_main = program.alloc_method("main".to_string(), None, Vec::new(), Some(m_id));
    let i_assign = program.alloc_instruction(InstructionKind::Assign { dest: var("y"), src: var("x") }, None);
    program.push_to_body(m_main, i_assign);
    let rules = source_registry();
    let cfgs = build_cfgs(&program);
    let (icfg, alias_result) = setup(&program, &cfgs);
    let results = build_analysis(&program, &icfg, &alias_result, &rules, m_main);
    let facts = results.get(&IcfgNode::Entry(m_main)).unwrap();
    assert_eq!(facts, &vec![DataFlowFact::Zero]);
    assert!(!results.get(&IcfgNode::Exit(m_main)).unwrap().contains(&local("y")));
}
