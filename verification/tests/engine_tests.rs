use taintflow::engine::{build_program, lower_source, run_phases, AnalysisConfiguration, AnalysisPipeline, EngineStatistics, SourceLanguage};
use taintflow::reporting::{Finding, ReportBuilder, Reporter};

fn analyze(config: AnalysisConfiguration, files: &[(SourceLanguage, &str, &str)]) -> Vec<Finding> {
    let sources: Vec<(SourceLanguage, String, String)> =
        files.iter().map(|(l, p, c)| (*l, p.to_string(), c.to_string())).collect();
    let program = build_program(&sources);
    AnalysisPipeline::new(config).analyze(&program)
}

fn py(path: &'static str, code: &'static str) -> (SourceLanguage, &'static str, &'static str) {
    (SourceLanguage::Python, path, code)
}

fn java(path: &'static str, code: &'static str) -> (SourceLanguage, &'static str, &'static str) {
    (SourceLanguage::Java, path, code)
}

#[test]
fn test_single_file_project() {
    let findings = analyze(AnalysisConfiguration::default(), &[py("app.py", "x = input()\neval(x)\n")]);
    assert_eq!(findings.len(), 1);
    assert_eq!(findings[0].rule.rule_id, "core-sink-001");
}

#[test]
fn test_multi_file_python() {
    let findings = analyze(
        AnalysisConfiguration::default(),
        &[
            py("main.py", "import utils\nx = input()\nutils.process(x)\n"),
            py("utils.py", "import os\ndef process(val):\n    os.system(val)\n"),
        ],
    );
    assert!(findings.len() >= 1);
}

#[test]
fn test_multi_file_java() {
    let findings = analyze(
        AnalysisConfiguration::default(),
        &[
            java("App.java", "package com.example;\nimport java.util.Scanner;\nclass App {\n  void run() {\n    Scanner s = new Scanner(System.in);\n    String v = s.nextLine();\n    DB.query(v);\n  }\n}"),
            java("DB.java", "package com.example;\nclass DB {\n  static void query(String q) {\n    Statement stmt = null;\n    stmt.execute(q);\n  }\n}"),
        ],
    );
    assert!(findings.len() >= 1);
}

#[test]
fn test_mixed_language_repository() {
    let findings = analyze(
        AnalysisConfiguration::default(),
        &[
            py("app.py", "x = input()\neval(x)\n"),
            java("App.java", "package com.example;\nclass App {\n  void run() {\n    String v = getParameter(\"q\");\n    execute(v);\n  }\n}"),
        ],
    );
    assert!(findings.len() >= 1);
}

#[test]
fn test_deterministic_output() {
    let mut config = AnalysisConfiguration::default();
    config.incremental_mode = false;
    let files = [py("z.py", "x = input()\neval(x)\n"), py("a.py", "y = input()\nos.system(y)\n")];
    let res1 = analyze(config.clone(), &files);
    let res2 = analyze(config, &files);
    let fingerprints1: Vec<String> = res1.iter().map(|f| f.fingerprint.0.clone()).collect();
    let fingerprints2: Vec<String> = res2.iter().map(|f| f.fingerprint.0.clone()).collect();
    assert_eq!(fingerprints1, fingerprints2);
}

#[test]
fn test_parallel_scheduler() {
    let mut config = AnalysisConfiguration::default();
    config.scheduler_threads = 4;
    let findings = analyze(config, &[py("app.py", "x = input()\neval(x)\n")]);
    assert_eq!(findings.len(), 1);
}

#[test]
fn test_rule_pack_loading() {
    let mut config = AnalysisConfiguration::default();
    config.rule_packs = vec!["core".to_string(), "command-injection".to_string()];
    let findings = analyze(config, &[py("app.py", "x = input()\neval(x)\nos.system(x)\n")]);
    assert_eq!(findings.len(), 2);
}

#[test]
fn test_context_sensitive_analysis() {
    let mut config = AnalysisConfiguration::default();
    config.max_context_depth = 2;
    let findings = analyze(config, &[py("app.py", "x = input()\neval(x)\n")]);
    assert_eq!(findings.len(), 1);
}

#[test]
fn test_alias_sensitive_taint() {
    let mut config = AnalysisConfiguration::default();
    config.max_access_path_depth = 3;
    let findings = analyze(config, &[py("app.py", "x = input()\neval(x)\n")]);
    assert_eq!(findings.len(), 1);
}

#[test]
fn test_reporting_integration() {
    let findings = analyze(AnalysisConfiguration::default(), &[py("app.py", "x = input()\neval(x)\n")]);
    let mut builder = ReportBuilder::new();
    for f in &findings {
        builder.add_finding(
            f.rule.clone(),
            f.confidence,
            f.source.clone(),
            f.sink.clone(),
            f.access_path.clone(),
            f.trace.clone(),
            f.message.clone(),
        );
    }
    let reporter = Reporter::new(builder.build());
    let console = reporter.to_console();
    assert!(console.contains("CWE-95"));
    assert!(console.contains("core-sink-001"));
}

#[test]
fn empty_repository_has_no_findings() {
    let program = build_program(&Vec::new());
    assert!(program.modules.is_empty());
    assert!(AnalysisPipeline::new(AnalysisConfiguration::default()).analyze(&program).is_empty());
}

#[test]
fn python_sources_lower_to_one_module() {
    let program = lower_source(SourceLanguage::Python, "pkg/app.py", "x = 1\n").unwrap();
    assert_eq!(program.modules.len(), 1);
    assert_eq!(program.modules[0].name, "app");
    assert_eq!(program.modules[0].file_path, "pkg/app.py");
}

#[test]
fn java_sources_lower_to_one_module() {
    let program = lower_source(SourceLanguage::Java, "src/App.java", "class App {\n  void run() {\n  }\n}").unwrap();
    assert_eq!(program.modules.len(), 1);
    assert_eq!(program.modules[0].name, "App");
}

#[test]
fn run_phases_estimates_memory_per_item() {
    let stats = EngineStatistics {
        file_count: 2,
        method_count: 3,
        instruction_count: 10,
        findings_count: 1,
        cache_hits: 0,
        cache_misses: 2,
    };
    let phases = run_phases(&stats, 5, 6, 7);
    let names: Vec<&str> = phases.iter().map(|p| p.name.as_str()).collect();
    assert_eq!(
        names,
        vec![
            "Workspace Discovery",
            "Parsing & IR Lowering",
            "CFG Generation",
            "ICFG Generation",
            "Context & Alias Analysis",
            "Finding Generation & Reporting"
        ]
    );
    let mem: Vec<usize> = phases.iter().map(|p| p.memory_estimate_bytes).collect();
    assert_eq!(mem, vec![512, 1280, 3072, 6144, 8192, 512]);
    let ms: Vec<u64> = phases.iter().map(|p| p.elapsed_ms).collect();
    assert_eq!(ms, vec![5, 6, 7, 7, 7, 7]);
    assert!(phases.iter().all(|p| p.status == "Success"));

    let empty = EngineStatistics { file_count: 0, method_count: 0, instruction_count: 0, findings_count: 0, cache_hits: 0, cache_misses: 0 };
    let phases = run_phases(&empty, 4, 0, 0);
    assert_eq!(phases.len(), 1);
    assert_eq!(phases[0].name, "Workspace Discovery");
    assert_eq!(phases[0].memory_estimate_bytes, 0);
}
