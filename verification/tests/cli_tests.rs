use taintflow::cli::{
    compare_against_baseline, create_baseline, find_rule, rules_status, scan_status, Baseline, CliConfiguration,
    LogLevel, Logger, ProgressReporter,
};
use taintflow::engine::{merge_file_program, AnalysisConfiguration, AnalysisPipeline};
use taintflow::frontend::LanguageFrontend;
use taintflow::ir::Program;
use taintflow::parser::parse_python;
use taintflow::python::PythonFrontend;
use taintflow::reporting::Finding;
use taintflow::semantic::resolve_semantics;

fn scan(files: &[(&str, &str)]) -> Vec<Finding> {
    let mut config = AnalysisConfiguration::default();
    config.incremental_mode = false;
    let pipeline = AnalysisPipeline::new(config);
    let mut program = Program::new();
    for (path, code) in files {
        let cst = parse_python(code).unwrap();
        let info = resolve_semantics(&cst);
        let p = PythonFrontend.lower(code, &info, path).unwrap();
        assert!(merge_file_program(&mut program, p));
    }
    pipeline.analyze(&program)
}

fn empty_config() -> CliConfiguration {
    CliConfiguration {
        languages: None,
        rule_packs: None,
        enabled_rules: None,
        disabled_rules: None,
        enabled_cwes: None,
        excluded_directories: None,
        excluded_files: None,
        follow_symlinks: None,
        incremental_mode: None,
        scheduler_threads: None,
        context_depth: None,
        access_path_depth: None,
        object_sensitivity: None,
        report_formats: None,
        severity_thresholds: None,
        confidence_thresholds: None,
        output_directory: None,
        baseline_file: None,
    }
}

#[test]
fn test_baseline_creation_and_comparison() {
    let res = scan(&[("app.py", "x = input()\neval(x)\n")]);

    let baseline = create_baseline(&res);
    assert_eq!(baseline.fingerprints.len(), 1);

    let comparison = compare_against_baseline(&res, &baseline);
    assert_eq!(comparison.new_findings.len(), 0);
    assert_eq!(comparison.unchanged_findings.len(), 1);
    assert_eq!(comparison.resolved_findings.len(), 0);

    // a second file brings a new finding
    let res2 = scan(&[("app.py", "x = input()\neval(x)\n"), ("db.py", "q = input()\ndb.execute(q)\n")]);
    let comparison2 = compare_against_baseline(&res2, &baseline);
    assert_eq!(comparison2.new_findings.len(), 1);
    assert_eq!(comparison2.unchanged_findings.len(), 1);
}

#[test]
fn test_progress_reporting() {
    let mut pr = ProgressReporter::new(5);
    let first = pr.next_phase("Start");
    let second = pr.next_phase("Running");
    assert_eq!(pr.current_phase, 2);
    assert_eq!(first, "[1/5] Executing phase: Start...");
    assert_eq!(second, "[2/5] Executing phase: Running...");
}

#[test]
fn test_rule_management() {
    assert_eq!(rules_status("list", None), 0);
    assert_eq!(rules_status("show", Some("cmd-001")), 0);
    assert_eq!(rules_status("validate", None), 0);
    assert_eq!(rules_status("export", None), 0);
}

#[test]
fn unknown_rules_commands_fail() {
    assert_eq!(rules_status("show", None), 2);
    assert_eq!(rules_status("show", Some("no-such-rule")), 2);
    assert_eq!(rules_status("frobnicate", None), 2);
}

#[test]
fn find_rule_returns_the_named_rule() {
    let r = find_rule("cmd-001").unwrap();
    assert_eq!(r.id, "cmd-001");
    assert!(find_rule("no-such-rule").is_none());
}

#[test]
fn scan_status_codes() {
    assert_eq!(scan_status(true, 0), 0);
    assert_eq!(scan_status(true, 3), 1);
    assert_eq!(scan_status(false, 0), 2);
    assert_eq!(scan_status(false, 5), 2);
}

#[test]
fn overrides_win_over_file_settings() {
    let mut file = empty_config();
    file.languages = Some(vec!["python".to_string()]);
    file.context_depth = Some(3);
    file.incremental_mode = Some(true);
    let mut cli = empty_config();
    cli.context_depth = Some(7);
    let merged = file.merge_with_cli_overrides(cli);
    assert_eq!(merged.languages, Some(vec!["python".to_string()]));
    assert_eq!(merged.context_depth, Some(7));
    assert_eq!(merged.incremental_mode, Some(true));
    assert_eq!(merged.scheduler_threads, None);
}

#[test]
fn engine_config_falls_back_to_defaults() {
    let mut c = empty_config();
    c.enabled_cwes = Some(vec![22, 78]);
    c.scheduler_threads = Some(8);
    let e = c.to_engine_config();
    assert_eq!(e.languages, vec!["python".to_string(), "java".to_string()]);
    assert_eq!(e.enabled_cwes, vec![22, 78]);
    assert_eq!(e.scheduler_threads, 8);
    assert_eq!(e.max_context_depth, 2);
    assert_eq!(e.max_access_path_depth, 5);
    assert!(e.incremental_mode);
    assert_eq!(e.rule_packs, AnalysisConfiguration::default().rule_packs);
}

#[test]
fn resolved_fingerprints_are_reported() {
    let res = scan(&[("app.py", "x = input()\neval(x)\n")]);
    let baseline = Baseline { fingerprints: vec!["gone".to_string(), res[0].fingerprint.0.clone()] };
    let cmp = compare_against_baseline(&res, &baseline);
    assert_eq!(cmp.resolved_findings, vec!["gone".to_string()]);
    assert_eq!(cmp.unchanged_findings.len(), 1);
    assert!(cmp.new_findings.is_empty());
}

#[test]
fn logger_filters_by_level() {
    let logger = Logger { level: LogLevel::Info, json_format: false };
    assert!(logger.should_log(&LogLevel::Error));
    assert!(logger.should_log(&LogLevel::Info));
    assert!(!logger.should_log(&LogLevel::Debug));
    assert_eq!(logger.level_value(&LogLevel::Trace), 4);
}
