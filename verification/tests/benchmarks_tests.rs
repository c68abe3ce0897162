use taintflow::benchmarks::{GroundTruth, GroundTruthEntry, RepositoryAdapter, ValidationRunner};
use taintflow::engine::{merge_file_program, AnalysisConfiguration, AnalysisPipeline};
use taintflow::frontend::LanguageFrontend;
use taintflow::ir::Program;
use taintflow::parser::parse_python;
use taintflow::python::PythonFrontend;
use taintflow::reporting::Finding;
use taintflow::semantic::resolve_semantics;

fn scan(files: &[(&str, &str)]) -> Vec<Finding> {
    let pipeline = AnalysisPipeline::new(AnalysisConfiguration::default());
    let mut program = Program::new();
    for (path, code) in files {
        let cst = parse_python(code).unwrap();
        let info = resolve_semantics(&cst);
        let p = PythonFrontend.lower(code, &info, path).unwrap();
        assert!(merge_file_program(&mut program, p));
    }
    pipeline.analyze(&program)
}

#[test]
fn test_unsupported_constructs_scanner() {
    let contents = vec!["eval(x)\ngetattr(obj, 'x')\n".to_string()];
    let counts = RepositoryAdapter::count_constructs(&contents);
    assert_eq!(counts, vec![("eval".to_string(), 1), ("reflection_py".to_string(), 1)]);
}

#[test]
fn test_comment_annotations_loader() {
    let files = vec![(
        "test.py".to_string(),
        "\n# VULNERABLE: CWE-89\neval(x)\n# SAFE\nx = \"safe\"\n".to_string(),
    )];
    let gt = RepositoryAdapter::ground_truth_of(&files);
    assert_eq!(gt.entries.len(), 2);
    assert!(gt.entries[0].is_vulnerable);
    assert_eq!(gt.entries[0].cwe, Some(89));
    assert!(!gt.entries[1].is_vulnerable);
}

#[test]
fn annotation_lines_are_numbered_from_one() {
    let entries = RepositoryAdapter::annotations_in("a/b.py", "# SAFE\r\nx = 1\n// VULNERABLE CWE-22\n# VULNERABLE\n");
    assert_eq!(entries.len(), 3);
    assert_eq!(entries[0].line, 1);
    assert!(!entries[0].is_vulnerable);
    assert_eq!(entries[1].line, 3);
    assert_eq!(entries[1].cwe, Some(22));
    assert_eq!(entries[2].line, 4);
    assert_eq!(entries[2].cwe, None);
    assert_eq!(entries[2].file_relative_path, "a/b.py");
}

#[test]
fn constructs_count_files_not_occurrences() {
    let contents = vec![
        "eval(a)\neval(b)\nimport importlib\n".to_string(),
        "eval(c)\nlambda x: x\n".to_string(),
        "nothing here".to_string(),
    ];
    let counts = RepositoryAdapter::count_constructs(&contents);
    assert_eq!(
        counts,
        vec![("eval".to_string(), 2), ("dynamic_import".to_string(), 1), ("lambda_capture".to_string(), 1)]
    );
    assert!(RepositoryAdapter::count_constructs(&[]).is_empty());
}

fn entry(path: &str, line: usize, vulnerable: bool) -> GroundTruthEntry {
    GroundTruthEntry { file_relative_path: path.to_string(), line, is_vulnerable: vulnerable, cwe: None }
}

#[test]
fn scoring_counts_each_outcome() {
    let findings = scan(&[("app.py", "x = input()\neval(x)\n")]);
    assert_eq!(findings.len(), 1);
    let gt = GroundTruth {
        entries: vec![entry("app.py", 0, true), entry("other.py", 0, true), entry("clean.py", 0, false)],
    };
    let ev = ValidationRunner::score(&findings, &gt);
    assert_eq!(ev.true_positives, 1);
    assert_eq!(ev.false_positives, 0);
    assert_eq!(ev.false_negatives, 1);
    assert_eq!(ev.true_negatives, 1);
    assert_eq!(ev.regression_files, vec!["other.py".to_string()]);
    assert_eq!(ev.findings_per_cwe.len(), 1);
    assert_eq!(ev.findings_per_cwe[0].1, 1);
}

#[test]
fn flagged_safe_entries_are_false_positives() {
    let findings = scan(&[("app.py", "x = input()\neval(x)\n")]);
    let gt = GroundTruth { entries: vec![entry("app.py", 0, false)] };
    let ev = ValidationRunner::score(&findings, &gt);
    assert_eq!(ev.true_positives, 0);
    assert_eq!(ev.false_positives, 1);
    assert_eq!(ev.true_negatives, 0);
    assert_eq!(ev.regression_files, vec!["app.py".to_string()]);
}

#[test]
fn unmatched_findings_are_false_positives() {
    let findings = scan(&[("app.py", "x = input()\neval(x)\n")]);
    let ev = ValidationRunner::score(&findings, &GroundTruth::default());
    assert_eq!(ev.true_positives, 0);
    assert_eq!(ev.false_positives, 1);
    assert_eq!(ev.false_negatives, 0);
    assert_eq!(ev.true_negatives, 0);
    assert!(ev.regression_files.is_empty());
}
