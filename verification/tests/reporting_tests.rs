use taintflow::reporting::{
    Confidence, ConsoleFormatter, DiagnosticMessage, Finding, FindingCollection, FindingFingerprint, FindingId,
    FindingTrace, ReportBuilder, Reporter, RuleMetadata, SinkLocation, SourceLocation, TraceBuilder, TraceStep,
    TraceStepKind,
};
use taintflow::rules::Severity;

fn make_source_loc(file: &str, line: usize) -> SourceLocation {
    SourceLocation {
        file: file.to_string(),
        method: "main".to_string(),
        instruction_id: 1,
        line: Some(line),
        column: Some(1),
    }
}

fn make_sink_loc(file: &str, line: usize) -> SinkLocation {
    SinkLocation {
        file: file.to_string(),
        method: "main".to_string(),
        instruction_id: 5,
        line: Some(line),
        column: Some(1),
    }
}

fn make_rule(rule_id: &str, severity: Severity, cwe: Option<u32>) -> RuleMetadata {
    RuleMetadata {
        rule_id: rule_id.to_string(),
        rule_name: format!("{} rule", rule_id),
        cwe,
        severity,
        category: Some("injection".to_string()),
        language: Some("python".to_string()),
        description: Some("Test rule".to_string()),
    }
}

fn make_trace(steps: &[(&str, TraceStepKind, &str, usize)]) -> FindingTrace {
    TraceBuilder::build(
        steps.iter().map(|(desc, kind, file, line)| {
            (kind.clone(), desc.to_string(), make_source_loc(file, *line))
        }).collect()
    )
}

fn make_finding(rule_id: &str, src_line: usize, sink_line: usize, path: &str, trace: FindingTrace) -> Finding {
    let source = make_source_loc("app.py", src_line);
    let sink = make_sink_loc("app.py", sink_line);
    let rule = make_rule(rule_id, Severity::High, Some(78));
    let fingerprint = FindingFingerprint::compute(&rule.rule_id, &source, &sink, path);
    Finding {
        id: FindingId("F-0001".to_string()),
        fingerprint,
        rule,
        confidence: Confidence::High,
        source,
        sink,
        access_path: path.to_string(),
        trace,
        message: DiagnosticMessage {
            title: "Command Injection".to_string(),
            detail: format!("Tainted value '{}' reaches os.system()", path),
            remediation: Some("Sanitize user input with shlex.quote".to_string()),
        },
    }
}

#[test]
fn test_trace_reconstruction() {
    let trace = make_trace(&[
        ("input()", TraceStepKind::Source, "app.py", 10),
        ("user = input()", TraceStepKind::Assignment, "app.py", 10),
        ("cmd = user", TraceStepKind::Assignment, "app.py", 20),
        ("os.system(cmd)", TraceStepKind::Sink, "app.py", 45),
    ]);
    assert_eq!(trace.steps.len(), 4);
    assert_eq!(trace.steps[0].kind, TraceStepKind::Source);
    assert_eq!(trace.steps[3].kind, TraceStepKind::Sink);
}

#[test]
fn test_trace_step_labels() {
    assert_eq!(TraceStepKind::Source.label(), "Source");
    assert_eq!(TraceStepKind::Sink.label(), "Sink");
    assert_eq!(TraceStepKind::Call.label(), "Call");
    assert_eq!(TraceStepKind::Return.label(), "Return");
}

#[test]
fn test_multiple_findings() {
    let mut builder = ReportBuilder::new();
    let trace1 = make_trace(&[("input()", TraceStepKind::Source, "app.py", 10)]);
    let trace2 = make_trace(&[("getenv()", TraceStepKind::Source, "app.py", 5)]);

    builder.add_finding(
        make_rule("py-sink-001", Severity::High, Some(78)),
        Confidence::High,
        make_source_loc("app.py", 10),
        make_sink_loc("app.py", 45),
        "cmd".to_string(),
        trace1,
        DiagnosticMessage { title: "CmdInjection".to_string(), detail: "...".to_string(), remediation: None },
    );
    builder.add_finding(
        make_rule("py-sink-002", Severity::High, Some(95)),
        Confidence::Medium,
        make_source_loc("app.py", 5),
        make_sink_loc("app.py", 30),
        "user".to_string(),
        trace2,
        DiagnosticMessage { title: "CodeInjection".to_string(), detail: "...".to_string(), remediation: None },
    );

    let collection = builder.build();
    assert_eq!(collection.len(), 2);
}

#[test]
fn test_duplicate_suppression() {
    let mut collection = FindingCollection::new();
    let trace = FindingTrace::new();
    let f1 = make_finding("py-sink-001", 10, 45, "cmd", trace.clone());
    let f2 = make_finding("py-sink-001", 10, 45, "cmd", trace.clone());
    assert_eq!(f1.fingerprint, f2.fingerprint);
    collection.add(f1);
    collection.add(f2);
    assert_eq!(collection.len(), 1);
}

#[test]
fn test_different_findings_not_deduplicated() {
    let mut collection = FindingCollection::new();
    let f1 = make_finding("py-sink-001", 10, 45, "cmd", FindingTrace::new());
    let f2 = make_finding("py-sink-001", 10, 45, "user", FindingTrace::new()); // different access path
    assert_ne!(f1.fingerprint, f2.fingerprint);
    collection.add(f1);
    collection.add(f2);
    assert_eq!(collection.len(), 2);
}

#[test]
fn test_fingerprint_stability() {
    let src = make_source_loc("app.py", 10);
    let sink = make_sink_loc("app.py", 45);
    let fp1 = FindingFingerprint::compute("py-sink-001", &src, &sink, "cmd");
    let fp2 = FindingFingerprint::compute("py-sink-001", &src, &sink, "cmd");
    assert_eq!(fp1, fp2);
}

#[test]
fn test_fingerprint_differs_on_path() {
    let src = make_source_loc("app.py", 10);
    let sink = make_sink_loc("app.py", 45);
    let fp1 = FindingFingerprint::compute("py-sink-001", &src, &sink, "cmd");
    let fp2 = FindingFingerprint::compute("py-sink-001", &src, &sink, "user");
    assert_ne!(fp1, fp2);
}

#[test]
fn test_stable_deterministic_ordering() {
    let mut collection = FindingCollection::new();
    let fa = make_finding("py-sink-002", 5, 30, "user", FindingTrace::new());
    let fb = make_finding("py-sink-001", 10, 45, "cmd", FindingTrace::new());
    collection.add(fa);
    collection.add(fb);
    let sorted = collection.findings_sorted();
    // Should be sorted by fingerprint string
    assert!(sorted[0].fingerprint <= sorted[1].fingerprint);
}

#[test]
fn test_cli_formatting() {
    let trace = make_trace(&[
        ("input()", TraceStepKind::Source, "app.py", 10),
        ("os.system(cmd)", TraceStepKind::Sink, "app.py", 45),
    ]);
    let f = make_finding("py-sink-001", 10, 45, "cmd", trace);
    let mut collection = FindingCollection::new();
    collection.add(f);
    let output = ConsoleFormatter::format(&collection);
    assert!(output.contains("HIGH"));
    assert!(output.contains("CWE-78"));
    assert!(output.contains("app.py:10"));
    assert!(output.contains("app.py:45"));
    assert!(output.contains("cmd"));
    assert!(output.contains("Source"));
    assert!(output.contains("Sink"));
}

#[test]
fn test_cli_formatting_empty() {
    let collection = FindingCollection::new();
    let output = ConsoleFormatter::format(&collection);
    assert!(output.contains("No findings."));
}

#[test]
fn test_rule_metadata_preservation() {
    let f = make_finding("py-sink-001", 10, 45, "cmd", FindingTrace::new());
    assert_eq!(f.rule.rule_id, "py-sink-001");
    assert_eq!(f.rule.cwe, Some(78));
    assert_eq!(f.rule.severity, Severity::High);
    assert_eq!(f.rule.language.as_deref(), Some("python"));
    assert_eq!(f.rule.category.as_deref(), Some("injection"));
    assert_eq!(f.cwe_string(), "CWE-78");
}

#[test]
fn test_source_location_display_with_line_col() {
    let loc = SourceLocation {
        file: "main.py".to_string(),
        method: "main".to_string(),
        instruction_id: 1,
        line: Some(42),
        column: Some(5),
    };
    assert_eq!(loc.display(), "main.py:42:5");
}

#[test]
fn test_source_location_display_with_line_only() {
    let loc = SourceLocation {
        file: "main.py".to_string(),
        method: "main".to_string(),
        instruction_id: 1,
        line: Some(42),
        column: None,
    };
    assert_eq!(loc.display(), "main.py:42");
}

#[test]
fn test_source_location_unknown() {
    let loc = SourceLocation::unknown();
    assert!(loc.display().contains("<unknown>"));
}

#[test]
fn location_without_line_names_the_instruction() {
    let loc = SourceLocation { file: "a.py".to_string(), method: "m".to_string(), instruction_id: 7, line: None, column: Some(3) };
    assert_eq!(loc.display(), "a.py (inst:7)");
    assert_eq!(SourceLocation::unknown().display(), "<unknown> (inst:0)");
}

#[test]
fn fingerprint_text_is_exact() {
    let src = make_source_loc("app.py", 10);
    let sink = make_sink_loc("app.py", 45);
    let fp = FindingFingerprint::compute("r1", &src, &sink, "cmd");
    assert_eq!(fp.0, "r1|app.py:10:1|app.py:45:1|cmd");
}

#[test]
fn cwe_and_severity_labels() {
    let mut f = make_finding("r", 1, 2, "p", FindingTrace::new());
    assert_eq!(*f.severity(), Severity::High);
    f.rule.cwe = None;
    assert_eq!(f.cwe_string(), "N/A");
    assert_eq!(Confidence::Medium.as_str(), "MEDIUM");
    assert_eq!(Confidence::Low.as_str(), "LOW");
    assert_eq!(TraceStepKind::HeapStore.label(), "Store");
    assert_eq!(TraceStepKind::HeapLoad.label(), "Load");
}

#[test]
fn builder_numbers_findings_and_drops_duplicates() {
    let mut builder = ReportBuilder::default();
    for _ in 0..2 {
        builder.add_finding(
            make_rule("r", Severity::Low, None),
            Confidence::Low,
            make_source_loc("x.py", 1),
            make_sink_loc("x.py", 2),
            "v".to_string(),
            FindingTrace::default(),
            DiagnosticMessage { title: "t".to_string(), detail: "d".to_string(), remediation: None },
        );
    }
    builder.add_finding(
        make_rule("q", Severity::Critical, Some(22)),
        Confidence::High,
        make_source_loc("x.py", 1),
        make_sink_loc("x.py", 2),
        "v".to_string(),
        FindingTrace::new(),
        DiagnosticMessage { title: "t".to_string(), detail: "d".to_string(), remediation: None },
    );
    let collection = builder.build();
    assert_eq!(collection.len(), 2);
    let sorted = collection.findings_sorted();
    assert_eq!(sorted[0].rule.rule_id, "q");
    assert_eq!(sorted[0].id.0, "F-0003");
    assert_eq!(sorted[1].id.0, "F-0001");
}

#[test]
fn console_report_is_exact() {
    let trace = make_trace(&[("input()", TraceStepKind::Source, "app.py", 10)]);
    let f = make_finding("py-sink-001", 10, 45, "cmd", trace);
    let mut collection = FindingCollection::default();
    collection.add(f);
    let reporter = Reporter::new(collection);
    let expected = "HIGH CWE-78 Command Injection\n  Rule   : py-sink-001 rule (py-sink-001)\n  Source : app.py:10:1\n  Sink   : app.py:45:1\n  Path   : cmd\n  Confidence: HIGH\n  Trace  :\n    [Source] input() @ app.py:10:1\n\n";
    assert_eq!(reporter.to_console(), expected);
    assert!(!reporter.collection.is_empty());
}

#[test]
fn trace_push_and_emptiness() {
    let mut t = FindingTrace::new();
    assert!(t.is_empty());
    t.push(TraceStep { kind: TraceStepKind::Call, description: "f()".to_string(), location: SourceLocation::unknown() });
    assert!(!t.is_empty());
    assert_eq!(t.steps.len(), 1);
}

#[test]
fn report_order_does_not_depend_on_insertion_order() {
    let f1 = make_finding("py-sink-002", 5, 30, "user", FindingTrace::new());
    let f2 = make_finding("py-sink-001", 10, 45, "cmd", FindingTrace::new());
    let f3 = make_finding("py-sink-003", 7, 8, "q", FindingTrace::new());
    let mut a = FindingCollection::new();
    a.add(f1.clone());
    a.add(f2.clone());
    a.add(f3.clone());
    let mut b = FindingCollection::new();
    b.add(f3);
    b.add(f1);
    b.add(f2);
    let fa: Vec<String> = a.findings_sorted().iter().map(|f| f.fingerprint.0.clone()).collect();
    let fb: Vec<String> = b.findings_sorted().iter().map(|f| f.fingerprint.0.clone()).collect();
    assert_eq!(fa, fb);
    assert_eq!(fa.len(), 3);
}
