//! Findings, their de-duplicated collection in fingerprint order, traces,
//! and the plain-text report.
use vstd::prelude::*;
use crate::pointsto::{char_code, lemma_char_code_injective, lemma_lex_asymmetric, lemma_lex_irreflexive, lemma_lex_total, lemma_lex_transitive, lex_less, lex_lt};
use crate::rules::Severity;
use crate::text::{decimal, push_decimal};

verus! {

broadcast use vstd::string::group_string_axioms;

/// Unique identifier for a finding within a report.
#[derive(Debug, Clone, PartialEq, Eq, Hash, PartialOrd, Ord)]
pub struct FindingId(pub String);

/// Source location: file, method, instruction, line, column.
#[derive(Debug, Clone, PartialEq, Eq, Hash, PartialOrd, Ord)]
pub struct SourceLocation {
    pub file: String,
    pub method: String,
    pub instruction_id: u32,
    pub line: Option<usize>,
    pub column: Option<usize>,
}

/// A sink location has the shape of a source location.
pub type SinkLocation = SourceLocation;

/// How a location reads: `file:line:column`, `file:line`, or, without a
/// line, `file (inst:N)`.
pub open spec fn location_text(file: Seq<char>, instruction_id: u32, line: Option<usize>, column: Option<usize>) -> Seq<char> {
    match (line, column) {
        (Some(l), Some(c)) => file + ":"@ + decimal(l as nat) + ":"@ + decimal(c as nat),
        (Some(l), None) => file + ":"@ + decimal(l as nat),
        _ => file + " (inst:"@ + decimal(instruction_id as nat) + ")"@,
    }
}

impl SourceLocation {
    /// How this location reads.
    pub open spec fn text(&self) -> Seq<char> {
        location_text(self.file@, self.instruction_id, self.line, self.column)
    }

    /// The location of something whose place is not known.
    pub fn unknown() -> (r: Self)
        ensures
            r.file@ == "<unknown>"@,
            r.method@ == "<unknown>"@,
            r.instruction_id == 0,
            r.line is None,
            r.column is None,
    {
        SourceLocation {
            file: String::from_str("<unknown>"),
            method: String::from_str("<unknown>"),
            instruction_id: 0,
            line: None,
            column: None,
        }
    }

    /// Appends how this location reads to `out`.
    pub fn write_text(&self, out: &mut String)
        ensures
            final(out)@ == old(out)@ + self.text(),
    {
        out.append(self.file.as_str());
        match (self.line, self.column) {
            (Some(l), Some(c)) => {
                out.append(":");
                push_decimal(out, l as u64);
                out.append(":");
                push_decimal(out, c as u64);
            },
            (Some(l), None) => {
                out.append(":");
                push_decimal(out, l as u64);
            },
            _ => {
                out.append(" (inst:");
                push_decimal(out, self.instruction_id as u64);
                out.append(")");
            },
        }
        assert(final(out)@ =~= old(out)@ + self.text());
    }

    /// How this location reads.
    pub fn display(&self) -> (r: String)
        ensures
            r@ == self.text(),
    {
        let mut out = String::new();
        self.write_text(&mut out);
        assert(out@ =~= self.text());
        out
    }
}

/// The semantic role of a trace step.
#[derive(Debug, Clone, Copy, PartialEq, Eq, Hash, PartialOrd, Ord, Structural)]
pub enum TraceStepKind {
    Source,
    Assignment,
    HeapStore,
    HeapLoad,
    Call,
    Return,
    Sink,
    Parameter,
}

/// The label printed for a kind of trace step.
pub open spec fn step_label(k: TraceStepKind) -> Seq<char> {
    match k {
        TraceStepKind::Source => "Source"@,
        TraceStepKind::Assignment => "Assignment"@,
        TraceStepKind::HeapStore => "Store"@,
        TraceStepKind::HeapLoad => "Load"@,
        TraceStepKind::Call => "Call"@,
        TraceStepKind::Return => "Return"@,
        TraceStepKind::Sink => "Sink"@,
        TraceStepKind::Parameter => "Parameter"@,
    }
}

impl TraceStepKind {
    /// The label printed for this kind of step.
    pub fn label(&self) -> (r: &'static str)
        ensures
            r@ == step_label(*self),
    {
        match self {
            TraceStepKind::Source => "Source",
            TraceStepKind::Assignment => "Assignment",
            TraceStepKind::HeapStore => "Store",
            TraceStepKind::HeapLoad => "Load",
            TraceStepKind::Call => "Call",
            TraceStepKind::Return => "Return",
            TraceStepKind::Sink => "Sink",
            TraceStepKind::Parameter => "Parameter",
        }
    }
}

/// A single step in a taint propagation trace.
#[derive(Debug, Clone, PartialEq, Eq, Hash, PartialOrd, Ord)]
pub struct TraceStep {
    pub kind: TraceStepKind,
    pub description: String,
    pub location: SourceLocation,
}

/// An ordered taint propagation trace from source to sink.
#[derive(Debug, Clone, PartialEq, Eq)]
pub struct FindingTrace {
    pub steps: Vec<TraceStep>,
}

impl FindingTrace {
    /// The empty trace.
    pub fn new() -> (r: Self)
        ensures
            r.steps@ == Seq::<TraceStep>::empty(),
    {
        FindingTrace { steps: Vec::new() }
    }

    /// Appends a step at the end of the trace.
    pub fn push(&mut self, step: TraceStep)
        ensures
            final(self).steps@ == old(self).steps@.push(step),
    {
        self.steps.push(step);
    }

    /// Whether the trace has no step.
    pub fn is_empty(&self) -> (r: bool)
        ensures
            r == (self.steps@.len() == 0),
    {
        self.steps.len() == 0
    }
}

impl Default for FindingTrace {
    fn default() -> (r: Self)
        ensures
            r.steps@ == Seq::<TraceStep>::empty(),
    {
        Self::new()
    }
}

/// The diagnostic message attached to a finding.
#[derive(Debug, Clone, PartialEq, Eq)]
pub struct DiagnosticMessage {
    pub title: String,
    pub detail: String,
    pub remediation: Option<String>,
}

/// What a finding takes from the rule that matched.
#[derive(Debug, Clone, PartialEq, Eq)]
pub struct RuleMetadata {
    pub rule_id: String,
    pub rule_name: String,
    pub cwe: Option<u32>,
    pub severity: Severity,
    pub category: Option<String>,
    pub language: Option<String>,
    pub description: Option<String>,
}

/// Confidence level in a finding.
#[derive(Debug, Clone, Copy, PartialEq, Eq, PartialOrd, Ord, Hash, Structural)]
pub enum Confidence {
    High,
    Medium,
    Low,
}

/// The printed name of a confidence level.
pub open spec fn confidence_text(c: Confidence) -> Seq<char> {
    match c {
        Confidence::High => "HIGH"@,
        Confidence::Medium => "MEDIUM"@,
        Confidence::Low => "LOW"@,
    }
}

impl Confidence {
    /// The printed name of this level.
    pub fn as_str(&self) -> (r: &'static str)
        ensures
            r@ == confidence_text(*self),
    {
        match self {
            Confidence::High => "HIGH",
            Confidence::Medium => "MEDIUM",
            Confidence::Low => "LOW",
        }
    }
}

/// The fingerprint text of a finding: rule, source, sink and access path,
/// separated by `|`.
pub open spec fn fingerprint_text(rule_id: Seq<char>, source: SourceLocation, sink: SourceLocation, access_path: Seq<char>) -> Seq<char> {
    rule_id + "|"@ + source.text() + "|"@ + sink.text() + "|"@ + access_path
}

/// A fingerprint that identifies a finding across runs, for de-duplication.
#[derive(Debug, Clone, PartialEq, Eq, Hash, PartialOrd, Ord)]
pub struct FindingFingerprint(pub String);

impl FindingFingerprint {
    /// The fingerprint of a finding of rule `rule_id` from `source` to
    /// `sink` along `access_path`.
    pub fn compute(rule_id: &str, source: &SourceLocation, sink: &SinkLocation, access_path: &str) -> (r: Self)
        ensures
            r.0@ == fingerprint_text(rule_id@, *source, *sink, access_path@),
    {
        let mut raw = String::from_str(rule_id);
        raw.append("|");
        source.write_text(&mut raw);
        raw.append("|");
        sink.write_text(&mut raw);
        raw.append("|");
        raw.append(access_path);
        FindingFingerprint(raw)
    }
}

/// A complete vulnerability finding.
#[derive(Debug, Clone, PartialEq, Eq)]
pub struct Finding {
    pub id: FindingId,
    pub fingerprint: FindingFingerprint,
    pub rule: RuleMetadata,
    pub confidence: Confidence,
    pub source: SourceLocation,
    pub sink: SinkLocation,
    pub access_path: String,
    pub trace: FindingTrace,
    pub message: DiagnosticMessage,
}

/// The CWE label of a finding: `CWE-N`, or `N/A` without one.
pub open spec fn cwe_text(cwe: Option<u32>) -> Seq<char> {
    match cwe {
        Some(n) => "CWE-"@ + decimal(n as nat),
        None => "N/A"@,
    }
}

/// A copy of a location.
pub fn copy_location(l: &SourceLocation) -> (r: SourceLocation)
    ensures
        r == *l,
{
    SourceLocation { file: l.file.clone(), method: l.method.clone(), instruction_id: l.instruction_id, line: l.line, column: l.column }
}

impl Finding {
    /// A copy of this finding: every part equal, the trace step by step.
    pub fn duplicate(&self) -> (r: Finding)
        ensures
            r.id == self.id,
            r.fingerprint == self.fingerprint,
            r.rule == self.rule,
            r.confidence == self.confidence,
            r.source == self.source,
            r.sink == self.sink,
            r.access_path == self.access_path,
            r.trace.steps@ == self.trace.steps@,
            r.message == self.message,
    {
        let mut steps: Vec<TraceStep> = Vec::new();
        let mut i: usize = 0;
        while i < self.trace.steps.len()
            invariant
                i <= self.trace.steps@.len(),
                steps@ == self.trace.steps@.take(i as int),
            decreases self.trace.steps.len() - i,
        {
            let s = &self.trace.steps[i];
            steps.push(TraceStep { kind: s.kind, description: s.description.clone(), location: copy_location(&s.location) });
            assert(steps@ =~= self.trace.steps@.take(i + 1int));
            i = i + 1;
        }
        assert(self.trace.steps@.take(self.trace.steps@.len() as int) =~= self.trace.steps@);
        Finding {
            id: FindingId(self.id.0.clone()),
            fingerprint: FindingFingerprint(self.fingerprint.0.clone()),
            rule: RuleMetadata {
                rule_id: self.rule.rule_id.clone(),
                rule_name: self.rule.rule_name.clone(),
                cwe: self.rule.cwe,
                severity: self.rule.severity,
                category: crate::rules::copy_opt_string(&self.rule.category),
                language: crate::rules::copy_opt_string(&self.rule.language),
                description: crate::rules::copy_opt_string(&self.rule.description),
            },
            confidence: self.confidence,
            source: copy_location(&self.source),
            sink: copy_location(&self.sink),
            access_path: self.access_path.clone(),
            trace: FindingTrace { steps },
            message: DiagnosticMessage {
                title: self.message.title.clone(),
                detail: self.message.detail.clone(),
                remediation: crate::rules::copy_opt_string(&self.message.remediation),
            },
        }
    }

    /// The severity of the rule that matched.
    pub fn severity(&self) -> (r: &Severity)
        ensures
            *r == self.rule.severity,
    {
        &self.rule.severity
    }

    /// The CWE label of this finding.
    pub fn cwe_string(&self) -> (r: String)
        ensures
            r@ == cwe_text(self.rule.cwe),
    {
        match self.rule.cwe {
            Some(n) => {
                let mut s = String::from_str("CWE-");
                push_decimal(&mut s, n as u64);
                s
            },
            None => String::from_str("N/A"),
        }
    }
}

} // verus!

verus! {

/// The code points of a text, each shifted up by one, by which texts are
/// ordered.
pub open spec fn text_key(s: Seq<char>) -> Seq<u64> {
    s.map_values(|c: char| char_code(c))
}

/// The sort key of a finding: the code points of its fingerprint.
pub open spec fn finding_key(f: Finding) -> Seq<u64> {
    text_key(f.fingerprint.0@)
}

/// Whether the findings stand in strictly increasing fingerprint order,
/// which also makes their fingerprints distinct.
pub open spec fn sorted_by_fingerprint(s: Seq<Finding>) -> bool {
    forall|i: int, j: int| 0 <= i < j < s.len() ==> lex_lt(finding_key(#[trigger] s[i]), finding_key(#[trigger] s[j]))
}

/// Whether some finding of `s` has the fingerprint text `fp`.
pub open spec fn has_fingerprint(s: Seq<Finding>, fp: Seq<char>) -> bool {
    exists|i: int| 0 <= i < s.len() && (#[trigger] s[i]).fingerprint.0@ == fp
}

proof fn lemma_text_key_injective(a: Seq<char>, b: Seq<char>)
    requires
        text_key(a) == text_key(b),
    ensures
        a == b,
{
    assert(a.len() == text_key(a).len());
    assert(b.len() == text_key(b).len());
    assert forall|i: int| 0 <= i < a.len() implies a[i] == b[i] by {
        assert(text_key(a)[i] == char_code(a[i]));
        assert(text_key(b)[i] == char_code(b[i]));
        lemma_char_code_injective(a[i], b[i]);
    }
    assert(a =~= b);
}

/// The code points of `s`.
pub(crate) fn text_codes(s: &str) -> (r: Vec<u64>)
    ensures
        r@ == text_key(s@),
{
    let chars = crate::text::chars_of(s);
    let mut r: Vec<u64> = Vec::new();
    let mut i: usize = 0;
    while i < chars.len()
        invariant
            i <= chars@.len(),
            chars@ == s@,
            r@ == text_key(chars@.take(i as int)),
        decreases chars.len() - i,
    {
        r.push((chars[i] as u32) as u64 + 1);
        assert(text_key(chars@.take(i + 1int)) =~= text_key(chars@.take(i as int)).push(char_code(chars@[i as int])));
        i = i + 1;
    }
    assert(chars@.take(chars@.len() as int) =~= chars@);
    r
}

/// Findings without duplicates, kept in fingerprint order: a finding whose
/// fingerprint is already present is dropped.
#[derive(Debug)]
pub struct FindingCollection {
    findings: Vec<Finding>,
}

impl FindingCollection {
    /// The findings held, in fingerprint order.
    pub closed spec fn findings(&self) -> Seq<Finding> {
        self.findings@
    }

    #[verifier::type_invariant]
    spec fn in_order(self) -> bool {
        sorted_by_fingerprint(self.findings@)
    }

    /// The empty collection.
    pub fn new() -> (r: Self)
        ensures
            r.findings() == Seq::<Finding>::empty(),
    {
        FindingCollection { findings: Vec::new() }
    }

    /// Adds `finding` unless a finding with the same fingerprint is present;
    /// the collection stays in fingerprint order.
    pub fn add(&mut self, finding: Finding)
        ensures
            sorted_by_fingerprint(final(self).findings()),
            has_fingerprint(old(self).findings(), finding.fingerprint.0@) ==> final(self).findings() == old(self).findings(),
            !has_fingerprint(old(self).findings(), finding.fingerprint.0@) ==>
                exists|p: int| 0 <= p <= old(self).findings().len() && final(self).findings() == old(self).findings().insert(p, finding),
    {
        proof { use_type_invariant(&*self); }
        let k = text_codes(finding.fingerprint.0.as_str());
        let ghost s = self.findings@;
        let mut i: usize = 0;
        while i < self.findings.len() && lex_less(&text_codes(self.findings[i].fingerprint.0.as_str()), &k)
            invariant
                i <= s.len(),
                s == self.findings@,
                k@ == finding_key(finding),
                forall|j: int| 0 <= j < i ==> lex_lt(finding_key(#[trigger] s[j]), k@),
            decreases self.findings.len() - i,
        {
            i = i + 1;
        }
        if i < self.findings.len() {
            let ki = text_codes(self.findings[i].fingerprint.0.as_str());
            if crate::pointsto::keys_equal(&ki, &k) {
                proof {
                    lemma_text_key_injective(s[i as int].fingerprint.0@, finding.fingerprint.0@);
                }
                return;
            }
            proof {
                lemma_lex_total(ki@, k@);
            }
        }
        proof {
            assert forall|j: int| 0 <= j < s.len() implies (#[trigger] s[j]).fingerprint.0@ != finding.fingerprint.0@ by {
                if j < i {
                    lemma_lex_irreflexive(k@);
                } else {
                    if j > i {
                        lemma_lex_transitive(k@, finding_key(s[i as int]), finding_key(s[j]));
                    }
                    lemma_lex_irreflexive(k@);
                }
            }
        }
        let mut v: Vec<Finding> = Vec::new();
        std::mem::swap(&mut v, &mut self.findings);
        v.insert(i, finding);
        proof {
            let t = v@;
            assert(t =~= s.insert(i as int, finding));
            assert forall|a: int, b: int| 0 <= a < b < t.len() implies lex_lt(finding_key(#[trigger] t[a]), finding_key(#[trigger] t[b])) by {
                if b < i {
                    assert(t[a] == s[a] && t[b] == s[b]);
                } else if b == i {
                    assert(t[a] == s[a]);
                } else if a == i {
                    assert(t[b] == s[b - 1]);
                    if b - 1 > i {
                        lemma_lex_transitive(k@, finding_key(s[i as int]), finding_key(s[b - 1]));
                    }
                } else if a < i {
                    assert(t[a] == s[a] && t[b] == s[b - 1]);
                    if b - 1 > i {
                        lemma_lex_transitive(k@, finding_key(s[i as int]), finding_key(s[b - 1]));
                    }
                    lemma_lex_transitive(finding_key(s[a]), k@, finding_key(s[b - 1]));
                } else {
                    assert(t[a] == s[a - 1] && t[b] == s[b - 1]);
                }
            }
        }
        self.findings = v;
    }

    /// The findings, taken out in fingerprint order.
    pub fn into_sorted(self) -> (r: Vec<Finding>)
        ensures
            r@ == self.findings(),
            sorted_by_fingerprint(r@),
    {
        proof { use_type_invariant(&self); }
        self.findings
    }

    /// The findings in fingerprint order.
    pub fn findings_sorted(&self) -> (r: Vec<&Finding>)
        ensures
            r@.len() == self.findings().len(),
            forall|i: int| 0 <= i < r@.len() ==> *r@[i] == self.findings()[i],
            sorted_by_fingerprint(self.findings()),
    {
        proof { use_type_invariant(self); }
        let mut r: Vec<&Finding> = Vec::new();
        let mut i: usize = 0;
        while i < self.findings.len()
            invariant
                i <= self.findings@.len(),
                r@.len() == i,
                forall|j: int| 0 <= j < i ==> *r@[j] == self.findings@[j],
            decreases self.findings.len() - i,
        {
            r.push(&self.findings[i]);
            i = i + 1;
        }
        r
    }

    /// The number of findings.
    pub fn len(&self) -> (r: usize)
        ensures
            r == self.findings().len(),
    {
        self.findings.len()
    }

    /// Whether there is no finding.
    pub fn is_empty(&self) -> (r: bool)
        ensures
            r == (self.findings().len() == 0),
    {
        self.findings.len() == 0
    }
}

impl Default for FindingCollection {
    fn default() -> (r: Self)
        ensures
            r.findings() == Seq::<Finding>::empty(),
    {
        Self::new()
    }
}

/// A finding added twice is kept once: once its fingerprint is present,
/// adding it again leaves the collection as it is.
pub proof fn law_add_is_idempotent(s: Seq<Finding>, f: Finding, p: int)
    requires
        0 <= p <= s.len(),
    ensures
        has_fingerprint(s.insert(p, f), f.fingerprint.0@),
{
    assert(s.insert(p, f)[p] == f);
}


/// The fingerprints of a sequence of findings.
pub open spec fn fingerprints_of(s: Seq<Finding>) -> Seq<Seq<char>> {
    s.map_values(|f: Finding| f.fingerprint.0@)
}

/// The order of a report does not depend on the order its findings came
/// in: two fingerprint-ordered lists of findings with the same fingerprints
/// list those fingerprints in the same order.
pub proof fn law_report_order_unique(a: Seq<Finding>, b: Seq<Finding>)
    requires
        sorted_by_fingerprint(a),
        sorted_by_fingerprint(b),
        forall|fp: Seq<char>| has_fingerprint(a, fp) <==> has_fingerprint(b, fp),
    ensures
        fingerprints_of(a) == fingerprints_of(b),
    decreases a.len() + b.len(),
{
    if a.len() == 0 || b.len() == 0 {
        if a.len() > 0 {
            assert(has_fingerprint(a, a[0].fingerprint.0@));
        }
        if b.len() > 0 {
            assert(has_fingerprint(b, b[0].fingerprint.0@));
        }
        assert(fingerprints_of(a) =~= fingerprints_of(b));
    } else {
        let fa = a[0].fingerprint.0@;
        let fb = b[0].fingerprint.0@;
        assert(has_fingerprint(a, fa));
        assert(has_fingerprint(b, fb));
        let k = choose|k: int| 0 <= k < b.len() && (#[trigger] b[k]).fingerprint.0@ == fa;
        let m = choose|m: int| 0 <= m < a.len() && (#[trigger] a[m]).fingerprint.0@ == fb;
        if fa != fb {
            assert(m > 0 && k > 0);
            assert(lex_lt(finding_key(a[0]), finding_key(a[m])));
            assert(lex_lt(finding_key(b[0]), finding_key(b[k])));
            lemma_lex_asymmetric(finding_key(a[0]), finding_key(a[m]));
            assert(false);
        }
        let ta = a.drop_first();
        let tb = b.drop_first();
        assert forall|i: int, j: int| 0 <= i < j < ta.len() implies lex_lt(finding_key(#[trigger] ta[i]), finding_key(#[trigger] ta[j])) by {
            assert(ta[i] == a[i + 1] && ta[j] == a[j + 1]);
        }
        assert forall|i: int, j: int| 0 <= i < j < tb.len() implies lex_lt(finding_key(#[trigger] tb[i]), finding_key(#[trigger] tb[j])) by {
            assert(tb[i] == b[i + 1] && tb[j] == b[j + 1]);
        }
        assert forall|fp: Seq<char>| has_fingerprint(ta, fp) <==> has_fingerprint(tb, fp) by {
            if has_fingerprint(ta, fp) {
                let i = choose|i: int| 0 <= i < ta.len() && (#[trigger] ta[i]).fingerprint.0@ == fp;
                assert(a[i + 1].fingerprint.0@ == fp);
                assert(has_fingerprint(a, fp));
                let j = choose|j: int| 0 <= j < b.len() && (#[trigger] b[j]).fingerprint.0@ == fp;
                if j == 0 {
                    assert(lex_lt(finding_key(a[0]), finding_key(a[i + 1])));
                    lemma_lex_irreflexive(finding_key(a[0]));
                    assert(false);
                }
                assert(tb[j - 1] == b[j]);
            }
            if has_fingerprint(tb, fp) {
                let i = choose|i: int| 0 <= i < tb.len() && (#[trigger] tb[i]).fingerprint.0@ == fp;
                assert(b[i + 1].fingerprint.0@ == fp);
                assert(has_fingerprint(b, fp));
                let j = choose|j: int| 0 <= j < a.len() && (#[trigger] a[j]).fingerprint.0@ == fp;
                if j == 0 {
                    assert(lex_lt(finding_key(b[0]), finding_key(b[i + 1])));
                    lemma_lex_irreflexive(finding_key(b[0]));
                    assert(false);
                }
                assert(ta[j - 1] == a[j]);
            }
        }
        law_report_order_unique(ta, tb);
        assert(fingerprints_of(ta).len() == ta.len());
        assert(fingerprints_of(tb).len() == tb.len());
        assert(a.len() == b.len());
        assert forall|i: int| 0 <= i < a.len() implies fingerprints_of(a)[i] == fingerprints_of(b)[i] by {
            if i > 0 {
                assert(fingerprints_of(a)[i] == fingerprints_of(ta)[i - 1]);
                assert(fingerprints_of(b)[i] == fingerprints_of(tb)[i - 1]);
            }
        }
        assert(fingerprints_of(a).len() == 1 + fingerprints_of(ta).len());
        assert(fingerprints_of(a) =~= fingerprints_of(b));
    }
}
} // verus!

verus! {

/// The steps of a trace, built from (kind, description, location) triples.
pub open spec fn steps_of(steps: Seq<(TraceStepKind, String, SourceLocation)>) -> Seq<TraceStep> {
    steps.map_values(|t: (TraceStepKind, String, SourceLocation)| TraceStep { kind: t.0, description: t.1, location: t.2 })
}

/// Builds a trace from an ordered list of steps.
pub struct TraceBuilder;

impl TraceBuilder {
    /// The trace with the given steps, in order.
    pub fn build(steps: Vec<(TraceStepKind, String, SourceLocation)>) -> (r: FindingTrace)
        ensures
            r.steps@ == steps_of(steps@),
    {
        let ghost orig = steps@;
        let mut rest = steps;
        let mut trace = FindingTrace::new();
        while rest.len() > 0
            invariant
                rest@.len() <= orig.len(),
                rest@ == orig.skip(orig.len() - rest@.len()),
                trace.steps@ == steps_of(orig.take(orig.len() - rest@.len())),
            decreases rest.len(),
        {
            let ghost done = orig.len() - rest@.len();
            let (kind, description, location) = rest.remove(0);
            assert(orig.skip(done + 1) =~= orig.skip(done).drop_first());
            trace.push(TraceStep { kind, description, location });
            assert(steps_of(orig.take(done + 1)) =~= steps_of(orig.take(done)).push(
                TraceStep { kind: orig[done].0, description: orig[done].1, location: orig[done].2 }));
        }
        assert(orig.take(orig.len() as int) =~= orig);
        trace
    }
}

/// `d` padded on the left with zeros to at least four characters.
pub open spec fn zero_pad4(d: Seq<char>) -> Seq<char> {
    if d.len() >= 4 {
        d
    } else {
        Seq::new((4 - d.len()) as nat, |i: int| '0') + d
    }
}

/// The identifier of the `n`-th finding of a report: `F-` and `n` written
/// with at least four digits.
pub open spec fn finding_id_text(n: nat) -> Seq<char> {
    "F-"@ + zero_pad4(decimal(n))
}

/// Whether `after` is `before` with `f` added as a collection adds it.
pub open spec fn added(before: Seq<Finding>, after: Seq<Finding>, f: Finding) -> bool {
    &&& has_fingerprint(before, f.fingerprint.0@) ==> after == before
    &&& !has_fingerprint(before, f.fingerprint.0@) ==> exists|p: int| 0 <= p <= before.len() && after == before.insert(p, f)
}

/// The identifier text of the `n`-th finding.
fn finding_id_string(n: u32) -> (r: String)
    ensures
        r@ == finding_id_text(n as nat),
{
    let mut digits = String::new();
    push_decimal(&mut digits, n as u64);
    let count = crate::text::chars_of(digits.as_str()).len();
    let mut r = String::from_str("F-");
    let mut i: usize = count;
    while i < 4
        invariant
            count <= i <= 4 || (count > 4 && i == count),
            count == decimal(n as nat).len(),
            r@ == "F-"@ + Seq::new((i - count) as nat, |j: int| '0'),
        decreases 4 - i,
    {
        crate::text::push_char(&mut r, '0');
        assert(r@ =~= "F-"@ + Seq::new((i + 1 - count) as nat, |j: int| '0'));
        i = i + 1;
    }
    r.append(digits.as_str());
    if count >= 4 {
        assert(Seq::new((i - count) as nat, |j: int| '0') =~= Seq::<char>::empty());
    }
    assert(r@ =~= finding_id_text(n as nat));
    r
}

/// Builds a collection of findings, numbering them as they come.
pub struct ReportBuilder {
    collection: FindingCollection,
    id_counter: u32,
}

impl ReportBuilder {
    /// The findings gathered so far, in fingerprint order.
    pub closed spec fn report(&self) -> Seq<Finding> {
        self.collection.findings()
    }

    /// How many findings were offered so far, kept or not.
    pub closed spec fn counter(&self) -> u32 {
        self.id_counter
    }

    /// A builder with no finding.
    pub fn new() -> (r: Self)
        ensures
            r.report() == Seq::<Finding>::empty(),
            r.counter() == 0,
    {
        ReportBuilder { collection: FindingCollection::new(), id_counter: 0 }
    }

    /// Offers a finding built from its parts: it is numbered with the next
    /// identifier, its fingerprint is computed, and it is kept unless a
    /// finding with the same fingerprint is already there.
    pub fn add_finding(
        &mut self,
        rule: RuleMetadata,
        confidence: Confidence,
        source: SourceLocation,
        sink: SinkLocation,
        access_path: String,
        trace: FindingTrace,
        message: DiagnosticMessage,
    ) -> (r: &mut Self)
        requires
            old(self).counter() < u32::MAX,
        ensures
            r.counter() == old(self).counter() + 1,
            exists|f: Finding| {
                &&& f.id.0@ == finding_id_text(r.counter() as nat)
                &&& f.fingerprint.0@ == fingerprint_text(rule.rule_id@, source, sink, access_path@)
                &&& f.rule == rule
                &&& f.confidence == confidence
                &&& f.source == source
                &&& f.sink == sink
                &&& f.access_path == access_path
                &&& f.trace == trace
                &&& f.message == message
                &&& added(old(self).report(), r.report(), f)
            },
            *final(self) == *final(r),
    {
        let fingerprint = FindingFingerprint::compute(rule.rule_id.as_str(), &source, &sink, access_path.as_str());
        self.id_counter = self.id_counter + 1;
        let id = FindingId(finding_id_string(self.id_counter));
        let finding = Finding { id, fingerprint, rule, confidence, source, sink, access_path, trace, message };
        let ghost f = finding;
        self.collection.add(finding);
        assert(added(old(self).report(), self.report(), f));
        self
    }

    /// The collection gathered.
    pub fn build(self) -> (r: FindingCollection)
        ensures
            r.findings() == self.report(),
    {
        self.collection
    }
}

impl Default for ReportBuilder {
    fn default() -> (r: Self)
        ensures
            r.report() == Seq::<Finding>::empty(),
            r.counter() == 0,
    {
        Self::new()
    }
}

} // verus!

verus! {

/// The severity as the report prints it, in capitals.
pub open spec fn severity_text(s: Severity) -> Seq<char> {
    match s {
        Severity::Critical => "CRITICAL"@,
        Severity::High => "HIGH"@,
        Severity::Medium => "MEDIUM"@,
        Severity::Low => "LOW"@,
        Severity::Info => "INFO"@,
    }
}

/// The severity as the report prints it.
fn severity_str(s: Severity) -> (r: &'static str)
    ensures
        r@ == severity_text(s),
{
    match s {
        Severity::Critical => "CRITICAL",
        Severity::High => "HIGH",
        Severity::Medium => "MEDIUM",
        Severity::Low => "LOW",
        Severity::Info => "INFO",
    }
}

/// The report line of one trace step.
pub open spec fn step_line(st: TraceStep) -> Seq<char> {
    "    ["@ + step_label(st.kind) + "] "@ + st.description@ + " @ "@ + st.location.text() + "\n"@
}

/// The report lines of a sequence of trace steps.
pub open spec fn steps_text(s: Seq<TraceStep>) -> Seq<char>
    decreases s.len(),
{
    if s.len() == 0 {
        Seq::empty()
    } else {
        steps_text(s.drop_last()) + step_line(s.last())
    }
}

/// The first line of a finding's block: severity, CWE and title.
pub open spec fn head_line(f: Finding) -> Seq<char> {
    severity_text(f.rule.severity) + " "@ + cwe_text(f.rule.cwe) + " "@ + f.message.title@ + "\n"@
}

/// The line naming the rule of a finding.
pub open spec fn rule_line(f: Finding) -> Seq<char> {
    "  Rule   : "@ + f.rule.rule_name@ + " ("@ + f.rule.rule_id@ + ")"@ + "\n"@
}

/// A line made of a label and a text.
pub open spec fn labeled_line(label: Seq<char>, text: Seq<char>) -> Seq<char> {
    label + text + "\n"@
}

/// The trace part of a finding's block: nothing for an empty trace.
pub open spec fn trace_part(steps: Seq<TraceStep>) -> Seq<char> {
    if steps.len() == 0 { Seq::empty() } else { "  Trace  :"@ + "\n"@ + steps_text(steps) }
}

/// The report block of one finding, ending with an empty line.
pub open spec fn finding_block(f: Finding) -> Seq<char> {
    head_line(f) + rule_line(f)
        + labeled_line("  Source : "@, f.source.text())
        + labeled_line("  Sink   : "@, f.sink.text())
        + labeled_line("  Path   : "@, f.access_path@)
        + labeled_line("  Confidence: "@, confidence_text(f.confidence))
        + trace_part(f.trace.steps@)
        + "\n"@
}

/// The report blocks of a sequence of findings.
pub open spec fn findings_text(s: Seq<Finding>) -> Seq<char>
    decreases s.len(),
{
    if s.len() == 0 {
        Seq::empty()
    } else {
        findings_text(s.drop_last()) + finding_block(s.last())
    }
}

/// The plain-text report of a collection.
pub open spec fn console_text(s: Seq<Finding>) -> Seq<char> {
    if s.len() == 0 {
        "No findings."@ + "\n"@
    } else {
        findings_text(s)
    }
}

/// Appends the report lines of `steps` to `out`.
fn write_steps(out: &mut String, steps: &Vec<TraceStep>)
    ensures
        final(out)@ == old(out)@ + steps_text(steps@),
{
    let mut i: usize = 0;
    while i < steps.len()
        invariant
            i <= steps@.len(),
            out@ == old(out)@ + steps_text(steps@.take(i as int)),
        decreases steps.len() - i,
    {
        let st = &steps[i];
        let ghost before = out@;
        out.append("    [");
        out.append(st.kind.label());
        out.append("] ");
        out.append(st.description.as_str());
        out.append(" @ ");
        st.location.write_text(out);
        out.append("\n");
        assert(steps@.take(i + 1int).drop_last() =~= steps@.take(i as int));
        assert(out@ =~= before + step_line(*st));
        i = i + 1;
    }
    assert(steps@.take(steps@.len() as int) =~= steps@);
}

/// Appends the first line of the block of `f` to `out`.
fn write_head(out: &mut String, f: &Finding)
    ensures
        final(out)@ == old(out)@ + head_line(*f),
{
    out.append(severity_str(f.rule.severity));
    out.append(" ");
    let cwe = f.cwe_string();
    out.append(cwe.as_str());
    out.append(" ");
    out.append(f.message.title.as_str());
    out.append("\n");
    assert(out@ =~= old(out)@ + head_line(*f));
}

/// Appends the rule line of the block of `f` to `out`.
fn write_rule(out: &mut String, f: &Finding)
    ensures
        final(out)@ == old(out)@ + rule_line(*f),
{
    out.append("  Rule   : ");
    out.append(f.rule.rule_name.as_str());
    out.append(" (");
    out.append(f.rule.rule_id.as_str());
    out.append(")");
    out.append("\n");
    assert(out@ =~= old(out)@ + rule_line(*f));
}

/// Appends a labelled location line to `out`.
fn write_location_line(out: &mut String, label: &str, loc: &SourceLocation)
    ensures
        final(out)@ == old(out)@ + labeled_line(label@, loc.text()),
{
    out.append(label);
    loc.write_text(out);
    out.append("\n");
    assert(out@ =~= old(out)@ + labeled_line(label@, loc.text()));
}

/// Appends a labelled text line to `out`.
fn write_text_line(out: &mut String, label: &str, text: &str)
    ensures
        final(out)@ == old(out)@ + labeled_line(label@, text@),
{
    out.append(label);
    out.append(text);
    out.append("\n");
    assert(out@ =~= old(out)@ + labeled_line(label@, text@));
}

/// Appends the trace part of a block to `out`.
fn write_trace(out: &mut String, steps: &Vec<TraceStep>)
    ensures
        final(out)@ == old(out)@ + trace_part(steps@),
{
    if steps.len() > 0 {
        out.append("  Trace  :");
        out.append("\n");
        write_steps(out, steps);
        assert(out@ =~= old(out)@ + trace_part(steps@));
    } else {
        assert(out@ =~= old(out)@ + trace_part(steps@));
    }
}

/// Appends the report block of `f` to `out`.
fn write_finding(out: &mut String, f: &Finding)
    ensures
        final(out)@ == old(out)@ + finding_block(*f),
{
    let ghost o0 = out@;
    write_head(out, f);
    write_rule(out, f);
    write_location_line(out, "  Source : ", &f.source);
    write_location_line(out, "  Sink   : ", &f.sink);
    write_text_line(out, "  Path   : ", f.access_path.as_str());
    write_text_line(out, "  Confidence: ", f.confidence.as_str());
    write_trace(out, &f.trace.steps);
    out.append("\n");
    assert(out@ =~= o0 + finding_block(*f));
}

/// Formats a collection as plain text for a terminal.
pub struct ConsoleFormatter;

impl ConsoleFormatter {
    /// The plain-text report: one block per finding in fingerprint order,
    /// or a single line when there is none.
    pub fn format(collection: &FindingCollection) -> (r: String)
        ensures
            r@ == console_text(collection.findings()),
    {
        let mut out = String::new();
        let findings = collection.findings_sorted();
        if findings.len() == 0 {
            out.append("No findings.");
            out.append("\n");
            return out;
        }
        let ghost s = collection.findings();
        let mut i: usize = 0;
        while i < findings.len()
            invariant
                i <= findings@.len(),
                findings@.len() == s.len(),
                forall|j: int| 0 <= j < findings@.len() ==> *findings@[j] == s[j],
                out@ == findings_text(s.take(i as int)),
            decreases findings.len() - i,
        {
            write_finding(&mut out, findings[i]);
            assert(s.take(i + 1int).drop_last() =~= s.take(i as int));
            i = i + 1;
        }
        assert(s.take(s.len() as int) =~= s);
        out
    }
}

/// Serialises a collection as JSON; the work is done outside the library.
pub struct JsonExporter;

/// Serialises a collection as SARIF 2.1.0; the work is done outside the library.
pub struct SarifExporter;

/// The reporting facade over one collection of findings.
pub struct Reporter {
    pub collection: FindingCollection,
}

impl Reporter {
    /// A reporter over `collection`.
    pub fn new(collection: FindingCollection) -> (r: Self)
        ensures
            r.collection.findings() == collection.findings(),
    {
        Reporter { collection }
    }

    /// The plain-text report.
    pub fn to_console(&self) -> (r: String)
        ensures
            r@ == console_text(self.collection.findings()),
    {
        ConsoleFormatter::format(&self.collection)
    }
}


/// The SARIF level of a severity: critical and high are errors, medium a
/// warning, low and informational notes.
pub open spec fn sarif_level_text(s: Severity) -> Seq<char> {
    match s {
        Severity::Critical | Severity::High => "error"@,
        Severity::Medium => "warning"@,
        Severity::Low | Severity::Info => "note"@,
    }
}

/// The SARIF level of a severity.
pub fn sarif_level(severity: &Severity) -> (r: &'static str)
    ensures
        r@ == sarif_level_text(*severity),
{
    match severity {
        Severity::Critical | Severity::High => "error",
        Severity::Medium => "warning",
        Severity::Low | Severity::Info => "note",
    }
}

/// The sort key of a rule: the code points of its identifier.
pub open spec fn rule_key(m: RuleMetadata) -> Seq<u64> {
    text_key(m.rule_id@)
}

/// Whether rules stand in strictly increasing identifier order, which also
/// makes their identifiers distinct.
pub open spec fn sorted_by_rule_id(s: Seq<RuleMetadata>) -> bool {
    forall|i: int, j: int| 0 <= i < j < s.len() ==> lex_lt(rule_key(#[trigger] s[i]), rule_key(#[trigger] s[j]))
}

/// Whether `m` is the rule of the first finding of `fs` with its identifier.
pub open spec fn first_rule_of(fs: Seq<Finding>, m: RuleMetadata) -> bool {
    exists|j: int| 0 <= j < fs.len() && (#[trigger] fs[j]).rule == m
        && forall|a: int| 0 <= a < j ==> (#[trigger] fs[a]).rule.rule_id@ != m.rule_id@
}

/// Whether some rule of `s` has identifier `id`.
pub open spec fn has_rule_id(s: Seq<RuleMetadata>, id: Seq<char>) -> bool {
    exists|k: int| 0 <= k < s.len() && (#[trigger] s[k]).rule_id@ == id
}

/// Whether every rule of `s` is the rule of a first finding, among the
/// first `n` of `fs`, with its identifier.
pub open spec fn rules_first_among(s: Seq<RuleMetadata>, fs: Seq<Finding>, n: int) -> bool {
    forall|k: int| 0 <= k < s.len() ==> exists|j: int| 0 <= j < n && (#[trigger] fs[j]).rule == #[trigger] s[k]
        && forall|a: int| 0 <= a < j ==> (#[trigger] fs[a]).rule.rule_id@ != s[k].rule_id@
}

/// Inserting the rule of finding `i`, whose identifier no earlier finding
/// has, at its place in identifier order keeps what `sarif_rules` keeps.
proof fn lemma_rules_insert(s: Seq<RuleMetadata>, p: int, m: RuleMetadata, fs: Seq<Finding>, i: int)
    requires
        0 <= p <= s.len(),
        0 <= i < fs.len(),
        fs[i].rule == m,
        sorted_by_rule_id(s),
        forall|j: int| 0 <= j < p ==> lex_lt(rule_key(#[trigger] s[j]), rule_key(m)),
        p < s.len() ==> lex_lt(rule_key(m), rule_key(s[p])),
        forall|j: int| 0 <= j < i ==> has_rule_id(s, (#[trigger] fs[j]).rule.rule_id@),
        rules_first_among(s, fs, i),
        forall|a: int| 0 <= a < i ==> (#[trigger] fs[a]).rule.rule_id@ != m.rule_id@,
    ensures
        sorted_by_rule_id(s.insert(p, m)),
        forall|j: int| 0 <= j < i + 1 ==> has_rule_id(s.insert(p, m), (#[trigger] fs[j]).rule.rule_id@),
        rules_first_among(s.insert(p, m), fs, i + 1),
{
    let t = s.insert(p, m);
    let key = rule_key(m);
    assert forall|a: int, b: int| 0 <= a < b < t.len() implies lex_lt(rule_key(#[trigger] t[a]), rule_key(#[trigger] t[b])) by {
        if b < p {
            assert(t[a] == s[a] && t[b] == s[b]);
        } else if b == p {
            assert(t[a] == s[a]);
        } else if a == p {
            assert(t[b] == s[b - 1]);
            if b - 1 > p {
                lemma_lex_transitive(key, rule_key(s[p]), rule_key(s[b - 1]));
            }
        } else if a < p {
            assert(t[a] == s[a] && t[b] == s[b - 1]);
            if b - 1 > p {
                lemma_lex_transitive(key, rule_key(s[p]), rule_key(s[b - 1]));
            }
            lemma_lex_transitive(rule_key(s[a]), key, rule_key(s[b - 1]));
        } else {
            assert(t[a] == s[a - 1] && t[b] == s[b - 1]);
        }
    }
    assert forall|j: int| 0 <= j < i + 1 implies has_rule_id(t, (#[trigger] fs[j]).rule.rule_id@) by {
        if j == i {
            assert(t[p] == m);
        } else {
            let k = choose|k: int| 0 <= k < s.len() && (#[trigger] s[k]).rule_id@ == fs[j].rule.rule_id@;
            if k < p {
                assert(t[k] == s[k]);
            } else {
                assert(t[k + 1] == s[k]);
            }
        }
    }
    assert forall|k: int| 0 <= k < t.len() implies exists|j: int| 0 <= j < i + 1 && (#[trigger] fs[j]).rule == #[trigger] t[k]
        && forall|a: int| 0 <= a < j ==> (#[trigger] fs[a]).rule.rule_id@ != t[k].rule_id@ by {
        if k == p {
            assert(fs[i].rule == t[k]);
        } else if k < p {
            assert(t[k] == s[k]);
        } else {
            assert(t[k] == s[k - 1]);
        }
    }
}

/// The rules a SARIF run declares: for each rule identifier among the
/// findings, the rule of the first finding that has it, in identifier order.
pub fn sarif_rules(findings: &Vec<&Finding>) -> (r: Vec<RuleMetadata>)
    ensures
        sorted_by_rule_id(r@),
        forall|j: int| 0 <= j < findings@.len() ==> has_rule_id(r@, (#[trigger] findings@[j]).rule.rule_id@),
        forall|k: int| 0 <= k < r@.len() ==> first_rule_of(findings@.map_values(|f: &Finding| *f), #[trigger] r@[k]),
{
    let ghost fs = findings@.map_values(|f: &Finding| *f);
    let mut out: Vec<RuleMetadata> = Vec::new();
    let mut i: usize = 0;
    while i < findings.len()
        invariant
            i <= findings@.len(),
            fs == findings@.map_values(|f: &Finding| *f),
            sorted_by_rule_id(out@),
            forall|j: int| 0 <= j < i ==> has_rule_id(out@, (#[trigger] fs[j]).rule.rule_id@),
            rules_first_among(out@, fs, i as int),
        decreases findings.len() - i,
    {
        let m = &findings[i].rule;
        assert(fs[i as int].rule == *m);
        let key = text_codes(m.rule_id.as_str());
        let ghost s = out@;
        let mut p: usize = 0;
        while p < out.len() && lex_less(&text_codes(out[p].rule_id.as_str()), &key)
            invariant
                p <= s.len(),
                s == out@,
                key@ == rule_key(*m),
                forall|j: int| 0 <= j < p ==> lex_lt(rule_key(#[trigger] s[j]), key@),
            decreases out.len() - p,
        {
            p = p + 1;
        }
        let mut present = false;
        if p < out.len() {
            let kp = text_codes(out[p].rule_id.as_str());
            if crate::pointsto::keys_equal(&kp, &key) {
                proof {
                    lemma_text_key_injective(s[p as int].rule_id@, m.rule_id@);
                }
                present = true;
            } else {
                proof {
                    lemma_lex_total(kp@, key@);
                }
            }
        }
        if present {
            assert(has_rule_id(out@, fs[i as int].rule.rule_id@));
        } else {
            proof {
                assert forall|j: int| 0 <= j < s.len() implies (#[trigger] s[j]).rule_id@ != m.rule_id@ by {
                    if j < p {
                        lemma_lex_irreflexive(key@);
                    } else {
                        if j > p {
                            lemma_lex_transitive(key@, rule_key(s[p as int]), rule_key(s[j]));
                        }
                        lemma_lex_irreflexive(key@);
                    }
                }
                assert forall|a: int| 0 <= a < i implies (#[trigger] fs[a]).rule.rule_id@ != m.rule_id@ by {
                    let k = choose|k: int| 0 <= k < s.len() && (#[trigger] s[k]).rule_id@ == fs[a].rule.rule_id@;
                }
                lemma_rules_insert(s, p as int, *m, fs, i as int);
            }
            let copy = RuleMetadata {
                rule_id: m.rule_id.clone(),
                rule_name: m.rule_name.clone(),
                cwe: m.cwe,
                severity: m.severity,
                category: crate::rules::copy_opt_string(&m.category),
                language: crate::rules::copy_opt_string(&m.language),
                description: crate::rules::copy_opt_string(&m.description),
            };
            out.insert(p, copy);
            assert(out@ =~= s.insert(p as int, *m));
        }
        i = i + 1;
    }
    assert forall|j: int| 0 <= j < findings@.len() implies has_rule_id(out@, (#[trigger] findings@[j]).rule.rule_id@) by {
        assert(fs[j] == *findings@[j]);
    }
    out
}

} // verus!
