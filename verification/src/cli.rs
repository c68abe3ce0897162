//! The command-line layer's logic: configuration merging, baselines,
//! log filtering and progress counting.
use vstd::prelude::*;
use crate::engine::{copy_strings, default_pack_names, string_views, AnalysisConfiguration};
use crate::reporting::Finding;
use crate::rules::{rule_views, RulePackView};
use crate::rulepacks::packs::{all_packs_view, pack_views};

verus! {

broadcast use vstd::string::group_string_axioms;

/// The settings a configuration file or the command line may give; each is
/// optional.
#[derive(Debug, Clone)]
pub struct CliConfiguration {
    pub languages: Option<Vec<String>>,
    pub rule_packs: Option<Vec<String>>,
    pub enabled_rules: Option<Vec<String>>,
    pub disabled_rules: Option<Vec<String>>,
    pub enabled_cwes: Option<Vec<u32>>,
    pub excluded_directories: Option<Vec<String>>,
    pub excluded_files: Option<Vec<String>>,
    pub follow_symlinks: Option<bool>,
    pub incremental_mode: Option<bool>,
    pub scheduler_threads: Option<usize>,
    pub context_depth: Option<usize>,
    pub access_path_depth: Option<usize>,
    pub object_sensitivity: Option<bool>,
    pub report_formats: Option<Vec<String>>,
    pub severity_thresholds: Option<Vec<String>>,
    pub confidence_thresholds: Option<Vec<String>>,
    pub output_directory: Option<String>,
    pub baseline_file: Option<String>,
}

/// The first of two optional settings that is present.
pub open spec fn first_of<T>(a: Option<T>, b: Option<T>) -> Option<T> {
    match a {
        Some(x) => Some(x),
        None => b,
    }
}

/// The first of two optional settings that is present.
fn pick<T>(a: Option<T>, b: Option<T>) -> (r: Option<T>)
    ensures
        r == first_of(a, b),
{
    match a {
        Some(x) => Some(x),
        None => b,
    }
}

/// A copy of an optional list of strings.
fn copy_opt_strings(v: &Option<Vec<String>>) -> (r: Option<Vec<String>>)
    ensures
        match (r, *v) {
            (Some(a), Some(b)) => a@ == b@,
            (None, None) => true,
            _ => false,
        },
{
    match v {
        Some(x) => Some(copy_strings(x)),
        None => None,
    }
}

/// A copy of a list of numbers.
fn copy_numbers(v: &Vec<u32>) -> (r: Vec<u32>)
    ensures
        r@ == v@,
{
    let mut r: Vec<u32> = Vec::new();
    let mut i: usize = 0;
    while i < v.len()
        invariant
            i <= v@.len(),
            r@ == v@.take(i as int),
        decreases v.len() - i,
    {
        r.push(v[i]);
        assert(r@ =~= v@.take(i + 1int));
        i = i + 1;
    }
    assert(v@.take(v@.len() as int) =~= v@);
    r
}

impl CliConfiguration {
    /// The configuration with each setting of `overrides` that is present
    /// in place of this one's.
    pub fn merge_with_cli_overrides(self, overrides: CliConfiguration) -> (r: Self)
        ensures
            r.languages == first_of(overrides.languages, self.languages),
            r.rule_packs == first_of(overrides.rule_packs, self.rule_packs),
            r.enabled_rules == first_of(overrides.enabled_rules, self.enabled_rules),
            r.disabled_rules == first_of(overrides.disabled_rules, self.disabled_rules),
            r.enabled_cwes == first_of(overrides.enabled_cwes, self.enabled_cwes),
            r.excluded_directories == first_of(overrides.excluded_directories, self.excluded_directories),
            r.excluded_files == first_of(overrides.excluded_files, self.excluded_files),
            r.follow_symlinks == first_of(overrides.follow_symlinks, self.follow_symlinks),
            r.incremental_mode == first_of(overrides.incremental_mode, self.incremental_mode),
            r.scheduler_threads == first_of(overrides.scheduler_threads, self.scheduler_threads),
            r.context_depth == first_of(overrides.context_depth, self.context_depth),
            r.access_path_depth == first_of(overrides.access_path_depth, self.access_path_depth),
            r.object_sensitivity == first_of(overrides.object_sensitivity, self.object_sensitivity),
            r.report_formats == first_of(overrides.report_formats, self.report_formats),
            r.severity_thresholds == first_of(overrides.severity_thresholds, self.severity_thresholds),
            r.confidence_thresholds == first_of(overrides.confidence_thresholds, self.confidence_thresholds),
            r.output_directory == first_of(overrides.output_directory, self.output_directory),
            r.baseline_file == first_of(overrides.baseline_file, self.baseline_file),
    {
        CliConfiguration {
            languages: pick(overrides.languages, self.languages),
            rule_packs: pick(overrides.rule_packs, self.rule_packs),
            enabled_rules: pick(overrides.enabled_rules, self.enabled_rules),
            disabled_rules: pick(overrides.disabled_rules, self.disabled_rules),
            enabled_cwes: pick(overrides.enabled_cwes, self.enabled_cwes),
            excluded_directories: pick(overrides.excluded_directories, self.excluded_directories),
            excluded_files: pick(overrides.excluded_files, self.excluded_files),
            follow_symlinks: pick(overrides.follow_symlinks, self.follow_symlinks),
            incremental_mode: pick(overrides.incremental_mode, self.incremental_mode),
            scheduler_threads: pick(overrides.scheduler_threads, self.scheduler_threads),
            context_depth: pick(overrides.context_depth, self.context_depth),
            access_path_depth: pick(overrides.access_path_depth, self.access_path_depth),
            object_sensitivity: pick(overrides.object_sensitivity, self.object_sensitivity),
            report_formats: pick(overrides.report_formats, self.report_formats),
            severity_thresholds: pick(overrides.severity_thresholds, self.severity_thresholds),
            confidence_thresholds: pick(overrides.confidence_thresholds, self.confidence_thresholds),
            output_directory: pick(overrides.output_directory, self.output_directory),
            baseline_file: pick(overrides.baseline_file, self.baseline_file),
        }
    }

    /// The engine configuration: each setting given here, or the engine's
    /// default for it.
    pub fn to_engine_config(&self) -> (r: AnalysisConfiguration)
        ensures
            string_views(r.languages@) == match self.languages { Some(v) => string_views(v@), None => seq!["python"@, "java"@] },
            string_views(r.rule_packs@) == match self.rule_packs { Some(v) => string_views(v@), None => default_pack_names() },
            r.enabled_cwes@ == match self.enabled_cwes { Some(v) => v@, None => Seq::empty() },
            string_views(r.excluded_directories@) == match self.excluded_directories { Some(v) => string_views(v@), None => Seq::empty() },
            string_views(r.excluded_files@) == match self.excluded_files { Some(v) => string_views(v@), None => Seq::empty() },
            r.max_context_depth == match self.context_depth { Some(d) => d, None => 2 },
            r.max_access_path_depth == match self.access_path_depth { Some(d) => d, None => 5 },
            r.scheduler_threads == match self.scheduler_threads { Some(n) => n, None => 4 },
            r.incremental_mode == match self.incremental_mode { Some(b) => b, None => true },
    {
        let d = AnalysisConfiguration::default();
        proof {
            assert(string_views(d.excluded_directories@) =~= Seq::<Seq<char>>::empty());
            assert(string_views(d.excluded_files@) =~= Seq::<Seq<char>>::empty());
            assert(d.enabled_cwes@ =~= Seq::<u32>::empty());
        }
        AnalysisConfiguration {
            languages: match &self.languages { Some(v) => copy_strings(v), None => d.languages },
            rule_packs: match &self.rule_packs { Some(v) => copy_strings(v), None => d.rule_packs },
            enabled_cwes: match &self.enabled_cwes { Some(v) => copy_numbers(v), None => d.enabled_cwes },
            excluded_directories: match &self.excluded_directories { Some(v) => copy_strings(v), None => d.excluded_directories },
            excluded_files: match &self.excluded_files { Some(v) => copy_strings(v), None => d.excluded_files },
            max_context_depth: match self.context_depth { Some(x) => x, None => d.max_context_depth },
            max_access_path_depth: match self.access_path_depth { Some(x) => x, None => d.max_access_path_depth },
            scheduler_threads: match self.scheduler_threads { Some(x) => x, None => d.scheduler_threads },
            incremental_mode: match self.incremental_mode { Some(x) => x, None => d.incremental_mode },
        }
    }
}

/// The fingerprints of the findings a baseline was taken from.
#[derive(Debug, Clone, Default)]
pub struct Baseline {
    pub fingerprints: Vec<String>,
}

/// How the findings of a run compare with a baseline.
pub struct BaselineComparison {
    pub new_findings: Vec<Finding>,
    pub resolved_findings: Vec<String>,
    pub unchanged_findings: Vec<Finding>,
}

/// The fingerprints of a sequence of findings.
pub open spec fn fingerprint_views(fs: Seq<Finding>) -> Seq<Seq<char>> {
    fs.map_values(|f: Finding| f.fingerprint.0@)
}

/// Whether fingerprint `fp` is in the baseline.
pub open spec fn in_baseline(base: Seq<String>, fp: Seq<char>) -> bool {
    exists|k: int| 0 <= k < base.len() && (#[trigger] base[k])@ == fp
}

/// The fingerprints of the findings that are, or are not, in the baseline,
/// in order.
pub open spec fn select_fingerprints(fs: Seq<Finding>, base: Seq<String>, in_base: bool) -> Seq<Seq<char>>
    decreases fs.len(),
{
    if fs.len() == 0 {
        Seq::empty()
    } else {
        select_fingerprints(fs.drop_last(), base, in_base)
            + if in_baseline(base, fs.last().fingerprint.0@) == in_base { seq![fs.last().fingerprint.0@] } else { Seq::empty() }
    }
}

/// Whether `b` is a copy of the finding `a`: every part equal.
pub open spec fn same_finding(a: Finding, b: Finding) -> bool {
    &&& a.id == b.id
    &&& a.fingerprint == b.fingerprint
    &&& a.rule == b.rule
    &&& a.confidence == b.confidence
    &&& a.source == b.source
    &&& a.sink == b.sink
    &&& a.access_path == b.access_path
    &&& a.trace.steps@ == b.trace.steps@
    &&& a.message == b.message
}

/// The findings of `fs`, in order, whose fingerprint is in the baseline
/// (`in_base`) or is not.
pub open spec fn select_findings(fs: Seq<Finding>, base: Seq<String>, in_base: bool) -> Seq<Finding>
    decreases fs.len(),
{
    if fs.len() == 0 {
        Seq::empty()
    } else {
        select_findings(fs.drop_last(), base, in_base)
            + if in_baseline(base, fs.last().fingerprint.0@) == in_base { seq![fs.last()] } else { Seq::empty() }
    }
}

/// Whether `a` holds, in order, copies of the findings `b`.
pub open spec fn copies_of(a: Seq<Finding>, b: Seq<Finding>) -> bool {
    a.len() == b.len() && forall|i: int| 0 <= i < a.len() ==> same_finding(#[trigger] a[i], b[i])
}

/// The baseline fingerprints no finding has any more, in order.
pub open spec fn resolved_fingerprints(base: Seq<String>, fs: Seq<Finding>) -> Seq<Seq<char>>
    decreases base.len(),
{
    if base.len() == 0 {
        Seq::empty()
    } else {
        resolved_fingerprints(base.drop_last(), fs)
            + if fingerprint_views(fs).contains(base.last()@) { Seq::empty() } else { seq![base.last()@] }
    }
}

/// Findings all of whose fingerprints are in the baseline are all selected
/// as in it, and none as new.
proof fn lemma_select_all_in(fs: Seq<Finding>, base: Seq<String>)
    requires
        forall|i: int| 0 <= i < fs.len() ==> in_baseline(base, (#[trigger] fs[i]).fingerprint.0@),
    ensures
        select_fingerprints(fs, base, true) == fingerprint_views(fs),
        select_fingerprints(fs, base, false) == Seq::<Seq<char>>::empty(),
    decreases fs.len(),
{
    if fs.len() > 0 {
        let init = fs.drop_last();
        assert forall|i: int| 0 <= i < init.len() implies in_baseline(base, (#[trigger] init[i]).fingerprint.0@) by {
            assert(init[i] == fs[i]);
        }
        lemma_select_all_in(init, base);
        assert(in_baseline(base, fs[fs.len() - 1].fingerprint.0@));
        assert(fingerprint_views(fs) =~= fingerprint_views(init).push(fs.last().fingerprint.0@));
        assert(select_fingerprints(fs, base, false) =~= Seq::<Seq<char>>::empty());
    } else {
        assert(fingerprint_views(fs) =~= Seq::<Seq<char>>::empty());
    }
}

/// A baseline whose fingerprints all belong to findings resolves nothing.
proof fn lemma_resolve_none(base: Seq<String>, fs: Seq<Finding>)
    requires
        forall|k: int| 0 <= k < base.len() ==> fingerprint_views(fs).contains((#[trigger] base[k])@),
    ensures
        resolved_fingerprints(base, fs) == Seq::<Seq<char>>::empty(),
    decreases base.len(),
{
    if base.len() > 0 {
        let init = base.drop_last();
        assert forall|k: int| 0 <= k < init.len() implies fingerprint_views(fs).contains((#[trigger] init[k])@) by {
            assert(init[k] == base[k]);
        }
        lemma_resolve_none(init, fs);
        assert(fingerprint_views(fs).contains(base[base.len() - 1]@));
        assert(resolved_fingerprints(base, fs) =~= Seq::<Seq<char>>::empty());
    }
}

/// Comparing findings with the baseline taken from them (as `create_baseline`
/// takes it: their fingerprints, in order) finds nothing new and nothing
/// resolved: every finding is unchanged, in order.
pub proof fn law_baseline_of_itself(fs: Seq<Finding>, base: Seq<String>)
    requires
        string_views(base) == fingerprint_views(fs),
    ensures
        select_fingerprints(fs, base, false) == Seq::<Seq<char>>::empty(),
        select_fingerprints(fs, base, true) == fingerprint_views(fs),
        resolved_fingerprints(base, fs) == Seq::<Seq<char>>::empty(),
{
    assert(base.len() == string_views(base).len());
    assert forall|i: int| 0 <= i < fs.len() implies in_baseline(base, (#[trigger] fs[i]).fingerprint.0@) by {
        assert(string_views(base)[i] == base[i]@);
        assert(fingerprint_views(fs)[i] == fs[i].fingerprint.0@);
    }
    lemma_select_all_in(fs, base);
    assert forall|k: int| 0 <= k < base.len() implies fingerprint_views(fs).contains((#[trigger] base[k])@) by {
        assert(string_views(base)[k] == base[k]@);
        assert(fingerprint_views(fs)[k] == base[k]@);
    }
    lemma_resolve_none(base, fs);
}

/// The baseline of a set of findings: their fingerprints, in order.
pub fn create_baseline(findings: &[Finding]) -> (r: Baseline)
    ensures
        string_views(r.fingerprints@) == fingerprint_views(findings@),
{
    let mut fingerprints: Vec<String> = Vec::new();
    let mut i: usize = 0;
    while i < findings.len()
        invariant
            i <= findings@.len(),
            string_views(fingerprints@) == fingerprint_views(findings@.take(i as int)),
        decreases findings.len() - i,
    {
        fingerprints.push(findings[i].fingerprint.0.clone());
        assert(fingerprint_views(findings@.take(i + 1int)) =~= fingerprint_views(findings@.take(i as int)).push(findings@[i as int].fingerprint.0@));
        assert(string_views(fingerprints@) =~= fingerprint_views(findings@.take(i + 1int)));
        i = i + 1;
    }
    assert(findings@.take(findings@.len() as int) =~= findings@);
    Baseline { fingerprints }
}

/// Whether `fp` is among `v`.
fn holds_text(v: &Vec<String>, fp: &String) -> (r: bool)
    ensures
        r == in_baseline(v@, fp@),
{
    let mut k: usize = 0;
    while k < v.len()
        invariant
            k <= v@.len(),
            forall|j: int| 0 <= j < k ==> (#[trigger] v@[j])@ != fp@,
        decreases v.len() - k,
    {
        if crate::text::str_eq(v[k].as_str(), fp.as_str()) {
            assert(v@[k as int]@ == fp@);
            return true;
        }
        k = k + 1;
    }
    false
}

/// Whether some finding of `fs` has fingerprint `fp`.
fn has_finding(fs: &[Finding], fp: &String) -> (r: bool)
    ensures
        r == fingerprint_views(fs@).contains(fp@),
{
    let mut k: usize = 0;
    while k < fs.len()
        invariant
            k <= fs@.len(),
            forall|j: int| 0 <= j < k ==> fs@[j].fingerprint.0@ != fp@,
        decreases fs.len() - k,
    {
        if crate::text::str_eq(fs[k].fingerprint.0.as_str(), fp.as_str()) {
            assert(fingerprint_views(fs@)[k as int] == fp@);
            return true;
        }
        k = k + 1;
    }
    proof {
        if fingerprint_views(fs@).contains(fp@) {
            let j = choose|j: int| 0 <= j < fingerprint_views(fs@).len() && fingerprint_views(fs@)[j] == fp@;
            assert(fs@[j].fingerprint.0@ == fp@);
        }
    }
    false
}

/// Compares the findings of a run with a baseline: findings whose
/// fingerprint the baseline lacks are new, the others unchanged, in order;
/// baseline fingerprints no finding has are resolved, in order.
pub fn compare_against_baseline(findings: &[Finding], baseline: &Baseline) -> (r: BaselineComparison)
    ensures
        fingerprint_views(r.new_findings@) == select_fingerprints(findings@, baseline.fingerprints@, false),
        fingerprint_views(r.unchanged_findings@) == select_fingerprints(findings@, baseline.fingerprints@, true),
        string_views(r.resolved_findings@) == resolved_fingerprints(baseline.fingerprints@, findings@),
        copies_of(r.new_findings@, select_findings(findings@, baseline.fingerprints@, false)),
        copies_of(r.unchanged_findings@, select_findings(findings@, baseline.fingerprints@, true)),
{
    let mut new_findings: Vec<Finding> = Vec::new();
    let mut unchanged_findings: Vec<Finding> = Vec::new();
    let mut i: usize = 0;
    while i < findings.len()
        invariant
            i <= findings@.len(),
            fingerprint_views(new_findings@) == select_fingerprints(findings@.take(i as int), baseline.fingerprints@, false),
            fingerprint_views(unchanged_findings@) == select_fingerprints(findings@.take(i as int), baseline.fingerprints@, true),
            copies_of(new_findings@, select_findings(findings@.take(i as int), baseline.fingerprints@, false)),
            copies_of(unchanged_findings@, select_findings(findings@.take(i as int), baseline.fingerprints@, true)),
        decreases findings.len() - i,
    {
        let f = findings[i].duplicate();
        let ghost fs = findings@.take(i + 1int);
        assert(fs.drop_last() =~= findings@.take(i as int));
        assert(fs.last() == findings@[i as int]);
        let ghost n0 = new_findings@;
        let ghost u0 = unchanged_findings@;
        if holds_text(&baseline.fingerprints, &findings[i].fingerprint.0) {
            unchanged_findings.push(f);
            assert(fingerprint_views(unchanged_findings@) =~= fingerprint_views(u0).push(findings@[i as int].fingerprint.0@));
            assert(fingerprint_views(new_findings@) =~= fingerprint_views(n0) + Seq::<Seq<char>>::empty());
            assert(select_findings(fs, baseline.fingerprints@, true) =~= select_findings(findings@.take(i as int), baseline.fingerprints@, true).push(findings@[i as int]));
            assert(select_findings(fs, baseline.fingerprints@, false) =~= select_findings(findings@.take(i as int), baseline.fingerprints@, false));
        } else {
            new_findings.push(f);
            assert(fingerprint_views(new_findings@) =~= fingerprint_views(n0).push(findings@[i as int].fingerprint.0@));
            assert(fingerprint_views(unchanged_findings@) =~= fingerprint_views(u0) + Seq::<Seq<char>>::empty());
            assert(select_findings(fs, baseline.fingerprints@, false) =~= select_findings(findings@.take(i as int), baseline.fingerprints@, false).push(findings@[i as int]));
            assert(select_findings(fs, baseline.fingerprints@, true) =~= select_findings(findings@.take(i as int), baseline.fingerprints@, true));
        }
        i = i + 1;
    }
    assert(findings@.take(findings@.len() as int) =~= findings@);
    let mut resolved_findings: Vec<String> = Vec::new();
    let base = &baseline.fingerprints;
    let mut k: usize = 0;
    while k < base.len()
        invariant
            k <= base@.len(),
            string_views(resolved_findings@) == resolved_fingerprints(base@.take(k as int), findings@),
        decreases base.len() - k,
    {
        let ghost bs = base@.take(k + 1int);
        assert(bs.drop_last() =~= base@.take(k as int));
        let ghost r0 = resolved_findings@;
        if !has_finding(findings, &base[k]) {
            resolved_findings.push(base[k].clone());
            assert(string_views(resolved_findings@) =~= string_views(r0).push(base@[k as int]@));
        } else {
            assert(string_views(resolved_findings@) =~= string_views(r0) + Seq::<Seq<char>>::empty());
        }
        k = k + 1;
    }
    assert(base@.take(base@.len() as int) =~= base@);
    BaselineComparison { new_findings, resolved_findings, unchanged_findings }
}

/// How much a log shows.
#[derive(Debug, Clone, Copy, PartialEq, Eq, Structural)]
pub enum LogLevel {
    Error,
    Warn,
    Info,
    Debug,
    Trace,
}

/// The rank of a level: errors first.
pub open spec fn level_rank(l: LogLevel) -> u8 {
    match l {
        LogLevel::Error => 0,
        LogLevel::Warn => 1,
        LogLevel::Info => 2,
        LogLevel::Debug => 3,
        LogLevel::Trace => 4,
    }
}

/// A logger at a level, writing plain or JSON lines.
pub struct Logger {
    pub level: LogLevel,
    pub json_format: bool,
}

impl Logger {
    /// Whether a message at `level` is shown: its rank is at most the
    /// logger's.
    pub fn should_log(&self, level: &LogLevel) -> (r: bool)
        ensures
            r == (level_rank(*level) <= level_rank(self.level)),
    {
        let self_val = self.level_value(&self.level);
        let level_val = self.level_value(level);
        level_val <= self_val
    }

    /// The rank of a level.
    pub fn level_value(&self, level: &LogLevel) -> (r: u8)
        ensures
            r == level_rank(*level),
    {
        match level {
            LogLevel::Error => 0,
            LogLevel::Warn => 1,
            LogLevel::Info => 2,
            LogLevel::Debug => 3,
            LogLevel::Trace => 4,
        }
    }
}

/// Counts the phases of a run.
pub struct ProgressReporter {
    pub total_phases: usize,
    pub current_phase: usize,
}

impl ProgressReporter {
    /// A reporter for `total_phases` phases, none started.
    pub fn new(total_phases: usize) -> (r: Self)
        ensures
            r.total_phases == total_phases,
            r.current_phase == 0,
    {
        ProgressReporter { total_phases, current_phase: 0 }
    }

    /// Starts the next phase and returns the line that announces it:
    /// `[current/total] Executing phase: name...`.
    pub fn next_phase(&mut self, name: &str) -> (line: String)
        requires
            old(self).current_phase < usize::MAX,
        ensures
            final(self).current_phase == old(self).current_phase + 1,
            final(self).total_phases == old(self).total_phases,
            line@ == seq!['['] + crate::text::decimal(final(self).current_phase as nat) + seq!['/']
                + crate::text::decimal(old(self).total_phases as nat) + "] Executing phase: "@ + name@ + "..."@,
    {
        self.current_phase = self.current_phase + 1;
        let mut line = String::new();
        crate::text::push_char(&mut line, '[');
        crate::text::push_decimal(&mut line, self.current_phase as u64);
        crate::text::push_char(&mut line, '/');
        crate::text::push_decimal(&mut line, self.total_phases as u64);
        line.append("] Executing phase: ");
        line.append(name);
        line.append("...");
        line
    }
}

/// Whether rule `k` of pack `p` has identifier `id`.
pub open spec fn rule_has_id(packs: Seq<RulePackView>, p: int, k: int, id: Seq<char>) -> bool {
    0 <= p < packs.len() && 0 <= k < packs[p].rules.len() && packs[p].rules[k].id == id
}

/// The rule of the embedded packs with identifier `id`, if any: the first
/// one in pack order.
pub fn find_rule(id: &str) -> (r: Option<crate::rules::Rule>)
    ensures
        r is None <==> !(exists|p: int, k: int| rule_has_id(all_packs_view(), p, k, id@)),
        r matches Some(rule) ==> exists|p: int, k: int| {
            &&& rule_has_id(all_packs_view(), p, k, id@)
            &&& rule@ == all_packs_view()[p].rules[k]
            &&& forall|p2: int, k2: int| (p2 < p || (p2 == p && k2 < k)) ==> !rule_has_id(all_packs_view(), p2, k2, id@)
        },
{
    let packs = crate::rulepacks::packs::all_packs();
    let ghost pv = all_packs_view();
    let mut p: usize = 0;
    while p < packs.len()
        invariant
            p <= packs@.len(),
            pack_views(packs@) == pv,
            pv == all_packs_view(),
            forall|p2: int, k2: int| p2 < p ==> !rule_has_id(pv, p2, k2, id@),
        decreases packs.len() - p,
    {
        let rules = &packs[p].rules;
        assert(pv[p as int].rules == rule_views(rules@));
        let mut k: usize = 0;
        while k < rules.len()
            invariant
                p < packs@.len(),
                k <= rules@.len(),
                rules == packs@[p as int].rules,
                pack_views(packs@) == pv,
                pv == all_packs_view(),
                pv[p as int].rules == rule_views(rules@),
                forall|p2: int, k2: int| p2 < p ==> !rule_has_id(pv, p2, k2, id@),
                forall|k2: int| k2 < k ==> !rule_has_id(pv, p as int, k2, id@),
            decreases rules.len() - k,
        {
            if crate::text::str_eq(rules[k].id.as_str(), id) {
                let found = rules[k].duplicate();
                assert(rule_has_id(pv, p as int, k as int, id@));
                assert(found@ == pv[p as int].rules[k as int]);
                return Some(found);
            }
            assert(!rule_has_id(pv, p as int, k as int, id@));
            k = k + 1;
        }
        assert forall|p2: int, k2: int| p2 < p + 1 implies !rule_has_id(pv, p2, k2, id@) by {
            if p2 == p as int && 0 <= k2 < pv[p2].rules.len() {
                assert(k2 < k);
            }
        }
        p = p + 1;
    }
    None
}


/// The exit status of a `rules` command: `list`, `validate` and `export`
/// succeed; `show` succeeds when given the identifier of an embedded rule;
/// anything else fails with 2.
pub fn rules_status(cmd: &str, rule_id: Option<&str>) -> (code: i32)
    ensures
        code == if cmd@ == "list"@ || cmd@ == "validate"@ || cmd@ == "export"@ {
            0i32
        } else if cmd@ == "show"@ {
            match rule_id {
                Some(id) => if exists|p: int, k: int| rule_has_id(all_packs_view(), p, k, id@) { 0i32 } else { 2i32 },
                None => 2i32,
            }
        } else {
            2i32
        },
{
    if crate::text::str_eq(cmd, "list") || crate::text::str_eq(cmd, "validate") || crate::text::str_eq(cmd, "export") {
        0
    } else if crate::text::str_eq(cmd, "show") {
        match rule_id {
            Some(id) => match find_rule(id) {
                Some(_) => 0,
                None => 2,
            },
            None => 2,
        }
    } else {
        2
    }
}

/// The exit status of a scan: 2 when the analysis failed, else 0 when
/// nothing is reported and 1 when something is.
pub fn scan_status(success: bool, reported: usize) -> (code: i32)
    ensures
        code == if !success { 2i32 } else if reported == 0 { 0i32 } else { 1i32 },
{
    if !success {
        2
    } else if reported == 0 {
        0
    } else {
        1
    }
}

} // verus!
