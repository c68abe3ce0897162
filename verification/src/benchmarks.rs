//! Benchmark ground truth read from source comments, counts of constructs
//! the analysis does not model, and the scoring of a run's findings against
//! the ground truth.
use vstd::prelude::*;
use crate::chars::{char_views, contains_seq, occurs, split_char, split_pieces};
use crate::engine::string_views;
use crate::reporting::Finding;
use crate::text::chars_of;

verus! {

broadcast use vstd::string::group_string_axioms;

/// One annotated line of a benchmark project.
#[derive(Debug, Clone)]
pub struct GroundTruthEntry {
    pub file_relative_path: String,
    pub line: usize,
    pub is_vulnerable: bool,
    pub cwe: Option<u32>,
}

/// An annotated line over character sequences.
pub struct GroundTruthEntryView {
    pub file: Seq<char>,
    pub line: nat,
    pub is_vulnerable: bool,
    pub cwe: Option<u32>,
}

impl View for GroundTruthEntry {
    type V = GroundTruthEntryView;

    open spec fn view(&self) -> GroundTruthEntryView {
        GroundTruthEntryView {
            file: self.file_relative_path@,
            line: self.line as nat,
            is_vulnerable: self.is_vulnerable,
            cwe: self.cwe,
        }
    }
}

/// The views of a sequence of entries.
pub open spec fn entry_views(es: Seq<GroundTruthEntry>) -> Seq<GroundTruthEntryView> {
    es.map_values(|e: GroundTruthEntry| e@)
}

/// The annotated lines of a benchmark project.
#[derive(Debug, Clone)]
pub struct GroundTruth {
    pub entries: Vec<GroundTruthEntry>,
}

impl Default for GroundTruth {
    fn default() -> (r: Self)
        ensures
            r.entries@.len() == 0,
    {
        GroundTruth { entries: Vec::new() }
    }
}

/// The CWE a vulnerable annotation names: the first of CWE-89, CWE-78,
/// CWE-22 and CWE-95 that the line mentions.
pub open spec fn annotated_cwe(line: Seq<char>) -> Option<u32> {
    if occurs(line, "CWE-89"@) {
        Some(89u32)
    } else if occurs(line, "CWE-78"@) {
        Some(78u32)
    } else if occurs(line, "CWE-22"@) {
        Some(22u32)
    } else if occurs(line, "CWE-95"@) {
        Some(95u32)
    } else {
        None
    }
}

/// The entry a line numbered `n` gives: a line mentioning `VULNERABLE` is
/// vulnerable, else one mentioning `SAFE` is safe, else there is none.
pub open spec fn line_annotation(file: Seq<char>, line: Seq<char>, n: nat) -> Seq<GroundTruthEntryView> {
    if occurs(line, "VULNERABLE"@) {
        seq![GroundTruthEntryView { file, line: n, is_vulnerable: true, cwe: annotated_cwe(line) }]
    } else if occurs(line, "SAFE"@) {
        seq![GroundTruthEntryView { file, line: n, is_vulnerable: false, cwe: None }]
    } else {
        Seq::empty()
    }
}

/// The entries of a file's lines, numbered from one, in order.
pub open spec fn annotations(file: Seq<char>, lines: Seq<Seq<char>>) -> Seq<GroundTruthEntryView>
    decreases lines.len(),
{
    if lines.len() == 0 {
        Seq::empty()
    } else {
        annotations(file, lines.drop_last()) + line_annotation(file, lines.last(), lines.len())
    }
}

/// The entries of a sequence of (relative path, content) files, file by file.
pub open spec fn files_annotations(files: Seq<(String, String)>) -> Seq<GroundTruthEntryView>
    decreases files.len(),
{
    if files.len() == 0 {
        Seq::empty()
    } else {
        files_annotations(files.drop_last()) + annotations(files.last().0@, split_pieces(files.last().1@, '\n'))
    }
}

/// Reads source files, and scans for constructs the analysis does not model.
pub struct RepositoryAdapter;

/// The CWE named on a vulnerable line.
fn cwe_of_line(line: &[char]) -> (r: Option<u32>)
    ensures
        r == annotated_cwe(line@),
{
    if contains_seq(line, chars_of("CWE-89").as_slice()) {
        Some(89)
    } else if contains_seq(line, chars_of("CWE-78").as_slice()) {
        Some(78)
    } else if contains_seq(line, chars_of("CWE-22").as_slice()) {
        Some(22)
    } else if contains_seq(line, chars_of("CWE-95").as_slice()) {
        Some(95)
    } else {
        None
    }
}

impl RepositoryAdapter {
    /// The annotations of one file: for each line, numbered from one, that
    /// mentions `VULNERABLE` a vulnerable entry with the CWE it names, else
    /// for one that mentions `SAFE` a safe entry.
    pub fn annotations_in(file: &str, content: &str) -> (r: Vec<GroundTruthEntry>)
        requires
            content@.len() < usize::MAX,
        ensures
            entry_views(r@) == annotations(file@, split_pieces(content@, '\n')),
    {
        let chars = chars_of(content);
        let lines = split_char(chars.as_slice(), '\n');
        let ghost lv = char_views(lines@);
        let vulnerable = chars_of("VULNERABLE");
        let safe = chars_of("SAFE");
        let mut out: Vec<GroundTruthEntry> = Vec::new();
        let mut k: usize = 0;
        assert(lv.take(0) =~= Seq::<Seq<char>>::empty());
        while k < lines.len()
            invariant
                k <= lines@.len(),
                lines@.len() <= content@.len() + 1,
                lv == char_views(lines@),
                lv == split_pieces(content@, '\n'),
                vulnerable@ == "VULNERABLE"@,
                safe@ == "SAFE"@,
                content@.len() < usize::MAX,
                entry_views(out@) == annotations(file@, lv.take(k as int)),
            decreases lines.len() - k,
        {
            let line = lines[k].as_slice();
            let ghost before = entry_views(out@);
            let ghost t = lv.take(k + 1int);
            assert(t.drop_last() =~= lv.take(k as int));
            assert(t.last() == line@);
            if contains_seq(line, vulnerable.as_slice()) {
                let cwe = cwe_of_line(line);
                out.push(GroundTruthEntry { file_relative_path: file.to_string(), line: k + 1, is_vulnerable: true, cwe });
            } else if contains_seq(line, safe.as_slice()) {
                out.push(GroundTruthEntry { file_relative_path: file.to_string(), line: k + 1, is_vulnerable: false, cwe: None });
            }
            assert(entry_views(out@) =~= before + line_annotation(file@, line@, (k + 1) as nat));
            k = k + 1;
        }
        assert(lv.take(lines@.len() as int) =~= lv);
        out
    }

    /// The ground truth of a project given as (relative path, content)
    /// files: each file's annotations, file by file.
    pub fn ground_truth_of(files: &[(String, String)]) -> (r: GroundTruth)
        requires
            forall|i: int| 0 <= i < files@.len() ==> (#[trigger] files@[i]).1@.len() < usize::MAX,
        ensures
            entry_views(r.entries@) == files_annotations(files@),
    {
        let mut entries: Vec<GroundTruthEntry> = Vec::new();
        let mut i: usize = 0;
        assert(files@.take(0) =~= Seq::<(String, String)>::empty());
        while i < files.len()
            invariant
                i <= files@.len(),
                forall|j: int| 0 <= j < files@.len() ==> (#[trigger] files@[j]).1@.len() < usize::MAX,
                entry_views(entries@) == files_annotations(files@.take(i as int)),
            decreases files.len() - i,
        {
            let ghost t = files@.take(i + 1int);
            assert(t.drop_last() =~= files@.take(i as int));
            assert(t.last() == files@[i as int]);
            let ghost before = entry_views(entries@);
            let mut found = Self::annotations_in(files[i].0.as_str(), files[i].1.as_str());
            let ghost fv = entry_views(found@);
            entries.append(&mut found);
            assert(entry_views(entries@) =~= before + fv);
            i = i + 1;
        }
        assert(files@.take(files@.len() as int) =~= files@);
        GroundTruth { entries }
    }
}


/// The constructs the analysis does not model: a name and the text that
/// reveals it.
pub open spec fn construct_patterns() -> Seq<(Seq<char>, Seq<char>)> {
    seq![
        ("eval"@, "eval("@),
        ("exec"@, "exec("@),
        ("reflection_java"@, "Class.forName"@),
        ("reflection_java_method"@, "getMethod"@),
        ("reflection_java_invoke"@, ".invoke("@),
        ("reflection_py"@, "getattr("@),
        ("reflection_py_set"@, "setattr("@),
        ("dynamic_import"@, "importlib"@),
        ("dynamic_proxy"@, "Proxy.newProxyInstance"@),
        ("native_method"@, "native "@),
        ("lambda_capture"@, "lambda "@),
    ]
}

/// The views of (name, pattern) pairs.
pub open spec fn pattern_views(v: Seq<(&str, &str)>) -> Seq<(Seq<char>, Seq<char>)> {
    v.map_values(|p: (&str, &str)| (p.0@, p.1@))
}

/// The views of (name, count) pairs.
pub open spec fn count_views(v: Seq<(String, usize)>) -> Seq<(Seq<char>, nat)> {
    v.map_values(|p: (String, usize)| (p.0@, p.1 as nat))
}

/// How many of `contents` mention `pat`.
pub open spec fn files_with(contents: Seq<String>, pat: Seq<char>) -> nat
    decreases contents.len(),
{
    if contents.len() == 0 {
        0
    } else {
        files_with(contents.drop_last(), pat) + if occurs(contents.last()@, pat) { 1nat } else { 0nat }
    }
}

/// For each construct, in order, its name and the number of files that
/// mention it, where that number is not zero.
pub open spec fn construct_counts(contents: Seq<String>, pats: Seq<(Seq<char>, Seq<char>)>) -> Seq<(Seq<char>, nat)>
    decreases pats.len(),
{
    if pats.len() == 0 {
        Seq::empty()
    } else {
        let n = files_with(contents, pats.last().1);
        construct_counts(contents, pats.drop_last()) + if n > 0 { seq![(pats.last().0, n)] } else { Seq::empty() }
    }
}

/// The construct table.
fn construct_table() -> (v: Vec<(&'static str, &'static str)>)
    ensures
        pattern_views(v@) == construct_patterns(),
{
    let v = vec![
        ("eval", "eval("),
        ("exec", "exec("),
        ("reflection_java", "Class.forName"),
        ("reflection_java_method", "getMethod"),
        ("reflection_java_invoke", ".invoke("),
        ("reflection_py", "getattr("),
        ("reflection_py_set", "setattr("),
        ("dynamic_import", "importlib"),
        ("dynamic_proxy", "Proxy.newProxyInstance"),
        ("native_method", "native "),
        ("lambda_capture", "lambda "),
    ];
    assert(pattern_views(v@) =~= construct_patterns());
    v
}

/// How many of `contents` mention `pat`.
fn count_files_with(contents: &[String], pat: &[char]) -> (r: usize)
    ensures
        r == files_with(contents@, pat@),
{
    let mut n: usize = 0;
    let mut i: usize = 0;
    assert(contents@.take(0) =~= Seq::<String>::empty());
    while i < contents.len()
        invariant
            i <= contents@.len(),
            n <= i,
            n == files_with(contents@.take(i as int), pat@),
        decreases contents.len() - i,
    {
        let ghost t = contents@.take(i + 1int);
        assert(t.drop_last() =~= contents@.take(i as int));
        assert(t.last() == contents@[i as int]);
        let text = chars_of(contents[i].as_str());
        if contains_seq(text.as_slice(), pat) {
            n = n + 1;
        }
        i = i + 1;
    }
    assert(contents@.take(contents@.len() as int) =~= contents@);
    n
}

impl RepositoryAdapter {
    /// For each construct the analysis does not model, in table order, its
    /// name and the number of the given file contents that mention it,
    /// where that number is not zero.
    pub fn count_constructs(contents: &[String]) -> (r: Vec<(String, usize)>)
        ensures
            count_views(r@) == construct_counts(contents@, construct_patterns()),
    {
        let table = construct_table();
        let ghost pv = pattern_views(table@);
        let mut out: Vec<(String, usize)> = Vec::new();
        let mut k: usize = 0;
        assert(pv.take(0) =~= Seq::<(Seq<char>, Seq<char>)>::empty());
        while k < table.len()
            invariant
                k <= table@.len(),
                pv == pattern_views(table@),
                count_views(out@) == construct_counts(contents@, pv.take(k as int)),
            decreases table.len() - k,
        {
            let ghost t = pv.take(k + 1int);
            assert(t.drop_last() =~= pv.take(k as int));
            assert(t.last() == pv[k as int]);
            let ghost before = count_views(out@);
            let (name, pat) = table[k];
            let n = count_files_with(contents, chars_of(pat).as_slice());
            if n > 0 {
                out.push((name.to_string(), n));
            }
            assert(count_views(out@) =~= before + if n > 0 { seq![(pv[k as int].0, n as nat)] } else { Seq::empty() });
            k = k + 1;
        }
        assert(pv.take(table@.len() as int) =~= pv);
        out
    }
}


/// The line a finding's source stands on, or zero where it has none.
pub open spec fn source_line(f: Finding) -> nat {
    match f.source.line {
        Some(l) => l as nat,
        None => 0,
    }
}

/// Whether entry `e` matches a finding in `file` at `line`: the file
/// mentions the entry's path, and the entry has no line (zero) or that one.
pub open spec fn entry_matches(file: Seq<char>, line: nat, e: GroundTruthEntryView) -> bool {
    occurs(file, e.file) && (e.line == 0 || e.line == line)
}

/// The index of the first entry of `es` that matches, or -1.
pub open spec fn first_match(file: Seq<char>, line: nat, es: Seq<GroundTruthEntryView>) -> int
    decreases es.len(),
{
    if es.len() == 0 {
        -1
    } else {
        let m = first_match(file, line, es.drop_last());
        if m >= 0 {
            m
        } else if entry_matches(file, line, es.last()) {
            es.len() - 1
        } else {
            -1
        }
    }
}

/// The first entry that matches finding `f`, or -1.
pub open spec fn finding_match(f: Finding, es: Seq<GroundTruthEntryView>) -> int {
    first_match(f.source.file@, source_line(f), es)
}

/// Whether `f` is a true positive: the first entry it matches is vulnerable.
pub open spec fn is_true_positive(f: Finding, es: Seq<GroundTruthEntryView>) -> bool {
    finding_match(f, es) >= 0 && es[finding_match(f, es)].is_vulnerable
}

/// The number of true positives among `fs`.
pub open spec fn true_positive_count(fs: Seq<Finding>, es: Seq<GroundTruthEntryView>) -> nat
    decreases fs.len(),
{
    if fs.len() == 0 {
        0
    } else {
        true_positive_count(fs.drop_last(), es) + if is_true_positive(fs.last(), es) { 1nat } else { 0nat }
    }
}

/// Whether one of the first `n` findings has entry `idx` as its first match.
pub open spec fn hit_before(fs: Seq<Finding>, es: Seq<GroundTruthEntryView>, idx: int, n: int) -> bool {
    exists|j: int| 0 <= j < n && #[trigger] finding_match(fs[j], es) == idx
}

/// Whether some finding's file mentions `path`.
pub open spec fn file_flagged(fs: Seq<Finding>, path: Seq<char>) -> bool {
    exists|j: int| 0 <= j < fs.len() && occurs(#[trigger] fs[j].source.file@, path)
}

/// Whether vulnerable entry `idx` was missed: no finding has it as first match.
pub open spec fn missed(fs: Seq<Finding>, es: Seq<GroundTruthEntryView>, idx: int) -> bool {
    es[idx].is_vulnerable && !hit_before(fs, es, idx, fs.len() as int)
}

/// Whether safe entry `idx` was left alone: no finding's file mentions its path.
pub open spec fn cleared(fs: Seq<Finding>, es: Seq<GroundTruthEntryView>, idx: int) -> bool {
    !es[idx].is_vulnerable && !file_flagged(fs, es[idx].file)
}

/// The number of missed entries among the first `n`.
pub open spec fn missed_count(fs: Seq<Finding>, es: Seq<GroundTruthEntryView>, n: int) -> nat
    decreases n,
{
    if n <= 0 {
        0
    } else {
        missed_count(fs, es, n - 1) + if missed(fs, es, n - 1) { 1nat } else { 0nat }
    }
}

/// The number of cleared entries among the first `n`.
pub open spec fn cleared_count(fs: Seq<Finding>, es: Seq<GroundTruthEntryView>, n: int) -> nat
    decreases n,
{
    if n <= 0 {
        0
    } else {
        cleared_count(fs, es, n - 1) + if cleared(fs, es, n - 1) { 1nat } else { 0nat }
    }
}

/// The paths of the first `n` entries that were missed, or safe but
/// flagged, in order: the files to keep as regression cases.
pub open spec fn regression_paths(fs: Seq<Finding>, es: Seq<GroundTruthEntryView>, n: int) -> Seq<Seq<char>>
    decreases n,
{
    if n <= 0 {
        Seq::empty()
    } else {
        regression_paths(fs, es, n - 1) + if missed(fs, es, n - 1) || (!es[n - 1].is_vulnerable
            && !cleared(fs, es, n - 1)) {
            seq![es[n - 1].file]
        } else {
            Seq::empty()
        }
    }
}

/// The index of the first pair of `t` with key `c`, or -1.
pub open spec fn first_key(t: Seq<(u32, nat)>, c: u32) -> int
    decreases t.len(),
{
    if t.len() == 0 {
        -1
    } else {
        let m = first_key(t.drop_last(), c);
        if m >= 0 {
            m
        } else if t.last().0 == c {
            t.len() - 1
        } else {
            -1
        }
    }
}

/// `t` with the count of `c` raised by one, or `(c, 1)` appended.
pub open spec fn bump(t: Seq<(u32, nat)>, c: u32) -> Seq<(u32, nat)> {
    let k = first_key(t, c);
    if k >= 0 {
        t.update(k, (c, t[k].1 + 1))
    } else {
        t.push((c, 1nat))
    }
}

/// The number of findings per CWE, in the order the CWEs first occur.
pub open spec fn cwe_tally(fs: Seq<Finding>) -> Seq<(u32, nat)>
    decreases fs.len(),
{
    if fs.len() == 0 {
        Seq::empty()
    } else {
        match fs.last().rule.cwe {
            Some(c) => bump(cwe_tally(fs.drop_last()), c),
            None => cwe_tally(fs.drop_last()),
        }
    }
}

/// The views of (CWE, count) pairs.
pub open spec fn tally_views(v: Seq<(u32, usize)>) -> Seq<(u32, nat)> {
    v.map_values(|p: (u32, usize)| (p.0, p.1 as nat))
}

/// A first key is -1 or an index holding that key.
proof fn lemma_first_key_range(t: Seq<(u32, nat)>, c: u32)
    ensures
        -1 <= first_key(t, c) < t.len(),
        first_key(t, c) >= 0 ==> t[first_key(t, c)].0 == c,
    decreases t.len(),
{
    if t.len() > 0 {
        lemma_first_key_range(t.drop_last(), c);
    }
}

/// How a run's findings score against a ground truth.
pub struct Evaluation {
    pub true_positives: usize,
    pub false_positives: usize,
    pub false_negatives: usize,
    pub true_negatives: usize,
    pub findings_per_cwe: Vec<(u32, usize)>,
    pub regression_files: Vec<String>,
}

/// Scores a run against a ground truth.
pub struct ValidationRunner;

/// The first entry of `es` matching a finding in `file` at `line`.
fn first_match_index(file: &[char], line: usize, es: &Vec<GroundTruthEntry>) -> (r: Option<usize>)
    ensures
        (match r { Some(k) => k as int, None => -1 }) == first_match(file@, line as nat, entry_views(es@)),
        r matches Some(k) ==> k < es@.len(),
{
    let ghost ev = entry_views(es@);
    let mut found: Option<usize> = None;
    let mut k: usize = 0;
    assert(ev.take(0) =~= Seq::<GroundTruthEntryView>::empty());
    while k < es.len()
        invariant
            k <= es@.len(),
            ev == entry_views(es@),
            (match found { Some(x) => x as int, None => -1 }) == first_match(file@, line as nat, ev.take(k as int)),
            found matches Some(x) ==> x < k,
        decreases es.len() - k,
    {
        let ghost t = ev.take(k + 1int);
        assert(t.drop_last() =~= ev.take(k as int));
        assert(t.last() == es@[k as int]@);
        if found.is_none() {
            let e = &es[k];
            let path = chars_of(e.file_relative_path.as_str());
            if contains_seq(file, path.as_slice()) && (e.line == 0 || e.line == line) {
                found = Some(k);
            }
        }
        k = k + 1;
    }
    assert(ev.take(es@.len() as int) =~= ev);
    found
}

/// Whether some finding's file mentions `path`.
fn flagged(fs: &[Finding], path: &[char]) -> (r: bool)
    ensures
        r == file_flagged(fs@, path@),
{
    let mut k: usize = 0;
    while k < fs.len()
        invariant
            k <= fs@.len(),
            forall|j: int| 0 <= j < k ==> !occurs(#[trigger] fs@[j].source.file@, path@),
        decreases fs.len() - k,
    {
        let file = chars_of(fs[k].source.file.as_str());
        if contains_seq(file.as_slice(), path) {
            return true;
        }
        k = k + 1;
    }
    false
}

/// Raises the count of `c` in `t` by one, or appends `(c, 1)`.
fn bump_tally(t: &mut Vec<(u32, usize)>, c: u32, n: usize)
    requires
        n < usize::MAX,
        forall|j: int| 0 <= j < old(t)@.len() ==> (#[trigger] old(t)@[j]).1 <= n,
    ensures
        tally_views(final(t)@) == bump(tally_views(old(t)@), c),
        forall|j: int| 0 <= j < final(t)@.len() ==> (#[trigger] final(t)@[j]).1 <= n + 1,
{
    let ghost tv = tally_views(t@);
    let mut found: Option<usize> = None;
    let mut k: usize = 0;
    assert(tv.take(0) =~= Seq::<(u32, nat)>::empty());
    while k < t.len()
        invariant
            k <= t@.len(),
            tv == tally_views(t@),
            (match found { Some(x) => x as int, None => -1 }) == first_key(tv.take(k as int), c),
            found matches Some(x) ==> x < k,
        decreases t.len() - k,
    {
        let ghost s = tv.take(k + 1int);
        assert(s.drop_last() =~= tv.take(k as int));
        if found.is_none() && t[k].0 == c {
            found = Some(k);
        }
        k = k + 1;
    }
    assert(tv.take(t@.len() as int) =~= tv);
    proof { lemma_first_key_range(tv, c); }
    match found {
        Some(x) => {
            let count = t[x].1;
            t.set(x, (c, count + 1));
            assert(tally_views(t@) =~= bump(tv, c));
        },
        None => {
            t.push((c, 1));
            assert(tally_views(t@) =~= bump(tv, c));
        },
    }
}

impl ValidationRunner {
    /// Scores findings against a ground truth. A finding is a true positive
    /// when the first entry it matches is vulnerable, and a false positive
    /// otherwise. A vulnerable entry no finding has as first match is a
    /// false negative; a safe entry whose path no finding's file mentions is
    /// a true negative. Both the false negatives and the safe entries that
    /// were flagged are kept as regression cases, in entry order. Findings
    /// are also counted per CWE, in the order the CWEs first occur.
    pub fn score(findings: &[Finding], ground_truth: &GroundTruth) -> (r: Evaluation)
        ensures
            r.true_positives == true_positive_count(findings@, entry_views(ground_truth.entries@)),
            r.false_positives == findings@.len() - true_positive_count(findings@, entry_views(ground_truth.entries@)),
            r.false_negatives == missed_count(findings@, entry_views(ground_truth.entries@), ground_truth.entries@.len() as int),
            r.true_negatives == cleared_count(findings@, entry_views(ground_truth.entries@), ground_truth.entries@.len() as int),
            tally_views(r.findings_per_cwe@) == cwe_tally(findings@),
            string_views(r.regression_files@) == regression_paths(
                findings@,
                entry_views(ground_truth.entries@),
                ground_truth.entries@.len() as int,
            ),
    {
        let es = &ground_truth.entries;
        let ghost ev = entry_views(es@);
        let ghost fs = findings@;
        let mut hit: Vec<bool> = Vec::new();
        let mut h: usize = 0;
        while h < es.len()
            invariant
                h <= es@.len(),
                hit@.len() == h,
                forall|x: int| 0 <= x < h ==> !(#[trigger] hit@[x]),
            decreases es.len() - h,
        {
            hit.push(false);
            h = h + 1;
        }
        let mut tp: usize = 0;
        let mut fp: usize = 0;
        let mut tally: Vec<(u32, usize)> = Vec::new();
        let mut i: usize = 0;
        assert(fs.take(0) =~= Seq::<Finding>::empty());
        while i < findings.len()
            invariant
                i <= fs.len(),
                fs == findings@,
                ev == entry_views(es@),
                hit@.len() == ev.len(),
                tp == true_positive_count(fs.take(i as int), ev),
                tp + fp == i,
                forall|x: int| 0 <= x < ev.len() ==> (#[trigger] hit@[x]) == (ev[x].is_vulnerable && hit_before(fs, ev, x, i as int)),
                tally_views(tally@) == cwe_tally(fs.take(i as int)),
                forall|j: int| 0 <= j < tally@.len() ==> (#[trigger] tally@[j]).1 <= i,
            decreases findings.len() - i,
        {
            let f = &findings[i];
            let ghost t = fs.take(i + 1int);
            assert(t.drop_last() =~= fs.take(i as int));
            assert(t.last() == fs[i as int]);
            let file = chars_of(f.source.file.as_str());
            let line: usize = match f.source.line {
                Some(l) => l,
                None => 0,
            };
            let m = first_match_index(file.as_slice(), line, es);
            assert((match m { Some(k) => k as int, None => -1 }) == finding_match(fs[i as int], ev));
            match m {
                Some(k) => {
                    if es[k].is_vulnerable {
                        tp = tp + 1;
                        hit.set(k, true);
                    } else {
                        fp = fp + 1;
                    }
                },
                None => {
                    fp = fp + 1;
                },
            }
            assert forall|x: int| 0 <= x < ev.len() implies (#[trigger] hit@[x]) == (ev[x].is_vulnerable
                && hit_before(fs, ev, x, i + 1)) by {
                if finding_match(fs[i as int], ev) == x {
                    assert(hit_before(fs, ev, x, i + 1));
                } else {
                    if hit_before(fs, ev, x, i + 1) {
                        let j = choose|j: int| 0 <= j < i + 1 && #[trigger] finding_match(fs[j], ev) == x;
                        assert(j < i);
                        assert(hit_before(fs, ev, x, i as int));
                    }
                    if hit_before(fs, ev, x, i as int) {
                        let j = choose|j: int| 0 <= j < i && #[trigger] finding_match(fs[j], ev) == x;
                        assert(hit_before(fs, ev, x, i + 1));
                    }
                }
            }
            match f.rule.cwe {
                Some(c) => {
                    bump_tally(&mut tally, c, i);
                },
                None => {},
            }
            i = i + 1;
        }
        assert(fs.take(fs.len() as int) =~= fs);
        let mut fneg: usize = 0;
        let mut tneg: usize = 0;
        let mut regressions: Vec<String> = Vec::new();
        let mut x: usize = 0;
        while x < es.len()
            invariant
                x <= ev.len(),
                fs == findings@,
                ev == entry_views(es@),
                hit@.len() == ev.len(),
                forall|y: int| 0 <= y < ev.len() ==> (#[trigger] hit@[y]) == (ev[y].is_vulnerable && hit_before(fs, ev, y, fs.len() as int)),
                fneg == missed_count(fs, ev, x as int),
                tneg == cleared_count(fs, ev, x as int),
                fneg <= x,
                tneg <= x,
                string_views(regressions@) == regression_paths(fs, ev, x as int),
            decreases es.len() - x,
        {
            let e = &es[x];
            assert(ev[x as int] == e@);
            if e.is_vulnerable {
                if !hit[x] {
                    fneg = fneg + 1;
                    regressions.push(e.file_relative_path.clone());
                }
            } else {
                let path = chars_of(e.file_relative_path.as_str());
                if !flagged(findings, path.as_slice()) {
                    tneg = tneg + 1;
                } else {
                    regressions.push(e.file_relative_path.clone());
                }
            }
            assert(string_views(regressions@) =~= regression_paths(fs, ev, x + 1int));
            x = x + 1;
        }
        Evaluation {
            true_positives: tp,
            false_positives: fp,
            false_negatives: fneg,
            true_negatives: tneg,
            findings_per_cwe: tally,
            regression_files: regressions,
        }
    }
}

} // verus!

verus! {

/// The entry a finding at `line` of `file` is matched to names that file
/// and either no line or that very line; and when every entry names a line
/// other than `line`, the finding matches none of them.
pub proof fn law_match_respects_lines(file: Seq<char>, line: nat, es: Seq<GroundTruthEntryView>)
    ensures
        first_match(file, line, es) < es.len(),
        first_match(file, line, es) >= 0 ==> {
            let e = es[first_match(file, line, es)];
            &&& occurs(file, e.file)
            &&& (e.line == 0 || e.line == line)
        },
        (forall|k: int| 0 <= k < es.len() ==> (#[trigger] es[k]).line != 0 && es[k].line != line)
            ==> first_match(file, line, es) == -1,
    decreases es.len(),
{
    if es.len() > 0 {
        law_match_respects_lines(file, line, es.drop_last());
        let m = first_match(file, line, es.drop_last());
        if m >= 0 {
            assert(es.drop_last()[m] == es[m]);
        }
        if forall|k: int| 0 <= k < es.len() ==> (#[trigger] es[k]).line != 0 && es[k].line != line {
            assert forall|k: int| 0 <= k < es.drop_last().len() implies (#[trigger] es.drop_last()[k]).line != 0 && es.drop_last()[k].line != line by {
                assert(es.drop_last()[k] == es[k]);
            }
            assert(es[es.len() - 1].line != 0);
        }
    }
}

/// A finding whose source line is none of the lines the entries name (and
/// no entry leaves its line open) is not a true positive.
pub proof fn law_other_line_is_not_a_hit(f: Finding, es: Seq<GroundTruthEntryView>)
    requires
        forall|k: int| 0 <= k < es.len() ==> (#[trigger] es[k]).line != 0 && es[k].line != source_line(f),
    ensures
        !is_true_positive(f, es),
        finding_match(f, es) == -1,
{
    law_match_respects_lines(f.source.file@, source_line(f), es);
}

} // verus!
