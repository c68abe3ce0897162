//! Scheduling of per-file analysis tasks: the order in which tasks run and
//! results are merged, and the result each outcome of a task gives.
use vstd::prelude::*;
use crate::common::Diagnostic;
use vstd::multiset::Multiset;
use crate::pointsto::{lex_less, lex_lt, lemma_lex_asymmetric, lemma_lex_irreflexive, lemma_lex_total, lemma_lex_transitive};
use crate::reporting::{text_codes, text_key};

verus! {

broadcast use vstd::string::group_string_axioms;

/// One unit of work: a file of a repository, with its priority.
#[derive(Debug, Clone, PartialEq, Eq, PartialOrd, Ord, Hash)]
pub struct AnalysisTask {
    pub priority: u32,
    pub repository: String,
    pub file_path: String,
    pub module_name: String,
}

/// The key tasks are ordered by: priority, then file path.
pub open spec fn task_key(t: AnalysisTask) -> Seq<u64> {
    seq![t.priority as u64] + text_key(t.file_path@)
}

/// Whether tasks stand in schedule order: by priority, then by file path.
pub open spec fn in_schedule_order(s: Seq<AnalysisTask>) -> bool {
    forall|i: int, j: int| 0 <= i < j < s.len() ==> !lex_lt(task_key(#[trigger] s[j]), task_key(#[trigger] s[i]))
}

/// The items of `s` whose key is `k`, in order.
pub open spec fn keep_key<T>(s: Seq<T>, key: spec_fn(T) -> Seq<u64>, k: Seq<u64>) -> Seq<T>
    decreases s.len(),
{
    if s.len() == 0 {
        Seq::empty()
    } else {
        keep_key(s.drop_last(), key, k) + if key(s.last()) == k { seq![s.last()] } else { Seq::empty() }
    }
}

/// The key of a task, as a function.
pub open spec fn task_key_fn() -> spec_fn(AnalysisTask) -> Seq<u64> {
    |t: AnalysisTask| task_key(t)
}

/// The key of the task of a result, as a function.
pub open spec fn result_key_fn() -> spec_fn(AnalysisResult) -> Seq<u64> {
    |r: AnalysisResult| task_key(r.task)
}

proof fn lemma_keep_add<T>(a: Seq<T>, b: Seq<T>, key: spec_fn(T) -> Seq<u64>, k: Seq<u64>)
    ensures
        keep_key(a + b, key, k) == keep_key(a, key, k) + keep_key(b, key, k),
    decreases b.len(),
{
    if b.len() == 0 {
        assert(a + b =~= a);
        assert(keep_key(a, key, k) + keep_key(b, key, k) =~= keep_key(a, key, k));
    } else {
        lemma_keep_add(a, b.drop_last(), key, k);
        assert((a + b).drop_last() =~= a + b.drop_last());
        assert((a + b).last() == b.last());
        assert(keep_key(a + b, key, k) =~= keep_key(a, key, k) + keep_key(b, key, k));
    }
}

proof fn lemma_keep_none<T>(s: Seq<T>, key: spec_fn(T) -> Seq<u64>, k: Seq<u64>)
    requires
        forall|j: int| 0 <= j < s.len() ==> key(#[trigger] s[j]) != k,
    ensures
        keep_key(s, key, k) == Seq::<T>::empty(),
    decreases s.len(),
{
    if s.len() > 0 {
        lemma_keep_none(s.drop_last(), key, k);
        assert(key(s[s.len() - 1]) != k);
        assert(keep_key(s, key, k) =~= Seq::<T>::empty());
    }
}

proof fn lemma_keep_one<T>(t: T, key: spec_fn(T) -> Seq<u64>, k: Seq<u64>)
    ensures
        keep_key(seq![t], key, k) == if key(t) == k { seq![t] } else { Seq::<T>::empty() },
{
    assert(seq![t].drop_last() =~= Seq::<T>::empty());
    assert(seq![t].last() == t);
    assert(keep_key(Seq::<T>::empty(), key, k) =~= Seq::<T>::empty());
    assert(keep_key(seq![t], key, k) =~= if key(t) == k { seq![t] } else { Seq::<T>::empty() });
}

/// Inserting `t` before items whose keys all differ from its own keeps the
/// items of each key in order, `t` last among its own.
proof fn lemma_keep_insert<T>(o: Seq<T>, pos: int, t: T, key: spec_fn(T) -> Seq<u64>, k: Seq<u64>)
    requires
        0 <= pos <= o.len(),
        forall|j: int| pos <= j < o.len() ==> key(#[trigger] o[j]) != key(t),
    ensures
        keep_key(o.insert(pos, t), key, k) == keep_key(o, key, k) + if key(t) == k { seq![t] } else { Seq::<T>::empty() },
{
    let a = o.take(pos);
    let b = o.skip(pos);
    assert(o.insert(pos, t) =~= a + seq![t] + b);
    assert(o =~= a + b);
    lemma_keep_add(a + seq![t], b, key, k);
    lemma_keep_add(a, seq![t], key, k);
    lemma_keep_add(a, b, key, k);
    lemma_keep_one(t, key, k);
    if key(t) == k {
        assert forall|j: int| 0 <= j < b.len() implies key(#[trigger] b[j]) != k by {
            assert(b[j] == o[pos + j]);
        }
        lemma_keep_none(b, key, k);
        assert(keep_key(a, key, k) + seq![t] + Seq::<T>::empty() =~= keep_key(a, key, k) + Seq::<T>::empty() + seq![t]);
    } else {
        assert(keep_key(a, key, k) + Seq::<T>::empty() + keep_key(b, key, k) =~= keep_key(a, key, k) + keep_key(b, key, k) + Seq::<T>::empty());
    }
}

proof fn lemma_keep_first<T>(r: Seq<T>, key: spec_fn(T) -> Seq<u64>, k: Seq<u64>)
    requires
        r.len() > 0,
    ensures
        keep_key(r, key, k) == (if key(r[0]) == k { seq![r[0]] } else { Seq::<T>::empty() }) + keep_key(r.remove(0), key, k),
{
    assert(r =~= seq![r[0]] + r.remove(0));
    lemma_keep_add(seq![r[0]], r.remove(0), key, k);
    lemma_keep_one(r[0], key, k);
}

/// The key of a task.
fn task_key_of(t: &AnalysisTask) -> (r: Vec<u64>)
    ensures
        r@ == task_key(*t),
{
    let codes = text_codes(t.file_path.as_str());
    let mut r: Vec<u64> = Vec::new();
    r.push(t.priority as u64);
    let mut i: usize = 0;
    while i < codes.len()
        invariant
            i <= codes@.len(),
            r@ == seq![t.priority as u64] + codes@.take(i as int),
        decreases codes.len() - i,
    {
        r.push(codes[i]);
        assert(codes@.take(i + 1int) =~= codes@.take(i as int).push(codes@[i as int]));
        assert(r@ =~= seq![t.priority as u64] + codes@.take(i + 1int));
        i = i + 1;
    }
    assert(codes@.take(codes@.len() as int) =~= codes@);
    r
}

/// The tasks in schedule order: sorted by priority, then by file path,
/// tasks with equal keys keeping their order.
pub fn schedule_order(tasks: Vec<AnalysisTask>) -> (r: Vec<AnalysisTask>)
    ensures
        r@.to_multiset() == tasks@.to_multiset(),
        in_schedule_order(r@),
        forall|k: Seq<u64>| #[trigger] keep_key(r@, task_key_fn(), k) == keep_key(tasks@, task_key_fn(), k),
{
    broadcast use {vstd::seq_lib::group_to_multiset_ensures, vstd::multiset::group_multiset_axioms};
    let ghost all = tasks@;
    let mut rest = tasks;
    let mut out: Vec<AnalysisTask> = Vec::new();
    proof {
        assert(out@.to_multiset() =~= Multiset::<AnalysisTask>::empty());
        assert(out@.to_multiset().add(rest@.to_multiset()) =~= all.to_multiset());
        assert forall|k: Seq<u64>| #[trigger] keep_key(all, task_key_fn(), k) == keep_key(out@, task_key_fn(), k) + keep_key(rest@, task_key_fn(), k) by {
            assert(keep_key(out@, task_key_fn(), k) =~= Seq::<AnalysisTask>::empty());
            assert(keep_key(out@, task_key_fn(), k) + keep_key(rest@, task_key_fn(), k) =~= keep_key(rest@, task_key_fn(), k));
        }
    }
    while rest.len() > 0
        invariant
            out@.to_multiset().add(rest@.to_multiset()) == all.to_multiset(),
            in_schedule_order(out@),
            forall|k: Seq<u64>| #[trigger] keep_key(all, task_key_fn(), k) == keep_key(out@, task_key_fn(), k) + keep_key(rest@, task_key_fn(), k),
        decreases rest.len(),
    {
        let ghost r0 = rest@;
        let t = rest.remove(0);
        assert(rest@ == r0.remove(0));
        let key = task_key_of(&t);
        let mut pos = out.len();
        while pos > 0 && lex_less(&key, &task_key_of(&out[pos - 1]))
            invariant
                pos <= out@.len(),
                key@ == task_key(t),
                forall|j: int| pos <= j < out@.len() ==> lex_lt(task_key(t), task_key(#[trigger] out@[j])),
            decreases pos,
        {
            pos = pos - 1;
        }
        let ghost o0 = out@;
        proof {
            if pos > 0 {
                assert(!lex_lt(task_key(t), task_key(o0[pos - 1])));
            }
        }
        out.insert(pos, t);
        assert(out@ == o0.insert(pos as int, t));
        assert forall|i: int, j: int| 0 <= i < j < out@.len() implies !lex_lt(task_key(#[trigger] out@[j]), task_key(#[trigger] out@[i])) by {
            if i < pos && j < pos {
                assert(out@[i] == o0[i] && out@[j] == o0[j]);
            } else if i < pos && j == pos {
                assert(out@[i] == o0[i]);
                if i < pos - 1 {
                    assert(!lex_lt(task_key(o0[pos - 1]), task_key(o0[i])));
                    lemma_lex_total(task_key(o0[pos - 1]), task_key(o0[i]));
                    if lex_lt(task_key(t), task_key(o0[i])) {
                        if task_key(o0[pos - 1]) == task_key(o0[i]) {
                        } else {
                            lemma_lex_transitive(task_key(t), task_key(o0[i]), task_key(o0[pos - 1]));
                        }
                    }
                }
            } else if i < pos && j > pos {
                assert(out@[i] == o0[i] && out@[j] == o0[j - 1]);
            } else if i == pos {
                assert(out@[j] == o0[j - 1]);
                lemma_lex_asymmetric(task_key(t), task_key(o0[j - 1]));
            } else {
                assert(out@[i] == o0[i - 1] && out@[j] == o0[j - 1]);
            }
        }
        proof {
            vstd::seq_lib::to_multiset_insert(o0, pos as int, t);
            vstd::seq_lib::to_multiset_remove(r0, 0);
            assert(r0[0] == t);
            vstd::seq_lib::to_multiset_contains(r0, t);
            assert(r0.contains(t));
            assert(out@.to_multiset().add(rest@.to_multiset()) =~= all.to_multiset());
            assert forall|k: Seq<u64>| #[trigger] keep_key(all, task_key_fn(), k) == keep_key(out@, task_key_fn(), k) + keep_key(rest@, task_key_fn(), k) by {
                let f = task_key_fn();
                assert forall|j: int| pos <= j < o0.len() implies f(#[trigger] o0[j]) != f(t) by {
                    lemma_lex_irreflexive(task_key(t));
                }
                lemma_keep_insert(o0, pos as int, t, f, k);
                lemma_keep_first(r0, f, k);
                let one = if f(t) == k { seq![t] } else { Seq::<AnalysisTask>::empty() };
                assert(keep_key(o0, f, k) + one + keep_key(rest@, f, k) =~= keep_key(o0, f, k) + (one + keep_key(rest@, f, k)));
            }
        }
    }
    proof {
        assert(rest@.to_multiset() =~= Multiset::<AnalysisTask>::empty());
        assert(out@.to_multiset() =~= all.to_multiset());
        assert forall|k: Seq<u64>| #[trigger] keep_key(out@, task_key_fn(), k) == keep_key(all, task_key_fn(), k) by {
            assert(keep_key(rest@, task_key_fn(), k) =~= Seq::<AnalysisTask>::empty());
            assert(keep_key(out@, task_key_fn(), k) + keep_key(rest@, task_key_fn(), k) =~= keep_key(out@, task_key_fn(), k));
        }
    }
    out
}

/// Whether no two tasks of `s` share a priority and a file path.
pub open spec fn keys_distinct(s: Seq<AnalysisTask>) -> bool {
    forall|i: int, j: int| 0 <= i < j < s.len() ==> task_key(#[trigger] s[i]) != task_key(#[trigger] s[j])
}

/// Scheduling does not depend on the order the tasks come in: two lists of
/// the same tasks, both in schedule order, where no two tasks share a
/// priority and a file path, are the same list.
pub proof fn law_schedule_is_unique(a: Seq<AnalysisTask>, b: Seq<AnalysisTask>)
    requires
        a.to_multiset() == b.to_multiset(),
        in_schedule_order(a),
        in_schedule_order(b),
        keys_distinct(a),
    ensures
        a == b,
    decreases a.len(),
{
    broadcast use {vstd::seq_lib::group_to_multiset_ensures, vstd::multiset::group_multiset_axioms};
    assert(a.len() == a.to_multiset().len());
    assert(b.len() == b.to_multiset().len());
    if a.len() == 0 {
        assert(a =~= b);
    } else {
        assert(a.contains(a[0]));
        assert(a.to_multiset().count(a[0]) > 0);
        assert(b.contains(a[0]));
        let k = choose|k: int| 0 <= k < b.len() && b[k] == a[0];
        assert(b.contains(b[0]));
        assert(b.to_multiset().count(b[0]) > 0);
        assert(a.contains(b[0]));
        let m = choose|m: int| 0 <= m < a.len() && a[m] == b[0];
        let ka = task_key(a[0]);
        let kb = task_key(b[0]);
        lemma_lex_total(ka, kb);
        if lex_lt(ka, kb) {
            if k > 0 {
                assert(!lex_lt(task_key(b[k]), task_key(b[0])));
            } else {
                lemma_lex_irreflexive(ka);
            }
            assert(false);
        }
        if lex_lt(kb, ka) {
            if m > 0 {
                assert(!lex_lt(task_key(a[m]), task_key(a[0])));
            } else {
                lemma_lex_irreflexive(kb);
            }
            assert(false);
        }
        assert(ka == kb);
        if m > 0 {
            assert(task_key(a[0]) != task_key(a[m]));
            assert(false);
        }
        assert(a[0] == b[0]);
        let ta = a.drop_first();
        let tb = b.drop_first();
        assert(ta =~= a.remove(0));
        assert(tb =~= b.remove(0));
        assert(ta.to_multiset() == a.to_multiset().remove(a[0]));
        assert(tb.to_multiset() == b.to_multiset().remove(b[0]));
        assert forall|i: int, j: int| 0 <= i < j < ta.len() implies !lex_lt(task_key(#[trigger] ta[j]), task_key(#[trigger] ta[i])) by {
            assert(ta[i] == a[i + 1] && ta[j] == a[j + 1]);
        }
        assert forall|i: int, j: int| 0 <= i < j < tb.len() implies !lex_lt(task_key(#[trigger] tb[j]), task_key(#[trigger] tb[i])) by {
            assert(tb[i] == b[i + 1] && tb[j] == b[j + 1]);
        }
        assert forall|i: int, j: int| 0 <= i < j < ta.len() implies task_key(#[trigger] ta[i]) != task_key(#[trigger] ta[j]) by {
            assert(ta[i] == a[i + 1] && ta[j] == a[j + 1]);
        }
        law_schedule_is_unique(ta, tb);
        assert(a =~= b) by {
            assert forall|i: int| 0 <= i < a.len() implies a[i] == b[i] by {
                if i > 0 {
                    assert(a[i] == ta[i - 1] && b[i] == tb[i - 1]);
                }
            }
        }
    }
}

/// What a task's analysis gave: its diagnostics, an error, or a panic.
pub enum TaskOutcome {
    Succeeded(Vec<Diagnostic>),
    Failed(String),
    Panicked,
}

/// The result of one task: whether it succeeded, its diagnostics, its time
/// and notes such as `error` and `thread_id`.
#[derive(Debug, Clone)]
pub struct AnalysisResult {
    pub task: AnalysisTask,
    pub success: bool,
    pub diagnostics: Vec<Diagnostic>,
    pub elapsed_ms: u64,
    pub metadata: Vec<(String, String)>,
}

/// The value noted under `key` among `metadata`, the first one if several.
pub open spec fn note(metadata: Seq<(String, String)>, key: Seq<char>) -> Option<Seq<char>>
    decreases metadata.len(),
{
    if metadata.len() == 0 {
        None
    } else if metadata[0].0@ == key {
        Some(metadata[0].1@)
    } else {
        note(metadata.drop_first(), key)
    }
}

impl AnalysisResult {
    /// The value noted under `key`, if any.
    pub fn meta(&self, key: &str) -> (r: Option<&String>)
        ensures
            match r {
                Some(v) => note(self.metadata@, key@) == Some(v@),
                None => note(self.metadata@, key@) is None,
            },
    {
        let mut i: usize = 0;
        assert(self.metadata@.skip(0) =~= self.metadata@);
        while i < self.metadata.len()
            invariant
                i <= self.metadata@.len(),
                note(self.metadata@, key@) == note(self.metadata@.skip(i as int), key@),
            decreases self.metadata.len() - i,
        {
            assert(self.metadata@.skip(i as int)[0] == self.metadata@[i as int]);
            assert(self.metadata@.skip(i as int).drop_first() =~= self.metadata@.skip(i + 1int));
            if crate::text::str_eq(self.metadata[i].0.as_str(), key) {
                return Some(&self.metadata[i].1);
            }
            i = i + 1;
        }
        assert(self.metadata@.skip(i as int) =~= Seq::<(String, String)>::empty());
        None
    }
}

/// The result of a task that was not run because the run was cancelled.
pub fn cancelled_result(task: AnalysisTask) -> (r: AnalysisResult)
    ensures
        r.task == task,
        !r.success,
        r.diagnostics@.len() == 0,
        r.elapsed_ms == 0,
        note(r.metadata@, "error"@) == Some("Task cancelled"@),
        r.metadata@.len() == 1,
{
    let mut metadata: Vec<(String, String)> = Vec::new();
    metadata.push((String::from_str("error"), String::from_str("Task cancelled")));
    AnalysisResult { task, success: false, diagnostics: Vec::new(), elapsed_ms: 0, metadata }
}

/// The result of a task that ran: a success keeps its diagnostics; an
/// error or a panic is a failure noted under `error`; the thread is noted
/// under `thread_id`.
pub fn finished_result(task: AnalysisTask, outcome: TaskOutcome, thread_id: String, elapsed_ms: u64) -> (r: AnalysisResult)
    ensures
        r.task == task,
        r.elapsed_ms == elapsed_ms,
        r.success == (outcome is Succeeded),
        match outcome {
            TaskOutcome::Succeeded(d) => r.diagnostics == d && note(r.metadata@, "error"@) is None,
            TaskOutcome::Failed(msg) => r.diagnostics@.len() == 0 && note(r.metadata@, "error"@) == Some(msg@),
            TaskOutcome::Panicked => r.diagnostics@.len() == 0
                && note(r.metadata@, "error"@) == Some("Task panicked during execution"@),
        },
        note(r.metadata@, "thread_id"@) == Some(thread_id@),
{
    let mut metadata: Vec<(String, String)> = Vec::new();
    let (success, diagnostics) = match outcome {
        TaskOutcome::Succeeded(d) => (true, d),
        TaskOutcome::Failed(msg) => {
            metadata.push((String::from_str("error"), msg));
            (false, Vec::new())
        },
        TaskOutcome::Panicked => {
            metadata.push((String::from_str("error"), String::from_str("Task panicked during execution")));
            (false, Vec::new())
        },
    };
    let ghost before = metadata@;
    metadata.push((String::from_str("thread_id"), thread_id));
    proof {
        reveal_strlit("error");
        reveal_strlit("thread_id");
        assert("error"@ != "thread_id"@) by {
            assert("error"@[0] != "thread_id"@[0]);
        }
        let m = metadata@;
        if before.len() == 1 {
            assert(m.drop_first().drop_first() =~= Seq::<(String, String)>::empty());
            assert(note(m.drop_first().drop_first(), "thread_id"@) is None);
            assert(note(m.drop_first(), "thread_id"@) == Some(thread_id@));
            assert(note(m, "thread_id"@) == Some(thread_id@));
        } else {
            assert(m.drop_first() =~= Seq::<(String, String)>::empty());
            assert(note(m.drop_first(), "error"@) is None);
            assert(note(m, "error"@) is None);
            assert(note(m, "thread_id"@) == Some(thread_id@));
        }
    }
    AnalysisResult { task, success, diagnostics, elapsed_ms, metadata }
}

/// The results in merge order: by the schedule order of their tasks,
/// results whose tasks have equal keys keeping their order.
pub fn merge_order(results: Vec<AnalysisResult>) -> (r: Vec<AnalysisResult>)
    ensures
        r@.to_multiset() == results@.to_multiset(),
        forall|i: int, j: int| 0 <= i < j < r@.len() ==> !lex_lt(task_key((#[trigger] r@[j]).task), task_key((#[trigger] r@[i]).task)),
        forall|k: Seq<u64>| #[trigger] keep_key(r@, result_key_fn(), k) == keep_key(results@, result_key_fn(), k),
{
    broadcast use {vstd::seq_lib::group_to_multiset_ensures, vstd::multiset::group_multiset_axioms};
    let ghost all = results@;
    let mut rest = results;
    let mut out: Vec<AnalysisResult> = Vec::new();
    proof {
        assert(out@.to_multiset() =~= Multiset::<AnalysisResult>::empty());
        assert(out@.to_multiset().add(rest@.to_multiset()) =~= all.to_multiset());
        assert forall|k: Seq<u64>| #[trigger] keep_key(all, result_key_fn(), k) == keep_key(out@, result_key_fn(), k) + keep_key(rest@, result_key_fn(), k) by {
            assert(keep_key(out@, result_key_fn(), k) =~= Seq::<AnalysisResult>::empty());
            assert(keep_key(out@, result_key_fn(), k) + keep_key(rest@, result_key_fn(), k) =~= keep_key(rest@, result_key_fn(), k));
        }
    }
    while rest.len() > 0
        invariant
            out@.to_multiset().add(rest@.to_multiset()) == all.to_multiset(),
            forall|i: int, j: int| 0 <= i < j < out@.len() ==> !lex_lt(task_key((#[trigger] out@[j]).task), task_key((#[trigger] out@[i]).task)),
            forall|k: Seq<u64>| #[trigger] keep_key(all, result_key_fn(), k) == keep_key(out@, result_key_fn(), k) + keep_key(rest@, result_key_fn(), k),
        decreases rest.len(),
    {
        let ghost r0 = rest@;
        let t = rest.remove(0);
        assert(rest@ == r0.remove(0));
        let key = task_key_of(&t.task);
        let mut pos = out.len();
        while pos > 0 && lex_less(&key, &task_key_of(&out[pos - 1].task))
            invariant
                pos <= out@.len(),
                key@ == task_key(t.task),
                forall|j: int| pos <= j < out@.len() ==> lex_lt(task_key(t.task), task_key((#[trigger] out@[j]).task)),
            decreases pos,
        {
            pos = pos - 1;
        }
        let ghost o0 = out@;
        proof {
            if pos > 0 {
                assert(!lex_lt(task_key(t.task), task_key(o0[pos - 1].task)));
            }
        }
        out.insert(pos, t);
        assert(out@ == o0.insert(pos as int, t));
        assert forall|i: int, j: int| 0 <= i < j < out@.len() implies !lex_lt(task_key((#[trigger] out@[j]).task), task_key((#[trigger] out@[i]).task)) by {
            if i < pos && j < pos {
                assert(out@[i] == o0[i] && out@[j] == o0[j]);
            } else if i < pos && j == pos {
                assert(out@[i] == o0[i]);
                if i < pos - 1 {
                    assert(!lex_lt(task_key(o0[pos - 1].task), task_key(o0[i].task)));
                    lemma_lex_total(task_key(o0[pos - 1].task), task_key(o0[i].task));
                    if lex_lt(task_key(t.task), task_key(o0[i].task)) {
                        if task_key(o0[pos - 1].task) == task_key(o0[i].task) {
                        } else {
                            lemma_lex_transitive(task_key(t.task), task_key(o0[i].task), task_key(o0[pos - 1].task));
                        }
                    }
                }
            } else if i < pos && j > pos {
                assert(out@[i] == o0[i] && out@[j] == o0[j - 1]);
            } else if i == pos {
                assert(out@[j] == o0[j - 1]);
                lemma_lex_asymmetric(task_key(t.task), task_key(o0[j - 1].task));
            } else {
                assert(out@[i] == o0[i - 1] && out@[j] == o0[j - 1]);
            }
        }
        proof {
            vstd::seq_lib::to_multiset_insert(o0, pos as int, t);
            vstd::seq_lib::to_multiset_remove(r0, 0);
            assert(r0[0] == t);
            vstd::seq_lib::to_multiset_contains(r0, t);
            assert(r0.contains(t));
            assert(out@.to_multiset().add(rest@.to_multiset()) =~= all.to_multiset());
            assert forall|k: Seq<u64>| #[trigger] keep_key(all, result_key_fn(), k) == keep_key(out@, result_key_fn(), k) + keep_key(rest@, result_key_fn(), k) by {
                let f = result_key_fn();
                assert forall|j: int| pos <= j < o0.len() implies f(#[trigger] o0[j]) != f(t) by {
                    lemma_lex_irreflexive(task_key(t.task));
                }
                lemma_keep_insert(o0, pos as int, t, f, k);
                lemma_keep_first(r0, f, k);
                let one = if f(t) == k { seq![t] } else { Seq::<AnalysisResult>::empty() };
                assert(keep_key(o0, f, k) + one + keep_key(rest@, f, k) =~= keep_key(o0, f, k) + (one + keep_key(rest@, f, k)));
            }
        }
    }
    proof {
        assert(rest@.to_multiset() =~= Multiset::<AnalysisResult>::empty());
        assert(out@.to_multiset() =~= all.to_multiset());
        assert forall|k: Seq<u64>| #[trigger] keep_key(out@, result_key_fn(), k) == keep_key(all, result_key_fn(), k) by {
            assert(keep_key(rest@, result_key_fn(), k) =~= Seq::<AnalysisResult>::empty());
            assert(keep_key(out@, result_key_fn(), k) + keep_key(rest@, result_key_fn(), k) =~= keep_key(out@, result_key_fn(), k));
        }
    }
    out
}


/// Whether some entry of `entries` is keyed by `path`.
pub open spec fn has_key<T>(entries: Seq<(String, T)>, path: Seq<char>) -> bool {
    exists|k: int| 0 <= k < entries.len() && (#[trigger] entries[k]).0@ == path
}

/// What earlier phases produced for each file, by path: syntax trees,
/// semantic information, control-flow graphs and call graphs.
pub struct AnalysisCache {
    pub parser: Vec<(String, crate::parser::SimpleCstNode)>,
    pub semantic: Vec<(String, crate::semantic::SemanticInfo)>,
    pub cfg: Vec<(String, Vec<(crate::ir::MethodId, crate::cfg::ControlFlowGraph)>)>,
    pub call_graph: Vec<(String, crate::callgraph::CallGraph)>,
}

impl AnalysisCache {
    /// An empty cache.
    pub fn new() -> (r: Self)
        ensures
            r.parser@.len() == 0,
            r.semantic@.len() == 0,
            r.cfg@.len() == 0,
            r.call_graph@.len() == 0,
    {
        AnalysisCache { parser: Vec::new(), semantic: Vec::new(), cfg: Vec::new(), call_graph: Vec::new() }
    }

    /// Empties every part of the cache.
    pub fn clear(&mut self)
        ensures
            final(self).parser@.len() == 0,
            final(self).semantic@.len() == 0,
            final(self).cfg@.len() == 0,
            final(self).call_graph@.len() == 0,
    {
        self.parser.clear();
        self.semantic.clear();
        self.cfg.clear();
        self.call_graph.clear();
    }

    /// Whether semantic information is cached for `path`.
    pub fn has_semantic(&self, path: &str) -> (r: bool)
        ensures
            r == has_key(self.semantic@, path@),
    {
        let mut k: usize = 0;
        while k < self.semantic.len()
            invariant
                k <= self.semantic@.len(),
                forall|j: int| 0 <= j < k ==> (#[trigger] self.semantic@[j]).0@ != path@,
            decreases self.semantic.len() - k,
        {
            if crate::text::str_eq(self.semantic[k].0.as_str(), path) {
                assert(self.semantic@[k as int].0@ == path@);
                return true;
            }
            k = k + 1;
        }
        false
    }

    /// Caches semantic information for `path`, replacing what was cached
    /// for it.
    pub fn store_semantic(&mut self, path: String, info: crate::semantic::SemanticInfo)
        ensures
            has_key(final(self).semantic@, path@),
            forall|p: Seq<char>| p != path@ ==> (has_key(final(self).semantic@, p) <==> has_key(old(self).semantic@, p)),
            final(self).parser == old(self).parser,
            final(self).cfg == old(self).cfg,
            final(self).call_graph == old(self).call_graph,
    {
        let mut k: usize = 0;
        while k < self.semantic.len()
            invariant
                k <= self.semantic@.len(),
                *self == *old(self),
                forall|j: int| 0 <= j < k ==> (#[trigger] self.semantic@[j]).0@ != path@,
            decreases self.semantic.len() - k,
        {
            if crate::text::str_eq(self.semantic[k].0.as_str(), path.as_str()) {
                let ghost before = self.semantic@;
                self.semantic.remove(k);
                self.semantic.insert(k, (path, info));
                assert(self.semantic@ =~= before.update(k as int, (self.semantic@[k as int].0, self.semantic@[k as int].1)));
                assert(self.semantic@[k as int].0@ == path@);
                assert forall|p: Seq<char>| p != path@ implies (has_key(self.semantic@, p) <==> has_key(before, p)) by {
                    if has_key(self.semantic@, p) {
                        let j = choose|j: int| 0 <= j < self.semantic@.len() && (#[trigger] self.semantic@[j]).0@ == p;
                        assert(j != k);
                        assert(before[j] == self.semantic@[j]);
                    }
                    if has_key(before, p) {
                        let j = choose|j: int| 0 <= j < before.len() && (#[trigger] before[j]).0@ == p;
                        assert(before[j].0@ == before[j].0@);
                        if j == k {
                            assert(before[k as int].0@ == path@);
                        }
                        assert(self.semantic@[j] == before[j]);
                    }
                }
                return;
            }
            k = k + 1;
        }
        let ghost before = self.semantic@;
        self.semantic.push((path, info));
        assert(self.semantic@[before.len() as int].0@ == path@);
        assert forall|p: Seq<char>| p != path@ implies (has_key(self.semantic@, p) <==> has_key(before, p)) by {
            if has_key(self.semantic@, p) {
                let j = choose|j: int| 0 <= j < self.semantic@.len() && (#[trigger] self.semantic@[j]).0@ == p;
                assert(j < before.len());
                assert(before[j] == self.semantic@[j]);
            }
            if has_key(before, p) {
                let j = choose|j: int| 0 <= j < before.len() && (#[trigger] before[j]).0@ == p;
                assert(self.semantic@[j] == before[j]);
            }
        }
    }
}

} // verus!
