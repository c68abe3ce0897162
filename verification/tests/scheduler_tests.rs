use taintflow::scheduler::{cancelled_result, finished_result, merge_order, schedule_order, AnalysisCache, AnalysisTask, TaskOutcome};
use taintflow::semantic::SemanticInfo;

fn task(priority: u32, file_path: &str, module_name: &str) -> AnalysisTask {
    AnalysisTask {
        priority,
        repository: "repo".to_string(),
        file_path: file_path.to_string(),
        module_name: module_name.to_string(),
    }
}

#[test]
fn test_deterministic_scheduling_and_merge() {
    let t1 = task(2, "b_file.py", "b");
    let t2 = task(1, "a_file.py", "a");
    let t3 = task(2, "c_file.py", "c");
    let ordered = schedule_order(vec![t1, t2, t3]);
    let results: Vec<_> = ordered
        .into_iter()
        .map(|t| finished_result(t, TaskOutcome::Succeeded(vec![]), "worker".to_string(), 0))
        .rev()
        .collect();
    let results = merge_order(results);

    assert_eq!(results.len(), 3);
    assert_eq!(results[0].task.file_path, "a_file.py");
    assert_eq!(results[1].task.file_path, "b_file.py");
    assert_eq!(results[2].task.file_path, "c_file.py");
}

#[test]
fn test_error_isolation_and_panic() {
    let t_panic = task(1, "panic.py", "panic");
    let t_success = task(1, "success.py", "success");
    let results = merge_order(vec![
        finished_result(t_panic, TaskOutcome::Panicked, "t1".to_string(), 3),
        finished_result(t_success, TaskOutcome::Succeeded(vec![]), "t2".to_string(), 4),
    ]);

    assert_eq!(results.len(), 2);
    let res_panic = results.iter().find(|r| r.task.file_path == "panic.py").unwrap();
    assert!(!res_panic.success);
    assert!(res_panic.meta("error").unwrap().contains("panic"));
    let res_success = results.iter().find(|r| r.task.file_path == "success.py").unwrap();
    assert!(res_success.success);
}

#[test]
fn test_cancellation() {
    let result = cancelled_result(task(1, "test.py", "test"));
    assert!(!result.success);
    assert_eq!(result.meta("error").unwrap(), "Task cancelled");
}

#[test]
fn failed_task_notes_its_error_and_thread() {
    let r = finished_result(task(3, "x.py", "x"), TaskOutcome::Failed("boom".to_string()), "ThreadId(7)".to_string(), 12);
    assert!(!r.success);
    assert_eq!(r.meta("error").unwrap(), "boom");
    assert_eq!(r.meta("thread_id").unwrap(), "ThreadId(7)");
    assert_eq!(r.elapsed_ms, 12);
    assert!(r.meta("missing").is_none());
}

#[test]
fn equal_keys_keep_their_order_and_paths_compare_by_characters() {
    let ordered = schedule_order(vec![
        task(1, "b", "first"),
        task(0, "z", "zero"),
        task(1, "B", "upper"),
        task(1, "b", "second"),
        task(1, "ab", "prefix"),
    ]);
    let names: Vec<&str> = ordered.iter().map(|t| t.module_name.as_str()).collect();
    assert_eq!(names, vec!["zero", "upper", "prefix", "first", "second"]);
}

#[test]
fn test_cache_reuse() {
    let mut cache = AnalysisCache::new();
    let t = task(1, "test.py", "test");
    cache.store_semantic("test.py".to_string(), SemanticInfo::new());
    let outcome = if cache.has_semantic(&t.file_path) {
        TaskOutcome::Succeeded(vec![])
    } else {
        TaskOutcome::Failed("Cache hit missed!".to_string())
    };
    let results = vec![finished_result(t, outcome, "t".to_string(), 0)];
    assert!(results[0].success);
}

#[test]
fn cache_store_replaces_and_clear_empties() {
    let mut cache = AnalysisCache::new();
    cache.store_semantic("a.py".to_string(), SemanticInfo::new());
    cache.store_semantic("a.py".to_string(), SemanticInfo::new());
    assert_eq!(cache.semantic.len(), 1);
    assert!(cache.has_semantic("a.py"));
    assert!(!cache.has_semantic("b.py"));
    cache.clear();
    assert!(!cache.has_semantic("a.py"));
}

#[test]
fn schedule_does_not_depend_on_input_order() {
    let a = schedule_order(vec![task(2, "b.py", "b"), task(1, "z.py", "z"), task(2, "a.py", "a"), task(3, "m.py", "m")]);
    let b = schedule_order(vec![task(3, "m.py", "m"), task(2, "a.py", "a"), task(2, "b.py", "b"), task(1, "z.py", "z")]);
    assert_eq!(a, b);
    let paths: Vec<&str> = a.iter().map(|t| t.file_path.as_str()).collect();
    assert_eq!(paths, vec!["z.py", "a.py", "b.py", "m.py"]);
}

#[test]
fn equal_keys_keep_their_order() {
    let ordered = schedule_order(vec![
        task(2, "same.py", "first"),
        task(1, "z.py", "z"),
        task(2, "same.py", "second"),
        task(2, "same.py", "third"),
    ]);
    let names: Vec<&str> = ordered.iter().map(|t| t.module_name.as_str()).collect();
    assert_eq!(names, vec!["z", "first", "second", "third"]);

    let results = merge_order(vec![
        finished_result(task(2, "same.py", "first"), TaskOutcome::Succeeded(vec![]), "w".to_string(), 0),
        finished_result(task(1, "z.py", "z"), TaskOutcome::Succeeded(vec![]), "w".to_string(), 0),
        finished_result(task(2, "same.py", "second"), TaskOutcome::Succeeded(vec![]), "w".to_string(), 0),
    ]);
    let names: Vec<&str> = results.iter().map(|r| r.task.module_name.as_str()).collect();
    assert_eq!(names, vec!["z", "first", "second"]);
}
