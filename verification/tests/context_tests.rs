use std::sync::Arc;
use taintflow::context::{CallContext, ContextAwareAliasState, ContextBenchmark, ContextStack, ContextualWorklist, ObjectContext, SimpleArena, StringInterner};

#[test]
fn test_k_limiting_call_string() {
    let stack = ContextStack::new(2);
    let stack = stack.push(10);
    let stack = stack.push(20);
    assert_eq!(stack.call_sites, vec![10, 20]);

    // Overflow k=2 limits
    let stack = stack.push(30);
    assert_eq!(stack.call_sites, vec![20, 30]);

    let (stack, popped) = stack.pop();
    assert_eq!(popped, Some(30));
    assert_eq!(stack.call_sites, vec![20]);
}

#[test]
fn test_context_hashing_determinism() {
    let c1 = CallContext::empty(2).push(100).push(200);
    let c2 = CallContext::empty(2).push(100).push(200);
    assert_eq!(c1.id, c2.id);

    let c3 = CallContext::empty(2).push(200).push(100);
    assert_ne!(c1.id, c3.id);
}

#[test]
fn test_object_sensitivity_allocation_site() {
    let obj_ctx = ObjectContext::empty(2);
    let obj_ctx = obj_ctx.push(500);
    let obj_ctx = obj_ctx.push(600);
    assert_eq!(obj_ctx.alloc_sites, vec![500, 600]);

    // Push another to trigger k-limit
    let obj_ctx = obj_ctx.push(700);
    assert_eq!(obj_ctx.alloc_sites, vec![600, 700]);
}

#[test]
fn test_alias_separation_by_context() {
    let mut state_a = ContextAwareAliasState::new(2);
    state_a.record_allocation("x", 1);
    state_a.assign("y", "x");

    let mut state_b = ContextAwareAliasState::new(2);
    state_b.record_allocation("x", 2);
    state_b.assign("y", "x");

    // Check that allocation sites are kept separate under different object contexts
    assert_ne!(state_a.object_context(), state_b.object_context());
    assert!(state_a.aliases_of("y").unwrap().contains(&"alloc_1".to_string()));
    assert!(state_b.aliases_of("y").unwrap().contains(&"alloc_2".to_string()));
}

#[test]
fn test_comparative_benchmark_simulation() {
    let (insens, sens) = ContextBenchmark::run_comparative();
    assert!(sens.false_positives_avoided > insens.false_positives_avoided);
    assert!(sens.context_count > insens.context_count);
}

#[test]
fn pop_after_push_returns_the_site() {
    let stack = ContextStack::new(3).push(7);
    let (back, top) = stack.pop();
    assert_eq!(top, Some(7));
    assert!(back.call_sites.is_empty());
    let (still_empty, none) = back.pop();
    assert_eq!(none, None);
    assert!(still_empty.call_sites.is_empty());
    let zero = ContextStack::new(0).push(9);
    assert!(zero.call_sites.is_empty());
}

#[test]
fn call_context_ids_follow_the_call_string() {
    let base = CallContext::empty(1);
    let a = base.push(5).push(6);
    let b = CallContext::empty(1).push(6);
    assert_eq!(a.call_string.call_sites, vec![6]);
    assert_eq!(a.id, b.id);
    let (popped_ctx, site) = a.pop();
    assert_eq!(site, Some(6));
    assert_eq!(popped_ctx.id, base.id);
}

#[test]
fn repeated_allocation_labels_are_kept_once() {
    let mut s = ContextAwareAliasState::new(1);
    s.record_allocation("v", 3);
    s.record_allocation("v", 3);
    s.record_allocation("v", 12);
    let mut got = s.aliases_of("v").unwrap();
    got.sort();
    assert_eq!(got, vec!["alloc_12".to_string(), "alloc_3".to_string()]);
    assert_eq!(s.object_context().alloc_sites, vec![12]);
    s.assign("w", "missing");
    assert!(s.aliases_of("w").is_none());
    let copy = s.clone();
    assert_eq!(copy.aliases_of("v").unwrap().len(), 2);
}

#[test]
fn worklist_accepts_each_item_once() {
    let mut w: ContextualWorklist<u32> = ContextualWorklist::new();
    assert!(w.push(4));
    assert!(w.push(2));
    assert!(!w.push(4));
    assert_eq!(w.pop(), Some(4));
    assert!(!w.push(4));
    assert_eq!(w.pop(), Some(2));
    assert_eq!(w.pop(), None);
}

#[test]
fn test_string_interner() {
    let mut interner = StringInterner::new();
    let s1 = interner.intern("hello");
    let s2 = interner.intern("hello");
    assert!(Arc::ptr_eq(&s1, &s2));
}

#[test]
fn interner_keeps_distinct_texts_apart() {
    let mut interner = StringInterner::default();
    let a = interner.intern("a");
    let b = interner.intern("b");
    assert_eq!(&*a, "a");
    assert_eq!(&*b, "b");
    assert!(!Arc::ptr_eq(&a, &b));
}

#[test]
fn test_arena_allocation() {
    let mut arena = SimpleArena::new();
    let v1 = arena.allocate(42);
    let v2 = arena.allocate(100);
    assert_eq!(*arena.get(v1), 42);
    assert_eq!(*arena.get(v2), 100);
}
