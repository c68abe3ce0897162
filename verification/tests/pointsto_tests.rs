use taintflow::ir::{InstructionId, MethodId, TypeId};
use taintflow::pointsto::{AllocationContext, AllocationSite, HeapObject, PointsToSet};

#[test]
fn test_allocation_site_ordering() {
    let m = MethodId(1);
    let t = TypeId(2);

    let site1 = AllocationSite {
        method_id: m,
        instruction_id: InstructionId(10),
        type_id: t,
        context_id: None,
    };
    let site2 = AllocationSite {
        method_id: m,
        instruction_id: InstructionId(20),
        type_id: t,
        context_id: None,
    };

    assert!(site1 < site2);
}

#[test]
fn test_heap_object_equality() {
    let obj1 = HeapObject::Synthetic {
        name: "stdout".to_string(),
        type_id: None,
    };
    let obj2 = HeapObject::Synthetic {
        name: "stdout".to_string(),
        type_id: None,
    };
    let obj_unknown = HeapObject::Unknown;

    assert_eq!(obj1, obj2);
    assert_ne!(obj1, obj_unknown);
}

#[test]
fn test_points_to_set_operations() {
    let obj_a = HeapObject::Synthetic { name: "A".to_string(), type_id: None };
    let obj_b = HeapObject::Synthetic { name: "B".to_string(), type_id: None };
    let obj_c = HeapObject::Synthetic { name: "C".to_string(), type_id: None };

    let set_ab = PointsToSet::new().insert(obj_a.clone()).insert(obj_b.clone());
    let set_bc = PointsToSet::new().insert(obj_b.clone()).insert(obj_c.clone());

    // Union
    let union_set = set_ab.union(&set_bc);
    assert!(union_set.contains(&obj_a));
    assert!(union_set.contains(&obj_b));
    assert!(union_set.contains(&obj_c));

    // Intersection
    let inter_set = set_ab.intersection(&set_bc);
    assert!(!inter_set.contains(&obj_a));
    assert!(inter_set.contains(&obj_b));

    // Difference
    let diff_set = set_ab.difference(&set_bc);
    assert!(diff_set.contains(&obj_a));
    assert!(!diff_set.contains(&obj_b));
}

#[test]
fn insertion_order_does_not_matter() {
    let a = HeapObject::Synthetic { name: "A".to_string(), type_id: None };
    let b = HeapObject::Synthetic { name: "B".to_string(), type_id: None };
    let s1 = PointsToSet::new().insert(b.clone()).insert(a.clone());
    let s2 = PointsToSet::new().insert(a.clone()).insert(b.clone()).insert(a.clone());
    assert_eq!(s1, s2);
    assert!(s1.same_set(&s2));
    assert_eq!(s1.len(), 2);
    assert_eq!(s1.get(0), &a);
    assert_eq!(s1.get(1), &b);
}

#[test]
fn objects_are_kept_in_order() {
    let alloc = HeapObject::Allocation {
        site_id: InstructionId(5),
        method_id: MethodId(1),
        type_id: TypeId(1),
        context: Some(AllocationContext { call_stack: vec![InstructionId(3)] }),
    };
    let alloc_plain = HeapObject::Allocation {
        site_id: InstructionId(5),
        method_id: MethodId(1),
        type_id: TypeId(1),
        context: None,
    };
    let named = HeapObject::Synthetic { name: "x".to_string(), type_id: Some(TypeId(4)) };
    let set = PointsToSet::new()
        .insert(HeapObject::Unknown)
        .insert(named.clone())
        .insert(alloc.clone())
        .insert(alloc_plain.clone());
    assert_eq!(set.len(), 4);
    assert_eq!(set.get(0), &alloc_plain);
    assert_eq!(set.get(1), &alloc);
    assert_eq!(set.get(2), &named);
    assert_eq!(set.get(3), &HeapObject::Unknown);
}

#[test]
fn remove_subset_and_singleton() {
    let a = HeapObject::Synthetic { name: "A".to_string(), type_id: None };
    let b = HeapObject::Synthetic { name: "AB".to_string(), type_id: None };
    let s = PointsToSet::singleton(a.clone()).insert(b.clone());
    let only_b = s.remove(&a);
    assert!(!only_b.contains(&a));
    assert!(only_b.contains(&b));
    assert!(only_b.is_subset(&s));
    assert!(!s.is_subset(&only_b));
    assert!(PointsToSet::new().is_empty());
    assert!(!s.is_empty());
    assert_eq!(s.get(0), &a);
    assert_eq!(s.duplicate(), s);
}
