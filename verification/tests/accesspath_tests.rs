use taintflow::accesspath::{AccessPath, PathRoot};

#[test]
fn test_access_path_formatting_and_append() {
    let root = PathRoot::Local("x".to_string());
    let ap = AccessPath::new(root)
        .append_field("a".to_string())
        .append_field("b".to_string());
    assert_eq!(ap.to_display_string(), "x.a.b");
}

#[test]
fn test_array_paths_and_wildcards() {
    let root = PathRoot::Local("arr".to_string());
    let ap = AccessPath::new(root).append_array().append_field("field".to_string());
    assert_eq!(ap.to_display_string(), "arr[*].field");
}

#[test]
fn test_canonicalization_and_hashing() {
    let ap1 = AccessPath::new(PathRoot::Local("  val  ".to_string())).append_field("  field  ".to_string());
    let ap2 = AccessPath::new(PathRoot::Local("val".to_string())).append_field("field".to_string());
    assert_eq!(ap1.canonicalize(), ap2.canonicalize());
    let mut set = std::collections::HashSet::new();
    set.insert(ap1.canonicalize());
    assert!(set.contains(&ap2.canonicalize()));
}

#[test]
fn test_depth_widening_truncation() {
    let ap = AccessPath::new(PathRoot::Local("a".to_string()))
        .append_field("b".to_string())
        .append_field("c".to_string())
        .append_field("d".to_string())
        .append_field("e".to_string());
    let truncated = ap.truncate(3);
    assert_eq!(truncated.to_display_string(), "a.b.c.d.*");
}

#[test]
fn root_texts_and_static_paths() {
    assert_eq!(AccessPath::new(PathRoot::Temp(12)).to_display_string(), "t12");
    let alloc = AccessPath::new(PathRoot::Alloc(taintflow::ir::InstructionId(7))).append_field("f".to_string());
    assert_eq!(alloc.to_display_string(), "alloc@7.f");
    assert_eq!(AccessPath::new(PathRoot::Constant("1".to_string())).to_display_string(), "const(1)");
    assert_eq!(AccessPath::new(PathRoot::Unknown).to_display_string(), "?");
    let st = alloc.append_static("Config".to_string(), "KEY".to_string());
    assert_eq!(st.to_display_string(), "Config.KEY");
    assert!(st.segments.is_empty());
}

#[test]
fn truncation_keeps_short_paths_and_trims_unicode_spaces() {
    let ap = AccessPath::new(PathRoot::Local("a".to_string())).append_field("b".to_string());
    assert_eq!(ap.truncate(2), ap);
    assert_eq!(ap.truncate(0).to_display_string(), "a.*");
    let spaced = AccessPath::new(PathRoot::Local("\u{3000}\tv\n".to_string()));
    assert_eq!(spaced.normalize().to_display_string(), "v");
    assert_eq!(spaced.normalize().normalize(), spaced.normalize());
}
