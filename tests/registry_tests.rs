use vaportrail::registry::TargetRegistry;

#[test]
fn registry_add_is_idempotent() {
    let mut r: TargetRegistry<&str> = TargetRegistry::new();
    assert!(r.add(1, "first"));
    assert!(!r.add(1, "second"));
    assert!(r.contains(1));
    assert_eq!(r.remove(1), Some("first"));
    assert!(!r.contains(1));
    assert_eq!(r.remove(1), None);
}

#[test]
fn registry_keeps_other_targets() {
    let mut r: TargetRegistry<u32> = TargetRegistry::new();
    r.add(1, 10);
    r.add(2, 20);
    r.add(3, 30);
    assert_eq!(r.remove(2), Some(20));
    assert!(r.contains(1) && r.contains(3) && !r.contains(2));
    assert!(r.add(2, 21));
    assert_eq!(r.remove(2), Some(21));
}
