//! The registry of inspections.
use rpi::registry::all;

#[test]
fn registry_contains_all_inspections() {
    let names: Vec<_> = all().iter().map(|i| i.name()).collect();
    for expected in [
        "workspace-graph",
        "module-size",
        "unsafe-surface",
        "pub-surface",
        "test-gap",
        "dep-hygiene",
        "coupling",
        "audit-bridge",
    ] {
        assert!(names.contains(&expected), "missing {expected}");
    }
}

#[test]
fn registry_order_is_fixed() {
    let names: Vec<_> = all().iter().map(|i| i.name()).collect();
    assert_eq!(
        names,
        vec![
            "workspace-graph",
            "module-size",
            "unsafe-surface",
            "pub-surface",
            "test-gap",
            "dep-hygiene",
            "coupling",
            "audit-bridge",
        ]
    );
}
