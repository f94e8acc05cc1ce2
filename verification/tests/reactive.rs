use rsvelte::dirty::{flag_set, DirtyFlags, MutateTracker};
use rsvelte::reactive::{DynamicArg, VersionGate};
use rsvelte::text::{label_int, label_int_suffix, label_text, text_colon_int};

#[test]
fn mutate_tracker_marks_on_write_only() {
    let mut flags = DirtyFlags::new();
    let mut t = MutateTracker::new(5, 3);
    assert_eq!(*t.get(), 5);
    assert_eq!(flags.load(), 0);
    *t.get_mut(&mut flags) += 1;
    assert_eq!(*t.get(), 6);
    assert_eq!(flags.load(), 8);
    assert!(flags.is_dirty(3));
    assert!(!flags.is_dirty(0));
    assert_eq!(t.id(), 3);
}

#[test]
fn dirty_flags_operations() {
    let mut f = DirtyFlags::all();
    assert_eq!(f.load(), u64::MAX);
    f.store(0);
    f.mark(1);
    f.mark(4);
    assert_eq!(f.load(), 0b10010);
    assert_eq!(f.fetch_or(1), 0b10010);
    assert_eq!(f.fetch_and(!0b10), 0b10011);
    assert_eq!(f.load(), 0b10001);
    assert!(flag_set(0b100, 2));
    assert!(!flag_set(0b100, 1));
}

#[test]
fn dynamic_arg_recomputes_when_gated() {
    let mut arg = DynamicArg::new(|| 7, |flags: u64| flags & 1 != 0);
    assert_eq!(*arg.get(), 7);
    assert_eq!(arg.version(), 0);
    assert!(!arg.update(2));
    assert_eq!(arg.version(), 0);
    assert!(arg.update(1));
    assert_eq!(arg.version(), 1);
    assert_eq!(*arg.get(), 7);
}

#[test]
fn version_gate_fires_once_per_version() {
    let mut g = VersionGate::new();
    assert!(!g.check(0));
    assert!(g.check(2));
    assert!(g.check(2));
    assert!(!g.check(2));
    assert!(g.check(3));
}

#[test]
fn decimal_texts() {
    assert_eq!(label_int("", 0), "0");
    assert_eq!(label_int("", -42), "-42");
    assert_eq!(label_int("Count: ", 42), "Count: 42");
    assert_eq!(label_int_suffix("Struct A: ", 10, " (Click to update)"), "Struct A: 10 (Click to update)");
    assert_eq!(label_text("Struct B: ", "hello"), "Struct B: hello");
    assert_eq!(text_colon_int("Click me", 3), "Click me: 3");
}

#[test]
fn version_counts_fired_updates_over_a_run() {
    let mut arg = DynamicArg::new(|| 1, |flags: u64| flags & 4 != 0);
    let runs = [4u64, 1, 5, 0, 4, 2];
    let mut fired = 0;
    for f in runs {
        if arg.update(f) {
            fired += 1;
        }
    }
    assert_eq!(fired, 3);
    assert_eq!(arg.version(), 3);
}
