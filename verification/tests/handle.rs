use cx::handle::{Handle, HandleRegistry};

#[test]
fn insert_and_get() {
    let mut reg: HandleRegistry<i32> = HandleRegistry::new();
    let h = reg.insert(42);
    assert_eq!(reg.get(h), Some(&42));
}

#[test]
fn get_mut() {
    let mut reg: HandleRegistry<i32> = HandleRegistry::new();
    let h = reg.insert(10);
    *reg.get_mut(h).unwrap() = 99;
    assert_eq!(reg.get(h), Some(&99));
}

#[test]
fn remove_returns_value() {
    let mut reg: HandleRegistry<i32> = HandleRegistry::new();
    let h = reg.insert(7);
    assert_eq!(reg.remove(h), Some(7));
}

#[test]
fn stale_handle_returns_none_after_remove() {
    let mut reg: HandleRegistry<i32> = HandleRegistry::new();
    let h = reg.insert(1);
    reg.remove(h);
    assert_eq!(reg.get(h), None);
}

#[test]
fn stale_handle_after_slot_reuse() {
    let mut reg: HandleRegistry<i32> = HandleRegistry::new();
    let h1 = reg.insert(1);
    reg.remove(h1);
    let h2 = reg.insert(2); // reuses slot 0
    assert_ne!(h1.gen, h2.gen);
    assert_eq!(reg.get(h1), None);
    assert_eq!(reg.get(h2), Some(&2));
}

#[test]
fn remove_stale_handle_returns_none() {
    let mut reg: HandleRegistry<i32> = HandleRegistry::new();
    let h = reg.insert(5);
    reg.remove(h);
    assert_eq!(reg.remove(h), None);
}

#[test]
fn region_id_defaults_to_zero() {
    let mut reg: HandleRegistry<i32> = HandleRegistry::new();
    let h = reg.insert(99);
    assert_eq!(reg.slot_region_id(h.slot), Some(0));
}

#[test]
fn multiple_inserts_unique_handles() {
    let mut reg: HandleRegistry<i32> = HandleRegistry::new();
    let h1 = reg.insert(1);
    let h2 = reg.insert(2);
    let h3 = reg.insert(3);
    assert_ne!(h1, h2);
    assert_ne!(h2, h3);
    assert_eq!(reg.get(h1), Some(&1));
    assert_eq!(reg.get(h2), Some(&2));
    assert_eq!(reg.get(h3), Some(&3));
}

#[test]
fn len_tracks_correctly() {
    let mut reg: HandleRegistry<i32> = HandleRegistry::new();
    assert_eq!(reg.len(), 0);
    let h1 = reg.insert(1);
    let h2 = reg.insert(2);
    assert_eq!(reg.len(), 2);
    reg.remove(h1);
    assert_eq!(reg.len(), 1);
    reg.remove(h2);
    assert_eq!(reg.len(), 0);
    assert!(reg.is_empty());
}

// ── Further scenarios ───────────────────────────────────────────────────────

#[test]
fn freed_slot_is_reused_with_bumped_generation() {
    let mut reg: HandleRegistry<&str> = HandleRegistry::new();
    let a = reg.insert("a");
    let b = reg.insert("b");
    assert_eq!(reg.remove(a), Some("a"));
    let c = reg.insert("c");
    assert_eq!(c.slot, a.slot);
    assert_eq!(c.gen, a.gen + 1);
    assert_eq!(reg.get(b), Some(&"b"));
    assert_eq!(reg.get(c), Some(&"c"));
    assert_eq!(reg.get(a), None);
}

#[test]
fn unknown_slot_is_harmless() {
    let mut reg: HandleRegistry<u8> = HandleRegistry::new();
    let h = cx::handle::Handle { slot: 5, gen: 0 };
    assert_eq!(reg.get(h), None);
    assert!(reg.get_mut(h).is_none());
    assert_eq!(reg.remove(h), None);
    assert!(reg.is_empty());
    assert_eq!(reg.slot_region_id(5), None);
}

#[test]
fn get_mut_on_stale_handle_is_none() {
    let mut reg: HandleRegistry<u8> = HandleRegistry::new();
    let h = reg.insert(3);
    reg.remove(h);
    assert!(reg.get_mut(h).is_none());
    let h2 = reg.insert(4);
    *reg.get_mut(h2).unwrap() += 1;
    assert_eq!(reg.get(h2), Some(&5));
}

#[test]
fn removing_a_forged_handle_to_a_freed_slot_changes_nothing() {
    let mut r = HandleRegistry::<i32>::new();
    let h1 = r.insert(1);
    assert_eq!(r.remove(h1), Some(1));
    let forged = Handle { slot: h1.slot, gen: h1.gen + 1 };
    assert_eq!(r.get(forged), None);
    assert_eq!(r.remove(forged), None);
    let a = r.insert(10);
    let b = r.insert(20);
    assert_ne!(a, b);
    assert_eq!(r.get(a), Some(&10));
    assert_eq!(r.get(b), Some(&20));
    assert_eq!(r.len(), 2);
}
