use labelpool::label::{Label, Unlabellable};
use labelpool::pool::{InternKey, InternPool};

#[test]
fn intern_is_idempotent() {
    let mut pool = InternPool::new();
    let k1 = pool.intern("alpha");
    assert_eq!(pool.len(), 1);
    let k2 = pool.intern("alpha");
    assert_eq!(k1, k2);
    assert_eq!(pool.len(), 1);
    let k3 = pool.intern("alpha");
    assert_eq!(k1, k3);
    assert_eq!(pool.len(), 1);
}

#[test]
fn intern_assigns_distinct_keys() {
    let mut pool = InternPool::new();
    let ka = pool.intern("alpha");
    let kb = pool.intern("beta");
    assert_ne!(ka, kb);
    assert_eq!(pool.len(), 2);
}

#[test]
fn resolve_round_trips() {
    let mut pool = InternPool::new();
    let inputs = ["alpha", "", "a b", "A", "a", " a", "intro", "m\u{fc}nster"];
    let keys: Vec<InternKey> = inputs.iter().map(|s| pool.intern(s)).collect();
    for (s, k) in inputs.iter().zip(keys.iter()) {
        assert_eq!(pool.resolve(*k), *s);
    }
}

#[test]
fn empty_string_is_a_valid_entry() {
    let mut pool = InternPool::new();
    let k_empty = pool.intern("");
    let k_other = pool.intern("x");
    assert_ne!(k_empty, k_other);
    assert_eq!(pool.resolve(k_empty), "");
    assert_eq!(pool.intern(""), k_empty);
    assert_eq!(pool.len(), 2);
}

#[test]
fn case_and_whitespace_are_significant() {
    let mut pool = InternPool::new();
    let k1 = pool.intern("Heading");
    let k2 = pool.intern("heading");
    let k3 = pool.intern("heading ");
    assert_ne!(k1, k2);
    assert_ne!(k2, k3);
    assert_eq!(pool.len(), 3);
}

#[test]
fn label_equality_is_key_based() {
    let mut pool = InternPool::new();
    let l1 = Label::construct(&mut pool, "a");
    let l2 = Label::construct(&mut pool, "a");
    let l3 = Label::construct(&mut pool, "b");
    assert_eq!(l1, l2);
    assert_ne!(l1, l3);
}

#[test]
fn label_round_trips_to_its_name() {
    let mut pool = InternPool::new();
    let l = Label::new(&mut pool, "intro");
    assert_eq!(l.as_str(&pool), "intro");
    let e = Label::new(&mut pool, "");
    assert_eq!(e.as_str(&pool), "");
}

#[test]
fn into_inner_matches_the_pool_key() {
    let mut pool = InternPool::new();
    let k = pool.intern("alpha");
    let l = Label::construct(&mut pool, "alpha");
    assert_eq!(l.into_inner(), k);
    assert_eq!(InternKey::from(l), k);
}

#[test]
fn ordering_follows_first_insertion() {
    let mut pool = InternPool::new();
    // "b" is interned first, so its label orders before "a"'s: the order is
    // insertion order, not lexicographic order.
    let lb = Label::construct(&mut pool, "b");
    let la = Label::construct(&mut pool, "a");
    assert!(lb < la);
    assert!(la > lb);
}

#[test]
fn ordering_is_stable_across_reconstruction() {
    let mut pool = InternPool::new();
    let l1 = Label::construct(&mut pool, "first");
    let l2 = Label::construct(&mut pool, "second");
    assert!(l1 < l2);
    // Constructing either string again must not change the relative order.
    let l2again = Label::construct(&mut pool, "second");
    let l1again = Label::construct(&mut pool, "first");
    assert_eq!(l1, l1again);
    assert_eq!(l2, l2again);
    assert!(l1again < l2again);
}

#[test]
fn repr_wraps_the_name_in_angle_brackets() {
    let mut pool = InternPool::new();
    let lb = Label::construct(&mut pool, "b");
    assert_eq!(lb.repr(&pool).as_str(), "<b>");
    let le = Label::construct(&mut pool, "");
    assert_eq!(le.repr(&pool).as_str(), "<>");
    let lw = Label::construct(&mut pool, "a b");
    assert_eq!(lw.repr(&pool).as_str(), "<a b>");
}

struct Spacer;

impl Unlabellable for Spacer {}

#[test]
fn unlabellable_marker_has_no_runtime_footprint() {
    // The marker carries no data and changes nothing about Label: a label is
    // exactly one key wide, whether or not any type opts into the marker.
    assert_eq!(
        core::mem::size_of::<Label>(),
        core::mem::size_of::<InternKey>()
    );
    let mut pool = InternPool::new();
    let _s = Spacer;
    let l = Label::construct(&mut pool, "a");
    assert_eq!(l.as_str(&pool), "a");
}

#[test]
fn labels_work_as_map_keys() {
    let mut pool = InternPool::new();
    let la = Label::construct(&mut pool, "a");
    let lb = Label::construct(&mut pool, "b");
    let mut map = std::collections::HashMap::new();
    map.insert(la, 1u32);
    map.insert(lb, 2u32);
    let la2 = Label::construct(&mut pool, "a");
    assert_eq!(map.get(&la2), Some(&1u32));
}

#[test]
fn pool_grows_by_at_most_one_per_intern() {
    let mut pool = InternPool::new();
    assert_eq!(pool.len(), 0);
    pool.intern("a");
    assert_eq!(pool.len(), 1);
    pool.intern("b");
    assert_eq!(pool.len(), 2);
    pool.intern("a");
    pool.intern("b");
    assert_eq!(pool.len(), 2);
}
