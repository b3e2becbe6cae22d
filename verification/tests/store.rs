use humus::handle::Store;
use humus::store::StoreState;

use serde_json::Value;

fn val(s: &str) -> Value {
    serde_json::from_str(s).expect("test value must parse")
}

#[test]
fn ttl_bound_one_second() {
    // lifetime = 1s: inserted at t = 0, visible immediately, gone once 2s
    // have elapsed and a triggering call runs.
    let mut store = StoreState::new(1, false);
    store.insert("/x".to_string(), val("{\"a\":\"1\"}"), 0);
    let out = store.get("/x", 0);
    assert_eq!(out, vec![val("{\"a\":\"1\"}")]);
    let out = store.get("/x", 2);
    assert_eq!(out, Vec::<Value>::new());
}

#[test]
fn append_only_two_entities_same_path() {
    let mut store = StoreState::new(60, false);
    let a = val("{\"name\":\"A\"}");
    let b = val("{\"name\":\"B\"}");
    store.insert("/x".to_string(), a.clone(), 0);
    store.insert("/x".to_string(), b.clone(), 0);
    let out = store.get("/x", 0);
    assert_eq!(out.len(), 2);
    assert!(out.contains(&a));
    assert!(out.contains(&b));
}

#[test]
fn hierarchical_get_returns_descendants() {
    let mut store = StoreState::new(60, false);
    let c = val("{\"name\":\"C\"}");
    let d = val("{\"name\":\"D\"}");
    store.insert("/x/y".to_string(), c.clone(), 0);
    store.insert("/x".to_string(), d.clone(), 0);
    let out = store.get("/x", 0);
    assert_eq!(out.len(), 2);
    assert!(out.contains(&c));
    assert!(out.contains(&d));
    let out = store.get("/x/y", 0);
    assert_eq!(out, vec![c]);
}

#[test]
fn cascade_off_refreshes_only_exact_path() {
    // lifetime = 2s, cascade refresh off.  At t=0 insert D at /x and C at
    // /x/y.  At t=1 a read of /x returns both but refreshes only D (now
    // expiring at 3); C still expires at 2.  At t=2 only D survives.
    let mut store = StoreState::new(2, false);
    let c = val("{\"name\":\"C\"}");
    let d = val("{\"name\":\"D\"}");
    store.insert("/x".to_string(), d.clone(), 0);
    store.insert("/x/y".to_string(), c.clone(), 0);
    let out = store.get("/x", 1);
    assert_eq!(out.len(), 2);
    assert!(out.contains(&c));
    assert!(out.contains(&d));
    let out = store.get("/x", 2);
    assert_eq!(out, vec![d]);
}

#[test]
fn cascade_on_refreshes_descendants() {
    let mut store = StoreState::new(2, true);
    let c = val("{\"name\":\"C\"}");
    store.insert("/x/y".to_string(), c.clone(), 0);
    let out = store.get("/x", 1);
    assert_eq!(out, vec![c.clone()]);
    // The read at t=1 cascaded the refresh to /x/y, so C now expires at 3.
    let out = store.get("/x/y", 2);
    assert_eq!(out, vec![c]);
}

#[test]
fn sliding_refresh_extends_lifetime() {
    let mut store = StoreState::new(10, false);
    let a = val("\"payload\"");
    store.insert("/x".to_string(), a.clone(), 0);
    // Touched at t=9: expiry moves from 10 to 19.
    let out = store.get("/x", 9);
    assert_eq!(out, vec![a.clone()]);
    let out = store.get("/x", 15);
    assert_eq!(out, vec![a.clone()]);
    // Untouched since t=15: gone from t=25 on.
    let out = store.get("/x", 25);
    assert_eq!(out, Vec::<Value>::new());
}

#[test]
fn no_refresh_means_expiry_at_insert_plus_lifetime() {
    let mut store = StoreState::new(10, false);
    let a = val("\"payload\"");
    store.insert("/x".to_string(), a, 0);
    let out = store.get("/x", 10);
    assert_eq!(out, Vec::<Value>::new());
}

#[test]
fn segment_wise_ancestry_not_string_prefix() {
    let mut store = StoreState::new(60, false);
    let foo = val("{\"name\":\"foo\"}");
    let deep = val("{\"name\":\"deep\"}");
    store.insert("/xfoo".to_string(), foo.clone(), 0);
    store.insert("/x/y/z".to_string(), deep.clone(), 0);
    let out = store.get("/x", 0);
    assert_eq!(out, vec![deep]);
    let out = store.get("/xfoo", 0);
    assert_eq!(out, vec![foo]);
}

#[test]
fn root_read_covers_everything_beneath_it() {
    let mut store = StoreState::new(60, false);
    let a = val("1");
    let b = val("2");
    store.insert("/x".to_string(), a.clone(), 0);
    store.insert("/y/z".to_string(), b.clone(), 0);
    let out = store.get("/", 0);
    assert_eq!(out.len(), 2);
    assert!(out.contains(&a));
    assert!(out.contains(&b));
}

#[test]
fn empty_read_on_unknown_path() {
    let mut store = StoreState::new(60, false);
    let out = store.get("/never/written", 0);
    assert_eq!(out, Vec::<Value>::new());
    // Reading twice stays empty and is a normal result.
    let out = store.get("/never/written", 0);
    assert_eq!(out, Vec::<Value>::new());
}

#[test]
fn empty_read_on_fully_expired_path() {
    let mut store = StoreState::new(1, false);
    store.insert("/x".to_string(), val("null"), 0);
    let out = store.get("/x", 100);
    assert_eq!(out, Vec::<Value>::new());
    let out = store.get("/x", 100);
    assert_eq!(out, Vec::<Value>::new());
}

#[test]
fn fresh_identifiers_for_identical_inserts() {
    let mut store = StoreState::new(60, false);
    let id1 = store.insert("/x".to_string(), val("{\"same\":true}"), 0);
    let id2 = store.insert("/x".to_string(), val("{\"same\":true}"), 0);
    assert_ne!(id1, id2);
    let out = store.get("/x", 0);
    assert_eq!(out.len(), 2);
}

#[test]
fn pruning_one_expired_sibling_preserves_the_other() {
    let mut store = StoreState::new(5, false);
    let a = val("{\"name\":\"A\"}");
    let b = val("{\"name\":\"B\"}");
    store.insert("/x".to_string(), a, 0); // expires at 5
    store.insert("/x".to_string(), b.clone(), 3); // expires at 8
    let out = store.get("/x", 6);
    assert_eq!(out, vec![b]);
}

#[test]
fn independent_expiry_of_identical_entities() {
    let mut store = StoreState::new(5, false);
    let same = val("\"same\"");
    store.insert("/x".to_string(), same.clone(), 0); // expires at 5
    store.insert("/x".to_string(), same.clone(), 3); // expires at 8
    let out = store.get("/x", 6);
    assert_eq!(out, vec![same]);
}

#[test]
fn wall_clock_entry_points_round_trip() {
    let mut store = StoreState::new(600, false);
    let a = val("{\"kind\":\"clocked\"}");
    let id1 = store.create_entity("/w".to_string(), a.clone());
    let id2 = store.create_entity("/w".to_string(), a.clone());
    assert_ne!(id1, id2);
    let out = store.get_entities("/w");
    assert_eq!(out.len(), 2);
    assert!(out.contains(&a));
}

#[test]
fn insert_triggers_prune_too() {
    let mut store = StoreState::new(1, false);
    store.insert("/x".to_string(), val("\"old\""), 0); // expires at 1
    store.insert("/y".to_string(), val("\"new\""), 5); // prunes /x first
    let out = store.get("/x", 5);
    assert_eq!(out, Vec::<Value>::new());
    let out = store.get("/y", 5);
    assert_eq!(out, vec![val("\"new\"")]);
}

#[test]
fn deep_nesting_is_covered_at_every_ancestor() {
    let mut store = StoreState::new(60, false);
    let v = val("{\"deep\":true}");
    store.insert("/a/b/c/d".to_string(), v.clone(), 0);
    assert_eq!(store.get("/a", 0), vec![v.clone()]);
    assert_eq!(store.get("/a/b", 0), vec![v.clone()]);
    assert_eq!(store.get("/a/b/c", 0), vec![v.clone()]);
    assert_eq!(store.get("/a/b/c/d", 0), vec![v.clone()]);
    assert_eq!(store.get("/a/b/c/d/e", 0), Vec::<Value>::new());
    assert_eq!(store.get("/b", 0), Vec::<Value>::new());
}

#[test]
fn shared_handle_serializes_whole_store_operations() {
    let store = Store::new(600, false);
    let a = val("{\"kind\":\"locked\"}");
    let id = store.create_entity("/h".to_string(), a.clone());
    assert!(id.is_some());
    let out = store.get_entities("/h");
    assert_eq!(out, vec![a.clone()]);
    // A cloned handle shares the same engine.
    let other = store.clone();
    let out = other.get_entities("/h");
    assert_eq!(out, vec![a]);
}

#[test]
fn handle_configuration_reaches_the_engine() {
    // With a zero lifetime an entity expires at its own insertion instant,
    // so the very next read prunes it: a handle that ignored its
    // configuration would return the entity here.
    let store = Store::new(0, false);
    let id = store.create_entity("/z".to_string(), val("\"gone\""));
    assert!(id.is_some());
    let out = store.get_entities("/z");
    assert_eq!(out, Vec::<Value>::new());
}

#[test]
fn expiry_saturates_at_the_largest_timestamp() {
    let mut store = StoreState::new(u64::MAX, false);
    let a = val("true");
    store.insert("/x".to_string(), a.clone(), 5);
    let out = store.get("/x", u64::MAX - 1);
    assert_eq!(out, vec![a.clone()]);
    // A saturated expiry still means "alive while now < u64::MAX".
    let out = store.get("/x", u64::MAX);
    assert_eq!(out, Vec::<Value>::new());
}
