use crow_util::holder::Holder;
use std::cell::Cell;

#[test]
fn distinct_keys_all_present() {
    let mut holder = Holder::new();
    let keys = ["one", "two", "three", "four", "five", "six", "seven", "eight"];
    for (i, key) in keys.iter().enumerate() {
        assert!(holder.insert(key, i).is_none());
    }
    assert_eq!(holder.len(), keys.len());
    for (i, key) in keys.iter().enumerate() {
        assert_eq!(holder.get(key), Some(&i));
    }
}

#[test]
fn insert_is_idempotent() {
    let mut holder = Holder::new();
    assert_eq!(holder.insert("k", 1), None);
    assert_eq!(holder.insert("k", 2), Some(&1));
    assert_eq!(holder.get("k"), Some(&1));
    assert_eq!(holder.len(), 1);
}

#[test]
fn values_survive_growth() {
    let mut holder = Holder::new();
    assert!(holder.insert("first", String::from("kept")).is_none());
    // Insert enough other keys to force any backing table to grow.
    for i in 0..100 {
        let key = format!("filler{}", i);
        assert!(holder.insert(&key, format!("v{}", i)).is_none());
    }
    assert_eq!(holder.get("first"), Some(&String::from("kept")));
    assert_eq!(holder.get("filler37"), Some(&String::from("v37")));
    assert_eq!(holder.len(), 101);
}

#[test]
fn insert_fn_runs_producer_once_per_new_key() {
    let mut holder = Holder::new();
    let calls = Cell::new(0u32);
    for _ in 0..10 {
        holder.insert_fn("same", || {
            calls.set(calls.get() + 1);
            42
        });
    }
    assert_eq!(calls.get(), 1);
    assert_eq!(holder.get("same"), Some(&42));

    let fresh_calls = Cell::new(0u32);
    let keys = ["p", "q", "r"];
    for key in keys.iter() {
        holder.insert_fn(key, || {
            fresh_calls.set(fresh_calls.get() + 1);
            7
        });
    }
    assert_eq!(fresh_calls.get(), keys.len() as u32);
}

#[test]
fn insert_fn_returns_existing_value() {
    let mut holder = Holder::new();
    assert_eq!(holder.insert("a", 3), None);
    assert_eq!(holder.insert_fn("a", || 9), Some(&3));
    assert_eq!(holder.insert_fn("b", || 9), None);
    assert_eq!(holder.get("b"), Some(&9));
}

#[test]
fn clear_keeps_capacity_and_shrink_releases_it() {
    let mut holder = Holder::new();
    assert!(holder.insert("a", 42).is_none());
    assert!(holder.insert("b", 360).is_none());
    assert!(holder.insert("c", 7).is_none());
    assert_eq!(holder.len(), 3);
    let prev_capacity = holder.capacity();
    assert!(prev_capacity >= 3);

    holder.clear();
    assert_eq!(holder.len(), 0);
    assert_eq!(holder.capacity(), prev_capacity);

    holder.shrink_to_fit();
    assert_eq!(holder.capacity(), 0);
}

#[test]
fn concrete_scenario() {
    let mut holder = Holder::new();
    holder.insert("a", 7);
    holder.insert("b", 15);
    holder.insert("c", 19);
    assert_eq!(holder.len(), 3);
    assert_eq!(holder.get("a"), Some(&7));

    assert_eq!(holder.insert("d", 54), None);
    assert_eq!(holder.insert("d", 84), Some(&54));
    assert_eq!(holder.len(), 4);
}

#[test]
fn get_absent_key() {
    let holder: Holder<u32> = Holder::new();
    assert_eq!(holder.get("missing"), None);
    assert_eq!(holder.len(), 0);
}

#[test]
fn with_capacity_reports_at_least_requested() {
    let holder: Holder<u32> = Holder::with_capacity(42);
    assert!(holder.capacity() >= 42);
    assert_eq!(holder.len(), 0);
}

#[test]
fn shrink_to_fit_keeps_entries() {
    let mut holder = Holder::with_capacity(64);
    holder.insert("x", 1);
    holder.insert("y", 2);
    holder.shrink_to_fit();
    assert_eq!(holder.capacity(), 2);
    assert_eq!(holder.get("x"), Some(&1));
    assert_eq!(holder.get("y"), Some(&2));
    assert_eq!(holder.len(), 2);
}
