use lib::map::HashMap;

fn map_of(pairs: &[(&str, i32)]) -> HashMap<i32> {
    let mut map = HashMap::new();
    for (k, v) in pairs {
        map.insert(k.to_string(), *v);
    }
    map
}

fn key(k: &str) -> String {
    k.to_string()
}

#[test]
fn test_insert() {
    let mut map: HashMap<i32> = HashMap::new();
    assert!(map.capacity() >= 16);
    assert_eq!(0, map.len());

    let existing = map.insert(key("key"), 1);
    assert!(existing.is_none());
    assert_eq!(1, map.len());
}

#[test]
fn test_insert_increase_capacity() {
    // should stay at default capacity
    let mut map = map_of(&[
        ("key1", 0),
        ("key2", 0),
        ("key3", 0),
        ("key4", 0),
        ("key5", 0),
        ("key6", 0),
        ("key7", 0),
        ("key8", 0),
        ("key9", 0),
        ("key10", 0),
        ("key11", 0),
        ("key12", 0),
        ("key13", 0),
        ("key14", 0),
        ("key15", 0),
        ("key16", 0),
    ]);

    let starting_capacity = map.capacity();
    map.insert(key("key17"), 0);
    let ending_capacity = map.capacity();

    assert_ne!(starting_capacity, ending_capacity)
}

#[test]
fn test_insert_shadow() {
    let mut map = map_of(&[("key", 0)]);
    assert_eq!(1, map.len());

    let existing = map.insert(key("key"), 1);
    assert_eq!(Some(0), existing);
    assert_eq!(1, map.len());
}

#[test]
fn map_test_get() {
    let map = map_of(&[("key1", 0), ("key2", 1), ("key3", 2)]);
    let starting_len = map.len();

    assert_eq!(Some(&0), map.get(&key("key1")));
    assert_eq!(Some(&1), map.get(&key("key2")));
    assert_eq!(Some(&2), map.get(&key("key3")));
    assert_eq!(starting_len, map.len());
}

#[test]
fn test_get_nonexistant() {
    let map = map_of(&[("key1", 0), ("key2", 1), ("key3", 2)]);
    let starting_len = map.len();

    assert_eq!(None, map.get(&key("bad")));
    assert_eq!(starting_len, map.len());
}

#[test]
fn test_get_mut() {
    let mut map = map_of(&[("key1", 0), ("key2", 1), ("key3", 2)]);
    let starting_len = map.len();

    {
        let value = map.get_mut(&key("key1"));
        assert!(value.is_some());

        let slot = value.unwrap();
        *slot = 10;
        assert_eq!(starting_len, map.len());
    }

    assert_eq!(Some(&10), map.get(&key("key1")));
}

#[test]
fn test_get_mut_nonexistant() {
    let map = map_of(&[("key1", 0), ("key2", 1), ("key3", 2)]);
    let starting_len = map.len();

    assert_eq!(None, map.get(&key("bad")));
    assert_eq!(starting_len, map.len());
}

#[test]
fn test_remove() {
    let mut map = map_of(&[("key1", 0), ("key2", 1), ("key3", 2)]);
    let starting_len = map.len();

    assert_eq!(Some(0), map.remove(&key("key1")));
    assert_eq!(starting_len - 1, map.len());
}

#[test]
fn test_remove_nonexistant() {
    let mut map = map_of(&[("key1", 0), ("key2", 1), ("key3", 2)]);
    let starting_len = map.len();

    assert_eq!(None, map.remove(&key("bad")));
    assert_eq!(starting_len, map.len());
}

#[test]
fn map_new_has_twenty_empty_slots() {
    let map: HashMap<i32> = HashMap::new();
    assert_eq!(20, map.capacity());
    assert!(map.is_empty());
    let sized: HashMap<i32> = HashMap::with_capacity(100);
    assert_eq!(130, sized.capacity());
}

#[test]
fn map_get_after_insert_and_remove() {
    let mut map = map_of(&[("a", 1), ("b", 2)]);
    assert_eq!(None, map.insert(key("c"), 3));
    assert_eq!(Some(&3), map.get(&key("c")));
    assert_eq!(Some(3), map.remove(&key("c")));
    assert_eq!(None, map.get(&key("c")));
    assert_eq!(2, map.len());
}

#[test]
fn map_try_variants_agree() {
    let mut map = map_of(&[("a", 1)]);
    assert_eq!(Some(Some(&1)), map.try_get(&key("a")));
    assert_eq!(Some(None), map.try_insert(key("b"), 2));
    assert_eq!(Some(Some(2)), map.try_remove(&key("b")));
    if let Some(Some(v)) = map.try_get_mut(&key("a")) {
        *v = 5;
    }
    assert_eq!(Some(&5), map.get(&key("a")));
    let mut empty: HashMap<i32> = HashMap::with_capacity(0);
    assert_eq!(0, empty.capacity());
    assert_eq!(None, empty.try_insert(key("a"), 1));
    assert_eq!(None, empty.try_get(&key("a")));
}

#[test]
fn map_reserve_and_iter() {
    let mut map: HashMap<i32> = HashMap::new();
    assert!(map.iter().next().is_none());
    map.reserve(5);
    assert_eq!(25, map.capacity());
    map.insert(key("only"), 7);
    let mut it = map.iter();
    let first = it.next();
    assert_eq!(Some((&key("only"), &7)), first);
    assert_eq!(Some((&key("only"), &7)), it.next());
}

#[test]
fn map_other_keys_kept_by_insert_and_remove() {
    let mut map = map_of(&[("alpha", 1), ("beta", 2), ("gamma", 3)]);
    map.insert(key("delta"), 4);
    assert_eq!(Some(&1), map.get(&key("alpha")));
    assert_eq!(Some(&2), map.get(&key("beta")));
    assert_eq!(Some(&3), map.get(&key("gamma")));
    assert_eq!(Some(&4), map.get(&key("delta")));
    map.insert(key("beta"), 20);
    assert_eq!(Some(&1), map.get(&key("alpha")));
    assert_eq!(Some(&20), map.get(&key("beta")));
    map.remove(&key("gamma"));
    assert_eq!(None, map.get(&key("gamma")));
    assert_eq!(Some(&1), map.get(&key("alpha")));
    assert_eq!(Some(&20), map.get(&key("beta")));
    assert_eq!(Some(&4), map.get(&key("delta")));
}
