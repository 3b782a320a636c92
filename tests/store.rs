use todo_store::{
    blank, collect_listing, next_id, storage_key, white_space, Filter, Priority, Todo, TodoError,
    TodoStore,
};

fn texts(store: &TodoStore, filter: Filter) -> Vec<(u64, String, Priority, bool)> {
    let listing = store.list(filter).unwrap();
    listing
        .todos
        .into_iter()
        .map(|t| (t.id, t.text, t.priority, t.done))
        .collect()
}

#[test]
fn scenario_add_list_complete_remove() {
    let mut store = TodoStore::temporary().unwrap();
    assert_eq!(store.add("buy milk".to_string(), Priority::Soft), Ok(1));
    assert_eq!(store.add("fix bug".to_string(), Priority::Fuck), Ok(2));
    assert_eq!(
        texts(&store, Filter::All),
        vec![
            (1, "buy milk".to_string(), Priority::Soft, false),
            (2, "fix bug".to_string(), Priority::Fuck, false),
        ]
    );
    assert_eq!(store.complete(1), Ok(()));
    assert_eq!(
        texts(&store, Filter::All),
        vec![
            (1, "buy milk".to_string(), Priority::Soft, true),
            (2, "fix bug".to_string(), Priority::Fuck, false),
        ]
    );
    assert_eq!(store.remove(2), Ok(true));
    assert_eq!(store.remove(2), Ok(false));
    assert_eq!(store.get(2), Err(TodoError::NotFound));
}

#[test]
fn add_rejects_blank_text() {
    let mut store = TodoStore::temporary().unwrap();
    assert_eq!(store.add(String::new(), Priority::High), Err(TodoError::InvalidInput));
    assert_eq!(store.add(" \t\n ".to_string(), Priority::High), Err(TodoError::InvalidInput));
    assert_eq!(store.add("\u{3000}".to_string(), Priority::High), Err(TodoError::InvalidInput));
    assert!(store.list(Filter::All).unwrap().todos.is_empty());
    assert_eq!(store.add("  ok  ".to_string(), Priority::High), Ok(1));
    assert_eq!(store.get(1).unwrap().text, "  ok  ");
}

#[test]
fn ids_keep_growing_after_removal() {
    let mut store = TodoStore::temporary().unwrap();
    let a = store.add("a".to_string(), Priority::Chill).unwrap();
    let b = store.add("b".to_string(), Priority::Chill).unwrap();
    assert_eq!(store.remove(b), Ok(true));
    let c = store.add("c".to_string(), Priority::Chill).unwrap();
    assert!(a < b && b < c);
    assert_eq!(c, 3);
}

#[test]
fn complete_twice_is_complete_once() {
    let mut store = TodoStore::temporary().unwrap();
    store.add("write tests".to_string(), Priority::Medium).unwrap();
    assert_eq!(store.complete(1), Ok(()));
    let once = store.get(1).unwrap();
    assert_eq!(store.complete(1), Ok(()));
    let twice = store.get(1).unwrap();
    assert_eq!(once, twice);
    assert!(twice.done);
    assert_eq!(store.complete(9), Err(TodoError::NotFound));
}

#[test]
fn listing_is_in_id_order_after_deletions() {
    let mut store = TodoStore::temporary().unwrap();
    for i in 0..300u32 {
        store.add(format!("task {}", i), Priority::High).unwrap();
    }
    for id in [1u64, 2, 255, 256, 257, 299] {
        assert_eq!(store.remove(id), Ok(true));
    }
    let ids: Vec<u64> = store.list(Filter::All).unwrap().todos.iter().map(|t| t.id).collect();
    assert_eq!(ids.len(), 294);
    assert!(ids.windows(2).all(|w| w[0] < w[1]));
    assert_eq!(ids[0], 3);
    assert_eq!(ids[251], 254);
    assert_eq!(ids[252], 258);
}

#[test]
fn listing_filters() {
    let mut store = TodoStore::temporary().unwrap();
    store.add("one".to_string(), Priority::Chill).unwrap();
    store.add("two".to_string(), Priority::High).unwrap();
    store.add("three".to_string(), Priority::Medium).unwrap();
    store.complete(2).unwrap();
    let pending: Vec<u64> = store.list(Filter::Pending).unwrap().todos.iter().map(|t| t.id).collect();
    assert_eq!(pending, vec![1, 3]);
    let urgent: Vec<u64> =
        store.list(Filter::AtLeast(Priority::Medium)).unwrap().todos.iter().map(|t| t.id).collect();
    assert_eq!(urgent, vec![2, 3]);
}

#[test]
fn corrupt_record_is_skipped_in_listing() {
    let db = sled::Config::new().temporary(true).open().unwrap();
    db.insert(b"next_id", storage_key(3)).unwrap();
    for (id, text) in [(1u64, "first"), (3, "third")] {
        db.insert(storage_key(id), Todo::new(id, text.to_string(), Priority::Soft).serialize()).unwrap();
    }
    db.insert(storage_key(2), vec![1u8, 9, 0, 0, 0, 0, 0]).unwrap();
    let mut store = TodoStore::from_db(db);
    let listing = store.list(Filter::All).unwrap();
    let ids: Vec<u64> = listing.todos.iter().map(|t| t.id).collect();
    assert_eq!(ids, vec![1, 3]);
    assert_eq!(listing.skipped, vec![2]);
    assert_eq!(store.get(2), Err(TodoError::CorruptRecord));
    assert_eq!(store.complete(2), Err(TodoError::CorruptRecord));
    assert_eq!(store.get(3).unwrap().text, "third");
}

#[test]
fn unknown_schema_version_is_reported() {
    let db = sled::Config::new().temporary(true).open().unwrap();
    db.insert(storage_key(5), vec![2u8, 0, 0, 0, 0, 0, 1, b'x']).unwrap();
    let store = TodoStore::from_db(db);
    assert_eq!(store.get(5), Err(TodoError::SchemaMismatch));
    assert_eq!(store.list(Filter::All).unwrap().skipped, vec![5]);
}

#[test]
fn exhausted_counter_issues_no_id() {
    let db = sled::Config::new().temporary(true).open().unwrap();
    db.insert(b"next_id", vec![0xffu8; 8]).unwrap();
    let mut store = TodoStore::from_db(db);
    assert_eq!(store.add("late".to_string(), Priority::Soft), Err(TodoError::IdsExhausted));
}

#[test]
fn broken_counter_is_corrupt() {
    let db = sled::Config::new().temporary(true).open().unwrap();
    db.insert(b"next_id", vec![1u8, 2, 3]).unwrap();
    let mut store = TodoStore::from_db(db);
    assert_eq!(store.add("x".to_string(), Priority::Soft), Err(TodoError::CorruptRecord));
}

#[test]
fn counter_continues_from_stored_value() {
    let db = sled::Config::new().temporary(true).open().unwrap();
    db.insert(b"next_id", storage_key(41)).unwrap();
    let mut store = TodoStore::from_db(db);
    assert_eq!(store.add("x".to_string(), Priority::Soft), Ok(42));
    assert_eq!(store.add("y".to_string(), Priority::Soft), Ok(43));
}

#[test]
fn add_never_overwrites_a_record_ahead_of_the_counter() {
    let db = sled::Config::new().temporary(true).open().unwrap();
    let kept = Todo::new(1, "kept".to_string(), Priority::High).serialize();
    db.insert(storage_key(1), kept).unwrap();
    let mut store = TodoStore::from_db(db);
    assert_eq!(store.add("new".to_string(), Priority::Soft), Err(TodoError::CorruptRecord));
    assert_eq!(store.get(1).unwrap().text, "kept");
}

#[test]
fn next_id_from_counter_bytes() {
    assert_eq!(next_id(None), Ok(1));
    assert_eq!(next_id(Some(&storage_key(0))), Ok(1));
    assert_eq!(next_id(Some(&storage_key(41))), Ok(42));
    assert_eq!(next_id(Some(&storage_key(256))), Ok(257));
    assert_eq!(next_id(Some(&storage_key(u64::MAX - 1))), Ok(u64::MAX));
    assert_eq!(next_id(Some(&storage_key(u64::MAX))), Err(TodoError::IdsExhausted));
    assert_eq!(next_id(Some(&[0u8; 7])), Err(TodoError::CorruptRecord));
    assert_eq!(next_id(Some(&[])), Err(TodoError::CorruptRecord));
}

#[test]
fn white_space_characters() {
    for c in ['\t', '\n', '\u{b}', '\u{c}', '\r', ' ', '\u{85}', '\u{a0}', '\u{1680}', '\u{2000}', '\u{200a}', '\u{2028}', '\u{2029}', '\u{202f}', '\u{205f}', '\u{3000}'] {
        assert!(white_space(c), "{:?}", c);
        assert_eq!(white_space(c), c.is_whitespace());
    }
    for c in ['a', '\u{8}', '\u{e}', '\u{200b}', '\u{180e}', '\u{feff}', '\u{2001}'] {
        assert_eq!(white_space(c), c.is_whitespace(), "{:?}", c);
    }
    for u in 0u32..0x3100 {
        if let Some(c) = char::from_u32(u) {
            assert_eq!(white_space(c), c.is_whitespace(), "{:x}", u);
        }
    }
}

#[test]
fn collect_listing_skips_undecodable_entries() {
    let good = Todo::new(1, "alpha".to_string(), Priority::High).serialize();
    let also_good = Todo::new(4, "beta".to_string(), Priority::Chill).serialize();
    let entries = vec![
        (storage_key(1), good),
        (storage_key(2), vec![1u8, 0, 0, 0, 0, 0, 9, b'a']),
        (storage_key(4), also_good),
        (b"next_id".to_vec(), storage_key(4)),
    ];
    let listing = collect_listing(&entries, Filter::All);
    let ids: Vec<u64> = listing.todos.iter().map(|t| t.id).collect();
    assert_eq!(ids, vec![1, 4]);
    assert_eq!(listing.skipped, vec![2]);
    let high = collect_listing(&entries, Filter::AtLeast(Priority::High));
    assert_eq!(high.todos.len(), 1);
    assert_eq!(high.todos[0].text, "alpha");
}

#[test]
fn blank_follows_unicode_white_space() {
    assert!(blank(""));
    assert!(blank(" \t\r\n\u{a0}\u{2003}"));
    assert!(!blank(" a "));
    assert!(!blank("\u{200b}"));
}
