use todo_store::{key_id, parse_command, parse_id, storage_key, Command, Filter, Priority, Todo, TodoError};

#[test]
fn record_layout_is_fixed() {
    let t = Todo::new(7, "fix bug".to_string(), Priority::Soft);
    assert_eq!(t.serialize(), vec![1u8, 3, 0, 0, 0, 0, 7, b'f', b'i', b'x', b' ', b'b', b'u', b'g']);
    let mut done = Todo::new(8, "é".to_string(), Priority::Chill);
    done.done = true;
    assert_eq!(done.serialize(), vec![1u8, 4, 1, 0, 0, 0, 2, 0xc3, 0xa9]);
}

#[test]
fn decode_of_encode_is_identity() {
    for (i, p) in [Priority::Fuck, Priority::High, Priority::Medium, Priority::Soft, Priority::Chill]
        .into_iter()
        .enumerate()
    {
        for done in [false, true] {
            let mut t = Todo::new(i as u64 + 10, "Studiare meglio rust ☕".to_string(), p);
            t.done = done;
            let bytes = t.serialize();
            assert_eq!(Todo::deserialize(t.id, &bytes), Ok(t));
        }
    }
}

#[test]
fn decode_rejects_malformed_records() {
    assert_eq!(Todo::deserialize(1, &[]), Err(TodoError::CorruptRecord));
    assert_eq!(Todo::deserialize(1, &[0u8, 0, 0, 0, 0, 0, 0]), Err(TodoError::SchemaMismatch));
    assert_eq!(Todo::deserialize(1, &[2u8]), Err(TodoError::SchemaMismatch));
    assert_eq!(Todo::deserialize(1, &[1u8, 0, 0]), Err(TodoError::CorruptRecord));
    assert_eq!(Todo::deserialize(1, &[1u8, 5, 0, 0, 0, 0, 0]), Err(TodoError::CorruptRecord));
    assert_eq!(Todo::deserialize(1, &[1u8, 0, 2, 0, 0, 0, 0]), Err(TodoError::CorruptRecord));
    assert_eq!(Todo::deserialize(1, &[1u8, 0, 0, 0, 0, 0, 5, b'a']), Err(TodoError::CorruptRecord));
    assert_eq!(Todo::deserialize(1, &[1u8, 0, 0, 0xff, 0xff, 0xff, 0xff, b'a']), Err(TodoError::CorruptRecord));
    assert_eq!(Todo::deserialize(1, &[1u8, 0, 0, 0, 0, 0, 1, b'a', b'b']), Err(TodoError::CorruptRecord));
    assert_eq!(Todo::deserialize(1, &[1u8, 0, 0, 0, 0, 0, 1, 0xff]), Err(TodoError::CorruptRecord));
}

#[test]
fn decode_reads_fields() {
    let t = Todo::deserialize(3, &[1u8, 1, 1, 0, 0, 0, 2, b'h', b'i']).unwrap();
    assert_eq!(t.id, 3);
    assert_eq!(t.text, "hi");
    assert_eq!(t.priority, Priority::High);
    assert!(t.done);
    let u = Todo::deserialize(4, &[1u8, 2, 0, 0, 0, 0, 0]).unwrap();
    assert_eq!(u.text, "");
    assert_eq!(u.priority, Priority::Medium);
    assert!(!u.done);
}

#[test]
fn priority_tags() {
    assert_eq!(Priority::Fuck.discriminant(), 0);
    assert_eq!(Priority::Chill.discriminant(), 4);
    assert_eq!(Priority::from_discriminant(2), Some(Priority::Medium));
    assert_eq!(Priority::from_discriminant(5), None);
}

#[test]
fn storage_keys_are_big_endian() {
    assert_eq!(storage_key(1), vec![0u8, 0, 0, 0, 0, 0, 0, 1]);
    assert_eq!(storage_key(0x0102_0304_0506_0708), vec![1u8, 2, 3, 4, 5, 6, 7, 8]);
    assert_eq!(storage_key(u64::MAX), vec![0xffu8; 8]);
    assert_eq!(key_id(&[0u8, 0, 0, 0, 0, 0, 1, 0]), 256);
    assert_eq!(key_id(&storage_key(123_456_789)), 123_456_789);
    assert!(storage_key(255) < storage_key(256));
}

#[test]
fn commands_are_read_from_arguments() {
    let args = |v: &[&str]| v.iter().map(|s| s.to_string()).collect::<Vec<String>>();
    match parse_command(&args(&["add", "buy milk", "soft"])) {
        Ok(Command::Add(text, p)) => {
            assert_eq!(text, "buy milk");
            assert_eq!(p, Priority::Soft);
        }
        _ => panic!("add not read"),
    }
    assert!(matches!(parse_command(&args(&["list"])), Ok(Command::List(Filter::All))));
    assert!(matches!(parse_command(&args(&["list", "--pending"])), Ok(Command::List(Filter::Pending))));
    assert!(matches!(
        parse_command(&args(&["list", "--priority", "high"])),
        Ok(Command::List(Filter::AtLeast(Priority::High)))
    ));
    assert!(matches!(parse_command(&args(&["done", "12"])), Ok(Command::Done(12))));
    assert!(matches!(parse_command(&args(&["remove", "3"])), Ok(Command::Remove(3))));
    assert!(matches!(parse_command(&args(&["add", "x", "urgent"])), Err(TodoError::InvalidInput)));
    assert!(matches!(parse_command(&args(&["done", "-1"])), Err(TodoError::InvalidInput)));
    assert!(matches!(parse_command(&args(&["list", "--all"])), Err(TodoError::InvalidInput)));
    assert!(matches!(parse_command(&args(&[])), Err(TodoError::InvalidInput)));
    assert_eq!(parse_id("18446744073709551615"), Ok(u64::MAX));
    assert_eq!(parse_id("18446744073709551616"), Err(TodoError::InvalidInput));
    assert_eq!(parse_id(""), Err(TodoError::InvalidInput));
    assert_eq!(parse_id("007"), Ok(7));
    assert_eq!(Priority::parse("chill"), Ok(Priority::Chill));
    assert_eq!(Priority::Medium.name(), "medium");
}
