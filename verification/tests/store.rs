use kvs::cursor::Cursor;
use kvs::encoding::ErrorKind;
use kvs::store::command::{Command, Put, Rm};
use kvs::store::compaction::{compact, live_commands};
use kvs::store::index::{build_index, Index};
use kvs::store::{
    DataDir, KvStore, LogChange, COMPACTION_THRESHOLD, LOG_FILE_NAME, LOG_TEMP_FILE_NAME,
};
use kvs::KvStoreError;

type Result<T> = std::result::Result<T, KvStoreError>;

fn open_empty() -> Result<KvStore> {
    KvStore::open(DataDir::Directory { log: Vec::new() })
}

fn reopen(store: KvStore) -> Result<KvStore> {
    KvStore::open(DataDir::Directory { log: store.into_log() })
}

fn put(key: &str, value: &str) -> Command {
    Command::Put(Put { key: key.to_owned(), value: value.to_owned() })
}

fn rm(key: &str) -> Command {
    Command::Rm(Rm { key: key.to_owned() })
}

fn serialized(commands: &[Command]) -> Vec<u8> {
    let mut buf = Vec::new();
    for cmd in commands.iter() {
        cmd.serialize_into(&mut buf).unwrap();
    }
    buf
}

fn is_send_and_sync<T: Send + Sync>() -> bool {
    true
}

// Should get previously stored value.
#[test]
fn get_stored_value() -> Result<()> {
    let mut store = open_empty()?;

    store.set("key1".to_owned(), "value1".to_owned())?;
    store.set("key2".to_owned(), "value2".to_owned())?;

    assert_eq!(store.get("key1".to_owned())?, Some("value1".to_owned()));
    assert_eq!(store.get("key2".to_owned())?, Some("value2".to_owned()));

    // Open from the log again and check persistent data.
    let store = reopen(store)?;
    assert_eq!(store.get("key1".to_owned())?, Some("value1".to_owned()));
    assert_eq!(store.get("key2".to_owned())?, Some("value2".to_owned()));

    Ok(())
}

// Should overwrite existent value.
#[test]
fn overwrite_value() -> Result<()> {
    let mut store = open_empty()?;

    store.set("key1".to_owned(), "value1".to_owned())?;
    assert_eq!(store.get("key1".to_owned())?, Some("value1".to_owned()));
    store.set("key1".to_owned(), "value2".to_owned())?;
    assert_eq!(store.get("key1".to_owned())?, Some("value2".to_owned()));

    // Open from the log again and check persistent data.
    let mut store = reopen(store)?;
    assert_eq!(store.get("key1".to_owned())?, Some("value2".to_owned()));
    store.set("key1".to_owned(), "value3".to_owned())?;
    assert_eq!(store.get("key1".to_owned())?, Some("value3".to_owned()));

    Ok(())
}

// Should get `None` when getting a non-existent key.
#[test]
fn get_non_existent_value() -> Result<()> {
    let mut store = open_empty()?;

    store.set("key1".to_owned(), "value1".to_owned())?;
    assert_eq!(store.get("key2".to_owned())?, None);

    // Open from the log again and check persistent data.
    let store = reopen(store)?;
    assert_eq!(store.get("key2".to_owned())?, None);

    Ok(())
}

#[test]
fn remove_non_existent_key() -> Result<()> {
    let mut store = open_empty()?;
    assert!(store.remove("key1".to_owned()).is_err());
    Ok(())
}

#[test]
fn remove_key() -> Result<()> {
    let mut store = open_empty()?;
    store.set("key1".to_owned(), "value1".to_owned())?;
    assert!(store.remove("key1".to_owned()).is_ok());
    assert_eq!(store.get("key1".to_owned())?, None);
    Ok(())
}

// Insert data until the size of the log decreases.
// Test data correctness after compaction.
#[test]
fn compaction() -> Result<()> {
    let mut store = open_empty()?;

    let mut current_size = store.log().len();
    for iter in 0..1000 {
        for key_id in 0..1000 {
            let key = format!("key{}", key_id);
            let value = format!("{}", iter);
            store.set(key, value)?;
        }

        let new_size = store.log().len();
        if new_size > current_size {
            current_size = new_size;
            continue;
        }
        // Compaction triggered.

        // reopen and check content.
        let store = reopen(store)?;
        for key_id in 0..1000 {
            let key = format!("key{}", key_id);
            assert_eq!(store.get(key)?, Some(format!("{}", iter)));
        }
        return Ok(());
    }

    panic!("No compaction detected");
}

#[test]
fn test_ser_de() {
    let commands: Vec<Command> = (0..2)
        .map(|x| put(&format!("key{}", x), &format!("value{}", x)))
        .collect();

    // Serialize commands into the buffer
    let mut file = Vec::new();
    for cmd in commands {
        cmd.serialize_into(&mut file).unwrap();
    }
    println!("file content: {:?}", &file);

    // Deserialize commands from the buffer
    let mut commands: Vec<Command> = Vec::new();
    let mut reader = Cursor::new(&file);
    loop {
        if reader.is_at_end() {
            break;
        };
        let command = Command::deserialize_from(&mut reader).unwrap();
        commands.push(command);
    }
    println!("deserialized: {:?}", &commands);
    assert_eq!(commands.len(), 2);
    assert!(matches!(&commands[0], Command::Put(p) if p.key == "key0" && p.value == "value0"));
    assert!(matches!(&commands[1], Command::Put(p) if p.key == "key1" && p.value == "value1"));
}

#[test]
fn test_kvstore_impls() {
    assert!(is_send_and_sync::<KvStore>());
}

#[test]
fn test_compact() {
    let commands = vec![put("key0", "value0"), put("key1", "value1"), rm("key0")];

    let mut log_file = serialized(&commands);

    let mut reader = Cursor::new(&log_file);
    let log_index = build_index(&mut reader).unwrap();

    compact(&mut log_file, &log_index).unwrap();

    let mut reader = Cursor::new(&log_file);
    reader.seek(0);
    let log_index = build_index(&mut reader).unwrap();

    assert_eq!(log_index.len(), 1);
    assert_eq!(log_index.get("key1"), Some(&0));
    assert_eq!(log_file, serialized(&[put("key1", "value1")]));
}

fn check_build_index() {
    let commands: Vec<Command> = vec![
        put("key0", "value0"),
        put("key1", "value1"),
        put("key2", "value2"),
        rm("key2"),
        put("key3", "value3"),
        put("key3", "value33"),
    ];
    let mut serialized = Vec::new();
    for cmd in commands.iter() {
        cmd.serialize_into(&mut serialized).unwrap();
    }

    let mut reader = Cursor::new(&serialized);
    let index = build_index(&mut reader).unwrap();

    assert_eq!(index.get("key0"), Some(&0));

    let size = {
        let mut buf = Vec::new();
        commands.get(0).unwrap().serialize_into(&mut buf).unwrap();
        buf.len() as u64
    };
    assert_eq!(index.get("key1"), Some(&size));

    assert_eq!(index.get("key2"), None);

    let size = {
        let mut buf = Vec::new();
        for cmd in &commands[0..5] {
            cmd.serialize_into(&mut buf).unwrap();
        }
        buf.len() as u64
    };
    assert_eq!(index.get("key3"), Some(&size));
}

#[test]
fn index_test_build_index() {
    check_build_index();
}

#[test]
fn lib_test_build_index() {
    check_build_index();
}

#[test]
fn record_layout_is_exact() {
    let mut buf = Vec::new();
    put("k", "vw").serialize_into(&mut buf).unwrap();
    assert_eq!(
        buf,
        vec![0, 0, 0, 0, 1, 0, 0, 0, 0, 0, 0, 0, b'k', 2, 0, 0, 0, 0, 0, 0, 0, b'v', b'w']
    );
    let mut buf = Vec::new();
    rm("é").serialize_into(&mut buf).unwrap();
    assert_eq!(buf, vec![1, 0, 0, 0, 2, 0, 0, 0, 0, 0, 0, 0, 0xc3, 0xa9]);
}

#[test]
fn record_layout_is_that_of_bincode() {
    let mut buf = Vec::new();
    put("key0", "value0").serialize_into(&mut buf).unwrap();
    assert_eq!(buf, bincode::serialize(&(0u32, "key0", "value0")).unwrap());
    let mut buf = Vec::new();
    rm("key0").serialize_into(&mut buf).unwrap();
    assert_eq!(buf, bincode::serialize(&(1u32, "key0")).unwrap());

    let written = bincode::serialize(&(0u32, "ключ", "значение")).unwrap();
    let mut reader = Cursor::new(&written);
    match Command::deserialize_from(&mut reader).unwrap() {
        Command::Put(p) => {
            assert_eq!(p.key, "ключ");
            assert_eq!(p.value, "значение");
        }
        Command::Rm(_) => panic!("a Put was written"),
    }
    assert_eq!(reader.position(), written.len() as u64);
}

#[test]
fn record_round_trip_with_trailing_bytes() {
    let records = [put("", ""), put("a", "b"), rm("a"), put("long key", "long value \u{1F600}")];
    for record in records.iter() {
        let mut buf = Vec::new();
        record.serialize_into(&mut buf).unwrap();
        let len = buf.len() as u64;
        buf.extend_from_slice(&[0xff, 0xff, 0xff]);
        let mut reader = Cursor::new(&buf);
        let back = Command::deserialize_from(&mut reader).unwrap();
        assert_eq!(format!("{:?}", back), format!("{:?}", record));
        assert_eq!(reader.position(), len);
    }
}

#[test]
fn decode_reports_each_failure() {
    // Nothing to read, and a record cut short: the reader does not move.
    let mut reader = Cursor::new(&[]);
    let err = Command::deserialize_from(&mut reader).unwrap_err();
    assert_eq!(err.kind, ErrorKind::UnexpectedEof);
    let whole = serialized(&[put("key", "value")]);
    for cut in 1..whole.len() {
        let mut reader = Cursor::new(&whole[..cut]);
        let err = Command::deserialize_from(&mut reader).unwrap_err();
        assert_eq!(err.kind, ErrorKind::UnexpectedEof);
        assert_eq!(reader.position(), 0);
    }
    // A variant index that names no variant.
    let bytes = [2u8, 0, 0, 0, 0, 0, 0, 0, 0, 0, 0, 0];
    let mut reader = Cursor::new(&bytes);
    let err = Command::deserialize_from(&mut reader).unwrap_err();
    assert_eq!(err.kind, ErrorKind::InvalidVariant);
    assert_eq!(reader.position(), 4);
    // A key that is not UTF-8.
    let bytes = [1u8, 0, 0, 0, 2, 0, 0, 0, 0, 0, 0, 0, 0xc3, 0x28];
    let mut reader = Cursor::new(&bytes);
    let err = Command::deserialize_from(&mut reader).unwrap_err();
    assert_eq!(err.kind, ErrorKind::InvalidUtf8);
    assert_eq!(reader.position(), 14);
    assert_eq!(err.to_string(), "string is not valid utf8");
}

#[test]
fn open_rejects_what_is_not_a_directory() {
    let result = KvStore::open(DataDir::NotADirectory);
    assert!(matches!(result, Err(KvStoreError::InvalidPath)));
    assert_eq!(result.err().unwrap().to_string(), "Path is not a directory");
}

#[test]
fn open_rejects_a_corrupt_log() {
    let mut log = serialized(&[put("key1", "value1"), put("key2", "value2")]);
    log.pop();
    let result = KvStore::open(DataDir::Directory { log });
    match result {
        Err(KvStoreError::Serialization(e)) => assert_eq!(e.kind, ErrorKind::UnexpectedEof),
        _ => panic!("a truncated log must not be opened"),
    }
    let mut log = serialized(&[put("key1", "value1")]);
    log.extend_from_slice(&[9, 0, 0, 0]);
    let result = KvStore::open(DataDir::Directory { log });
    match result {
        Err(KvStoreError::Serialization(e)) => assert_eq!(e.kind, ErrorKind::InvalidVariant),
        _ => panic!("a log with an unknown record must not be opened"),
    }
}

#[test]
fn open_set_get_reopen() -> Result<()> {
    let mut store = open_empty()?;
    assert_eq!(store.get("k1".to_owned())?, None);
    store.set("k1".to_owned(), "v1".to_owned())?;
    assert_eq!(store.get("k1".to_owned())?, Some("v1".to_owned()));
    store.set("k2".to_owned(), "v2".to_owned())?;
    assert_eq!(store.get("k2".to_owned())?, Some("v2".to_owned()));
    let store = reopen(store)?;
    assert_eq!(store.get("k1".to_owned())?, Some("v1".to_owned()));
    assert_eq!(store.get("k2".to_owned())?, Some("v2".to_owned()));
    Ok(())
}

#[test]
fn remove_twice_reports_key_not_found() -> Result<()> {
    let mut store = open_empty()?;
    store.set("k1".to_owned(), "v1".to_owned())?;
    let before = store.log().len() as u64;
    assert_eq!(store.remove("k1".to_owned())?, LogChange::Appended { from: before });
    assert_eq!(store.get("k1".to_owned())?, None);
    let log = store.log().to_vec();
    match store.remove("k1".to_owned()) {
        Err(KvStoreError::KeyNotFound { key }) => assert_eq!(key, "k1"),
        _ => panic!("the key was removed before"),
    }
    // Nothing was written for the failed removal.
    assert_eq!(store.log(), &log[..]);
    let err = store.remove("k1".to_owned()).unwrap_err();
    assert_eq!(err.to_string(), "Key does not exists");
    Ok(())
}

#[test]
fn set_reports_what_to_persist() -> Result<()> {
    let mut store = open_empty()?;
    assert_eq!(store.set("a".to_owned(), "1".to_owned())?, LogChange::Appended { from: 0 });
    let first = serialized(&[put("a", "1")]);
    assert_eq!(store.log(), &first[..]);
    assert_eq!(
        store.set("b".to_owned(), "2".to_owned())?,
        LogChange::Appended { from: first.len() as u64 }
    );
    assert_eq!(store.log(), &serialized(&[put("a", "1"), put("b", "2")])[..]);
    Ok(())
}

#[test]
fn set_compacts_above_the_threshold() -> Result<()> {
    assert_eq!(COMPACTION_THRESHOLD, 1024 * 1024);
    assert_eq!(LOG_FILE_NAME, "log.kvs");
    assert_eq!(LOG_TEMP_FILE_NAME, "log.kvs.tmp");
    let mut store = open_empty()?;
    let big = "x".repeat(600 * 1024);
    assert!(matches!(store.set("a".to_owned(), big.clone())?, LogChange::Appended { from: 0 }));
    store.set("b".to_owned(), "small".to_owned())?;
    store.remove("b".to_owned())?;
    // The second large value takes the log over the threshold.
    assert_eq!(store.set("a".to_owned(), big.clone())?, LogChange::Rewritten);
    assert_eq!(store.log(), &serialized(&[put("a", &big)])[..]);
    assert_eq!(store.get("a".to_owned())?, Some(big.clone()));
    assert_eq!(store.get("b".to_owned())?, None);
    assert_eq!(store.list()?, vec![("a".to_owned(), big)]);
    Ok(())
}

#[test]
fn compaction_answers_like_no_compaction() -> Result<()> {
    let value = "v".repeat(50 * 1024);
    let mut store = open_empty()?;
    let mut plain: Vec<Command> = Vec::new();
    let mut rewritten = false;
    for round in 0..40 {
        let key = format!("key{}", round % 7);
        let text = format!("{}{}", value, round);
        rewritten |= store.set(key.clone(), text.clone())? == LogChange::Rewritten;
        plain.push(put(&key, &text));
        if round % 5 == 4 {
            let gone = format!("key{}", round % 3);
            if store.remove(gone.clone()).is_ok() {
                plain.push(rm(&gone));
            }
        }
    }
    assert!(rewritten);
    let uncompacted = KvStore::open(DataDir::Directory { log: serialized(&plain) })?;
    assert!(store.log().len() < uncompacted.log().len());
    for k in 0..8 {
        let key = format!("key{}", k);
        assert_eq!(store.get(key.clone())?, uncompacted.get(key)?);
    }
    let mut listed = store.list()?;
    let mut expected = uncompacted.list()?;
    listed.sort();
    expected.sort();
    assert_eq!(listed, expected);
    Ok(())
}

#[test]
fn list_gives_the_live_entries_in_log_order() -> Result<()> {
    let mut store = open_empty()?;
    store.set("b".to_owned(), "1".to_owned())?;
    store.set("a".to_owned(), "2".to_owned())?;
    store.set("c".to_owned(), "3".to_owned())?;
    store.set("b".to_owned(), "4".to_owned())?;
    store.remove("a".to_owned())?;
    assert_eq!(
        store.list()?,
        vec![("c".to_owned(), "3".to_owned()), ("b".to_owned(), "4".to_owned())]
    );
    assert!(open_empty()?.list()?.is_empty());
    Ok(())
}

#[test]
fn build_index_equals_replay() {
    let commands = vec![
        put("a", "1"),
        put("b", "2"),
        rm("a"),
        put("c", "3"),
        put("b", "4"),
        rm("c"),
        put("a", "5"),
    ];
    let log = serialized(&commands);
    let mut reader = Cursor::new(&log);
    let index = build_index(&mut reader).unwrap();
    assert_eq!(reader.position(), log.len() as u64);

    let mut expected = std::collections::HashMap::new();
    let mut offset = 0u64;
    for command in commands.iter() {
        match command {
            Command::Put(p) => {
                expected.insert(p.key.clone(), offset);
            }
            Command::Rm(r) => {
                expected.remove(&r.key);
            }
        }
        offset += serialized(std::slice::from_ref(command)).len() as u64;
    }
    assert_eq!(index.len(), expected.len());
    for (key, at) in expected.iter() {
        assert_eq!(index.get(key), Some(at));
    }
    assert!(!index.contains_key("c"));
    assert!(!index.is_empty());
}

#[test]
fn compact_reports_a_desynced_index() {
    let log = serialized(&[put("key0", "value0"), rm("key0"), put("key1", "value1")]);
    // An index that points at an Rm record.
    let mut index = Index::new();
    index.insert("key0".to_owned(), serialized(&[put("key0", "value0")]).len() as u64);
    let mut rewritten = log.clone();
    assert!(matches!(compact(&mut rewritten, &index), Err(KvStoreError::IndexDesynced)));
    assert_eq!(rewritten, log);
    // An index that points at a Put record of another key.
    let mut index = Index::new();
    index.insert("key1".to_owned(), 0);
    assert!(matches!(live_commands(&log, &index), Err(KvStoreError::IndexDesynced)));
    // An index that points between records.
    let mut index = Index::new();
    index.insert("key0".to_owned(), 3);
    let err = compact(&mut rewritten, &index).unwrap_err();
    assert_eq!(err.to_string(), "Index is desynced/corrupted");
    // An index in sync, though not the one of the log.
    let mut index = Index::new();
    index.insert("key0".to_owned(), 0);
    compact(&mut rewritten, &index).unwrap();
    assert_eq!(rewritten, serialized(&[put("key0", "value0")]));
    // A log that cannot be read.
    let mut broken = log.clone();
    broken.truncate(log.len() - 1);
    assert!(matches!(compact(&mut broken, &Index::new()), Err(KvStoreError::Serialization(_))));
}

#[test]
fn io_error_shows_its_cause() {
    assert_eq!(KvStoreError::Io("disk full".to_owned()).to_string(), "disk full");
}

/// Strings of many lengths and of characters of every width in UTF-8.
fn sample_strings() -> Vec<String> {
    let alphabet = [
        'a', 'Z', '0', ' ', '\n', '\0', 'é', 'ß', 'я', '中', '\u{ffff}', '😀', '\u{10ffff}',
    ];
    let mut state = 0x2545f4914f6cdd1du64;
    let mut strings = Vec::new();
    for len in 0..40 {
        let mut s = String::new();
        for _ in 0..len {
            state = state.wrapping_mul(6364136223846793005).wrapping_add(1442695040888963407);
            s.push(alphabet[(state >> 33) as usize % alphabet.len()]);
        }
        strings.push(s);
    }
    strings.push("x".repeat(70000));
    strings
}

#[test]
fn records_are_written_and_read_as_bincode_does() {
    let strings = sample_strings();
    for (i, key) in strings.iter().enumerate() {
        let value = &strings[(i * 7 + 3) % strings.len()];
        let ours = serialized(&[put(key, value), rm(key)]);
        let mut theirs = bincode::serialize(&(0u32, key, value)).unwrap();
        theirs.extend(bincode::serialize(&(1u32, key)).unwrap());
        assert_eq!(ours, theirs);

        let mut reader = Cursor::new(&theirs);
        match Command::read_next(&mut reader).unwrap() {
            Some(Command::Put(p)) => {
                assert_eq!(&p.key, key);
                assert_eq!(&p.value, value);
            }
            _ => panic!("a Put was written first"),
        }
        match Command::read_next(&mut reader).unwrap() {
            Some(Command::Rm(r)) => assert_eq!(&r.key, key),
            _ => panic!("an Rm was written second"),
        }
        assert!(Command::read_next(&mut reader).unwrap().is_none());
    }
}

#[test]
fn read_next_tells_the_end_from_a_cut() {
    let log = serialized(&[put("key", "value")]);
    let mut reader = Cursor::new(&log);
    assert!(matches!(Command::read_next(&mut reader), Ok(Some(Command::Put(_)))));
    assert!(matches!(Command::read_next(&mut reader), Ok(None)));
    assert!(matches!(Command::read_next(&mut reader), Ok(None)));
    let mut reader = Cursor::new(&log[..log.len() - 1]);
    let err = Command::read_next(&mut reader).unwrap_err();
    assert_eq!(err.kind, ErrorKind::UnexpectedEof);
}

#[test]
fn any_run_of_operations_leaves_what_a_map_holds() -> Result<()> {
    let mut store = open_empty()?;
    let mut model = std::collections::HashMap::new();
    let mut state = 0x9e3779b97f4a7c15u64;
    let filler = "f".repeat(20 * 1024);
    let mut compactions = 0;
    for step in 0..400 {
        state = state.wrapping_mul(6364136223846793005).wrapping_add(1442695040888963407);
        let key = format!("key{}", (state >> 40) % 13);
        if (state >> 20) % 4 == 0 {
            match store.remove(key.clone()) {
                Ok(_) => assert!(model.remove(&key).is_some()),
                Err(KvStoreError::KeyNotFound { key: missing }) => {
                    assert_eq!(missing, key);
                    assert!(!model.contains_key(&key));
                }
                Err(other) => panic!("unexpected failure: {:?}", other),
            }
        } else {
            let value = format!("{}{}", filler, step);
            if store.set(key.clone(), value.clone())? == LogChange::Rewritten {
                compactions += 1;
            }
            model.insert(key, value);
        }
        if step % 50 == 49 {
            store = reopen(store)?;
        }
        for k in 0..13 {
            let key = format!("key{}", k);
            assert_eq!(store.get(key.clone())?.as_ref(), model.get(&key));
        }
        assert_eq!(store.list()?.len(), model.len());
    }
    assert!(compactions > 0);
    Ok(())
}

#[test]
fn the_threshold_itself_does_not_compact() -> Result<()> {
    // A record of key "a" takes 21 bytes and its value.
    let mut store = open_empty()?;
    let value = "v".repeat(COMPACTION_THRESHOLD as usize - 21);
    assert_eq!(store.set("a".to_owned(), value)?, LogChange::Appended { from: 0 });
    assert_eq!(store.log().len() as u64, COMPACTION_THRESHOLD);

    let mut store = open_empty()?;
    let value = "v".repeat(COMPACTION_THRESHOLD as usize - 20);
    assert_eq!(store.set("a".to_owned(), value.clone())?, LogChange::Rewritten);
    assert_eq!(store.log().len() as u64, COMPACTION_THRESHOLD + 1);
    assert_eq!(store.get("a".to_owned())?, Some(value));
    Ok(())
}
