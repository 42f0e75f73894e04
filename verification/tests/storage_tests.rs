use sankshepa::chunk::LogChunk;
use sankshepa::event::SyslogMessage;
use sankshepa::storage::{StorageEngine, StorageError};

fn test_msg() -> SyslogMessage {
    SyslogMessage {
        priority: 34,
        facility: 4,
        severity: 2,
        timestamp: Some(1697062455003),
        hostname: Some("testhost".to_string()),
        app_name: Some("testapp".to_string()),
        procid: None,
        msgid: None,
        structured_data: None,
        message: "Something happened".to_string(),
        is_rfc5424: true,
    }
}

fn save_load_round_trip() -> LogChunk {
    let mut chunk = LogChunk::new();
    chunk.add_message(test_msg());
    chunk.finish_and_process();

    let bytes = StorageEngine::encode_chunk(&chunk);
    StorageEngine::decode_chunk(&bytes).unwrap()
}

#[test]
fn lib_test_storage_save_load() {
    let loaded_chunk = save_load_round_trip();

    assert_eq!(loaded_chunk.records.len(), 1);
    let hostname = loaded_chunk.records[0]
        .hostname_id
        .and_then(|id| loaded_chunk.string_pool.get(id as usize))
        .unwrap();
    assert_eq!(hostname, "testhost");
    let app_name = loaded_chunk.records[0]
        .app_name_id
        .and_then(|id| loaded_chunk.string_pool.get(id as usize))
        .unwrap();
    assert_eq!(app_name, "testapp");
    assert_eq!(loaded_chunk.templates.len(), 1);
}

#[test]
fn mod_test_storage_save_load() {
    let loaded_chunk = save_load_round_trip();

    assert_eq!(loaded_chunk.records.len(), 1);
    let host = loaded_chunk.records[0]
        .hostname_id
        .map(|id| loaded_chunk.string_pool[id as usize].clone());
    assert_eq!(host, Some("testhost".to_string()));
    let app = loaded_chunk.records[0]
        .app_name_id
        .map(|id| loaded_chunk.string_pool[id as usize].clone());
    assert_eq!(app, Some("testapp".to_string()));
    assert_eq!(loaded_chunk.templates.len(), 1);
}

// P3: the decode of an encode agrees on every observable field.
#[test]
fn round_trip_preserves_every_field() {
    let mut chunk = LogChunk::new();
    for i in 0..5 {
        let mut m = test_msg();
        m.timestamp = Some(1697062455000 + i * 17);
        m.procid = Some(format!("{}", 1000 + i));
        m.msgid = Some("ID47".to_string());
        m.structured_data = Some("exampleSDID@32473".to_string());
        m.message = format!("User u{} failed login from IP 192.168.1.{}", i, i);
        chunk.add_message(m);
    }
    chunk.finish_and_process();

    let bytes = StorageEngine::encode_chunk(&chunk);
    let back = StorageEngine::decode_chunk(&bytes).unwrap();

    assert_eq!(back.templates, chunk.templates);
    assert_eq!(back.string_pool, chunk.string_pool);
    assert_eq!(back.records.len(), chunk.records.len());
    assert_eq!(back.next_template_id, chunk.next_template_id);
    for (a, b) in chunk.records.iter().zip(back.records.iter()) {
        assert_eq!(a.timestamp, b.timestamp);
        assert_eq!(a.priority, b.priority);
        assert_eq!(a.hostname_id, b.hostname_id);
        assert_eq!(a.app_name_id, b.app_name_id);
        assert_eq!(a.procid_id, b.procid_id);
        assert_eq!(a.msgid_id, b.msgid_id);
        assert_eq!(a.structured_data_id, b.structured_data_id);
        assert_eq!(a.template_id, b.template_id);
        assert_eq!(a.variables, b.variables);
        assert_eq!(a.is_rfc5424, b.is_rfc5424);
    }
}

// S3: an empty chunk still writes a valid (small) archive.
#[test]
fn empty_chunk_round_trips() {
    let mut chunk = LogChunk::new();
    chunk.finish_and_process();
    let bytes = StorageEngine::encode_chunk(&chunk);
    let back = StorageEngine::decode_chunk(&bytes).unwrap();
    assert_eq!(back.records.len(), 0);
    assert_eq!(back.templates.len(), 0);
    assert_eq!(back.string_pool.len(), 0);
}

// P4: delta decoding reproduces any timestamp sequence, wrap included.
#[test]
fn delta_round_trip_is_exact() {
    let cases: Vec<Vec<i64>> = vec![
        vec![],
        vec![42],
        vec![1697062455000, 1697062455017, 1697062455017, 1697062454000],
        vec![i64::MIN, i64::MAX, 0, -1, 1],
        vec![i64::MAX, i64::MIN],
    ];
    for ts in cases {
        let d = sankshepa::delta::delta_encode(&ts);
        let back = sankshepa::delta::delta_decode(&d);
        assert_eq!(back, ts);
    }
    // the plain difference shape, where it fits
    let d = sankshepa::delta::delta_encode(&vec![100, 130, 110]);
    assert_eq!(d, vec![100, 30, -20]);
}

// Garbage bytes are rejected as corrupt.
#[test]
fn decode_rejects_garbage() {
    let r = StorageEngine::decode_chunk(&vec![1, 2, 3, 4, 5]);
    assert!(matches!(r, Err(StorageError::FormatCorrupt)));
}

// S6: ten columns of differing lengths after entropy decode fail as
// format-corrupt.
#[test]
fn decode_rejects_mismatched_columns() {
    // one record everywhere, except two entries in the timestamp column
    let z = |data: &[u8]| zstd::stream::encode_all(data, 3).unwrap();
    let ts: Vec<i64> = vec![0, 5];
    let pris: Vec<u8> = vec![34];
    let opt: Vec<Option<u32>> = vec![None];
    let tids: Vec<u32> = vec![0];
    let vars: Vec<Vec<String>> = vec![vec![]];
    let flags: Vec<bool> = vec![true];
    let templates: Vec<(u32, String)> = vec![(0, "hello".to_string())];
    let pool: Vec<String> = vec![];
    let opt_block = z(&postcard::to_allocvec(&opt).unwrap());
    let container = (
        templates,
        pool,
        z(&postcard::to_allocvec(&ts).unwrap()),
        z(&pris),
        opt_block.clone(),
        opt_block.clone(),
        opt_block.clone(),
        opt_block.clone(),
        opt_block,
        z(&postcard::to_allocvec(&tids).unwrap()),
        z(&postcard::to_allocvec(&vars).unwrap()),
        z(&postcard::to_allocvec(&flags).unwrap()),
    );
    let bytes = postcard::to_allocvec(&container).unwrap();
    let r = StorageEngine::decode_chunk(&bytes);
    assert!(matches!(r, Err(StorageError::FormatCorrupt)));
}

// A template id out of range is rejected as format-corrupt.
#[test]
fn decode_rejects_unresolvable_template_id() {
    let z = |data: &[u8]| zstd::stream::encode_all(data, 3).unwrap();
    let ts: Vec<i64> = vec![0];
    let pris: Vec<u8> = vec![34];
    let opt: Vec<Option<u32>> = vec![None];
    let tids: Vec<u32> = vec![7];
    let vars: Vec<Vec<String>> = vec![vec![]];
    let flags: Vec<bool> = vec![true];
    let templates: Vec<(u32, String)> = vec![(0, "hello".to_string())];
    let pool: Vec<String> = vec![];
    let opt_block = z(&postcard::to_allocvec(&opt).unwrap());
    let container = (
        templates,
        pool,
        z(&postcard::to_allocvec(&ts).unwrap()),
        z(&pris),
        opt_block.clone(),
        opt_block.clone(),
        opt_block.clone(),
        opt_block.clone(),
        opt_block,
        z(&postcard::to_allocvec(&tids).unwrap()),
        z(&postcard::to_allocvec(&vars).unwrap()),
        z(&postcard::to_allocvec(&flags).unwrap()),
    );
    let bytes = postcard::to_allocvec(&container).unwrap();
    let r = StorageEngine::decode_chunk(&bytes);
    assert!(matches!(r, Err(StorageError::FormatCorrupt)));
}

// S4: high template regularity compresses well.
#[test]
fn synthetic_load_compresses_at_least_twofold() {
    let mut raw_size = 0usize;
    let mut chunk = LogChunk::new();
    let mut compressed = 0usize;
    let count = 10000;
    for i in 0..count {
        let msg_str = format!(
            "<34>1 2023-10-11T22:14:15.003Z myhost myapp {} ID47 [exampleSDID@32473] User {} failed login from IP 192.168.1.{}",
            1000 + (i % 10),
            if i % 2 == 0 { "alice" } else { "bob" },
            i % 255
        );
        raw_size += msg_str.len();
        let msg = sankshepa::protocol::UnifiedParser::parse(&msg_str).unwrap();
        chunk.add_message(msg);
        if (i + 1) % 1000 == 0 {
            chunk.finish_and_process();
            compressed += StorageEngine::encode_chunk(&chunk).len();
            chunk = LogChunk::new();
        }
    }
    assert!(compressed < raw_size);
    assert!(raw_size >= 2 * compressed);
}
