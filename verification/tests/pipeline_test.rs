use redis_nav::RedisType;
use redis_nav::RedisValue;
use redis_nav::pipeline::delete_outcome;
use redis_nav::pipeline::get_value_outcome;
use redis_nav::pipeline::scan_outcome;
use redis_nav::pipeline::scan_types_outcome;
use redis_nav::pipeline::set_outcome;
use redis_nav::pipeline::RedisCommand;
use redis_nav::pipeline::UiMessage;
use redis_nav::store_model::Pipeline;
use redis_nav::store_model::StoreModel;

#[test]
fn scan_outcome_reports_keys_or_error() {
    let keys = vec![("a".to_string(), RedisType::String)];
    match scan_outcome(Ok(keys)) {
        UiMessage::KeysLoaded(ks) => assert_eq!(ks.len(), 1),
        _ => panic!("expected a key list"),
    }
    match scan_outcome(Err("boom".to_string())) {
        UiMessage::Error(e) => assert_eq!(e, "boom"),
        _ => panic!("expected an error"),
    }
}

#[test]
fn get_value_outcome_loads_when_all_succeed() {
    let msg = get_value_outcome(
        "k".to_string(),
        Ok(RedisValue::String("v".to_string())),
        Ok(42),
        Ok(RedisType::String),
    );
    match msg {
        UiMessage::ValueLoaded { key, value, ttl, redis_type } => {
            assert_eq!(key, "k");
            assert!(matches!(value, RedisValue::String(s) if s == "v"));
            assert_eq!(ttl, 42);
            assert_eq!(redis_type, RedisType::String);
        },
        _ => panic!("expected a loaded value"),
    }
}

#[test]
fn get_value_outcome_error_priority_is_value_ttl_type() {
    // all three fail: the value error wins
    let msg = get_value_outcome(
        "k".to_string(),
        Err("value failed".to_string()),
        Err("ttl failed".to_string()),
        Err("type failed".to_string()),
    );
    assert!(matches!(msg, UiMessage::Error(e) if e == "value failed"));

    // value fine, ttl and type fail: the ttl error wins
    let msg = get_value_outcome(
        "k".to_string(),
        Ok(RedisValue::Missing),
        Err("ttl failed".to_string()),
        Err("type failed".to_string()),
    );
    assert!(matches!(msg, UiMessage::Error(e) if e == "ttl failed"));

    // only the type fails
    let msg = get_value_outcome(
        "k".to_string(),
        Ok(RedisValue::Missing),
        Ok(-1),
        Err("type failed".to_string()),
    );
    assert!(matches!(msg, UiMessage::Error(e) if e == "type failed"));
}

#[test]
fn set_outcome_reports_write() {
    assert!(matches!(
        set_outcome("k".to_string(), Ok(())),
        UiMessage::WriteSuccess(k) if k == "k"
    ));
    assert!(matches!(
        set_outcome("k".to_string(), Err("nope".to_string())),
        UiMessage::Error(e) if e == "nope"
    ));
}

#[test]
fn delete_outcome_triggers_rescan() {
    let (msg, follow) = delete_outcome("k".to_string(), Ok(()));
    assert!(matches!(msg, UiMessage::DeleteSuccess(k) if k == "k"));
    match follow {
        Some(RedisCommand::ScanKeys { pattern }) => assert_eq!(pattern, "*"),
        _ => panic!("expected a rescan follow-up"),
    }

    let (msg, follow) = delete_outcome("k".to_string(), Err("nope".to_string()));
    assert!(matches!(msg, UiMessage::Error(e) if e == "nope"));
    assert!(follow.is_none());
}

#[test]
fn scan_types_outcome_first_failure_wins() {
    // every lookup fine: the complete typed list, in scan order
    let keys = vec!["a".to_string(), "b".to_string()];
    let types = vec![Ok(RedisType::String), Ok(RedisType::Hash)];
    match scan_types_outcome(keys, types) {
        UiMessage::KeysLoaded(l) => {
            assert_eq!(l.len(), 2);
            assert_eq!(l[0], ("a".to_string(), RedisType::String));
            assert_eq!(l[1], ("b".to_string(), RedisType::Hash));
        },
        _ => panic!("expected the typed key list"),
    }

    // the first failed lookup is reported, later ones discarded
    let keys = vec!["a".to_string(), "b".to_string(), "c".to_string()];
    let types = vec![
        Ok(RedisType::String),
        Err("first".to_string()),
        Err("second".to_string()),
    ];
    assert!(matches!(
        scan_types_outcome(keys, types),
        UiMessage::Error(e) if e == "first"
    ));
}

fn seeded_store() -> StoreModel {
    let mut store = StoreModel::new();
    store.seed("a".to_string(), RedisValue::String("one".to_string()), -1);
    store.seed("k".to_string(), RedisValue::Hash(vec![("f".to_string(), "v".to_string())]), 30);
    store.seed("z".to_string(), RedisValue::List(vec!["x".to_string()]), -1);
    store
}

#[test]
fn pipeline_orders_scan_delete_rescan() {
    // submitting ScanKeys("*") then DeleteKey("k") observes: the key list
    // first, then the delete report, then the re-submitted scan's key list
    // without "k"
    let mut store = seeded_store();
    let mut pipeline = Pipeline::new(8);
    pipeline.submit(RedisCommand::ScanKeys { pattern: "*".to_string() });
    pipeline.submit(RedisCommand::DeleteKey { key: "k".to_string() });
    pipeline.step(&mut store);
    pipeline.step(&mut store);
    pipeline.step(&mut store);
    let events = pipeline.take_events();
    assert_eq!(events.len(), 3);
    match &events[0] {
        UiMessage::KeysLoaded(ks) => {
            let names: Vec<&str> = ks.iter().map(|(k, _)| k.as_str()).collect();
            assert_eq!(names, vec!["a", "k", "z"]);
            assert_eq!(ks[1].1, RedisType::Hash);
        },
        _ => panic!("expected the first key list"),
    }
    assert!(matches!(&events[1], UiMessage::DeleteSuccess(k) if k == "k"));
    match &events[2] {
        UiMessage::KeysLoaded(ks) => {
            let names: Vec<&str> = ks.iter().map(|(k, _)| k.as_str()).collect();
            assert_eq!(names, vec!["a", "z"]);
        },
        _ => panic!("expected the rescanned key list"),
    }
}

#[test]
fn model_get_value_reports_entry_or_missing() {
    let mut store = seeded_store();
    let mut pipeline = Pipeline::new(8);
    pipeline.submit(RedisCommand::GetValue { key: "k".to_string() });
    pipeline.submit(RedisCommand::GetValue { key: "absent".to_string() });
    pipeline.step(&mut store);
    pipeline.step(&mut store);
    let events = pipeline.take_events();
    assert_eq!(events.len(), 2);
    match &events[0] {
        UiMessage::ValueLoaded { key, value, ttl, redis_type } => {
            assert_eq!(key, "k");
            assert!(matches!(value, RedisValue::Hash(_)));
            assert_eq!(*ttl, 30);
            assert_eq!(*redis_type, RedisType::Hash);
        },
        _ => panic!("expected a loaded value"),
    }
    match &events[1] {
        UiMessage::ValueLoaded { key, value, ttl, redis_type } => {
            assert_eq!(key, "absent");
            assert!(matches!(value, RedisValue::Missing));
            assert_eq!(*ttl, -2);
            assert_eq!(*redis_type, RedisType::Unknown);
        },
        _ => panic!("expected a missing value"),
    }
}

#[test]
fn model_set_writes_lossy_text() {
    let mut store = seeded_store();
    let mut pipeline = Pipeline::new(8);
    // invalid UTF-8 is lossily decoded before the write
    pipeline.submit(RedisCommand::SetValue { key: "a".to_string(), value: vec![b'h', 0xFF, b'i'] });
    pipeline.submit(RedisCommand::GetValue { key: "a".to_string() });
    pipeline.step(&mut store);
    pipeline.step(&mut store);
    let events = pipeline.take_events();
    assert!(matches!(&events[0], UiMessage::WriteSuccess(k) if k == "a"));
    match &events[1] {
        UiMessage::ValueLoaded { value, ttl, .. } => {
            assert!(matches!(value, RedisValue::String(s) if s == "h\u{FFFD}i"));
            assert_eq!(*ttl, -1);
        },
        _ => panic!("expected the written value"),
    }
}

#[test]
fn followup_rescan_is_enqueued_after_delete() {
    let mut store = seeded_store();
    let mut pipeline = Pipeline::new(1);
    pipeline.submit(RedisCommand::DeleteKey { key: "k".to_string() });
    // the delete runs; its rescan follow-up fits the now-empty queue
    pipeline.step(&mut store);
    assert_eq!(pipeline.commands.len(), 1);
    assert!(matches!(
        &pipeline.commands[0],
        RedisCommand::ScanKeys { pattern } if pattern == "*"
    ));
    pipeline.step(&mut store);
    // the rescan ran and had no follow-up of its own
    assert_eq!(pipeline.commands.len(), 0);
    let events = pipeline.take_events();
    assert_eq!(events.len(), 2);
}

#[test]
fn followup_is_dropped_when_queue_stays_full() {
    // a queue already holding more than its bound (the bound only gates
    // submissions) leaves no room for the refresh convenience
    let mut store = seeded_store();
    let mut pipeline = Pipeline {
        commands: vec![
            RedisCommand::DeleteKey { key: "k".to_string() },
            RedisCommand::GetValue { key: "a".to_string() },
        ],
        events: vec![],
        capacity: 1,
    };
    pipeline.step(&mut store);
    // the rescan follow-up was dropped: only the pending fetch remains
    assert_eq!(pipeline.commands.len(), 1);
    assert!(matches!(&pipeline.commands[0], RedisCommand::GetValue { .. }));
    let events = pipeline.take_events();
    assert_eq!(events.len(), 1);
    assert!(matches!(&events[0], UiMessage::DeleteSuccess(k) if k == "k"));
}
