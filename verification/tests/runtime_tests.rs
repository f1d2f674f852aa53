use tidas_tools::runtime::{
    Budgeted, CancellationToken, JsonlSpool, MemoryBudget, RuntimeError, SPOOL_SUMMARY_SCHEMA_V1,
    digest_hex, sha256_of,
};

#[test]
fn reservations_are_bounded_and_released() {
    let mut budget = MemoryBudget::new(10);
    let first = budget.reserve(6).unwrap();
    assert!(matches!(
        budget.reserve(5),
        Err(RuntimeError::BudgetExceeded { .. })
    ));
    assert_eq!(budget.used(), 6);
    budget.release(first);
    assert_eq!(budget.used(), 0);
    assert_eq!(budget.peak(), 6);
}

#[test]
fn refused_reservation_reports_the_accounting_and_changes_nothing() {
    let mut budget = MemoryBudget::new(10);
    let _held = budget.reserve(7).unwrap();
    match budget.reserve(4) {
        Err(RuntimeError::BudgetExceeded { requested, used, limit }) => {
            assert_eq!((requested, used, limit), (4, 7, 10));
        }
        Err(other) => panic!("unexpected {other:?}"),
        Ok(_) => panic!("unexpected reservation"),
    }
    assert_eq!(budget.used(), 7);
    assert_eq!(budget.limit(), 10);
    assert!(budget.reserve(u64::MAX).is_err());
}

#[test]
fn reserve_then_release_restores_usage_and_keeps_peak() {
    let mut budget = MemoryBudget::new(100);
    let a = budget.reserve(30).unwrap();
    let b = budget.reserve(50).unwrap();
    assert_eq!(b.bytes(), 50);
    budget.release(b);
    assert_eq!(budget.used(), 30);
    budget.release(a);
    assert_eq!(budget.used(), 0);
    assert_eq!(budget.peak(), 80);
}

#[test]
fn budgeted_value_releases_its_memory_when_taken() {
    let mut budget = MemoryBudget::new(32);
    let reservation = budget.reserve(16).unwrap();
    let message = Budgeted::new("event", reservation);
    assert_eq!(budget.used(), 16);
    assert_eq!(message.into_inner(&mut budget), "event");
    assert_eq!(budget.used(), 0);
}

#[test]
fn cancellation_is_observed_by_check() {
    let mut token = CancellationToken::default();
    assert!(!token.is_cancelled());
    assert!(token.check().is_ok());
    token.cancel();
    assert!(token.is_cancelled());
    assert!(matches!(token.check(), Err(RuntimeError::Cancelled)));
}

fn event_bytes(index: u64) -> Vec<u8> {
    let mut object = serde_json::Map::new();
    object.insert("index".to_owned(), serde_json::Value::from(index));
    object.insert("code".to_owned(), serde_json::Value::from("fixture"));
    serde_json::to_vec(&serde_json::Value::Object(object)).unwrap()
}

fn spool_push(spool: &mut JsonlSpool, sink: &mut Vec<u8>, event: &[u8]) -> Result<(), RuntimeError> {
    let line = spool.prepare(event)?;
    sink.extend_from_slice(&line);
    spool.record(&line)
}

#[test]
fn spool_hash_is_repeatable_without_retaining_events() {
    let mut first = JsonlSpool::new(1024);
    let mut second = JsonlSpool::new(1024);
    let mut first_sink = Vec::new();
    let mut second_sink = Vec::new();
    for index in 0..10_000 {
        let event = event_bytes(index);
        spool_push(&mut first, &mut first_sink, &event).unwrap();
        spool_push(&mut second, &mut second_sink, &event).unwrap();
    }
    let first_summary = first.finish();
    let second_summary = second.finish();
    assert_eq!(first_summary.schema_version, second_summary.schema_version);
    assert_eq!(first_summary.event_count, second_summary.event_count);
    assert_eq!(first_summary.bytes, second_summary.bytes);
    assert_eq!(first_summary.sha256, second_summary.sha256);
    assert_eq!(first_summary.event_count, 10_000);
}

#[test]
fn oversized_spool_event_fails_before_write() {
    let spool = JsonlSpool::new(8);
    assert!(matches!(
        spool.prepare(b"{\"too\":\"large\"}"),
        Err(RuntimeError::EventTooLarge { .. })
    ));
}

#[test]
fn spool_summary_hashes_exactly_the_written_lines() {
    let mut spool = JsonlSpool::new(64);
    let mut sink = Vec::new();
    spool_push(&mut spool, &mut sink, b"{\"a\":1}").unwrap();
    spool_push(&mut spool, &mut sink, b"{\"b\":2}").unwrap();
    assert_eq!(sink, b"{\"a\":1}\n{\"b\":2}\n".to_vec());
    let summary = spool.finish();
    assert_eq!(summary.schema_version, SPOOL_SUMMARY_SCHEMA_V1);
    assert_eq!(summary.event_count, 2);
    assert_eq!(summary.bytes, 16);
    assert_eq!(summary.sha256, digest_hex(&sha256_of(&sink)));
}

#[test]
fn event_exactly_at_the_limit_is_accepted() {
    let spool = JsonlSpool::new(8);
    let line = spool.prepare(b"1234567").unwrap();
    assert_eq!(line, b"1234567\n".to_vec());
    match spool.prepare(b"12345678") {
        Err(RuntimeError::EventTooLarge { actual, limit }) => assert_eq!((actual, limit), (9, 8)),
        other => panic!("unexpected {other:?}"),
    }
}

#[test]
fn sha256_of_empty_input_is_the_standard_digest() {
    assert_eq!(
        digest_hex(&sha256_of(b"")),
        "e3b0c44298fc1c149afbf4c8996fb92427ae41e4649b934ca495991b7852b855"
    );
    assert_eq!(
        digest_hex(&sha256_of(b"abc")),
        "ba7816bf8f01cfea414140de5dae2223b00361a396177a9cb410ff61f20015ad"
    );
}
