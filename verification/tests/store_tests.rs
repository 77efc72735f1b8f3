use sai_core::json::JsonValue;
use sai_core::store::{
    StoreError, TokenStore, consume_result_token, gen_token, issue_result_token, now_instant,
};
use sai_core::table::{ParsedTable, TableError};

fn table(tag: &str) -> ParsedTable {
    ParsedTable {
        headers: vec!["k".to_string()],
        rows: vec![vec![JsonValue::Text(tag.to_string())]],
    }
}

fn invalid_table() -> ParsedTable {
    ParsedTable { headers: vec!["k".to_string()], rows: vec![vec![]] }
}

#[test]
fn token_format_is_hex_and_counter() {
    assert_eq!(gen_token(255, 1), "ff-1");
    assert_eq!(gen_token(0, 16), "0-10");
}

#[test]
fn tokens_differ_within_one_instant() {
    let mut s = TokenStore::new();
    let t1 = s.issue(table("a"), 1000, 5000);
    let t2 = s.issue(table("b"), 1000, 5000);
    assert_ne!(t1, t2);
}

#[test]
fn clock_reads_something() {
    // two readings of the wall clock, well after the epoch
    let a = now_instant();
    let b = now_instant();
    assert!(a > 0);
    assert!(b >= a);
}

#[test]
fn round_trip_returns_exactly_the_payload() {
    let mut s = TokenStore::new();
    let tok = s.issue(table("payload"), 10_000, 1000);
    assert_eq!(s.consume(&tok, 1000), Ok(table("payload")));
    // single use: the same token is gone
    assert_eq!(s.consume(&tok, 1000), Err(StoreError::UnknownToken));
}

#[test]
fn unknown_token_is_refused() {
    let mut s = TokenStore::new();
    assert_eq!(s.consume("nope", 1000), Err(StoreError::UnknownToken));
}

#[test]
fn zero_ttl_expires_once_time_advances() {
    let mut s = TokenStore::new();
    let tok = s.issue(table("x"), 0, 1000);
    assert_eq!(s.consume(&tok, 2000), Err(StoreError::ExpiredToken));
    // and the entry is gone afterwards
    assert_eq!(s.consume(&tok, 2000), Err(StoreError::UnknownToken));
}

#[test]
fn expired_entries_are_swept_before_issue() {
    let mut s = TokenStore::new();
    let tok = s.issue(table("old"), 10, 1000);
    // far later, issuing sweeps the expired entry away
    let _t2 = s.issue(table("new"), 10_000, 50_000);
    assert_eq!(s.consume(&tok, 50_000), Err(StoreError::UnknownToken));
}

#[test]
fn capacity_evicts_the_oldest_live_token() {
    let mut s = TokenStore::with_limit(3);
    let t1 = s.issue(table("1"), 100_000, 1000);
    let t2 = s.issue(table("2"), 100_000, 2000);
    let t3 = s.issue(table("3"), 100_000, 3000);
    let t4 = s.issue(table("4"), 100_000, 4000);
    // the oldest-by-last-access token is no longer consumable
    assert_eq!(s.consume(&t1, 5000), Err(StoreError::UnknownToken));
    // the three most recent remain
    assert_eq!(s.consume(&t2, 5000), Ok(table("2")));
    assert_eq!(s.consume(&t3, 5000), Ok(table("3")));
    assert_eq!(s.consume(&t4, 5000), Ok(table("4")));
}

#[test]
fn result_tokens_validate_before_parking() {
    let mut s = TokenStore::new();
    match issue_result_token(&mut s, invalid_table(), 1000) {
        Err(TableError::RowWidth { row, len, expected }) => {
            assert_eq!((row, len, expected), (0, 0, 1));
        },
        other => panic!("expected a validation error, got {:?}", other),
    }
    let tok = issue_result_token(&mut s, table("ok"), 1000).unwrap();
    assert_eq!(consume_result_token(&mut s, &tok, 2000), Ok(table("ok")));
}

#[test]
fn invalid_parked_payload_is_refused_on_consumption() {
    let mut s = TokenStore::new();
    // the raw store accepts anything; the result-token reader validates
    let tok = s.issue(invalid_table(), 10_000, 1000);
    assert_eq!(
        consume_result_token(&mut s, &tok, 1000),
        Err(StoreError::InvalidPayload {
            detail: TableError::RowWidth { row: 0, len: 0, expected: 1 },
        })
    );
}

#[test]
fn result_tokens_live_five_minutes() {
    let mut s = TokenStore::new();
    let tok = issue_result_token(&mut s, table("t"), 1000).unwrap();
    // 300 seconds later the token still answers; a fresh store at the same
    // deadline boundary refuses it one millisecond after
    assert_eq!(consume_result_token(&mut s, &tok, 1000 + 300_000), Ok(table("t")));
    let mut s2 = TokenStore::new();
    let tok2 = issue_result_token(&mut s2, table("t"), 1000).unwrap();
    assert_eq!(
        consume_result_token(&mut s2, &tok2, 1000 + 300_001),
        Err(StoreError::ExpiredToken)
    );
}
