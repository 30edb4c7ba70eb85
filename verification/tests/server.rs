use agg_server::db::models::{Database, Record, RecordUserSetting, Source, SourceUserSetting, User};
use agg_server::server::auth::{bearer_token, InvalidAuthorization};
use agg_server::server::handlers::records::{get_records, mark_record, GetFilteredRecordsRequest, MarkRecord, RecordsQuery};
use agg_server::server::handlers::sources::{get_list, subscribe, unsubscribe};
use agg_server::db::writes::Write;

fn sample() -> Database {
    Database::new(
        vec![
            Record { id: 1, title: None, guid: "a".to_string(), source_id: 10, content: "x".to_string(), date: 5, image: None },
            Record { id: 2, title: None, guid: "b".to_string(), source_id: 10, content: "y".to_string(), date: 7, image: Some("img".to_string()) },
        ],
        vec![RecordUserSetting { user_id: 1, record_id: 1, starred: true }],
        vec![Source { id: 10, name: "n".to_string(), origin: "o".to_string(), kind: "http".to_string(), image: None, last_scrape_time: 1 }],
        vec![SourceUserSetting { user_id: 1, source_id: 10 }],
        vec![
            User { id: 1, last_read_date: 0, token: Some("mF_9.B5f-4.1JqM".to_string()) },
            User { id: 2, last_read_date: 0, token: Some("tok".to_string()) },
        ],
    )
}

fn me() -> User {
    User { id: 1, last_read_date: 0, token: None }
}

#[test]
fn bearer_token_of_valid_header() {
    assert_eq!(bearer_token(Some(b"Bearer mF_9.B5f-4.1JqM")), Ok("mF_9.B5f-4.1JqM".to_string()));
    assert_eq!(bearer_token(Some(b"Bearer  spaced")), Ok(" spaced".to_string()));
    assert_eq!(bearer_token(Some(b"Bearer a")), Ok("a".to_string()));
}

#[test]
fn bearer_token_refusals() {
    assert_eq!(bearer_token(None), Err(InvalidAuthorization));
    assert_eq!(bearer_token(Some(b"Bearer ")), Err(InvalidAuthorization));
    assert_eq!(bearer_token(Some(b"")), Err(InvalidAuthorization));
    assert_eq!(bearer_token(Some(b"OAuthToken foo")), Err(InvalidAuthorization));
    assert_eq!(bearer_token(Some(b"Bearer\tfoo")), Err(InvalidAuthorization));
    assert_eq!(bearer_token(Some(b"bearer foo")), Err(InvalidAuthorization));
    assert_eq!(bearer_token(Some("Bearer caf\u{e9}".as_bytes())), Err(InvalidAuthorization));
    assert_eq!(bearer_token(Some(b"Bearer a\x01b")), Err(InvalidAuthorization));
}

#[test]
fn records_listing_all_and_starred() {
    let db = sample();
    let all = get_records(&db, &GetFilteredRecordsRequest { source_id: None, query: RecordsQuery::All, limit: 10, offset: 0 }, &me());
    assert_eq!(all.iter().map(|r| (r.id, r.starred)).collect::<Vec<_>>(), vec![(2, None), (1, Some(true))]);
    let starred = get_records(&db, &GetFilteredRecordsRequest { source_id: Some(10), query: RecordsQuery::Starred, limit: 10, offset: 0 }, &me());
    assert_eq!(starred.iter().map(|r| r.id).collect::<Vec<_>>(), vec![1]);
    assert_eq!(all[0].image, Some("img".to_string()));
}

#[test]
fn mark_record_handler() {
    let mut db = sample();
    let (writes, row) = mark_record(&mut db, 2, &MarkRecord { starred: true }, &me());
    assert_eq!(writes, vec![Write::InsertRecordSetting(RecordUserSetting { user_id: 1, record_id: 2, starred: true })]);
    assert_eq!((row.id, row.starred), (2, Some(true)));
}

#[test]
fn source_handlers() {
    let mut db = sample();
    assert_eq!(get_list(&db, &me()).len(), 1);
    let w = unsubscribe(&mut db, &me(), 10);
    assert_eq!(w.len(), 2);
    assert!(get_list(&db, &me()).is_empty());
    assert!(db.records_user_settings.is_empty());
    let w = subscribe(&mut db, &me(), 10);
    assert_eq!(w, Ok(vec![Write::InsertSubscription(SourceUserSetting { user_id: 1, source_id: 10 })]));
    assert_eq!(get_list(&db, &me()).len(), 1);
}
