use agg_server::db::models::{
    Database, Record, RecordUserSetting, RecordWithMeta, Source, SourceUserSetting, User,
};
use agg_server::db::order::{paginate_rows, sort_newest_first};
use agg_server::db::queries::sources::{get_list, subscribe, unsubscribe, UnknownSourceOrUser};
use agg_server::db::queries::{
    delete_source, get_all_records, get_starred_records, get_user_by_token, is_record_visible,
    is_source_subscribed, mark_record, record_ids_of_source, user_with_token_exists,
};
use agg_server::db::writes::Write;

fn record(id: i32, source_id: i32, date: i64) -> Record {
    Record {
        id,
        title: Some(format!("title {}", id)),
        guid: format!("guid-{}", id),
        source_id,
        content: format!("content {}", id),
        date,
        image: None,
    }
}

fn source(id: i32) -> Source {
    Source {
        id,
        name: format!("source {}", id),
        origin: format!("https://example.org/{}", id),
        kind: "http".to_string(),
        image: None,
        last_scrape_time: 0,
    }
}

fn star(user_id: i32, record_id: i32, starred: bool) -> RecordUserSetting {
    RecordUserSetting { user_id, record_id, starred }
}

fn sub(user_id: i32, source_id: i32) -> SourceUserSetting {
    SourceUserSetting { user_id, source_id }
}

fn user(id: i32, token: Option<&str>) -> User {
    User { id, last_read_date: 0, token: token.map(|t| t.to_string()) }
}

/// Two sources; user 1 subscribes to source 10, user 2 to both.
fn sample() -> Database {
    Database::new(
        vec![record(1, 10, 100), record(2, 10, 300), record(3, 20, 200), record(4, 10, 200)],
        vec![star(1, 1, true), star(1, 2, false), star(2, 2, true), star(2, 3, true)],
        vec![source(10), source(20)],
        vec![sub(1, 10), sub(2, 10), sub(2, 20)],
        vec![user(1, Some("alpha")), user(2, Some("beta")), user(3, None)],
    )
}

fn ids(rows: &[RecordWithMeta]) -> Vec<i32> {
    rows.iter().map(|r| r.id).collect()
}

#[test]
fn starred_records_of_user_newest_first() {
    let db = sample();
    let rows = get_starred_records(&db, 2, None, 10, 0);
    assert_eq!(ids(&rows), vec![2, 3]);
    assert!(rows.iter().all(|r| r.starred == Some(true)));
}

#[test]
fn starred_records_skip_unstarred_settings() {
    let db = sample();
    let rows = get_starred_records(&db, 1, None, 10, 0);
    assert_eq!(ids(&rows), vec![1]);
    assert_eq!(rows[0].title, Some("title 1".to_string()));
    assert_eq!(rows[0].date, 100);
}

#[test]
fn starred_records_filtered_by_source() {
    let db = sample();
    assert_eq!(ids(&get_starred_records(&db, 2, Some(20), 10, 0)), vec![3]);
    assert_eq!(ids(&get_starred_records(&db, 2, Some(30), 10, 0)), Vec::<i32>::new());
}

#[test]
fn starred_records_paged() {
    let db = sample();
    assert_eq!(ids(&get_starred_records(&db, 2, None, 1, 0)), vec![2]);
    assert_eq!(ids(&get_starred_records(&db, 2, None, 1, 1)), vec![3]);
    assert_eq!(ids(&get_starred_records(&db, 2, None, 5, 2)), Vec::<i32>::new());
    assert_eq!(ids(&get_starred_records(&db, 2, None, 0, 0)), Vec::<i32>::new());
}

#[test]
fn all_records_of_subscribed_sources() {
    let db = sample();
    let rows = get_all_records(&db, 1, None, None, 10, 0);
    // Record 2 has a setting of user 1 and one of user 2: the left join yields both.
    assert_eq!(ids(&rows), vec![2, 2, 4, 1]);
    assert_eq!(rows[0].starred, Some(false));
    assert_eq!(rows[1].starred, Some(true));
    assert_eq!(rows[2].starred, None);
    assert_eq!(rows[3].starred, Some(true));
}

#[test]
fn all_records_filters() {
    let db = sample();
    assert_eq!(ids(&get_all_records(&db, 2, Some(20), None, 10, 0)), vec![3]);
    assert_eq!(ids(&get_all_records(&db, 2, None, Some(4), 10, 0)), vec![4]);
    assert_eq!(ids(&get_all_records(&db, 2, Some(10), Some(4), 10, 0)), vec![4]);
    assert_eq!(ids(&get_all_records(&db, 2, Some(20), Some(4), 10, 0)), Vec::<i32>::new());
    assert_eq!(ids(&get_all_records(&db, 1, Some(20), None, 10, 0)), Vec::<i32>::new());
    assert_eq!(ids(&get_all_records(&db, 3, None, None, 10, 0)), Vec::<i32>::new());
}

#[test]
fn all_records_equal_dates_keep_table_order() {
    let db = sample();
    let rows = get_all_records(&db, 2, None, None, 10, 0);
    // Records 3 and 4 share a date; record 3 comes first in the table.
    assert_eq!(ids(&rows), vec![2, 2, 3, 4, 1]);
}

#[test]
fn all_records_duplicate_subscriptions_duplicate_rows() {
    let mut db = sample();
    db.sources_user_settings.push(sub(1, 10));
    let rows = get_all_records(&db, 1, None, Some(1), 10, 0);
    assert_eq!(ids(&rows), vec![1, 1]);
}

#[test]
fn all_records_need_a_source_row() {
    let mut db = sample();
    db.sources.remove(1);
    assert_eq!(ids(&get_all_records(&db, 2, Some(20), None, 10, 0)), Vec::<i32>::new());
}

#[test]
fn mark_record_inserts_new_setting() {
    let mut db = sample();
    let (writes, row) = mark_record(&mut db, 1, 4, true);
    assert_eq!(writes, vec![Write::InsertRecordSetting(star(1, 4, true))]);
    assert_eq!(row.id, 4);
    assert_eq!(row.starred, Some(true));
    assert_eq!(db.records_user_settings.last(), Some(&star(1, 4, true)));
}

#[test]
fn mark_record_updates_existing_setting() {
    let mut db = sample();
    let (writes, row) = mark_record(&mut db, 1, 1, false);
    assert_eq!(writes, vec![Write::UpdateStarred { user_id: 1, record_id: 1, starred: false }]);
    assert_eq!(row.id, 1);
    assert_eq!(row.starred, Some(false));
    assert_eq!(db.records_user_settings[0], star(1, 1, false));
    assert_eq!(db.records_user_settings.len(), 4);
}

#[test]
fn mark_record_returns_first_joined_row() {
    // Record 2 also has a setting of user 2, which the one-row lookup may show.
    let mut db = sample();
    let (_, row) = mark_record(&mut db, 1, 2, true);
    assert_eq!(row.id, 2);
    assert_eq!(row.starred, Some(true));
    let (_, row) = mark_record(&mut db, 2, 2, false);
    assert_eq!(row.id, 2);
    assert_eq!(row.starred, Some(true));
}

#[test]
fn mark_record_last_mark_wins() {
    let mut once = sample();
    mark_record(&mut once, 1, 4, false);
    let mut twice = sample();
    mark_record(&mut twice, 1, 4, true);
    mark_record(&mut twice, 1, 4, false);
    assert_eq!(once, twice);
}

#[test]
fn visibility_checks() {
    let db = sample();
    assert!(is_record_visible(&db, 1, 4));
    assert!(!is_record_visible(&db, 1, 3));
    assert!(!is_record_visible(&db, 1, 99));
    assert!(is_source_subscribed(&db, 20, 2));
    assert!(!is_source_subscribed(&db, 20, 1));
}

#[test]
fn delete_source_removes_stars_of_its_records() {
    let mut db = sample();
    let writes = delete_source(&mut db, 10);
    assert_eq!(writes, vec![Write::DeleteRecordSettings { record_ids: vec![1, 2, 4], of_user: None }]);
    assert_eq!(db.records_user_settings, vec![star(2, 3, true)]);
    assert_eq!(db.records.len(), 4);
    assert_eq!(db.sources_user_settings.len(), 3);
    assert_eq!(get_starred_records(&db, 2, Some(10), 10, 0).len(), 0);
}

#[test]
fn record_ids_of_source_in_table_order() {
    let db = sample();
    assert_eq!(record_ids_of_source(&db.records, 10), vec![1, 2, 4]);
    assert_eq!(record_ids_of_source(&db.records, 99), Vec::<i32>::new());
}

#[test]
fn unsubscribe_removes_user_stars_and_subscription() {
    let mut db = sample();
    let writes = unsubscribe(&mut db, 10, 2);
    assert_eq!(
        writes,
        vec![
            Write::DeleteRecordSettings { record_ids: vec![1, 2, 4], of_user: Some(2) },
            Write::DeleteSubscriptions { source_id: 10, user_id: 2 },
        ]
    );
    assert_eq!(db.records_user_settings, vec![star(1, 1, true), star(1, 2, false), star(2, 3, true)]);
    assert_eq!(db.sources_user_settings, vec![sub(1, 10), sub(2, 20)]);
    assert!(get_all_records(&db, 2, Some(10), None, 10, 0).is_empty());
    assert!(get_starred_records(&db, 2, Some(10), 10, 0).is_empty());
}

#[test]
fn subscribe_then_unsubscribe_equals_unsubscribe() {
    let mut a = sample();
    assert!(subscribe(&mut a, 20, 1).is_ok());
    unsubscribe(&mut a, 20, 1);
    let mut b = sample();
    unsubscribe(&mut b, 20, 1);
    assert_eq!(a, b);
}

#[test]
fn subscribe_shows_source_records() {
    let mut db = sample();
    let writes = subscribe(&mut db, 20, 1);
    assert_eq!(writes, Ok(vec![Write::InsertSubscription(sub(1, 20))]));
    assert!(is_record_visible(&db, 1, 3));
    assert_eq!(ids(&get_all_records(&db, 1, Some(20), None, 10, 0)), vec![3]);
}

#[test]
fn subscribed_sources_list() {
    let db = sample();
    let list: Vec<i32> = get_list(&db, 2).iter().map(|s| s.id).collect();
    assert_eq!(list, vec![10, 20]);
    let list: Vec<i32> = get_list(&db, 1).iter().map(|s| s.id).collect();
    assert_eq!(list, vec![10]);
    assert!(get_list(&db, 3).is_empty());
}

#[test]
fn user_lookup_by_token() {
    let mut db = sample();
    db.users.push(user(4, Some("beta")));
    assert!(user_with_token_exists(&db, &"beta".to_string()));
    assert!(!user_with_token_exists(&db, &"gamma".to_string()));
    assert_eq!(get_user_by_token(&db, "beta".to_string()).map(|u| u.id), Some(2));
    assert_eq!(get_user_by_token(&db, "alpha".to_string()).map(|u| u.id), Some(1));
}

fn meta(id: i32, date: i64) -> RecordWithMeta {
    RecordWithMeta {
        id,
        title: None,
        guid: String::new(),
        source_id: 0,
        content: String::new(),
        date,
        image: None,
        starred: None,
    }
}

#[test]
fn sorting_is_stable_and_newest_first() {
    let rows = vec![meta(1, 5), meta(2, 9), meta(3, 5), meta(4, -3), meta(5, 9)];
    let sorted = sort_newest_first(rows);
    assert_eq!(ids(&sorted), vec![2, 5, 1, 3, 4]);
}

#[test]
fn paging_bounds() {
    let rows = vec![meta(1, 0), meta(2, 0), meta(3, 0)];
    assert_eq!(ids(&paginate_rows(rows.clone(), 2, 1)), vec![2, 3]);
    assert_eq!(ids(&paginate_rows(rows.clone(), 10, 0)), vec![1, 2, 3]);
    assert_eq!(ids(&paginate_rows(rows.clone(), 2, 3)), Vec::<i32>::new());
    assert_eq!(ids(&paginate_rows(rows.clone(), i64::MAX, i64::MAX)), Vec::<i32>::new());
    assert_eq!(ids(&paginate_rows(rows, i64::MAX, 2)), vec![3]);
}

fn keys_unique(db: &Database) -> bool {
    let s = &db.records_user_settings;
    (0..s.len()).all(|i| (0..s.len()).all(|j| i == j || (s[i].user_id, s[i].record_id) != (s[j].user_id, s[j].record_id)))
}

#[test]
fn changes_keep_settings_unique() {
    let mut db = sample();
    assert!(keys_unique(&db));
    mark_record(&mut db, 1, 1, false);
    mark_record(&mut db, 1, 4, true);
    mark_record(&mut db, 1, 4, true);
    assert!(keys_unique(&db));
    assert!(subscribe(&mut db, 20, 1).is_ok());
    mark_record(&mut db, 1, 3, true);
    assert!(keys_unique(&db));
    unsubscribe(&mut db, 10, 1);
    assert!(keys_unique(&db));
    delete_source(&mut db, 20);
    assert!(keys_unique(&db));
    assert!(db.records_user_settings.iter().all(|s| s.user_id == 2 || s.record_id != 3));
}

#[test]
fn subscribe_refuses_unknown_source_or_user() {
    let mut db = sample();
    assert_eq!(subscribe(&mut db, 99, 1), Err(UnknownSourceOrUser));
    assert_eq!(db, sample());
    assert_eq!(subscribe(&mut db, 10, 42), Err(UnknownSourceOrUser));
    assert_eq!(db, sample());
}

#[test]
fn user_exists_check() {
    let db = sample();
    assert!(agg_server::db::queries::user_exists(&db, 3));
    assert!(!agg_server::db::queries::user_exists(&db, 42));
}

#[test]
fn pages_concatenate() {
    let db = sample();
    for a in 0..4i64 {
        for b in 0..4i64 {
            for o in 0..4i64 {
                let mut joined = get_all_records(&db, 2, None, None, a, o);
                joined.extend(get_all_records(&db, 2, None, None, b, o + a));
                assert_eq!(joined, get_all_records(&db, 2, None, None, a + b, o));
                let mut joined = get_starred_records(&db, 2, None, a, o);
                joined.extend(get_starred_records(&db, 2, None, b, o + a));
                assert_eq!(joined, get_starred_records(&db, 2, None, a + b, o));
            }
        }
    }
}

#[test]
fn listing_after_subscribe_holds_each_record_once() {
    let mut db = sample();
    db.records.push(record(5, 20, 400));
    db.records_user_settings.retain(|s| s.record_id != 3);
    assert!(subscribe(&mut db, 20, 1).is_ok());
    let rows = get_all_records(&db, 1, Some(20), None, 100, 0);
    assert_eq!(ids(&rows), vec![5, 3]);
    assert!(rows.iter().all(|r| r.starred.is_none()));
}

#[test]
fn starred_listing_is_flagged_part_of_listing() {
    let db = Database::new(
        vec![record(1, 10, 100), record(2, 10, 300), record(3, 20, 200)],
        vec![star(7, 1, true), star(7, 2, false), star(7, 3, true)],
        vec![source(10), source(20)],
        vec![sub(7, 10), sub(7, 20)],
        vec![user(7, Some("t"))],
    );
    let starred = ids(&get_starred_records(&db, 7, None, 10, 0));
    let flagged: Vec<i32> = get_all_records(&db, 7, None, None, 10, 0)
        .iter()
        .filter(|r| r.starred == Some(true))
        .map(|r| r.id)
        .collect();
    assert_eq!(starred, flagged);
    assert_eq!(starred, vec![3, 1]);
}

#[test]
fn starred_listing_after_mark() {
    let mut db = sample();
    mark_record(&mut db, 1, 4, true);
    assert!(get_starred_records(&db, 1, None, 100, 0).iter().any(|r| r.id == 4));
    mark_record(&mut db, 1, 4, false);
    assert!(!get_starred_records(&db, 1, None, 100, 0).iter().any(|r| r.id == 4));
    mark_record(&mut db, 1, 1, false);
    assert!(!get_starred_records(&db, 1, None, 100, 0).iter().any(|r| r.id == 1));
}
