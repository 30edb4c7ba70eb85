use vstd::prelude::*;

use crate::db::models::{Database, RecordWithMeta, Tables, User};
use crate::db::queries::{
    all_records, get_all_records, get_starred_records, marked, record_visible, starred_records, user_known,
};
use crate::db::queries;
use crate::db::writes::{apply_writes, Write};

verus! {

/// Which records a listing shows.
#[derive(Debug, PartialEq, Eq)]
pub enum RecordsQuery {
    All,
    Starred,
}

/// The parameters of a records listing.
#[derive(Debug, PartialEq, Eq)]
pub struct GetFilteredRecordsRequest {
    pub source_id: Option<i32>,
    pub query: RecordsQuery,
    pub limit: i64,
    pub offset: i64,
}

/// The body of a request that stars or unstars a record.
#[derive(Debug, PartialEq, Eq)]
pub struct MarkRecord {
    pub starred: bool,
}

/// The listing that `params` asks of `user_id`.
pub open spec fn records_listing(t: Tables, user_id: i32, params: GetFilteredRecordsRequest) -> Seq<RecordWithMeta> {
    match params.query {
        RecordsQuery::All => all_records(
            t,
            user_id,
            params.source_id,
            None,
            params.limit as int,
            params.offset as int,
        ),
        RecordsQuery::Starred => starred_records(
            t,
            user_id,
            params.source_id,
            params.limit as int,
            params.offset as int,
        ),
    }
}

/// Lists the records of `user`: all records of the sources the user
/// subscribes to, or the ones the user starred, as `params` asks.
pub fn get_records(db: &Database, params: &GetFilteredRecordsRequest, user: &User) -> (res: Vec<RecordWithMeta>)
    requires
        params.limit >= 0,
        params.offset >= 0,
    ensures
        res@ == records_listing(db@, user.id, *params),
{
    match params.query {
        RecordsQuery::All => get_all_records(db, user.id, params.source_id, None, params.limit, params.offset),
        RecordsQuery::Starred => get_starred_records(db, user.id, params.source_id, params.limit, params.offset),
    }
}

/// Stars or unstars `record_id` for `user` and returns the record as the
/// user's listing shows it.
pub fn mark_record(db: &mut Database, record_id: i32, params: &MarkRecord, user: &User) -> (res: (Vec<Write>, RecordWithMeta))
    requires
        record_visible(old(db)@, user.id, record_id),
        user_known(old(db)@, user.id),
    ensures
        final(db)@ == marked(old(db)@, user.id, record_id, params.starred),
        final(db)@ == apply_writes(old(db)@, res.0@),
        all_records(final(db)@, user.id, None, Some(record_id), 1, 0).len() == 1,
        res.1 == all_records(final(db)@, user.id, None, Some(record_id), 1, 0)[0],
{
    queries::mark_record(db, user.id, record_id, params.starred)
}

} // verus!
