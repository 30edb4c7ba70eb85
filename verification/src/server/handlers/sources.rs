use vstd::prelude::*;

use crate::db::models::{Database, Source, User};
use crate::db::queries::sources as sources_queries;
use crate::db::queries::sources::{source_known, subscribed, subscribed_sources, unsubscribed, UnknownSourceOrUser};
use crate::db::queries::user_known;
use crate::db::writes::{apply_writes, Write};

verus! {

/// The query of a search for sources by origin.
#[derive(Debug, PartialEq, Eq)]
pub struct SearchSource {
    pub origin: String,
}

/// The sources that `user` subscribes to.
pub fn get_list(db: &Database, user: &User) -> (res: Vec<Source>)
    ensures
        res@ == subscribed_sources(db.sources@, db.sources_user_settings@, user.id),
{
    sources_queries::get_list(db, user.id)
}

/// Unsubscribes `user` from `source_id`.
pub fn unsubscribe(db: &mut Database, user: &User, source_id: i32) -> (res: Vec<Write>)
    ensures
        final(db)@ == unsubscribed(old(db)@, source_id, user.id),
        final(db)@ == apply_writes(old(db)@, res@),
{
    sources_queries::unsubscribe(db, source_id, user.id)
}

/// Subscribes `user` to `source_id`, where both exist.
pub fn subscribe(db: &mut Database, user: &User, source_id: i32) -> (res: Result<Vec<Write>, UnknownSourceOrUser>)
    ensures
        res is Ok <==> source_known(old(db)@, source_id) && user_known(old(db)@, user.id),
        res is Err ==> final(db)@ == old(db)@,
        res matches Ok(ws) ==> final(db)@ == subscribed(old(db)@, source_id, user.id) && final(db)@
            == apply_writes(old(db)@, ws@),
{
    sources_queries::subscribe(db, source_id, user.id)
}

} // verus!
