use vstd::prelude::*;

use crate::db::models::{Database, RecordUserSetting, Source, SourceUserSetting, Tables};
use crate::db::queries::{record_ids_of_source, record_of_source, retain_spared, user_exists, user_known};
use crate::db::writes::{
    apply_writes, lemma_apply_one, lemma_apply_two, other_subscriptions, spared_by, Write,
};

verus! {

/// Keeps the settings rows other than those of `user_id` on records of `source_id`.
pub open spec fn outside_user_source(
    records: Seq<crate::db::models::Record>,
    source_id: i32,
    user_id: i32,
) -> spec_fn(RecordUserSetting) -> bool {
    |row: RecordUserSetting| !(record_of_source(records, row.record_id, source_id) && row.user_id == user_id)
}

/// The tables after `user_id` unsubscribes from `source_id`: the user's
/// settings on the source's records and the user's subscriptions to it are gone.
pub open spec fn unsubscribed(t: Tables, source_id: i32, user_id: i32) -> Tables {
    Tables {
        records_user_settings: t.records_user_settings.filter(
            outside_user_source(t.records, source_id, user_id),
        ),
        sources_user_settings: t.sources_user_settings.filter(other_subscriptions(source_id, user_id)),
        ..t
    }
}

/// The tables after `user_id` subscribes to `source_id`.
pub open spec fn subscribed(t: Tables, source_id: i32, user_id: i32) -> Tables {
    Tables {
        sources_user_settings: t.sources_user_settings.push(SourceUserSetting { user_id, source_id }),
        ..t
    }
}

fn retain_other_subscriptions(subs: &Vec<SourceUserSetting>, source_id: i32, user_id: i32) -> (res: Vec<SourceUserSetting>)
    ensures
        res@ == subs@.filter(other_subscriptions(source_id, user_id)),
{
    let mut res: Vec<SourceUserSetting> = Vec::new();
    let n = subs.len();
    for i in 0..n
        invariant
            n == subs.len(),
            res@ == subs@.take(i as int).filter(other_subscriptions(source_id, user_id)),
    {
        proof {
            reveal(Seq::filter);
            assert(subs@.take(i + 1).drop_last() =~= subs@.take(i as int));
        }
        if !(subs[i].source_id == source_id && subs[i].user_id == user_id) {
            res.push(subs[i].clone());
        }
    }
    assert(subs@.take(n as int) =~= subs@);
    res
}

/// Removes the settings of `user_id` on the records of `source_id`, then the
/// subscriptions of `user_id` to `source_id`. The returned writes, in order,
/// bring a database equal to `db` to the same state.
pub fn unsubscribe(db: &mut Database, source_id: i32, user_id: i32) -> (res: Vec<Write>)
    ensures
        final(db)@ == unsubscribed(old(db)@, source_id, user_id),
        final(db)@ == apply_writes(old(db)@, res@),
{
    let ghost old_t = db@;
    let ids = record_ids_of_source(&db.records, source_id);
    let kept = retain_spared(&db.records_user_settings, &ids, Some(user_id));
    proof {
        assert(spared_by(ids@, Some(user_id)) =~= outside_user_source(old_t.records, source_id, user_id));
    }
    db.records_user_settings = kept;
    let subs = retain_other_subscriptions(&db.sources_user_settings, source_id, user_id);
    db.sources_user_settings = subs;
    assert(db@ =~= unsubscribed(old_t, source_id, user_id));
    let w1 = Write::DeleteRecordSettings { record_ids: ids, of_user: Some(user_id) };
    let w2 = Write::DeleteSubscriptions { source_id, user_id };
    let mut writes: Vec<Write> = Vec::new();
    writes.push(w1);
    writes.push(w2);
    proof {
        assert(writes@ =~= seq![w1, w2]);
        lemma_apply_two(old_t, w1, w2);
    }
    writes
}

/// The sources table holds a source with id `source_id`.
pub open spec fn source_known(t: Tables, source_id: i32) -> bool {
    exists|j: int| 0 <= j < t.sources.len() && t.sources[j].id == source_id
}

/// Whether the sources table holds a source with id `source_id`.
pub fn source_exists(db: &Database, source_id: i32) -> (res: bool)
    ensures
        res == source_known(db@, source_id),
{
    let n = db.sources.len();
    for j in 0..n
        invariant
            n == db.sources.len(),
            forall|k: int| 0 <= k < j ==> db.sources@[k].id != source_id,
    {
        if db.sources[j].id == source_id {
            assert(db@.sources[j as int].id == source_id);
            return true;
        }
    }
    false
}

/// A subscription would refer to a source or a user that does not exist.
#[derive(Debug, PartialEq, Eq)]
pub struct UnknownSourceOrUser;

/// Adds a subscription of `user_id` to `source_id`, where both exist; a
/// subscription that would refer to a missing source or user is refused and
/// changes nothing. The returned writes bring a database equal to `db` to the
/// same state.
pub fn subscribe(db: &mut Database, source_id: i32, user_id: i32) -> (res: Result<Vec<Write>, UnknownSourceOrUser>)
    ensures
        res is Ok <==> source_known(old(db)@, source_id) && user_known(old(db)@, user_id),
        res is Err ==> final(db)@ == old(db)@,
        res matches Ok(ws) ==> final(db)@ == subscribed(old(db)@, source_id, user_id) && final(db)@
            == apply_writes(old(db)@, ws@),
{
    if !(source_exists(db, source_id) && user_exists(db, user_id)) {
        return Err(UnknownSourceOrUser);
    }
    let ghost old_t = db@;
    db.sources_user_settings.push(SourceUserSetting { user_id, source_id });
    assert(db@ =~= subscribed(old_t, source_id, user_id));
    let w = Write::InsertSubscription(SourceUserSetting { user_id, source_id });
    let mut writes: Vec<Write> = Vec::new();
    writes.push(w);
    proof {
        assert(writes@ =~= seq![w]);
        lemma_apply_one(old_t, w);
    }
    Ok(writes)
}

/// One copy of `source` for each subscription of `user_id` to it.
pub open spec fn source_per_subscription(source: Source, subs: Seq<SourceUserSetting>, user_id: i32) -> Seq<Source>
    decreases subs.len(),
{
    if subs.len() == 0 {
        seq![]
    } else {
        source_per_subscription(source, subs.drop_last(), user_id) + if subs.last().source_id == source.id
            && subs.last().user_id == user_id {
            seq![source]
        } else {
            seq![]
        }
    }
}

/// `sources` joined with the subscriptions of `user_id`, in table order.
pub open spec fn subscribed_sources(sources: Seq<Source>, subs: Seq<SourceUserSetting>, user_id: i32) -> Seq<Source>
    decreases sources.len(),
{
    if sources.len() == 0 {
        seq![]
    } else {
        subscribed_sources(sources.drop_last(), subs, user_id) + source_per_subscription(
            sources.last(),
            subs,
            user_id,
        )
    }
}

fn push_source_per_subscription(source: &Source, subs: &Vec<SourceUserSetting>, user_id: i32, out: &mut Vec<Source>)
    ensures
        final(out)@ == old(out)@ + source_per_subscription(*source, subs@, user_id),
{
    let ghost start = out@;
    let n = subs.len();
    for i in 0..n
        invariant
            n == subs.len(),
            out@ == start + source_per_subscription(*source, subs@.take(i as int), user_id),
    {
        proof {
            assert(subs@.take(i + 1).drop_last() =~= subs@.take(i as int));
        }
        let ghost prev = source_per_subscription(*source, subs@.take(i as int), user_id);
        if subs[i].source_id == source.id && subs[i].user_id == user_id {
            out.push(source.clone());
            assert(out@ =~= start + (prev + seq![*source]));
        } else {
            assert(out@ =~= start + (prev + Seq::<Source>::empty()));
        }
    }
    assert(subs@.take(n as int) =~= subs@);
}

/// The sources that `user_id` subscribes to: the sources table joined with the
/// user's subscriptions, in table order.
pub fn get_list(db: &Database, user_id: i32) -> (res: Vec<Source>)
    ensures
        res@ == subscribed_sources(db.sources@, db.sources_user_settings@, user_id),
{
    let mut res: Vec<Source> = Vec::new();
    let n = db.sources.len();
    for i in 0..n
        invariant
            n == db.sources.len(),
            res@ == subscribed_sources(db.sources@.take(i as int), db.sources_user_settings@, user_id),
    {
        proof {
            assert(db.sources@.take(i + 1).drop_last() =~= db.sources@.take(i as int));
        }
        push_source_per_subscription(&db.sources[i], &db.sources_user_settings, user_id, &mut res);
    }
    assert(db.sources@.take(n as int) =~= db.sources@);
    res
}

} // verus!
