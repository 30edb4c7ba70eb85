use vstd::prelude::*;

use crate::db::models::{
    record_with_meta, with_meta, Database, Record, RecordUserSetting, RecordWithMeta, Source,
    SourceUserSetting, Tables, User,
};
use crate::db::order::{
    is_newest_first, lemma_sort_by_date_desc, paginate, paginate_rows, sort_by_date_desc,
    sort_newest_first,
};
use crate::db::writes::{
    apply_writes, is_setting_of, lemma_apply_one, restar, set_starred,
    spared_by, upsert_starred, Write,
};

pub mod sources;

verus! {

/// `r` passes the optional filter on its source.
pub open spec fn in_source_filter(r: Record, source_id: Option<i32>) -> bool {
    match source_id {
        Some(s) => r.source_id == s,
        None => true,
    }
}

fn passes_source_filter(r: &Record, source_id: Option<i32>) -> (res: bool)
    ensures
        res == in_source_filter(*r, source_id),
{
    match source_id {
        Some(s) => r.source_id == s,
        None => true,
    }
}

// ---------------------------------------------------------------------------
// Starred records

/// `row` says that `user_id` starred `r`.
pub open spec fn is_starred_by(row: RecordUserSetting, r: Record, user_id: i32) -> bool {
    row.record_id == r.id && row.user_id == user_id && row.starred
}

/// The rows that joining `r` with the settings of `user_id` that star it yields,
/// in the order of `settings`.
pub open spec fn starred_rows_of(r: Record, settings: Seq<RecordUserSetting>, user_id: i32) -> Seq<RecordWithMeta>
    decreases settings.len(),
{
    if settings.len() == 0 {
        seq![]
    } else {
        starred_rows_of(r, settings.drop_last(), user_id) + if is_starred_by(settings.last(), r, user_id) {
            seq![with_meta(r, Some(settings.last().starred))]
        } else {
            seq![]
        }
    }
}

/// `records` joined with the settings by which `user_id` starred them, filtered
/// by source, before ordering.
pub open spec fn starred_rows(
    records: Seq<Record>,
    settings: Seq<RecordUserSetting>,
    user_id: i32,
    source_id: Option<i32>,
) -> Seq<RecordWithMeta>
    decreases records.len(),
{
    if records.len() == 0 {
        seq![]
    } else {
        starred_rows(records.drop_last(), settings, user_id, source_id) + if in_source_filter(
            records.last(),
            source_id,
        ) {
            starred_rows_of(records.last(), settings, user_id)
        } else {
            seq![]
        }
    }
}

/// The records that `user_id` starred (of `source_id` where given), newest
/// first, `offset` rows skipped and at most `limit` kept.
pub open spec fn starred_records(t: Tables, user_id: i32, source_id: Option<i32>, limit: int, offset: int) -> Seq<RecordWithMeta> {
    paginate(
        sort_by_date_desc(starred_rows(t.records, t.records_user_settings, user_id, source_id)),
        limit,
        offset,
    )
}

fn push_starred_rows_of(r: &Record, settings: &Vec<RecordUserSetting>, user_id: i32, out: &mut Vec<RecordWithMeta>)
    ensures
        final(out)@ == old(out)@ + starred_rows_of(*r, settings@, user_id),
{
    let ghost start = out@;
    let n = settings.len();
    for i in 0..n
        invariant
            n == settings.len(),
            out@ == start + starred_rows_of(*r, settings@.take(i as int), user_id),
    {
        let row = &settings[i];
        proof {
            assert(settings@.take(i + 1).drop_last() =~= settings@.take(i as int));
        }
        if row.record_id == r.id && row.user_id == user_id && row.starred {
            let m = record_with_meta(r, Some(row.starred));
            out.push(m);
        }
        proof {
            let prev = starred_rows_of(*r, settings@.take(i as int), user_id);
            if is_starred_by(settings@[i as int], *r, user_id) {
                assert(out@ =~= start + (prev + seq![with_meta(*r, Some(settings@[i as int].starred))]));
            } else {
                assert(out@ =~= start + (prev + Seq::<RecordWithMeta>::empty()));
            }
        }
    }
    assert(settings@.take(n as int) =~= settings@);
}

/// The records that `user_id` starred, of `source_id` where it is given,
/// newest first, `offset` rows skipped and at most `limit` kept. Each row
/// carries `starred == Some(true)`.
pub fn get_starred_records(db: &Database, user_id: i32, source_id: Option<i32>, limit: i64, offset: i64) -> (res: Vec<RecordWithMeta>)
    requires
        limit >= 0,
        offset >= 0,
    ensures
        res@ == starred_records(db@, user_id, source_id, limit as int, offset as int),
        res@.len() <= limit,
        is_newest_first(res@),
{
    let mut rows: Vec<RecordWithMeta> = Vec::new();
    let n = db.records.len();
    for i in 0..n
        invariant
            n == db.records.len(),
            rows@ == starred_rows(db.records@.take(i as int), db.records_user_settings@, user_id, source_id),
    {
        let r = &db.records[i];
        proof {
            assert(db.records@.take(i + 1).drop_last() =~= db.records@.take(i as int));
        }
        let ghost before = rows@;
        if passes_source_filter(r, source_id) {
            push_starred_rows_of(r, &db.records_user_settings, user_id, &mut rows);
        } else {
            assert(rows@ =~= before + Seq::<RecordWithMeta>::empty());
        }
    }
    assert(db.records@.take(n as int) =~= db.records@);
    let sorted = sort_newest_first(rows);
    let res = paginate_rows(sorted, limit, offset);
    proof {
        lemma_sort_by_date_desc(starred_rows(db.records@, db.records_user_settings@, user_id, source_id));
    }
    res
}

// ---------------------------------------------------------------------------
// Users

/// `u` holds the token `token`.
pub open spec fn has_token(u: User, token: Seq<char>) -> bool {
    match u.token {
        Some(t) => t@ == token,
        None => false,
    }
}

/// Some user holds `token`.
pub open spec fn token_known(users: Seq<User>, token: Seq<char>) -> bool {
    exists|i: int| 0 <= i < users.len() && has_token(users[i], token)
}

/// `i` is the first user that holds `token`.
pub open spec fn is_first_holder(users: Seq<User>, token: Seq<char>, i: int) -> bool {
    &&& 0 <= i < users.len()
    &&& has_token(users[i], token)
    &&& forall|k: int| 0 <= k < i ==> !has_token(#[trigger] users[k], token)
}

fn holds_token(u: &User, token: &String) -> (res: bool)
    ensures
        res == has_token(*u, token@),
{
    match &u.token {
        Some(t) => t.eq(token),
        None => false,
    }
}

/// The users table holds a user with id `user_id`.
pub open spec fn user_known(t: Tables, user_id: i32) -> bool {
    exists|i: int| 0 <= i < t.users.len() && t.users[i].id == user_id
}

/// Whether the users table holds a user with id `user_id`.
pub fn user_exists(db: &Database, user_id: i32) -> (res: bool)
    ensures
        res == user_known(db@, user_id),
{
    let n = db.users.len();
    for i in 0..n
        invariant
            n == db.users.len(),
            forall|k: int| 0 <= k < i ==> db.users@[k].id != user_id,
    {
        if db.users[i].id == user_id {
            assert(db@.users[i as int].id == user_id);
            return true;
        }
    }
    false
}

/// Whether some user holds `token`.
pub fn user_with_token_exists(db: &Database, token: &String) -> (res: bool)
    ensures
        res == token_known(db.users@, token@),
{
    let n = db.users.len();
    for i in 0..n
        invariant
            n == db.users.len(),
            forall|k: int| 0 <= k < i ==> !has_token(#[trigger] db.users@[k], token@),
    {
        if holds_token(&db.users[i], token) {
            return true;
        }
    }
    false
}

/// The first user that holds `token`. A token that no user holds is outside
/// what this lookup accepts.
pub fn get_user_by_token(db: &Database, token: String) -> (res: Option<User>)
    requires
        token_known(db.users@, token@),
    ensures
        res matches Some(u) && exists|i: int| is_first_holder(db.users@, token@, i) && u == db.users@[i],
{
    let n = db.users.len();
    let mut i: usize = 0;
    while i < n
        invariant
            n == db.users.len(),
            0 <= i <= n,
            forall|k: int| 0 <= k < i ==> !has_token(#[trigger] db.users@[k], token@),
            token_known(db.users@, token@),
        decreases n - i,
    {
        if holds_token(&db.users[i], &token) {
            let u = db.users[i].clone();
            assert(is_first_holder(db.users@, token@, i as int));
            return Some(u);
        }
        i = i + 1;
    }
    None
}

// ---------------------------------------------------------------------------
// All records of the subscribed sources

/// `r` passes the optional filters on its source and on its id.
pub open spec fn in_record_filter(r: Record, source_id: Option<i32>, record_id: Option<i32>) -> bool {
    in_source_filter(r, source_id) && match record_id {
        Some(id) => r.id == id,
        None => true,
    }
}

fn passes_record_filter(r: &Record, source_id: Option<i32>, record_id: Option<i32>) -> (res: bool)
    ensures
        res == in_record_filter(*r, source_id, record_id),
{
    match (source_id, record_id) {
        (None, None) => true,
        (Some(s), Some(id)) => r.source_id == s && r.id == id,
        (Some(s), None) => r.source_id == s,
        (None, Some(id)) => r.id == id,
    }
}

/// The starred flags of the settings rows of `record_id`, of any user, in order.
pub open spec fn star_values(settings: Seq<RecordUserSetting>, record_id: i32) -> Seq<Option<bool>>
    decreases settings.len(),
{
    if settings.len() == 0 {
        seq![]
    } else {
        star_values(settings.drop_last(), record_id) + if settings.last().record_id == record_id {
            seq![Some(settings.last().starred)]
        } else {
            seq![]
        }
    }
}

/// What the left join of a record with `records_user_settings` gives it: the
/// flags of its settings rows, or a single `None` where it has none.
pub open spec fn star_options(settings: Seq<RecordUserSetting>, record_id: i32) -> Seq<Option<bool>> {
    if star_values(settings, record_id).len() == 0 {
        seq![None]
    } else {
        star_values(settings, record_id)
    }
}

/// One copy of `row` for each subscription of `user_id` to `source_id`.
pub open spec fn copies_per_subscription(
    row: RecordWithMeta,
    subs: Seq<SourceUserSetting>,
    source_id: i32,
    user_id: i32,
) -> Seq<RecordWithMeta>
    decreases subs.len(),
{
    if subs.len() == 0 {
        seq![]
    } else {
        copies_per_subscription(row, subs.drop_last(), source_id, user_id) + if subs.last().source_id
            == source_id && subs.last().user_id == user_id {
            seq![row]
        } else {
            seq![]
        }
    }
}

/// The copies of `row` that the inner join with `sources` and the
/// subscriptions of `user_id` gives a record of `source_id`.
pub open spec fn copies_per_source(
    row: RecordWithMeta,
    sources: Seq<Source>,
    subs: Seq<SourceUserSetting>,
    source_id: i32,
    user_id: i32,
) -> Seq<RecordWithMeta>
    decreases sources.len(),
{
    if sources.len() == 0 {
        seq![]
    } else {
        copies_per_source(row, sources.drop_last(), subs, source_id, user_id) + if sources.last().id
            == source_id {
            copies_per_subscription(row, subs, source_id, user_id)
        } else {
            seq![]
        }
    }
}

/// The rows that record `r` yields, one group per flag in `stars`.
pub open spec fn rows_of_record(r: Record, stars: Seq<Option<bool>>, t: Tables, user_id: i32) -> Seq<RecordWithMeta>
    decreases stars.len(),
{
    if stars.len() == 0 {
        seq![]
    } else {
        rows_of_record(r, stars.drop_last(), t, user_id) + copies_per_source(
            with_meta(r, stars.last()),
            t.sources,
            t.sources_user_settings,
            r.source_id,
            user_id,
        )
    }
}

/// `records` left-joined with `records_user_settings` and inner-joined with
/// the sources that `user_id` subscribes to, filtered, before ordering.
pub open spec fn visible_rows(
    records: Seq<Record>,
    t: Tables,
    user_id: i32,
    source_id: Option<i32>,
    record_id: Option<i32>,
) -> Seq<RecordWithMeta>
    decreases records.len(),
{
    if records.len() == 0 {
        seq![]
    } else {
        visible_rows(records.drop_last(), t, user_id, source_id, record_id) + if in_record_filter(
            records.last(),
            source_id,
            record_id,
        ) {
            rows_of_record(
                records.last(),
                star_options(t.records_user_settings, records.last().id),
                t,
                user_id,
            )
        } else {
            seq![]
        }
    }
}

/// The records of the sources that `user_id` subscribes to (of `source_id`,
/// and with id `record_id`, where given), each with the starred flag of a
/// settings row of the record or `None`, newest first, `offset` rows skipped
/// and at most `limit` kept.
pub open spec fn all_records(
    t: Tables,
    user_id: i32,
    source_id: Option<i32>,
    record_id: Option<i32>,
    limit: int,
    offset: int,
) -> Seq<RecordWithMeta> {
    paginate(sort_by_date_desc(visible_rows(t.records, t, user_id, source_id, record_id)), limit, offset)
}

fn collect_star_options(settings: &Vec<RecordUserSetting>, record_id: i32) -> (res: Vec<Option<bool>>)
    ensures
        res@ == star_options(settings@, record_id),
{
    let mut res: Vec<Option<bool>> = Vec::new();
    let n = settings.len();
    for i in 0..n
        invariant
            n == settings.len(),
            res@ == star_values(settings@.take(i as int), record_id),
    {
        proof {
            assert(settings@.take(i + 1).drop_last() =~= settings@.take(i as int));
        }
        let ghost before = res@;
        if settings[i].record_id == record_id {
            res.push(Some(settings[i].starred));
        } else {
            assert(res@ =~= before + Seq::<Option<bool>>::empty());
        }
    }
    assert(settings@.take(n as int) =~= settings@);
    if res.len() == 0 {
        res.push(None);
        assert(res@ =~= seq![None]);
    }
    res
}

fn push_copies_per_subscription(
    row: &RecordWithMeta,
    subs: &Vec<SourceUserSetting>,
    source_id: i32,
    user_id: i32,
    out: &mut Vec<RecordWithMeta>,
)
    ensures
        final(out)@ == old(out)@ + copies_per_subscription(*row, subs@, source_id, user_id),
{
    let ghost start = out@;
    let n = subs.len();
    for i in 0..n
        invariant
            n == subs.len(),
            out@ == start + copies_per_subscription(*row, subs@.take(i as int), source_id, user_id),
    {
        proof {
            assert(subs@.take(i + 1).drop_last() =~= subs@.take(i as int));
        }
        let ghost prev = copies_per_subscription(*row, subs@.take(i as int), source_id, user_id);
        if subs[i].source_id == source_id && subs[i].user_id == user_id {
            out.push(row.clone());
            assert(out@ =~= start + (prev + seq![*row]));
        } else {
            assert(out@ =~= start + (prev + Seq::<RecordWithMeta>::empty()));
        }
    }
    assert(subs@.take(n as int) =~= subs@);
}

fn push_copies_per_source(
    row: &RecordWithMeta,
    sources: &Vec<Source>,
    subs: &Vec<SourceUserSetting>,
    source_id: i32,
    user_id: i32,
    out: &mut Vec<RecordWithMeta>,
)
    ensures
        final(out)@ == old(out)@ + copies_per_source(*row, sources@, subs@, source_id, user_id),
{
    let ghost start = out@;
    let n = sources.len();
    for i in 0..n
        invariant
            n == sources.len(),
            out@ == start + copies_per_source(*row, sources@.take(i as int), subs@, source_id, user_id),
    {
        proof {
            assert(sources@.take(i + 1).drop_last() =~= sources@.take(i as int));
        }
        let ghost prev = copies_per_source(*row, sources@.take(i as int), subs@, source_id, user_id);
        if sources[i].id == source_id {
            push_copies_per_subscription(row, subs, source_id, user_id, out);
            assert(out@ =~= start + (prev + copies_per_subscription(*row, subs@, source_id, user_id)));
        } else {
            assert(out@ =~= start + (prev + Seq::<RecordWithMeta>::empty()));
        }
    }
    assert(sources@.take(n as int) =~= sources@);
}

fn push_rows_of_record(
    r: &Record,
    stars: &Vec<Option<bool>>,
    db: &Database,
    user_id: i32,
    out: &mut Vec<RecordWithMeta>,
)
    ensures
        final(out)@ == old(out)@ + rows_of_record(*r, stars@, db@, user_id),
{
    let ghost start = out@;
    let n = stars.len();
    for i in 0..n
        invariant
            n == stars.len(),
            out@ == start + rows_of_record(*r, stars@.take(i as int), db@, user_id),
    {
        proof {
            assert(stars@.take(i + 1).drop_last() =~= stars@.take(i as int));
        }
        let ghost prev = rows_of_record(*r, stars@.take(i as int), db@, user_id);
        let row = record_with_meta(r, stars[i]);
        push_copies_per_source(&row, &db.sources, &db.sources_user_settings, r.source_id, user_id, out);
        assert(out@ =~= start + (prev + copies_per_source(
            with_meta(*r, stars@[i as int]),
            db.sources@,
            db.sources_user_settings@,
            r.source_id,
            user_id,
        )));
    }
    assert(stars@.take(n as int) =~= stars@);
}

/// The records of the sources that `user_id` subscribes to, filtered by
/// `source_id` and `record_id` where given, each joined with every settings
/// row of the record (of any user) or with `None` where it has none, newest
/// first, `offset` rows skipped and at most `limit` kept.
pub fn get_all_records(
    db: &Database,
    user_id: i32,
    source_id: Option<i32>,
    record_id: Option<i32>,
    limit: i64,
    offset: i64,
) -> (res: Vec<RecordWithMeta>)
    requires
        limit >= 0,
        offset >= 0,
    ensures
        res@ == all_records(db@, user_id, source_id, record_id, limit as int, offset as int),
        res@.len() <= limit,
        is_newest_first(res@),
{
    let mut rows: Vec<RecordWithMeta> = Vec::new();
    let n = db.records.len();
    for i in 0..n
        invariant
            n == db.records.len(),
            rows@ == visible_rows(db.records@.take(i as int), db@, user_id, source_id, record_id),
    {
        let r = &db.records[i];
        proof {
            assert(db.records@.take(i + 1).drop_last() =~= db.records@.take(i as int));
        }
        let ghost before = rows@;
        if passes_record_filter(r, source_id, record_id) {
            let stars = collect_star_options(&db.records_user_settings, r.id);
            push_rows_of_record(r, &stars, db, user_id, &mut rows);
        } else {
            assert(rows@ =~= before + Seq::<RecordWithMeta>::empty());
        }
    }
    assert(db.records@.take(n as int) =~= db.records@);
    let sorted = sort_newest_first(rows);
    let res = paginate_rows(sorted, limit, offset);
    proof {
        lemma_sort_by_date_desc(visible_rows(db.records@, db@, user_id, source_id, record_id));
    }
    res
}

// ---------------------------------------------------------------------------
// Visibility of a record to a user

/// The sources table holds `source_id` and `user_id` subscribes to it.
pub open spec fn source_subscribed(t: Tables, source_id: i32, user_id: i32) -> bool {
    &&& exists|j: int| 0 <= j < t.sources.len() && t.sources[j].id == source_id
    &&& exists|k: int|
        0 <= k < t.sources_user_settings.len() && t.sources_user_settings[k].source_id == source_id
            && t.sources_user_settings[k].user_id == user_id
}

/// Some record with id `record_id` belongs to a source that `user_id` subscribes to.
pub open spec fn record_visible(t: Tables, user_id: i32, record_id: i32) -> bool {
    exists|i: int|
        0 <= i < t.records.len() && t.records[i].id == record_id && source_subscribed(
            t,
            t.records[i].source_id,
            user_id,
        )
}

/// Whether the sources table holds `source_id` and `user_id` subscribes to it.
pub fn is_source_subscribed(db: &Database, source_id: i32, user_id: i32) -> (res: bool)
    ensures
        res == source_subscribed(db@, source_id, user_id),
{
    let mut has_source = false;
    let n = db.sources.len();
    for j in 0..n
        invariant
            n == db.sources.len(),
            has_source == exists|x: int| 0 <= x < j && db.sources@[x].id == source_id,
    {
        if db.sources[j].id == source_id {
            has_source = true;
        }
    }
    if !has_source {
        return false;
    }
    let m = db.sources_user_settings.len();
    for k in 0..m
        invariant
            m == db.sources_user_settings.len(),
            exists|x: int| 0 <= x < db.sources@.len() && db.sources@[x].id == source_id,
            forall|x: int|
                0 <= x < k ==> !(db.sources_user_settings@[x].source_id == source_id
                    && db.sources_user_settings@[x].user_id == user_id),
    {
        if db.sources_user_settings[k].source_id == source_id && db.sources_user_settings[k].user_id
            == user_id {
            assert(db@.sources_user_settings[k as int].source_id == source_id);
            let ghost j = choose|x: int| 0 <= x < db.sources@.len() && db.sources@[x].id == source_id;
            assert(db@.sources[j].id == source_id);
            return true;
        }
    }
    false
}

/// Whether some record with id `record_id` belongs to a source that `user_id`
/// subscribes to.
pub fn is_record_visible(db: &Database, user_id: i32, record_id: i32) -> (res: bool)
    ensures
        res == record_visible(db@, user_id, record_id),
{
    let n = db.records.len();
    for i in 0..n
        invariant
            n == db.records.len(),
            forall|x: int|
                0 <= x < i ==> !(db.records@[x].id == record_id && source_subscribed(
                    db@,
                    db.records@[x].source_id,
                    user_id,
                )),
    {
        if db.records[i].id == record_id && is_source_subscribed(db, db.records[i].source_id, user_id) {
            return true;
        }
    }
    false
}

pub proof fn lemma_copies_per_subscription_nonempty(
    row: RecordWithMeta,
    subs: Seq<SourceUserSetting>,
    source_id: i32,
    user_id: i32,
    k: int,
)
    requires
        0 <= k < subs.len(),
        subs[k].source_id == source_id,
        subs[k].user_id == user_id,
    ensures
        copies_per_subscription(row, subs, source_id, user_id).len() > 0,
    decreases subs.len(),
{
    if k < subs.len() - 1 {
        assert(subs.drop_last()[k] == subs[k]);
        lemma_copies_per_subscription_nonempty(row, subs.drop_last(), source_id, user_id, k);
    }
}

pub proof fn lemma_copies_per_source_nonempty(
    row: RecordWithMeta,
    sources: Seq<Source>,
    subs: Seq<SourceUserSetting>,
    source_id: i32,
    user_id: i32,
    j: int,
    k: int,
)
    requires
        0 <= j < sources.len(),
        sources[j].id == source_id,
        0 <= k < subs.len(),
        subs[k].source_id == source_id,
        subs[k].user_id == user_id,
    ensures
        copies_per_source(row, sources, subs, source_id, user_id).len() > 0,
    decreases sources.len(),
{
    if j < sources.len() - 1 {
        assert(sources.drop_last()[j] == sources[j]);
        lemma_copies_per_source_nonempty(row, sources.drop_last(), subs, source_id, user_id, j, k);
    } else {
        lemma_copies_per_subscription_nonempty(row, subs, source_id, user_id, k);
    }
}

/// A record of a subscribed source yields at least one row.
pub proof fn lemma_visible_rows_nonempty(
    records: Seq<Record>,
    t: Tables,
    user_id: i32,
    source_id: Option<i32>,
    record_id: Option<i32>,
    i: int,
)
    requires
        0 <= i < records.len(),
        in_record_filter(records[i], source_id, record_id),
        source_subscribed(t, records[i].source_id, user_id),
    ensures
        visible_rows(records, t, user_id, source_id, record_id).len() > 0,
    decreases records.len(),
{
    if i < records.len() - 1 {
        assert(records.drop_last()[i] == records[i]);
        lemma_visible_rows_nonempty(records.drop_last(), t, user_id, source_id, record_id, i);
    } else {
        let r = records[i];
        let stars = star_options(t.records_user_settings, r.id);
        let j = choose|j: int| 0 <= j < t.sources.len() && t.sources[j].id == r.source_id;
        let k = choose|k: int|
            0 <= k < t.sources_user_settings.len() && t.sources_user_settings[k].source_id
                == r.source_id && t.sources_user_settings[k].user_id == user_id;
        lemma_copies_per_source_nonempty(
            with_meta(r, stars.last()),
            t.sources,
            t.sources_user_settings,
            r.source_id,
            user_id,
            j,
            k,
        );
    }
}

/// A visible record makes the one-row lookup of it non-empty.
pub proof fn lemma_visible_record_found(t: Tables, user_id: i32, record_id: i32)
    requires
        record_visible(t, user_id, record_id),
    ensures
        all_records(t, user_id, None, Some(record_id), 1, 0).len() == 1,
{
    let i = choose|i: int|
        0 <= i < t.records.len() && t.records[i].id == record_id && source_subscribed(
            t,
            t.records[i].source_id,
            user_id,
        );
    lemma_visible_rows_nonempty(t.records, t, user_id, None, Some(record_id), i);
    lemma_sort_by_date_desc(visible_rows(t.records, t, user_id, None, Some(record_id)));
}

// ---------------------------------------------------------------------------
// Changes

/// The tables after `user_id` marks `record_id` with `starred`.
pub open spec fn marked(t: Tables, user_id: i32, record_id: i32, starred: bool) -> Tables {
    Tables {
        records_user_settings: upsert_starred(t.records_user_settings, user_id, record_id, starred),
        ..t
    }
}

/// Stores `starred` as the flag of `user_id` on `record_id`, updating the
/// existing setting or adding one, and returns the record as the user's view of
/// all records shows it: the first row of that view for this id. A record
/// that no source of the user holds, and a user that the users table does not
/// hold, are outside what this accepts. The returned
/// writes bring a database equal to `db` to the same state.
pub fn mark_record(db: &mut Database, user_id: i32, record_id: i32, starred: bool) -> (res: (
    Vec<Write>,
    RecordWithMeta,
))
    requires
        record_visible(old(db)@, user_id, record_id),
        user_known(old(db)@, user_id),
    ensures
        final(db)@ == marked(old(db)@, user_id, record_id, starred),
        final(db)@ == apply_writes(old(db)@, res.0@),
        all_records(final(db)@, user_id, None, Some(record_id), 1, 0).len() == 1,
        res.1 == all_records(final(db)@, user_id, None, Some(record_id), 1, 0)[0],
{
    let ghost old_t = db@;
    let n = db.records_user_settings.len();
    let mut found = false;
    for i in 0..n
        invariant
            n == db.records_user_settings.len(),
            db@ == old_t,
            found == exists|x: int| 0 <= x < i && is_setting_of(db.records_user_settings@[x], user_id, record_id),
    {
        if db.records_user_settings[i].user_id == user_id && db.records_user_settings[i].record_id == record_id {
            found = true;
        }
    }
    let write;
    if found {
        for i in 0..n
            invariant
                n == db.records_user_settings.len(),
                n == old_t.records_user_settings.len(),
                db@ == (Tables { records_user_settings: db.records_user_settings@, ..old_t }),
                forall|k: int| 0 <= k < i ==> db.records_user_settings@[k] == restar(
                    old_t.records_user_settings[k],
                    user_id,
                    record_id,
                    starred,
                ),
                forall|k: int| i <= k < n ==> db.records_user_settings@[k] == old_t.records_user_settings[k],
        {
            if db.records_user_settings[i].user_id == user_id && db.records_user_settings[i].record_id
                == record_id {
                db.records_user_settings.set(i, RecordUserSetting { user_id, record_id, starred });
            }
        }
        assert(db.records_user_settings@ =~= set_starred(old_t.records_user_settings, user_id, record_id, starred));
        write = Write::UpdateStarred { user_id, record_id, starred };
    } else {
        db.records_user_settings.push(RecordUserSetting { user_id, record_id, starred });
        write = Write::InsertRecordSetting(RecordUserSetting { user_id, record_id, starred });
    }
    assert(db@ =~= marked(old_t, user_id, record_id, starred));
    let mut writes: Vec<Write> = Vec::new();
    writes.push(write);
    proof {
        assert(writes@ =~= seq![write]);
        lemma_apply_one(old_t, write);
        let i = choose|i: int|
            0 <= i < old_t.records.len() && old_t.records[i].id == record_id && source_subscribed(
                old_t,
                old_t.records[i].source_id,
                user_id,
            );
        let sid = old_t.records[i].source_id;
        let j = choose|j: int| 0 <= j < old_t.sources.len() && old_t.sources[j].id == sid;
        let k = choose|k: int|
            0 <= k < old_t.sources_user_settings.len() && old_t.sources_user_settings[k].source_id
                == sid && old_t.sources_user_settings[k].user_id == user_id;
        assert(db@.sources[j].id == sid);
        assert(db@.sources_user_settings[k].source_id == sid);
        assert(source_subscribed(db@, db@.records[i].source_id, user_id));
        lemma_visible_record_found(db@, user_id, record_id);
    }
    let rows = get_all_records(db, user_id, None, Some(record_id), 1, 0);
    let row = rows[0].clone();
    (writes, row)
}

/// Some record of `source_id` has the id `record_id`.
pub open spec fn record_of_source(records: Seq<Record>, record_id: i32, source_id: i32) -> bool {
    exists|i: int| 0 <= i < records.len() && records[i].id == record_id && records[i].source_id == source_id
}

/// Keeps the settings rows whose record is not one of `source_id`.
pub open spec fn outside_source(records: Seq<Record>, source_id: i32) -> spec_fn(RecordUserSetting) -> bool {
    |row: RecordUserSetting| !record_of_source(records, row.record_id, source_id)
}

/// The ids of the records of `source_id`, in table order.
pub open spec fn ids_of_source(records: Seq<Record>, source_id: i32) -> Seq<i32>
    decreases records.len(),
{
    if records.len() == 0 {
        seq![]
    } else {
        ids_of_source(records.drop_last(), source_id) + if records.last().source_id == source_id {
            seq![records.last().id]
        } else {
            seq![]
        }
    }
}

pub proof fn lemma_ids_of_source(records: Seq<Record>, source_id: i32)
    ensures
        forall|x: i32|
            #![trigger ids_of_source(records, source_id).contains(x)]
            #![trigger record_of_source(records, x, source_id)]
            ids_of_source(records, source_id).contains(x) <==> record_of_source(records, x, source_id),
    decreases records.len(),
{
    if records.len() > 0 {
        let init = records.drop_last();
        lemma_ids_of_source(init, source_id);
        let prev = ids_of_source(init, source_id);
        let full = ids_of_source(records, source_id);
        assert forall|x: i32| full.contains(x) <==> record_of_source(records, x, source_id) by {
            if full.contains(x) {
                let m = choose|m: int| 0 <= m < full.len() && full[m] == x;
                if m < prev.len() {
                    assert(full[m] == prev[m]);
                    assert(prev.contains(x));
                    assert(record_of_source(init, x, source_id));
                    let k = choose|k: int| 0 <= k < init.len() && init[k].id == x && init[k].source_id == source_id;
                    assert(records[k] == init[k]);
                } else {
                    assert(records[records.len() - 1].id == x);
                }
            }
            if record_of_source(records, x, source_id) {
                let k = choose|k: int| 0 <= k < records.len() && records[k].id == x && records[k].source_id == source_id;
                if k < records.len() - 1 {
                    assert(init[k] == records[k]);
                    assert(record_of_source(init, x, source_id));
                    let m = choose|m: int| 0 <= m < prev.len() && prev[m] == x;
                    assert(full[m] == x);
                } else {
                    assert(full[prev.len() as int] == x);
                }
            }
        }
    }
}

/// The ids of the records of `source_id`, in table order.
pub fn record_ids_of_source(records: &Vec<Record>, source_id: i32) -> (res: Vec<i32>)
    ensures
        res@ == ids_of_source(records@, source_id),
        forall|x: i32| res@.contains(x) <==> record_of_source(records@, x, source_id),
{
    let mut res: Vec<i32> = Vec::new();
    let n = records.len();
    for i in 0..n
        invariant
            n == records.len(),
            res@ == ids_of_source(records@.take(i as int), source_id),
    {
        proof {
            assert(records@.take(i + 1).drop_last() =~= records@.take(i as int));
        }
        let ghost before = res@;
        if records[i].source_id == source_id {
            res.push(records[i].id);
        } else {
            assert(res@ =~= before + Seq::<i32>::empty());
        }
    }
    assert(records@.take(n as int) =~= records@);
    proof {
        lemma_ids_of_source(records@, source_id);
    }
    res
}

fn contains_id(ids: &Vec<i32>, x: i32) -> (res: bool)
    ensures
        res == ids@.contains(x),
{
    let n = ids.len();
    for i in 0..n
        invariant
            n == ids.len(),
            forall|k: int| 0 <= k < i ==> ids@[k] != x,
    {
        if ids[i] == x {
            return true;
        }
    }
    false
}

/// The settings rows that the deletion of `record_ids` (of `of_user`) spares.
pub fn retain_spared(settings: &Vec<RecordUserSetting>, record_ids: &Vec<i32>, of_user: Option<i32>) -> (res: Vec<RecordUserSetting>)
    ensures
        res@ == settings@.filter(spared_by(record_ids@, of_user)),
{
    let mut res: Vec<RecordUserSetting> = Vec::new();
    let n = settings.len();
    for i in 0..n
        invariant
            n == settings.len(),
            res@ == settings@.take(i as int).filter(spared_by(record_ids@, of_user)),
    {
        proof {
            reveal(Seq::filter);
            assert(settings@.take(i + 1).drop_last() =~= settings@.take(i as int));
        }
        let row = &settings[i];
        let user_matches = match of_user {
            Some(u) => row.user_id == u,
            None => true,
        };
        if !(contains_id(record_ids, row.record_id) && user_matches) {
            res.push(row.clone());
        }
    }
    assert(settings@.take(n as int) =~= settings@);
    res
}

/// The tables after the stars on the records of `source_id` are removed.
pub open spec fn source_deleted(t: Tables, source_id: i32) -> Tables {
    Tables {
        records_user_settings: t.records_user_settings.filter(outside_source(t.records, source_id)),
        ..t
    }
}

/// Removes every settings row, of any user, whose record belongs to
/// `source_id`. The returned writes bring a database equal to `db` to the
/// same state.
pub fn delete_source(db: &mut Database, source_id: i32) -> (res: Vec<Write>)
    ensures
        final(db)@ == source_deleted(old(db)@, source_id),
        final(db)@ == apply_writes(old(db)@, res@),
{
    let ghost old_t = db@;
    let ids = record_ids_of_source(&db.records, source_id);
    let kept = retain_spared(&db.records_user_settings, &ids, None);
    proof {
        assert(spared_by(ids@, None) =~= outside_source(old_t.records, source_id));
    }
    db.records_user_settings = kept;
    assert(db@ =~= source_deleted(old_t, source_id));
    let write = Write::DeleteRecordSettings { record_ids: ids, of_user: None };
    let mut writes: Vec<Write> = Vec::new();
    writes.push(write);
    proof {
        assert(writes@ =~= seq![write]);
        lemma_apply_one(old_t, write);
    }
    writes
}

} // verus!
