//! Properties of the queries that span calls or hold of every state.
use vstd::prelude::*;

use crate::db::models::{with_meta, Record, RecordUserSetting, RecordWithMeta, SourceUserSetting, Source, Tables};
use crate::db::order::{lemma_sort_by_date_desc, paginate, sort_by_date_desc};
use crate::db::queries::{
    all_records, copies_per_source, copies_per_subscription, in_record_filter, in_source_filter,
    is_starred_by, lemma_visible_record_found, marked, outside_source, record_of_source,
    record_visible, rows_of_record, source_deleted, source_subscribed, star_options, star_values,
    starred_records, starred_rows, starred_rows_of, visible_rows,
};
use crate::db::queries::sources::{
    outside_user_source, source_per_subscription, subscribed, subscribed_sources, unsubscribed,
};
use crate::server::handlers::records::{records_listing, GetFilteredRecordsRequest, RecordsQuery};
use crate::db::writes::{
    has_setting, is_setting_of, other_subscriptions, setting, settings_unique,
    upsert_starred,
};

verus! {

/// Every row that paging a sorted sequence keeps comes from the sequence.
pub proof fn lemma_paged_rows_come_from(s: Seq<RecordWithMeta>, limit: int, offset: int, j: int)
    requires
        limit >= 0,
        offset >= 0,
        0 <= j < paginate(sort_by_date_desc(s), limit, offset).len(),
    ensures
        s.contains(paginate(sort_by_date_desc(s), limit, offset)[j]),
{
    broadcast use vstd::seq_lib::group_to_multiset_ensures;

    let sorted = sort_by_date_desc(s);
    lemma_sort_by_date_desc(s);
    let start = if offset < sorted.len() { offset } else { sorted.len() as int };
    let x = sorted[start + j];
    assert(paginate(sorted, limit, offset)[j] == x);
    assert(sorted.contains(x));
    assert(sorted.to_multiset().count(x) > 0);
    assert(s.to_multiset().count(x) > 0);
}

/// Every copy is the row, and a copy exists only for a matching subscription.
pub proof fn lemma_copies_per_subscription_rows(
    row: RecordWithMeta,
    subs: Seq<SourceUserSetting>,
    source_id: i32,
    user_id: i32,
)
    ensures
        forall|j: int|
            0 <= j < copies_per_subscription(row, subs, source_id, user_id).len() ==> #[trigger] copies_per_subscription(
                row,
                subs,
                source_id,
                user_id,
            )[j] == row,
        copies_per_subscription(row, subs, source_id, user_id).len() > 0 ==> exists|k: int|
            0 <= k < subs.len() && subs[k].source_id == source_id && subs[k].user_id == user_id,
    decreases subs.len(),
{
    if subs.len() > 0 {
        let init = subs.drop_last();
        lemma_copies_per_subscription_rows(row, init, source_id, user_id);
        let prev = copies_per_subscription(row, init, source_id, user_id);
        let full = copies_per_subscription(row, subs, source_id, user_id);
        assert forall|j: int| 0 <= j < full.len() implies #[trigger] full[j] == row by {
            if j < prev.len() {
                assert(full[j] == prev[j]);
            }
        }
        if full.len() > 0 {
            if prev.len() > 0 {
                let k = choose|k: int|
                    0 <= k < init.len() && init[k].source_id == source_id && init[k].user_id == user_id;
                assert(subs[k] == init[k]);
            } else {
                assert(subs[subs.len() - 1].source_id == source_id);
            }
        }
    }
}

/// Every copy is the row, and a copy exists only for a known, subscribed source.
pub proof fn lemma_copies_per_source_rows(
    row: RecordWithMeta,
    sources: Seq<Source>,
    subs: Seq<SourceUserSetting>,
    source_id: i32,
    user_id: i32,
)
    ensures
        forall|j: int|
            0 <= j < copies_per_source(row, sources, subs, source_id, user_id).len() ==> #[trigger] copies_per_source(
                row,
                sources,
                subs,
                source_id,
                user_id,
            )[j] == row,
        copies_per_source(row, sources, subs, source_id, user_id).len() > 0 ==> {
            &&& exists|j: int| 0 <= j < sources.len() && sources[j].id == source_id
            &&& exists|k: int|
                0 <= k < subs.len() && subs[k].source_id == source_id && subs[k].user_id == user_id
        },
    decreases sources.len(),
{
    lemma_copies_per_subscription_rows(row, subs, source_id, user_id);
    if sources.len() > 0 {
        let init = sources.drop_last();
        lemma_copies_per_source_rows(row, init, subs, source_id, user_id);
        let prev = copies_per_source(row, init, subs, source_id, user_id);
        let full = copies_per_source(row, sources, subs, source_id, user_id);
        let last = if sources.last().id == source_id {
            copies_per_subscription(row, subs, source_id, user_id)
        } else {
            Seq::<RecordWithMeta>::empty()
        };
        assert(full == prev + last);
        assert forall|j: int| 0 <= j < full.len() implies #[trigger] full[j] == row by {
            if j < prev.len() {
                assert(full[j] == prev[j]);
            } else {
                assert(full[j] == last[j - prev.len()]);
            }
        }
        if full.len() > 0 {
            if prev.len() > 0 {
                let j = choose|j: int| 0 <= j < init.len() && init[j].id == source_id;
                assert(sources[j] == init[j]);
            } else {
                assert(sources[sources.len() - 1].id == source_id);
            }
        }
    }
}

/// Every row of a record is the record joined with one of its flags, and the
/// record's source is subscribed.
pub proof fn lemma_rows_of_record(r: Record, stars: Seq<Option<bool>>, t: Tables, user_id: i32)
    ensures
        forall|j: int|
            0 <= j < rows_of_record(r, stars, t, user_id).len() ==> exists|k: int|
                0 <= k < stars.len() && #[trigger] rows_of_record(r, stars, t, user_id)[j] == with_meta(
                    r,
                    stars[k],
                ),
        rows_of_record(r, stars, t, user_id).len() > 0 ==> source_subscribed(t, r.source_id, user_id),
    decreases stars.len(),
{
    if stars.len() > 0 {
        let init = stars.drop_last();
        lemma_rows_of_record(r, init, t, user_id);
        let prev = rows_of_record(r, init, t, user_id);
        let row = with_meta(r, stars.last());
        let last = copies_per_source(row, t.sources, t.sources_user_settings, r.source_id, user_id);
        lemma_copies_per_source_rows(row, t.sources, t.sources_user_settings, r.source_id, user_id);
        let full = rows_of_record(r, stars, t, user_id);
        assert(full == prev + last);
        assert forall|j: int| 0 <= j < full.len() implies exists|k: int|
            0 <= k < stars.len() && #[trigger] full[j] == with_meta(r, stars[k]) by {
            if j < prev.len() {
                assert(full[j] == prev[j]);
                let k = choose|k: int| 0 <= k < init.len() && prev[j] == with_meta(r, init[k]);
                assert(stars[k] == init[k]);
            } else {
                assert(full[j] == last[j - prev.len()]);
                assert(full[j] == with_meta(r, stars[stars.len() - 1]));
            }
        }
    }
}

/// Every row that the join yields is a filtered record of a subscribed source
/// joined with one of its flags.
pub proof fn lemma_visible_rows(
    records: Seq<Record>,
    t: Tables,
    user_id: i32,
    source_id: Option<i32>,
    record_id: Option<i32>,
)
    ensures
        forall|j: int|
            0 <= j < visible_rows(records, t, user_id, source_id, record_id).len() ==> exists|i: int, k: int|
                0 <= i < records.len() && in_record_filter(records[i], source_id, record_id)
                    && source_subscribed(t, records[i].source_id, user_id) && 0 <= k < star_options(
                    t.records_user_settings,
                    records[i].id,
                ).len() && #[trigger] visible_rows(records, t, user_id, source_id, record_id)[j]
                    == with_meta(records[i], star_options(t.records_user_settings, records[i].id)[k]),
    decreases records.len(),
{
    if records.len() > 0 {
        let init = records.drop_last();
        lemma_visible_rows(init, t, user_id, source_id, record_id);
        let prev = visible_rows(init, t, user_id, source_id, record_id);
        let r = records.last();
        let stars = star_options(t.records_user_settings, r.id);
        let last = if in_record_filter(r, source_id, record_id) {
            rows_of_record(r, stars, t, user_id)
        } else {
            Seq::<RecordWithMeta>::empty()
        };
        lemma_rows_of_record(r, stars, t, user_id);
        let full = visible_rows(records, t, user_id, source_id, record_id);
        assert(full == prev + last);
        assert forall|j: int| 0 <= j < full.len() implies exists|i: int, k: int|
            0 <= i < records.len() && in_record_filter(records[i], source_id, record_id)
                && source_subscribed(t, records[i].source_id, user_id) && 0 <= k < star_options(
                t.records_user_settings,
                records[i].id,
            ).len() && #[trigger] full[j] == with_meta(
                records[i],
                star_options(t.records_user_settings, records[i].id)[k],
            ) by {
            if j < prev.len() {
                assert(full[j] == prev[j]);
                let (i, k) = choose|i: int, k: int|
                    0 <= i < init.len() && in_record_filter(init[i], source_id, record_id)
                        && source_subscribed(t, init[i].source_id, user_id) && 0 <= k < star_options(
                        t.records_user_settings,
                        init[i].id,
                    ).len() && prev[j] == with_meta(
                        init[i],
                        star_options(t.records_user_settings, init[i].id)[k],
                    );
                assert(records[i] == init[i]);
            } else {
                assert(full[j] == last[j - prev.len()]);
                let k = choose|k: int| 0 <= k < stars.len() && last[j - prev.len()] == with_meta(r, stars[k]);
                assert(records[records.len() - 1] == r);
            }
        }
    }
}

/// Every flag that the join gives a record comes from a settings row of it.
pub proof fn lemma_star_values(settings: Seq<RecordUserSetting>, record_id: i32)
    ensures
        forall|j: int|
            0 <= j < star_values(settings, record_id).len() ==> exists|m: int|
                0 <= m < settings.len() && settings[m].record_id == record_id && #[trigger] star_values(
                    settings,
                    record_id,
                )[j] == Some(settings[m].starred),
        (exists|m: int| 0 <= m < settings.len() && settings[m].record_id == record_id) ==> star_values(
            settings,
            record_id,
        ).len() > 0,
    decreases settings.len(),
{
    if settings.len() > 0 {
        let init = settings.drop_last();
        lemma_star_values(init, record_id);
        let prev = star_values(init, record_id);
        let full = star_values(settings, record_id);
        assert forall|j: int| 0 <= j < full.len() implies exists|m: int|
            0 <= m < settings.len() && settings[m].record_id == record_id && #[trigger] full[j] == Some(
                settings[m].starred,
            ) by {
            if j < prev.len() {
                assert(full[j] == prev[j]);
                let m = choose|m: int|
                    0 <= m < init.len() && init[m].record_id == record_id && prev[j] == Some(init[m].starred);
                assert(settings[m] == init[m]);
            } else {
                assert(full[j] == Some(settings[settings.len() - 1].starred));
            }
        }
        if exists|m: int| 0 <= m < settings.len() && settings[m].record_id == record_id {
            let m = choose|m: int| 0 <= m < settings.len() && settings[m].record_id == record_id;
            if m < settings.len() - 1 {
                assert(init[m] == settings[m]);
            }
        }
    }
}

/// Every starred row of a record comes from a setting of the user that stars it.
pub proof fn lemma_starred_rows_of(r: Record, settings: Seq<RecordUserSetting>, user_id: i32)
    ensures
        forall|j: int|
            0 <= j < starred_rows_of(r, settings, user_id).len() ==> exists|m: int|
                0 <= m < settings.len() && is_starred_by(settings[m], r, user_id)
                    && #[trigger] starred_rows_of(r, settings, user_id)[j] == with_meta(r, Some(true)),
    decreases settings.len(),
{
    if settings.len() > 0 {
        let init = settings.drop_last();
        lemma_starred_rows_of(r, init, user_id);
        let prev = starred_rows_of(r, init, user_id);
        let full = starred_rows_of(r, settings, user_id);
        assert forall|j: int| 0 <= j < full.len() implies exists|m: int|
            0 <= m < settings.len() && is_starred_by(settings[m], r, user_id) && #[trigger] full[j]
                == with_meta(r, Some(true)) by {
            if j < prev.len() {
                assert(full[j] == prev[j]);
                let m = choose|m: int|
                    0 <= m < init.len() && is_starred_by(init[m], r, user_id) && prev[j] == with_meta(r, Some(true));
                assert(settings[m] == init[m]);
            } else {
                assert(is_starred_by(settings[settings.len() - 1], r, user_id));
            }
        }
    }
}

/// Every starred row is a filtered record that a setting of the user stars.
pub proof fn lemma_starred_rows(
    records: Seq<Record>,
    settings: Seq<RecordUserSetting>,
    user_id: i32,
    source_id: Option<i32>,
)
    ensures
        forall|j: int|
            0 <= j < starred_rows(records, settings, user_id, source_id).len() ==> exists|i: int, m: int|
                0 <= i < records.len() && in_source_filter(records[i], source_id) && 0 <= m < settings.len()
                    && is_starred_by(settings[m], records[i], user_id) && #[trigger] starred_rows(
                    records,
                    settings,
                    user_id,
                    source_id,
                )[j] == with_meta(records[i], Some(true)),
    decreases records.len(),
{
    if records.len() > 0 {
        let init = records.drop_last();
        lemma_starred_rows(init, settings, user_id, source_id);
        let r = records.last();
        lemma_starred_rows_of(r, settings, user_id);
        let prev = starred_rows(init, settings, user_id, source_id);
        let last = if in_source_filter(r, source_id) {
            starred_rows_of(r, settings, user_id)
        } else {
            Seq::<RecordWithMeta>::empty()
        };
        let full = starred_rows(records, settings, user_id, source_id);
        assert(full == prev + last);
        assert forall|j: int| 0 <= j < full.len() implies exists|i: int, m: int|
            0 <= i < records.len() && in_source_filter(records[i], source_id) && 0 <= m < settings.len()
                && is_starred_by(settings[m], records[i], user_id) && #[trigger] full[j] == with_meta(
                records[i],
                Some(true),
            ) by {
            if j < prev.len() {
                assert(full[j] == prev[j]);
                let (i, m) = choose|i: int, m: int|
                    0 <= i < init.len() && in_source_filter(init[i], source_id) && 0 <= m < settings.len()
                        && is_starred_by(settings[m], init[i], user_id) && prev[j] == with_meta(
                        init[i],
                        Some(true),
                    );
                assert(records[i] == init[i]);
            } else {
                assert(full[j] == last[j - prev.len()]);
                assert(records[records.len() - 1] == r);
            }
        }
    }
}

/// The listing of all records shows only records of sources that the user
/// subscribes to, and only records that pass the requested source and id
/// filters.
pub proof fn law_listing_shows_subscribed_sources(
    t: Tables,
    user_id: i32,
    source_id: Option<i32>,
    record_id: Option<i32>,
    limit: int,
    offset: int,
)
    requires
        limit >= 0,
        offset >= 0,
    ensures
        forall|j: int|
            0 <= j < all_records(t, user_id, source_id, record_id, limit, offset).len() ==> {
                let x = #[trigger] all_records(t, user_id, source_id, record_id, limit, offset)[j];
                &&& source_subscribed(t, x.source_id, user_id)
                &&& source_id matches Some(s) ==> x.source_id == s
                &&& record_id matches Some(r) ==> x.id == r
                &&& exists|i: int| 0 <= i < t.records.len() && t.records[i].id == x.id
                    && t.records[i].source_id == x.source_id
            },
{
    let rows = visible_rows(t.records, t, user_id, source_id, record_id);
    lemma_visible_rows(t.records, t, user_id, source_id, record_id);
    assert forall|j: int| 0 <= j < all_records(t, user_id, source_id, record_id, limit, offset).len() implies {
        let x = #[trigger] all_records(t, user_id, source_id, record_id, limit, offset)[j];
        &&& source_subscribed(t, x.source_id, user_id)
        &&& source_id matches Some(s) ==> x.source_id == s
        &&& record_id matches Some(r) ==> x.id == r
        &&& exists|i: int| 0 <= i < t.records.len() && t.records[i].id == x.id
            && t.records[i].source_id == x.source_id
    } by {
        lemma_paged_rows_come_from(rows, limit, offset, j);
        let x = all_records(t, user_id, source_id, record_id, limit, offset)[j];
        let n = choose|n: int| 0 <= n < rows.len() && rows[n] == x;
        let (i, k) = choose|i: int, k: int|
            0 <= i < t.records.len() && in_record_filter(t.records[i], source_id, record_id)
                && source_subscribed(t, t.records[i].source_id, user_id) && 0 <= k < star_options(
                t.records_user_settings,
                t.records[i].id,
            ).len() && rows[n] == with_meta(t.records[i], star_options(t.records_user_settings, t.records[i].id)[k]);
    }
}

/// The listing of starred records shows only records that the user starred,
/// each flagged `Some(true)`, and only of the requested source.
pub proof fn law_starred_listing_shows_own_stars(
    t: Tables,
    user_id: i32,
    source_id: Option<i32>,
    limit: int,
    offset: int,
)
    requires
        limit >= 0,
        offset >= 0,
    ensures
        forall|j: int|
            0 <= j < starred_records(t, user_id, source_id, limit, offset).len() ==> {
                let x = #[trigger] starred_records(t, user_id, source_id, limit, offset)[j];
                &&& x.starred == Some(true)
                &&& exists|i: int, m: int|
                    0 <= i < t.records.len() && in_source_filter(t.records[i], source_id) && 0 <= m
                        < t.records_user_settings.len() && is_starred_by(
                        t.records_user_settings[m],
                        t.records[i],
                        user_id,
                    ) && x == with_meta(t.records[i], Some(true))
            },
{
    let rows = starred_rows(t.records, t.records_user_settings, user_id, source_id);
    lemma_starred_rows(t.records, t.records_user_settings, user_id, source_id);
    assert forall|j: int| 0 <= j < starred_records(t, user_id, source_id, limit, offset).len() implies {
        let x = #[trigger] starred_records(t, user_id, source_id, limit, offset)[j];
        &&& x.starred == Some(true)
        &&& exists|i: int, m: int|
            0 <= i < t.records.len() && in_source_filter(t.records[i], source_id) && 0 <= m
                < t.records_user_settings.len() && is_starred_by(
                t.records_user_settings[m],
                t.records[i],
                user_id,
            ) && x == with_meta(t.records[i], Some(true))
    } by {
        lemma_paged_rows_come_from(rows, limit, offset, j);
        let x = starred_records(t, user_id, source_id, limit, offset)[j];
        let n = choose|n: int| 0 <= n < rows.len() && rows[n] == x;
        assert(rows[n] == x);
    }
}

/// After marking, the user's setting for the record exists and every row of
/// that user and record holds the new flag.
pub proof fn law_marking_stores_flag(settings: Seq<RecordUserSetting>, user_id: i32, record_id: i32, starred: bool)
    ensures
        has_setting(upsert_starred(settings, user_id, record_id, starred), user_id, record_id),
        forall|m: int|
            0 <= m < upsert_starred(settings, user_id, record_id, starred).len() && is_setting_of(
                #[trigger] upsert_starred(settings, user_id, record_id, starred)[m],
                user_id,
                record_id,
            ) ==> upsert_starred(settings, user_id, record_id, starred)[m].starred == starred,
{
    let after = upsert_starred(settings, user_id, record_id, starred);
    if has_setting(settings, user_id, record_id) {
        let i = choose|i: int| 0 <= i < settings.len() && is_setting_of(settings[i], user_id, record_id);
        assert(is_setting_of(after[i], user_id, record_id));
    } else {
        assert(is_setting_of(after[settings.len() as int], user_id, record_id));
    }
}

/// Marking leaves every other user's and every other record's setting as it was.
pub proof fn law_marking_leaves_other_settings(
    settings: Seq<RecordUserSetting>,
    user_id: i32,
    record_id: i32,
    starred: bool,
)
    ensures
        upsert_starred(settings, user_id, record_id, starred).len() >= settings.len(),
        forall|m: int|
            0 <= m < settings.len() && !is_setting_of(#[trigger] settings[m], user_id, record_id)
                ==> upsert_starred(settings, user_id, record_id, starred)[m] == settings[m],
{
}

/// Marking keeps each user's setting for a record unique.
pub proof fn law_marking_keeps_settings_unique(
    settings: Seq<RecordUserSetting>,
    user_id: i32,
    record_id: i32,
    starred: bool,
)
    requires
        settings_unique(settings),
    ensures
        settings_unique(upsert_starred(settings, user_id, record_id, starred)),
{
    let after = upsert_starred(settings, user_id, record_id, starred);
    if has_setting(settings, user_id, record_id) {
        assert forall|i: int, j: int|
            0 <= i < after.len() && 0 <= j < after.len() && i != j implies !is_setting_of(
            after[j],
            after[i].user_id,
            after[i].record_id,
        ) by {
            assert(after[i].user_id == settings[i].user_id && after[i].record_id == settings[i].record_id);
            assert(after[j].user_id == settings[j].user_id && after[j].record_id == settings[j].record_id);
        }
    } else {
        assert forall|i: int, j: int|
            0 <= i < after.len() && 0 <= j < after.len() && i != j implies !is_setting_of(
            after[j],
            after[i].user_id,
            after[i].record_id,
        ) by {
            if i == settings.len() {
                assert(after[j] == settings[j]);
            } else if j == settings.len() {
                assert(after[i] == settings[i]);
            }
        }
    }
}

/// Marking a record twice leaves what marking it once with the second flag
/// leaves: the last mark wins.
pub proof fn law_marking_last_mark_wins(
    settings: Seq<RecordUserSetting>,
    user_id: i32,
    record_id: i32,
    first: bool,
    second: bool,
)
    ensures
        upsert_starred(upsert_starred(settings, user_id, record_id, first), user_id, record_id, second)
            == upsert_starred(settings, user_id, record_id, second),
{
    let once = upsert_starred(settings, user_id, record_id, first);
    law_marking_stores_flag(settings, user_id, record_id, first);
    let twice = upsert_starred(once, user_id, record_id, second);
    let direct = upsert_starred(settings, user_id, record_id, second);
    if has_setting(settings, user_id, record_id) {
        assert(twice =~= direct);
    } else {
        assert forall|m: int| 0 <= m < settings.len() implies !is_setting_of(#[trigger] settings[m], user_id, record_id) by {
        }
        assert(twice =~= direct);
    }
}

/// Every settings row of `record_id` after marking belongs to `user_id` and
/// holds the new flag, where before only `user_id` had settings on it.
proof fn lemma_marked_record_settings(settings: Seq<RecordUserSetting>, user_id: i32, record_id: i32, starred: bool)
    requires
        forall|m: int| 0 <= m < settings.len() && settings[m].record_id == record_id ==> settings[m].user_id == user_id,
    ensures
        forall|m: int|
            0 <= m < upsert_starred(settings, user_id, record_id, starred).len() && (#[trigger] upsert_starred(
                settings,
                user_id,
                record_id,
                starred,
            )[m]).record_id == record_id ==> upsert_starred(settings, user_id, record_id, starred)[m]
                == setting(user_id, record_id, starred),
        exists|m: int|
            0 <= m < upsert_starred(settings, user_id, record_id, starred).len() && upsert_starred(
                settings,
                user_id,
                record_id,
                starred,
            )[m].record_id == record_id,
{
    let after = upsert_starred(settings, user_id, record_id, starred);
    law_marking_stores_flag(settings, user_id, record_id, starred);
    let i = choose|i: int| 0 <= i < after.len() && is_setting_of(after[i], user_id, record_id);
    assert(after[i].record_id == record_id);
    if !has_setting(settings, user_id, record_id) {
        assert forall|m: int| 0 <= m < after.len() && (#[trigger] after[m]).record_id == record_id implies after[m]
            == setting(user_id, record_id, starred) by {
            if m < settings.len() {
                assert(after[m] == settings[m]);
                assert(is_setting_of(settings[m], user_id, record_id));
            }
        }
    }
}

/// What a mark writes, the record then reads back: where no other user has a
/// setting on the record, the row that marking returns is that record with the
/// flag just stored.
pub proof fn law_marked_record_reads_back(t: Tables, user_id: i32, record_id: i32, starred: bool)
    requires
        record_visible(t, user_id, record_id),
        forall|m: int|
            0 <= m < t.records_user_settings.len() && t.records_user_settings[m].record_id == record_id
                ==> t.records_user_settings[m].user_id == user_id,
    ensures
        all_records(marked(t, user_id, record_id, starred), user_id, None, Some(record_id), 1, 0).len() == 1,
        all_records(marked(t, user_id, record_id, starred), user_id, None, Some(record_id), 1, 0)[0].id
            == record_id,
        all_records(marked(t, user_id, record_id, starred), user_id, None, Some(record_id), 1, 0)[0].starred
            == Some(starred),
{
    let t2 = marked(t, user_id, record_id, starred);
    let i = choose|i: int|
        0 <= i < t.records.len() && t.records[i].id == record_id && source_subscribed(
            t,
            t.records[i].source_id,
            user_id,
        );
    assert(t2.records == t.records && t2.sources == t.sources && t2.sources_user_settings == t.sources_user_settings);
    assert(source_subscribed(t2, t2.records[i].source_id, user_id));
    lemma_visible_record_found(t2, user_id, record_id);
    law_listing_shows_subscribed_sources(t2, user_id, None, Some(record_id), 1, 0);
    let rows = visible_rows(t2.records, t2, user_id, None, Some(record_id));
    lemma_visible_rows(t2.records, t2, user_id, None, Some(record_id));
    lemma_paged_rows_come_from(rows, 1, 0, 0);
    let x = all_records(t2, user_id, None, Some(record_id), 1, 0)[0];
    let n = choose|n: int| 0 <= n < rows.len() && rows[n] == x;
    let (ri, k) = choose|ri: int, k: int|
        0 <= ri < t2.records.len() && in_record_filter(t2.records[ri], None, Some(record_id))
            && source_subscribed(t2, t2.records[ri].source_id, user_id) && 0 <= k < star_options(
            t2.records_user_settings,
            t2.records[ri].id,
        ).len() && rows[n] == with_meta(t2.records[ri], star_options(t2.records_user_settings, t2.records[ri].id)[k]);
    lemma_marked_record_settings(t.records_user_settings, user_id, record_id, starred);
    lemma_star_values(t2.records_user_settings, record_id);
    let sv = star_values(t2.records_user_settings, record_id);
    assert(sv.len() > 0);
    assert(star_options(t2.records_user_settings, record_id) == sv);
    let m = choose|m: int|
        0 <= m < t2.records_user_settings.len() && t2.records_user_settings[m].record_id == record_id
            && sv[k] == Some(t2.records_user_settings[m].starred);
    assert(t2.records_user_settings[m] == setting(user_id, record_id, starred));
}

/// After a user unsubscribes from a source, neither of the user's listings
/// shows a record of that source.
pub proof fn law_unsubscribed_source_is_hidden(
    t: Tables,
    source_id: i32,
    user_id: i32,
    record_id: Option<i32>,
    limit: int,
    offset: int,
)
    requires
        limit >= 0,
        offset >= 0,
    ensures
        all_records(unsubscribed(t, source_id, user_id), user_id, Some(source_id), record_id, limit, offset).len() == 0,
        starred_records(unsubscribed(t, source_id, user_id), user_id, Some(source_id), limit, offset).len() == 0,
{
    broadcast use vstd::seq_lib::group_filter_ensures;

    let t2 = unsubscribed(t, source_id, user_id);
    law_listing_shows_subscribed_sources(t2, user_id, Some(source_id), record_id, limit, offset);
    if all_records(t2, user_id, Some(source_id), record_id, limit, offset).len() > 0 {
        let x = all_records(t2, user_id, Some(source_id), record_id, limit, offset)[0];
        assert(source_subscribed(t2, x.source_id, user_id));
        let k = choose|k: int|
            0 <= k < t2.sources_user_settings.len() && t2.sources_user_settings[k].source_id == source_id
                && t2.sources_user_settings[k].user_id == user_id;
        assert(other_subscriptions(source_id, user_id)(t2.sources_user_settings[k]));
    }
    law_starred_listing_shows_own_stars(t2, user_id, Some(source_id), limit, offset);
    if starred_records(t2, user_id, Some(source_id), limit, offset).len() > 0 {
        let x = starred_records(t2, user_id, Some(source_id), limit, offset)[0];
        let (i, m) = choose|i: int, m: int|
            0 <= i < t2.records.len() && in_source_filter(t2.records[i], Some(source_id)) && 0 <= m
                < t2.records_user_settings.len() && is_starred_by(
                t2.records_user_settings[m],
                t2.records[i],
                user_id,
            ) && x == with_meta(t2.records[i], Some(true));
        let row = t2.records_user_settings[m];
        assert(outside_user_source(t.records, source_id, user_id)(row));
        assert(record_of_source(t.records, row.record_id, source_id));
    }
}

/// Subscribing and then unsubscribing leaves what unsubscribing alone leaves.
pub proof fn law_unsubscribe_undoes_subscribe(t: Tables, source_id: i32, user_id: i32)
    ensures
        unsubscribed(subscribed(t, source_id, user_id), source_id, user_id) == unsubscribed(t, source_id, user_id),
{
    let subs = t.sources_user_settings;
    let added = subs.push(SourceUserSetting { user_id, source_id });
    reveal(Seq::filter);
    assert(added.drop_last() =~= subs);
    assert(added.filter(other_subscriptions(source_id, user_id)) == subs.filter(other_subscriptions(source_id, user_id)));
}

/// After a user subscribes to a known source, every record of that source is
/// visible to the user, so the user can look it up and mark it.
pub proof fn law_subscribing_shows_source_records(t: Tables, source_id: i32, user_id: i32, i: int)
    requires
        0 <= i < t.records.len(),
        t.records[i].source_id == source_id,
        exists|j: int| 0 <= j < t.sources.len() && t.sources[j].id == source_id,
    ensures
        record_visible(subscribed(t, source_id, user_id), user_id, t.records[i].id),
        all_records(subscribed(t, source_id, user_id), user_id, None, Some(t.records[i].id), 1, 0).len() == 1,
{
    let t2 = subscribed(t, source_id, user_id);
    let n = t.sources_user_settings.len() as int;
    assert(t2.sources_user_settings[n].source_id == source_id && t2.sources_user_settings[n].user_id == user_id);
    let j = choose|j: int| 0 <= j < t.sources.len() && t.sources[j].id == source_id;
    assert(t2.sources[j].id == source_id);
    assert(source_subscribed(t2, t2.records[i].source_id, user_id));
    lemma_visible_record_found(t2, user_id, t.records[i].id);
}

/// After a source is deleted, no user's starred listing shows a record of it.
pub proof fn law_deleted_source_has_no_stars(t: Tables, source_id: i32, user_id: i32, limit: int, offset: int)
    requires
        limit >= 0,
        offset >= 0,
    ensures
        starred_records(source_deleted(t, source_id), user_id, Some(source_id), limit, offset).len() == 0,
{
    broadcast use vstd::seq_lib::group_filter_ensures;

    let t2 = source_deleted(t, source_id);
    law_starred_listing_shows_own_stars(t2, user_id, Some(source_id), limit, offset);
    if starred_records(t2, user_id, Some(source_id), limit, offset).len() > 0 {
        let x = starred_records(t2, user_id, Some(source_id), limit, offset)[0];
        let (i, m) = choose|i: int, m: int|
            0 <= i < t2.records.len() && in_source_filter(t2.records[i], Some(source_id)) && 0 <= m
                < t2.records_user_settings.len() && is_starred_by(
                t2.records_user_settings[m],
                t2.records[i],
                user_id,
            ) && x == with_meta(t2.records[i], Some(true));
        let row = t2.records_user_settings[m];
        assert(outside_source(t.records, source_id)(row));
        assert(record_of_source(t.records, row.record_id, source_id));
    }
}

/// Removing settings rows keeps each user's setting for a record unique.
pub proof fn lemma_filter_keeps_settings_unique(settings: Seq<RecordUserSetting>, keep: spec_fn(RecordUserSetting) -> bool)
    requires
        settings_unique(settings),
    ensures
        settings_unique(settings.filter(keep)),
    decreases settings.len(),
{
    reveal(Seq::filter);
    if settings.len() > 0 {
        let init = settings.drop_last();
        assert(settings_unique(init)) by {
            assert forall|i: int, j: int|
                0 <= i < init.len() && 0 <= j < init.len() && i != j implies !is_setting_of(
                init[j],
                init[i].user_id,
                init[i].record_id,
            ) by {
                assert(init[i] == settings[i] && init[j] == settings[j]);
            }
        }
        lemma_filter_keeps_settings_unique(init, keep);
        let prev = init.filter(keep);
        if keep(settings.last()) {
            let full = prev.push(settings.last());
            let last = settings.last();
            assert forall|i: int, j: int|
                0 <= i < full.len() && 0 <= j < full.len() && i != j implies !is_setting_of(
                full[j],
                full[i].user_id,
                full[i].record_id,
            ) by {
                if i < prev.len() && j < prev.len() {
                    assert(full[i] == prev[i] && full[j] == prev[j]);
                } else {
                    let other = if i < prev.len() { i } else { j };
                    assert(full[other] == prev[other]);
                    init.lemma_filter_contains_rev(keep, prev[other]);
                    assert(prev.contains(prev[other]));
                    let k = choose|k: int| 0 <= k < init.len() && init[k] == prev[other];
                    assert(settings[k] == init[k]);
                    assert(settings[settings.len() - 1] == last);
                }
            }
        }
    }
}

/// Every change keeps each user's setting for a record unique: marking,
/// deleting a source, unsubscribing and subscribing.
pub proof fn law_changes_keep_settings_unique(
    t: Tables,
    user_id: i32,
    record_id: i32,
    starred: bool,
    source_id: i32,
)
    requires
        settings_unique(t.records_user_settings),
    ensures
        settings_unique(marked(t, user_id, record_id, starred).records_user_settings),
        settings_unique(source_deleted(t, source_id).records_user_settings),
        settings_unique(unsubscribed(t, source_id, user_id).records_user_settings),
        settings_unique(subscribed(t, source_id, user_id).records_user_settings),
{
    law_marking_keeps_settings_unique(t.records_user_settings, user_id, record_id, starred);
    lemma_filter_keeps_settings_unique(t.records_user_settings, outside_source(t.records, source_id));
    lemma_filter_keeps_settings_unique(
        t.records_user_settings,
        outside_user_source(t.records, source_id, user_id),
    );
}

/// Two consecutive pages make up the page of their combined size.
pub proof fn lemma_pages_concatenate<T>(s: Seq<T>, a: int, b: int, o: int)
    requires
        a >= 0,
        b >= 0,
        o >= 0,
    ensures
        paginate(s, a, o) + paginate(s, b, o + a) == paginate(s, a + b, o),
{
    let len = s.len() as int;
    let st = if o < len { o } else { len };
    let e1 = if a < len - st { st + a } else { len };
    let st2 = if o + a < len { o + a } else { len };
    let e2 = if b < len - st2 { st2 + b } else { len };
    let e = if a + b < len - st { st + a + b } else { len };
    assert(e1 == st2);
    assert(e2 == e);
    assert(s.subrange(st, e1) + s.subrange(e1, e2) =~= s.subrange(st, e));
}

/// Paging is consistent: the page of `a` rows at `offset` followed by the
/// page of `b` rows right after it is the page of `a + b` rows at `offset`,
/// for both listings.
pub proof fn law_pages_concatenate(
    t: Tables,
    user_id: i32,
    source_id: Option<i32>,
    record_id: Option<i32>,
    a: int,
    b: int,
    offset: int,
)
    requires
        a >= 0,
        b >= 0,
        offset >= 0,
    ensures
        all_records(t, user_id, source_id, record_id, a, offset) + all_records(
            t,
            user_id,
            source_id,
            record_id,
            b,
            offset + a,
        ) == all_records(t, user_id, source_id, record_id, a + b, offset),
        starred_records(t, user_id, source_id, a, offset) + starred_records(t, user_id, source_id, b, offset + a)
            == starred_records(t, user_id, source_id, a + b, offset),
{
    lemma_pages_concatenate(
        sort_by_date_desc(visible_rows(t.records, t, user_id, source_id, record_id)),
        a,
        b,
        offset,
    );
    lemma_pages_concatenate(
        sort_by_date_desc(starred_rows(t.records, t.records_user_settings, user_id, source_id)),
        a,
        b,
        offset,
    );
}

/// A page of at least as many rows as the sequence holds is the whole sequence.
pub proof fn lemma_full_page<T>(s: Seq<T>, n: int)
    requires
        n >= s.len(),
    ensures
        paginate(s, n, 0) == s,
{
    assert(paginate(s, n, 0) =~= s);
}

/// A record yields at most one starred row for a user whose settings are unique.
pub proof fn lemma_starred_rows_of_at_most_one(r: Record, settings: Seq<RecordUserSetting>, user_id: i32)
    requires
        settings_unique(settings),
    ensures
        starred_rows_of(r, settings, user_id).len() <= 1,
    decreases settings.len(),
{
    if settings.len() > 0 {
        let init = settings.drop_last();
        assert(settings_unique(init)) by {
            assert forall|i: int, j: int|
                0 <= i < init.len() && 0 <= j < init.len() && i != j implies !is_setting_of(
                init[j],
                init[i].user_id,
                init[i].record_id,
            ) by {
                assert(init[i] == settings[i] && init[j] == settings[j]);
            }
        }
        lemma_starred_rows_of_at_most_one(r, init, user_id);
        lemma_starred_rows_of(r, init, user_id);
        let prev = starred_rows_of(r, init, user_id);
        if is_starred_by(settings.last(), r, user_id) && prev.len() == 1 {
            let m = choose|m: int|
                0 <= m < init.len() && is_starred_by(init[m], r, user_id) && prev[0] == with_meta(r, Some(true));
            assert(settings[m] == init[m]);
            assert(!is_setting_of(settings[settings.len() - 1], settings[m].user_id, settings[m].record_id));
        }
    }
}

/// Under unique settings the starred join yields at most one row per record.
pub proof fn lemma_starred_rows_at_most_records(
    records: Seq<Record>,
    settings: Seq<RecordUserSetting>,
    user_id: i32,
    source_id: Option<i32>,
)
    requires
        settings_unique(settings),
    ensures
        starred_rows(records, settings, user_id, source_id).len() <= records.len(),
    decreases records.len(),
{
    if records.len() > 0 {
        lemma_starred_rows_at_most_records(records.drop_last(), settings, user_id, source_id);
        lemma_starred_rows_of_at_most_one(records.last(), settings, user_id);
    }
}

/// A setting of the user that stars a filtered record puts the record in the
/// starred join.
pub proof fn lemma_starred_row_present(
    records: Seq<Record>,
    settings: Seq<RecordUserSetting>,
    user_id: i32,
    source_id: Option<i32>,
    i: int,
    m: int,
)
    requires
        0 <= i < records.len(),
        in_source_filter(records[i], source_id),
        0 <= m < settings.len(),
        is_starred_by(settings[m], records[i], user_id),
    ensures
        starred_rows(records, settings, user_id, source_id).contains(with_meta(records[i], Some(true))),
    decreases records.len(),
{
    let init = records.drop_last();
    let prev = starred_rows(init, settings, user_id, source_id);
    let full = starred_rows(records, settings, user_id, source_id);
    if i < records.len() - 1 {
        assert(init[i] == records[i]);
        lemma_starred_row_present(init, settings, user_id, source_id, i, m);
        let k = choose|k: int| 0 <= k < prev.len() && prev[k] == with_meta(records[i], Some(true));
        assert(full[k] == prev[k]);
    } else {
        lemma_starred_row_of_present(records[i], settings, user_id, m);
        let last = starred_rows_of(records[i], settings, user_id);
        let k = choose|k: int| 0 <= k < last.len() && last[k] == with_meta(records[i], Some(true));
        assert(full[prev.len() + k] == last[k]);
    }
}

/// A setting of the user that stars `r` puts `r` in its starred rows.
pub proof fn lemma_starred_row_of_present(r: Record, settings: Seq<RecordUserSetting>, user_id: i32, m: int)
    requires
        0 <= m < settings.len(),
        is_starred_by(settings[m], r, user_id),
    ensures
        starred_rows_of(r, settings, user_id).contains(with_meta(r, Some(true))),
    decreases settings.len(),
{
    let init = settings.drop_last();
    let prev = starred_rows_of(r, init, user_id);
    let full = starred_rows_of(r, settings, user_id);
    if m < settings.len() - 1 {
        assert(init[m] == settings[m]);
        lemma_starred_row_of_present(r, init, user_id, m);
        let k = choose|k: int| 0 <= k < prev.len() && prev[k] == with_meta(r, Some(true));
        assert(full[k] == prev[k]);
    } else {
        assert(full[prev.len() as int] == with_meta(r, Some(true)));
    }
}

/// After a user marks a record, the user's full starred listing shows that
/// record exactly when the mark was a star.
pub proof fn law_starred_listing_after_mark(t: Tables, user_id: i32, record_id: i32, starred: bool, n: int)
    requires
        settings_unique(t.records_user_settings),
        record_visible(t, user_id, record_id),
        n >= t.records.len(),
    ensures
        (exists|j: int|
            0 <= j < starred_records(marked(t, user_id, record_id, starred), user_id, None, n, 0).len()
                && starred_records(marked(t, user_id, record_id, starred), user_id, None, n, 0)[j].id
                == record_id) <==> starred,
{
    broadcast use vstd::seq_lib::group_to_multiset_ensures;

    let t2 = marked(t, user_id, record_id, starred);
    let settings = t2.records_user_settings;
    law_marking_keeps_settings_unique(t.records_user_settings, user_id, record_id, starred);
    law_marking_stores_flag(t.records_user_settings, user_id, record_id, starred);
    let rows = starred_rows(t2.records, settings, user_id, None);
    lemma_starred_rows_at_most_records(t2.records, settings, user_id, None);
    lemma_sort_by_date_desc(rows);
    let sorted = sort_by_date_desc(rows);
    lemma_full_page(sorted, n);
    let listing = starred_records(t2, user_id, None, n, 0);
    assert(listing == sorted);
    lemma_starred_rows(t2.records, settings, user_id, None);
    if exists|j: int| 0 <= j < listing.len() && listing[j].id == record_id {
        let j = choose|j: int| 0 <= j < listing.len() && listing[j].id == record_id;
        assert(sorted.contains(listing[j]));
        assert(sorted.to_multiset().count(listing[j]) > 0);
        assert(rows.contains(listing[j]));
        let k = choose|k: int| 0 <= k < rows.len() && rows[k] == listing[j];
        let (i, m) = choose|i: int, m: int|
            0 <= i < t2.records.len() && in_source_filter(t2.records[i], None) && 0 <= m < settings.len()
                && is_starred_by(settings[m], t2.records[i], user_id) && rows[k] == with_meta(
                t2.records[i],
                Some(true),
            );
        assert(is_setting_of(settings[m], user_id, record_id));
    }
    if starred {
        let i = choose|i: int|
            0 <= i < t.records.len() && t.records[i].id == record_id && source_subscribed(
                t,
                t.records[i].source_id,
                user_id,
            );
        let m = choose|m: int| 0 <= m < settings.len() && is_setting_of(settings[m], user_id, record_id);
        assert(t2.records[i] == t.records[i]);
        lemma_starred_row_present(t2.records, settings, user_id, None, i, m);
        let x = with_meta(t2.records[i], Some(true));
        assert(rows.to_multiset().count(x) > 0);
        assert(sorted.contains(x));
        let j = choose|j: int| 0 <= j < sorted.len() && sorted[j] == x;
        assert(listing[j].id == record_id);
    }
}

/// The records of `source_id`, in table order, each with no starred flag.
pub open spec fn unstarred_rows_of_source(records: Seq<Record>, source_id: i32) -> Seq<RecordWithMeta>
    decreases records.len(),
{
    if records.len() == 0 {
        seq![]
    } else {
        unstarred_rows_of_source(records.drop_last(), source_id) + if records.last().source_id == source_id {
            seq![with_meta(records.last(), None)]
        } else {
            seq![]
        }
    }
}

/// Exactly one row of the sources table has the id `source_id`.
pub open spec fn one_source_row(sources: Seq<Source>, source_id: i32) -> bool {
    exists|j: int|
        0 <= j < sources.len() && sources[j].id == source_id && forall|k: int|
            0 <= k < sources.len() && k != j ==> sources[k].id != source_id
}

/// Exactly one subscription of `user_id` to `source_id`.
pub open spec fn one_subscription(subs: Seq<SourceUserSetting>, source_id: i32, user_id: i32) -> bool {
    exists|k: int|
        0 <= k < subs.len() && subs[k].source_id == source_id && subs[k].user_id == user_id && forall|l: int|
            0 <= l < subs.len() && l != k ==> !(subs[l].source_id == source_id && subs[l].user_id == user_id)
}

proof fn lemma_no_copies_without_subscription(row: RecordWithMeta, subs: Seq<SourceUserSetting>, source_id: i32, user_id: i32)
    requires
        forall|l: int| 0 <= l < subs.len() ==> !(subs[l].source_id == source_id && subs[l].user_id == user_id),
    ensures
        copies_per_subscription(row, subs, source_id, user_id) == Seq::<RecordWithMeta>::empty(),
    decreases subs.len(),
{
    if subs.len() > 0 {
        let init = subs.drop_last();
        assert forall|l: int| 0 <= l < init.len() implies !(init[l].source_id == source_id && init[l].user_id == user_id) by {
            assert(init[l] == subs[l]);
        }
        lemma_no_copies_without_subscription(row, init, source_id, user_id);
        assert(!(subs[subs.len() - 1].source_id == source_id && subs[subs.len() - 1].user_id == user_id));
        assert(copies_per_subscription(row, subs, source_id, user_id) =~= Seq::<RecordWithMeta>::empty());
    }
}

proof fn lemma_one_copy_per_subscription(row: RecordWithMeta, subs: Seq<SourceUserSetting>, source_id: i32, user_id: i32)
    requires
        one_subscription(subs, source_id, user_id),
    ensures
        copies_per_subscription(row, subs, source_id, user_id) == seq![row],
    decreases subs.len(),
{
    let k = choose|k: int|
        0 <= k < subs.len() && subs[k].source_id == source_id && subs[k].user_id == user_id && forall|l: int|
            0 <= l < subs.len() && l != k ==> !(subs[l].source_id == source_id && subs[l].user_id == user_id);
    let init = subs.drop_last();
    if k == subs.len() - 1 {
        assert forall|l: int| 0 <= l < init.len() implies !(init[l].source_id == source_id && init[l].user_id == user_id) by {
            assert(init[l] == subs[l]);
        }
        lemma_no_copies_without_subscription(row, init, source_id, user_id);
        assert(copies_per_subscription(row, subs, source_id, user_id) =~= seq![row]);
    } else {
        assert(init[k] == subs[k]);
        assert forall|l: int| 0 <= l < init.len() && l != k implies !(init[l].source_id == source_id && init[l].user_id == user_id) by {
            assert(init[l] == subs[l]);
        }
        lemma_one_copy_per_subscription(row, init, source_id, user_id);
        assert(copies_per_subscription(row, subs, source_id, user_id) =~= seq![row]);
    }
}

proof fn lemma_no_copies_without_source(
    row: RecordWithMeta,
    sources: Seq<Source>,
    subs: Seq<SourceUserSetting>,
    source_id: i32,
    user_id: i32,
)
    requires
        forall|k: int| 0 <= k < sources.len() ==> sources[k].id != source_id,
    ensures
        copies_per_source(row, sources, subs, source_id, user_id) == Seq::<RecordWithMeta>::empty(),
    decreases sources.len(),
{
    if sources.len() > 0 {
        let init = sources.drop_last();
        assert forall|k: int| 0 <= k < init.len() implies init[k].id != source_id by {
            assert(init[k] == sources[k]);
        }
        lemma_no_copies_without_source(row, init, subs, source_id, user_id);
        assert(copies_per_source(row, sources, subs, source_id, user_id) =~= Seq::<RecordWithMeta>::empty());
    }
}

/// One source row and one subscription give each row exactly one copy.
proof fn lemma_one_copy(
    row: RecordWithMeta,
    sources: Seq<Source>,
    subs: Seq<SourceUserSetting>,
    source_id: i32,
    user_id: i32,
)
    requires
        one_source_row(sources, source_id),
        one_subscription(subs, source_id, user_id),
    ensures
        copies_per_source(row, sources, subs, source_id, user_id) == seq![row],
    decreases sources.len(),
{
    let j = choose|j: int|
        0 <= j < sources.len() && sources[j].id == source_id && forall|k: int|
            0 <= k < sources.len() && k != j ==> sources[k].id != source_id;
    let init = sources.drop_last();
    lemma_one_copy_per_subscription(row, subs, source_id, user_id);
    if j == sources.len() - 1 {
        assert forall|k: int| 0 <= k < init.len() implies init[k].id != source_id by {
            assert(init[k] == sources[k]);
        }
        lemma_no_copies_without_source(row, init, subs, source_id, user_id);
        assert(copies_per_source(row, sources, subs, source_id, user_id) =~= seq![row]);
    } else {
        assert(init[j] == sources[j]);
        assert forall|k: int| 0 <= k < init.len() && k != j implies init[k].id != source_id by {
            assert(init[k] == sources[k]);
        }
        lemma_one_copy(row, init, subs, source_id, user_id);
        assert(copies_per_source(row, sources, subs, source_id, user_id) =~= seq![row]);
    }
}

/// A record with no settings rows gets the single flag `None`.
proof fn lemma_no_star_values(settings: Seq<RecordUserSetting>, record_id: i32)
    requires
        forall|m: int| 0 <= m < settings.len() ==> settings[m].record_id != record_id,
    ensures
        star_values(settings, record_id) == Seq::<Option<bool>>::empty(),
    decreases settings.len(),
{
    if settings.len() > 0 {
        let init = settings.drop_last();
        assert forall|m: int| 0 <= m < init.len() implies init[m].record_id != record_id by {
            assert(init[m] == settings[m]);
        }
        lemma_no_star_values(init, record_id);
        assert(star_values(settings, record_id) =~= Seq::<Option<bool>>::empty());
    }
}

/// A record joined with one flag, one source row and one subscription yields
/// exactly that one row.
proof fn lemma_single_row_of_record(r: Record, star: Option<bool>, t: Tables, user_id: i32)
    requires
        one_source_row(t.sources, r.source_id),
        one_subscription(t.sources_user_settings, r.source_id, user_id),
    ensures
        rows_of_record(r, seq![star], t, user_id) == seq![with_meta(r, star)],
{
    assert(seq![star].drop_last() =~= Seq::<Option<bool>>::empty());
    assert(seq![star].last() == star);
    assert(rows_of_record(r, Seq::<Option<bool>>::empty(), t, user_id) == Seq::<RecordWithMeta>::empty());
    lemma_one_copy(with_meta(r, star), t.sources, t.sources_user_settings, r.source_id, user_id);
    assert(rows_of_record(r, seq![star], t, user_id) =~= seq![with_meta(r, star)]);
}

proof fn lemma_visible_rows_of_fresh_source(records: Seq<Record>, t: Tables, user_id: i32, source_id: i32)
    requires
        one_source_row(t.sources, source_id),
        one_subscription(t.sources_user_settings, source_id, user_id),
        forall|m: int|
            0 <= m < t.records_user_settings.len() ==> !record_of_source(
                records,
                #[trigger] t.records_user_settings[m].record_id,
                source_id,
            ),
    ensures
        visible_rows(records, t, user_id, Some(source_id), None) == unstarred_rows_of_source(records, source_id),
    decreases records.len(),
{
    if records.len() > 0 {
        let init = records.drop_last();
        let r = records.last();
        assert forall|m: int| 0 <= m < t.records_user_settings.len() implies !record_of_source(
            init,
            #[trigger] t.records_user_settings[m].record_id,
            source_id,
        ) by {
            if record_of_source(init, t.records_user_settings[m].record_id, source_id) {
                let i = choose|i: int|
                    0 <= i < init.len() && init[i].id == t.records_user_settings[m].record_id && init[i].source_id
                        == source_id;
                assert(records[i] == init[i]);
                assert(record_of_source(records, t.records_user_settings[m].record_id, source_id));
            }
        }
        lemma_visible_rows_of_fresh_source(init, t, user_id, source_id);
        if r.source_id == source_id {
            assert forall|m: int| 0 <= m < t.records_user_settings.len() implies t.records_user_settings[m].record_id
                != r.id by {
                if t.records_user_settings[m].record_id == r.id {
                    assert(records[records.len() - 1] == r);
                    assert(record_of_source(records, t.records_user_settings[m].record_id, source_id));
                }
            }
            lemma_no_star_values(t.records_user_settings, r.id);
            assert(star_options(t.records_user_settings, r.id) == seq![None::<bool>]);
            lemma_single_row_of_record(r, None, t, user_id);
        }
    }
}

proof fn lemma_unstarred_rows_len(records: Seq<Record>, source_id: i32)
    ensures
        unstarred_rows_of_source(records, source_id).len() <= records.len(),
    decreases records.len(),
{
    if records.len() > 0 {
        lemma_unstarred_rows_len(records.drop_last(), source_id);
    }
}

/// Right after a user subscribes to a source, with one row in the sources
/// table, that the user had not subscribed to and whose records nobody has
/// starred or unstarred, the user's listing of that source holds each of its
/// records exactly once, without a starred flag, newest first.
pub proof fn law_listing_after_subscribe(t: Tables, source_id: i32, user_id: i32, n: int)
    requires
        one_source_row(t.sources, source_id),
        forall|l: int|
            0 <= l < t.sources_user_settings.len() ==> !(t.sources_user_settings[l].source_id == source_id
                && t.sources_user_settings[l].user_id == user_id),
        forall|m: int|
            0 <= m < t.records_user_settings.len() ==> !record_of_source(
                t.records,
                #[trigger] t.records_user_settings[m].record_id,
                source_id,
            ),
        n >= t.records.len(),
    ensures
        all_records(subscribed(t, source_id, user_id), user_id, Some(source_id), None, n, 0) == sort_by_date_desc(
            unstarred_rows_of_source(t.records, source_id),
        ),
{
    let t2 = subscribed(t, source_id, user_id);
    let subs = t2.sources_user_settings;
    let k = t.sources_user_settings.len() as int;
    assert(subs[k].source_id == source_id && subs[k].user_id == user_id);
    assert forall|l: int| 0 <= l < subs.len() && l != k implies !(subs[l].source_id == source_id && subs[l].user_id
        == user_id) by {
        assert(subs[l] == t.sources_user_settings[l]);
    }
    assert(one_subscription(subs, source_id, user_id));
    lemma_visible_rows_of_fresh_source(t.records, t2, user_id, source_id);
    let rows = unstarred_rows_of_source(t.records, source_id);
    lemma_unstarred_rows_len(t.records, source_id);
    lemma_sort_by_date_desc(rows);
    lemma_full_page(sort_by_date_desc(rows), n);
}

/// Keeps the rows flagged `Some(true)`.
pub open spec fn flagged_starred() -> spec_fn(RecordWithMeta) -> bool {
    |x: RecordWithMeta| x.starred == Some(true)
}

/// How often filtering keeps a row.
pub proof fn lemma_filter_count<T>(s: Seq<T>, p: spec_fn(T) -> bool, x: T)
    ensures
        s.filter(p).to_multiset().count(x) == if p(x) { s.to_multiset().count(x) } else { 0 },
    decreases s.len(),
{
    broadcast use vstd::seq_lib::group_to_multiset_ensures;
    broadcast use vstd::multiset::group_multiset_axioms;

    reveal(Seq::filter);
    if s.len() == 0 {
        assert(s.filter(p).len() == 0);
    } else {
        let init = s.drop_last();
        lemma_filter_count(init, p, x);
        assert(s == init.push(s.last()));
    }
}

proof fn lemma_star_values_one(settings: Seq<RecordUserSetting>, record_id: i32, m: int)
    requires
        0 <= m < settings.len(),
        settings[m].record_id == record_id,
        forall|k: int| 0 <= k < settings.len() && k != m ==> settings[k].record_id != record_id,
    ensures
        star_values(settings, record_id) == seq![Some(settings[m].starred)],
    decreases settings.len(),
{
    let init = settings.drop_last();
    if m == settings.len() - 1 {
        assert forall|k: int| 0 <= k < init.len() implies init[k].record_id != record_id by {
            assert(init[k] == settings[k]);
        }
        lemma_no_star_values(init, record_id);
        assert(star_values(settings, record_id) =~= seq![Some(settings[m].starred)]);
    } else {
        assert(init[m] == settings[m]);
        assert forall|k: int| 0 <= k < init.len() && k != m implies init[k].record_id != record_id by {
            assert(init[k] == settings[k]);
        }
        lemma_star_values_one(init, record_id, m);
        assert(star_values(settings, record_id) =~= seq![Some(settings[m].starred)]);
    }
}

proof fn lemma_starred_rows_of_none(r: Record, settings: Seq<RecordUserSetting>, user_id: i32)
    requires
        forall|k: int| 0 <= k < settings.len() ==> settings[k].record_id != r.id,
    ensures
        starred_rows_of(r, settings, user_id) == Seq::<RecordWithMeta>::empty(),
    decreases settings.len(),
{
    if settings.len() > 0 {
        let init = settings.drop_last();
        assert forall|k: int| 0 <= k < init.len() implies init[k].record_id != r.id by {
            assert(init[k] == settings[k]);
        }
        lemma_starred_rows_of_none(r, init, user_id);
        assert(starred_rows_of(r, settings, user_id) =~= Seq::<RecordWithMeta>::empty());
    }
}

proof fn lemma_starred_rows_of_one(r: Record, settings: Seq<RecordUserSetting>, user_id: i32, m: int)
    requires
        0 <= m < settings.len(),
        settings[m].record_id == r.id,
        forall|k: int| 0 <= k < settings.len() && k != m ==> settings[k].record_id != r.id,
    ensures
        starred_rows_of(r, settings, user_id) == if is_starred_by(settings[m], r, user_id) {
            seq![with_meta(r, Some(true))]
        } else {
            Seq::<RecordWithMeta>::empty()
        },
    decreases settings.len(),
{
    let init = settings.drop_last();
    if m == settings.len() - 1 {
        assert forall|k: int| 0 <= k < init.len() implies init[k].record_id != r.id by {
            assert(init[k] == settings[k]);
        }
        lemma_starred_rows_of_none(r, init, user_id);
    } else {
        assert(init[m] == settings[m]);
        assert forall|k: int| 0 <= k < init.len() && k != m implies init[k].record_id != r.id by {
            assert(init[k] == settings[k]);
        }
        lemma_starred_rows_of_one(r, init, user_id, m);
    }
    assert(starred_rows_of(r, settings, user_id) =~= if is_starred_by(settings[m], r, user_id) {
        seq![with_meta(r, Some(true))]
    } else {
        Seq::<RecordWithMeta>::empty()
    });
}

/// The settings rows all belong to `user_id`, at most one per record.
pub open spec fn settings_of_one_user(settings: Seq<RecordUserSetting>, user_id: i32) -> bool {
    &&& forall|m: int| 0 <= m < settings.len() ==> settings[m].user_id == user_id
    &&& forall|m: int, k: int|
        0 <= m < settings.len() && 0 <= k < settings.len() && m != k ==> settings[m].record_id
            != settings[k].record_id
}

proof fn lemma_record_rows_starred_part(r: Record, t: Tables, user_id: i32)
    requires
        one_source_row(t.sources, r.source_id),
        one_subscription(t.sources_user_settings, r.source_id, user_id),
        settings_of_one_user(t.records_user_settings, user_id),
    ensures
        rows_of_record(r, star_options(t.records_user_settings, r.id), t, user_id).len() == 1,
        rows_of_record(r, star_options(t.records_user_settings, r.id), t, user_id).filter(flagged_starred())
            == starred_rows_of(r, t.records_user_settings, user_id),
{
    let settings = t.records_user_settings;
    reveal_with_fuel(Seq::<_>::filter, 2);
    if exists|m: int| 0 <= m < settings.len() && settings[m].record_id == r.id {
        let m = choose|m: int| 0 <= m < settings.len() && settings[m].record_id == r.id;
        lemma_star_values_one(settings, r.id, m);
        let star = Some(settings[m].starred);
        assert(star_options(settings, r.id) == seq![star]);
        lemma_single_row_of_record(r, star, t, user_id);
        lemma_starred_rows_of_one(r, settings, user_id, m);
        let one = seq![with_meta(r, star)];
        assert(one.drop_last() =~= Seq::<RecordWithMeta>::empty());
        assert(one.filter(flagged_starred()) =~= starred_rows_of(r, settings, user_id));
    } else {
        lemma_no_star_values(settings, r.id);
        assert(star_options(settings, r.id) == seq![None::<bool>]);
        lemma_single_row_of_record(r, None, t, user_id);
        lemma_starred_rows_of_none(r, settings, user_id);
        let one = seq![with_meta(r, None)];
        assert(one.drop_last() =~= Seq::<RecordWithMeta>::empty());
        assert(one.filter(flagged_starred()) =~= starred_rows_of(r, settings, user_id));
    }
}

proof fn lemma_starred_rows_are_flagged_visible_rows(
    records: Seq<Record>,
    t: Tables,
    user_id: i32,
    source_id: Option<i32>,
)
    requires
        forall|i: int|
            0 <= i < records.len() && in_source_filter(records[i], source_id) ==> one_source_row(
                t.sources,
                #[trigger] records[i].source_id,
            ) && one_subscription(t.sources_user_settings, records[i].source_id, user_id),
        settings_of_one_user(t.records_user_settings, user_id),
    ensures
        starred_rows(records, t.records_user_settings, user_id, source_id) == visible_rows(
            records,
            t,
            user_id,
            source_id,
            None,
        ).filter(flagged_starred()),
        visible_rows(records, t, user_id, source_id, None).len() <= records.len(),
    decreases records.len(),
{
    reveal(Seq::filter);
    if records.len() > 0 {
        let init = records.drop_last();
        let r = records.last();
        assert forall|i: int|
            0 <= i < init.len() && in_source_filter(init[i], source_id) implies one_source_row(
            t.sources,
            #[trigger] init[i].source_id,
        ) && one_subscription(t.sources_user_settings, init[i].source_id, user_id) by {
            assert(init[i] == records[i]);
        }
        lemma_starred_rows_are_flagged_visible_rows(init, t, user_id, source_id);
        let prev = visible_rows(init, t, user_id, source_id, None);
        if in_source_filter(r, source_id) {
            assert(records[records.len() - 1] == r);
            lemma_record_rows_starred_part(r, t, user_id);
            let last = rows_of_record(r, star_options(t.records_user_settings, r.id), t, user_id);
            Seq::filter_distributes_over_add(prev, last, flagged_starred());
            assert(in_record_filter(r, source_id, None));
        } else {
            assert(!in_record_filter(r, source_id, None));
            Seq::filter_distributes_over_add(prev, Seq::<RecordWithMeta>::empty(), flagged_starred());
            assert(Seq::<RecordWithMeta>::empty().filter(flagged_starred()) =~= Seq::<RecordWithMeta>::empty());
            assert(starred_rows(records, t.records_user_settings, user_id, source_id) =~= starred_rows(
                init,
                t.records_user_settings,
                user_id,
                source_id,
            ));
            assert(visible_rows(records, t, user_id, source_id, None) =~= prev);
        }
    }
}

/// Where each record's source has one row and one subscription of the user,
/// and the settings rows are the user's, at most one per record, the full
/// starred listing holds the same rows, counted with multiplicity, as the rows
/// flagged `Some(true)` of the full listing of all records.
pub proof fn law_starred_listing_is_flagged_part_of_listing(
    t: Tables,
    user_id: i32,
    source_id: Option<i32>,
    n: int,
)
    requires
        forall|i: int|
            0 <= i < t.records.len() && in_source_filter(t.records[i], source_id) ==> one_source_row(
                t.sources,
                #[trigger] t.records[i].source_id,
            ) && one_subscription(t.sources_user_settings, t.records[i].source_id, user_id),
        settings_of_one_user(t.records_user_settings, user_id),
        n >= t.records.len(),
    ensures
        starred_records(t, user_id, source_id, n, 0).to_multiset() == all_records(
            t,
            user_id,
            source_id,
            None,
            n,
            0,
        ).filter(flagged_starred()).to_multiset(),
{
    broadcast use vstd::seq_lib::group_filter_ensures;

    lemma_starred_rows_are_flagged_visible_rows(t.records, t, user_id, source_id);
    let vis = visible_rows(t.records, t, user_id, source_id, None);
    let flagged = vis.filter(flagged_starred());
    lemma_sort_by_date_desc(vis);
    lemma_sort_by_date_desc(flagged);
    lemma_full_page(sort_by_date_desc(vis), n);
    lemma_full_page(sort_by_date_desc(flagged), n);
    let listing = all_records(t, user_id, source_id, None, n, 0);
    assert(listing == sort_by_date_desc(vis));
    assert forall|x: RecordWithMeta|
        starred_records(t, user_id, source_id, n, 0).to_multiset().count(x) == listing.filter(
            flagged_starred(),
        ).to_multiset().count(x) by {
        lemma_filter_count(vis, flagged_starred(), x);
        lemma_filter_count(listing, flagged_starred(), x);
    }
    assert(starred_records(t, user_id, source_id, n, 0).to_multiset() =~= listing.filter(
        flagged_starred(),
    ).to_multiset());
}

// ---------------------------------------------------------------------------
// What each returned row holds

/// `x` shows the stored record `r`: every column of `r`, as stored.
pub open spec fn shows_record(x: RecordWithMeta, r: Record) -> bool {
    &&& x.id == r.id
    &&& x.title == r.title
    &&& x.guid == r.guid
    &&& x.source_id == r.source_id
    &&& x.content == r.content
    &&& x.date == r.date
    &&& x.image == r.image
}

/// Some stored record is what `x` shows.
pub open spec fn shows_stored_record(t: Tables, x: RecordWithMeta) -> bool {
    exists|i: int| 0 <= i < t.records.len() && shows_record(x, #[trigger] t.records[i])
}

/// Every row of either listing shows a stored record column for column: its
/// id, title, guid, source, content, date and image are those of a row of the
/// records table.
pub proof fn law_listing_rows_show_stored_records(
    t: Tables,
    user_id: i32,
    source_id: Option<i32>,
    record_id: Option<i32>,
    limit: int,
    offset: int,
)
    requires
        limit >= 0,
        offset >= 0,
    ensures
        forall|j: int|
            0 <= j < all_records(t, user_id, source_id, record_id, limit, offset).len() ==> shows_stored_record(
                t,
                #[trigger] all_records(t, user_id, source_id, record_id, limit, offset)[j],
            ),
        forall|j: int|
            0 <= j < starred_records(t, user_id, source_id, limit, offset).len() ==> shows_stored_record(
                t,
                #[trigger] starred_records(t, user_id, source_id, limit, offset)[j],
            ),
{
    let rows = visible_rows(t.records, t, user_id, source_id, record_id);
    lemma_visible_rows(t.records, t, user_id, source_id, record_id);
    assert forall|j: int| 0 <= j < all_records(t, user_id, source_id, record_id, limit, offset).len() implies shows_stored_record(
        t,
        #[trigger] all_records(t, user_id, source_id, record_id, limit, offset)[j],
    ) by {
        lemma_paged_rows_come_from(rows, limit, offset, j);
        let x = all_records(t, user_id, source_id, record_id, limit, offset)[j];
        let n = choose|n: int| 0 <= n < rows.len() && rows[n] == x;
        let (i, k) = choose|i: int, k: int|
            0 <= i < t.records.len() && in_record_filter(t.records[i], source_id, record_id)
                && source_subscribed(t, t.records[i].source_id, user_id) && 0 <= k < star_options(
                t.records_user_settings,
                t.records[i].id,
            ).len() && rows[n] == with_meta(t.records[i], star_options(t.records_user_settings, t.records[i].id)[k]);
        assert(shows_record(x, t.records[i]));
    }
    law_starred_listing_shows_own_stars(t, user_id, source_id, limit, offset);
    assert forall|j: int| 0 <= j < starred_records(t, user_id, source_id, limit, offset).len() implies shows_stored_record(
        t,
        #[trigger] starred_records(t, user_id, source_id, limit, offset)[j],
    ) by {
        let x = starred_records(t, user_id, source_id, limit, offset)[j];
        let (i, m) = choose|i: int, m: int|
            0 <= i < t.records.len() && in_source_filter(t.records[i], source_id) && 0 <= m
                < t.records_user_settings.len() && is_starred_by(
                t.records_user_settings[m],
                t.records[i],
                user_id,
            ) && x == with_meta(t.records[i], Some(true));
        assert(shows_record(x, t.records[i]));
    }
}

/// The row that marking returns shows, column for column, a stored record with
/// the marked id.
pub proof fn law_marked_row_shows_stored_record(t: Tables, user_id: i32, record_id: i32, starred: bool)
    requires
        record_visible(t, user_id, record_id),
    ensures
        exists|i: int|
            0 <= i < t.records.len() && t.records[i].id == record_id && shows_record(
                all_records(marked(t, user_id, record_id, starred), user_id, None, Some(record_id), 1, 0)[0],
                #[trigger] t.records[i],
            ),
{
    let t2 = marked(t, user_id, record_id, starred);
    let i = choose|i: int|
        0 <= i < t.records.len() && t.records[i].id == record_id && source_subscribed(
            t,
            t.records[i].source_id,
            user_id,
        );
    assert(t2.records == t.records && t2.sources == t.sources && t2.sources_user_settings == t.sources_user_settings);
    assert(source_subscribed(t2, t2.records[i].source_id, user_id));
    lemma_visible_record_found(t2, user_id, record_id);
    law_listing_rows_show_stored_records(t2, user_id, None, Some(record_id), 1, 0);
    law_listing_shows_subscribed_sources(t2, user_id, None, Some(record_id), 1, 0);
    let x = all_records(t2, user_id, None, Some(record_id), 1, 0)[0];
    assert(shows_stored_record(t2, x));
    let k = choose|k: int| 0 <= k < t2.records.len() && shows_record(x, t2.records[k]);
    assert(t.records[k].id == record_id);
}

/// The records listing honours its request: a listing of one source shows only
/// that source's records; listing all records shows only records of sources the
/// user subscribes to; listing starred records shows only records that a
/// setting of the user stars, flagged `Some(true)`. Every row shows a stored
/// record column for column.
pub proof fn law_records_listing_honours_request(t: Tables, user_id: i32, params: GetFilteredRecordsRequest)
    requires
        params.limit >= 0,
        params.offset >= 0,
    ensures
        forall|j: int|
            0 <= j < records_listing(t, user_id, params).len() ==> {
                let x = #[trigger] records_listing(t, user_id, params)[j];
                &&& params.source_id matches Some(s) ==> x.source_id == s
                &&& params.query is All ==> source_subscribed(t, x.source_id, user_id)
                &&& params.query is Starred ==> x.starred == Some(true) && exists|m: int|
                    0 <= m < t.records_user_settings.len() && t.records_user_settings[m].user_id == user_id
                        && t.records_user_settings[m].record_id == x.id && t.records_user_settings[m].starred
                &&& shows_stored_record(t, x)
            },
{
    let limit = params.limit as int;
    let offset = params.offset as int;
    law_listing_shows_subscribed_sources(t, user_id, params.source_id, None, limit, offset);
    law_starred_listing_shows_own_stars(t, user_id, params.source_id, limit, offset);
    law_listing_rows_show_stored_records(t, user_id, params.source_id, None, limit, offset);
    assert forall|j: int| 0 <= j < records_listing(t, user_id, params).len() implies {
        let x = #[trigger] records_listing(t, user_id, params)[j];
        &&& params.source_id matches Some(s) ==> x.source_id == s
        &&& params.query is All ==> source_subscribed(t, x.source_id, user_id)
        &&& params.query is Starred ==> x.starred == Some(true) && exists|m: int|
            0 <= m < t.records_user_settings.len() && t.records_user_settings[m].user_id == user_id
                && t.records_user_settings[m].record_id == x.id && t.records_user_settings[m].starred
        &&& shows_stored_record(t, x)
    } by {
        match params.query {
            RecordsQuery::All => {
                let x = all_records(t, user_id, params.source_id, None, limit, offset)[j];
                assert(shows_stored_record(t, x));
            },
            RecordsQuery::Starred => {
                let x = starred_records(t, user_id, params.source_id, limit, offset)[j];
                let (i, m) = choose|i: int, m: int|
                    0 <= i < t.records.len() && in_source_filter(t.records[i], params.source_id) && 0 <= m
                        < t.records_user_settings.len() && is_starred_by(
                        t.records_user_settings[m],
                        t.records[i],
                        user_id,
                    ) && x == with_meta(t.records[i], Some(true));
                assert(t.records_user_settings[m].record_id == x.id);
                assert(shows_stored_record(t, x));
            },
        }
    }
}

// ---------------------------------------------------------------------------
// The user's sources

proof fn lemma_source_per_subscription(source: Source, subs: Seq<SourceUserSetting>, user_id: i32)
    ensures
        forall|j: int|
            0 <= j < source_per_subscription(source, subs, user_id).len() ==> #[trigger] source_per_subscription(
                source,
                subs,
                user_id,
            )[j] == source,
        source_per_subscription(source, subs, user_id).len() > 0 <==> exists|l: int|
            0 <= l < subs.len() && subs[l].source_id == source.id && subs[l].user_id == user_id,
    decreases subs.len(),
{
    if subs.len() > 0 {
        let init = subs.drop_last();
        lemma_source_per_subscription(source, init, user_id);
        let prev = source_per_subscription(source, init, user_id);
        let full = source_per_subscription(source, subs, user_id);
        assert forall|j: int| 0 <= j < full.len() implies #[trigger] full[j] == source by {
            if j < prev.len() {
                assert(full[j] == prev[j]);
            }
        }
        if exists|l: int| 0 <= l < subs.len() && subs[l].source_id == source.id && subs[l].user_id == user_id {
            let l = choose|l: int| 0 <= l < subs.len() && subs[l].source_id == source.id && subs[l].user_id == user_id;
            if l < subs.len() - 1 {
                assert(init[l] == subs[l]);
            }
        }
        if prev.len() > 0 {
            let l = choose|l: int| 0 <= l < init.len() && init[l].source_id == source.id && init[l].user_id == user_id;
            assert(subs[l] == init[l]);
        }
    }
}

proof fn lemma_subscribed_sources(sources: Seq<Source>, subs: Seq<SourceUserSetting>, user_id: i32)
    ensures
        forall|j: int|
            0 <= j < subscribed_sources(sources, subs, user_id).len() ==> exists|k: int|
                0 <= k < sources.len() && sources[k] == #[trigger] subscribed_sources(sources, subs, user_id)[j]
                    && exists|l: int|
                    0 <= l < subs.len() && subs[l].source_id == sources[k].id && subs[l].user_id == user_id,
        forall|k: int|
            0 <= k < sources.len() && (exists|l: int|
                0 <= l < subs.len() && subs[l].source_id == sources[k].id && subs[l].user_id == user_id)
                ==> subscribed_sources(sources, subs, user_id).contains(#[trigger] sources[k]),
    decreases sources.len(),
{
    if sources.len() > 0 {
        let init = sources.drop_last();
        let src = sources.last();
        lemma_subscribed_sources(init, subs, user_id);
        lemma_source_per_subscription(src, subs, user_id);
        let prev = subscribed_sources(init, subs, user_id);
        let last = source_per_subscription(src, subs, user_id);
        let full = subscribed_sources(sources, subs, user_id);
        assert(full == prev + last);
        assert forall|j: int| 0 <= j < full.len() implies exists|k: int|
            0 <= k < sources.len() && sources[k] == #[trigger] full[j] && exists|l: int|
                0 <= l < subs.len() && subs[l].source_id == sources[k].id && subs[l].user_id == user_id by {
            if j < prev.len() {
                assert(full[j] == prev[j]);
                let k = choose|k: int|
                    0 <= k < init.len() && init[k] == prev[j] && exists|l: int|
                        0 <= l < subs.len() && subs[l].source_id == init[k].id && subs[l].user_id == user_id;
                assert(sources[k] == init[k]);
            } else {
                assert(full[j] == last[j - prev.len()]);
                assert(sources[sources.len() - 1] == src);
            }
        }
        assert forall|k: int|
            0 <= k < sources.len() && (exists|l: int|
                0 <= l < subs.len() && subs[l].source_id == sources[k].id && subs[l].user_id == user_id) implies full.contains(
            #[trigger] sources[k],
        ) by {
            if k < sources.len() - 1 {
                assert(init[k] == sources[k]);
                assert(prev.contains(init[k]));
                let n = choose|n: int| 0 <= n < prev.len() && prev[n] == init[k];
                assert(full[n] == prev[n]);
            } else {
                assert(last.len() > 0);
                assert(last[0] == src);
                assert(full[prev.len() as int] == src);
            }
        }
    }
}

/// The user's source list holds exactly the stored sources that the user
/// subscribes to: each listed source is a row of the sources table, unchanged,
/// with a subscription of the user, and each such row is listed.
pub proof fn law_source_list_is_subscribed_rows(t: Tables, user_id: i32)
    ensures
        forall|j: int|
            0 <= j < subscribed_sources(t.sources, t.sources_user_settings, user_id).len() ==> exists|k: int|
                0 <= k < t.sources.len() && t.sources[k] == #[trigger] subscribed_sources(
                    t.sources,
                    t.sources_user_settings,
                    user_id,
                )[j] && exists|l: int|
                    0 <= l < t.sources_user_settings.len() && t.sources_user_settings[l].source_id
                        == t.sources[k].id && t.sources_user_settings[l].user_id == user_id,
        forall|k: int|
            0 <= k < t.sources.len() && (exists|l: int|
                0 <= l < t.sources_user_settings.len() && t.sources_user_settings[l].source_id == t.sources[k].id
                    && t.sources_user_settings[l].user_id == user_id) ==> subscribed_sources(
                t.sources,
                t.sources_user_settings,
                user_id,
            ).contains(#[trigger] t.sources[k]),
{
    lemma_subscribed_sources(t.sources, t.sources_user_settings, user_id);
}

// ---------------------------------------------------------------------------
// What unsubscribing and deleting a source remove

/// Unsubscribing removes every settings row of the user on a record of the
/// source, starred or not, and every subscription of the user to the source;
/// every other settings row and subscription stays, and the other tables are
/// unchanged.
pub proof fn law_unsubscribe_removes_user_settings_of_source(t: Tables, source_id: i32, user_id: i32)
    ensures
        forall|m: int|
            0 <= m < unsubscribed(t, source_id, user_id).records_user_settings.len() ==> (
            #[trigger] unsubscribed(t, source_id, user_id).records_user_settings[m]).user_id != user_id
                || !record_of_source(
                t.records,
                unsubscribed(t, source_id, user_id).records_user_settings[m].record_id,
                source_id,
            ),
        forall|m: int|
            0 <= m < t.records_user_settings.len() && !(t.records_user_settings[m].user_id == user_id
                && record_of_source(t.records, t.records_user_settings[m].record_id, source_id))
                ==> unsubscribed(t, source_id, user_id).records_user_settings.contains(
                #[trigger] t.records_user_settings[m],
            ),
        forall|l: int|
            0 <= l < unsubscribed(t, source_id, user_id).sources_user_settings.len() ==> !((
            #[trigger] unsubscribed(t, source_id, user_id).sources_user_settings[l]).source_id == source_id
                && unsubscribed(t, source_id, user_id).sources_user_settings[l].user_id == user_id),
        forall|l: int|
            0 <= l < t.sources_user_settings.len() && !(t.sources_user_settings[l].source_id == source_id
                && t.sources_user_settings[l].user_id == user_id) ==> unsubscribed(
                t,
                source_id,
                user_id,
            ).sources_user_settings.contains(#[trigger] t.sources_user_settings[l]),
        unsubscribed(t, source_id, user_id).records == t.records,
        unsubscribed(t, source_id, user_id).sources == t.sources,
        unsubscribed(t, source_id, user_id).users == t.users,
{
    broadcast use vstd::seq_lib::group_filter_ensures;

    let t2 = unsubscribed(t, source_id, user_id);
    assert forall|m: int| 0 <= m < t2.records_user_settings.len() implies (
    #[trigger] t2.records_user_settings[m]).user_id != user_id || !record_of_source(
        t.records,
        t2.records_user_settings[m].record_id,
        source_id,
    ) by {
        assert(outside_user_source(t.records, source_id, user_id)(t2.records_user_settings[m]));
    }
    assert forall|m: int|
        0 <= m < t.records_user_settings.len() && !(t.records_user_settings[m].user_id == user_id
            && record_of_source(t.records, t.records_user_settings[m].record_id, source_id)) implies t2.records_user_settings.contains(
        #[trigger] t.records_user_settings[m],
    ) by {
        assert(outside_user_source(t.records, source_id, user_id)(t.records_user_settings[m]));
    }
    assert forall|l: int| 0 <= l < t2.sources_user_settings.len() implies !((
    #[trigger] t2.sources_user_settings[l]).source_id == source_id && t2.sources_user_settings[l].user_id
        == user_id) by {
        assert(other_subscriptions(source_id, user_id)(t2.sources_user_settings[l]));
    }
    assert forall|l: int|
        0 <= l < t.sources_user_settings.len() && !(t.sources_user_settings[l].source_id == source_id
            && t.sources_user_settings[l].user_id == user_id) implies t2.sources_user_settings.contains(
        #[trigger] t.sources_user_settings[l],
    ) by {
        assert(other_subscriptions(source_id, user_id)(t.sources_user_settings[l]));
    }
}

/// Deleting a source removes every settings row, of any user and any flag,
/// on a record of the source; every other settings row stays, and the other
/// tables are unchanged.
pub proof fn law_delete_source_removes_its_settings(t: Tables, source_id: i32)
    ensures
        forall|m: int|
            0 <= m < source_deleted(t, source_id).records_user_settings.len() ==> !record_of_source(
                t.records,
                (#[trigger] source_deleted(t, source_id).records_user_settings[m]).record_id,
                source_id,
            ),
        forall|m: int|
            0 <= m < t.records_user_settings.len() && !record_of_source(
                t.records,
                t.records_user_settings[m].record_id,
                source_id,
            ) ==> source_deleted(t, source_id).records_user_settings.contains(#[trigger] t.records_user_settings[m]),
        source_deleted(t, source_id).records == t.records,
        source_deleted(t, source_id).sources == t.sources,
        source_deleted(t, source_id).sources_user_settings == t.sources_user_settings,
        source_deleted(t, source_id).users == t.users,
{
    broadcast use vstd::seq_lib::group_filter_ensures;

    let t2 = source_deleted(t, source_id);
    assert forall|m: int| 0 <= m < t2.records_user_settings.len() implies !record_of_source(
        t.records,
        (#[trigger] t2.records_user_settings[m]).record_id,
        source_id,
    ) by {
        assert(outside_source(t.records, source_id)(t2.records_user_settings[m]));
    }
    assert forall|m: int|
        0 <= m < t.records_user_settings.len() && !record_of_source(
            t.records,
            t.records_user_settings[m].record_id,
            source_id,
        ) implies t2.records_user_settings.contains(#[trigger] t.records_user_settings[m]) by {
        assert(outside_source(t.records, source_id)(t.records_user_settings[m]));
    }
}

/// Every row of the all-records listing carries a starred flag taken from the
/// settings rows of its record: `None` exactly where the record has no
/// settings row at all, and `Some(b)` only where some settings row of the
/// record (of any user) holds `b`.
pub proof fn law_listing_flags_come_from_settings(
    t: Tables,
    user_id: i32,
    source_id: Option<i32>,
    record_id: Option<i32>,
    limit: int,
    offset: int,
)
    requires
        limit >= 0,
        offset >= 0,
    ensures
        forall|j: int|
            0 <= j < all_records(t, user_id, source_id, record_id, limit, offset).len() ==> {
                let x = #[trigger] all_records(t, user_id, source_id, record_id, limit, offset)[j];
                &&& x.starred is None ==> forall|m: int|
                    0 <= m < t.records_user_settings.len() ==> t.records_user_settings[m].record_id != x.id
                &&& x.starred matches Some(b) ==> exists|m: int|
                    0 <= m < t.records_user_settings.len() && t.records_user_settings[m].record_id == x.id
                        && t.records_user_settings[m].starred == b
            },
{
    let rows = visible_rows(t.records, t, user_id, source_id, record_id);
    lemma_visible_rows(t.records, t, user_id, source_id, record_id);
    assert forall|j: int| 0 <= j < all_records(t, user_id, source_id, record_id, limit, offset).len() implies {
        let x = #[trigger] all_records(t, user_id, source_id, record_id, limit, offset)[j];
        &&& x.starred is None ==> forall|m: int|
            0 <= m < t.records_user_settings.len() ==> t.records_user_settings[m].record_id != x.id
        &&& x.starred matches Some(b) ==> exists|m: int|
            0 <= m < t.records_user_settings.len() && t.records_user_settings[m].record_id == x.id
                && t.records_user_settings[m].starred == b
    } by {
        lemma_paged_rows_come_from(rows, limit, offset, j);
        let x = all_records(t, user_id, source_id, record_id, limit, offset)[j];
        let n = choose|n: int| 0 <= n < rows.len() && rows[n] == x;
        let (i, k) = choose|i: int, k: int|
            0 <= i < t.records.len() && in_record_filter(t.records[i], source_id, record_id)
                && source_subscribed(t, t.records[i].source_id, user_id) && 0 <= k < star_options(
                t.records_user_settings,
                t.records[i].id,
            ).len() && rows[n] == with_meta(t.records[i], star_options(t.records_user_settings, t.records[i].id)[k]);
        let rid = t.records[i].id;
        lemma_star_values(t.records_user_settings, rid);
        let sv = star_values(t.records_user_settings, rid);
        if sv.len() == 0 {
            assert(x.starred is None);
            assert forall|m: int| 0 <= m < t.records_user_settings.len() implies t.records_user_settings[m].record_id
                != x.id by {
                if t.records_user_settings[m].record_id == rid {
                    assert(exists|m2: int|
                        0 <= m2 < t.records_user_settings.len() && t.records_user_settings[m2].record_id == rid);
                }
            }
        } else {
            assert(star_options(t.records_user_settings, rid) == sv);
            let m = choose|m: int|
                0 <= m < t.records_user_settings.len() && t.records_user_settings[m].record_id == rid && sv[k]
                    == Some(t.records_user_settings[m].starred);
            assert(x.starred == Some(t.records_user_settings[m].starred));
        }
    }
}

} // verus!
