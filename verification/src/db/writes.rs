use vstd::prelude::*;

use crate::db::models::{RecordUserSetting, SourceUserSetting, Tables};

verus! {

/// A change to one table, keyed by the columns that identify the rows it touches.
#[derive(Debug, PartialEq, Eq)]
pub enum Write {
    /// Add a row to `records_user_settings`.
    InsertRecordSetting(RecordUserSetting),
    /// Set `starred` on the `records_user_settings` rows of `user_id` and `record_id`.
    UpdateStarred { user_id: i32, record_id: i32, starred: bool },
    /// Remove the `records_user_settings` rows whose record is in `record_ids`
    /// and, where `of_user` is given, whose user is that one.
    DeleteRecordSettings { record_ids: Vec<i32>, of_user: Option<i32> },
    /// Add a row to `sources_user_settings`.
    InsertSubscription(SourceUserSetting),
    /// Remove the `sources_user_settings` rows of `user_id` and `source_id`.
    DeleteSubscriptions { source_id: i32, user_id: i32 },
}

/// `row` is the setting of `user_id` for `record_id`.
pub open spec fn is_setting_of(row: RecordUserSetting, user_id: i32, record_id: i32) -> bool {
    row.user_id == user_id && row.record_id == record_id
}

/// Some row of `settings` is the setting of `user_id` for `record_id`.
pub open spec fn has_setting(settings: Seq<RecordUserSetting>, user_id: i32, record_id: i32) -> bool {
    exists|i: int| 0 <= i < settings.len() && is_setting_of(settings[i], user_id, record_id)
}

/// No two rows of `settings` belong to the same user and record: the unique
/// key on which starring a record conflicts.
pub open spec fn settings_unique(settings: Seq<RecordUserSetting>) -> bool {
    forall|i: int, j: int|
        0 <= i < settings.len() && 0 <= j < settings.len() && i != j ==> !is_setting_of(
            settings[j],
            settings[i].user_id,
            settings[i].record_id,
        )
}

/// The setting row with the given columns.
pub open spec fn setting(user_id: i32, record_id: i32, starred: bool) -> RecordUserSetting {
    RecordUserSetting { user_id, record_id, starred }
}

/// `row`, with `starred` set where it is the setting of `user_id` for `record_id`.
pub open spec fn restar(row: RecordUserSetting, user_id: i32, record_id: i32, starred: bool) -> RecordUserSetting {
    if is_setting_of(row, user_id, record_id) {
        setting(user_id, record_id, starred)
    } else {
        row
    }
}

/// `settings` with `starred` set on every row of `user_id` and `record_id`.
pub open spec fn set_starred(
    settings: Seq<RecordUserSetting>,
    user_id: i32,
    record_id: i32,
    starred: bool,
) -> Seq<RecordUserSetting> {
    Seq::new(settings.len(), |i: int| restar(settings[i], user_id, record_id, starred))
}

/// `INSERT ... ON CONFLICT (user_id, record_id) DO UPDATE SET starred`: the
/// existing setting is updated, or a new one is added.
pub open spec fn upsert_starred(
    settings: Seq<RecordUserSetting>,
    user_id: i32,
    record_id: i32,
    starred: bool,
) -> Seq<RecordUserSetting> {
    if has_setting(settings, user_id, record_id) {
        set_starred(settings, user_id, record_id, starred)
    } else {
        settings.push(setting(user_id, record_id, starred))
    }
}

/// `row` is removed by deleting the settings of `record_ids`, of `user_id` where given.
pub open spec fn deleted_by(row: RecordUserSetting, record_ids: Seq<i32>, user_id: Option<i32>) -> bool {
    record_ids.contains(row.record_id) && match user_id {
        Some(u) => row.user_id == u,
        None => true,
    }
}

/// Keeps the setting rows that the deletion of `record_ids` (of `user_id`) spares.
pub open spec fn spared_by(record_ids: Seq<i32>, user_id: Option<i32>) -> spec_fn(RecordUserSetting) -> bool {
    |row: RecordUserSetting| !deleted_by(row, record_ids, user_id)
}

/// Keeps the subscriptions other than those of `user_id` to `source_id`.
pub open spec fn other_subscriptions(source_id: i32, user_id: i32) -> spec_fn(SourceUserSetting) -> bool {
    |sub: SourceUserSetting| !(sub.source_id == source_id && sub.user_id == user_id)
}

/// The tables after `w`.
pub open spec fn apply_write(t: Tables, w: Write) -> Tables {
    match w {
        Write::InsertRecordSetting(row) => Tables {
            records_user_settings: t.records_user_settings.push(row),
            ..t
        },
        Write::UpdateStarred { user_id, record_id, starred } => Tables {
            records_user_settings: set_starred(t.records_user_settings, user_id, record_id, starred),
            ..t
        },
        Write::DeleteRecordSettings { record_ids, of_user } => Tables {
            records_user_settings: t.records_user_settings.filter(spared_by(record_ids@, of_user)),
            ..t
        },
        Write::InsertSubscription(sub) => Tables {
            sources_user_settings: t.sources_user_settings.push(sub),
            ..t
        },
        Write::DeleteSubscriptions { source_id, user_id } => Tables {
            sources_user_settings: t.sources_user_settings.filter(other_subscriptions(source_id, user_id)),
            ..t
        },
    }
}

/// The tables after the writes `ws`, in order.
pub open spec fn apply_writes(t: Tables, ws: Seq<Write>) -> Tables
    decreases ws.len(),
{
    if ws.len() == 0 {
        t
    } else {
        apply_write(apply_writes(t, ws.drop_last()), ws.last())
    }
}

/// Applying one write is applying the sequence that holds it.
pub proof fn lemma_apply_one(t: Tables, w: Write)
    ensures
        apply_writes(t, seq![w]) == apply_write(t, w),
{
    reveal_with_fuel(apply_writes, 2);
    assert(seq![w].drop_last() =~= Seq::<Write>::empty());
}

/// Applying two writes is applying one after the other.
pub proof fn lemma_apply_two(t: Tables, w1: Write, w2: Write)
    ensures
        apply_writes(t, seq![w1, w2]) == apply_write(apply_write(t, w1), w2),
{
    assert(seq![w1, w2].drop_last() =~= seq![w1]);
    lemma_apply_one(t, w1);
}

} // verus!
