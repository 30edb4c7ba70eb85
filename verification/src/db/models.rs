use vstd::prelude::*;

verus! {

/// Clones an optional string, keeping its contents.
pub fn clone_opt_string(o: &Option<String>) -> (res: Option<String>)
    ensures
        res == *o,
{
    match o {
        Some(s) => Some(s.clone()),
        None => None,
    }
}

/// A row of the `records` table. `date` is the record's timestamp in
/// microseconds since the Unix epoch, the resolution of a PostgreSQL
/// `timestamp`.
#[derive(Debug, PartialEq, Eq)]
pub struct Record {
    pub id: i32,
    pub title: Option<String>,
    pub guid: String,
    pub source_id: i32,
    pub content: String,
    pub date: i64,
    pub image: Option<String>,
}

impl Clone for Record {
    fn clone(&self) -> (res: Self)
        ensures
            res == *self,
    {
        Record {
            id: self.id,
            title: clone_opt_string(&self.title),
            guid: self.guid.clone(),
            source_id: self.source_id,
            content: self.content.clone(),
            date: self.date,
            image: clone_opt_string(&self.image),
        }
    }
}

/// A row of the `records_user_settings` table: whether a user starred a record.
/// Its surrogate key is left out: no query reads it.
#[derive(Debug, PartialEq, Eq)]
pub struct RecordUserSetting {
    pub user_id: i32,
    pub record_id: i32,
    pub starred: bool,
}

impl Clone for RecordUserSetting {
    fn clone(&self) -> (res: Self)
        ensures
            res == *self,
    {
        RecordUserSetting { user_id: self.user_id, record_id: self.record_id, starred: self.starred }
    }
}

/// A row of the `sources` table. `last_scrape_time` is in microseconds
/// since the Unix epoch.
#[derive(Debug, PartialEq, Eq)]
pub struct Source {
    pub id: i32,
    pub name: String,
    pub origin: String,
    pub kind: String,
    pub image: Option<String>,
    pub last_scrape_time: i64,
}

impl Clone for Source {
    fn clone(&self) -> (res: Self)
        ensures
            res == *self,
    {
        Source {
            id: self.id,
            name: self.name.clone(),
            origin: self.origin.clone(),
            kind: self.kind.clone(),
            image: clone_opt_string(&self.image),
            last_scrape_time: self.last_scrape_time,
        }
    }
}

/// A row of the `sources_user_settings` table: a user's subscription to a
/// source. Its surrogate key is left out: no query reads it.
#[derive(Debug, PartialEq, Eq)]
pub struct SourceUserSetting {
    pub user_id: i32,
    pub source_id: i32,
}

impl Clone for SourceUserSetting {
    fn clone(&self) -> (res: Self)
        ensures
            res == *self,
    {
        SourceUserSetting { user_id: self.user_id, source_id: self.source_id }
    }
}

/// A row of the `users` table. `last_read_date` is in microseconds since
/// the Unix epoch.
#[derive(Debug, PartialEq, Eq)]
pub struct User {
    pub id: i32,
    pub last_read_date: i64,
    pub token: Option<String>,
}

impl Clone for User {
    fn clone(&self) -> (res: Self)
        ensures
            res == *self,
    {
        User { id: self.id, last_read_date: self.last_read_date, token: clone_opt_string(&self.token) }
    }
}

/// A record together with the starred flag that the query joined to it.
#[derive(Debug, PartialEq, Eq)]
pub struct RecordWithMeta {
    pub id: i32,
    pub title: Option<String>,
    pub guid: String,
    pub source_id: i32,
    pub content: String,
    pub date: i64,
    pub image: Option<String>,
    pub starred: Option<bool>,
}

impl Clone for RecordWithMeta {
    fn clone(&self) -> (res: Self)
        ensures
            res == *self,
    {
        RecordWithMeta {
            id: self.id,
            title: clone_opt_string(&self.title),
            guid: self.guid.clone(),
            source_id: self.source_id,
            content: self.content.clone(),
            date: self.date,
            image: clone_opt_string(&self.image),
            starred: self.starred,
        }
    }
}

/// The row that a query yields for record `r` joined with the flag `starred`.
pub open spec fn with_meta(r: Record, starred: Option<bool>) -> RecordWithMeta {
    RecordWithMeta {
        id: r.id,
        title: r.title,
        guid: r.guid,
        source_id: r.source_id,
        content: r.content,
        date: r.date,
        image: r.image,
        starred,
    }
}

/// Builds the row that a query yields for `r` joined with `starred`.
pub fn record_with_meta(r: &Record, starred: Option<bool>) -> (res: RecordWithMeta)
    ensures
        res == with_meta(*r, starred),
{
    RecordWithMeta {
        id: r.id,
        title: clone_opt_string(&r.title),
        guid: r.guid.clone(),
        source_id: r.source_id,
        content: r.content.clone(),
        date: r.date,
        image: clone_opt_string(&r.image),
        starred,
    }
}

/// The contents of the five tables, as sequences of rows.
pub ghost struct Tables {
    pub records: Seq<Record>,
    pub records_user_settings: Seq<RecordUserSetting>,
    pub sources: Seq<Source>,
    pub sources_user_settings: Seq<SourceUserSetting>,
    pub users: Seq<User>,
}

/// A snapshot of the database: the rows of each table, in the order in which
/// they were read.
#[derive(Debug, PartialEq, Eq)]
pub struct Database {
    pub records: Vec<Record>,
    pub records_user_settings: Vec<RecordUserSetting>,
    pub sources: Vec<Source>,
    pub sources_user_settings: Vec<SourceUserSetting>,
    pub users: Vec<User>,
}

impl View for Database {
    type V = Tables;

    open spec fn view(&self) -> Tables {
        Tables {
            records: self.records@,
            records_user_settings: self.records_user_settings@,
            sources: self.sources@,
            sources_user_settings: self.sources_user_settings@,
            users: self.users@,
        }
    }
}

impl Database {
    /// Builds a snapshot from the rows of each table.
    pub fn new(
        records: Vec<Record>,
        records_user_settings: Vec<RecordUserSetting>,
        sources: Vec<Source>,
        sources_user_settings: Vec<SourceUserSetting>,
        users: Vec<User>,
    ) -> (res: Database)
        ensures
            res.records@ == records@,
            res.records_user_settings@ == records_user_settings@,
            res.sources@ == sources@,
            res.sources_user_settings@ == sources_user_settings@,
            res.users@ == users@,
    {
        Database { records, records_user_settings, sources, sources_user_settings, users }
    }
}

} // verus!
