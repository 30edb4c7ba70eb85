use vstd::prelude::*;

use crate::db::models::RecordWithMeta;
use vstd::multiset::Multiset;

verus! {

/// Inserts `x` into `s` before the first row whose date is older than `x`'s,
/// so that rows of equal date keep their arrival order.
pub open spec fn insert_by_date_desc(x: RecordWithMeta, s: Seq<RecordWithMeta>) -> Seq<RecordWithMeta>
    decreases s.len(),
{
    if s.len() == 0 {
        seq![x]
    } else if s[0].date >= x.date {
        seq![s[0]] + insert_by_date_desc(x, s.drop_first())
    } else {
        seq![x] + s
    }
}

/// The rows of `s`, newest first; rows of equal date keep their order in `s`
/// (`ORDER BY date DESC`, made stable).
pub open spec fn sort_by_date_desc(s: Seq<RecordWithMeta>) -> Seq<RecordWithMeta>
    decreases s.len(),
{
    if s.len() == 0 {
        s
    } else {
        insert_by_date_desc(s.last(), sort_by_date_desc(s.drop_last()))
    }
}

/// Every row of `s` is at least as new as every row after it.
pub open spec fn is_newest_first(s: Seq<RecordWithMeta>) -> bool {
    forall|i: int, j: int| 0 <= i < j < s.len() ==> s[i].date >= s[j].date
}

/// `OFFSET offset LIMIT limit` on `s`, for non-negative `offset` and `limit`.
pub open spec fn paginate<T>(s: Seq<T>, limit: int, offset: int) -> Seq<T> {
    let start = if offset < s.len() { offset } else { s.len() as int };
    let end = if limit < s.len() - start { start + limit } else { s.len() as int };
    s.subrange(start, end)
}

/// The index of the first row of `s` that is older than `x`, or `s.len()`.
pub open spec fn is_insert_position(x: RecordWithMeta, s: Seq<RecordWithMeta>, p: int) -> bool {
    &&& 0 <= p <= s.len()
    &&& forall|k: int| 0 <= k < p ==> s[k].date >= x.date
    &&& p < s.len() ==> s[p].date < x.date
}

/// Inserting at the first older row is `insert_by_date_desc`.
pub proof fn lemma_insert_at_position(x: RecordWithMeta, s: Seq<RecordWithMeta>, p: int)
    requires
        is_insert_position(x, s, p),
    ensures
        insert_by_date_desc(x, s) == s.insert(p, x),
    decreases s.len(),
{
    if s.len() == 0 {
        assert(s.insert(p, x) =~= seq![x]);
    } else if p == 0 {
        assert(s.insert(p, x) =~= seq![x] + s);
    } else {
        assert(s[0].date >= x.date);
        let t = s.drop_first();
        assert forall|k: int| 0 <= k < p - 1 implies t[k].date >= x.date by {
            assert(t[k] == s[k + 1]);
        }
        if p - 1 < t.len() {
            assert(t[p - 1] == s[p]);
        }
        lemma_insert_at_position(x, t, p - 1);
        assert(s.insert(p, x) =~= seq![s[0]] + t.insert(p - 1, x));
    }
}

/// Inserting keeps the rows of `s` and adds `x`.
pub proof fn lemma_insert_contents(x: RecordWithMeta, s: Seq<RecordWithMeta>)
    ensures
        insert_by_date_desc(x, s).len() == s.len() + 1,
        insert_by_date_desc(x, s).to_multiset() == s.to_multiset().insert(x),
    decreases s.len(),
{
    broadcast use vstd::multiset::group_multiset_axioms;
    broadcast use vstd::seq_lib::group_to_multiset_ensures;

    if s.len() == 0 {
        assert(seq![x] =~= s.push(x));
    } else if s[0].date >= x.date {
        let t = s.drop_first();
        lemma_insert_contents(x, t);
        assert(s =~= seq![s[0]] + t);
        vstd::seq_lib::lemma_multiset_commutative(seq![s[0]], t);
        vstd::seq_lib::lemma_multiset_commutative(seq![s[0]], insert_by_date_desc(x, t));
        assert(seq![s[0]].to_multiset() =~= Multiset::empty().insert(s[0])) by {
            assert(seq![s[0]] =~= Seq::<RecordWithMeta>::empty().push(s[0]));
        }
    } else {
        vstd::seq_lib::lemma_multiset_commutative(seq![x], s);
        assert(seq![x].to_multiset() =~= Multiset::empty().insert(x)) by {
            assert(seq![x] =~= Seq::<RecordWithMeta>::empty().push(x));
        }
    }
}

/// Inserting into a newest-first sequence keeps it newest first.
pub proof fn lemma_insert_keeps_order(x: RecordWithMeta, s: Seq<RecordWithMeta>)
    requires
        is_newest_first(s),
    ensures
        is_newest_first(insert_by_date_desc(x, s)),
        insert_by_date_desc(x, s).len() == s.len() + 1,
        forall|k: int|
            0 <= k < insert_by_date_desc(x, s).len() ==> (insert_by_date_desc(x, s)[k] == x
                || s.contains(insert_by_date_desc(x, s)[k])),
    decreases s.len(),
{
    if s.len() == 0 {
    } else if s[0].date >= x.date {
        let t = s.drop_first();
        assert(is_newest_first(t)) by {
            assert forall|i: int, j: int| 0 <= i < j < t.len() implies t[i].date >= t[j].date by {
                assert(t[i] == s[i + 1] && t[j] == s[j + 1]);
            }
        }
        lemma_insert_keeps_order(x, t);
        let r = insert_by_date_desc(x, t);
        assert forall|k: int| 0 <= k < r.len() implies r[k].date <= s[0].date by {
            if r[k] != x {
                let m = choose|m: int| 0 <= m < t.len() && t[m] == r[k];
                assert(t[m] == s[m + 1]);
            }
        }
        assert forall|k: int| 0 <= k < r.len() && r[k] != x implies s.contains(r[k]) by {
            let m = choose|m: int| 0 <= m < t.len() && t[m] == r[k];
            assert(s[m + 1] == r[k]);
        }
        let full = seq![s[0]] + r;
        assert forall|i: int, j: int| 0 <= i < j < full.len() implies full[i].date >= full[j].date by {
            if i > 0 {
                assert(full[i] == r[i - 1] && full[j] == r[j - 1]);
            } else {
                assert(full[j] == r[j - 1]);
            }
        }
        assert forall|k: int| 0 <= k < full.len() implies (full[k] == x || s.contains(full[k])) by {
            if k == 0 {
                assert(s[0] == full[0]);
            } else {
                assert(full[k] == r[k - 1]);
            }
        }
    } else {
        let full = seq![x] + s;
        assert forall|i: int, j: int| 0 <= i < j < full.len() implies full[i].date >= full[j].date by {
            if i > 0 {
                assert(full[i] == s[i - 1] && full[j] == s[j - 1]);
            } else {
                assert(full[j] == s[j - 1]);
            }
        }
        assert forall|k: int| 0 <= k < full.len() implies (full[k] == x || s.contains(full[k])) by {
            if k > 0 {
                assert(full[k] == s[k - 1]);
            }
        }
    }
}

/// Sorting yields a newest-first arrangement of the same rows.
pub proof fn lemma_sort_by_date_desc(s: Seq<RecordWithMeta>)
    ensures
        is_newest_first(sort_by_date_desc(s)),
        sort_by_date_desc(s).len() == s.len(),
        sort_by_date_desc(s).to_multiset() == s.to_multiset(),
    decreases s.len(),
{
    if s.len() > 0 {
        broadcast use vstd::seq_lib::group_to_multiset_ensures;

        lemma_sort_by_date_desc(s.drop_last());
        lemma_insert_keeps_order(s.last(), sort_by_date_desc(s.drop_last()));
        lemma_insert_contents(s.last(), sort_by_date_desc(s.drop_last()));
        assert(s =~= s.drop_last().push(s.last()));
    }
}

/// Inserts `x` into the newest-first vector `v` after every row at least as new.
fn insert_newest_first(v: &mut Vec<RecordWithMeta>, x: RecordWithMeta)
    ensures
        final(v)@ == insert_by_date_desc(x, old(v)@),
{
    let mut p: usize = 0;
    while p < v.len() && v[p].date >= x.date
        invariant
            0 <= p <= v.len(),
            forall|k: int| 0 <= k < p ==> v@[k].date >= x.date,
        decreases v.len() - p,
    {
        p = p + 1;
    }
    proof {
        lemma_insert_at_position(x, v@, p as int);
    }
    v.insert(p, x);
}

/// The rows of `rows`, newest first, rows of equal date in their given order.
pub fn sort_newest_first(rows: Vec<RecordWithMeta>) -> (res: Vec<RecordWithMeta>)
    ensures
        res@ == sort_by_date_desc(rows@),
{
    let mut res: Vec<RecordWithMeta> = Vec::new();
    let n = rows.len();
    for i in 0..n
        invariant
            n == rows.len(),
            res@ == sort_by_date_desc(rows@.take(i as int)),
    {
        let x = rows[i].clone();
        proof {
            assert(rows@.take(i + 1).drop_last() =~= rows@.take(i as int));
        }
        insert_newest_first(&mut res, x);
    }
    assert(rows@.take(n as int) =~= rows@);
    res
}

/// `OFFSET offset LIMIT limit` on `rows`.
pub fn paginate_rows(rows: Vec<RecordWithMeta>, limit: i64, offset: i64) -> (res: Vec<RecordWithMeta>)
    requires
        limit >= 0,
        offset >= 0,
    ensures
        res@ == paginate(rows@, limit as int, offset as int),
{
    let len = rows.len();
    let start: usize = if (offset as u64) < (len as u64) { offset as usize } else { len };
    let end: usize = if (limit as u64) < ((len - start) as u64) { start + limit as usize } else { len };
    let mut res: Vec<RecordWithMeta> = Vec::new();
    let mut i = start;
    while i < end
        invariant
            start <= i <= end <= len,
            len == rows.len(),
            res@ == rows@.subrange(start as int, i as int),
        decreases end - i,
    {
        res.push(rows[i].clone());
        assert(rows@.subrange(start as int, i + 1) =~= rows@.subrange(start as int, i as int).push(rows@[i as int]));
        i = i + 1;
    }
    res
}

} // verus!
