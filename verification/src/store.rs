//! The update/persistence protocol: batch idempotent upsert of per-interval
//! rows keyed by `(chart_id, date)`, and the per-chart freshness watermark.
//!
//! The storage engine itself is external; this module states the protocol's
//! semantics over a map model and proves them of an executable reference
//! store, which tests run against. The statement builder guarantees that an
//! empty batch issues no statement at all.

use vstd::prelude::*;
use vstd::map::*;
use crate::date::Date;
use crate::timestamp::Timestamp;
use crate::traits::Timespan;
use crate::values::TimespanValue;

verus! {

/// One row bound for the `chart_data` table.
#[derive(Clone, Debug, PartialEq, Eq)]
pub struct ChartDataRow {
    pub chart_id: i32,
    pub date: Date,
    pub value: String,
    pub min_blockscout_block: Option<i64>,
}

impl<T: Timespan + Copy> TimespanValue<T, String> {
    /// The row under which this observation is persisted: the interval is
    /// stored as its anchor date.
    pub fn active_model(&self, chart_id: i32, min_blockscout_block: Option<i64>) -> (r:
        ChartDataRow)
        requires
            self.timespan.wf(),
        ensures
            r.chart_id == chart_id,
            r.date.wf(),
            r.date.day_num() == self.timespan.anchor_day(),
            r.value@ == self.value@,
            r.min_blockscout_block == min_blockscout_block,
    {
        let ts = self.timespan;
        ChartDataRow { chart_id, date: ts.into_date(), value: self.value.clone(), min_blockscout_block }
    }
}

/// A persisted row, including the insertion-time fields the upsert never
/// overwrites.
#[derive(Clone, Debug, PartialEq, Eq)]
pub struct StoredRow {
    pub chart_id: i32,
    pub date: Date,
    pub value: String,
    pub min_blockscout_block: Option<i64>,
    pub created_at: Timestamp,
}

/// The mathematical model of one stored row.
pub struct RowModel {
    pub value: Seq<char>,
    pub min_blockscout_block: Option<i64>,
    pub created_at: int,
}

pub open spec fn stored_key(r: StoredRow) -> (int, int) {
    (r.chart_id as int, r.date.day_num())
}

pub open spec fn stored_model(r: StoredRow) -> RowModel {
    RowModel {
        value: r.value@,
        min_blockscout_block: r.min_blockscout_block,
        created_at: r.created_at.secs as int,
    }
}

pub open spec fn row_key(r: ChartDataRow) -> (int, int) {
    (r.chart_id as int, r.date.day_num())
}

/// The effect of upserting one row: the conflict target is the key; on
/// conflict, `value` and `min_blockscout_block` are overwritten and
/// `created_at` is kept; otherwise a fresh row is created at `now`.
pub open spec fn apply_row(
    m: Map<(int, int), RowModel>,
    row: ChartDataRow,
    now: int,
) -> Map<(int, int), RowModel> {
    let k = row_key(row);
    let created: int = if m.dom().contains(k) {
        m[k].created_at
    } else {
        now
    };
    m.insert(
        k,
        RowModel {
            value: row.value@,
            min_blockscout_block: row.min_blockscout_block,
            created_at: created,
        },
    )
}

/// The effect of one batch upsert, row by row in order.
pub open spec fn apply_rows(
    m: Map<(int, int), RowModel>,
    rows: Seq<ChartDataRow>,
    now: int,
) -> Map<(int, int), RowModel>
    decreases rows.len(),
{
    if rows.len() == 0 {
        m
    } else {
        apply_rows(apply_row(m, rows[0], now), rows.subrange(1, rows.len() as int), now)
    }
}

pub proof fn lemma_apply_rows_snoc(
    m: Map<(int, int), RowModel>,
    rows: Seq<ChartDataRow>,
    row: ChartDataRow,
    now: int,
)
    ensures
        apply_rows(m, rows.push(row), now) == apply_row(apply_rows(m, rows, now), row, now),
    decreases rows.len(),
{
    let s2 = rows.push(row);
    assert(s2.len() == rows.len() + 1);
    if rows.len() == 0 {
        assert(s2.subrange(1, s2.len() as int) =~= Seq::<ChartDataRow>::empty());
        assert(s2[0] == row);
        assert(apply_rows(m, s2, now) == apply_rows(apply_row(m, row, now), s2.subrange(1, s2.len() as int), now));
    } else {
        assert(s2[0] == rows[0]);
        assert(s2.subrange(1, s2.len() as int) =~= rows.subrange(1, rows.len() as int).push(row));
        assert(apply_rows(m, s2, now) == apply_rows(apply_row(m, rows[0], now), s2.subrange(1, s2.len() as int), now));
        lemma_apply_rows_snoc(apply_row(m, rows[0], now), rows.subrange(1, rows.len() as int), row, now);
    }
}

/// Index of the last row of a batch with the given key, or -1.
pub open spec fn last_occ(rows: Seq<ChartDataRow>, k: (int, int)) -> int
    decreases rows.len(),
{
    if rows.len() == 0 {
        -1
    } else if row_key(rows.last()) == k {
        rows.len() - 1
    } else {
        last_occ(rows.drop_last(), k)
    }
}

/// What a batch leaves under each key: nothing changes under a key no row
/// has; under a key some rows have, the last such row's `value` and
/// `min_blockscout_block` stand, and `created_at` is kept from the map or
/// set to `now` for a fresh key.
pub proof fn lemma_apply_rows_at(
    m: Map<(int, int), RowModel>,
    rows: Seq<ChartDataRow>,
    now: int,
    k: (int, int),
)
    ensures
        -1 <= last_occ(rows, k) < rows.len(),
        last_occ(rows, k) >= 0 ==> row_key(rows[last_occ(rows, k)]) == k,
        last_occ(rows, k) == -1 ==> apply_rows(m, rows, now).dom().contains(k)
            == m.dom().contains(k) && (m.dom().contains(k) ==> apply_rows(m, rows, now)[k]
            == m[k]),
        last_occ(rows, k) >= 0 ==> apply_rows(m, rows, now).dom().contains(k) && apply_rows(
            m,
            rows,
            now,
        )[k] == (RowModel {
            value: rows[last_occ(rows, k)].value@,
            min_blockscout_block: rows[last_occ(rows, k)].min_blockscout_block,
            created_at: if m.dom().contains(k) {
                m[k].created_at
            } else {
                now
            },
        }),
    decreases rows.len(),
{
    if rows.len() > 0 {
        let s = rows.drop_last();
        let r = rows.last();
        assert(s.push(r) =~= rows);
        lemma_apply_rows_snoc(m, s, r, now);
        lemma_apply_rows_at(m, s, now, k);
        let whole = apply_rows(m, rows, now);
        let inner = apply_rows(m, s, now);
        assert(whole == apply_row(inner, r, now));
        if row_key(r) == k {
            assert(last_occ(rows, k) == rows.len() - 1);
            assert(rows[last_occ(rows, k)] == r);
            assert(whole[k] == (RowModel {
                value: r.value@,
                min_blockscout_block: r.min_blockscout_block,
                created_at: if inner.dom().contains(k) {
                    inner[k].created_at
                } else {
                    now
                },
            }));
            if last_occ(s, k) >= 0 {
                assert(inner[k].created_at == (if m.dom().contains(k) {
                    m[k].created_at
                } else {
                    now
                }));
            }
        } else {
            assert(last_occ(rows, k) == last_occ(s, k));
            assert(whole.dom().contains(k) == inner.dom().contains(k));
            if last_occ(s, k) >= 0 {
                assert(rows[last_occ(rows, k)] == s[last_occ(s, k)]);
            }
        }
    }
}

/// Upsert idempotence: re-issuing the same batch — at any later time —
/// leaves the store exactly as after the first upsert; in particular each
/// row's `created_at` keeps its value from the first insert.
pub proof fn lemma_upsert_idempotent(
    m: Map<(int, int), RowModel>,
    rows: Seq<ChartDataRow>,
    now1: int,
    now2: int,
)
    ensures
        apply_rows(apply_rows(m, rows, now1), rows, now2) == apply_rows(m, rows, now1),
{
    let m1 = apply_rows(m, rows, now1);
    let m2 = apply_rows(m1, rows, now2);
    assert forall|k: (int, int)| #[trigger] m2.dom().contains(k) implies m1.dom().contains(k) by {
        lemma_apply_rows_at(m, rows, now1, k);
        lemma_apply_rows_at(m1, rows, now2, k);
    }
    assert forall|k: (int, int)| #[trigger] m1.dom().contains(k) implies m2.dom().contains(k)
        && m2[k] == m1[k] by {
        lemma_apply_rows_at(m, rows, now1, k);
        lemma_apply_rows_at(m1, rows, now2, k);
    }
    assert(m2.dom() =~= m1.dom());
    assert(m2 =~= m1);
}

/// A batch upsert statement, with the conflict target `(chart_id, date)`
/// and the conflict action of overwriting `value` and
/// `min_blockscout_block` implied by the protocol.
pub struct UpsertStatement {
    pub rows: Vec<ChartDataRow>,
}

/// Builds the one statement a batch needs, or none: an empty batch must not
/// issue a statement at all.
pub fn upsert_statement(data: Vec<ChartDataRow>) -> (r: Option<UpsertStatement>)
    ensures
        r is None <==> data@.len() == 0,
        r is Some ==> r.unwrap().rows@ == data@,
{
    if data.len() == 0 {
        None
    } else {
        Some(UpsertStatement { rows: data })
    }
}

/// An executable reference store for `chart_data`, holding at most one row
/// per `(chart_id, date)`.
pub struct ChartDataStore {
    rows: Vec<StoredRow>,
}

impl ChartDataStore {
    pub closed spec fn stored(self) -> Seq<StoredRow> {
        self.rows@
    }

    /// At most one row per key, and every date valid.
    pub open spec fn wf(self) -> bool {
        &&& forall|i: int, j: int|
            0 <= i < j < self.stored().len() ==> stored_key(self.stored()[i]) != stored_key(
                self.stored()[j],
            )
        &&& forall|i: int| 0 <= i < self.stored().len() ==> (#[trigger] self.stored()[i]).date.wf()
    }

    /// The store as a map from keys to row models.
    pub open spec fn as_map(self) -> Map<(int, int), RowModel> {
        map_of_rows(self.stored())
    }

    pub fn new() -> (r: Self)
        ensures
            r.wf(),
            r.stored().len() == 0,
            r.as_map() == Map::<(int, int), RowModel>::empty(),
    {
        ChartDataStore { rows: Vec::new() }
    }

    pub fn len(&self) -> (r: usize)
        ensures
            r == self.stored().len(),
    {
        self.rows.len()
    }

    /// The stored value and insertion time under a key, if any.
    pub fn get(&self, chart_id: i32, date: &Date) -> (r: Option<&StoredRow>)
        requires
            self.wf(),
            date.wf(),
        ensures
            r is Some <==> self.as_map().dom().contains((chart_id as int, date.day_num())),
            r is Some ==> stored_model(*r.unwrap()) == self.as_map()[
                (chart_id as int, date.day_num())
            ] && r.unwrap().chart_id == chart_id && r.unwrap().date == *date,
    {
        let ghost k = (chart_id as int, date.day_num());
        let mut i: usize = 0;
        while i < self.rows.len()
            invariant
                0 <= i <= self.rows@.len(),
                self.wf(),
                date.wf(),
                k == (chart_id as int, date.day_num()),
                forall|j: int| 0 <= j < i ==> stored_key(self.stored()[j]) != k,
            decreases self.rows@.len() - i,
        {
            if self.rows[i].chart_id == chart_id && self.rows[i].date == *date {
                proof {
                    lemma_map_at(self.stored(), i as int);
                }
                return Some(&self.rows[i]);
            }
            proof {
                let row = self.stored()[i as int];
                assert(row.date.wf());
                if stored_key(row) == k {
                    assert(row.chart_id == chart_id);
                    assert(row.date.day_num() == date.day_num());
                    crate::date::lemma_day_num_injective(
                        row.date.year as int,
                        row.date.month as int,
                        row.date.day as int,
                        date.year as int,
                        date.month as int,
                        date.day as int,
                    );
                    assert(row.date == *date);
                    assert(false);
                }
            }
            i = i + 1;
        }
        proof {
            lemma_map_dom(self.stored(), k);
        }
        None
    }

    /// Upserts one row.
    pub fn upsert_row(&mut self, row: &ChartDataRow, now: Timestamp)
        requires
            old(self).wf(),
            row.date.wf(),
        ensures
            final(self).wf(),
            final(self).as_map() == apply_row(old(self).as_map(), *row, now.secs as int),
    {
        let ghost k = row_key(*row);
        let ghost m0 = self.as_map();
        let mut i: usize = 0;
        while i < self.rows.len()
            invariant
                0 <= i <= self.rows@.len(),
                self.wf(),
                row.date.wf(),
                k == row_key(*row),
                m0 == old(self).as_map(),
                self.as_map() == m0,
                self.stored() == old(self).stored(),
                forall|j: int| 0 <= j < i ==> stored_key(self.stored()[j]) != k,
            decreases self.rows@.len() - i,
        {
            if self.rows[i].chart_id == row.chart_id && self.rows[i].date == row.date {
                let existing = self.rows.remove(i);
                let replacement = StoredRow {
                    chart_id: row.chart_id,
                    date: row.date,
                    value: row.value.clone(),
                    min_blockscout_block: row.min_blockscout_block,
                    created_at: existing.created_at,
                };
                self.rows.insert(i, replacement);
                proof {
                    let s_old = old(self).stored();
                    let s_new = self.stored();
                    assert(s_new =~= s_old.update(i as int, replacement));
                    lemma_map_at(s_old, i as int);
                    lemma_map_update(s_old, i as int, replacement);
                }
                return ;
            }
            proof {
                let r2 = self.stored()[i as int];
                assert(r2.date.wf());
                if stored_key(r2) == k {
                    assert(r2.chart_id == row.chart_id);
                    assert(r2.date.day_num() == row.date.day_num());
                    crate::date::lemma_day_num_injective(
                        r2.date.year as int,
                        r2.date.month as int,
                        r2.date.day as int,
                        row.date.year as int,
                        row.date.month as int,
                        row.date.day as int,
                    );
                    assert(r2.date == row.date);
                    assert(false);
                }
            }
            i = i + 1;
        }
        let fresh = StoredRow {
            chart_id: row.chart_id,
            date: row.date,
            value: row.value.clone(),
            min_blockscout_block: row.min_blockscout_block,
            created_at: now,
        };
        self.rows.push(fresh);
        proof {
            let s_old = old(self).stored();
            let s_new = self.stored();
            assert(s_new =~= s_old.push(fresh));
            assert(s_new.drop_last() =~= s_old);
            lemma_map_dom(s_old, k);
            assert(!map_of_rows(s_old).dom().contains(k));
        }
    }

    /// Applies one batch: a no-op on an empty batch, otherwise one upsert
    /// per row, in order. This is the protocol `insert_data_many` promises
    /// of the storage engine.
    pub fn insert_data_many(&mut self, data: &Vec<ChartDataRow>, now: Timestamp)
        requires
            old(self).wf(),
            forall|i: int| 0 <= i < data@.len() ==> (#[trigger] data@[i]).date.wf(),
        ensures
            final(self).wf(),
            final(self).as_map() == apply_rows(old(self).as_map(), data@, now.secs as int),
            data@.len() == 0 ==> *final(self) == *old(self),
    {
        let ghost m0 = self.as_map();
        let mut i: usize = 0;
        while i < data.len()
            invariant
                0 <= i <= data@.len(),
                self.wf(),
                forall|j: int| 0 <= j < data@.len() ==> (#[trigger] data@[j]).date.wf(),
                m0 == old(self).as_map(),
                self.as_map() == apply_rows(m0, data@.subrange(0, i as int), now.secs as int),
                i == 0 ==> *self == *old(self),
            decreases data@.len() - i,
        {
            proof {
                assert(data@.subrange(0, i as int).push(data@[i as int]) =~= data@.subrange(
                    0,
                    i as int + 1,
                ));
                lemma_apply_rows_snoc(m0, data@.subrange(0, i as int), data@[i as int], now.secs as int);
            }
            self.upsert_row(&data[i], now);
            i = i + 1;
        }
        proof {
            assert(data@.subrange(0, data@.len() as int) =~= data@);
        }
    }
}

/// The map described by a sequence of stored rows; on duplicate keys the
/// later row wins (a well-formed store has no duplicates).
pub open spec fn map_of_rows(rows: Seq<StoredRow>) -> Map<(int, int), RowModel>
    decreases rows.len(),
{
    if rows.len() == 0 {
        Map::empty()
    } else {
        map_of_rows(rows.drop_last()).insert(stored_key(rows.last()), stored_model(rows.last()))
    }
}

/// A key is in the map exactly when some row has it.
pub proof fn lemma_map_dom(rows: Seq<StoredRow>, k: (int, int))
    ensures
        map_of_rows(rows).dom().contains(k) <==> exists|i: int|
            0 <= i < rows.len() && stored_key(rows[i]) == k,
    decreases rows.len(),
{
    if rows.len() > 0 {
        lemma_map_dom(rows.drop_last(), k);
        if stored_key(rows.last()) == k {
            assert(stored_key(rows[rows.len() - 1]) == k);
        } else {
            if exists|i: int| 0 <= i < rows.len() && stored_key(rows[i]) == k {
                let i = choose|i: int| 0 <= i < rows.len() && stored_key(rows[i]) == k;
                assert(rows.drop_last()[i] == rows[i]);
            }
            if exists|i: int| 0 <= i < rows.len() - 1 && stored_key(rows.drop_last()[i]) == k {
                let i = choose|i: int|
                    0 <= i < rows.len() - 1 && stored_key(rows.drop_last()[i]) == k;
                assert(rows[i] == rows.drop_last()[i]);
            }
        }
    }
}

/// Under a unique index for a key, the map holds that row's model.
pub proof fn lemma_map_at(rows: Seq<StoredRow>, i: int)
    requires
        0 <= i < rows.len(),
        forall|j: int| 0 <= j < rows.len() && j != i ==> stored_key(rows[j]) != stored_key(rows[i]),
    ensures
        map_of_rows(rows).dom().contains(stored_key(rows[i])),
        map_of_rows(rows)[stored_key(rows[i])] == stored_model(rows[i]),
    decreases rows.len(),
{
    if i == rows.len() - 1 {
    } else {
        assert(rows.drop_last()[i] == rows[i]);
        lemma_map_at(rows.drop_last(), i);
        assert(stored_key(rows.last()) != stored_key(rows[i]));
    }
}

/// Replacing the unique row of a key updates the map at that key alone.
pub proof fn lemma_map_update(rows: Seq<StoredRow>, i: int, replacement: StoredRow)
    requires
        0 <= i < rows.len(),
        forall|a: int, b: int| 0 <= a < b < rows.len() ==> stored_key(rows[a]) != stored_key(rows[b]),
        stored_key(replacement) == stored_key(rows[i]),
    ensures
        map_of_rows(rows.update(i, replacement)) == map_of_rows(rows).insert(
            stored_key(replacement),
            stored_model(replacement),
        ),
{
    let lhs = map_of_rows(rows.update(i, replacement));
    let rhs = map_of_rows(rows).insert(stored_key(replacement), stored_model(replacement));
    let updated = rows.update(i, replacement);
    assert forall|k: (int, int)| lhs.dom().contains(k) <==> rhs.dom().contains(k) by {
        lemma_map_dom(updated, k);
        lemma_map_dom(rows, k);
        if exists|j: int| 0 <= j < updated.len() && stored_key(updated[j]) == k {
            let j = choose|j: int| 0 <= j < updated.len() && stored_key(updated[j]) == k;
            if j != i {
                assert(rows[j] == updated[j]);
            }
        }
        if exists|j: int| 0 <= j < rows.len() && stored_key(rows[j]) == k {
            let j = choose|j: int| 0 <= j < rows.len() && stored_key(rows[j]) == k;
            if j != i {
                assert(updated[j] == rows[j]);
            }
        }
    }
    assert forall|k: (int, int)| #[trigger] lhs.dom().contains(k) implies lhs[k] == rhs[k] by {
        lemma_map_dom(updated, k);
        let j = choose|j: int| 0 <= j < updated.len() && stored_key(updated[j]) == k;
        if j == i {
            lemma_map_at(updated, i);
        } else {
            assert(updated[j] == rows[j]);
            lemma_map_at(updated, j);
            lemma_map_at(rows, j);
        }
    }
    assert(lhs =~= rhs);
}

/// One chart's row in the `charts` table: identity and freshness watermark.
#[derive(Clone, Copy, Debug, PartialEq, Eq)]
pub struct ChartRow {
    pub id: i32,
    pub last_updated_at: Option<Timestamp>,
}

/// Failure of a watermark update.
#[derive(Clone, Copy, Debug, PartialEq, Eq, Structural)]
pub enum StoreError {
    RecordNotUpdated,
}

/// An executable reference store for the `charts` table.
pub struct ChartsStore {
    rows: Vec<ChartRow>,
}

impl ChartsStore {
    pub closed spec fn charts(self) -> Seq<ChartRow> {
        self.rows@
    }

    pub fn new() -> (r: Self)
        ensures
            r.charts().len() == 0,
    {
        ChartsStore { rows: Vec::new() }
    }

    pub fn add_chart(&mut self, id: i32)
        ensures
            final(self).charts() == old(self).charts().push(
                ChartRow { id, last_updated_at: None },
            ),
    {
        self.rows.push(ChartRow { id, last_updated_at: None });
    }

    /// Sets the freshness watermark of one chart: a point update filtered by
    /// chart id, independent of any data upsert. Fails exactly when no such
    /// chart row exists.
    pub fn set_last_updated_at(&mut self, chart_id: i32, at: Timestamp) -> (r: Result<
        (),
        StoreError,
    >)
        ensures
            final(self).charts().len() == old(self).charts().len(),
            forall|i: int|
                0 <= i < old(self).charts().len() ==> final(self).charts()[i] == (
                if old(self).charts()[i].id == chart_id {
                    ChartRow { id: chart_id, last_updated_at: Some(at) }
                } else {
                    old(self).charts()[i]
                }),
            r is Ok <==> exists|i: int|
                0 <= i < old(self).charts().len() && old(self).charts()[i].id == chart_id,
            r is Err ==> r == Result::<(), StoreError>::Err(StoreError::RecordNotUpdated),
    {
        let mut i: usize = 0;
        let mut found = false;
        while i < self.rows.len()
            invariant
                0 <= i <= self.rows@.len(),
                self.rows@.len() == old(self).charts().len(),
                forall|j: int|
                    0 <= j < i ==> self.rows@[j] == (if old(self).charts()[j].id == chart_id {
                        ChartRow { id: chart_id, last_updated_at: Some(at) }
                    } else {
                        old(self).charts()[j]
                    }),
                forall|j: int| i <= j < self.rows@.len() ==> self.rows@[j] == old(self).charts()[j],
                found <==> exists|j: int| 0 <= j < i && old(self).charts()[j].id == chart_id,
            decreases self.rows@.len() - i,
        {
            if self.rows[i].id == chart_id {
                let updated = ChartRow { id: chart_id, last_updated_at: Some(at) };
                self.rows.remove(i);
                self.rows.insert(i, updated);
                found = true;
                proof {
                    assert(old(self).charts()[i as int].id == chart_id);
                }
            }
            i = i + 1;
        }
        if found {
            Ok(())
        } else {
            Err(StoreError::RecordNotUpdated)
        }
    }

    /// The watermark of one chart, or `None` when the chart has no row.
    pub fn last_updated_at(&self, chart_id: i32) -> (r: Option<Option<Timestamp>>)
        ensures
            r is Some <==> exists|i: int|
                0 <= i < self.charts().len() && self.charts()[i].id == chart_id,
            r is Some ==> exists|i: int|
                0 <= i < self.charts().len() && self.charts()[i].id == chart_id && r.unwrap()
                    == self.charts()[i].last_updated_at,
    {
        let mut i: usize = 0;
        while i < self.rows.len()
            invariant
                0 <= i <= self.rows@.len(),
                forall|j: int| 0 <= j < i ==> self.charts()[j].id != chart_id,
            decreases self.rows@.len() - i,
        {
            if self.rows[i].id == chart_id {
                return Some(self.rows[i].last_updated_at);
            }
            i = i + 1;
        }
        None
    }
}

} // verus!
