//! The session store: workout entries scoped by person and date. Rows of
//! one scope are created and destroyed in whole-scope batches, because
//! the group-contiguity invariant is scope-wide; the two replace
//! operations are atomic, so a refused insert phase leaves every row in
//! place.

use vstd::prelude::*;
use vstd::multiset::Multiset;
use vstd::relations::sorted_by;
use crate::dates::{date_value, date_value_of, valid_date};
use crate::errors::StoreError;
use crate::groups::{
    contiguous_from_one, group_set, lemma_distinct_count_is_card, lemma_group_set_has,
    lemma_renumber_contiguous, rank_fn, rank_in, renumber_seq,
};
use crate::models::{MAX_ROWS, WorkoutEntry};
use crate::seqs::{
    lemma_filter_all, lemma_filter_distinct_keys, lemma_filter_map_commute, lemma_filter_none,
    lemma_filter_push, lemma_map_push, lemma_take_push,
};
use crate::text::str_eq;

verus! {

/// The identifier a stored row carries.
pub open spec fn id_of(e: WorkoutEntry) -> i64 {
    match e.id {
        Some(i) => i,
        None => 0,
    }
}

/// Identifier extraction as a value, for the shared lemmas.
pub open spec fn id_fn() -> spec_fn(WorkoutEntry) -> i64 {
    |e: WorkoutEntry| id_of(e)
}

/// The group an entry belongs to; an absent group means group 1.
pub open spec fn eff_group(e: WorkoutEntry) -> i64 {
    match e.group_number {
        Some(g) => g,
        None => 1,
    }
}

/// The display order of an entry; absent means 0.
pub open spec fn eff_order(e: WorkoutEntry) -> i64 {
    match e.order_index {
        Some(o) => o,
        None => 0,
    }
}

/// Effective group extraction as a value.
pub open spec fn eff_group_fn() -> spec_fn(WorkoutEntry) -> i64 {
    |e: WorkoutEntry| eff_group(e)
}

/// The group numbers a batch of entries names.
pub open spec fn entry_groups(es: Seq<WorkoutEntry>) -> Seq<i64> {
    es.map_values(eff_group_fn())
}

/// The entry belongs to the scope of one person and date.
pub open spec fn in_scope(e: WorkoutEntry, p: i64, d: Seq<char>) -> bool {
    e.person_id == p && e.date@ == d
}

/// Scope membership as a value.
pub open spec fn scope_pred(p: i64, d: Seq<char>) -> spec_fn(WorkoutEntry) -> bool {
    |e: WorkoutEntry| in_scope(e, p, d)
}

/// Scope non-membership as a value.
pub open spec fn not_scope_pred(p: i64, d: Seq<char>) -> spec_fn(WorkoutEntry) -> bool {
    |e: WorkoutEntry| !in_scope(e, p, d)
}

/// The row is not named by the deletion list.
pub open spec fn kept_pred(ids: Seq<i64>) -> spec_fn(WorkoutEntry) -> bool {
    |e: WorkoutEntry| !ids.contains(id_of(e))
}

/// The row does not carry this identifier.
pub open spec fn other_id_pred(id: i64) -> spec_fn(WorkoutEntry) -> bool {
    |e: WorkoutEntry| id_of(e) != id
}

/// What the store makes of an entry when it inserts it: a fresh
/// identifier, and the optional order and group fields pinned to their
/// effective values.
pub open spec fn stamped(e: WorkoutEntry, id: i64) -> WorkoutEntry {
    WorkoutEntry {
        id: Some(id),
        order_index: Some(eff_order(e)),
        group_number: Some(eff_group(e)),
        ..e
    }
}

/// A batch stamped with consecutive identifiers from `start`.
pub open spec fn stamp_all(es: Seq<WorkoutEntry>, start: int) -> Seq<WorkoutEntry> {
    Seq::new(es.len(), |i: int| stamped(es[i], (start + i) as i64))
}

/// The effect of an update request on one row: the row the request names
/// takes its fields, with order and group pinned; creation and update
/// stamps stay as stored.
pub open spec fn apply_entry_update(u: WorkoutEntry) -> spec_fn(WorkoutEntry) -> WorkoutEntry {
    |r: WorkoutEntry|
        if u.id == Some(id_of(r)) {
            WorkoutEntry {
                id: r.id,
                person_id: u.person_id,
                exercise_id: u.exercise_id,
                date: u.date,
                sets: u.sets,
                reps: u.reps,
                weight: u.weight,
                notes: u.notes,
                order_index: Some(eff_order(u)),
                group_number: Some(eff_group(u)),
                created_at: r.created_at,
                updated_at: r.updated_at,
            }
        } else {
            r
        }
}

/// The effect of one display-order rewrite on one row.
pub open spec fn apply_order(pair: (i64, i64)) -> spec_fn(WorkoutEntry) -> WorkoutEntry {
    |r: WorkoutEntry|
        if id_of(r) == pair.0 {
            WorkoutEntry { order_index: Some(pair.1), ..r }
        } else {
            r
        }
}

/// The effect of a batch of display-order rewrites, applied in order.
pub open spec fn apply_orders(rows: Seq<WorkoutEntry>, pairs: Seq<(i64, i64)>) -> Seq<
    WorkoutEntry,
>
    decreases pairs.len(),
{
    if pairs.len() == 0 {
        rows
    } else {
        apply_orders(rows.map_values(apply_order(pairs[0])), pairs.drop_first())
    }
}

/// Applying one more rewrite maps the accumulated result once more.
pub proof fn lemma_apply_orders_snoc(rows: Seq<WorkoutEntry>, pairs: Seq<(i64, i64)>, i: int)
    requires
        0 <= i < pairs.len(),
    ensures
        apply_orders(rows, pairs.take(i + 1)) == apply_orders(rows, pairs.take(i)).map_values(
            apply_order(pairs[i]),
        ),
    decreases i + 1,
{
    if i == 0 {
        let one = pairs.take(1);
        assert(one.drop_first() =~= Seq::<(i64, i64)>::empty());
        assert(one[0] == pairs[0]);
        assert(pairs.take(0) =~= Seq::<(i64, i64)>::empty());
        assert(apply_orders(rows, one) == apply_orders(
            rows.map_values(apply_order(one[0])),
            one.drop_first(),
        ));
        assert(apply_orders(rows.map_values(apply_order(pairs[0])), Seq::<(i64, i64)>::empty())
            == rows.map_values(apply_order(pairs[0])));
        assert(apply_orders(rows, pairs.take(0)) == rows);
    } else {
        let rows2 = rows.map_values(apply_order(pairs[0]));
        let front = pairs.take(i + 1);
        let short = pairs.take(i);
        assert(front[0] == pairs[0]);
        assert(front.drop_first() =~= pairs.drop_first().take(i));
        assert(short[0] == pairs[0]);
        assert(short.drop_first() =~= pairs.drop_first().take(i - 1));
        assert(apply_orders(rows, front) == apply_orders(
            rows.map_values(apply_order(front[0])),
            front.drop_first(),
        ));
        assert(apply_orders(rows, short) == apply_orders(
            rows.map_values(apply_order(short[0])),
            short.drop_first(),
        ));
        lemma_apply_orders_snoc(rows2, pairs.drop_first(), i - 1);
        assert(pairs.drop_first()[i - 1] == pairs[i]);
    }
}

/// The session table.
#[derive(Debug)]
pub struct WorkoutStore {
    pub rows: Vec<WorkoutEntry>,
    pub next_id: i64,
}

impl WorkoutStore {
    /// Every stored row carries a positive identifier below the next
    /// free one, identifiers are distinct, dates are well-formed, and
    /// the row count stays within capacity.
    pub open spec fn wf(self) -> bool {
        &&& 1 <= self.next_id
        &&& self.rows@.len() <= MAX_ROWS as int
        &&& forall|i: int|
            0 <= i < self.rows@.len() ==> (#[trigger] self.rows@[i]).id == Some(
                id_of(self.rows@[i]),
            ) && 1 <= id_of(self.rows@[i]) < self.next_id && valid_date(self.rows@[i].date@)
        &&& forall|i: int, j: int|
            0 <= i < j < self.rows@.len() ==> id_of(#[trigger] self.rows@[i]) != id_of(
                #[trigger] self.rows@[j],
            )
    }

    /// The rows of one person-and-date scope, in store order.
    pub open spec fn session(self, p: i64, d: Seq<char>) -> Seq<WorkoutEntry> {
        self.rows@.filter(scope_pred(p, d))
    }

    /// The group numbers present in one scope.
    pub open spec fn session_groups(self, p: i64, d: Seq<char>) -> Seq<i64> {
        entry_groups(self.session(p, d))
    }

    /// The store has room for `n` more rows.
    pub open spec fn capacity_for(self, n: int) -> bool {
        self.rows@.len() + n <= MAX_ROWS as int && self.next_id + n <= i64::MAX as int
    }

    /// An empty table.
    pub fn new() -> (s: WorkoutStore)
        ensures
            s.wf(),
            s.rows@ =~= Seq::<WorkoutEntry>::empty(),
            s.next_id == 1,
    {
        WorkoutStore { rows: Vec::new(), next_id: 1 }
    }

    /// Append a batch of stamped rows; the caller has checked capacity.
    fn append_stamped(&mut self, entries: Vec<WorkoutEntry>)
        requires
            old(self).wf(),
            old(self).capacity_for(entries@.len() as int),
            forall|i: int|
                0 <= i < entries@.len() ==> valid_date((#[trigger] entries@[i]).date@),
        ensures
            final(self).wf(),
            final(self).rows@ == old(self).rows@ + stamp_all(entries@, old(self).next_id as int),
            final(self).next_id == old(self).next_id + entries@.len(),
    {
        let n = entries.len();
        let ghost start = self.next_id as int;
        let ghost orig = self.rows@;
        let mut i: usize = 0;
        while i < n
            invariant
                0 <= i <= n,
                n == entries@.len(),
                n <= MAX_ROWS,
                orig.len() + n <= MAX_ROWS as int,
                start + n <= i64::MAX as int,
                1 <= start,
                self.next_id == start + i,
                self.rows@ =~= orig + stamp_all(entries@.take(i as int), start),
                forall|k: int|
                    0 <= k < entries@.len() ==> valid_date((#[trigger] entries@[k]).date@),
                forall|k: int|
                    0 <= k < orig.len() ==> (#[trigger] orig[k]).id == Some(id_of(orig[k])) && 1
                        <= id_of(orig[k]) < start && valid_date(orig[k].date@),
                forall|k: int, l: int|
                    0 <= k < l < orig.len() ==> id_of(#[trigger] orig[k]) != id_of(
                        #[trigger] orig[l],
                    ),
            decreases n - i,
        {
            let e = entries[i].clone();
            let order = match e.order_index {
                Some(o) => o,
                None => 0,
            };
            let group = match e.group_number {
                Some(g) => g,
                None => 1,
            };
            let row = WorkoutEntry {
                id: Some(self.next_id),
                order_index: Some(order),
                group_number: Some(group),
                ..e
            };
            proof {
                assert(row == stamped(entries@[i as int], (start + i) as i64));
            }
            self.rows.push(row);
            self.next_id = self.next_id + 1;
            proof {
                assert(stamp_all(entries@.take(i + 1), start) =~= stamp_all(
                    entries@.take(i as int),
                    start,
                ).push(stamped(entries@[i as int], (start + i) as i64)));
            }
            i = i + 1;
        }
        proof {
            assert(entries@.take(n as int) =~= entries@);
            let fin = orig + stamp_all(entries@, start);
            assert forall|k: int| 0 <= k < fin.len() implies (#[trigger] fin[k]).id == Some(
                id_of(fin[k]),
            ) && 1 <= id_of(fin[k]) < self.next_id && valid_date(fin[k].date@) by {
                if k >= orig.len() {
                    assert(fin[k] == stamped(entries@[k - orig.len()], (start + k
                        - orig.len()) as i64));
                }
            }
            assert forall|k: int, l: int| 0 <= k < l < fin.len() implies id_of(#[trigger] fin[k])
                != id_of(#[trigger] fin[l]) by {
                if k >= orig.len() {
                    assert(fin[k] == stamped(entries@[k - orig.len()], (start + k
                        - orig.len()) as i64));
                }
                if l >= orig.len() {
                    assert(fin[l] == stamped(entries@[l - orig.len()], (start + l
                        - orig.len()) as i64));
                }
            }
        }
    }

    /// Check room for `n` more rows, then append the stamped batch:
    /// all of it, or none of it.
    fn insert_batch(&mut self, entries: Vec<WorkoutEntry>) -> (r: Result<(), StoreError>)
        requires
            old(self).wf(),
            forall|i: int|
                0 <= i < entries@.len() ==> valid_date((#[trigger] entries@[i]).date@),
        ensures
            final(self).wf(),
            r is Ok <==> old(self).capacity_for(entries@.len() as int),
            match r {
                Ok(()) => {
                    &&& final(self).rows@ == old(self).rows@ + stamp_all(
                        entries@,
                        old(self).next_id as int,
                    )
                    &&& final(self).next_id == old(self).next_id + entries@.len()
                },
                Err(e) => e == StoreError::Storage && *final(self) == *old(self),
            },
    {
        let n = entries.len();
        if n > MAX_ROWS || self.rows.len() > MAX_ROWS - n || self.next_id > i64::MAX - (n as i64) {
            return Err(StoreError::Storage);
        }
        self.append_stamped(entries);
        Ok(())
    }

    /// Insert one validated entry as a fresh row.
    pub fn create(&mut self, entry: WorkoutEntry) -> (r: Result<(), StoreError>)
        requires
            old(self).wf(),
            valid_date(entry.date@),
        ensures
            final(self).wf(),
            r is Ok <==> old(self).capacity_for(1),
            match r {
                Ok(()) => {
                    &&& final(self).rows@ == old(self).rows@.push(
                        stamped(entry, old(self).next_id),
                    )
                    &&& final(self).next_id == old(self).next_id + 1
                },
                Err(e) => e == StoreError::Storage && *final(self) == *old(self),
            },
    {
        let mut batch: Vec<WorkoutEntry> = Vec::new();
        batch.push(entry);
        let r = self.insert_batch(batch);
        proof {
            if r is Ok {
                assert(old(self).rows@ + stamp_all(batch@, old(self).next_id as int) =~= old(
                    self,
                ).rows@.push(stamped(batch@[0], old(self).next_id)));
            }
        }
        r
    }

    /// Insert a batch of validated entries inside one transaction: all
    /// of them, or none.
    pub fn create_batch(&mut self, entries: Vec<WorkoutEntry>) -> (r: Result<(), StoreError>)
        requires
            old(self).wf(),
            forall|i: int|
                0 <= i < entries@.len() ==> valid_date((#[trigger] entries@[i]).date@),
        ensures
            final(self).wf(),
            r is Ok <==> old(self).capacity_for(entries@.len() as int),
            match r {
                Ok(()) => {
                    &&& final(self).rows@ == old(self).rows@ + stamp_all(
                        entries@,
                        old(self).next_id as int,
                    )
                    &&& final(self).next_id == old(self).next_id + entries@.len()
                },
                Err(e) => e == StoreError::Storage && *final(self) == *old(self),
            },
    {
        self.insert_batch(entries)
    }

    /// There is room to replace the scope's rows with `n` new ones.
    pub open spec fn replace_fits(self, p: i64, d: Seq<char>, n: int) -> bool {
        self.rows@.filter(not_scope_pred(p, d)).len() + n <= MAX_ROWS as int && self.next_id + n
            <= i64::MAX as int
    }

    /// The surviving rows of a delete-by-scope, cloned; the store itself
    /// is untouched.
    fn surviving_rows(&self, person_id: i64, date: &str) -> (kept: Vec<WorkoutEntry>)
        requires
            self.wf(),
        ensures
            kept@ == self.rows@.filter(not_scope_pred(person_id, date@)),
    {
        let ghost p = person_id;
        let ghost d = date@;
        let ghost pred = not_scope_pred(p, d);
        let mut kept: Vec<WorkoutEntry> = Vec::new();
        let mut i: usize = 0;
        while i < self.rows.len()
            invariant
                0 <= i <= self.rows@.len(),
                pred == not_scope_pred(p, d),
                d == date@,
                p == person_id,
                kept@ =~= self.rows@.take(i as int).filter(pred),
            decreases self.rows@.len() - i,
        {
            let row = &self.rows[i];
            let same_scope = row.person_id == person_id && str_eq(row.date.as_str(), date);
            if !same_scope {
                kept.push(row.clone());
            }
            proof {
                lemma_take_push(self.rows@, i as int);
                lemma_filter_push(self.rows@.take(i as int), self.rows@[i as int], pred);
            }
            i = i + 1;
        }
        proof {
            assert(self.rows@.take(self.rows@.len() as int) =~= self.rows@);
        }
        kept
    }

    /// The well-formedness facts of a filtered row set.
    proof fn lemma_kept_wf(self, pred: spec_fn(WorkoutEntry) -> bool)
        requires
            self.wf(),
        ensures
            self.rows@.filter(pred).len() <= self.rows@.len(),
            forall|k: int|
                0 <= k < self.rows@.filter(pred).len() ==> (#[trigger] self.rows@.filter(
                    pred,
                )[k]).id == Some(id_of(self.rows@.filter(pred)[k])) && 1 <= id_of(
                    self.rows@.filter(pred)[k],
                ) < self.next_id && valid_date(self.rows@.filter(pred)[k].date@) && pred(
                    self.rows@.filter(pred)[k],
                ),
            forall|k: int, l: int|
                0 <= k < l < self.rows@.filter(pred).len() ==> id_of(
                    #[trigger] self.rows@.filter(pred)[k],
                ) != id_of(#[trigger] self.rows@.filter(pred)[l]),
    {
        let kept = self.rows@.filter(pred);
        self.rows@.lemma_filter_len(pred);
        broadcast use vstd::seq_lib::group_filter_ensures;

        lemma_filter_distinct_keys(self.rows@, pred, id_fn());
        assert forall|k: int| 0 <= k < kept.len() implies (#[trigger] kept[k]).id == Some(
            id_of(kept[k]),
        ) && 1 <= id_of(kept[k]) < self.next_id && valid_date(kept[k].date@) && pred(kept[k]) by {
            assert(kept.contains(kept[k]));
            self.rows@.lemma_filter_contains_rev(pred, kept[k]);
            assert(self.rows@.contains(kept[k]));
            let w = choose|w: int| 0 <= w < self.rows@.len() && self.rows@[w] == kept[k];
        }
        assert forall|k: int, l: int| 0 <= k < l < kept.len() implies id_of(#[trigger] kept[k])
            != id_of(#[trigger] kept[l]) by {
            assert(forall|i: int, j: int|
                0 <= i < j < self.rows@.len() ==> id_fn()(#[trigger] self.rows@[i]) != id_fn()(
                    #[trigger] self.rows@[j],
                ));
        }
    }

    /// Atomically replace one scope: delete every row of `(person,
    /// date)`, then insert the batch, which the caller has validated;
    /// an empty batch just clears the day. A refusal leaves every row
    /// in place.
    pub fn replace_session(
        &mut self,
        person_id: i64,
        date: &str,
        entries: Vec<WorkoutEntry>,
    ) -> (r: Result<(), StoreError>)
        requires
            old(self).wf(),
            valid_date(date@),
            forall|i: int| 0 <= i < entries@.len() ==> in_scope(#[trigger] entries@[i], person_id, date@),
            entries@.len() > 0 ==> contiguous_from_one(group_set(entry_groups(entries@))),
        ensures
            final(self).wf(),
            r is Ok <==> old(self).replace_fits(person_id, date@, entries@.len() as int),
            match r {
                Ok(()) => {
                    &&& final(self).rows@ == old(self).rows@.filter(
                        not_scope_pred(person_id, date@),
                    ) + stamp_all(entries@, old(self).next_id as int)
                    &&& final(self).next_id == old(self).next_id + entries@.len()
                    &&& final(self).session(person_id, date@) == stamp_all(
                        entries@,
                        old(self).next_id as int,
                    )
                    &&& contiguous_from_one(
                        group_set(final(self).session_groups(person_id, date@)),
                    )
                },
                Err(e) => e == StoreError::Storage && *final(self) == *old(self),
            },
    {
        let ghost p = person_id;
        let ghost d = date@;
        let ghost pred = not_scope_pred(p, d);
        let n = entries.len();
        let kept = self.surviving_rows(person_id, date);
        proof {
            self.lemma_kept_wf(pred);
        }
        if n > MAX_ROWS || kept.len() > MAX_ROWS - n || self.next_id > i64::MAX - (n as i64) {
            return Err(StoreError::Storage);
        }
        self.rows = kept;
        self.append_stamped(entries);
        proof {
            let fin = self.rows@;
            let kept_part = old(self).rows@.filter(pred);
            let new_part = stamp_all(entries@, old(self).next_id as int);
            assert(fin == kept_part + new_part);
            Seq::filter_distributes_over_add(kept_part, new_part, scope_pred(p, d));
            lemma_filter_none(kept_part, scope_pred(p, d));
            assert forall|k: int| 0 <= k < new_part.len() implies scope_pred(p, d)(
                #[trigger] new_part[k],
            ) by {
                assert(new_part[k] == stamped(entries@[k], (old(self).next_id + k) as i64));
            }
            lemma_filter_all(new_part, scope_pred(p, d));
            assert(fin.filter(scope_pred(p, d)) =~= new_part);
            assert(entry_groups(new_part) =~= entry_groups(entries@)) by {
                assert forall|k: int| 0 <= k < new_part.len() implies entry_groups(new_part)[k]
                    == entry_groups(entries@)[k] by {
                    assert(new_part[k] == stamped(entries@[k], (old(self).next_id + k) as i64));
                    assert(entry_groups(new_part)[k] == eff_group(new_part[k]));
                    assert(entry_groups(entries@)[k] == eff_group(entries@[k]));
                    assert(eff_group(stamped(entries@[k], (old(self).next_id + k) as i64))
                        == eff_group(entries@[k]));
                }
            }
            if entries@.len() == 0 {
                assert(group_set(entry_groups(new_part)) =~= Set::<int>::empty());
            }
        }
        Ok(())
    }

    /// There is room for the granular replace.
    pub open spec fn granular_fits(self, ids: Seq<i64>, n: int) -> bool {
        self.rows@.filter(kept_pred(ids)).len() + n <= MAX_ROWS as int && self.next_id + n
            <= i64::MAX as int
    }

    /// Atomically delete the rows the identifier list names, then insert
    /// the batch. A refusal leaves every row in place, the named ones
    /// included: the two phases commit together or not at all.
    pub fn replace_session_granular(
        &mut self,
        ids_to_delete: Vec<i64>,
        entries_to_insert: Vec<WorkoutEntry>,
    ) -> (r: Result<(), StoreError>)
        requires
            old(self).wf(),
            forall|i: int|
                0 <= i < entries_to_insert@.len() ==> valid_date(
                    (#[trigger] entries_to_insert@[i]).date@,
                ),
        ensures
            final(self).wf(),
            r is Ok <==> old(self).granular_fits(
                ids_to_delete@,
                entries_to_insert@.len() as int,
            ),
            match r {
                Ok(()) => {
                    &&& final(self).rows@ == old(self).rows@.filter(kept_pred(ids_to_delete@))
                        + stamp_all(entries_to_insert@, old(self).next_id as int)
                    &&& final(self).next_id == old(self).next_id + entries_to_insert@.len()
                },
                Err(e) => e == StoreError::Storage && *final(self) == *old(self),
            },
    {
        let ghost pred = kept_pred(ids_to_delete@);
        let n = entries_to_insert.len();
        let mut kept: Vec<WorkoutEntry> = Vec::new();
        let mut i: usize = 0;
        while i < self.rows.len()
            invariant
                0 <= i <= self.rows@.len(),
                pred == kept_pred(ids_to_delete@),
                kept@ =~= self.rows@.take(i as int).filter(pred),
            decreases self.rows@.len() - i,
        {
            let row = &self.rows[i];
            let rid = match row.id {
                Some(v) => v,
                None => 0,
            };
            if !crate::groups::vec_contains(&ids_to_delete, rid) {
                kept.push(row.clone());
            }
            proof {
                lemma_take_push(self.rows@, i as int);
                lemma_filter_push(self.rows@.take(i as int), self.rows@[i as int], pred);
            }
            i = i + 1;
        }
        proof {
            assert(self.rows@.take(self.rows@.len() as int) =~= self.rows@);
            self.lemma_kept_wf(pred);
        }
        if n > MAX_ROWS || kept.len() > MAX_ROWS - n || self.next_id > i64::MAX - (n as i64) {
            return Err(StoreError::Storage);
        }
        self.rows = kept;
        self.append_stamped(entries_to_insert);
        Ok(())
    }

    /// Rewrite the row the request names with the request's fields; the
    /// stored creation and update stamps stay. Naming no row changes
    /// nothing; either way the call succeeds.
    pub fn update(&mut self, entry: WorkoutEntry) -> (r: Result<(), StoreError>)
        requires
            old(self).wf(),
            valid_date(entry.date@),
        ensures
            final(self).wf(),
            r is Ok,
            final(self).next_id == old(self).next_id,
            final(self).rows@ == old(self).rows@.map_values(apply_entry_update(entry)),
    {
        let ghost f = apply_entry_update(entry);
        let mut out: Vec<WorkoutEntry> = Vec::new();
        let mut i: usize = 0;
        while i < self.rows.len()
            invariant
                0 <= i <= self.rows@.len(),
                f == apply_entry_update(entry),
                valid_date(entry.date@),
                out@ =~= self.rows@.take(i as int).map_values(f),
            decreases self.rows@.len() - i,
        {
            let row = &self.rows[i];
            let rid = match row.id {
                Some(v) => v,
                None => 0,
            };
            let named = match entry.id {
                Some(eid) => eid == rid,
                None => false,
            };
            if named {
                let order = match entry.order_index {
                    Some(o) => o,
                    None => 0,
                };
                let group = match entry.group_number {
                    Some(g) => g,
                    None => 1,
                };
                out.push(
                    WorkoutEntry {
                        id: row.id,
                        person_id: entry.person_id,
                        exercise_id: entry.exercise_id,
                        date: entry.date.clone(),
                        sets: entry.sets,
                        reps: entry.reps,
                        weight: entry.weight,
                        notes: crate::models::clone_opt_string(&entry.notes),
                        order_index: Some(order),
                        group_number: Some(group),
                        created_at: crate::models::clone_opt_string(&row.created_at),
                        updated_at: crate::models::clone_opt_string(&row.updated_at),
                    },
                );
            } else {
                out.push(row.clone());
            }
            proof {
                lemma_take_push(self.rows@, i as int);
                lemma_map_push(self.rows@.take(i as int), self.rows@[i as int], f);
            }
            i = i + 1;
        }
        proof {
            assert(self.rows@.take(self.rows@.len() as int) =~= self.rows@);
        }
        self.rows = out;
        proof {
            assert forall|k: int| 0 <= k < self.rows@.len() implies (#[trigger] self.rows@[k]).id
                == Some(id_of(self.rows@[k])) && 1 <= id_of(self.rows@[k]) < self.next_id
                && valid_date(self.rows@[k].date@) by {
                assert(self.rows@[k] == f(old(self).rows@[k]));
            }
            assert forall|k: int, l: int| 0 <= k < l < self.rows@.len() implies id_of(
                #[trigger] self.rows@[k],
            ) != id_of(#[trigger] self.rows@[l]) by {
                assert(self.rows@[k] == f(old(self).rows@[k]));
                assert(self.rows@[l] == f(old(self).rows@[l]));
            }
        }
        Ok(())
    }

    /// Hard-delete the row the identifier names, if any.
    pub fn delete(&mut self, id: i64) -> (r: Result<(), StoreError>)
        requires
            old(self).wf(),
        ensures
            final(self).wf(),
            r is Ok,
            final(self).next_id == old(self).next_id,
            final(self).rows@ == old(self).rows@.filter(other_id_pred(id)),
    {
        let ghost pred = other_id_pred(id);
        let mut kept: Vec<WorkoutEntry> = Vec::new();
        let mut i: usize = 0;
        while i < self.rows.len()
            invariant
                0 <= i <= self.rows@.len(),
                pred == other_id_pred(id),
                kept@ =~= self.rows@.take(i as int).filter(pred),
            decreases self.rows@.len() - i,
        {
            let row = &self.rows[i];
            let rid = match row.id {
                Some(v) => v,
                None => 0,
            };
            if rid != id {
                kept.push(row.clone());
            }
            proof {
                lemma_take_push(self.rows@, i as int);
                lemma_filter_push(self.rows@.take(i as int), self.rows@[i as int], pred);
            }
            i = i + 1;
        }
        proof {
            assert(self.rows@.take(self.rows@.len() as int) =~= self.rows@);
            self.lemma_kept_wf(pred);
        }
        self.rows = kept;
        Ok(())
    }

    /// Hard-delete every row of one scope.
    pub fn delete_by_person_and_date(&mut self, person_id: i64, date: &str) -> (r: Result<
        (),
        StoreError,
    >)
        requires
            old(self).wf(),
            valid_date(date@),
        ensures
            final(self).wf(),
            r is Ok,
            final(self).next_id == old(self).next_id,
            final(self).rows@ == old(self).rows@.filter(not_scope_pred(person_id, date@)),
    {
        let kept = self.surviving_rows(person_id, date);
        proof {
            self.lemma_kept_wf(not_scope_pred(person_id, date@));
        }
        self.rows = kept;
        Ok(())
    }

    /// Look a row up by identifier.
    pub fn get_by_id(&self, id: i64) -> (r: Option<WorkoutEntry>)
        requires
            self.wf(),
        ensures
            match r {
                Some(e) => exists|i: int|
                    0 <= i < self.rows@.len() && id_of(#[trigger] self.rows@[i]) == id && e
                        == self.rows@[i],
                None => forall|i: int|
                    0 <= i < self.rows@.len() ==> id_of(#[trigger] self.rows@[i]) != id,
            },
    {
        let mut i: usize = 0;
        while i < self.rows.len()
            invariant
                0 <= i <= self.rows@.len(),
                forall|j: int| 0 <= j < i ==> id_of(#[trigger] self.rows@[j]) != id,
            decreases self.rows@.len() - i,
        {
            let row = &self.rows[i];
            let rid = match row.id {
                Some(v) => v,
                None => 0,
            };
            if rid == id {
                return Some(row.clone());
            }
            i = i + 1;
        }
        None
    }

    /// Apply each `(identifier, order)` pair as an unconditional rewrite,
    /// in order; later pairs win. No uniqueness or contiguity is checked:
    /// the display order is advisory.
    pub fn update_exercise_order(&mut self, exercise_orders: Vec<(i64, i64)>) -> (r: Result<
        (),
        StoreError,
    >)
        requires
            old(self).wf(),
        ensures
            final(self).wf(),
            r is Ok,
            final(self).next_id == old(self).next_id,
            final(self).rows@ == apply_orders(old(self).rows@, exercise_orders@),
    {
        let mut p: usize = 0;
        while p < exercise_orders.len()
            invariant
                0 <= p <= exercise_orders@.len(),
                self.wf(),
                self.next_id == old(self).next_id,
                self.rows@ == apply_orders(old(self).rows@, exercise_orders@.take(p as int)),
            decreases exercise_orders@.len() - p,
        {
            let (target, order) = exercise_orders[p];
            let ghost f = apply_order(exercise_orders@[p as int]);
            let ghost before = self.rows@;
            let mut out: Vec<WorkoutEntry> = Vec::new();
            let mut i: usize = 0;
            while i < self.rows.len()
                invariant
                    0 <= i <= self.rows@.len(),
                    f == apply_order((target, order)),
                    out@ =~= self.rows@.take(i as int).map_values(f),
                decreases self.rows@.len() - i,
            {
                let row = &self.rows[i];
                let rid = match row.id {
                    Some(v) => v,
                    None => 0,
                };
                if rid == target {
                    let mut updated = row.clone();
                    updated.order_index = Some(order);
                    out.push(updated);
                } else {
                    out.push(row.clone());
                }
                proof {
                    lemma_take_push(self.rows@, i as int);
                    lemma_map_push(self.rows@.take(i as int), self.rows@[i as int], f);
                }
                i = i + 1;
            }
            proof {
                assert(self.rows@.take(self.rows@.len() as int) =~= self.rows@);
            }
            self.rows = out;
            proof {
                assert forall|k: int| 0 <= k < self.rows@.len() implies (
                #[trigger] self.rows@[k]).id == Some(id_of(self.rows@[k])) && 1 <= id_of(
                    self.rows@[k],
                ) < self.next_id && valid_date(self.rows@[k].date@) by {
                    assert(self.rows@[k] == f(before[k]));
                }
                assert forall|k: int, l: int| 0 <= k < l < self.rows@.len() implies id_of(
                    #[trigger] self.rows@[k],
                ) != id_of(#[trigger] self.rows@[l]) by {
                    assert(self.rows@[k] == f(before[k]));
                    assert(self.rows@[l] == f(before[l]));
                }
                lemma_apply_orders_snoc(old(self).rows@, exercise_orders@, p as int);
                assert(exercise_orders@[p as int] == (target, order));
            }
            p = p + 1;
        }
        proof {
            assert(exercise_orders@.take(exercise_orders@.len() as int) =~= exercise_orders@);
        }
        Ok(())
    }

    /// Rows matching a predicate, cloned, each with a valid date.
    fn collect_rows(&self, person_id: i64, lo: i64, hi: i64, by_range: bool) -> (r: Vec<
        WorkoutEntry,
    >)
        requires
            self.wf(),
        ensures
            by_range ==> r@ == self.rows@.filter(range_pred(person_id, lo as int, hi as int)),
            !by_range ==> r@ == self.rows@.filter(person_pred(person_id)),
            forall|i: int| 0 <= i < r@.len() ==> valid_date((#[trigger] r@[i]).date@),
    {
        let ghost pred: spec_fn(WorkoutEntry) -> bool = if by_range {
            range_pred(person_id, lo as int, hi as int)
        } else {
            person_pred(person_id)
        };
        let mut out: Vec<WorkoutEntry> = Vec::new();
        let mut i: usize = 0;
        while i < self.rows.len()
            invariant
                0 <= i <= self.rows@.len(),
                self.wf(),
                pred == if by_range {
                    range_pred(person_id, lo as int, hi as int)
                } else {
                    person_pred(person_id)
                },
                out@ =~= self.rows@.take(i as int).filter(pred),
                forall|k: int| 0 <= k < out@.len() ==> valid_date((#[trigger] out@[k]).date@),
            decreases self.rows@.len() - i,
        {
            let row = &self.rows[i];
            let hit = if by_range {
                let v = date_value_of(row.date.as_str());
                row.person_id == person_id && lo <= v && v <= hi
            } else {
                row.person_id == person_id
            };
            if hit {
                out.push(row.clone());
            }
            proof {
                lemma_take_push(self.rows@, i as int);
                lemma_filter_push(self.rows@.take(i as int), self.rows@[i as int], pred);
            }
            i = i + 1;
        }
        proof {
            assert(self.rows@.take(self.rows@.len() as int) =~= self.rows@);
        }
        out
    }

    /// The rows of one scope, cloned, in store order.
    pub fn session_rows(&self, person_id: i64, date: &str) -> (r: Vec<WorkoutEntry>)
        requires
            self.wf(),
        ensures
            r@ == self.session(person_id, date@),
    {
        let ghost p = person_id;
        let ghost d = date@;
        let ghost pred = scope_pred(p, d);
        let mut out: Vec<WorkoutEntry> = Vec::new();
        let mut i: usize = 0;
        while i < self.rows.len()
            invariant
                0 <= i <= self.rows@.len(),
                pred == scope_pred(p, d),
                d == date@,
                p == person_id,
                out@ =~= self.rows@.take(i as int).filter(pred),
            decreases self.rows@.len() - i,
        {
            let row = &self.rows[i];
            if row.person_id == person_id && str_eq(row.date.as_str(), date) {
                out.push(row.clone());
            }
            proof {
                lemma_take_push(self.rows@, i as int);
                lemma_filter_push(self.rows@.take(i as int), self.rows@[i as int], pred);
            }
            i = i + 1;
        }
        proof {
            assert(self.rows@.take(self.rows@.len() as int) =~= self.rows@);
        }
        out
    }

    /// The rows of one person inside a date range, ordered by date
    /// descending, then display order ascending, then creation
    /// descending.
    pub fn get_by_person_and_date_range(&self, person_id: i64, start_date: &str, end_date: &str)
        -> (r: Vec<WorkoutEntry>)
        requires
            self.wf(),
            valid_date(start_date@),
            valid_date(end_date@),
        ensures
            entries_sorted(r@),
            sorted_by(r@, entry_le_fn()),
            r@ == arranged_entries(
                self.rows@.filter(
                    range_pred(person_id, date_value(start_date@), date_value(end_date@)),
                ),
            ),
            r@.to_multiset() == self.rows@.filter(
                range_pred(person_id, date_value(start_date@), date_value(end_date@)),
            ).to_multiset(),
    {
        let lo = date_value_of(start_date);
        let hi = date_value_of(end_date);
        let collected = self.collect_rows(person_id, lo, hi, true);
        let sorted = sort_entries(collected);
        proof {
            let pred = range_pred(person_id, date_value(start_date@), date_value(end_date@));
            lemma_store_rows_distinct(*self, pred);
            lemma_entries_arranged(self.rows@.filter(pred), sorted@);
        }
        sorted
    }

    /// Every row of one person, ordered the same way.
    pub fn get_by_person(&self, person_id: i64) -> (r: Vec<WorkoutEntry>)
        requires
            self.wf(),
        ensures
            entries_sorted(r@),
            sorted_by(r@, entry_le_fn()),
            r@ == arranged_entries(self.rows@.filter(person_pred(person_id))),
            r@.to_multiset() == self.rows@.filter(person_pred(person_id)).to_multiset(),
    {
        let collected = self.collect_rows(person_id, 0, 0, false);
        let sorted = sort_entries(collected);
        proof {
            lemma_store_rows_distinct(*self, person_pred(person_id));
            lemma_entries_arranged(self.rows@.filter(person_pred(person_id)), sorted@);
        }
        sorted
    }

    /// Every row of the table, ordered the same way.
    pub fn list_all(&self) -> (r: Vec<WorkoutEntry>)
        requires
            self.wf(),
        ensures
            entries_sorted(r@),
            sorted_by(r@, entry_le_fn()),
            r@ == arranged_entries(self.rows@),
            r@.to_multiset() == self.rows@.to_multiset(),
    {
        let mut all: Vec<WorkoutEntry> = Vec::new();
        let mut i: usize = 0;
        while i < self.rows.len()
            invariant
                0 <= i <= self.rows@.len(),
                self.wf(),
                all@ =~= self.rows@.take(i as int),
            decreases self.rows@.len() - i,
        {
            all.push(self.rows[i].clone());
            proof {
                lemma_take_push(self.rows@, i as int);
            }
            i = i + 1;
        }
        proof {
            assert(self.rows@.take(self.rows@.len() as int) =~= self.rows@);
            assert forall|k: int| 0 <= k < all@.len() implies valid_date(
                (#[trigger] all@[k]).date@,
            ) by {
                assert(all@[k] == self.rows@[k]);
            }
        }
        let sorted = sort_entries(all);
        proof {
            assert(forall|i: int, j: int|
                0 <= i < j < self.rows@.len() ==> id_fn()(#[trigger] self.rows@[i]) != id_fn()(
                    #[trigger] self.rows@[j],
                ));
            lemma_entries_arranged(self.rows@, sorted@);
        }
        sorted
    }
}

/// Group compaction per row: a row of the scope takes the rank of its
/// group in the scope's group set; other rows are untouched.
pub open spec fn renumber_row(p: i64, d: Seq<char>, s: Set<int>) -> spec_fn(WorkoutEntry) -> WorkoutEntry {
    |e: WorkoutEntry|
        if in_scope(e, p, d) {
            WorkoutEntry { group_number: Some(rank_in(s, eff_group(e) as int) as i64), ..e }
        } else {
            e
        }
}

impl WorkoutStore {
    /// The set of group numbers present in one scope.
    pub open spec fn scope_groups_set(self, p: i64, d: Seq<char>) -> Set<int> {
        group_set(self.session_groups(p, d))
    }

    /// The distinct group numbers of one scope, in first-appearance
    /// order; the store is untouched.
    fn distinct_scope_groups(&self, person_id: i64, date: &str) -> (dv: Vec<i64>)
        requires
            self.wf(),
            valid_date(date@),
        ensures
            forall|a: int, b: int| 0 <= a < b < dv@.len() ==> dv@[a] != dv@[b],
            group_set(dv@) == self.scope_groups_set(person_id, date@),
            dv@.len() <= self.rows@.len(),
    {
        let ghost p = person_id;
        let ghost d = date@;
        let ghost pred = scope_pred(p, d);
        let mut dv: Vec<i64> = Vec::new();
        let mut i: usize = 0;
        while i < self.rows.len()
            invariant
                0 <= i <= self.rows@.len(),
                self.wf(),
                pred == scope_pred(p, d),
                d == date@,
                p == person_id,
                forall|a: int, b: int| 0 <= a < b < dv@.len() ==> dv@[a] != dv@[b],
                group_set(dv@) == group_set(
                    entry_groups(self.rows@.take(i as int).filter(pred)),
                ),
                dv@.len() <= i,
            decreases self.rows@.len() - i,
        {
            let row = &self.rows[i];
            let ghost old_dv = dv@;
            let ghost prefix_groups = entry_groups(self.rows@.take(i as int).filter(pred));
            let in_this_scope = row.person_id == person_id && str_eq(row.date.as_str(), date);
            if in_this_scope {
                let g = match row.group_number {
                    Some(v) => v,
                    None => 1,
                };
                if !crate::groups::vec_contains(&dv, g) {
                    dv.push(g);
                }
                proof {
                    if old_dv.contains(g) {
                        lemma_group_set_has(old_dv, g);
                        assert(group_set(old_dv).insert(g as int) =~= group_set(old_dv));
                    } else {
                        assert(dv@.drop_last() == old_dv);
                        assert(group_set(dv@) == group_set(old_dv).insert(g as int));
                        assert forall|a: int, b: int| 0 <= a < b < dv@.len() implies dv@[a]
                            != dv@[b] by {
                            if b == dv@.len() - 1 {
                                assert(dv@[a] == old_dv[a]);
                                assert(!old_dv.contains(g));
                            }
                        }
                    }
                }
            }
            proof {
                lemma_take_push(self.rows@, i as int);
                lemma_filter_push(self.rows@.take(i as int), self.rows@[i as int], pred);
                if pred(self.rows@[i as int]) {
                    lemma_map_push(
                        self.rows@.take(i as int).filter(pred),
                        self.rows@[i as int],
                        eff_group_fn(),
                    );
                    let next_groups = entry_groups(self.rows@.take(i + 1).filter(pred));
                    assert(next_groups == prefix_groups.push(eff_group(self.rows@[i as int])));
                    assert(next_groups.drop_last() == prefix_groups);
                    assert(group_set(next_groups) == group_set(prefix_groups).insert(
                        eff_group(self.rows@[i as int]) as int,
                    ));
                } else {
                    assert(entry_groups(self.rows@.take(i + 1).filter(pred)) == entry_groups(
                        self.rows@.take(i as int).filter(pred),
                    ));
                }
            }
            i = i + 1;
        }
        proof {
            assert(self.rows@.take(self.rows@.len() as int) =~= self.rows@);
        }
        dv
    }

    /// Compact the scope's group numbers to `1..N`, keeping the relative
    /// order of the groups; rows outside the scope are untouched. Run
    /// twice in a row, the second call changes nothing.
    pub fn renumber_groups(&mut self, person_id: i64, date: &str) -> (r: Result<(), StoreError>)
        requires
            old(self).wf(),
            valid_date(date@),
        ensures
            final(self).wf(),
            r is Ok,
            final(self).next_id == old(self).next_id,
            final(self).rows@ == old(self).rows@.map_values(
                renumber_row(person_id, date@, old(self).scope_groups_set(person_id, date@)),
            ),
            final(self).session_groups(person_id, date@) == renumber_seq(
                old(self).session_groups(person_id, date@),
            ),
            contiguous_from_one(final(self).scope_groups_set(person_id, date@)),
    {
        let ghost p = person_id;
        let ghost d = date@;
        let ghost s = old(self).scope_groups_set(p, d);
        let ghost f = renumber_row(p, d, s);
        let dv = self.distinct_scope_groups(person_id, date);
        let mut out: Vec<WorkoutEntry> = Vec::new();
        let mut i: usize = 0;
        while i < self.rows.len()
            invariant
                0 <= i <= self.rows@.len(),
                *self == *old(self),
                self.wf(),
                valid_date(d),
                d == date@,
                p == person_id,
                s == self.scope_groups_set(p, d),
                f == renumber_row(p, d, s),
                forall|a: int, b: int| 0 <= a < b < dv@.len() ==> dv@[a] != dv@[b],
                group_set(dv@) == s,
                dv@.len() <= self.rows@.len(),
                out@ =~= self.rows@.take(i as int).map_values(f),
            decreases self.rows@.len() - i,
        {
            let row = &self.rows[i];
            let in_this_scope = row.person_id == person_id && str_eq(row.date.as_str(), date);
            if in_this_scope {
                let g = match row.group_number {
                    Some(v) => v,
                    None => 1,
                };
                let c = crate::groups::count_below(&dv, g);
                proof {
                    dv@.lemma_filter_len(crate::groups::lt_pred(g));
                    crate::groups::lemma_distinct_count_is_card(dv@, g);
                    assert(c + 1 == rank_in(s, g as int));
                }
                let mut updated = row.clone();
                updated.group_number = Some((c as i64) + 1);
                out.push(updated);
                proof {
                    assert(eff_group(self.rows@[i as int]) == g);
                    assert(out@.last() == f(self.rows@[i as int]));
                }
            } else {
                out.push(row.clone());
            }
            proof {
                lemma_take_push(self.rows@, i as int);
                lemma_map_push(self.rows@.take(i as int), self.rows@[i as int], f);
            }
            i = i + 1;
        }
        proof {
            assert(self.rows@.take(self.rows@.len() as int) =~= self.rows@);
        }
        self.rows = out;
        proof {
            assert forall|k: int| 0 <= k < self.rows@.len() implies (#[trigger] self.rows@[k]).id
                == Some(id_of(self.rows@[k])) && 1 <= id_of(self.rows@[k]) < self.next_id
                && valid_date(self.rows@[k].date@) by {
                assert(self.rows@[k] == f(old(self).rows@[k]));
            }
            assert forall|k: int, l: int| 0 <= k < l < self.rows@.len() implies id_of(
                #[trigger] self.rows@[k],
            ) != id_of(#[trigger] self.rows@[l]) by {
                assert(self.rows@[k] == f(old(self).rows@[k]));
                assert(self.rows@[l] == f(old(self).rows@[l]));
            }
            assert forall|x: WorkoutEntry|
                scope_pred(p, d)(#[trigger] f(x)) == scope_pred(p, d)(x) by {}
            lemma_filter_map_commute(old(self).rows@, f, scope_pred(p, d));
            assert(self.session(p, d) =~= old(self).session(p, d).map_values(f));
            let old_groups = old(self).session_groups(p, d);
            old(self).rows@.lemma_filter_len(scope_pred(p, d));
            assert(old_groups.len() <= MAX_ROWS as int);
            assert(self.session_groups(p, d) =~= renumber_seq(old_groups)) by {
                lemma_renumber_contiguous(old_groups);
                assert forall|k: int| 0 <= k < old_groups.len() implies self.session_groups(p, d)[k]
                    == renumber_seq(old_groups)[k] by {
                    let e = old(self).session(p, d)[k];
                    assert(self.session(p, d)[k] == f(e));
                    assert(in_scope(e, p, d)) by {
                        old(self).rows@.lemma_filter_pred(scope_pred(p, d), k);
                    }
                    assert(old_groups[k] == eff_group(e));
                    assert(eff_group(f(e)) == rank_in(s, eff_group(e) as int) as i64);
                    assert(renumber_seq(old_groups)[k] == rank_fn(group_set(old_groups))(
                        old_groups[k],
                    ));
                }
            }
            lemma_renumber_contiguous(old_groups);
        }
        Ok(())
    }
}

/// The fields of an entry that a caller chooses, as opposed to the
/// identifier the store assigns and the stamps it keeps.
pub open spec fn content_of(e: WorkoutEntry) -> (
    i64,
    i64,
    Seq<char>,
    Option<i64>,
    Option<i64>,
    Option<i64>,
    i64,
    i64,
) {
    (e.person_id, e.exercise_id, e.date@, e.sets, e.reps, e.weight, eff_order(e), eff_group(e))
}

/// Content extraction as a value.
pub open spec fn content_fn() -> spec_fn(WorkoutEntry) -> (
    i64,
    i64,
    Seq<char>,
    Option<i64>,
    Option<i64>,
    Option<i64>,
    i64,
    i64,
) {
    |e: WorkoutEntry| content_of(e)
}

/// On a store whose dates are all valid, the date-range filter with one
/// day at both ends selects exactly that day's scope.
pub proof fn lemma_session_is_range(s: WorkoutStore, p: i64, d: Seq<char>)
    requires
        s.wf(),
        valid_date(d),
    ensures
        s.rows@.filter(range_pred(p, date_value(d), date_value(d))) == s.session(p, d),
{
    assert forall|i: int| 0 <= i < s.rows@.len() implies range_pred(p, date_value(d), date_value(d))(
        #[trigger] s.rows@[i],
    ) == scope_pred(p, d)(s.rows@[i]) by {
        let e = s.rows@[i];
        if e.person_id == p {
            if date_value(e.date@) == date_value(d) {
                crate::dates::lemma_date_value_injective(e.date@, d);
            }
        }
    }
    crate::seqs::lemma_filter_equiv(
        s.rows@,
        range_pred(p, date_value(d), date_value(d)),
        scope_pred(p, d),
    );
}

/// Stamping assigns identifiers and pins the optional fields; it keeps
/// every chosen field.
pub proof fn lemma_stamp_preserves_content(es: Seq<WorkoutEntry>, start: int)
    ensures
        stamp_all(es, start).map_values(content_fn()) =~= es.map_values(content_fn()),
{
    assert forall|i: int| 0 <= i < es.len() implies stamp_all(es, start).map_values(content_fn())[i]
        == es.map_values(content_fn())[i] by {
        assert(stamp_all(es, start)[i] == stamped(es[i], (start + i) as i64));
        assert(content_of(stamped(es[i], (start + i) as i64)) == content_of(es[i]));
    }
}

/// Law: clearing a scope and then storing a batch there makes the
/// day's read return exactly that batch — the same chosen fields,
/// entry for entry, with nothing lost or invented. The two store
/// states are the ones the two replacements leave behind.
pub proof fn lemma_replace_round_trip(
    s0: WorkoutStore,
    s1: WorkoutStore,
    s2: WorkoutStore,
    p: i64,
    d: Seq<char>,
    entries: Seq<WorkoutEntry>,
)
    requires
        s0.wf(),
        s2.wf(),
        valid_date(d),
        forall|i: int| 0 <= i < entries.len() ==> in_scope(#[trigger] entries[i], p, d),
        s1.rows@ == s0.rows@.filter(not_scope_pred(p, d)) + stamp_all(
            Seq::<WorkoutEntry>::empty(),
            s0.next_id as int,
        ),
        s2.rows@ == s1.rows@.filter(not_scope_pred(p, d)) + stamp_all(entries, s1.next_id as int),
        s2.session(p, d) == stamp_all(entries, s1.next_id as int),
    ensures
        s2.rows@.filter(range_pred(p, date_value(d), date_value(d))).map_values(content_fn())
            == entries.map_values(content_fn()),
{
    lemma_session_is_range(s2, p, d);
    lemma_stamp_preserves_content(entries, s1.next_id as int);
}

/// Law: compacting a scope's rows is idempotent at the level of whole
/// rows: applying the compaction map to its own result changes no row.
pub proof fn lemma_renumber_rows_stable(rows: Seq<WorkoutEntry>, p: i64, d: Seq<char>)
    requires
        rows.len() <= MAX_ROWS as int,
    ensures
        ({
            let s = group_set(entry_groups(rows.filter(scope_pred(p, d))));
            let once = rows.map_values(renumber_row(p, d, s));
            let s1 = group_set(entry_groups(once.filter(scope_pred(p, d))));
            once.map_values(renumber_row(p, d, s1)) == once
        }),
{
    let s = group_set(entry_groups(rows.filter(scope_pred(p, d))));
    let f1 = renumber_row(p, d, s);
    let once = rows.map_values(f1);
    let g = entry_groups(rows.filter(scope_pred(p, d)));
    rows.lemma_filter_len(scope_pred(p, d));
    assert(g.len() <= MAX_ROWS as int);
    crate::groups::lemma_group_set(g);
    crate::groups::lemma_group_set_card(g);
    assert forall|x: WorkoutEntry| scope_pred(p, d)(#[trigger] f1(x)) == scope_pred(p, d)(x) by {}
    lemma_filter_map_commute(rows, f1, scope_pred(p, d));
    assert(once.filter(scope_pred(p, d)) =~= rows.filter(scope_pred(p, d)).map_values(f1));
    let g1 = entry_groups(once.filter(scope_pred(p, d)));
    assert(g1 =~= renumber_seq(g)) by {
        lemma_renumber_contiguous(g);
        assert forall|k: int| 0 <= k < g.len() implies g1[k] == renumber_seq(g)[k] by {
            let e = rows.filter(scope_pred(p, d))[k];
            rows.lemma_filter_pred(scope_pred(p, d), k);
            assert(once.filter(scope_pred(p, d))[k] == f1(e));
            assert(g[k] == eff_group(e));
            assert(eff_group(f1(e)) == rank_in(s, eff_group(e) as int) as i64);
            assert(renumber_seq(g)[k] == rank_fn(group_set(g))(g[k]));
        }
    }
    let s1 = group_set(g1);
    lemma_renumber_contiguous(g);
    assert(contiguous_from_one(s1));
    crate::groups::lemma_group_set(g1);
    let f2 = renumber_row(p, d, s1);
    assert forall|i: int| 0 <= i < once.len() implies #[trigger] once.map_values(f2)[i]
        == once[i] by {
        let r1 = once[i];
        assert(r1 == f1(rows[i]));
        if in_scope(r1, p, d) {
            assert(in_scope(rows[i], p, d));
            assert(rows.filter(scope_pred(p, d)).contains(rows[i])) by {
                rows.lemma_filter_contains(scope_pred(p, d), i);
            }
            let w = choose|w: int|
                0 <= w < rows.filter(scope_pred(p, d)).len() && rows.filter(scope_pred(p, d))[w]
                    == rows[i];
            assert(g[w] == eff_group(rows[i]));
            assert(g.contains(eff_group(rows[i])));
            crate::groups::lemma_group_set_has(g, eff_group(rows[i]));
            crate::groups::lemma_rank_bounds(s, eff_group(rows[i]) as int);
            let g1v = eff_group(r1);
            assert(g1v == rank_in(s, eff_group(rows[i]) as int) as i64);
            assert(once.filter(scope_pred(p, d)).contains(r1)) by {
                once.lemma_filter_contains(scope_pred(p, d), i);
            }
            let w2 = choose|w: int|
                0 <= w < once.filter(scope_pred(p, d)).len() && once.filter(scope_pred(p, d))[w]
                    == r1;
            assert(g1[w2] == g1v);
            assert(g1.contains(g1v));
            crate::groups::lemma_group_set_has(g1, g1v);
            crate::groups::lemma_rank_identity(s1, g1v as int);
            assert(r1.group_number == Some(g1v));
            assert(f2(r1) == r1);
        } else {
            assert(f2(r1) == r1);
        }
    }
    assert(once.map_values(f2) =~= once);
}

/// The row belongs to the person.
pub open spec fn person_pred(p: i64) -> spec_fn(WorkoutEntry) -> bool {
    |e: WorkoutEntry| e.person_id == p
}

/// The row belongs to the person and its date value lies in the range.
pub open spec fn range_pred(p: i64, lo: int, hi: int) -> spec_fn(WorkoutEntry) -> bool {
    |e: WorkoutEntry| e.person_id == p && lo <= date_value(e.date@) && date_value(e.date@) <= hi
}

/// The read-path order: date descending, then display order ascending,
/// then creation (identifier) descending.
pub open spec fn entry_le(a: WorkoutEntry, b: WorkoutEntry) -> bool {
    if date_value(a.date@) != date_value(b.date@) {
        date_value(a.date@) > date_value(b.date@)
    } else if eff_order(a) != eff_order(b) {
        eff_order(a) < eff_order(b)
    } else {
        id_of(a) >= id_of(b)
    }
}

/// The read-path order as a value.
pub open spec fn entry_le_fn() -> spec_fn(WorkoutEntry, WorkoutEntry) -> bool {
    |a: WorkoutEntry, b: WorkoutEntry| entry_le(a, b)
}

/// The read-path order relates every pair, composes, and separates
/// rows with different identifiers.
pub proof fn lemma_entry_le_props()
    ensures
        forall|a: WorkoutEntry, b: WorkoutEntry| #[trigger] entry_le(a, b) || #[trigger] entry_le(b, a),
        forall|a: WorkoutEntry, b: WorkoutEntry, c: WorkoutEntry|
            #[trigger] entry_le(a, b) && #[trigger] entry_le(b, c) ==> entry_le(a, c),
        forall|a: WorkoutEntry, b: WorkoutEntry|
            #[trigger] entry_le(a, b) && #[trigger] entry_le(b, a) ==> id_of(a) == id_of(b),
{
}

/// The one arrangement of a row set in the read-path order.
pub open spec fn arranged_entries(rows: Seq<WorkoutEntry>) -> Seq<WorkoutEntry> {
    choose|q: Seq<WorkoutEntry>|
        sorted_by(q, entry_le_fn()) && #[trigger] q.to_multiset() == rows.to_multiset()
}

/// The one sorted arrangement of a distinct-identifier row set is
/// whatever sorted, row-preserving sequence one exhibits.
pub proof fn lemma_entries_arranged(base: Seq<WorkoutEntry>, sorted: Seq<WorkoutEntry>)
    requires
        sorted_by(sorted, entry_le_fn()),
        sorted.to_multiset() == base.to_multiset(),
        forall|i: int, j: int|
            0 <= i < j < base.len() ==> id_fn()(#[trigger] base[i]) != id_fn()(#[trigger] base[j]),
    ensures
        arranged_entries(base) == sorted,
{
    lemma_entry_le_props();
    let q0 = arranged_entries(base);
    assert(sorted_by(q0, entry_le_fn()) && q0.to_multiset() == base.to_multiset()) by {
        assert(exists|q: Seq<WorkoutEntry>|
            sorted_by(q, entry_le_fn()) && #[trigger] q.to_multiset() == base.to_multiset());
    }
    crate::seqs::lemma_multiset_distinct_keys(base, sorted, id_fn());
    assert forall|a: WorkoutEntry, b: WorkoutEntry|
        #[trigger] entry_le_fn()(a, b) && #[trigger] entry_le_fn()(b, a) implies id_fn()(a)
        == id_fn()(b) by {
        assert(entry_le(a, b) && entry_le(b, a));
    }
    crate::seqs::lemma_sorted_unique_keys(sorted, q0, entry_le_fn(), id_fn());
}

/// Rows of a well-formed store, filtered any way, carry distinct
/// identifiers.
pub proof fn lemma_store_rows_distinct(s: WorkoutStore, pred: spec_fn(WorkoutEntry) -> bool)
    requires
        s.wf(),
    ensures
        forall|i: int, j: int|
            0 <= i < j < s.rows@.filter(pred).len() ==> id_fn()(
                #[trigger] s.rows@.filter(pred)[i],
            ) != id_fn()(#[trigger] s.rows@.filter(pred)[j]),
{
    assert(forall|i: int, j: int|
        0 <= i < j < s.rows@.len() ==> id_fn()(#[trigger] s.rows@[i]) != id_fn()(
            #[trigger] s.rows@[j],
        ));
    lemma_filter_distinct_keys(s.rows@, pred, id_fn());
}

/// The executable comparator.
fn entry_le_exec(a: &WorkoutEntry, b: &WorkoutEntry) -> (r: bool)
    requires
        valid_date(a.date@),
        valid_date(b.date@),
    ensures
        r == entry_le(*a, *b),
{
    let da = date_value_of(a.date.as_str());
    let db = date_value_of(b.date.as_str());
    if da != db {
        return da > db;
    }
    let oa = match a.order_index {
        Some(o) => o,
        None => 0,
    };
    let ob = match b.order_index {
        Some(o) => o,
        None => 0,
    };
    if oa != ob {
        return oa < ob;
    }
    let ia = match a.id {
        Some(i) => i,
        None => 0,
    };
    let ib = match b.id {
        Some(i) => i,
        None => 0,
    };
    ia >= ib
}

/// The rows stand in the read-path order.
pub open spec fn entries_sorted(s: Seq<WorkoutEntry>) -> bool {
    forall|i: int, j: int| 0 <= i < j < s.len() ==> entry_le(#[trigger] s[i], #[trigger] s[j])
}

/// Sort rows by the read-path order; the result holds exactly the given
/// rows.
fn sort_entries(v: Vec<WorkoutEntry>) -> (r: Vec<WorkoutEntry>)
    requires
        forall|i: int| 0 <= i < v@.len() ==> valid_date((#[trigger] v@[i]).date@),
    ensures
        entries_sorted(r@),
        sorted_by(r@, entry_le_fn()),
        r@.to_multiset() == v@.to_multiset(),
        forall|i: int| 0 <= i < r@.len() ==> valid_date((#[trigger] r@[i]).date@),
{
    broadcast use vstd::seq_lib::group_to_multiset_ensures;
    broadcast use vstd::multiset::group_multiset_axioms;

    let mut src = v;
    let mut out: Vec<WorkoutEntry> = Vec::new();
    while src.len() > 0
        invariant
            entries_sorted(out@),
            out@.to_multiset().add(src@.to_multiset()) =~= v@.to_multiset(),
            forall|i: int, j: int|
                0 <= i < out@.len() && 0 <= j < src@.len() ==> entry_le(
                    #[trigger] out@[i],
                    #[trigger] src@[j],
                ),
            forall|i: int| 0 <= i < src@.len() ==> valid_date((#[trigger] src@[i]).date@),
            forall|i: int| 0 <= i < out@.len() ==> valid_date((#[trigger] out@[i]).date@),
        decreases src@.len(),
    {
        let mut min_i: usize = 0;
        let mut k: usize = 1;
        while k < src.len()
            invariant
                0 <= min_i < src@.len(),
                min_i < k <= src@.len(),
                forall|j: int| 0 <= j < k ==> entry_le(src@[min_i as int], #[trigger] src@[j]),
                forall|i: int| 0 <= i < src@.len() ==> valid_date((#[trigger] src@[i]).date@),
            decreases src@.len() - k,
        {
            if !entry_le_exec(&src[min_i], &src[k]) {
                proof {
                    assert forall|j: int| 0 <= j < k + 1 implies entry_le(
                        src@[k as int],
                        #[trigger] src@[j],
                    ) by {
                        assert(entry_le(src@[k as int], src@[min_i as int]));
                        if j < k {
                            assert(entry_le(src@[min_i as int], src@[j]));
                        }
                    }
                }
                min_i = k;
            }
            k = k + 1;
        }
        let ghost old_src = src@;
        let ghost old_out = out@;
        let picked = src.remove(min_i);
        out.push(picked);
        proof {
            assert(old_src[min_i as int] == picked);
            vstd::seq_lib::to_multiset_remove(old_src, min_i as int);
            assert(src@.to_multiset() =~= old_src.to_multiset().remove(picked));
            assert(out@ == old_out.push(picked));
            vstd::seq_lib::to_multiset_build(old_out, picked);
            assert(out@.to_multiset() =~= old_out.to_multiset().insert(picked));
            vstd::seq_lib::to_multiset_contains(old_src, picked);
            assert(old_src.contains(picked));
            assert(old_src.to_multiset().count(picked) > 0);
            assert(out@.to_multiset().add(src@.to_multiset()) =~= v@.to_multiset()) by {
                assert forall|x: WorkoutEntry|
                    #[trigger] out@.to_multiset().count(x) + src@.to_multiset().count(x) == v@
                        .to_multiset().count(x) by {
                    assert(old_out.to_multiset().count(x) + old_src.to_multiset().count(x) == v@
                        .to_multiset().count(x));
                }
            }
            assert forall|i: int, j: int|
                0 <= i < out@.len() && 0 <= j < src@.len() implies entry_le(
                #[trigger] out@[i],
                #[trigger] src@[j],
            ) by {
                let srcj = src@[j];
                if j < min_i {
                    assert(srcj == old_src[j]);
                } else {
                    assert(srcj == old_src[j + 1]);
                }
                if i < old_out.len() {
                    assert(out@[i] == old_out[i]);
                } else {
                    assert(out@[i] == picked);
                }
            }
            assert forall|i: int, j: int| 0 <= i < j < out@.len() implies entry_le(
                #[trigger] out@[i],
                #[trigger] out@[j],
            ) by {
                if j < out@.len() - 1 {
                    assert(entry_le(old_out[i], old_out[j]));
                } else {
                    assert(out@[j] == picked);
                    assert(entry_le(old_out[i], old_src[min_i as int]));
                }
            }
            assert forall|i: int| 0 <= i < src@.len() implies valid_date(
                (#[trigger] src@[i]).date@,
            ) by {
                if i < min_i {
                    assert(src@[i] == old_src[i]);
                } else {
                    assert(src@[i] == old_src[i + 1]);
                }
            }
        }
    }
    proof {
        assert(src@.to_multiset() =~= Multiset::<WorkoutEntry>::empty());
        assert(out@.to_multiset() =~= v@.to_multiset());
        assert forall|i: int, j: int| 0 <= i <= j < out@.len() implies entry_le_fn()(
            out@.index(i),
            out@.index(j),
        ) by {
            if i < j {
                assert(entry_le(out@[i], out@[j]));
            }
        }
        assert(sorted_by(out@, entry_le_fn()));
    }
    out
}

} // verus!
