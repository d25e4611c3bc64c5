//! The person store and its service: reference data under the soft-delete
//! ledger. Deleting marks a row and hides it from the default listings;
//! restoring clears the mark; a soft-deleted row stays resolvable by
//! identifier so that historical joins keep working.

use vstd::prelude::*;
use crate::errors::{StoreError, ValidationError};
use crate::models::{MAX_ROWS, PaginatedPersonResponse, Person};
use crate::paging::{page_slice, spec_total_pages, total_pages_for};
use crate::seqs::{
    lemma_filter_distinct_keys, lemma_filter_push, lemma_map_push, lemma_multiset_distinct_keys,
    lemma_sorted_unique_keys, lemma_take_push,
};
use crate::text::{
    blank, contains_ci, is_blank, lemma_lex_antisym, lemma_lex_total, lemma_lex_trans, lex_le,
    str_contains_ci, str_le,
};
use vstd::relations::sorted_by;

verus! {

/// A stored person row: a concrete identifier plus the ledger mark — a
/// deletion stamp that orders the deleted listing by recency, absent on
/// a live row.
#[derive(Debug, PartialEq)]
pub struct PersonRow {
    pub id: i64,
    pub name: String,
    pub last_name: String,
    pub phone: String,
    pub deleted_at: Option<i64>,
}

impl Clone for PersonRow {
    fn clone(&self) -> (res: Self)
        ensures
            res == *self,
    {
        PersonRow {
            id: self.id,
            name: self.name.clone(),
            last_name: self.last_name.clone(),
            phone: self.phone.clone(),
            deleted_at: self.deleted_at,
        }
    }
}

/// The deletion stamp a row carries; a live row counts as the oldest.
pub open spec fn stamp_of(r: PersonRow) -> i64 {
    match r.deleted_at {
        Some(s) => s,
        None => -1i64,
    }
}

/// The person a row stands for.
pub open spec fn person_of(r: PersonRow) -> Person {
    Person { id: Some(r.id), name: r.name, last_name: r.last_name, phone: r.phone }
}

/// Conversion used by the read paths.
fn to_person(r: &PersonRow) -> (p: Person)
    ensures
        p == person_of(*r),
{
    Person {
        id: Some(r.id),
        name: r.name.clone(),
        last_name: r.last_name.clone(),
        phone: r.phone.clone(),
    }
}

/// The row survives the default filter.
pub open spec fn live_pred() -> spec_fn(PersonRow) -> bool {
    |r: PersonRow| r.deleted_at is None
}

/// The row is marked deleted.
pub open spec fn dead_pred() -> spec_fn(PersonRow) -> bool {
    |r: PersonRow| r.deleted_at is Some
}

/// The row's identifier, for the shared key lemmas.
pub open spec fn person_id_fn() -> spec_fn(PersonRow) -> i64 {
    |r: PersonRow| r.id
}

/// The listing orders: the default listing by name, then last name,
/// then identifier; the deleted listing by deletion recency, newest
/// first, then identifier.
pub open spec fn person_ord(by_name: bool) -> spec_fn(PersonRow, PersonRow) -> bool {
    |a: PersonRow, b: PersonRow|
        if by_name {
            if a.name@ != b.name@ {
                lex_le(a.name@, b.name@)
            } else if a.last_name@ != b.last_name@ {
                lex_le(a.last_name@, b.last_name@)
            } else {
                a.id <= b.id
            }
        } else {
            if stamp_of(a) != stamp_of(b) {
                stamp_of(a) > stamp_of(b)
            } else {
                a.id <= b.id
            }
        }
}

/// The listing orders relate every pair, compose, and separate rows
/// with different identifiers.
pub proof fn lemma_person_ord_props(by_name: bool)
    ensures
        forall|a: PersonRow, b: PersonRow|
            #[trigger] person_ord(by_name)(a, b) || #[trigger] person_ord(by_name)(b, a),
        forall|a: PersonRow, b: PersonRow, c: PersonRow|
            #[trigger] person_ord(by_name)(a, b) && #[trigger] person_ord(by_name)(b, c)
                ==> person_ord(by_name)(a, c),
        forall|a: PersonRow, b: PersonRow|
            #[trigger] person_ord(by_name)(a, b) && #[trigger] person_ord(by_name)(b, a) ==> a.id
                == b.id,
{
    assert forall|a: PersonRow, b: PersonRow|
        #[trigger] person_ord(by_name)(a, b) || #[trigger] person_ord(by_name)(b, a) by {
        lemma_lex_total(a.name@, b.name@);
        lemma_lex_total(a.last_name@, b.last_name@);
    }
    assert forall|a: PersonRow, b: PersonRow, c: PersonRow|
        #[trigger] person_ord(by_name)(a, b) && #[trigger] person_ord(by_name)(b, c) implies
        person_ord(by_name)(a, c) by {
        if by_name {
            if lex_le(a.name@, b.name@) && lex_le(b.name@, a.name@) {
                lemma_lex_antisym(a.name@, b.name@);
            }
            if lex_le(b.name@, c.name@) && lex_le(c.name@, b.name@) {
                lemma_lex_antisym(b.name@, c.name@);
            }
            if lex_le(a.name@, b.name@) && lex_le(b.name@, c.name@) {
                lemma_lex_trans(a.name@, b.name@, c.name@);
            }
            if lex_le(a.name@, c.name@) && lex_le(c.name@, a.name@) {
                lemma_lex_antisym(a.name@, c.name@);
            }
            if lex_le(a.last_name@, b.last_name@) && lex_le(b.last_name@, a.last_name@) {
                lemma_lex_antisym(a.last_name@, b.last_name@);
            }
            if lex_le(b.last_name@, c.last_name@) && lex_le(c.last_name@, b.last_name@) {
                lemma_lex_antisym(b.last_name@, c.last_name@);
            }
            if lex_le(a.last_name@, b.last_name@) && lex_le(b.last_name@, c.last_name@) {
                lemma_lex_trans(a.last_name@, b.last_name@, c.last_name@);
            }
            if lex_le(a.last_name@, c.last_name@) && lex_le(c.last_name@, a.last_name@) {
                lemma_lex_antisym(a.last_name@, c.last_name@);
            }
        }
    }
    assert forall|a: PersonRow, b: PersonRow|
        #[trigger] person_ord(by_name)(a, b) && #[trigger] person_ord(by_name)(b, a) implies a.id
        == b.id by {
        if by_name {
            if lex_le(a.name@, b.name@) && lex_le(b.name@, a.name@) {
                lemma_lex_antisym(a.name@, b.name@);
            }
            if lex_le(a.last_name@, b.last_name@) && lex_le(b.last_name@, a.last_name@) {
                lemma_lex_antisym(a.last_name@, b.last_name@);
            }
        }
    }
}

/// The executable listing comparison.
fn person_le_exec(a: &PersonRow, b: &PersonRow, by_name: bool) -> (r: bool)
    ensures
        r == person_ord(by_name)(*a, *b),
{
    if by_name {
        if !crate::text::str_eq(a.name.as_str(), b.name.as_str()) {
            str_le(a.name.as_str(), b.name.as_str())
        } else if !crate::text::str_eq(a.last_name.as_str(), b.last_name.as_str()) {
            str_le(a.last_name.as_str(), b.last_name.as_str())
        } else {
            a.id <= b.id
        }
    } else {
        let sa = match a.deleted_at {
            Some(s) => s,
            None => -1,
        };
        let sb = match b.deleted_at {
            Some(s) => s,
            None => -1,
        };
        if sa != sb {
            sa > sb
        } else {
            a.id <= b.id
        }
    }
}

/// Sort rows by a listing order; the result holds exactly the given
/// rows.
fn sort_person_rows(v: Vec<PersonRow>, by_name: bool) -> (r: Vec<PersonRow>)
    ensures
        sorted_by(r@, person_ord(by_name)),
        r@.to_multiset() == v@.to_multiset(),
{
    broadcast use vstd::seq_lib::group_to_multiset_ensures;
    broadcast use vstd::multiset::group_multiset_axioms;

    proof {
        lemma_person_ord_props(by_name);
    }
    let ghost leq = person_ord(by_name);
    let mut src = v;
    let mut out: Vec<PersonRow> = Vec::new();
    while src.len() > 0
        invariant
            leq == person_ord(by_name),
            forall|a: PersonRow, b: PersonRow| #[trigger] leq(a, b) || #[trigger] leq(b, a),
            forall|a: PersonRow, b: PersonRow, c: PersonRow|
                #[trigger] leq(a, b) && #[trigger] leq(b, c) ==> leq(a, c),
            forall|i: int, j: int| 0 <= i < j < out@.len() ==> leq(#[trigger] out@[i], #[trigger] out@[j]),
            out@.to_multiset().add(src@.to_multiset()) =~= v@.to_multiset(),
            forall|i: int, j: int|
                0 <= i < out@.len() && 0 <= j < src@.len() ==> leq(
                    #[trigger] out@[i],
                    #[trigger] src@[j],
                ),
        decreases src@.len(),
    {
        let mut min_i: usize = 0;
        let mut k: usize = 1;
        while k < src.len()
            invariant
                leq == person_ord(by_name),
                forall|a: PersonRow, b: PersonRow| #[trigger] leq(a, b) || #[trigger] leq(b, a),
                forall|a: PersonRow, b: PersonRow, c: PersonRow|
                    #[trigger] leq(a, b) && #[trigger] leq(b, c) ==> leq(a, c),
                0 <= min_i < src@.len(),
                min_i < k <= src@.len(),
                forall|j: int| 0 <= j < k ==> leq(src@[min_i as int], #[trigger] src@[j]),
            decreases src@.len() - k,
        {
            if !person_le_exec(&src[min_i], &src[k], by_name) {
                proof {
                    assert(leq(src@[k as int], src@[min_i as int]));
                    assert forall|j: int| 0 <= j < k + 1 implies leq(
                        src@[k as int],
                        #[trigger] src@[j],
                    ) by {
                        if j < k {
                            assert(leq(src@[min_i as int], src@[j]));
                        }
                    }
                }
                min_i = k;
            }
            k = k + 1;
        }
        proof {
            assert(leq(src@[min_i as int], src@[min_i as int]));
        }
        let ghost old_src = src@;
        let ghost old_out = out@;
        let picked = src.remove(min_i);
        out.push(picked);
        proof {
            assert(old_src[min_i as int] == picked);
            vstd::seq_lib::to_multiset_remove(old_src, min_i as int);
            assert(src@.to_multiset() =~= old_src.to_multiset().remove(picked));
            assert(out@ == old_out.push(picked));
            vstd::seq_lib::to_multiset_build(old_out, picked);
            assert(out@.to_multiset() =~= old_out.to_multiset().insert(picked));
            vstd::seq_lib::to_multiset_contains(old_src, picked);
            assert(old_src.to_multiset().count(picked) > 0);
            assert(out@.to_multiset().add(src@.to_multiset()) =~= v@.to_multiset()) by {
                assert forall|x: PersonRow|
                    #[trigger] out@.to_multiset().count(x) + src@.to_multiset().count(x) == v@
                        .to_multiset().count(x) by {
                    assert(old_out.to_multiset().count(x) + old_src.to_multiset().count(x) == v@
                        .to_multiset().count(x));
                }
            }
            assert forall|i: int, j: int|
                0 <= i < out@.len() && 0 <= j < src@.len() implies leq(
                #[trigger] out@[i],
                #[trigger] src@[j],
            ) by {
                let srcj = src@[j];
                if j < min_i {
                    assert(srcj == old_src[j]);
                } else {
                    assert(srcj == old_src[j + 1]);
                }
                if i < old_out.len() {
                    assert(out@[i] == old_out[i]);
                } else {
                    assert(out@[i] == picked);
                }
            }
            assert forall|i: int, j: int| 0 <= i < j < out@.len() implies leq(
                #[trigger] out@[i],
                #[trigger] out@[j],
            ) by {
                if j < out@.len() - 1 {
                    assert(leq(old_out[i], old_out[j]));
                } else {
                    assert(out@[j] == picked);
                    assert(leq(old_out[i], old_src[min_i as int]));
                }
            }
        }
    }
    proof {
        assert(src@.to_multiset() =~= vstd::multiset::Multiset::<PersonRow>::empty());
        assert(out@.to_multiset() =~= v@.to_multiset());
        assert forall|i: int, j: int| 0 <= i < j < out@.len() implies #[trigger] leq(
            out@[i],
            out@[j],
        ) by {
            assert(leq(out@[i], out@[j]));
        }
    }
    out
}

/// The one arrangement of a row set in a listing order: the sorted
/// sequence holding exactly those rows. Rows of one store carry
/// distinct identifiers, which the order separates, so the arrangement
/// is unique.
pub open spec fn arranged_people(rows: Seq<PersonRow>, by_name: bool) -> Seq<PersonRow> {
    choose|q: Seq<PersonRow>|
        sorted_by(q, person_ord(by_name)) && #[trigger] q.to_multiset() == rows.to_multiset()
}

/// Row-to-person conversion as a value.
pub open spec fn person_fn() -> spec_fn(PersonRow) -> Person {
    |r: PersonRow| person_of(r)
}

/// The row is live and its name or last name contains the query,
/// ASCII case folded.
pub open spec fn match_pred(q: Seq<char>) -> spec_fn(PersonRow) -> bool {
    |r: PersonRow| r.deleted_at is None && (contains_ci(r.name@, q) || contains_ci(r.last_name@, q))
}

/// The effect of an update request on one row: a row whose identifier the
/// request names takes the request's fields and keeps its ledger mark.
pub open spec fn apply_person_update(p: Person) -> spec_fn(PersonRow) -> PersonRow {
    |r: PersonRow|
        if p.id == Some(r.id) {
            PersonRow {
                id: r.id,
                name: p.name,
                last_name: p.last_name,
                phone: p.phone,
                deleted_at: r.deleted_at,
            }
        } else {
            r
        }
}

/// The effect of a soft delete on one row: the named row takes the
/// given deletion stamp.
pub open spec fn apply_delete(id: i64, stamp: i64) -> spec_fn(PersonRow) -> PersonRow {
    |r: PersonRow|
        if r.id == id {
            PersonRow {
                id: r.id,
                name: r.name,
                last_name: r.last_name,
                phone: r.phone,
                deleted_at: Some(stamp),
            }
        } else {
            r
        }
}

/// The effect of a restore on one row: the named row's mark is cleared.
pub open spec fn apply_restore(id: i64) -> spec_fn(PersonRow) -> PersonRow {
    |r: PersonRow|
        if r.id == id {
            PersonRow {
                id: r.id,
                name: r.name,
                last_name: r.last_name,
                phone: r.phone,
                deleted_at: None,
            }
        } else {
            r
        }
}

/// The people table; the clock numbers deletions so the deleted
/// listing can order them by recency.
#[derive(Debug)]
pub struct PersonStore {
    pub rows: Vec<PersonRow>,
    pub next_id: i64,
    pub clock: i64,
}

impl PersonStore {
    /// Identifiers are positive, below the next free one, and distinct;
    /// deletion stamps lie below the clock and are distinct; the row
    /// count stays within capacity.
    pub open spec fn wf(self) -> bool {
        &&& 1 <= self.next_id
        &&& 0 <= self.clock < i64::MAX as int
        &&& self.rows@.len() <= MAX_ROWS as int
        &&& forall|i: int|
            0 <= i < self.rows@.len() ==> 1 <= #[trigger] self.rows@[i].id < self.next_id
        &&& forall|i: int, j: int|
            0 <= i < j < self.rows@.len() ==> #[trigger] self.rows@[i].id
                != #[trigger] self.rows@[j].id
        &&& forall|i: int|
            0 <= i < self.rows@.len() && (#[trigger] self.rows@[i]).deleted_at is Some ==> 0
                <= self.rows@[i].deleted_at->0 < self.clock
        &&& forall|i: int, j: int|
            0 <= i < j < self.rows@.len() && (#[trigger] self.rows@[i]).deleted_at is Some && (
            #[trigger] self.rows@[j]).deleted_at is Some ==> self.rows@[i].deleted_at->0
                != self.rows@[j].deleted_at->0
    }

    /// The rows the default listings show.
    pub open spec fn active(self) -> Seq<PersonRow> {
        self.rows@.filter(live_pred())
    }

    /// The soft-deleted rows.
    pub open spec fn deleted_rows(self) -> Seq<PersonRow> {
        self.rows@.filter(dead_pred())
    }

    /// The store has room for one more row.
    pub open spec fn has_capacity(self) -> bool {
        self.rows@.len() < MAX_ROWS as int && self.next_id < i64::MAX as int
    }

    /// An empty table.
    pub fn new() -> (s: PersonStore)
        ensures
            s.wf(),
            s.rows@ =~= Seq::<PersonRow>::empty(),
            s.next_id == 1,
    {
        PersonStore { rows: Vec::new(), next_id: 1, clock: 0 }
    }

    /// Insert a person as a fresh live row; the request's identifier is
    /// ignored and a new one is assigned.
    pub fn create(&mut self, person: Person) -> (r: Result<(), StoreError>)
        requires
            old(self).wf(),
        ensures
            final(self).wf(),
            r is Ok <==> old(self).has_capacity(),
            match r {
                Ok(()) => {
                    &&& final(self).rows@ == old(self).rows@.push(
                        PersonRow {
                            id: old(self).next_id,
                            name: person.name,
                            last_name: person.last_name,
                            phone: person.phone,
                            deleted_at: None,
                        },
                    )
                    &&& final(self).next_id == old(self).next_id + 1
                },
                Err(e) => e == StoreError::Storage && *final(self) == *old(self),
            },
    {
        if self.rows.len() >= MAX_ROWS || self.next_id == i64::MAX {
            return Err(StoreError::Storage);
        }
        let row = PersonRow {
            id: self.next_id,
            name: person.name,
            last_name: person.last_name,
            phone: person.phone,
            deleted_at: None,
        };
        self.rows.push(row);
        self.next_id = self.next_id + 1;
        Ok(())
    }

    /// The row carrying an identifier, if any; soft-deleted rows are
    /// found too, so historical references stay resolvable.
    pub open spec fn lookup(self, id: i64) -> Option<PersonRow> {
        if exists|i: int| 0 <= i < self.rows@.len() && (#[trigger] self.rows@[i]).id == id {
            Some(
                self.rows@[choose|i: int|
                    0 <= i < self.rows@.len() && (#[trigger] self.rows@[i]).id == id],
            )
        } else {
            None
        }
    }

    /// Look a person up by identifier, soft-deleted rows included: a
    /// historical reference stays resolvable after a logical delete.
    pub fn get_by_id(&self, id: i64) -> (r: Option<Person>)
        requires
            self.wf(),
        ensures
            r == match self.lookup(id) {
                Some(row) => Some(person_of(row)),
                None => None::<Person>,
            },
    {
        let mut i: usize = 0;
        while i < self.rows.len()
            invariant
                self.wf(),
                0 <= i <= self.rows@.len(),
                forall|j: int| 0 <= j < i ==> #[trigger] self.rows@[j].id != id,
            decreases self.rows@.len() - i,
        {
            if self.rows[i].id == id {
                proof {
                    let c = choose|k: int|
                        0 <= k < self.rows@.len() && (#[trigger] self.rows@[k]).id == id;
                    if c != i {
                        assert(self.rows@[c].id != self.rows@[i as int].id);
                    }
                }
                return Some(to_person(&self.rows[i]));
            }
            i = i + 1;
        }
        None
    }

    /// Rewrite the fields of the row the request names, if it exists;
    /// the ledger mark is untouched. Naming no row changes nothing.
    pub fn update(&mut self, person: Person) -> (r: Result<(), StoreError>)
        requires
            old(self).wf(),
        ensures
            final(self).wf(),
            r is Ok,
            final(self).next_id == old(self).next_id,
            final(self).rows@ == old(self).rows@.map_values(apply_person_update(person)),
    {
        let ghost f = apply_person_update(person);
        let mut out: Vec<PersonRow> = Vec::new();
        let mut i: usize = 0;
        while i < self.rows.len()
            invariant
                0 <= i <= self.rows@.len(),
                f == apply_person_update(person),
                out@ =~= self.rows@.take(i as int).map_values(f),
            decreases self.rows@.len() - i,
        {
            let row = &self.rows[i];
            let matches = match person.id {
                Some(pid) => pid == row.id,
                None => false,
            };
            if matches {
                out.push(
                    PersonRow {
                        id: row.id,
                        name: person.name.clone(),
                        last_name: person.last_name.clone(),
                        phone: person.phone.clone(),
                        deleted_at: row.deleted_at,
                    },
                );
            } else {
                out.push(row.clone());
            }
            proof {
                lemma_take_push(self.rows@, i as int);
                lemma_map_push(self.rows@.take(i as int), self.rows@[i as int], f);
            }
            i = i + 1;
        }
        proof {
            assert(self.rows@.take(self.rows@.len() as int) =~= self.rows@);
        }
        self.rows = out;
        proof {
            assert forall|i: int| 0 <= i < self.rows@.len() implies 1 <= #[trigger] self.rows@[i].id
                < self.next_id by {
                assert(self.rows@[i] == f(old(self).rows@[i]));
            }
            assert forall|i: int, j: int| 0 <= i < j < self.rows@.len() implies #[trigger] self.rows@[i].id
                != #[trigger] self.rows@[j].id by {
                assert(self.rows@[i] == f(old(self).rows@[i]));
                assert(self.rows@[j] == f(old(self).rows@[j]));
            }
        }
        Ok(())
    }

    /// Soft delete: stamp the row with the deletion clock; the data
    /// stays. Every delete advances the clock, so stamps order the
    /// deletions.
    pub fn delete(&mut self, id: i64) -> (r: Result<(), StoreError>)
        requires
            old(self).wf(),
        ensures
            final(self).wf(),
            r is Ok <==> old(self).clock + 1 < i64::MAX as int,
            match r {
                Ok(()) => {
                    &&& final(self).next_id == old(self).next_id
                    &&& final(self).clock == old(self).clock + 1
                    &&& final(self).rows@ == old(self).rows@.map_values(
                        apply_delete(id, old(self).clock),
                    )
                },
                Err(e) => e == StoreError::Storage && *final(self) == *old(self),
            },
    {
        if self.clock >= i64::MAX - 1 {
            return Err(StoreError::Storage);
        }
        let stamp = self.clock;
        let ghost f = apply_delete(id, stamp);
        let mut out: Vec<PersonRow> = Vec::new();
        let mut i: usize = 0;
        while i < self.rows.len()
            invariant
                0 <= i <= self.rows@.len(),
                f == apply_delete(id, stamp),
                stamp == self.clock,
                out@ =~= self.rows@.take(i as int).map_values(f),
            decreases self.rows@.len() - i,
        {
            let row = &self.rows[i];
            if row.id == id {
                let mut updated = row.clone();
                updated.deleted_at = Some(stamp);
                out.push(updated);
            } else {
                out.push(row.clone());
            }
            proof {
                lemma_take_push(self.rows@, i as int);
                lemma_map_push(self.rows@.take(i as int), self.rows@[i as int], f);
            }
            i = i + 1;
        }
        proof {
            assert(self.rows@.take(self.rows@.len() as int) =~= self.rows@);
        }
        self.rows = out;
        self.clock = self.clock + 1;
        proof {
            assert forall|i: int| 0 <= i < self.rows@.len() implies 1 <= #[trigger] self.rows@[i].id
                < self.next_id by {
                assert(self.rows@[i] == f(old(self).rows@[i]));
            }
            assert forall|i: int, j: int| 0 <= i < j < self.rows@.len() implies #[trigger] self.rows@[i].id
                != #[trigger] self.rows@[j].id by {
                assert(self.rows@[i] == f(old(self).rows@[i]));
                assert(self.rows@[j] == f(old(self).rows@[j]));
            }
            assert forall|i: int|
                0 <= i < self.rows@.len() && (#[trigger] self.rows@[i]).deleted_at is Some
                implies 0 <= self.rows@[i].deleted_at->0 < self.clock by {
                assert(self.rows@[i] == f(old(self).rows@[i]));
            }
            assert forall|i: int, j: int|
                0 <= i < j < self.rows@.len() && (#[trigger] self.rows@[i]).deleted_at is Some
                && (#[trigger] self.rows@[j]).deleted_at is Some implies
                self.rows@[i].deleted_at->0 != self.rows@[j].deleted_at->0 by {
                assert(self.rows@[i] == f(old(self).rows@[i]));
                assert(self.rows@[j] == f(old(self).rows@[j]));
            }
        }
        Ok(())
    }

    /// Clear the mark set by a soft delete.
    pub fn restore(&mut self, id: i64) -> (r: Result<(), StoreError>)
        requires
            old(self).wf(),
        ensures
            final(self).wf(),
            r is Ok,
            final(self).next_id == old(self).next_id,
            final(self).clock == old(self).clock,
            final(self).rows@ == old(self).rows@.map_values(apply_restore(id)),
    {
        let ghost f = apply_restore(id);
        let mut out: Vec<PersonRow> = Vec::new();
        let mut i: usize = 0;
        while i < self.rows.len()
            invariant
                0 <= i <= self.rows@.len(),
                f == apply_restore(id),
                out@ =~= self.rows@.take(i as int).map_values(f),
            decreases self.rows@.len() - i,
        {
            let row = &self.rows[i];
            if row.id == id {
                let mut updated = row.clone();
                updated.deleted_at = None;
                out.push(updated);
            } else {
                out.push(row.clone());
            }
            proof {
                lemma_take_push(self.rows@, i as int);
                lemma_map_push(self.rows@.take(i as int), self.rows@[i as int], f);
            }
            i = i + 1;
        }
        proof {
            assert(self.rows@.take(self.rows@.len() as int) =~= self.rows@);
        }
        self.rows = out;
        proof {
            assert forall|i: int| 0 <= i < self.rows@.len() implies 1 <= #[trigger] self.rows@[i].id
                < self.next_id by {
                assert(self.rows@[i] == f(old(self).rows@[i]));
            }
            assert forall|i: int, j: int| 0 <= i < j < self.rows@.len() implies #[trigger] self.rows@[i].id
                != #[trigger] self.rows@[j].id by {
                assert(self.rows@[i] == f(old(self).rows@[i]));
                assert(self.rows@[j] == f(old(self).rows@[j]));
            }
            assert forall|i: int|
                0 <= i < self.rows@.len() && (#[trigger] self.rows@[i]).deleted_at is Some
                implies 0 <= self.rows@[i].deleted_at->0 < self.clock by {
                assert(self.rows@[i] == f(old(self).rows@[i]));
            }
            assert forall|i: int, j: int|
                0 <= i < j < self.rows@.len() && (#[trigger] self.rows@[i]).deleted_at is Some
                && (#[trigger] self.rows@[j]).deleted_at is Some implies
                self.rows@[i].deleted_at->0 != self.rows@[j].deleted_at->0 by {
                assert(self.rows@[i] == f(old(self).rows@[i]));
                assert(self.rows@[j] == f(old(self).rows@[j]));
            }
        }
        Ok(())
    }

    /// The rows the default listing shows, cloned, in store order.
    fn live_rows(&self) -> (r: Vec<PersonRow>)
        requires
            self.wf(),
        ensures
            r@ == self.active(),
    {
        let mut out: Vec<PersonRow> = Vec::new();
        let mut i: usize = 0;
        while i < self.rows.len()
            invariant
                0 <= i <= self.rows@.len(),
                out@ =~= self.rows@.take(i as int).filter(live_pred()),
            decreases self.rows@.len() - i,
        {
            let row = &self.rows[i];
            if row.deleted_at.is_none() {
                out.push(row.clone());
            }
            proof {
                lemma_take_push(self.rows@, i as int);
                lemma_filter_push(self.rows@.take(i as int), self.rows@[i as int], live_pred());
            }
            i = i + 1;
        }
        proof {
            assert(self.rows@.take(self.rows@.len() as int) =~= self.rows@);
        }
        out
    }

    /// The soft-deleted rows, cloned, in store order.
    fn dead_rows(&self) -> (r: Vec<PersonRow>)
        requires
            self.wf(),
        ensures
            r@ == self.deleted_rows(),
    {
        let mut out: Vec<PersonRow> = Vec::new();
        let mut i: usize = 0;
        while i < self.rows.len()
            invariant
                0 <= i <= self.rows@.len(),
                out@ =~= self.rows@.take(i as int).filter(dead_pred()),
            decreases self.rows@.len() - i,
        {
            let row = &self.rows[i];
            if row.deleted_at.is_some() {
                out.push(row.clone());
            }
            proof {
                lemma_take_push(self.rows@, i as int);
                lemma_filter_push(self.rows@.take(i as int), self.rows@[i as int], dead_pred());
            }
            i = i + 1;
        }
        proof {
            assert(self.rows@.take(self.rows@.len() as int) =~= self.rows@);
        }
        out
    }

    /// The live rows the search would show, cloned, in store order.
    fn matching_rows(&self, query: &str) -> (r: Vec<PersonRow>)
        requires
            self.wf(),
        ensures
            r@ == self.rows@.filter(match_pred(query@)),
    {
        let ghost pred = match_pred(query@);
        let mut out: Vec<PersonRow> = Vec::new();
        let mut i: usize = 0;
        while i < self.rows.len()
            invariant
                0 <= i <= self.rows@.len(),
                pred == match_pred(query@),
                out@ =~= self.rows@.take(i as int).filter(pred),
            decreases self.rows@.len() - i,
        {
            let row = &self.rows[i];
            let hit = row.deleted_at.is_none() && (str_contains_ci(row.name.as_str(), query)
                || str_contains_ci(row.last_name.as_str(), query));
            if hit {
                out.push(row.clone());
            }
            proof {
                lemma_take_push(self.rows@, i as int);
                lemma_filter_push(self.rows@.take(i as int), self.rows@[i as int], pred);
            }
            i = i + 1;
        }
        proof {
            assert(self.rows@.take(self.rows@.len() as int) =~= self.rows@);
        }
        out
    }

    /// Any set of this store's rows carries distinct identifiers.
    proof fn lemma_rows_distinct(self, pred: spec_fn(PersonRow) -> bool)
        requires
            self.wf(),
        ensures
            forall|i: int, j: int|
                0 <= i < j < self.rows@.filter(pred).len() ==> person_id_fn()(
                    #[trigger] self.rows@.filter(pred)[i],
                ) != person_id_fn()(#[trigger] self.rows@.filter(pred)[j]),
    {
        assert(forall|i: int, j: int|
            0 <= i < j < self.rows@.len() ==> person_id_fn()(#[trigger] self.rows@[i])
                != person_id_fn()(#[trigger] self.rows@[j]));
        lemma_filter_distinct_keys(self.rows@, pred, person_id_fn());
    }

    /// The default listing: the live rows, ordered by name, then last
    /// name, then identifier.
    pub fn list_all(&self) -> (r: Vec<Person>)
        requires
            self.wf(),
        ensures
            r@ == arranged_people(self.active(), true).map_values(person_fn()),
            r@.len() == self.active().len(),
    {
        let rows = self.live_rows();
        let sorted = sort_person_rows(rows, true);
        proof {
            self.lemma_rows_distinct(live_pred());
            lemma_people_arranged(self.active(), sorted@, true);
            vstd::seq_lib::to_multiset_len(sorted@);
            vstd::seq_lib::to_multiset_len(self.active());
        }
        rows_to_people(&sorted)
    }

    /// How many rows the default listing shows.
    pub fn count_all(&self) -> (r: i64)
        requires
            self.wf(),
        ensures
            r == self.active().len(),
            0 <= r <= MAX_ROWS as int,
    {
        let all = self.live_rows();
        proof {
            self.rows@.lemma_filter_len(live_pred());
        }
        all.len() as i64
    }

    /// One page of the default listing.
    pub fn list_paginated(&self, page: i64, page_size: i64) -> (r: Vec<Person>)
        requires
            self.wf(),
        ensures
            r@ == page_slice(
                arranged_people(self.active(), true).map_values(person_fn()),
                page as int,
                page_size as int,
            ),
    {
        let all = self.list_all();
        proof {
            self.rows@.lemma_filter_len(live_pred());
        }
        page_of_people(all, page, page_size)
    }

    /// The live rows whose name or last name contains the query, case
    /// folded, in the default listing order.
    pub fn search(&self, query: &str) -> (r: Vec<Person>)
        requires
            self.wf(),
        ensures
            r@ == arranged_people(self.rows@.filter(match_pred(query@)), true).map_values(
                person_fn(),
            ),
            r@.len() == self.rows@.filter(match_pred(query@)).len(),
    {
        let rows = self.matching_rows(query);
        let sorted = sort_person_rows(rows, true);
        proof {
            self.lemma_rows_distinct(match_pred(query@));
            lemma_people_arranged(self.rows@.filter(match_pred(query@)), sorted@, true);
            vstd::seq_lib::to_multiset_len(sorted@);
            vstd::seq_lib::to_multiset_len(self.rows@.filter(match_pred(query@)));
        }
        rows_to_people(&sorted)
    }

    /// One page of the search result.
    pub fn search_paginated(&self, query: &str, page: i64, page_size: i64) -> (r: Vec<Person>)
        requires
            self.wf(),
        ensures
            r@ == page_slice(
                arranged_people(self.rows@.filter(match_pred(query@)), true).map_values(
                    person_fn(),
                ),
                page as int,
                page_size as int,
            ),
    {
        let all = self.search(query);
        proof {
            self.rows@.lemma_filter_len(match_pred(query@));
        }
        page_of_people(all, page, page_size)
    }

    /// How many rows the search would show.
    pub fn search_count(&self, query: &str) -> (r: i64)
        requires
            self.wf(),
        ensures
            r == self.rows@.filter(match_pred(query@)).len(),
            0 <= r <= MAX_ROWS as int,
    {
        let all = self.matching_rows(query);
        proof {
            self.rows@.lemma_filter_len(match_pred(query@));
        }
        all.len() as i64
    }

    /// The inverse listing: the soft-deleted rows, the most recently
    /// deleted first.
    pub fn list_deleted(&self) -> (r: Vec<Person>)
        requires
            self.wf(),
        ensures
            r@ == arranged_people(self.deleted_rows(), false).map_values(person_fn()),
            r@.len() == self.deleted_rows().len(),
    {
        let rows = self.dead_rows();
        let sorted = sort_person_rows(rows, false);
        proof {
            self.lemma_rows_distinct(dead_pred());
            lemma_people_arranged(self.deleted_rows(), sorted@, false);
            vstd::seq_lib::to_multiset_len(sorted@);
            vstd::seq_lib::to_multiset_len(self.deleted_rows());
        }
        rows_to_people(&sorted)
    }

    /// How many rows are soft-deleted.
    pub fn count_deleted(&self) -> (r: i64)
        requires
            self.wf(),
        ensures
            r == self.deleted_rows().len(),
            0 <= r <= MAX_ROWS as int,
    {
        let all = self.dead_rows();
        proof {
            self.rows@.lemma_filter_len(dead_pred());
        }
        all.len() as i64
    }
}

/// The one sorted arrangement of a distinct-identifier row set is
/// whatever sorted, row-preserving sequence one exhibits.
proof fn lemma_people_arranged(base: Seq<PersonRow>, sorted: Seq<PersonRow>, by_name: bool)
    requires
        sorted_by(sorted, person_ord(by_name)),
        sorted.to_multiset() == base.to_multiset(),
        forall|i: int, j: int|
            0 <= i < j < base.len() ==> person_id_fn()(#[trigger] base[i]) != person_id_fn()(
                #[trigger] base[j],
            ),
    ensures
        arranged_people(base, by_name) == sorted,
{
    lemma_person_ord_props(by_name);
    assert(sorted_by(sorted, person_ord(by_name)) && sorted.to_multiset() == base.to_multiset());
    let q0 = arranged_people(base, by_name);
    assert(sorted_by(q0, person_ord(by_name)) && q0.to_multiset() == base.to_multiset()) by {
        assert(exists|q: Seq<PersonRow>|
            sorted_by(q, person_ord(by_name)) && #[trigger] q.to_multiset()
                == base.to_multiset());
    }
    lemma_multiset_distinct_keys(base, sorted, person_id_fn());
    assert forall|a: PersonRow, b: PersonRow|
        #[trigger] person_ord(by_name)(a, b) && #[trigger] person_ord(by_name)(b, a) implies
        person_id_fn()(a) == person_id_fn()(b) by {}
    lemma_sorted_unique_keys(sorted, q0, person_ord(by_name), person_id_fn());
}

/// The people a row list stands for, in order.
fn rows_to_people(v: &Vec<PersonRow>) -> (r: Vec<Person>)
    ensures
        r@ == v@.map_values(person_fn()),
{
    let mut out: Vec<Person> = Vec::new();
    let mut i: usize = 0;
    while i < v.len()
        invariant
            0 <= i <= v@.len(),
            out@ =~= v@.take(i as int).map_values(person_fn()),
        decreases v@.len() - i,
    {
        out.push(to_person(&v[i]));
        proof {
            lemma_take_push(v@, i as int);
            lemma_map_push(v@.take(i as int), v@[i as int], person_fn());
        }
        i = i + 1;
    }
    proof {
        assert(v@.take(v@.len() as int) =~= v@);
    }
    out
}

/// One page of an already-assembled listing.
fn page_of_people(all: Vec<Person>, page: i64, page_size: i64) -> (r: Vec<Person>)
    requires
        all@.len() <= MAX_ROWS as int,
    ensures
        r@ == page_slice(all@, page as int, page_size as int),
{
    let ghost target = page_slice(all@, page as int, page_size as int);
    if page < 1 || page_size < 1 {
        let empty: Vec<Person> = Vec::new();
        return empty;
    }
    let n = all.len() as i64;
    let lo64: i64;
    if page == 1 {
        proof {
            assert((page as int - 1) * (page_size as int) == 0) by (nonlinear_arith)
                requires
                    page == 1,
            ;
        }
        lo64 = 0;
    } else if page - 1 > n || page_size > n {
        proof {
            let lo = (page - 1) * (page_size as int);
            assert(lo >= page - 1 && lo >= page_size) by (nonlinear_arith)
                requires
                    page >= 2,
                    page_size >= 1,
                    lo == (page - 1) * (page_size as int),
            ;
            assert(target =~= Seq::<Person>::empty());
        }
        let empty: Vec<Person> = Vec::new();
        return empty;
    } else {
        proof {
            assert(0 <= (page - 1) * (page_size as int) <= MAX_ROWS as int * MAX_ROWS as int)
                by (nonlinear_arith)
                requires
                    1 <= page - 1 <= MAX_ROWS as int,
                    1 <= page_size <= MAX_ROWS as int,
            ;
        }
        lo64 = (page - 1) * page_size;
    }
    if lo64 >= n {
        proof {
            assert(target =~= Seq::<Person>::empty());
        }
        let empty: Vec<Person> = Vec::new();
        return empty;
    }
    let lo = lo64 as usize;
    let hi: usize = if n - lo64 < page_size {
        all.len()
    } else {
        lo + page_size as usize
    };
    let mut out: Vec<Person> = Vec::new();
    let mut i: usize = lo;
    while i < hi
        invariant
            0 <= lo <= i <= hi <= all@.len(),
            out@ =~= all@.subrange(lo as int, i as int),
        decreases hi - i,
    {
        out.push(all[i].clone());
        proof {
            assert(all@.subrange(lo as int, i + 1) =~= all@.subrange(lo as int, i as int).push(
                all@[i as int],
            ));
        }
        i = i + 1;
    }
    proof {
        assert(lo64 as int == (page as int - 1) * (page_size as int));
        assert(out@ =~= target);
    }
    out
}

/// The person service: field validation in front of the store.
#[derive(Debug)]
pub struct PersonService {
    pub repository: PersonStore,
}

/// The first validation failure a person request contains, if any: the
/// name, last name and phone must not be blank.
pub open spec fn person_input_error(p: Person) -> Option<ValidationError> {
    if blank(p.name@) {
        Some(ValidationError::EmptyName)
    } else if blank(p.last_name@) {
        Some(ValidationError::EmptyLastName)
    } else if blank(p.phone@) {
        Some(ValidationError::EmptyPhone)
    } else {
        None
    }
}

impl PersonService {
    /// Wrap a store.
    pub fn new(repository: PersonStore) -> (s: PersonService)
        ensures
            s.repository == repository,
    {
        PersonService { repository }
    }

    /// Validate and insert a person.
    pub fn create_person(&mut self, person: Person) -> (r: Result<(), StoreError>)
        requires
            old(self).repository.wf(),
        ensures
            final(self).repository.wf(),
            match person_input_error(person) {
                Some(e) => r == Err::<(), StoreError>(StoreError::Validation(e)) && *final(self)
                    == *old(self),
                None => {
                    &&& (r is Ok <==> old(self).repository.has_capacity())
                    &&& (r is Ok ==> final(self).repository.rows@ == old(self).repository.rows@.push(
                        PersonRow {
                            id: old(self).repository.next_id,
                            name: person.name,
                            last_name: person.last_name,
                            phone: person.phone,
                            deleted_at: None,
                        },
                    ) && final(self).repository.next_id == old(self).repository.next_id + 1)
                    &&& (r is Err ==> *final(self) == *old(self) && r == Err::<(), StoreError>(
                        StoreError::Storage,
                    ))
                },
            },
    {
        if is_blank(person.name.as_str()) {
            return Err(StoreError::Validation(ValidationError::EmptyName));
        }
        if is_blank(person.last_name.as_str()) {
            return Err(StoreError::Validation(ValidationError::EmptyLastName));
        }
        if is_blank(person.phone.as_str()) {
            return Err(StoreError::Validation(ValidationError::EmptyPhone));
        }
        self.repository.create(person)
    }

    /// The default listing.
    pub fn list_people(&self) -> (r: Vec<Person>)
        requires
            self.repository.wf(),
        ensures
            r@ == arranged_people(self.repository.active(), true).map_values(person_fn()),
    {
        self.repository.list_all()
    }

    /// One page of the default listing.
    pub fn list_people_paginated(&self, page: i64, page_size: i64) -> (r: Vec<Person>)
        requires
            self.repository.wf(),
        ensures
            r@ == page_slice(
                arranged_people(self.repository.active(), true).map_values(person_fn()),
                page as int,
                page_size as int,
            ),
    {
        self.repository.list_paginated(page, page_size)
    }

    /// One page of the default listing, with totals.
    pub fn list_people_paginated_response(&self, page: i64, page_size: i64) -> (r:
        PaginatedPersonResponse)
        requires
            self.repository.wf(),
        ensures
            r.persons@ == page_slice(
                arranged_people(self.repository.active(), true).map_values(person_fn()),
                page as int,
                page_size as int,
            ),
            r.total == self.repository.active().len(),
            r.page == page,
            r.page_size == page_size,
            r.total_pages == spec_total_pages(self.repository.active().len() as int, page_size as int),
    {
        let persons = self.repository.list_paginated(page, page_size);
        let total = self.repository.count_all();
        let total_pages = total_pages_for(total, page_size);
        PaginatedPersonResponse { persons, total, page, page_size, total_pages }
    }

    /// Search the live rows; a blank query lists everything.
    pub fn search_people(&self, query: &str) -> (r: Vec<Person>)
        requires
            self.repository.wf(),
        ensures
            blank(query@) ==> r@ == arranged_people(self.repository.active(), true).map_values(
                person_fn(),
            ),
            !blank(query@) ==> r@ == arranged_people(
                self.repository.rows@.filter(match_pred(query@)),
                true,
            ).map_values(person_fn()),
    {
        if is_blank(query) {
            return self.repository.list_all();
        }
        self.repository.search(query)
    }

    /// One page of a search; a blank query returns nothing.
    pub fn search_people_paginated(&self, query: &str, page: i64, page_size: i64) -> (r: Vec<
        Person,
    >)
        requires
            self.repository.wf(),
        ensures
            blank(query@) ==> r@ =~= Seq::<Person>::empty(),
            !blank(query@) ==> r@ == page_slice(
                arranged_people(
                    self.repository.rows@.filter(match_pred(query@)),
                    true,
                ).map_values(person_fn()),
                page as int,
                page_size as int,
            ),
    {
        if is_blank(query) {
            return Vec::new();
        }
        self.repository.search_paginated(query, page, page_size)
    }

    /// One page of a search, with totals; a blank query returns an empty
    /// page with zero totals.
    pub fn search_people_paginated_response(&self, query: &str, page: i64, page_size: i64) -> (r:
        PaginatedPersonResponse)
        requires
            self.repository.wf(),
        ensures
            r.page == page && r.page_size == page_size,
            blank(query@) ==> r.persons@ =~= Seq::<Person>::empty() && r.total == 0
                && r.total_pages == 0,
            !blank(query@) ==> {
                &&& r.persons@ == page_slice(
                    arranged_people(
                        self.repository.rows@.filter(match_pred(query@)),
                        true,
                    ).map_values(person_fn()),
                    page as int,
                    page_size as int,
                )
                &&& r.total == self.repository.rows@.filter(match_pred(query@)).len()
                &&& r.total_pages == spec_total_pages(
                    self.repository.rows@.filter(match_pred(query@)).len() as int,
                    page_size as int,
                )
            },
    {
        if is_blank(query) {
            return PaginatedPersonResponse {
                persons: Vec::new(),
                total: 0,
                page,
                page_size,
                total_pages: 0,
            };
        }
        let persons = self.repository.search_paginated(query, page, page_size);
        let total = self.repository.search_count(query);
        let total_pages = total_pages_for(total, page_size);
        PaginatedPersonResponse { persons, total, page, page_size, total_pages }
    }

    /// Rewrite the fields of the row the request names.
    pub fn update_person(&mut self, person: Person) -> (r: Result<(), StoreError>)
        requires
            old(self).repository.wf(),
        ensures
            final(self).repository.wf(),
            r is Ok,
            final(self).repository.next_id == old(self).repository.next_id,
            final(self).repository.rows@ == old(self).repository.rows@.map_values(
                apply_person_update(person),
            ),
    {
        self.repository.update(person)
    }

    /// Soft delete by identifier.
    pub fn delete_person(&mut self, id: i64) -> (r: Result<(), StoreError>)
        requires
            old(self).repository.wf(),
        ensures
            final(self).repository.wf(),
            r is Ok <==> old(self).repository.clock + 1 < i64::MAX as int,
            r is Ok ==> final(self).repository.next_id == old(self).repository.next_id && final(self).repository.clock == old(self).repository.clock + 1 && final(self).repository.rows@ == old(self).repository.rows@.map_values(
                apply_delete(id, old(self).repository.clock),
            ),
            r is Err ==> *final(self) == *old(self) && r == Err::<(), StoreError>(
                StoreError::Storage,
            ),
    {
        self.repository.delete(id)
    }
}

} // verus!
