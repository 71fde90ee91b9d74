use vstd::prelude::*;

use crate::models::{Item, NewItem};

verus! {

/// The mathematical model of the table: the rows in storage order,
/// each an id paired with the value of its string column.
pub type Table = Seq<(i32, Seq<char>)>;

/// The model of a sequence of rows held in a `Vec<Item>`.
pub open spec fn rows_view(rows: Seq<Item>) -> Table {
    rows.map_values(|it: Item| (it.id, it.name@))
}

/// Ids are strictly increasing in storage order (so in particular unique):
/// they are assigned from a counter that never decreases.
pub open spec fn ids_increasing(t: Table) -> bool {
    forall|i: int, j: int| 0 <= i < j < t.len() ==> t[i].0 < t[j].0
}

/// Every id in the table lies below `bound`.
pub open spec fn ids_below(t: Table, bound: i32) -> bool {
    forall|i: int| 0 <= i < t.len() ==> t[i].0 < bound
}

/// No two rows share an id.
pub open spec fn ids_distinct(t: Table) -> bool {
    forall|i: int, j: int| 0 <= i < j < t.len() ==> t[i].0 != t[j].0
}

/// Some row of the table has id `key`.
pub open spec fn contains_id(t: Table, key: i32) -> bool {
    exists|i: int| 0 <= i < t.len() && t[i].0 == key
}

/// The value of the string column of the first row whose id is `key`,
/// or `None` when no row matches.
pub open spec fn tbl_lookup(t: Table, key: i32) -> Option<Seq<char>>
    decreases t.len(),
{
    if t.len() == 0 {
        None
    } else if t[0].0 == key {
        Some(t[0].1)
    } else {
        tbl_lookup(t.drop_first(), key)
    }
}

/// Appending one freshly created row at the end of the table.
pub open spec fn tbl_insert(t: Table, id: i32, v: Seq<char>) -> Table {
    t.push((id, v))
}

/// Setting the string column of every row whose id is `key` to `v`;
/// rows with other ids are untouched, and a missing id changes nothing.
pub open spec fn tbl_update(t: Table, key: i32, v: Seq<char>) -> Table {
    Seq::new(t.len(), |i: int| if t[i].0 == key { (t[i].0, v) } else { t[i] })
}

/// Removing every row whose id is `key`, keeping the order of the rest;
/// a missing id changes nothing.
pub open spec fn tbl_delete(t: Table, key: i32) -> Table
    decreases t.len(),
{
    if t.len() == 0 {
        Seq::<(i32, Seq<char>)>::empty()
    } else {
        let rest = tbl_delete(t.drop_last(), key);
        if t.last().0 == key {
            rest
        } else {
            rest.push(t.last())
        }
    }
}

/// The record store: a single table with an auto-assigned integer primary
/// key and one string column. Ids are handed out by a counter that only
/// grows, so an id is never reused, even after a delete.
pub struct Store {
    rows: Vec<Item>,
    next_id: i32,
}

impl View for Store {
    type V = Table;

    closed spec fn view(&self) -> Table {
        rows_view(self.rows@)
    }
}

impl Store {
    /// The id the next successful insert will assign.
    pub closed spec fn spec_next_id(self) -> i32 {
        self.next_id
    }

    /// Well-formedness: ids appear in increasing order and all lie below
    /// the id counter, which starts at one.
    pub open spec fn wf(self) -> bool {
        &&& ids_increasing(self@)
        &&& ids_below(self@, self.spec_next_id())
        &&& self.spec_next_id() >= 1
    }

    /// A fresh store: no rows, and the first insert will assign id 1.
    pub fn new() -> (s: Store)
        ensures
            s.wf(),
            s@ == Seq::<(i32, Seq<char>)>::empty(),
            s.spec_next_id() == 1,
    {
        let s = Store { rows: Vec::new(), next_id: 1 };
        proof {
            assert(s@ =~= Seq::<(i32, Seq<char>)>::empty());
        }
        s
    }

    /// Whether another insert fits: the id counter has not reached the
    /// largest representable id.
    pub fn can_insert(&self) -> (r: bool)
        ensures
            r == (self.spec_next_id() < i32::MAX),
    {
        self.next_id < i32::MAX
    }

    /// Returns every row, in storage (insertion) order.
    pub fn list(&self) -> (r: Vec<Item>)
        ensures
            rows_view(r@) == self@,
    {
        let mut out: Vec<Item> = Vec::new();
        let mut i: usize = 0;
        while i < self.rows.len()
            invariant
                i <= self.rows.len(),
                out@.len() == i,
                forall|j: int|
                    0 <= j < i ==> (#[trigger] out@[j]).id == self.rows@[j].id && out@[j].name@
                        == self.rows@[j].name@,
            decreases self.rows.len() - i,
        {
            let row = &self.rows[i];
            out.push(Item { id: row.id, name: row.name.clone() });
            i = i + 1;
        }
        proof {
            assert(rows_view(out@) =~= self@);
        }
        out
    }

    /// Returns the row whose id is `key`, or `None` when no row matches.
    pub fn get(&self, key: i32) -> (r: Option<Item>)
        requires
            self.wf(),
        ensures
            match r {
                Some(it) => it.id == key && tbl_lookup(self@, key) == Some(it.name@),
                None => tbl_lookup(self@, key) is None,
            },
    {
        let mut i: usize = 0;
        while i < self.rows.len()
            invariant
                self.wf(),
                i <= self.rows.len(),
                forall|j: int| 0 <= j < i ==> self@[j].0 != key,
            decreases self.rows.len() - i,
        {
            let row = &self.rows[i];
            if row.id == key {
                proof {
                    lemma_lookup_at(self@, key, i as int);
                }
                return Some(Item { id: row.id, name: row.name.clone() });
            }
            i = i + 1;
        }
        proof {
            assert(!contains_id(self@, key));
            lemma_lookup_contains(self@, key);
        }
        None
    }

    /// Inserts one row, assigning it the next id, and returns the stored
    /// row so the caller learns the generated id.
    pub fn insert(&mut self, new: NewItem<'_>) -> (r: Item)
        requires
            old(self).wf(),
            old(self).spec_next_id() < i32::MAX,
        ensures
            final(self).wf(),
            r.id == old(self).spec_next_id(),
            r.name@ == new.name@,
            final(self)@ == tbl_insert(old(self)@, r.id, new.name@),
            final(self).spec_next_id() == old(self).spec_next_id() + 1,
    {
        let item = Item { id: self.next_id, name: new.name.clone() };
        let r = Item { id: item.id, name: item.name.clone() };
        self.rows.push(item);
        self.next_id = self.next_id + 1;
        proof {
            assert(self@ =~= tbl_insert(old(self)@, r.id, new.name@));
        }
        r
    }

    /// Sets the string column of the row whose id is `key`; a no-op when
    /// no row matches.
    pub fn update(&mut self, key: i32, value: &str)
        requires
            old(self).wf(),
        ensures
            final(self).wf(),
            final(self)@ == tbl_update(old(self)@, key, value@),
            final(self).spec_next_id() == old(self).spec_next_id(),
    {
        let ghost t = old(self)@;
        let mut out: Vec<Item> = Vec::new();
        let mut i: usize = 0;
        while i < self.rows.len()
            invariant
                i <= self.rows.len(),
                self.rows@ == old(self).rows@,
                self.next_id == old(self).next_id,
                t == rows_view(self.rows@),
                out@.len() == i,
                forall|j: int|
                    0 <= j < i ==> (#[trigger] out@[j]).id == self.rows@[j].id && out@[j].name@
                        == (if self.rows@[j].id == key {
                        value@
                    } else {
                        self.rows@[j].name@
                    }),
            decreases self.rows.len() - i,
        {
            let row = &self.rows[i];
            if row.id == key {
                out.push(Item { id: row.id, name: value.to_owned() });
            } else {
                out.push(Item { id: row.id, name: row.name.clone() });
            }
            i = i + 1;
        }
        self.rows = out;
        proof {
            assert(self@ =~= tbl_update(t, key, value@));
        }
    }

    /// Removes the row whose id is `key`; a no-op when no row matches.
    /// The id counter is unchanged, so the id is never reused.
    pub fn delete(&mut self, key: i32)
        requires
            old(self).wf(),
        ensures
            final(self).wf(),
            final(self)@ == tbl_delete(old(self)@, key),
            final(self).spec_next_id() == old(self).spec_next_id(),
    {
        let ghost t = old(self)@;
        let mut out: Vec<Item> = Vec::new();
        let mut i: usize = 0;
        while i < self.rows.len()
            invariant
                i <= self.rows.len(),
                self.rows@ == old(self).rows@,
                self.next_id == old(self).next_id,
                t == rows_view(self.rows@),
                rows_view(out@) =~= tbl_delete(t.subrange(0, i as int), key),
            decreases self.rows.len() - i,
        {
            proof {
                assert(t.subrange(0, i + 1).drop_last() =~= t.subrange(0, i as int));
                assert(t.subrange(0, i + 1).last() == t[i as int]);
            }
            let row = &self.rows[i];
            if row.id != key {
                out.push(Item { id: row.id, name: row.name.clone() });
            }
            i = i + 1;
        }
        self.rows = out;
        proof {
            assert(t.subrange(0, t.len() as int) =~= t);
            assert(self@ =~= tbl_delete(t, key));
            lemma_delete_increasing(t, key);
            lemma_delete_below(t, key, self.next_id);
        }
    }
}

/// A lookup answers `Some` exactly when some row carries the key.
pub proof fn lemma_lookup_contains(t: Table, key: i32)
    ensures
        (tbl_lookup(t, key) is Some) <==> contains_id(t, key),
    decreases t.len(),
{
    if t.len() == 0 {
    } else if t[0].0 == key {
        assert(contains_id(t, key));
    } else {
        lemma_lookup_contains(t.drop_first(), key);
        if contains_id(t.drop_first(), key) {
            let i = choose|i: int| 0 <= i < t.drop_first().len() && t.drop_first()[i].0 == key;
            assert(t[i + 1].0 == key);
        }
        if contains_id(t, key) {
            let i = choose|i: int| 0 <= i < t.len() && t[i].0 == key;
            assert(t.drop_first()[i - 1].0 == key);
        }
    }
}

/// When ids are unique, a lookup of the id of row `i` returns that row's value.
pub proof fn lemma_lookup_at(t: Table, key: i32, i: int)
    requires
        ids_distinct(t),
        0 <= i < t.len(),
        t[i].0 == key,
    ensures
        tbl_lookup(t, key) == Some(t[i].1),
    decreases t.len(),
{
    if i == 0 {
    } else {
        assert(t[0].0 != key);
        assert(ids_distinct(t.drop_first())) by {
            assert forall|a: int, b: int| 0 <= a < b < t.drop_first().len() implies t.drop_first()[a].0
                != t.drop_first()[b].0 by {
                assert(t[a + 1].0 != t[b + 1].0);
            }
        }
        lemma_lookup_at(t.drop_first(), key, i - 1);
    }
}

/// Strictly increasing ids are in particular distinct.
pub proof fn lemma_increasing_distinct(t: Table)
    requires
        ids_increasing(t),
    ensures
        ids_distinct(t),
{
}

/// Every row of a delete's result is a row of the table it started from.
pub proof fn lemma_delete_survivors(t: Table, key: i32)
    ensures
        forall|j: int|
            0 <= j < tbl_delete(t, key).len() ==> exists|k: int|
                0 <= k < t.len() && #[trigger] tbl_delete(t, key)[j] == t[k],
    decreases t.len(),
{
    let d = tbl_delete(t, key);
    if t.len() == 0 {
    } else {
        let u = t.drop_last();
        lemma_delete_survivors(u, key);
        let rest = tbl_delete(u, key);
        assert forall|j: int| 0 <= j < d.len() implies exists|k: int|
            0 <= k < t.len() && #[trigger] d[j] == t[k] by {
            if j < rest.len() {
                assert(d[j] == rest[j]);
                let k = choose|k: int| 0 <= k < u.len() && rest[j] == u[k];
                assert(d[j] == t[k]);
            } else {
                assert(d[j] == t[t.len() - 1]);
            }
        }
    }
}

/// A delete keeps every id below any bound the table respected before.
pub proof fn lemma_delete_below(t: Table, key: i32, bound: i32)
    requires
        ids_below(t, bound),
    ensures
        ids_below(tbl_delete(t, key), bound),
{
    let d = tbl_delete(t, key);
    lemma_delete_survivors(t, key);
    assert forall|j: int| 0 <= j < d.len() implies (#[trigger] d[j]).0 < bound by {
        let k = choose|k: int| 0 <= k < t.len() && d[j] == t[k];
    }
}

/// A delete keeps the ids strictly increasing.
pub proof fn lemma_delete_increasing(t: Table, key: i32)
    requires
        ids_increasing(t),
    ensures
        ids_increasing(tbl_delete(t, key)),
    decreases t.len(),
{
    let d = tbl_delete(t, key);
    if t.len() == 0 {
    } else {
        let u = t.drop_last();
        let last = t.last();
        assert(ids_increasing(u)) by {
            assert(forall|i: int, j: int|
                0 <= i < j < u.len() ==> #[trigger] u[i] == t[i] && #[trigger] u[j] == t[j]);
        }
        lemma_delete_increasing(u, key);
        let rest = tbl_delete(u, key);
        if last.0 == key {
        } else {
            assert(ids_below(u, last.0)) by {
                assert(forall|i: int| 0 <= i < u.len() ==> (#[trigger] u[i]).0 < last.0);
            }
            lemma_delete_below(u, key, last.0);
            assert forall|i: int, j: int| 0 <= i < j < d.len() implies d[i].0 < d[j].0 by {
                assert(d[i] == rest[i]);
                if j < d.len() - 1 {
                    assert(d[j] == rest[j]);
                } else {
                    assert(d[j] == last);
                    assert(rest[i].0 < last.0);
                }
            }
        }
    }
}

/// After a delete of `key`, no row carries that id.
pub proof fn lemma_delete_absent(t: Table, key: i32)
    ensures
        !contains_id(tbl_delete(t, key), key),
    decreases t.len(),
{
    let d = tbl_delete(t, key);
    if t.len() == 0 {
    } else {
        let u = t.drop_last();
        lemma_delete_absent(u, key);
        let rest = tbl_delete(u, key);
        if t.last().0 == key {
        } else {
            assert forall|i: int| 0 <= i < d.len() implies (#[trigger] d[i]).0 != key by {
                if i < d.len() - 1 {
                    assert(d[i] == rest[i]);
                    assert(!contains_id(rest, key));
                } else {
                    assert(d[i] == t.last());
                }
            }
        }
    }
}

/// A delete removes exactly one row when the key is present and none
/// otherwise; in the latter case the table is unchanged.
pub proof fn lemma_delete_len(t: Table, key: i32)
    requires
        ids_increasing(t),
    ensures
        contains_id(t, key) ==> tbl_delete(t, key).len() == t.len() - 1,
        !contains_id(t, key) ==> tbl_delete(t, key) == t,
    decreases t.len(),
{
    let d = tbl_delete(t, key);
    if t.len() == 0 {
        assert(d =~= t);
    } else {
        let u = t.drop_last();
        let last = t.last();
        assert(ids_increasing(u)) by {
            assert(forall|i: int, j: int|
                0 <= i < j < u.len() ==> #[trigger] u[i] == t[i] && #[trigger] u[j] == t[j]);
        }
        lemma_delete_len(u, key);
        let rest = tbl_delete(u, key);
        if last.0 == key {
            assert(!contains_id(u, key)) by {
                assert(forall|i: int| 0 <= i < u.len() ==> (#[trigger] u[i]).0 < last.0);
            }
            assert(rest == u);
            assert(contains_id(t, key)) by {
                assert(t[t.len() - 1].0 == key);
            }
        } else {
            assert(contains_id(t, key) <==> contains_id(u, key)) by {
                if contains_id(t, key) {
                    let i = choose|i: int| 0 <= i < t.len() && t[i].0 == key;
                    assert(i < t.len() - 1);
                    assert(u[i].0 == key);
                }
                if contains_id(u, key) {
                    let i = choose|i: int| 0 <= i < u.len() && u[i].0 == key;
                    assert(t[i].0 == key);
                }
            }
            if !contains_id(t, key) {
                assert(rest == u);
                assert(d =~= t);
            }
        }
    }
}

/// A freshly created row is retrievable by the id the store assigned, with
/// the submitted field value.
pub proof fn lemma_create_then_get(t: Table, nid: i32, v: Seq<char>)
    requires
        ids_increasing(t),
        ids_below(t, nid),
    ensures
        ids_increasing(tbl_insert(t, nid, v)),
        tbl_lookup(tbl_insert(t, nid, v), nid) == Some(v),
{
    let d = tbl_insert(t, nid, v);
    assert(ids_increasing(d)) by {
        assert forall|i: int, j: int| 0 <= i < j < d.len() implies d[i].0 < d[j].0 by {
            if j < d.len() - 1 {
                assert(d[i] == t[i] && d[j] == t[j]);
            } else {
                assert(d[i] == t[i]);
                assert(d[j] == (nid, v));
            }
        }
    }
    lemma_increasing_distinct(d);
    lemma_lookup_at(d, nid, t.len() as int);
}

/// A lookup of an id no row carries answers `None`.
pub proof fn lemma_get_missing(t: Table, key: i32)
    requires
        !contains_id(t, key),
    ensures
        tbl_lookup(t, key) is None,
{
    lemma_lookup_contains(t, key);
}

/// After a delete, a lookup of the deleted id answers `None`.
pub proof fn lemma_delete_then_get(t: Table, key: i32)
    ensures
        tbl_lookup(tbl_delete(t, key), key) is None,
{
    lemma_delete_absent(t, key);
    lemma_lookup_contains(tbl_delete(t, key), key);
}

/// After an update, a lookup of the updated id sees the new value when the
/// row exists; when it does not, the update was a no-op on the table.
pub proof fn lemma_update_then_get(t: Table, key: i32, v: Seq<char>)
    requires
        ids_distinct(t),
    ensures
        tbl_lookup(tbl_update(t, key, v), key) == (if contains_id(t, key) {
            Some(v)
        } else {
            None::<Seq<char>>
        }),
        !contains_id(t, key) ==> tbl_update(t, key, v) == t,
{
    let d = tbl_update(t, key, v);
    assert(forall|i: int| 0 <= i < d.len() ==> (#[trigger] d[i]).0 == t[i].0);
    assert(ids_distinct(d));
    if contains_id(t, key) {
        let i = choose|i: int| 0 <= i < t.len() && t[i].0 == key;
        assert(d[i] == (t[i].0, v));
        lemma_lookup_at(d, key, i);
    } else {
        assert(!contains_id(d, key));
        lemma_lookup_contains(d, key);
        assert(d =~= t);
    }
}

/// An update of one id leaves what a lookup of any other id sees unchanged.
pub proof fn lemma_update_preserves_others(t: Table, key: i32, v: Seq<char>, other: i32)
    requires
        ids_distinct(t),
        other != key,
    ensures
        tbl_lookup(tbl_update(t, key, v), other) == tbl_lookup(t, other),
{
    let d = tbl_update(t, key, v);
    assert(forall|i: int| 0 <= i < d.len() ==> (#[trigger] d[i]).0 == t[i].0);
    assert(ids_distinct(d));
    if contains_id(t, other) {
        let i = choose|i: int| 0 <= i < t.len() && t[i].0 == other;
        assert(d[i] == t[i]);
        lemma_lookup_at(d, other, i);
        lemma_lookup_at(t, other, i);
    } else {
        assert(!contains_id(d, other));
        lemma_lookup_contains(d, other);
        lemma_lookup_contains(t, other);
    }
}

/// Every row a delete does not target survives it.
pub proof fn lemma_delete_keeps(t: Table, key: i32)
    ensures
        forall|k: int|
            0 <= k < t.len() && (#[trigger] t[k]).0 != key ==> exists|j: int|
                0 <= j < tbl_delete(t, key).len() && tbl_delete(t, key)[j] == t[k],
    decreases t.len(),
{
    let d = tbl_delete(t, key);
    if t.len() == 0 {
    } else {
        let u = t.drop_last();
        lemma_delete_keeps(u, key);
        let rest = tbl_delete(u, key);
        assert forall|k: int| 0 <= k < t.len() && (#[trigger] t[k]).0 != key implies exists|j: int|
            0 <= j < d.len() && d[j] == t[k] by {
            if k < t.len() - 1 {
                assert(u[k] == t[k]);
                let j = choose|j: int| 0 <= j < rest.len() && rest[j] == u[k];
                assert(d[j] == t[k]);
            } else {
                assert(t.last().0 != key);
                assert(d[d.len() - 1] == t[k]);
            }
        }
    }
}

/// A delete of one id leaves what a lookup of any other id sees unchanged.
#[verifier::rlimit(50)]
pub proof fn lemma_delete_preserves_others(t: Table, key: i32, other: i32)
    requires
        ids_increasing(t),
        other != key,
    ensures
        tbl_lookup(tbl_delete(t, key), other) == tbl_lookup(t, other),
{
    let d = tbl_delete(t, key);
    lemma_increasing_distinct(t);
    lemma_delete_increasing(t, key);
    lemma_increasing_distinct(d);
    lemma_delete_survivors(t, key);
    if contains_id(t, other) {
        lemma_delete_keeps(t, key);
        let i = choose|i: int| 0 <= i < t.len() && t[i].0 == other;
        lemma_lookup_at(t, other, i);
        let j = choose|j: int| 0 <= j < d.len() && d[j] == t[i];
        lemma_lookup_at(d, other, j);
    } else {
        assert(!contains_id(d, other)) by {
            assert forall|j: int| 0 <= j < d.len() implies (#[trigger] d[j]).0 != other by {
                let k = choose|k: int| 0 <= k < t.len() && d[j] == t[k];
            }
        }
        lemma_lookup_contains(t, other);
        lemma_lookup_contains(d, other);
    }
}

/// One step of the store's life: a create with some field value, or a
/// delete by id. Used to state what a whole history of calls leaves behind.
pub enum TableOp {
    Create(Seq<char>),
    Delete(i32),
}

/// How many creates a history contains.
pub open spec fn count_creates(ops: Seq<TableOp>) -> int
    decreases ops.len(),
{
    if ops.len() == 0 {
        0
    } else {
        count_creates(ops.drop_last()) + (match ops.last() {
            TableOp::Create(_) => 1int,
            TableOp::Delete(_) => 0int,
        })
    }
}

/// The table and id counter a history of creates and deletes leaves behind.
pub open spec fn apply_ops(t: Table, next: i32, ops: Seq<TableOp>) -> (Table, i32)
    decreases ops.len(),
{
    if ops.len() == 0 {
        (t, next)
    } else {
        let prev = apply_ops(t, next, ops.drop_last());
        match ops.last() {
            TableOp::Create(v) => (tbl_insert(prev.0, prev.1, v), (prev.1 + 1) as i32),
            TableOp::Delete(k) => (tbl_delete(prev.0, k), prev.1),
        }
    }
}

/// How many deletes of a history removed a row: those whose id was present
/// in the table at the moment they ran.
pub open spec fn count_successful_deletes(t: Table, next: i32, ops: Seq<TableOp>) -> int
    decreases ops.len(),
{
    if ops.len() == 0 {
        0
    } else {
        count_successful_deletes(t, next, ops.drop_last()) + (match ops.last() {
            TableOp::Create(_) => 0int,
            TableOp::Delete(k) => if contains_id(apply_ops(t, next, ops.drop_last()).0, k) {
                1int
            } else {
                0int
            },
        })
    }
}

/// After any history of creates and deletes the table holds exactly the
/// rows that were created and not deleted: its length grew by the number of
/// creates and shrank by the number of deletes that removed a row. The id
/// counter grew by the number of creates, and the table stays well formed.
pub proof fn lemma_surviving_rows(t: Table, next: i32, ops: Seq<TableOp>)
    requires
        ids_increasing(t),
        ids_below(t, next),
        next + count_creates(ops) <= i32::MAX,
    ensures
        ids_increasing(apply_ops(t, next, ops).0),
        ids_below(apply_ops(t, next, ops).0, apply_ops(t, next, ops).1),
        apply_ops(t, next, ops).1 == next + count_creates(ops),
        apply_ops(t, next, ops).0.len() == t.len() + count_creates(ops)
            - count_successful_deletes(t, next, ops),
    decreases ops.len(),
{
    if ops.len() == 0 {
    } else {
        let rest = ops.drop_last();
        assert(count_creates(ops) == count_creates(rest) + (match ops.last() {
            TableOp::Create(_) => 1int,
            TableOp::Delete(_) => 0int,
        }));
        lemma_surviving_rows(t, next, rest);
        let prev = apply_ops(t, next, rest);
        match ops.last() {
            TableOp::Create(v) => {
                let d = tbl_insert(prev.0, prev.1, v);
                lemma_create_then_get(prev.0, prev.1, v);
                assert(ids_below(d, (prev.1 + 1) as i32)) by {
                    assert forall|i: int| 0 <= i < d.len() implies (#[trigger] d[i]).0 < prev.1
                        + 1 by {
                        if i < d.len() - 1 {
                            assert(d[i] == prev.0[i]);
                        } else {
                            assert(d[i] == (prev.1, v));
                        }
                    }
                }
            },
            TableOp::Delete(k) => {
                lemma_delete_increasing(prev.0, k);
                lemma_delete_below(prev.0, k, prev.1);
                lemma_delete_len(prev.0, k);
            },
        }
    }
}

} // verus!
