//! An executable model of the todo store with the exact row semantics the SQL
//! statements have: keyset-filtered, ordered, limited listing; per-statement
//! mutations whose result reports whether any row matched. Rows are kept in
//! insertion order, which the invariant ties to ascending identifiers, as the
//! auto-increment key does.

use vstd::prelude::*;

use crate::pagination::{valid_pagination, Pagination};
use crate::query::{matches_filter, plan_spec, row_matches, KeysetFilter, QueryPlan};
use crate::scalar::{Timestamp, ID};
use crate::todo::Todo;

verus! {

/// Rows kept by a predicate, in stored order.
pub open spec fn kept_rows(rows: Seq<Todo>, pred: spec_fn(Todo) -> bool) -> Seq<Todo>
    decreases rows.len(),
{
    if rows.len() == 0 {
        Seq::empty()
    } else {
        kept_rows(rows.drop_last(), pred) + if pred(rows.last()) {
            seq![rows.last()]
        } else {
            Seq::empty()
        }
    }
}

/// Matching rows never outnumber the rows.
pub proof fn lemma_kept_rows_len(rows: Seq<Todo>, pred: spec_fn(Todo) -> bool)
    ensures
        kept_rows(rows, pred).len() <= rows.len(),
    decreases rows.len(),
{
    if rows.len() > 0 {
        lemma_kept_rows_len(rows.drop_last(), pred);
    }
}

/// The predicate of a keyset filter.
pub open spec fn matches_pred(f: KeysetFilter) -> spec_fn(Todo) -> bool {
    |t: Todo| row_matches(t, f)
}

/// Keeps the rows whose identifier differs: what a delete by id leaves.
pub open spec fn keeps_other_ids(id: ID) -> spec_fn(Todo) -> bool {
    |t: Todo| t.id != id
}

/// Keeps the rows not yet done: what clearing the completed ones leaves.
pub open spec fn undone_pred() -> spec_fn(Todo) -> bool {
    |t: Todo| !t.done
}

/// A row with its done flag replaced.
pub open spec fn with_done(t: Todo, done: bool) -> Todo {
    Todo { done, ..t }
}

/// A row with its description replaced.
pub open spec fn with_description(t: Todo, description: String) -> Todo {
    Todo { description, ..t }
}

/// Rows after `completeTodo`: rows with the identifier carry the flag, the
/// rest are untouched.
pub open spec fn completed_rows(rows: Seq<Todo>, id: ID, done: bool) -> Seq<Todo> {
    Seq::new(
        rows.len(),
        |i: int|
            if rows[i].id == id {
                with_done(rows[i], done)
            } else {
                rows[i]
            },
    )
}

/// Rows after `editTodo`: rows with the identifier carry the description.
pub open spec fn edited_rows(rows: Seq<Todo>, id: ID, description: String) -> Seq<Todo> {
    Seq::new(
        rows.len(),
        |i: int|
            if rows[i].id == id {
                with_description(rows[i], description)
            } else {
                rows[i]
            },
    )
}

/// Rows after `toggleAll`: every row carries the flag.
pub open spec fn toggled_rows(rows: Seq<Todo>, done: bool) -> Seq<Todo> {
    Seq::new(rows.len(), |i: int| with_done(rows[i], done))
}

/// Whether some row carries the identifier.
pub open spec fn has_id(rows: Seq<Todo>, id: ID) -> bool {
    exists|i: int| 0 <= i < rows.len() && (#[trigger] rows[i]).id == id
}

/// Whether some row's done flag differs from the given one.
pub open spec fn some_done_differs(rows: Seq<Todo>, done: bool) -> bool {
    exists|i: int| 0 <= i < rows.len() && (#[trigger] rows[i]).done != done
}

/// Whether some row is done.
pub open spec fn some_done(rows: Seq<Todo>) -> bool {
    exists|i: int| 0 <= i < rows.len() && (#[trigger] rows[i]).done
}

/// What a listing returns: the matching rows in stored order, reversed for a
/// backward page, truncated to the effective page size.
pub open spec fn list_spec(rows: Seq<Todo>, q: QueryPlan) -> Seq<Todo> {
    let m = kept_rows(rows, matches_pred(q.filter));
    let ordered = if q.descending {
        m.reverse()
    } else {
        m
    };
    ordered.take(vstd::math::min(q.limit as int, ordered.len() as int))
}

/// Ascending identifiers, as the auto-increment key assigns them.
pub open spec fn sorted_by_id(rows: Seq<Todo>) -> bool {
    forall|i: int, j: int|
        #![trigger rows[i], rows[j]]
        0 <= i < j < rows.len() ==> rows[i].id.0 < rows[j].id.0
}

/// Keeping a subset of sorted rows keeps them sorted, and every kept row is
/// one of the rows given.
proof fn lemma_kept_rows_sorted(rows: Seq<Todo>, pred: spec_fn(Todo) -> bool)
    requires
        sorted_by_id(rows),
    ensures
        sorted_by_id(kept_rows(rows, pred)),
        forall|j: int|
            0 <= j < kept_rows(rows, pred).len() ==> exists|k: int|
                0 <= k < rows.len() && #[trigger] kept_rows(rows, pred)[j] == rows[k],
    decreases rows.len(),
{
    if rows.len() > 0 {
        let r0 = rows.drop_last();
        assert(sorted_by_id(r0)) by {
            assert(forall|i: int| 0 <= i < r0.len() ==> r0[i] == rows[i]);
        }
        lemma_kept_rows_sorted(r0, pred);
        let kept = kept_rows(rows, pred);
        let kept0 = kept_rows(r0, pred);
        assert forall|j: int| 0 <= j < kept.len() implies exists|k: int|
            0 <= k < rows.len() && #[trigger] kept[j] == rows[k] by {
            if j < kept0.len() {
                assert(kept[j] == kept0[j]);
                let k = choose|k: int| 0 <= k < r0.len() && kept0[j] == r0[k];
                assert(kept[j] == rows[k]);
            } else {
                assert(kept[j] == rows[rows.len() - 1]);
            }
        }
        assert forall|i: int, j: int|
            #![trigger kept[i], kept[j]]
            0 <= i < j < kept.len() implies kept[i].id.0 < kept[j].id.0 by {
            if j < kept0.len() {
                assert(kept0[i].id.0 < kept0[j].id.0);
            } else {
                let k = choose|k: int| 0 <= k < r0.len() && kept0[i] == r0[k];
                assert(rows[k].id.0 < rows[rows.len() - 1].id.0);
            }
        }
    }
}

/// A forward page of rows with ascending identifiers lists its records in
/// ascending identifier order; so every forward listing of a well-formed
/// store is id-ascending.
pub proof fn lemma_forward_listing_ascending(rows: Seq<Todo>, q: QueryPlan)
    requires
        sorted_by_id(rows),
        !q.descending,
        q.limit >= 0,
    ensures
        sorted_by_id(list_spec(rows, q)),
{
    lemma_kept_rows_sorted(rows, matches_pred(q.filter));
    let m = kept_rows(rows, matches_pred(q.filter));
    let t = m.take(vstd::math::min(q.limit as int, m.len() as int));
    assert forall|i: int, j: int|
        #![trigger t[i], t[j]]
        0 <= i < j < t.len() implies t[i].id.0 < t[j].id.0 by {
        assert(t[i] == m[i] && t[j] == m[j]);
    }
}

/// Completing a todo is repeatable: it does not change which identifiers
/// exist, and doing it twice leaves what one application leaves. So a second
/// identical `completeTodo` reports a matched row exactly as the first did.
pub proof fn lemma_complete_todo_repeatable(rows: Seq<Todo>, id: ID, done: bool)
    ensures
        has_id(completed_rows(rows, id, done), id) == has_id(rows, id),
        completed_rows(completed_rows(rows, id, done), id, done) == completed_rows(
            rows,
            id,
            done,
        ),
{
    let once = completed_rows(rows, id, done);
    assert(forall|i: int| 0 <= i < rows.len() ==> (#[trigger] once[i]).id == rows[i].id);
    if has_id(rows, id) {
        let i = choose|i: int| 0 <= i < rows.len() && (#[trigger] rows[i]).id == id;
        assert(once[i].id == id);
    }
    if has_id(once, id) {
        let i = choose|i: int| 0 <= i < once.len() && (#[trigger] once[i]).id == id;
        assert(rows[i].id == id);
    }
    assert(completed_rows(once, id, done) =~= once);
}

/// The store: the rows and the next identifier to assign.
#[derive(Debug)]
pub struct TodoStore {
    pub todos: Vec<Todo>,
    pub next_id: i64,
}

impl TodoStore {
    /// Rows carry identifiers the store assigned: at least 1, below the next
    /// one to assign, and ascending in stored order.
    pub open spec fn wf(&self) -> bool {
        &&& 1 <= self.next_id
        &&& forall|i: int|
            0 <= i < self.todos@.len() ==> 1 <= (#[trigger] self.todos@[i]).id.0 < self.next_id
        &&& sorted_by_id(self.todos@)
    }

    /// An empty store; the first identifier assigned is 1.
    pub fn new() -> (s: TodoStore)
        ensures
            s.todos@.len() == 0,
            s.next_id == 1,
            s.wf(),
    {
        TodoStore { todos: Vec::new(), next_id: 1 }
    }

    pub fn count(&self) -> (n: usize)
        ensures
            n == self.todos@.len(),
    {
        self.todos.len()
    }

    /// The total number of rows, unfiltered by pagination.
    pub fn total(&self) -> (n: i32)
        requires
            self.todos@.len() <= i32::MAX,
        ensures
            n == self.todos@.len(),
    {
        self.todos.len() as i32
    }

    /// Inserts a new row, not yet done, under the next identifier; fails only
    /// when the identifier space is exhausted.
    pub fn add_todo(&mut self, description: String, created_at: Timestamp) -> (r: Option<ID>)
        requires
            old(self).wf(),
        ensures
            final(self).wf(),
            old(self).next_id < i64::MAX ==> {
                &&& r == Some(ID(old(self).next_id))
                &&& final(self).todos@ == old(self).todos@.push(
                    (Todo { id: ID(old(self).next_id), description, done: false, created_at }),
                )
                &&& final(self).next_id == old(self).next_id + 1
            },
            old(self).next_id == i64::MAX ==> r is None && *final(self) == *old(self),
    {
        if self.next_id == i64::MAX {
            return None;
        }
        let id = ID(self.next_id);
        self.next_id = self.next_id + 1;
        self.todos.push(Todo::new(id, description, false, created_at));
        Some(id)
    }

    /// Sets the done flag of the row with the identifier; reports whether such
    /// a row exists, a second identical call included.
    pub fn complete_todo(&mut self, id: ID, done: bool) -> (r: bool)
        requires
            old(self).wf(),
        ensures
            final(self).wf(),
            final(self).next_id == old(self).next_id,
            final(self).todos@ == completed_rows(old(self).todos@, id, done),
            r == has_id(old(self).todos@, id),
    {
        let ghost orig = self.todos@;
        let n: usize = self.todos.len();
        let mut out: Vec<Todo> = Vec::new();
        let mut found: bool = false;
        let mut i: usize = 0;
        while i < n
            invariant
                0 <= i <= n,
                n == orig.len(),
                self.todos@ == orig,
                out@.len() == i,
                forall|j: int| 0 <= j < i ==> out@[j] == completed_rows(orig, id, done)[j],
                found == exists|j: int| 0 <= j < i && (#[trigger] orig[j]).id == id,
            decreases n - i,
        {
            let t = &self.todos[i];
            if t.id.0 == id.0 {
                assert(t.id == id);
                found = true;
                out.push(Todo::new(t.id, t.description.clone(), done, t.created_at));
            } else {
                assert(t.id != id);
                out.push(t.clone());
            }
            i = i + 1;
        }
        proof {
            assert(out@ =~= completed_rows(orig, id, done));
            assert forall|i2: int, j2: int|
                #![trigger out@[i2], out@[j2]]
                0 <= i2 < j2 < out@.len() implies out@[i2].id.0 < out@[j2].id.0 by {
                assert(orig[i2].id.0 < orig[j2].id.0);
            }
            assert forall|i2: int| 0 <= i2 < out@.len() implies 1 <= (#[trigger] out@[i2]).id.0
                < self.next_id by {
                assert(1 <= orig[i2].id.0 < self.next_id);
            }
        }
        self.todos = out;
        found
    }

    /// Replaces the description of the row with the identifier; reports
    /// whether such a row exists.
    pub fn edit_todo(&mut self, id: ID, description: String) -> (r: bool)
        requires
            old(self).wf(),
        ensures
            final(self).wf(),
            final(self).next_id == old(self).next_id,
            final(self).todos@ == edited_rows(old(self).todos@, id, description),
            r == has_id(old(self).todos@, id),
    {
        let ghost orig = self.todos@;
        let n: usize = self.todos.len();
        let mut out: Vec<Todo> = Vec::new();
        let mut found: bool = false;
        let mut i: usize = 0;
        while i < n
            invariant
                0 <= i <= n,
                n == orig.len(),
                self.todos@ == orig,
                out@.len() == i,
                forall|j: int| 0 <= j < i ==> out@[j] == edited_rows(orig, id, description)[j],
                found == exists|j: int| 0 <= j < i && (#[trigger] orig[j]).id == id,
            decreases n - i,
        {
            let t = &self.todos[i];
            if t.id.0 == id.0 {
                assert(t.id == id);
                found = true;
                out.push(Todo::new(t.id, description.clone(), t.done, t.created_at));
            } else {
                assert(t.id != id);
                out.push(t.clone());
            }
            i = i + 1;
        }
        proof {
            assert(out@ =~= edited_rows(orig, id, description));
            assert forall|i2: int, j2: int|
                #![trigger out@[i2], out@[j2]]
                0 <= i2 < j2 < out@.len() implies out@[i2].id.0 < out@[j2].id.0 by {
                assert(orig[i2].id.0 < orig[j2].id.0);
            }
            assert forall|i2: int| 0 <= i2 < out@.len() implies 1 <= (#[trigger] out@[i2]).id.0
                < self.next_id by {
                assert(1 <= orig[i2].id.0 < self.next_id);
            }
        }
        self.todos = out;
        found
    }

    /// Sets every row's done flag; reports whether any row's flag differed.
    pub fn toggle_all(&mut self, done: bool) -> (r: bool)
        requires
            old(self).wf(),
        ensures
            final(self).wf(),
            final(self).next_id == old(self).next_id,
            final(self).todos@ == toggled_rows(old(self).todos@, done),
            r == some_done_differs(old(self).todos@, done),
    {
        let ghost orig = self.todos@;
        let n: usize = self.todos.len();
        let mut out: Vec<Todo> = Vec::new();
        let mut found: bool = false;
        let mut i: usize = 0;
        while i < n
            invariant
                0 <= i <= n,
                n == orig.len(),
                self.todos@ == orig,
                out@.len() == i,
                forall|j: int| 0 <= j < i ==> out@[j] == toggled_rows(orig, done)[j],
                found == exists|j: int| 0 <= j < i && (#[trigger] orig[j]).done != done,
            decreases n - i,
        {
            let t = &self.todos[i];
            if t.done != done {
                found = true;
            }
            out.push(Todo::new(t.id, t.description.clone(), done, t.created_at));
            i = i + 1;
        }
        proof {
            assert(out@ =~= toggled_rows(orig, done));
            assert forall|i2: int, j2: int|
                #![trigger out@[i2], out@[j2]]
                0 <= i2 < j2 < out@.len() implies out@[i2].id.0 < out@[j2].id.0 by {
                assert(orig[i2].id.0 < orig[j2].id.0);
            }
            assert forall|i2: int| 0 <= i2 < out@.len() implies 1 <= (#[trigger] out@[i2]).id.0
                < self.next_id by {
                assert(1 <= orig[i2].id.0 < self.next_id);
            }
        }
        self.todos = out;
        found
    }

    /// Deletes the row with the identifier; reports whether such a row
    /// existed.
    pub fn remove_todo(&mut self, id: ID) -> (r: bool)
        requires
            old(self).wf(),
        ensures
            final(self).wf(),
            final(self).next_id == old(self).next_id,
            final(self).todos@ == kept_rows(old(self).todos@, keeps_other_ids(id)),
            r == has_id(old(self).todos@, id),
    {
        let ghost orig = self.todos@;
        let ghost pred = keeps_other_ids(id);
        let n: usize = self.todos.len();
        let mut out: Vec<Todo> = Vec::new();
        let mut found: bool = false;
        let mut i: usize = 0;
        while i < n
            invariant
                0 <= i <= n,
                n == orig.len(),
                self.todos@ == orig,
                pred == keeps_other_ids(id),
                out@ == kept_rows(orig.take(i as int), pred),
                found == exists|j: int| 0 <= j < i && (#[trigger] orig[j]).id == id,
            decreases n - i,
        {
            let ghost pre = orig.take(i as int + 1);
            proof {
                assert(pre.drop_last() =~= orig.take(i as int));
                assert(pre.last() == orig[i as int]);
            }
            let t = &self.todos[i];
            if t.id.0 == id.0 {
                assert(t.id == id);
                found = true;
                proof {
                    assert(!pred(orig[i as int]));
                    assert(out@ =~= kept_rows(pre, pred));
                }
            } else {
                assert(t.id != id);
                out.push(t.clone());
                proof {
                    assert(pred(orig[i as int]));
                    assert(out@ =~= kept_rows(pre, pred));
                }
            }
            i = i + 1;
        }
        proof {
            assert(orig.take(n as int) =~= orig);
            lemma_kept_rows_sorted(orig, pred);
            assert forall|i2: int| 0 <= i2 < out@.len() implies 1 <= (#[trigger] out@[i2]).id.0
                < self.next_id by {
                let k = choose|k: int| 0 <= k < orig.len() && out@[i2] == orig[k];
                assert(1 <= orig[k].id.0 < self.next_id);
            }
        }
        self.todos = out;
        found
    }

    /// Deletes every done row; reports whether any row was done. What remains
    /// is exactly the rows that were not done.
    pub fn clear_completed(&mut self) -> (r: bool)
        requires
            old(self).wf(),
        ensures
            final(self).wf(),
            final(self).next_id == old(self).next_id,
            final(self).todos@ == kept_rows(old(self).todos@, undone_pred()),
            r == some_done(old(self).todos@),
    {
        let ghost orig = self.todos@;
        let ghost pred = undone_pred();
        let n: usize = self.todos.len();
        let mut out: Vec<Todo> = Vec::new();
        let mut found: bool = false;
        let mut i: usize = 0;
        while i < n
            invariant
                0 <= i <= n,
                n == orig.len(),
                self.todos@ == orig,
                pred == undone_pred(),
                out@ == kept_rows(orig.take(i as int), pred),
                found == exists|j: int| 0 <= j < i && (#[trigger] orig[j]).done,
            decreases n - i,
        {
            let ghost pre = orig.take(i as int + 1);
            proof {
                assert(pre.drop_last() =~= orig.take(i as int));
                assert(pre.last() == orig[i as int]);
            }
            let t = &self.todos[i];
            if t.done {
                found = true;
                proof {
                    assert(!pred(orig[i as int]));
                    assert(out@ =~= kept_rows(pre, pred));
                }
            } else {
                out.push(t.clone());
                proof {
                    assert(pred(orig[i as int]));
                    assert(out@ =~= kept_rows(pre, pred));
                }
            }
            i = i + 1;
        }
        proof {
            assert(orig.take(n as int) =~= orig);
            lemma_kept_rows_sorted(orig, pred);
            assert forall|i2: int| 0 <= i2 < out@.len() implies 1 <= (#[trigger] out@[i2]).id.0
                < self.next_id by {
                let k = choose|k: int| 0 <= k < orig.len() && out@[i2] == orig[k];
                assert(1 <= orig[k].id.0 < self.next_id);
            }
        }
        self.todos = out;
        found
    }

    /// Runs a validated pagination against the store: the keyset-matching
    /// rows, in stored order, reversed for a backward page, truncated to the
    /// effective page size.
    pub fn list_todos(&self, p: &Pagination) -> (r: Vec<Todo>)
        requires
            self.wf(),
            valid_pagination(*p),
        ensures
            r@ == list_spec(self.todos@, plan_spec(*p)),
    {
        let q = QueryPlan::new(p);
        let ghost pred = matches_pred(q.filter);
        let ghost orig = self.todos@;
        let n: usize = self.todos.len();
        let mut m: Vec<Todo> = Vec::new();
        let mut i: usize = 0;
        while i < n
            invariant
                0 <= i <= n,
                n == orig.len(),
                self.todos@ == orig,
                pred == matches_pred(q.filter),
                m@ == kept_rows(orig.take(i as int), pred),
            decreases n - i,
        {
            let ghost pre = orig.take(i as int + 1);
            proof {
                assert(pre.drop_last() =~= orig.take(i as int));
                assert(pre.last() == orig[i as int]);
            }
            let t = &self.todos[i];
            if matches_filter(t, &q.filter) {
                m.push(t.clone());
                proof {
                    assert(pred(orig[i as int]));
                    assert(m@ =~= kept_rows(pre, pred));
                }
            } else {
                proof {
                    assert(!pred(orig[i as int]));
                    assert(m@ =~= kept_rows(pre, pred));
                }
            }
            i = i + 1;
        }
        proof {
            assert(orig.take(n as int) =~= orig);
        }
        let mut ordered: Vec<Todo> = if q.descending {
            let k: usize = m.len();
            let mut rev: Vec<Todo> = Vec::new();
            let mut j: usize = 0;
            while j < k
                invariant
                    0 <= j <= k,
                    k == m@.len(),
                    rev@.len() == j,
                    forall|l: int| 0 <= l < j ==> rev@[l] == m@[k - 1 - l],
                decreases k - j,
            {
                rev.push(m[k - 1 - j].clone());
                j = j + 1;
            }
            proof {
                assert(rev@ =~= m@.reverse());
            }
            rev
        } else {
            m
        };
        proof {
            crate::pagination::lemma_valid_limit_nonneg(*p);
        }
        let limit: usize = q.limit as usize;
        if limit < ordered.len() {
            ordered.truncate(limit);
            proof {
                let full = if plan_spec(*p).descending {
                    kept_rows(orig, pred).reverse()
                } else {
                    kept_rows(orig, pred)
                };
                assert(ordered@ =~= full.take(
                    vstd::math::min(plan_spec(*p).limit as int, full.len() as int),
                ));
            }
        } else {
            proof {
                let full = if plan_spec(*p).descending {
                    kept_rows(orig, pred).reverse()
                } else {
                    kept_rows(orig, pred)
                };
                assert(ordered@ =~= full.take(
                    vstd::math::min(plan_spec(*p).limit as int, full.len() as int),
                ));
            }
        }
        ordered
    }
}

} // verus!
