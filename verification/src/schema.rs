//! The resolver layer: the query and mutation roots, resolving against the
//! store. Listing validates the arguments, runs the keyset query, fetches the
//! total count only when the selection asks for it, and assembles the
//! connection.

use vstd::prelude::*;

use crate::connection::{page_len, wants_total_count, Connection, ConnectionNode};
use crate::cursor::Cursor;
use crate::pagination::{validate_spec, Pagination, ValidationError};
use crate::query::plan_spec;
use crate::scalar::{Timestamp, ID};
use crate::store::{
    completed_rows, edited_rows, has_id, kept_rows, keeps_other_ids, lemma_kept_rows_len,
    list_spec, some_done, some_done_differs, toggled_rows, undone_pred, TodoStore,
};
use crate::todo::Todo;
use vstd::string::StringExecFns;

verus! {

/// The query root.
pub struct Query;

/// The mutation root.
pub struct Mutation;

impl Query {
    /// The demo greeting.
    pub fn greet(name: String) -> (r: String)
        ensures
            r@ == "Hello, "@ + name@ + "! You've been greeted from Rust!"@,
    {
        let mut s = String::from_str("Hello, ");
        s.append(name.as_str());
        s.append("! You've been greeted from Rust!");
        s
    }

    /// Lists todos as a connection. The arguments are validated first and a
    /// validation error is returned unchanged; the store is consulted only
    /// for accepted arguments, and the total count only when the selected
    /// field names ask for it.
    pub fn list_todos(
        store: &TodoStore,
        first: Option<i32>,
        after: Option<Cursor>,
        last: Option<i32>,
        before: Option<Cursor>,
        selected_fields: &Vec<String>,
    ) -> (r: Result<Connection<Todo>, ValidationError>)
        requires
            store.wf(),
            store.todos@.len() <= i32::MAX,
        ensures
            ({
                let pag = (Pagination { first, after, last, before });
                let rows = list_spec(store.todos@, plan_spec(pag));
                match r {
                    Err(e) => validate_spec(pag) == Err::<(), ValidationError>(e),
                    Ok(conn) => {
                        &&& validate_spec(pag) is Ok
                        &&& conn.total_count == if exists|i: int|
                            0 <= i < selected_fields@.len() && (#[trigger] selected_fields@[i])@
                                == crate::connection::total_count_field() {
                            store.todos@.len() as int
                        } else {
                            0
                        }
                        &&& conn.page_info.has_next_page == (first is Some && rows.len()
                            > first->0)
                        &&& conn.page_info.has_previous_page == (last is Some && rows.len()
                            > last->0)
                        &&& conn.edges@.len() == page_len(pag, rows.len() as int)
                        &&& forall|i: int|
                            0 <= i < conn.edges@.len() ==> #[trigger] conn.edges@[i].node == rows[i]
                                && conn.edges@[i].cursor == rows[i].cursor_spec()
                        &&& conn.page_info.start_cursor == if conn.edges@.len() > 0 {
                            Some(rows[0].cursor_spec())
                        } else {
                            Option::<Cursor>::None
                        }
                        &&& conn.page_info.end_cursor == if conn.edges@.len() > 0 {
                            Some(rows[conn.edges@.len() - 1].cursor_spec())
                        } else {
                            Option::<Cursor>::None
                        }
                    },
                }
            }),
    {
        let pagination = Pagination { first, after, last, before };
        match pagination.validate() {
            Ok(_) => {},
            Err(e) => {
                return Err(e);
            },
        }
        let nodes = store.list_todos(&pagination);
        proof {
            lemma_kept_rows_len(store.todos@, crate::store::matches_pred(plan_spec(pagination).filter));
        }
        let total_count: i32 = if wants_total_count(selected_fields) {
            store.total()
        } else {
            0
        };
        Ok(Connection::build_connection(&pagination, total_count, nodes))
    }
}

impl Mutation {
    /// The demo addition.
    pub fn add(a: i32, b: i32) -> (r: i32)
        requires
            i32::MIN <= a + b <= i32::MAX,
        ensures
            r == a + b,
    {
        a + b
    }

    /// Inserts a todo and returns its new identifier.
    pub fn add_todo(store: &mut TodoStore, description: String, created_at: Timestamp) -> (r:
        Option<ID>)
        requires
            old(store).wf(),
        ensures
            final(store).wf(),
            old(store).next_id < i64::MAX ==> {
                &&& r == Some(ID(old(store).next_id))
                &&& final(store).todos@ == old(store).todos@.push(
                    (Todo { id: ID(old(store).next_id), description, done: false, created_at }),
                )
                &&& final(store).next_id == old(store).next_id + 1
            },
            old(store).next_id == i64::MAX ==> r is None && *final(store) == *old(store),
    {
        store.add_todo(description, created_at)
    }

    /// Sets a todo's done flag; true exactly when the row exists, however
    /// often it is repeated.
    pub fn complete_todo(store: &mut TodoStore, id: ID, done: bool) -> (r: bool)
        requires
            old(store).wf(),
        ensures
            final(store).wf(),
            final(store).todos@ == completed_rows(old(store).todos@, id, done),
            final(store).next_id == old(store).next_id,
            r == has_id(old(store).todos@, id),
    {
        store.complete_todo(id, done)
    }

    /// Deletes a todo; true exactly when the row existed.
    pub fn remove_todo(store: &mut TodoStore, id: ID) -> (r: bool)
        requires
            old(store).wf(),
        ensures
            final(store).wf(),
            final(store).todos@ == kept_rows(old(store).todos@, keeps_other_ids(id)),
            final(store).next_id == old(store).next_id,
            r == has_id(old(store).todos@, id),
    {
        store.remove_todo(id)
    }

    /// Replaces a todo's description; true exactly when the row exists.
    pub fn edit_todo(store: &mut TodoStore, id: ID, description: String) -> (r: bool)
        requires
            old(store).wf(),
        ensures
            final(store).wf(),
            final(store).todos@ == edited_rows(old(store).todos@, id, description),
            final(store).next_id == old(store).next_id,
            r == has_id(old(store).todos@, id),
    {
        store.edit_todo(id, description)
    }

    /// Sets every todo's done flag; true exactly when some flag differed.
    pub fn toggle_all(store: &mut TodoStore, done: bool) -> (r: bool)
        requires
            old(store).wf(),
        ensures
            final(store).wf(),
            final(store).todos@ == toggled_rows(old(store).todos@, done),
            final(store).next_id == old(store).next_id,
            r == some_done_differs(old(store).todos@, done),
    {
        store.toggle_all(done)
    }

    /// Deletes the done todos, leaving exactly the undone ones; true exactly
    /// when some row was done.
    pub fn clear_completed(store: &mut TodoStore) -> (r: bool)
        requires
            old(store).wf(),
        ensures
            final(store).wf(),
            final(store).todos@ == kept_rows(old(store).todos@, undone_pred()),
            final(store).next_id == old(store).next_id,
            r == some_done(old(store).todos@),
    {
        store.clear_completed()
    }
}

} // verus!
