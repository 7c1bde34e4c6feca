//! The one persisted entity: a todo item with its identifier, description,
//! completion flag and creation time.

use vstd::prelude::*;

use crate::connection::ConnectionNode;
use crate::cursor::Cursor;
use crate::scalar::{Timestamp, ID};

verus! {

/// A row of the todo table.
#[derive(Debug)]
pub struct Todo {
    pub id: ID,
    pub description: String,
    pub done: bool,
    pub created_at: Timestamp,
}

impl Todo {
    pub fn new(id: ID, description: String, done: bool, created_at: Timestamp) -> (t: Todo)
        ensures
            t == (Todo { id, description, done, created_at }),
    {
        Todo { id, description, done, created_at }
    }

    pub fn id(&self) -> (r: &ID)
        ensures
            r == self.id,
    {
        &self.id
    }

    pub fn description(&self) -> (r: &String)
        ensures
            r == &self.description,
    {
        &self.description
    }

    pub fn done(&self) -> (r: bool)
        ensures
            r == self.done,
    {
        self.done
    }

    pub fn created_at(&self) -> (r: &Timestamp)
        ensures
            r == self.created_at,
    {
        &self.created_at
    }
}

impl Clone for Todo {
    /// A clone carries exactly the same fields.
    fn clone(&self) -> (res: Todo)
        ensures
            res == *self,
    {
        Todo {
            id: self.id,
            description: self.description.clone(),
            done: self.done,
            created_at: self.created_at,
        }
    }
}

impl ConnectionNode for Todo {
    open spec fn cursor_spec(&self) -> Cursor {
        Cursor { id: self.id, created_at: self.created_at }
    }

    fn cursor(&self) -> (c: Cursor) {
        Cursor::new(self.id, self.created_at)
    }
}

} // verus!
