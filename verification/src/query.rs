//! Translation of validated pagination arguments into a keyset-paginated
//! query: a filter on the `(id, created_at)` key, a direction, and a limit,
//! together with the SQL text and bind arguments the store executes.

use vstd::prelude::*;

use crate::cursor::Cursor;
use crate::pagination::{limit_spec, Pagination};
use crate::todo::Todo;
use vstd::string::StringExecFns;

verus! {

/// The keyset filter of a listing: everything, strictly after a position, or
/// strictly before one. `after` wins when both cursors are supplied.
#[derive(Clone, Copy, Debug, PartialEq, Eq, Structural)]
pub enum KeysetFilter {
    All,
    After(Cursor),
    Before(Cursor),
}

/// A listing query, ready to run against the store.
#[derive(Clone, Copy, Debug, PartialEq, Eq, Structural)]
pub struct QueryPlan {
    pub filter: KeysetFilter,
    pub descending: bool,
    pub limit: i32,
}

/// The plan a pagination translates to: the order is keyed on the cursor
/// arguments. `after` filters forward and lists ascending; else `before`
/// filters backward and lists descending; else there is no filter and the
/// order is ascending. The limit is the effective page size.
pub open spec fn plan_spec(p: Pagination) -> QueryPlan {
    QueryPlan {
        filter: if p.after is Some {
            KeysetFilter::After(p.after->0)
        } else if p.before is Some {
            KeysetFilter::Before(p.before->0)
        } else {
            KeysetFilter::All
        },
        descending: p.after is None && p.before is Some,
        limit: limit_spec(p),
    }
}

/// Lexicographic order on the pagination key `(id, created_at)`.
pub open spec fn key_lt(a_id: int, a_ts: int, b_id: int, b_ts: int) -> bool {
    a_id < b_id || (a_id == b_id && a_ts < b_ts)
}

/// Whether a row passes the keyset filter.
pub open spec fn row_matches(t: Todo, f: KeysetFilter) -> bool {
    match f {
        KeysetFilter::All => true,
        KeysetFilter::After(c) => key_lt(c.id.0 as int, c.created_at.0 as int, t.id.0 as int, t.created_at.0 as int),
        KeysetFilter::Before(c) => key_lt(t.id.0 as int, t.created_at.0 as int, c.id.0 as int, c.created_at.0 as int),
    }
}

/// The SQL text of a plan: the select, the keyset predicate when a cursor is
/// given, the order matching the direction, and the bound limit.
pub open spec fn sql_spec(q: QueryPlan) -> Seq<char> {
    "SELECT id, description, done, created_at FROM todos "@ + (match q.filter {
        KeysetFilter::All => ""@,
        KeysetFilter::After(_) => "WHERE (id, created_at) > ( ?1, ?2 ) "@,
        KeysetFilter::Before(_) => "WHERE (id, created_at) < ( ?1, ?2 ) "@,
    }) + (if q.descending {
        "ORDER BY id DESC, created_at DESC "@
    } else {
        "ORDER BY id ASC, created_at ASC "@
    }) + (match q.filter {
        KeysetFilter::All => "LIMIT ?1"@,
        KeysetFilter::After(_) => "LIMIT ?3"@,
        KeysetFilter::Before(_) => "LIMIT ?3"@,
    })
}

/// The bind arguments of a plan: the cursor key when a cursor is given, then
/// the limit.
pub open spec fn args_spec(q: QueryPlan) -> Seq<i64> {
    match q.filter {
        KeysetFilter::All => seq![q.limit as i64],
        KeysetFilter::After(c) => seq![c.id.0, c.created_at.0, q.limit as i64],
        KeysetFilter::Before(c) => seq![c.id.0, c.created_at.0, q.limit as i64],
    }
}

impl QueryPlan {
    /// Translates validated pagination arguments into the query to run.
    pub fn new(p: &Pagination) -> (q: QueryPlan)
        ensures
            q == plan_spec(*p),
    {
        let mut descending = false;
        let filter = match p.after {
            Some(after) => KeysetFilter::After(after),
            None => match p.before {
                Some(before) => {
                    descending = true;
                    KeysetFilter::Before(before)
                },
                None => KeysetFilter::All,
            },
        };
        QueryPlan { filter, descending, limit: p.limit() }
    }

    /// Renders the SQL text of the query.
    pub fn sql(&self) -> (s: String)
        ensures
            s@ == sql_spec(*self),
    {
        let mut s = String::from_str("SELECT id, description, done, created_at FROM todos ");
        match self.filter {
            KeysetFilter::All => {},
            KeysetFilter::After(_) => s.append("WHERE (id, created_at) > ( ?1, ?2 ) "),
            KeysetFilter::Before(_) => s.append("WHERE (id, created_at) < ( ?1, ?2 ) "),
        }
        if self.descending {
            s.append("ORDER BY id DESC, created_at DESC ");
        } else {
            s.append("ORDER BY id ASC, created_at ASC ");
        }
        match self.filter {
            KeysetFilter::All => s.append("LIMIT ?1"),
            KeysetFilter::After(_) => s.append("LIMIT ?3"),
            KeysetFilter::Before(_) => s.append("LIMIT ?3"),
        }
        proof {
            match self.filter {
                KeysetFilter::All => {
                    reveal_strlit("");
                    assert(""@.len() == 0);
                    assert(s@ =~= sql_spec(*self));
                },
                KeysetFilter::After(_) => {
                    assert(s@ =~= sql_spec(*self));
                },
                KeysetFilter::Before(_) => {
                    assert(s@ =~= sql_spec(*self));
                },
            }
        }
        s
    }

    /// The values bound to the query's placeholders, in order.
    pub fn args(&self) -> (a: Vec<i64>)
        ensures
            a@ == args_spec(*self),
    {
        let mut a: Vec<i64> = Vec::new();
        match self.filter {
            KeysetFilter::All => {},
            KeysetFilter::After(c) => {
                a.push(c.id.0);
                a.push(c.created_at.0);
            },
            KeysetFilter::Before(c) => {
                a.push(c.id.0);
                a.push(c.created_at.0);
            },
        }
        a.push(self.limit as i64);
        proof {
            assert(a@ =~= args_spec(*self));
        }
        a
    }
}

/// Whether a row passes the keyset filter; the executable mirror of
/// `row_matches`.
pub fn matches_filter(t: &Todo, f: &KeysetFilter) -> (r: bool)
    ensures
        r == row_matches(*t, *f),
{
    match f {
        KeysetFilter::All => true,
        KeysetFilter::After(c) => {
            t.id.0 > c.id.0 || (t.id.0 == c.id.0 && t.created_at.0 > c.created_at.0)
        },
        KeysetFilter::Before(c) => {
            t.id.0 < c.id.0 || (t.id.0 == c.id.0 && t.created_at.0 < c.created_at.0)
        },
    }
}

} // verus!
