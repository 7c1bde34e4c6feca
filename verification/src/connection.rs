//! The Relay-style connection: edges paired with their cursors, page
//! metadata, and a total count. The builder receives the candidate records
//! already fetched and truncates them to the effective page size; the page
//! flags compare the candidate count against the requested size.

use vstd::prelude::*;

use crate::cursor::Cursor;
use crate::pagination::{limit_spec, valid_pagination, Pagination};

verus! {

/// A node that can stand in a connection: it knows its own cursor.
pub trait ConnectionNode: Sized {
    spec fn cursor_spec(&self) -> Cursor;

    fn cursor(&self) -> (c: Cursor)
        ensures
            c == self.cursor_spec(),
    ;
}

/// One paginated result item together with its position.
#[derive(Debug)]
pub struct ConnectionEdge<N> {
    pub node: N,
    pub cursor: Cursor,
}

/// Page metadata: whether paging can continue in either direction, and the
/// cursors bounding the returned page.
#[derive(Clone, Copy, Debug, PartialEq, Eq, Structural)]
pub struct PageInfo {
    pub has_previous_page: bool,
    pub has_next_page: bool,
    pub start_cursor: Option<Cursor>,
    pub end_cursor: Option<Cursor>,
}

/// A page of results: the edges, the page metadata, and the total number of
/// records (zero when the caller did not ask for it).
#[derive(Debug)]
pub struct Connection<N> {
    pub edges: Vec<ConnectionEdge<N>>,
    pub page_info: PageInfo,
    pub total_count: i32,
}

/// How many edges the page keeps: the candidate count, capped at the
/// effective page size.
pub open spec fn page_len(p: Pagination, candidates: int) -> int {
    vstd::math::min(candidates, limit_spec(p) as int)
}

impl<N: ConnectionNode> Connection<N> {
    /// Assembles a page from the candidate records. `has_next_page` holds
    /// exactly when `first` was given and more candidates arrived than
    /// `first`; `has_previous_page` likewise for `last`; with neither
    /// argument both flags are false. The candidates are truncated to the
    /// effective page size, each kept record becomes an edge carrying its own
    /// cursor, and the page is bounded by the first and last kept cursors.
    pub fn build_connection(pagination: &Pagination, total_count: i32, nodes: Vec<N>) -> (r:
        Connection<N>)
        requires
            valid_pagination(*pagination),
            nodes@.len() <= i32::MAX,
        ensures
            r.total_count == total_count,
            r.page_info.has_next_page == (pagination.first is Some && nodes@.len()
                > pagination.first->0),
            r.page_info.has_previous_page == (pagination.last is Some && nodes@.len()
                > pagination.last->0),
            r.edges@.len() == page_len(*pagination, nodes@.len() as int),
            forall|i: int|
                0 <= i < r.edges@.len() ==> #[trigger] r.edges@[i].node == nodes@[i]
                    && r.edges@[i].cursor == nodes@[i].cursor_spec(),
            r.page_info.start_cursor == if r.edges@.len() > 0 {
                Some(nodes@[0].cursor_spec())
            } else {
                Option::<Cursor>::None
            },
            r.page_info.end_cursor == if r.edges@.len() > 0 {
                Some(nodes@[r.edges@.len() - 1].cursor_spec())
            } else {
                Option::<Cursor>::None
            },
    {
        let ghost orig = nodes@;
        let mut nodes = nodes;
        let n: usize = nodes.len();
        let count: i32 = n as i32;
        let has_next_page: bool = match pagination.first {
            Some(first) => count > first,
            None => false,
        };
        let has_previous_page: bool = match pagination.last {
            Some(last) => count > last,
            None => false,
        };
        let limit: i32 = pagination.limit();
        proof {
            crate::pagination::lemma_valid_limit_nonneg(*pagination);
        }
        let take_len: usize = if count < limit {
            n
        } else {
            limit as usize
        };
        let mut edges: Vec<ConnectionEdge<N>> = Vec::new();
        let mut k: usize = 0;
        while k < take_len
            invariant
                0 <= k <= take_len <= n,
                orig.len() == n,
                nodes@ == orig.skip(k as int),
                edges@.len() == k,
                forall|i: int|
                    0 <= i < k ==> #[trigger] edges@[i].node == orig[i] && edges@[i].cursor
                        == orig[i].cursor_spec(),
            decreases take_len - k,
        {
            let node = nodes.remove(0);
            assert(node == orig[k as int]);
            let cursor = node.cursor();
            edges.push(ConnectionEdge { cursor, node });
            k = k + 1;
            proof {
                assert(nodes@ =~= orig.skip(k as int));
            }
        }
        proof {
            if edges@.len() > 0 {
                assert(edges@[0].node == orig[0]);
                assert(edges@[edges@.len() - 1].node == orig[edges@.len() - 1]);
            }
        }
        let start_cursor: Option<Cursor> = if edges.len() > 0 {
            Some(edges[0].cursor)
        } else {
            None
        };
        let end_cursor: Option<Cursor> = if edges.len() > 0 {
            Some(edges[edges.len() - 1].cursor)
        } else {
            None
        };
        Connection {
            edges,
            page_info: PageInfo { has_previous_page, has_next_page, start_cursor, end_cursor },
            total_count,
        }
    }
}

/// The name of the total-count field of the connection, as a query selects it.
pub open spec fn total_count_field() -> Seq<char> {
    "totalCount"@
}

/// Whether a query's selected field names ask for the total count; the count
/// query is issued only then.
pub fn wants_total_count(fields: &Vec<String>) -> (r: bool)
    ensures
        r == exists|i: int|
            0 <= i < fields@.len() && (#[trigger] fields@[i])@ == total_count_field(),
{
    let key: String = "totalCount".to_owned();
    let mut i: usize = 0;
    while i < fields.len()
        invariant
            0 <= i <= fields@.len(),
            key@ == total_count_field(),
            forall|j: int| 0 <= j < i ==> (#[trigger] fields@[j])@ != total_count_field(),
        decreases fields@.len() - i,
    {
        let f: &String = &fields[i];
        if f.eq(&key) {
            return true;
        }
        i = i + 1;
    }
    false
}

} // verus!
