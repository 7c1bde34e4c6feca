use todo_relay::cursor::Cursor;
use todo_relay::pagination::Pagination;
use todo_relay::query::QueryPlan;
use todo_relay::scalar::{Timestamp, ID};

fn cursor(id: i64, ts: i64) -> Cursor {
    Cursor::new(ID(id), Timestamp(ts))
}

#[test]
fn plan_without_cursor_is_unfiltered_ascending() {
    let plan = QueryPlan::new(&Pagination::none());
    assert!(!plan.descending);
    assert_eq!(plan.limit, 10);
    assert_eq!(
        plan.sql().as_str(),
        "SELECT id, description, done, created_at FROM todos \
         ORDER BY id ASC, created_at ASC LIMIT ?1"
    );
    assert_eq!(plan.args(), vec![10]);
}

#[test]
fn plan_with_after_filters_forward() {
    let p = Pagination {
        first: Some(2),
        after: Some(cursor(7, 700)),
        last: None,
        before: None,
    };
    let plan = QueryPlan::new(&p);
    assert!(!plan.descending);
    assert_eq!(plan.limit, 2);
    assert_eq!(
        plan.sql().as_str(),
        "SELECT id, description, done, created_at FROM todos \
         WHERE (id, created_at) > ( ?1, ?2 ) \
         ORDER BY id ASC, created_at ASC LIMIT ?3"
    );
    assert_eq!(plan.args(), vec![7, 700, 2]);
}

#[test]
fn plan_with_before_filters_backward_descending() {
    let p = Pagination {
        first: None,
        after: None,
        last: Some(3),
        before: Some(cursor(9, 900)),
    };
    let plan = QueryPlan::new(&p);
    assert!(plan.descending);
    assert_eq!(plan.limit, 3);
    assert_eq!(
        plan.sql().as_str(),
        "SELECT id, description, done, created_at FROM todos \
         WHERE (id, created_at) < ( ?1, ?2 ) \
         ORDER BY id DESC, created_at DESC LIMIT ?3"
    );
    assert_eq!(plan.args(), vec![9, 900, 3]);
}

#[test]
fn plan_with_before_alone_is_descending() {
    // the order is keyed on the cursor: a backward filter lists descending
    // even when no page size is given
    let p = Pagination {
        first: None,
        after: None,
        last: None,
        before: Some(cursor(9, 900)),
    };
    let plan = QueryPlan::new(&p);
    assert!(plan.descending);
    assert_eq!(plan.limit, 10);
    assert_eq!(plan.args(), vec![9, 900, 10]);
    assert!(plan.sql().as_str().contains("ORDER BY id DESC"));
}

#[test]
fn plan_with_last_alone_is_unfiltered_ascending() {
    // without a cursor there is nothing to page back from: no filter,
    // ascending order, page size from `last`
    let p = Pagination {
        first: None,
        after: None,
        last: Some(4),
        before: None,
    };
    let plan = QueryPlan::new(&p);
    assert!(!plan.descending);
    assert_eq!(plan.limit, 4);
    assert_eq!(plan.args(), vec![4]);
    assert!(plan.sql().as_str().contains("ORDER BY id ASC"));
    assert!(!plan.sql().as_str().contains("WHERE"));
}

#[test]
fn plan_prefers_after_when_both_cursors_are_given() {
    let p = Pagination {
        first: None,
        after: Some(cursor(1, 100)),
        last: None,
        before: Some(cursor(9, 900)),
    };
    let plan = QueryPlan::new(&p);
    assert_eq!(plan.args(), vec![1, 100, 10]);
    assert!(plan.sql().as_str().contains(">"));
}
