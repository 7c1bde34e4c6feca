use todo_relay::connection::{wants_total_count, Connection};
use todo_relay::pagination::Pagination;
use todo_relay::scalar::{Timestamp, ID};
use todo_relay::todo::Todo;

fn todos(n: i64) -> Vec<Todo> {
    let mut v = Vec::new();
    let mut i: i64 = 1;
    while i <= n {
        v.push(Todo::new(
            ID(i),
            format!("todo {}", i),
            false,
            Timestamp(100 * i),
        ));
        i += 1;
    }
    v
}

fn first_page(first: i32) -> Pagination {
    Pagination {
        first: Some(first),
        after: None,
        last: None,
        before: None,
    }
}

#[test]
fn two_candidates_under_first_two_has_no_next_page() {
    let conn = Connection::build_connection(&first_page(2), 0, todos(2));
    assert!(!conn.page_info.has_next_page);
    assert!(!conn.page_info.has_previous_page);
    assert_eq!(conn.edges.len(), 2);
}

#[test]
fn three_candidates_under_first_two_has_next_page() {
    let conn = Connection::build_connection(&first_page(2), 0, todos(3));
    assert!(conn.page_info.has_next_page);
    assert!(!conn.page_info.has_previous_page);
    // truncated to the requested page size, pre-truncation count decided the flag
    assert_eq!(conn.edges.len(), 2);
    assert_eq!(conn.edges[0].node.id().0, 1);
    assert_eq!(conn.edges[1].node.id().0, 2);
}

#[test]
fn edges_carry_their_own_cursors() {
    let conn = Connection::build_connection(&first_page(2), 0, todos(3));
    let start = conn.page_info.start_cursor.clone().unwrap();
    let end = conn.page_info.end_cursor.clone().unwrap();
    assert_eq!(start.encode(), conn.edges[0].cursor.encode());
    assert_eq!(end.encode(), conn.edges[1].cursor.encode());
    assert_eq!(conn.edges[0].cursor.id.0, 1);
    assert_eq!(conn.edges[0].cursor.created_at.0, 100);
    assert_eq!(conn.edges[1].cursor.id.0, 2);
}

#[test]
fn empty_page_has_no_bounding_cursors() {
    let empty: Vec<Todo> = Vec::new();
    let conn = Connection::build_connection(&first_page(2), 0, empty);
    assert!(conn.page_info.start_cursor.is_none());
    assert!(conn.page_info.end_cursor.is_none());
    assert_eq!(conn.edges.len(), 0);
    assert!(!conn.page_info.has_next_page);
}

#[test]
fn last_page_flag_uses_last_argument() {
    let p = Pagination {
        first: None,
        after: None,
        last: Some(2),
        before: None,
    };
    let conn = Connection::build_connection(&p, 0, todos(3));
    assert!(conn.page_info.has_previous_page);
    assert!(!conn.page_info.has_next_page);
    assert_eq!(conn.edges.len(), 2);
}

#[test]
fn no_arguments_defaults_to_ten_and_no_flags() {
    let conn = Connection::build_connection(&Pagination::none(), 0, todos(12));
    assert_eq!(conn.edges.len(), 10);
    assert!(!conn.page_info.has_next_page);
    assert!(!conn.page_info.has_previous_page);
}

#[test]
fn total_count_is_carried_through() {
    let conn = Connection::build_connection(&first_page(1), 42, todos(1));
    assert_eq!(conn.total_count, 42);
}

#[test]
fn wants_total_count_scans_field_names() {
    let fields = vec![String::from("edges"), String::from("totalCount")];
    assert!(wants_total_count(&fields));
    let fields2 = vec![String::from("edges"), String::from("pageInfo")];
    assert!(!wants_total_count(&fields2));
    let empty: Vec<String> = Vec::new();
    assert!(!wants_total_count(&empty));
}
