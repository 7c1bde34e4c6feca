use todo_relay::pagination::Pagination;
use todo_relay::scalar::{Timestamp, ID};
use todo_relay::schema::{Mutation, Query};
use todo_relay::store::TodoStore;

fn seeded(n: i64) -> TodoStore {
    let mut store = TodoStore::new();
    let mut i: i64 = 1;
    while i <= n {
        let id = store
            .add_todo(format!("todo {}", i), Timestamp(100 * i))
            .unwrap();
        assert_eq!(id.0, i);
        i += 1;
    }
    store
}

#[test]
fn add_assigns_ascending_ids_from_one() {
    let store = seeded(3);
    assert_eq!(store.count(), 3);
    assert_eq!(store.total(), 3);
}

#[test]
fn three_todos_listed_with_first_two() {
    // insert three todos in order; list the first page of two
    let store = seeded(3);
    let fields = vec![
        String::from("edges"),
        String::from("pageInfo"),
        String::from("totalCount"),
    ];
    let conn = Query::list_todos(&store, Some(2), None, None, None, &fields).unwrap();
    assert_eq!(conn.edges.len(), 2);
    assert_eq!(conn.edges[0].node.id().0, 1);
    assert_eq!(conn.edges[1].node.id().0, 2);
    assert_eq!(conn.total_count, 3);
    // the store applies the same limit it reports against, so the fetched
    // candidate count never exceeds the page size and the flag stays false
    assert!(!conn.page_info.has_next_page);
    let start = conn.page_info.start_cursor.clone().unwrap();
    let end = conn.page_info.end_cursor.clone().unwrap();
    assert_eq!(start.encode(), conn.edges[0].cursor.encode());
    assert_eq!(end.encode(), conn.edges[1].cursor.encode());
}

#[test]
fn list_resumes_after_a_cursor() {
    let store = seeded(3);
    let fields = vec![String::from("edges")];
    let first_page = Query::list_todos(&store, Some(2), None, None, None, &fields).unwrap();
    let end = first_page.page_info.end_cursor.clone().unwrap();
    let second_page =
        Query::list_todos(&store, Some(2), Some(end), None, None, &fields).unwrap();
    assert_eq!(second_page.edges.len(), 1);
    assert_eq!(second_page.edges[0].node.id().0, 3);
    assert_eq!(second_page.total_count, 0); // not selected
}

#[test]
fn list_backward_before_a_cursor_is_descending() {
    let store = seeded(3);
    let fields = vec![String::from("edges")];
    let all = Query::list_todos(&store, None, None, None, None, &fields).unwrap();
    let last_cursor = all.page_info.end_cursor.clone().unwrap();
    let page = Query::list_todos(&store, None, None, Some(2), Some(last_cursor), &fields)
        .unwrap();
    assert_eq!(page.edges.len(), 2);
    assert_eq!(page.edges[0].node.id().0, 2);
    assert_eq!(page.edges[1].node.id().0, 1);
}

#[test]
fn list_with_before_alone_is_descending() {
    let store = seeded(3);
    let fields = vec![String::from("edges")];
    let all = Query::list_todos(&store, None, None, None, None, &fields).unwrap();
    let last_cursor = all.page_info.end_cursor.clone().unwrap();
    let page = Query::list_todos(&store, None, None, None, Some(last_cursor), &fields).unwrap();
    assert_eq!(page.edges.len(), 2);
    assert_eq!(page.edges[0].node.id().0, 2);
    assert_eq!(page.edges[1].node.id().0, 1);
}

#[test]
fn list_rejects_invalid_arguments_before_touching_the_store() {
    let store = seeded(1);
    let fields = vec![String::from("edges")];
    assert!(Query::list_todos(&store, Some(-1), None, None, None, &fields).is_err());
    assert!(Query::list_todos(&store, Some(1), None, Some(1), None, &fields).is_err());
}

#[test]
fn complete_todo_is_repeatable_while_the_row_exists() {
    let mut store = seeded(1);
    assert!(Mutation::complete_todo(&mut store, ID(1), true));
    assert!(Mutation::complete_todo(&mut store, ID(1), true));
    assert!(!Mutation::complete_todo(&mut store, ID(999), true));
    assert!(Mutation::remove_todo(&mut store, ID(1)));
    assert!(!Mutation::complete_todo(&mut store, ID(1), true));
}

#[test]
fn clear_completed_leaves_exactly_the_undone_todo() {
    let mut store = seeded(3);
    assert!(Mutation::complete_todo(&mut store, ID(1), true));
    assert!(Mutation::complete_todo(&mut store, ID(3), true));
    assert!(Mutation::clear_completed(&mut store));
    assert_eq!(store.count(), 1);
    let fields = vec![String::from("edges")];
    let conn = Query::list_todos(&store, None, None, None, None, &fields).unwrap();
    assert_eq!(conn.edges.len(), 1);
    assert_eq!(conn.edges[0].node.id().0, 2);
    assert!(!conn.edges[0].node.done());
    // nothing left to clear
    assert!(!Mutation::clear_completed(&mut store));
}

#[test]
fn toggle_all_reports_whether_any_flag_differed() {
    let mut store = seeded(2);
    assert!(Mutation::toggle_all(&mut store, true));
    // every row already carries the flag now
    assert!(!Mutation::toggle_all(&mut store, true));
    assert!(Mutation::toggle_all(&mut store, false));
}

#[test]
fn edit_todo_replaces_the_description() {
    let mut store = seeded(1);
    assert!(Mutation::edit_todo(&mut store, ID(1), String::from("rewritten")));
    assert!(!Mutation::edit_todo(&mut store, ID(2), String::from("nobody")));
    let listed = store.list_todos(&Pagination::none());
    assert_eq!(listed[0].description().as_str(), "rewritten");
}

#[test]
fn remove_todo_reports_whether_the_row_existed() {
    let mut store = seeded(2);
    assert!(Mutation::remove_todo(&mut store, ID(1)));
    assert!(!Mutation::remove_todo(&mut store, ID(1)));
    assert_eq!(store.count(), 1);
}

#[test]
fn add_todo_through_the_mutation_root() {
    let mut store = TodoStore::new();
    let id = Mutation::add_todo(&mut store, String::from("hello"), Timestamp(7)).unwrap();
    assert_eq!(id.0, 1);
    let listed = store.list_todos(&Pagination::none());
    assert_eq!(listed.len(), 1);
    assert_eq!(listed[0].description().as_str(), "hello");
    assert!(!listed[0].done());
    assert_eq!(listed[0].created_at().0, 7);
    assert_eq!(listed[0].id().0, 1);
}

#[test]
fn greet_formats_the_name() {
    assert_eq!(
        Query::greet(String::from("Alice")).as_str(),
        "Hello, Alice! You've been greeted from Rust!"
    );
}

#[test]
fn add_adds() {
    assert_eq!(Mutation::add(2, 3), 5);
    assert_eq!(Mutation::add(-2, 2), 0);
}
