use todo_relay::cursor::Cursor;
use todo_relay::pagination::{PageArg, Pagination, ValidationError};
use todo_relay::scalar::{Timestamp, ID};

fn cursor() -> Cursor {
    Cursor::new(ID(1), Timestamp(100))
}

#[test]
fn validate_rejects_negative_first() {
    let p = Pagination {
        first: Some(-1),
        after: None,
        last: None,
        before: None,
    };
    assert_eq!(
        p.validate(),
        Err(ValidationError::OutOfRange(PageArg::First))
    );
}

#[test]
fn validate_rejects_negative_last() {
    let p = Pagination {
        first: None,
        after: None,
        last: Some(-3),
        before: None,
    };
    assert_eq!(p.validate(), Err(ValidationError::OutOfRange(PageArg::Last)));
}

#[test]
fn validate_rejects_first_with_last() {
    let p = Pagination {
        first: Some(5),
        after: None,
        last: Some(5),
        before: None,
    };
    assert_eq!(p.validate(), Err(ValidationError::InvalidCombination));
}

#[test]
fn validate_rejects_first_with_before() {
    let p = Pagination {
        first: Some(5),
        after: None,
        last: None,
        before: Some(cursor()),
    };
    assert_eq!(p.validate(), Err(ValidationError::DirectionConflict));
}

#[test]
fn validate_rejects_after_with_last() {
    let p = Pagination {
        first: None,
        after: Some(cursor()),
        last: Some(5),
        before: None,
    };
    assert_eq!(p.validate(), Err(ValidationError::DirectionConflict));
}

#[test]
fn validate_accepts_no_arguments_with_default_limit() {
    let p = Pagination::none();
    assert_eq!(p.validate(), Ok(()));
    assert_eq!(p.limit(), 10);
}

#[test]
fn validate_precedence_negative_first_wins() {
    // a negative first is reported even when last is present too
    let p = Pagination {
        first: Some(-1),
        after: None,
        last: Some(5),
        before: None,
    };
    assert_eq!(
        p.validate(),
        Err(ValidationError::OutOfRange(PageArg::First))
    );
}

#[test]
fn validate_accepts_after_with_before() {
    // this layer does not reject the pair; the query honors `after`
    let p = Pagination {
        first: Some(2),
        after: Some(cursor()),
        last: None,
        before: Some(cursor()),
    };
    assert_eq!(p.validate(), Err(ValidationError::DirectionConflict));
    let q = Pagination {
        first: None,
        after: Some(cursor()),
        last: None,
        before: Some(cursor()),
    };
    assert_eq!(q.validate(), Ok(()));
}

#[test]
fn limit_takes_first_then_last() {
    let p = Pagination {
        first: Some(7),
        after: None,
        last: None,
        before: None,
    };
    assert_eq!(p.limit(), 7);
    let q = Pagination {
        first: None,
        after: None,
        last: Some(3),
        before: None,
    };
    assert_eq!(q.limit(), 3);
}
