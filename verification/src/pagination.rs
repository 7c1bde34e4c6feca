//! Relay-style pagination arguments and their validation: forward paging uses
//! `first`/`after`, backward paging uses `last`/`before`, the two may not be
//! mixed, and page sizes may not be negative.

use vstd::prelude::*;

use crate::cursor::Cursor;

verus! {

/// Which page-size argument a range error names.
#[derive(Clone, Copy, Debug, PartialEq, Eq, Structural)]
pub enum PageArg {
    First,
    Last,
}

/// The declared failures of argument validation.
#[derive(Clone, Copy, Debug, PartialEq, Eq, Structural)]
pub enum ValidationError {
    /// A page size is negative; names the offending argument.
    OutOfRange(PageArg),
    /// `first` and `last` are both present.
    InvalidCombination,
    /// `first` with `before`, or `last` with `after`.
    DirectionConflict,
}

/// The four pagination arguments, each optional.
#[derive(Clone, Copy, Debug, PartialEq, Eq, Structural)]
pub struct Pagination {
    pub first: Option<i32>,
    pub after: Option<Cursor>,
    pub last: Option<i32>,
    pub before: Option<Cursor>,
}

/// What `validate` returns, rule by rule in precedence order: a negative
/// `first`, then a negative `last`, then `first` with `last`, then a
/// direction conflict; everything else is accepted (in particular `after`
/// with `before`, and no arguments at all).
pub open spec fn validate_spec(p: Pagination) -> Result<(), ValidationError> {
    if p.first is Some && p.first->0 < 0 {
        Err(ValidationError::OutOfRange(PageArg::First))
    } else if p.last is Some && p.last->0 < 0 {
        Err(ValidationError::OutOfRange(PageArg::Last))
    } else if p.first is Some && p.last is Some {
        Err(ValidationError::InvalidCombination)
    } else if p.first is Some && p.before is Some {
        Err(ValidationError::DirectionConflict)
    } else if p.after is Some && p.last is Some {
        Err(ValidationError::DirectionConflict)
    } else {
        Ok(())
    }
}

/// A pagination that `validate` accepts.
pub open spec fn valid_pagination(p: Pagination) -> bool {
    validate_spec(p) is Ok
}

/// The effective page size: `first` if present, else `last`, else 10.
pub open spec fn limit_spec(p: Pagination) -> i32 {
    if p.first is Some {
        p.first->0
    } else if p.last is Some {
        p.last->0
    } else {
        10
    }
}

/// An accepted pagination never yields a negative page size.
pub proof fn lemma_valid_limit_nonneg(p: Pagination)
    requires
        valid_pagination(p),
    ensures
        limit_spec(p) >= 0,
{
}

impl Pagination {
    /// A pagination with no arguments set: an unfiltered forward listing.
    pub fn none() -> (p: Pagination)
        ensures
            p.first is None,
            p.after is None,
            p.last is None,
            p.before is None,
    {
        Pagination { first: None, after: None, last: None, before: None }
    }

    /// Checks the argument combination, in the documented precedence order.
    pub fn validate(&self) -> (r: Result<(), ValidationError>)
        ensures
            r == validate_spec(*self),
    {
        match (self.first, self.last) {
            (Some(first), _) if first < 0 => Err(ValidationError::OutOfRange(PageArg::First)),
            (_, Some(last)) if last < 0 => Err(ValidationError::OutOfRange(PageArg::Last)),
            (Some(_), Some(_)) => Err(ValidationError::InvalidCombination),
            (Some(_), _) if self.before.is_some() => Err(ValidationError::DirectionConflict),
            (_, Some(_)) if self.after.is_some() => Err(ValidationError::DirectionConflict),
            _ => Ok(()),
        }
    }

    /// The effective page size: `first` if present, else `last`, else 10.
    #[inline]
    pub fn limit(&self) -> (r: i32)
        ensures
            r == limit_spec(*self),
    {
        match (self.first, self.last) {
            (Some(first), _) => first,
            (_, Some(last)) => last,
            _ => 10,
        }
    }
}

} // verus!
