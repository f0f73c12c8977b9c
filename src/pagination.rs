use vstd::prelude::*;

use crate::model::ReportError;

verus! {

/// The number of rows a page holds when the caller names no limit.
pub const FETCH_LIMIT_DEFAULT: i64 = 10;

/// The largest number of rows a page may hold.
pub const FETCH_LIMIT_MAX: i64 = 50;

/// The row limit and offset that a page and limit select, or `None` when the
/// page is below one, the limit is outside `1..=FETCH_LIMIT_MAX`, or the
/// offset does not fit in an `i64`.
pub open spec fn page_window(page: Option<i64>, limit: Option<i64>) -> Option<(i64, i64)> {
    let p: int = match page {
        Some(p) => p as int,
        None => 1,
    };
    let l: int = match limit {
        Some(l) => l as int,
        None => FETCH_LIMIT_DEFAULT as int,
    };
    if p < 1 || l < 1 || l > FETCH_LIMIT_MAX || l * (p - 1) > i64::MAX {
        None
    } else {
        Some((l as i64, (l * (p - 1)) as i64))
    }
}

/// Turns an optional one-based page and an optional limit into a row limit
/// and a zero-based offset.
pub fn limit_and_offset(page: Option<i64>, limit: Option<i64>) -> (r: Result<(i64, i64), ReportError>)
    ensures
        page_window(page, limit) matches Some(w) ==> r == Ok::<(i64, i64), ReportError>(w),
        page_window(page, limit) is None ==> r == Err::<(i64, i64), ReportError>(
            ReportError::InvalidArgument,
        ),
{
    let p: i64 = match page {
        Some(p) => {
            if p < 1 {
                return Err(ReportError::InvalidArgument);
            }
            p
        },
        None => 1,
    };
    let l: i64 = match limit {
        Some(l) => {
            if l < 1 || l > FETCH_LIMIT_MAX {
                return Err(ReportError::InvalidArgument);
            }
            l
        },
        None => FETCH_LIMIT_DEFAULT,
    };
    match l.checked_mul(p - 1) {
        Some(offset) => Ok((l, offset)),
        None => Err(ReportError::InvalidArgument),
    }
}

} // verus!
