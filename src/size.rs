//! Bounds on the geometry of a pseudoterminal.

use vstd::prelude::*;
use crate::text::{decimal, push_decimal};

verus! {

/// Fewest columns a session may have.
pub const MIN_PTY_COLS: u16 = 20;

/// Fewest rows a session may have.
pub const MIN_PTY_ROWS: u16 = 5;

/// Most columns a session may have.
pub const MAX_PTY_COLS: u16 = 500;

/// Most rows a session may have.
pub const MAX_PTY_ROWS: u16 = 200;

/// Whether a geometry lies within the bounds on both dimensions.
pub open spec fn size_in_bounds(cols: u16, rows: u16) -> bool {
    MIN_PTY_COLS <= cols <= MAX_PTY_COLS && MIN_PTY_ROWS <= rows <= MAX_PTY_ROWS
}

/// The message that rejects `value` for the dimension `field`.
pub open spec fn size_error(field: Seq<char>, value: u16, min: u16, max: u16) -> Seq<char> {
    "Invalid "@ + field + ": "@ + decimal(value as nat) + ". Must be between "@
        + decimal(min as nat) + " and "@ + decimal(max as nat)
}

/// The outcome that `validate_pty_size` owes for a geometry: the columns are
/// checked first, then the rows.
pub open spec fn size_verdict(cols: u16, rows: u16) -> Result<(), Seq<char>> {
    if !(MIN_PTY_COLS <= cols <= MAX_PTY_COLS) {
        Err(size_error("cols"@, cols, MIN_PTY_COLS, MAX_PTY_COLS))
    } else if !(MIN_PTY_ROWS <= rows <= MAX_PTY_ROWS) {
        Err(size_error("rows"@, rows, MIN_PTY_ROWS, MAX_PTY_ROWS))
    } else {
        Ok(())
    }
}

/// The view of a result whose error is a string.
pub open spec fn error_text<T>(r: Result<T, String>) -> Result<T, Seq<char>> {
    match r {
        Ok(v) => Ok(v),
        Err(e) => Err(e@),
    }
}

fn size_error_message(field: &str, value: u16, min: u16, max: u16) -> (r: String)
    ensures
        r@ == size_error(field@, value, min, max),
{
    let mut s = String::from_str("Invalid ");
    s.append(field);
    s.append(": ");
    push_decimal(&mut s, value as u64);
    s.append(". Must be between ");
    push_decimal(&mut s, min as u64);
    s.append(" and ");
    push_decimal(&mut s, max as u64);
    assert(s@ =~= size_error(field@, value, min, max));
    s
}

/// Checks a pseudoterminal geometry against the bounds, before any resource
/// is touched. The error names the first offending dimension, its value and
/// both of its bounds.
pub fn validate_pty_size(cols: u16, rows: u16) -> (r: Result<(), String>)
    ensures
        error_text(r) == size_verdict(cols, rows),
        r is Ok <==> size_in_bounds(cols, rows),
{
    if cols < MIN_PTY_COLS || cols > MAX_PTY_COLS {
        return Err(size_error_message("cols", cols, MIN_PTY_COLS, MAX_PTY_COLS));
    }
    if rows < MIN_PTY_ROWS || rows > MAX_PTY_ROWS {
        return Err(size_error_message("rows", rows, MIN_PTY_ROWS, MAX_PTY_ROWS));
    }
    Ok(())
}

} // verus!
