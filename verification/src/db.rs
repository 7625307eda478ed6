//! Recognising SQLite lock contention in an error.
use vstd::prelude::*;
use crate::errors::{error_display, error_text};
use crate::text::{chars_of, contains_chars, has_substring};

verus! {

/// A message that reports SQLite lock contention.
pub open spec fn locked_message(msg: Seq<char>) -> bool {
    has_substring(msg, "database is locked"@) || has_substring(msg, "database table is locked"@)
}

/// Whether this error message reports SQLite lock contention (`SQLITE_BUSY` or
/// `SQLITE_LOCKED`).
pub fn is_locked_message(msg: &str) -> (b: bool)
    ensures
        b == locked_message(msg@),
{
    let cs = chars_of(msg);
    let busy = chars_of("database is locked");
    let table = chars_of("database table is locked");
    contains_chars(cs.as_slice(), busy.as_slice()) || contains_chars(cs.as_slice(), table.as_slice())
}

/// Whether an error reports SQLite lock contention: `is_locked_message` of its
/// displayed text.
pub fn is_locked_error(e: &anyhow::Error) -> (b: bool)
    ensures
        b == locked_message(error_display(*e)),
{
    let msg = error_text(e);
    is_locked_message(msg.as_str())
}

} // verus!
