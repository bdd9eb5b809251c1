//! The records the bot keeps in its database, as plain values.

use vstd::prelude::*;

verus! {

/// A book as stored in the `books` table.
#[derive(Debug, Clone)]
pub struct DbIsbn {
    pub isbn_13: String,
    pub isbn_10: Option<String>,
    pub title: String,
    pub subtitle: Option<String>,
    pub authors: Vec<String>,
    pub source: String,
}

/// The notification channel stored for a guild; 0 means none.
pub fn notification_channel_from_row(id: i64) -> (c: Option<u64>)
    ensures
        c == (if id == 0 {
            None
        } else {
            Some(id as u64)
        }),
{
    if id == 0 {
        None
    } else {
        Some(id as u64)
    }
}

} // verus!
