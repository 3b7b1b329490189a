//! Verified core of a financial chat terminal: a per-user conversation state
//! machine, a shared session store (portfolios, watchlists, user registry,
//! ban and premium sets), a paper-trading portfolio simulator with exact
//! rational arithmetic, and normalizers that map provider payloads into one
//! internal quote model. All chat transport and HTTP work lives outside the
//! library and exchanges plain values with it.

pub mod bytes;
pub mod engine;
pub mod portfolio;
pub mod quotes;
pub mod ratio;
pub mod store;

use vstd::prelude::*;

verus! {

/// The one administrator chat id; compared for equality, no credentials.
pub const ADMIN_CHAT_ID: i64 = 6187914291;

/// True exactly for the administrator chat.
pub fn is_admin(chat_id: i64) -> (r: bool)
    ensures
        r == (chat_id == ADMIN_CHAT_ID),
{
    chat_id == ADMIN_CHAT_ID
}

} // verus!
