//! Membership export and mention-dispatch pipeline.
//!
//! The library resolves a chat, exports its membership to a durable
//! table file, derives a space-separated mention list from that table,
//! and decides how the list is dispatched (primary session or bot
//! session).  Everything that computes or decides lives here, verified;
//! the network and filesystem edges live in the surrounding binary.

use vstd::prelude::*;

pub mod dispatch;
pub mod export;
pub mod mentions;
pub mod numfmt;
pub mod pipeline;
pub mod record;
pub mod strutil;
pub mod table;

verus! {

/// The closed set of failures a pipeline run can report.  Every error is
/// fatal: the run aborts on the first one, with no recovery tier.
#[derive(Debug, Clone, PartialEq, Eq)]
pub enum RunError {
    /// Chat-name lookup or the bot's dialog scan found no match.
    ChatNotFound,
    /// Username resolution failed for the bot identity.
    ChatResolutionError,
    /// The persisted table is missing or a row fails schema validation.
    RecordReadError,
    /// A network or protocol failure from the platform, with its message.
    PlatformError(String),
    /// The table file could not be created, written or flushed.
    StorageError(String),
}

/// Returns the success value of a result whose failure the caller has
/// already ruled out.
pub fn ret_or_log_err_and_panic<T, E>(res: Result<T, E>, location_of_error: &str) -> (v: T)
    requires
        res is Ok,
    ensures
        v == res->Ok_0,
{
    match res {
        Ok(v) => v,
        Err(_) => vstd::pervasive::unreached(),
    }
}

} // verus!
