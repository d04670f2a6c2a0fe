//! Choosing the sending identity and resolving the target chat for it.
//!
//! A run has two identities: the primary session that resolved the chat,
//! and an independently authenticated bot session.  Packed addressing
//! tokens are session-scoped, so when the bot must send, it has to
//! resolve the chat again for itself — by public username when the chat
//! has one, otherwise by scanning its own dialog list for the name.

use crate::record::ChatRef;
use crate::strutil::str_eq;
use crate::RunError;
use vstd::prelude::*;
use vstd::string::*;

verus! {

/// How the mention message reaches the chat.
pub enum SendRoute {
    /// The primary session posts directly with its own packed token.
    Primary,
    /// The bot resolves this public username and posts through the
    /// handle that gives it.
    BotViaUsername(String),
    /// The chat has no public username: the bot must find it by name in
    /// its own dialog list.
    BotViaDialogScan,
}

/// Selects the sending identity and, for the bot, its resolution
/// strategy.
pub fn choose_route(primary_authorized: bool, chat_username: &Option<String>) -> (r: SendRoute)
    ensures
        primary_authorized ==> r is Primary,
        !primary_authorized ==> match chat_username {
            Option::Some(u) => r matches SendRoute::BotViaUsername(x) && x@ == u@,
            Option::None => r is BotViaDialogScan,
        },
{
    if primary_authorized {
        SendRoute::Primary
    } else {
        match chat_username {
            Option::Some(u) => SendRoute::BotViaUsername(u.clone()),
            Option::None => SendRoute::BotViaDialogScan,
        }
    }
}

/// Whether one dialog's display name matches the target name exactly.
/// The bot's dialog scan stops at the first dialog for which this
/// holds.
pub fn name_matches(dialog: &ChatRef, chat_name: &str) -> (r: bool)
    ensures
        r == (dialog.name@ == chat_name@),
{
    str_eq(dialog.name.as_str(), chat_name)
}

/// Finds the first dialog whose display name matches the target name
/// exactly: the bot's fallback when the chat has no public username.
/// Duplicate names are ambiguous; the first match wins.
pub fn find_chat_by_name(dialogs: &Vec<ChatRef>, chat_name: &str) -> (r: Option<usize>)
    ensures
        match r {
            Option::Some(i) => {
                &&& i < dialogs@.len()
                &&& dialogs@[i as int].name@ == chat_name@
                &&& forall|j: int| 0 <= j < i ==> (#[trigger] dialogs@[j]).name@ != chat_name@
            },
            Option::None => forall|j: int|
                0 <= j < dialogs@.len() ==> (#[trigger] dialogs@[j]).name@ != chat_name@,
        },
{
    let mut i: usize = 0;
    while i < dialogs.len()
        invariant
            i <= dialogs@.len(),
            forall|j: int| 0 <= j < i ==> (#[trigger] dialogs@[j]).name@ != chat_name@,
        decreases dialogs@.len() - i,
    {
        if str_eq(dialogs[i].name.as_str(), chat_name) {
            return Option::Some(i);
        }
        i = i + 1;
    }
    Option::None
}

/// Turns the bot's username resolution outcome into the routed target:
/// the platform reporting no such chat is a resolution failure.
pub fn resolution_outcome(resolved: Option<ChatRef>) -> (r: Result<ChatRef, RunError>)
    ensures
        match resolved {
            Option::Some(c) => r matches Ok(c2) && c2 == c,
            Option::None => r matches Err(e) && e == RunError::ChatResolutionError,
        },
{
    match resolved {
        Option::Some(c) => Ok(c),
        Option::None => Err(RunError::ChatResolutionError),
    }
}

/// Turns the bot's dialog scan outcome into the routed target: when no
/// dialog name matched, the chat cannot be found and nothing is sent.
pub fn scan_outcome(found: Option<ChatRef>) -> (r: Result<ChatRef, RunError>)
    ensures
        match found {
            Option::Some(c) => r matches Ok(c2) && c2 == c,
            Option::None => r matches Err(e) && e == RunError::ChatNotFound,
        },
{
    match found {
        Option::Some(c) => Ok(c),
        Option::None => Err(RunError::ChatNotFound),
    }
}

} // verus!
