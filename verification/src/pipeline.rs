//! The orchestrator: one pipeline run as an explicit state machine.
//!
//! The surrounding binary performs each prescribed action — the network
//! and filesystem work — and reports its outcome as the next event; the
//! decisions between the actions all happen here.  Every failure is
//! fatal: the machine stops on the first error it is handed.

use crate::record::ChatRef;
use crate::RunError;
use vstd::prelude::*;

verus! {

/// Where a run stands.
pub enum PipelineState {
    /// Waiting for the chat name lookup.
    Resolving,
    /// Waiting for the cache check on the resolved chat's table file.
    CheckingCache(ChatRef),
    /// Waiting for the membership export to finish.
    Exporting(ChatRef),
    /// Waiting for the mention string built from the table file.
    Building(ChatRef),
    /// Waiting for the dispatch of the built mention string.
    Dispatching(ChatRef, String),
    /// The run finished.
    Done,
    /// The run aborted on its first error.
    Failed(RunError),
}

/// What the surrounding binary reports back.
pub enum PipelineEvent {
    /// The chat name lookup returned a chat, found none, or failed on
    /// the platform.
    ChatResolved(Result<Option<ChatRef>, RunError>),
    /// Whether the resolved chat's table file already exists.
    CacheChecked(bool),
    /// The membership export finished, or failed.
    ExportFinished(Result<(), RunError>),
    /// The mention string was built from the table, or the read failed.
    MentionsBuilt(Result<String, RunError>),
    /// The dispatch finished, or failed.
    DispatchFinished(Result<(), RunError>),
}

/// What the surrounding binary must do next.
#[derive(Debug, PartialEq, Eq, Structural)]
pub enum PipelineAction {
    /// Look the configured chat name up.
    ResolveChat,
    /// Check whether the table file for the resolved chat exists.
    CheckCache,
    /// Export the chat's membership to the table file.
    ExportMembers,
    /// Read the table file and build the mention string.
    BuildMentions,
    /// Send the built mention string to the chat.
    Dispatch,
    /// The run is over; stop.
    Stop,
}

/// The transition relation of one run.  A pair the protocol never
/// produces has no successor: the driver must hand each action's
/// outcome back before anything else.
pub open spec fn spec_step(state: PipelineState, event: PipelineEvent) -> Option<
    (PipelineState, PipelineAction),
> {
    match (state, event) {
        (PipelineState::Resolving, PipelineEvent::ChatResolved(Ok(Option::Some(chat)))) => Option::Some(
            (PipelineState::CheckingCache(chat), PipelineAction::CheckCache),
        ),
        (PipelineState::Resolving, PipelineEvent::ChatResolved(Ok(Option::None))) => Option::Some(
            (PipelineState::Failed(RunError::ChatNotFound), PipelineAction::Stop),
        ),
        (PipelineState::Resolving, PipelineEvent::ChatResolved(Err(e))) => Option::Some(
            (PipelineState::Failed(e), PipelineAction::Stop),
        ),
        (PipelineState::CheckingCache(chat), PipelineEvent::CacheChecked(true)) => Option::Some(
            (PipelineState::Building(chat), PipelineAction::BuildMentions),
        ),
        (PipelineState::CheckingCache(chat), PipelineEvent::CacheChecked(false)) => Option::Some(
            (PipelineState::Exporting(chat), PipelineAction::ExportMembers),
        ),
        (PipelineState::Exporting(chat), PipelineEvent::ExportFinished(Ok(()))) => Option::Some(
            (PipelineState::Building(chat), PipelineAction::BuildMentions),
        ),
        (PipelineState::Exporting(_), PipelineEvent::ExportFinished(Err(e))) => Option::Some(
            (PipelineState::Failed(e), PipelineAction::Stop),
        ),
        (PipelineState::Building(chat), PipelineEvent::MentionsBuilt(Ok(m))) => Option::Some(
            (PipelineState::Dispatching(chat, m), PipelineAction::Dispatch),
        ),
        (PipelineState::Building(_), PipelineEvent::MentionsBuilt(Err(e))) => Option::Some(
            (PipelineState::Failed(e), PipelineAction::Stop),
        ),
        (PipelineState::Dispatching(_, _), PipelineEvent::DispatchFinished(Ok(()))) => Option::Some(
            (PipelineState::Done, PipelineAction::Stop),
        ),
        (PipelineState::Dispatching(_, _), PipelineEvent::DispatchFinished(Err(e))) => Option::Some(
            (PipelineState::Failed(e), PipelineAction::Stop),
        ),
        (_, _) => Option::None,
    }
}

/// Begins a run: the first action is the chat lookup.
pub fn pipeline_start() -> (r: (PipelineState, PipelineAction))
    ensures
        r.0 is Resolving,
        r.1 == PipelineAction::ResolveChat,
{
    (PipelineState::Resolving, PipelineAction::ResolveChat)
}

/// Advances the run by one reported outcome.  Returns nothing when the
/// driver hands back an outcome the current state never asked for.
pub fn pipeline_step(state: PipelineState, event: PipelineEvent) -> (r: Option<
    (PipelineState, PipelineAction),
>)
    ensures
        r == spec_step(state, event),
{
    match (state, event) {
        (PipelineState::Resolving, PipelineEvent::ChatResolved(Ok(Option::Some(chat)))) => Option::Some(
            (PipelineState::CheckingCache(chat), PipelineAction::CheckCache),
        ),
        (PipelineState::Resolving, PipelineEvent::ChatResolved(Ok(Option::None))) => Option::Some(
            (PipelineState::Failed(RunError::ChatNotFound), PipelineAction::Stop),
        ),
        (PipelineState::Resolving, PipelineEvent::ChatResolved(Err(e))) => Option::Some(
            (PipelineState::Failed(e), PipelineAction::Stop),
        ),
        (PipelineState::CheckingCache(chat), PipelineEvent::CacheChecked(true)) => Option::Some(
            (PipelineState::Building(chat), PipelineAction::BuildMentions),
        ),
        (PipelineState::CheckingCache(chat), PipelineEvent::CacheChecked(false)) => Option::Some(
            (PipelineState::Exporting(chat), PipelineAction::ExportMembers),
        ),
        (PipelineState::Exporting(chat), PipelineEvent::ExportFinished(Ok(()))) => Option::Some(
            (PipelineState::Building(chat), PipelineAction::BuildMentions),
        ),
        (PipelineState::Exporting(_), PipelineEvent::ExportFinished(Err(e))) => Option::Some(
            (PipelineState::Failed(e), PipelineAction::Stop),
        ),
        (PipelineState::Building(chat), PipelineEvent::MentionsBuilt(Ok(m))) => Option::Some(
            (PipelineState::Dispatching(chat, m), PipelineAction::Dispatch),
        ),
        (PipelineState::Building(_), PipelineEvent::MentionsBuilt(Err(e))) => Option::Some(
            (PipelineState::Failed(e), PipelineAction::Stop),
        ),
        (PipelineState::Dispatching(_, _), PipelineEvent::DispatchFinished(Ok(()))) => Option::Some(
            (PipelineState::Done, PipelineAction::Stop),
        ),
        (PipelineState::Dispatching(_, _), PipelineEvent::DispatchFinished(Err(e))) => Option::Some(
            (PipelineState::Failed(e), PipelineAction::Stop),
        ),
        (_, _) => Option::None,
    }
}

/// Cache skip: when the cache check finds an existing table file, the
/// run proceeds straight to building mentions from that file, and the
/// export step is bypassed.
pub proof fn lemma_cache_skip(chat: ChatRef)
    ensures
        spec_step(PipelineState::CheckingCache(chat), PipelineEvent::CacheChecked(true))
            == Option::Some((PipelineState::Building(chat), PipelineAction::BuildMentions)),
{
}

/// Export only on a missing file: no state and event other than a cache
/// check that found no table file ever prescribes a membership export,
/// so a run over an existing file performs zero membership-listing
/// calls.
pub proof fn lemma_export_only_on_missing_file(state: PipelineState, event: PipelineEvent)
    ensures
        (spec_step(state, event) matches Option::Some((s2, a)) && a == PipelineAction::ExportMembers)
            ==> (state is CheckingCache && event == PipelineEvent::CacheChecked(false)),
{
}

} // verus!
