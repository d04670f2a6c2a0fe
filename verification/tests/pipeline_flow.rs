use mention_pipeline::dispatch::{
    choose_route, find_chat_by_name, name_matches, resolution_outcome, scan_outcome, SendRoute,
};
use mention_pipeline::export::{should_export, table_header, Exporter, RATE_LIMIT_MS};
use mention_pipeline::pipeline::{pipeline_start, pipeline_step, PipelineAction, PipelineEvent, PipelineState};
use mention_pipeline::record::{ChatRef, MyUser};
use mention_pipeline::table::encode_table;
use mention_pipeline::{ret_or_log_err_and_panic, RunError};

fn chat(id: i64, name: &str, username: Option<&str>) -> ChatRef {
    ChatRef { id, name: name.to_string(), username: username.map(String::from) }
}

fn user(id: i64, name: &str, username: Option<&str>) -> MyUser {
    MyUser { id, full_name: name.to_string(), tg_username: username.map(String::from) }
}

#[test]
fn cache_gate_skips_existing_file() {
    assert!(!should_export(true));
    assert!(should_export(false));
}

#[test]
fn exporter_prescribes_rate_limit_delays() {
    let mut e = Exporter::new();
    let mut total: u64 = 0;
    for i in 0..10 {
        let (_row, delay) = e.add_member(&user(i, "m", None));
        assert_eq!(delay, RATE_LIMIT_MS);
        total += delay;
    }
    assert!(total >= 9 * 25);
    assert_eq!(total, 250);
}

#[test]
fn exporter_emits_the_same_table_as_the_batch_writer() {
    let members = vec![user(1, "Ann, \"A\"", Some("ann")), user(2, "Bob", None)];
    let mut e = Exporter::new();
    let mut file = table_header();
    for m in &members {
        let (row, _delay) = e.add_member(m);
        file.push_str(&row);
    }
    assert_eq!(file, encode_table(&members));
}

#[test]
fn route_prefers_primary_when_authorized() {
    let r = choose_route(true, &Some("grp".to_string()));
    assert!(matches!(r, SendRoute::Primary));
}

#[test]
fn route_uses_username_when_bot_must_send() {
    let r = choose_route(false, &Some("grp".to_string()));
    match r {
        SendRoute::BotViaUsername(u) => assert_eq!(u, "grp"),
        _ => panic!("expected the username route"),
    }
}

#[test]
fn route_falls_back_to_dialog_scan_without_username() {
    let r = choose_route(false, &None);
    assert!(matches!(r, SendRoute::BotViaDialogScan));
}

#[test]
fn dialog_scan_picks_first_exact_match() {
    let dialogs = vec![
        chat(1, "alpha", None),
        chat(2, "target", None),
        chat(3, "target", Some("dup")),
    ];
    assert_eq!(find_chat_by_name(&dialogs, "target"), Some(1));
    assert_eq!(find_chat_by_name(&dialogs, "Alpha"), None);
    assert_eq!(find_chat_by_name(&vec![], "alpha"), None);
    assert!(name_matches(&chat(1, "alpha", None), "alpha"));
    assert!(!name_matches(&chat(1, "alpha", None), "Alpha"));
    assert!(!name_matches(&chat(1, "alpha", None), "alpha "));
}

#[test]
fn failed_dialog_scan_is_chat_not_found_and_nothing_is_sent() {
    let dialogs = vec![chat(1, "alpha", None), chat(2, "beta", None)];
    let found = find_chat_by_name(&dialogs, "gamma");
    assert_eq!(found, None);
    let target = scan_outcome(None);
    assert_eq!(target, Err(RunError::ChatNotFound));
    // no target is ever produced, so no send can happen on this path
}

#[test]
fn scan_and_resolution_outcomes() {
    let c = chat(5, "g", None);
    assert_eq!(scan_outcome(Some(c.clone())), Ok(c.clone()));
    assert_eq!(resolution_outcome(Some(c.clone())), Ok(c));
    assert_eq!(resolution_outcome(None), Err(RunError::ChatResolutionError));
}

#[test]
fn pipeline_happy_path_with_export() {
    let (st, act) = pipeline_start();
    assert!(matches!(st, PipelineState::Resolving));
    assert_eq!(act, PipelineAction::ResolveChat);
    let (st, act) =
        pipeline_step(st, PipelineEvent::ChatResolved(Ok(Some(chat(9, "g", None))))).unwrap();
    assert_eq!(act, PipelineAction::CheckCache);
    let (st, act) = pipeline_step(st, PipelineEvent::CacheChecked(false)).unwrap();
    assert_eq!(act, PipelineAction::ExportMembers);
    let (st, act) = pipeline_step(st, PipelineEvent::ExportFinished(Ok(()))).unwrap();
    assert_eq!(act, PipelineAction::BuildMentions);
    let (st, act) =
        pipeline_step(st, PipelineEvent::MentionsBuilt(Ok("@a ".to_string()))).unwrap();
    assert_eq!(act, PipelineAction::Dispatch);
    assert!(matches!(&st, PipelineState::Dispatching(c, m) if c.id == 9 && m == "@a "));
    let (st, act) = pipeline_step(st, PipelineEvent::DispatchFinished(Ok(()))).unwrap();
    assert_eq!(act, PipelineAction::Stop);
    assert!(matches!(st, PipelineState::Done));
}

#[test]
fn pipeline_skips_export_when_table_file_exists() {
    let (st, _) = pipeline_start();
    let (st, _) = pipeline_step(st, PipelineEvent::ChatResolved(Ok(Some(chat(9, "g", None))))).unwrap();
    let (st, act) = pipeline_step(st, PipelineEvent::CacheChecked(true)).unwrap();
    assert_eq!(act, PipelineAction::BuildMentions);
    assert_ne!(act, PipelineAction::ExportMembers);
    assert!(matches!(st, PipelineState::Building(_)));
}

#[test]
fn pipeline_fails_fatally_on_first_error() {
    let (st, _) = pipeline_start();
    let (st, act) = pipeline_step(st, PipelineEvent::ChatResolved(Ok(None))).unwrap();
    assert_eq!(act, PipelineAction::Stop);
    assert!(matches!(st, PipelineState::Failed(RunError::ChatNotFound)));

    let (st, _) = pipeline_start();
    let (st, _) = pipeline_step(st, PipelineEvent::ChatResolved(Ok(Some(chat(1, "g", None))))).unwrap();
    let (st, _) = pipeline_step(st, PipelineEvent::CacheChecked(false)).unwrap();
    let (st, act) = pipeline_step(
        st,
        PipelineEvent::ExportFinished(Err(RunError::StorageError("disk full".to_string()))),
    )
    .unwrap();
    assert_eq!(act, PipelineAction::Stop);
    assert!(matches!(st, PipelineState::Failed(RunError::StorageError(_))));
}

#[test]
fn pipeline_surfaces_resolution_platform_errors() {
    let (st, _) = pipeline_start();
    let (st, act) = pipeline_step(
        st,
        PipelineEvent::ChatResolved(Err(RunError::PlatformError("connection reset".to_string()))),
    )
    .unwrap();
    assert_eq!(act, PipelineAction::Stop);
    assert!(matches!(st, PipelineState::Failed(RunError::PlatformError(_))));
}

#[test]
fn pipeline_refuses_out_of_protocol_events() {
    assert!(pipeline_step(PipelineState::Done, PipelineEvent::CacheChecked(true)).is_none());
    let (st, _) = pipeline_start();
    assert!(pipeline_step(st, PipelineEvent::DispatchFinished(Ok(()))).is_none());
}

#[test]
fn ok_results_pass_through() {
    let r: Result<u32, String> = Ok(5);
    assert_eq!(ret_or_log_err_and_panic(r, "reading"), 5);
}
