use hindsight::compaction::{
    bounded_error, commit_outcome, commit_precheck, commit_summary, compaction_prompt,
    compaction_system_prompt, deferred_row, failure_row, input_fits_context, is_retry_candidate,
    needs_split_row, pass_step, resolve_summary_model_paths, select_batch, success_row, CommitResult, LedgerRow, LedgerStatus, PassAction,
    PassEvent, PassState, SessionCandidate, BATCH_SIZE, MAX_RETRIES,
};

fn source(id: i64) -> SessionCandidate {
    SessionCandidate {
        guid: format!("session-guid-{id}"),
        local_date: "2026-09-20".into(),
        started_ts: "2026-09-20T09:00:00+00:00".into(),
        ended_ts: "2026-09-20T09:05:00+00:00".into(),
        app_id: Some("code".into()),
        title: Some("main.rs".into()),
        text: "main.rs 작업 내용".into(),
    }
}

#[test]
fn configured_small_context_rejects_over_budget_input() {
    assert!(input_fits_context(2_047, 2_048, 4_096));
    assert!(!input_fits_context(2_049, 2_048, 4_096));
    assert!(!input_fits_context(1, 2_048, 2_048));
}

#[test]
fn capped_actual_context_rejects_config_valid_candidate() {
    let configured_ctx = 8_192;
    let actual_ctx = 4_096;
    let input_tokens = 3_500;
    let max_tokens = 768;
    assert!(input_fits_context(input_tokens, max_tokens, configured_ctx));
    assert!(!input_fits_context(input_tokens, max_tokens, actual_ctx));
}

#[test]
fn context_check_saturates_instead_of_overflowing() {
    assert!(!input_fits_context(u32::MAX, 1, 4_096));
    assert!(input_fits_context(u32::MAX, 1, u32::MAX));
}

#[test]
fn prompt_lists_session_fields() {
    let prompt = compaction_prompt(&source(1));
    assert_eq!(
        prompt,
        "날짜: 2026-09-20\n시간: 2026-09-20T09:00:00+00:00 ~ 2026-09-20T09:05:00+00:00\n앱: code\n창 제목: main.rs\nOCR:\nmain.rs 작업 내용"
    );
    let mut bare = source(2);
    bare.app_id = None;
    bare.title = None;
    assert!(compaction_prompt(&bare).contains("\n앱: \n창 제목: \nOCR:\n"));
    assert!(compaction_system_prompt().contains("1~2문장"));
}

#[test]
fn failure_records_bounded_error_and_counts_up_to_max_retries() {
    let long = "오".repeat(700);
    assert_eq!(bounded_error(&long).chars().count(), 500);
    assert_eq!(bounded_error("모델 오류"), "모델 오류");

    let mut row = failure_row(None);
    assert_eq!(row, LedgerRow { status: LedgerStatus::Error, attempts: 1 });
    for _ in 0..(MAX_RETRIES + 2) {
        row = failure_row(Some(row));
    }
    assert_eq!(row, LedgerRow { status: LedgerStatus::Error, attempts: MAX_RETRIES });
    assert!(!is_retry_candidate(Some(row)));
}

#[test]
fn token_count_failure_does_not_spend_a_retry() {
    let deferred = deferred_row(None);
    assert_eq!(deferred, LedgerRow { status: LedgerStatus::Deferred, attempts: 0 });
    assert!(is_retry_candidate(Some(deferred)));
    let after_error = failure_row(None);
    let still = deferred_row(Some(after_error));
    assert_eq!(still.attempts, 1);
    assert!(is_retry_candidate(Some(still)));
}

#[test]
fn needs_split_and_success_are_never_retried() {
    let split = needs_split_row(None);
    assert_eq!(split, LedgerRow { status: LedgerStatus::NeedsSplit, attempts: 0 });
    assert!(!is_retry_candidate(Some(split)));
    assert!(!is_retry_candidate(Some(success_row())));
    assert!(is_retry_candidate(None));
    assert_eq!(BATCH_SIZE, 4);
}

#[test]
fn ledger_status_text_round_trips() {
    for status in [
        LedgerStatus::Error,
        LedgerStatus::NeedsSplit,
        LedgerStatus::Deferred,
        LedgerStatus::Success,
    ] {
        assert_eq!(LedgerStatus::from_text(&status.text()), Some(status));
    }
    assert_eq!(LedgerStatus::from_text("pending"), None);
}

#[test]
fn commit_decisions_follow_source_and_ledger() {
    assert_eq!(commit_summary("  요약  "), Some("요약".to_string()));
    assert_eq!(commit_summary("   "), None);
    assert_eq!(commit_precheck(0, 1), Some(CommitResult::AlreadyDone));
    assert_eq!(commit_precheck(0, 0), Some(CommitResult::Stale));
    assert_eq!(commit_precheck(1, 0), None);
    assert_eq!(commit_outcome(1), CommitResult::Committed);
    assert_eq!(commit_outcome(0), CommitResult::Stale);
}

fn run(events: Vec<PassEvent>) -> Vec<PassAction> {
    let mut state = PassState::Loading;
    let mut actions = Vec::new();
    for event in events {
        let (next, action) = pass_step(state, event);
        state = next;
        actions.push(action);
    }
    actions
}

#[test]
fn pass_commits_a_trimmed_answer_after_lease_checks() {
    let actions = run(vec![
        PassEvent::CandidatesLoaded { count: 1 },
        PassEvent::SettingsLoaded { cloud: false },
        PassEvent::EngineReady { ctx: 4_096 },
        PassEvent::CandidateTaken { present: true },
        PassEvent::LeaseValid,
        PassEvent::ClientBuilt { max_tokens: 768 },
        PassEvent::TokensCounted { tokens: 1_000 },
        PassEvent::LeaseValid,
        PassEvent::Answered { summary: "  main.rs 검토  ".into() },
        PassEvent::LeaseValid,
        PassEvent::Written,
        PassEvent::CandidateTaken { present: false },
    ]);
    assert_eq!(
        actions,
        vec![
            PassAction::ReadSettings,
            PassAction::AcquireEngine,
            PassAction::TakeCandidate,
            PassAction::ValidateLease,
            PassAction::BuildClient,
            PassAction::CountTokens,
            PassAction::ValidateLease,
            PassAction::Chat,
            PassAction::ValidateLease,
            PassAction::Commit { summary: "main.rs 검토".into() },
            PassAction::TakeCandidate,
            PassAction::Finish,
        ]
    );
}

#[test]
fn pass_marks_oversized_prompt_and_goes_on() {
    let actions = run(vec![
        PassEvent::CandidatesLoaded { count: 2 },
        PassEvent::SettingsLoaded { cloud: false },
        PassEvent::EngineReady { ctx: 4_096 },
        PassEvent::CandidateTaken { present: true },
        PassEvent::LeaseValid,
        PassEvent::ClientBuilt { max_tokens: 768 },
        PassEvent::TokensCounted { tokens: 3_500 },
        PassEvent::Written,
    ]);
    assert_eq!(actions[6], PassAction::RecordNeedsSplit);
    assert_eq!(actions[7], PassAction::TakeCandidate);
}

#[test]
fn pass_defers_on_lost_lease_and_stops() {
    let actions = run(vec![
        PassEvent::CandidatesLoaded { count: 1 },
        PassEvent::SettingsLoaded { cloud: false },
        PassEvent::EngineReady { ctx: 4_096 },
        PassEvent::CandidateTaken { present: true },
        PassEvent::LeaseLost { error: "engine restarted".into() },
        PassEvent::Written,
    ]);
    assert_eq!(actions[4], PassAction::RecordDeferred { error: "engine restarted".into() });
    assert_eq!(actions[5], PassAction::Finish);
}

#[test]
fn pass_defers_failed_token_count_and_goes_on() {
    let actions = run(vec![
        PassEvent::CandidatesLoaded { count: 1 },
        PassEvent::SettingsLoaded { cloud: false },
        PassEvent::EngineReady { ctx: 4_096 },
        PassEvent::CandidateTaken { present: true },
        PassEvent::LeaseValid,
        PassEvent::ClientBuilt { max_tokens: 768 },
        PassEvent::TokenCountFailed { error: "token endpoint unavailable".into() },
        PassEvent::Written,
    ]);
    assert_eq!(
        actions[6],
        PassAction::RecordDeferred { error: "token endpoint unavailable".into() }
    );
    assert_eq!(actions[7], PassAction::TakeCandidate);
}

#[test]
fn pass_records_empty_answer_as_failure() {
    let actions = run(vec![
        PassEvent::CandidatesLoaded { count: 1 },
        PassEvent::SettingsLoaded { cloud: false },
        PassEvent::EngineReady { ctx: 4_096 },
        PassEvent::CandidateTaken { present: true },
        PassEvent::LeaseValid,
        PassEvent::ClientBuilt { max_tokens: 768 },
        PassEvent::TokensCounted { tokens: 10 },
        PassEvent::LeaseValid,
        PassEvent::Answered { summary: "  ".into() },
    ]);
    assert_eq!(
        actions[8],
        PassAction::RecordFailure { error: "로컬 summary 응답이 비어 있습니다".into() }
    );
}

#[test]
fn pass_ends_without_candidates_or_with_cloud_model() {
    assert_eq!(run(vec![PassEvent::CandidatesLoaded { count: 0 }]), vec![PassAction::Finish]);
    assert_eq!(
        run(vec![
            PassEvent::CandidatesLoaded { count: 3 },
            PassEvent::SettingsLoaded { cloud: true },
        ]),
        vec![PassAction::ReadSettings, PassAction::Finish]
    );
    assert_eq!(
        run(vec![
            PassEvent::CandidatesLoaded { count: 3 },
            PassEvent::SettingsLoaded { cloud: false },
            PassEvent::EngineUnavailable,
        ]),
        vec![PassAction::ReadSettings, PassAction::AcquireEngine, PassAction::Finish]
    );
}

#[test]
fn missing_model_files_are_reported_before_loading() {
    assert_eq!(
        resolve_summary_model_paths("main.gguf", "/m/main.gguf", false, "", "/m", false),
        Err("main.gguf（可能被删除或路径变了）".to_string())
    );
    assert_eq!(
        resolve_summary_model_paths("main.gguf", "/m/main.gguf", true, "  ", "/m", false),
        Ok(("/m/main.gguf".to_string(), None))
    );
    assert_eq!(
        resolve_summary_model_paths("main.gguf", "/m/main.gguf", true, "proj.gguf", "/m/proj.gguf", false),
        Err("vision 投影 proj.gguf".to_string())
    );
    assert_eq!(
        resolve_summary_model_paths("main.gguf", "/m/main.gguf", true, "proj.gguf", "/m/proj.gguf", true),
        Ok(("/m/main.gguf".to_string(), Some("/m/proj.gguf".to_string())))
    );
}

#[test]
fn batch_skips_finished_sessions_and_keeps_order() {
    let row = |status, attempts| Some(LedgerRow { status, attempts });
    let entries = vec![
        None,
        row(LedgerStatus::NeedsSplit, 0),
        row(LedgerStatus::Error, MAX_RETRIES),
        row(LedgerStatus::Deferred, 1),
        None,
        row(LedgerStatus::Success, 0),
        row(LedgerStatus::Error, 2),
        None,
    ];
    assert_eq!(select_batch(&entries), vec![0, 3, 4, 6]);
    assert_eq!(select_batch(&vec![row(LedgerStatus::NeedsSplit, 0), None]), vec![1]);
    assert!(select_batch(&vec![]).is_empty());
}
