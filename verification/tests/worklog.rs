use hindsight::ocr_section::{build_budgeted_ocr_section, context_tokens, evenly_spaced_indices, ocr_chunks};
use hindsight::worklog::{
    build_budgeted_inputs, build_budgeted_inputs_with_template, build_description_prompt,
    build_description_prompt_with_template, description_system_prompt,
    description_system_prompt_with_template, prepare_work_description, take_chars,
    resolve_summary_model_paths, truncate_with_marker, worklog_content_budget,
    worklog_content_budget_with_template,
};

fn ms(timestamp: &str) -> i64 {
    chrono::DateTime::parse_from_rfc3339(timestamp)
        .unwrap()
        .timestamp_millis()
}

#[test]
fn compacted_labels_keep_prompt_budget_protection() {
    let evidence =
        "[COMPACTED OCR SUMMARY]\n시간: 10:00 ~ 10:30\n앱: Code\n창 제목: main.rs\n근거:\n요약";
    let (budgeted_summary, context) =
        build_budgeted_inputs(4096, 1024, "Work Item context", "Code — main.rs", evidence);
    let budget = worklog_content_budget(4096, 1024);

    assert!(context.contains("[COMPACTED OCR SUMMARY]"));
    assert!(budgeted_summary.chars().count() + context.chars().count() <= budget);
}

#[test]
fn configured_worklog_template_is_appended_without_replacing_fixed_rules() {
    let (system, _) = build_description_prompt_with_template(
        "2026-09-20",
        ms("2026-09-20T10:00:00Z"),
        ms("2026-09-20T11:00:00Z"),
        "Work Item",
        "evidence",
        "Focus on the requested acceptance criteria.",
    );

    assert!(system.contains("[사용자 지정 Work Log 지침]"));
    assert!(system.contains("Focus on the requested acceptance criteria."));
    assert!(system.contains("근거가 없으면 '수정했다', '설계했다', '완료했다'"));
    let template_end = system.find("[사용자 지정 Work Log 지침 끝]").unwrap();
    let fixed_rule = system.find("[고정 최종 규칙]").unwrap();
    assert!(fixed_rule > template_end);
    assert!(system[fixed_rule..].contains("사실성·근거·증거 보존 규칙과 충돌하면"));
}

#[test]
fn configured_worklog_template_is_reserved_before_evidence_budget() {
    let template = "사용자 지침 ".repeat(100);
    let base_budget = worklog_content_budget(4096, 1024);
    let configured_budget = worklog_content_budget_with_template(4096, 1024, &template);
    assert!(configured_budget < base_budget);

    let (budgeted_summary, context) = build_budgeted_inputs_with_template(
        4096,
        1024,
        "Work Item context",
        "Code — main.rs",
        &"OCR evidence ".repeat(1_000),
        &template,
    );
    assert!(budgeted_summary.chars().count() + context.chars().count() <= configured_budget);
}

#[test]
fn build_description_prompt_includes_all_fields() {
    let (_, context) = build_budgeted_inputs(
        8192,
        4096,
        "ACU 기능 시험",
        "Visual Studio Code — main.rs\nChrome — Jira 보고서",
        "main.rs의 함수 구현 검토",
    );
    let (sys, usr) = build_description_prompt(
        "2026-09-17",
        1_726_545_600_000, // epoch ms
        1_726_549_200_000,
        "ACU 기능 시험",
        &context,
    );
    assert!(sys.contains("OCR"));
    assert!(sys.contains("평문만"));
    assert!(sys.contains("구체적인 한국어"));
    assert!(sys.contains("단정하지 말고"));
    assert!(usr.contains("2026-09-17"));
    assert!(usr.contains("Work Item 컨텍스트"));
    assert!(usr.contains("ACU 기능 시험"));
    assert!(usr.contains("[OCR 텍스트 시작]"));
    assert!(usr.contains("[활동 기록(process_name + window_title) 시작]"));
    assert!(usr.contains("Visual Studio Code"));
    assert!(usr.contains("Chrome"));
}

#[test]
fn budgeted_context_combines_ocr_and_activity_sections() {
    let (_, context) = build_budgeted_inputs(
        8192,
        4096,
        "Work Item",
        "VS Code — main.rs",
        "  main.rs 구현 검토  ",
    );

    assert!(context.contains("[OCR 텍스트 시작]"));
    assert!(context.contains("main.rs 구현 검토"));
    assert!(context.contains("[활동 기록(process_name + window_title) 시작]"));
    assert!(context.contains("VS Code — main.rs"));
}

#[test]
fn budgeted_inputs_sample_large_ocr_across_time_and_relevance() {
    let ocr = (0..6000)
        .map(|index| {
            if index == 3047 {
                format!("ocr-{index} TEST-LOCAL-1 main.rs 관련 화면 내용")
            } else {
                format!("ocr-{index} 시간대 대표 화면 내용")
            }
        })
        .collect::<Vec<_>>()
        .join("\n---\n");
    let summary = "TEST-LOCAL-1 main.rs 구현 검토";
    let activity = "VS Code — main.rs\nChrome — TEST-LOCAL-1";
    let (budgeted_summary, context) =
        build_budgeted_inputs(8192, 4096, summary, activity, &ocr);
    let budget = worklog_content_budget(8192, 4096);

    assert!(ocr.chars().count() > 126_934);
    assert!(budgeted_summary.chars().count() + context.chars().count() <= budget);
    assert!(context.contains("TEST-LOCAL-1 main.rs"));
    assert!(context.contains("ocr-0"));
    assert!(context.contains("ocr-5999"));
    assert!(context.contains("OCR 일부만 포함"));
}

#[test]
fn default_context_budget_reserves_output_tokens() {
    // The default summary context is 8192 tokens with 4096 reserved for output.
    assert!(worklog_content_budget(8192, 4096) < 4096);
    assert_eq!(
        worklog_content_budget(8192, 4096),
        (8192 - 4096 - description_system_prompt().chars().count() - 768) * 3 / 4
    );
}

#[test]
fn content_budget_saturates_when_output_exceeds_context() {
    assert_eq!(worklog_content_budget(1024, 4096), 0);
    assert_eq!(worklog_content_budget(0, 0), 0);
}

#[test]
fn prompt_time_range_uses_utc_hours_and_minutes() {
    // 2024-01-01T09:00:00Z and 10:30:00Z
    let (_, usr) = build_description_prompt("2024-01-01", 1_704_099_600_000, 1_704_105_000_000, "s", "c");
    assert!(usr.contains("시간범위: 09:00 ~ 10:30\n"));
    assert!(usr.starts_with("날짜: 2024-01-01\n"));
    assert!(usr.ends_with("아래 근거를 종합해 설명을 작성하라.\nc"));
}

#[test]
fn blank_template_keeps_fixed_prompt_only() {
    assert_eq!(description_system_prompt_with_template("   \n"), description_system_prompt());
    let with = description_system_prompt_with_template("  규칙  ");
    assert!(with.contains("[사용자 지정 Work Log 지침]\n규칙\n[사용자 지정 Work Log 지침 끝]"));
}

#[test]
fn truncate_with_marker_keeps_head_and_tail() {
    assert_eq!(truncate_with_marker("  short  ", 10), "short");
    let text = "a".repeat(20) + &"b".repeat(20);
    let cut = truncate_with_marker(&text, 26);
    assert_eq!(cut.chars().count(), 26);
    assert_eq!(cut, format!("{}{}{}", "aaaaa", "\n[… 입력 일부 생략 …]\n", "bbbbb"));
    assert_eq!(truncate_with_marker(&text, 3), "\n[…");
    assert_eq!(truncate_with_marker(&text, 0), "");
}

#[test]
fn take_chars_counts_characters_not_bytes() {
    assert_eq!(take_chars("가나다라", 2), "가나");
    assert_eq!(take_chars("ab", 5), "ab");
}

#[test]
fn ocr_chunks_trim_and_drop_empty_pieces() {
    assert_eq!(ocr_chunks(" a \n---\n\n---\n b\n---\n"), vec!["a".to_string(), "b".to_string()]);
    assert!(ocr_chunks("   ").is_empty());
}

#[test]
fn context_tokens_keep_long_distinct_runs() {
    assert_eq!(
        context_tokens("main.rs, ab, TEST-1 main.rs src/lib_x"),
        vec!["main.rs".to_string(), "TEST-1".to_string(), "src/lib_x".to_string()]
    );
}

#[test]
fn evenly_spaced_indices_cover_first_and_last() {
    assert_eq!(evenly_spaced_indices(5, 8), vec![0, 1, 2, 3, 4]);
    assert_eq!(evenly_spaced_indices(100, 8), vec![0, 14, 28, 42, 56, 70, 84, 99]);
    assert_eq!(evenly_spaced_indices(10, 1), vec![0]);
    assert!(evenly_spaced_indices(0, 8).is_empty());
}

#[test]
fn ocr_section_is_whole_when_it_fits() {
    assert_eq!(
        build_budgeted_ocr_section("a\n---\nb", 1000, ""),
        "[OCR 텍스트 시작]\na\n---\nb\n[OCR 텍스트 끝]"
    );
    assert_eq!(build_budgeted_ocr_section("a", 0, ""), "");
    assert_eq!(build_budgeted_ocr_section("  ", 1000, ""), "");
}

#[test]
fn ocr_section_prefers_relevant_chunks_within_budget() {
    let ocr = (0..40).map(|i| format!("chunk{i} filler text")).collect::<Vec<_>>().join("\n---\n")
        + "\n---\nspecial-token here";
    let section = build_budgeted_ocr_section(&ocr, 200, "special-token");
    assert!(section.chars().count() <= 200);
    assert!(section.contains("special-token"));
    assert!(section.contains("[OCR 일부만 포함: 전체 41개 조각 중 대표 조각 선택]"));
}

#[test]
fn missing_evidence_is_an_error() {
    let err = prepare_work_description("2026-09-20", 0, 1, "s", "  ", "\n", 8192, 4096, "").unwrap_err();
    assert_eq!(err, " 해당 시간대에 스크린샷 OCR 텍스트 또는 활동 기록이 없습니다.");
    let (system, user) =
        prepare_work_description("2026-09-20", 0, 1, "s", "Code — main.rs", "", 8192, 4096, "").unwrap();
    assert_eq!(system, description_system_prompt());
    assert!(user.contains("[활동 기록(process_name + window_title) 시작]\nCode — main.rs\n[활동 기록 끝]"));
}

#[test]
fn summary_model_paths_need_existing_files() {
    assert_eq!(
        resolve_summary_model_paths("main.gguf", "/m/main.gguf", false, "", "/m", false),
        Err("Summary 모델 파일을 찾을 수 없습니다: main.gguf（가능한 경로: /m/main.gguf）".to_string())
    );
    assert_eq!(
        resolve_summary_model_paths("main.gguf", "/m/main.gguf", true, "", "/m", false),
        Ok(("/m/main.gguf".to_string(), None))
    );
    assert_eq!(
        resolve_summary_model_paths("main.gguf", "/m/main.gguf", true, "p.gguf", "/m/p.gguf", false),
        Err("Summary vision projection 파일을 찾을 수 없습니다: p.gguf（가능한 경로: /m/p.gguf）".to_string())
    );
    assert_eq!(
        resolve_summary_model_paths("main.gguf", "/m/main.gguf", true, "p.gguf", "/m/p.gguf", true),
        Ok(("/m/main.gguf".to_string(), Some("/m/p.gguf".to_string())))
    );
}
