use hindsight::text::is_whitespace;
use hindsight::evidence::{activity_lines, ocr_evidence_text, EvidenceRow};

fn rows(items: &[(&str, &str)]) -> Vec<(String, String)> {
    items.iter().map(|(p, t)| (p.to_string(), t.to_string())).collect()
}

#[test]
fn activities_are_deduplicated_and_joined() {
    let text = activity_lines(&rows(&[
        (" Code ", "main.rs"),
        ("Code", " main.rs "),
        ("", ""),
        ("   ", "Jira 보고서"),
        ("Terminal", ""),
        ("Chrome", "Jira 보고서"),
    ]));
    assert_eq!(text, "Code — main.rs\nJira 보고서\nTerminal\nChrome — Jira 보고서");
    assert_eq!(activity_lines(&rows(&[])), "");
}

#[test]
fn ocr_entries_are_labelled_and_separated() {
    let entries = vec![
        EvidenceRow {
            started_ts: "2026-09-20T09:00:00Z".into(),
            ended_ts: "2026-09-20T10:00:00Z".into(),
            app_id: Some("Code".into()),
            title: Some("main.rs".into()),
            text: " successful compacted work \n".into(),
            compacted: true,
        },
        EvidenceRow {
            started_ts: "2026-09-20T10:00:00Z".into(),
            ended_ts: "2026-09-20T11:00:00Z".into(),
            app_id: None,
            title: None,
            text: "raw fallback evidence".into(),
            compacted: false,
        },
    ];
    assert_eq!(
        ocr_evidence_text(&entries),
        "[COMPACTED OCR SUMMARY]\n시간: 2026-09-20T09:00:00Z ~ 2026-09-20T10:00:00Z\n앱: Code\n창 제목: main.rs\n근거:\nsuccessful compacted work\n---\n[RAW OCR]\n시간: 2026-09-20T10:00:00Z ~ 2026-09-20T11:00:00Z\n앱: \n창 제목: \n근거:\nraw fallback evidence"
    );
    assert_eq!(ocr_evidence_text(&vec![]), "");
}

#[test]
fn white_space_follows_the_unicode_list() {
    for c in [' ', '\t', '\n', '\r', '\u{0B}', '\u{0C}', '\u{85}', '\u{A0}', '\u{1680}', '\u{2000}', '\u{200A}', '\u{2028}', '\u{2029}', '\u{202F}', '\u{205F}', '\u{3000}'] {
        assert!(is_whitespace(c), "{c:?}");
        assert_eq!(is_whitespace(c), c.is_whitespace());
    }
    for c in ['a', '0', '\u{200B}', '\u{180E}', '\u{FEFF}', '\u{8}', '가'] {
        assert!(!is_whitespace(c), "{c:?}");
        assert_eq!(is_whitespace(c), c.is_whitespace());
    }
}
