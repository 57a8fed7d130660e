use hindsight::jira::{
    jira_base_url, parse_sse_response, parse_work_items_response, pick_rpc_message,
    rpc_content_text, sse_data_payloads, work_item_from_fields, work_item_from_json,
    work_items_from_content, WorkItem,
};

fn tool_answer(id: u64, content_text: &str) -> String {
    let escaped = serde_json::to_string(content_text).unwrap();
    format!(
        "{{\"jsonrpc\":\"2.0\",\"id\":{id},\"result\":{{\"content\":[{{\"type\":\"text\",\"text\":{escaped}}}]}}}}"
    )
}

const ITEMS: &str = r#"{"data":[
    {"key":"WI-1","summary":"ACU 기능 시험","status":"진행 중","assignee":"kim","issueType":"Work Item",
     "customFields":{"customfield_13548":"배경","customfield_13549":"정보","customfield_13550":"목표","customfield_13551":"산출물"}},
    {"key":"WI-2","type":"Task"},
    {"summary":42}
]}"#;

fn item(key: &str, summary: &str, issue_type: &str) -> WorkItem {
    WorkItem {
        key: key.into(),
        summary: summary.into(),
        status: String::new(),
        assignee: String::new(),
        issue_type: issue_type.into(),
        background: String::new(),
        info: String::new(),
        objective: String::new(),
        output: String::new(),
    }
}

#[test]
fn json_answer_yields_work_items_with_defaults() {
    let items = parse_work_items_response("application/json", &tool_answer(2, ITEMS)).unwrap();
    assert_eq!(items.len(), 3);
    assert_eq!(
        items[0],
        WorkItem {
            key: "WI-1".into(),
            summary: "ACU 기능 시험".into(),
            status: "진행 중".into(),
            assignee: "kim".into(),
            issue_type: "Work Item".into(),
            background: "배경".into(),
            info: "정보".into(),
            objective: "목표".into(),
            output: "산출물".into(),
        }
    );
    assert_eq!(items[1], item("WI-2", "", "Task"));
    assert_eq!(items[2], item("", "", ""));
}

#[test]
fn event_stream_answer_prefers_matching_request_id() {
    let body = format!(
        "event: message\r\ndata: {}\r\n\r\ndata:   \r\ndata: not json\ndata: {}\n",
        tool_answer(1, r#"{"data":[{"key":"OLD"}]}"#),
        tool_answer(2, r#"{"data":[{"key":"NEW"}]}"#)
    );
    let items = parse_work_items_response("text/event-stream; charset=utf-8", &body).unwrap();
    assert_eq!(items, vec![item("NEW", "", "")]);
}

#[test]
fn event_stream_falls_back_to_first_message() {
    let body = format!("data: {}\n", tool_answer(7, r#"{"data":[]}"#));
    let message = parse_sse_response(&body, 2).unwrap();
    assert_eq!(message, tool_answer(7, r#"{"data":[]}"#));
    assert_eq!(
        parse_sse_response("data: \n: comment\n", 2),
        Err("SSE 스트림에서 유효한 JSON-RPC 메시지를 찾을 수 없습니다.".to_string())
    );
}

#[test]
fn sse_payloads_keep_trimmed_data_lines() {
    assert_eq!(
        sse_data_payloads("  data:  {\"a\":1} \r\nid: 3\ndata:\ndata:x"),
        vec!["{\"a\":1}".to_string(), "x".to_string()]
    );
}

#[test]
fn picks_first_matching_id_else_first_message() {
    assert_eq!(pick_rpc_message(&vec![Some(1), None, Some(2), Some(2)], 2), Some(2));
    assert_eq!(pick_rpc_message(&vec![Some(1), None], 2), Some(0));
    assert_eq!(pick_rpc_message(&vec![], 2), None);
}

#[test]
fn rpc_errors_and_missing_parts_are_reported() {
    assert_eq!(
        parse_work_items_response(
            "application/json",
            r#"{"jsonrpc":"2.0","id":2,"error":{"code":-1,"message":"denied"}}"#
        ),
        Err("MCP 오류: denied".to_string())
    );
    assert_eq!(
        rpc_content_text(true, None, Some("x".into())),
        Err("MCP 오류: unknown error".to_string())
    );
    assert_eq!(
        parse_work_items_response("application/json", r#"{"result":{}}"#),
        Err("MCP 응답에서 result.content[0].text를 찾을 수 없습니다.".to_string())
    );
    assert_eq!(
        parse_work_items_response("application/json", &tool_answer(2, r#"{"items":[]}"#)),
        Err("MCP 응답에서 data 배열을 찾을 수 없습니다.".to_string())
    );
    let not_json = parse_work_items_response("application/json", "<html>").unwrap_err();
    assert!(not_json.starts_with("MCP 응답 JSON 파싱 실패: "));
    let bad_content = work_items_from_content("{oops").unwrap_err();
    assert!(bad_content.starts_with("MCP content text JSON 파싱 실패: "));
}

#[test]
fn work_item_fields_default_to_empty() {
    let w = work_item_from_fields(
        Some("K".into()),
        None,
        None,
        None,
        None,
        Some("Task".into()),
        None,
        None,
        None,
        None,
    );
    assert_eq!(w, item("K", "", "Task"));
    let j = work_item_from_json(r#"{"key":"K","issueType":"Work Item","type":"Task"}"#);
    assert_eq!(j, item("K", "", "Work Item"));
}

#[test]
fn base_url_drops_trailing_slashes_and_rejects_blank() {
    assert_eq!(
        jira_base_url("https://jira.example/mcp//"),
        Ok("https://jira.example/mcp".to_string())
    );
    assert_eq!(
        jira_base_url("   "),
        Err("Jira MCP 서버 URL이 설정되지 않았습니다. AI 설정 → Jira MCP에서 URL과 PAT를 입력하세요.".to_string())
    );
}
