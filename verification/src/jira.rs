//! Reading the Work Items that a Jira MCP server returns for a
//! `searchJiraIssues` tool call, as JSON or as an event stream.
//!
//! JSON is read through `serde_json`: each lookup parses a JSON text and
//! follows a JSON pointer into it. What the lookups give is named by the
//! uninterpreted functions below; everything built on them is verified.
use vstd::prelude::*;
use crate::text::{
    chars_to_string, contains_chars, contains_seq, push_all, slice_chars, split, split_chars,
    to_chars, trim, trim_chars, views,
};

verus! {

// ------------------------------------------------------------- JSON lookups

/// The message of the error that `serde_json` reports for `text`, or `None`
/// when `text` is one JSON value.
pub uninterp spec fn json_error_text(text: Seq<char>) -> Option<Seq<char>>;

/// The string that the JSON pointer `pointer` leads to inside the JSON text
/// `text`; `None` when `text` does not parse, nothing is there, or what is
/// there is not a string.
pub uninterp spec fn json_str_at(text: Seq<char>, pointer: Seq<char>) -> Option<Seq<char>>;

/// The unsigned integer that `pointer` leads to inside `text`, as
/// `Value::as_u64` reads it.
pub uninterp spec fn json_u64_at(text: Seq<char>, pointer: Seq<char>) -> Option<u64>;

/// Whether `text` parses and `pointer` leads to a value inside it.
pub uninterp spec fn json_has(text: Seq<char>, pointer: Seq<char>) -> bool;

/// The elements of the array that `pointer` leads to inside `text`, each
/// written back as JSON text by `serde_json`.
pub uninterp spec fn json_array_texts(text: Seq<char>, pointer: Seq<char>) -> Option<Seq<Seq<char>>>;

/// Parses `text` with `serde_json::from_str::<Value>` and hands back the
/// error's message (its `Display`) when parsing fails. The contract names the
/// outcome `json_error_text(text)`; the JSON grammar is not restated.
#[verifier::external_body]
fn json_error(text: &str) -> (res: Option<String>)
    ensures
        match res {
            Some(e) => json_error_text(text@) == Some(e@),
            None => json_error_text(text@) is None,
        },
{
    match serde_json::from_str::<serde_json::Value>(text) {
        Ok(_) => None,
        Err(e) => Some(e.to_string()),
    }
}

/// Parses `text` with `serde_json::from_str::<Value>`, follows `pointer` with
/// `Value::pointer` and reads the value with `Value::as_str`. The contract
/// names the outcome `json_str_at(text, pointer)`.
#[verifier::external_body]
fn json_str(text: &str, pointer: &str) -> (res: Option<String>)
    ensures
        match res {
            Some(s) => json_str_at(text@, pointer@) == Some(s@),
            None => json_str_at(text@, pointer@) is None,
        },
{
    let value = serde_json::from_str::<serde_json::Value>(text).ok()?;
    value.pointer(pointer).and_then(|v| v.as_str()).map(|s| s.to_string())
}

/// Parses `text` with `serde_json::from_str::<Value>`, follows `pointer` with
/// `Value::pointer` and reads the value with `Value::as_u64`. The contract
/// names the outcome `json_u64_at(text, pointer)`.
#[verifier::external_body]
fn json_u64(text: &str, pointer: &str) -> (res: Option<u64>)
    ensures
        res == json_u64_at(text@, pointer@),
{
    let value = serde_json::from_str::<serde_json::Value>(text).ok()?;
    value.pointer(pointer).and_then(|v| v.as_u64())
}

/// Parses `text` with `serde_json::from_str::<Value>` and asks
/// `Value::pointer` whether anything is at `pointer`. The contract names the
/// outcome `json_has(text, pointer)`.
#[verifier::external_body]
fn json_present(text: &str, pointer: &str) -> (res: bool)
    ensures
        res == json_has(text@, pointer@),
{
    match serde_json::from_str::<serde_json::Value>(text) {
        Ok(value) => value.pointer(pointer).is_some(),
        Err(_) => false,
    }
}

/// Parses `text` with `serde_json::from_str::<Value>`, follows `pointer` with
/// `Value::pointer`, takes `Value::as_array` and writes each element back with
/// its `to_string`. The contract names the outcome
/// `json_array_texts(text, pointer)`.
#[verifier::external_body]
fn json_array(text: &str, pointer: &str) -> (res: Option<Vec<String>>)
    ensures
        match res {
            Some(v) => json_array_texts(text@, pointer@) == Some(v@.map_values(|s: String| s@)),
            None => json_array_texts(text@, pointer@) is None,
        },
{
    let value = serde_json::from_str::<serde_json::Value>(text).ok()?;
    let items = value.pointer(pointer)?.as_array()?;
    Some(items.iter().map(|v| v.to_string()).collect())
}

// ---------------------------------------------------------------- Work Item

/// A Jira Work Item with the fields the Work Log page shows; a field the
/// server leaves out is empty.
#[derive(Debug, Clone, PartialEq, Eq)]
pub struct WorkItem {
    pub key: String,
    pub summary: String,
    pub status: String,
    pub assignee: String,
    pub issue_type: String,
    /// Work background (custom field 13548).
    pub background: String,
    /// Information needed to do the work (custom field 13549).
    pub info: String,
    /// Work objective (custom field 13550).
    pub objective: String,
    /// Deliverables (custom field 13551).
    pub output: String,
}

/// The fields of a Work Item as character sequences.
pub struct WorkItemFields {
    pub key: Seq<char>,
    pub summary: Seq<char>,
    pub status: Seq<char>,
    pub assignee: Seq<char>,
    pub issue_type: Seq<char>,
    pub background: Seq<char>,
    pub info: Seq<char>,
    pub objective: Seq<char>,
    pub output: Seq<char>,
}

impl View for WorkItem {
    type V = WorkItemFields;

    open spec fn view(&self) -> WorkItemFields {
        WorkItemFields {
            key: self.key@,
            summary: self.summary@,
            status: self.status@,
            assignee: self.assignee@,
            issue_type: self.issue_type@,
            background: self.background@,
            info: self.info@,
            objective: self.objective@,
            output: self.output@,
        }
    }
}

/// An optional text, empty when absent.
pub open spec fn or_empty(o: Option<Seq<char>>) -> Seq<char> {
    match o {
        Some(s) => s,
        None => Seq::empty(),
    }
}

/// An optional string taken by its characters.
pub open spec fn option_chars(o: Option<String>) -> Option<Seq<char>> {
    match o {
        Some(s) => Some(s@),
        None => None,
    }
}

/// The first of two optional texts that is present.
pub open spec fn first_present(a: Option<Seq<char>>, b: Option<Seq<char>>) -> Option<Seq<char>> {
    match a {
        Some(s) => Some(s),
        None => b,
    }
}

fn unwrap_or_empty(o: Option<String>) -> (res: String)
    ensures
        res@ == or_empty(option_chars(o)),
{
    match o {
        Some(s) => s,
        None => String::new(),
    }
}

/// Builds a Work Item from the string fields read out of one item of the
/// server's `data` array: an absent field becomes empty, and the issue type
/// is `issueType`, else `type`.
pub fn work_item_from_fields(
    key: Option<String>,
    summary: Option<String>,
    status: Option<String>,
    assignee: Option<String>,
    issue_type: Option<String>,
    type_fallback: Option<String>,
    background: Option<String>,
    info: Option<String>,
    objective: Option<String>,
    output: Option<String>,
) -> (item: WorkItem)
    ensures
        item@.key == or_empty(option_chars(key)),
        item@.summary == or_empty(option_chars(summary)),
        item@.status == or_empty(option_chars(status)),
        item@.assignee == or_empty(option_chars(assignee)),
        item@.issue_type == or_empty(
            first_present(option_chars(issue_type), option_chars(type_fallback)),
        ),
        item@.background == or_empty(option_chars(background)),
        item@.info == or_empty(option_chars(info)),
        item@.objective == or_empty(option_chars(objective)),
        item@.output == or_empty(option_chars(output)),
{
    let kind = match issue_type {
        Some(t) => Some(t),
        None => type_fallback,
    };
    WorkItem {
        key: unwrap_or_empty(key),
        summary: unwrap_or_empty(summary),
        status: unwrap_or_empty(status),
        assignee: unwrap_or_empty(assignee),
        issue_type: unwrap_or_empty(kind),
        background: unwrap_or_empty(background),
        info: unwrap_or_empty(info),
        objective: unwrap_or_empty(objective),
        output: unwrap_or_empty(output),
    }
}

// -------------------------------------------------------------- server URL

/// The error for an empty Jira MCP server URL.
pub open spec fn missing_url_message() -> Seq<char> {
    "Jira MCP 서버 URL이 설정되지 않았습니다. AI 설정 → Jira MCP에서 URL과 PAT를 입력하세요."@
}

/// `s` without any trailing `/`.
pub open spec fn strip_trailing_slashes(s: Seq<char>) -> Seq<char>
    decreases s.len(),
{
    if s.len() > 0 && s.last() == '/' {
        strip_trailing_slashes(s.drop_last())
    } else {
        s
    }
}

/// The endpoint to post to: the configured URL without trailing slashes, or
/// an error when the URL is blank.
pub fn jira_base_url(url: &str) -> (res: Result<String, String>)
    ensures
        match res {
            Ok(u) => trim(url@).len() > 0 && u@ == strip_trailing_slashes(url@),
            Err(e) => trim(url@).len() == 0 && e@ == missing_url_message(),
        },
{
    let chars = to_chars(url);
    let trimmed = trim_chars(&chars);
    if trimmed.len() == 0 {
        return Err(
            String::from_str(
                "Jira MCP 서버 URL이 설정되지 않았습니다. AI 설정 → Jira MCP에서 URL과 PAT를 입력하세요.",
            ),
        );
    }
    let mut end = chars.len();
    proof {
        assert(chars@.take(chars@.len() as int) =~= chars@);
    }
    while end > 0 && chars[end - 1] == '/'
        invariant
            end <= chars@.len(),
            strip_trailing_slashes(chars@.take(end as int)) == strip_trailing_slashes(chars@),
        decreases end,
    {
        proof {
            assert(chars@.take(end as int).drop_last() =~= chars@.take(end - 1));
        }
        end = end - 1;
    }
    let base = slice_chars(&chars, 0, end);
    proof {
        assert(base@ =~= chars@.take(end as int));
    }
    Ok(chars_to_string(&base))
}

// ------------------------------------------------------------ event stream

/// The marker of an event-stream data line.
pub open spec fn data_prefix() -> Seq<char> {
    "data:"@
}

/// The payload of one event-stream line: the trimmed line after `data:`,
/// trimmed again, when something is left.
pub open spec fn sse_payload(line: Seq<char>) -> Option<Seq<char>> {
    let t = trim(line);
    let n = data_prefix().len() as int;
    if t.len() >= n && t.take(n) == data_prefix() && trim(t.skip(n)).len() > 0 {
        Some(trim(t.skip(n)))
    } else {
        None
    }
}

/// The payloads of the data lines, in order.
pub open spec fn sse_payloads(lines: Seq<Seq<char>>) -> Seq<Seq<char>>
    decreases lines.len(),
{
    if lines.len() == 0 {
        Seq::empty()
    } else {
        let rest = sse_payloads(lines.drop_last());
        match sse_payload(lines.last()) {
            Some(p) => rest.push(p),
            None => rest,
        }
    }
}

/// The data payloads of an event-stream body. Lines end at `\n`; a `\r`
/// before it is removed with the rest of the surrounding whitespace.
pub open spec fn sse_data(body: Seq<char>) -> Seq<Seq<char>> {
    sse_payloads(split(body, seq!['\n']))
}

fn line_payload(line: &[char], prefix: &[char]) -> (res: Option<Vec<char>>)
    requires
        prefix@ == data_prefix(),
    ensures
        match res {
            Some(p) => sse_payload(line@) == Some(p@),
            None => sse_payload(line@) is None,
        },
{
    let t = trim_chars(line);
    if t.len() < prefix.len() {
        return None;
    }
    let head = slice_chars(&t, 0, prefix.len());
    if !crate::text::chars_eq(&head, prefix) {
        proof {
            assert(head@ =~= t@.take(prefix@.len() as int));
        }
        return None;
    }
    let rest = slice_chars(&t, prefix.len(), t.len());
    let p = trim_chars(&rest);
    proof {
        assert(head@ =~= t@.take(prefix@.len() as int));
        assert(rest@ =~= t@.skip(prefix@.len() as int));
    }
    if p.len() == 0 {
        None
    } else {
        Some(p)
    }
}

/// The data payloads of an event-stream body, in order.
pub fn sse_data_payloads(body: &str) -> (res: Vec<String>)
    ensures
        res@.map_values(|s: String| s@) == sse_data(body@),
{
    let chars = to_chars(body);
    let newline: [char; 1] = ['\n'];
    let lines = split_chars(&chars, &newline);
    let prefix = to_chars("data:");
    let ghost ls = views(lines@);
    proof {
        assert(newline@ =~= seq!['\n']);
    }
    let mut out: Vec<String> = Vec::new();
    let mut i: usize = 0;
    while i < lines.len()
        invariant
            i <= lines@.len(),
            ls == views(lines@),
            ls == split(body@, seq!['\n']),
            prefix@ == data_prefix(),
            out@.map_values(|s: String| s@) == sse_payloads(ls.take(i as int)),
        decreases lines.len() - i,
    {
        proof {
            assert(ls.take(i + 1).drop_last() =~= ls.take(i as int));
            assert(ls.take(i + 1).last() == lines@[i as int]@);
        }
        let found = line_payload(&lines[i], &prefix);
        match found {
            Some(p) => {
                let ghost before = out@;
                out.push(chars_to_string(&p));
                proof {
                    assert(out@.map_values(|s: String| s@) =~= before.map_values(|s: String| s@).push(p@));
                }
            },
            None => {},
        }
        i = i + 1;
    }
    proof {
        assert(ls.take(lines@.len() as int) =~= ls);
    }
    out
}

/// The error when no data line of the stream holds a JSON message.
pub open spec fn no_sse_message() -> Seq<char> {
    "SSE 스트림에서 유효한 JSON-RPC 메시지를 찾을 수 없습니다."@
}

/// The payloads that parse as JSON, in order.
pub open spec fn parsed_messages(payloads: Seq<Seq<char>>) -> Seq<Seq<char>>
    decreases payloads.len(),
{
    if payloads.len() == 0 {
        Seq::empty()
    } else {
        let rest = parsed_messages(payloads.drop_last());
        if json_error_text(payloads.last()) is None {
            rest.push(payloads.last())
        } else {
            rest
        }
    }
}

/// The first position from `i` on whose id is `id`.
pub open spec fn first_id_match(ids: Seq<Option<u64>>, id: u64, i: int) -> Option<int>
    decreases ids.len() - i,
{
    if i < 0 || i >= ids.len() {
        None
    } else if ids[i] == Some(id) {
        Some(i)
    } else {
        first_id_match(ids, id, i + 1)
    }
}

proof fn lemma_first_id_match_range(ids: Seq<Option<u64>>, id: u64, i: int)
    ensures
        first_id_match(ids, id, i) matches Some(k) ==> i <= k < ids.len() && ids[k] == Some(id),
    decreases ids.len() - i,
{
    if 0 <= i < ids.len() && ids[i] != Some(id) {
        lemma_first_id_match_range(ids, id, i + 1);
    }
}

/// The message to answer a request with: the first whose id is the
/// request's, else the first of all, else none.
pub open spec fn picked_index(ids: Seq<Option<u64>>, id: u64) -> Option<int> {
    match first_id_match(ids, id, 0) {
        Some(i) => Some(i),
        None => if ids.len() > 0 {
            Some(0)
        } else {
            None
        },
    }
}

/// Picks the JSON-RPC message for a request from the ids of the parsed
/// messages of a stream (`None` where a message has no unsigned id).
pub fn pick_rpc_message(ids: &Vec<Option<u64>>, request_id: u64) -> (res: Option<usize>)
    ensures
        match res {
            Some(i) => picked_index(ids@, request_id) == Some(i as int),
            None => picked_index(ids@, request_id) is None,
        },
{
    let mut i: usize = 0;
    while i < ids.len()
        invariant
            i <= ids@.len(),
            first_id_match(ids@, request_id, 0) == first_id_match(ids@, request_id, i as int),
        decreases ids.len() - i,
    {
        if ids[i] == Some(request_id) {
            return Some(i);
        }
        i = i + 1;
    }
    if ids.len() > 0 {
        Some(0)
    } else {
        None
    }
}

/// The ids of messages, as `Value::as_u64` reads their `id` members.
pub open spec fn message_ids(messages: Seq<Seq<char>>) -> Seq<Option<u64>> {
    messages.map_values(|m: Seq<char>| json_u64_at(m, "/id"@))
}

/// The JSON-RPC message an event-stream body answers request `id` with.
pub open spec fn sse_message(body: Seq<char>, id: u64) -> Result<Seq<char>, Seq<char>> {
    let messages = parsed_messages(sse_data(body));
    match picked_index(message_ids(messages), id) {
        Some(i) => Ok(messages[i]),
        None => Err(no_sse_message()),
    }
}

/// A result of strings taken by their characters.
pub open spec fn result_chars(r: Result<String, String>) -> Result<Seq<char>, Seq<char>> {
    match r {
        Ok(s) => Ok(s@),
        Err(e) => Err(e@),
    }
}

/// Finds the JSON-RPC message for `request_id` among the `data:` lines of an
/// event-stream body.
pub fn parse_sse_response(body: &str, request_id: u64) -> (res: Result<String, String>)
    ensures
        result_chars(res) == sse_message(body@, request_id),
{
    let payloads = sse_data_payloads(body);
    let ghost pv = payloads@.map_values(|s: String| s@);
    let mut messages: Vec<String> = Vec::new();
    let mut ids: Vec<Option<u64>> = Vec::new();
    let mut i: usize = 0;
    while i < payloads.len()
        invariant
            i <= payloads@.len(),
            pv == payloads@.map_values(|s: String| s@),
            messages@.map_values(|s: String| s@) == parsed_messages(pv.take(i as int)),
            ids@ == message_ids(messages@.map_values(|s: String| s@)),
        decreases payloads.len() - i,
    {
        proof {
            assert(pv.take(i + 1).drop_last() =~= pv.take(i as int));
            assert(pv.take(i + 1).last() == payloads@[i as int]@);
        }
        let p = payloads[i].as_str();
        if json_error(p).is_none() {
            let ghost before = messages@.map_values(|s: String| s@);
            let id = json_u64(p, "/id");
            messages.push(payloads[i].clone());
            ids.push(id);
            proof {
                assert(messages@.map_values(|s: String| s@) =~= before.push(pv[i as int]));
                assert(ids@ =~= message_ids(messages@.map_values(|s: String| s@)));
            }
        }
        i = i + 1;
    }
    proof {
        assert(pv.take(payloads@.len() as int) =~= pv);
    }
    proof {
        lemma_first_id_match_range(ids@, request_id, 0);
    }
    match pick_rpc_message(&ids, request_id) {
        Some(k) => Ok(messages[k].clone()),
        None => Err(String::from_str("SSE 스트림에서 유효한 JSON-RPC 메시지를 찾을 수 없습니다.")),
    }
}

// ---------------------------------------------------------------- response

/// The content type of an event-stream answer.
pub open spec fn event_stream_type() -> Seq<char> {
    "text/event-stream"@
}

/// The JSON-RPC message of a `tools/call` answer with the given content type:
/// picked from the stream for request 2, or the whole body when it parses.
pub open spec fn rpc_message(content_type: Seq<char>, body: Seq<char>) -> Result<Seq<char>, Seq<char>> {
    if contains_seq(content_type, event_stream_type()) {
        sse_message(body, 2)
    } else {
        match json_error_text(body) {
            Some(e) => Err("MCP 응답 JSON 파싱 실패: "@ + e),
            None => Ok(body),
        }
    }
}

/// The tool's text content, or the error of a message that carries a
/// JSON-RPC `error`, given what the message holds.
pub open spec fn rpc_content(
    error_present: bool,
    error_message: Option<Seq<char>>,
    text: Option<Seq<char>>,
) -> Result<Seq<char>, Seq<char>> {
    if error_present {
        Err(
            "MCP 오류: "@ + match error_message {
                Some(m) => m,
                None => "unknown error"@,
            },
        )
    } else {
        match text {
            Some(t) => Ok(t),
            None => Err("MCP 응답에서 result.content[0].text를 찾을 수 없습니다."@),
        }
    }
}

/// The tool's text content of a JSON-RPC message.
pub open spec fn message_content(message: Seq<char>) -> Result<Seq<char>, Seq<char>> {
    rpc_content(
        json_has(message, "/error"@),
        json_str_at(message, "/error/message"@),
        json_str_at(message, "/result/content/0/text"@),
    )
}

fn concat(prefix: &str, rest: &str) -> (res: String)
    ensures
        res@ == prefix@ + rest@,
{
    let mut out = to_chars(prefix);
    push_all(&mut out, &to_chars(rest));
    chars_to_string(&out)
}

/// Decides on the tool's text content from what a JSON-RPC message holds:
/// whether it has an `error`, that error's `message`, and the text at
/// `result.content[0].text`.
pub fn rpc_content_text(
    error_present: bool,
    error_message: Option<String>,
    text: Option<String>,
) -> (res: Result<String, String>)
    ensures
        result_chars(res) == rpc_content(error_present, option_chars(error_message), option_chars(text)),
{
    if error_present {
        let message = match error_message {
            Some(m) => m,
            None => String::from_str("unknown error"),
        };
        return Err(concat("MCP 오류: ", message.as_str()));
    }
    match text {
        Some(t) => Ok(t),
        None => Err(String::from_str("MCP 응답에서 result.content[0].text를 찾을 수 없습니다.")),
    }
}

/// The fields of one item of the `data` array, given as JSON text.
pub open spec fn item_fields(item: Seq<char>) -> WorkItemFields {
    WorkItemFields {
        key: or_empty(json_str_at(item, "/key"@)),
        summary: or_empty(json_str_at(item, "/summary"@)),
        status: or_empty(json_str_at(item, "/status"@)),
        assignee: or_empty(json_str_at(item, "/assignee"@)),
        issue_type: or_empty(
            first_present(json_str_at(item, "/issueType"@), json_str_at(item, "/type"@)),
        ),
        background: or_empty(json_str_at(item, "/customFields/customfield_13548"@)),
        info: or_empty(json_str_at(item, "/customFields/customfield_13549"@)),
        objective: or_empty(json_str_at(item, "/customFields/customfield_13550"@)),
        output: or_empty(json_str_at(item, "/customFields/customfield_13551"@)),
    }
}

/// The Work Items of the tool's text content, itself a JSON document with a
/// `data` array.
pub open spec fn content_items(content: Seq<char>) -> Result<Seq<WorkItemFields>, Seq<char>> {
    match json_error_text(content) {
        Some(e) => Err("MCP content text JSON 파싱 실패: "@ + e),
        None => match json_array_texts(content, "/data"@) {
            None => Err("MCP 응답에서 data 배열을 찾을 수 없습니다."@),
            Some(items) => Ok(items.map_values(|t: Seq<char>| item_fields(t))),
        },
    }
}

/// The Work Items of a `tools/call` answer.
pub open spec fn work_items_response(content_type: Seq<char>, body: Seq<char>) -> Result<Seq<WorkItemFields>, Seq<char>> {
    match rpc_message(content_type, body) {
        Err(e) => Err(e),
        Ok(message) => match message_content(message) {
            Err(e) => Err(e),
            Ok(content) => content_items(content),
        },
    }
}

/// A list of Work Items, or an error, taken by views.
pub open spec fn items_view(r: Result<Vec<WorkItem>, String>) -> Result<Seq<WorkItemFields>, Seq<char>> {
    match r {
        Ok(v) => Ok(v@.map_values(|w: WorkItem| w@)),
        Err(e) => Err(e@),
    }
}

/// Reads one item of the `data` array.
pub fn work_item_from_json(item: &str) -> (res: WorkItem)
    ensures
        res@ == item_fields(item@),
{
    work_item_from_fields(
        json_str(item, "/key"),
        json_str(item, "/summary"),
        json_str(item, "/status"),
        json_str(item, "/assignee"),
        json_str(item, "/issueType"),
        json_str(item, "/type"),
        json_str(item, "/customFields/customfield_13548"),
        json_str(item, "/customFields/customfield_13549"),
        json_str(item, "/customFields/customfield_13550"),
        json_str(item, "/customFields/customfield_13551"),
    )
}

/// Reads the Work Items of the tool's text content.
pub fn work_items_from_content(content: &str) -> (res: Result<Vec<WorkItem>, String>)
    ensures
        items_view(res) == content_items(content@),
{
    if let Some(e) = json_error(content) {
        return Err(concat("MCP content text JSON 파싱 실패: ", e.as_str()));
    }
    let texts = match json_array(content, "/data") {
        Some(t) => t,
        None => {
            return Err(String::from_str("MCP 응답에서 data 배열을 찾을 수 없습니다."));
        },
    };
    let ghost tv = texts@.map_values(|s: String| s@);
    let mut items: Vec<WorkItem> = Vec::new();
    let mut i: usize = 0;
    while i < texts.len()
        invariant
            i <= texts@.len(),
            tv == texts@.map_values(|s: String| s@),
            items@.len() == i,
            forall|k: int| 0 <= k < i ==> #[trigger] items@[k]@ == item_fields(tv[k]),
        decreases texts.len() - i,
    {
        items.push(work_item_from_json(texts[i].as_str()));
        i = i + 1;
    }
    proof {
        assert(items@.map_values(|w: WorkItem| w@) =~= tv.map_values(|t: Seq<char>| item_fields(t)));
    }
    Ok(items)
}

/// Reads the Work Items out of the answer to the `searchJiraIssues` tool call
/// (request 2), given the answer's content type and body.
pub fn parse_work_items_response(content_type: &str, body: &str) -> (res: Result<Vec<WorkItem>, String>)
    ensures
        items_view(res) == work_items_response(content_type@, body@),
{
    let stream = contains_chars(&to_chars(content_type), &to_chars("text/event-stream"));
    let message = if stream {
        match parse_sse_response(body, 2) {
            Ok(m) => m,
            Err(e) => {
                return Err(e);
            },
        }
    } else {
        if let Some(e) = json_error(body) {
            return Err(concat("MCP 응답 JSON 파싱 실패: ", e.as_str()));
        }
        String::from_str(body)
    };
    let m = message.as_str();
    let content = rpc_content_text(
        json_present(m, "/error"),
        json_str(m, "/error/message"),
        json_str(m, "/result/content/0/text"),
    );
    match content {
        Ok(c) => work_items_from_content(c.as_str()),
        Err(e) => Err(e),
    }
}

} // verus!
