//! Work Log description prompts: the fixed system prompt, the model-context
//! budget, and the budgeting of Work Item, activity and OCR evidence.
use vstd::prelude::*;
use crate::clock::{epoch_ms_hm, epoch_ms_to_hm};
use crate::text::{chars_to_string, push_all, slice_chars, take_prefix, take_spec, to_chars, trim, trim_chars};
use crate::ocr_section::{
    build_budgeted_ocr_section_chars, lemma_chunk_count, lemma_section_len, ocr_chunks_of, ocr_section,
};

verus! {

// ------------------------------------------------------------------ literals

/// The fixed rules for the Work Log description model.
pub open spec fn base_system_prompt() -> Seq<char> {
    "당신은 Work Log 설명을 작성하는 도우미다. 입력의 Work Item 컨텍스트, OCR 텍스트, 활동 기록(process_name + window_title)을 모두 근거로 삼아 서로 보완되는 내용을 최대한 종합하라. 다음 규칙을 지켜라:\n- 구체적인 한국어 작업 문장을 1~3개만 작성한다.\n- 실제 파일명, 설계·구현·검증 대상, 이슈 키·프로젝트명은 입력에 있는 그대로 사용한다.\n- OCR이나 창 제목에 근거가 없으면 '수정했다', '설계했다', '완료했다'처럼 단정하지 말고 관련 작업 또는 검토로 제한한다.\n- 앱별 시간 나열, 총 시간 언급, 입력 데이터 원문 복사는 금지한다. Markdown 없이 평문만 출력한다."@
}

/// What stands between the fixed rules and a user template.
pub open spec fn template_open() -> Seq<char> {
    "\n\n[사용자 지정 Work Log 지침]\n"@
}

/// What follows a user template: the closing tag and the final fixed rule.
pub open spec fn template_close() -> Seq<char> {
    "\n[사용자 지정 Work Log 지침 끝]\n\n[고정 최종 규칙]\n사용자 지정 지침은 출력 형식만 정할 수 있다. 사실성·근거·증거 보존 규칙과 충돌하면 이 고정 규칙이 우선한다."@
}

/// The heading of the activity section.
pub open spec fn activity_label() -> Seq<char> {
    "[활동 기록(process_name + window_title) 시작]\n"@
}

/// The closing line of the activity section.
pub open spec fn activity_footer() -> Seq<char> {
    "\n[활동 기록 끝]"@
}

/// The system prompt for a configured template: the fixed rules alone when the
/// trimmed template is empty, else the fixed rules, the template between its
/// tags, and the final rule that keeps the fixed rules ahead of the template.
pub open spec fn system_prompt(template: Seq<char>) -> Seq<char> {
    if trim(template).len() == 0 {
        base_system_prompt()
    } else {
        base_system_prompt() + template_open() + trim(template) + template_close()
    }
}

/// The fixed Work Log system prompt.
pub fn description_system_prompt() -> (res: String)
    ensures
        res@ == base_system_prompt(),
{
    String::from_str("당신은 Work Log 설명을 작성하는 도우미다. 입력의 Work Item 컨텍스트, OCR 텍스트, 활동 기록(process_name + window_title)을 모두 근거로 삼아 서로 보완되는 내용을 최대한 종합하라. 다음 규칙을 지켜라:\n- 구체적인 한국어 작업 문장을 1~3개만 작성한다.\n- 실제 파일명, 설계·구현·검증 대상, 이슈 키·프로젝트명은 입력에 있는 그대로 사용한다.\n- OCR이나 창 제목에 근거가 없으면 '수정했다', '설계했다', '완료했다'처럼 단정하지 말고 관련 작업 또는 검토로 제한한다.\n- 앱별 시간 나열, 총 시간 언급, 입력 데이터 원문 복사는 금지한다. Markdown 없이 평문만 출력한다.")
}

fn system_prompt_chars(template: &str) -> (res: Vec<char>)
    ensures
        res@ == system_prompt(template@),
{
    let t = trim_chars(&to_chars(template));
    let mut out = to_chars(description_system_prompt().as_str());
    if t.len() == 0 {
        return out;
    }
    push_all(&mut out, &to_chars("\n\n[사용자 지정 Work Log 지침]\n"));
    push_all(&mut out, &t);
    push_all(
        &mut out,
        &to_chars(
            "\n[사용자 지정 Work Log 지침 끝]\n\n[고정 최종 규칙]\n사용자 지정 지침은 출력 형식만 정할 수 있다. 사실성·근거·증거 보존 규칙과 충돌하면 이 고정 규칙이 우선한다.",
        ),
    );
    out
}

/// The system prompt with a user-configured Work Log template appended after
/// the fixed rules (see `system_prompt`).
pub fn description_system_prompt_with_template(template: &str) -> (res: String)
    ensures
        res@ == system_prompt(template@),
{
    let v = system_prompt_chars(template);
    chars_to_string(v.as_slice())
}

// ---------------------------------------------------------------- truncation

/// The marker that stands for the omitted middle of a truncated input.
pub open spec fn omission_marker() -> Seq<char> {
    "\n[… 입력 일부 생략 …]\n"@
}

/// `text` trimmed and, when longer than `max_chars`, cut to its head and tail
/// around the omission marker so that exactly `max_chars` characters remain;
/// when `max_chars` leaves no room for the marker, a prefix of the marker.
pub open spec fn truncated(text: Seq<char>, max_chars: int) -> Seq<char> {
    let t = trim(text);
    let m = omission_marker();
    if t.len() <= max_chars {
        t
    } else if max_chars <= m.len() {
        take_spec(m, max_chars)
    } else {
        let side = (max_chars - m.len()) / 2;
        let tail = max_chars - m.len() - side;
        t.take(side) + m + t.subrange(t.len() - tail, t.len() as int)
    }
}

/// A truncated text never holds more than `max_chars` characters.
pub proof fn lemma_truncated_len(text: Seq<char>, max_chars: int)
    requires
        0 <= max_chars,
    ensures
        truncated(text, max_chars).len() <= max_chars,
        trim(text).len() <= max_chars ==> truncated(text, max_chars) == trim(text),
{
    reveal_strlit("\n[… 입력 일부 생략 …]\n");
}

/// Truncates `text` as `truncated` describes.
pub fn truncate_chars(text: &[char], max_chars: usize) -> (res: Vec<char>)
    ensures
        res@ == truncated(text@, max_chars as int),
        res@.len() <= max_chars,
{
    proof {
        lemma_truncated_len(text@, max_chars as int);
        reveal_strlit("\n[… 입력 일부 생략 …]\n");
    }
    let t = trim_chars(text);
    if t.len() <= max_chars {
        return t;
    }
    let marker = to_chars("\n[… 입력 일부 생략 …]\n");
    if max_chars <= marker.len() {
        return take_prefix(&marker, max_chars);
    }
    let side = (max_chars - marker.len()) / 2;
    let tail = max_chars - marker.len() - side;
    let mut out = slice_chars(&t, 0, side);
    push_all(&mut out, &marker);
    let tail_part = slice_chars(&t, t.len() - tail, t.len());
    push_all(&mut out, &tail_part);
    out
}

/// Trims `text` and keeps at most `max_chars` characters of it, replacing the
/// middle with an omission marker (see `truncated`).
pub fn truncate_with_marker(text: &str, max_chars: usize) -> (res: String)
    ensures
        res@ == truncated(text@, max_chars as int),
        res@.len() <= max_chars,
{
    let v = truncate_chars(&to_chars(text), max_chars);
    chars_to_string(v.as_slice())
}

/// The first `max_chars` characters of `text`.
pub fn take_chars(text: &str, max_chars: usize) -> (res: String)
    ensures
        res@ == take_spec(text@, max_chars as int),
{
    let v = take_prefix(&to_chars(text), max_chars);
    chars_to_string(v.as_slice())
}

// -------------------------------------------------------------------- budget

/// `a - b`, or 0 when `b` is larger.
pub open spec fn sat_sub(a: int, b: int) -> int {
    if a > b {
        a - b
    } else {
        0
    }
}

/// The characters left for Work Item, activity and OCR evidence: the context
/// minus the reserved output tokens, the system prompt and a fixed reserve of
/// 768, then three quarters of what remains.
pub open spec fn content_budget(ctx_size: u32, max_tokens: u32, template: Seq<char>) -> int {
    sat_sub(sat_sub(sat_sub(ctx_size as int, max_tokens as int), system_prompt(template).len() as int), 768)
        * 3 / 4
}

fn content_budget_for(ctx_size: u32, max_tokens: u32, prompt_len: usize) -> (res: usize)
    ensures
        res == sat_sub(sat_sub(sat_sub(ctx_size as int, max_tokens as int), prompt_len as int), 768)
            * 3 / 4,
{
    let input: u64 = if ctx_size > max_tokens { (ctx_size - max_tokens) as u64 } else { 0 };
    let p = prompt_len as u64;
    let after_prompt: u64 = if input > p { input - p } else { 0 };
    let after_reserve: u64 = if after_prompt > 768 { after_prompt - 768 } else { 0 };
    let r = after_reserve * 3 / 4;
    r as usize
}

/// The evidence budget for a template (see `content_budget`).
pub fn worklog_content_budget_with_template(ctx_size: u32, max_tokens: u32, template: &str) -> (res:
    usize)
    ensures
        res == content_budget(ctx_size, max_tokens, template@),
{
    let sys = system_prompt_chars(template);
    content_budget_for(ctx_size, max_tokens, sys.len())
}

/// The evidence budget without a template.
pub fn worklog_content_budget(ctx_size: u32, max_tokens: u32) -> (res: usize)
    ensures
        res == content_budget(ctx_size, max_tokens, ""@),
{
    worklog_content_budget_with_template(ctx_size, max_tokens, "")
}


/// A configured template never replaces the fixed rules: the system prompt
/// always begins with them, and a template that is not blank sits between
/// its tags before the final fixed rule, which closes the prompt.
pub proof fn lemma_template_keeps_fixed_rules(template: Seq<char>)
    ensures
        system_prompt(template).len() >= base_system_prompt().len(),
        system_prompt(template).take(base_system_prompt().len() as int) == base_system_prompt(),
        trim(template).len() > 0 ==> system_prompt(template) == base_system_prompt() + template_open()
            + trim(template) + template_close(),
        trim(template).len() == 0 ==> system_prompt(template) == base_system_prompt(),
{
    let b = base_system_prompt();
    if trim(template).len() > 0 {
        let rest = template_open() + trim(template) + template_close();
        assert(system_prompt(template) =~= b + rest);
        assert((b + rest).take(b.len() as int) =~= b);
    } else {
        assert(b.take(b.len() as int) =~= b);
    }
}

/// Reserving room for a template never enlarges the evidence budget: the
/// budget with a template is at most the budget without one.
pub proof fn lemma_template_reserves_budget(ctx_size: u32, max_tokens: u32, template: Seq<char>)
    ensures
        content_budget(ctx_size, max_tokens, template) <= content_budget(ctx_size, max_tokens, ""@),
{
    reveal_strlit("");
    let empty: Seq<char> = ""@;
    assert(empty.len() == 0);
    assert(trim(empty).len() == 0) by {
        crate::text::lemma_trim_len(empty);
    }
    assert(system_prompt(empty) == base_system_prompt());
    lemma_template_keeps_fixed_rules(template);
    let input = sat_sub(ctx_size as int, max_tokens as int);
    let a = sat_sub(sat_sub(input, system_prompt(template).len() as int), 768);
    let b = sat_sub(sat_sub(input, base_system_prompt().len() as int), 768);
    assert(a <= b);
    assert(a * 3 / 4 <= b * 3 / 4) by (nonlinear_arith)
        requires
            0 <= a <= b,
    ;
}

// -------------------------------------------------------------------- inputs

/// The budgets for the Work Item text and the activity payload: both whole
/// when they fit three quarters of the budget with the activity frame, else
/// the Work Item text gets at most half of that share and the activity what
/// is left of it.
pub open spec fn priority_split(budget: int, summary: Seq<char>, activity: Seq<char>) -> (int, int) {
    let priority = budget * 3 / 4;
    let overhead = activity_label().len() + activity_footer().len();
    let sl = trim(summary).len() as int;
    let al = trim(activity).len() as int;
    if sl + al + overhead <= priority {
        (sl, al)
    } else {
        let sb = if sl < priority / 2 {
            sl
        } else {
            priority / 2
        };
        (sb, sat_sub(priority, sb + overhead))
    }
}

/// The activity section around a (budgeted) activity payload; empty when the
/// payload is empty.
pub open spec fn activity_section(payload: Seq<char>) -> Seq<char> {
    if payload.len() == 0 {
        Seq::empty()
    } else {
        activity_label() + payload + activity_footer()
    }
}

/// The evidence context: the activity section and the OCR section, separated
/// by a blank line when both are present.
pub open spec fn combine_sections(activity: Seq<char>, ocr: Seq<char>) -> Seq<char> {
    if activity.len() == 0 {
        ocr
    } else if ocr.len() == 0 {
        activity
    } else {
        activity + "\n\n"@ + ocr
    }
}

/// The budgeted Work Item text and evidence context for a prompt: the Work
/// Item text and activity are kept first (see `priority_split`), and the OCR
/// section gets what remains of the budget.
pub open spec fn budgeted_inputs(
    ctx_size: u32,
    max_tokens: u32,
    summary: Seq<char>,
    activity: Seq<char>,
    ocr: Seq<char>,
    template: Seq<char>,
) -> (Seq<char>, Seq<char>) {
    let budget = content_budget(ctx_size, max_tokens, template);
    let (sb, ab) = priority_split(budget, summary, activity);
    let bs = truncated(summary, sb);
    let remaining = sat_sub(budget, bs.len() as int);
    let section = activity_section(truncated(activity, ab));
    let sep_budget = if section.len() == 0 {
        0int
    } else {
        2
    };
    let ocr_budget = sat_sub(sat_sub(remaining, section.len() as int), sep_budget);
    let ocr_sec = ocr_section(ocr, ocr_budget, summary + "\n"@ + activity);
    (bs, combine_sections(section, ocr_sec))
}

/// The budgeted Work Item text and the evidence context together never exceed
/// the content budget of the model context.
pub proof fn lemma_budgeted_inputs_within_budget(
    ctx_size: u32,
    max_tokens: u32,
    summary: Seq<char>,
    activity: Seq<char>,
    ocr: Seq<char>,
    template: Seq<char>,
)
    requires
        ocr.len() < usize::MAX,
    ensures
        ({
            let (bs, context) = budgeted_inputs(ctx_size, max_tokens, summary, activity, ocr, template);
            bs.len() + context.len() <= content_budget(ctx_size, max_tokens, template)
        }),
{
    lemma_chunk_count(ocr);
    lemma_inputs_len(ctx_size, max_tokens, summary, activity, ocr, template);
}

/// The Work Item text and the activities are kept before the OCR evidence.
/// With `priority` three quarters of the content budget: the budgeted Work
/// Item text is never longer than the trimmed text, is the whole trimmed
/// text when it and the activity section fit `priority` together, and
/// otherwise takes at most half of `priority`, so that a non-blank activity
/// whose section fits the other half opens the context whole.
pub proof fn lemma_priority_inputs_kept(
    ctx_size: u32,
    max_tokens: u32,
    summary: Seq<char>,
    activity: Seq<char>,
    ocr: Seq<char>,
    template: Seq<char>,
)
    ensures
        ({
            let (bs, context) = budgeted_inputs(ctx_size, max_tokens, summary, activity, ocr, template);
            let priority = content_budget(ctx_size, max_tokens, template) * 3 / 4;
            let sl = trim(summary).len() as int;
            let al = trim(activity).len() as int;
            let overhead = activity_label().len() + activity_footer().len();
            let section = activity_label() + trim(activity) + activity_footer();
            &&& bs.len() <= sl
            &&& sl + al + overhead <= priority ==> bs == trim(summary)
            &&& sl + al + overhead > priority ==> bs.len() <= priority / 2
            &&& al > 0 && (sl + al + overhead <= priority || al + overhead <= priority - priority / 2)
                ==> context.len() >= section.len() && context.take(section.len() as int) == section
        }),
{
    let budget = content_budget(ctx_size, max_tokens, template);
    let priority = budget * 3 / 4;
    let (sb, ab) = priority_split(budget, summary, activity);
    let sl = trim(summary).len() as int;
    let al = trim(activity).len() as int;
    assert(budget >= 0);
    assert(priority >= 0);
    assert(0 <= sb <= sl);
    lemma_truncated_len(summary, sb);
    lemma_truncated_len(activity, ab);
    if sb < sl {
        assert(truncated(summary, sb).len() <= sb);
    }
    let overhead = activity_label().len() + activity_footer().len();
    if al > 0 && (sl + al + overhead <= priority || al + overhead <= priority - priority / 2) {
        assert(ab >= al);
        assert(truncated(activity, ab) == trim(activity));
        let section = activity_label() + trim(activity) + activity_footer();
        let (bs, context) = budgeted_inputs(ctx_size, max_tokens, summary, activity, ocr, template);
        assert(activity_section(truncated(activity, ab)) == section);
        assert(context.take(section.len() as int) =~= section);
    }
}

proof fn lemma_inputs_len(
    ctx_size: u32,
    max_tokens: u32,
    summary: Seq<char>,
    activity: Seq<char>,
    ocr: Seq<char>,
    template: Seq<char>,
)
    requires
        ocr_chunks_of(ocr).len() <= usize::MAX,
    ensures
        ({
            let (bs, context) = budgeted_inputs(ctx_size, max_tokens, summary, activity, ocr, template);
            bs.len() + context.len() <= content_budget(ctx_size, max_tokens, template)
        }),
{
    reveal_strlit("[활동 기록(process_name + window_title) 시작]\n");
    reveal_strlit("\n[활동 기록 끝]");
    reveal_strlit("\n\n");
    let budget = content_budget(ctx_size, max_tokens, template);
    let (sb, ab) = priority_split(budget, summary, activity);
    lemma_truncated_len(summary, sb);
    lemma_truncated_len(activity, ab);
    let bs = truncated(summary, sb);
    let remaining = sat_sub(budget, bs.len() as int);
    let section = activity_section(truncated(activity, ab));
    let sep_budget = if section.len() == 0 {
        0int
    } else {
        2
    };
    let ocr_budget = sat_sub(sat_sub(remaining, section.len() as int), sep_budget);
    assert(budget <= 0xffff_ffff);
    lemma_section_len(ocr, ocr_budget, summary + "\n"@ + activity);
    if ab == 0 {
        assert(truncated(activity, ab).len() == 0);
    }
}

fn priority_split_exec(budget: usize, summary_len: usize, activity_len: usize, overhead: usize) -> (res: (
    usize,
    usize,
))
    requires
        budget <= 0xffff_ffff,
    ensures
        ({
            let priority = budget * 3 / 4;
            if summary_len + activity_len + overhead <= priority {
                res == (summary_len, activity_len)
            } else {
                let sb = if summary_len < priority / 2 {
                    summary_len as int
                } else {
                    priority / 2
                };
                res.0 == sb && res.1 == sat_sub(priority, sb + overhead)
            }
        }),
{
    let priority: usize = ((budget as u64) * 3 / 4) as usize;
    if summary_len <= priority && activity_len <= priority - summary_len && overhead <= priority
        - summary_len - activity_len {
        (summary_len, activity_len)
    } else {
        let sb = if summary_len < priority / 2 { summary_len } else { priority / 2 };
        let ab = if priority > sb && overhead < priority - sb { priority - sb - overhead } else { 0 };
        (sb, ab)
    }
}

fn budgeted_inputs_chars(
    ctx_size: u32,
    max_tokens: u32,
    summary: &[char],
    activity: &[char],
    ocr: &[char],
    template: &str,
) -> (res: (Vec<char>, Vec<char>))
    ensures
        (res.0@, res.1@) == budgeted_inputs(ctx_size, max_tokens, summary@, activity@, ocr@, template@),
        ocr_chunks_of(ocr@).len() <= usize::MAX,
{
    proof {
        reveal_strlit("[활동 기록(process_name + window_title) 시작]\n");
        reveal_strlit("\n[활동 기록 끝]");
        reveal_strlit("\n\n");
        reveal_strlit("\n");
    }
    let budget = worklog_content_budget_with_template(ctx_size, max_tokens, template);
    let label = to_chars("[활동 기록(process_name + window_title) 시작]\n");
    let footer = to_chars("\n[활동 기록 끝]");
    let overhead = label.len() + footer.len();
    let summary_len = trim_chars(summary).len();
    let activity_len = trim_chars(activity).len();
    let (sb, ab) = priority_split_exec(budget, summary_len, activity_len, overhead);
    let bs = truncate_chars(summary, sb);
    let remaining: usize = if budget > bs.len() { budget - bs.len() } else { 0 };
    let payload = truncate_chars(activity, ab);
    let mut section: Vec<char> = Vec::new();
    if payload.len() > 0 {
        section = label;
        push_all(&mut section, &payload);
        push_all(&mut section, &footer);
    }
    let sep_budget: usize = if section.len() == 0 { 0 } else { 2 };
    let after_section: usize = if remaining > section.len() { remaining - section.len() } else { 0 };
    let ocr_budget: usize = if after_section > sep_budget { after_section - sep_budget } else { 0 };
    let mut rel: Vec<char> = Vec::new();
    push_all(&mut rel, summary);
    push_all(&mut rel, &to_chars("\n"));
    push_all(&mut rel, activity);
    let ocr_sec = build_budgeted_ocr_section_chars(ocr, ocr_budget, &rel);
    let context = if section.len() == 0 {
        ocr_sec
    } else if ocr_sec.len() == 0 {
        section
    } else {
        let mut c = section;
        push_all(&mut c, &to_chars("\n\n"));
        push_all(&mut c, &ocr_sec);
        c
    };
    (bs, context)
}

/// The budgeted Work Item text and evidence context (see `budgeted_inputs`);
/// together they never exceed the content budget.
pub fn build_budgeted_inputs_with_template(
    ctx_size: u32,
    max_tokens: u32,
    summary: &str,
    activity_text: &str,
    ocr_text: &str,
    template: &str,
) -> (res: (String, String))
    ensures
        (res.0@, res.1@) == budgeted_inputs(
            ctx_size,
            max_tokens,
            summary@,
            activity_text@,
            ocr_text@,
            template@,
        ),
        res.0@.len() + res.1@.len() <= content_budget(ctx_size, max_tokens, template@),
{
    let ocr = to_chars(ocr_text);
    let (bs, context) = budgeted_inputs_chars(
        ctx_size,
        max_tokens,
        &to_chars(summary),
        &to_chars(activity_text),
        &ocr,
        template,
    );
    proof {
        lemma_inputs_len(ctx_size, max_tokens, summary@, activity_text@, ocr_text@, template@);
    }
    (chars_to_string(bs.as_slice()), chars_to_string(context.as_slice()))
}

/// The budgeted inputs without a template.
pub fn build_budgeted_inputs(
    ctx_size: u32,
    max_tokens: u32,
    summary: &str,
    activity_text: &str,
    ocr_text: &str,
) -> (res: (String, String))
    ensures
        (res.0@, res.1@) == budgeted_inputs(
            ctx_size,
            max_tokens,
            summary@,
            activity_text@,
            ocr_text@,
            ""@,
        ),
        res.0@.len() + res.1@.len() <= content_budget(ctx_size, max_tokens, ""@),
{
    build_budgeted_inputs_with_template(ctx_size, max_tokens, summary, activity_text, ocr_text, "")
}

// -------------------------------------------------------------------- prompt

/// The user message of a Work Log description request.
pub open spec fn user_prompt(
    date: Seq<char>,
    start_ms: i64,
    end_ms: i64,
    summary: Seq<char>,
    context: Seq<char>,
) -> Seq<char> {
    "날짜: "@ + date + "\n시간범위: "@ + epoch_ms_hm(start_ms) + " ~ "@ + epoch_ms_hm(end_ms)
        + "\nWork Item 컨텍스트 (프론트엔드에서 summary/background/info/objective/output을 합친 값):\n"@
        + summary + "\n\n아래 근거를 종합해 설명을 작성하라.\n"@ + context
}

/// The system and user messages of a Work Log description request.
pub fn build_description_prompt_with_template(
    date: &str,
    start_ms: i64,
    end_ms: i64,
    summary: &str,
    context_text: &str,
    template: &str,
) -> (res: (String, String))
    ensures
        res.0@ == system_prompt(template@),
        res.1@ == user_prompt(date@, start_ms, end_ms, summary@, context_text@),
{
    let system = description_system_prompt_with_template(template);
    let start_hm = epoch_ms_to_hm(start_ms);
    let end_hm = epoch_ms_to_hm(end_ms);
    let mut user = String::from_str("날짜: ");
    user.append(date);
    user.append("\n시간범위: ");
    user.append(start_hm.as_str());
    user.append(" ~ ");
    user.append(end_hm.as_str());
    user.append("\nWork Item 컨텍스트 (프론트엔드에서 summary/background/info/objective/output을 합친 값):\n");
    user.append(summary);
    user.append("\n\n아래 근거를 종합해 설명을 작성하라.\n");
    user.append(context_text);
    (system, user)
}

/// The system and user messages without a template.
pub fn build_description_prompt(
    date: &str,
    start_ms: i64,
    end_ms: i64,
    summary: &str,
    context_text: &str,
) -> (res: (String, String))
    ensures
        res.0@ == system_prompt(""@),
        res.1@ == user_prompt(date@, start_ms, end_ms, summary@, context_text@),
{
    build_description_prompt_with_template(date, start_ms, end_ms, summary, context_text, "")
}

/// The message when a time range has neither OCR text nor activity.
pub open spec fn no_evidence_message() -> Seq<char> {
    " 해당 시간대에 스크린샷 OCR 텍스트 또는 활동 기록이 없습니다."@
}

/// The prompts for describing the work in a time range from its evidence: an
/// error when both the OCR evidence and the activity text are blank,
/// otherwise the system and user messages built from the budgeted inputs.
pub open spec fn work_description_prompts(
    date: Seq<char>,
    start_ms: i64,
    end_ms: i64,
    summary: Seq<char>,
    activity: Seq<char>,
    ocr: Seq<char>,
    ctx_size: u32,
    max_tokens: u32,
    template: Seq<char>,
) -> Result<(Seq<char>, Seq<char>), Seq<char>> {
    if trim(ocr).len() == 0 && trim(activity).len() == 0 {
        Err(no_evidence_message())
    } else {
        let (bs, context) = budgeted_inputs(ctx_size, max_tokens, summary, activity, ocr, template);
        Ok((system_prompt(template), user_prompt(date, start_ms, end_ms, bs, context)))
    }
}

/// A description request carries the budgeted inputs: it is refused exactly
/// when there is neither OCR evidence nor an activity, and otherwise its
/// system message is the configured system prompt and its user message holds
/// the budgeted Work Item text and evidence context, which together stay
/// within the content budget, the Work Item text no longer than its trimmed
/// original.
pub proof fn lemma_request_is_budgeted(
    date: Seq<char>,
    start_ms: i64,
    end_ms: i64,
    summary: Seq<char>,
    activity: Seq<char>,
    ocr: Seq<char>,
    ctx_size: u32,
    max_tokens: u32,
    template: Seq<char>,
)
    requires
        ocr.len() < usize::MAX,
    ensures
        ({
            let (bs, context) = budgeted_inputs(ctx_size, max_tokens, summary, activity, ocr, template);
            match work_description_prompts(
                date,
                start_ms,
                end_ms,
                summary,
                activity,
                ocr,
                ctx_size,
                max_tokens,
                template,
            ) {
                Ok((system, user)) => {
                    &&& trim(ocr).len() > 0 || trim(activity).len() > 0
                    &&& system == system_prompt(template)
                    &&& user == user_prompt(date, start_ms, end_ms, bs, context)
                    &&& bs.len() + context.len() <= content_budget(ctx_size, max_tokens, template)
                    &&& bs.len() <= trim(summary).len()
                },
                Err(e) => trim(ocr).len() == 0 && trim(activity).len() == 0 && e == no_evidence_message(),
            }
        }),
{
    lemma_budgeted_inputs_within_budget(ctx_size, max_tokens, summary, activity, ocr, template);
    lemma_priority_inputs_kept(ctx_size, max_tokens, summary, activity, ocr, template);
}

/// Builds the Work Log description request for a time range from its OCR
/// evidence and activity text (see `work_description_prompts`).
pub fn prepare_work_description(
    date: &str,
    start_ms: i64,
    end_ms: i64,
    summary: &str,
    activity_text: &str,
    ocr_text: &str,
    ctx_size: u32,
    max_tokens: u32,
    template: &str,
) -> (res: Result<(String, String), String>)
    ensures
        match res {
            Ok((system, user)) => work_description_prompts(
                date@,
                start_ms,
                end_ms,
                summary@,
                activity_text@,
                ocr_text@,
                ctx_size,
                max_tokens,
                template@,
            ) == Ok::<(Seq<char>, Seq<char>), Seq<char>>((system@, user@)),
            Err(e) => work_description_prompts(
                date@,
                start_ms,
                end_ms,
                summary@,
                activity_text@,
                ocr_text@,
                ctx_size,
                max_tokens,
                template@,
            ) == Err::<(Seq<char>, Seq<char>), Seq<char>>(e@),
        },
{
    let ocr_blank = trim_chars(&to_chars(ocr_text)).len() == 0;
    let activity_blank = trim_chars(&to_chars(activity_text)).len() == 0;
    if ocr_blank && activity_blank {
        return Err(String::from_str(" 해당 시간대에 스크린샷 OCR 텍스트 또는 활동 기록이 없습니다."));
    }
    let (bs, context) = build_budgeted_inputs_with_template(
        ctx_size,
        max_tokens,
        summary,
        activity_text,
        ocr_text,
        template,
    );
    let prompts = build_description_prompt_with_template(
        date,
        start_ms,
        end_ms,
        bs.as_str(),
        context.as_str(),
        template,
    );
    Ok(prompts)
}

// ------------------------------------------------------------ model files

/// The summary model files to load: the main model must exist; a projection
/// is used only when its name is not blank, and then it must exist too. The
/// names, candidate paths and whether each path exists are given.
pub open spec fn summary_model_paths(
    main_name: Seq<char>,
    main_path: Seq<char>,
    main_exists: bool,
    mmproj_name: Seq<char>,
    mmproj_path: Seq<char>,
    mmproj_exists: bool,
) -> Result<(Seq<char>, Option<Seq<char>>), Seq<char>> {
    if !main_exists {
        Err("Summary 모델 파일을 찾을 수 없습니다: "@ + main_name + "（가능한 경로: "@ + main_path + "）"@)
    } else if trim(mmproj_name).len() == 0 {
        Ok((main_path, None))
    } else if !mmproj_exists {
        Err(
            "Summary vision projection 파일을 찾을 수 없습니다: "@ + mmproj_name + "（가능한 경로: "@
                + mmproj_path + "）"@,
        )
    } else {
        Ok((main_path, Some(mmproj_path)))
    }
}

fn missing_file_message(prefix: &str, name: &str, path: &str) -> (res: String)
    ensures
        res@ == prefix@ + name@ + "（가능한 경로: "@ + path@ + "）"@,
{
    let mut out = to_chars(prefix);
    push_all(&mut out, &to_chars(name));
    push_all(&mut out, &to_chars("（가능한 경로: "));
    push_all(&mut out, &to_chars(path));
    push_all(&mut out, &to_chars("）"));
    chars_to_string(&out)
}

/// Decides which summary model files to load (see `summary_model_paths`).
pub fn resolve_summary_model_paths(
    main_name: &str,
    main_path: &str,
    main_exists: bool,
    mmproj_name: &str,
    mmproj_path: &str,
    mmproj_exists: bool,
) -> (res: Result<(String, Option<String>), String>)
    ensures
        match res {
            Ok((main, mmproj)) => summary_model_paths(
                main_name@,
                main_path@,
                main_exists,
                mmproj_name@,
                mmproj_path@,
                mmproj_exists,
            ) == Ok::<(Seq<char>, Option<Seq<char>>), Seq<char>>(
                (
                    main@,
                    match mmproj {
                        Some(p) => Some(p@),
                        None => None,
                    },
                ),
            ),
            Err(e) => summary_model_paths(
                main_name@,
                main_path@,
                main_exists,
                mmproj_name@,
                mmproj_path@,
                mmproj_exists,
            ) == Err::<(Seq<char>, Option<Seq<char>>), Seq<char>>(e@),
        },
{
    if !main_exists {
        return Err(missing_file_message("Summary 모델 파일을 찾을 수 없습니다: ", main_name, main_path));
    }
    if trim_chars(&to_chars(mmproj_name)).len() == 0 {
        return Ok((String::from_str(main_path), None));
    }
    if !mmproj_exists {
        return Err(
            missing_file_message(
                "Summary vision projection 파일을 찾을 수 없습니다: ",
                mmproj_name,
                mmproj_path,
            ),
        );
    }
    Ok((String::from_str(main_path), Some(String::from_str(mmproj_path))))
}

} // verus!
