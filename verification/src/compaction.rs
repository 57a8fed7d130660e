//! Compaction of sealed OCR sessions into short summaries by the local model:
//! the prompt, the context-budget check, the summary ledger's transitions and
//! the decisions of a background pass.
use vstd::prelude::*;
use crate::text::{chars_eq, chars_to_string, push_all, take_prefix, take_spec, to_chars, trim, trim_chars};

verus! {

/// At most this many sessions are compacted in one pass.
pub const BATCH_SIZE: usize = 4;

/// A session whose summary failed this many times is not tried again.
pub const MAX_RETRIES: i64 = 3;

/// An error kept in the ledger holds at most this many characters.
pub const MAX_ERROR_CHARS: usize = 500;

// ------------------------------------------------------------------ prompt

/// A sealed OCR session waiting for its summary.
#[derive(Debug, Clone)]
pub struct SessionCandidate {
    pub guid: String,
    pub local_date: String,
    pub started_ts: String,
    pub ended_ts: String,
    pub app_id: Option<String>,
    pub title: Option<String>,
    pub text: String,
}

/// An optional text, empty when absent.
pub open spec fn or_empty(o: Option<String>) -> Seq<char> {
    match o {
        Some(s) => s@,
        None => Seq::empty(),
    }
}

/// The instructions for the summary model.
pub open spec fn compaction_system_text() -> Seq<char> {
    "당신은 OCR 작업 기록을 압축하는 도우미다. OCR과 창 제목에 실제로 나타난 근거만 사용해 구체적이고 사실적인 한국어 작업 요약을 1~2문장으로 작성하라. 파일명, 이슈 키, 프로젝트명은 입력 그대로 유지하라. 근거가 부족하면 작업을 단정하지 말고 검토 또는 관련 작업으로 표현하라. 시간 나열, 원문 복사, Markdown, 추측을 금지한다."@
}

/// The instructions for the summary model.
pub fn compaction_system_prompt() -> (res: String)
    ensures
        res@ == compaction_system_text(),
{
    String::from_str(
        "당신은 OCR 작업 기록을 압축하는 도우미다. OCR과 창 제목에 실제로 나타난 근거만 사용해 구체적이고 사실적인 한국어 작업 요약을 1~2문장으로 작성하라. 파일명, 이슈 키, 프로젝트명은 입력 그대로 유지하라. 근거가 부족하면 작업을 단정하지 말고 검토 또는 관련 작업으로 표현하라. 시간 나열, 원문 복사, Markdown, 추측을 금지한다.",
    )
}

/// The user message for a session: its date, time span, app, window title
/// and OCR text, each on its own labelled line.
pub open spec fn compaction_prompt_text(source: SessionCandidate) -> Seq<char> {
    "날짜: "@ + source.local_date@ + "\n시간: "@ + source.started_ts@ + " ~ "@ + source.ended_ts@
        + "\n앱: "@ + or_empty(source.app_id) + "\n창 제목: "@ + or_empty(source.title) + "\nOCR:\n"@
        + source.text@
}

fn optional_chars(o: &Option<String>) -> (res: Vec<char>)
    ensures
        res@ == or_empty(*o),
{
    match o {
        Some(s) => to_chars(s.as_str()),
        None => Vec::new(),
    }
}

/// The user message for a session (see `compaction_prompt_text`).
pub fn compaction_prompt(source: &SessionCandidate) -> (res: String)
    ensures
        res@ == compaction_prompt_text(*source),
{
    let mut out = to_chars("날짜: ");
    push_all(&mut out, &to_chars(source.local_date.as_str()));
    push_all(&mut out, &to_chars("\n시간: "));
    push_all(&mut out, &to_chars(source.started_ts.as_str()));
    push_all(&mut out, &to_chars(" ~ "));
    push_all(&mut out, &to_chars(source.ended_ts.as_str()));
    push_all(&mut out, &to_chars("\n앱: "));
    push_all(&mut out, &optional_chars(&source.app_id));
    push_all(&mut out, &to_chars("\n창 제목: "));
    push_all(&mut out, &optional_chars(&source.title));
    push_all(&mut out, &to_chars("\nOCR:\n"));
    push_all(&mut out, &to_chars(source.text.as_str()));
    chars_to_string(&out)
}

/// Whether a prompt of `input_tokens` plus an answer of up to
/// `output_tokens` fits a context of `ctx_size` tokens; the sum is taken
/// saturating at `u32::MAX`.
pub open spec fn fits_context(input_tokens: u32, output_tokens: u32, ctx_size: u32) -> bool {
    (if input_tokens + output_tokens > u32::MAX {
        u32::MAX as int
    } else {
        input_tokens + output_tokens
    }) <= ctx_size
}

/// Whether the prompt and the longest answer fit the model's context.
pub fn input_fits_context(input_tokens: u32, output_tokens: u32, ctx_size: u32) -> (res: bool)
    ensures
        res == fits_context(input_tokens, output_tokens, ctx_size),
        res && ctx_size < u32::MAX ==> input_tokens + output_tokens <= ctx_size,
{
    input_tokens.saturating_add(output_tokens) <= ctx_size
}

/// An error message cut to the first `MAX_ERROR_CHARS` characters.
pub fn bounded_error(error: &str) -> (res: String)
    ensures
        res@ == take_spec(error@, MAX_ERROR_CHARS as int),
        res@.len() <= MAX_ERROR_CHARS,
{
    let chars = to_chars(error);
    let head = take_prefix(&chars, MAX_ERROR_CHARS);
    chars_to_string(&head)
}

// ------------------------------------------------------------------ ledger

/// The state of a session's entry in the summary ledger.
#[derive(Debug, Clone, Copy, PartialEq, Eq)]
pub enum LedgerStatus {
    /// The model failed or answered nothing.
    Error,
    /// The prompt does not fit the model's context.
    NeedsSplit,
    /// The pass stopped before an answer; nothing counts against the session.
    Deferred,
    /// The summary replaced the raw session.
    Success,
}

/// The status as the ledger stores it.
pub open spec fn status_text(status: LedgerStatus) -> Seq<char> {
    match status {
        LedgerStatus::Error => "error"@,
        LedgerStatus::NeedsSplit => "needs_split"@,
        LedgerStatus::Deferred => "deferred"@,
        LedgerStatus::Success => "success"@,
    }
}

impl LedgerStatus {
    /// The status as the ledger stores it.
    pub fn text(&self) -> (res: String)
        ensures
            res@ == status_text(*self),
    {
        match self {
            LedgerStatus::Error => String::from_str("error"),
            LedgerStatus::NeedsSplit => String::from_str("needs_split"),
            LedgerStatus::Deferred => String::from_str("deferred"),
            LedgerStatus::Success => String::from_str("success"),
        }
    }

    /// The status stored as `text`, if it is one of the four.
    pub fn from_text(text: &str) -> (res: Option<LedgerStatus>)
        ensures
            match res {
                Some(s) => status_text(s) == text@,
                None => forall|s: LedgerStatus| status_text(s) != text@,
            },
    {
        let t = to_chars(text);
        if chars_eq(&t, &to_chars("error")) {
            Some(LedgerStatus::Error)
        } else if chars_eq(&t, &to_chars("needs_split")) {
            Some(LedgerStatus::NeedsSplit)
        } else if chars_eq(&t, &to_chars("deferred")) {
            Some(LedgerStatus::Deferred)
        } else if chars_eq(&t, &to_chars("success")) {
            Some(LedgerStatus::Success)
        } else {
            None
        }
    }
}

/// What the ledger says of a session: its status and how many failures count
/// against it.
#[derive(Debug, Clone, Copy, PartialEq, Eq)]
pub struct LedgerRow {
    pub status: LedgerStatus,
    pub attempts: i64,
}

/// The entry after a failure: a first failure counts one; a later one adds
/// one, never past `MAX_RETRIES`.
pub open spec fn after_failure(existing: Option<LedgerRow>) -> LedgerRow {
    LedgerRow {
        status: LedgerStatus::Error,
        attempts: match existing {
            None => 1,
            Some(r) => if r.attempts + 1 < MAX_RETRIES {
                (r.attempts + 1) as i64
            } else {
                MAX_RETRIES
            },
        },
    }
}

/// The entry after a prompt that does not fit: no failure is counted.
pub open spec fn after_needs_split(existing: Option<LedgerRow>) -> LedgerRow {
    LedgerRow {
        status: LedgerStatus::NeedsSplit,
        attempts: match existing {
            None => 0,
            Some(r) => r.attempts,
        },
    }
}

/// The entry after a deferral: no failure is counted.
pub open spec fn after_deferral(existing: Option<LedgerRow>) -> LedgerRow {
    LedgerRow {
        status: LedgerStatus::Deferred,
        attempts: match existing {
            None => 0,
            Some(r) => r.attempts,
        },
    }
}

/// Whether a session with this ledger entry is picked up by a pass: it has
/// none, or one that neither succeeded, needs splitting, nor used up its
/// retries.
pub open spec fn retry_candidate(existing: Option<LedgerRow>) -> bool {
    match existing {
        None => true,
        Some(r) => r.status != LedgerStatus::Success && r.status != LedgerStatus::NeedsSplit
            && r.attempts < MAX_RETRIES,
    }
}

/// The positions below `n` of the sessions whose ledger entries let a pass
/// pick them up, in order.
pub open spec fn retry_positions(entries: Seq<Option<LedgerRow>>, n: int) -> Seq<int>
    decreases n,
{
    if n <= 0 {
        Seq::empty()
    } else if retry_candidate(entries[n - 1]) {
        retry_positions(entries, n - 1).push(n - 1)
    } else {
        retry_positions(entries, n - 1)
    }
}

/// The sessions a pass takes, as positions in the given order of sessions:
/// the first `BATCH_SIZE` of those whose ledger entries let them be retried.
pub open spec fn batch_positions(entries: Seq<Option<LedgerRow>>) -> Seq<int> {
    let all = retry_positions(entries, entries.len() as int);
    if all.len() <= BATCH_SIZE {
        all
    } else {
        all.take(BATCH_SIZE as int)
    }
}

/// Picks the sessions of a pass (see `batch_positions`) given the ledger
/// entries of the sealed sessions in the order the pass takes them.
pub fn select_batch(entries: &Vec<Option<LedgerRow>>) -> (res: Vec<usize>)
    ensures
        res@.map_values(|i: usize| i as int) == batch_positions(entries@),
        res@.len() <= BATCH_SIZE,
{
    let mut out: Vec<usize> = Vec::new();
    let mut i: usize = 0;
    while i < entries.len() && out.len() < BATCH_SIZE
        invariant
            i <= entries@.len(),
            out@.map_values(|k: usize| k as int) == retry_positions(entries@, i as int),
            out@.len() <= BATCH_SIZE,
        decreases entries.len() - i,
    {
        if is_retry_candidate(entries[i]) {
            let ghost before = out@;
            out.push(i);
            proof {
                assert(out@.map_values(|k: usize| k as int) =~= before.map_values(|k: usize| k as int).push(
                    i as int,
                ));
            }
        }
        i = i + 1;
    }
    proof {
        lemma_retry_tail(entries@, i as int);
    }
    out
}

/// Positions from `i` on only extend what was found before them.
proof fn lemma_retry_prefix(entries: Seq<Option<LedgerRow>>, i: int, n: int)
    requires
        0 <= i <= n,
    ensures
        retry_positions(entries, n).len() >= retry_positions(entries, i).len(),
        retry_positions(entries, n).take(retry_positions(entries, i).len() as int) == retry_positions(
            entries,
            i,
        ),
    decreases n - i,
{
    if n > i {
        lemma_retry_prefix(entries, i, n - 1);
        let a = retry_positions(entries, n - 1);
        let b = retry_positions(entries, i);
        if retry_candidate(entries[n - 1]) {
            assert(a.push(n - 1).take(b.len() as int) =~= a.take(b.len() as int));
        }
    } else {
        assert(retry_positions(entries, n).take(retry_positions(entries, n).len() as int) =~= retry_positions(
            entries,
            n,
        ));
    }
}

/// When the scan stops, the positions found so far are the batch.
proof fn lemma_retry_tail(entries: Seq<Option<LedgerRow>>, i: int)
    requires
        0 <= i <= entries.len(),
        i == entries.len() || retry_positions(entries, i).len() >= BATCH_SIZE,
        retry_positions(entries, i).len() <= BATCH_SIZE,
    ensures
        retry_positions(entries, i) == batch_positions(entries),
{
    lemma_retry_prefix(entries, i, entries.len() as int);
    let all = retry_positions(entries, entries.len() as int);
    let found = retry_positions(entries, i);
    if i < entries.len() {
        assert(found.len() == BATCH_SIZE);
        if all.len() <= BATCH_SIZE {
            assert(all.take(found.len() as int) =~= all);
        }
    }
}

/// The entry to write after a failed summary.
pub fn failure_row(existing: Option<LedgerRow>) -> (res: LedgerRow)
    ensures
        res == after_failure(existing),
        res.attempts <= MAX_RETRIES,
{
    let attempts = match existing {
        None => 1,
        Some(r) => if r.attempts < MAX_RETRIES - 1 {
            r.attempts + 1
        } else {
            MAX_RETRIES
        },
    };
    LedgerRow { status: LedgerStatus::Error, attempts }
}

/// The entry to write for a session whose prompt does not fit.
pub fn needs_split_row(existing: Option<LedgerRow>) -> (res: LedgerRow)
    ensures
        res == after_needs_split(existing),
{
    let attempts = match existing {
        None => 0,
        Some(r) => r.attempts,
    };
    LedgerRow { status: LedgerStatus::NeedsSplit, attempts }
}

/// The entry to write for a deferred session.
pub fn deferred_row(existing: Option<LedgerRow>) -> (res: LedgerRow)
    ensures
        res == after_deferral(existing),
{
    let attempts = match existing {
        None => 0,
        Some(r) => r.attempts,
    };
    LedgerRow { status: LedgerStatus::Deferred, attempts }
}

/// The entry to write when the summary replaced the session.
pub fn success_row() -> (res: LedgerRow)
    ensures
        res == (LedgerRow { status: LedgerStatus::Success, attempts: 0 }),
{
    LedgerRow { status: LedgerStatus::Success, attempts: 0 }
}

/// Whether a pass picks up a session with this ledger entry.
pub fn is_retry_candidate(existing: Option<LedgerRow>) -> (res: bool)
    ensures
        res == retry_candidate(existing),
{
    match existing {
        None => true,
        Some(r) => match r.status {
            LedgerStatus::Success => false,
            LedgerStatus::NeedsSplit => false,
            _ => r.attempts < MAX_RETRIES,
        },
    }
}

/// The entry after `n` failures in a row, starting from `existing`.
pub open spec fn after_failures(existing: Option<LedgerRow>, n: nat) -> LedgerRow
    decreases n,
{
    if n <= 1 {
        after_failure(existing)
    } else {
        after_failure(Some(after_failures(existing, (n - 1) as nat)))
    }
}

/// A session that failed `MAX_RETRIES` times in a row, from no entry or from
/// an entry that counts no failures, is not tried again, and its count of
/// failures stays at `MAX_RETRIES` however often it fails after that.
pub proof fn lemma_failures_exhaust_retries(existing: Option<LedgerRow>, n: nat)
    requires
        n >= MAX_RETRIES,
        existing matches Some(r) ==> 0 <= r.attempts,
    ensures
        after_failures(existing, n).attempts == MAX_RETRIES,
        !retry_candidate(Some(after_failures(existing, n))),
    decreases n,
{
    if n > MAX_RETRIES {
        lemma_failures_exhaust_retries(existing, (n - 1) as nat);
    } else {
        reveal_with_fuel(after_failures, 3);
    }
}

/// Each failure counts at most one more attempt, and never more than
/// `MAX_RETRIES` in all.
pub proof fn lemma_failure_counts_once(existing: Option<LedgerRow>)
    ensures
        after_failure(existing).attempts <= MAX_RETRIES,
        existing matches Some(r) ==> after_failure(existing).attempts <= r.attempts + 1,
        existing is None ==> after_failure(existing).attempts == 1,
{
}

/// A deferral or a prompt that does not fit never counts a failure: the
/// number of attempts an entry holds is kept.
pub proof fn lemma_no_retry_spent(existing: LedgerRow)
    ensures
        after_deferral(Some(existing)).attempts == existing.attempts,
        after_needs_split(Some(existing)).attempts == existing.attempts,
        after_deferral(None).attempts == 0,
        after_needs_split(None).attempts == 0,
{
}

/// A deferred session is picked up again exactly when it had retries left
/// and had not succeeded or needed splitting; a session that needs splitting
/// or succeeded is never picked up again.
pub proof fn lemma_candidacy_after_transitions(existing: Option<LedgerRow>)
    ensures
        retry_candidate(Some(after_deferral(existing))) <==> match existing {
            None => true,
            Some(r) => r.attempts < MAX_RETRIES,
        },
        !retry_candidate(Some(after_needs_split(existing))),
        !retry_candidate(Some(LedgerRow { status: LedgerStatus::Success, attempts: 0 })),
{
}

// ------------------------------------------------------------------ commit

/// How committing a summary ended.
#[derive(Debug, Clone, Copy, PartialEq, Eq)]
pub enum CommitResult {
    /// The summary was stored and the raw session removed.
    Committed,
    /// The session is gone and its summary was stored before.
    AlreadyDone,
    /// The session changed or vanished since it was read; nothing was stored.
    Stale,
    /// The ledger was busy; nothing was stored.
    Deferred,
}

/// The summary to store: the answer trimmed, or none when nothing is left
/// (an invalid-input error).
pub fn commit_summary(summary: &str) -> (res: Option<String>)
    ensures
        match res {
            Some(s) => s@ == trim(summary@) && s@.len() > 0,
            None => trim(summary@).len() == 0,
        },
{
    let t = trim_chars(&to_chars(summary));
    if t.len() == 0 {
        None
    } else {
        Some(chars_to_string(&t))
    }
}

/// What the checks before a commit decide, given how many unchanged copies of
/// the session exist and how many successful ledger entries it has; `None`
/// means the commit goes ahead.
pub open spec fn precheck(source_count: i64, done_count: i64) -> Option<CommitResult> {
    if source_count == 0 && done_count > 0 {
        Some(CommitResult::AlreadyDone)
    } else if source_count == 0 {
        Some(CommitResult::Stale)
    } else {
        None
    }
}

/// Decides, before anything is written, whether a commit stops early.
pub fn commit_precheck(source_count: i64, done_count: i64) -> (res: Option<CommitResult>)
    ensures
        res == precheck(source_count, done_count),
{
    if source_count == 0 && done_count > 0 {
        Some(CommitResult::AlreadyDone)
    } else if source_count == 0 {
        Some(CommitResult::Stale)
    } else {
        None
    }
}

/// The result of a commit that deleted `deleted` raw sessions: exactly one
/// commits; anything else rolls back as stale.
pub open spec fn outcome(deleted: int) -> CommitResult {
    if deleted == 1 {
        CommitResult::Committed
    } else {
        CommitResult::Stale
    }
}

/// Decides how a commit that deleted `deleted` raw sessions ends.
pub fn commit_outcome(deleted: usize) -> (res: CommitResult)
    ensures
        res == outcome(deleted as int),
{
    if deleted == 1 {
        CommitResult::Committed
    } else {
        CommitResult::Stale
    }
}

/// One commit of a session's summary as the decisions above drive it, on
/// what the memory database holds of the session: how many unchanged copies
/// of the raw session exist and how many successful ledger entries it has.
/// The commit stops early as `precheck` says; otherwise it deletes every
/// unchanged copy and keeps the work (one raw session fewer, one successful
/// entry, as the ledger holds one entry per session) only when exactly one
/// was deleted, and rolls everything back otherwise. The result is the
/// counts afterwards and how the commit ended.
pub open spec fn commit_effect(source_count: int, done_count: int) -> (int, int, CommitResult) {
    match precheck(source_count as i64, done_count as i64) {
        Some(r) => (source_count, done_count, r),
        None => if outcome(source_count) == CommitResult::Committed {
            (0, 1, CommitResult::Committed)
        } else {
            (source_count, done_count, CommitResult::Stale)
        },
    }
}

/// Committing the same summary twice is harmless: the second commit finds
/// the session already done and changes nothing, and a commit that does not
/// go through changes nothing either.
pub proof fn lemma_commit_idempotent(source_count: i64, done_count: i64)
    requires
        0 <= source_count,
        0 <= done_count,
    ensures
        ({
            let (s1, d1, r1) = commit_effect(source_count as int, done_count as int);
            let (s2, d2, r2) = commit_effect(s1, d1);
            &&& s2 == s1 && d2 == d1
            &&& r1 == CommitResult::Committed ==> r2 == CommitResult::AlreadyDone
            &&& r1 != CommitResult::Committed ==> s1 == source_count && d1 == done_count
        }),
{
}

// -------------------------------------------------------------------- pass

/// What a compaction pass waits for. `ctx` is the context size of the engine
/// the pass holds.
#[derive(Debug, Clone, PartialEq, Eq)]
pub enum PassState {
    /// The candidates are being loaded.
    Loading,
    /// The settings are being read.
    Configuring,
    /// The summary engine is being acquired.
    Starting,
    /// The next candidate is being taken.
    Ready { ctx: u32 },
    /// The engine lease is checked before a client is built.
    LeaseForClient { ctx: u32 },
    /// The client is being built.
    Building { ctx: u32 },
    /// The prompt's tokens are being counted by a client that answers with up
    /// to `max_tokens` tokens.
    Counting { ctx: u32, max_tokens: u32 },
    /// The lease is checked before the model is asked.
    LeaseForChat { ctx: u32 },
    /// The model is answering.
    Chatting { ctx: u32 },
    /// The lease is checked before the summary is committed.
    LeaseForCommit { ctx: u32, summary: String },
    /// The ledger is being written; then the pass ends (`stop`) or goes on.
    Recording { ctx: u32, stop: bool },
    /// The pass is over.
    Finished,
}

/// What the outside work of a pass reports back.
#[derive(Debug, Clone, PartialEq, Eq)]
pub enum PassEvent {
    CandidatesLoaded { count: usize },
    SettingsLoaded { cloud: bool },
    EngineReady { ctx: u32 },
    EngineUnavailable,
    CandidateTaken { present: bool },
    LeaseValid,
    LeaseLost { error: String },
    ClientBuilt { max_tokens: u32 },
    ClientFailed { error: String },
    TokensCounted { tokens: u32 },
    TokenCountFailed { error: String },
    Answered { summary: String },
    ChatFailed { error: String },
    Written,
}

/// The outside work a pass asks for next, for the current candidate where
/// there is one.
#[derive(Debug, Clone, PartialEq, Eq)]
pub enum PassAction {
    ReadSettings,
    AcquireEngine,
    TakeCandidate,
    ValidateLease,
    BuildClient,
    CountTokens,
    Chat,
    RecordDeferred { error: String },
    RecordNeedsSplit,
    RecordFailure { error: String },
    Commit { summary: String },
    Finish,
}

/// The failure recorded for an answer with nothing in it.
pub open spec fn empty_answer_error() -> Seq<char> {
    "로컬 summary 응답이 비어 있습니다"@
}

/// Whether `next` and `action` are the next state and action of a pass in
/// `state` on `event` (strings compared by their characters). A pass with no
/// candidates, a cloud summary model or no engine ends at once; each
/// candidate then goes through a lease check, a client, a token count, a
/// lease check, the model and a last lease check before its summary is
/// committed. A lost lease or client defers the candidate and ends the pass;
/// a failed token count defers it and goes on; a prompt that does not fit is
/// marked for splitting; an empty or failed answer counts as a failure. An
/// event the state does not wait for ends the pass.
pub open spec fn pass_transition(state: PassState, event: PassEvent, next: PassState, action: PassAction) -> bool {
    match (state, event) {
        (PassState::Loading, PassEvent::CandidatesLoaded { count }) => if count == 0 {
            next == PassState::Finished && action == PassAction::Finish
        } else {
            next == PassState::Configuring && action == PassAction::ReadSettings
        },
        (PassState::Configuring, PassEvent::SettingsLoaded { cloud }) => if cloud {
            next == PassState::Finished && action == PassAction::Finish
        } else {
            next == PassState::Starting && action == PassAction::AcquireEngine
        },
        (PassState::Starting, PassEvent::EngineReady { ctx }) => next == (PassState::Ready { ctx })
            && action == PassAction::TakeCandidate,
        (PassState::Ready { ctx }, PassEvent::CandidateTaken { present }) => if present {
            next == (PassState::LeaseForClient { ctx }) && action == PassAction::ValidateLease
        } else {
            next == PassState::Finished && action == PassAction::Finish
        },
        (PassState::LeaseForClient { ctx }, PassEvent::LeaseValid) => next == (PassState::Building { ctx })
            && action == PassAction::BuildClient,
        (PassState::Building { ctx }, PassEvent::ClientBuilt { max_tokens }) => next == (
        PassState::Counting { ctx, max_tokens }) && action == PassAction::CountTokens,
        (PassState::Building { ctx }, PassEvent::ClientFailed { error }) => next == (
        PassState::Recording { ctx, stop: true }) && action == (PassAction::RecordDeferred { error }),
        (PassState::Counting { ctx, max_tokens }, PassEvent::TokensCounted { tokens }) => if fits_context(
            tokens,
            max_tokens,
            ctx,
        ) {
            next == (PassState::LeaseForChat { ctx }) && action == PassAction::ValidateLease
        } else {
            next == (PassState::Recording { ctx, stop: false }) && action == PassAction::RecordNeedsSplit
        },
        (PassState::Counting { ctx, .. }, PassEvent::TokenCountFailed { error }) => next == (
        PassState::Recording { ctx, stop: false }) && action == (PassAction::RecordDeferred { error }),
        (PassState::LeaseForChat { ctx }, PassEvent::LeaseValid) => next == (PassState::Chatting { ctx })
            && action == PassAction::Chat,
        (PassState::Chatting { ctx }, PassEvent::Answered { summary }) => if trim(summary@).len() > 0 {
            &&& next matches PassState::LeaseForCommit { ctx: c, summary: kept }
            &&& c == ctx
            &&& kept@ == trim(summary@)
            &&& action == PassAction::ValidateLease
        } else {
            &&& next == (PassState::Recording { ctx, stop: false })
            &&& action matches PassAction::RecordFailure { error }
            &&& error@ == empty_answer_error()
        },
        (PassState::Chatting { ctx }, PassEvent::ChatFailed { error }) => next == (PassState::Recording {
            ctx,
            stop: false,
        }) && action == (PassAction::RecordFailure { error }),
        (PassState::LeaseForCommit { ctx, summary }, PassEvent::LeaseValid) => next == (
        PassState::Recording { ctx, stop: false }) && action == (PassAction::Commit { summary }),
        (PassState::LeaseForClient { ctx }, PassEvent::LeaseLost { error }) => next == (
        PassState::Recording { ctx, stop: true }) && action == (PassAction::RecordDeferred { error }),
        (PassState::LeaseForChat { ctx }, PassEvent::LeaseLost { error }) => next == (
        PassState::Recording { ctx, stop: true }) && action == (PassAction::RecordDeferred { error }),
        (PassState::LeaseForCommit { ctx, .. }, PassEvent::LeaseLost { error }) => next == (
        PassState::Recording { ctx, stop: true }) && action == (PassAction::RecordDeferred { error }),
        (PassState::Recording { ctx, stop }, PassEvent::Written) => if stop {
            next == PassState::Finished && action == PassAction::Finish
        } else {
            next == (PassState::Ready { ctx }) && action == PassAction::TakeCandidate
        },
        _ => next == PassState::Finished && action == PassAction::Finish,
    }
}

/// How a candidate's trouble is recorded. A model that fails or answers
/// nothing counts a failure against the session, and the pass goes on; a
/// failed token count only defers the session (no failure counted), and the
/// pass goes on; a lost lease or client defers the session and ends the
/// pass; a prompt that does not fit marks the session for splitting, and the
/// pass goes on.
pub proof fn lemma_pass_records(
    ctx: u32,
    max_tokens: u32,
    tokens: u32,
    error: String,
    answer: String,
    summary: String,
    next: PassState,
    action: PassAction,
)
    ensures
        pass_transition(PassState::Chatting { ctx }, PassEvent::ChatFailed { error }, next, action) ==> {
            &&& action == (PassAction::RecordFailure { error })
            &&& next == (PassState::Recording { ctx, stop: false })
        },
        pass_transition(PassState::Chatting { ctx }, PassEvent::Answered { summary: answer }, next, action)
            && trim(answer@).len() == 0 ==> {
            &&& action matches PassAction::RecordFailure { error: e }
            &&& e@ == empty_answer_error()
            &&& next == (PassState::Recording { ctx, stop: false })
        },
        pass_transition(
            PassState::Counting { ctx, max_tokens },
            PassEvent::TokenCountFailed { error },
            next,
            action,
        ) ==> {
            &&& action == (PassAction::RecordDeferred { error })
            &&& next == (PassState::Recording { ctx, stop: false })
        },
        pass_transition(
            PassState::Counting { ctx, max_tokens },
            PassEvent::TokensCounted { tokens },
            next,
            action,
        ) && (tokens as int) + (max_tokens as int) > ctx && ctx < u32::MAX ==> {
            &&& action == PassAction::RecordNeedsSplit
            &&& next == (PassState::Recording { ctx, stop: false })
        },
        pass_transition(PassState::LeaseForClient { ctx }, PassEvent::LeaseLost { error }, next, action)
            ==> action == (PassAction::RecordDeferred { error }) && next == (PassState::Recording {
            ctx,
            stop: true,
        }),
        pass_transition(PassState::LeaseForChat { ctx }, PassEvent::LeaseLost { error }, next, action)
            ==> action == (PassAction::RecordDeferred { error }) && next == (PassState::Recording {
            ctx,
            stop: true,
        }),
        pass_transition(
            PassState::LeaseForCommit { ctx, summary },
            PassEvent::LeaseLost { error },
            next,
            action,
        ) ==> action == (PassAction::RecordDeferred { error }) && next == (PassState::Recording {
            ctx,
            stop: true,
        }),
        pass_transition(PassState::Building { ctx }, PassEvent::ClientFailed { error }, next, action)
            ==> action == (PassAction::RecordDeferred { error }) && next == (PassState::Recording {
            ctx,
            stop: true,
        }),
        pass_transition(PassState::Recording { ctx, stop: false }, PassEvent::Written, next, action)
            ==> action == PassAction::TakeCandidate && next == (PassState::Ready { ctx }),
        pass_transition(PassState::Recording { ctx, stop: true }, PassEvent::Written, next, action)
            ==> action == PassAction::Finish && next == PassState::Finished,
{
}

/// A pass moves a candidate forward while nothing goes wrong: with sessions
/// waiting it reads the settings, with a local model it acquires the engine,
/// then takes a candidate, checks the lease, builds a client, counts the
/// prompt, checks the lease again when the prompt fits, asks the model, checks
/// the lease once more for a non-blank answer, and commits that answer
/// trimmed; without sessions or without a further candidate it finishes.
pub proof fn lemma_pass_progress(
    ctx: u32,
    max_tokens: u32,
    tokens: u32,
    count: usize,
    answer: String,
    summary: String,
    next: PassState,
    action: PassAction,
)
    ensures
        pass_transition(PassState::Loading, PassEvent::CandidatesLoaded { count }, next, action) ==> (if count
            == 0 {
            action == PassAction::Finish && next == PassState::Finished
        } else {
            action == PassAction::ReadSettings && next == PassState::Configuring
        }),
        pass_transition(PassState::Configuring, PassEvent::SettingsLoaded { cloud: false }, next, action)
            ==> action == PassAction::AcquireEngine && next == PassState::Starting,
        pass_transition(PassState::Starting, PassEvent::EngineReady { ctx }, next, action) ==> action
            == PassAction::TakeCandidate && next == (PassState::Ready { ctx }),
        pass_transition(PassState::Starting, PassEvent::EngineUnavailable, next, action) ==> action
            == PassAction::Finish,
        pass_transition(PassState::Ready { ctx }, PassEvent::CandidateTaken { present: true }, next, action)
            ==> action == PassAction::ValidateLease && next == (PassState::LeaseForClient { ctx }),
        pass_transition(PassState::Ready { ctx }, PassEvent::CandidateTaken { present: false }, next, action)
            ==> action == PassAction::Finish && next == PassState::Finished,
        pass_transition(PassState::LeaseForClient { ctx }, PassEvent::LeaseValid, next, action) ==> action
            == PassAction::BuildClient && next == (PassState::Building { ctx }),
        pass_transition(PassState::Building { ctx }, PassEvent::ClientBuilt { max_tokens }, next, action)
            ==> action == PassAction::CountTokens && next == (PassState::Counting { ctx, max_tokens }),
        pass_transition(
            PassState::Counting { ctx, max_tokens },
            PassEvent::TokensCounted { tokens },
            next,
            action,
        ) && (tokens as int) + (max_tokens as int) <= ctx ==> action == PassAction::ValidateLease && next == (
        PassState::LeaseForChat { ctx }),
        pass_transition(PassState::LeaseForChat { ctx }, PassEvent::LeaseValid, next, action) ==> action
            == PassAction::Chat && next == (PassState::Chatting { ctx }),
        pass_transition(PassState::Chatting { ctx }, PassEvent::Answered { summary: answer }, next, action)
            && trim(answer@).len() > 0 ==> {
            &&& action == PassAction::ValidateLease
            &&& next matches PassState::LeaseForCommit { ctx: c, summary: kept }
            &&& c == ctx
            &&& kept@ == trim(answer@)
        },
        pass_transition(PassState::LeaseForCommit { ctx, summary }, PassEvent::LeaseValid, next, action)
            ==> action == (PassAction::Commit { summary }) && next == (PassState::Recording {
            ctx,
            stop: false,
        }),
{
}

/// A failed model answer spends one of the session's retries: the failure
/// that the pass records moves the ledger entry to an error with one more
/// attempt (up to `MAX_RETRIES`), so a session whose model call always fails
/// stops being picked up.
pub proof fn lemma_failed_answer_spends_retry(
    ctx: u32,
    error: String,
    next: PassState,
    action: PassAction,
    existing: Option<LedgerRow>,
)
    requires
        pass_transition(PassState::Chatting { ctx }, PassEvent::ChatFailed { error }, next, action),
        existing matches Some(r) ==> 0 <= r.attempts < MAX_RETRIES,
    ensures
        action is RecordFailure,
        after_failure(existing).status == LedgerStatus::Error,
        after_failure(existing).attempts == match existing {
            None => 1,
            Some(r) => r.attempts + 1,
        },
{
}

/// Takes one step of a compaction pass (see `pass_transition`). A summary is
/// committed only right after a lease check that found the engine still
/// held, and only when it is the trimmed, non-empty answer of the model; the
/// model is asked only about a prompt that fits the engine's context.
pub fn pass_step(state: PassState, event: PassEvent) -> (res: (PassState, PassAction))
    ensures
        pass_transition(state, event, res.0, res.1),
        res.1 matches PassAction::Commit { summary } ==> {
            &&& state matches PassState::LeaseForCommit { summary: kept, .. }
            &&& kept == summary
            &&& event == PassEvent::LeaseValid
        },
        res.0 matches PassState::LeaseForCommit { summary, .. } ==> {
            &&& event matches PassEvent::Answered { summary: answer }
            &&& summary@ == trim(answer@)
            &&& summary@.len() > 0
        },
        res.1 == PassAction::Chat ==> {
            &&& state matches PassState::LeaseForChat { .. }
            &&& event == PassEvent::LeaseValid
        },
        res.0 matches PassState::LeaseForChat { ctx } ==> {
            &&& state matches PassState::Counting { ctx: c, max_tokens }
            &&& c == ctx
            &&& event matches PassEvent::TokensCounted { tokens }
            &&& fits_context(tokens, max_tokens, ctx)
        },
        event == (PassEvent::SettingsLoaded { cloud: true }) ==> res.1 == PassAction::Finish,
{
    match (state, event) {
        (PassState::Loading, PassEvent::CandidatesLoaded { count }) => if count == 0 {
            (PassState::Finished, PassAction::Finish)
        } else {
            (PassState::Configuring, PassAction::ReadSettings)
        },
        (PassState::Configuring, PassEvent::SettingsLoaded { cloud }) => if cloud {
            (PassState::Finished, PassAction::Finish)
        } else {
            (PassState::Starting, PassAction::AcquireEngine)
        },
        (PassState::Starting, PassEvent::EngineReady { ctx }) => (
            PassState::Ready { ctx },
            PassAction::TakeCandidate,
        ),
        (PassState::Ready { ctx }, PassEvent::CandidateTaken { present }) => if present {
            (PassState::LeaseForClient { ctx }, PassAction::ValidateLease)
        } else {
            (PassState::Finished, PassAction::Finish)
        },
        (PassState::LeaseForClient { ctx }, PassEvent::LeaseValid) => (
            PassState::Building { ctx },
            PassAction::BuildClient,
        ),
        (PassState::Building { ctx }, PassEvent::ClientBuilt { max_tokens }) => (
            PassState::Counting { ctx, max_tokens },
            PassAction::CountTokens,
        ),
        (PassState::Building { ctx }, PassEvent::ClientFailed { error }) => (
            PassState::Recording { ctx, stop: true },
            PassAction::RecordDeferred { error },
        ),
        (PassState::Counting { ctx, max_tokens }, PassEvent::TokensCounted { tokens }) => {
            if input_fits_context(tokens, max_tokens, ctx) {
                (PassState::LeaseForChat { ctx }, PassAction::ValidateLease)
            } else {
                (PassState::Recording { ctx, stop: false }, PassAction::RecordNeedsSplit)
            }
        },
        (PassState::Counting { ctx, .. }, PassEvent::TokenCountFailed { error }) => (
            PassState::Recording { ctx, stop: false },
            PassAction::RecordDeferred { error },
        ),
        (PassState::LeaseForChat { ctx }, PassEvent::LeaseValid) => (
            PassState::Chatting { ctx },
            PassAction::Chat,
        ),
        (PassState::Chatting { ctx }, PassEvent::Answered { summary }) => {
            match commit_summary(summary.as_str()) {
                Some(kept) => (PassState::LeaseForCommit { ctx, summary: kept }, PassAction::ValidateLease),
                None => (
                    PassState::Recording { ctx, stop: false },
                    PassAction::RecordFailure {
                        error: String::from_str("로컬 summary 응답이 비어 있습니다"),
                    },
                ),
            }
        },
        (PassState::Chatting { ctx }, PassEvent::ChatFailed { error }) => (
            PassState::Recording { ctx, stop: false },
            PassAction::RecordFailure { error },
        ),
        (PassState::LeaseForCommit { ctx, summary }, PassEvent::LeaseValid) => (
            PassState::Recording { ctx, stop: false },
            PassAction::Commit { summary },
        ),
        (PassState::LeaseForClient { ctx }, PassEvent::LeaseLost { error }) => (
            PassState::Recording { ctx, stop: true },
            PassAction::RecordDeferred { error },
        ),
        (PassState::LeaseForChat { ctx }, PassEvent::LeaseLost { error }) => (
            PassState::Recording { ctx, stop: true },
            PassAction::RecordDeferred { error },
        ),
        (PassState::LeaseForCommit { ctx, .. }, PassEvent::LeaseLost { error }) => (
            PassState::Recording { ctx, stop: true },
            PassAction::RecordDeferred { error },
        ),
        (PassState::Recording { ctx, stop }, PassEvent::Written) => if stop {
            (PassState::Finished, PassAction::Finish)
        } else {
            (PassState::Ready { ctx }, PassAction::TakeCandidate)
        },
        _ => (PassState::Finished, PassAction::Finish),
    }
}

// ------------------------------------------------------------ model files

/// The summary model files a pass may load, or the message of the
/// missing-model error: the main model must be a file; a projection is used
/// only when its name is not blank, and then it must be a file too.
pub open spec fn summary_model_files(
    main_name: Seq<char>,
    main_path: Seq<char>,
    main_is_file: bool,
    mmproj_name: Seq<char>,
    mmproj_path: Seq<char>,
    mmproj_is_file: bool,
) -> Result<(Seq<char>, Option<Seq<char>>), Seq<char>> {
    if !main_is_file {
        Err(main_name + "（可能被删除或路径变了）"@)
    } else if trim(mmproj_name).len() == 0 {
        Ok((main_path, None))
    } else if !mmproj_is_file {
        Err("vision 投影 "@ + mmproj_name)
    } else {
        Ok((main_path, Some(mmproj_path)))
    }
}

/// Decides which summary model files a pass loads (see
/// `summary_model_files`); an error is the message of a missing model file.
pub fn resolve_summary_model_paths(
    main_name: &str,
    main_path: &str,
    main_is_file: bool,
    mmproj_name: &str,
    mmproj_path: &str,
    mmproj_is_file: bool,
) -> (res: Result<(String, Option<String>), String>)
    ensures
        match res {
            Ok((main, mmproj)) => summary_model_files(
                main_name@,
                main_path@,
                main_is_file,
                mmproj_name@,
                mmproj_path@,
                mmproj_is_file,
            ) == Ok::<(Seq<char>, Option<Seq<char>>), Seq<char>>(
                (
                    main@,
                    match mmproj {
                        Some(p) => Some(p@),
                        None => None,
                    },
                ),
            ),
            Err(e) => summary_model_files(
                main_name@,
                main_path@,
                main_is_file,
                mmproj_name@,
                mmproj_path@,
                mmproj_is_file,
            ) == Err::<(Seq<char>, Option<Seq<char>>), Seq<char>>(e@),
        },
{
    if !main_is_file {
        let mut out = to_chars(main_name);
        push_all(&mut out, &to_chars("（可能被删除或路径变了）"));
        return Err(chars_to_string(&out));
    }
    if trim_chars(&to_chars(mmproj_name)).len() == 0 {
        return Ok((String::from_str(main_path), None));
    }
    if !mmproj_is_file {
        let mut out = to_chars("vision 投影 ");
        push_all(&mut out, &to_chars(mmproj_name));
        return Err(chars_to_string(&out));
    }
    Ok((String::from_str(main_path), Some(String::from_str(mmproj_path))))
}

} // verus!
