//! The evidence texts of a Work Log description: the OCR entries of a time
//! span (compacted summaries or raw sessions) and the distinct activities.
use vstd::prelude::*;
use crate::text::{chars_eq, chars_to_string, join, join_chars, push_all, to_chars, trim, trim_chars, views};

verus! {

// -------------------------------------------------------------- activities

/// What identifies an activity: its trimmed process name and window title
/// around a `|`.
pub open spec fn activity_key(process: Seq<char>, title: Seq<char>) -> Seq<char> {
    trim(process) + seq!['|'] + trim(title)
}

/// The line for an activity: process and title joined by ` — `, or whichever
/// of the two is not empty.
pub open spec fn activity_line(process: Seq<char>, title: Seq<char>) -> Seq<char> {
    let p = trim(process);
    let t = trim(title);
    if t.len() > 0 && p.len() > 0 {
        p + " — "@ + t
    } else if t.len() > 0 {
        t
    } else {
        p
    }
}

/// An activity with neither a process name nor a window title.
pub open spec fn is_blank(process: Seq<char>, title: Seq<char>) -> bool {
    trim(process).len() == 0 && trim(title).len() == 0
}

/// The pairs of a list of activity rows, taken by their characters.
pub open spec fn row_views(rows: Seq<(String, String)>) -> Seq<(Seq<char>, Seq<char>)> {
    rows.map_values(|r: (String, String)| (r.0@, r.1@))
}

/// Whether an activity before position `i` has the same key as the one at `i`.
pub open spec fn seen_before(rows: Seq<(Seq<char>, Seq<char>)>, i: int) -> bool {
    exists|j: int| 0 <= j < i && activity_key(rows[j].0, rows[j].1) == activity_key(rows[i].0, rows[i].1)
}

/// The lines of the first `n` activities: blank ones and repeats of an
/// earlier key left out.
pub open spec fn activity_lines_upto(rows: Seq<(Seq<char>, Seq<char>)>, n: int) -> Seq<Seq<char>>
    decreases n,
{
    if n <= 0 {
        Seq::empty()
    } else {
        let rest = activity_lines_upto(rows, n - 1);
        let i = n - 1;
        if is_blank(rows[i].0, rows[i].1) || seen_before(rows, i) {
            rest
        } else {
            rest.push(activity_line(rows[i].0, rows[i].1))
        }
    }
}

/// The activity section text: one line per distinct activity, in order.
pub open spec fn activity_text(rows: Seq<(Seq<char>, Seq<char>)>) -> Seq<char> {
    join(activity_lines_upto(rows, rows.len() as int), seq!['\n'])
}

/// The rows that give lines among the first `n`, in order.
spec fn line_rows(rows: Seq<(Seq<char>, Seq<char>)>, n: int) -> Seq<int>
    decreases n,
{
    if n <= 0 {
        Seq::empty()
    } else {
        let i = n - 1;
        if is_blank(rows[i].0, rows[i].1) || seen_before(rows, i) {
            line_rows(rows, n - 1)
        } else {
            line_rows(rows, n - 1).push(i)
        }
    }
}

/// The key of row `i`.
spec fn key_at(rows: Seq<(Seq<char>, Seq<char>)>, i: int) -> Seq<char> {
    activity_key(rows[i].0, rows[i].1)
}

proof fn lemma_line_rows(rows: Seq<(Seq<char>, Seq<char>)>, n: int)
    requires
        0 <= n <= rows.len(),
    ensures
        ({
            let idx = line_rows(rows, n);
            let lines = activity_lines_upto(rows, n);
            &&& idx.len() == lines.len()
            &&& forall|p: int, q: int| 0 <= p < q < idx.len() ==> #[trigger] idx[p] < #[trigger] idx[q]
            &&& forall|k: int|
                0 <= k < idx.len() ==> {
                    &&& 0 <= #[trigger] idx[k] < n
                    &&& lines[k] == activity_line(rows[idx[k]].0, rows[idx[k]].1)
                    &&& !is_blank(rows[idx[k]].0, rows[idx[k]].1)
                    &&& forall|j: int| 0 <= j < idx[k] ==> #[trigger] key_at(rows, j) != key_at(rows, idx[k])
                }
            &&& forall|i: int|
                0 <= i < n && !is_blank(rows[i].0, rows[i].1) ==> exists|k: int|
                    0 <= k < idx.len() && idx[k] <= i && #[trigger] key_at(rows, idx[k]) == key_at(rows, i)
        }),
    decreases n,
{
    if n > 0 {
        lemma_line_rows(rows, n - 1);
        let i = n - 1;
        let prev = line_rows(rows, n - 1);
        let idx = line_rows(rows, n);
        if !(is_blank(rows[i].0, rows[i].1) || seen_before(rows, i)) {
            assert forall|k: int| 0 <= k < idx.len() implies #[trigger] idx[k] == (if k < prev.len() {
                prev[k]
            } else {
                i
            }) by {}
            assert forall|j: int| 0 <= j < i implies key_at(rows, j) != key_at(rows, i) by {
                if key_at(rows, j) == key_at(rows, i) {
                    assert(seen_before(rows, i));
                }
            }
            assert forall|x: int| 0 <= x < n && !is_blank(rows[x].0, rows[x].1) implies exists|k: int|
                0 <= k < idx.len() && idx[k] <= x && #[trigger] key_at(rows, idx[k]) == key_at(rows, x) by {
                if x < i {
                    let k = choose|k: int|
                        0 <= k < prev.len() && prev[k] <= x && #[trigger] key_at(rows, prev[k]) == key_at(
                            rows,
                            x,
                        );
                    assert(idx[k] == prev[k]);
                } else {
                    assert(idx[prev.len() as int] == i);
                }
            }
        } else {
            if !is_blank(rows[i].0, rows[i].1) {
                let j = choose|j: int| 0 <= j < i && activity_key(rows[j].0, rows[j].1) == activity_key(
                    rows[i].0,
                    rows[i].1,
                );
                assert(key_at(rows, j) == key_at(rows, i));
                // a row with a key is not blank, so an earlier line carries it
                assert(!is_blank(rows[j].0, rows[j].1)) by {
                    if is_blank(rows[j].0, rows[j].1) {
                        crate::text::lemma_trim_len(rows[i].0);
                        assert(key_at(rows, j).len() == 1);
                        assert(key_at(rows, i).len() == trim(rows[i].0).len() + 1 + trim(rows[i].1).len());
                    }
                }
                let k = choose|k: int|
                    0 <= k < prev.len() && prev[k] <= j && #[trigger] key_at(rows, prev[k]) == key_at(rows, j);
                assert(key_at(rows, prev[k]) == key_at(rows, i));
            }
        }
    }
}

/// The activity lines come from the rows in order, one per distinct key:
/// each line is the line of a non-blank row whose trimmed (process, title)
/// key occurs in no earlier row, and every non-blank row's key is the key
/// of a line at or before it. So no key gives two lines, whatever rows stand
/// between its occurrences, and no activity is lost.
pub proof fn lemma_activity_lines_distinct(rows: Seq<(Seq<char>, Seq<char>)>)
    ensures
        exists|idx: Seq<int>|
            {
                let lines = activity_lines_upto(rows, rows.len() as int);
                &&& #[trigger] idx.len() == lines.len()
                &&& forall|p: int, q: int| 0 <= p < q < idx.len() ==> #[trigger] idx[p] < #[trigger] idx[q]
                &&& forall|k: int|
                    0 <= k < idx.len() ==> {
                        &&& 0 <= #[trigger] idx[k] < rows.len()
                        &&& lines[k] == activity_line(rows[idx[k]].0, rows[idx[k]].1)
                        &&& !is_blank(rows[idx[k]].0, rows[idx[k]].1)
                        &&& forall|j: int|
                            0 <= j < idx[k] ==> #[trigger] activity_key(rows[j].0, rows[j].1) != activity_key(
                                rows[idx[k]].0,
                                rows[idx[k]].1,
                            )
                    }
                &&& forall|i: int|
                    0 <= i < rows.len() && !is_blank(rows[i].0, rows[i].1) ==> exists|k: int|
                        0 <= k < idx.len() && idx[k] <= i && #[trigger] activity_key(
                            rows[idx[k]].0,
                            rows[idx[k]].1,
                        ) == activity_key(rows[i].0, rows[i].1)
            },
{
    lemma_line_rows(rows, rows.len() as int);
    let idx = line_rows(rows, rows.len() as int);
    assert forall|i: int| 0 <= i < rows.len() && !is_blank(rows[i].0, rows[i].1) implies exists|k: int|
        0 <= k < idx.len() && idx[k] <= i && #[trigger] activity_key(rows[idx[k]].0, rows[idx[k]].1)
            == activity_key(rows[i].0, rows[i].1) by {
        let k = choose|k: int| 0 <= k < idx.len() && idx[k] <= i && #[trigger] key_at(rows, idx[k]) == key_at(rows, i);
        assert(key_at(rows, idx[k]) == activity_key(rows[idx[k]].0, rows[idx[k]].1));
    }
    assert forall|k: int| #![trigger idx[k]] 0 <= k < idx.len() implies forall|j: int|
        0 <= j < idx[k] ==> #[trigger] activity_key(rows[j].0, rows[j].1) != activity_key(rows[idx[k]].0, rows[idx[k]].1) by {
        assert forall|j: int| 0 <= j < idx[k] implies #[trigger] activity_key(rows[j].0, rows[j].1) != activity_key(
            rows[idx[k]].0,
            rows[idx[k]].1,
        ) by {
            assert(key_at(rows, j) != key_at(rows, idx[k]));
        }
    }
}

fn contains_key(keys: &Vec<Vec<char>>, key: &[char]) -> (res: bool)
    ensures
        res == exists|m: int| 0 <= m < keys@.len() && keys@[m]@ == key@,
{
    let mut m: usize = 0;
    while m < keys.len()
        invariant
            m <= keys@.len(),
            forall|k: int| 0 <= k < m ==> keys@[k]@ != key@,
        decreases keys.len() - m,
    {
        if chars_eq(&keys[m], key) {
            return true;
        }
        m = m + 1;
    }
    false
}

/// The distinct activities of a time span, given as (process name, window
/// title) rows in time order, one line each.
pub fn activity_lines(rows: &Vec<(String, String)>) -> (res: String)
    ensures
        res@ == activity_text(row_views(rows@)),
{
    let ghost rv = row_views(rows@);
    let mut keys: Vec<Vec<char>> = Vec::new();
    let mut lines: Vec<Vec<char>> = Vec::new();
    let mut i: usize = 0;
    while i < rows.len()
        invariant
            i <= rows@.len(),
            rv == row_views(rows@),
            keys@.len() == i,
            forall|k: int| 0 <= k < i ==> #[trigger] keys@[k]@ == activity_key(rv[k].0, rv[k].1),
            views(lines@) == activity_lines_upto(rv, i as int),
        decreases rows.len() - i,
    {
        let p = trim_chars(&to_chars(rows[i].0.as_str()));
        let t = trim_chars(&to_chars(rows[i].1.as_str()));
        let mut key = p.clone();
        key.push('|');
        push_all(&mut key, &t);
        proof {
            assert(rv[i as int] == (rows@[i as int].0@, rows@[i as int].1@));
            assert(key@ =~= activity_key(rv[i as int].0, rv[i as int].1));
        }
        let repeated = contains_key(&keys, &key);
        proof {
            if repeated {
                let m = choose|m: int| 0 <= m < keys@.len() && keys@[m]@ == key@;
                assert(keys@[m]@ == activity_key(rv[m].0, rv[m].1));
                assert(seen_before(rv, i as int));
            } else {
                assert forall|j: int| 0 <= j < i implies activity_key(rv[j].0, rv[j].1) != activity_key(
                    rv[i as int].0,
                    rv[i as int].1,
                ) by {
                    assert(keys@[j]@ == activity_key(rv[j].0, rv[j].1));
                }
            }
        }
        if !(p.len() == 0 && t.len() == 0) && !repeated {
            let mut line = p.clone();
            if t.len() > 0 && p.len() > 0 {
                push_all(&mut line, &to_chars(" — "));
                push_all(&mut line, &t);
            } else if t.len() > 0 {
                line = t.clone();
            }
            let ghost before = views(lines@);
            lines.push(line);
            proof {
                assert(views(lines@) =~= before.push(activity_line(rv[i as int].0, rv[i as int].1)));
            }
        }
        keys.push(key);
        i = i + 1;
    }
    let newline: [char; 1] = ['\n'];
    proof {
        assert(newline@ =~= seq!['\n']);
    }
    let joined = join_chars(&lines, &newline);
    chars_to_string(&joined)
}

// ------------------------------------------------------------- OCR entries

/// One OCR entry of a time span: a compacted summary or a raw session.
#[derive(Debug, Clone)]
pub struct EvidenceRow {
    pub started_ts: String,
    pub ended_ts: String,
    pub app_id: Option<String>,
    pub title: Option<String>,
    pub text: String,
    pub compacted: bool,
}

/// An optional text, empty when absent.
pub open spec fn or_empty(o: Option<String>) -> Seq<char> {
    match o {
        Some(s) => s@,
        None => Seq::empty(),
    }
}

/// The label that tells a summary from a raw session.
pub open spec fn evidence_label(compacted: bool) -> Seq<char> {
    if compacted {
        "[COMPACTED OCR SUMMARY]"@
    } else {
        "[RAW OCR]"@
    }
}

/// The text of one OCR entry: its label, time span, app, window title and
/// trimmed text, each on a labelled line.
pub open spec fn evidence_entry(row: EvidenceRow) -> Seq<char> {
    evidence_label(row.compacted) + "\n시간: "@ + row.started_ts@ + " ~ "@ + row.ended_ts@ + "\n앱: "@
        + or_empty(row.app_id) + "\n창 제목: "@ + or_empty(row.title) + "\n근거:\n"@ + trim(row.text@)
}

/// The OCR evidence of a time span: its entries in order, separated by a
/// `---` line.
pub open spec fn evidence_text(rows: Seq<EvidenceRow>) -> Seq<char> {
    join(rows.map_values(|r: EvidenceRow| evidence_entry(r)), "\n---\n"@)
}

fn optional_chars(o: &Option<String>) -> (res: Vec<char>)
    ensures
        res@ == or_empty(*o),
{
    match o {
        Some(s) => to_chars(s.as_str()),
        None => Vec::new(),
    }
}

fn evidence_entry_chars(row: &EvidenceRow) -> (res: Vec<char>)
    ensures
        res@ == evidence_entry(*row),
{
    let mut out = if row.compacted {
        to_chars("[COMPACTED OCR SUMMARY]")
    } else {
        to_chars("[RAW OCR]")
    };
    push_all(&mut out, &to_chars("\n시간: "));
    push_all(&mut out, &to_chars(row.started_ts.as_str()));
    push_all(&mut out, &to_chars(" ~ "));
    push_all(&mut out, &to_chars(row.ended_ts.as_str()));
    push_all(&mut out, &to_chars("\n앱: "));
    push_all(&mut out, &optional_chars(&row.app_id));
    push_all(&mut out, &to_chars("\n창 제목: "));
    push_all(&mut out, &optional_chars(&row.title));
    push_all(&mut out, &to_chars("\n근거:\n"));
    push_all(&mut out, &trim_chars(&to_chars(row.text.as_str())));
    out
}

/// The OCR evidence text of a time span (see `evidence_text`).
pub fn ocr_evidence_text(rows: &Vec<EvidenceRow>) -> (res: String)
    ensures
        res@ == evidence_text(rows@),
{
    let mut entries: Vec<Vec<char>> = Vec::new();
    let mut i: usize = 0;
    while i < rows.len()
        invariant
            i <= rows@.len(),
            views(entries@) == rows@.take(i as int).map_values(|r: EvidenceRow| evidence_entry(r)),
        decreases rows.len() - i,
    {
        let ghost before = views(entries@);
        entries.push(evidence_entry_chars(&rows[i]));
        proof {
            assert(views(entries@) =~= before.push(evidence_entry(rows@[i as int])));
            assert(rows@.take(i + 1).map_values(|r: EvidenceRow| evidence_entry(r)) =~= rows@.take(
                i as int,
            ).map_values(|r: EvidenceRow| evidence_entry(r)).push(evidence_entry(rows@[i as int])));
        }
        i = i + 1;
    }
    proof {
        assert(rows@.take(rows@.len() as int) =~= rows@);
    }
    let joined = join_chars(&entries, &to_chars("\n---\n"));
    chars_to_string(&joined)
}

} // verus!
