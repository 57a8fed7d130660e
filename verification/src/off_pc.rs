//! Off-PC activity: the gaps in a device's captured activity that may be
//! recorded as manual work away from the PC, and the checks on such a record.
use vstd::prelude::*;
use crate::clock::{
    format_rfc3339_utc, in_rfc3339_years, instant_le, lemma_key, parse_rfc3339_utc, rfc3339_utc_instant,
    utc_rfc3339_text, utc_span, utc_span_of, Instant,
};
use crate::text::{chars_eq, chars_to_string, to_chars, trim, trim_chars};

verus! {

// ------------------------------------------------------------------ coverage

/// An interval of coverage, start and end inclusive.
pub type Span = (Instant, Instant);

/// The later of two instants.
pub open spec fn later(a: Instant, b: Instant) -> Instant {
    if a.key() >= b.key() {
        a
    } else {
        b
    }
}

/// The earlier of two instants.
pub open spec fn earlier(a: Instant, b: Instant) -> Instant {
    if a.key() <= b.key() {
        a
    } else {
        b
    }
}

/// The instant of a parsed (seconds, nanoseconds) pair.
pub open spec fn instant_of(p: (i64, u32)) -> Instant {
    Instant { secs: p.0, nanos: p.1 }
}

/// One activity row as coverage of the observation window: both timestamps
/// must parse, the start is raised to the window start and the end lowered to
/// the cutoff, and an interval whose start ends up after its end is dropped.
pub open spec fn clamp_row(
    row: (Seq<char>, Seq<char>),
    window_start: Instant,
    cutoff: Instant,
) -> Option<Span> {
    match (rfc3339_utc_instant(row.0), rfc3339_utc_instant(row.1)) {
        (Some(a), Some(b)) => {
            let s = later(instant_of(a), window_start);
            let e = earlier(instant_of(b), cutoff);
            if s.key() <= e.key() {
                Some((s, e))
            } else {
                None
            }
        },
        _ => None,
    }
}

/// The coverage intervals of activity rows, in row order.
pub open spec fn coverage(
    rows: Seq<(Seq<char>, Seq<char>)>,
    window_start: Instant,
    cutoff: Instant,
) -> Seq<Span>
    decreases rows.len(),
{
    if rows.len() == 0 {
        Seq::empty()
    } else {
        let prev = coverage(rows.drop_last(), window_start, cutoff);
        match clamp_row(rows.last(), window_start, cutoff) {
            Some(iv) => prev.push(iv),
            None => prev,
        }
    }
}

/// The views of activity rows.
pub open spec fn row_views(rows: Seq<(String, String)>) -> Seq<(Seq<char>, Seq<char>)> {
    rows.map_values(|r: (String, String)| (r.0@, r.1@))
}

/// Coverage intervals that are well formed and lie inside the window.
pub open spec fn coverage_wf(cov: Seq<Span>, window_start: Instant, cutoff: Instant) -> bool {
    forall|m: int|
        0 <= m < cov.len() ==> {
            let iv = #[trigger] cov[m];
            &&& iv.0.wf()
            &&& iv.1.wf()
            &&& window_start.key() <= iv.0.key() <= iv.1.key() <= cutoff.key()
        }
}

fn later_exec(a: Instant, b: Instant) -> (res: Instant)
    requires
        a.wf(),
        b.wf(),
    ensures
        res == later(a, b),
{
    if instant_le(b, a) {
        a
    } else {
        b
    }
}

fn earlier_exec(a: Instant, b: Instant) -> (res: Instant)
    requires
        a.wf(),
        b.wf(),
    ensures
        res == earlier(a, b),
{
    if instant_le(a, b) {
        a
    } else {
        b
    }
}

/// The coverage intervals of activity rows (see `coverage`).
pub fn coverage_of_rows(rows: &Vec<(String, String)>, window_start: Instant, cutoff: Instant) -> (res:
    Vec<Span>)
    requires
        window_start.wf(),
        cutoff.wf(),
    ensures
        res@ == coverage(row_views(rows@), window_start, cutoff),
        coverage_wf(res@, window_start, cutoff),
{
    let ghost rv = row_views(rows@);
    let mut out: Vec<Span> = Vec::new();
    let mut i: usize = 0;
    while i < rows.len()
        invariant
            i <= rows@.len(),
            window_start.wf(),
            cutoff.wf(),
            rv == row_views(rows@),
            out@ == coverage(rv.take(i as int), window_start, cutoff),
            coverage_wf(out@, window_start, cutoff),
        decreases rows.len() - i,
    {
        proof {
            assert(rv.take(i + 1).drop_last() =~= rv.take(i as int));
            assert(rv.take(i + 1).last() == (rows@[i as int].0@, rows@[i as int].1@));
        }
        let started = parse_rfc3339_utc(rows[i].0.as_str());
        let ended = parse_rfc3339_utc(rows[i].1.as_str());
        match (started, ended) {
            (Some(a), Some(b)) => {
                let s = later_exec(a, window_start);
                let e = earlier_exec(b, cutoff);
                if instant_le(s, e) {
                    out.push((s, e));
                }
            },
            _ => {},
        }
        i = i + 1;
    }
    proof {
        assert(rv.take(rows@.len() as int) =~= rv);
    }
    out
}

// ---------------------------------------------------------------------- gaps

/// Whether a coverage interval meets the open interval between keys `x` and `y`.
pub open spec fn crosses(iv: Span, x: int, y: int) -> bool {
    iv.0.key() < y && iv.1.key() > x
}

/// The right end of a hole: the start of interval `j`, or the cutoff when `j`
/// is the number of intervals.
pub open spec fn hole_end(cov: Seq<Span>, cutoff: Instant, j: int) -> Instant {
    if j == cov.len() {
        cutoff
    } else {
        cov[j].0
    }
}

/// Whether the open interval from the end of interval `k` to `hole_end(j)`
/// is non-empty and met by no coverage interval: a stretch without activity
/// between two observed moments (or between the last one and the cutoff).
pub open spec fn is_hole(cov: Seq<Span>, cutoff: Instant, k: int, j: int) -> bool {
    &&& 0 <= k < cov.len()
    &&& 0 <= j <= cov.len()
    &&& cov[k].1.key() < hole_end(cov, cutoff, j).key()
    &&& forall|m: int|
        0 <= m < cov.len() ==> !crosses(
            #[trigger] cov[m],
            cov[k].1.key(),
            hole_end(cov, cutoff, j).key(),
        )
}

/// The instant's second, rounded up to a whole second.
pub open spec fn ceil_secs(i: Instant) -> int {
    if i.nanos == 0 {
        i.secs as int
    } else {
        i.secs + 1
    }
}

/// A hole narrowed to whole seconds: its start rounded up, its end rounded down.
pub open spec fn hole_secs(cov: Seq<Span>, cutoff: Instant, k: int, j: int) -> (int, int) {
    (ceil_secs(cov[k].1), hole_end(cov, cutoff, j).secs as int)
}

/// Whether `g` (start and end second) is a hole narrowed to whole seconds
/// that still spans at least one second.
pub open spec fn is_gap(cov: Seq<Span>, cutoff: Instant, g: (i64, i64)) -> bool {
    &&& g.0 < g.1
    &&& exists|k: int, j: int|
        is_hole(cov, cutoff, k, j) && #[trigger] hole_secs(cov, cutoff, k, j) == (g.0 as int, g.1 as int)
}

/// Whether `k` is above the last processed end.
pub open spec fn above(last: Option<Instant>, v: Instant) -> bool {
    match last {
        None => true,
        Some(l) => v.key() > l.key(),
    }
}

/// How many intervals end above the last processed end.
pub open spec fn count_above(cov: Seq<Span>, last: Option<Instant>) -> nat
    decreases cov.len(),
{
    if cov.len() == 0 {
        0
    } else {
        count_above(cov.drop_last(), last) + if above(last, cov.last().1) {
            1nat
        } else {
            0
        }
    }
}

proof fn lemma_count_above(cov: Seq<Span>, last: Option<Instant>, x: Instant, k: int)
    requires
        0 <= k < cov.len(),
        cov[k].1 == x,
        above(last, x),
        forall|m: int| 0 <= m < cov.len() ==> (above(Some(x), #[trigger] cov[m].1) ==> above(last, cov[m].1)),
    ensures
        count_above(cov, Some(x)) < count_above(cov, last),
    decreases cov.len(),
{
    lemma_count_above_le(cov.drop_last(), last, x);
    if k < cov.len() - 1 {
        assert forall|m: int| 0 <= m < cov.drop_last().len() implies (above(
            Some(x),
            #[trigger] cov.drop_last()[m].1,
        ) ==> above(last, cov.drop_last()[m].1)) by {
            assert(cov.drop_last()[m] == cov[m]);
        }
        lemma_count_above(cov.drop_last(), last, x, k);
        assert(above(Some(x), cov[cov.len() - 1].1) ==> above(last, cov[cov.len() - 1].1));
    }
}

proof fn lemma_count_above_le(cov: Seq<Span>, last: Option<Instant>, x: Instant)
    requires
        forall|m: int| 0 <= m < cov.len() ==> (above(Some(x), #[trigger] cov[m].1) ==> above(last, cov[m].1)),
    ensures
        count_above(cov, Some(x)) <= count_above(cov, last),
    decreases cov.len(),
{
    if cov.len() > 0 {
        assert forall|m: int| 0 <= m < cov.drop_last().len() implies (above(
            Some(x),
            #[trigger] cov.drop_last()[m].1,
        ) ==> above(last, cov.drop_last()[m].1)) by {
            assert(cov.drop_last()[m] == cov[m]);
        }
        lemma_count_above_le(cov.drop_last(), last, x);
        assert(above(Some(x), cov[cov.len() - 1].1) ==> above(last, cov[cov.len() - 1].1));
    }
}

/// The interval whose end is the earliest end above `last`.
fn earliest_end_above(cov: &Vec<Span>, last: Option<Instant>) -> (res: Option<usize>)
    requires
        forall|m: int| 0 <= m < cov@.len() ==> (#[trigger] cov@[m]).1.wf(),
        last matches Some(l) ==> l.wf(),
    ensures
        res matches Some(k) ==> k < cov@.len() && above(last, cov@[k as int].1) && forall|m: int|
            0 <= m < cov@.len() && above(last, #[trigger] cov@[m].1) ==> cov@[k as int].1.key()
                <= cov@[m].1.key(),
        res is None ==> forall|m: int| 0 <= m < cov@.len() ==> !above(last, #[trigger] cov@[m].1),
{
    let mut best: Option<usize> = None;
    let mut m: usize = 0;
    while m < cov.len()
        invariant
            m <= cov@.len(),
            forall|q: int| 0 <= q < cov@.len() ==> (#[trigger] cov@[q]).1.wf(),
            last matches Some(l) ==> l.wf(),
            best matches Some(k) ==> k < m && above(last, cov@[k as int].1) && forall|q: int|
                0 <= q < m && above(last, #[trigger] cov@[q].1) ==> cov@[k as int].1.key()
                    <= cov@[q].1.key(),
            best is None ==> forall|q: int| 0 <= q < m ==> !above(last, #[trigger] cov@[q].1),
        decreases cov.len() - m,
    {
        let e = cov[m].1;
        let is_above = match last {
            None => true,
            Some(l) => !instant_le(e, l),
        };
        if is_above {
            match best {
                None => {
                    best = Some(m);
                },
                Some(k) => {
                    if !instant_le(cov[k].1, e) {
                        best = Some(m);
                    }
                },
            }
        }
        m = m + 1;
    }
    best
}

/// The interval whose start is the earliest start after `x`.
fn earliest_start_after(cov: &Vec<Span>, x: Instant) -> (res: Option<usize>)
    requires
        forall|m: int| 0 <= m < cov@.len() ==> (#[trigger] cov@[m]).0.wf(),
        x.wf(),
    ensures
        res matches Some(j) ==> j < cov@.len() && cov@[j as int].0.key() > x.key() && forall|m: int|
            0 <= m < cov@.len() && (#[trigger] cov@[m]).0.key() > x.key() ==> cov@[j as int].0.key()
                <= cov@[m].0.key(),
        res is None ==> forall|m: int| 0 <= m < cov@.len() ==> (#[trigger] cov@[m]).0.key() <= x.key(),
{
    let mut best: Option<usize> = None;
    let mut m: usize = 0;
    while m < cov.len()
        invariant
            m <= cov@.len(),
            forall|q: int| 0 <= q < cov@.len() ==> (#[trigger] cov@[q]).0.wf(),
            x.wf(),
            best matches Some(j) ==> j < m && cov@[j as int].0.key() > x.key() && forall|q: int|
                0 <= q < m && (#[trigger] cov@[q]).0.key() > x.key() ==> cov@[j as int].0.key()
                    <= cov@[q].0.key(),
            best is None ==> forall|q: int| 0 <= q < m ==> (#[trigger] cov@[q]).0.key() <= x.key(),
        decreases cov.len() - m,
    {
        let s = cov[m].0;
        if !instant_le(s, x) {
            match best {
                None => {
                    best = Some(m);
                },
                Some(j) => {
                    if !instant_le(cov[j].0, s) {
                        best = Some(m);
                    }
                },
            }
        }
        m = m + 1;
    }
    best
}

/// Whether some interval meets the open interval from `x` to `y`.
fn any_crossing(cov: &Vec<Span>, x: Instant, y: Instant) -> (res: bool)
    requires
        forall|m: int| 0 <= m < cov@.len() ==> (#[trigger] cov@[m]).0.wf() && cov@[m].1.wf(),
        x.wf(),
        y.wf(),
    ensures
        res == exists|m: int| 0 <= m < cov@.len() && crosses(#[trigger] cov@[m], x.key(), y.key()),
{
    let mut m: usize = 0;
    while m < cov.len()
        invariant
            m <= cov@.len(),
            forall|q: int| 0 <= q < cov@.len() ==> (#[trigger] cov@[q]).0.wf() && cov@[q].1.wf(),
            x.wf(),
            y.wf(),
            forall|q: int| 0 <= q < m ==> !crosses(#[trigger] cov@[q], x.key(), y.key()),
        decreases cov.len() - m,
    {
        if !instant_le(y, cov[m].0) && !instant_le(cov[m].1, x) {
            proof {
                assert(crosses(cov@[m as int], x.key(), y.key()));
            }
            return true;
        }
        m = m + 1;
    }
    false
}

/// The invariant of the gap walk.
pub open spec fn gap_walk_inv(cov: Seq<Span>, cutoff: Instant, last: Option<Instant>, res: Seq<(i64, i64)>) -> bool {
    &&& forall|i: int| 0 <= i < res.len() ==> is_gap(cov, cutoff, #[trigger] res[i])
    &&& forall|i: int, h: int| 0 <= i < h < res.len() ==> res[i].1 <= res[h].0
    &&& forall|i: int, m: int|
        0 <= i < res.len() && 0 <= m < cov.len() && above(last, #[trigger] cov[m].1) ==> (#[trigger] res[i]).1
            * 2_000_000_000 <= cov[m].1.key()
    &&& forall|k: int, j: int|
        is_hole(cov, cutoff, k, j) && !above(last, cov[k].1) && #[trigger] hole_secs(cov, cutoff, k, j).0
            < hole_secs(cov, cutoff, k, j).1 ==> res.contains(
            (hole_secs(cov, cutoff, k, j).0 as i64, hole_secs(cov, cutoff, k, j).1 as i64),
        )
}

/// The recordable gaps of coverage `cov` before `cutoff`, as whole seconds:
/// exactly the holes of the coverage (see `is_hole`) that still span a second
/// once narrowed to whole seconds, in increasing order.
pub fn gap_seconds(cov: &Vec<Span>, window_start: Instant, cutoff: Instant) -> (res: Vec<(i64, i64)>)
    requires
        coverage_wf(cov@, window_start, cutoff),
        window_start.wf(),
        cutoff.wf(),
        cutoff.secs < i64::MAX,
    ensures
        forall|i: int| 0 <= i < res@.len() ==> is_gap(cov@, cutoff, #[trigger] res@[i]),
        forall|k: int, j: int|
            is_hole(cov@, cutoff, k, j) && #[trigger] hole_secs(cov@, cutoff, k, j).0 < hole_secs(
                cov@,
                cutoff,
                k,
                j,
            ).1 ==> res@.contains(
                (hole_secs(cov@, cutoff, k, j).0 as i64, hole_secs(cov@, cutoff, k, j).1 as i64),
            ),
        forall|i: int, h: int| 0 <= i < h < res@.len() ==> res@[i].1 <= res@[h].0,
{
    let mut res: Vec<(i64, i64)> = Vec::new();
    let mut last: Option<Instant> = None;
    proof {
        assert forall|k: int, j: int|
            is_hole(cov@, cutoff, k, j) && !above(last, cov@[k].1) && #[trigger] hole_secs(
                cov@,
                cutoff,
                k,
                j,
            ).0 < hole_secs(cov@, cutoff, k, j).1 implies res@.contains(
            (hole_secs(cov@, cutoff, k, j).0 as i64, hole_secs(cov@, cutoff, k, j).1 as i64),
        ) by {}
    }
    loop
        invariant
            coverage_wf(cov@, window_start, cutoff),
            window_start.wf(),
            cutoff.wf(),
            cutoff.secs < i64::MAX,
            last matches Some(l) ==> l.wf(),
            gap_walk_inv(cov@, cutoff, last, res@),
        ensures
            gap_walk_inv(cov@, cutoff, last, res@),
            forall|m: int| 0 <= m < cov@.len() ==> !above(last, #[trigger] cov@[m].1),
        decreases count_above(cov@, last),
    {
        let found = earliest_end_above(cov, last);
        let k = match found {
            None => {
                break ;
            },
            Some(k) => k,
        };
        let x = cov[k].1;
        let next = earliest_start_after(cov, x);
        let jy: usize = match next {
            Some(j) => j,
            None => cov.len(),
        };
        let y = match next {
            Some(j) => cov[j].0,
            None => cutoff,
        };
        proof {
            assert(y == hole_end(cov@, cutoff, jy as int));
            // Every hole whose start is `x` ends at `y`.
            assert forall|k2: int, j2: int|
                is_hole(cov@, cutoff, k2, j2) && cov@[k2].1.key() == x.key() implies hole_end(
                cov@,
                cutoff,
                j2,
            ) == y by {
                let y2 = hole_end(cov@, cutoff, j2);
                lemma_key(cov@[k2].1, x);
                if j2 < cov@.len() {
                    assert(cov@[j2].0.key() > x.key());
                }
                match next {
                    Some(j) => {
                        assert(!crosses(cov@[j as int], x.key(), y2.key()));
                        assert(cov@[j as int].0.key() <= cov@[j as int].1.key());
                    },
                    None => {},
                }
                lemma_key(y, y2);
            }
        }
        let crossing = if instant_le(y, x) { true } else { any_crossing(cov, x, y) };
        let ghost old_res = res@;
        if !crossing {
            let from: i64 = if x.nanos == 0 { x.secs } else { x.secs + 1 };
            let to: i64 = y.secs;
            proof {
                assert(is_hole(cov@, cutoff, k as int, jy as int));
                assert(hole_secs(cov@, cutoff, k as int, jy as int) == (from as int, to as int));
            }
            if from < to {
                proof {
                    assert(is_gap(cov@, cutoff, (from, to)));
                    assert forall|i: int| 0 <= i < old_res.len() implies (#[trigger] old_res[i]).1
                        <= from by {
                        assert(above(last, cov@[k as int].1));
                        assert(old_res[i].1 * 2_000_000_000 <= cov@[k as int].1.key());
                    }
                }
                res.push((from, to));
            }
        }
        proof {
            let new_last = Some(x);
            lemma_count_above(cov@, last, x, k as int);
            let r = res@;
            assert forall|i: int| 0 <= i < r.len() implies is_gap(cov@, cutoff, #[trigger] r[i]) by {
                if i < old_res.len() {
                    assert(r[i] == old_res[i]);
                }
            }
            assert forall|i: int, h: int| 0 <= i < h < r.len() implies r[i].1 <= r[h].0 by {
                if h < old_res.len() {
                    assert(r[i] == old_res[i] && r[h] == old_res[h]);
                } else {
                    assert(r[i] == old_res[i]);
                }
            }
            assert forall|i: int, m: int|
                0 <= i < r.len() && 0 <= m < cov@.len() && above(new_last, #[trigger] cov@[m].1) implies (
            #[trigger] r[i]).1 * 2_000_000_000 <= cov@[m].1.key() by {
                assert(above(last, cov@[m].1));
                if i < old_res.len() {
                    assert(r[i] == old_res[i]);
                } else {
                    // the new gap ends at `y`, and no interval ends inside the hole
                    assert(!crosses(cov@[m], x.key(), y.key()));
                    assert(cov@[m].0.key() <= cov@[m].1.key());
                }
            }
            assert forall|k2: int, j2: int|
                is_hole(cov@, cutoff, k2, j2) && !above(new_last, cov@[k2].1) && #[trigger] hole_secs(
                    cov@,
                    cutoff,
                    k2,
                    j2,
                ).0 < hole_secs(cov@, cutoff, k2, j2).1 implies r.contains(
                (hole_secs(cov@, cutoff, k2, j2).0 as i64, hole_secs(cov@, cutoff, k2, j2).1 as i64),
            ) by {
                let g = (hole_secs(cov@, cutoff, k2, j2).0 as i64, hole_secs(cov@, cutoff, k2, j2).1 as i64);
                if above(last, cov@[k2].1) {
                    // its start is the earliest end above `last`, which is `x`
                    lemma_key(cov@[k2].1, x);
                    assert(cov@[k2].1 == x);
                    assert(hole_end(cov@, cutoff, j2) == y);
                    assert(r[r.len() - 1] == g);
                } else {
                    assert(old_res.contains(g));
                    let i = choose|i: int| 0 <= i < old_res.len() && old_res[i] == g;
                    assert(r[i] == g);
                }
            }
        }
        last = Some(x);
    }
    proof {
        assert forall|k: int, j: int|
            is_hole(cov@, cutoff, k, j) && #[trigger] hole_secs(cov@, cutoff, k, j).0 < hole_secs(
                cov@,
                cutoff,
                k,
                j,
            ).1 implies res@.contains(
            (hole_secs(cov@, cutoff, k, j).0 as i64, hole_secs(cov@, cutoff, k, j).1 as i64),
        ) by {
            assert(!above(last, cov@[k].1));
        }
    }
    res
}


/// The exact gap sequence of a coverage: every entry is a gap, every gap is
/// an entry, and the entries follow each other without overlap.
pub open spec fn exact_gaps(cov: Seq<Span>, cutoff: Instant, g: Seq<(i64, i64)>) -> bool {
    &&& forall|i: int| 0 <= i < g.len() ==> is_gap(cov, cutoff, #[trigger] g[i])
    &&& forall|k: int, j: int|
        is_hole(cov, cutoff, k, j) && #[trigger] hole_secs(cov, cutoff, k, j).0 < hole_secs(
            cov,
            cutoff,
            k,
            j,
        ).1 ==> g.contains((hole_secs(cov, cutoff, k, j).0 as i64, hole_secs(cov, cutoff, k, j).1 as i64))
    &&& forall|i: int, h: int| 0 <= i < h < g.len() ==> g[i].1 <= g[h].0
}

proof fn lemma_increasing_same_elements(a: Seq<(i64, i64)>, b: Seq<(i64, i64)>)
    requires
        forall|i: int, h: int| 0 <= i < h < a.len() ==> a[i].0 < a[h].0,
        forall|i: int, h: int| 0 <= i < h < b.len() ==> b[i].0 < b[h].0,
        forall|x: (i64, i64)| a.contains(x) <==> b.contains(x),
    ensures
        a == b,
    decreases a.len(),
{
    if a.len() == 0 {
        if b.len() > 0 {
            assert(b.contains(b[0]));
        }
        assert(a =~= b);
    } else {
        assert(a.contains(a[0]));
        let k = choose|k: int| 0 <= k < b.len() && b[k] == a[0];
        assert(b.contains(b[0]));
        let j = choose|j: int| 0 <= j < a.len() && a[j] == b[0];
        if k > 0 {
            assert(b[0].0 < b[k].0);
            if j > 0 {
                assert(a[0].0 < a[j].0);
            }
        }
        assert(b[0] == a[0]);
        let a2 = a.subrange(1, a.len() as int);
        let b2 = b.subrange(1, b.len() as int);
        assert forall|x: (i64, i64)| a2.contains(x) implies b2.contains(x) by {
            let i = choose|i: int| 0 <= i < a2.len() && a2[i] == x;
            assert(a[i + 1] == x);
            assert(a.contains(x));
            let m = choose|m: int| 0 <= m < b.len() && b[m] == x;
            assert(a[0].0 < a[i + 1].0);
            assert(m != 0);
            assert(b2[m - 1] == x);
        }
        assert forall|x: (i64, i64)| b2.contains(x) implies a2.contains(x) by {
            let i = choose|i: int| 0 <= i < b2.len() && b2[i] == x;
            assert(b[i + 1] == x);
            assert(b.contains(x));
            let m = choose|m: int| 0 <= m < a.len() && a[m] == x;
            assert(b[0].0 < b[i + 1].0);
            assert(m != 0);
            assert(a2[m - 1] == x);
        }
        lemma_increasing_same_elements(a2, b2);
        assert(a =~= seq![a[0]] + a2);
        assert(b =~= seq![b[0]] + b2);
    }
}

/// A coverage has exactly one gap sequence: any two sequences that list
/// every gap once, in order, are the same.
pub proof fn lemma_exact_gaps_unique(cov: Seq<Span>, cutoff: Instant, g1: Seq<(i64, i64)>, g2: Seq<(i64, i64)>)
    requires
        exact_gaps(cov, cutoff, g1),
        exact_gaps(cov, cutoff, g2),
    ensures
        g1 == g2,
{
    assert forall|i: int, h: int| 0 <= i < h < g1.len() implies g1[i].0 < g1[h].0 by {
        assert(is_gap(cov, cutoff, g1[i]));
    }
    assert forall|i: int, h: int| 0 <= i < h < g2.len() implies g2[i].0 < g2[h].0 by {
        assert(is_gap(cov, cutoff, g2[i]));
    }
    assert forall|x: (i64, i64)| g1.contains(x) implies g2.contains(x) by {
        let i = choose|i: int| 0 <= i < g1.len() && g1[i] == x;
        assert(is_gap(cov, cutoff, g1[i]));
        let (k, j) = choose|k: int, j: int|
            is_hole(cov, cutoff, k, j) && #[trigger] hole_secs(cov, cutoff, k, j) == (x.0 as int, x.1 as int);
        assert(hole_secs(cov, cutoff, k, j).0 < hole_secs(cov, cutoff, k, j).1);
    }
    assert forall|x: (i64, i64)| g2.contains(x) implies g1.contains(x) by {
        let i = choose|i: int| 0 <= i < g2.len() && g2[i] == x;
        assert(is_gap(cov, cutoff, g2[i]));
        let (k, j) = choose|k: int, j: int|
            is_hole(cov, cutoff, k, j) && #[trigger] hole_secs(cov, cutoff, k, j) == (x.0 as int, x.1 as int);
        assert(hole_secs(cov, cutoff, k, j).0 < hole_secs(cov, cutoff, k, j).1);
    }
    lemma_increasing_same_elements(g1, g2);
}

/// A recordable gap never meets captured activity, and lies between the
/// window start and the cutoff.
pub proof fn lemma_gap_avoids_coverage(cov: Seq<Span>, window_start: Instant, cutoff: Instant, g: (i64, i64))
    requires
        coverage_wf(cov, window_start, cutoff),
        cutoff.wf(),
        is_gap(cov, cutoff, g),
    ensures
        forall|m: int|
            0 <= m < cov.len() ==> !(g.0 * 2_000_000_000 < (#[trigger] cov[m]).1.key() && cov[m].0.key()
                < g.1 * 2_000_000_000),
        window_start.key() <= g.0 * 2_000_000_000,
        g.1 * 2_000_000_000 <= cutoff.key(),
{
    let (k, j) = choose|k: int, j: int|
        is_hole(cov, cutoff, k, j) && #[trigger] hole_secs(cov, cutoff, k, j) == (g.0 as int, g.1 as int);
    let x = cov[k].1;
    let y = hole_end(cov, cutoff, j);
    assert(g.0 * 2_000_000_000 >= x.key());
    assert(g.1 * 2_000_000_000 <= y.key());
    assert forall|m: int|
        0 <= m < cov.len() implies !(g.0 * 2_000_000_000 < (#[trigger] cov[m]).1.key() && cov[m].0.key()
            < g.1 * 2_000_000_000) by {
        assert(!crosses(cov[m], x.key(), y.key()));
    }
}

/// `from` and `to` are RFC 3339 texts of whole seconds, in the years 1 to
/// 9999, the first before the second, and the second no later than `until`.
pub open spec fn whole_second_interval(from: Seq<char>, to: Seq<char>, until: Instant) -> bool {
    match (rfc3339_utc_instant(from), rfc3339_utc_instant(to)) {
        (Some((a, na)), Some((b, nb))) => {
            &&& na == 0
            &&& nb == 0
            &&& a < b
            &&& in_rfc3339_years(a as int)
            &&& in_rfc3339_years(b as int)
            &&& b * 2_000_000_000 <= until.key()
        },
        _ => false,
    }
}

/// What holds of an interval up to one instant holds of it up to any later
/// one: a gap reported up to the cutoff may be recorded at any later time.
pub proof fn lemma_whole_second_interval_later(from: Seq<char>, to: Seq<char>, until: Instant, now: Instant)
    requires
        whole_second_interval(from, to, until),
        until.key() <= now.key(),
    ensures
        whole_second_interval(from, to, now),
{
}

/// A recordable gap: the RFC 3339 start and end of a stretch without
/// captured activity.
#[derive(Clone, Debug, PartialEq, Eq)]
pub struct OffPcGap {
    pub from: String,
    pub to: String,
}

/// The gaps in RFC 3339 text, leaving out any that chrono cannot write.
pub open spec fn formatted_gaps(g: Seq<(i64, i64)>) -> Seq<(Seq<char>, Seq<char>)>
    decreases g.len(),
{
    if g.len() == 0 {
        Seq::empty()
    } else {
        let prev = formatted_gaps(g.drop_last());
        match (utc_rfc3339_text(g.last().0, 0), utc_rfc3339_text(g.last().1, 0)) {
            (Some(a), Some(b)) => prev.push((a, b)),
            _ => prev,
        }
    }
}

/// The views of gaps.
pub open spec fn gap_views(gaps: Seq<OffPcGap>) -> Seq<(Seq<char>, Seq<char>)> {
    gaps.map_values(|g: OffPcGap| (g.from@, g.to@))
}

/// The recordable off-PC gaps within `[window_start, cutoff]` given the
/// device's activity rows (RFC 3339 start and end): the holes of their
/// coverage narrowed to whole seconds, in order (see `exact_gaps`).
pub fn recordable_gaps_from_rows(rows: &Vec<(String, String)>, window_start: Instant, cutoff: Instant) -> (res:
    Vec<OffPcGap>)
    requires
        window_start.wf(),
        cutoff.wf(),
        cutoff.secs < i64::MAX,
    ensures
        exists|g: Seq<(i64, i64)>|
            #[trigger] exact_gaps(coverage(row_views(rows@), window_start, cutoff), cutoff, g)
                && gap_views(res@) == formatted_gaps(g),
        in_rfc3339_years(window_start.secs as int) && in_rfc3339_years(cutoff.secs as int) ==> forall|k: int|
            0 <= k < res@.len() ==> whole_second_interval(#[trigger] res@[k].from@, res@[k].to@, cutoff),
{
    let cov = coverage_of_rows(rows, window_start, cutoff);
    let secs = gap_seconds(&cov, window_start, cutoff);
    let mut out: Vec<OffPcGap> = Vec::new();
    let mut i: usize = 0;
    while i < secs.len()
        invariant
            i <= secs@.len(),
            gap_views(out@) == formatted_gaps(secs@.take(i as int)),
            window_start.wf(),
            cutoff.wf(),
            coverage_wf(cov@, window_start, cutoff),
            forall|q: int| 0 <= q < secs@.len() ==> is_gap(cov@, cutoff, #[trigger] secs@[q]),
            in_rfc3339_years(window_start.secs as int) && in_rfc3339_years(cutoff.secs as int) ==> forall|k: int|
                0 <= k < out@.len() ==> whole_second_interval(#[trigger] out@[k].from@, out@[k].to@, cutoff),
        decreases secs.len() - i,
    {
        proof {
            assert(secs@.take(i + 1).drop_last() =~= secs@.take(i as int));
            assert(secs@.take(i + 1).last() == secs@[i as int]);
        }
        let (from, to) = secs[i];
        proof {
            lemma_gap_avoids_coverage(cov@, window_start, cutoff, secs@[i as int]);
        }
        match (format_rfc3339_utc(from, 0), format_rfc3339_utc(to, 0)) {
            (Some(a), Some(b)) => {
                let gap = OffPcGap { from: a, to: b };
                proof {
                    assert(gap_views(out@.push(gap)) =~= gap_views(out@).push((gap.from@, gap.to@)));
                    if in_rfc3339_years(window_start.secs as int) && in_rfc3339_years(cutoff.secs as int) {
                        assert(is_gap(cov@, cutoff, secs@[i as int]));
                        assert(whole_second_interval(gap.from@, gap.to@, cutoff));
                        assert forall|k: int| 0 <= k < out@.push(gap).len() implies whole_second_interval(
                            #[trigger] out@.push(gap)[k].from@,
                            out@.push(gap)[k].to@,
                            cutoff,
                        ) by {
                            if k < out@.len() {
                                assert(out@.push(gap)[k] == out@[k]);
                            }
                        }
                    }
                }
                out.push(gap);
            },
            _ => {},
        }
        i = i + 1;
    }
    proof {
        assert(secs@.take(secs@.len() as int) =~= secs@);
        assert(exact_gaps(cov@, cutoff, secs@));
    }
    out
}

// ------------------------------------------------------------------- errors

/// Why an off-PC request is refused.
#[derive(Clone, Copy, Debug, PartialEq, Eq)]
pub enum OffPcError {
    GapsWrongDevice,
    RecordWrongDevice,
    UnsupportedType,
    EmptyDetail,
    InvalidStart,
    InvalidEnd,
    EmptyInterval,
    FutureInterval,
    CrossesDate,
    Overlaps,
}

impl OffPcError {
    /// The message of the error, as the request's caller sees it.
    pub open spec fn text(self) -> Seq<char> {
        match self {
            OffPcError::GapsWrongDevice => "off-PC gaps must target the current device"@,
            OffPcError::RecordWrongDevice => "off-PC activity must target the current device"@,
            OffPcError::UnsupportedType => "unsupported off-PC activity type"@,
            OffPcError::EmptyDetail => "off-PC activity detail must not be empty"@,
            OffPcError::InvalidStart => "off-PC start must be RFC3339"@,
            OffPcError::InvalidEnd => "off-PC end must be RFC3339"@,
            OffPcError::EmptyInterval => "off-PC interval must be non-empty"@,
            OffPcError::FutureInterval => "off-PC interval must not be in the future"@,
            OffPcError::CrossesDate => "off-PC interval must stay within one local calendar date"@,
            OffPcError::Overlaps => "off-PC interval overlaps captured activity"@,
        }
    }

    /// The message of the error.
    pub fn message(&self) -> (res: String)
        ensures
            res@ == self.text(),
    {
        match self {
            OffPcError::GapsWrongDevice => String::from_str("off-PC gaps must target the current device"),
            OffPcError::RecordWrongDevice => String::from_str(
                "off-PC activity must target the current device",
            ),
            OffPcError::UnsupportedType => String::from_str("unsupported off-PC activity type"),
            OffPcError::EmptyDetail => String::from_str("off-PC activity detail must not be empty"),
            OffPcError::InvalidStart => String::from_str("off-PC start must be RFC3339"),
            OffPcError::InvalidEnd => String::from_str("off-PC end must be RFC3339"),
            OffPcError::EmptyInterval => String::from_str("off-PC interval must be non-empty"),
            OffPcError::FutureInterval => String::from_str(
                "off-PC interval must not be in the future",
            ),
            OffPcError::CrossesDate => String::from_str(
                "off-PC interval must stay within one local calendar date",
            ),
            OffPcError::Overlaps => String::from_str("off-PC interval overlaps captured activity"),
        }
    }
}

// ------------------------------------------------------------------- window

/// The observation window of a gap request for a local date: an error for
/// another device; no window for a future date, or when the cutoff (now for
/// today, else the end of the date) is not after the start of the date.
pub open spec fn gap_window(
    device_id: Seq<char>,
    self_id: Seq<char>,
    date_day: int,
    today_day: int,
    day_start: Instant,
    day_end: Instant,
    now: Instant,
) -> Result<Option<(Instant, Instant)>, OffPcError> {
    if device_id != self_id {
        Err(OffPcError::GapsWrongDevice)
    } else if date_day > today_day {
        Ok(None)
    } else {
        let cutoff = if date_day == today_day {
            now
        } else {
            day_end
        };
        if cutoff.key() <= day_start.key() {
            Ok(None)
        } else {
            Ok(Some((day_start, cutoff)))
        }
    }
}

/// Decides the observation window of a gap request (see `gap_window`); the
/// days are day numbers of the local calendar.
pub fn off_pc_gap_window(
    device_id: &str,
    self_id: &str,
    date_day: i32,
    today_day: i32,
    day_start: Instant,
    day_end: Instant,
    now: Instant,
) -> (res: Result<Option<(Instant, Instant)>, OffPcError>)
    requires
        day_start.wf(),
        day_end.wf(),
        now.wf(),
    ensures
        res == gap_window(device_id@, self_id@, date_day as int, today_day as int, day_start, day_end, now),
{
    if !chars_eq(&to_chars(device_id), &to_chars(self_id)) {
        return Err(OffPcError::GapsWrongDevice);
    }
    if date_day > today_day {
        return Ok(None);
    }
    let cutoff = if date_day == today_day { now } else { day_end };
    if instant_le(cutoff, day_start) {
        Ok(None)
    } else {
        Ok(Some((day_start, cutoff)))
    }
}

// ------------------------------------------------------------------- record

/// The label of a supported off-PC activity type.
pub open spec fn activity_label_of(activity_type: Seq<char>) -> Option<Seq<char>> {
    if activity_type == "meeting"@ {
        Some("Meeting"@)
    } else if activity_type == "business_trip"@ {
        Some("Business trip"@)
    } else if activity_type == "exam"@ {
        Some("Satellite module functional test"@)
    } else {
        None
    }
}

fn activity_label_exec(activity_type: &str) -> (res: Option<String>)
    ensures
        match res {
            Some(s) => activity_label_of(activity_type@) == Some(s@),
            None => activity_label_of(activity_type@) is None,
        },
{
    let t = to_chars(activity_type);
    if chars_eq(&t, &to_chars("meeting")) {
        Some(String::from_str("Meeting"))
    } else if chars_eq(&t, &to_chars("business_trip")) {
        Some(String::from_str("Business trip"))
    } else if chars_eq(&t, &to_chars("exam")) {
        Some(String::from_str("Satellite module functional test"))
    } else {
        None
    }
}

/// A validated off-PC record, before its local date is checked.
#[derive(Clone, Debug, PartialEq, Eq)]
pub struct OffPcDraft {
    pub start: Instant,
    pub end: Instant,
    pub started_at: String,
    pub ended_at: String,
    pub duration_secs: i64,
    pub process_name: String,
    pub label: String,
    pub detail: String,
}

/// What a draft holds, as plain values.
pub open spec fn draft_view(d: OffPcDraft) -> (Instant, Instant, Seq<char>, Seq<char>, i64, Seq<char>, Seq<char>, Seq<char>) {
    (d.start, d.end, d.started_at@, d.ended_at@, d.duration_secs, d.process_name@, d.label@, d.detail@)
}

/// The checks on an off-PC record request, in order: the device is this one;
/// the type is supported; the trimmed detail is not empty; both ends parse as
/// RFC 3339; the interval spans a positive whole number of seconds; it does
/// not end after `now`; chrono can write both ends back. The draft holds the
/// UTC ends, their RFC 3339 text, the duration, the process name
/// `off_pc::<type>`, the type's label and the trimmed detail.
pub open spec fn off_pc_draft(
    device_id: Seq<char>,
    self_id: Seq<char>,
    from: Seq<char>,
    to: Seq<char>,
    activity_type: Seq<char>,
    detail: Seq<char>,
    now: Instant,
) -> Result<(Instant, Instant, Seq<char>, Seq<char>, i64, Seq<char>, Seq<char>, Seq<char>), OffPcError> {
    if device_id != self_id {
        Err(OffPcError::RecordWrongDevice)
    } else if activity_label_of(activity_type) is None {
        Err(OffPcError::UnsupportedType)
    } else if trim(detail).len() == 0 {
        Err(OffPcError::EmptyDetail)
    } else if rfc3339_utc_instant(from) is None {
        Err(OffPcError::InvalidStart)
    } else if rfc3339_utc_instant(to) is None {
        Err(OffPcError::InvalidEnd)
    } else {
        let a = instant_of(rfc3339_utc_instant(from).unwrap());
        let b = instant_of(rfc3339_utc_instant(to).unwrap());
        match utc_span_of(a.secs, a.nanos, b.secs, b.nanos) {
            Some((secs, nanos)) if secs > 0 && nanos == 0 => {
                if b.key() > now.key() {
                    Err(OffPcError::FutureInterval)
                } else {
                    match (utc_rfc3339_text(a.secs, a.nanos), utc_rfc3339_text(b.secs, b.nanos)) {
                        (Some(sa), Some(sb)) => Ok(
                            (
                                a,
                                b,
                                sa,
                                sb,
                                secs,
                                "off_pc::"@ + activity_type,
                                activity_label_of(activity_type).unwrap(),
                                trim(detail),
                            ),
                        ),
                        (None, _) => Err(OffPcError::InvalidStart),
                        _ => Err(OffPcError::InvalidEnd),
                    }
                }
            },
            _ => Err(OffPcError::EmptyInterval),
        }
    }
}

/// Validates an off-PC record request (see `off_pc_draft`).
pub fn plan_off_pc_record(
    device_id: &str,
    self_id: &str,
    from: &str,
    to: &str,
    activity_type: &str,
    detail: &str,
    now: Instant,
) -> (res: Result<OffPcDraft, OffPcError>)
    requires
        now.wf(),
    ensures
        match res {
            Ok(d) => off_pc_draft(device_id@, self_id@, from@, to@, activity_type@, detail@, now) == Ok::<
                _,
                OffPcError,
            >(draft_view(d)),
            Err(e) => off_pc_draft(device_id@, self_id@, from@, to@, activity_type@, detail@, now)
                == Err::<(Instant, Instant, Seq<char>, Seq<char>, i64, Seq<char>, Seq<char>, Seq<char>), _>(e),
        },
        device_id@ == self_id@ && activity_label_of(activity_type@) is Some && trim(detail@).len() > 0
            && whole_second_interval(from@, to@, now) ==> res is Ok,
{
    if !chars_eq(&to_chars(device_id), &to_chars(self_id)) {
        return Err(OffPcError::RecordWrongDevice);
    }
    let label = match activity_label_exec(activity_type) {
        Some(l) => l,
        None => {
            return Err(OffPcError::UnsupportedType);
        },
    };
    let trimmed = trim_chars(&to_chars(detail));
    if trimmed.len() == 0 {
        return Err(OffPcError::EmptyDetail);
    }
    let a = match parse_rfc3339_utc(from) {
        Some(a) => a,
        None => {
            return Err(OffPcError::InvalidStart);
        },
    };
    let b = match parse_rfc3339_utc(to) {
        Some(b) => b,
        None => {
            return Err(OffPcError::InvalidEnd);
        },
    };
    let span = utc_span(a, b);
    let secs = match span {
        Some((secs, nanos)) => {
            if secs > 0 && nanos == 0 {
                secs
            } else {
                return Err(OffPcError::EmptyInterval);
            }
        },
        None => {
            return Err(OffPcError::EmptyInterval);
        },
    };
    if !instant_le(b, now) {
        return Err(OffPcError::FutureInterval);
    }
    let started_at = match format_rfc3339_utc(a.secs, a.nanos) {
        Some(s) => s,
        None => {
            return Err(OffPcError::InvalidStart);
        },
    };
    let ended_at = match format_rfc3339_utc(b.secs, b.nanos) {
        Some(s) => s,
        None => {
            return Err(OffPcError::InvalidEnd);
        },
    };
    let mut process_name = String::from_str("off_pc::");
    process_name.append(activity_type);
    Ok(
        OffPcDraft {
            start: a,
            end: b,
            started_at,
            ended_at,
            duration_secs: secs,
            process_name,
            label,
            detail: chars_to_string(trimmed.as_slice()),
        },
    )
}

/// The last check of an off-PC record: its start and its last nanosecond must
/// fall on the same local calendar day (given as day numbers).
pub fn check_local_date(draft: OffPcDraft, start_day: i32, last_nanosecond_day: i32) -> (res: Result<
    OffPcDraft,
    OffPcError,
>)
    ensures
        start_day == last_nanosecond_day ==> res == Ok::<OffPcDraft, OffPcError>(draft),
        start_day != last_nanosecond_day ==> res == Err::<OffPcDraft, OffPcError>(OffPcError::CrossesDate),
{
    if start_day != last_nanosecond_day {
        Err(OffPcError::CrossesDate)
    } else {
        Ok(draft)
    }
}

// ------------------------------------------------------- category upkeep

/// What to do with a row that should hold fixed values.
#[derive(Clone, Copy, Debug, PartialEq, Eq)]
pub enum UpsertAction {
    Insert,
    Update,
    Keep,
}

/// The fixed name of the off-PC category and its super category.
pub open spec fn off_pc_category_name() -> Seq<char> {
    "PC 외 업무"@
}

/// The action for the off-PC super category given its stored name, color,
/// icon and whether it is deleted: insert when absent, update when any of
/// them differs from the fixed values or it is deleted, else keep.
pub open spec fn supercategory_action_of(existing: Option<(Seq<char>, Seq<char>, Seq<char>, bool)>) -> UpsertAction {
    match existing {
        None => UpsertAction::Insert,
        Some((name, color, icon, deleted)) => if deleted || name != off_pc_category_name() || color
            != "#94a3b8"@ || icon != "Briefcase"@ {
            UpsertAction::Update
        } else {
            UpsertAction::Keep
        },
    }
}

/// Decides the upkeep of the off-PC super category (see
/// `supercategory_action_of`).
pub fn supercategory_action(existing: &Option<(String, String, String, bool)>) -> (res: UpsertAction)
    ensures
        res == supercategory_action_of(
            match existing {
                None => None,
                Some(e) => Some((e.0@, e.1@, e.2@, e.3)),
            },
        ),
{
    match existing {
        None => UpsertAction::Insert,
        Some((name, color, icon, deleted)) => {
            if *deleted || !chars_eq(&to_chars(name.as_str()), &to_chars("PC 외 업무")) || !chars_eq(
                &to_chars(color.as_str()),
                &to_chars("#94a3b8"),
            ) || !chars_eq(&to_chars(icon.as_str()), &to_chars("Briefcase")) {
                UpsertAction::Update
            } else {
                UpsertAction::Keep
            }
        },
    }
}

/// The action for the manual app group of an off-PC process given its stored
/// display name, category and whether it is deleted.
pub open spec fn manual_group_action_of(
    existing: Option<(Seq<char>, Option<Seq<char>>, bool)>,
    display_name: Seq<char>,
    category_id: Seq<char>,
) -> UpsertAction {
    match existing {
        None => UpsertAction::Insert,
        Some((name, category, deleted)) => if name != display_name || category != Some(category_id)
            || deleted {
            UpsertAction::Update
        } else {
            UpsertAction::Keep
        },
    }
}

/// Decides the upkeep of an off-PC process's app group (see
/// `manual_group_action_of`).
pub fn manual_group_action(
    existing: &Option<(String, Option<String>, bool)>,
    display_name: &str,
    category_id: &str,
) -> (res: UpsertAction)
    ensures
        res == manual_group_action_of(
            match existing {
                None => None,
                Some(e) => Some(
                    (
                        e.0@,
                        match e.1 {
                            None => None,
                            Some(c) => Some(c@),
                        },
                        e.2,
                    ),
                ),
            },
            display_name@,
            category_id@,
        ),
{
    match existing {
        None => UpsertAction::Insert,
        Some((name, category, deleted)) => {
            let same_category = match category {
                None => false,
                Some(c) => chars_eq(&to_chars(c.as_str()), &to_chars(category_id)),
            };
            if !chars_eq(&to_chars(name.as_str()), &to_chars(display_name)) || !same_category
                || *deleted {
                UpsertAction::Update
            } else {
                UpsertAction::Keep
            }
        },
    }
}

/// The action for the group membership of an off-PC process given its stored
/// group and whether it is deleted: the process is its own group.
pub open spec fn group_member_action_of(existing: Option<(Seq<char>, bool)>, process_name: Seq<char>) -> UpsertAction {
    match existing {
        None => UpsertAction::Insert,
        Some((group, deleted)) => if group != process_name || deleted {
            UpsertAction::Update
        } else {
            UpsertAction::Keep
        },
    }
}

/// Decides the upkeep of an off-PC process's group membership (see
/// `group_member_action_of`).
pub fn group_member_action(existing: &Option<(String, bool)>, process_name: &str) -> (res: UpsertAction)
    ensures
        res == group_member_action_of(
            match existing {
                None => None,
                Some(e) => Some((e.0@, e.1)),
            },
            process_name@,
        ),
{
    match existing {
        None => UpsertAction::Insert,
        Some((group, deleted)) => {
            if !chars_eq(&to_chars(group.as_str()), &to_chars(process_name)) || *deleted {
                UpsertAction::Update
            } else {
                UpsertAction::Keep
            }
        },
    }
}

/// The stored super category after its upkeep: the fixed values, live, when
/// the action inserts or updates it; else what was stored.
pub open spec fn supercategory_after(existing: Option<(Seq<char>, Seq<char>, Seq<char>, bool)>) -> Option<
    (Seq<char>, Seq<char>, Seq<char>, bool),
> {
    if supercategory_action_of(existing) == UpsertAction::Keep {
        existing
    } else {
        Some((off_pc_category_name(), "#94a3b8"@, "Briefcase"@, false))
    }
}

/// The stored app group after its upkeep.
pub open spec fn manual_group_after(
    existing: Option<(Seq<char>, Option<Seq<char>>, bool)>,
    display_name: Seq<char>,
    category_id: Seq<char>,
) -> Option<(Seq<char>, Option<Seq<char>>, bool)> {
    if manual_group_action_of(existing, display_name, category_id) == UpsertAction::Keep {
        existing
    } else {
        Some((display_name, Some(category_id), false))
    }
}

/// The stored group membership after its upkeep.
pub open spec fn group_member_after(existing: Option<(Seq<char>, bool)>, process_name: Seq<char>) -> Option<
    (Seq<char>, bool),
> {
    if group_member_action_of(existing, process_name) == UpsertAction::Keep {
        existing
    } else {
        Some((process_name, false))
    }
}

/// Off-PC records of one type reuse what the first one set up: after one
/// upkeep the super category, the app group and its membership hold the
/// values the next record asks for, so the next upkeep keeps all three.
pub proof fn lemma_upkeep_settles(
    super_category: Option<(Seq<char>, Seq<char>, Seq<char>, bool)>,
    group: Option<(Seq<char>, Option<Seq<char>>, bool)>,
    member: Option<(Seq<char>, bool)>,
    display_name: Seq<char>,
    category_id: Seq<char>,
    process_name: Seq<char>,
)
    ensures
        supercategory_action_of(supercategory_after(super_category)) == UpsertAction::Keep,
        manual_group_action_of(manual_group_after(group, display_name, category_id), display_name, category_id)
            == UpsertAction::Keep,
        group_member_action_of(group_member_after(member, process_name), process_name) == UpsertAction::Keep,
{
}

} // verus!
