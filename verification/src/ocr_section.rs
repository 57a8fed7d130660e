//! The OCR section of a Work Log prompt: OCR evidence is cut into chunks, the
//! chunks that mention Work Item or activity terms are preferred, a few chunks
//! spread over the whole time range are kept, and the result fits the budget.
use vstd::prelude::*;
use crate::text::{
    char_is_alphanumeric, chars_eq, chars_to_string, contains_chars, contains_seq,
    decimal, decimal_chars, is_alphanumeric, join, join_chars, matches_at, push_all, split,
    split_chars, split_from,
    take_prefix, take_spec, to_chars, trim, trim_chars, views,
};
use crate::worklog::{sat_sub, truncate_chars, truncated};

verus! {

// -------------------------------------------------------------------- chunks

/// The separator between OCR evidence chunks.
pub open spec fn chunk_sep() -> Seq<char> {
    "\n---\n"@
}

/// Each part trimmed, the empty ones left out, in order.
pub open spec fn trimmed_nonempty(parts: Seq<Seq<char>>) -> Seq<Seq<char>>
    decreases parts.len(),
{
    if parts.len() == 0 {
        Seq::empty()
    } else {
        let prev = trimmed_nonempty(parts.drop_last());
        let t = trim(parts.last());
        if t.len() > 0 {
            prev.push(t)
        } else {
            prev
        }
    }
}

/// The OCR chunks of an evidence text: its pieces between `"\n---\n"`
/// separators, trimmed, the empty ones dropped.
pub open spec fn ocr_chunks_of(ocr: Seq<char>) -> Seq<Seq<char>> {
    trimmed_nonempty(split(ocr, chunk_sep()))
}

proof fn lemma_trimmed_nonempty(parts: Seq<Seq<char>>)
    ensures
        forall|i: int|
            0 <= i < trimmed_nonempty(parts).len() ==> #[trigger] trimmed_nonempty(parts)[i].len()
                > 0,
    decreases parts.len(),
{
    if parts.len() > 0 {
        lemma_trimmed_nonempty(parts.drop_last());
        let prev = trimmed_nonempty(parts.drop_last());
        let t = trim(parts.last());
        if t.len() > 0 {
            assert forall|i: int| 0 <= i < prev.push(t).len() implies #[trigger] prev.push(t)[i].len()
                > 0 by {
                if i < prev.len() {
                    assert(prev.push(t)[i] == prev[i]);
                }
            }
        }
    }
}

fn ocr_chunks_chars(ocr: &[char]) -> (res: Vec<Vec<char>>)
    ensures
        views(res@) == ocr_chunks_of(ocr@),
        forall|i: int| 0 <= i < res@.len() ==> #[trigger] res@[i]@.len() > 0,
{
    proof {
        reveal_strlit("\n---\n");
    }
    let sep = to_chars("\n---\n");
    let parts = split_chars(ocr, &sep);
    let ghost pv = views(parts@);
    let mut out: Vec<Vec<char>> = Vec::new();
    let mut i: usize = 0;
    while i < parts.len()
        invariant
            i <= parts@.len(),
            pv == views(parts@),
            pv == split(ocr@, chunk_sep()),
            views(out@) == trimmed_nonempty(pv.take(i as int)),
        decreases parts.len() - i,
    {
        let t = trim_chars(&parts[i]);
        proof {
            assert(pv.take(i + 1).drop_last() =~= pv.take(i as int));
            assert(pv.take(i + 1).last() == parts@[i as int]@);
        }
        if t.len() > 0 {
            proof {
                assert(views(out@.push(t)) =~= views(out@).push(t@));
            }
            out.push(t);
        }
        i = i + 1;
    }
    proof {
        assert(pv.take(parts@.len() as int) =~= pv);
        lemma_trimmed_nonempty(pv);
        assert forall|k: int| 0 <= k < out@.len() implies #[trigger] out@[k]@.len() > 0 by {
            assert(views(out@)[k] == out@[k]@);
        }
    }
    out
}

/// The non-empty, trimmed OCR chunks of an evidence text.
pub fn ocr_chunks(ocr_text: &str) -> (res: Vec<String>)
    ensures
        res@.map_values(|s: String| s@) == ocr_chunks_of(ocr_text@),
{
    let chunks = ocr_chunks_chars(&to_chars(ocr_text));
    strings_of(&chunks)
}

/// Each character vector as a `String`.
pub fn strings_of(parts: &Vec<Vec<char>>) -> (res: Vec<String>)
    ensures
        res@.map_values(|s: String| s@) == views(parts@),
{
    let mut out: Vec<String> = Vec::new();
    let mut i: usize = 0;
    while i < parts.len()
        invariant
            i <= parts@.len(),
            out@.len() == i,
            forall|k: int| 0 <= k < i ==> (#[trigger] out@[k])@ == parts@[k]@,
        decreases parts.len() - i,
    {
        let s = chars_to_string(parts[i].as_slice());
        out.push(s);
        i = i + 1;
    }
    proof {
        assert(out@.map_values(|s: String| s@) =~= views(parts@));
    }
    out
}

// -------------------------------------------------------------------- tokens

/// Characters that may belong to a relevance token.
pub open spec fn is_token_char(c: char) -> bool {
    char_is_alphanumeric(c) || c == '_' || c == '-' || c == '.' || c == '/'
}

/// The maximal runs of token characters of `s`, including the empty runs
/// between neighbouring separators; the last run is the one still open.
pub open spec fn token_runs(s: Seq<char>) -> Seq<Seq<char>>
    decreases s.len(),
{
    if s.len() == 0 {
        seq![Seq::empty()]
    } else {
        let r = token_runs(s.drop_last());
        if is_token_char(s.last()) {
            r.update(r.len() - 1, r.last().push(s.last()))
        } else {
            r.push(Seq::empty())
        }
    }
}

proof fn lemma_token_runs_len(s: Seq<char>)
    ensures
        token_runs(s).len() >= 1,
    decreases s.len(),
{
    if s.len() > 0 {
        lemma_token_runs_len(s.drop_last());
    }
}

/// The runs of at least three characters, each kept at its first occurrence.
pub open spec fn collect_tokens(runs: Seq<Seq<char>>) -> Seq<Seq<char>>
    decreases runs.len(),
{
    if runs.len() == 0 {
        Seq::empty()
    } else {
        let prev = collect_tokens(runs.drop_last());
        let r = runs.last();
        if r.len() >= 3 && !prev.contains(r) {
            prev.push(r)
        } else {
            prev
        }
    }
}

/// The distinct relevance tokens of a text: its runs of alphanumeric, `_`,
/// `-`, `.` and `/` characters that are at least three characters long, in
/// order of first occurrence.
pub open spec fn context_tokens_of(s: Seq<char>) -> Seq<Seq<char>> {
    collect_tokens(token_runs(s))
}

fn holds_token(tokens: &Vec<Vec<char>>, t: &[char]) -> (res: bool)
    ensures
        res == views(tokens@).contains(t@),
{
    let mut i: usize = 0;
    while i < tokens.len()
        invariant
            i <= tokens@.len(),
            forall|k: int| 0 <= k < i ==> tokens@[k]@ != t@,
        decreases tokens.len() - i,
    {
        if chars_eq(&tokens[i], t) {
            proof {
                assert(views(tokens@)[i as int] == t@);
            }
            return true;
        }
        i = i + 1;
    }
    proof {
        if views(tokens@).contains(t@) {
            let k = choose|k: int| 0 <= k < views(tokens@).len() && views(tokens@)[k] == t@;
            assert(tokens@[k]@ == t@);
        }
    }
    false
}

fn flush_token(tokens: &mut Vec<Vec<char>>, current: Vec<char>, Ghost(done): Ghost<Seq<Seq<char>>>)
    requires
        views(old(tokens)@) == collect_tokens(done),
    ensures
        views(final(tokens)@) == collect_tokens(done.push(current@)),
{
    proof {
        assert(done.push(current@).drop_last() =~= done);
    }
    if current.len() >= 3 && !holds_token(tokens, &current) {
        proof {
            assert(views(tokens@.push(current)) =~= views(tokens@).push(current@));
        }
        tokens.push(current);
    }
}

fn context_tokens_chars(text: &[char]) -> (res: Vec<Vec<char>>)
    ensures
        views(res@) == context_tokens_of(text@),
{
    let mut tokens: Vec<Vec<char>> = Vec::new();
    let mut current: Vec<char> = Vec::new();
    let ghost mut done: Seq<Seq<char>> = Seq::empty();
    let mut i: usize = 0;
    while i < text.len()
        invariant
            i <= text@.len(),
            token_runs(text@.take(i as int)) == done.push(current@),
            views(tokens@) == collect_tokens(done),
        decreases text.len() - i,
    {
        let c = text[i];
        let ghost prefix = text@.take(i + 1);
        proof {
            assert(prefix.drop_last() =~= text@.take(i as int));
            assert(prefix.last() == c);
        }
        if is_alphanumeric(c) || c == '_' || c == '-' || c == '.' || c == '/' {
            current.push(c);
            proof {
                assert(token_runs(prefix) =~= done.push(current@));
            }
        } else {
            let finished = current;
            flush_token(&mut tokens, finished, Ghost(done));
            proof {
                done = done.push(finished@);
            }
            current = Vec::new();
            proof {
                assert(token_runs(prefix) =~= done.push(current@));
            }
        }
        i = i + 1;
    }
    proof {
        assert(text@.take(text@.len() as int) =~= text@);
    }
    flush_token(&mut tokens, current, Ghost(done));
    tokens
}

/// The distinct relevance tokens of a text (see `context_tokens_of`).
pub fn context_tokens(text: &str) -> (res: Vec<String>)
    ensures
        res@.map_values(|s: String| s@) == context_tokens_of(text@),
{
    let tokens = context_tokens_chars(&to_chars(text));
    strings_of(&tokens)
}

// ----------------------------------------------------------------- relevance

/// How many of the tokens occur in the chunk.
pub open spec fn token_hits(chunk: Seq<char>, tokens: Seq<Seq<char>>) -> nat
    decreases tokens.len(),
{
    if tokens.len() == 0 {
        0
    } else {
        token_hits(chunk, tokens.drop_last()) + if contains_seq(chunk, tokens.last()) {
            1nat
        } else {
            0nat
        }
    }
}

/// Whether chunk `a` comes before chunk `b` in relevance order: a higher score
/// first, equal scores by position.
pub open spec fn ranks_before(scores: Seq<usize>, a: usize, b: usize) -> bool {
    scores[a as int] > scores[b as int] || (scores[a as int] == scores[b as int] && a < b)
}

/// `order` with `i` placed before the first entry that it ranks before.
pub open spec fn insert_ranked(order: Seq<usize>, i: usize, scores: Seq<usize>) -> Seq<usize>
    decreases order.len(),
{
    if order.len() == 0 {
        seq![i]
    } else if ranks_before(scores, i, order[0]) {
        seq![i] + order
    } else {
        seq![order[0]] + insert_ranked(order.drop_first(), i, scores)
    }
}

/// The positions `0..n` with a positive score, in relevance order.
pub open spec fn relevance_order(scores: Seq<usize>, n: int) -> Seq<usize>
    decreases n,
{
    if n <= 0 {
        Seq::empty()
    } else {
        let prev = relevance_order(scores, n - 1);
        if scores[n - 1] > 0 {
            insert_ranked(prev, (n - 1) as usize, scores)
        } else {
            prev
        }
    }
}

/// The first position of `order` that `i` ranks before, or its length.
pub open spec fn rank_slot(order: Seq<usize>, i: usize, scores: Seq<usize>) -> int
    decreases order.len(),
{
    if order.len() == 0 {
        0
    } else if ranks_before(scores, i, order[0]) {
        0
    } else {
        1 + rank_slot(order.drop_first(), i, scores)
    }
}

proof fn lemma_insert_ranked(order: Seq<usize>, i: usize, scores: Seq<usize>)
    ensures
        0 <= rank_slot(order, i, scores) <= order.len(),
        forall|j: int| 0 <= j < rank_slot(order, i, scores) ==> !ranks_before(scores, i, #[trigger] order[j]),
        rank_slot(order, i, scores) < order.len() ==> ranks_before(
            scores,
            i,
            order[rank_slot(order, i, scores)],
        ),
        insert_ranked(order, i, scores) == order.take(rank_slot(order, i, scores)) + seq![i]
            + order.skip(rank_slot(order, i, scores)),
    decreases order.len(),
{
    if order.len() > 0 && !ranks_before(scores, i, order[0]) {
        lemma_insert_ranked(order.drop_first(), i, scores);
        let p = rank_slot(order.drop_first(), i, scores);
        assert forall|j: int| 0 <= j < p + 1 implies !ranks_before(scores, i, #[trigger] order[j]) by {
            if j > 0 {
                assert(order[j] == order.drop_first()[j - 1]);
            }
        }
        assert(seq![order[0]] + (order.drop_first().take(p) + seq![i] + order.drop_first().skip(p))
            =~= order.take(p + 1) + seq![i] + order.skip(p + 1));
    } else if order.len() > 0 {
        assert(seq![i] + order =~= order.take(0) + seq![i] + order.skip(0));
    } else {
        assert(seq![i] =~= order.take(0) + seq![i] + order.skip(0));
    }
}

/// Entries are pairwise distinct and below `n`.
pub open spec fn distinct_below(s: Seq<usize>, n: int) -> bool {
    &&& forall|k: int| 0 <= k < s.len() ==> (#[trigger] s[k] as int) < n
    &&& forall|a: int, b: int| 0 <= a < b < s.len() ==> s[a] != s[b]
}

proof fn lemma_relevance_order(scores: Seq<usize>, n: int)
    requires
        0 <= n <= scores.len() <= usize::MAX,
    ensures
        distinct_below(relevance_order(scores, n), n),
    decreases n,
{
    if n > 0 {
        let prev = relevance_order(scores, n - 1);
        lemma_relevance_order(scores, n - 1);
        if scores[n - 1] > 0 {
            let i = (n - 1) as usize;
            lemma_insert_ranked(prev, i, scores);
            let p = rank_slot(prev, i, scores);
            let r = insert_ranked(prev, i, scores);
            assert forall|k: int| 0 <= k < r.len() implies (#[trigger] r[k] as int) < n by {
                if k < p {
                    assert(r[k] == prev[k]);
                } else if k > p {
                    assert(r[k] == prev[k - 1]);
                }
            }
            assert forall|a: int, b: int| 0 <= a < b < r.len() implies r[a] != r[b] by {
                let pa = if a < p { a } else { a - 1 };
                let pb = if b < p { b } else { b - 1 };
                if a != p && b != p {
                    assert(r[a] == prev[pa]);
                    assert(r[b] == prev[pb]);
                } else if a == p {
                    assert(r[b] == prev[pb]);
                    assert((prev[pb] as int) < n - 1);
                } else {
                    assert(r[a] == prev[pa]);
                    assert((prev[pa] as int) < n - 1);
                }
            }
        }
    }
}

/// Chunk `a` is listed before chunk `b` by relevance: a higher score, or an
/// equal score and an earlier position.
spec fn listed_before(scores: Seq<usize>, a: usize, b: usize) -> bool {
    scores[a as int] > scores[b as int] || (scores[a as int] == scores[b as int] && a < b)
}

/// `o` is ordered by relevance: highest score first, ties by position.
spec fn by_relevance(scores: Seq<usize>, o: Seq<usize>) -> bool {
    forall|p: int, q: int| 0 <= p < q < o.len() ==> listed_before(scores, #[trigger] o[p], #[trigger] o[q])
}

proof fn lemma_relevance_sorted(scores: Seq<usize>, n: int)
    requires
        0 <= n <= scores.len() <= usize::MAX,
    ensures
        by_relevance(scores, relevance_order(scores, n)),
        forall|i: usize| relevance_order(scores, n).contains(i) <==> (i < n && scores[i as int] > 0),
    decreases n,
{
    if n > 0 {
        let prev = relevance_order(scores, n - 1);
        lemma_relevance_sorted(scores, n - 1);
        lemma_relevance_order(scores, n - 1);
        if scores[n - 1] > 0 {
            let i = (n - 1) as usize;
            lemma_insert_ranked(prev, i, scores);
            let p = rank_slot(prev, i, scores);
            let r = insert_ranked(prev, i, scores);
            assert(r.len() == prev.len() + 1);
            assert forall|k: int| 0 <= k < r.len() implies #[trigger] r[k] == (if k < p {
                prev[k]
            } else if k == p {
                i
            } else {
                prev[k - 1]
            }) by {}
            // every entry before the slot ranks before `i`, every entry from it on after
            assert forall|k: int| 0 <= k < p implies listed_before(scores, prev[k], i) by {
                assert(!ranks_before(scores, i, prev[k]));
                assert((prev[k] as int) < n - 1);
            }
            assert forall|k: int| p <= k < prev.len() implies listed_before(scores, i, prev[k]) by {
                if k > p {
                    assert(listed_before(scores, prev[p], prev[k]));
                }
            }
            assert forall|a: int, b: int| 0 <= a < b < r.len() implies listed_before(
                scores,
                #[trigger] r[a],
                #[trigger] r[b],
            ) by {
                if a < p && b < p {
                    assert(listed_before(scores, prev[a], prev[b]));
                } else if a < p && b == p {
                } else if a < p {
                    assert(listed_before(scores, prev[a], prev[b - 1]));
                } else if a == p {
                } else {
                    assert(listed_before(scores, prev[a - 1], prev[b - 1]));
                }
            }
            assert forall|x: usize| r.contains(x) <==> (x < n && scores[x as int] > 0) by {
                if r.contains(x) {
                    let k = choose|k: int| 0 <= k < r.len() && r[k] == x;
                    if k < p {
                        assert(prev.contains(prev[k]));
                    } else if k > p {
                        assert(prev.contains(prev[k - 1]));
                    }
                }
                if x < n && scores[x as int] > 0 {
                    if x == i {
                        assert(r[p] == x);
                    } else {
                        assert(prev.contains(x));
                        let k = choose|k: int| 0 <= k < prev.len() && prev[k] == x;
                        if k < p {
                            assert(r[k] == x);
                        } else {
                            assert(r[k + 1] == x);
                        }
                    }
                }
            }
        }
    }
}

/// The relevance order lists exactly the chunks with a positive score, the
/// highest score first and equal scores by increasing position: for
/// positions `p < q` of the order, the chunk at `p` scores higher than the
/// chunk at `q`, or as high and comes earlier.
pub proof fn lemma_relevance_order_ranks(scores: Seq<usize>, n: int)
    requires
        0 <= n <= scores.len() <= usize::MAX,
    ensures
        forall|p: int, q: int|
            0 <= p < q < relevance_order(scores, n).len() ==> {
                let a = #[trigger] relevance_order(scores, n)[p];
                let b = #[trigger] relevance_order(scores, n)[q];
                scores[a as int] > scores[b as int] || (scores[a as int] == scores[b as int] && a < b)
            },
        forall|i: usize| relevance_order(scores, n).contains(i) <==> (i < n && scores[i as int] > 0),
{
    lemma_relevance_sorted(scores, n);
    let o = relevance_order(scores, n);
    assert forall|p: int, q: int| 0 <= p < q < o.len() implies ({
        let a = #[trigger] o[p];
        let b = #[trigger] o[q];
        scores[a as int] > scores[b as int] || (scores[a as int] == scores[b as int] && a < b)
    }) by {
        assert(listed_before(scores, o[p], o[q]));
    }
}

// ---------------------------------------------------------- spread indices

/// `s` with each value kept at its first occurrence.
pub open spec fn dedup(s: Seq<usize>) -> Seq<usize>
    decreases s.len(),
{
    if s.len() == 0 {
        Seq::empty()
    } else {
        let prev = dedup(s.drop_last());
        if prev.contains(s.last()) {
            prev
        } else {
            prev.push(s.last())
        }
    }
}

/// At most `max_count` positions spread evenly over `0..len`, from the first
/// to the last: all of them when `len <= max_count`, else
/// `n * (len - 1) / max(max_count - 1, 1)` for `n` in `0..max_count`.
pub open spec fn evenly_spaced(len: int, max_count: int) -> Seq<usize> {
    if len <= 0 || max_count <= 0 {
        Seq::empty()
    } else if len <= max_count {
        Seq::new(len as nat, |i: int| i as usize)
    } else {
        let d = if max_count - 1 > 1 {
            max_count - 1
        } else {
            1
        };
        dedup(Seq::new(max_count as nat, |n: int| (n * (len - 1) / d) as usize))
    }
}

proof fn lemma_dedup_below(s: Seq<usize>, n: int)
    requires
        forall|k: int| 0 <= k < s.len() ==> (#[trigger] s[k] as int) < n,
    ensures
        distinct_below(dedup(s), n),
    decreases s.len(),
{
    if s.len() > 0 {
        lemma_dedup_below(s.drop_last(), n);
        let prev = dedup(s.drop_last());
        if !prev.contains(s.last()) {
            let r = prev.push(s.last());
            assert forall|a: int, b: int| 0 <= a < b < r.len() implies r[a] != r[b] by {
                if b == prev.len() {
                    assert(r[a] == prev[a]);
                }
            }
            assert forall|k: int| 0 <= k < r.len() implies (#[trigger] r[k] as int) < n by {
                if k == prev.len() {
                    assert(s[s.len() - 1] == s.last());
                }
            }
        }
    }
}

proof fn lemma_evenly_spaced(len: int, max_count: int)
    requires
        len <= usize::MAX,
    ensures
        distinct_below(evenly_spaced(len, max_count), len),
{
    if len <= 0 || max_count <= 0 {
    } else if len <= max_count {
        let s = Seq::new(len as nat, |i: int| i as usize);
        assert forall|k: int| 0 <= k < s.len() implies (#[trigger] s[k] as int) < len by {}
    } else {
        let d = if max_count - 1 > 1 {
            max_count - 1
        } else {
            1
        };
        let s = Seq::new(max_count as nat, |n: int| (n * (len - 1) / d) as usize);
        assert forall|k: int| 0 <= k < s.len() implies (#[trigger] s[k] as int) < len by {
            assert(0 <= k * (len - 1) <= d * (len - 1)) by (nonlinear_arith)
                requires
                    0 <= k <= d,
                    len > 1,
            ;
            assert(k * (len - 1) / d <= (d * (len - 1)) / d) by (nonlinear_arith)
                requires
                    0 <= k * (len - 1) <= d * (len - 1),
                    d > 0,
            ;
            assert((d * (len - 1)) / d == len - 1) by (nonlinear_arith)
                requires
                    d > 0,
            ;
            assert(s[k] == (k * (len - 1) / d) as usize);
        }
        lemma_dedup_below(s, len);
    }
}

proof fn lemma_dedup_keeps(s: Seq<usize>, x: usize)
    ensures
        s.contains(x) <==> dedup(s).contains(x),
        dedup(s).len() <= s.len(),
    decreases s.len(),
{
    if s.len() > 0 {
        lemma_dedup_keeps(s.drop_last(), x);
        assert(s =~= s.drop_last().push(s.last()));
        if s.drop_last().contains(x) {
            let k = choose|k: int| 0 <= k < s.drop_last().len() && s.drop_last()[k] == x;
            assert(s[k] == x);
        }
        if s.contains(x) && !s.drop_last().contains(x) {
            let k = choose|k: int| 0 <= k < s.len() && s[k] == x;
            if k < s.len() - 1 {
                assert(s.drop_last()[k] == x);
            }
            assert(x == s.last());
        }
        let prev = dedup(s.drop_last());
        if !prev.contains(s.last()) {
            assert(prev.push(s.last())[prev.len() as int] == s.last());
            if prev.contains(x) {
                let k = choose|k: int| 0 <= k < prev.len() && prev[k] == x;
                assert(prev.push(s.last())[k] == x);
            }
            if prev.push(s.last()).contains(x) && x != s.last() {
                let k = choose|k: int| 0 <= k < prev.len() + 1 && prev.push(s.last())[k] == x;
                assert(prev[k] == x);
            }
        }
    }
}

proof fn lemma_step_at_least_one(n: int, l: int, d: int)
    requires
        0 <= n,
        0 < d <= l,
    ensures
        (n + 1) * l / d >= n * l / d + 1,
{
    let q = n * l / d;
    let r = n * l % d;
    assert(n * l == q * d + r && 0 <= r < d) by (nonlinear_arith)
        requires
            d > 0,
            q == n * l / d,
            r == n * l % d,
    ;
    assert((n + 1) * l == n * l + l) by (nonlinear_arith);
    assert((n + 1) * l >= (q + 1) * d) by (nonlinear_arith)
        requires
            (n + 1) * l == n * l + l,
            n * l == q * d + r,
            0 <= r,
            d <= l,
    ;
    assert((n + 1) * l / d >= q + 1) by (nonlinear_arith)
        requires
            (n + 1) * l >= (q + 1) * d,
            d > 0,
    ;
}

proof fn lemma_steps_increase(i: int, j: int, l: int, d: int)
    requires
        0 <= i < j,
        0 < d <= l,
    ensures
        i * l / d < j * l / d,
    decreases j - i,
{
    lemma_step_at_least_one(j - 1, l, d);
    if i < j - 1 {
        lemma_steps_increase(i, j - 1, l, d);
    }
}

proof fn lemma_dedup_increasing(s: Seq<usize>)
    requires
        forall|i: int, j: int| 0 <= i < j < s.len() ==> s[i] < s[j],
    ensures
        dedup(s) == s,
    decreases s.len(),
{
    if s.len() > 0 {
        lemma_dedup_increasing(s.drop_last());
        if s.drop_last().contains(s.last()) {
            let k = choose|k: int| 0 <= k < s.drop_last().len() && s.drop_last()[k] == s.last();
            assert(s[k] < s[s.len() - 1]);
        }
        assert(s.drop_last().push(s.last()) =~= s);
    }
}

/// The evenly spaced samples come in strictly increasing order, and there
/// are exactly `max_count` of them when the chunks outnumber it (else one
/// per chunk): no position is sampled twice.
pub proof fn lemma_evenly_spaced_increasing(len: int, max_count: int)
    requires
        0 < len <= usize::MAX,
        0 < max_count,
    ensures
        forall|i: int, j: int|
            0 <= i < j < evenly_spaced(len, max_count).len() ==> evenly_spaced(len, max_count)[i]
                < evenly_spaced(len, max_count)[j],
        len > max_count ==> evenly_spaced(len, max_count).len() == max_count,
        len <= max_count ==> evenly_spaced(len, max_count).len() == len,
{
    if len > max_count {
        let d = if max_count - 1 > 1 {
            max_count - 1
        } else {
            1
        };
        let l = len - 1;
        let s = Seq::new(max_count as nat, |n: int| (n * (len - 1) / d) as usize);
        assert forall|n: int| 0 <= n < max_count implies (#[trigger] s[n]) as int == n * l / d by {
            assert(0 <= n * l / d <= l) by (nonlinear_arith)
                requires
                    0 <= n <= d,
                    0 < d,
                    0 <= l,
            ;
        }
        assert forall|i: int, j: int| 0 <= i < j < s.len() implies s[i] < s[j] by {
            lemma_steps_increase(i, j, l, d);
        }
        lemma_dedup_increasing(s);
    }
}

/// Spreading samples over the chunks takes at most `max_count` of them and,
/// when there are chunks and room for two samples, always takes the first
/// and the last chunk, so a sample spans the whole time range.
pub proof fn lemma_evenly_spaced_spans_range(len: int, max_count: int)
    requires
        0 < len <= usize::MAX,
        2 <= max_count,
    ensures
        evenly_spaced(len, max_count).len() <= max_count,
        evenly_spaced(len, max_count).contains(0usize),
        evenly_spaced(len, max_count).contains((len - 1) as usize),
{
    if len <= max_count {
        let s = Seq::new(len as nat, |i: int| i as usize);
        assert(s[0] == 0usize);
        assert(s[len - 1] == (len - 1) as usize);
    } else {
        let d = max_count - 1;
        let s = Seq::new(max_count as nat, |n: int| (n * (len - 1) / d) as usize);
        assert(evenly_spaced(len, max_count) == dedup(s));
        assert(s[0] == 0usize);
        assert((d * (len - 1)) / d == len - 1) by (nonlinear_arith)
            requires
                d > 0,
        ;
        assert(s[d] == (len - 1) as usize);
        lemma_dedup_keeps(s, 0usize);
        lemma_dedup_keeps(s, (len - 1) as usize);
    }
}

/// At most `max_count` positions spread evenly over `0..len` (see
/// `evenly_spaced`).
pub fn evenly_spaced_indices(len: usize, max_count: usize) -> (res: Vec<usize>)
    ensures
        res@ == evenly_spaced(len as int, max_count as int),
        distinct_below(res@, len as int),
{
    proof {
        lemma_evenly_spaced(len as int, max_count as int);
    }
    let mut out: Vec<usize> = Vec::new();
    if len == 0 || max_count == 0 {
        return out;
    }
    if len <= max_count {
        let mut i: usize = 0;
        while i < len
            invariant
                i <= len,
                out@ == Seq::new(i as nat, |k: int| k as usize),
            decreases len - i,
        {
            out.push(i);
            i = i + 1;
            proof {
                assert(out@ =~= Seq::new(i as nat, |k: int| k as usize));
            }
        }
        return out;
    }
    let d: u128 = if max_count - 1 > 1 { (max_count - 1) as u128 } else { 1 };
    let ghost all = Seq::new(max_count as nat, |n: int| (n * (len - 1) / (d as int)) as usize);
    let mut n: usize = 0;
    while n < max_count
        invariant
            len > max_count > 0,
            n <= max_count,
            d as int == if max_count - 1 > 1 {
                max_count - 1
            } else {
                1
            },
            all == Seq::new(max_count as nat, |n: int| (n * (len - 1) / (d as int)) as usize),
            out@ == dedup(all.take(n as int)),
        decreases max_count - n,
    {
        proof {
            assert(usize::MAX == 0xffff_ffff || usize::MAX == 0xffff_ffff_ffff_ffff);
            let ghost a: int = n as int;
            let ghost b: int = len - 1;
            assert(a * b <= 0xffff_ffff_ffff_ffff_ffff_ffff_ffff_ffff) by (nonlinear_arith)
                requires
                    0 <= a <= 0xffff_ffff_ffff_ffff,
                    0 <= b <= 0xffff_ffff_ffff_ffff,
            ;
        }
        let prod: u128 = (n as u128) * ((len - 1) as u128);
        let q: u128 = prod / d;
        proof {
            assert(0 <= prod <= d * (len - 1)) by (nonlinear_arith)
                requires
                    prod == n * (len - 1),
                    n <= d,
                    len > 1,
            ;
            let ghost di = d as int;
            assert(q <= (di * (len - 1)) / di) by (nonlinear_arith)
                requires
                    q == prod / d,
                    prod <= di * (len - 1),
                    di == d as int,
                    d > 0,
            ;
            assert((di * (len - 1)) / di == len - 1) by (nonlinear_arith)
                requires
                    di > 0,
            ;
        }
        let index = q as usize;
        proof {
            assert(all.take(n + 1).drop_last() =~= all.take(n as int));
            assert(all.take(n + 1).last() == index);
        }
        let mut seen = false;
        let mut k: usize = 0;
        while k < out.len()
            invariant
                k <= out@.len(),
                seen == exists|j: int| 0 <= j < k && out@[j] == index,
            decreases out.len() - k,
        {
            if out[k] == index {
                seen = true;
            }
            k = k + 1;
        }
        if !seen {
            out.push(index);
        }
        n = n + 1;
    }
    proof {
        assert(all.take(max_count as int) =~= all);
    }
    out
}

// ----------------------------------------------------------------- selection

/// The weight that a chosen relevant chunk takes from the relevance budget.
pub open spec fn relevance_weight(chunk_len: int, content_budget: int) -> int {
    let w = if chunk_len < content_budget / 8 {
        chunk_len
    } else {
        content_budget / 8
    };
    if w > 1 {
        w
    } else {
        1
    }
}

/// The relevant chunks taken from `order[i..]` while less than
/// `relevance_budget` has been used.
pub open spec fn relevance_pick(
    order: Seq<usize>,
    chunks: Seq<Seq<char>>,
    relevance_budget: int,
    content_budget: int,
    i: int,
    used: int,
) -> Seq<usize>
    decreases order.len() - i,
{
    if i < 0 || i >= order.len() || used >= relevance_budget {
        Seq::empty()
    } else {
        seq![order[i]] + relevance_pick(
            order,
            chunks,
            relevance_budget,
            content_budget,
            i + 1,
            used + relevance_weight(chunks[order[i] as int].len() as int, content_budget),
        )
    }
}

proof fn lemma_relevance_pick(
    order: Seq<usize>,
    chunks: Seq<Seq<char>>,
    rb: int,
    cb: int,
    i: int,
    used: int,
) -> (m: int)
    requires
        0 <= i <= order.len(),
    ensures
        i <= m <= order.len(),
        relevance_pick(order, chunks, rb, cb, i, used) == order.subrange(i, m),
    decreases order.len() - i,
{
    if i >= order.len() || used >= rb {
        assert(relevance_pick(order, chunks, rb, cb, i, used) =~= order.subrange(i, i));
        i
    } else {
        let u2 = used + relevance_weight(chunks[order[i] as int].len() as int, cb);
        let m = lemma_relevance_pick(order, chunks, rb, cb, i + 1, u2);
        assert(seq![order[i]] + order.subrange(i + 1, m) =~= order.subrange(i, m));
        m
    }
}

/// `order` followed by the entries of `extra` that it does not yet hold.
pub open spec fn with_missing(order: Seq<usize>, extra: Seq<usize>) -> Seq<usize>
    decreases extra.len(),
{
    if extra.len() == 0 {
        order
    } else {
        let prev = with_missing(order, extra.drop_last());
        if prev.contains(extra.last()) {
            prev
        } else {
            prev.push(extra.last())
        }
    }
}

proof fn lemma_with_missing(order: Seq<usize>, extra: Seq<usize>, n: int)
    requires
        distinct_below(order, n),
        forall|k: int| 0 <= k < extra.len() ==> (#[trigger] extra[k] as int) < n,
    ensures
        distinct_below(with_missing(order, extra), n),
    decreases extra.len(),
{
    if extra.len() > 0 {
        lemma_with_missing(order, extra.drop_last(), n);
        let prev = with_missing(order, extra.drop_last());
        if !prev.contains(extra.last()) {
            let r = prev.push(extra.last());
            assert forall|a: int, b: int| 0 <= a < b < r.len() implies r[a] != r[b] by {
                if b == prev.len() {
                    assert(r[a] == prev[a]);
                }
            }
            assert forall|k: int| 0 <= k < r.len() implies (#[trigger] r[k] as int) < n by {
                if k == prev.len() {
                    assert(extra[extra.len() - 1] == extra.last());
                }
            }
        }
    }
}

/// The smallest of three integers.
pub open spec fn min3(a: int, b: int, c: int) -> int {
    let ab = if a < b {
        a
    } else {
        b
    };
    if ab < c {
        ab
    } else {
        c
    }
}

/// Walks `order` from `i`, giving each chunk up to `per_chunk` characters
/// while the content budget lasts (a separator counts before every chunk but
/// the first); `sel[c]` is how many characters of chunk `c` are taken, 0 for
/// none. The walk stops at the first chunk for which nothing remains.
pub open spec fn select_from(
    order: Seq<usize>,
    chunks: Seq<Seq<char>>,
    content_budget: int,
    per_chunk: int,
    i: int,
    used: int,
    any: bool,
    sel: Seq<usize>,
) -> Seq<usize>
    decreases order.len() - i,
{
    if i < 0 || i >= order.len() {
        sel
    } else {
        let sep = if any {
            chunk_sep().len() as int
        } else {
            0
        };
        let remaining = sat_sub(content_budget, used + sep);
        if remaining == 0 {
            sel
        } else {
            let c = order[i] as int;
            let k = min3(per_chunk, remaining, chunks[c].len() as int);
            if k == 0 {
                select_from(order, chunks, content_budget, per_chunk, i + 1, used, any, sel)
            } else {
                select_from(
                    order,
                    chunks,
                    content_budget,
                    per_chunk,
                    i + 1,
                    used + sep + k,
                    true,
                    sel.update(c, k as usize),
                )
            }
        }
    }
}

/// The taken prefixes of the selected chunks among `0..n`, in chunk order.
pub open spec fn selected_pieces(chunks: Seq<Seq<char>>, sel: Seq<usize>, n: int) -> Seq<Seq<char>>
    decreases n,
{
    if n <= 0 {
        Seq::empty()
    } else {
        let prev = selected_pieces(chunks, sel, n - 1);
        if sel[n - 1] > 0 {
            prev.push(take_spec(chunks[n - 1], sel[n - 1] as int))
        } else {
            prev
        }
    }
}

/// Sum of `sel[0..n]`.
pub open spec fn sel_total(sel: Seq<usize>, n: int) -> int
    decreases n,
{
    if n <= 0 {
        0
    } else {
        sel_total(sel, n - 1) + sel[n - 1]
    }
}

/// How many of `sel[0..n]` are positive.
pub open spec fn sel_count(sel: Seq<usize>, n: int) -> int
    decreases n,
{
    if n <= 0 {
        0
    } else {
        sel_count(sel, n - 1) + if sel[n - 1] > 0 {
            1int
        } else {
            0
        }
    }
}

/// The joined length of pieces of these total and count.
pub open spec fn joined_len(total: int, count: int) -> int {
    if count == 0 {
        0
    } else {
        total + 5 * (count - 1)
    }
}

proof fn lemma_sel_update(sel: Seq<usize>, n: int, c: int, k: usize)
    requires
        0 <= c < n <= sel.len(),
        sel[c] == 0,
        k > 0,
    ensures
        sel_total(sel.update(c, k), n) == sel_total(sel, n) + k,
        sel_count(sel.update(c, k), n) == sel_count(sel, n) + 1,
    decreases n,
{
    if n - 1 > c {
        lemma_sel_update(sel, n - 1, c, k);
    } else {
        assert(sel.update(c, k).take(c) =~= sel.take(c));
        lemma_sel_prefix_same(sel, sel.update(c, k), c);
    }
}

proof fn lemma_sel_count_zero(sel: Seq<usize>, n: int)
    requires
        0 <= n <= sel.len(),
    ensures
        sel_count(sel, n) >= 0,
        sel_total(sel, n) >= 0,
        sel_count(sel, n) == 0 ==> sel_total(sel, n) == 0,
    decreases n,
{
    if n > 0 {
        lemma_sel_count_zero(sel, n - 1);
    }
}

proof fn lemma_sel_prefix_same(a: Seq<usize>, b: Seq<usize>, n: int)
    requires
        0 <= n <= a.len(),
        n <= b.len(),
        forall|k: int| 0 <= k < n ==> a[k] == b[k],
    ensures
        sel_total(a, n) == sel_total(b, n),
        sel_count(a, n) == sel_count(b, n),
    decreases n,
{
    if n > 0 {
        lemma_sel_prefix_same(a, b, n - 1);
    }
}

proof fn lemma_selected_pieces_len(chunks: Seq<Seq<char>>, sel: Seq<usize>, n: int)
    requires
        0 <= n <= sel.len(),
        n <= chunks.len(),
        forall|k: int| 0 <= k < n ==> (#[trigger] sel[k] as int) <= chunks[k].len(),
    ensures
        selected_pieces(chunks, sel, n).len() == sel_count(sel, n),
        join(selected_pieces(chunks, sel, n), chunk_sep()).len() == joined_len(
            sel_total(sel, n),
            sel_count(sel, n),
        ),
    decreases n,
{
    reveal_strlit("\n---\n");
    lemma_sel_count_zero(sel, n);
    if n > 0 {
        lemma_sel_count_zero(sel, n - 1);
        lemma_selected_pieces_len(chunks, sel, n - 1);
        let prev = selected_pieces(chunks, sel, n - 1);
        if sel[n - 1] > 0 {
            let x = take_spec(chunks[n - 1], sel[n - 1] as int);
            let p = prev.push(x);
            assert(p.drop_last() =~= prev);
            assert(p.last() == x);
            assert(x.len() == sel[n - 1]);
            if prev.len() == 0 {
                assert(join(p, chunk_sep()) == x);
            } else {
                assert(join(p, chunk_sep()) == join(prev, chunk_sep()) + chunk_sep() + x);
            }
        }
    }
}

/// Invariant of the selection walk.
pub open spec fn select_inv(
    order: Seq<usize>,
    chunks: Seq<Seq<char>>,
    content_budget: int,
    i: int,
    used: int,
    any: bool,
    sel: Seq<usize>,
) -> bool {
    let n = chunks.len() as int;
    &&& 0 <= i <= order.len()
    &&& sel.len() == n
    &&& distinct_below(order, n)
    &&& forall|j: int| i <= j < order.len() ==> sel[#[trigger] order[j] as int] == 0
    &&& forall|c: int| 0 <= c < n ==> (#[trigger] sel[c] as int) <= chunks[c].len()
    &&& used == joined_len(sel_total(sel, n), sel_count(sel, n))
    &&& any == (sel_count(sel, n) > 0)
    &&& 0 <= used <= content_budget <= usize::MAX
}

proof fn lemma_select_step(
    order: Seq<usize>,
    chunks: Seq<Seq<char>>,
    cb: int,
    per: int,
    i: int,
    used: int,
    any: bool,
    sel: Seq<usize>,
)
    requires
        select_inv(order, chunks, cb, i, used, any, sel),
        i < order.len(),
        per >= 0,
    ensures
        ({
            let sep = if any {
                chunk_sep().len() as int
            } else {
                0
            };
            let remaining = sat_sub(cb, used + sep);
            let c = order[i] as int;
            let k = min3(per, remaining, chunks[c].len() as int);
            remaining > 0 && k > 0 ==> select_inv(
                order,
                chunks,
                cb,
                i + 1,
                used + sep + k,
                true,
                sel.update(c, k as usize),
            )
        }),
        select_inv(order, chunks, cb, i + 1, used, any, sel),
{
    reveal_strlit("\n---\n");
    let n = chunks.len() as int;
    let sep = if any {
        5int
    } else {
        0
    };
    let remaining = sat_sub(cb, used + sep);
    let c = order[i] as int;
    let k = min3(per, remaining, chunks[c].len() as int);
    lemma_sel_count_zero(sel, n);
    if remaining > 0 && k > 0 {
        let sel2 = sel.update(c, k as usize);
        lemma_sel_update(sel, n, c, k as usize);
        assert forall|j: int| i + 1 <= j < order.len() implies sel2[#[trigger] order[j] as int]
            == 0 by {
            assert(order[j] != order[i]);
        }
        assert forall|x: int| 0 <= x < n implies (#[trigger] sel2[x] as int) <= chunks[x].len() by {
            if x != c {
                assert(sel2[x] == sel[x]);
            }
        }
    }
}

proof fn lemma_select_from(
    order: Seq<usize>,
    chunks: Seq<Seq<char>>,
    cb: int,
    per: int,
    i: int,
    used: int,
    any: bool,
    sel: Seq<usize>,
)
    requires
        select_inv(order, chunks, cb, i, used, any, sel),
        per >= 0,
    ensures
        ({
            let r = select_from(order, chunks, cb, per, i, used, any, sel);
            let n = chunks.len() as int;
            &&& r.len() == n
            &&& forall|c: int| 0 <= c < n ==> (#[trigger] r[c] as int) <= chunks[c].len()
            &&& joined_len(sel_total(r, n), sel_count(r, n)) <= cb
        }),
    decreases order.len() - i,
{
    if i < order.len() {
        lemma_select_step(order, chunks, cb, per, i, used, any, sel);
        let sep = if any {
            chunk_sep().len() as int
        } else {
            0
        };
        let remaining = sat_sub(cb, used + sep);
        if remaining > 0 {
            let c = order[i] as int;
            let k = min3(per, remaining, chunks[c].len() as int);
            if k == 0 {
                lemma_select_from(order, chunks, cb, per, i + 1, used, any, sel);
            } else {
                lemma_select_from(
                    order,
                    chunks,
                    cb,
                    per,
                    i + 1,
                    used + sep + k,
                    true,
                    sel.update(c, k as usize),
                );
            }
        }
    }
}

// ------------------------------------------------------------------- section

/// The opening line of the OCR section.
pub open spec fn ocr_header() -> Seq<char> {
    "[OCR 텍스트 시작]\n"@
}

/// The closing line of the OCR section.
pub open spec fn ocr_footer() -> Seq<char> {
    "\n[OCR 텍스트 끝]"@
}

/// The note that only representative chunks of `n` are included.
pub open spec fn omitted_note(n: nat) -> Seq<char> {
    "[OCR 일부만 포함: 전체 "@ + decimal(n) + "개 조각 중 대표 조각 선택]\n"@
}

/// The relevance scores of the chunks against the tokens.
pub open spec fn chunk_scores(chunks: Seq<Seq<char>>, tokens: Seq<Seq<char>>) -> Seq<usize> {
    Seq::new(chunks.len(), |i: int| token_hits(chunks[i], tokens) as usize)
}

/// The chunk order of a sampled section: the relevant chunks picked within two
/// thirds of the content budget, then the evenly spread chunks not yet picked.
pub open spec fn sampled_order(
    chunks: Seq<Seq<char>>,
    tokens: Seq<Seq<char>>,
    content_budget: int,
) -> Seq<usize> {
    let n = chunks.len() as int;
    let rel = relevance_order(chunk_scores(chunks, tokens), n);
    let picked = relevance_pick(rel, chunks, content_budget * 2 / 3, content_budget, 0, 0);
    with_missing(picked, evenly_spaced(n, 8))
}

/// The per-chunk character allowance of a sampled section.
pub open spec fn per_chunk_budget(content_budget: int) -> int {
    if content_budget / 8 > 1 {
        content_budget / 8
    } else {
        1
    }
}

/// The OCR section for an evidence text within `budget` characters, with
/// `relevance_source` (Work Item and activity text) deciding which chunks are
/// relevant:
/// - empty when there are no chunks or the budget is 0;
/// - all chunks between the header and footer when that fits;
/// - otherwise header, omission note, the selected chunk prefixes in chunk
///   order, footer (or, when even that frame does not fit, the frame cut by
///   `truncated`).
pub open spec fn ocr_section(ocr: Seq<char>, budget: int, relevance_source: Seq<char>) -> Seq<char> {
    let chunks = ocr_chunks_of(ocr);
    let n = chunks.len() as int;
    if n == 0 || budget == 0 {
        Seq::empty()
    } else {
        let full = join(chunks, chunk_sep());
        if ocr_header().len() + full.len() + ocr_footer().len() <= budget {
            ocr_header() + full + ocr_footer()
        } else {
            let note = omitted_note(n as nat);
            let cb = sat_sub(budget, (ocr_header().len() + note.len() + ocr_footer().len()) as int);
            if cb == 0 {
                truncated(ocr_header() + note + ocr_footer(), budget)
            } else {
                let order = sampled_order(chunks, context_tokens_of(relevance_source), cb);
                let sel = select_from(
                    order,
                    chunks,
                    cb,
                    per_chunk_budget(cb),
                    0,
                    0,
                    false,
                    Seq::new(n as nat, |i: int| 0usize),
                );
                ocr_header() + note + join(selected_pieces(chunks, sel, n), chunk_sep())
                    + ocr_footer()
            }
        }
    }
}


proof fn lemma_split_from_len(s: Seq<char>, sep: Seq<char>, start: int, i: int)
    requires
        sep.len() > 0,
        0 <= start <= i <= s.len(),
    ensures
        split_from(s, sep, start, i).len() <= s.len() - i + 1,
    decreases s.len() - i,
{
    if i + sep.len() > s.len() {
    } else if matches_at(s, sep, i) {
        lemma_split_from_len(s, sep, i + sep.len(), i + sep.len());
    } else {
        lemma_split_from_len(s, sep, start, i + 1);
    }
}

proof fn lemma_trimmed_nonempty_len(parts: Seq<Seq<char>>)
    ensures
        trimmed_nonempty(parts).len() <= parts.len(),
    decreases parts.len(),
{
    if parts.len() > 0 {
        lemma_trimmed_nonempty_len(parts.drop_last());
    }
}

/// An evidence text has at most one chunk more than it has characters.
pub proof fn lemma_chunk_count(ocr: Seq<char>)
    ensures
        ocr_chunks_of(ocr).len() <= ocr.len() + 1,
{
    reveal_strlit("\n---\n");
    lemma_split_from_len(ocr, chunk_sep(), 0, 0);
    lemma_trimmed_nonempty_len(split(ocr, chunk_sep()));
}

proof fn lemma_zero_sel(sel: Seq<usize>, n: int)
    requires
        0 <= n <= sel.len(),
        forall|k: int| 0 <= k < n ==> sel[k] == 0,
    ensures
        sel_total(sel, n) == 0,
        sel_count(sel, n) == 0,
    decreases n,
{
    if n > 0 {
        lemma_zero_sel(sel, n - 1);
    }
}

proof fn lemma_sampled_order(chunks: Seq<Seq<char>>, tokens: Seq<Seq<char>>, cb: int)
    requires
        chunks.len() <= usize::MAX,
    ensures
        distinct_below(sampled_order(chunks, tokens, cb), chunks.len() as int),
{
    let n = chunks.len() as int;
    let rel = relevance_order(chunk_scores(chunks, tokens), n);
    lemma_relevance_order(chunk_scores(chunks, tokens), n);
    let m = lemma_relevance_pick(rel, chunks, cb * 2 / 3, cb, 0, 0);
    let picked = rel.subrange(0, m);
    assert(distinct_below(picked, n)) by {
        assert forall|k: int| 0 <= k < picked.len() implies (#[trigger] picked[k] as int) < n by {
            assert(picked[k] == rel[k]);
        }
        assert forall|a: int, b: int| 0 <= a < b < picked.len() implies picked[a] != picked[b] by {
            assert(picked[a] == rel[a] && picked[b] == rel[b]);
        }
    }
    lemma_evenly_spaced(n, 8);
    lemma_with_missing(picked, evenly_spaced(n, 8), n);
}

/// An OCR section never holds more characters than its budget.
pub proof fn lemma_ocr_section_within_budget(ocr: Seq<char>, budget: int, relevance_source: Seq<char>)
    requires
        0 <= budget <= usize::MAX,
        ocr.len() < usize::MAX,
    ensures
        ocr_section(ocr, budget, relevance_source).len() <= budget,
{
    lemma_chunk_count(ocr);
    lemma_section_len(ocr, budget, relevance_source);
}

/// The budget bound of `lemma_ocr_section_within_budget`, for callers that
/// know the chunk count directly.
pub proof fn lemma_section_len(ocr: Seq<char>, budget: int, relevance_source: Seq<char>)
    requires
        0 <= budget <= usize::MAX,
        ocr_chunks_of(ocr).len() <= usize::MAX,
    ensures
        ocr_section(ocr, budget, relevance_source).len() <= budget,
{
    reveal_strlit("\n---\n");
    reveal_strlit("[OCR 텍스트 시작]\n");
    reveal_strlit("\n[OCR 텍스트 끝]");
    let chunks = ocr_chunks_of(ocr);
    let n = chunks.len() as int;
    if n == 0 || budget == 0 {
    } else {
        let full = join(chunks, chunk_sep());
        if ocr_header().len() + full.len() + ocr_footer().len() <= budget {
        } else {
            let note = omitted_note(n as nat);
            let cb = sat_sub(budget, (ocr_header().len() + note.len() + ocr_footer().len()) as int);
            if cb == 0 {
                crate::worklog::lemma_truncated_len(ocr_header() + note + ocr_footer(), budget);
            } else {
                let tokens = context_tokens_of(relevance_source);
                let order = sampled_order(chunks, tokens, cb);
                lemma_sampled_order(chunks, tokens, cb);
                let zeros = Seq::new(n as nat, |i: int| 0usize);
                lemma_zero_sel(zeros, n);
                assert(select_inv(order, chunks, cb, 0, 0, false, zeros));
                lemma_select_from(order, chunks, cb, per_chunk_budget(cb), 0, 0, false, zeros);
                let sel = select_from(order, chunks, cb, per_chunk_budget(cb), 0, 0, false, zeros);
                lemma_selected_pieces_len(chunks, sel, n);
            }
        }
    }
}

// ------------------------------------------------------------ exec sampling

fn chunk_scores_exec(chunks: &Vec<Vec<char>>, tokens: &Vec<Vec<char>>) -> (res: Vec<usize>)
    ensures
        res@ == chunk_scores(views(chunks@), views(tokens@)),
{
    let ghost tv = views(tokens@);
    let mut out: Vec<usize> = Vec::new();
    let mut c: usize = 0;
    while c < chunks.len()
        invariant
            c <= chunks@.len(),
            tv == views(tokens@),
            out@.len() == c,
            forall|k: int| 0 <= k < c ==> #[trigger] out@[k] == token_hits(chunks@[k]@, tv) as usize,
        decreases chunks.len() - c,
    {
        let mut hits: usize = 0;
        let mut t: usize = 0;
        while t < tokens.len()
            invariant
                t <= tokens@.len(),
                c < chunks@.len(),
                tv == views(tokens@),
                hits == token_hits(chunks@[c as int]@, tv.take(t as int)),
                hits <= t,
            decreases tokens.len() - t,
        {
            proof {
                assert(tv.take(t + 1).drop_last() =~= tv.take(t as int));
                assert(tv.take(t + 1).last() == tokens@[t as int]@);
            }
            if contains_chars(&chunks[c], &tokens[t]) {
                hits = hits + 1;
            }
            t = t + 1;
        }
        proof {
            assert(tv.take(tokens@.len() as int) =~= tv);
        }
        out.push(hits);
        c = c + 1;
    }
    proof {
        assert(out@ =~= chunk_scores(views(chunks@), views(tokens@)));
    }
    out
}

fn ranks_before_exec(scores: &Vec<usize>, a: usize, b: usize) -> (res: bool)
    requires
        a < scores@.len(),
        b < scores@.len(),
    ensures
        res == ranks_before(scores@, a, b),
{
    scores[a] > scores[b] || (scores[a] == scores[b] && a < b)
}

fn relevance_order_exec(scores: &Vec<usize>) -> (res: Vec<usize>)
    ensures
        res@ == relevance_order(scores@, scores@.len() as int),
{
    let n = scores.len();
    let mut order: Vec<usize> = Vec::new();
    let mut i: usize = 0;
    while i < n
        invariant
            n == scores@.len(),
            i <= n,
            order@ == relevance_order(scores@, i as int),
        decreases n - i,
    {
        proof {
            lemma_relevance_order(scores@, i as int);
        }
        if scores[i] > 0 {
            let mut j: usize = 0;
            while j < order.len() && !ranks_before_exec(scores, i, order[j])
                invariant
                    i < n == scores@.len(),
                    j <= order@.len(),
                    distinct_below(order@, i as int),
                    forall|k: int| 0 <= k < j ==> !ranks_before(scores@, i, #[trigger] order@[k]),
                decreases order.len() - j,
            {
                j = j + 1;
            }
            proof {
                lemma_insert_ranked(order@, i, scores@);
                let p = rank_slot(order@, i, scores@);
                if j < p {
                    assert(!ranks_before(scores@, i, order@[j as int]));
                }
                if p < j {
                    assert(!ranks_before(scores@, i, order@[p]));
                }
                assert(j == p);
                assert(order@.insert(j as int, i) =~= order@.take(p) + seq![i] + order@.skip(p));
            }
            order.insert(j, i);
        }
        i = i + 1;
    }
    order
}

fn relevance_pick_exec(order: &Vec<usize>, chunks: &Vec<Vec<char>>, cb: usize) -> (res: Vec<usize>)
    requires
        distinct_below(order@, chunks@.len() as int),
        cb < usize::MAX,
    ensures
        res@ == relevance_pick(order@, views(chunks@), cb * 2 / 3, cb as int, 0, 0),
{
    let ghost cv = views(chunks@);
    let rb: usize = ((cb as u128) * 2 / 3) as usize;
    let eighth = cb / 8;
    let mut picked: Vec<usize> = Vec::new();
    let mut used: usize = 0;
    let mut j: usize = 0;
    while j < order.len() && used < rb
        invariant
            j <= order@.len(),
            cv == views(chunks@),
            distinct_below(order@, chunks@.len() as int),
            rb == cb * 2 / 3,
            eighth == cb / 8,
            cb < usize::MAX,
            used <= cb,
            picked@ + relevance_pick(order@, cv, rb as int, cb as int, j as int, used as int)
                == relevance_pick(order@, cv, rb as int, cb as int, 0, 0),
        decreases order.len() - j,
    {
        let c = order[j];
        let len = chunks[c].len();
        let w0 = if len < eighth { len } else { eighth };
        let w = if w0 > 1 { w0 } else { 1 };
        proof {
            assert(cv[c as int] == chunks@[c as int]@);
            assert(w == relevance_weight(cv[c as int].len() as int, cb as int));
            assert(picked@.push(c) + relevance_pick(order@, cv, rb as int, cb as int, j + 1, used + w)
                =~= picked@ + relevance_pick(order@, cv, rb as int, cb as int, j as int, used as int));
        }
        picked.push(c);
        used = used + w;
        j = j + 1;
    }
    proof {
        assert(relevance_pick(order@, cv, rb as int, cb as int, j as int, used as int) =~= Seq::empty());
        assert(picked@ =~= picked@ + Seq::<usize>::empty());
    }
    picked
}

fn holds_index(v: &Vec<usize>, x: usize) -> (res: bool)
    ensures
        res == v@.contains(x),
{
    let mut k: usize = 0;
    while k < v.len()
        invariant
            k <= v@.len(),
            forall|j: int| 0 <= j < k ==> v@[j] != x,
        decreases v.len() - k,
    {
        if v[k] == x {
            return true;
        }
        k = k + 1;
    }
    false
}

fn with_missing_exec(order: Vec<usize>, extra: &Vec<usize>) -> (res: Vec<usize>)
    ensures
        res@ == with_missing(order@, extra@),
{
    let ghost o = order@;
    let mut out = order;
    let mut k: usize = 0;
    while k < extra.len()
        invariant
            k <= extra@.len(),
            out@ == with_missing(o, extra@.take(k as int)),
        decreases extra.len() - k,
    {
        proof {
            assert(extra@.take(k + 1).drop_last() =~= extra@.take(k as int));
            assert(extra@.take(k + 1).last() == extra@[k as int]);
        }
        if !holds_index(&out, extra[k]) {
            out.push(extra[k]);
        }
        k = k + 1;
    }
    proof {
        assert(extra@.take(extra@.len() as int) =~= extra@);
    }
    out
}

fn select_exec(order: &Vec<usize>, chunks: &Vec<Vec<char>>, cb: usize, per: usize) -> (res: Vec<usize>)
    requires
        distinct_below(order@, chunks@.len() as int),
        cb + 5 <= usize::MAX,
    ensures
        res@ == select_from(
            order@,
            views(chunks@),
            cb as int,
            per as int,
            0,
            0,
            false,
            Seq::new(chunks@.len(), |i: int| 0usize),
        ),
        res@.len() == chunks@.len(),
{
    proof {
        reveal_strlit("\n---\n");
    }
    let ghost cv = views(chunks@);
    let n = chunks.len();
    let mut sel: Vec<usize> = Vec::new();
    while sel.len() < n
        invariant
            sel@.len() <= n,
            forall|k: int| 0 <= k < sel@.len() ==> sel@[k] == 0,
        decreases n - sel.len(),
    {
        sel.push(0);
    }
    let ghost zeros = Seq::new(chunks@.len(), |i: int| 0usize);
    proof {
        assert(sel@ =~= zeros);
        lemma_zero_sel(zeros, n as int);
        assert(select_inv(order@, cv, cb as int, 0, 0, false, zeros));
    }
    let mut used: usize = 0;
    let mut any = false;
    let mut i: usize = 0;
    while i < order.len()
        invariant
            n == chunks@.len() == cv.len(),
            cv == views(chunks@),
            cb + 5 <= usize::MAX,
            chunk_sep().len() == 5,
            zeros == Seq::new(chunks@.len(), |i: int| 0usize),
            select_inv(order@, cv, cb as int, i as int, used as int, any, sel@),
            select_from(order@, cv, cb as int, per as int, i as int, used as int, any, sel@)
                == select_from(order@, cv, cb as int, per as int, 0, 0, false, zeros),
        decreases order.len() - i,
    {
        proof {
            lemma_select_step(order@, cv, cb as int, per as int, i as int, used as int, any, sel@);
        }
        let sep: usize = if any { 5 } else { 0 };
        let remaining: usize = if cb > used + sep { cb - used - sep } else { 0 };
        proof {
            assert(sep == if any { chunk_sep().len() as int } else { 0 });
            assert(remaining == sat_sub(cb as int, used + sep));
        }
        if remaining == 0 {
            proof {
                assert(select_from(order@, cv, cb as int, per as int, i as int, used as int, any, sel@)
                    == sel@);
            }
            return sel;
        }
        let c = order[i];
        let len = chunks[c].len();
        proof {
            assert(cv[c as int] == chunks@[c as int]@);
        }
        let k0 = if per < remaining { per } else { remaining };
        let k = if k0 < len { k0 } else { len };
        proof {
            assert(k == min3(per as int, remaining as int, cv[c as int].len() as int));
        }
        if k > 0 {
            let ghost before = sel@;
            sel.set(c, k);
            proof {
                assert(sel@ == before.update(c as int, k));
            }
            used = used + sep + k;
            any = true;
        }
        i = i + 1;
    }
    sel
}

fn selected_pieces_exec(chunks: &Vec<Vec<char>>, sel: &Vec<usize>) -> (res: Vec<Vec<char>>)
    requires
        sel@.len() == chunks@.len(),
    ensures
        views(res@) == selected_pieces(views(chunks@), sel@, chunks@.len() as int),
{
    let ghost cv = views(chunks@);
    let mut out: Vec<Vec<char>> = Vec::new();
    let mut c: usize = 0;
    while c < chunks.len()
        invariant
            c <= chunks@.len() == sel@.len(),
            cv == views(chunks@),
            views(out@) == selected_pieces(cv, sel@, c as int),
        decreases chunks.len() - c,
    {
        if sel[c] > 0 {
            let piece = take_prefix(&chunks[c], sel[c]);
            proof {
                assert(cv[c as int] == chunks@[c as int]@);
                assert(views(out@.push(piece)) =~= views(out@).push(piece@));
            }
            out.push(piece);
        }
        c = c + 1;
    }
    out
}

/// Builds the OCR section of an evidence text within `budget` characters
/// (see `ocr_section`).
pub fn build_budgeted_ocr_section_chars(ocr: &[char], budget: usize, relevance_source: &[char]) -> (res:
    Vec<char>)
    ensures
        res@ == ocr_section(ocr@, budget as int, relevance_source@),
        res@.len() <= budget,
        ocr_chunks_of(ocr@).len() <= usize::MAX,
{
    proof {
        reveal_strlit("\n---\n");
        reveal_strlit("[OCR 텍스트 시작]\n");
        reveal_strlit("\n[OCR 텍스트 끝]");
    }
    let chunks = ocr_chunks_chars(ocr);
    let n = chunks.len();
    if n == 0 || budget == 0 {
        return Vec::new();
    }
    let sep = to_chars("\n---\n");
    let header = to_chars("[OCR 텍스트 시작]\n");
    let footer = to_chars("\n[OCR 텍스트 끝]");
    let frame = header.len() + footer.len();
    let full = join_chars(&chunks, &sep);
    if frame <= budget && full.len() <= budget - frame {
        let mut out = header;
        push_all(&mut out, &full);
        push_all(&mut out, &footer);
        return out;
    }
    let mut note = to_chars("[OCR 일부만 포함: 전체 ");
    let digits = decimal_chars(n);
    push_all(&mut note, &digits);
    push_all(&mut note, &to_chars("개 조각 중 대표 조각 선택]\n"));
    let cb: usize = if frame <= budget && note.len() <= budget - frame {
        budget - frame - note.len()
    } else {
        0
    };
    if cb == 0 {
        let mut framed = to_chars("[OCR 텍스트 시작]\n");
        push_all(&mut framed, &note);
        push_all(&mut framed, &footer);
        return truncate_chars(&framed, budget);
    }
    let ghost cv = views(chunks@);
    let tokens = context_tokens_chars(relevance_source);
    let scores = chunk_scores_exec(&chunks, &tokens);
    let rel = relevance_order_exec(&scores);
    proof {
        lemma_relevance_order(scores@, n as int);
    }
    let picked = relevance_pick_exec(&rel, &chunks, cb);
    let spread = evenly_spaced_indices(n, 8);
    let order = with_missing_exec(picked, &spread);
    proof {
        lemma_sampled_order(cv, views(tokens@), cb as int);
    }
    let eighth = cb / 8;
    let per: usize = if eighth > 1 { eighth } else { 1 };
    let sel = select_exec(&order, &chunks, cb, per);
    let pieces = selected_pieces_exec(&chunks, &sel);
    let body = join_chars(&pieces, &sep);
    let mut out = header;
    push_all(&mut out, &note);
    push_all(&mut out, &body);
    push_all(&mut out, &footer);
    proof {
        lemma_section_len(ocr@, budget as int, relevance_source@);
    }
    out
}

/// Builds the OCR section of an evidence text within `budget` characters
/// (see `ocr_section`).
pub fn build_budgeted_ocr_section(ocr_text: &str, budget: usize, relevance_source: &str) -> (res:
    String)
    ensures
        res@ == ocr_section(ocr_text@, budget as int, relevance_source@),
        res@.len() <= budget,
{
    let v = build_budgeted_ocr_section_chars(&to_chars(ocr_text), budget, &to_chars(relevance_source));
    chars_to_string(v.as_slice())
}

} // verus!
