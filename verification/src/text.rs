//! Character-sequence utilities shared by the prompt builders.
//!
//! Text is handled as `Vec<char>` inside the library; the view of a `String`
//! or `&str` is its sequence of Unicode scalar values, so "length" below always
//! means a number of characters, as `str::chars().count()` does.
use vstd::prelude::*;

verus! {

/// Whether a character has the Unicode `White_Space` property (the
/// code points that `PropList.txt` lists), as `char::is_whitespace` decides.
pub open spec fn char_is_whitespace(c: char) -> bool {
    let v = c as u32;
    ||| 0x9 <= v <= 0xD
    ||| v == 0x20
    ||| v == 0x85
    ||| v == 0xA0
    ||| v == 0x1680
    ||| 0x2000 <= v <= 0x200A
    ||| v == 0x2028
    ||| v == 0x2029
    ||| v == 0x202F
    ||| v == 0x205F
    ||| v == 0x3000
}

/// Whether a character is alphabetic or numeric in the Unicode sense, as
/// `char::is_alphanumeric` decides it.
pub uninterp spec fn char_is_alphanumeric(c: char) -> bool;

/// Whether a character is Unicode white space (see `char_is_whitespace`).
pub fn is_whitespace(c: char) -> (res: bool)
    ensures
        res == char_is_whitespace(c),
{
    let v = c as u32;
    (0x9 <= v && v <= 0xD) || v == 0x20 || v == 0x85 || v == 0xA0 || v == 0x1680 || (0x2000 <= v
        && v <= 0x200A) || v == 0x2028 || v == 0x2029 || v == 0x202F || v == 0x205F || v == 0x3000
}

/// Calls `char::is_alphanumeric`. The Unicode tables behind it are not
/// restated: the contract names the answer `char_is_alphanumeric(c)`.
#[verifier::external_body]
pub(crate) fn is_alphanumeric(c: char) -> (res: bool)
    ensures
        res == char_is_alphanumeric(c),
{
    c.is_alphanumeric()
}

/// Collects characters into a `String` (std's `FromIterator<&char>` for
/// `String`); the contract claims the string holds exactly those characters.
#[verifier::external_body]
pub(crate) fn chars_to_string(chars: &[char]) -> (res: String)
    ensures
        res@ == chars@,
{
    chars.iter().collect()
}

/// The characters of a string slice, in order.
pub fn to_chars(s: &str) -> (res: Vec<char>)
    ensures
        res@ == s@,
{
    let mut out: Vec<char> = Vec::new();
    for c in it: s.chars()
        invariant
            out@ == it.seq().take(it.index() as int),
    {
        out.push(c);
    }
    proof {
        assert(out@ =~= s@);
    }
    out
}

// ---------------------------------------------------------------- trimming

/// `s` without its leading whitespace.
pub open spec fn trim_start(s: Seq<char>) -> Seq<char>
    decreases s.len(),
{
    if s.len() > 0 && char_is_whitespace(s[0]) {
        trim_start(s.drop_first())
    } else {
        s
    }
}

/// `s` without its trailing whitespace.
pub open spec fn trim_end(s: Seq<char>) -> Seq<char>
    decreases s.len(),
{
    if s.len() > 0 && char_is_whitespace(s.last()) {
        trim_end(s.drop_last())
    } else {
        s
    }
}

/// `s` without leading and trailing whitespace, as `str::trim` gives it.
pub open spec fn trim(s: Seq<char>) -> Seq<char> {
    trim_end(trim_start(s))
}

proof fn lemma_trim_start_skip(s: Seq<char>, i: int)
    requires
        0 <= i <= s.len(),
        forall|k: int| 0 <= k < i ==> char_is_whitespace(#[trigger] s[k]),
    ensures
        trim_start(s) == trim_start(s.subrange(i, s.len() as int)),
    decreases i,
{
    if i > 0 {
        lemma_trim_start_skip(s.drop_first(), i - 1);
        assert(s.drop_first().subrange(i - 1, s.len() - 1) =~= s.subrange(i, s.len() as int));
    } else {
        assert(s.subrange(0, s.len() as int) =~= s);
    }
}

proof fn lemma_trim_end_skip(s: Seq<char>, j: int)
    requires
        0 <= j <= s.len(),
        forall|k: int| j <= k < s.len() ==> char_is_whitespace(#[trigger] s[k]),
    ensures
        trim_end(s) == trim_end(s.subrange(0, j)),
    decreases s.len() - j,
{
    if j < s.len() {
        lemma_trim_end_skip(s.drop_last(), j);
        assert(s.drop_last().subrange(0, j) =~= s.subrange(0, j));
    } else {
        assert(s.subrange(0, j) =~= s);
    }
}

/// A text made only of white space trims to nothing.
pub proof fn lemma_blank_trims_to_empty(s: Seq<char>)
    requires
        forall|k: int| 0 <= k < s.len() ==> char_is_whitespace(#[trigger] s[k]),
    ensures
        trim(s).len() == 0,
{
    lemma_trim_start_skip(s, s.len() as int);
    assert(s.subrange(s.len() as int, s.len() as int).len() == 0);
}

/// Trimming never lengthens a sequence and yields a contiguous piece of it.
pub proof fn lemma_trim_len(s: Seq<char>)
    ensures
        trim(s).len() <= s.len(),
    decreases s.len(),
{
    lemma_trim_start_len(s);
    lemma_trim_end_len(trim_start(s));
}

proof fn lemma_trim_start_len(s: Seq<char>)
    ensures
        trim_start(s).len() <= s.len(),
    decreases s.len(),
{
    if s.len() > 0 && char_is_whitespace(s[0]) {
        lemma_trim_start_len(s.drop_first());
    }
}

proof fn lemma_trim_end_len(s: Seq<char>)
    ensures
        trim_end(s).len() <= s.len(),
    decreases s.len(),
{
    if s.len() > 0 && char_is_whitespace(s.last()) {
        lemma_trim_end_len(s.drop_last());
    }
}

/// Copies `s[from..to]`.
pub fn slice_chars(s: &[char], from: usize, to: usize) -> (res: Vec<char>)
    requires
        from <= to <= s@.len(),
    ensures
        res@ == s@.subrange(from as int, to as int),
{
    let mut out: Vec<char> = Vec::new();
    let mut i = from;
    while i < to
        invariant
            from <= i <= to <= s@.len(),
            out@ == s@.subrange(from as int, i as int),
        decreases to - i,
    {
        out.push(s[i]);
        i = i + 1;
        proof {
            assert(out@ =~= s@.subrange(from as int, i as int));
        }
    }
    out
}

/// `s` without leading and trailing whitespace.
pub fn trim_chars(s: &[char]) -> (res: Vec<char>)
    ensures
        res@ == trim(s@),
{
    let n = s.len();
    let mut i: usize = 0;
    while i < n && is_whitespace(s[i])
        invariant
            i <= n == s@.len(),
            forall|k: int| 0 <= k < i ==> char_is_whitespace(#[trigger] s@[k]),
        decreases n - i,
    {
        i = i + 1;
    }
    proof {
        lemma_trim_start_skip(s@, i as int);
    }
    let ghost rest = s@.subrange(i as int, n as int);
    proof {
        if i < n {
            assert(!char_is_whitespace(rest[0]));
        }
        assert(trim_start(s@) == rest);
    }
    let mut j: usize = n;
    while j > i && is_whitespace(s[j - 1])
        invariant
            i <= j <= n == s@.len(),
            rest == s@.subrange(i as int, n as int),
            forall|k: int| j <= k < n ==> char_is_whitespace(#[trigger] s@[k]),
        decreases j - i,
    {
        j = j - 1;
    }
    proof {
        let m = j - i;
        assert forall|k: int| m <= k < rest.len() implies char_is_whitespace(#[trigger] rest[k]) by {
            assert(rest[k] == s@[k + i]);
        }
        lemma_trim_end_skip(rest, m as int);
        let piece = rest.subrange(0, m as int);
        assert(piece =~= s@.subrange(i as int, j as int));
        if m > 0 {
            assert(piece.last() == s@[j - 1]);
        }
    }
    slice_chars(s, i, j)
}

// ------------------------------------------------------------------ prefixes

/// The first `n` characters of `s`, or all of `s` when it is shorter.
pub open spec fn take_spec(s: Seq<char>, n: int) -> Seq<char> {
    if n < s.len() {
        s.take(n)
    } else {
        s
    }
}

/// The first `max_chars` characters of `text`.
pub fn take_prefix(text: &[char], max_chars: usize) -> (res: Vec<char>)
    ensures
        res@ == take_spec(text@, max_chars as int),
{
    let n = if max_chars < text.len() { max_chars } else { text.len() };
    let r = slice_chars(text, 0, n);
    proof {
        if max_chars >= text@.len() {
            assert(r@ =~= text@);
        }
    }
    r
}

// --------------------------------------------------------------- comparison

/// Whether `a` and `b` hold the same characters.
pub fn chars_eq(a: &[char], b: &[char]) -> (res: bool)
    ensures
        res == (a@ == b@),
{
    if a.len() != b.len() {
        return false;
    }
    let mut i: usize = 0;
    while i < a.len()
        invariant
            a@.len() == b@.len(),
            i <= a@.len(),
            forall|k: int| 0 <= k < i ==> a@[k] == b@[k],
        decreases a.len() - i,
    {
        if a[i] != b[i] {
            return false;
        }
        i = i + 1;
    }
    proof {
        assert(a@ =~= b@);
    }
    true
}

/// Whether `pat` occurs in `s` starting at position `i`.
pub open spec fn matches_at(s: Seq<char>, pat: Seq<char>, i: int) -> bool {
    0 <= i && i + pat.len() <= s.len() && s.subrange(i, i + pat.len()) == pat
}

/// Whether `pat` occurs anywhere in `s`, as `str::contains` answers.
pub open spec fn contains_seq(s: Seq<char>, pat: Seq<char>) -> bool {
    exists|i: int| matches_at(s, pat, i)
}

/// Whether `pat` occurs in `s` at position `i`.
pub fn match_at(s: &[char], pat: &[char], i: usize) -> (res: bool)
    ensures
        res == matches_at(s@, pat@, i as int),
{
    if i > s.len() || pat.len() > s.len() - i {
        return false;
    }
    let mut k: usize = 0;
    while k < pat.len()
        invariant
            i + pat@.len() <= s@.len() <= usize::MAX,
            k <= pat@.len(),
            forall|m: int| 0 <= m < k ==> s@[i + m] == pat@[m],
        decreases pat.len() - k,
    {
        if s[i + k] != pat[k] {
            proof {
                assert(s@.subrange(i as int, i + pat@.len())[k as int] != pat@[k as int]);
            }
            return false;
        }
        k = k + 1;
    }
    proof {
        assert(s@.subrange(i as int, i + pat@.len()) =~= pat@);
    }
    true
}

/// Whether `pat` occurs anywhere in `s`.
pub fn contains_chars(s: &[char], pat: &[char]) -> (res: bool)
    ensures
        res == contains_seq(s@, pat@),
{
    if pat.len() > s.len() {
        proof {
            assert forall|i: int| !matches_at(s@, pat@, i) by {}
        }
        return false;
    }
    let last = s.len() - pat.len();
    let mut i: usize = 0;
    while i <= last
        invariant
            last == s@.len() - pat@.len(),
            forall|j: int| 0 <= j < i ==> !matches_at(s@, pat@, j),
        decreases last + 1 - i,
    {
        if match_at(s, pat, i) {
            return true;
        }
        if i == last {
            proof {
                assert forall|j: int| !matches_at(s@, pat@, j) by {
                    if 0 <= j <= last {
                    } 
                }
            }
            return false;
        }
        i = i + 1;
    }
    false
}

// ------------------------------------------------------------ concatenation

/// Appends `b` to `a`.
pub fn push_all(a: &mut Vec<char>, b: &[char])
    ensures
        final(a)@ == old(a)@ + b@,
{
    let mut i: usize = 0;
    let ghost a0 = a@;
    while i < b.len()
        invariant
            i <= b@.len(),
            a@ == a0 + b@.take(i as int),
        decreases b.len() - i,
    {
        a.push(b[i]);
        i = i + 1;
        proof {
            assert(a@ =~= a0 + b@.take(i as int));
        }
    }
    proof {
        assert(b@.take(b@.len() as int) =~= b@);
    }
}

/// The parts joined with `sep` between neighbours, as `[..].join(sep)` gives.
pub open spec fn join(parts: Seq<Seq<char>>, sep: Seq<char>) -> Seq<char>
    decreases parts.len(),
{
    if parts.len() == 0 {
        Seq::empty()
    } else if parts.len() == 1 {
        parts[0]
    } else {
        join(parts.drop_last(), sep) + sep + parts.last()
    }
}

/// Joins `parts` with `sep` between neighbours.
pub fn join_chars(parts: &Vec<Vec<char>>, sep: &[char]) -> (res: Vec<char>)
    ensures
        res@ == join(parts@.map_values(|p: Vec<char>| p@), sep@),
{
    let ghost views = parts@.map_values(|p: Vec<char>| p@);
    let mut out: Vec<char> = Vec::new();
    let mut i: usize = 0;
    while i < parts.len()
        invariant
            i <= parts@.len(),
            views == parts@.map_values(|p: Vec<char>| p@),
            out@ == join(views.take(i as int), sep@),
        decreases parts.len() - i,
    {
        proof {
            assert(views.take(i + 1).drop_last() =~= views.take(i as int));
        }
        if i > 0 {
            push_all(&mut out, sep);
        }
        push_all(&mut out, &parts[i]);
        i = i + 1;
        proof {
            if i == 1 {
                assert(out@ =~= views.take(1)[0]);
            }
        }
    }
    proof {
        assert(views.take(parts@.len() as int) =~= views);
    }
    out
}

// ------------------------------------------------------------------ numbers

/// The decimal digits of `n`, as `format!("{}", n)` writes them.
pub open spec fn decimal(n: nat) -> Seq<char>
    decreases n,
{
    if n < 10 {
        seq![digit_char(n)]
    } else {
        decimal(n / 10) + seq![digit_char(n % 10)]
    }
}

/// The ASCII digit for `d < 10`.
pub open spec fn digit_char(d: nat) -> char {
    if d == 0 {
        '0'
    } else if d == 1 {
        '1'
    } else if d == 2 {
        '2'
    } else if d == 3 {
        '3'
    } else if d == 4 {
        '4'
    } else if d == 5 {
        '5'
    } else if d == 6 {
        '6'
    } else if d == 7 {
        '7'
    } else if d == 8 {
        '8'
    } else {
        '9'
    }
}

fn digit(d: usize) -> (c: char)
    requires
        d < 10,
    ensures
        c == digit_char(d as nat),
{
    if d == 0 {
        '0'
    } else if d == 1 {
        '1'
    } else if d == 2 {
        '2'
    } else if d == 3 {
        '3'
    } else if d == 4 {
        '4'
    } else if d == 5 {
        '5'
    } else if d == 6 {
        '6'
    } else if d == 7 {
        '7'
    } else if d == 8 {
        '8'
    } else {
        '9'
    }
}

/// The decimal representation of `n`.
pub fn decimal_chars(n: usize) -> (res: Vec<char>)
    ensures
        res@ == decimal(n as nat),
    decreases n,
{
    if n < 10 {
        let mut v: Vec<char> = Vec::new();
        v.push(digit(n));
        proof {
            assert(v@ =~= seq![digit_char(n as nat)]);
        }
        v
    } else {
        let mut v = decimal_chars(n / 10);
        v.push(digit(n % 10));
        proof {
            assert(v@ =~= decimal((n / 10) as nat) + seq![digit_char((n % 10) as nat)]);
        }
        v
    }
}


// ---------------------------------------------------------------- splitting

/// The pieces of `s[start..]` between non-overlapping occurrences of `sep`,
/// scanning for the next occurrence from position `i`, left to right, as
/// `str::split` with a string pattern finds them.
pub open spec fn split_from(s: Seq<char>, sep: Seq<char>, start: int, i: int) -> Seq<Seq<char>>
    decreases s.len() - i,
{
    if sep.len() == 0 || start < 0 || i < start || i + sep.len() > s.len() {
        seq![s.subrange(start, s.len() as int)]
    } else if matches_at(s, sep, i) {
        seq![s.subrange(start, i)] + split_from(s, sep, i + sep.len(), i + sep.len())
    } else {
        split_from(s, sep, start, i + 1)
    }
}

/// `s` split at every occurrence of `sep`, as `s.split(sep)` yields it.
pub open spec fn split(s: Seq<char>, sep: Seq<char>) -> Seq<Seq<char>> {
    split_from(s, sep, 0, 0)
}

/// The views of a vector of character vectors.
pub open spec fn views(v: Seq<Vec<char>>) -> Seq<Seq<char>> {
    v.map_values(|p: Vec<char>| p@)
}

/// Splits `s` at every occurrence of the non-empty separator `sep`.
pub fn split_chars(s: &[char], sep: &[char]) -> (res: Vec<Vec<char>>)
    requires
        sep@.len() > 0,
    ensures
        views(res@) == split(s@, sep@),
{
    let n = s.len();
    let m = sep.len();
    let mut out: Vec<Vec<char>> = Vec::new();
    let mut start: usize = 0;
    let mut i: usize = 0;
    while i <= n && m <= n - i
        invariant
            n == s@.len(),
            m == sep@.len() > 0,
            start <= i <= n,
            views(out@) + split_from(s@, sep@, start as int, i as int) == split(s@, sep@),
        decreases n - i,
    {
        if match_at(s, sep, i) {
            let piece = slice_chars(s, start, i);
            proof {
                assert(split_from(s@, sep@, start as int, i as int) == seq![piece@] + split_from(
                    s@,
                    sep@,
                    i + m,
                    i + m,
                ));
                assert(views(out@.push(piece)) =~= views(out@).push(piece@));
                assert(views(out@).push(piece@) + split_from(s@, sep@, i + m, i + m) =~= views(out@)
                    + (seq![piece@] + split_from(s@, sep@, i + m, i + m)));
            }
            out.push(piece);
            i = i + m;
            start = i;
        } else {
            i = i + 1;
        }
    }
    let last = slice_chars(s, start, n);
    proof {
        assert(split_from(s@, sep@, start as int, i as int) == seq![last@]);
        assert(views(out@.push(last)) =~= views(out@) + seq![last@]);
    }
    out.push(last);
    out
}

} // verus!
