//! Character-level text utilities shared by the rest of the library.

use vstd::prelude::*;
use vstd::string::StringExecFns;

verus! {

/// Whether `c` is Unicode `White_Space`, as `char::is_whitespace` decides it.
pub open spec fn is_ws(c: char) -> bool {
    ||| ('\u{9}' <= c && c <= '\u{d}')
    ||| c == ' '
    ||| c == '\u{85}'
    ||| c == '\u{a0}'
    ||| c == '\u{1680}'
    ||| ('\u{2000}' <= c && c <= '\u{200a}')
    ||| c == '\u{2028}'
    ||| c == '\u{2029}'
    ||| c == '\u{202f}'
    ||| c == '\u{205f}'
    ||| c == '\u{3000}'
}

/// Executable whitespace test.
pub fn char_is_ws(c: char) -> (r: bool)
    ensures
        r == is_ws(c),
{
    ('\u{9}' <= c && c <= '\u{d}') || c == ' ' || c == '\u{85}' || c == '\u{a0}' || c == '\u{1680}'
        || ('\u{2000}' <= c && c <= '\u{200a}') || c == '\u{2028}' || c == '\u{2029}'
        || c == '\u{202f}' || c == '\u{205f}' || c == '\u{3000}'
}

/// The characters of a string slice, in order.
pub fn chars_of(s: &str) -> (v: Vec<char>)
    ensures
        v@ == s@,
{
    let mut v: Vec<char> = Vec::new();
    for c in it: s.chars()
        invariant
            v@ == it.seq().take(it.index() as int),
            it.seq() == s@,
    {
        v.push(c);
    }
    v
}


/// `s` without its leading whitespace.
pub open spec fn trim_start(s: Seq<char>) -> Seq<char>
    decreases s.len(),
{
    if s.len() > 0 && is_ws(s[0]) {
        trim_start(s.drop_first())
    } else {
        s
    }
}

/// `s` without its trailing whitespace.
pub open spec fn trim_end(s: Seq<char>) -> Seq<char>
    decreases s.len(),
{
    if s.len() > 0 && is_ws(s.last()) {
        trim_end(s.drop_last())
    } else {
        s
    }
}

/// `s` without leading and trailing whitespace, as `str::trim` gives it.
pub open spec fn trim(s: Seq<char>) -> Seq<char> {
    trim_end(trim_start(s))
}

/// The characters of `s` that are not whitespace, in order.
pub open spec fn strip_ws(s: Seq<char>) -> Seq<char>
    decreases s.len(),
{
    if s.len() == 0 {
        s
    } else if is_ws(s[0]) {
        strip_ws(s.drop_first())
    } else {
        seq![s[0]].add(strip_ws(s.drop_first()))
    }
}

/// The view of each string of a sequence.
pub open spec fn views(v: Seq<String>) -> Seq<Seq<char>> {
    v.map_values(|s: String| s@)
}

/// Index of the first character of `v[lo..hi]` that is not whitespace (`hi` if none).
pub fn skip_ws(v: &Vec<char>, lo: usize, hi: usize) -> (r: usize)
    requires
        lo <= hi <= v@.len(),
    ensures
        lo <= r <= hi,
        v@.subrange(r as int, hi as int) == trim_start(v@.subrange(lo as int, hi as int)),
{
    let mut i = lo;
    while i < hi && char_is_ws(v[i])
        invariant
            lo <= i <= hi,
            hi <= v@.len(),
            trim_start(v@.subrange(i as int, hi as int)) == trim_start(
                v@.subrange(lo as int, hi as int),
            ),
        decreases hi - i,
    {
        assert(v@.subrange(i as int, hi as int).drop_first() =~= v@.subrange(i + 1, hi as int));
        i += 1;
    }
    i
}

/// End of `v[lo..hi]` once its trailing whitespace is dropped.
pub fn back_ws(v: &Vec<char>, lo: usize, hi: usize) -> (r: usize)
    requires
        lo <= hi <= v@.len(),
    ensures
        lo <= r <= hi,
        v@.subrange(lo as int, r as int) == trim_end(v@.subrange(lo as int, hi as int)),
{
    let mut j = hi;
    while j > lo && char_is_ws(v[j - 1])
        invariant
            lo <= j <= hi,
            hi <= v@.len(),
            trim_end(v@.subrange(lo as int, j as int)) == trim_end(
                v@.subrange(lo as int, hi as int),
            ),
        decreases j - lo,
    {
        assert(v@.subrange(lo as int, j as int).drop_last() =~= v@.subrange(lo as int, j - 1));
        j -= 1;
    }
    j
}

/// Appends `c` to `s`.
///
/// Calls `String::push`; the contract claims that the string grows by exactly
/// that character at its end, as std documents.
#[verifier::external_body]
pub fn push_char(s: &mut String, c: char)
    ensures
        final(s)@ == old(s)@.push(c),
{
    s.push(c);
}

/// A new string holding `v[lo..hi]`.
pub fn string_from_range(v: &Vec<char>, lo: usize, hi: usize) -> (s: String)
    requires
        lo <= hi <= v@.len(),
    ensures
        s@ == v@.subrange(lo as int, hi as int),
{
    let mut s = String::new();
    let mut i = lo;
    while i < hi
        invariant
            lo <= i <= hi,
            hi <= v@.len(),
            s@ == v@.subrange(lo as int, i as int),
        decreases hi - i,
    {
        push_char(&mut s, v[i]);
        assert(v@.subrange(lo as int, i + 1) =~= v@.subrange(lo as int, i as int).push(v@[i as int]));
        i += 1;
    }
    s
}

/// Whether two character vectors are equal.
pub fn chars_eq(a: &Vec<char>, b: &Vec<char>) -> (r: bool)
    ensures
        r == (a@ == b@),
{
    if a.len() != b.len() {
        return false;
    }
    let mut i: usize = 0;
    while i < a.len()
        invariant
            a@.len() == b@.len(),
            i <= a@.len(),
            forall|j: int| 0 <= j < i ==> a@[j] == b@[j],
        decreases a.len() - i,
    {
        if a[i] != b[i] {
            return false;
        }
        i += 1;
    }
    assert(a@ =~= b@);
    true
}

/// Whether two string slices hold the same characters.
pub fn str_eq(a: &str, b: &str) -> (r: bool)
    ensures
        r == (a@ == b@),
{
    let va = chars_of(a);
    let vb = chars_of(b);
    chars_eq(&va, &vb)
}

/// Whether `pat` occurs in `p` starting at index `i`.
pub open spec fn matches_at(p: Seq<char>, pat: Seq<char>, i: int) -> bool {
    0 <= i && i + pat.len() <= p.len() && p.subrange(i, i + pat.len()) == pat
}

/// The largest `i <= end` at which `pat` occurs in `p`.
pub open spec fn last_match_upto(p: Seq<char>, pat: Seq<char>, end: int) -> Option<int>
    decreases end + 1,
{
    if end < 0 {
        None
    } else if matches_at(p, pat, end) {
        Some(end)
    } else {
        last_match_upto(p, pat, end - 1)
    }
}

/// Start of the last occurrence of `pat` in `p`, as `str::rfind` finds it.
pub open spec fn rfind(p: Seq<char>, pat: Seq<char>) -> Option<int> {
    last_match_upto(p, pat, p.len() - pat.len())
}

/// A found occurrence lies within the searched range.
pub proof fn lemma_last_match_upto(p: Seq<char>, pat: Seq<char>, end: int)
    ensures
        last_match_upto(p, pat, end) matches Some(i) ==> 0 <= i <= end && matches_at(p, pat, i),
    decreases end + 1,
{
    if end >= 0 && !matches_at(p, pat, end) {
        lemma_last_match_upto(p, pat, end - 1);
    }
}

/// Absolute index of the last occurrence of `pat` inside `v[lo..hi]`.
pub fn rfind_in(v: &Vec<char>, lo: usize, hi: usize, pat: &Vec<char>) -> (r: Option<usize>)
    requires
        lo <= hi <= v@.len(),
    ensures
        r matches Some(i) ==> lo <= i && rfind(v@.subrange(lo as int, hi as int), pat@) == Some(
            i - lo,
        ),
        r is None ==> rfind(v@.subrange(lo as int, hi as int), pat@) is None,
{
    let ghost p = v@.subrange(lo as int, hi as int);
    let m = pat.len();
    if m > hi - lo {
        assert(rfind(p, pat@) is None);
        return None;
    }
    let mut j: usize = hi - lo - m;
    loop
        invariant
            lo <= hi <= v@.len(),
            m == pat@.len(),
            m <= hi - lo,
            j <= hi - lo - m,
            p == v@.subrange(lo as int, hi as int),
            last_match_upto(p, pat@, j as int) == rfind(p, pat@),
        decreases j,
    {
        let found = occurs_in(v, lo + j, pat);
        assert(p.subrange(j as int, j + m) =~= v@.subrange(lo + j, lo + j + m));
        if found {
            return Some(lo + j);
        }
        if j == 0 {
            assert(last_match_upto(p, pat@, -1) is None);
            return None;
        }
        j -= 1;
    }
}


/// Dropping leading whitespace never lengthens a text, and leaves it
/// starting with a non-whitespace character when anything is left.
pub proof fn lemma_trim_start(s: Seq<char>)
    ensures
        trim_start(s).len() <= s.len(),
        trim_start(s).len() > 0 ==> !is_ws(trim_start(s)[0]),
        strip_ws(trim_start(s)) == strip_ws(s),
    decreases s.len(),
{
    if s.len() > 0 && is_ws(s[0]) {
        lemma_trim_start(s.drop_first());
    }
}

/// Removing whitespace distributes over concatenation.
pub proof fn lemma_strip_ws_add(a: Seq<char>, b: Seq<char>)
    ensures
        strip_ws(a + b) == strip_ws(a) + strip_ws(b),
    decreases a.len(),
{
    if a.len() == 0 {
        assert(a + b =~= b);
        assert(strip_ws(a) + strip_ws(b) =~= strip_ws(b));
    } else {
        assert((a + b).drop_first() =~= a.drop_first() + b);
        assert((a + b)[0] == a[0]);
        lemma_strip_ws_add(a.drop_first(), b);
        if !is_ws(a[0]) {
            assert(seq![a[0]] + (strip_ws(a.drop_first()) + strip_ws(b)) =~= (seq![a[0]]
                + strip_ws(a.drop_first())) + strip_ws(b));
        }
    }
}

/// Dropping trailing whitespace never lengthens a text and keeps its
/// non-whitespace characters.
pub proof fn lemma_trim_end(s: Seq<char>)
    ensures
        trim_end(s).len() <= s.len(),
        strip_ws(trim_end(s)) == strip_ws(s),
        trim_end(s).len() > 0 ==> !is_ws(trim_end(s).last()),
        trim_end(s) == s.take(trim_end(s).len() as int),
    decreases s.len(),
{
    if s.len() > 0 && is_ws(s.last()) {
        lemma_trim_end(s.drop_last());
        assert(s =~= s.drop_last() + seq![s.last()]);
        lemma_strip_ws_add(s.drop_last(), seq![s.last()]);
        assert(seq![s.last()].drop_first() =~= Seq::<char>::empty());
        assert(strip_ws(Seq::<char>::empty()) =~= Seq::<char>::empty());
        assert(seq![s.last()][0] == s.last());
        assert(strip_ws(seq![s.last()]) =~= Seq::<char>::empty());
        assert(strip_ws(s.drop_last()) + Seq::<char>::empty() =~= strip_ws(s.drop_last()));
        assert(s.drop_last().take(trim_end(s).len() as int) =~= s.take(trim_end(s).len() as int));
    } else {
        assert(s.take(s.len() as int) =~= s);
    }
}


/// The decimal digit character for `d < 10`.
pub open spec fn digit_char(d: nat) -> char {
    (48 + d) as char
}

/// Decimal notation of a natural number, as `Display` writes it.
pub open spec fn decimal(n: nat) -> Seq<char>
    decreases n,
{
    if n < 10 {
        seq![digit_char(n)]
    } else {
        decimal(n / 10).push(digit_char(n % 10))
    }
}

/// Decimal notation of an integer, with a leading `-` when negative.
pub open spec fn signed_decimal(i: int) -> Seq<char> {
    if i < 0 {
        seq!['-'] + decimal((-i) as nat)
    } else {
        decimal(i as nat)
    }
}

fn digit(d: u64) -> (c: char)
    requires
        d < 10,
    ensures
        c == digit_char(d as nat),
{
    let b: u8 = 48 + (d as u8);
    b as char
}

/// Appends the decimal notation of `n` to `s`.
pub fn push_decimal(s: &mut String, n: u64)
    ensures
        final(s)@ == old(s)@ + decimal(n as nat),
    decreases n,
{
    if n >= 10 {
        push_decimal(s, n / 10);
    }
    push_char(s, digit(n % 10));
    proof {
        if n >= 10 {
            assert(old(s)@ + decimal(n as nat) =~= old(s)@ + decimal((n / 10) as nat) + seq![
                digit_char((n % 10) as nat),
            ]);
        } else {
            assert(old(s)@ + decimal(n as nat) =~= old(s)@.push(digit_char(n as nat)));
        }
    }
}

/// Appends the decimal notation of `n`, signed, to `s`.
pub fn push_signed_decimal(s: &mut String, n: i64)
    ensures
        final(s)@ == old(s)@ + signed_decimal(n as int),
{
    if n < 0 {
        push_char(s, '-');
        let m: u64 = if n == i64::MIN {
            9223372036854775808u64
        } else {
            (-n) as u64
        };
        push_decimal(s, m);
        assert(old(s)@ + signed_decimal(n as int) =~= old(s)@.push('-') + decimal(m as nat));
    } else {
        push_decimal(s, n as u64);
    }
}

/// ASCII lowercase of one character, as `char::to_ascii_lowercase` gives it.
pub open spec fn lower_char(c: char) -> char {
    if 'A' <= c && c <= 'Z' {
        ((c as u32) + 32) as char
    } else {
        c
    }
}

/// ASCII lowercase of a text, as `str::to_ascii_lowercase` gives it.
pub open spec fn ascii_lower(s: Seq<char>) -> Seq<char> {
    s.map_values(|c: char| lower_char(c))
}

/// ASCII lowercase of one character.
pub fn to_lower_char(c: char) -> (r: char)
    ensures
        r == lower_char(c),
{
    if 'A' <= c && c <= 'Z' {
        let b: u8 = (c as u8) + 32;
        b as char
    } else {
        c
    }
}

/// Whether `pat` occurs anywhere in `p`.
pub open spec fn contains_pat(p: Seq<char>, pat: Seq<char>) -> bool {
    exists|i: int| matches_at(p, pat, i)
}

/// Whether `pat` occurs in `p` at `i` and at no later index.
pub open spec fn last_at(p: Seq<char>, pat: Seq<char>, i: int) -> bool {
    matches_at(p, pat, i) && forall|j: int| i < j ==> !matches_at(p, pat, j)
}

proof fn lemma_last_match_at(p: Seq<char>, pat: Seq<char>, end: int, i: int)
    requires
        i <= end,
        last_at(p, pat, i),
    ensures
        last_match_upto(p, pat, end) == Some(i),
    decreases end - i,
{
    if end > i {
        assert(!matches_at(p, pat, end));
        lemma_last_match_at(p, pat, end - 1, i);
    }
}

/// Searching backwards finds the last occurrence.
pub proof fn lemma_rfind_last(p: Seq<char>, pat: Seq<char>, i: int)
    requires
        last_at(p, pat, i),
    ensures
        rfind(p, pat) == Some(i),
{
    lemma_last_match_at(p, pat, p.len() - pat.len(), i);
}

/// Searching backwards finds an occurrence exactly when there is one.
pub proof fn lemma_rfind_contains(p: Seq<char>, pat: Seq<char>)
    ensures
        rfind(p, pat) is Some <==> contains_pat(p, pat),
{
    lemma_last_match_upto(p, pat, p.len() - pat.len());
    lemma_last_match_none(p, pat, p.len() - pat.len());
}

proof fn lemma_last_match_none(p: Seq<char>, pat: Seq<char>, end: int)
    ensures
        last_match_upto(p, pat, end) is None ==> forall|i: int| i <= end ==> !matches_at(p, pat, i),
    decreases end + 1,
{
    if end >= 0 && !matches_at(p, pat, end) {
        lemma_last_match_none(p, pat, end - 1);
    }
}


/// The first index at or after `i` holding `c` (the length if none).
pub open spec fn find_from(s: Seq<char>, c: char, i: int) -> int
    decreases s.len() - i,
{
    if i >= s.len() {
        s.len() as int
    } else if s[i] == c {
        i
    } else {
        find_from(s, c, i + 1)
    }
}

/// Where the search for a character stops.
pub proof fn lemma_find_from(s: Seq<char>, c: char, i: int)
    requires
        0 <= i <= s.len(),
    ensures
        i <= find_from(s, c, i) <= s.len(),
        find_from(s, c, i) < s.len() ==> s[find_from(s, c, i)] == c,
        forall|j: int| i <= j < find_from(s, c, i) ==> s[j] != c,
    decreases s.len() - i,
{
    if i < s.len() && s[i] != c {
        lemma_find_from(s, c, i + 1);
    }
}

/// Absolute index of the first `c` in `v[lo..hi]` (`hi` if none).
pub fn find_char(v: &Vec<char>, c: char, lo: usize, hi: usize) -> (r: usize)
    requires
        lo <= hi <= v@.len(),
    ensures
        lo <= r <= hi,
        r - lo == find_from(v@.subrange(lo as int, hi as int), c, 0),
{
    let ghost sub = v@.subrange(lo as int, hi as int);
    let mut i = lo;
    while i < hi && v[i] != c
        invariant
            lo <= i <= hi <= v@.len(),
            sub == v@.subrange(lo as int, hi as int),
            find_from(sub, c, i - lo) == find_from(sub, c, 0),
        decreases hi - i,
    {
        i += 1;
    }
    i
}

/// A line without the carriage return of a `\r\n` ending.
pub open spec fn strip_cr(l: Seq<char>) -> Seq<char> {
    if l.len() > 0 && l.last() == '\r' {
        l.drop_last()
    } else {
        l
    }
}

/// The lines of a text, as `str::lines` yields them: split at `\n`, a `\r`
/// before it dropped, no empty line after a final line break.
pub open spec fn lines(s: Seq<char>) -> Seq<Seq<char>>
    decreases s.len(),
{
    if s.len() == 0 {
        seq![]
    } else {
        let i = find_from(s, '\n', 0);
        proof {
            lemma_find_from(s, '\n', 0);
        }
        if i < s.len() {
            seq![strip_cr(s.take(i))] + lines(s.skip(i + 1))
        } else {
            seq![s]
        }
    }
}

/// Whether `s` begins with `pre`.
pub open spec fn starts_with(s: Seq<char>, pre: Seq<char>) -> bool {
    pre.len() <= s.len() && s.take(pre.len() as int) == pre
}

/// Whether `v[lo..hi]` begins with `pre`.
pub fn range_starts_with(v: &Vec<char>, lo: usize, hi: usize, pre: &Vec<char>) -> (r: bool)
    requires
        lo <= hi <= v@.len(),
    ensures
        r == starts_with(v@.subrange(lo as int, hi as int), pre@),
{
    let ghost sub = v@.subrange(lo as int, hi as int);
    if pre.len() > hi - lo {
        return false;
    }
    let mut j: usize = 0;
    while j < pre.len()
        invariant
            lo <= hi <= v@.len(),
            pre@.len() <= hi - lo,
            sub == v@.subrange(lo as int, hi as int),
            j <= pre@.len(),
            forall|k: int| 0 <= k < j ==> v@[lo + k] == pre@[k],
        decreases pre.len() - j,
    {
        if v[lo + j] != pre[j] {
            assert(sub.take(pre@.len() as int)[j as int] != pre@[j as int]);
            return false;
        }
        j += 1;
    }
    assert(sub.take(pre@.len() as int) =~= pre@);
    true
}

/// The first index from `i` on where `pat` occurs in `p` (none past the end).
pub open spec fn first_match_from(p: Seq<char>, pat: Seq<char>, i: int) -> Option<int>
    decreases p.len() + 1 - i,
{
    if i + pat.len() > p.len() || i < 0 {
        None
    } else if matches_at(p, pat, i) {
        Some(i)
    } else {
        first_match_from(p, pat, i + 1)
    }
}

/// Start of the first occurrence of `pat` in `p`, as `str::find` finds it.
pub open spec fn find_pat(p: Seq<char>, pat: Seq<char>) -> Option<int> {
    first_match_from(p, pat, 0)
}

/// A found occurrence lies in the searched range.
pub proof fn lemma_first_match(p: Seq<char>, pat: Seq<char>, i: int)
    ensures
        first_match_from(p, pat, i) matches Some(j) ==> i <= j && matches_at(p, pat, j),
    decreases p.len() + 1 - i,
{
    if !(i + pat.len() > p.len() || i < 0) && !matches_at(p, pat, i) {
        lemma_first_match(p, pat, i + 1);
    }
}

/// Absolute index of the first occurrence of `pat` in `v`.
pub fn find_in(v: &Vec<char>, pat: &Vec<char>) -> (r: Option<usize>)
    ensures
        r matches Some(i) ==> find_pat(v@, pat@) == Some(i as int),
        r is None ==> find_pat(v@, pat@) is None,
{
    let n = v.len();
    let m = pat.len();
    if m > n {
        return None;
    }
    let mut i: usize = 0;
    loop
        invariant
            n == v@.len(),
            m == pat@.len(),
            m <= n,
            i <= n - m,
            first_match_from(v@, pat@, i as int) == find_pat(v@, pat@),
        decreases n - m - i,
    {
        if occurs_in(v, i, pat) {
            return Some(i);
        }
        if i == n - m {
            assert(first_match_from(v@, pat@, i + 1) is None);
            return None;
        }
        i += 1;
    }
}

fn occurs_in(v: &Vec<char>, i: usize, pat: &Vec<char>) -> (r: bool)
    requires
        i + pat@.len() <= v@.len(),
    ensures
        r == matches_at(v@, pat@, i as int),
{
    let n = v.len();
    let mut j: usize = 0;
    while j < pat.len()
        invariant
            n == v@.len(),
            i + pat@.len() <= v@.len(),
            j <= pat@.len(),
            forall|k: int| 0 <= k < j ==> v@[i + k] == pat@[k],
        decreases pat.len() - j,
    {
        if v[i + j] != pat[j] {
            assert(v@.subrange(i as int, i + pat@.len())[j as int] != pat@[j as int]);
            return false;
        }
        j += 1;
    }
    assert(v@.subrange(i as int, i + pat@.len()) =~= pat@);
    true
}

/// The whitespace-separated words of a text, as `str::split_whitespace` yields them.
pub open spec fn words(s: Seq<char>) -> Seq<Seq<char>>
    decreases s.len(),
{
    let t = trim_start(s);
    proof {
        lemma_trim_start(s);
    }
    if t.len() == 0 {
        seq![]
    } else {
        let e = first_ws(t, 0);
        proof {
            lemma_first_ws(t, 0);
        }
        seq![t.take(e)] + words(t.skip(e))
    }
}

/// The first whitespace index at or after `i` (the length if none).
pub open spec fn first_ws(s: Seq<char>, i: int) -> int
    decreases s.len() - i,
{
    if i >= s.len() {
        s.len() as int
    } else if is_ws(s[i]) {
        i
    } else {
        first_ws(s, i + 1)
    }
}

/// Where the search for whitespace stops.
pub proof fn lemma_first_ws(s: Seq<char>, i: int)
    requires
        0 <= i <= s.len(),
    ensures
        i <= first_ws(s, i) <= s.len(),
        first_ws(s, i) < s.len() ==> is_ws(s[first_ws(s, i)]),
        forall|j: int| i <= j < first_ws(s, i) ==> !is_ws(s[j]),
        (i < s.len() && !is_ws(s[i])) ==> first_ws(s, i) > i,
    decreases s.len() - i,
{
    if i < s.len() && !is_ws(s[i]) {
        lemma_first_ws(s, i + 1);
    }
}

/// Absolute index of the first whitespace in `v[lo..hi]` (`hi` if none).
pub fn find_ws(v: &Vec<char>, lo: usize, hi: usize) -> (r: usize)
    requires
        lo <= hi <= v@.len(),
    ensures
        lo <= r <= hi,
        r - lo == first_ws(v@.subrange(lo as int, hi as int), 0),
{
    let ghost sub = v@.subrange(lo as int, hi as int);
    let mut i = lo;
    while i < hi && !char_is_ws(v[i])
        invariant
            lo <= i <= hi <= v@.len(),
            sub == v@.subrange(lo as int, hi as int),
            first_ws(sub, i - lo) == first_ws(sub, 0),
        decreases hi - i,
    {
        i += 1;
    }
    i
}


/// A copy of `v[lo..hi]`.
pub fn copy_range(v: &Vec<char>, lo: usize, hi: usize) -> (r: Vec<char>)
    requires
        lo <= hi <= v@.len(),
    ensures
        r@ == v@.subrange(lo as int, hi as int),
{
    let mut r: Vec<char> = Vec::new();
    let mut i = lo;
    while i < hi
        invariant
            lo <= i <= hi <= v@.len(),
            r@ == v@.subrange(lo as int, i as int),
        decreases hi - i,
    {
        r.push(v[i]);
        assert(r@ =~= v@.subrange(lo as int, i + 1));
        i += 1;
    }
    r
}

/// A new string holding the characters of `v`.
pub fn string_of(v: &Vec<char>) -> (s: String)
    ensures
        s@ == v@,
{
    let s = string_from_range(v, 0, v.len());
    assert(v@.subrange(0, v@.len() as int) =~= v@);
    s
}


/// Texts joined with a separator.
pub open spec fn join(ls: Seq<Seq<char>>, sep: Seq<char>) -> Seq<char>
    decreases ls.len(),
{
    if ls.len() == 0 {
        seq![]
    } else if ls.len() == 1 {
        ls[0]
    } else {
        join(ls.drop_last(), sep) + sep + ls.last()
    }
}

/// Appends the strings of `items`, separated by `sep`, to `out`.
pub fn push_joined(out: &mut String, items: &Vec<String>, sep: &str)
    ensures
        final(out)@ == old(out)@ + join(views(items@), sep@),
{
    let ghost start = out@;
    let mut i: usize = 0;
    while i < items.len()
        invariant
            i <= items@.len(),
            out@ == start + join(views(items@).take(i as int), sep@),
        decreases items.len() - i,
    {
        let ghost prev = views(items@).take(i as int);
        if i > 0 {
            out.append(sep);
        }
        out.append(items[i].as_str());
        proof {
            let next = views(items@).take(i + 1);
            assert(next.drop_last() =~= prev);
            assert(next.last() == items@[i as int]@);
            if i == 0 {
                assert(prev =~= Seq::<Seq<char>>::empty());
            }
            assert(out@ =~= start + join(next, sep@));
        }
        i += 1;
    }
    assert(views(items@).take(items@.len() as int) =~= views(items@));
}

} // verus!
