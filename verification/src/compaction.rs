//! Context compaction for long conversations.
//!
//! When a message history grows too large it is compacted with one of four
//! strategies:
//!
//! - **SlidingWindow**: keep the first N and the last M messages;
//! - **Summarize**: keep them and replace the middle with a summary block;
//! - **Importance**: score messages and keep the important ones;
//! - **Hybrid**: keep the first/last messages and the most important middle
//!   ones, and summarize the rest.
//!
//! Importance scores are exact integers in ten-thousandths (a score of
//! `5000` is one half).

use vstd::prelude::*;
use vstd::utf8::encode_utf8;
use vstd::string::StringExecFns;
use crate::message::ChatMessage;
use crate::text::{
    decimal, push_decimal,    back_ws, skip_ws, string_from_range, trim, chars_of, contains_pat, lemma_rfind_contains, ascii_lower, lower_char, rfind_in, str_eq,
    to_lower_char,
};

verus! {

/// Context compaction strategy.
#[derive(Debug, Clone, Copy, PartialEq, Eq, Structural)]
pub enum CompactionStrategy {
    /// Keep first N + last N messages, discard middle
    SlidingWindow,
    /// Summarize old messages into compact form
    Summarize,
    /// Score messages by importance, keep high-value ones
    Importance,
    /// Combine multiple strategies
    Hybrid,
}

impl Default for CompactionStrategy {
    fn default() -> (s: CompactionStrategy)
        ensures
            s == CompactionStrategy::SlidingWindow,
    {
        CompactionStrategy::SlidingWindow
    }
}

/// Context compaction configuration.
#[derive(Debug, Clone, Copy)]
pub struct CompactionConfig {
    /// Whether compaction is enabled
    pub enabled: bool,
    /// Compaction strategy to use
    pub strategy: CompactionStrategy,
    /// Maximum messages before compaction triggers
    pub max_messages: usize,
    /// Number of recent messages to keep
    pub keep_recent: usize,
    /// Number of initial messages to keep
    pub keep_initial: usize,
    /// Minimum importance score to keep a message, in ten-thousandths
    /// (`0..=10000`, for the importance and hybrid strategies)
    pub importance_threshold: u32,
}

impl CompactionConfig {
    fn default_max_messages() -> (n: usize)
        ensures
            n == 100,
    {
        100
    }

    fn default_keep_recent() -> (n: usize)
        ensures
            n == 20,
    {
        20
    }

    fn default_keep_initial() -> (n: usize)
        ensures
            n == 5,
    {
        5
    }

    fn default_importance_threshold() -> (t: u32)
        ensures
            t == 5000,
    {
        5000
    }
}

impl Default for CompactionConfig {
    fn default() -> (c: CompactionConfig)
        ensures
            !c.enabled,
            c.strategy == CompactionStrategy::SlidingWindow,
            c.max_messages == 100,
            c.keep_recent == 20,
            c.keep_initial == 5,
            c.importance_threshold == 5000,
    {
        CompactionConfig {
            enabled: false,
            strategy: CompactionStrategy::SlidingWindow,
            max_messages: Self::default_max_messages(),
            keep_recent: Self::default_keep_recent(),
            keep_initial: Self::default_keep_initial(),
            importance_threshold: Self::default_importance_threshold(),
        }
    }
}

/// Result of a compaction operation.
#[derive(Debug)]
pub struct CompactionResult {
    /// Number of messages before compaction
    pub before: usize,
    /// Number of messages after compaction
    pub after: usize,
    /// Whether compaction was performed
    pub compacted: bool,
    /// Strategy used
    pub strategy: CompactionStrategy,
}

/// Base importance of a role.
pub open spec fn role_weight(role: Seq<char>) -> nat {
    if role == "user"@ {
        4000
    } else if role == "assistant"@ {
        3000
    } else if role == "system"@ {
        5000
    } else {
        2000
    }
}

/// Words whose presence marks a message as important.
pub open spec fn keywords() -> Seq<Seq<char>> {
    seq![
        "error"@,
        "warning"@,
        "important"@,
        "critical"@,
        "fix"@,
        "bug"@,
        "todo"@,
        "action"@,
        "decide"@,
        "confirm"@,
        "approve"@,
    ]
}

/// Whether the lowercased text holds one of the keywords.
pub open spec fn has_keyword(content: Seq<char>) -> bool {
    exists|k: int| 0 <= k < keywords().len() && contains_pat(ascii_lower(content), keywords()[k])
}

/// Importance score of a message in ten-thousandths: a base by role, up to
/// 0.3 for length (in bytes as `str::len` reports them, saturating at 1000), 0.2 for tool calls or tool
/// results, 0.1 for media, 0.15 for a keyword, at most 1.
pub open spec fn importance(m: ChatMessage) -> nat {
    let bytes = encode_utf8(m.content@).len() as usize;
    let raw = role_weight(m.role@) + 3 * (if bytes < 1000 {
        bytes
    } else {
        1000
    }) + (if m.tool_calls is Some || m.tool_call_id is Some {
        2000nat
    } else {
        0nat
    }) + (if m.media is Some {
        1000nat
    } else {
        0nat
    }) + (if has_keyword(m.content@) {
        1500nat
    } else {
        0nat
    });
    if raw > 10000 {
        10000
    } else {
        raw as nat
    }
}

/// Whether the lowercased text holds one of the keywords.
fn keyword_present(content: &String) -> (r: bool)
    ensures
        r == has_keyword(content@),
{
    let raw = chars_of(content.as_str());
    let mut lower: Vec<char> = Vec::new();
    let mut i: usize = 0;
    while i < raw.len()
        invariant
            i <= raw@.len(),
            raw@ == content@,
            lower@ == ascii_lower(raw@).take(i as int),
        decreases raw.len() - i,
    {
        lower.push(to_lower_char(raw[i]));
        assert(ascii_lower(raw@).take(i + 1) =~= ascii_lower(raw@).take(i as int).push(
            lower_char(raw@[i as int]),
        ));
        i += 1;
    }
    assert(lower@ =~= ascii_lower(content@));
    let kws: Vec<&str> = vec![
        "error",
        "warning",
        "important",
        "critical",
        "fix",
        "bug",
        "todo",
        "action",
        "decide",
        "confirm",
        "approve",
    ];
    assert(kws@.map_values(|s: &str| s@) =~= keywords());
    let mut k: usize = 0;
    while k < kws.len()
        invariant
            k <= kws@.len(),
            kws@.map_values(|s: &str| s@) == keywords(),
            lower@ == ascii_lower(content@),
            forall|j: int| 0 <= j < k ==> !contains_pat(lower@, keywords()[j]),
        decreases kws.len() - k,
    {
        let pat = chars_of(kws[k]);
        assert(pat@ == keywords()[k as int]);
        let hit = rfind_in(&lower, 0, lower.len(), &pat);
        assert(lower@.subrange(0, lower@.len() as int) =~= lower@);
        proof {
            lemma_rfind_contains(lower@, pat@);
        }
        if hit.is_some() {
            return true;
        }
        k += 1;
    }
    false
}

/// Base importance of a role, executable.
fn role_score(role: &String) -> (w: u32)
    ensures
        w == role_weight(role@),
{
    if str_eq(role.as_str(), "user") {
        4000
    } else if str_eq(role.as_str(), "assistant") {
        3000
    } else if str_eq(role.as_str(), "system") {
        5000
    } else {
        2000
    }
}

/// Importance score of a message in ten-thousandths.
pub fn message_importance(message: &ChatMessage) -> (score: u32)
    ensures
        score == importance(*message),
        score <= 10000,
{
    let mut score: u32 = role_score(&message.role);
    let bytes = message.content.as_str().len();
    let capped: u32 = if bytes < 1000 {
        bytes as u32
    } else {
        1000
    };
    score = score + 3 * capped;
    if message.tool_calls.is_some() || message.tool_call_id.is_some() {
        score = score + 2000;
    }
    if message.media.is_some() {
        score = score + 1000;
    }
    if keyword_present(&message.content) {
        score = score + 1500;
    }
    if score > 10000 {
        10000
    } else {
        score
    }
}


/// Importance of each message.
pub open spec fn scores(ms: Seq<ChatMessage>) -> Seq<nat> {
    ms.map_values(|m: ChatMessage| importance(m))
}

/// Whether message `j` comes before message `i` once messages are sorted by
/// descending score, equal scores keeping their order.
pub open spec fn outranks(s: Seq<nat>, j: int, i: int) -> bool {
    s[j] > s[i] || (s[j] == s[i] && j < i)
}

/// Position of message `i` when the messages of `lo..hi` are sorted by
/// descending score, equal scores keeping their order.
pub open spec fn rank_in(s: Seq<nat>, i: int, lo: int, hi: int) -> nat
    decreases hi - lo,
{
    if hi <= lo {
        0
    } else {
        rank_in(s, i, lo, hi - 1) + (if outranks(s, hi - 1, i) {
            1nat
        } else {
            0nat
        })
    }
}

/// Scores of the messages of `ms`.
fn score_all(ms: &Vec<ChatMessage>) -> (v: Vec<u32>)
    ensures
        v@.len() == ms@.len(),
        forall|j: int| 0 <= j < ms@.len() ==> v@[j] as nat == scores(ms@)[j],
{
    let mut v: Vec<u32> = Vec::new();
    let mut i: usize = 0;
    while i < ms.len()
        invariant
            i <= ms@.len(),
            v@.len() == i,
            forall|j: int| 0 <= j < i ==> v@[j] as nat == scores(ms@)[j],
        decreases ms.len() - i,
    {
        v.push(message_importance(&ms[i]));
        i += 1;
    }
    v
}

/// Rank of `i` among the scores of `lo..hi`.
fn rank_of(sc: &Vec<u32>, i: usize, lo: usize, hi: usize, Ghost(s): Ghost<Seq<nat>>) -> (r: usize)
    requires
        lo <= hi <= sc@.len(),
        i < sc@.len(),
        s.len() == sc@.len(),
        forall|j: int| 0 <= j < sc@.len() ==> sc@[j] as nat == s[j],
    ensures
        r == rank_in(s, i as int, lo as int, hi as int),
        r <= hi - lo,
{
    let mut r: usize = 0;
    let mut j: usize = lo;
    while j < hi
        invariant
            lo <= j <= hi <= sc@.len(),
            i < sc@.len(),
            s.len() == sc@.len(),
            forall|k: int| 0 <= k < sc@.len() ==> sc@[k] as nat == s[k],
            r == rank_in(s, i as int, lo as int, j as int),
            r <= j - lo,
        decreases hi - j,
    {
        if sc[j] > sc[i] || (sc[j] == sc[i] && j < i) {
            r += 1;
        }
        j += 1;
    }
    r
}

/// A message's text with line breaks turned into spaces.
pub open spec fn flatten_newlines(c: Seq<char>) -> Seq<char> {
    c.map_values(|x: char| if x == '\n' {
        ' '
    } else {
        x
    })
}

/// What a summary shows of a message's text: on one line, trimmed, cut to
/// 140 characters with `...` after a cut.
pub open spec fn snippet(c: Seq<char>) -> Seq<char> {
    let t = trim(flatten_newlines(c));
    if t.len() > 140 {
        t.take(140) + "..."@
    } else {
        t
    }
}

/// The summary line of one message.
pub open spec fn summary_line(m: ChatMessage) -> Seq<char> {
    "- "@ + m.role@ + ": "@ + snippet(m.content@)
}

/// Summary lines of the messages among the first `upto` of `ms` that rank
/// below `k`, in the order they came in.
pub open spec fn chosen_lines(ms: Seq<ChatMessage>, k: nat, upto: nat) -> Seq<Seq<char>>
    decreases upto,
{
    if upto == 0 {
        seq![]
    } else {
        let i = (upto - 1) as nat;
        chosen_lines(ms, k, i) + (if rank_in(scores(ms), i as int, 0, ms.len() as int) < k {
            seq![summary_line(ms[i as int])]
        } else {
            seq![]
        })
    }
}

/// Lines joined with line breaks.
pub open spec fn join_lines(ls: Seq<Seq<char>>) -> Seq<char>
    decreases ls.len(),
{
    if ls.len() == 0 {
        seq![]
    } else if ls.len() == 1 {
        ls[0]
    } else {
        join_lines(ls.drop_last()) + "\n"@ + ls.last()
    }
}

/// Deterministic summary of messages: one line for each of the
/// `max(max_points, 1)` most important, in the order they came in.
pub open spec fn summary(ms: Seq<ChatMessage>, max_points: nat) -> Seq<char> {
    if ms.len() == 0 {
        "- No significant context."@
    } else {
        join_lines(chosen_lines(ms, if max_points < 1 { 1 } else { max_points }, ms.len()))
    }
}

/// Appends the summary line of `m` to `out`.
fn push_summary_line(out: &mut String, m: &ChatMessage)
    ensures
        final(out)@ == old(out)@ + summary_line(*m),
{
    out.append("- ");
    out.append(m.role.as_str());
    out.append(": ");
    let c = chars_of(m.content.as_str());
    let mut flat: Vec<char> = Vec::new();
    let mut i: usize = 0;
    while i < c.len()
        invariant
            i <= c@.len(),
            flat@ == flatten_newlines(c@).take(i as int),
        decreases c.len() - i,
    {
        let x = c[i];
        flat.push(if x == '\n' { ' ' } else { x });
        assert(flatten_newlines(c@).take(i + 1) =~= flatten_newlines(c@).take(i as int).push(
            flatten_newlines(c@)[i as int],
        ));
        i += 1;
    }
    assert(flat@ =~= flatten_newlines(m.content@));
    let lo = skip_ws(&flat, 0, flat.len());
    let hi = back_ws(&flat, lo, flat.len());
    assert(flat@.subrange(0, flat@.len() as int) =~= flat@);
    let ghost t = flat@.subrange(lo as int, hi as int);
    assert(t == trim(flatten_newlines(m.content@)));
    if hi - lo > 140 {
        let piece = string_from_range(&flat, lo, lo + 140);
        assert(piece@ =~= t.take(140));
        out.append(piece.as_str());
        out.append("...");
    } else {
        let piece = string_from_range(&flat, lo, hi);
        out.append(piece.as_str());
    }
    assert(final(out)@ =~= old(out)@ + summary_line(*m));
}

/// The messages of `input` at the indices `idx`, in that order.
pub open spec fn picked(input: Seq<ChatMessage>, idx: Seq<int>) -> Seq<ChatMessage> {
    idx.map_values(|i: int| input[i])
}

/// Indices as integers.
pub open spec fn as_ints(idx: Seq<usize>) -> Seq<int> {
    idx.map_values(|i: usize| i as int)
}

/// Summary of the messages of `ms` at the indices `idx`.
fn summarize_picked(ms: &Vec<ChatMessage>, idx: &Vec<usize>, max_points: usize) -> (s: String)
    requires
        forall|j: int| 0 <= j < idx@.len() ==> idx@[j] < ms@.len(),
    ensures
        s@ == summary(picked(ms@, as_ints(idx@)), max_points as nat),
{
    let ghost sub = picked(ms@, as_ints(idx@));
    let m = idx.len();
    if m == 0 {
        return String::from_str("- No significant context.");
    }
    let mut sc: Vec<u32> = Vec::new();
    let mut i: usize = 0;
    while i < m
        invariant
            m == idx@.len(),
            forall|j: int| 0 <= j < idx@.len() ==> idx@[j] < ms@.len(),
            sub == picked(ms@, as_ints(idx@)),
            i <= m,
            sc@.len() == i,
            forall|j: int| 0 <= j < i ==> sc@[j] as nat == scores(sub)[j],
        decreases m - i,
    {
        assert(sub[i as int] == ms@[idx@[i as int] as int]);
        sc.push(message_importance(&ms[idx[i]]));
        i += 1;
    }
    let k: usize = if max_points < 1 {
        1
    } else {
        max_points
    };
    let mut out = String::new();
    let mut first = true;
    let mut i: usize = 0;
    while i < m
        invariant
            m == idx@.len(),
            forall|j: int| 0 <= j < idx@.len() ==> idx@[j] < ms@.len(),
            sub == picked(ms@, as_ints(idx@)),
            i <= m,
            sc@.len() == m,
            forall|j: int| 0 <= j < m ==> sc@[j] as nat == scores(sub)[j],
            out@ == join_lines(chosen_lines(sub, k as nat, i as nat)),
            first == (chosen_lines(sub, k as nat, i as nat).len() == 0),
        decreases m - i,
    {
        let ghost before = chosen_lines(sub, k as nat, i as nat);
        let r = rank_of(&sc, i, 0, m, Ghost(scores(sub)));
        if r < k {
            if !first {
                out.append("\n");
            }
            assert(sub[i as int] == ms@[idx@[i as int] as int]);
            push_summary_line(&mut out, &ms[idx[i]]);
            proof {
                let after = before.push(summary_line(sub[i as int]));
                assert(chosen_lines(sub, k as nat, (i + 1) as nat) =~= after);
                assert(after.drop_last() =~= before);
                if before.len() == 0 {
                    assert(after =~= seq![summary_line(sub[i as int])]);
                }
            }
            first = false;
        } else {
            assert(chosen_lines(sub, k as nat, (i + 1) as nat) =~= before);
        }
        i += 1;
    }
    out
}

/// Summary of the messages `ms[lo..hi]`.
fn summarize_range(ms: &Vec<ChatMessage>, lo: usize, hi: usize, max_points: usize) -> (s: String)
    requires
        lo <= hi <= ms@.len(),
    ensures
        s@ == summary(ms@.subrange(lo as int, hi as int), max_points as nat),
{
    let mut idx: Vec<usize> = Vec::new();
    let mut i = lo;
    while i < hi
        invariant
            lo <= i <= hi <= ms@.len(),
            idx@.len() == i - lo,
            forall|j: int| 0 <= j < idx@.len() ==> idx@[j] == lo + j,
        decreases hi - i,
    {
        idx.push(i);
        i += 1;
    }
    assert(picked(ms@, as_ints(idx@)) =~= ms@.subrange(lo as int, hi as int));
    summarize_picked(ms, &idx, max_points)
}

/// The indices of the first `upto` messages whose flag is not set, in order.
pub open spec fn dropped_indices(keep: Seq<bool>, upto: nat) -> Seq<int>
    decreases upto,
{
    if upto == 0 {
        seq![]
    } else {
        dropped_indices(keep, (upto - 1) as nat) + (if keep[upto - 1] {
            seq![]
        } else {
            seq![upto - 1]
        })
    }
}

/// The indices whose flag is not set, in order.
fn dropped_positions(keep: &Vec<bool>) -> (idx: Vec<usize>)
    ensures
        as_ints(idx@) == dropped_indices(keep@, keep@.len()),
        forall|j: int| 0 <= j < idx@.len() ==> idx@[j] < keep@.len(),
{
    let mut idx: Vec<usize> = Vec::new();
    let mut i: usize = 0;
    while i < keep.len()
        invariant
            i <= keep@.len(),
            as_ints(idx@) == dropped_indices(keep@, i as nat),
            forall|j: int| 0 <= j < idx@.len() ==> idx@[j] < i,
        decreases keep.len() - i,
    {
        let ghost before = idx@;
        if !keep[i] {
            idx.push(i);
        }
        assert(as_ints(idx@) =~= dropped_indices(keep@, (i + 1) as nat)) by {
            assert(as_ints(before) == dropped_indices(keep@, i as nat));
        }
        i += 1;
    }
    idx
}

/// One place of a compacted history: a message of the input, by index, or
/// a system marker message with the given text.
pub enum Slot {
    Kept(int),
    Marker(Seq<char>),
}

/// The places of the first `upto` input messages: the marker goes before the
/// message at `mpos`, and each message with `keep` set is kept.
pub open spec fn layout(keep: Seq<bool>, mpos: int, text: Seq<char>, upto: nat) -> Seq<Slot>
    decreases upto,
{
    if upto == 0 {
        seq![]
    } else {
        let i = upto - 1;
        layout(keep, mpos, text, (upto - 1) as nat) + (if i == mpos {
            seq![Slot::Marker(text)]
        } else {
            seq![]
        }) + (if keep[i] {
            seq![Slot::Kept(i)]
        } else {
            seq![]
        })
    }
}

/// The kept messages in order, with the marker before the message at `mpos`,
/// or at the end when `mpos` is the number of messages; no marker for a
/// negative `mpos`.
pub open spec fn arrangement(keep: Seq<bool>, mpos: int, text: Seq<char>) -> Seq<Slot> {
    layout(keep, mpos, text, keep.len()) + (if mpos == keep.len() {
        seq![Slot::Marker(text)]
    } else {
        seq![]
    })
}

/// Every message kept, no marker.
pub open spec fn unchanged(n: nat) -> Seq<Slot> {
    arrangement(Seq::new(n, |i: int| true), -1, seq![])
}

/// A marker message: a system message with the given text and nothing else.
pub open spec fn is_marker(m: ChatMessage, text: Seq<char>) -> bool {
    &&& m.role@ == "system"@
    &&& m.content@ == text
    &&& m.tool_calls is None
    &&& m.tool_call_id is None
    &&& m.media is None
}

/// `out` holds, place by place, what `slots` prescribes of `input`.
pub open spec fn realizes(out: Seq<ChatMessage>, input: Seq<ChatMessage>, slots: Seq<Slot>) -> bool {
    &&& out.len() == slots.len()
    &&& forall|i: int|
        0 <= i < out.len() ==> match #[trigger] slots[i] {
            Slot::Kept(j) => 0 <= j < input.len() && out[i] == input[j],
            Slot::Marker(t) => is_marker(out[i], t),
        }
}

/// Keeping every message without a marker changes nothing.
pub proof fn lemma_unchanged(input: Seq<ChatMessage>)
    ensures
        realizes(input, input, unchanged(input.len())),
{
    lemma_layout_all(input.len(), input.len());
    let keep = Seq::new(input.len(), |i: int| true);
    let u = unchanged(input.len());
    assert(u =~= layout(keep, -1, seq![], input.len()));
    assert forall|i: int| 0 <= i < input.len() implies match #[trigger] u[i] {
        Slot::Kept(j) => 0 <= j < input.len() && input[i] == input[j],
        Slot::Marker(t) => is_marker(input[i], t),
    } by {
        assert(u[i] == Slot::Kept(i));
    }
}

proof fn lemma_layout_all(n: nat, upto: nat)
    requires
        upto <= n,
    ensures
        layout(Seq::new(n, |i: int| true), -1, seq![], upto).len() == upto,
        forall|i: int|
            0 <= i < upto ==> layout(Seq::new(n, |i: int| true), -1, seq![], upto)[i]
                == Slot::Kept(i),
    decreases upto,
{
    if upto > 0 {
        lemma_layout_all(n, (upto - 1) as nat);
        let keep = Seq::new(n, |i: int| true);
        let prev = layout(keep, -1, seq![], (upto - 1) as nat);
        assert(layout(keep, -1, seq![], upto) =~= prev.push(Slot::Kept(upto - 1)));
    }
}

/// A system marker message with the given text.
fn marker(text: String) -> (m: ChatMessage)
    ensures
        is_marker(m, text@),
{
    ChatMessage {
        role: String::from_str("system"),
        content: text,
        tool_calls: None,
        tool_call_id: None,
        media: None,
    }
}

/// Lays out `messages`: keeps those with `keep` set, in order, with a marker
/// message carrying `text` at `mpos` when there is one.
fn arrange(messages: Vec<ChatMessage>, keep: &Vec<bool>, mpos: Option<usize>, text: String) -> (out:
    Vec<ChatMessage>)
    requires
        keep@.len() == messages@.len(),
        mpos matches Some(p) ==> p <= messages@.len(),
    ensures
        realizes(
            out@,
            messages@,
            arrangement(
                keep@,
                match mpos {
                    Some(p) => p as int,
                    None => -1,
                },
                text@,
            ),
        ),
{
    let ghost input = messages@;
    let ghost mp: int = match mpos {
        Some(p) => p as int,
        None => -1,
    };
    let ghost t = text@;
    let n = messages.len();
    let mut pending: Option<String> = Some(text);
    let mut out: Vec<ChatMessage> = Vec::new();
    let mut i: usize = 0;
    for m in it: messages.into_iter()
        invariant
            n == input.len(),
            keep@.len() == n,
            it.seq() == input,
            i == it.index(),
            i <= n,
            mp == match mpos {
                Some(p) => p as int,
                None => -1,
            },
            mp <= n,
            (mp >= i) ==> (pending matches Some(s) && s@ == t),
            realizes(out@, input, layout(keep@, mp, t, i as nat)),
    {
        let ghost prev = out@;
        let ghost lay = layout(keep@, mp, t, i as nat);
        if mpos == Some(i) {
            let s = pending.take().unwrap();
            out.push(marker(s));
        }
        let ghost mid = out@;
        if keep[i] {
            out.push(m);
        }
        proof {
            let next = layout(keep@, mp, t, (i + 1) as nat);
            let extra = if i == mp {
                seq![Slot::Marker(t)]
            } else {
                seq![]
            };
            let tail = if keep@[i as int] {
                seq![Slot::Kept(i as int)]
            } else {
                seq![]
            };
            assert(next =~= lay + extra + tail);
            assert forall|j: int| 0 <= j < out@.len() implies match #[trigger] next[j] {
                Slot::Kept(x) => 0 <= x < input.len() && out@[j] == input[x],
                Slot::Marker(tx) => is_marker(out@[j], tx),
            } by {
                if j < prev.len() {
                    assert(next[j] == lay[j]);
                    assert(out@[j] == prev[j]);
                } else if j < mid.len() {
                    assert(next[j] == Slot::Marker(t));
                } else {
                    assert(next[j] == Slot::Kept(i as int));
                }
            }
        }
        i += 1;
    }
    if mpos == Some(n) {
        let s = pending.take().unwrap();
        out.push(marker(s));
    }
    proof {
        let lay = layout(keep@, mp, t, n as nat);
        let all = arrangement(keep@, mp, t);
        assert forall|j: int| 0 <= j < out@.len() implies match #[trigger] all[j] {
            Slot::Kept(x) => 0 <= x < input.len() && out@[j] == input[x],
            Slot::Marker(tx) => is_marker(out@[j], tx),
        } by {
            if j < lay.len() {
                assert(all[j] == lay[j]);
            } else {
                assert(all[j] == Slot::Marker(t));
            }
        }
    }
    out
}


/// Text of the sliding-window marker.
pub open spec fn sliding_text(removed: nat) -> Seq<char> {
    "[Context compacted: "@ + decimal(removed)
        + " messages removed from history using sliding window strategy]"@
}

/// Text of the summarize marker: a header and the summary of the middle.
pub open spec fn summary_block(middle: Seq<ChatMessage>) -> Seq<char> {
    "[Context summary: "@ + decimal(middle.len()) + " earlier messages compacted]\n"@ + summary(
        middle,
        8,
    )
}

/// Text of the importance marker.
pub open spec fn importance_text(removed: nat) -> Seq<char> {
    "[Context compacted: "@ + decimal(removed) + " low-importance messages removed]"@
}

/// Text of the hybrid marker: a header and the summary of the omitted messages.
pub open spec fn hybrid_block(omitted: Seq<ChatMessage>) -> Seq<char> {
    "[Context summary: "@ + decimal(omitted.len()) + " messages compacted in hybrid mode]\n"@
        + summary(omitted, 6)
}

/// The smaller of two numbers.
pub open spec fn min_nat(a: nat, b: nat) -> nat {
    if a < b {
        a
    } else {
        b
    }
}

/// Keep the first `lo` and the messages from `hi` on, out of `n`.
pub open spec fn window_keep(n: nat, lo: int, hi: int) -> Seq<bool> {
    Seq::new(n, |i: int| i < lo || i >= hi)
}

/// Keep the first `lo`, those from `hi` on, and the middle messages that rank
/// below `budget` and score at least `threshold`.
pub open spec fn middle_keep(
    input: Seq<ChatMessage>,
    lo: int,
    hi: int,
    budget: nat,
    threshold: nat,
) -> Seq<bool> {
    Seq::new(
        input.len(),
        |i: int|
            i < lo || i >= hi || (rank_in(scores(input), i, lo, hi) < budget && scores(input)[i]
                >= threshold),
    )
}

/// The first index from `from` on whose flag is `want` (the length if none).
pub open spec fn first_with(keep: Seq<bool>, want: bool, from: int) -> int
    decreases keep.len() - from,
{
    if from >= keep.len() {
        keep.len() as int
    } else if keep[from] == want {
        from
    } else {
        first_with(keep, want, from + 1)
    }
}

/// How many of the first `upto` flags are set.
pub open spec fn count_kept(keep: Seq<bool>, upto: nat) -> nat
    decreases upto,
{
    if upto == 0 {
        0
    } else {
        count_kept(keep, (upto - 1) as nat) + (if keep[upto - 1] {
            1nat
        } else {
            0nat
        })
    }
}

/// Sliding window: keep the first and the last messages, with a marker
/// saying how many were removed between them.
pub open spec fn sliding_plan(c: CompactionConfig, input: Seq<ChatMessage>) -> Seq<Slot> {
    let n = input.len();
    let ki = min_nat(c.keep_initial as nat, n);
    let kr = min_nat(c.keep_recent as nat, n);
    if ki + kr >= n {
        unchanged(n)
    } else {
        arrangement(window_keep(n, ki as int, n - kr), ki as int, sliding_text((n - ki - kr) as nat))
    }
}

/// Summarize: keep the first and the last messages and replace the middle
/// with a summary block.
pub open spec fn summarize_plan(c: CompactionConfig, input: Seq<ChatMessage>) -> Seq<Slot> {
    let n = input.len();
    let ki = min_nat(c.keep_initial as nat, n);
    let kr = min_nat(c.keep_recent as nat, n);
    if ki + kr >= n {
        unchanged(n)
    } else {
        arrangement(
            window_keep(n, ki as int, n - kr),
            ki as int,
            summary_block(input.subrange(ki as int, n - kr)),
        )
    }
}

/// Importance: keep the first and the last messages and, within a budget of
/// two thirds of `max_messages`, the most important middle ones that reach
/// the threshold; a marker stands where the first message was removed.
pub open spec fn importance_plan(c: CompactionConfig, input: Seq<ChatMessage>) -> Seq<Slot> {
    let n = input.len();
    let ki = min_nat(c.keep_initial as nat, n);
    let kr = min_nat(c.keep_recent as nat, (n - ki) as nat);
    let rs = n - kr;
    let mm: nat = if c.max_messages < 1 {
        1
    } else {
        c.max_messages as nat
    };
    let target = mm * 2 / 3;
    let budget: nat = if target > ki + kr {
        (target - ki - kr) as nat
    } else {
        0
    };
    let keep = middle_keep(input, ki as int, rs, budget, c.importance_threshold as nat);
    let f = first_with(keep, false, 0);
    arrangement(
        keep,
        if f < n {
            f
        } else {
            -1
        },
        importance_text((n - count_kept(keep, n)) as nat),
    )
}

/// Hybrid: keep the first and the last messages and the most important
/// quarter of the middle that reaches the threshold; every omitted message
/// is summarized in one block, placed where the first one was removed.
pub open spec fn hybrid_plan(c: CompactionConfig, input: Seq<ChatMessage>) -> Seq<Slot> {
    let n = input.len();
    let ki = min_nat(c.keep_initial as nat, n);
    let kr = min_nat(c.keep_recent as nat, (n - ki) as nat);
    if ki + kr >= n {
        unchanged(n)
    } else {
        let keep = hybrid_keep(c, input);
        let f = first_with(keep, false, 0);
        if f >= n {
            arrangement(keep, -1, seq![])
        } else {
            arrangement(keep, f, hybrid_block(picked(input, dropped_indices(keep, n))))
        }
    }
}

/// Which messages hybrid compaction keeps: the first and the last ones, and
/// the most important quarter of the middle (at least one) that reaches the
/// threshold.
pub open spec fn hybrid_keep(c: CompactionConfig, input: Seq<ChatMessage>) -> Seq<bool> {
    let n = input.len();
    let ki = min_nat(c.keep_initial as nat, n);
    let kr = min_nat(c.keep_recent as nat, (n - ki) as nat);
    let rs = n - kr;
    let target: nat = if (rs - ki) / 4 < 1 {
        1
    } else {
        ((rs - ki) / 4) as nat
    };
    middle_keep(input, ki as int, rs, target, c.importance_threshold as nat)
}

/// What compaction with the configured strategy makes of `input`.
pub open spec fn plan(c: CompactionConfig, input: Seq<ChatMessage>) -> Seq<Slot> {
    match c.strategy {
        CompactionStrategy::SlidingWindow => sliding_plan(c, input),
        CompactionStrategy::Summarize => summarize_plan(c, input),
        CompactionStrategy::Importance => importance_plan(c, input),
        CompactionStrategy::Hybrid => hybrid_plan(c, input),
    }
}

/// Flags keeping the first `lo` and the messages from `hi` on.
fn window_flags(n: usize, lo: usize, hi: usize) -> (v: Vec<bool>)
    ensures
        v@ == window_keep(n as nat, lo as int, hi as int),
{
    let mut v: Vec<bool> = Vec::new();
    let mut i: usize = 0;
    while i < n
        invariant
            i <= n,
            v@ == window_keep(n as nat, lo as int, hi as int).take(i as int),
        decreases n - i,
    {
        v.push(i < lo || i >= hi);
        assert(window_keep(n as nat, lo as int, hi as int).take(i + 1) =~= v@);
        i += 1;
    }
    assert(window_keep(n as nat, lo as int, hi as int).take(n as int) =~= window_keep(
        n as nat,
        lo as int,
        hi as int,
    ));
    v
}

/// Flags of `middle_keep` for the messages scored in `sc`.
fn middle_flags(
    sc: &Vec<u32>,
    lo: usize,
    hi: usize,
    budget: usize,
    threshold: u32,
    Ghost(input): Ghost<Seq<ChatMessage>>,
) -> (v: Vec<bool>)
    requires
        lo <= hi <= sc@.len(),
        sc@.len() == input.len(),
        forall|j: int| 0 <= j < input.len() ==> sc@[j] as nat == scores(input)[j],
    ensures
        v@ == middle_keep(input, lo as int, hi as int, budget as nat, threshold as nat),
{
    let n = sc.len();
    let ghost want = middle_keep(input, lo as int, hi as int, budget as nat, threshold as nat);
    let mut v: Vec<bool> = Vec::new();
    let mut i: usize = 0;
    while i < n
        invariant
            i <= n == sc@.len() == input.len(),
            lo <= hi <= n,
            forall|j: int| 0 <= j < input.len() ==> sc@[j] as nat == scores(input)[j],
            want == middle_keep(input, lo as int, hi as int, budget as nat, threshold as nat),
            v@ == want.take(i as int),
        decreases n - i,
    {
        let k = if i < lo || i >= hi {
            true
        } else {
            let r = rank_of(sc, i, lo, hi, Ghost(scores(input)));
            r < budget && sc[i] >= threshold
        };
        v.push(k);
        assert(want.take(i + 1) =~= v@);
        i += 1;
    }
    assert(want.take(n as int) =~= want);
    v
}

/// First index from `from` on whose flag is `want`.
fn first_flag(keep: &Vec<bool>, want: bool, from: usize) -> (r: usize)
    requires
        from <= keep@.len(),
    ensures
        r as int == first_with(keep@, want, from as int),
        from <= r <= keep@.len(),
{
    let mut i = from;
    while i < keep.len() && keep[i] != want
        invariant
            from <= i <= keep@.len(),
            first_with(keep@, want, i as int) == first_with(keep@, want, from as int),
        decreases keep.len() - i,
    {
        i += 1;
    }
    i
}

/// Number of set flags.
fn count_flags(keep: &Vec<bool>) -> (r: usize)
    ensures
        r == count_kept(keep@, keep@.len()),
        r <= keep@.len(),
{
    let mut r: usize = 0;
    let mut i: usize = 0;
    while i < keep.len()
        invariant
            i <= keep@.len(),
            r == count_kept(keep@, i as nat),
            r <= i,
        decreases keep.len() - i,
    {
        if keep[i] {
            r += 1;
        }
        i += 1;
    }
    r
}


/// Context compaction engine.
pub struct CompactionEngine {
    config: CompactionConfig,
}

impl CompactionEngine {
    /// The configuration the engine runs with.
    pub closed spec fn config_spec(&self) -> CompactionConfig {
        self.config
    }

    /// Whether a history of `n` messages is due for compaction.
    pub open spec fn due(&self, n: nat) -> bool {
        self.config_spec().enabled && n > self.config_spec().max_messages
    }

    /// Create a new compaction engine with the given configuration.
    pub fn new(config: CompactionConfig) -> (e: CompactionEngine)
        ensures
            e.config_spec() == config,
    {
        CompactionEngine { config }
    }

    /// Check if compaction should be triggered for the given message count.
    pub fn should_compact(&self, message_count: usize) -> (b: bool)
        ensures
            b == self.due(message_count as nat),
    {
        self.config.enabled && message_count > self.config.max_messages
    }

    /// Importance score of a message, in ten-thousandths.
    pub fn calculate_importance(&self, message: &ChatMessage) -> (score: u32)
        ensures
            score == importance(*message),
            score <= 10000,
    {
        message_importance(message)
    }

    /// Compact a message history using the configured strategy.
    ///
    /// Returns the compacted message list and statistics; a history that is
    /// not due for compaction comes back unchanged.
    pub fn compact(&self, messages: Vec<ChatMessage>) -> (r: Result<
        (Vec<ChatMessage>, CompactionResult),
        String,
    >)
        ensures
            r matches Ok((out, res)) && {
                &&& res.before == messages@.len()
                &&& res.after == out@.len()
                &&& res.compacted == self.due(messages@.len())
                &&& res.strategy == self.config_spec().strategy
                &&& if self.due(messages@.len()) {
                    realizes(out@, messages@, plan(self.config_spec(), messages@))
                } else {
                    out@ == messages@
                }
            },
    {
        let before = messages.len();
        if !self.should_compact(before) {
            let res = CompactionResult {
                before,
                after: before,
                compacted: false,
                strategy: self.config.strategy,
            };
            return Ok((messages, res));
        }
        let compacted = match self.config.strategy {
            CompactionStrategy::SlidingWindow => self.compact_sliding_window(messages),
            CompactionStrategy::Summarize => self.compact_summarize(messages),
            CompactionStrategy::Importance => self.compact_importance(messages),
            CompactionStrategy::Hybrid => self.compact_hybrid(messages),
        };
        let after = compacted.len();
        Ok(
            (
                compacted,
                CompactionResult { before, after, compacted: true, strategy: self.config.strategy },
            ),
        )
    }

    /// Sliding window compaction: keep first N + last M messages.
    fn compact_sliding_window(&self, messages: Vec<ChatMessage>) -> (out: Vec<ChatMessage>)
        ensures
            realizes(out@, messages@, sliding_plan(self.config, messages@)),
    {
        let total = messages.len();
        let keep_initial = if self.config.keep_initial < total {
            self.config.keep_initial
        } else {
            total
        };
        let keep_recent = if self.config.keep_recent < total {
            self.config.keep_recent
        } else {
            total
        };
        if keep_initial >= total - keep_recent {
            proof {
                lemma_unchanged(messages@);
            }
            return messages;
        }
        let keep = window_flags(total, keep_initial, total - keep_recent);
        let removed = total - keep_initial - keep_recent;
        let mut text = String::from_str("[Context compacted: ");
        push_decimal(&mut text, removed as u64);
        text.append(" messages removed from history using sliding window strategy]");
        arrange(messages, &keep, Some(keep_initial), text)
    }

    /// Summarization-based compaction: keep initial + recent messages and
    /// replace the middle section with a generated summary block.
    fn compact_summarize(&self, messages: Vec<ChatMessage>) -> (out: Vec<ChatMessage>)
        ensures
            realizes(out@, messages@, summarize_plan(self.config, messages@)),
    {
        let total = messages.len();
        let keep_initial = if self.config.keep_initial < total {
            self.config.keep_initial
        } else {
            total
        };
        let keep_recent = if self.config.keep_recent < total {
            self.config.keep_recent
        } else {
            total
        };
        if keep_initial >= total - keep_recent {
            proof {
                lemma_unchanged(messages@);
            }
            return messages;
        }
        let middle_count = total - keep_initial - keep_recent;
        let summary_text = summarize_range(&messages, keep_initial, keep_initial + middle_count, 8);
        let mut text = String::from_str("[Context summary: ");
        push_decimal(&mut text, middle_count as u64);
        text.append(" earlier messages compacted]\n");
        text.append(summary_text.as_str());
        let keep = window_flags(total, keep_initial, total - keep_recent);
        arrange(messages, &keep, Some(keep_initial), text)
    }

    /// Importance-based compaction: score messages and keep high-value ones.
    fn compact_importance(&self, messages: Vec<ChatMessage>) -> (out: Vec<ChatMessage>)
        ensures
            realizes(out@, messages@, importance_plan(self.config, messages@)),
    {
        let total = messages.len();
        let keep_initial = if self.config.keep_initial < total {
            self.config.keep_initial
        } else {
            total
        };
        let keep_recent = if self.config.keep_recent < total - keep_initial {
            self.config.keep_recent
        } else {
            total - keep_initial
        };
        let recent_start = total - keep_recent;
        let max_messages: usize = if self.config.max_messages < 1 {
            1
        } else {
            self.config.max_messages
        };
        let target_count = ((max_messages as u128) * 2 / 3) as usize;
        let kept_ends = keep_initial + keep_recent;
        let remaining_budget = if target_count > kept_ends {
            target_count - kept_ends
        } else {
            0
        };
        let sc = score_all(&messages);
        let keep = middle_flags(
            &sc,
            keep_initial,
            recent_start,
            remaining_budget,
            self.config.importance_threshold,
            Ghost(messages@),
        );
        let kept_count = count_flags(&keep);
        let removed = total - kept_count;
        let first_removed = first_flag(&keep, false, 0);
        let mut text = String::from_str("[Context compacted: ");
        push_decimal(&mut text, removed as u64);
        text.append(" low-importance messages removed]");
        let mpos = if first_removed < total {
            Some(first_removed)
        } else {
            None
        };
        arrange(messages, &keep, mpos, text)
    }

    /// Hybrid compaction: keep initial/recent, retain highest-importance
    /// middle messages, and summarize the rest of the middle context.
    fn compact_hybrid(&self, messages: Vec<ChatMessage>) -> (out: Vec<ChatMessage>)
        ensures
            realizes(out@, messages@, hybrid_plan(self.config, messages@)),
    {
        let total = messages.len();
        let keep_initial = if self.config.keep_initial < total {
            self.config.keep_initial
        } else {
            total
        };
        let keep_recent = if self.config.keep_recent < total - keep_initial {
            self.config.keep_recent
        } else {
            total - keep_initial
        };
        let recent_start = total - keep_recent;
        if keep_initial + keep_recent >= total {
            proof {
                lemma_unchanged(messages@);
            }
            return messages;
        }
        let quarter = (recent_start - keep_initial) / 4;
        let middle_keep_target = if quarter < 1 {
            1
        } else {
            quarter
        };
        let sc = score_all(&messages);
        let keep = middle_flags(
            &sc,
            keep_initial,
            recent_start,
            middle_keep_target,
            self.config.importance_threshold,
            Ghost(messages@),
        );
        let first_omitted = first_flag(&keep, false, 0);
        if first_omitted >= total {
            return arrange(messages, &keep, None, String::new());
        }
        let omitted = dropped_positions(&keep);
        let summary_text = summarize_picked(&messages, &omitted, 6);
        let mut text = String::from_str("[Context summary: ");
        push_decimal(&mut text, omitted.len() as u64);
        text.append(" messages compacted in hybrid mode]\n");
        text.append(summary_text.as_str());
        arrange(messages, &keep, Some(first_omitted), text)
    }
}


// ---------------------------------------------------------------------------
// Laws of compaction
// ---------------------------------------------------------------------------

/// Structure of a layout: its length, the range of its kept indices, their
/// increasing order, and the messages it ends with.
proof fn lemma_layout(keep: Seq<bool>, mpos: int, t: Seq<char>, u: nat)
    requires
        u <= keep.len(),
    ensures
        layout(keep, mpos, t, u).len() == count_kept(keep, u) + (if 0 <= mpos < u {
            1nat
        } else {
            0nat
        }),
        count_kept(keep, u) <= u,
        forall|p: int|
            0 <= p < layout(keep, mpos, t, u).len() ==> (#[trigger] layout(keep, mpos, t, u)[p]
                matches Slot::Kept(x) ==> 0 <= x < u && keep[x]),
        forall|p: int, q: int|
            0 <= p < q < layout(keep, mpos, t, u).len() ==> (#[trigger] layout(keep, mpos, t, u)[p] matches Slot::Kept(
                x,
            ) ==> (#[trigger] layout(keep, mpos, t, u)[q] matches Slot::Kept(y) ==> x < y)),
    decreases u,
{
    if u > 0 {
        let v = (u - 1) as nat;
        lemma_layout(keep, mpos, t, v);
        let prev = layout(keep, mpos, t, v);
        let extra = if v == mpos {
            seq![Slot::Marker(t)]
        } else {
            seq![]
        };
        let tail = if keep[v as int] {
            seq![Slot::Kept(v as int)]
        } else {
            seq![]
        };
        let cur = layout(keep, mpos, t, u);
        assert(cur =~= prev + extra + tail);
        assert forall|p: int| 0 <= p < cur.len() implies (#[trigger] cur[p] matches Slot::Kept(x)
            ==> 0 <= x < u && keep[x]) by {
            if p < prev.len() {
                assert(cur[p] == prev[p]);
            }
        }
        assert forall|p: int, q: int| 0 <= p < q < cur.len() implies (#[trigger] cur[p] matches Slot::Kept(x)
            ==> (#[trigger] cur[q] matches Slot::Kept(y) ==> x < y)) by {
            if q < prev.len() {
                assert(cur[p] == prev[p] && cur[q] == prev[q]);
            } else if p < prev.len() {
                assert(cur[p] == prev[p]);
            }
        }
    }
}

/// A layout of `u` places extends the layout of fewer places.
proof fn lemma_layout_prefix(keep: Seq<bool>, mpos: int, t: Seq<char>, a: nat, u: nat)
    requires
        a <= u <= keep.len(),
    ensures
        layout(keep, mpos, t, a).len() <= layout(keep, mpos, t, u).len(),
        forall|i: int|
            0 <= i < layout(keep, mpos, t, a).len() ==> layout(keep, mpos, t, u)[i] == layout(
                keep,
                mpos,
                t,
                a,
            )[i],
    decreases u - a,
{
    if a < u {
        let v = (u - 1) as nat;
        lemma_layout_prefix(keep, mpos, t, a, v);
        let extra = if v == mpos {
            seq![Slot::Marker(t)]
        } else {
            seq![]
        };
        let tail = if keep[v as int] {
            seq![Slot::Kept(v as int)]
        } else {
            seq![]
        };
        assert(layout(keep, mpos, t, u) =~= layout(keep, mpos, t, v) + extra + tail);
    }
}

/// Messages kept up front with no marker among them open the layout.
proof fn lemma_layout_head(keep: Seq<bool>, mpos: int, t: Seq<char>, a: nat)
    requires
        a <= keep.len(),
        forall|i: int| 0 <= i < a ==> keep[i],
        mpos < 0 || mpos >= a,
    ensures
        layout(keep, mpos, t, a).len() == a,
        forall|i: int| 0 <= i < a ==> layout(keep, mpos, t, a)[i] == Slot::Kept(i),
    decreases a,
{
    if a > 0 {
        let v = (a - 1) as nat;
        lemma_layout_head(keep, mpos, t, v);
        assert(layout(keep, mpos, t, a) =~= layout(keep, mpos, t, v).push(Slot::Kept(v as int)));
    }
}

/// Messages kept at the end, with no marker after them, close the layout.
proof fn lemma_layout_tail(keep: Seq<bool>, mpos: int, t: Seq<char>, b: nat, u: nat)
    requires
        b < u <= keep.len(),
        forall|i: int| b <= i < u ==> keep[i],
        mpos <= b,
    ensures
        layout(keep, mpos, t, u).len() >= u - b,
        forall|k: int|
            layout(keep, mpos, t, u).len() - (u - b) <= k < layout(keep, mpos, t, u).len()
                ==> #[trigger] layout(keep, mpos, t, u)[k] == Slot::Kept(
                k - layout(keep, mpos, t, u).len() + u,
            ),
    decreases u - b,
{
    let v = (u - 1) as nat;
    let extra = if v == mpos {
        seq![Slot::Marker(t)]
    } else {
        seq![]
    };
    let cur = layout(keep, mpos, t, u);
    let prev = layout(keep, mpos, t, v);
    assert(cur =~= prev + extra + seq![Slot::Kept(v as int)]);
    if v > b {
        lemma_layout_tail(keep, mpos, t, b, v);
        assert(extra.len() == 0);
        assert forall|k: int| cur.len() - (u - b) <= k < cur.len() implies #[trigger] cur[k]
            == Slot::Kept(k - cur.len() + u) by {
            if k < cur.len() - 1 {
                assert(cur[k] == prev[k]);
            }
        }
    }
}

/// Each flag set counts; with one flag clear fewer than all count.
proof fn lemma_count_kept_missing(keep: Seq<bool>, u: nat, i: int)
    requires
        u <= keep.len(),
        0 <= i < u,
        !keep[i],
    ensures
        count_kept(keep, u) < u,
    decreases u,
{
    let v = (u - 1) as nat;
    lemma_layout(keep, -1, seq![], v);
    if i < v {
        lemma_count_kept_missing(keep, v, i);
    }
}

/// Where the search for a flag stops.
proof fn lemma_first_with(keep: Seq<bool>, want: bool, from: int)
    requires
        0 <= from <= keep.len(),
    ensures
        from <= first_with(keep, want, from) <= keep.len(),
        first_with(keep, want, from) < keep.len() ==> keep[first_with(keep, want, from)] == want,
        forall|j: int| from <= j < first_with(keep, want, from) ==> keep[j] != want,
    decreases keep.len() - from,
{
    if from < keep.len() && keep[from] != want {
        lemma_first_with(keep, want, from + 1);
    }
}

/// The general form of a compaction: which messages are kept and where the
/// marker goes.
pub open spec fn is_arrangement(slots: Seq<Slot>, keep: Seq<bool>, mpos: int, t: Seq<char>) -> bool {
    slots == arrangement(keep, mpos, t) && mpos <= keep.len()
}

/// Messages kept at both ends, and a marker only between them where a
/// message was dropped.
pub open spec fn frames(keep: Seq<bool>, mpos: int, head: nat, tail: nat) -> bool {
    &&& head + tail <= keep.len()
    &&& forall|i: int| 0 <= i < head ==> keep[i]
    &&& forall|i: int| keep.len() - tail <= i < keep.len() ==> keep[i]
    &&& mpos < 0 || (head <= mpos <= keep.len() - tail && exists|i: int|
        0 <= i < keep.len() && !keep[i])
}

/// How many messages at the front every strategy keeps.
pub open spec fn head_kept(c: CompactionConfig, n: nat) -> nat {
    min_nat(c.keep_initial as nat, n)
}

/// How many messages at the back every strategy keeps.
pub open spec fn tail_kept(c: CompactionConfig, n: nat) -> nat {
    min_nat(c.keep_recent as nat, (n - head_kept(c, n)) as nat)
}

/// Every strategy is an arrangement that frames the history with its first
/// and last messages.
proof fn lemma_plan_frames(c: CompactionConfig, input: Seq<ChatMessage>) -> (r: (
    Seq<bool>,
    int,
    Seq<char>,
))
    ensures
        r.0.len() == input.len(),
        is_arrangement(plan(c, input), r.0, r.1, r.2),
        frames(r.0, r.1, head_kept(c, input.len()), tail_kept(c, input.len())),
{
    let n = input.len();
    let head = head_kept(c, n);
    let tail = tail_kept(c, n);
    let all = Seq::new(n, |i: int| true);
    let ki = min_nat(c.keep_initial as nat, n);
    let kr = min_nat(c.keep_recent as nat, n);
    match c.strategy {
        CompactionStrategy::SlidingWindow | CompactionStrategy::Summarize => {
            if ki + kr >= n {
                (all, -1, seq![])
            } else {
                let keep = window_keep(n, ki as int, n - kr);
                assert(!keep[ki as int]);
                let t = if c.strategy == CompactionStrategy::SlidingWindow {
                    sliding_text((n - ki - kr) as nat)
                } else {
                    summary_block(input.subrange(ki as int, n - kr))
                };
                (keep, ki as int, t)
            }
        },
        CompactionStrategy::Importance => {
            let kr2 = min_nat(c.keep_recent as nat, (n - ki) as nat);
            let rs = n - kr2;
            let mm: nat = if c.max_messages < 1 {
                1
            } else {
                c.max_messages as nat
            };
            let target = mm * 2 / 3;
            let budget: nat = if target > ki + kr2 {
                (target - ki - kr2) as nat
            } else {
                0
            };
            let keep = middle_keep(input, ki as int, rs, budget, c.importance_threshold as nat);
            let f = first_with(keep, false, 0);
            lemma_first_with(keep, false, 0);
            (keep, if f < n {
                f
            } else {
                -1
            }, importance_text((n - count_kept(keep, n)) as nat))
        },
        CompactionStrategy::Hybrid => {
            let kr2 = min_nat(c.keep_recent as nat, (n - ki) as nat);
            let rs = n - kr2;
            if ki + kr2 >= n {
                (all, -1, seq![])
            } else {
                let keep = hybrid_keep(c, input);
                let f = first_with(keep, false, 0);
                lemma_first_with(keep, false, 0);
                if f >= n {
                    (keep, -1, seq![])
                } else {
                    (keep, f, hybrid_block(picked(input, dropped_indices(keep, n))))
                }
            }
        },
    }
}

/// The length of an arrangement.
proof fn lemma_arrangement_len(keep: Seq<bool>, mpos: int, t: Seq<char>)
    requires
        mpos <= keep.len(),
    ensures
        arrangement(keep, mpos, t).len() == count_kept(keep, keep.len()) + (if mpos >= 0 {
            1nat
        } else {
            0nat
        }),
{
    lemma_layout(keep, mpos, t, keep.len());
}

/// Where the marker of a layout stands: right after the messages kept
/// before `mpos`, and nowhere else.
proof fn lemma_layout_marker(keep: Seq<bool>, mpos: int, t: Seq<char>, u: nat)
    requires
        u <= keep.len(),
    ensures
        0 <= mpos < u ==> layout(keep, mpos, t, u)[count_kept(keep, mpos as nat) as int]
            == Slot::Marker(t) && count_kept(keep, mpos as nat) < layout(keep, mpos, t, u).len(),
        forall|p: int|
            0 <= p < layout(keep, mpos, t, u).len() && #[trigger] layout(keep, mpos, t, u)[p]
                is Marker ==> 0 <= mpos < u && p == count_kept(keep, mpos as nat) && layout(
                keep,
                mpos,
                t,
                u,
            )[p] == Slot::Marker(t),
    decreases u,
{
    if u > 0 {
        let v = (u - 1) as nat;
        lemma_layout_marker(keep, mpos, t, v);
        lemma_layout(keep, mpos, t, v);
        let prev = layout(keep, mpos, t, v);
        let extra = if v == mpos {
            seq![Slot::Marker(t)]
        } else {
            seq![]
        };
        let tail = if keep[v as int] {
            seq![Slot::Kept(v as int)]
        } else {
            seq![]
        };
        let cur = layout(keep, mpos, t, u);
        assert(cur =~= prev + extra + tail);
        if 0 <= mpos < v {
            assert(cur[count_kept(keep, mpos as nat) as int] == prev[count_kept(keep, mpos as nat) as int]);
        }
        assert forall|p: int| 0 <= p < cur.len() && #[trigger] cur[p] is Marker implies 0 <= mpos < u
            && p == count_kept(keep, mpos as nat) && cur[p] == Slot::Marker(t) by {
            if p < prev.len() {
                assert(cur[p] == prev[p]);
            }
        }
    }
}

/// The dropped indices are those whose flag is not set, and together with
/// the kept ones they account for every message.
proof fn lemma_dropped(keep: Seq<bool>, u: nat)
    requires
        u <= keep.len(),
    ensures
        dropped_indices(keep, u).len() + count_kept(keep, u) == u,
        forall|j: int|
            0 <= j < dropped_indices(keep, u).len() ==> 0 <= #[trigger] dropped_indices(keep, u)[j]
                < u && !keep[dropped_indices(keep, u)[j]],
    decreases u,
{
    if u > 0 {
        let v = (u - 1) as nat;
        lemma_dropped(keep, v);
        let prev = dropped_indices(keep, v);
        assert forall|j: int| 0 <= j < dropped_indices(keep, u).len() implies 0
            <= #[trigger] dropped_indices(keep, u)[j] < u && !keep[dropped_indices(keep, u)[j]] by {
            if j < prev.len() {
                assert(dropped_indices(keep, u)[j] == prev[j]);
            }
        }
    }
}

/// Hybrid compaction leaves messages out only by summarizing them: when it
/// applies and omits any, the result is the kept messages and exactly one
/// block, which reports how many were omitted and summarizes all of them.
pub proof fn lemma_hybrid_summarizes_every_omission(
    c: CompactionConfig,
    input: Seq<ChatMessage>,
    out: Seq<ChatMessage>,
)
    requires
        c.strategy == CompactionStrategy::Hybrid,
        head_kept(c, input.len()) + tail_kept(c, input.len()) < input.len(),
        realizes(out, input, plan(c, input)),
        dropped_indices(hybrid_keep(c, input), input.len()).len() > 0,
    ensures
        ({
            let omitted = picked(input, dropped_indices(hybrid_keep(c, input), input.len()));
            let block = Slot::Marker(hybrid_block(omitted));
            &&& omitted.len() == dropped_indices(hybrid_keep(c, input), input.len()).len()
            &&& out.len() == input.len() - omitted.len() + 1
            &&& exists|p: int|
                0 <= p < out.len() && plan(c, input)[p] == block && is_marker(
                    out[p],
                    hybrid_block(omitted),
                )
            &&& forall|p: int|
                0 <= p < out.len() ==> (#[trigger] plan(c, input)[p]) is Kept || plan(c, input)[p]
                    == block
            &&& forall|p: int, q: int|
                0 <= p < q < out.len() ==> (#[trigger] plan(c, input)[p]) is Kept || (#[trigger] plan(
                    c,
                    input,
                )[q]) is Kept
        }),
{
    let n = input.len();
    let keep = hybrid_keep(c, input);
    let d = dropped_indices(keep, n);
    let omitted = picked(input, d);
    let t = hybrid_block(omitted);
    lemma_dropped(keep, n);
    let f = first_with(keep, false, 0);
    lemma_first_with(keep, false, 0);
    assert(f < n) by {
        assert(!keep[d[0]]);
    }
    let slots = plan(c, input);
    assert(slots == arrangement(keep, f, t));
    assert(slots == layout(keep, f, t, n));
    lemma_layout(keep, f, t, n);
    lemma_layout_marker(keep, f, t, n);
    let p = count_kept(keep, f as nat) as int;
    assert(slots[p] == Slot::Marker(t));
    assert(is_marker(out[p], t));
}

/// A kept slot of an arrangement names a message whose flag is set.
proof fn lemma_arrangement_kept(keep: Seq<bool>, mpos: int, t: Seq<char>, p: int)
    requires
        mpos <= keep.len(),
        0 <= p < arrangement(keep, mpos, t).len(),
        arrangement(keep, mpos, t)[p] is Kept,
    ensures
        0 <= arrangement(keep, mpos, t)[p]->Kept_0 < keep.len(),
        keep[arrangement(keep, mpos, t)[p]->Kept_0],
{
    lemma_layout(keep, mpos, t, keep.len());
    let lay = layout(keep, mpos, t, keep.len());
    if p < lay.len() {
        assert(arrangement(keep, mpos, t)[p] == lay[p]);
    }
}

/// The importance and hybrid strategies keep a message between the first
/// `keep_initial` and the last `keep_recent` only if its importance reaches
/// the configured threshold.
pub proof fn lemma_kept_middle_reaches_threshold(
    c: CompactionConfig,
    input: Seq<ChatMessage>,
    out: Seq<ChatMessage>,
)
    requires
        c.strategy == CompactionStrategy::Importance || c.strategy == CompactionStrategy::Hybrid,
        realizes(out, input, plan(c, input)),
    ensures
        forall|p: int|
            0 <= p < out.len() && (#[trigger] plan(c, input)[p]) is Kept && head_kept(c, input.len())
                <= plan(c, input)[p]->Kept_0 < input.len() - tail_kept(c, input.len()) ==> out[p]
                == input[plan(c, input)[p]->Kept_0] && importance(out[p]) >= c.importance_threshold,
{
    let n = input.len();
    let ki = head_kept(c, n);
    let kr = tail_kept(c, n);
    let slots = plan(c, input);
    let keep = if c.strategy == CompactionStrategy::Importance {
        let mm: nat = if c.max_messages < 1 {
            1
        } else {
            c.max_messages as nat
        };
        let target = mm * 2 / 3;
        let budget: nat = if target > ki + kr {
            (target - ki - kr) as nat
        } else {
            0
        };
        middle_keep(input, ki as int, n - kr, budget, c.importance_threshold as nat)
    } else {
        hybrid_keep(c, input)
    };
    let f = first_with(keep, false, 0);
    lemma_first_with(keep, false, 0);
    assert forall|p: int|
        0 <= p < out.len() && (#[trigger] plan(c, input)[p]) is Kept && ki <= plan(c, input)[p]->Kept_0
            < n - kr implies out[p] == input[plan(c, input)[p]->Kept_0] && importance(out[p])
        >= c.importance_threshold by {
        let j = slots[p]->Kept_0;
        if c.strategy == CompactionStrategy::Importance {
            let text = importance_text((n - count_kept(keep, n)) as nat);
            let m = if f < n {
                f
            } else {
                -1
            };
            assert(slots == arrangement(keep, m, text));
            lemma_arrangement_kept(keep, m, text, p);
        } else if ki + kr < n {
            if f >= n {
                assert(slots == arrangement(keep, -1, seq![]));
                lemma_arrangement_kept(keep, -1, seq![], p);
            } else {
                let text = hybrid_block(picked(input, dropped_indices(keep, n)));
                assert(slots == arrangement(keep, f, text));
                lemma_arrangement_kept(keep, f, text, p);
            }
        }
        assert(scores(input)[j] == importance(input[j]));
    }
}

/// A message that outranks another comes earlier in the ranking.
proof fn lemma_rank_strict(s: Seq<nat>, j: int, i: int, lo: int, hi: int)
    requires
        lo <= j < hi,
        lo <= i < hi,
        outranks(s, j, i),
    ensures
        rank_in(s, j, lo, hi) < rank_in(s, i, lo, hi),
{
    lemma_rank_steps(s, j, i, lo, hi);
}

proof fn lemma_rank_steps(s: Seq<nat>, j: int, i: int, lo: int, h: int)
    requires
        lo <= j,
        lo <= h,
        outranks(s, j, i),
    ensures
        rank_in(s, j, lo, h) + (if j < h {
            1int
        } else {
            0int
        }) <= rank_in(s, i, lo, h),
    decreases h - lo,
{
    if h > lo {
        lemma_rank_steps(s, j, i, lo, h - 1);
        let k = h - 1;
        if outranks(s, k, j) {
            assert(outranks(s, k, i));
        }
    }
}

/// Every message whose flag is set has its place in the arrangement.
proof fn lemma_arrangement_has(keep: Seq<bool>, mpos: int, t: Seq<char>, j: int)
    requires
        mpos <= keep.len(),
        0 <= j < keep.len(),
        keep[j],
    ensures
        exists|q: int| 0 <= q < arrangement(keep, mpos, t).len() && arrangement(keep, mpos, t)[q]
            == Slot::Kept(j),
{
    let u = (j + 1) as nat;
    let prev = layout(keep, mpos, t, j as nat);
    let extra = if j == mpos {
        seq![Slot::Marker(t)]
    } else {
        seq![]
    };
    let lay = layout(keep, mpos, t, u);
    assert(lay =~= prev + extra + seq![Slot::Kept(j)]);
    let q = lay.len() - 1;
    lemma_layout_prefix(keep, mpos, t, u, keep.len());
    let all = layout(keep, mpos, t, keep.len());
    assert(all[q] == Slot::Kept(j));
    assert(arrangement(keep, mpos, t)[q] == all[q]);
}

/// The importance and hybrid strategies prefer the more important middle
/// messages: when a middle message is kept while another middle message that
/// reaches the threshold is left out, the kept one scores higher, or the same
/// and comes first.
pub proof fn lemma_kept_middle_outranks_dropped(
    c: CompactionConfig,
    input: Seq<ChatMessage>,
    out: Seq<ChatMessage>,
    p: int,
    j: int,
)
    requires
        c.strategy == CompactionStrategy::Importance || c.strategy == CompactionStrategy::Hybrid,
        realizes(out, input, plan(c, input)),
        0 <= p < out.len(),
        plan(c, input)[p] is Kept,
        head_kept(c, input.len()) <= plan(c, input)[p]->Kept_0 < input.len() - tail_kept(
            c,
            input.len(),
        ),
        head_kept(c, input.len()) <= j < input.len() - tail_kept(c, input.len()),
        importance(input[j]) >= c.importance_threshold,
        forall|q: int| 0 <= q < out.len() ==> plan(c, input)[q] != Slot::Kept(j),
    ensures
        importance(out[p]) > importance(input[j]) || (importance(out[p]) == importance(input[j])
            && plan(c, input)[p]->Kept_0 < j),
{
    let n = input.len();
    let ki = head_kept(c, n);
    let kr = tail_kept(c, n);
    let slots = plan(c, input);
    let sc = scores(input);
    let i = slots[p]->Kept_0;
    let budget: nat = if c.strategy == CompactionStrategy::Importance {
        let mm: nat = if c.max_messages < 1 {
            1
        } else {
            c.max_messages as nat
        };
        let target = mm * 2 / 3;
        if target > ki + kr {
            (target - ki - kr) as nat
        } else {
            0
        }
    } else {
        if ((n - kr) - ki) / 4 < 1 {
            1
        } else {
            (((n - kr) - ki) / 4) as nat
        }
    };
    let keep = middle_keep(input, ki as int, n - kr, budget, c.importance_threshold as nat);
    assert(c.strategy == CompactionStrategy::Hybrid ==> keep == hybrid_keep(c, input));
    let f = first_with(keep, false, 0);
    lemma_first_with(keep, false, 0);
    let m: int = if f < n {
        f
    } else {
        -1
    };
    let text = if c.strategy == CompactionStrategy::Importance {
        importance_text((n - count_kept(keep, n)) as nat)
    } else if f < n {
        hybrid_block(picked(input, dropped_indices(keep, n)))
    } else {
        seq![]
    };
    assert(slots == arrangement(keep, m, text));
    lemma_arrangement_kept(keep, m, text, p);
    if keep[j] {
        lemma_arrangement_has(keep, m, text, j);
        let q = choose|q: int| 0 <= q < arrangement(keep, m, text).len() && arrangement(keep, m, text)[q]
            == Slot::Kept(j);
        assert(slots[q] == Slot::Kept(j));
        assert(false);
    }
    assert(sc[j] == importance(input[j]));
    assert(sc[i] == importance(input[i]));
    assert(rank_in(sc, i, ki as int, n - kr) < budget);
    assert(rank_in(sc, j, ki as int, n - kr) >= budget);
    if outranks(sc, j, i) {
        lemma_rank_strict(sc, j, i, ki as int, n - kr);
    }
}

/// Compaction never lengthens a history: the marker only ever stands in for
/// at least one dropped message.
pub proof fn lemma_compaction_never_grows(
    c: CompactionConfig,
    input: Seq<ChatMessage>,
    out: Seq<ChatMessage>,
)
    requires
        realizes(out, input, plan(c, input)),
    ensures
        out.len() <= input.len(),
{
    let (keep, mpos, t) = lemma_plan_frames(c, input);
    lemma_arrangement_len(keep, mpos, t);
    lemma_layout(keep, mpos, t, keep.len());
    if mpos >= 0 {
        let i = choose|i: int| 0 <= i < keep.len() && !keep[i];
        lemma_count_kept_missing(keep, keep.len(), i);
    }
}

/// Compaction keeps the messages it keeps in the order they came in.
pub proof fn lemma_compaction_preserves_order(
    c: CompactionConfig,
    input: Seq<ChatMessage>,
    p: int,
    q: int,
)
    requires
        0 <= p < q < plan(c, input).len(),
    ensures
        plan(c, input)[p] matches Slot::Kept(x) ==> (plan(c, input)[q] matches Slot::Kept(y) ==> x
            < y),
{
    let (keep, mpos, t) = lemma_plan_frames(c, input);
    lemma_layout(keep, mpos, t, keep.len());
    let lay = layout(keep, mpos, t, keep.len());
    let all = plan(c, input);
    if q >= lay.len() {
        assert(all[q] == Slot::Marker(t));
    } else {
        assert(all[p] == lay[p] && all[q] == lay[q]);
    }
}

/// Compaction keeps the first `keep_initial` and the last `keep_recent`
/// messages (as far as the history has them) at the front and at the back.
pub proof fn lemma_compaction_keeps_ends(
    c: CompactionConfig,
    input: Seq<ChatMessage>,
    out: Seq<ChatMessage>,
)
    requires
        realizes(out, input, plan(c, input)),
    ensures
        out.len() >= head_kept(c, input.len()) + tail_kept(c, input.len()),
        forall|i: int| 0 <= i < head_kept(c, input.len()) ==> out[i] == input[i],
        forall|k: int|
            out.len() - tail_kept(c, input.len()) <= k < out.len() ==> #[trigger] out[k] == input[k
                + input.len() - out.len()],
{
    let n = input.len();
    let head = head_kept(c, n);
    let tail = tail_kept(c, n);
    let (keep, mpos, t) = lemma_plan_frames(c, input);
    let slots = plan(c, input);
    let lay = layout(keep, mpos, t, n);
    lemma_layout_head(keep, mpos, t, head);
    lemma_layout_prefix(keep, mpos, t, head, n);
    lemma_layout(keep, mpos, t, n);
    assert(slots.len() >= lay.len());
    assert forall|i: int| 0 <= i < head implies out[i] == input[i] by {
        assert(slots[i] == lay[i]);
        assert(slots[i] == Slot::Kept(i));
    }
    if tail > 0 {
        lemma_layout_tail(keep, mpos, t, (n - tail) as nat, n);
        assert(mpos != n);
        assert(slots == lay);
        assert forall|k: int| out.len() - tail <= k < out.len() implies #[trigger] out[k]
            == input[k + n - out.len()] by {
            assert(slots[k] == Slot::Kept(k - slots.len() + n));
        }
        if head + tail > slots.len() {
            // the head and the tail are disjoint runs of kept messages
            assert(slots[head - 1] == Slot::Kept(head - 1));
            assert(slots[slots.len() - tail] == Slot::Kept(n - tail));
            lemma_compaction_preserves_order(c, input, slots.len() - tail, head - 1);
        }
    }
}

} // verus!
