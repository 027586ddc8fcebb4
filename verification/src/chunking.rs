//! Per-channel message chunking.

use vstd::prelude::*;
use crate::text::{
    back_ws, char_is_ws, chars_of, contains_pat, is_ws, last_at, lemma_last_match_upto,
    lemma_rfind_contains, lemma_rfind_last, lemma_strip_ws_add, lemma_trim_end, lemma_trim_start,
    matches_at, rfind, rfind_in, skip_ws, str_eq, string_from_range, strip_ws, trim, trim_end,
    trim_start, views,
};

verus! {

/// Chunking limits of one messenger/channel type.
#[derive(Debug, Clone, Copy)]
pub struct ChunkingPolicy {
    pub max_chars: usize,
    pub inter_chunk_delay_ms: u64,
}

/// The policy of a messenger type: documented hard limits for Telegram and
/// Discord, conservative limits for webhook/bot integrations, a fallback otherwise.
pub open spec fn policy_spec(t: Seq<char>) -> ChunkingPolicy {
    if t == "telegram"@ {
        ChunkingPolicy { max_chars: 4096, inter_chunk_delay_ms: 25 }
    } else if t == "discord"@ {
        ChunkingPolicy { max_chars: 2000, inter_chunk_delay_ms: 25 }
    } else if t == "slack"@ || t == "google-chat"@ || t == "mattermost"@ || t == "lark"@ || t
        == "feishu"@ {
        ChunkingPolicy { max_chars: 3900, inter_chunk_delay_ms: 25 }
    } else if t == "irc"@ {
        ChunkingPolicy { max_chars: 380, inter_chunk_delay_ms: 20 }
    } else if t == "line"@ {
        ChunkingPolicy { max_chars: 4900, inter_chunk_delay_ms: 25 }
    } else {
        ChunkingPolicy { max_chars: 3500, inter_chunk_delay_ms: 25 }
    }
}

/// Return the chunking policy for a messenger type.
pub fn policy_for_messenger(messenger_type: &str) -> (p: ChunkingPolicy)
    ensures
        p == policy_spec(messenger_type@),
{
    if str_eq(messenger_type, "telegram") {
        ChunkingPolicy { max_chars: 4096, inter_chunk_delay_ms: 25 }
    } else if str_eq(messenger_type, "discord") {
        ChunkingPolicy { max_chars: 2000, inter_chunk_delay_ms: 25 }
    } else if str_eq(messenger_type, "slack") || str_eq(messenger_type, "google-chat") || str_eq(
        messenger_type,
        "mattermost",
    ) || str_eq(messenger_type, "lark") || str_eq(messenger_type, "feishu") {
        ChunkingPolicy { max_chars: 3900, inter_chunk_delay_ms: 25 }
    } else if str_eq(messenger_type, "irc") {
        ChunkingPolicy { max_chars: 380, inter_chunk_delay_ms: 20 }
    } else if str_eq(messenger_type, "line") {
        ChunkingPolicy { max_chars: 4900, inter_chunk_delay_ms: 25 }
    } else {
        ChunkingPolicy { max_chars: 3500, inter_chunk_delay_ms: 25 }
    }
}

/// Every messenger type gets a positive chunk size and a delay of at most 25 ms.
pub proof fn lemma_policy_positive(t: Seq<char>)
    ensures
        policy_spec(t).max_chars > 0,
        policy_spec(t).inter_chunk_delay_ms <= 25,
{
}

/// Where a cut is preferred inside `prefix`: the last paragraph break, else the
/// last line break, else the last sentence end, else the last space.
pub open spec fn boundary(prefix: Seq<char>) -> Option<int> {
    let para = rfind(prefix, seq!['\n', '\n']);
    let line = rfind(prefix, seq!['\n']);
    let sentence = rfind(prefix, seq!['.', ' ']);
    if para is Some {
        para
    } else if line is Some {
        line
    } else if sentence is Some {
        sentence
    } else {
        rfind(prefix, seq![' '])
    }
}

/// Where the text `r` (longer than `max`) is cut: at the preferred boundary
/// within the first `max` characters unless it lies before `max / 2`, else
/// hard after `max` characters.
pub open spec fn split_point(r: Seq<char>, max: nat) -> int {
    match boundary(r.take(max as int)) {
        Some(i) => if i >= max / 2 {
            i
        } else {
            max as int
        },
        None => max as int,
    }
}

/// The cut point makes progress and stays within the first `max` characters.
pub proof fn lemma_split_point_bounds(r: Seq<char>, max: nat)
    requires
        max >= 1,
        r.len() > max,
        !is_ws(r[0]),
    ensures
        1 <= split_point(r, max) <= max,
{
    let p = r.take(max as int);
    lemma_last_match_upto(p, seq!['\n', '\n'], p.len() - 2);
    lemma_last_match_upto(p, seq!['\n'], p.len() - 1);
    lemma_last_match_upto(p, seq!['.', ' '], p.len() - 2);
    lemma_last_match_upto(p, seq![' '], p.len() - 1);
    if max == 1 {
        assert(rfind(p, seq!['\n', '\n']) is None);
        assert(rfind(p, seq!['.', ' ']) is None);
        if matches_at(p, seq!['\n'], 0) {
            assert(p.subrange(0, 1)[0] == r[0]);
        }
        if matches_at(p, seq![' '], 0) {
            assert(p.subrange(0, 1)[0] == r[0]);
        }
    }
}


/// The chunks of a text that starts after whitespace was dropped: each cut
/// drops the whitespace around it.
pub open spec fn pieces(r: Seq<char>, max: nat) -> Seq<Seq<char>>
    decreases r.len(),
{
    let t = trim_start(r);
    if t.len() == 0 || max == 0 {
        seq![]
    } else if t.len() <= max {
        seq![t]
    } else {
        let k = split_point(t, max);
        let c = trim_end(t.take(k));
        let rest = t.skip(k);
        proof {
            lemma_trim_start(r);
            lemma_split_point_bounds(t, max);
        }
        if c.len() > 0 {
            seq![c] + pieces(rest, max)
        } else {
            pieces(rest, max)
        }
    }
}

/// The chunks `chunk_message` returns for `content`.
pub open spec fn chunk_message_spec(content: Seq<char>, max: nat) -> Seq<Seq<char>> {
    if content.len() == 0 || max == 0 {
        seq![Seq::empty()]
    } else if content.len() <= max {
        seq![content]
    } else {
        let ps = pieces(trim(content), max);
        if ps.len() == 0 {
            seq![Seq::empty()]
        } else {
            ps
        }
    }
}

/// Relative cut point of the text `v[p..end]`, which is longer than `max`.
fn split_at_boundary(v: &Vec<char>, p: usize, end: usize, max: usize) -> (k: usize)
    requires
        p < end <= v@.len(),
        max >= 1,
        end - p > max,
    ensures
        k == split_point(v@.subrange(p as int, end as int), max as nat),
{
    let hi = p + max;
    let ghost prefix = v@.subrange(p as int, end as int).take(max as int);
    assert(prefix =~= v@.subrange(p as int, hi as int));
    let para: Vec<char> = vec!['\n', '\n'];
    let line: Vec<char> = vec!['\n'];
    let sentence: Vec<char> = vec!['.', ' '];
    let space: Vec<char> = vec![' '];
    assert(para@ =~= seq!['\n', '\n']);
    assert(line@ =~= seq!['\n']);
    assert(sentence@ =~= seq!['.', ' ']);
    assert(space@ =~= seq![' ']);
    let mut cut = rfind_in(v, p, hi, &para);
    if cut.is_none() {
        cut = rfind_in(v, p, hi, &line);
    }
    if cut.is_none() {
        cut = rfind_in(v, p, hi, &sentence);
    }
    if cut.is_none() {
        cut = rfind_in(v, p, hi, &space);
    }
    match cut {
        Some(i) => if i - p >= max / 2 {
            i - p
        } else {
            max
        },
        None => max,
    }
}

/// Split a message into chunks of at most `max_chars` characters.
///
/// The splitter prefers paragraph, line, and word boundaries; whitespace
/// around each cut is dropped. Empty text, a zero limit, and text longer
/// than the limit made only of whitespace give one empty chunk.
pub fn chunk_message(content: &str, max_chars: usize) -> (chunks: Vec<String>)
    ensures
        views(chunks@) == chunk_message_spec(content@, max_chars as nat),
        forall|i: int| 0 <= i < chunks@.len() ==> chunks@[i]@.len() <= max_chars,
{
    proof {
        lemma_chunks_fit(content@, max_chars as nat);
    }
    let v = chars_of(content);
    let n = v.len();
    let mut chunks: Vec<String> = Vec::new();
    if n == 0 || max_chars == 0 {
        chunks.push(String::new());
        assert(views(chunks@) =~= seq![Seq::<char>::empty()]);
        return chunks;
    }
    if n <= max_chars {
        chunks.push(string_from_range(&v, 0, n));
        assert(v@.subrange(0, n as int) =~= v@);
        assert(views(chunks@) =~= seq![content@]);
        return chunks;
    }
    let start = skip_ws(&v, 0, n);
    let end = back_ws(&v, start, n);
    assert(v@.subrange(0, n as int) =~= v@);
    let ghost whole = v@.subrange(start as int, end as int);
    assert(whole == trim(content@));
    let mut pos = start;
    assert(views(chunks@) + pieces(whole, max_chars as nat) =~= pieces(whole, max_chars as nat));
    while pos < end
        invariant
            start <= pos <= end <= n,
            n == v@.len(),
            max_chars >= 1,
            whole == v@.subrange(start as int, end as int),
            views(chunks@) + pieces(v@.subrange(pos as int, end as int), max_chars as nat)
                == pieces(whole, max_chars as nat),
        decreases end - pos,
    {
        let ghost before = views(chunks@);
        let ghost rem = v@.subrange(pos as int, end as int);
        let p = skip_ws(&v, pos, end);
        let ghost t = v@.subrange(p as int, end as int);
        proof {
            lemma_trim_start(rem);
        }
        if p == end {
            assert(pieces(rem, max_chars as nat) =~= Seq::<Seq<char>>::empty());
            assert(before + Seq::<Seq<char>>::empty() =~= before);
            assert(v@.subrange(end as int, end as int) =~= Seq::<char>::empty());
            assert(pieces(Seq::<char>::empty(), max_chars as nat) =~= Seq::<Seq<char>>::empty());
            pos = end;
        } else if end - p <= max_chars {
            let s = string_from_range(&v, p, end);
            chunks.push(s);
            assert(views(chunks@) =~= before.push(t));
            assert(pieces(rem, max_chars as nat) == seq![t]);
            assert(v@.subrange(end as int, end as int) =~= Seq::<char>::empty());
            assert(pieces(Seq::<char>::empty(), max_chars as nat) =~= Seq::<Seq<char>>::empty());
            assert(before + seq![t] =~= before.push(t) + Seq::<Seq<char>>::empty());
            pos = end;
        } else {
            let k = split_at_boundary(&v, p, end, max_chars);
            proof {
                lemma_split_point_bounds(t, max_chars as nat);
            }
            let e = back_ws(&v, p, p + k);
            assert(t.take(k as int) =~= v@.subrange(p as int, p + k));
            assert(t.skip(k as int) =~= v@.subrange(p + k, end as int));
            let ghost c = v@.subrange(p as int, e as int);
            if e > p {
                let s = string_from_range(&v, p, e);
                chunks.push(s);
                assert(views(chunks@) =~= before.push(c));
                assert(before.push(c) + pieces(v@.subrange(p + k, end as int), max_chars as nat)
                    =~= before + (seq![c] + pieces(v@.subrange(p + k, end as int), max_chars as nat)));
            }
            pos = p + k;
        }
    }
    if chunks.len() == 0 {
        chunks.push(String::new());
        assert(views(chunks@) =~= seq![Seq::<char>::empty()]);
    }
    assert(views(chunks@) == chunk_message_spec(content@, max_chars as nat));
    assert forall|i: int| 0 <= i < chunks@.len() implies chunks@[i]@.len() <= max_chars by {
        assert(chunks@[i]@ == views(chunks@)[i]);
    }
    chunks
}


/// A single piece flattens to itself.
proof fn lemma_flatten_single(x: Seq<char>)
    ensures
        seq![x].flatten() == x,
{
    assert(seq![x].drop_first() =~= Seq::<Seq<char>>::empty());
    assert(Seq::<Seq<char>>::empty().flatten() =~= Seq::<char>::empty());
    assert(x + Seq::<char>::empty() =~= x);
}

/// Facts about `pieces` shown by induction: every piece fits, is non-empty,
/// and together the pieces keep every non-whitespace character in order.
proof fn lemma_pieces(r: Seq<char>, max: nat)
    ensures
        forall|i: int| 0 <= i < pieces(r, max).len() ==> pieces(r, max)[i].len() <= max,
        forall|i: int| 0 <= i < pieces(r, max).len() ==> pieces(r, max)[i].len() > 0,
        max > 0 ==> strip_ws(pieces(r, max).flatten()) == strip_ws(r),
        (max > 0 && trim_start(r).len() > 0) ==> pieces(r, max).len() > 0,
    decreases r.len(),
{
    let t = trim_start(r);
    lemma_trim_start(r);
    if t.len() == 0 || max == 0 {
        assert(strip_ws(Seq::<char>::empty()) =~= Seq::<char>::empty());
    } else if t.len() <= max {
        assert(pieces(r, max) == seq![t]);
        lemma_flatten_single(t);
    } else {
        let k = split_point(t, max);
        lemma_split_point_bounds(t, max);
        let c = trim_end(t.take(k));
        let rest = t.skip(k);
        lemma_trim_end(t.take(k));
        lemma_pieces(rest, max);
        assert(t =~= t.take(k) + rest);
        lemma_strip_ws_add(t.take(k), rest);
        if c.len() > 0 {
            let ps = seq![c] + pieces(rest, max);
            assert(pieces(r, max) == ps);
            assert(ps.drop_first() =~= pieces(rest, max));
            assert(ps.flatten() == c + pieces(rest, max).flatten());
            lemma_strip_ws_add(c, pieces(rest, max).flatten());
            assert forall|i: int| 0 <= i < ps.len() implies ps[i].len() <= max && ps[i].len() > 0 by {
                if i > 0 {
                    assert(ps[i] == pieces(rest, max)[i - 1]);
                }
            }
        } else {
            assert(strip_ws(c) =~= Seq::<char>::empty());
            assert(strip_ws(t.take(k)) + strip_ws(rest) =~= strip_ws(rest));
        }
    }
}

/// Every chunk fits the limit, whatever the text and the limit.
pub proof fn lemma_chunks_fit(content: Seq<char>, max: nat)
    ensures
        forall|i: int|
            0 <= i < chunk_message_spec(content, max).len() ==> chunk_message_spec(content, max)[i].len()
                <= max,
{
    lemma_pieces(trim(content), max);
    lemma_trim_end(trim_start(content));
    lemma_trim_start(content);
    if max > 0 && content.len() > max {
        assert(trim_start(trim(content)) == trim(content)) by {
            if trim(content).len() > 0 {
                assert(trim(content)[0] == trim_start(content)[0]);
            }
        }
    }
}

/// Each chunk of a non-empty text is non-empty when the limit is positive,
/// unless the text is longer than the limit and all whitespace (it then
/// gives one empty chunk).
pub proof fn lemma_chunks_nonempty(content: Seq<char>, max: nat)
    requires
        content.len() > 0,
        max > 0,
        content.len() <= max || trim(content).len() > 0,
    ensures
        forall|i: int|
            0 <= i < chunk_message_spec(content, max).len() ==> chunk_message_spec(content, max)[i].len()
                > 0,
{
    lemma_pieces(trim(content), max);
    lemma_trim_end(trim_start(content));
    lemma_trim_start(content);
    if content.len() > max {
        assert(trim_start(trim(content)) == trim(content)) by {
            assert(trim(content)[0] == trim_start(content)[0]);
        }
    }
}

/// No text is lost: with a positive limit, the chunks hold every
/// non-whitespace character of the message, in order.
pub proof fn lemma_chunks_keep_text(content: Seq<char>, max: nat)
    requires
        max > 0,
    ensures
        strip_ws(chunk_message_spec(content, max).flatten()) == strip_ws(content),
{
    lemma_pieces(trim(content), max);
    lemma_trim_start(content);
    lemma_trim_end(trim_start(content));
    let cs = chunk_message_spec(content, max);
    if content.len() == 0 {
        lemma_flatten_single(Seq::<char>::empty());
        assert(content =~= Seq::<char>::empty());
    } else if content.len() <= max {
        lemma_flatten_single(content);
    } else if pieces(trim(content), max).len() == 0 {
        lemma_flatten_single(Seq::<char>::empty());
        assert(pieces(trim(content), max).flatten() =~= Seq::<char>::empty());
    }
}


/// Whether the first chunk of `content` is the trimmed text cut after `k`
/// characters, with trailing whitespace dropped.
pub open spec fn first_chunk_cut_at(content: Seq<char>, max: nat, k: int) -> bool {
    &&& chunk_message_spec(content, max).len() > 0
    &&& chunk_message_spec(content, max)[0] == trim_end(trim(content).take(k))
}

proof fn lemma_nonempty_trim_end(s: Seq<char>)
    requires
        s.len() > 0,
        !is_ws(s[0]),
    ensures
        trim_end(s).len() > 0,
{
    lemma_trim_end(s);
    assert(strip_ws(s) == seq![s[0]] + strip_ws(s.drop_first()));
    assert(strip_ws(Seq::<char>::empty()) =~= Seq::<char>::empty());
}

/// Where a text longer than the limit is first cut, looking at its first
/// `max` characters after leading and trailing whitespace are dropped: at the
/// last paragraph break; with none, at the last line break; with neither, at
/// the last sentence end (`". "`); with none of these, at the last space. A
/// boundary found before `max / 2` is ignored, and without a boundary the cut
/// is made after `max` characters.
pub proof fn lemma_first_cut(content: Seq<char>, max: nat, i: int)
    requires
        max >= 1,
        trim(content).len() > max,
    ensures
        ({
            let p = trim(content).take(max as int);
            let para = seq!['\n', '\n'];
            let line = seq!['\n'];
            let sentence = seq!['.', ' '];
            let space = seq![' '];
            &&& last_at(p, para, i) ==> first_chunk_cut_at(
                content,
                max,
                if i >= max / 2 {
                    i
                } else {
                    max as int
                },
            )
            &&& (!contains_pat(p, para) && last_at(p, line, i)) ==> first_chunk_cut_at(
                content,
                max,
                if i >= max / 2 {
                    i
                } else {
                    max as int
                },
            )
            &&& (!contains_pat(p, para) && !contains_pat(p, line) && last_at(p, sentence, i))
                ==> first_chunk_cut_at(
                content,
                max,
                if i >= max / 2 {
                    i
                } else {
                    max as int
                },
            )
            &&& (!contains_pat(p, para) && !contains_pat(p, line) && !contains_pat(p, sentence)
                && last_at(p, space, i)) ==> first_chunk_cut_at(
                content,
                max,
                if i >= max / 2 {
                    i
                } else {
                    max as int
                },
            )
            &&& (!contains_pat(p, para) && !contains_pat(p, line) && !contains_pat(p, sentence)
                && !contains_pat(p, space)) ==> first_chunk_cut_at(content, max, max as int)
        }),
{
    let t = trim(content);
    let p = t.take(max as int);
    let para = seq!['\n', '\n'];
    let line = seq!['\n'];
    let sentence = seq!['.', ' '];
    let space = seq![' '];
    lemma_trim_start(content);
    lemma_trim_end(trim_start(content));
    assert(t[0] == trim_start(content)[0]);
    assert(trim_start(t) == t);
    lemma_split_point_bounds(t, max);
    let k = split_point(t, max);
    let c = trim_end(t.take(k));
    lemma_nonempty_trim_end(t.take(k));
    assert(pieces(t, max) == seq![c] + pieces(t.skip(k), max));
    assert(chunk_message_spec(content, max) == pieces(t, max));
    lemma_rfind_contains(p, para);
    lemma_rfind_contains(p, line);
    lemma_rfind_contains(p, sentence);
    lemma_rfind_contains(p, space);
    if last_at(p, para, i) {
        lemma_rfind_last(p, para, i);
    }
    if last_at(p, line, i) {
        lemma_rfind_last(p, line, i);
    }
    if last_at(p, sentence, i) {
        lemma_rfind_last(p, sentence, i);
    }
    if last_at(p, space, i) {
        lemma_rfind_last(p, space, i);
    }
}

} // verus!
