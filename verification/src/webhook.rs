//! Webhook trigger endpoint for external integrations: the decisions of the
//! request handler (routing, authentication, payload checks) and the framing
//! of its answers.

use vstd::prelude::*;
use vstd::string::StringExecFns;
use vstd::utf8::encode_utf8;
use crate::text::{
    ascii_lower, back_ws, decimal, push_decimal, chars_eq, chars_of, find_char, find_from, find_in, find_pat, find_ws,
    first_ws, lemma_find_from, lemma_first_ws, lemma_trim_start, lines, push_char, range_starts_with,
    skip_ws, starts_with, str_eq, string_from_range, string_of, strip_cr, to_lower_char, lower_char, trim,
    trim_start, words,
};

verus! {

/// `s` without its trailing slashes.
pub open spec fn trim_end_slashes(s: Seq<char>) -> Seq<char>
    decreases s.len(),
{
    if s.len() > 0 && s.last() == '/' {
        trim_end_slashes(s.drop_last())
    } else {
        s
    }
}

/// The path prefix the server answers under: trimmed, with a leading slash
/// and without trailing slashes; `/webhook` when nothing (or a lone slash) is
/// configured.
pub open spec fn normalized_prefix(p: Seq<char>) -> Seq<char> {
    let t = trim(p);
    if t.len() == 0 || t == "/"@ {
        "/webhook"@
    } else if t[0] == '/' {
        trim_end_slashes(t)
    } else {
        seq!['/'] + trim_end_slashes(t)
    }
}

proof fn lemma_trim_end_slashes(s: Seq<char>)
    ensures
        trim_end_slashes(s).len() <= s.len(),
        trim_end_slashes(s) == s.subrange(0, trim_end_slashes(s).len() as int),
        trim_end_slashes(s).len() > 0 ==> trim_end_slashes(s).last() != '/',
        forall|i: int| trim_end_slashes(s).len() <= i < s.len() ==> s[i] == '/',
    decreases s.len(),
{
    if s.len() > 0 && s.last() == '/' {
        lemma_trim_end_slashes(s.drop_last());
        assert forall|i: int| trim_end_slashes(s).len() <= i < s.len() implies s[i] == '/' by {
            if i < s.len() - 1 {
                assert(s[i] == s.drop_last()[i]);
            }
        }
        assert(s.drop_last().subrange(0, trim_end_slashes(s).len() as int) =~= s.subrange(
            0,
            trim_end_slashes(s).len() as int,
        ));
    } else {
        assert(s.subrange(0, s.len() as int) =~= s);
    }
}

/// A normalized prefix starts with a slash and does not end with one; it is
/// empty only when the configured prefix is two or more slashes and nothing
/// else (which then admits every path).
pub proof fn lemma_prefix_shape(p: Seq<char>)
    ensures
        normalized_prefix(p).len() > 0 ==> normalized_prefix(p)[0] == '/' && normalized_prefix(
            p,
        ).last() != '/',
        normalized_prefix(p).len() == 0 ==> trim(p).len() >= 2 && forall|i: int|
            0 <= i < trim(p).len() ==> trim(p)[i] == '/',
{
    reveal_strlit("/webhook");
    reveal_strlit("/");
    let t = trim(p);
    lemma_trim_end_slashes(t);
    let u = trim_end_slashes(t);
    if t.len() == 0 || t == "/"@ {
    } else if t[0] == '/' {
        if u.len() > 0 {
            assert(u[0] == t[0]);
        } else {
            if t.len() == 1 {
                assert(t =~= "/"@);
            }
        }
    } else {
        if u.len() == 0 {
            assert(t[0] == '/');
        }
        assert((seq!['/'] + u).last() == u.last());
    }
}

/// Looking up a header does not depend on the letter case of the name asked
/// for; and the first header line, when its name is the one asked for in any
/// ASCII letter case, gives the header's value: what follows its colon,
/// trimmed.
pub proof fn lemma_header_ignores_case(request: Seq<char>, name: Seq<char>)
    ensures
        header_spec(request, name) == header_spec(request, ascii_lower(name)),
        (lines(request).len() >= 2 && trim(lines(request)[1]).len() > 0 && starts_with(
            ascii_lower(lines(request)[1]),
            ascii_lower(name).push(':'),
        )) ==> header_spec(request, name) == header_value(lines(request)[1]),
{
    assert(ascii_lower(ascii_lower(name)) =~= ascii_lower(name)) by {
        assert forall|k: int| 0 <= k < name.len() implies lower_char(lower_char(name[k])) == lower_char(
            name[k],
        ) by {
            let c = name[k];
            if 'A' <= c && c <= 'Z' {
                assert(lower_char(c) == ((c as u32) + 32) as char);
            }
        }
    }
    let ls = lines(request);
    if ls.len() >= 2 {
        assert(ls.drop_first()[0] == ls[1]);
    }
}

/// Normalize the configured path prefix of the webhook server.
pub fn normalize_path_prefix(path_prefix: &str) -> (r: String)
    ensures
        r@ == normalized_prefix(path_prefix@),
{
    proof {
        reveal_strlit("/");
    }
    let v = chars_of(path_prefix);
    let n = v.len();
    let lo = skip_ws(&v, 0, n);
    let hi = back_ws(&v, lo, n);
    assert(v@.subrange(0, n as int) =~= v@);
    let ghost t = v@.subrange(lo as int, hi as int);
    assert(t == trim(path_prefix@));
    if hi == lo || (hi - lo == 1 && v[lo] == '/') {
        proof {
            if hi - lo == 1 && v@[lo as int] == '/' {
                assert(t =~= "/"@);
            }
        }
        return String::from_str("/webhook");
    }
    proof {
        if t == "/"@ {
            assert(t[0] == v@[lo as int]);
        }
    }
    let mut e = hi;
    while e > lo && v[e - 1] == '/'
        invariant
            lo <= e <= hi <= v@.len(),
            trim_end_slashes(v@.subrange(lo as int, e as int)) == trim_end_slashes(t),
            t == v@.subrange(lo as int, hi as int),
        decreases e - lo,
    {
        assert(v@.subrange(lo as int, e as int).drop_last() =~= v@.subrange(lo as int, e - 1));
        e -= 1;
    }
    let body = string_from_range(&v, lo, e);
    if v[lo] == '/' {
        body
    } else {
        let mut out = String::from_str("/");
        out.append(body.as_str());
        assert(out@ =~= seq!['/'] + trim_end_slashes(t));
        out
    }
}

/// The value of a header line: what follows its first `:`, trimmed; none
/// when it is empty or there is no `:`.
pub open spec fn header_value(line: Seq<char>) -> Option<Seq<char>> {
    let i = find_from(line, ':', 0);
    if i < line.len() {
        let v = trim(line.skip(i + 1));
        if v.len() > 0 {
            Some(v)
        } else {
            None
        }
    } else {
        None
    }
}

/// Looks for the header `target` (lowercase, with its colon) among the lines
/// up to the first blank one.
pub open spec fn header_in(ls: Seq<Seq<char>>, target: Seq<char>) -> Option<Seq<char>>
    decreases ls.len(),
{
    if ls.len() == 0 {
        None
    } else if trim(ls[0]).len() == 0 {
        None
    } else if starts_with(ascii_lower(ls[0]), target) {
        header_value(ls[0])
    } else {
        header_in(ls.drop_first(), target)
    }
}

/// The value of the header `name` in an HTTP request: the first header line
/// after the request line whose name matches, ignoring ASCII case.
pub open spec fn header_spec(request: Seq<char>, name: Seq<char>) -> Option<Seq<char>> {
    let ls = lines(request);
    if ls.len() == 0 {
        None
    } else {
        header_in(ls.drop_first(), ascii_lower(name).push(':'))
    }
}

/// The lowercase characters of a text.
fn lower_chars(s: &str) -> (v: Vec<char>)
    ensures
        v@ == ascii_lower(s@),
{
    let raw = chars_of(s);
    let mut v: Vec<char> = Vec::new();
    let mut i: usize = 0;
    while i < raw.len()
        invariant
            i <= raw@.len(),
            raw@ == s@,
            v@ == ascii_lower(raw@).take(i as int),
        decreases raw.len() - i,
    {
        v.push(to_lower_char(raw[i]));
        assert(ascii_lower(raw@).take(i + 1) =~= v@);
        i += 1;
    }
    assert(ascii_lower(raw@).take(raw@.len() as int) =~= ascii_lower(raw@));
    v
}

/// Whether the line `v[lo..hi]`, lowercased, begins with `target`.
fn lower_starts_with(v: &Vec<char>, lo: usize, hi: usize, target: &Vec<char>) -> (r: bool)
    requires
        lo <= hi <= v@.len(),
    ensures
        r == starts_with(ascii_lower(v@.subrange(lo as int, hi as int)), target@),
{
    let ghost low = ascii_lower(v@.subrange(lo as int, hi as int));
    if target.len() > hi - lo {
        return false;
    }
    let mut j: usize = 0;
    while j < target.len()
        invariant
            lo <= hi <= v@.len(),
            target@.len() <= hi - lo,
            low == ascii_lower(v@.subrange(lo as int, hi as int)),
            j <= target@.len(),
            forall|k: int| 0 <= k < j ==> low[k] == target@[k],
        decreases target.len() - j,
    {
        if to_lower_char(v[lo + j]) != target[j] {
            assert(low.take(target@.len() as int)[j as int] != target@[j as int]);
            return false;
        }
        j += 1;
    }
    assert(low.take(target@.len() as int) =~= target@);
    true
}

/// The value of the header line `v[lo..hi]`.
fn value_of_line(v: &Vec<char>, lo: usize, hi: usize) -> (r: Option<String>)
    requires
        lo <= hi <= v@.len(),
    ensures
        r matches Some(s) ==> header_value(v@.subrange(lo as int, hi as int)) == Some(s@),
        r is None ==> header_value(v@.subrange(lo as int, hi as int)) is None,
{
    let ghost line = v@.subrange(lo as int, hi as int);
    let c = find_char(v, ':', lo, hi);
    proof {
        lemma_find_from(line, ':', 0);
    }
    if c >= hi {
        return None;
    }
    let a = skip_ws(v, c + 1, hi);
    let b = back_ws(v, a, hi);
    assert(line.skip(c - lo + 1) =~= v@.subrange(c + 1, hi as int));
    if b > a {
        Some(string_from_range(v, a, b))
    } else {
        None
    }
}

/// Looks up a header in a raw HTTP request, ignoring ASCII case.
pub fn extract_header(request: &str, header_name: &str) -> (r: Option<String>)
    ensures
        r matches Some(s) ==> header_spec(request@, header_name@) == Some(s@),
        r is None ==> header_spec(request@, header_name@) is None,
{
    let v = chars_of(request);
    let n = v.len();
    let mut target = lower_chars(header_name);
    target.push(':');
    let ghost tgt = ascii_lower(header_name@).push(':');
    assert(target@ == tgt);
    assert(v@.subrange(0, n as int) =~= v@);
    if n == 0 {
        return None;
    }
    let first = find_char(&v, '\n', 0, n);
    proof {
        lemma_find_from(v@, '\n', 0);
    }
    if first >= n {
        assert(lines(v@) =~= seq![v@]);
        assert(lines(v@).drop_first() =~= Seq::<Seq<char>>::empty());
        return None;
    }
    let mut pos = first + 1;
    assert(v@.skip(first + 1) =~= v@.subrange(pos as int, n as int));
    assert(lines(v@).drop_first() =~= lines(v@.subrange(pos as int, n as int)));
    while pos < n
        invariant
            pos <= n == v@.len(),
            target@ == tgt,
            header_in(lines(v@.subrange(pos as int, n as int)), tgt) == header_spec(
                request@,
                header_name@,
            ),
            v@ == request@,
        decreases n - pos,
    {
        let ghost rest = v@.subrange(pos as int, n as int);
        let le = find_char(&v, '\n', pos, n);
        proof {
            lemma_find_from(rest, '\n', 0);
        }
        let end = if le < n && le > pos && v[le - 1] == '\r' {
            le - 1
        } else {
            le
        };
        let ghost line = v@.subrange(pos as int, end as int);
        proof {
            if le < n {
                assert(rest.take(le - pos) =~= v@.subrange(pos as int, le as int));
                assert(strip_cr(rest.take(le - pos)) =~= line);
                assert(rest.skip(le - pos + 1) =~= v@.subrange(le + 1, n as int));
                assert(lines(rest)[0] == line);
                assert(lines(rest).drop_first() =~= lines(v@.subrange(le + 1, n as int)));
            } else {
                assert(rest =~= line);
                assert(lines(rest) =~= seq![line]);
                assert(lines(rest).drop_first() =~= Seq::<Seq<char>>::empty());
            }
        }
        let a = skip_ws(&v, pos, end);
        let b = back_ws(&v, a, end);
        if a == b {
            return None;
        }
        if lower_starts_with(&v, pos, end, &target) {
            return value_of_line(&v, pos, end);
        }
        if le >= n {
            assert(header_in(Seq::<Seq<char>>::empty(), tgt) is None);
            return None;
        }
        pos = le + 1;
    }
    assert(v@.subrange(pos as int, n as int) =~= Seq::<char>::empty());
    None
}


/// Why a webhook request is turned away.
pub enum WebhookRejection {
    /// Anything but `POST`.
    MethodNotAllowed,
    /// A path outside the configured prefix.
    UnknownPath { path: String },
    /// A secret is configured and the request does not carry it.
    Unauthorized,
    /// The payload has no (non-blank) `message`.
    MissingMessage,
    /// No model is configured to answer.
    NoModel,
}

/// The HTTP status line of a rejection.
pub open spec fn rejection_status(r: WebhookRejection) -> Seq<char> {
    match r {
        WebhookRejection::MethodNotAllowed => "405 Method Not Allowed"@,
        WebhookRejection::UnknownPath { .. } => "404 Not Found"@,
        WebhookRejection::Unauthorized => "401 Unauthorized"@,
        WebhookRejection::MissingMessage => "400 Bad Request"@,
        WebhookRejection::NoModel => "503 Service Unavailable"@,
    }
}

/// The error message of a rejection.
pub open spec fn rejection_error(r: WebhookRejection) -> Seq<char> {
    match r {
        WebhookRejection::MethodNotAllowed => "Only POST is supported"@,
        WebhookRejection::UnknownPath { .. } => "Unknown webhook path"@,
        WebhookRejection::Unauthorized => "Missing or invalid webhook secret"@,
        WebhookRejection::MissingMessage => "Field 'message' is required"@,
        WebhookRejection::NoModel => "No model configured"@,
    }
}

impl WebhookRejection {
    /// The HTTP status line to answer with.
    pub fn status(&self) -> (s: &'static str)
        ensures
            s@ == rejection_status(*self),
    {
        match self {
            WebhookRejection::MethodNotAllowed => "405 Method Not Allowed",
            WebhookRejection::UnknownPath { .. } => "404 Not Found",
            WebhookRejection::Unauthorized => "401 Unauthorized",
            WebhookRejection::MissingMessage => "400 Bad Request",
            WebhookRejection::NoModel => "503 Service Unavailable",
        }
    }

    /// The error message to answer with.
    pub fn error(&self) -> (s: &'static str)
        ensures
            s@ == rejection_error(*self),
    {
        match self {
            WebhookRejection::MethodNotAllowed => "Only POST is supported",
            WebhookRejection::UnknownPath { .. } => "Unknown webhook path",
            WebhookRejection::Unauthorized => "Missing or invalid webhook secret",
            WebhookRejection::MissingMessage => "Field 'message' is required",
            WebhookRejection::NoModel => "No model configured",
        }
    }
}

/// The header part and the body of a raw request, split at the first blank line.
pub open spec fn head_and_body(req: Seq<char>) -> (Seq<char>, Seq<char>) {
    match find_pat(req, seq!['\r', '\n', '\r', '\n']) {
        Some(i) => (req.take(i), req.skip(i + 4)),
        None => (req, seq![]),
    }
}

/// The first line of a text, empty if none.
pub open spec fn first_line(s: Seq<char>) -> Seq<char> {
    let ls = lines(s);
    if ls.len() == 0 {
        seq![]
    } else {
        ls[0]
    }
}

/// The first line of the header part.
pub open spec fn request_line(req: Seq<char>) -> Seq<char> {
    first_line(head_and_body(req).0)
}

/// The word of `line` at index `k`, `dflt` if there are fewer words.
pub open spec fn word_or(line: Seq<char>, k: int, dflt: Seq<char>) -> Seq<char> {
    let w = words(line);
    if w.len() > k {
        w[k]
    } else {
        dflt
    }
}

/// The request method: the first word of the request line, empty if none.
pub open spec fn method_of(req: Seq<char>) -> Seq<char> {
    word_or(request_line(req), 0, seq![])
}

/// The request path: the second word of the request line, `/` if none.
pub open spec fn path_of(req: Seq<char>) -> Seq<char> {
    word_or(request_line(req), 1, seq!['/'])
}

/// Whether `path` is the prefix itself or lies below it.
pub open spec fn path_allowed(path: Seq<char>, prefix: Seq<char>) -> bool {
    path == prefix || starts_with(path, prefix.push('/'))
}

/// What the endpoint decides about a raw request before reading its payload.
pub enum Verdict {
    Accept(Seq<char>),
    MethodNotAllowed,
    UnknownPath(Seq<char>),
    Unauthorized,
}

/// The decision on a request: only `POST`, only below the prefix, and with
/// the `X-Webhook-Secret` header when a secret is configured; an accepted
/// request yields its body.
pub open spec fn verdict(req: Seq<char>, prefix: Seq<char>, secret: Option<Seq<char>>) -> Verdict {
    if method_of(req) != "POST"@ {
        Verdict::MethodNotAllowed
    } else if !path_allowed(path_of(req), prefix) {
        Verdict::UnknownPath(path_of(req))
    } else if secret is Some && header_spec(req, "x-webhook-secret"@) != secret {
        Verdict::Unauthorized
    } else {
        Verdict::Accept(head_and_body(req).1)
    }
}

/// A request is accepted only as a `POST` to the prefix or below it, and,
/// when a secret is configured, only with that secret in its
/// `X-Webhook-Secret` header; what it hands on is the request's body.
pub proof fn lemma_accepted_request(req: Seq<char>, prefix: Seq<char>, secret: Option<Seq<char>>)
    ensures
        verdict(req, prefix, secret) is Accept ==> {
            &&& method_of(req) == "POST"@
            &&& path_allowed(path_of(req), prefix)
            &&& (secret is Some ==> header_spec(req, "x-webhook-secret"@) == secret)
            &&& verdict(req, prefix, secret)->Accept_0 == head_and_body(req).1
        },
{
}

/// Whether a result carries the given decision.
pub open spec fn carries(r: Result<String, WebhookRejection>, v: Verdict) -> bool {
    match v {
        Verdict::Accept(body) => r matches Ok(s) && s@ == body,
        Verdict::MethodNotAllowed => r matches Err(WebhookRejection::MethodNotAllowed),
        Verdict::UnknownPath(p) => r matches Err(WebhookRejection::UnknownPath { path }) && path@
            == p,
        Verdict::Unauthorized => r matches Err(WebhookRejection::Unauthorized),
    }
}

/// The views of an optional string.
pub open spec fn opt_view(o: Option<&str>) -> Option<Seq<char>> {
    match o {
        Some(s) => Some(s@),
        None => None,
    }
}

/// End of the first line of `v[0..h]`, without its line ending.
fn first_line_end(v: &Vec<char>, h: usize) -> (end: usize)
    requires
        h <= v@.len(),
    ensures
        end <= h,
        v@.subrange(0, end as int) == first_line(v@.subrange(0, h as int)),
{
    let ghost head = v@.subrange(0, h as int);
    if h == 0 {
        assert(v@.subrange(0, 0) =~= Seq::<char>::empty());
        return 0;
    }
    let le = find_char(v, '\n', 0, h);
    proof {
        lemma_find_from(head, '\n', 0);
    }
    let end = if le < h && le > 0 && v[le - 1] == '\r' {
        le - 1
    } else {
        le
    };
    proof {
        let line = v@.subrange(0, end as int);
        if le < h {
            assert(head.take(le as int) =~= v@.subrange(0, le as int));
            assert(strip_cr(head.take(le as int)) =~= line);
        } else {
            assert(head =~= line);
        }
    }
    end
}

/// The first two words of `v[0..end]`: the first (empty if none) and the
/// second (`/` if none).
fn first_two_words(v: &Vec<char>, end: usize) -> (r: (Vec<char>, Vec<char>))
    requires
        end <= v@.len(),
    ensures
        r.0@ == word_or(v@.subrange(0, end as int), 0, seq![]),
        r.1@ == word_or(v@.subrange(0, end as int), 1, seq!['/']),
{
    let ghost line = v@.subrange(0, end as int);
    let lo1 = skip_ws(v, 0, end);
    let ghost t1 = v@.subrange(lo1 as int, end as int);
    let mut path: Vec<char> = vec!['/'];
    assert(path@ =~= seq!['/']);
    if lo1 >= end {
        assert(words(line) =~= Seq::<Seq<char>>::empty());
        return (Vec::new(), path);
    }
    let e1 = find_ws(v, lo1, end);
    proof {
        lemma_trim_start(line);
        lemma_first_ws(t1, 0);
        assert(t1.take(e1 - lo1) =~= v@.subrange(lo1 as int, e1 as int));
        assert(t1.skip(e1 - lo1) =~= v@.subrange(e1 as int, end as int));
    }
    let method = crate::text::copy_range(v, lo1, e1);
    let lo2 = skip_ws(v, e1, end);
    let ghost t2 = v@.subrange(lo2 as int, end as int);
    if lo2 < end {
        let e2 = find_ws(v, lo2, end);
        proof {
            lemma_trim_start(v@.subrange(e1 as int, end as int));
            lemma_first_ws(t2, 0);
            assert(t2.take(e2 - lo2) =~= v@.subrange(lo2 as int, e2 as int));
        }
        path = crate::text::copy_range(v, lo2, e2);
        assert(words(v@.subrange(e1 as int, end as int))[0] == path@);
    } else {
        assert(words(v@.subrange(e1 as int, end as int)) =~= Seq::<Seq<char>>::empty());
    }
    assert(words(line)[0] == method@);
    assert(words(line).len() > 1 ==> words(line)[1] == words(v@.subrange(e1 as int, end as int))[0]);
    (method, path)
}

/// Decide on a raw HTTP request: route it, authenticate it, and hand back
/// its body when it is accepted.
pub fn check_webhook_request(request: &str, path_prefix: &str, secret: Option<&str>) -> (r: Result<
    String,
    WebhookRejection,
>)
    ensures
        carries(r, verdict(request@, path_prefix@, opt_view(secret))),
{
    let v = chars_of(request);
    let n = v.len();
    let sep: Vec<char> = vec!['\r', '\n', '\r', '\n'];
    assert(sep@ =~= seq!['\r', '\n', '\r', '\n']);
    let found = find_in(&v, &sep);
    let (h, body_start) = match found {
        Some(i) => {
            proof {
                crate::text::lemma_first_match(v@, sep@, 0);
            }
            (i, i + 4)
        },
        None => (n, n),
    };
    let ghost head = v@.subrange(0, h as int);
    proof {
        match found {
            Some(i) => {
                assert(head =~= v@.take(i as int));
            },
            None => {
                assert(head =~= v@);
            },
        }
    }
    let end = first_line_end(&v, h);
    let (method, path) = first_two_words(&v, end);
    assert(method@ == method_of(request@));
    assert(path@ == path_of(request@));
    let post = chars_of("POST");
    if !chars_eq(&method, &post) {
        return Err(WebhookRejection::MethodNotAllowed);
    }
    let prefix = chars_of(path_prefix);
    let mut below = prefix.clone();
    below.push('/');
    assert(below@ =~= prefix@.push('/'));
    assert(path@.subrange(0, path@.len() as int) =~= path@);
    if !(chars_eq(&path, &prefix) || range_starts_with(&path, 0, path.len(), &below)) {
        return Err(WebhookRejection::UnknownPath { path: string_of(&path) });
    }
    match secret {
        Some(expected) => {
            let provided = extract_header(request, "x-webhook-secret");
            let ok = match provided {
                Some(p) => str_eq(p.as_str(), expected),
                None => false,
            };
            if !ok {
                return Err(WebhookRejection::Unauthorized);
            }
        },
        None => {},
    }
    assert(v@.subrange(body_start as int, n as int) == head_and_body(request@).1) by {
        match found {
            Some(i) => {
                assert(v@.skip(i + 4) =~= v@.subrange(body_start as int, n as int));
            },
            None => {
                assert(v@.subrange(n as int, n as int) =~= Seq::<char>::empty());
            },
        }
    }
    Ok(string_from_range(&v, body_start, n))
}

/// Check the parsed payload: a non-blank message, and a model to answer it.
pub fn check_payload(message: &str, model_configured: bool) -> (r: Result<(), WebhookRejection>)
    ensures
        trim(message@).len() == 0 ==> r matches Err(WebhookRejection::MissingMessage),
        trim(message@).len() > 0 && !model_configured ==> r matches Err(WebhookRejection::NoModel),
        trim(message@).len() > 0 && model_configured ==> r is Ok,
{
    let v = chars_of(message);
    let a = skip_ws(&v, 0, v.len());
    let b = back_ws(&v, a, v.len());
    assert(v@.subrange(0, v@.len() as int) =~= v@);
    if a == b {
        Err(WebhookRejection::MissingMessage)
    } else if !model_configured {
        Err(WebhookRejection::NoModel)
    } else {
        Ok(())
    }
}


/// An HTTP/1.1 response carrying a JSON body, with its length in bytes.
pub open spec fn json_response_spec(status: Seq<char>, body: Seq<char>) -> Seq<char> {
    "HTTP/1.1 "@ + status + "\r\nContent-Type: application/json\r\nContent-Length: "@ + decimal(
        (encode_utf8(body).len() as usize) as nat,
    ) + "\r\nAccess-Control-Allow-Origin: *\r\n\r\n"@ + body
}

/// Frame a JSON body as an HTTP response with the given status line.
pub fn json_response(status: &str, body: &str) -> (r: String)
    ensures
        r@ == json_response_spec(status@, body@),
{
    let mut out = String::from_str("HTTP/1.1 ");
    out.append(status);
    out.append("\r\nContent-Type: application/json\r\nContent-Length: ");
    let len = body.len();
    push_decimal(&mut out, len as u64);
    out.append("\r\nAccess-Control-Allow-Origin: *\r\n\r\n");
    out.append(body);
    out
}

/// The prompt sent to the model: the message, preceded by the payload's
/// context (pretty-printed JSON) when there is one.
pub open spec fn prompt_spec(message: Seq<char>, context: Option<Seq<char>>) -> Seq<char> {
    match context {
        Some(c) => "Webhook context:\n"@ + c + "\n\n"@ + message,
        None => message,
    }
}

/// Build the prompt for a webhook payload.
pub fn webhook_prompt(message: &str, context_json: Option<&str>) -> (r: String)
    ensures
        r@ == prompt_spec(message@, opt_view(context_json)),
{
    match context_json {
        Some(c) => {
            let mut out = String::from_str("Webhook context:\n");
            out.append(c);
            out.append("\n\n");
            out.append(message);
            out
        },
        None => String::from_str(message),
    }
}

/// Which provider API answers a prompt.
#[derive(Debug, Clone, Copy, PartialEq, Eq, Structural)]
pub enum ProviderApi {
    Anthropic,
    Google,
    OpenAi,
}

/// The API of a provider: Anthropic's and Google's own, the OpenAI-style
/// API for every other provider.
pub open spec fn provider_api_spec(provider: Seq<char>) -> ProviderApi {
    if provider == "anthropic"@ {
        ProviderApi::Anthropic
    } else if provider == "google"@ {
        ProviderApi::Google
    } else {
        ProviderApi::OpenAi
    }
}

/// Choose the API to call for a provider.
pub fn provider_api(provider: &str) -> (r: ProviderApi)
    ensures
        r == provider_api_spec(provider@),
{
    if str_eq(provider, "anthropic") {
        ProviderApi::Anthropic
    } else if str_eq(provider, "google") {
        ProviderApi::Google
    } else {
        ProviderApi::OpenAi
    }
}

} // verus!
