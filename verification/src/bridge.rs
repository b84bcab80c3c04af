//! The read-only status endpoint: what it answers to a request, given the
//! token it was set up with and the last snapshot.
use vstd::prelude::*;
use crate::monitor::{Snapshot, SnapshotView};
use crate::number::copy_range;
use crate::report::{report_json, report_markdown, to_json, to_markdown};
use crate::json_write::write_model;
use crate::text::{
    chars_of, find_first, first_match_from, is_ws, is_whitespace, lemma_first_match_from, lemma_split_on_len, lowercase,
    match_at, matches_at, push_str, push_uint, split_char, split_on, starts_with, string_of, text_eq, to_lower,
    trim_chars, trim_seq, uint_text, views,
};

verus! {

/// A line without the carriage return that ended it.
pub open spec fn strip_cr(t: Seq<char>) -> Seq<char> {
    if t.len() > 0 && t.last() == '\r' {
        t.drop_last()
    } else {
        t
    }
}

/// The lines of a text as `str::lines` yields them: split at `\n`, a `\r`
/// before it dropped, no empty line after a final `\n`.
pub open spec fn lines_of(s: Seq<char>) -> Seq<Seq<char>> {
    if s.len() == 0 {
        Seq::empty()
    } else {
        let parts = split_on(s, '\n');
        let n = if s.last() == '\n' { parts.len() - 1 } else { parts.len() as int };
        Seq::new(n as nat, |i: int| if i < parts.len() - 1 { strip_cr(parts[i]) } else { parts[i] })
    }
}

fn without_cr(t: &String) -> (r: String)
    ensures
        r@ == strip_cr(t@),
{
    let chars = chars_of(t.as_str());
    if chars.len() > 0 && chars[chars.len() - 1] == '\r' {
        let kept = copy_range(&chars, 0, chars.len() - 1);
        assert(kept@ =~= t@.drop_last());
        string_of(&kept)
    } else {
        t.clone()
    }
}

pub fn text_lines(s: &str) -> (r: Vec<String>)
    ensures
        views(r@) == lines_of(s@),
{
    let mut lines: Vec<String> = Vec::new();
    let chars = chars_of(s);
    if chars.len() == 0 {
        assert(views(lines@) =~= lines_of(s@));
        return lines;
    }
    let parts = split_char(s, '\n');
    proof {
        lemma_split_on_len(s@, '\n');
    }
    let ends_with_newline = chars[chars.len() - 1] == '\n';
    let n: usize = if ends_with_newline { parts.len() - 1 } else { parts.len() };
    let ghost want = lines_of(s@);
    assert(want.len() == n);
    let mut i: usize = 0;
    while i < n
        invariant
            i <= n <= parts.len(),
            parts.len() >= 1,
            want == lines_of(s@),
            want.len() == n,
            views(parts@) == split_on(s@, '\n'),
            s@.len() > 0,
            n == (if s@.last() == '\n' { parts.len() - 1 } else { parts.len() as int }),
            views(lines@) == want.take(i as int),
        decreases n - i,
    {
        let line = if i + 1 < parts.len() { without_cr(&parts[i]) } else { parts[i].clone() };
        assert(line@ == want[i as int]);
        let ghost before = views(lines@);
        lines.push(line);
        assert(views(lines@) =~= before.push(line@));
        assert(want.take(i + 1) =~= want.take(i as int).push(want[i as int]));
        i += 1;
    }
    assert(want.take(i as int) =~= want);
    lines
}

/// The first header line from `k` on named `wanted` (already lowercased,
/// colon included) that has a colon: the text after that colon, trimmed.
pub open spec fn header_from(lines: Seq<Seq<char>>, wanted: Seq<char>, k: int) -> Option<Seq<char>>
    decreases lines.len() - k,
{
    if k < 0 || k >= lines.len() {
        None
    } else {
        let line = lines[k];
        let colon = first_match_from(line, seq![':'], 0);
        if starts_with(lowercase(line), wanted) && colon >= 0 {
            Some(trim_seq(line.skip(colon + 1)))
        } else {
            header_from(lines, wanted, k + 1)
        }
    }
}

/// The value of a request header, the name compared without case.
pub open spec fn header_value(request: Seq<char>, name: Seq<char>) -> Option<Seq<char>> {
    header_from(lines_of(request), lowercase(name) + seq![':'], 0)
}

pub fn header(request: &str, name: &str) -> (r: Option<String>)
    ensures
        match r {
            Some(v) => header_value(request@, name@) == Some(v@),
            None => header_value(request@, name@) is None,
        },
{
    let lowered = to_lower(name);
    let mut wanted = chars_of(lowered.as_str());
    wanted.push(':');
    let ghost w = lowercase(name@) + seq![':'];
    assert(wanted@ =~= w);
    let lines = text_lines(request);
    let ghost ls = views(lines@);
    let colon = vec![':'];
    assert(colon@ =~= seq![':']);
    let mut k: usize = 0;
    while k < lines.len()
        invariant
            k <= lines.len(),
            ls == views(lines@),
            ls == lines_of(request@),
            wanted@ == w,
            w == lowercase(name@) + seq![':'],
            colon@ == seq![':'],
            header_from(ls, w, 0) == header_from(ls, w, k as int),
        decreases lines.len() - k,
    {
        let line = chars_of(lines[k].as_str());
        let lower = to_lower(lines[k].as_str());
        let lower_chars = chars_of(lower.as_str());
        assert(ls[k as int] == lines@[k as int]@);
        if match_at(&lower_chars, &wanted, 0) {
            proof {
                lemma_first_match_from(line@, colon@, 0);
            }
            match find_first(&line, &colon, 0) {
                Some(c) => {
                    assert(matches_at(line@, colon@, c as int));
                    assert(c < line.len());
                    let rest = copy_range(&line, c + 1, line.len());
                    assert(rest@ =~= line@.skip(c + 1));
                    let value = trim_chars(&rest);
                    return Some(string_of(&value));
                },
                None => {},
            }
        }
        k += 1;
    }
    None
}

/// A request may pass when its `X-Token` header is the token, or a
/// `token=<token>` pair of its query is.
pub open spec fn is_authorized(request: Seq<char>, query: Seq<char>, token: Seq<char>) -> bool {
    header_value(request, "x-token"@) == Some(token) || split_on(query, '&').contains("token="@ + token)
}

pub fn authorized(request: &str, query: &str, token: &str) -> (r: bool)
    ensures
        r == is_authorized(request@, query@, token@),
{
    match header(request, "x-token") {
        Some(v) => {
            if text_eq(v.as_str(), token) {
                return true;
            }
        },
        None => {},
    }
    let mut wanted = "token=".to_owned();
    push_str(&mut wanted, token);
    let pairs = split_char(query, '&');
    let mut i: usize = 0;
    while i < pairs.len()
        invariant
            i <= pairs.len(),
            views(pairs@) == split_on(query@, '&'),
            wanted@ == "token="@ + token@,
            forall|k: int| 0 <= k < i ==> views(pairs@)[k] != wanted@,
        decreases pairs.len() - i,
    {
        if text_eq(pairs[i].as_str(), wanted.as_str()) {
            assert(views(pairs@)[i as int] == wanted@);
            return true;
        }
        i += 1;
    }
    false
}

/// The reason phrase of a status code.
pub open spec fn reason_text(code: u16) -> Seq<char> {
    if code == 200 {
        "OK"@
    } else if code == 401 {
        "Unauthorized"@
    } else if code == 404 {
        "Not Found"@
    } else if code == 503 {
        "Service Unavailable"@
    } else {
        "OK"@
    }
}

pub fn reason(code: u16) -> (r: &'static str)
    ensures
        r@ == reason_text(code),
{
    if code == 200 {
        "OK"
    } else if code == 401 {
        "Unauthorized"
    } else if code == 404 {
        "Not Found"
    } else if code == 503 {
        "Service Unavailable"
    } else {
        "OK"
    }
}

/// How many bytes UTF-8 takes for a character.
pub open spec fn utf8_width(c: char) -> nat {
    if (c as u32) < 0x80 {
        1
    } else if (c as u32) < 0x800 {
        2
    } else if (c as u32) < 0x10000 {
        3
    } else {
        4
    }
}

/// How many bytes UTF-8 takes for a text.
pub open spec fn utf8_len(t: Seq<char>) -> nat
    decreases t.len(),
{
    if t.len() == 0 {
        0
    } else {
        utf8_len(t.drop_last()) + utf8_width(t.last())
    }
}

pub fn byte_len(text: &str) -> (r: u64)
    requires
        utf8_len(text@) <= u64::MAX,
    ensures
        r == utf8_len(text@),
{
    let chars = chars_of(text);
    let mut total: u64 = 0;
    let mut i: usize = 0;
    while i < chars.len()
        invariant
            i <= chars.len(),
            chars@ == text@,
            utf8_len(text@) <= u64::MAX,
            total == utf8_len(text@.take(i as int)),
        decreases chars.len() - i,
    {
        assert(text@.take(i + 1).drop_last() =~= text@.take(i as int));
        proof {
            lemma_utf8_len_prefix(text@, i + 1);
        }
        let code = chars[i] as u32;
        let w: u64 = if code < 0x80 {
            1
        } else if code < 0x800 {
            2
        } else if code < 0x10000 {
            3
        } else {
            4
        };
        total = total + w;
        i += 1;
    }
    assert(text@.take(i as int) =~= text@);
    total
}

proof fn lemma_utf8_len_prefix(t: Seq<char>, n: int)
    requires
        0 <= n <= t.len(),
    ensures
        utf8_len(t.take(n)) <= utf8_len(t),
    decreases t.len() - n,
{
    if n < t.len() {
        lemma_utf8_len_prefix(t, n + 1);
        assert(t.take(n + 1).drop_last() =~= t.take(n));
    } else {
        assert(t.take(n) =~= t);
    }
}

/// The head of a response, up to the blank line.
pub open spec fn head_text(code: u16, content_type: Seq<char>, length: nat) -> Seq<char> {
    "HTTP/1.1 "@ + uint_text(code as nat) + seq![' '] + reason_text(code) + "\r\nContent-Type: "@ + content_type
        + "\r\nContent-Length: "@ + uint_text(length) + "\r\nConnection: close\r\nCache-Control: no-store\r\n\r\n"@
}

pub fn response_head(code: u16, content_type: &str, body: &str) -> (r: String)
    requires
        utf8_len(body@) <= u64::MAX,
    ensures
        r@ == head_text(code, content_type@, utf8_len(body@)),
{
    let mut head = "HTTP/1.1 ".to_owned();
    push_uint(&mut head, code as u64);
    push_str(&mut head, " ");
    push_str(&mut head, reason(code));
    push_str(&mut head, "\r\nContent-Type: ");
    push_str(&mut head, content_type);
    push_str(&mut head, "\r\nContent-Length: ");
    push_uint(&mut head, byte_len(body));
    push_str(&mut head, "\r\nConnection: close\r\nCache-Control: no-store\r\n\r\n");
    proof {
        reveal_strlit(" ");
    }
    assert(head@ =~= head_text(code, content_type@, utf8_len(body@)));
    head
}

} // verus!

verus! {

/// The index page up to the endpoint's address.
pub const INDEX_HEAD: &'static str = "<!doctype html>\n<html lang=\"zh-CN\"><head><meta charset=\"utf-8\"><title>网络状态接口</title>\n<style>\nbody{background:#151a21;color:#e8edf5;font:14px/1.7 \"Microsoft YaHei UI\",sans-serif;padding:32px}\na{color:#4f8cff;text-decoration:none} code{background:#1b2130;padding:2px 6px;border-radius:4px}\n</style></head><body>\n<h2>网络状态监测接口</h2>\n<ul>\n<li><a href=\"/status\">/status</a> — 当前状态 JSON</li>\n<li><a href=\"/report\">/report</a> — Markdown 报告（可直接发给大模型）</li>\n</ul>\n<p>把 <code>";

/// The index page after the endpoint's address.
pub const INDEX_TAIL: &'static str = "/report</code> 的内容贴给大模型，即可让它分析当前网络状况。</p>\n</body></html>\n";

pub const UNAUTHORIZED_BODY: &'static str = "{\"error\":\"unauthorized\",\"hint\":\"需要 ?token= 或 X-Token 请求头\"}";

pub const WARMING_UP_BODY: &'static str = "{\"status\":\"warming_up\",\"message\":\"尚未完成首轮探测\"}";

pub const NOT_FOUND_BODY: &'static str = "{\"error\":\"not_found\",\"paths\":[\"/status\",\"/report\"]}";

pub const JSON_TYPE: &'static str = "application/json; charset=utf-8";

/// What the endpoint answers.
#[derive(Debug)]
pub struct Reply {
    pub code: u16,
    pub content_type: String,
    pub body: String,
}

pub struct ReplyView {
    pub code: u16,
    pub content_type: Seq<char>,
    pub body: Seq<char>,
}

impl View for Reply {
    type V = ReplyView;

    open spec fn view(&self) -> ReplyView {
        ReplyView { code: self.code, content_type: self.content_type@, body: self.body@ }
    }
}

/// The first index from `i` on that is not whitespace, or the length.
pub open spec fn skip_space(s: Seq<char>, i: int) -> int
    decreases s.len() - i,
{
    if i < 0 || i >= s.len() || !is_ws(s[i]) {
        i
    } else {
        skip_space(s, i + 1)
    }
}

/// The first index from `i` on that is whitespace, or the length.
pub open spec fn skip_word(s: Seq<char>, i: int) -> int
    decreases s.len() - i,
{
    if i < 0 || i >= s.len() || is_ws(s[i]) {
        i
    } else {
        skip_word(s, i + 1)
    }
}

proof fn lemma_skip_space(s: Seq<char>, i: int)
    requires
        0 <= i <= s.len(),
    ensures
        i <= skip_space(s, i) <= s.len(),
    decreases s.len() - i,
{
    if i < s.len() && is_ws(s[i]) {
        lemma_skip_space(s, i + 1);
    }
}

proof fn lemma_skip_word(s: Seq<char>, i: int)
    requires
        0 <= i <= s.len(),
    ensures
        i <= skip_word(s, i) <= s.len(),
    decreases s.len() - i,
{
    if i < s.len() && !is_ws(s[i]) {
        lemma_skip_word(s, i + 1);
    }
}

/// The second whitespace-separated word of a line, as the second item of
/// `str::split_whitespace`, if there is one.
pub open spec fn second_word(s: Seq<char>) -> Option<Seq<char>> {
    let a = skip_word(s, skip_space(s, 0));
    let b = skip_space(s, a);
    if b < s.len() {
        Some(s.subrange(b, skip_word(s, b)))
    } else {
        None
    }
}

/// The request target: the second word of the first line, `/` without
/// one.
pub open spec fn target_of(request: Seq<char>) -> Seq<char> {
    let lines = lines_of(request);
    let first = if lines.len() > 0 { lines[0] } else { Seq::empty() };
    match second_word(first) {
        Some(w) => w,
        None => seq!['/'],
    }
}

/// The target split at its first `?` into path and query.
pub open spec fn path_query(target: Seq<char>) -> (Seq<char>, Seq<char>) {
    let q = first_match_from(target, seq!['?'], 0);
    if q >= 0 {
        (target.take(q), target.skip(q + 1))
    } else {
        (target, Seq::empty())
    }
}

fn scan_space(s: &Vec<char>, from: usize) -> (r: usize)
    requires
        from <= s.len(),
    ensures
        r == skip_space(s@, from as int),
        r <= s.len(),
{
    let mut i = from;
    while i < s.len() && is_whitespace(s[i])
        invariant
            from <= i <= s.len(),
            skip_space(s@, from as int) == skip_space(s@, i as int),
        decreases s.len() - i,
    {
        i += 1;
    }
    i
}

fn scan_word(s: &Vec<char>, from: usize) -> (r: usize)
    requires
        from <= s.len(),
    ensures
        r == skip_word(s@, from as int),
        r <= s.len(),
{
    let mut i = from;
    while i < s.len() && !is_whitespace(s[i])
        invariant
            from <= i <= s.len(),
            skip_word(s@, from as int) == skip_word(s@, i as int),
        decreases s.len() - i,
    {
        i += 1;
    }
    i
}

/// The request's path and query.
pub fn request_path(request: &str) -> (r: (String, String))
    ensures
        (r.0@, r.1@) == path_query(target_of(request@)),
{
    let lines = text_lines(request);
    let first: Vec<char> = if lines.len() > 0 { chars_of(lines[0].as_str()) } else { Vec::new() };
    assert(first@ == (if lines_of(request@).len() > 0 { lines_of(request@)[0] } else { Seq::<char>::empty() }));
    let a = scan_word(&first, scan_space(&first, 0));
    let b = scan_space(&first, a);
    let target: Vec<char> = if b < first.len() {
        let e = scan_word(&first, b);
        proof {
            lemma_skip_word(first@, b as int);
        }
        copy_range(&first, b, e)
    } else {
        vec!['/']
    };
    assert(target@ =~= target_of(request@));
    let question = vec!['?'];
    assert(question@ =~= seq!['?']);
    proof {
        lemma_first_match_from(target@, question@, 0);
    }
    match find_first(&target, &question, 0) {
        Some(q) => {
            assert(matches_at(target@, question@, q as int));
            let path = copy_range(&target, 0, q);
            let query = copy_range(&target, q + 1, target.len());
            assert(path@ =~= target@.take(q as int));
            assert(query@ =~= target@.skip(q + 1));
            (string_of(&path), string_of(&query))
        },
        None => {
            proof {
                reveal_strlit("");
            }
            (string_of(&target), String::new())
        },
    }
}

/// The index page for an endpoint address.
pub open spec fn index_page(url: Seq<char>) -> Seq<char> {
    INDEX_HEAD@ + url + INDEX_TAIL@
}

/// The answer to a request, given the token (empty: no token needed) and
/// the last snapshot, if a round has completed.
pub open spec fn reply_for(request: Seq<char>, token: Seq<char>, snapshot: Option<SnapshotView>) -> ReplyView {
    let (path, query) = path_query(target_of(request));
    let ready = snapshot is Some;
    if token.len() > 0 && !is_authorized(request, query, token) {
        ReplyView { code: 401, content_type: JSON_TYPE@, body: UNAUTHORIZED_BODY@ }
    } else if path == "/status"@ || path == "/status.json"@ {
        if ready {
            ReplyView { code: 200, content_type: JSON_TYPE@, body: write_model(report_json(snapshot->0), 0, true) }
        } else {
            ReplyView { code: 503, content_type: JSON_TYPE@, body: WARMING_UP_BODY@ }
        }
    } else if path == "/report"@ || path == "/report.md"@ {
        if ready {
            ReplyView { code: 200, content_type: "text/markdown; charset=utf-8"@, body: report_markdown(snapshot->0) }
        } else {
            ReplyView { code: 503, content_type: "text/plain; charset=utf-8"@, body: "尚未完成首轮探测"@ }
        }
    } else if path == "/"@ || path == "/index.html"@ {
        let host = match header_value(request, "host"@) {
            Some(h) => h,
            None => "127.0.0.1"@,
        };
        ReplyView { code: 200, content_type: "text/html; charset=utf-8"@, body: index_page("http://"@ + host) }
    } else {
        ReplyView { code: 404, content_type: JSON_TYPE@, body: NOT_FOUND_BODY@ }
    }
}

fn status_reply(ready: Option<&Snapshot>) -> (r: Reply)
    ensures
        r@ == (match ready {
            Some(s) => ReplyView { code: 200, content_type: JSON_TYPE@, body: write_model(report_json(s@), 0, true) },
            None => ReplyView { code: 503, content_type: JSON_TYPE@, body: WARMING_UP_BODY@ },
        }),
{
    match ready {
        Some(s) => Reply { code: 200, content_type: JSON_TYPE.to_owned(), body: to_json(s) },
        None => Reply { code: 503, content_type: JSON_TYPE.to_owned(), body: WARMING_UP_BODY.to_owned() },
    }
}

fn report_reply(ready: Option<&Snapshot>) -> (r: Reply)
    ensures
        r@ == (match ready {
            Some(s) => ReplyView {
                code: 200,
                content_type: "text/markdown; charset=utf-8"@,
                body: report_markdown(s@),
            },
            None => ReplyView { code: 503, content_type: "text/plain; charset=utf-8"@, body: "尚未完成首轮探测"@ },
        }),
{
    match ready {
        Some(s) => Reply { code: 200, content_type: "text/markdown; charset=utf-8".to_owned(), body: to_markdown(s) },
        None => Reply {
            code: 503,
            content_type: "text/plain; charset=utf-8".to_owned(),
            body: "尚未完成首轮探测".to_owned(),
        },
    }
}

fn index_reply(request: &str) -> (r: Reply)
    ensures
        r@ == (ReplyView {
            code: 200,
            content_type: "text/html; charset=utf-8"@,
            body: index_page(
                "http://"@ + match header_value(request@, "host"@) {
                    Some(h) => h,
                    None => "127.0.0.1"@,
                },
            ),
        }),
{
    let host = match header(request, "host") {
        Some(h) => h,
        None => "127.0.0.1".to_owned(),
    };
    let mut body = INDEX_HEAD.to_owned();
    push_str(&mut body, "http://");
    push_str(&mut body, host.as_str());
    push_str(&mut body, INDEX_TAIL);
    assert(body@ =~= index_page("http://"@ + host@));
    Reply { code: 200, content_type: "text/html; charset=utf-8".to_owned(), body }
}

/// Answers a request to the endpoint.
pub fn respond_to(request: &str, token: &str, snapshot: Option<&Snapshot>) -> (r: Reply)
    ensures
        r@ == reply_for(
            request@,
            token@,
            match snapshot {
                Some(s) => Some(s@),
                None => None,
            },
        ),
{
    let (path, query) = request_path(request);
    if !token.is_empty() && !authorized(request, query.as_str(), token) {
        return Reply { code: 401, content_type: JSON_TYPE.to_owned(), body: UNAUTHORIZED_BODY.to_owned() };
    }
    if text_eq(path.as_str(), "/status") || text_eq(path.as_str(), "/status.json") {
        return status_reply(snapshot);
    }
    if text_eq(path.as_str(), "/report") || text_eq(path.as_str(), "/report.md") {
        return report_reply(snapshot);
    }
    if text_eq(path.as_str(), "/") || text_eq(path.as_str(), "/index.html") {
        return index_reply(request);
    }
    Reply { code: 404, content_type: JSON_TYPE.to_owned(), body: NOT_FOUND_BODY.to_owned() }
}

} // verus!
