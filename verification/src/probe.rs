//! What the probes make of what the network answered: results, URLs, the
//! WinHTTP error table, the connection pool, and the decoding of the
//! tables the system hands back.
use vstd::prelude::*;
use crate::net::{dotted_quad, format_quad, from_wide, port_of, port_value, u32_to_ipv4, until_zero, utf16_lossy};
use crate::number::copy_range;
use crate::text::{
    chars_of, find_first, find_last, first_match_from, last_match, lemma_first_match_from, lemma_last_match,
    match_at, matches_at, parse_uint, parse_unsigned, push_char, push_str, push_uint, starts_with,
    string_of, text_eq, trim_chars, trim_seq, uint_text, views,
};

verus! {

/// The outcome of one probe. Latencies are in thousandths of a millisecond.
#[derive(Debug)]
pub struct ProbeResult {
    pub ok: bool,
    pub latency_ms: Option<i64>,
    pub detail: String,
    /// The proxy itself could not be reached ("Clash is not running" as
    /// opposed to "the exit node does not answer").
    pub proxy_down: bool,
    /// The response body, kept only when a caller asked for it.
    pub body: Option<String>,
}

pub struct ProbeView {
    pub ok: bool,
    pub latency_ms: Option<i64>,
    pub detail: Seq<char>,
    pub proxy_down: bool,
    pub body: Option<Seq<char>>,
}

pub open spec fn opt_view(s: Option<String>) -> Option<Seq<char>> {
    match s {
        Some(t) => Some(t@),
        None => None,
    }
}

impl View for ProbeResult {
    type V = ProbeView;

    open spec fn view(&self) -> ProbeView {
        ProbeView {
            ok: self.ok,
            latency_ms: self.latency_ms,
            detail: self.detail@,
            proxy_down: self.proxy_down,
            body: opt_view(self.body),
        }
    }
}

impl ProbeResult {
    pub fn ok(latency_ms: i64, detail: &str) -> (r: ProbeResult)
        ensures
            r@ == (ProbeView {
                ok: true,
                latency_ms: Some(latency_ms),
                detail: detail@,
                proxy_down: false,
                body: None,
            }),
    {
        ProbeResult { ok: true, latency_ms: Some(latency_ms), detail: detail.to_owned(), proxy_down: false, body: None }
    }

    pub fn fail(detail: &str) -> (r: ProbeResult)
        ensures
            r@ == (ProbeView { ok: false, latency_ms: None, detail: detail@, proxy_down: false, body: None }),
    {
        ProbeResult { ok: false, latency_ms: None, detail: detail.to_owned(), proxy_down: false, body: None }
    }
}

pub const ERROR_WINHTTP_CANNOT_CONNECT: u32 = 12029;
pub const ERROR_WINHTTP_NAME_NOT_RESOLVED: u32 = 12007;
pub const ERROR_WINHTTP_TIMEOUT: u32 = 12002;
pub const ERROR_WINHTTP_SECURE_FAILURE: u32 = 12175;
pub const ERROR_WINHTTP_CONNECTION_ERROR: u32 = 12030;
pub const ERROR_WINHTTP_INVALID_URL: u32 = 12181;
pub const ERROR_WINHTTP_UNRECOGNIZED_SCHEME: u32 = 12006;

/// The short explanation of a WinHTTP error code.
pub open spec fn winhttp_text(code: u32) -> Seq<char> {
    if code == ERROR_WINHTTP_CANNOT_CONNECT {
        "代理/主机连不上"@
    } else if code == ERROR_WINHTTP_NAME_NOT_RESOLVED {
        "域名解析失败"@
    } else if code == ERROR_WINHTTP_TIMEOUT {
        "超时"@
    } else if code == ERROR_WINHTTP_SECURE_FAILURE {
        "证书错误"@
    } else if code == ERROR_WINHTTP_CONNECTION_ERROR {
        "连接被中断"@
    } else if code == ERROR_WINHTTP_INVALID_URL || code == ERROR_WINHTTP_UNRECOGNIZED_SCHEME {
        "地址无效"@
    } else {
        "连接失败(错误 "@ + uint_text(code as nat) + seq![')']
    }
}

/// Translates a WinHTTP error code; the flag says that the proxy or host
/// refused the connection.
pub fn winhttp_error(code: u32) -> (r: (String, bool))
    ensures
        r.0@ == winhttp_text(code),
        r.1 == (code == ERROR_WINHTTP_CANNOT_CONNECT),
{
    if code == ERROR_WINHTTP_CANNOT_CONNECT {
        ("代理/主机连不上".to_owned(), true)
    } else if code == ERROR_WINHTTP_NAME_NOT_RESOLVED {
        ("域名解析失败".to_owned(), false)
    } else if code == ERROR_WINHTTP_TIMEOUT {
        ("超时".to_owned(), false)
    } else if code == ERROR_WINHTTP_SECURE_FAILURE {
        ("证书错误".to_owned(), false)
    } else if code == ERROR_WINHTTP_CONNECTION_ERROR {
        ("连接被中断".to_owned(), false)
    } else if code == ERROR_WINHTTP_INVALID_URL || code == ERROR_WINHTTP_UNRECOGNIZED_SCHEME {
        ("地址无效".to_owned(), false)
    } else {
        let mut text = "连接失败(错误 ".to_owned();
        push_uint(&mut text, code as u64);
        push_char(&mut text, ')');
        (text, false)
    }
}

/// The result of a request that WinHTTP could not send or answer.
pub fn failure_result(code: u32) -> (r: ProbeResult)
    ensures
        r@ == (ProbeView {
            ok: false,
            latency_ms: None,
            detail: winhttp_text(code),
            proxy_down: code == ERROR_WINHTTP_CANNOT_CONNECT,
            body: None,
        }),
{
    let (detail, proxy_down) = winhttp_error(code);
    ProbeResult { ok: false, latency_ms: None, detail, proxy_down, body: None }
}

/// `HTTP <status>`.
pub open spec fn status_text(status: u32) -> Seq<char> {
    "HTTP "@ + uint_text(status as nat)
}

/// The result of a request that got a response: a status from 200 to 399
/// is a success; no readable status is a failure without a latency; any
/// other status is a failure that keeps its latency.
pub open spec fn response_view(status: u32, latency_ms: i64, host: Seq<char>, body: Option<Seq<char>>) -> ProbeView {
    if 200 <= status && status < 400 {
        ProbeView { ok: true, latency_ms: Some(latency_ms), detail: status_text(status), proxy_down: false, body }
    } else if status == 0 {
        ProbeView { ok: false, latency_ms: None, detail: "响应异常 ("@ + host + seq![')'], proxy_down: false, body }
    } else {
        ProbeView { ok: false, latency_ms: Some(latency_ms), detail: status_text(status), proxy_down: false, body }
    }
}

pub fn response_result(status: u32, latency_ms: i64, host: &str, body: Option<String>) -> (r: ProbeResult)
    ensures
        r@ == response_view(status, latency_ms, host@, opt_view(body)),
{
    let mut result = if 200 <= status && status < 400 {
        let mut detail = "HTTP ".to_owned();
        push_uint(&mut detail, status as u64);
        ProbeResult { ok: true, latency_ms: Some(latency_ms), detail, proxy_down: false, body: None }
    } else if status == 0 {
        let mut detail = "响应异常 (".to_owned();
        push_str(&mut detail, host);
        push_char(&mut detail, ')');
        assert(detail@ =~= "响应异常 ("@ + host@ + seq![')']);
        ProbeResult { ok: false, latency_ms: None, detail, proxy_down: false, body: None }
    } else {
        let mut detail = "HTTP ".to_owned();
        push_uint(&mut detail, status as u64);
        ProbeResult { ok: false, latency_ms: Some(latency_ms), detail, proxy_down: false, body: None }
    };
    result.body = body;
    result
}

/// The per-request timeout handed to WinHTTP: at least 500 ms, converted
/// to `i32` the way `as` does, then at most 60 s.
pub open spec fn request_timeout_value(timeout_ms: u64) -> i32 {
    let at_least = if timeout_ms < 500 { 500u64 } else { timeout_ms };
    let narrowed = at_least as i32;
    if narrowed < 60000 { narrowed } else { 60000 }
}

pub fn request_timeout(timeout_ms: u64) -> (r: i32)
    ensures
        r == request_timeout_value(timeout_ms),
{
    let at_least = if timeout_ms < 500 { 500u64 } else { timeout_ms };
    let narrowed = at_least as i32;
    if narrowed < 60000 { narrowed } else { 60000 }
}

/// The ICMP echo timeout: at least 200 ms, converted to `u32` the way `as`
/// does.
pub fn echo_timeout(timeout_ms: u64) -> (r: u32)
    ensures
        r == (if timeout_ms < 200 { 200u64 } else { timeout_ms }) as u32,
{
    let at_least = if timeout_ms < 200 { 200u64 } else { timeout_ms };
    at_least as u32
}

/// What an ICMP echo came back with: no reply, a reply with an error
/// status, or a round trip (the measured time when the reply says zero).
pub open spec fn echo_view(replies: u32, status: u32, round_trip_ms: u32, elapsed_ms: i64) -> ProbeView {
    if replies == 0 {
        ProbeView { ok: false, latency_ms: None, detail: "ping 无响应"@, proxy_down: false, body: None }
    } else if status != 0 {
        ProbeView { ok: false, latency_ms: None, detail: "不可达"@, proxy_down: false, body: None }
    } else {
        ProbeView {
            ok: true,
            latency_ms: Some(if round_trip_ms == 0 { elapsed_ms } else { (round_trip_ms * 1000) as i64 }),
            detail: "ICMP 可达"@,
            proxy_down: false,
            body: None,
        }
    }
}

pub fn echo_result(replies: u32, status: u32, round_trip_ms: u32, elapsed_ms: i64) -> (r: ProbeResult)
    ensures
        r@ == echo_view(replies, status, round_trip_ms, elapsed_ms),
{
    if replies == 0 {
        return ProbeResult::fail("ping 无响应");
    }
    if status != 0 {
        return ProbeResult::fail("不可达");
    }
    let rtt: i64 = if round_trip_ms == 0 { elapsed_ms } else { round_trip_ms as i64 * 1000 };
    ProbeResult::ok(rtt, "ICMP 可达")
}

} // verus!

verus! {

/// A URL split into what WinHTTP asks for.
#[derive(Debug)]
pub struct ParsedUrl {
    pub secure: bool,
    pub host: String,
    pub port: u16,
    pub path: String,
}

pub struct UrlView {
    pub secure: bool,
    pub host: Seq<char>,
    pub port: u16,
    pub path: Seq<char>,
}

impl View for ParsedUrl {
    type V = UrlView;

    open spec fn view(&self) -> UrlView {
        UrlView { secure: self.secure, host: self.host@, port: self.port, path: self.path@ }
    }
}

/// The scheme and what follows it; only `https://` and `http://` are read.
pub open spec fn url_rest(u: Seq<char>) -> Option<(bool, Seq<char>)> {
    if starts_with(u, "https://"@) {
        Some((true, u.skip(8)))
    } else if starts_with(u, "http://"@) {
        Some((false, u.skip(7)))
    } else {
        None
    }
}

/// A URL's parts: the authority runs to the first `/`, the path is the
/// rest (`/` when there is none); a port follows the last `:` of the
/// authority, else the scheme's default port applies.
pub open spec fn url_view(u: Seq<char>) -> Option<UrlView> {
    match url_rest(u) {
        None => None,
        Some((secure, rest)) => {
            let slash = first_match_from(rest, seq!['/'], 0);
            let authority = if slash >= 0 { rest.take(slash) } else { rest };
            let raw_path = if slash >= 0 { rest.skip(slash) } else { seq!['/'] };
            let path = if raw_path.len() == 0 { seq!['/'] } else { raw_path };
            let colon = last_match(authority, seq![':']);
            if authority.len() == 0 {
                None
            } else if colon >= 0 {
                match parse_unsigned(authority.skip(colon + 1), 65535) {
                    Some(p) => Some(UrlView { secure, host: authority.take(colon), port: p as u16, path }),
                    None => None,
                }
            } else {
                Some(UrlView { secure, host: authority, port: if secure { 443 } else { 80 }, path })
            }
        },
    }
}

pub fn parse_url(url: &str) -> (r: Option<ParsedUrl>)
    ensures
        match r {
            Some(p) => url_view(url@) == Some(p@),
            None => url_view(url@) is None,
        },
{
    let v = chars_of(url);
    let https = chars_of("https://");
    let http = chars_of("http://");
    proof {
        reveal_strlit("https://");
        reveal_strlit("http://");
    }
    let secure: bool;
    let start: usize;
    if match_at(&v, &https, 0) {
        secure = true;
        start = 8;
    } else if match_at(&v, &http, 0) {
        secure = false;
        start = 7;
    } else {
        return None;
    }
    let rest = copy_range(&v, start, v.len());
    assert(rest@ =~= v@.skip(start as int));
    let slash = vec!['/'];
    assert(slash@ =~= seq!['/']);
    proof {
        lemma_first_match_from(rest@, slash@, 0);
    }
    let (authority, raw_path) = match find_first(&rest, &slash, 0) {
        Some(i) => {
            let a = copy_range(&rest, 0, i);
            let p = copy_range(&rest, i, rest.len());
            assert(a@ =~= rest@.take(i as int));
            assert(p@ =~= rest@.skip(i as int));
            (a, p)
        },
        None => {
            let a = copy_range(&rest, 0, rest.len());
            assert(a@ =~= rest@);
            (a, vec!['/'])
        },
    };
    let path = if raw_path.len() == 0 { vec!['/'] } else { raw_path };
    assert(path@.len() > 0 ==> path@ =~= (if raw_path@.len() == 0 { seq!['/'] } else { raw_path@ }));
    if authority.len() == 0 {
        return None;
    }
    let colon = vec![':'];
    assert(colon@ =~= seq![':']);
    proof {
        lemma_last_match(authority@, colon@);
    }
    match find_last(&authority, &colon) {
        Some(i) => {
            let port_text = copy_range(&authority, i + 1, authority.len());
            assert(port_text@ =~= authority@.skip(i + 1));
            let host = copy_range(&authority, 0, i);
            assert(host@ =~= authority@.take(i as int));
            match parse_uint(port_text.as_slice(), 65535) {
                Some(p) => Some(ParsedUrl { secure, host: string_of(&host), port: p as u16, path: string_of(&path) }),
                None => None,
            }
        },
        None => {
            let port: u16 = if secure { 443 } else { 80 };
            Some(ParsedUrl { secure, host: string_of(&authority), port, path: string_of(&path) })
        },
    }
}

/// The host of a URL, or the text itself when it is no URL.
pub open spec fn host_text(u: Seq<char>) -> Seq<char> {
    match url_view(u) {
        Some(v) => v.host,
        None => u,
    }
}

pub fn host_of(url: &str) -> (r: String)
    ensures
        r@ == host_text(url@),
{
    match parse_url(url) {
        Some(p) => p.host,
        None => url.to_owned(),
    }
}

/// `s` without every leading repetition of `pat`, as
/// `str::trim_start_matches` gives.
pub open spec fn strip_prefixes(s: Seq<char>, pat: Seq<char>) -> Seq<char>
    decreases s.len(),
{
    if pat.len() > 0 && starts_with(s, pat) {
        strip_prefixes(s.skip(pat.len() as int), pat)
    } else {
        s
    }
}

/// `s` without every trailing `c`, as `str::trim_end_matches` gives.
pub open spec fn strip_suffix_chars(s: Seq<char>, c: char) -> Seq<char>
    decreases s.len(),
{
    if s.len() > 0 && s.last() == c {
        strip_suffix_chars(s.drop_last(), c)
    } else {
        s
    }
}

/// The proxy as WinHTTP takes it: trimmed, without its scheme and without
/// trailing slashes. Empty means a direct connection.
pub open spec fn proxy_text(p: Seq<char>) -> Seq<char> {
    strip_suffix_chars(strip_prefixes(strip_prefixes(trim_seq(p), "http://"@), "https://"@), '/')
}

fn strip_all(s: Vec<char>, pat: &Vec<char>) -> (r: Vec<char>)
    requires
        pat.len() > 0,
    ensures
        r@ == strip_prefixes(s@, pat@),
    decreases s.len(),
{
    if match_at(&s, pat, 0) {
        let rest = copy_range(&s, pat.len(), s.len());
        assert(rest@ =~= s@.skip(pat@.len() as int));
        strip_all(rest, pat)
    } else {
        s
    }
}

/// A text without every leading repetition of a non-empty pattern.
pub fn strip_all_prefixes(text: &str, pat: &str) -> (r: String)
    requires
        pat@.len() > 0,
    ensures
        r@ == strip_prefixes(text@, pat@),
{
    let chars = chars_of(text);
    let p = chars_of(pat);
    let kept = strip_all(chars, &p);
    string_of(&kept)
}

pub fn proxy_host(proxy: &str) -> (r: String)
    ensures
        r@ == proxy_text(proxy@),
{
    let chars = chars_of(proxy);
    let trimmed = trim_chars(&chars);
    let http = chars_of("http://");
    let https = chars_of("https://");
    proof {
        reveal_strlit("https://");
        reveal_strlit("http://");
    }
    let a = strip_all(trimmed, &http);
    let b = strip_all(a, &https);
    let mut end: usize = b.len();
    assert(b@.take(b.len() as int) =~= b@);
    while end > 0 && b[end - 1] == '/'
        invariant
            end <= b.len(),
            strip_suffix_chars(b@, '/') == strip_suffix_chars(b@.take(end as int), '/'),
        decreases end,
    {
        assert(b@.take(end as int).drop_last() =~= b@.take(end - 1));
        end -= 1;
    }
    let kept = copy_range(&b, 0, end);
    assert(kept@ =~= b@.take(end as int));
    assert(b@.take(b.len() as int) =~= b@);
    string_of(&kept)
}

} // verus!

verus! {

/// Open WinHTTP connections, keyed by host and port, oldest first. The
/// handles are the application's; the pool decides which to reuse and
/// which to close.
pub struct ConnectionPool {
    entries: Vec<(String, u16, u64)>,
}

/// How many connections the pool keeps open.
pub const POOL_LIMIT: usize = 4;

pub open spec fn entry_view(e: (String, u16, u64)) -> (Seq<char>, u16, u64) {
    (e.0@, e.1, e.2)
}

/// The handle kept for a host and port: the first entry that matches.
pub open spec fn pool_lookup(s: Seq<(Seq<char>, u16, u64)>, host: Seq<char>, port: u16) -> Option<u64>
    decreases s.len(),
{
    if s.len() == 0 {
        None
    } else if s[0].0 == host && s[0].1 == port {
        Some(s[0].2)
    } else {
        pool_lookup(s.skip(1), host, port)
    }
}

/// The entries after adding one: the oldest leaves first when the pool is
/// full.
pub open spec fn pool_added(s: Seq<(Seq<char>, u16, u64)>, host: Seq<char>, port: u16, handle: u64) -> Seq<
    (Seq<char>, u16, u64),
> {
    let kept = if s.len() >= POOL_LIMIT { s.skip(1) } else { s };
    kept.push((host, port, handle))
}

impl View for ConnectionPool {
    type V = Seq<(Seq<char>, u16, u64)>;

    closed spec fn view(&self) -> Seq<(Seq<char>, u16, u64)> {
        self.entries@.map_values(|e: (String, u16, u64)| entry_view(e))
    }
}

impl ConnectionPool {
    #[verifier::type_invariant]
    spec fn bounded(&self) -> bool {
        self.entries@.len() <= POOL_LIMIT
    }

    pub fn new() -> (r: ConnectionPool)
        ensures
            r@ == Seq::<(Seq<char>, u16, u64)>::empty(),
    {
        let r = ConnectionPool { entries: Vec::new() };
        assert(r@ =~= Seq::<(Seq<char>, u16, u64)>::empty());
        r
    }

    /// The open connection to `host:port`, if there is one.
    pub fn find(&self, host: &str, port: u16) -> (r: Option<u64>)
        ensures
            r == pool_lookup(self@, host@, port),
    {
        let mut i: usize = 0;
        assert(self@.skip(0) =~= self@);
        while i < self.entries.len()
            invariant
                i <= self.entries@.len(),
                pool_lookup(self@, host@, port) == pool_lookup(self@.skip(i as int), host@, port),
            decreases self.entries.len() - i,
        {
            let ghost rest = self@.skip(i as int);
            assert(rest[0] == entry_view(self.entries@[i as int]));
            assert(rest.skip(1) =~= self@.skip(i + 1));
            if self.entries[i].1 == port && text_eq(self.entries[i].0.as_str(), host) {
                return Some(self.entries[i].2);
            }
            i += 1;
        }
        None
    }

    /// Keeps a new connection; returns the handle of the oldest one when it
    /// had to leave to make room, for the caller to close.
    pub fn add(&mut self, host: &str, port: u16, handle: u64) -> (evicted: Option<u64>)
        ensures
            final(self)@ == pool_added(old(self)@, host@, port, handle),
            evicted == (if old(self)@.len() >= POOL_LIMIT { Some(old(self)@[0].2) } else { None }),
            final(self)@.len() <= POOL_LIMIT,
    {
        proof {
            use_type_invariant(&*self);
        }
        let ghost before = self@;
        let mut entries: Vec<(String, u16, u64)> = Vec::new();
        std::mem::swap(&mut entries, &mut self.entries);
        assert(entries@.map_values(|e: (String, u16, u64)| entry_view(e)) == before);
        let evicted = if entries.len() >= POOL_LIMIT {
            let (_, _, old_handle) = entries.remove(0);
            Some(old_handle)
        } else {
            None
        };
        entries.push((host.to_owned(), port, handle));
        self.entries = entries;
        assert(self@ =~= pool_added(before, host@, port, handle));
        evicted
    }

    /// Every handle, oldest first, for closing them all.
    pub fn handles(&self) -> (r: Vec<u64>)
        ensures
            r@ == self@.map_values(|e: (Seq<char>, u16, u64)| e.2),
    {
        let mut r: Vec<u64> = Vec::new();
        let mut i: usize = 0;
        while i < self.entries.len()
            invariant
                i <= self.entries@.len(),
                r@ == self@.take(i as int).map_values(|e: (Seq<char>, u16, u64)| e.2),
            decreases self.entries.len() - i,
        {
            r.push(self.entries[i].2);
            assert(r@ =~= self@.take(i + 1).map_values(|e: (Seq<char>, u16, u64)| e.2));
            i += 1;
        }
        assert(self@.take(i as int) =~= self@);
        r
    }
}

} // verus!

verus! {

/// One network adapter as the monitor sees it.
#[derive(Debug)]
pub struct AdapterInfo {
    pub name: String,
    pub description: String,
    pub up: bool,
    pub ipv4: Vec<String>,
    pub gateway: Vec<String>,
    pub dns: Vec<String>,
}

/// The IPv4 address in a socket address: family 2 in the first two bytes
/// (in memory order), the address in bytes four to seven.
pub open spec fn sockaddr_view(b: Seq<u8>) -> Option<Seq<char>> {
    if b.len() < 8 || b[0] as int + b[1] as int * 256 != 2 {
        None
    } else {
        Some(dotted_quad(b[4], b[5], b[6], b[7]))
    }
}

pub fn sockaddr_ip(bytes: &[u8]) -> (r: Option<String>)
    ensures
        opt_view(r) == sockaddr_view(bytes@),
{
    if bytes.len() < 8 {
        return None;
    }
    let family: u32 = bytes[0] as u32 + bytes[1] as u32 * 256;
    if family != 2 {
        return None;
    }
    Some(format_quad(bytes[4], bytes[5], bytes[6], bytes[7]))
}

/// The addresses that are not link-local (`169.254.x.x`), in order.
pub open spec fn routable(s: Seq<Seq<char>>) -> Seq<Seq<char>>
    decreases s.len(),
{
    if s.len() == 0 {
        s
    } else if starts_with(s.last(), "169.254."@) {
        routable(s.drop_last())
    } else {
        routable(s.drop_last()).push(s.last())
    }
}

pub fn routable_ipv4(list: &Vec<String>) -> (r: Vec<String>)
    ensures
        views(r@) == routable(views(list@)),
{
    let link_local = chars_of("169.254.");
    let mut r: Vec<String> = Vec::new();
    let mut i: usize = 0;
    assert(views(list@).take(0) =~= Seq::<Seq<char>>::empty());
    assert(views(r@) =~= Seq::<Seq<char>>::empty());
    while i < list.len()
        invariant
            i <= list.len(),
            link_local@ == "169.254."@,
            views(r@) == routable(views(list@).take(i as int)),
        decreases list.len() - i,
    {
        let item = chars_of(list[i].as_str());
        let ghost taken = views(list@).take(i + 1);
        assert(taken.drop_last() =~= views(list@).take(i as int));
        assert(taken.last() == list@[i as int]@);
        if !match_at(&item, &link_local, 0) {
            r.push(list[i].clone());
            assert(views(r@) =~= routable(views(list@).take(i as int)).push(list@[i as int]@));
        }
        i += 1;
    }
    assert(views(list@).take(list.len() as int) =~= views(list@));
    r
}

/// One row of the IPv4 TCP table with owning processes.
#[allow(non_camel_case_types)]
#[derive(Clone, Copy, Debug, PartialEq, Eq, Structural)]
pub struct MIB_TCPROW_OWNER_PID {
    pub state: u32,
    pub local_addr: u32,
    pub local_port: u32,
    pub remote_addr: u32,
    pub remote_port: u32,
    pub owning_pid: u32,
}

/// The connection state of an established connection.
pub const MIB_TCP_STATE_ESTAB: u32 = 5;

/// Size of one row in bytes.
pub const TCP_ROW_SIZE: usize = 24;

/// The `u32` whose bytes in memory, from `at` on, are those of `b`.
pub open spec fn le32(b: Seq<u8>, at: int) -> u32 {
    (b[at] as int + b[at + 1] as int * 0x100 + b[at + 2] as int * 0x10000 + b[at + 3] as int * 0x1000000) as u32
}

pub open spec fn row_at(b: Seq<u8>, at: int) -> MIB_TCPROW_OWNER_PID {
    MIB_TCPROW_OWNER_PID {
        state: le32(b, at),
        local_addr: le32(b, at + 4),
        local_port: le32(b, at + 8),
        remote_addr: le32(b, at + 12),
        remote_port: le32(b, at + 16),
        owning_pid: le32(b, at + 20),
    }
}

/// How many rows the table holds: the count in its first four bytes, as
/// far as whole rows follow it.
pub open spec fn row_count(b: Seq<u8>) -> int {
    let count = le32(b, 0) as int;
    let fit = (b.len() - 4) / 24;
    if count < fit { count } else { fit }
}

/// The rows of a TCP table as the system lays it out.
pub open spec fn table_rows(b: Seq<u8>) -> Seq<MIB_TCPROW_OWNER_PID> {
    Seq::new(row_count(b) as nat, |i: int| row_at(b, 4 + 24 * i))
}

fn read_u32(b: &[u8], at: usize) -> (r: u32)
    requires
        at + 4 <= b.len(),
    ensures
        r == le32(b@, at as int),
{
    b[at] as u32 + b[at + 1] as u32 * 0x100 + b[at + 2] as u32 * 0x10000 + b[at + 3] as u32 * 0x1000000
}

/// Reads the rows of a TCP table.
pub fn tcp_rows(table: &[u8]) -> (r: Vec<MIB_TCPROW_OWNER_PID>)
    requires
        table.len() >= 4,
    ensures
        r@ == table_rows(table@),
{
    let count = read_u32(table, 0);
    let mut rows: Vec<MIB_TCPROW_OWNER_PID> = Vec::new();
    let mut index: u64 = 0;
    let mut offset: usize = 4;
    while index < count as u64 && table.len() - offset >= TCP_ROW_SIZE
        invariant
            table.len() >= 4,
            count == le32(table@, 0),
            4 <= offset <= table.len(),
            offset == 4 + 24 * index,
            index <= count,
            index <= (table.len() - 4) / 24,
            rows@ == Seq::new(index as nat, |i: int| row_at(table@, 4 + 24 * i)),
        decreases count - index,
    {
        let row = MIB_TCPROW_OWNER_PID {
            state: read_u32(table, offset),
            local_addr: read_u32(table, offset + 4),
            local_port: read_u32(table, offset + 8),
            remote_addr: read_u32(table, offset + 12),
            remote_port: read_u32(table, offset + 16),
            owning_pid: read_u32(table, offset + 20),
        };
        rows.push(row);
        assert(rows@ =~= Seq::new((index + 1) as nat, |i: int| row_at(table@, 4 + 24 * i)));
        index += 1;
        offset += TCP_ROW_SIZE;
    }
    assert(index == row_count(table@));
    rows
}

} // verus!

verus! {

/// The dotted form of an address held as the system holds it.
pub open spec fn ip_text(v: u32) -> Seq<char> {
    dotted_quad((v % 0x100) as u8, (v / 0x100 % 0x100) as u8, (v / 0x10000 % 0x100) as u8, (v / 0x1000000) as u8)
}

/// The far end of a connection: address and port.
pub open spec fn peer_of(r: MIB_TCPROW_OWNER_PID) -> (Seq<char>, u16) {
    (ip_text(r.remote_addr), port_value(r.remote_port))
}

/// A row names a server in use: established, from one of our addresses,
/// to a real port of an address that is neither loopback nor unspecified.
pub open spec fn peer_wanted(r: MIB_TCPROW_OWNER_PID, local: Seq<Seq<char>>) -> bool {
    &&& r.state == MIB_TCP_STATE_ESTAB
    &&& local.contains(ip_text(r.local_addr))
    &&& port_value(r.remote_port) != 0
    &&& !starts_with(ip_text(r.remote_addr), "127."@)
    &&& ip_text(r.remote_addr) != "0.0.0.0"@
}

/// Walks the rows from `i` on, adding each new peer once, and stops as
/// soon as `limit` peers are known after a wanted row.
pub open spec fn peers_scan(
    rows: Seq<MIB_TCPROW_OWNER_PID>,
    i: int,
    acc: Seq<(Seq<char>, u16)>,
    local: Seq<Seq<char>>,
    limit: nat,
) -> Seq<(Seq<char>, u16)>
    decreases rows.len() - i,
{
    if i < 0 || i >= rows.len() {
        acc
    } else if !peer_wanted(rows[i], local) {
        peers_scan(rows, i + 1, acc, local, limit)
    } else {
        let next = if acc.contains(peer_of(rows[i])) { acc } else { acc.push(peer_of(rows[i])) };
        if next.len() >= limit {
            next
        } else {
            peers_scan(rows, i + 1, next, local, limit)
        }
    }
}

pub open spec fn peer_views(s: Seq<(String, u16)>) -> Seq<(Seq<char>, u16)> {
    s.map_values(|p: (String, u16)| (p.0@, p.1))
}

/// The servers that our addresses talk to, from the system's TCP table.
pub open spec fn peers_view(table: Seq<u8>, local: Seq<Seq<char>>, limit: nat) -> Seq<(Seq<char>, u16)> {
    if local.len() == 0 {
        Seq::empty()
    } else {
        peers_scan(table_rows(table), 0, Seq::empty(), local, limit)
    }
}

fn has_text(list: &Vec<String>, t: &String) -> (r: bool)
    ensures
        r == views(list@).contains(t@),
{
    let mut i: usize = 0;
    while i < list.len()
        invariant
            i <= list.len(),
            forall|k: int| 0 <= k < i ==> list@[k]@ != t@,
        decreases list.len() - i,
    {
        if text_eq(list[i].as_str(), t.as_str()) {
            assert(views(list@)[i as int] == t@);
            return true;
        }
        i += 1;
    }
    assert forall|k: int| 0 <= k < views(list@).len() implies views(list@)[k] != t@ by {}
    false
}

fn has_peer(list: &Vec<(String, u16)>, ip: &String, port: u16) -> (r: bool)
    ensures
        r == peer_views(list@).contains((ip@, port)),
{
    let mut i: usize = 0;
    while i < list.len()
        invariant
            i <= list.len(),
            forall|k: int| 0 <= k < i ==> peer_views(list@)[k] != (ip@, port),
        decreases list.len() - i,
    {
        if list[i].1 == port && text_eq(list[i].0.as_str(), ip.as_str()) {
            assert(peer_views(list@)[i as int] == (ip@, port));
            return true;
        }
        i += 1;
    }
    false
}

fn wanted_peer(row: MIB_TCPROW_OWNER_PID, local_ips: &Vec<String>) -> (r: Option<(String, u16)>)
    ensures
        match r {
            Some(p) => peer_wanted(row, views(local_ips@)) && (p.0@, p.1) == peer_of(row),
            None => !peer_wanted(row, views(local_ips@)),
        },
{
    if row.state != MIB_TCP_STATE_ESTAB {
        return None;
    }
    let here = u32_to_ipv4(row.local_addr);
    if !has_text(local_ips, &here) {
        return None;
    }
    let remote_ip = u32_to_ipv4(row.remote_addr);
    let remote_port = port_of(row.remote_port);
    let remote_chars = chars_of(remote_ip.as_str());
    let loopback = chars_of("127.");
    if remote_port == 0 || match_at(&remote_chars, &loopback, 0) || text_eq(remote_ip.as_str(), "0.0.0.0") {
        return None;
    }
    Some((remote_ip, remote_port))
}

/// The established peers of our local addresses, read from the TCP table
/// the system returned.
pub fn tcp_peers(table: &[u8], local_ips: &Vec<String>, limit: usize) -> (r: Vec<(String, u16)>)
    requires
        table.len() >= 4,
    ensures
        peer_views(r@) == peers_view(table@, views(local_ips@), limit as nat),
{
    let mut peers: Vec<(String, u16)> = Vec::new();
    assert(peer_views(peers@) =~= Seq::<(Seq<char>, u16)>::empty());
    if local_ips.len() == 0 {
        return peers;
    }
    let rows = tcp_rows(table);
    let ghost local = views(local_ips@);
    let mut i: usize = 0;
    while i < rows.len()
        invariant
            i <= rows.len(),
            rows@ == table_rows(table@),
            local == views(local_ips@),
            local.len() > 0,
            peers_view(table@, local, limit as nat) == peers_scan(rows@, i as int, peer_views(peers@), local, limit as nat),
        decreases rows.len() - i,
    {
        match wanted_peer(rows[i], local_ips) {
            Some((ip, port)) => {
                let ghost before = peer_views(peers@);
                if !has_peer(&peers, &ip, port) {
                    peers.push((ip, port));
                    assert(peer_views(peers@) =~= before.push(peer_of(rows@[i as int])));
                }
                if peers.len() >= limit {
                    return peers;
                }
            },
            None => {},
        }
        i += 1;
    }
    peers
}

} // verus!

verus! {

/// The UTF-16 units of a registry value, two bytes each in memory order.
pub open spec fn le_units(b: Seq<u8>) -> Seq<u16> {
    Seq::new(b.len() / 2, |i: int| (b[2 * i] as int + b[2 * i + 1] as int * 256) as u16)
}

/// A `REG_SZ` value as text: its units up to the first zero, with
/// unpaired surrogates replaced.
pub fn reg_string(data: &[u8]) -> (r: String)
    ensures
        r@ == utf16_lossy(until_zero(le_units(data@))),
{
    let mut units: Vec<u16> = Vec::new();
    let mut i: usize = 0;
    while i < data.len() / 2
        invariant
            i <= data.len() / 2,
            units@ == le_units(data@).take(i as int),
        decreases data.len() / 2 - i,
    {
        let unit: u16 = (data[2 * i] as u32 + data[2 * i + 1] as u32 * 256) as u16;
        units.push(unit);
        assert(units@ =~= le_units(data@).take(i + 1));
        i += 1;
    }
    assert(le_units(data@).take(i as int) =~= le_units(data@));
    from_wide(units.as_slice())
}

} // verus!
