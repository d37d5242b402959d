//! Text decisions of the network client: the referer sent with requests and the
//! message kept from a failed request.

use vstd::prelude::*;
use vstd::string::StringExecFns;
use crate::colo::has_infix;
use crate::text::{chars_of, push_char};
use crate::traits::NetworkError;

verus! {

/// The ASCII serialization of the origin of the URL `url`, as `reqwest::Url` parses it;
/// nothing when it does not parse.
pub uninterp spec fn url_origin(url: Seq<char>) -> Option<Seq<char>>;

/// Calls `reqwest::Url::parse(url)` and, when it parses, `origin().ascii_serialization()`.
/// The contract names that result as a function of the text; URL parsing is left unsaid.
#[verifier::external_body]
fn parse_url_origin(url: &str) -> (r: Option<String>)
    ensures
        match r {
            Some(o) => url_origin(url@) == Some(o@),
            None => url_origin(url@) == None::<Seq<char>>,
        },
{
    match reqwest::Url::parse(url) {
        Ok(u) => Some(u.origin().ascii_serialization()),
        Err(_) => None,
    }
}

/// What `reqwest::Url` makes of the URL `url`: the text of the parse error when it
/// does not parse, else its host, if it has one.
pub uninterp spec fn url_host(url: Seq<char>) -> Result<Option<Seq<char>>, Seq<char>>;

/// Calls `reqwest::Url::parse(url)`; on success `host_str()`, on failure the error's
/// `Display` text. The contract names that result as a function of the text; URL
/// parsing itself is left unsaid.
#[verifier::external_body]
fn parse_url_host(url: &str) -> (r: Result<Option<String>, String>)
    ensures
        match r {
            Ok(Some(h)) => url_host(url@) == Ok::<Option<Seq<char>>, Seq<char>>(Some(h@)),
            Ok(None) => url_host(url@) == Ok::<Option<Seq<char>>, Seq<char>>(None),
            Err(t) => url_host(url@) == Err::<Option<Seq<char>>, Seq<char>>(t@),
        },
{
    match reqwest::Url::parse(url) {
        Ok(u) => Ok(u.host_str().map(|h| h.to_string())),
        Err(e) => Err(e.to_string()),
    }
}

/// The message of the error given for a URL that does not name a host to connect to,
/// or nothing when it names one.
pub open spec fn host_error(url: Seq<char>) -> Option<Seq<char>> {
    match url_host(url) {
        Err(t) => Some("Invalid URL: "@ + t),
        Ok(None) => Some("Invalid URL: missing host"@),
        Ok(Some(_)) => None,
    }
}

/// The host that requests to `url` resolve to the probed address; `Other` with the
/// reason when the URL does not parse or has no host.
pub fn request_host(url: &str) -> (r: Result<String, NetworkError>)
    ensures
        match r {
            Ok(h) => url_host(url@) == Ok::<Option<Seq<char>>, Seq<char>>(Some(h@)),
            Err(NetworkError::Other(m)) => host_error(url@) == Some(m@),
            Err(_) => false,
        },
{
    match parse_url_host(url) {
        Ok(Some(h)) => Ok(h),
        Ok(None) => Err(NetworkError::Other("Invalid URL: missing host".to_owned())),
        Err(t) => {
            let mut m = "Invalid URL: ".to_owned();
            m.append(t.as_str());
            Err(NetworkError::Other(m))
        },
    }
}

/// Whether an HTTP status is a success (`2xx`).
pub open spec fn is_success(status: u16) -> bool {
    200 <= status < 300
}

/// Accepts a download whose response status is a success; any other status is
/// refused with `HttpStatus`.
pub fn download_status(status: u16) -> (r: Result<(), NetworkError>)
    ensures
        r matches Ok(_) <==> is_success(status),
        r matches Err(e) ==> e == NetworkError::HttpStatus(status),
{
    if 200 <= status && status < 300 {
        Ok(())
    } else {
        Err(NetworkError::HttpStatus(status))
    }
}

/// The network client; it holds no state of its own.
#[derive(Debug, Clone, Default)]
pub struct Client;

impl Client {
    /// A new client.
    pub fn new() -> (c: Self)
        ensures
            c == Client,
    {
        Client
    }
}

/// The referer for requests to `url`: its origin followed by `/`, or the URL itself
/// when it does not parse or its origin is opaque (`null`).
pub open spec fn referer(url: Seq<char>) -> Seq<char> {
    match url_origin(url) {
        Some(o) => if o != "null"@ {
            o + "/"@
        } else {
            url
        },
        None => url,
    }
}

/// The referer for requests to `url`.
pub fn referer_for(url: &str) -> (r: String)
    ensures
        r@ == referer(url@),
{
    if let Some(origin) = parse_url_origin(url) {
        let oc = chars_of(origin.as_str());
        let null = chars_of("null");
        if !same_chars(&oc, &null) {
            let mut r = origin;
            r.append("/");
            return r;
        }
    }
    url.to_owned()
}

/// Whether two character sequences are equal.
fn same_chars(a: &Vec<char>, b: &Vec<char>) -> (r: bool)
    ensures
        r == (a@ == b@),
{
    if a.len() != b.len() {
        return false;
    }
    let mut i: usize = 0;
    while i < a.len()
        invariant
            a@.len() == b@.len(),
            i <= a@.len(),
            forall|j: int| 0 <= j < i ==> a@[j] == b@[j],
        decreases a.len() - i,
    {
        if a[i] != b[i] {
            return false;
        }
        i = i + 1;
    }
    assert(a@ =~= b@);
    true
}

/// Whether `s[at..]` begins with `p`.
fn chars_at(s: &Vec<char>, at: usize, p: &Vec<char>) -> (r: bool)
    requires
        at <= s@.len(),
    ensures
        r == (p@.len() <= s@.len() - at && s@.subrange(at as int, at + p@.len()) == p@),
{
    let slen = s.len();
    if p.len() > slen - at {
        return false;
    }
    let mut i: usize = 0;
    while i < p.len()
        invariant
            slen == s@.len(),
            at <= slen,
            p@.len() <= s@.len() - at,
            i <= p@.len(),
            forall|j: int| 0 <= j < i ==> s@[at + j] == p@[j],
        decreases p.len() - i,
    {
        if s[at + i] != p[i] {
            assert(s@.subrange(at as int, at + p@.len())[i as int] != p@[i as int]);
            return false;
        }
        i = i + 1;
    }
    assert(s@.subrange(at as int, at + p@.len()) =~= p@);
    true
}

/// Whether `needle` occurs in `s` at `i`.
pub open spec fn occurs_at(s: Seq<char>, needle: Seq<char>, i: int) -> bool {
    0 <= i <= s.len() - needle.len() && s.subrange(i, i + needle.len()) == needle
}

/// Where `needle` first occurs in `s`.
pub open spec fn first_occurrence(s: Seq<char>, needle: Seq<char>) -> Option<int> {
    if exists|i: int| #[trigger] occurs_at(s, needle, i) {
        Some(choose|i: int| occurs_at(s, needle, i) && forall|j: int| 0 <= j < i ==> !occurs_at(s, needle, j))
    } else {
        None
    }
}

/// Where `p` first occurs in `s`.
fn find_chars(s: &Vec<char>, p: &Vec<char>) -> (r: Option<usize>)
    ensures
        match r {
            Some(i) => occurs_at(s@, p@, i as int) && forall|j: int| 0 <= j < i ==> !occurs_at(s@, p@, j),
            None => forall|j: int| !occurs_at(s@, p@, j),
        },
{
    let slen = s.len();
    let plen = p.len();
    if plen > slen {
        return None;
    }
    let last = slen - plen;
    let mut i: usize = 0;
    loop
        invariant
            slen == s@.len(),
            plen == p@.len(),
            last == slen - plen,
            i <= last,
            forall|j: int| 0 <= j < i ==> !occurs_at(s@, p@, j),
        decreases last - i,
    {
        if chars_at(s, i, p) {
            return Some(i);
        }
        if i == last {
            return None;
        }
        i = i + 1;
    }
}

/// The message without everything up to the first `"): "`.
pub open spec fn after_paren(msg: Seq<char>) -> Seq<char> {
    match first_occurrence(msg, "): "@) {
        Some(p) => msg.skip(p + 3),
        None => msg,
    }
}

/// The message without a leading `client error (Connect): ` or, failing that,
/// `client error: `.
pub open spec fn without_client_prefix(msg: Seq<char>) -> Seq<char> {
    let a = "client error (Connect): "@;
    let b = "client error: "@;
    if a.len() <= msg.len() && msg.take(a.len() as int) == a {
        msg.skip(a.len() as int)
    } else if b.len() <= msg.len() && msg.take(b.len() as int) == b {
        msg.skip(b.len() as int)
    } else {
        msg
    }
}

/// The message with each cause appended after `": "` unless already in it.
pub open spec fn with_causes(msg: Seq<char>, causes: Seq<Seq<char>>) -> Seq<char>
    decreases causes.len(),
{
    if causes.len() == 0 {
        msg
    } else {
        let m = if has_infix(msg, causes[0]) {
            msg
        } else {
            msg + ": "@ + causes[0]
        };
        with_causes(m, causes.drop_first())
    }
}

/// The views of some strings.
pub open spec fn views(v: Seq<String>) -> Seq<Seq<char>> {
    Seq::new(v.len(), |i: int| v[i]@)
}

/// The message kept from a failed request: `超时` when it timed out, else its text
/// trimmed of the client's prefixes, followed by the causes it does not already name.
pub open spec fn error_text(timed_out: bool, msg: Seq<char>, causes: Seq<Seq<char>>) -> Seq<char> {
    if timed_out {
        "超时"@
    } else {
        with_causes(without_client_prefix(after_paren(msg)), causes)
    }
}

/// Appends `cs[a..]` to `out`.
fn push_from(out: &mut Vec<char>, cs: &Vec<char>, a: usize)
    requires
        a <= cs@.len(),
    ensures
        final(out)@ == old(out)@ + cs@.skip(a as int),
{
    let mut i = a;
    while i < cs.len()
        invariant
            a <= i <= cs@.len(),
            out@ == old(out)@ + cs@.subrange(a as int, i as int),
        decreases cs.len() - i,
    {
        out.push(cs[i]);
        i = i + 1;
        assert(out@ =~= old(out)@ + cs@.subrange(a as int, i as int));
    }
    assert(cs@.subrange(a as int, i as int) =~= cs@.skip(a as int));
}

/// Whether `p` occurs in `s`.
fn occurs_in(s: &Vec<char>, p: &Vec<char>) -> (r: bool)
    ensures
        r == has_infix(s@, p@),
{
    match find_chars(s, p) {
        Some(i) => {
            assert(occurs_at(s@, p@, i as int));
            true
        },
        None => {
            assert forall|i: int| 0 <= i <= s@.len() - p@.len() implies #[trigger] s@.subrange(i, i + p@.len()) != p@ by {
                assert(!occurs_at(s@, p@, i));
            }
            false
        },
    }
}

/// The message without everything up to the first `"): "`.
fn cut_after_paren(cs: &Vec<char>) -> (m: Vec<char>)
    ensures
        m@ == after_paren(cs@),
{
    let mut m: Vec<char> = Vec::new();
    let paren = chars_of("): ");
    proof {
        reveal_strlit("): ");
    }
    let n = cs.len();
    match find_chars(cs, &paren) {
        Some(p) => {
            proof {
                assert(first_occurrence(cs@, paren@) == Some(p as int)) by {
                    assert(occurs_at(cs@, paren@, p as int));
                    let c = choose|i: int|
                        occurs_at(cs@, paren@, i) && forall|j: int|
                            0 <= j < i ==> !occurs_at(cs@, paren@, j);
                    if c < p {
                        assert(!occurs_at(cs@, paren@, c));
                    }
                    if p < c {
                        assert(!occurs_at(cs@, paren@, p as int));
                    }
                }
            }
            push_from(&mut m, cs, p + 3);
        },
        None => {
            proof {
                assert(!exists|i: int| #[trigger] occurs_at(cs@, paren@, i));
            }
            push_from(&mut m, cs, 0);
            assert(cs@.skip(0) =~= cs@);
        },
    }
    assert(m@ =~= after_paren(cs@));
    m
}

/// The message without a leading `client error (Connect): ` or `client error: `.
fn cut_client_prefix(m: &Vec<char>) -> (cur: Vec<char>)
    ensures
        cur@ == without_client_prefix(m@),
{
    let pa = chars_of("client error (Connect): ");
    let pb = chars_of("client error: ");
    let mut cur: Vec<char> = Vec::new();
    let a_here = chars_at(m, 0, &pa);
    assert(a_here == (pa@.len() <= m@.len() && m@.take(pa@.len() as int) == pa@)) by {
        if pa@.len() <= m@.len() {
            assert(m@.subrange(0, pa@.len() as int) =~= m@.take(pa@.len() as int));
        }
    }
    let b_here = chars_at(m, 0, &pb);
    assert(b_here == (pb@.len() <= m@.len() && m@.take(pb@.len() as int) == pb@)) by {
        if pb@.len() <= m@.len() {
            assert(m@.subrange(0, pb@.len() as int) =~= m@.take(pb@.len() as int));
        }
    }
    if a_here {
        push_from(&mut cur, m, pa.len());
    } else if b_here {
        push_from(&mut cur, m, pb.len());
    } else {
        push_from(&mut cur, m, 0);
        assert(m@.skip(0) =~= m@);
    }
    cur
}

/// The message with each cause appended after `": "` unless already in it.
fn add_causes(cur: Vec<char>, causes: &Vec<String>) -> (r: Vec<char>)
    ensures
        r@ == with_causes(cur@, views(causes@)),
{
    let mut cur = cur;
    let ghost start = cur@;
    let sep = chars_of(": ");
    let mut k: usize = 0;
    let ghost all = views(causes@);
    proof {
        assert(all.skip(0) =~= all);
    }
    while k < causes.len()
        invariant
            k <= causes@.len(),
            all == views(causes@),
            sep@ == ": "@,
            with_causes(cur@, all.skip(k as int)) == with_causes(start, all),
        decreases causes.len() - k,
    {
        let src = chars_of(causes[k].as_str());
        proof {
            assert(all.skip(k as int).drop_first() =~= all.skip(k + 1));
            assert(all.skip(k as int)[0] == src@);
        }
        if !occurs_in(&cur, &src) {
            let ghost before = cur@;
            push_from(&mut cur, &sep, 0);
            push_from(&mut cur, &src, 0);
            assert(sep@.skip(0) =~= sep@);
            assert(src@.skip(0) =~= src@);
            assert(cur@ =~= before + ": "@ + src@);
        }
        k = k + 1;
    }
    proof {
        assert(all.skip(k as int) =~= Seq::<Seq<char>>::empty());
    }
    cur
}

/// The string of some characters.
fn string_of(cur: &Vec<char>) -> (out: String)
    ensures
        out@ == cur@,
{
    let mut out = String::new();
    let n = cur.len();
    let mut i: usize = 0;
    while i < n
        invariant
            n == cur@.len(),
            i <= n,
            out@ == cur@.take(i as int),
        decreases n - i,
    {
        push_char(&mut out, cur[i]);
        i = i + 1;
        assert(out@ =~= cur@.take(i as int));
    }
    assert(cur@.take(n as int) =~= cur@);
    out
}

/// The message kept from a failed request, from whether it timed out, its text and
/// the texts of its chain of causes.
pub fn format_error_text(timed_out: bool, msg: &str, causes: &Vec<String>) -> (r: String)
    ensures
        r@ == error_text(timed_out, msg@, views(causes@)),
{
    if timed_out {
        return "超时".to_owned();
    }
    let cs = chars_of(msg);
    let m = cut_after_paren(&cs);
    let cur = cut_client_prefix(&m);
    let all = add_causes(cur, causes);
    string_of(&all)
}

} // verus!
