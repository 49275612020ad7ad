//! The client side of HTTP: where a request goes, what it says, and how the
//! bytes of the reply become events of an incoming message.

use vstd::prelude::*;
use crate::headers::{with_header, HeaderList, HeadersView};
use crate::request::{Request, RequestView};
use crate::text::{parse_decimal, parse_unsigned};

verus! {

/// The parts of a URL that a connection needs.
pub struct UrlParts {
    pub host: Option<String>,
    pub port: Option<u16>,
    pub path: String,
}

pub type UrlPartsView = (Option<Seq<char>>, Option<u16>, Seq<char>);

pub open spec fn url_parts_view(p: Option<UrlParts>) -> Option<UrlPartsView> {
    match p {
        Some(u) => Some(
            (
                match u.host {
                    Some(h) => Some(h@),
                    None => None,
                },
                u.port,
                u.path@,
            ),
        ),
        None => None,
    }
}

/// What the url crate reads out of `s`: host, port (or the scheme's default)
/// and path, or nothing where `s` is not a URL.
pub uninterp spec fn url_parts_of(s: Seq<char>) -> Option<UrlPartsView>;

/// Relies on `url::Url::parse`, read back through `host_str`,
/// `port_or_known_default` and `path`; the result depends on the text alone.
#[verifier::external_body]
fn parse_url(s: &str) -> (r: Option<UrlParts>)
    ensures
        url_parts_view(r) == url_parts_of(s@),
{
    url::Url::parse(s).ok().map(
        |u| UrlParts {
            host: u.host_str().map(|h| h.to_string()),
            port: u.port_or_known_default(),
            path: u.path().to_string(),
        },
    )
}

/// Where a request goes.
pub struct Target {
    pub host: String,
    pub port: u16,
    pub path: String,
}

pub type TargetView = (Seq<char>, u16, Seq<char>);

#[derive(PartialEq, Eq, Structural, Clone, Copy, Debug)]
pub enum UrlError {
    /// The text is not a URL.
    Malformed,
    /// The URL names no host.
    NoHost,
}

pub open spec fn target_view(r: Result<Target, UrlError>) -> Result<TargetView, UrlError> {
    match r {
        Ok(t) => Ok((t.host@, t.port, t.path@)),
        Err(e) => Err(e),
    }
}

/// The target of a URL: its host, its port (80 where neither the URL nor its
/// scheme gives one) and its path.
pub open spec fn target_spec(parts: Option<UrlPartsView>) -> Result<TargetView, UrlError> {
    match parts {
        None => Err(UrlError::Malformed),
        Some((host, port, path)) => match host {
            None => Err(UrlError::NoHost),
            Some(h) => Ok(
                (
                    h,
                    match port {
                        Some(p) => p,
                        None => 80,
                    },
                    path,
                ),
            ),
        },
    }
}

/// The target named by parsed URL parts.
pub fn target_from_parts(parts: Option<UrlParts>) -> (r: Result<Target, UrlError>)
    ensures
        target_view(r) == target_spec(url_parts_view(parts)),
{
    match parts {
        None => Err(UrlError::Malformed),
        Some(u) => match u.host {
            None => Err(UrlError::NoHost),
            Some(h) => {
                let port: u16 = match u.port {
                    Some(p) => p,
                    None => 80,
                };
                Ok(Target { host: h, port, path: u.path })
            },
        },
    }
}

/// The target of the URL text `url`.
pub fn resolve_target(url: &str) -> (r: Result<Target, UrlError>)
    ensures
        target_view(r) == target_spec(url_parts_of(url@)),
{
    let parts = parse_url(url);
    target_from_parts(parts)
}

pub open spec fn host_name() -> Seq<char> {
    seq!['H', 'o', 's', 't']
}

pub open spec fn connection_name() -> Seq<char> {
    seq!['C', 'o', 'n', 'n', 'e', 'c', 't', 'i', 'o', 'n']
}

pub open spec fn close_value() -> Seq<char> {
    seq!['c', 'l', 'o', 's', 'e']
}

pub open spec fn get_method() -> Seq<char> {
    seq!['G', 'E', 'T']
}

/// The headers every client request starts with: `Host` and `Connection: close`.
pub open spec fn base_headers(host: Seq<char>) -> HeadersView {
    with_header(with_header(Seq::empty(), host_name(), host), connection_name(), close_value())
}

/// The headers of a client request: the base ones, then `extra` in order.
pub open spec fn client_headers(host: Seq<char>, extra: HeadersView) -> HeadersView
    decreases extra.len(),
{
    if extra.len() == 0 {
        base_headers(host)
    } else {
        with_header(client_headers(host, extra.drop_last()), extra.last().0, extra.last().1)
    }
}

fn base_header_list(host: &String) -> (r: HeaderList)
    ensures
        r.wf(),
        r@ == base_headers(host@),
{
    let mut h = HeaderList::new();
    proof {
        reveal_strlit("Host");
        reveal_strlit("Connection");
        reveal_strlit("close");
    }
    h.set(String::from_str("Host"), host.clone());
    h.set(String::from_str("Connection"), String::from_str("close"));
    proof {
        assert("Host"@ =~= host_name());
        assert("Connection"@ =~= connection_name());
        assert("close"@ =~= close_value());
    }
    h
}

/// The request that `http.get` writes: `GET <path>` with `Host` and `Connection: close`.
pub fn get_request(target: &Target) -> (r: Request)
    ensures
        r.wf(),
        r@ == (RequestView {
            method: get_method(),
            url: target.path@,
            headers: base_headers(target.host@),
            body: Seq::empty(),
            sent: false,
        }),
{
    proof {
        reveal_strlit("GET");
        assert("GET"@ =~= get_method());
    }
    let h = base_header_list(&target.host);
    Request::new(String::from_str("GET"), target.path.clone(), h, Vec::new())
}

/// The options of `http.request`, as the script gave them.
pub struct RequestOptions {
    pub hostname: String,
    pub port: Option<String>,
    pub method: Option<String>,
    pub path: Option<String>,
    pub headers: HeaderList,
}

/// The port an option text names: a number from 0 to 65535, else 80.
pub open spec fn port_from_text(t: Option<Seq<char>>) -> u16 {
    match t {
        Some(s) => match parse_unsigned(s, 65535) {
            Some(p) => p as u16,
            None => 80,
        },
        None => 80,
    }
}

pub open spec fn opt_or(t: Option<String>, d: Seq<char>) -> Seq<char> {
    match t {
        Some(s) => s@,
        None => d,
    }
}

pub open spec fn opt_seq(t: Option<String>) -> Option<Seq<char>> {
    match t {
        Some(s) => Some(s@),
        None => None,
    }
}

/// Where `http.request` goes: the host, the port (80 unless the option names
/// one), the path (`/` unless given).
pub open spec fn planned_target(o: RequestOptions) -> TargetView {
    (o.hostname@, port_from_text(opt_seq(o.port)), opt_or(o.path, seq!['/']))
}

/// What `http.request` will send: the method (GET unless given), the path,
/// the base headers and then the option headers.
pub open spec fn planned_request(o: RequestOptions) -> RequestView {
    RequestView {
        method: opt_or(o.method, get_method()),
        url: opt_or(o.path, seq!['/']),
        headers: client_headers(o.hostname@, o.headers@),
        body: Seq::empty(),
        sent: false,
    }
}

/// Plans `http.request`: the target, and the request to send once the script
/// ends it.
pub fn plan_request(options: RequestOptions) -> (r: (Target, Request))
    requires
        options.headers.wf(),
    ensures
        r.1.wf(),
        (r.0.host@, r.0.port, r.0.path@) == planned_target(options),
        r.1@ == planned_request(options),
{
    proof {
        reveal_strlit("GET");
        reveal_strlit("/");
        assert("GET"@ =~= get_method());
        assert("/"@ =~= seq!['/']);
    }
    let port: u16 = match &options.port {
        Some(t) => match parse_decimal(t.as_str(), 65535) {
            Some(p) => p as u16,
            None => 80,
        },
        None => 80,
    };
    let method = match options.method {
        Some(m) => m,
        None => String::from_str("GET"),
    };
    let path = match options.path {
        Some(p) => p,
        None => String::from_str("/"),
    };
    let mut h = base_header_list(&options.hostname);
    let n = options.headers.len();
    let mut i: usize = 0;
    while i < n
        invariant
            n == options.headers@.len(),
            i <= n,
            h.wf(),
            h@ == client_headers(options.hostname@, options.headers@.subrange(0, i as int)),
        decreases n - i,
    {
        let (k, v) = options.headers.entry(i);
        h.set(k.clone(), v.clone());
        proof {
            let s = options.headers@.subrange(0, i as int + 1);
            assert(s.drop_last() =~= options.headers@.subrange(0, i as int));
        }
        i = i + 1;
    }
    proof {
        assert(options.headers@.subrange(0, n as int) =~= options.headers@);
    }
    let target = Target { host: options.hostname, port, path: path.clone() };
    (target, Request::new(method, path, h, Vec::new()))
}

} // verus!
