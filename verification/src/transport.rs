//! Transport URIs: which transport a URI names and where it listens.
//!
//! Supported transport URIs:
//!   - `tcp://<host>:<port>` — TCP socket (default: `tcp://:9090`)
//!   - `unix://<path>`       — Unix domain socket
//!   - `stdio://`            — stdin/stdout pipe
//!   - `mem://`              — in-process duplex channel (testing)
//!   - `ws://<host>:<port>`  — WebSocket URI surface
//!   - `wss://<host>:<port>` — WebSocket-over-TLS URI surface

use vstd::prelude::*;

use crate::decimal::{parse_u16, parse_u16_spec};
use crate::text::{
    find, find_char, find_spec, rfind_char, rfind_spec, str_eq, strip_prefix, strip_prefix_spec,
};

verus! {

/// Default transport URI when `--listen` is omitted.
pub const DEFAULT_URI: &'static str = "tcp://:9090";

/// What `format!("{:?}", s)` writes for the string `s`: the string in
/// double quotes, with its special characters escaped.
pub uninterp spec fn debug_quoted(s: Seq<char>) -> Seq<char>;

/// Calls std's `Debug` formatting for `str`. The contract claims only that
/// the output is a function of the string's characters, named
/// `debug_quoted`; the escaping rules themselves are left unstated.
#[verifier::external_body]
fn quote_debug(s: &str) -> (r: String)
    ensures
        r@ == debug_quoted(s@),
{
    format!("{:?}", s)
}

/// An error message: `prefix` followed by the quoted `value`.
fn message_with_quoted(prefix: &str, value: &str) -> (r: String)
    ensures
        r@ == prefix@ + debug_quoted(value@),
{
    let mut m = prefix.to_owned();
    let q = quote_debug(value);
    m.append(q.as_str());
    m
}

/// The parts of a parsed transport URI, as plain values.
pub struct UriParts {
    pub raw: Seq<char>,
    pub scheme: Seq<char>,
    pub host: Option<Seq<char>>,
    pub port: Option<u16>,
    pub path: Option<Seq<char>>,
    pub secure: bool,
}

/// Parsed transport URI.
#[derive(Debug, Clone, PartialEq, Eq)]
pub struct ParsedURI {
    pub raw: String,
    pub scheme: String,
    pub host: Option<String>,
    pub port: Option<u16>,
    pub path: Option<String>,
    pub secure: bool,
}

impl View for ParsedURI {
    type V = UriParts;

    open spec fn view(&self) -> UriParts {
        UriParts {
            raw: self.raw@,
            scheme: self.scheme@,
            host: self.host.deep_view(),
            port: self.port,
            path: self.path.deep_view(),
            secure: self.secure,
        }
    }
}

/// The transport scheme of `uri`: what comes before the first `://`, or the
/// whole of `uri` when it holds none.
pub open spec fn scheme_spec(uri: Seq<char>) -> Seq<char> {
    match find_spec(uri, "://"@) {
        Some(k) => uri.take(k),
        None => uri,
    }
}

/// Host and port of `value`, split at its last `:`. An empty value, an
/// empty host or an empty port takes the defaults `0.0.0.0` and
/// `default_port`; a port that is not a `u16` is an error.
pub open spec fn split_host_port_spec(value: Seq<char>, default_port: u16) -> Result<
    (Seq<char>, u16),
    Seq<char>,
> {
    if value.len() == 0 {
        Ok(("0.0.0.0"@, default_port))
    } else {
        match rfind_spec(value, seq![':']) {
            Some(k) => {
                let host = value.take(k);
                let port_text = value.skip(k + 1);
                let host = if host.len() == 0 {
                    "0.0.0.0"@
                } else {
                    host
                };
                if port_text.len() == 0 {
                    Ok((host, default_port))
                } else {
                    match parse_u16_spec(port_text) {
                        Some(port) => Ok((host, port)),
                        None => Err("invalid port in URI: "@ + debug_quoted(value)),
                    }
                }
            },
            None => Ok((value, default_port)),
        }
    }
}

/// The result of parsing `uri`.
pub open spec fn parse_uri_spec(uri: Seq<char>) -> Result<UriParts, Seq<char>> {
    let s = scheme_spec(uri);
    if s == "tcp"@ {
        match strip_prefix_spec(uri, "tcp://"@) {
            None => Err("invalid tcp URI: "@ + debug_quoted(uri)),
            Some(addr) => match split_host_port_spec(addr, 9090) {
                Err(e) => Err(e),
                Ok((host, port)) => Ok(
                    UriParts {
                        raw: uri,
                        scheme: "tcp"@,
                        host: Some(host),
                        port: Some(port),
                        path: None,
                        secure: false,
                    },
                ),
            },
        }
    } else if s == "unix"@ {
        match strip_prefix_spec(uri, "unix://"@) {
            None => Err("invalid unix URI: "@ + debug_quoted(uri)),
            Some(path) => if path.len() == 0 {
                Err("invalid unix URI: "@ + debug_quoted(uri))
            } else {
                Ok(
                    UriParts {
                        raw: uri,
                        scheme: "unix"@,
                        host: None,
                        port: None,
                        path: Some(path),
                        secure: false,
                    },
                )
            },
        }
    } else if s == "stdio"@ {
        Ok(
            UriParts {
                raw: "stdio://"@,
                scheme: "stdio"@,
                host: None,
                port: None,
                path: None,
                secure: false,
            },
        )
    } else if s == "mem"@ {
        Ok(
            UriParts {
                raw: if "mem://"@.is_prefix_of(uri) {
                    uri
                } else {
                    "mem://"@
                },
                scheme: "mem"@,
                host: None,
                port: None,
                path: None,
                secure: false,
            },
        )
    } else if s == "ws"@ || s == "wss"@ {
        let secure = s == "wss"@;
        match strip_prefix_spec(
            uri,
            if secure {
                "wss://"@
            } else {
                "ws://"@
            },
        ) {
            None => Err("invalid ws URI: "@ + debug_quoted(uri)),
            Some(rest) => {
                let (addr, path) = match find_spec(rest, seq!['/']) {
                    Some(k) => (rest.take(k), rest.skip(k)),
                    None => (rest, "/grpc"@),
                };
                match split_host_port_spec(
                    addr,
                    if secure {
                        443
                    } else {
                        80
                    },
                ) {
                    Err(e) => Err(e),
                    Ok((host, port)) => Ok(
                        UriParts {
                            raw: uri,
                            scheme: s,
                            host: Some(host),
                            port: Some(port),
                            path: Some(path),
                            secure,
                        },
                    ),
                }
            },
        }
    } else {
        Err("unsupported transport URI: "@ + debug_quoted(uri))
    }
}

/// Extract the transport scheme from a URI.
pub fn scheme(uri: &str) -> (r: &str)
    ensures
        r@ == scheme_spec(uri@),
{
    match find(uri, "://") {
        Some(k) => {
            proof {
                crate::text::lemma_find_spec(uri@, "://"@);
            }
            uri.substring_char(0, k)
        },
        None => uri,
    }
}

/// Splits `host:port` at the last `:`, filling in `0.0.0.0` and
/// `default_port` where a part is missing.
pub fn split_host_port(value: &str, default_port: u16) -> (r: Result<(String, u16), String>)
    ensures
        match r {
            Ok((host, port)) => split_host_port_spec(value@, default_port) == Ok::<
                (Seq<char>, u16),
                Seq<char>,
            >((host@, port)),
            Err(e) => split_host_port_spec(value@, default_port) == Err::<(Seq<char>, u16), Seq<char>>(e@),
        },
{
    let n = value.unicode_len();
    if n == 0 {
        return Ok(("0.0.0.0".to_owned(), default_port));
    }
    match rfind_char(value, ':') {
        Some(k) => {
            proof {
                crate::text::lemma_rfind_spec(value@, seq![':']);
            }
            let host = value.substring_char(0, k);
            let port_text = value.substring_char(k + 1, n);
            let host_out = if host.unicode_len() == 0 {
                "0.0.0.0".to_owned()
            } else {
                host.to_owned()
            };
            let port = if port_text.unicode_len() == 0 {
                default_port
            } else {
                match parse_u16(port_text) {
                    Some(p) => p,
                    None => {
                        return Err(message_with_quoted("invalid port in URI: ", value));
                    },
                }
            };
            Ok((host_out, port))
        },
        None => Ok((value.to_owned(), default_port)),
    }
}

/// The parsing result as plain values: the parts on success, the message
/// on failure.
pub open spec fn parsed_view(r: Result<ParsedURI, String>) -> Result<UriParts, Seq<char>> {
    match r {
        Ok(p) => Ok(p@),
        Err(e) => Err(e@),
    }
}

/// Parse a URI into a normalized structure.
pub fn parse_uri(uri: &str) -> (r: Result<ParsedURI, String>)
    ensures
        parsed_view(r) == parse_uri_spec(uri@),
{
    let s = scheme(uri);
    if str_eq(s, "tcp") {
        let addr = match strip_prefix(uri, "tcp://") {
            Some(a) => a,
            None => {
                return Err(message_with_quoted("invalid tcp URI: ", uri));
            },
        };
        let (host, port) = match split_host_port(addr, 9090) {
            Ok(hp) => hp,
            Err(e) => {
                return Err(e);
            },
        };
        Ok(
            ParsedURI {
                raw: uri.to_owned(),
                scheme: "tcp".to_owned(),
                host: Some(host),
                port: Some(port),
                path: None,
                secure: false,
            },
        )
    } else if str_eq(s, "unix") {
        let path = match strip_prefix(uri, "unix://") {
            Some(p) => p,
            None => {
                return Err(message_with_quoted("invalid unix URI: ", uri));
            },
        };
        if path.unicode_len() == 0 {
            return Err(message_with_quoted("invalid unix URI: ", uri));
        }
        Ok(
            ParsedURI {
                raw: uri.to_owned(),
                scheme: "unix".to_owned(),
                host: None,
                port: None,
                path: Some(path.to_owned()),
                secure: false,
            },
        )
    } else if str_eq(s, "stdio") {
        Ok(
            ParsedURI {
                raw: "stdio://".to_owned(),
                scheme: "stdio".to_owned(),
                host: None,
                port: None,
                path: None,
                secure: false,
            },
        )
    } else if str_eq(s, "mem") {
        let raw = if crate::text::starts_with(uri, "mem://") {
            uri.to_owned()
        } else {
            "mem://".to_owned()
        };
        Ok(
            ParsedURI {
                raw,
                scheme: "mem".to_owned(),
                host: None,
                port: None,
                path: None,
                secure: false,
            },
        )
    } else if str_eq(s, "ws") || str_eq(s, "wss") {
        let secure = str_eq(s, "wss");
        let prefix = if secure {
            "wss://"
        } else {
            "ws://"
        };
        let rest = match strip_prefix(uri, prefix) {
            Some(t) => t,
            None => {
                return Err(message_with_quoted("invalid ws URI: ", uri));
            },
        };
        let (addr, path) = match find_char(rest, '/') {
            Some(k) => {
                proof {
                    crate::text::lemma_find_spec(rest@, seq!['/']);
                }
                let n = rest.unicode_len();
                (rest.substring_char(0, k), rest.substring_char(k, n).to_owned())
            },
            None => (rest, "/grpc".to_owned()),
        };
        let default_port: u16 = if secure {
            443
        } else {
            80
        };
        let (host, port) = match split_host_port(addr, default_port) {
            Ok(hp) => hp,
            Err(e) => {
                return Err(e);
            },
        };
        Ok(
            ParsedURI {
                raw: uri.to_owned(),
                scheme: s.to_owned(),
                host: Some(host),
                port: Some(port),
                path: Some(path),
                secure,
            },
        )
    } else {
        Err(message_with_quoted("unsupported transport URI: ", uri))
    }
}

/// Lightweight ws/wss listener metadata.
#[derive(Debug, Clone, PartialEq, Eq)]
pub struct WSListener {
    pub host: String,
    pub port: u16,
    pub path: String,
    pub secure: bool,
}

/// What listening on a URI binds or creates.
#[derive(Debug)]
pub enum ListenPlan {
    /// A TCP listener bound to this `host:port` address.
    Tcp(String),
    /// A Unix domain socket listener bound to this path.
    Unix(String),
    /// The stdin/stdout pipe.
    Stdio,
    /// An in-process listener.
    Mem,
    /// WebSocket listener metadata.
    Ws(WSListener),
}

/// A listen plan as plain values.
pub enum PlanSpec {
    Tcp(Seq<char>),
    Unix(Seq<char>),
    Stdio,
    Mem,
    Ws { host: Seq<char>, port: u16, path: Seq<char>, secure: bool },
}

impl View for ListenPlan {
    type V = PlanSpec;

    open spec fn view(&self) -> PlanSpec {
        match self {
            ListenPlan::Tcp(a) => PlanSpec::Tcp(a@),
            ListenPlan::Unix(p) => PlanSpec::Unix(p@),
            ListenPlan::Stdio => PlanSpec::Stdio,
            ListenPlan::Mem => PlanSpec::Mem,
            ListenPlan::Ws(w) => PlanSpec::Ws {
                host: w.host@,
                port: w.port,
                path: w.path@,
                secure: w.secure,
            },
        }
    }
}

/// `o`'s value, or `d` when it has none.
pub open spec fn value_or<T>(o: Option<T>, d: T) -> T {
    match o {
        Some(v) => v,
        None => d,
    }
}

/// What listening on the parsed URI `p` binds or creates, or `None` for a
/// scheme that has no listener.
pub open spec fn plan_spec(p: UriParts) -> Option<PlanSpec> {
    if p.scheme == "tcp"@ {
        Some(
            PlanSpec::Tcp(
                value_or(p.host, "0.0.0.0"@) + ":"@ + crate::decimal::decimal(
                    value_or(p.port, 9090u16) as nat,
                ),
            ),
        )
    } else if p.scheme == "unix"@ {
        Some(PlanSpec::Unix(value_or(p.path, Seq::<char>::empty())))
    } else if p.scheme == "stdio"@ {
        Some(PlanSpec::Stdio)
    } else if p.scheme == "mem"@ {
        Some(PlanSpec::Mem)
    } else if p.scheme == "ws"@ || p.scheme == "wss"@ {
        Some(
            PlanSpec::Ws {
                host: value_or(p.host, "0.0.0.0"@),
                port: value_or(
                    p.port,
                    if p.secure {
                        443u16
                    } else {
                        80u16
                    },
                ),
                path: value_or(p.path, "/grpc"@),
                secure: p.secure,
            },
        )
    } else {
        None
    }
}

/// What listening on `uri` binds or creates, or the message it fails with.
pub open spec fn listen_plan_spec(uri: Seq<char>) -> Result<PlanSpec, Seq<char>> {
    match parse_uri_spec(uri) {
        Err(e) => Err(e),
        Ok(p) => match plan_spec(p) {
            Some(plan) => Ok(plan),
            None => Err("unsupported transport URI: "@ + debug_quoted(uri)),
        },
    }
}

/// Decide what listening on `uri` binds or creates.
pub fn listen_plan(uri: &str) -> (r: Result<ListenPlan, String>)
    ensures
        match r {
            Ok(plan) => listen_plan_spec(uri@) == Ok::<PlanSpec, Seq<char>>(plan@),
            Err(e) => listen_plan_spec(uri@) == Err::<PlanSpec, Seq<char>>(e@),
        },
{
    let parsed = match parse_uri(uri) {
        Ok(p) => p,
        Err(e) => {
            return Err(e);
        },
    };
    let ghost parts = parsed@;
    let ParsedURI { raw: _, scheme, host, port, path, secure } = parsed;
    if str_eq(scheme.as_str(), "tcp") {
        let mut addr = match host {
            Some(h) => h,
            None => "0.0.0.0".to_owned(),
        };
        let port = match port {
            Some(p) => p,
            None => 9090,
        };
        addr.append(":");
        addr.append(crate::decimal::decimal_string(port).as_str());
        Ok(ListenPlan::Tcp(addr))
    } else if str_eq(scheme.as_str(), "unix") {
        let path = match path {
            Some(p) => p,
            None => String::new(),
        };
        Ok(ListenPlan::Unix(path))
    } else if str_eq(scheme.as_str(), "stdio") {
        Ok(ListenPlan::Stdio)
    } else if str_eq(scheme.as_str(), "mem") {
        Ok(ListenPlan::Mem)
    } else if str_eq(scheme.as_str(), "ws") || str_eq(scheme.as_str(), "wss") {
        let host = match host {
            Some(h) => h,
            None => "0.0.0.0".to_owned(),
        };
        let port = match port {
            Some(p) => p,
            None => if secure {
                443
            } else {
                80
            },
        };
        let path = match path {
            Some(p) => p,
            None => "/grpc".to_owned(),
        };
        Ok(ListenPlan::Ws(WSListener { host, port, path, secure }))
    } else {
        Err(message_with_quoted("unsupported transport URI: ", uri))
    }
}

} // verus!
