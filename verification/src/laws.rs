//! Properties of the library that span its functions: what a parse gives
//! back of the parts a URI was written from, what every successful parse
//! looks like, and how flags, URIs and listen plans fit together.

use vstd::prelude::*;

use crate::decimal::{decimal, lemma_decimal_digits, lemma_parse_decimal, is_digit};
use crate::serve::flags_uri;
use crate::text::{
    find_spec, is_first_occurrence, is_last_occurrence, lemma_find_spec_first,
    lemma_rfind_spec_last, occurs_at,
};
use crate::transport::{
    listen_plan_spec, parse_uri_spec, scheme_spec, split_host_port_spec, UriParts,
};

verus! {

/// The host that a written host stands for: `0.0.0.0` when it is empty.
pub open spec fn host_or_any(h: Seq<char>) -> Seq<char> {
    if h.len() == 0 {
        "0.0.0.0"@
    } else {
        h
    }
}

/// Splitting `host:port`, where the port is written in decimal, gives back
/// the host (or `0.0.0.0` for an empty one) and the port.
pub proof fn law_split_host_port_written(h: Seq<char>, port: u16, default_port: u16)
    ensures
        split_host_port_spec(h + ":"@ + decimal(port as nat), default_port) == Ok::<
            (Seq<char>, u16),
            Seq<char>,
        >((host_or_any(h), port)),
{
    reveal_strlit(":");
    let d = decimal(port as nat);
    lemma_decimal_digits(port as nat);
    lemma_parse_decimal(port);
    let v = h + ":"@ + d;
    let k = h.len() as int;
    assert(v.subrange(k, k + 1) =~= seq![':']);
    assert forall|j: int| k < j implies !occurs_at(v, seq![':'], j) by {
        if occurs_at(v, seq![':'], j) {
            assert(v.subrange(j, j + 1)[0] == v[j]);
            assert(v[j] == d[j - k - 1]);
            assert(is_digit(d[j - k - 1]));
        }
    }
    assert(is_last_occurrence(v, seq![':'], k));
    lemma_rfind_spec_last(v, seq![':'], k);
    assert(v.take(k) =~= h);
    assert(v.skip(k + 1) =~= d);
}

/// The first `://` of a URI that starts with `<name>://`, where the name
/// holds no `:`, is the one right after the name.
pub proof fn lemma_scheme_of_written(name: Seq<char>, rest: Seq<char>)
    requires
        forall|i: int| 0 <= i < name.len() ==> name[i] != ':',
    ensures
        scheme_spec(name + "://"@ + rest) == name,
{
    reveal_strlit("://");
    let u = name + "://"@ + rest;
    let k = name.len() as int;
    assert(u.subrange(k, k + 3) =~= "://"@);
    assert forall|j: int| 0 <= j < k implies !occurs_at(u, "://"@, j) by {
        if occurs_at(u, "://"@, j) {
            assert(u.subrange(j, j + 3)[0] == u[j]);
            assert(u[j] == name[j]);
        }
    }
    assert(is_first_occurrence(u, "://"@, k));
    lemma_find_spec_first(u, "://"@, k);
    assert(u.take(k) =~= name);
}

/// A TCP URI written from a host and a decimal port parses back to that
/// host (or `0.0.0.0` for an empty one) and port.
pub proof fn law_tcp_uri_round_trip(h: Seq<char>, port: u16)
    ensures
        parse_uri_spec("tcp://"@ + h + ":"@ + decimal(port as nat)) == Ok::<UriParts, Seq<char>>(
            UriParts {
                raw: "tcp://"@ + h + ":"@ + decimal(port as nat),
                scheme: "tcp"@,
                host: Some(host_or_any(h)),
                port: Some(port),
                path: None,
                secure: false,
            },
        ),
{
    reveal_strlit("tcp://");
    reveal_strlit("tcp");
    reveal_strlit("://");
    let rest = h + ":"@ + decimal(port as nat);
    let u = "tcp://"@ + h + ":"@ + decimal(port as nat);
    assert(u =~= "tcp"@ + "://"@ + rest);
    lemma_scheme_of_written("tcp"@, rest);
    assert(u.skip(6) =~= rest);
    assert("tcp://"@.is_prefix_of(u));
    law_split_host_port_written(h, port, 9090);
}

/// The path that a written WebSocket path stands for: `/grpc` when it is
/// empty.
pub open spec fn path_or_grpc(path: Seq<char>) -> Seq<char> {
    if path.len() == 0 {
        "/grpc"@
    } else {
        path
    }
}

/// The scheme name of a WebSocket URI.
pub open spec fn ws_name(secure: bool) -> Seq<char> {
    if secure {
        "wss"@
    } else {
        "ws"@
    }
}

/// The port a WebSocket URI listens on when it names none.
pub open spec fn ws_default_port(secure: bool) -> u16 {
    if secure {
        443
    } else {
        80
    }
}

/// A WebSocket URI `name://addr path`, where `addr` holds no `/` and the
/// path is empty or starts with `/`, takes its host and port from `addr`
/// and keeps its path (`/grpc` when empty).
pub proof fn lemma_ws_uri_parts(secure: bool, addr: Seq<char>, path: Seq<char>)
    requires
        forall|i: int| 0 <= i < addr.len() ==> addr[i] != '/',
        path.len() == 0 || path[0] == '/',
    ensures
        ({
            let u = ws_name(secure) + "://"@ + addr + path;
            parse_uri_spec(u) == match split_host_port_spec(addr, ws_default_port(secure)) {
                Err(e) => Err(e),
                Ok((host, port)) => Ok::<UriParts, Seq<char>>(
                    UriParts {
                        raw: u,
                        scheme: ws_name(secure),
                        host: Some(host),
                        port: Some(port),
                        path: Some(path_or_grpc(path)),
                        secure,
                    },
                ),
            }
        }),
{
    reveal_strlit("wss");
    reveal_strlit("ws");
    reveal_strlit("wss://");
    reveal_strlit("ws://");
    reveal_strlit("://");
    let name = ws_name(secure);
    let prefix = if secure {
        "wss://"@
    } else {
        "ws://"@
    };
    let rest = addr + path;
    let u = name + "://"@ + addr + path;
    assert(u =~= name + "://"@ + rest);
    assert(name != "tcp"@ && name != "unix"@ && name != "stdio"@ && name != "mem"@) by {
        reveal_strlit("tcp");
        reveal_strlit("unix");
        reveal_strlit("stdio");
        reveal_strlit("mem");
        assert(name.len() != "tcp"@.len() || name[0] != "tcp"@[0]);
        assert(name.len() != "unix"@.len() || name[0] != "unix"@[0]);
        assert(name.len() != "stdio"@.len() || name[0] != "stdio"@[0]);
        assert(name.len() != "mem"@.len() || name[0] != "mem"@[0]);
    }
    lemma_scheme_of_written(name, rest);
    assert(prefix =~= name + "://"@);
    assert(u.skip(prefix.len() as int) =~= rest);
    assert(prefix.is_prefix_of(u));
    assert((name == "wss"@) == secure);
    let k = addr.len() as int;
    assert forall|j: int| 0 <= j < k implies !occurs_at(rest, seq!['/'], j) by {
        if occurs_at(rest, seq!['/'], j) {
            assert(rest.subrange(j, j + 1)[0] == rest[j]);
            assert(rest[j] == addr[j]);
        }
    }
    if path.len() == 0 {
        assert(rest =~= addr);
        assert forall|j: int| !occurs_at(rest, seq!['/'], j) by {
            if 0 <= j < k {
            }
        }
        assert(find_spec(rest, seq!['/']) is None);
    } else {
        assert(rest.subrange(k, k + 1) =~= seq![path[0]]);
        assert(is_first_occurrence(rest, seq!['/'], k));
        lemma_find_spec_first(rest, seq!['/'], k);
        assert(rest.take(k) =~= addr);
        assert(rest.skip(k) =~= path);
    }
}

/// A WebSocket URI written from a host without `/`, a decimal port and a
/// path that is empty or starts with `/` parses back to those parts, with
/// `0.0.0.0` for an empty host and `/grpc` for an empty path.
pub proof fn law_ws_uri_round_trip(secure: bool, h: Seq<char>, port: u16, path: Seq<char>)
    requires
        forall|i: int| 0 <= i < h.len() ==> h[i] != '/',
        path.len() == 0 || path[0] == '/',
    ensures
        ({
            let u = ws_name(secure) + "://"@ + h + ":"@ + decimal(port as nat) + path;
            parse_uri_spec(u) == Ok::<UriParts, Seq<char>>(
                UriParts {
                    raw: u,
                    scheme: ws_name(secure),
                    host: Some(host_or_any(h)),
                    port: Some(port),
                    path: Some(path_or_grpc(path)),
                    secure,
                },
            )
        }),
{
    reveal_strlit(":");
    let d = decimal(port as nat);
    lemma_decimal_digits(port as nat);
    let addr = h + ":"@ + d;
    assert forall|i: int| 0 <= i < addr.len() implies addr[i] != '/' by {
        if i > h.len() {
            assert(addr[i] == d[i - h.len() - 1]);
            assert(is_digit(d[i - h.len() - 1]));
        }
    }
    lemma_ws_uri_parts(secure, addr, path);
    assert(ws_name(secure) + "://"@ + h + ":"@ + d + path =~= ws_name(secure) + "://"@ + addr
        + path);
    law_split_host_port_written(h, port, ws_default_port(secure));
}

/// A host without `:` is the whole of a `host:port` value: it keeps the
/// default port, and an empty one stands for `0.0.0.0`.
pub proof fn law_split_host_without_port(h: Seq<char>, default_port: u16)
    requires
        forall|i: int| 0 <= i < h.len() ==> h[i] != ':',
    ensures
        split_host_port_spec(h, default_port) == Ok::<(Seq<char>, u16), Seq<char>>(
            (host_or_any(h), default_port),
        ),
{
    assert forall|k: int| !occurs_at(h, seq![':'], k) by {
        if occurs_at(h, seq![':'], k) {
            assert(h.subrange(k, k + 1)[0] == h[k]);
        }
    }
    crate::text::lemma_rfind_spec(h, seq![':']);
}

/// A WebSocket URI that names a host (without `:` or `/`) but no port
/// keeps that host and listens on the scheme's default port (80, or 443
/// for `wss`), with its path (`/grpc` when empty).
pub proof fn law_ws_uri_default_port(secure: bool, h: Seq<char>, path: Seq<char>)
    requires
        forall|i: int| 0 <= i < h.len() ==> h[i] != ':' && h[i] != '/',
        path.len() == 0 || path[0] == '/',
    ensures
        ({
            let u = ws_name(secure) + "://"@ + h + path;
            parse_uri_spec(u) == Ok::<UriParts, Seq<char>>(
                UriParts {
                    raw: u,
                    scheme: ws_name(secure),
                    host: Some(host_or_any(h)),
                    port: Some(ws_default_port(secure)),
                    path: Some(path_or_grpc(path)),
                    secure,
                },
            )
        }),
{
    lemma_ws_uri_parts(secure, h, path);
    law_split_host_without_port(h, ws_default_port(secure));
}

/// A TCP URI that names a host (without `:`) but no port keeps that host
/// (`0.0.0.0` when empty) and listens on port 9090.
pub proof fn law_tcp_uri_default_port(h: Seq<char>)
    requires
        forall|i: int| 0 <= i < h.len() ==> h[i] != ':',
    ensures
        parse_uri_spec("tcp://"@ + h) == Ok::<UriParts, Seq<char>>(
            UriParts {
                raw: "tcp://"@ + h,
                scheme: "tcp"@,
                host: Some(host_or_any(h)),
                port: Some(9090),
                path: None,
                secure: false,
            },
        ),
{
    reveal_strlit("tcp://");
    reveal_strlit("tcp");
    reveal_strlit("://");
    let u = "tcp://"@ + h;
    assert(u =~= "tcp"@ + "://"@ + h);
    lemma_scheme_of_written("tcp"@, h);
    assert(u.skip(6) =~= h);
    assert("tcp://"@.is_prefix_of(u));
    law_split_host_without_port(h, 9090);
}

/// Every non-empty path `p` makes `unix://p` a Unix URI for exactly that
/// path, with no host and no port.
pub proof fn law_unix_uri_path(p: Seq<char>)
    requires
        p.len() > 0,
    ensures
        parse_uri_spec("unix://"@ + p) == Ok::<UriParts, Seq<char>>(
            UriParts {
                raw: "unix://"@ + p,
                scheme: "unix"@,
                host: None,
                port: None,
                path: Some(p),
                secure: false,
            },
        ),
{
    reveal_strlit("unix://");
    reveal_strlit("unix");
    reveal_strlit("://");
    lemma_scheme_names_distinct();
    let u = "unix://"@ + p;
    assert(u =~= "unix"@ + "://"@ + p);
    lemma_scheme_of_written("unix"@, p);
    assert(u.skip(7) =~= p);
    assert("unix://"@.is_prefix_of(u));
}

/// `unix://` with nothing after it is refused.
pub proof fn law_unix_uri_needs_path()
    ensures
        parse_uri_spec("unix://"@) == Err::<UriParts, Seq<char>>(
            "invalid unix URI: "@ + crate::transport::debug_quoted("unix://"@),
        ),
{
    reveal_strlit("unix://");
    reveal_strlit("unix");
    reveal_strlit("://");
    lemma_scheme_names_distinct();
    let u = "unix://"@;
    let e = Seq::<char>::empty();
    assert(u =~= "unix"@ + "://"@ + e);
    lemma_scheme_of_written("unix"@, e);
    assert(u.skip(7) =~= e);
    assert("unix://"@.is_prefix_of(u));
}

/// The URI that `--port P` selects, for a port written in decimal, is a
/// TCP URI on every interface at that port.
pub proof fn law_port_flag_listens_on_port(port: u16, rest: Seq<Seq<char>>)
    ensures
        parse_uri_spec(flags_uri(seq!["--port"@, decimal(port as nat)] + rest)) == Ok::<
            UriParts,
            Seq<char>,
        >(
            UriParts {
                raw: "tcp://:"@ + decimal(port as nat),
                scheme: "tcp"@,
                host: Some("0.0.0.0"@),
                port: Some(port),
                path: None,
                secure: false,
            },
        ),
{
    reveal_strlit("--port");
    reveal_strlit("--listen");
    reveal_strlit("tcp://:");
    reveal_strlit("tcp://");
    reveal_strlit(":");
    let args = seq!["--port"@, decimal(port as nat)] + rest;
    assert(args[0] == "--port"@);
    assert(args[1] == decimal(port as nat));
    assert("--port"@ != "--listen"@) by {
        assert("--port"@[2] != "--listen"@[2]);
    }
    assert(flags_uri(args) == "tcp://:"@ + decimal(port as nat));
    let e = Seq::<char>::empty();
    assert("tcp://:"@ + decimal(port as nat) =~= "tcp://"@ + e + ":"@ + decimal(port as nat));
    law_tcp_uri_round_trip(e, port);
}

/// The scheme names that the library knows are pairwise distinct.
pub proof fn lemma_scheme_names_distinct()
    ensures
        "tcp"@ != "unix"@,
        "tcp"@ != "stdio"@,
        "tcp"@ != "mem"@,
        "tcp"@ != "ws"@,
        "tcp"@ != "wss"@,
        "unix"@ != "stdio"@,
        "unix"@ != "mem"@,
        "unix"@ != "ws"@,
        "unix"@ != "wss"@,
        "stdio"@ != "mem"@,
        "stdio"@ != "ws"@,
        "stdio"@ != "wss"@,
        "mem"@ != "ws"@,
        "mem"@ != "wss"@,
        "ws"@ != "wss"@,
{
    reveal_strlit("wss");
    reveal_strlit("ws");
    reveal_strlit("tcp");
    reveal_strlit("unix");
    reveal_strlit("stdio");
    reveal_strlit("mem");
    assert("tcp"@[0] != "mem"@[0]);
    assert("tcp"@[0] != "wss"@[0]);
    assert("mem"@[0] != "wss"@[0]);
    assert("unix"@[0] != "stdio"@[0]);
    assert("unix"@[0] != "ws"@[0]);
    assert("ws"@.len() != "wss"@.len());
}

/// Every successful parse names the URI's own scheme, is secure exactly
/// for `wss`, gives TCP and WebSocket URIs a host and a port, and gives a
/// Unix URI a non-empty path.
pub proof fn law_parsed_uri_shape(uri: Seq<char>)
    ensures
        parse_uri_spec(uri) matches Ok(p) ==> {
            &&& p.scheme == scheme_spec(uri)
            &&& (p.secure <==> p.scheme == "wss"@)
            &&& (p.scheme == "tcp"@ || p.scheme == "ws"@ || p.scheme == "wss"@) ==> (
            p.host is Some && p.port is Some)
            &&& p.scheme == "unix"@ ==> (p.path matches Some(path) && path.len() > 0)
            &&& (p.scheme == "ws"@ || p.scheme == "wss"@) ==> p.path is Some
        },
{
    lemma_scheme_names_distinct();
}

/// Listening on a URI fails exactly when parsing it fails, and with the
/// same message: every scheme that parses has a listener.
pub proof fn law_listen_fails_only_on_parse_error(uri: Seq<char>)
    ensures
        (listen_plan_spec(uri) is Err) == (parse_uri_spec(uri) is Err),
        parse_uri_spec(uri) matches Err(e) ==> listen_plan_spec(uri) == Err::<
            crate::transport::PlanSpec,
            Seq<char>,
        >(e),
{
}

/// A scheme is the front of its URI, and holds no `://`.
pub proof fn law_scheme_is_prefix(uri: Seq<char>)
    ensures
        scheme_spec(uri).is_prefix_of(uri),
        forall|k: int| !occurs_at(scheme_spec(uri), "://"@, k),
{
    crate::text::lemma_find_spec(uri, "://"@);
    reveal_strlit("://");
    let s = scheme_spec(uri);
    let p = "://"@;
    match find_spec(uri, p) {
        Some(e) => {
            assert(s == uri.take(e));
            assert forall|k: int| !occurs_at(s, p, k) by {
                if occurs_at(s, p, k) {
                    assert(uri.subrange(k, k + p.len()) =~= s.subrange(k, k + p.len()));
                    assert(occurs_at(uri, p, k));
                    assert(k < e);
                }
            }
        },
        None => {
            assert(s == uri);
        },
    }
}

/// `--listen U` selects `U`, whatever follows it.
pub proof fn law_listen_flag_selects_value(u: Seq<char>, rest: Seq<Seq<char>>)
    ensures
        flags_uri(seq!["--listen"@, u] + rest) == u,
{
    let args = seq!["--listen"@, u] + rest;
    assert(args[0] == "--listen"@);
    assert(args[1] == u);
}

/// A command line in which no `--listen` or `--port` is followed by a value
/// selects `DEFAULT_URI`.
pub proof fn law_no_flag_selects_default(args: Seq<Seq<char>>)
    requires
        forall|i: int|
            0 <= i < args.len() - 1 ==> args[i] != "--listen"@ && args[i] != "--port"@,
    ensures
        flags_uri(args) == crate::transport::DEFAULT_URI@,
{
    lemma_no_flag_from(args, 0);
}

proof fn lemma_no_flag_from(args: Seq<Seq<char>>, i: int)
    requires
        0 <= i,
        forall|j: int| 0 <= j < args.len() - 1 ==> args[j] != "--listen"@ && args[j] != "--port"@,
    ensures
        crate::serve::flags_uri_from(args, i) == crate::transport::DEFAULT_URI@,
    decreases args.len() - i,
{
    if i < args.len() {
        lemma_no_flag_from(args, i + 1);
    }
}

/// The front matter that comes back holds no surrounding whitespace.
pub proof fn law_frontmatter_is_trimmed(text: Seq<char>)
    ensures
        crate::identity::frontmatter_spec(text) matches Ok(fm) ==> crate::text::trim_spec(fm)
            == fm,
{
    if let Ok(fm) = crate::identity::frontmatter_spec(text) {
        let body = text.skip(3);
        let end = find_spec(body, "---"@)->0;
        crate::text::lemma_trim_idempotent(body.take(end));
    }
}

/// A text that opens with `---`, then holds a block without `---` that does
/// not end in `-`, then `---`, has that block, trimmed, as its front
/// matter, whatever follows.
pub proof fn law_frontmatter_of_written_block(block: Seq<char>, tail: Seq<char>)
    requires
        forall|k: int| !occurs_at(block, "---"@, k),
        block.len() == 0 || block.last() != '-',
    ensures
        crate::identity::frontmatter_spec("---"@ + block + "---"@ + tail) == Ok::<
            Seq<char>,
            crate::identity::FrontmatterError,
        >(crate::text::trim_spec(block)),
{
    reveal_strlit("---");
    let m = "---"@;
    let text = m + block + m + tail;
    assert(m.is_prefix_of(text)) by {
        assert(text.subrange(0, 3) =~= m);
    }
    let body = text.skip(3);
    assert(body =~= block + m + tail);
    let k = block.len() as int;
    assert(body.subrange(k, k + 3) =~= m);
    assert forall|j: int| 0 <= j < k implies !occurs_at(body, m, j) by {
        if occurs_at(body, m, j) {
            if j + 3 <= k {
                assert(block.subrange(j, j + 3) =~= body.subrange(j, j + 3));
                assert(occurs_at(block, m, j));
            } else {
                assert(body.subrange(j, j + 3)[k - 1 - j] == body[k - 1]);
                assert(body[k - 1] == block.last());
            }
        }
    }
    assert(is_first_occurrence(body, m, k));
    lemma_find_spec_first(body, m, k);
    assert(body.take(k) =~= block);
}

/// Listening on a TCP URI written from a host and a decimal port binds
/// `host:port`, with `0.0.0.0` for an empty host.
pub proof fn law_tcp_listen_address(h: Seq<char>, port: u16)
    ensures
        listen_plan_spec("tcp://"@ + h + ":"@ + decimal(port as nat)) == Ok::<
            crate::transport::PlanSpec,
            Seq<char>,
        >(crate::transport::PlanSpec::Tcp(host_or_any(h) + ":"@ + decimal(port as nat))),
{
    law_tcp_uri_round_trip(h, port);
}

/// Listening keeps what parsing found: a WebSocket listener gets the
/// parsed host, port, path and security; a TCP listener binds the parsed
/// `host:port`; a Unix listener binds the parsed path; stdio and mem URIs
/// give their own listeners.
pub proof fn law_listen_plan_keeps_parsed_parts(uri: Seq<char>)
    ensures
        parse_uri_spec(uri) matches Ok(p) ==> {
            &&& ((p.scheme == "ws"@ || p.scheme == "wss"@) && p.host is Some && p.port is Some
                && p.path is Some) ==> listen_plan_spec(uri) == Ok::<
                crate::transport::PlanSpec,
                Seq<char>,
            >(
                crate::transport::PlanSpec::Ws {
                    host: p.host->0,
                    port: p.port->0,
                    path: p.path->0,
                    secure: p.secure,
                },
            )
            &&& (p.scheme == "tcp"@ && p.host is Some && p.port is Some) ==> listen_plan_spec(uri)
                == Ok::<crate::transport::PlanSpec, Seq<char>>(
                crate::transport::PlanSpec::Tcp(p.host->0 + ":"@ + decimal(p.port->0 as nat)),
            )
            &&& (p.scheme == "unix"@ && p.path is Some) ==> listen_plan_spec(uri) == Ok::<
                crate::transport::PlanSpec,
                Seq<char>,
            >(crate::transport::PlanSpec::Unix(p.path->0))
            &&& p.scheme == "stdio"@ ==> listen_plan_spec(uri) == Ok::<
                crate::transport::PlanSpec,
                Seq<char>,
            >(crate::transport::PlanSpec::Stdio)
            &&& p.scheme == "mem"@ ==> listen_plan_spec(uri) == Ok::<
                crate::transport::PlanSpec,
                Seq<char>,
            >(crate::transport::PlanSpec::Mem)
        },
{
    lemma_scheme_names_distinct();
}

/// The first `--listen` or `--port` that has a value after it decides the
/// URI, wherever it stands: `--listen U` selects `U`, `--port P` selects
/// `tcp://:P`.
pub proof fn law_first_flag_selects(args: Seq<Seq<char>>, i: int)
    requires
        0 <= i,
        i + 1 < args.len(),
        args[i] == "--listen"@ || args[i] == "--port"@,
        forall|j: int| 0 <= j < i ==> args[j] != "--listen"@ && args[j] != "--port"@,
    ensures
        flags_uri(args) == (if args[i] == "--listen"@ {
            args[i + 1]
        } else {
            "tcp://:"@ + args[i + 1]
        }),
{
    lemma_flags_from_before(args, i, 0);
}

proof fn lemma_flags_from_before(args: Seq<Seq<char>>, i: int, j: int)
    requires
        0 <= j <= i,
        i + 1 < args.len(),
        args[i] == "--listen"@ || args[i] == "--port"@,
        forall|k: int| 0 <= k < i ==> args[k] != "--listen"@ && args[k] != "--port"@,
    ensures
        crate::serve::flags_uri_from(args, j) == (if args[i] == "--listen"@ {
            args[i + 1]
        } else {
            "tcp://:"@ + args[i + 1]
        }),
    decreases i - j,
{
    if j < i {
        lemma_flags_from_before(args, i, j + 1);
    }
}

/// A URI without `://` is its own scheme.
pub proof fn law_scheme_without_separator(uri: Seq<char>)
    requires
        forall|k: int| !occurs_at(uri, "://"@, k),
    ensures
        scheme_spec(uri) == uri,
{
}

/// Of the URIs without `://`, only `stdio` and `mem` parse, as
/// `stdio://` and `mem://`.
pub proof fn law_uri_without_separator(uri: Seq<char>)
    requires
        forall|k: int| !occurs_at(uri, "://"@, k),
    ensures
        (parse_uri_spec(uri) is Ok) == (uri == "stdio"@ || uri == "mem"@),
        uri == "stdio"@ ==> (parse_uri_spec(uri) matches Ok(p) && p.raw == "stdio://"@),
        uri == "mem"@ ==> (parse_uri_spec(uri) matches Ok(p) && p.raw == "mem://"@),
{
    reveal_strlit("tcp://");
    reveal_strlit("unix://");
    reveal_strlit("ws://");
    reveal_strlit("wss://");
    reveal_strlit("mem://");
    reveal_strlit("tcp");
    reveal_strlit("unix");
    reveal_strlit("ws");
    reveal_strlit("wss");
    reveal_strlit("mem");
    reveal_strlit("://");
    lemma_scheme_names_distinct();
    let names = seq!["tcp"@, "unix"@, "ws"@, "wss"@, "mem"@];
    assert forall|n: Seq<char>| #[trigger] names.contains(n) implies !(n + "://"@).is_prefix_of(
        uri,
    ) by {
        if (n + "://"@).is_prefix_of(uri) {
            let k = n.len() as int;
            assert(uri.subrange(k, k + 3) =~= (n + "://"@).subrange(k, k + 3));
            assert((n + "://"@).subrange(k, k + 3) =~= "://"@);
            assert(occurs_at(uri, "://"@, k));
        }
    }
    assert(names.contains("tcp"@) && names.contains("unix"@) && names.contains("ws"@)
        && names.contains("wss"@) && names.contains("mem"@)) by {
        assert(names[0] == "tcp"@);
        assert(names[1] == "unix"@);
        assert(names[2] == "ws"@);
        assert(names[3] == "wss"@);
        assert(names[4] == "mem"@);
    }
    assert("tcp://"@ =~= "tcp"@ + "://"@);
    assert("unix://"@ =~= "unix"@ + "://"@);
    assert("ws://"@ =~= "ws"@ + "://"@);
    assert("wss://"@ =~= "wss"@ + "://"@);
    assert("mem://"@ =~= "mem"@ + "://"@);
}

/// Every `stdio://…` URI parses as the stdio transport, written `stdio://`.
pub proof fn law_stdio_uri(rest: Seq<char>)
    ensures
        parse_uri_spec("stdio://"@ + rest) == Ok::<UriParts, Seq<char>>(
            UriParts {
                raw: "stdio://"@,
                scheme: "stdio"@,
                host: None,
                port: None,
                path: None,
                secure: false,
            },
        ),
{
    reveal_strlit("stdio://");
    reveal_strlit("stdio");
    reveal_strlit("://");
    lemma_scheme_names_distinct();
    assert("stdio://"@ + rest =~= "stdio"@ + "://"@ + rest);
    lemma_scheme_of_written("stdio"@, rest);
}

/// Every `mem://…` URI parses as the mem transport and keeps its text.
pub proof fn law_mem_uri(rest: Seq<char>)
    ensures
        parse_uri_spec("mem://"@ + rest) == Ok::<UriParts, Seq<char>>(
            UriParts {
                raw: "mem://"@ + rest,
                scheme: "mem"@,
                host: None,
                port: None,
                path: None,
                secure: false,
            },
        ),
{
    reveal_strlit("mem://");
    reveal_strlit("mem");
    reveal_strlit("://");
    lemma_scheme_names_distinct();
    let u = "mem://"@ + rest;
    assert(u =~= "mem"@ + "://"@ + rest);
    lemma_scheme_of_written("mem"@, rest);
    assert(u.subrange(0, 6) =~= "mem://"@);
}

/// A scheme that the library does not know is refused, naming the URI.
pub proof fn law_unknown_scheme_refused(uri: Seq<char>)
    requires
        scheme_spec(uri) != "tcp"@,
        scheme_spec(uri) != "unix"@,
        scheme_spec(uri) != "stdio"@,
        scheme_spec(uri) != "mem"@,
        scheme_spec(uri) != "ws"@,
        scheme_spec(uri) != "wss"@,
    ensures
        parse_uri_spec(uri) == Err::<UriParts, Seq<char>>(
            "unsupported transport URI: "@ + crate::transport::debug_quoted(uri),
        ),
        listen_plan_spec(uri) == Err::<crate::transport::PlanSpec, Seq<char>>(
            "unsupported transport URI: "@ + crate::transport::debug_quoted(uri),
        ),
{
}

/// A TCP URI whose port text (after the last `:`) is not empty and is not
/// a `u16` is refused, naming the address.
pub proof fn law_tcp_bad_port_refused(h: Seq<char>, t: Seq<char>)
    requires
        t.len() > 0,
        forall|i: int| 0 <= i < t.len() ==> t[i] != ':',
        crate::decimal::parse_u16_spec(t) is None,
    ensures
        parse_uri_spec("tcp://"@ + h + ":"@ + t) == Err::<UriParts, Seq<char>>(
            "invalid port in URI: "@ + crate::transport::debug_quoted(h + ":"@ + t),
        ),
{
    reveal_strlit("tcp://");
    reveal_strlit("tcp");
    reveal_strlit("://");
    reveal_strlit(":");
    let addr = h + ":"@ + t;
    let u = "tcp://"@ + h + ":"@ + t;
    assert(u =~= "tcp"@ + "://"@ + addr);
    lemma_scheme_of_written("tcp"@, addr);
    assert(u.skip(6) =~= addr);
    assert("tcp://"@.is_prefix_of(u));
    let k = h.len() as int;
    assert(addr.subrange(k, k + 1) =~= seq![':']);
    assert forall|j: int| k < j implies !occurs_at(addr, seq![':'], j) by {
        if occurs_at(addr, seq![':'], j) {
            assert(addr.subrange(j, j + 1)[0] == addr[j]);
            assert(addr[j] == t[j - k - 1]);
        }
    }
    assert(is_last_occurrence(addr, seq![':'], k));
    lemma_rfind_spec_last(addr, seq![':'], k);
    assert(addr.skip(k + 1) =~= t);
}

/// A `host:` value with an empty port keeps the host (`0.0.0.0` when
/// empty) and takes the default port.
pub proof fn law_split_empty_port(h: Seq<char>, default_port: u16)
    ensures
        split_host_port_spec(h + ":"@, default_port) == Ok::<(Seq<char>, u16), Seq<char>>(
            (host_or_any(h), default_port),
        ),
{
    reveal_strlit(":");
    let v = h + ":"@;
    let k = h.len() as int;
    assert(v.subrange(k, k + 1) =~= seq![':']);
    assert(is_last_occurrence(v, seq![':'], k));
    lemma_rfind_spec_last(v, seq![':'], k);
    assert(v.take(k) =~= h);
    assert(v.skip(k + 1) =~= Seq::<char>::empty());
}

/// Trimming removes exactly the whitespace at both ends: the result is a
/// contiguous part of the text, everything before and after it is
/// whitespace, and it neither starts nor ends with whitespace.
pub proof fn law_trim_removes_only_outer_whitespace(s: Seq<char>)
    ensures
        exists|lo: int, hi: int|
            {
                &&& 0 <= lo <= hi <= s.len()
                &&& crate::text::trim_spec(s) == s.subrange(lo, hi)
                &&& forall|i: int| 0 <= i < lo ==> crate::text::is_whitespace(#[trigger] s[i])
                &&& forall|i: int| hi <= i < s.len() ==> crate::text::is_whitespace(#[trigger] s[i])
            },
        crate::text::trim_spec(s).len() == 0 || (!crate::text::is_whitespace(
            crate::text::trim_spec(s)[0],
        ) && !crate::text::is_whitespace(crate::text::trim_spec(s).last())),
{
    let a = crate::text::trim_start_spec(s);
    crate::text::lemma_trim_start_shape(s);
    crate::text::lemma_trim_end_shape(a);
    let lo = choose|k: int|
        0 <= k <= s.len() && a == s.skip(k) && forall|i: int|
            0 <= i < k ==> crate::text::is_whitespace(#[trigger] s[i]);
    let m = choose|k: int|
        0 <= k <= a.len() && crate::text::trim_end_spec(a) == a.take(k) && forall|i: int|
            k <= i < a.len() ==> crate::text::is_whitespace(#[trigger] a[i]);
    let hi = lo + m;
    assert(a.take(m) =~= s.subrange(lo, hi));
    assert forall|i: int| hi <= i < s.len() implies crate::text::is_whitespace(#[trigger] s[i]) by {
        assert(s[i] == a[i - lo]);
    }
    let b = crate::text::trim_end_spec(a);
    if b.len() > 0 {
        assert(b[0] == a[0]);
    }
}

/// Reading a decimal writing gives its number when it fits in a `u16`,
/// with or without a leading `+`, and fails when it does not fit.
pub proof fn law_parse_u16_reads_decimal(m: nat)
    ensures
        crate::decimal::parse_u16_spec(decimal(m)) == (if m <= u16::MAX {
            Some(m as u16)
        } else {
            None
        }),
        crate::decimal::parse_u16_spec(seq!['+'] + decimal(m)) == (if m <= u16::MAX {
            Some(m as u16)
        } else {
            None
        }),
{
    lemma_decimal_digits(m);
    assert((seq!['+'] + decimal(m)).drop_first() =~= decimal(m));
}

/// A leading zero does not change what a run of digits reads as.
pub proof fn law_parse_u16_leading_zero(s: Seq<char>)
    requires
        s.len() > 0,
        crate::decimal::all_digits(s),
    ensures
        crate::decimal::parse_u16_spec(seq!['0'] + s) == crate::decimal::parse_u16_spec(s),
{
    lemma_leading_zero_value(s);
    let z = seq!['0'] + s;
    assert(crate::decimal::all_digits(z)) by {
        assert forall|i: int| 0 <= i < z.len() implies is_digit(#[trigger] z[i]) by {
            if i > 0 {
                assert(z[i] == s[i - 1]);
            }
        }
    }
    assert(s[0] != '+') by {
        assert(is_digit(s[0]));
    }
}

proof fn lemma_leading_zero_value(s: Seq<char>)
    ensures
        crate::decimal::digits_value(seq!['0'] + s) == crate::decimal::digits_value(s),
    decreases s.len(),
{
    let z = seq!['0'] + s;
    if s.len() == 0 {
        assert(z.drop_last() =~= Seq::<char>::empty());
        assert(crate::decimal::digits_value(Seq::<char>::empty()) == 0);
    } else {
        lemma_leading_zero_value(s.drop_last());
        assert(z.drop_last() =~= seq!['0'] + s.drop_last());
        assert(z.last() == s.last());
    }
}

/// Only an optional `+` followed by digits reads as a `u16`.
pub proof fn law_parse_u16_only_digits(s: Seq<char>)
    ensures
        crate::decimal::parse_u16_spec(s) is Some ==> {
            &&& exists|i: int| 0 <= i < s.len() && is_digit(#[trigger] s[i])
            &&& forall|i: int|
                0 <= i < s.len() ==> is_digit(#[trigger] s[i]) || (i == 0 && s[i] == '+')
        },
{
    if crate::decimal::parse_u16_spec(s) is Some {
        let d = if s.len() > 0 && s[0] == '+' {
            s.drop_first()
        } else {
            s
        };
        if s.len() > 0 && s[0] == '+' {
            assert(s[1] == d[0]);
            assert(is_digit(d[0]));
            assert forall|i: int| 0 <= i < s.len() implies is_digit(#[trigger] s[i]) || (i == 0
                && s[i] == '+') by {
                if i > 0 {
                    assert(s[i] == d[i - 1]);
                }
            }
        } else {
            assert(is_digit(s[0]));
        }
    }
}

/// A text that does not start with `-` has no front matter.
pub proof fn law_frontmatter_missing(text: Seq<char>)
    requires
        text.len() == 0 || text[0] != '-',
    ensures
        crate::identity::frontmatter_spec(text) == Err::<
            Seq<char>,
            crate::identity::FrontmatterError,
        >(crate::identity::FrontmatterError::Missing),
{
    reveal_strlit("---");
    if "---"@.is_prefix_of(text) {
        assert(text[0] == "---"@[0]);
    }
}

/// A text that opens with `---` and holds no other `---` after it is
/// unterminated.
pub proof fn law_frontmatter_unterminated(body: Seq<char>)
    requires
        forall|k: int| !occurs_at(body, "---"@, k),
    ensures
        crate::identity::frontmatter_spec("---"@ + body) == Err::<
            Seq<char>,
            crate::identity::FrontmatterError,
        >(crate::identity::FrontmatterError::Unterminated),
{
    reveal_strlit("---");
    let text = "---"@ + body;
    assert(text.subrange(0, 3) =~= "---"@);
    assert(text.skip(3) =~= body);
}

} // verus!
