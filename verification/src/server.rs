//! Request routing: authentication, the read-only rule, and which WebDAV
//! operation a request asks for; plus the answers to failed operations.
use vstd::prelude::*;
use vstd::utf8::*;

use crate::auth::{basic_auth_matches, basic_auth_spec};
use crate::config::EffectiveConfig;
use crate::dav::options;
use crate::events::ServerEvent;
use crate::fs_backend::{ErrorKind, FsError};
use crate::http::{header_pairs, Request, Response};
use crate::text::{chars_of, find, owned, push_str, same_text, string_of_range};

verus! {

/// What the dashboard shows about a running server.
#[derive(Debug, Clone)]
pub struct ServerInfo {
    pub folder: String,
    pub bind_host: String,
    pub display_host: String,
    pub port: u16,
    pub name: String,
    pub read_only: bool,
    pub auth_enabled: bool,
    pub username: String,
    pub password: Option<String>,
    pub tui_enabled: bool,
    pub tui_refresh_ms: u64,
}

impl ServerInfo {
    /// The description of a server running with `config`, reachable at
    /// `display_host` and listening on `port`.
    pub fn describe(config: &EffectiveConfig, display_host: String, port: u16) -> (i: ServerInfo)
        ensures
            i.folder@ == config.folder@,
            i.bind_host@ == config.server.host@,
            i.display_host == display_host,
            i.port == port,
            i.name@ == config.server.name@,
            i.read_only == config.server.read_only,
            i.auth_enabled == config.auth.enabled,
            i.username@ == config.auth.username@,
            crate::auth::opt_chars(i.password) == crate::auth::opt_chars(config.auth.password),
            i.tui_enabled == config.tui.enabled,
            i.tui_refresh_ms == config.tui.refresh_ms,
    {
        ServerInfo {
            folder: config.folder.clone(),
            bind_host: config.server.host.clone(),
            display_host,
            port,
            name: config.server.name.clone(),
            read_only: config.server.read_only,
            auth_enabled: config.auth.enabled,
            username: config.auth.username.clone(),
            password: match &config.auth.password {
                Some(p) => Some(p.clone()),
                None => None,
            },
            tui_enabled: config.tui.enabled,
            tui_refresh_ms: config.tui.refresh_ms,
        }
    }
}

/// What the server does with a request.
pub enum Action {
    /// Answer at once with this response.
    Respond(Response),
    Propfind,
    GetOrHead,
    Put,
    Mkcol,
    Delete,
    Copy,
    Move,
}

/// The methods that change the share.
pub open spec fn is_write_method(m: Seq<char>) -> bool {
    m == "PUT"@ || m == "DELETE"@ || m == "MKCOL"@ || m == "COPY"@ || m == "MOVE"@
}

/// The `Authorization` header of a request, if it has one.
pub open spec fn authorization(request: Request) -> Option<Seq<char>> {
    if request.headers.view().contains_key("authorization"@) {
        Some(request.headers.view()["authorization"@])
    } else {
        None
    }
}

/// Whether an answer is the plain-text response `text` with this status.
pub open spec fn is_text_response(r: Response, status: u16, reason: &str, text: Seq<char>) -> bool {
    &&& r.status == status
    &&& r.reason == reason
    &&& header_pairs(r.headers@) == seq![("Content-Type"@, "text/plain; charset=utf-8"@)]
    &&& r.body@ == encode_utf8(text)
}

/// The answer to a request without valid credentials.
pub open spec fn is_unauthorized_response(r: Response) -> bool {
    &&& r.status == 401
    &&& r.reason == "Unauthorized"
    &&& header_pairs(r.headers@) == seq![
        ("Content-Type"@, "text/plain; charset=utf-8"@),
        ("WWW-Authenticate"@, "Basic realm=\"davbox\""@),
    ]
    &&& r.body@ == encode_utf8("Authentication required"@)
}

/// The answer to `OPTIONS`: `204 No Content`, advertising WebDAV classes 1 and
/// 2 and the methods the server takes, with no body.
pub open spec fn is_options_response(r: Response) -> bool {
    &&& r.status == 204
    &&& r.reason == "No Content"
    &&& header_pairs(r.headers@) == seq![
        ("DAV"@, "1,2"@),
        ("Allow"@, "OPTIONS, PROPFIND, GET, HEAD, PUT, DELETE, MKCOL, COPY, MOVE"@),
    ]
    &&& r.body@.len() == 0
}

/// The operation a method names, for an authorized request that the
/// read-only rule lets through.
pub open spec fn dispatch_spec(method: Seq<char>, a: Action) -> bool {
    if method == "OPTIONS"@ {
        a matches Action::Respond(r) && is_options_response(r)
    } else if method == "PROPFIND"@ {
        a is Propfind
    } else if method == "GET"@ || method == "HEAD"@ {
        a is GetOrHead
    } else if method == "PUT"@ {
        a is Put
    } else if method == "MKCOL"@ {
        a is Mkcol
    } else if method == "DELETE"@ {
        a is Delete
    } else if method == "COPY"@ {
        a is Copy
    } else if method == "MOVE"@ {
        a is Move
    } else {
        a matches Action::Respond(r) && is_text_response(
            r,
            405,
            "Method Not Allowed",
            "Method not allowed"@,
        )
    }
}

/// Decides what to do with a request: refuse it without valid credentials
/// (401), refuse writes to a read-only share (403), else the operation its
/// method names; `OPTIONS` and unknown methods are answered at once.
pub fn route(config: &EffectiveConfig, request: &Request) -> (a: Action)
    ensures
        !basic_auth_spec(authorization(*request), config.auth) ==> (a matches Action::Respond(r)
            && is_unauthorized_response(r)),
        basic_auth_spec(authorization(*request), config.auth) && config.server.read_only
            && is_write_method(request.method@) ==> (a matches Action::Respond(r)
            && is_text_response(r, 403, "Forbidden", "Read-only share"@)),
        basic_auth_spec(authorization(*request), config.auth) && !(config.server.read_only
            && is_write_method(request.method@)) ==> dispatch_spec(request.method@, a),
        basic_auth_spec(authorization(*request), config.auth) && request.method@ == "PROPFIND"@
            ==> a is Propfind,
        basic_auth_spec(authorization(*request), config.auth) && (request.method@ == "GET"@
            || request.method@ == "HEAD"@) ==> a is GetOrHead,
        basic_auth_spec(authorization(*request), config.auth) && request.method@ == "OPTIONS"@
            ==> (a matches Action::Respond(r) && is_options_response(r)),
{
    proof {
        reveal_strlit("PUT");
        reveal_strlit("DELETE");
        reveal_strlit("MKCOL");
        reveal_strlit("COPY");
        reveal_strlit("MOVE");
        reveal_strlit("OPTIONS");
        reveal_strlit("PROPFIND");
        reveal_strlit("GET");
        reveal_strlit("HEAD");
        lemma_method_names_distinct();
    }
    let header = match request.headers.get("authorization") {
        Some(h) => Some(h.as_str()),
        None => None,
    };
    if !basic_auth_matches(header, &config.auth) {
        let r = Response::text(401, "Unauthorized", "Authentication required").with_header(
            "WWW-Authenticate",
            "Basic realm=\"davbox\"",
        );
        assert(header_pairs(r.headers@) =~= seq![
            ("Content-Type"@, "text/plain; charset=utf-8"@),
            ("WWW-Authenticate"@, "Basic realm=\"davbox\""@),
        ]);
        return Action::Respond(r);
    }
    let m = request.method.as_str();
    let write = same_text(m, "PUT") || same_text(m, "DELETE") || same_text(m, "MKCOL")
        || same_text(m, "COPY") || same_text(m, "MOVE");
    if config.server.read_only && write {
        return Action::Respond(Response::text(403, "Forbidden", "Read-only share"));
    }
    if same_text(m, "OPTIONS") {
        Action::Respond(options())
    } else if same_text(m, "PROPFIND") {
        Action::Propfind
    } else if same_text(m, "GET") || same_text(m, "HEAD") {
        Action::GetOrHead
    } else if same_text(m, "PUT") {
        Action::Put
    } else if same_text(m, "MKCOL") {
        Action::Mkcol
    } else if same_text(m, "DELETE") {
        Action::Delete
    } else if same_text(m, "COPY") {
        Action::Copy
    } else if same_text(m, "MOVE") {
        Action::Move
    } else {
        Action::Respond(Response::text(405, "Method Not Allowed", "Method not allowed"))
    }
}

/// The method names the router knows are all different.
proof fn lemma_method_names_distinct()
    ensures
        "PUT"@ != "DELETE"@,
        "PUT"@ != "MKCOL"@,
        "PUT"@ != "COPY"@,
        "PUT"@ != "MOVE"@,
        "PUT"@ != "OPTIONS"@,
        "PUT"@ != "PROPFIND"@,
        "PUT"@ != "GET"@,
        "PUT"@ != "HEAD"@,
        "DELETE"@ != "MKCOL"@,
        "DELETE"@ != "COPY"@,
        "DELETE"@ != "MOVE"@,
        "DELETE"@ != "OPTIONS"@,
        "DELETE"@ != "PROPFIND"@,
        "DELETE"@ != "GET"@,
        "DELETE"@ != "HEAD"@,
        "MKCOL"@ != "COPY"@,
        "MKCOL"@ != "MOVE"@,
        "MKCOL"@ != "OPTIONS"@,
        "MKCOL"@ != "PROPFIND"@,
        "MKCOL"@ != "GET"@,
        "MKCOL"@ != "HEAD"@,
        "COPY"@ != "MOVE"@,
        "COPY"@ != "OPTIONS"@,
        "COPY"@ != "PROPFIND"@,
        "COPY"@ != "GET"@,
        "COPY"@ != "HEAD"@,
        "MOVE"@ != "OPTIONS"@,
        "MOVE"@ != "PROPFIND"@,
        "MOVE"@ != "GET"@,
        "MOVE"@ != "HEAD"@,
        "OPTIONS"@ != "PROPFIND"@,
        "OPTIONS"@ != "GET"@,
        "OPTIONS"@ != "HEAD"@,
        "PROPFIND"@ != "GET"@,
        "PROPFIND"@ != "HEAD"@,
        "GET"@ != "HEAD"@,
{
    reveal_strlit("PUT");
    reveal_strlit("DELETE");
    reveal_strlit("MKCOL");
    reveal_strlit("COPY");
    reveal_strlit("MOVE");
    reveal_strlit("OPTIONS");
    reveal_strlit("PROPFIND");
    reveal_strlit("GET");
    reveal_strlit("HEAD");
    assert("PUT"@ != "DELETE"@) by {
        assert("PUT"@.len() != "DELETE"@.len());
    }
    assert("PUT"@ != "MKCOL"@) by {
        assert("PUT"@.len() != "MKCOL"@.len());
    }
    assert("PUT"@ != "COPY"@) by {
        assert("PUT"@.len() != "COPY"@.len());
    }
    assert("PUT"@ != "MOVE"@) by {
        assert("PUT"@.len() != "MOVE"@.len());
    }
    assert("PUT"@ != "OPTIONS"@) by {
        assert("PUT"@.len() != "OPTIONS"@.len());
    }
    assert("PUT"@ != "PROPFIND"@) by {
        assert("PUT"@.len() != "PROPFIND"@.len());
    }
    assert("PUT"@ != "GET"@) by {
        assert("PUT"@[0] != "GET"@[0]);
    }
    assert("PUT"@ != "HEAD"@) by {
        assert("PUT"@.len() != "HEAD"@.len());
    }
    assert("DELETE"@ != "MKCOL"@) by {
        assert("DELETE"@.len() != "MKCOL"@.len());
    }
    assert("DELETE"@ != "COPY"@) by {
        assert("DELETE"@.len() != "COPY"@.len());
    }
    assert("DELETE"@ != "MOVE"@) by {
        assert("DELETE"@.len() != "MOVE"@.len());
    }
    assert("DELETE"@ != "OPTIONS"@) by {
        assert("DELETE"@.len() != "OPTIONS"@.len());
    }
    assert("DELETE"@ != "PROPFIND"@) by {
        assert("DELETE"@.len() != "PROPFIND"@.len());
    }
    assert("DELETE"@ != "GET"@) by {
        assert("DELETE"@.len() != "GET"@.len());
    }
    assert("DELETE"@ != "HEAD"@) by {
        assert("DELETE"@.len() != "HEAD"@.len());
    }
    assert("MKCOL"@ != "COPY"@) by {
        assert("MKCOL"@.len() != "COPY"@.len());
    }
    assert("MKCOL"@ != "MOVE"@) by {
        assert("MKCOL"@.len() != "MOVE"@.len());
    }
    assert("MKCOL"@ != "OPTIONS"@) by {
        assert("MKCOL"@.len() != "OPTIONS"@.len());
    }
    assert("MKCOL"@ != "PROPFIND"@) by {
        assert("MKCOL"@.len() != "PROPFIND"@.len());
    }
    assert("MKCOL"@ != "GET"@) by {
        assert("MKCOL"@.len() != "GET"@.len());
    }
    assert("MKCOL"@ != "HEAD"@) by {
        assert("MKCOL"@.len() != "HEAD"@.len());
    }
    assert("COPY"@ != "MOVE"@) by {
        assert("COPY"@[0] != "MOVE"@[0]);
    }
    assert("COPY"@ != "OPTIONS"@) by {
        assert("COPY"@.len() != "OPTIONS"@.len());
    }
    assert("COPY"@ != "PROPFIND"@) by {
        assert("COPY"@.len() != "PROPFIND"@.len());
    }
    assert("COPY"@ != "GET"@) by {
        assert("COPY"@.len() != "GET"@.len());
    }
    assert("COPY"@ != "HEAD"@) by {
        assert("COPY"@[0] != "HEAD"@[0]);
    }
    assert("MOVE"@ != "OPTIONS"@) by {
        assert("MOVE"@.len() != "OPTIONS"@.len());
    }
    assert("MOVE"@ != "PROPFIND"@) by {
        assert("MOVE"@.len() != "PROPFIND"@.len());
    }
    assert("MOVE"@ != "GET"@) by {
        assert("MOVE"@.len() != "GET"@.len());
    }
    assert("MOVE"@ != "HEAD"@) by {
        assert("MOVE"@[0] != "HEAD"@[0]);
    }
    assert("OPTIONS"@ != "PROPFIND"@) by {
        assert("OPTIONS"@.len() != "PROPFIND"@.len());
    }
    assert("OPTIONS"@ != "GET"@) by {
        assert("OPTIONS"@.len() != "GET"@.len());
    }
    assert("OPTIONS"@ != "HEAD"@) by {
        assert("OPTIONS"@.len() != "HEAD"@.len());
    }
    assert("PROPFIND"@ != "GET"@) by {
        assert("PROPFIND"@.len() != "GET"@.len());
    }
    assert("PROPFIND"@ != "HEAD"@) by {
        assert("PROPFIND"@.len() != "HEAD"@.len());
    }
    assert("GET"@ != "HEAD"@) by {
        assert("GET"@.len() != "HEAD"@.len());
    }
}

/// What `route` promises of its answer `a` to `request`.
pub open spec fn route_outcome(config: EffectiveConfig, request: Request, a: Action) -> bool {
    let authorized = basic_auth_spec(authorization(request), config.auth);
    &&& !authorized ==> (a matches Action::Respond(r) && is_unauthorized_response(r))
    &&& authorized && config.server.read_only && is_write_method(request.method@) ==> (a matches Action::Respond(r)
        && is_text_response(r, 403, "Forbidden", "Read-only share"@))
    &&& authorized && !(config.server.read_only && is_write_method(request.method@))
        ==> dispatch_spec(request.method@, a)
}

/// On a read-only share an authorized request is refused with `403` exactly
/// when its method is `PUT`, `DELETE`, `MKCOL`, `COPY` or `MOVE`; listing,
/// reading and `OPTIONS` go through as on any share.
pub proof fn lemma_read_only_refuses_only_writes(
    config: EffectiveConfig,
    request: Request,
    a: Action,
)
    requires
        route_outcome(config, request, a),
        basic_auth_spec(authorization(request), config.auth),
        config.server.read_only,
    ensures
        (a matches Action::Respond(r) && r.status == 403) <==> (request.method@ == "PUT"@
            || request.method@ == "DELETE"@ || request.method@ == "MKCOL"@ || request.method@
            == "COPY"@ || request.method@ == "MOVE"@),
        request.method@ == "PROPFIND"@ ==> a is Propfind,
        request.method@ == "GET"@ || request.method@ == "HEAD"@ ==> a is GetOrHead,
        request.method@ == "OPTIONS"@ ==> (a matches Action::Respond(r) && r.status == 204),
{
    reveal_strlit("PUT");
    reveal_strlit("DELETE");
    reveal_strlit("MKCOL");
    reveal_strlit("COPY");
    reveal_strlit("MOVE");
    reveal_strlit("OPTIONS");
    reveal_strlit("PROPFIND");
    reveal_strlit("GET");
    reveal_strlit("HEAD");
    lemma_method_names_distinct();
}

/// How `route` answers, whatever the share: a request without valid
/// credentials gets `401`; an authorized one gets the operation its method
/// names (writes only when the share takes them), `OPTIONS` its `204`, and
/// any other method `405`.
pub proof fn lemma_route_dispatch(config: EffectiveConfig, request: Request, a: Action)
    requires
        route_outcome(config, request, a),
    ensures
        !basic_auth_spec(authorization(request), config.auth) ==> (a matches Action::Respond(r)
            && r.status == 401),
        basic_auth_spec(authorization(request), config.auth) ==> {
            let m = request.method@;
            &&& m == "PROPFIND"@ ==> a is Propfind
            &&& (m == "GET"@ || m == "HEAD"@) ==> a is GetOrHead
            &&& m == "OPTIONS"@ ==> (a matches Action::Respond(r) && r.status == 204)
            &&& !config.server.read_only ==> {
                &&& m == "PUT"@ ==> a is Put
                &&& m == "DELETE"@ ==> a is Delete
                &&& m == "MKCOL"@ ==> a is Mkcol
                &&& m == "COPY"@ ==> a is Copy
                &&& m == "MOVE"@ ==> a is Move
            }
            &&& !(m == "PROPFIND"@ || m == "GET"@ || m == "HEAD"@ || m == "OPTIONS"@ || m == "PUT"@
                || m == "DELETE"@ || m == "MKCOL"@ || m == "COPY"@ || m == "MOVE"@) ==> (a matches Action::Respond(r)
                && r.status == 405)
        },
{
    reveal_strlit("PUT");
    reveal_strlit("DELETE");
    reveal_strlit("MKCOL");
    reveal_strlit("COPY");
    reveal_strlit("MOVE");
    reveal_strlit("OPTIONS");
    reveal_strlit("PROPFIND");
    reveal_strlit("GET");
    reveal_strlit("HEAD");
    lemma_method_names_distinct();
}

/// The answer once a write operation has succeeded: `201 Created` for a new
/// file, folder or copy, `204 No Content` for a deletion or a move.
pub fn completed(action: &Action) -> (r: Response)
    ensures
        (action is Put || action is Mkcol || action is Copy) ==> r.status == 201 && r.reason
            == "Created",
        (action is Delete || action is Move) ==> r.status == 204 && r.reason == "No Content",
        !(action is Put || action is Mkcol || action is Copy || action is Delete
            || action is Move) ==> r.status == 200 && r.reason == "OK",
        r.headers@.len() == 0,
        r.body@.len() == 0,
{
    match action {
        Action::Put | Action::Mkcol | Action::Copy => Response::new(201, "Created"),
        Action::Delete | Action::Move => Response::new(204, "No Content"),
        _ => Response::new(200, "OK"),
    }
}

/// The answer to a failed file operation, chosen by the kind of failure.
pub fn error_response(err: FsError) -> (r: Response)
    ensures
        err.kind == ErrorKind::NotFound ==> is_text_response(r, 404, "Not Found", "Not found"@),
        err.kind == ErrorKind::PermissionDenied ==> is_text_response(
            r,
            403,
            "Forbidden",
            err.message@,
        ),
        err.kind == ErrorKind::InvalidInput ==> is_text_response(
            r,
            400,
            "Bad Request",
            err.message@,
        ),
        err.kind == ErrorKind::AlreadyExists ==> is_text_response(
            r,
            409,
            "Conflict",
            err.message@,
        ),
        err.kind == ErrorKind::Other ==> is_text_response(
            r,
            500,
            "Internal Server Error",
            "Internal server error"@,
        ),
{
    match err.kind {
        ErrorKind::NotFound => Response::text(404, "Not Found", "Not found"),
        ErrorKind::PermissionDenied => Response::text(403, "Forbidden", err.message.as_str()),
        ErrorKind::InvalidInput => Response::text(400, "Bad Request", err.message.as_str()),
        ErrorKind::AlreadyExists => Response::text(409, "Conflict", err.message.as_str()),
        ErrorKind::Other => Response::text(500, "Internal Server Error", "Internal server error"),
    }
}

/// Index of the first occurrence of `p` in `s`, or `-1`.
pub open spec fn find_seq(s: Seq<char>, p: Seq<char>) -> int
    decreases s.len(),
{
    if p.len() <= s.len() && s.subrange(0, p.len() as int) == p {
        0
    } else if s.len() == 0 {
        -1
    } else {
        let r = find_seq(s.drop_first(), p);
        if r < 0 {
            -1
        } else {
            r + 1
        }
    }
}

/// The path a `Destination` header names: for a URL, the part from the first
/// `/` after `://`; otherwise the header itself.
pub open spec fn destination_path_spec(d: Seq<char>) -> Seq<char> {
    let k = find_seq(d, "://"@);
    if k < 0 {
        d
    } else {
        let rest = d.subrange(k + 3, d.len() as int);
        let j = find(rest, '/');
        if j < 0 {
            d
        } else {
            "/"@ + rest.subrange(j + 1, rest.len() as int)
        }
    }
}

/// The target path of a COPY or MOVE, from its `Destination` header.
pub fn destination_path(request: &Request) -> (r: Result<String, FsError>)
    ensures
        !request.headers.view().contains_key("destination"@) ==> (r matches Err(e) && e.kind
            == ErrorKind::InvalidInput && e.message@ == "Missing Destination header"@),
        request.headers.view().contains_key("destination"@) ==> (r matches Ok(p) && p@
            == destination_path_spec(request.headers.view()["destination"@])),
{
    let d = match request.headers.get("destination") {
        Some(d) => d,
        None => {
            return Err(
                FsError { kind: ErrorKind::InvalidInput, message: owned("Missing Destination header") },
            );
        },
    };
    let v = chars_of(d.as_str());
    let n = v.len();
    proof {
        reveal_strlit("://");
        reveal_strlit("/");
    }
    // find "://"
    let mut k: usize = 0;
    let mut found = false;
    assert(v@.skip(0) =~= v@);
    while k < n
        invariant_except_break
            !found,
        invariant
            n == v@.len(),
            0 <= k <= n,
            find_seq(v@, "://"@) == {
                let r = find_seq(v@.skip(k as int), "://"@);
                if r < 0 {
                    -1
                } else {
                    r + k
                }
            },
        ensures
            found ==> k + 3 <= n && v@.skip(k as int).subrange(0, 3) == "://"@,
            !found ==> k == n,
        decreases n - k,
    {
        let ghost rest = v@.skip(k as int);
        proof {
            reveal_strlit("://");
        }
        if n - k >= 3 && v[k] == ':' && v[k + 1] == '/' && v[k + 2] == '/' {
            assert(rest.subrange(0, 3) =~= "://"@);
            found = true;
            break;
        }
        proof {
            if rest.len() >= 3 {
                assert(rest.subrange(0, 3) != "://"@) by {
                    if !(rest[0] == ':') {
                        assert(rest.subrange(0, 3)[0] != "://"@[0]);
                    } else if !(rest[1] == '/') {
                        assert(rest.subrange(0, 3)[1] != "://"@[1]);
                    } else {
                        assert(rest.subrange(0, 3)[2] != "://"@[2]);
                    }
                }
            }
            assert(rest.drop_first() =~= v@.skip(k + 1));
        }
        k += 1;
    }
    if !found {
        proof {
            assert(v@.skip(n as int).len() == 0);
        }
        return Ok(d.clone());
    }
    assert(find_seq(v@, "://"@) == k);
    let start = k + 3;
    let ghost rest = v@.subrange(start as int, n as int);
    match crate::text::find_in(&v, start, n, '/') {
        None => Ok(d.clone()),
        Some(j) => {
            let mut p = owned("/");
            let tail = string_of_range(&v, start + j + 1, n);
            push_str(&mut p, tail.as_str());
            assert(rest.subrange(j + 1, rest.len() as int) =~= v@.subrange(start + j + 1, n as int));
            Ok(p)
        },
    }
}

// ---------------------------------------------------------------------------
// The accept loop
// ---------------------------------------------------------------------------

/// What one non-blocking accept on the listener gave.
#[derive(Debug, Clone)]
pub enum AcceptOutcome {
    /// A connection from `peer`.
    Accepted { peer: String },
    /// Nobody is waiting yet.
    WouldBlock,
    /// The listener failed.
    Failed,
}

/// What the accept loop does next.
#[derive(Debug)]
pub enum AcceptAction {
    /// Announce the connection with `event` and serve it on a thread of its own.
    Serve { event: ServerEvent },
    /// Sleep `millis` milliseconds, then look again (unless a stop was asked for).
    Wait { millis: u64 },
    /// Leave the loop.
    Stop,
}

/// How long the accept loop sleeps when nobody is waiting.
pub open spec fn accept_poll_millis() -> u64 {
    20
}

/// One turn of the accept loop, once no stop has been asked for: a connection
/// is announced and served, an idle listener is polled again after a short
/// sleep, and a failed listener ends the loop.
pub fn accept_step(outcome: AcceptOutcome) -> (a: AcceptAction)
    ensures
        match outcome {
            AcceptOutcome::Accepted { peer } => a matches AcceptAction::Serve { event }
                && event == (ServerEvent::ClientConnected { peer }),
            AcceptOutcome::WouldBlock => a == (AcceptAction::Wait { millis: accept_poll_millis() }),
            AcceptOutcome::Failed => a == AcceptAction::Stop,
        },
{
    match outcome {
        AcceptOutcome::Accepted { peer } => AcceptAction::Serve {
            event: ServerEvent::ClientConnected { peer },
        },
        AcceptOutcome::WouldBlock => AcceptAction::Wait { millis: 20 },
        AcceptOutcome::Failed => AcceptAction::Stop,
    }
}

} // verus!
