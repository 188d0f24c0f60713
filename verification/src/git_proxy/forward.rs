//! Forwarding one Git protocol request: who may, to which source, with what
//! credential, which headers cross, and what the caller is told when the
//! source host refuses.

use vstd::prelude::*;

use crate::git_proxy::sources::{
    presented_token, presented_token_of, service_name, source_views, upstream_authorization,
    upstream_authorization_of, upstream_url, upstream_url_of, Service, Source, SourceV,
};
use crate::text::{opt_view, push_str, str_eq, string_of};

verus! {

/// Where a forwarded request stands.
#[derive(Debug, Clone, Copy, PartialEq, Eq, Structural)]
pub enum ProxyStage {
    /// Nothing asked yet.
    Start,
    /// The caller's Studio token is being checked.
    Authenticating,
    /// The workspace's sources are being read.
    Listing,
    /// The source's stored token is being read.
    ReadingToken,
    /// The request is upstream.
    Sending,
    /// Answered, one way or the other.
    Done,
}

/// One protocol request through the proxy.
#[derive(Debug)]
pub struct ProxyState {
    pub stage: ProxyStage,
    /// The `Authorization` header the caller sent, if any.
    pub authorization: Option<String>,
    /// The source asked for, by name.
    pub source: String,
    /// The protocol path: `info/refs`, `git-upload-pack` or `git-receive-pack`.
    pub protocol_path: String,
    pub service: Service,
    /// A `POST` (else a `GET`).
    pub post: bool,
    /// The caller's request headers, names lower-case.
    pub headers: Vec<(String, String)>,
    /// The upstream URL, once the source is found.
    pub url: String,
}

pub struct ProxyStateV {
    pub stage: ProxyStage,
    pub authorization: Option<Seq<char>>,
    pub source: Seq<char>,
    pub protocol_path: Seq<char>,
    pub service: Service,
    pub post: bool,
    pub headers: Seq<(Seq<char>, Seq<char>)>,
    pub url: Seq<char>,
}

pub open spec fn header_views(v: Seq<(String, String)>) -> Seq<(Seq<char>, Seq<char>)> {
    v.map_values(|h: (String, String)| (h.0@, h.1@))
}

impl View for ProxyState {
    type V = ProxyStateV;

    open spec fn view(&self) -> ProxyStateV {
        ProxyStateV {
            stage: self.stage,
            authorization: opt_view(self.authorization),
            source: self.source@,
            protocol_path: self.protocol_path@,
            service: self.service,
            post: self.post,
            headers: header_views(self.headers@),
            url: self.url@,
        }
    }
}

/// What the source host answered.
#[derive(Debug)]
pub struct UpstreamAnswer {
    pub status: u16,
    /// Its headers, names lower-case.
    pub headers: Vec<(String, String)>,
}

/// What came back from the last action.
#[derive(Debug)]
pub enum ProxyEvent {
    Begin,
    /// Whether the caller's token was accepted.
    Authenticated(bool),
    /// The workspace's sources; `None` when there is no such workspace or
    /// the caller is not a member of it.
    Sources(Option<Vec<Source>>),
    /// The source's stored token; `None` when the caller may not read it.
    Token(Option<String>),
    /// The source host's answer; `None` when it could not be reached.
    Upstream(Option<UpstreamAnswer>),
}

pub enum ProxyEventV {
    Begin,
    Authenticated(bool),
    Sources(Option<Seq<SourceV>>),
    Token(Option<Seq<char>>),
    Upstream(Option<(u16, Seq<(Seq<char>, Seq<char>)>)>),
}

impl View for ProxyEvent {
    type V = ProxyEventV;

    open spec fn view(&self) -> ProxyEventV {
        match self {
            ProxyEvent::Begin => ProxyEventV::Begin,
            ProxyEvent::Authenticated(b) => ProxyEventV::Authenticated(*b),
            ProxyEvent::Sources(o) => ProxyEventV::Sources(
                match o {
                    Some(v) => Some(source_views(v@)),
                    None => None,
                },
            ),
            ProxyEvent::Token(t) => ProxyEventV::Token(opt_view(*t)),
            ProxyEvent::Upstream(a) => ProxyEventV::Upstream(
                match a {
                    Some(x) => Some((x.status, header_views(x.headers@))),
                    None => None,
                },
            ),
        }
    }
}

/// What to do next.
#[derive(Debug)]
pub enum ProxyAction {
    /// Check the caller's Studio token.
    Authenticate(String),
    /// Read the workspace's sources as the caller.
    ListSources,
    /// Read the stored token by its reference.
    ReadToken(String),
    /// Send the request upstream, the body following for a `POST`.
    Send { post: bool, url: String, headers: Vec<(String, String)> },
    /// Pass the source host's answer back, body and all.
    Relay { status: u16, headers: Vec<(String, String)> },
    /// Answer with a plain-text refusal; a 401 carries the Basic challenge.
    Refuse { status: u16, message: String },
}

pub enum ProxyActionV {
    Authenticate(Seq<char>),
    ListSources,
    ReadToken(Seq<char>),
    Send { post: bool, url: Seq<char>, headers: Seq<(Seq<char>, Seq<char>)> },
    Relay { status: u16, headers: Seq<(Seq<char>, Seq<char>)> },
    Refuse { status: u16, message: Seq<char> },
}

impl View for ProxyAction {
    type V = ProxyActionV;

    open spec fn view(&self) -> ProxyActionV {
        match self {
            ProxyAction::Authenticate(t) => ProxyActionV::Authenticate(t@),
            ProxyAction::ListSources => ProxyActionV::ListSources,
            ProxyAction::ReadToken(r) => ProxyActionV::ReadToken(r@),
            ProxyAction::Send { post, url, headers } => ProxyActionV::Send {
                post: *post,
                url: url@,
                headers: header_views(headers@),
            },
            ProxyAction::Relay { status, headers } => ProxyActionV::Relay {
                status: *status,
                headers: header_views(headers@),
            },
            ProxyAction::Refuse { status, message } => ProxyActionV::Refuse { status: *status, message: message@ },
        }
    }
}

/// Request headers the Git protocol needs upstream. Everything else — the
/// caller's own `Authorization` first of all — stays here.
pub open spec fn request_header_names() -> Seq<Seq<char>> {
    seq!["content-type"@, "content-encoding"@, "accept"@, "user-agent"@, "git-protocol"@]
}

/// Response headers passed back to `git`.
pub open spec fn response_header_names() -> Seq<Seq<char>> {
    seq!["content-type"@, "content-encoding"@, "cache-control"@, "expires"@, "pragma"@]
}

/// The first value under `name`.
pub open spec fn header_value(hs: Seq<(Seq<char>, Seq<char>)>, name: Seq<char>) -> Option<Seq<char>>
    decreases hs.len(),
{
    if hs.len() == 0 {
        None
    } else if hs[0].0 == name {
        Some(hs[0].1)
    } else {
        header_value(hs.drop_first(), name)
    }
}

/// The headers among `hs` under `names`, in the order of `names`, each once.
pub open spec fn picked_headers(hs: Seq<(Seq<char>, Seq<char>)>, names: Seq<Seq<char>>) -> Seq<(Seq<char>, Seq<char>)>
    decreases names.len(),
{
    if names.len() == 0 {
        seq![]
    } else {
        let rest = picked_headers(hs, names.drop_last());
        match header_value(hs, names.last()) {
            Some(v) => rest.push((names.last(), v)),
            None => rest,
        }
    }
}

/// The first source named `name`.
pub open spec fn source_named(v: Seq<SourceV>, name: Seq<char>) -> Option<SourceV>
    decreases v.len(),
{
    if v.len() == 0 {
        None
    } else if v[0].name == name {
        Some(v[0])
    } else {
        source_named(v.drop_first(), name)
    }
}

/// The request upstream: the source's URL, `?service=` for `info/refs`,
/// the protocol headers the caller sent, and the source's own token.
pub open spec fn upstream_request(s: ProxyStateV, url: Seq<char>, token: Option<Seq<char>>) -> ProxyActionV {
    let query = if s.protocol_path == "info/refs"@ { "?service="@ + service_name(s.service) } else { seq![] };
    let hs = picked_headers(s.headers, request_header_names());
    ProxyActionV::Send {
        post: s.post,
        url: url + query,
        headers: match token {
            Some(t) => hs.push(("authorization"@, upstream_authorization_of(t))),
            None => hs,
        },
    }
}

pub open spec fn refuse(s: ProxyStateV, status: u16, message: Seq<char>) -> (ProxyStateV, ProxyActionV) {
    (ProxyStateV { stage: ProxyStage::Done, ..s }, ProxyActionV::Refuse { status, message })
}

/// The status the caller sees for one the source host sent: a 401 or 403
/// is the stored token failing, which the caller cannot mend by signing in
/// again, so it is refused as the proxy's own 403; a status out of HTTP's
/// range is a bad gateway; any other passes through.
pub open spec fn upstream_status_of(status: u16) -> Result<u16, u16> {
    if status == 401 || status == 403 {
        Err(403)
    } else if 100 <= status <= 999 {
        Ok(status)
    } else {
        Ok(502)
    }
}

/// One step of forwarding a protocol request.
pub open spec fn proxy_step(s: ProxyStateV, e: ProxyEventV) -> (ProxyStateV, ProxyActionV) {
    match (s.stage, e) {
        (ProxyStage::Start, ProxyEventV::Begin) => match presented_token_of(s.authorization) {
            None => refuse(s, 401, "Sign in to Constructor Studio: this remote takes your Studio token."@),
            Some(t) => (ProxyStateV { stage: ProxyStage::Authenticating, ..s }, ProxyActionV::Authenticate(t)),
        },
        (ProxyStage::Authenticating, ProxyEventV::Authenticated(ok)) => if ok {
            (ProxyStateV { stage: ProxyStage::Listing, ..s }, ProxyActionV::ListSources)
        } else {
            refuse(s, 401, "Your Studio sign-in is not valid any more; sign in again."@)
        },
        (ProxyStage::Listing, ProxyEventV::Sources(found)) => match found {
            None => refuse(s, 404, "No such workspace, or you are not a member of it."@),
            Some(v) => match source_named(v, s.source) {
                None => refuse(s, 404, "The workspace has no Git source by that name."@),
                Some(src) => match upstream_url_of(src.url, s.protocol_path) {
                    None => refuse(
                        s,
                        404,
                        "This source is not an http(s) repository, so it cannot be cloned through Studio."@,
                    ),
                    Some(url) => match src.token_ref {
                        None => (ProxyStateV { stage: ProxyStage::Sending, url, ..s }, upstream_request(s, url, None)),
                        Some(r) => (ProxyStateV { stage: ProxyStage::ReadingToken, url, ..s }, ProxyActionV::ReadToken(r)),
                    },
                },
            },
        },
        (ProxyStage::ReadingToken, ProxyEventV::Token(t)) => match t {
            None => refuse(s, 403, "The workspace's token for this source is not readable by you."@),
            Some(token) => (ProxyStateV { stage: ProxyStage::Sending, ..s }, upstream_request(s, s.url, Some(token))),
        },
        (ProxyStage::Sending, ProxyEventV::Upstream(a)) => match a {
            None => refuse(s, 502, "The source host could not be reached."@),
            Some((status, hs)) => match upstream_status_of(status) {
                Err(code) => refuse(
                    s,
                    code,
                    "The source host refused the workspace's token; ask an owner to update the connection."@,
                ),
                Ok(code) => (
                    ProxyStateV { stage: ProxyStage::Done, ..s },
                    ProxyActionV::Relay { status: code, headers: picked_headers(hs, response_header_names()) },
                ),
            },
        },
        _ => refuse(s, 500, "The request went out of turn; try again."@),
    }
}

/// The status the caller sees for one the source host sent: a 401 or a 403
/// becomes the proxy's own 403 refusal (`Err`).
pub fn upstream_status(status: u16) -> (r: Result<u16, u16>)
    ensures
        r == upstream_status_of(status),
        (status == 401 || status == 403) <==> r is Err,
{
    if status == 401 || status == 403 {
        Err(403)
    } else if 100 <= status && status <= 999 {
        Ok(status)
    } else {
        Ok(502)
    }
}

fn header_value_exec<'a>(hs: &'a Vec<(String, String)>, name: &str) -> (r: Option<&'a String>)
    ensures
        match r {
            Some(v) => header_value(header_views(hs@), name@) == Some(v@),
            None => header_value(header_views(hs@), name@) is None,
        },
{
    let ghost hv = header_views(hs@);
    let n = hs.len();
    let mut i: usize = 0;
    proof {
        assert(hv.skip(0) == hv);
    }
    while i < n
        invariant
            n == hs@.len(),
            hv == header_views(hs@),
            i <= n,
            header_value(hv, name@) == header_value(hv.skip(i as int), name@),
        decreases n - i,
    {
        proof {
            assert(hv.skip(i as int)[0] == (hs@[i as int].0@, hs@[i as int].1@));
            assert(hv.skip(i as int).drop_first() == hv.skip(i + 1));
        }
        if str_eq(hs[i].0.as_str(), name) {
            return Some(&hs[i].1);
        }
        i = i + 1;
    }
    None
}

fn pick_exec(hs: &Vec<(String, String)>, names: &Vec<&str>) -> (out: Vec<(String, String)>)
    ensures
        header_views(out@) == picked_headers(header_views(hs@), names@.map_values(|n: &str| n@)),
{
    let ghost nv = names@.map_values(|n: &str| n@);
    let k = names.len();
    let mut out: Vec<(String, String)> = Vec::new();
    for i in 0..k
        invariant
            k == names@.len(),
            nv == names@.map_values(|n: &str| n@),
            header_views(out@) == picked_headers(header_views(hs@), nv.take(i as int)),
    {
        proof {
            assert(nv.take(i + 1).drop_last() == nv.take(i as int));
            assert(nv.take(i + 1).last() == names@[i as int]@);
        }
        match header_value_exec(hs, names[i]) {
            Some(v) => {
                let ghost before = header_views(out@);
                out.push((names[i].to_owned(), v.clone()));
                proof {
                    assert(header_views(out@) =~= before.push((names@[i as int]@, v@)));
                }
            },
            None => {},
        }
    }
    proof {
        assert(nv.take(k as int) == nv);
    }
    out
}

fn request_names() -> (out: Vec<&'static str>)
    ensures
        out@.map_values(|n: &str| n@) == request_header_names(),
{
    let v = vec!["content-type", "content-encoding", "accept", "user-agent", "git-protocol"];
    assert(v@.map_values(|n: &str| n@) =~= request_header_names());
    v
}

fn response_names() -> (out: Vec<&'static str>)
    ensures
        out@.map_values(|n: &str| n@) == response_header_names(),
{
    let v = vec!["content-type", "content-encoding", "cache-control", "expires", "pragma"];
    assert(v@.map_values(|n: &str| n@) =~= response_header_names());
    v
}

fn find_source<'a>(v: &'a Vec<Source>, name: &str) -> (r: Option<&'a Source>)
    ensures
        match r {
            Some(s) => source_named(source_views(v@), name@) == Some(s@),
            None => source_named(source_views(v@), name@) is None,
        },
{
    let ghost sv = source_views(v@);
    let n = v.len();
    let mut i: usize = 0;
    proof {
        assert(sv.skip(0) == sv);
    }
    while i < n
        invariant
            n == v@.len(),
            sv == source_views(v@),
            i <= n,
            source_named(sv, name@) == source_named(sv.skip(i as int), name@),
        decreases n - i,
    {
        proof {
            assert(sv.skip(i as int)[0] == v@[i as int]@);
            assert(sv.skip(i as int).drop_first() == sv.skip(i + 1));
        }
        if str_eq(v[i].name.as_str(), name) {
            return Some(&v[i]);
        }
        i = i + 1;
    }
    None
}

fn request_exec(s: &ProxyState, url: &String, token: Option<&String>) -> (out: ProxyAction)
    ensures
        out@ == upstream_request(s@, url@, opt_view(match token {
            Some(t) => Some(*t),
            None => None,
        })),
{
    let mut u: Vec<char> = Vec::new();
    push_str(&mut u, url.as_str());
    if str_eq(s.protocol_path.as_str(), "info/refs") {
        push_str(&mut u, "?service=");
        push_str(&mut u, s.service.as_str());
        assert(u@ =~= url@ + ("?service="@ + service_name(s.service)));
    } else {
        assert(u@ =~= url@ + Seq::<char>::empty());
    }
    let mut hs = pick_exec(&s.headers, &request_names());
    match token {
        Some(t) => {
            let ghost before = header_views(hs@);
            let a = upstream_authorization(t.as_str());
            hs.push(("authorization".to_owned(), a));
            proof {
                assert(header_views(hs@) =~= before.push(("authorization"@, upstream_authorization_of(t@))));
            }
        },
        None => {},
    }
    ProxyAction::Send { post: s.post, url: string_of(&u), headers: hs }
}

fn refusing(s: ProxyState, status: u16, message: &str) -> (out: (ProxyState, ProxyAction))
    ensures
        (out.0@, out.1@) == refuse(s@, status, message@),
{
    (ProxyState { stage: ProxyStage::Done, ..s }, ProxyAction::Refuse { status, message: message.to_owned() })
}

/// One step of forwarding a Git protocol request: given where it stands and
/// what came back, the next state and what to do. A caller without a Studio
/// token is challenged; the source is found by name; the request carries
/// only the protocol's headers and the source's own token; and a source
/// host refusing that token is answered with the proxy's own 403.
pub fn proxy_next(state: ProxyState, event: ProxyEvent) -> (out: (ProxyState, ProxyAction))
    ensures
        (out.0@, out.1@) == proxy_step(state@, event@),
{
    let s = state;
    match (s.stage, event) {
        (ProxyStage::Start, ProxyEvent::Begin) => {
            let t = presented_token(match &s.authorization {
                Some(a) => Some(a.as_str()),
                None => None,
            });
            match t {
                None => refusing(s, 401, "Sign in to Constructor Studio: this remote takes your Studio token."),
                Some(t) => (ProxyState { stage: ProxyStage::Authenticating, ..s }, ProxyAction::Authenticate(t)),
            }
        },
        (ProxyStage::Authenticating, ProxyEvent::Authenticated(ok)) => {
            if ok {
                (ProxyState { stage: ProxyStage::Listing, ..s }, ProxyAction::ListSources)
            } else {
                refusing(s, 401, "Your Studio sign-in is not valid any more; sign in again.")
            }
        },
        (ProxyStage::Listing, ProxyEvent::Sources(found)) => match found {
            None => refusing(s, 404, "No such workspace, or you are not a member of it."),
            Some(v) => match find_source(&v, s.source.as_str()) {
                None => refusing(s, 404, "The workspace has no Git source by that name."),
                Some(src) => match upstream_url(src.url.as_str(), s.protocol_path.as_str()) {
                    None => refusing(
                        s,
                        404,
                        "This source is not an http(s) repository, so it cannot be cloned through Studio.",
                    ),
                    Some(url) => match &src.token_ref {
                        None => {
                            let a = request_exec(&s, &url, None);
                            (ProxyState { stage: ProxyStage::Sending, url, ..s }, a)
                        },
                        Some(r) => {
                            let a = ProxyAction::ReadToken(r.clone());
                            (ProxyState { stage: ProxyStage::ReadingToken, url, ..s }, a)
                        },
                    },
                },
            },
        },
        (ProxyStage::ReadingToken, ProxyEvent::Token(t)) => match t {
            None => refusing(s, 403, "The workspace's token for this source is not readable by you."),
            Some(token) => {
                let a = request_exec(&s, &s.url, Some(&token));
                (ProxyState { stage: ProxyStage::Sending, ..s }, a)
            },
        },
        (ProxyStage::Sending, ProxyEvent::Upstream(a)) => match a {
            None => refusing(s, 502, "The source host could not be reached."),
            Some(answer) => match upstream_status(answer.status) {
                Err(code) => refusing(
                    s,
                    code,
                    "The source host refused the workspace's token; ask an owner to update the connection.",
                ),
                Ok(code) => {
                    let hs = pick_exec(&answer.headers, &response_names());
                    (ProxyState { stage: ProxyStage::Done, ..s }, ProxyAction::Relay { status: code, headers: hs })
                },
            },
        },
        _ => refusing(s, 500, "The request went out of turn; try again."),
    }
}

proof fn lemma_picked_names(hs: Seq<(Seq<char>, Seq<char>)>, names: Seq<Seq<char>>)
    ensures
        forall|i: int| 0 <= i < picked_headers(hs, names).len() ==> names.contains(#[trigger] picked_headers(hs, names)[i].0),
    decreases names.len(),
{
    if names.len() > 0 {
        lemma_picked_names(hs, names.drop_last());
        let rest = picked_headers(hs, names.drop_last());
        assert forall|i: int| 0 <= i < picked_headers(hs, names).len() implies names.contains(
            #[trigger] picked_headers(hs, names)[i].0,
        ) by {
            if i < rest.len() {
                assert(names.drop_last().contains(rest[i].0));
                let j = choose|j: int| 0 <= j < names.drop_last().len() && names.drop_last()[j] == rest[i].0;
                assert(names[j] == rest[i].0);
            } else {
                assert(names[names.len() - 1] == names.last());
            }
        }
    }
}

/// The caller's own credential never leaves: the only `Authorization` a
/// forwarded request carries is the one made from the source's stored
/// token, and a request for a source with no token carries none.
pub proof fn law_the_callers_credential_stays_here(s: ProxyStateV, e: ProxyEventV)
    ensures
        match proxy_step(s, e).1 {
            ProxyActionV::Send { headers, .. } => forall|i: int|
                0 <= i < headers.len() && (#[trigger] headers[i]).0 == "authorization"@ ==> match e {
                    ProxyEventV::Token(Some(t)) => headers[i].1 == upstream_authorization_of(t),
                    _ => false,
                },
            _ => true,
        },
{
    lemma_picked_names(s.headers, request_header_names());
    let names = request_header_names();
    assert(!names.contains("authorization"@)) by {
        reveal_strlit("authorization");
        reveal_strlit("content-type");
        reveal_strlit("content-encoding");
        reveal_strlit("accept");
        reveal_strlit("user-agent");
        reveal_strlit("git-protocol");
        if names.contains("authorization"@) {
            let j = choose|j: int| 0 <= j < names.len() && names[j] == "authorization"@;
            assert(names[j].len() != "authorization"@.len() || names[j][0] != 'a' || names[j][1] != 'u');
        }
    }
}

} // verus!
