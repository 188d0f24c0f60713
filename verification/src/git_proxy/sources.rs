//! What the proxy decides without the network: which sources a workspace's
//! settings name, where a request goes upstream, and what credential it came
//! with.

use base64::Engine;
use vstd::prelude::*;
use vstd::string::StringSliceAdditionalSpecFns;
use vstd::utf8::{decode_utf8, encode_utf8, valid_utf8};

use crate::json::{json_array, json_get, str_at, Json};
use crate::text::{
    chars_of, find, find_exec, is_digit, is_lower, is_ws, is_ws_char, lower_seq, opt_view, push_all,
    push_str, slice_of, starts_with, starts_with_exec, str_eq, string_of, strip_prefix,
    strip_prefix_exec, to_lower, trim, trim_chars, trim_end, trim_end_char, trim_end_char_exec,
    trim_start,
};

verus! {

/// The name the workspace's own repository is served under.
pub const ROOT_SOURCE: &'static str = "_root";

/// One Git source of a workspace, as its settings record it.
#[derive(Debug, Clone, PartialEq, Eq)]
pub struct Source {
    pub name: String,
    /// The source host's clone URL. Never returned to a client.
    pub url: String,
    pub branch: Option<String>,
    /// Where the IDE checks it out, relative to the workspace root.
    pub target: Option<String>,
    /// credstore reference of the source host token. Never returned either.
    pub token_ref: Option<String>,
}

/// The source-name rule: lower-case ASCII letters, digits, `-` and `_`, and
/// at least one of them.
pub open spec fn valid_name_of(name: Seq<char>) -> bool {
    name.len() > 0 && forall|i: int|
        0 <= i < name.len() ==> is_lower(#[trigger] name[i]) || is_digit(name[i]) || name[i] == '-'
            || name[i] == '_'
}

/// The source-name rule `studio-session` enforces at launch.
pub fn valid_name(name: &str) -> (r: bool)
    ensures
        r == valid_name_of(name@),
{
    let v = chars_of(name);
    if v.len() == 0 {
        return false;
    }
    let n = v.len();
    for i in 0..n
        invariant
            n == v@.len(),
            v@ == name@,
            forall|j: int| 0 <= j < i ==> is_lower(#[trigger] v@[j]) || is_digit(v@[j]) || v@[j] == '-' || v@[j] == '_',
    {
        let c = v[i];
        if !(('a' <= c && c <= 'z') || ('0' <= c && c <= '9') || c == '-' || c == '_') {
            return false;
        }
    }
    true
}

/// The two Git services the smart-HTTP protocol names in `info/refs`.
#[derive(Debug, Clone, Copy, PartialEq, Eq, Structural)]
pub enum Service {
    UploadPack,
    ReceivePack,
}

pub open spec fn service_name(s: Service) -> Seq<char> {
    match s {
        Service::UploadPack => "git-upload-pack"@,
        Service::ReceivePack => "git-receive-pack"@,
    }
}

impl Service {
    pub fn parse(value: &str) -> (out: Option<Service>)
        ensures
            match out {
                Some(s) => value@ == service_name(s),
                None => value@ != service_name(Service::UploadPack) && value@ != service_name(Service::ReceivePack),
            },
    {
        if str_eq(value, "git-upload-pack") {
            Some(Service::UploadPack)
        } else if str_eq(value, "git-receive-pack") {
            Some(Service::ReceivePack)
        } else {
            None
        }
    }

    pub fn as_str(self) -> (out: &'static str)
        ensures
            out@ == service_name(self),
    {
        match self {
            Service::UploadPack => "git-upload-pack",
            Service::ReceivePack => "git-receive-pack",
        }
    }
}

/// The upstream URL for one protocol request: the clone URL trimmed of
/// whitespace and trailing slashes, a slash, and the protocol path. Only
/// `http(s)` is served, the scheme read without regard to case.
pub open spec fn upstream_url_of(clone_url: Seq<char>, protocol_path: Seq<char>) -> Option<Seq<char>> {
    let base = trim_end_char(trim(clone_url), '/');
    let lower = lower_seq(base);
    if starts_with(lower, "https://"@) || starts_with(lower, "http://"@) {
        Some(base + "/"@ + protocol_path)
    } else {
        None
    }
}

pub fn upstream_url(clone_url: &str, protocol_path: &str) -> (out: Option<String>)
    ensures
        opt_view(out) == upstream_url_of(clone_url@, protocol_path@),
{
    let base = trim_end_char_exec(&trim_chars(&chars_of(clone_url)), '/');
    let mut lower: Vec<char> = Vec::new();
    let n = base.len();
    for i in 0..n
        invariant
            n == base@.len(),
            lower@ == lower_seq(base@.take(i as int)),
    {
        lower.push(to_lower(base[i]));
        proof {
            assert(lower_seq(base@.take(i + 1)) =~= lower_seq(base@.take(i as int)).push(crate::text::lower(base@[i as int])));
        }
    }
    proof {
        assert(base@.take(n as int) == base@);
    }
    if !(starts_with_exec(&lower, "https://") || starts_with_exec(&lower, "http://")) {
        return None;
    }
    let mut out = base;
    push_str(&mut out, "/");
    push_str(&mut out, protocol_path);
    Some(string_of(&out))
}

/// What the standard base64 engine decodes these bytes to, `None` where it
/// reports an error.
pub uninterp spec fn base64_decoded(text: Seq<u8>) -> Option<Seq<u8>>;

/// What the standard base64 engine encodes these bytes as.
pub uninterp spec fn base64_encoded(bytes: Seq<u8>) -> Seq<char>;

/// A character of the standard base64 alphabet, or its `=` padding.
pub open spec fn base64_char(c: char) -> bool {
    ('A' <= c <= 'Z') || ('a' <= c <= 'z') || ('0' <= c <= '9') || c == '+' || c == '/' || c == '='
}

pub open spec fn opt_bytes(o: Option<Vec<u8>>) -> Option<Seq<u8>> {
    match o {
        Some(v) => Some(v@),
        None => None,
    }
}

/// `base64::engine::general_purpose::STANDARD.decode`: RFC 4648's standard
/// alphabet with `=` padding. The result is named, not stated; an error is
/// `None`.
#[verifier::external_body]
pub(crate) fn b64_decode(text: &str) -> (out: Option<Vec<u8>>)
    ensures
        opt_bytes(out) == base64_decoded(text.spec_bytes()),
{
    base64::engine::general_purpose::STANDARD.decode(text).ok()
}

/// `base64::engine::general_purpose::STANDARD.encode`. The text is named;
/// claimed of it: it is made of the standard alphabet and its padding (so
/// it is ASCII and holds no whitespace), it is not empty for bytes that are
/// not, and the same engine decodes it back to the bytes.
#[verifier::external_body]
fn b64_encode(bytes: &[u8]) -> (out: String)
    ensures
        out@ == base64_encoded(bytes@),
        forall|i: int| 0 <= i < out@.len() ==> base64_char(#[trigger] out@[i]),
        bytes@.len() > 0 ==> out@.len() > 0,
        base64_decoded(encode_utf8(out@)) == Some(bytes@),
{
    base64::engine::general_purpose::STANDARD.encode(bytes)
}

/// `String::from_utf8`: the text when the bytes are valid UTF-8.
#[verifier::external_body]
fn utf8_text(bytes: Vec<u8>) -> (out: Option<String>)
    ensures
        match out {
            Some(s) => valid_utf8(bytes@) && s@ == decode_utf8(bytes@),
            None => !valid_utf8(bytes@),
        },
{
    String::from_utf8(bytes).ok()
}

/// What a Basic credential carries after the first `:`, when there is one.
pub open spec fn basic_password(encoded: Seq<char>) -> Option<Seq<char>> {
    match base64_decoded(encode_utf8(encoded)) {
        Some(bytes) => if valid_utf8(bytes) {
            let s = decode_utf8(bytes);
            match find(s, ":"@) {
                Some(i) => if s.skip(i + 1).len() > 0 { Some(s.skip(i + 1)) } else { None },
                None => None,
            }
        } else {
            None
        },
        None => None,
    }
}

/// The Studio token a Git request carries: the password of Basic
/// credentials, or a Bearer token; the Basic user name is ignored.
pub open spec fn presented_token_of(authorization: Option<Seq<char>>) -> Option<Seq<char>> {
    match authorization {
        None => None,
        Some(a) => {
            let value = trim(a);
            match strip_prefix(value, "Bearer "@) {
                Some(t) => if trim(t).len() > 0 { Some(trim(t)) } else { None },
                None => match strip_prefix(value, "Basic "@) {
                    Some(e) => basic_password(trim(e)),
                    None => None,
                },
            }
        },
    }
}

pub fn presented_token(authorization: Option<&str>) -> (out: Option<String>)
    ensures
        opt_view(out) == presented_token_of(match authorization {
            Some(a) => Some(a@),
            None => None,
        }),
{
    let a = match authorization {
        Some(a) => a,
        None => return None,
    };
    let value = trim_chars(&chars_of(a));
    proof {
        reveal_strlit("Bearer ");
        reveal_strlit("Basic ");
    }
    match strip_prefix_exec(&value, "Bearer ") {
        Some(t) => {
            let t = trim_chars(&t);
            return if t.len() > 0 { Some(string_of(&t)) } else { None };
        },
        None => {},
    }
    let e = match strip_prefix_exec(&value, "Basic ") {
        Some(e) => trim_chars(&e),
        None => return None,
    };
    let e = string_of(&e);
    let bytes = match b64_decode(e.as_str()) {
        Some(b) => b,
        None => return None,
    };
    let s = match utf8_text(bytes) {
        Some(s) => chars_of(s.as_str()),
        None => return None,
    };
    let colon = chars_of(":");
    let sn = s.len();
    match find_exec(&s, &colon) {
        Some(i) => {
            proof {
                reveal_strlit(":");
                assert(colon@.len() == 1);
                assert(crate::text::occurs_at(s@, colon@, i as int));
                assert(i + 1 <= s@.len());
                assert(s@.skip(i + 1) == s@.subrange(i + 1, s@.len() as int));
            }
            let pw = slice_of(&s, i + 1, sn);
            if pw.len() > 0 {
                Some(string_of(&pw))
            } else {
                None
            }
        },
        None => None,
    }
}

/// Basic credentials for the source host: the token as the password, the
/// way the session container's credential helper presents it.
pub open spec fn upstream_authorization_of(token: Seq<char>) -> Seq<char> {
    "Basic "@ + base64_encoded(encode_utf8("oauth2:"@ + token))
}

/// Nothing but white space at either end: `trim` leaves it as it is.
proof fn lemma_trim_noop(s: Seq<char>)
    requires
        s.len() > 0,
        !is_ws(s[0]),
        !is_ws(s.last()),
    ensures
        trim(s) == s,
{
    assert(trim_start(s) == s);
}

/// A token sent upstream in Basic credentials is what a request carrying
/// them presents: the Basic form round-trips the token, and an empty token
/// presents none.
pub fn upstream_authorization(token: &str) -> (out: String)
    ensures
        out@ == upstream_authorization_of(token@),
        presented_token_of(Some(out@)) == (if token@.len() > 0 { Some(token@) } else { None::<Seq<char>> }),
{
    let mut pair: Vec<char> = Vec::new();
    push_str(&mut pair, "oauth2:");
    push_str(&mut pair, token);
    let pair = string_of(&pair);
    let enc = b64_encode(pair.as_str().as_bytes());
    let mut out: Vec<char> = Vec::new();
    push_str(&mut out, "Basic ");
    push_str(&mut out, enc.as_str());
    proof {
        let e = enc@;
        let p = "oauth2:"@ + token@;
        reveal_strlit("oauth2:");
        reveal_strlit("Basic ");
        reveal_strlit("Bearer ");
        reveal_strlit(":");
        assert(pair@ == p);
        assert(p.len() > 0);
        vstd::utf8::encode_utf8_valid_utf8(p);
        vstd::utf8::encode_utf8_decode_utf8(p);
        assert(encode_utf8(p).len() > 0) by {
            if encode_utf8(p).len() == 0 {
                assert(decode_utf8(encode_utf8(p)).len() == 0);
            }
        }
        let o = out@;
        assert(o == "Basic "@ + e);
        assert(e.len() > 0);
        assert(base64_char(e[0]) && base64_char(e.last()));
        assert(o[0] == 'B');
        assert(o.last() == e.last());
        lemma_trim_noop(o);
        lemma_trim_noop(e);
        assert(o[1] == 'a');
        assert(strip_prefix(o, "Bearer "@) is None) by {
            assert(o.take(7)[1] != "Bearer "@[1]);
        }
        assert(o.take(6) =~= "Basic "@);
        assert(o.skip(6) =~= e);
        assert(strip_prefix(o, "Basic "@) == Some(e));
        assert(decode_utf8(encode_utf8(p)) == p);
        assert(crate::text::occurs_at(p, ":"@, 6)) by {
            assert(p.subrange(6, 7) =~= ":"@);
        }
        assert forall|i: int| 0 <= i < 6 implies !crate::text::occurs_at(p, ":"@, i) by {
            assert(p.subrange(i, i + 1)[0] == p[i]);
        }
        assert(crate::text::find_from_spec(p, ":"@, 6) == Some(6int));
        assert(crate::text::find_from_spec(p, ":"@, 5) == Some(6int));
        assert(crate::text::find_from_spec(p, ":"@, 4) == Some(6int));
        assert(crate::text::find_from_spec(p, ":"@, 3) == Some(6int));
        assert(crate::text::find_from_spec(p, ":"@, 2) == Some(6int));
        assert(crate::text::find_from_spec(p, ":"@, 1) == Some(6int));
        assert(crate::text::find_from_spec(p, ":"@, 0) == Some(6int));
        assert(p.skip(7) =~= token@);
    }
    string_of(&out)
}

pub struct SourceV {
    pub name: Seq<char>,
    pub url: Seq<char>,
    pub branch: Option<Seq<char>>,
    pub target: Option<Seq<char>>,
    pub token_ref: Option<Seq<char>>,
}

impl View for Source {
    type V = SourceV;

    open spec fn view(&self) -> SourceV {
        SourceV {
            name: self.name@,
            url: self.url@,
            branch: opt_view(self.branch),
            target: opt_view(self.target),
            token_ref: opt_view(self.token_ref),
        }
    }
}

pub open spec fn source_views(v: Seq<Source>) -> Seq<SourceV> {
    v.map_values(|s: Source| s@)
}

/// A string member, trimmed, when it holds anything but whitespace.
pub open spec fn text_of(j: Json, key: Seq<char>) -> Option<Seq<char>> {
    match str_at(j, key) {
        Some(s) => if trim(s).len() > 0 { Some(trim(s)) } else { None },
        None => None,
    }
}

pub open spec fn root_sources(settings: Json) -> Seq<SourceV> {
    match text_of(settings, "root_repo_url"@) {
        Some(url) => seq![SourceV {
            name: ROOT_SOURCE@,
            url,
            branch: text_of(settings, "root_branch"@),
            target: None,
            token_ref: text_of(settings, "root_token_ref"@),
        }],
        None => seq![],
    }
}

pub open spec fn repos_of(settings: Json) -> Seq<Json> {
    match json_get(settings, "repos"@) {
        Some(v) => match json_array(v) {
            Some(a) => a,
            None => seq![],
        },
        None => seq![],
    }
}

/// One `repos` entry read into the list: a `local` source, an entry without
/// a name or a url, a name Studio would refuse and a name already taken are
/// all left out.
pub open spec fn add_repo(out: Seq<SourceV>, repo: Json) -> Seq<SourceV> {
    if text_of(repo, "source"@) == Some("local"@) {
        out
    } else {
        match (text_of(repo, "name"@), text_of(repo, "url"@)) {
            (Some(name), Some(url)) => if !valid_name_of(name) || (exists|i: int|
                0 <= i < out.len() && #[trigger] out[i].name == name) {
                out
            } else {
                out.push(
                    SourceV {
                        name,
                        url,
                        branch: text_of(repo, "branch"@),
                        target: text_of(repo, "target"@),
                        token_ref: text_of(repo, "token_ref"@),
                    },
                )
            },
            _ => out,
        }
    }
}

pub open spec fn add_repos(out: Seq<SourceV>, repos: Seq<Json>) -> Seq<SourceV>
    decreases repos.len(),
{
    if repos.len() == 0 {
        out
    } else {
        add_repo(add_repos(out, repos.drop_last()), repos.last())
    }
}

/// Every Git source in a workspace settings document: the root repository
/// first, when there is one, then `repos` in order.
pub open spec fn sources_of(settings: Json) -> Seq<SourceV> {
    add_repos(root_sources(settings), repos_of(settings))
}

fn text(value: &Json, key: &str) -> (out: Option<String>)
    ensures
        opt_view(out) == text_of(*value, key@),
{
    match value.str_at(key) {
        Some(s) => {
            let t = trim_chars(&chars_of(s));
            if t.len() > 0 {
                Some(string_of(&t))
            } else {
                None
            }
        },
        None => None,
    }
}

fn copy_text(o: &Option<String>) -> (out: Option<String>)
    ensures
        opt_view(out) == opt_view(*o),
{
    match o {
        Some(s) => Some(s.clone()),
        None => None,
    }
}

fn read_repo(out: &mut Vec<Source>, repo: &Json)
    ensures
        source_views(final(out)@) == add_repo(source_views(old(out)@), *repo),
{
    let ghost before = source_views(out@);
    let source = text(repo, "source");
    let local = match &source {
        Some(s) => str_eq(s.as_str(), "local"),
        None => false,
    };
    if local {
        return;
    }
    let name = text(repo, "name");
    let url = text(repo, "url");
    let (name, url) = match (name, url) {
        (Some(n), Some(u)) => (n, u),
        _ => return,
    };
    if !valid_name(name.as_str()) {
        return;
    }
    let m = out.len();
    let mut taken = false;
    let mut k: usize = 0;
    while k < m
        invariant
            m == out@.len(),
            k <= m,
            before == source_views(out@),
            taken == (exists|j: int| 0 <= j < k && #[trigger] before[j].name == name@),
        decreases m - k,
    {
        let eq = str_eq(out[k].name.as_str(), name.as_str());
        proof {
            assert(before[k as int] == out@[k as int]@);
            assert(eq == (before[k as int].name == name@));
        }
        if eq {
            taken = true;
        }
        proof {
            if !eq {
                assert forall|j: int| 0 <= j < k + 1 && #[trigger] before[j].name == name@ implies j < k by {}
            }
        }
        k = k + 1;
    }
    if taken {
        return;
    }
    let s = Source {
        name,
        url,
        branch: text(repo, "branch"),
        target: text(repo, "target"),
        token_ref: text(repo, "token_ref"),
    };
    out.push(s);
    proof {
        assert(source_views(out@) =~= before.push(s@));
    }
}

/// Every Git source in a workspace settings document: the root repository
/// first, when there is one, then `repos` in order. A `local` source is a
/// folder on the backend host, so there is nothing to clone and it is left
/// out; so is an entry with no URL or with a name the rest of Studio would
/// refuse, or one whose name is already taken.
pub fn sources_in(settings: &Json) -> (out: Vec<Source>)
    ensures
        source_views(out@) == sources_of(*settings),
{
    let mut out: Vec<Source> = Vec::new();
    match text(settings, "root_repo_url") {
        Some(url) => {
            out.push(
                Source {
                    name: ROOT_SOURCE.to_owned(),
                    url,
                    branch: text(settings, "root_branch"),
                    target: None,
                    token_ref: text(settings, "root_token_ref"),
                },
            );
        },
        None => {},
    }
    proof {
        assert(source_views(out@) =~= root_sources(*settings));
    }
    let empty: Vec<Json> = Vec::new();
    let repos: &Vec<Json> = match settings.get("repos") {
        Some(v) => match v.as_array() {
            Some(a) => a,
            None => &empty,
        },
        None => &empty,
    };
    proof {
        assert(repos@ == repos_of(*settings));
    }
    let ghost base = root_sources(*settings);
    let n = repos.len();
    for i in 0..n
        invariant
            n == repos@.len(),
            source_views(out@) == add_repos(base, repos@.take(i as int)),
    {
        let repo = &repos[i];
        proof {
            assert(repos@.take(i + 1).drop_last() == repos@.take(i as int));
            assert(repos@.take(i + 1).last() == *repo);
        }
        read_repo(&mut out, repo);
    }
    proof {
        assert(repos@.take(n as int) == repos@);
    }
    out
}

} // verus!
