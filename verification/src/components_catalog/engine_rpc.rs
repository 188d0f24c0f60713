//! Talking to the Gearbox engine over `gearbox rpc --stdio`: JSON-RPC
//! messages framed by a `Content-Length` header, and the one exchange a
//! request makes — initialize, the request, shut down.

use vstd::prelude::*;
use vstd::utf8::encode_utf8;

use crate::components_catalog::product::push_member;
use crate::json::{
    json_get, json_i64, json_parsed_bytes, json_view, json_views, json_written, member_views, parse_json_bytes, write_json,
    Json, JsonV,
};
use crate::numbers::{decimal, decimal_of, parse_unsigned, parse_unsigned_in};
use crate::text::{chars_of, push_str, slice_of, string_of, strip_prefix, strip_prefix_exec, trim, trim_chars, trim_end, trim_end_at};

verus! {

/// How long a request may wait for the engine, in seconds.
pub const ENGINE_TIMEOUT_SECS: u64 = 60;

/// The length a header line announces: `None` when the line is not a
/// `Content-Length` header, `Some(None)` when it is one whose value is not a
/// number.
pub open spec fn header_length(line: Seq<char>) -> Option<Option<nat>> {
    match strip_prefix(trim_end(line), "Content-Length:"@) {
        Some(v) => Some(parse_unsigned(encode_utf8(trim(v)), usize::MAX as nat)),
        None => None,
    }
}

/// The body length a header block announces: that of its last
/// `Content-Length` line; `None` when there is none or it is not a number.
pub open spec fn frame_length_of(lines: Seq<Seq<char>>) -> Option<nat>
    decreases lines.len(),
{
    if lines.len() == 0 {
        None
    } else {
        match header_length(lines.last()) {
            Some(l) => l,
            None => frame_length_of(lines.drop_last()),
        }
    }
}

fn header_length_exec(line: &str) -> (out: Option<Option<usize>>)
    ensures
        match out {
            None => header_length(line@) is None,
            Some(None) => header_length(line@) == Some(None::<nat>),
            Some(Some(n)) => header_length(line@) == Some(Some(n as nat)),
        },
{
    let v = chars_of(line);
    let end = trim_end_at(&v, 0, v.len());
    let t = slice_of(&v, 0, end);
    proof {
        assert(v@.subrange(0, v@.len() as int) == v@);
    }
    match strip_prefix_exec(&t, "Content-Length:") {
        None => None,
        Some(rest) => {
            let value = string_of(&trim_chars(&rest));
            let bs = value.as_str().as_bytes();
            proof {
                assert(bs@.subrange(0, bs@.len() as int) == bs@);
            }
            match parse_unsigned_in(bs, 0, bs.len(), usize::MAX as u64) {
                Some(n) => Some(Some(n as usize)),
                None => Some(None),
            }
        },
    }
}

/// The body length a message's header lines announce.
pub fn frame_length(header_lines: &[String]) -> (r: Option<usize>)
    ensures
        match r {
            Some(n) => frame_length_of(header_lines@.map_values(|s: String| s@)) == Some(n as nat),
            None => frame_length_of(header_lines@.map_values(|s: String| s@)) is None,
        },
{
    let ghost lv = header_lines@.map_values(|s: String| s@);
    let mut i = header_lines.len();
    proof {
        assert(lv.take(i as int) == lv);
    }
    while i > 0
        invariant
            i <= header_lines@.len(),
            lv == header_lines@.map_values(|s: String| s@),
            frame_length_of(lv) == frame_length_of(lv.take(i as int)),
        decreases i,
    {
        proof {
            assert(lv.take(i as int).drop_last() == lv.take(i - 1));
            assert(lv.take(i as int).last() == header_lines@[i - 1]@);
        }
        match header_length_exec(header_lines[i - 1].as_str()) {
            Some(l) => return l,
            None => {},
        }
        i = i - 1;
    }
    None
}

/// A message framed for the engine: its `Content-Length` header, a blank
/// line, and the JSON text.
pub open spec fn frame_of(text: Seq<char>) -> Seq<u8> {
    encode_utf8("Content-Length: "@ + decimal(encode_utf8(text).len()) + "\r\n\r\n"@) + encode_utf8(text)
}

/// `message` framed for the engine.
pub fn frame(message: &Json) -> (out: Vec<u8>)
    ensures
        out@ == frame_of(json_written(json_view(*message))),
{
    let text = write_json(message);
    let body = text.as_str().as_bytes();
    let mut head: Vec<char> = Vec::new();
    push_str(&mut head, "Content-Length: ");
    let digits = decimal_of(body.len() as u64);
    let ghost before = head@;
    let mut k: usize = 0;
    while k < digits.len()
        invariant
            k <= digits@.len(),
            head@ == before + digits@.take(k as int),
        decreases digits@.len() - k,
    {
        head.push(digits[k]);
        proof {
            assert(digits@.take(k + 1) == digits@.take(k as int).push(digits@[k as int]));
        }
        k = k + 1;
    }
    proof {
        assert(digits@.take(k as int) == digits@);
    }
    push_str(&mut head, "\r\n\r\n");
    let head_text = string_of(&head);
    let mut out: Vec<u8> = Vec::new();
    let hb = head_text.as_str().as_bytes();
    let mut i: usize = 0;
    while i < hb.len()
        invariant
            i <= hb@.len(),
            out@ == hb@.take(i as int),
        decreases hb@.len() - i,
    {
        out.push(hb[i]);
        proof {
            assert(hb@.take(i + 1) == hb@.take(i as int).push(hb@[i as int]));
        }
        i = i + 1;
    }
    let mut j: usize = 0;
    while j < body.len()
        invariant
            j <= body@.len(),
            out@ == hb@ + body@.take(j as int),
        decreases body@.len() - j,
    {
        out.push(body[j]);
        proof {
            assert(body@.take(j + 1) == body@.take(j as int).push(body@[j as int]));
        }
        j = j + 1;
    }
    proof {
        assert(hb@.take(i as int) == hb@);
        assert(body@.take(j as int) == body@);
    }
    out
}

/// A message body as the engine sent it, read as JSON; `None` when it is not.
pub fn read_message(body: &[u8]) -> (out: Option<Json>)
    ensures
        out == json_parsed_bytes(body@),
{
    parse_json_bytes(body)
}

/// Where one exchange with the engine stands.
#[derive(Debug, Clone, Copy, PartialEq, Eq, Structural)]
pub enum RpcStage {
    /// Nothing sent yet.
    Start,
    /// `initialize` sent; waiting for its answer.
    Initializing,
    /// The request sent; waiting for its answer.
    Requesting,
    /// Over.
    Done,
}

/// One request to the engine: the corpus root, the scratch workspace, and
/// the method and parameters asked for.
#[derive(Debug)]
pub struct RpcState {
    pub stage: RpcStage,
    pub root: String,
    pub workspace: String,
    pub method: String,
    pub params: Json,
}

pub struct RpcStateV {
    pub stage: RpcStage,
    pub root: Seq<char>,
    pub workspace: Seq<char>,
    pub method: Seq<char>,
    pub params: JsonV,
}

impl View for RpcState {
    type V = RpcStateV;

    open spec fn view(&self) -> RpcStateV {
        RpcStateV {
            stage: self.stage,
            root: self.root@,
            workspace: self.workspace@,
            method: self.method@,
            params: json_view(self.params),
        }
    }
}

/// What came from the engine.
#[derive(Debug)]
pub enum RpcEvent {
    /// Begin the exchange.
    Begin,
    /// A message the engine sent, read as JSON.
    Message(Json),
    /// Nothing more will come: the engine closed its output, or the time
    /// allowed ran out.
    Silent,
}

/// What to do next.
#[derive(Debug)]
pub enum RpcAction {
    /// Send these messages, in order, and wait.
    Send(Vec<Json>),
    /// Keep waiting.
    Wait,
    /// Send these messages, in order, ignoring failures; then stop the
    /// engine. The exchange's outcome is `result`.
    Finish { send: Vec<Json>, result: Result<Json, String> },
}

pub enum RpcActionV {
    Send(Seq<JsonV>),
    Wait,
    Finish { send: Seq<JsonV>, result: Result<Json, Seq<char>> },
}

pub open spec fn json_list_views(v: Seq<Json>) -> Seq<JsonV> {
    v.map_values(|j: Json| json_view(j))
}

impl View for RpcAction {
    type V = RpcActionV;

    open spec fn view(&self) -> RpcActionV {
        match self {
            RpcAction::Send(ms) => RpcActionV::Send(json_list_views(ms@)),
            RpcAction::Wait => RpcActionV::Wait,
            RpcAction::Finish { send, result } => RpcActionV::Finish {
                send: json_list_views(send@),
                result: match result {
                    Ok(m) => Ok(*m),
                    Err(e) => Err(e@),
                },
            },
        }
    }
}

pub open spec fn jstr(s: Seq<char>) -> JsonV {
    JsonV::Str(s)
}

/// `initialize`, id 1, with writes declared: the scaffold method refuses a
/// read-only session even for a dry run.
pub open spec fn initialize_message(root: Seq<char>, workspace: Seq<char>) -> JsonV {
    JsonV::Object(
        seq![
            ("id"@, JsonV::Number("1"@)),
            ("jsonrpc"@, jstr("2.0"@)),
            ("method"@, jstr("initialize"@)),
            (
                "params"@,
                JsonV::Object(
                    seq![
                        ("allow_writes"@, JsonV::Bool(true)),
                        ("roots"@, JsonV::Array(seq![jstr(root)])),
                        ("workspace"@, jstr(workspace)),
                    ],
                ),
            ),
        ],
    )
}

pub open spec fn initialized_message() -> JsonV {
    JsonV::Object(
        seq![("jsonrpc"@, jstr("2.0"@)), ("method"@, jstr("initialized"@)), ("params"@, JsonV::Object(seq![]))],
    )
}

/// The request itself, id 2.
pub open spec fn request_message(method: Seq<char>, params: JsonV) -> JsonV {
    JsonV::Object(
        seq![("id"@, JsonV::Number("2"@)), ("jsonrpc"@, jstr("2.0"@)), ("method"@, jstr(method)), ("params"@, params)],
    )
}

pub open spec fn shutdown_message() -> JsonV {
    JsonV::Object(
        seq![("id"@, JsonV::Number("3"@)), ("jsonrpc"@, jstr("2.0"@)), ("method"@, jstr("shutdown"@)), ("params"@, JsonV::Null)],
    )
}

pub open spec fn exit_message() -> JsonV {
    JsonV::Object(seq![("jsonrpc"@, jstr("2.0"@)), ("method"@, jstr("exit"@))])
}

/// The message answers the request with this id.
pub open spec fn answers(m: Json, id: int) -> bool {
    match json_get(m, "id"@) {
        Some(v) => json_i64(v) == Some(id),
        None => false,
    }
}

pub open spec fn silent_message() -> Seq<char> {
    "the Gearbox engine did not answer within 60s"@
}

/// One step of an exchange with the engine: initialize, then the request,
/// then shut down. A message that answers nothing the exchange waits for is
/// passed over; an engine that falls silent ends it with an error.
pub open spec fn rpc_step(s: RpcStateV, e: RpcEvent) -> (RpcStateV, RpcActionV) {
    match (s.stage, e) {
        (RpcStage::Start, RpcEvent::Begin) => (
            RpcStateV { stage: RpcStage::Initializing, ..s },
            RpcActionV::Send(seq![initialize_message(s.root, s.workspace)]),
        ),
        (RpcStage::Initializing, RpcEvent::Message(m)) => if answers(m, 1) {
            match json_get(m, "error"@) {
                Some(err) => (
                    RpcStateV { stage: RpcStage::Done, ..s },
                    RpcActionV::Finish {
                        send: seq![],
                        result: Err("the engine refused to initialize: "@ + json_written(json_view(err))),
                    },
                ),
                None => (
                    RpcStateV { stage: RpcStage::Requesting, ..s },
                    RpcActionV::Send(seq![initialized_message(), request_message(s.method, s.params)]),
                ),
            }
        } else {
            (s, RpcActionV::Wait)
        },
        (RpcStage::Requesting, RpcEvent::Message(m)) => if answers(m, 2) {
            (
                RpcStateV { stage: RpcStage::Done, ..s },
                RpcActionV::Finish { send: seq![shutdown_message(), exit_message()], result: Ok(m) },
            )
        } else {
            (s, RpcActionV::Wait)
        },
        (RpcStage::Initializing, RpcEvent::Silent) | (RpcStage::Requesting, RpcEvent::Silent) => (
            RpcStateV { stage: RpcStage::Done, ..s },
            RpcActionV::Finish { send: seq![], result: Err(silent_message()) },
        ),
        _ => (s, RpcActionV::Wait),
    }
}

fn object(pairs: Vec<(String, Json)>) -> (out: Json)
    ensures
        json_view(out) == JsonV::Object(member_views(pairs@)),
{
    Json::Object(pairs)
}

fn initialize_exec(root: &str, workspace: &str) -> (out: Json)
    ensures
        json_view(out) == initialize_message(root@, workspace@),
{
    let mut params: Vec<(String, Json)> = Vec::new();
    push_member(&mut params, "allow_writes", Json::Bool(true));
    let mut items: Vec<Json> = Vec::new();
    let r = Json::Str(root.to_owned());
    items.push(r);
    proof {
        assert(items@.drop_last() =~= Seq::<Json>::empty());
        assert(items@.last() == r);
        assert(json_views(Seq::<Json>::empty()) =~= Seq::<JsonV>::empty());
        assert(json_view(r) == jstr(root@));
        assert(json_views(items@) == json_views(items@.drop_last()).push(json_view(items@.last())));
        assert(json_views(items@) =~= seq![jstr(root@)]);
    }
    let roots = Json::Array(items);
    push_member(&mut params, "roots", roots);
    push_member(&mut params, "workspace", Json::Str(workspace.to_owned()));
    let ghost pv = member_views(params@);
    let mut m: Vec<(String, Json)> = Vec::new();
    push_member(&mut m, "id", Json::Number("1".to_owned()));
    push_member(&mut m, "jsonrpc", Json::Str("2.0".to_owned()));
    push_member(&mut m, "method", Json::Str("initialize".to_owned()));
    push_member(&mut m, "params", Json::Object(params));
    proof {
        assert(pv =~= seq![
            ("allow_writes"@, JsonV::Bool(true)),
            ("roots"@, JsonV::Array(seq![jstr(root@)])),
            ("workspace"@, jstr(workspace@)),
        ]);
        assert(member_views(m@) =~= seq![
            ("id"@, JsonV::Number("1"@)),
            ("jsonrpc"@, jstr("2.0"@)),
            ("method"@, jstr("initialize"@)),
            ("params"@, JsonV::Object(pv)),
        ]);
    }
    object(m)
}

fn initialized_exec() -> (out: Json)
    ensures
        json_view(out) == initialized_message(),
{
    let mut m: Vec<(String, Json)> = Vec::new();
    push_member(&mut m, "jsonrpc", Json::Str("2.0".to_owned()));
    push_member(&mut m, "method", Json::Str("initialized".to_owned()));
    push_member(&mut m, "params", Json::Object(Vec::new()));
    proof {
        assert(member_views(Seq::<(String, Json)>::empty()) =~= Seq::<(Seq<char>, JsonV)>::empty());
        assert(member_views(m@) =~= seq![
            ("jsonrpc"@, jstr("2.0"@)),
            ("method"@, jstr("initialized"@)),
            ("params"@, JsonV::Object(seq![])),
        ]);
    }
    object(m)
}

fn request_exec(method: &str, params: &Json) -> (out: Json)
    ensures
        json_view(out) == request_message(method@, json_view(*params)),
{
    let mut m: Vec<(String, Json)> = Vec::new();
    push_member(&mut m, "id", Json::Number("2".to_owned()));
    push_member(&mut m, "jsonrpc", Json::Str("2.0".to_owned()));
    push_member(&mut m, "method", Json::Str(method.to_owned()));
    push_member(&mut m, "params", params.copy());
    proof {
        assert(member_views(m@) =~= seq![
            ("id"@, JsonV::Number("2"@)),
            ("jsonrpc"@, jstr("2.0"@)),
            ("method"@, jstr(method@)),
            ("params"@, json_view(*params)),
        ]);
    }
    object(m)
}

fn shutdown_exec() -> (out: Json)
    ensures
        json_view(out) == shutdown_message(),
{
    let mut m: Vec<(String, Json)> = Vec::new();
    push_member(&mut m, "id", Json::Number("3".to_owned()));
    push_member(&mut m, "jsonrpc", Json::Str("2.0".to_owned()));
    push_member(&mut m, "method", Json::Str("shutdown".to_owned()));
    push_member(&mut m, "params", Json::Null);
    proof {
        assert(member_views(m@) =~= seq![
            ("id"@, JsonV::Number("3"@)),
            ("jsonrpc"@, jstr("2.0"@)),
            ("method"@, jstr("shutdown"@)),
            ("params"@, JsonV::Null),
        ]);
    }
    object(m)
}

fn exit_exec() -> (out: Json)
    ensures
        json_view(out) == exit_message(),
{
    let mut m: Vec<(String, Json)> = Vec::new();
    push_member(&mut m, "jsonrpc", Json::Str("2.0".to_owned()));
    push_member(&mut m, "method", Json::Str("exit".to_owned()));
    proof {
        assert(member_views(m@) =~= seq![("jsonrpc"@, jstr("2.0"@)), ("method"@, jstr("exit"@))]);
    }
    object(m)
}

fn answers_exec(m: &Json, id: i64) -> (r: bool)
    ensures
        r == answers(*m, id as int),
{
    match m.get("id") {
        Some(v) => match v.as_i64() {
            Some(x) => x == id,
            None => false,
        },
        None => false,
    }
}

/// The state an exchange starts in.
pub fn rpc_start(root: &str, workspace: &str, method: &str, params: Json) -> (out: RpcState)
    ensures
        out@ == (RpcStateV {
            stage: RpcStage::Start,
            root: root@,
            workspace: workspace@,
            method: method@,
            params: json_view(params),
        }),
{
    RpcState {
        stage: RpcStage::Start,
        root: root.to_owned(),
        workspace: workspace.to_owned(),
        method: method.to_owned(),
        params,
    }
}

fn with_stage(s: RpcState, stage: RpcStage) -> (out: RpcState)
    ensures
        out@ == (RpcStateV { stage, ..s@ }),
{
    RpcState { stage, ..s }
}

/// One step of an exchange with the engine: given where it stands and what
/// came from the engine, the next state and what to do.
pub fn rpc_next(state: RpcState, event: RpcEvent) -> (out: (RpcState, RpcAction))
    ensures
        (out.0@, out.1@) == rpc_step(state@, event),
{
    let ghost e = event;
    match (state.stage, event) {
        (RpcStage::Start, RpcEvent::Begin) => {
            let init = initialize_exec(state.root.as_str(), state.workspace.as_str());
            let ms = vec![init];
            proof {
                assert(json_list_views(ms@) =~= seq![initialize_message(state@.root, state@.workspace)]);
            }
            (with_stage(state, RpcStage::Initializing), RpcAction::Send(ms))
        },
        (RpcStage::Initializing, RpcEvent::Message(m)) => {
            if answers_exec(&m, 1) {
                match m.get("error") {
                    Some(err) => {
                        let text = write_json(err);
                        let mut msg: Vec<char> = Vec::new();
                        push_str(&mut msg, "the engine refused to initialize: ");
                        push_str(&mut msg, text.as_str());
                        let ms: Vec<Json> = Vec::new();
                        proof {
                            assert(json_list_views(ms@) =~= Seq::<JsonV>::empty());
                        }
                        (with_stage(state, RpcStage::Done), RpcAction::Finish { send: ms, result: Err(string_of(&msg)) })
                    },
                    None => {
                        let a = initialized_exec();
                        let b = request_exec(state.method.as_str(), &state.params);
                        let ms = vec![a, b];
                        proof {
                            assert(json_list_views(ms@) =~= seq![
                                initialized_message(),
                                request_message(state@.method, state@.params),
                            ]);
                        }
                        (with_stage(state, RpcStage::Requesting), RpcAction::Send(ms))
                    },
                }
            } else {
                (state, RpcAction::Wait)
            }
        },
        (RpcStage::Requesting, RpcEvent::Message(m)) => {
            if answers_exec(&m, 2) {
                let ms = vec![shutdown_exec(), exit_exec()];
                proof {
                    assert(json_list_views(ms@) =~= seq![shutdown_message(), exit_message()]);
                }
                (with_stage(state, RpcStage::Done), RpcAction::Finish { send: ms, result: Ok(m) })
            } else {
                (state, RpcAction::Wait)
            }
        },
        (RpcStage::Initializing, RpcEvent::Silent) | (RpcStage::Requesting, RpcEvent::Silent) => {
            let ms: Vec<Json> = Vec::new();
            proof {
                assert(json_list_views(ms@) =~= Seq::<JsonV>::empty());
            }
            (
                with_stage(state, RpcStage::Done),
                RpcAction::Finish { send: ms, result: Err("the Gearbox engine did not answer within 60s".to_owned()) },
            )
        },
        _ => (state, RpcAction::Wait),
    }
}

/// The request is made only once the engine has accepted `initialize`: a
/// step sends it only from the initializing state, on the answer to
/// `initialize` that carries no error.
pub proof fn law_the_request_follows_an_accepted_initialize(s: RpcStateV, e: RpcEvent)
    ensures
        match rpc_step(s, e).1 {
            RpcActionV::Send(ms) => ms.contains(request_message(s.method, s.params)) ==> (s.stage
                == RpcStage::Initializing && match e {
                RpcEvent::Message(m) => answers(m, 1) && json_get(m, "error"@) is None,
                _ => false,
            }),
            _ => true,
        },
{
    if s.stage == RpcStage::Start && e is Begin {
        let ms = seq![initialize_message(s.root, s.workspace)];
        if ms.contains(request_message(s.method, s.params)) {
            reveal_strlit("1");
            reveal_strlit("2");
            assert(ms[0] == request_message(s.method, s.params));
            let a = initialize_message(s.root, s.workspace);
            let b = request_message(s.method, s.params);
            match (a, b) {
                (JsonV::Object(x), JsonV::Object(y)) => {
                    assert(x[0] == y[0]);
                    assert("1"@[0] != "2"@[0]);
                },
                _ => {},
            }
        }
    }
}

} // verus!
