use studio_backend::components_catalog::engine_rpc::{
    frame, frame_length, read_message, rpc_next, rpc_start, RpcAction, RpcEvent, RpcStage,
};
use studio_backend::json::Json;

fn lines(v: &[&str]) -> Vec<String> {
    v.iter().map(|s| (*s).to_owned()).collect()
}

fn json(t: &str) -> Json {
    Json::parse(t).expect("test JSON parses")
}

#[test]
fn the_last_content_length_header_gives_the_body_length() {
    assert_eq!(frame_length(&lines(&["Content-Length: 42\r"])), Some(42));
    assert_eq!(frame_length(&lines(&["Content-Type: x", "Content-Length:  7  "])), Some(7));
    assert_eq!(frame_length(&lines(&["Content-Length: 1", "Content-Length: 2"])), Some(2));
    assert_eq!(frame_length(&lines(&["Content-Length: +5"])), Some(5));
}

#[test]
fn a_missing_or_malformed_length_is_none() {
    assert_eq!(frame_length(&lines(&[])), None);
    assert_eq!(frame_length(&lines(&["Content-Type: x"])), None);
    assert_eq!(frame_length(&lines(&["Content-Length: many"])), None);
    assert_eq!(frame_length(&lines(&["Content-Length: 3", "Content-Length: -1"])), None);
    assert_eq!(frame_length(&lines(&["content-length: 3"])), None);
}

#[test]
fn a_frame_is_its_header_a_blank_line_and_the_json() {
    let m = json(r#"{"jsonrpc":"2.0","method":"exit"}"#);
    let bytes = frame(&m);
    let text = String::from_utf8(bytes).unwrap();
    assert_eq!(text, "Content-Length: 33\r\n\r\n{\"jsonrpc\":\"2.0\",\"method\":\"exit\"}");
}

#[test]
fn a_body_reads_as_json_or_not_at_all() {
    assert_eq!(read_message(br#"{"id":1}"#), Some(json(r#"{"id":1}"#)));
    assert_eq!(read_message(b"{not json"), None);
}

fn sent(a: &RpcAction) -> Vec<String> {
    match a {
        RpcAction::Send(ms) => ms
            .iter()
            .map(|m| m.get("method").and_then(|j| j.as_str()).unwrap_or("").to_owned())
            .collect(),
        other => panic!("unexpected {other:?}"),
    }
}

#[test]
fn an_exchange_initializes_asks_and_shuts_down() {
    let s = rpc_start("/corpus", "/scratch", "gearbox/gear/scaffold", json(r#"{"id":"x"}"#));
    let (s, a) = rpc_next(s, RpcEvent::Begin);
    assert_eq!(sent(&a), vec!["initialize"]);
    if let RpcAction::Send(ms) = &a {
        let p = ms[0].get("params").unwrap();
        assert_eq!(p.get("allow_writes"), Some(&Json::Bool(true)));
        assert_eq!(p.get("workspace").and_then(|j| j.as_str()), Some("/scratch"));
        assert_eq!(ms[0].get("id").and_then(|j| j.as_i64()), Some(1));
    }
    let (s, a) = rpc_next(s, RpcEvent::Message(json(r#"{"method":"log"}"#)));
    assert!(matches!(a, RpcAction::Wait));
    let (s, a) = rpc_next(s, RpcEvent::Message(json(r#"{"id":1,"result":{}}"#)));
    assert_eq!(sent(&a), vec!["initialized", "gearbox/gear/scaffold"]);
    assert_eq!(s.stage, RpcStage::Requesting);
    let (s, a) = rpc_next(s, RpcEvent::Message(json(r#"{"id":2,"result":{"gear_gdl":"g"}}"#)));
    match a {
        RpcAction::Finish { send, result } => {
            let names: Vec<&str> = send.iter().map(|m| m.get("method").and_then(|j| j.as_str()).unwrap()).collect();
            assert_eq!(names, vec!["shutdown", "exit"]);
            assert_eq!(result.unwrap().get("id").and_then(|j| j.as_i64()), Some(2));
        },
        other => panic!("unexpected {other:?}"),
    }
    assert_eq!(s.stage, RpcStage::Done);
}

#[test]
fn a_refused_initialize_and_a_silent_engine_end_the_exchange() {
    let s = rpc_start("/c", "/w", "m", Json::Null);
    let (s, _) = rpc_next(s, RpcEvent::Begin);
    let (_, a) = rpc_next(s, RpcEvent::Message(json(r#"{"id":1,"error":{"code":-1}}"#)));
    match a {
        RpcAction::Finish { result, .. } => {
            assert_eq!(result.unwrap_err(), "the engine refused to initialize: {\"code\":-1}")
        },
        other => panic!("unexpected {other:?}"),
    }
    let s = rpc_start("/c", "/w", "m", Json::Null);
    let (s, _) = rpc_next(s, RpcEvent::Begin);
    let (_, a) = rpc_next(s, RpcEvent::Silent);
    match a {
        RpcAction::Finish { send, result } => {
            assert!(send.is_empty());
            assert_eq!(result.unwrap_err(), "the Gearbox engine did not answer within 60s");
        },
        other => panic!("unexpected {other:?}"),
    }
}
