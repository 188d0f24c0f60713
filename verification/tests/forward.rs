use studio_backend::git_proxy::forward::{
    proxy_next, upstream_status, ProxyAction, ProxyEvent, ProxyStage, ProxyState, UpstreamAnswer,
};
use studio_backend::git_proxy::sources::{upstream_authorization, Service, Source};

fn source(name: &str, url: &str, token_ref: Option<&str>) -> Source {
    Source {
        name: name.to_owned(),
        url: url.to_owned(),
        branch: None,
        target: None,
        token_ref: token_ref.map(str::to_owned),
    }
}

fn state(path: &str, authorization: Option<&str>) -> ProxyState {
    ProxyState {
        stage: ProxyStage::Start,
        authorization: authorization.map(str::to_owned),
        source: "docs".to_owned(),
        protocol_path: path.to_owned(),
        service: Service::UploadPack,
        post: false,
        headers: vec![
            ("authorization".to_owned(), "Bearer studio".to_owned()),
            ("user-agent".to_owned(), "git/2.45".to_owned()),
            ("cookie".to_owned(), "x".to_owned()),
            ("git-protocol".to_owned(), "version=2".to_owned()),
        ],
        url: String::new(),
    }
}

fn refused(a: &ProxyAction) -> (u16, String) {
    match a {
        ProxyAction::Refuse { status, message } => (*status, message.clone()),
        other => panic!("unexpected {other:?}"),
    }
}

#[test]
fn a_caller_without_a_token_is_challenged() {
    let (_, a) = proxy_next(state("info/refs", None), ProxyEvent::Begin);
    assert_eq!(refused(&a).0, 401);
}

fn to_listing() -> ProxyState {
    let (s, a) = proxy_next(state("info/refs", Some("Bearer studio-token")), ProxyEvent::Begin);
    assert!(matches!(a, ProxyAction::Authenticate(ref t) if t == "studio-token"));
    let (s, a) = proxy_next(s, ProxyEvent::Authenticated(true));
    assert!(matches!(a, ProxyAction::ListSources));
    s
}

#[test]
fn an_unknown_source_is_not_found() {
    let (_, a) = proxy_next(to_listing(), ProxyEvent::Sources(Some(vec![source("other", "https://h/r.git", None)])));
    assert_eq!(refused(&a), (404, "The workspace has no Git source by that name.".to_owned()));
    let (_, a) = proxy_next(to_listing(), ProxyEvent::Sources(None));
    assert_eq!(refused(&a).0, 404);
    let (_, a) = proxy_next(to_listing(), ProxyEvent::Sources(Some(vec![source("docs", "git@h:r.git", None)])));
    assert_eq!(refused(&a).0, 404);
}

#[test]
fn only_the_protocol_headers_and_the_sources_token_go_upstream() {
    let (s, a) = proxy_next(
        to_listing(),
        ProxyEvent::Sources(Some(vec![source("docs", "https://h/r.git/", Some("cred-1"))])),
    );
    assert!(matches!(a, ProxyAction::ReadToken(ref r) if r == "cred-1"));
    let (s, a) = proxy_next(s, ProxyEvent::Token(Some("pat".to_owned())));
    match a {
        ProxyAction::Send { post, url, headers } => {
            assert!(!post);
            assert_eq!(url, "https://h/r.git/info/refs?service=git-upload-pack");
            assert_eq!(
                headers,
                vec![
                    ("user-agent".to_owned(), "git/2.45".to_owned()),
                    ("git-protocol".to_owned(), "version=2".to_owned()),
                    ("authorization".to_owned(), upstream_authorization("pat")),
                ]
            );
        },
        other => panic!("unexpected {other:?}"),
    }
    assert_eq!(s.stage, ProxyStage::Sending);
}

#[test]
fn an_unreadable_token_is_refused() {
    let (s, _) = proxy_next(to_listing(), ProxyEvent::Sources(Some(vec![source("docs", "https://h/r", Some("c"))])));
    let (_, a) = proxy_next(s, ProxyEvent::Token(None));
    assert_eq!(refused(&a).0, 403);
}

#[test]
fn the_host_refusing_the_stored_token_is_the_proxys_own_403() {
    let (s, a) = proxy_next(to_listing(), ProxyEvent::Sources(Some(vec![source("docs", "https://h/r", None)])));
    assert!(matches!(a, ProxyAction::Send { ref headers, .. } if headers.iter().all(|h| h.0 != "authorization")));
    let answer = UpstreamAnswer { status: 401, headers: vec![] };
    let (_, a) = proxy_next(s, ProxyEvent::Upstream(Some(answer)));
    assert_eq!(
        refused(&a),
        (403, "The source host refused the workspace's token; ask an owner to update the connection.".to_owned())
    );
}

#[test]
fn an_answer_is_relayed_with_its_protocol_headers() {
    let (s, _) = proxy_next(to_listing(), ProxyEvent::Sources(Some(vec![source("docs", "https://h/r", None)])));
    let answer = UpstreamAnswer {
        status: 200,
        headers: vec![
            ("content-type".to_owned(), "application/x-git-upload-pack-advertisement".to_owned()),
            ("set-cookie".to_owned(), "s".to_owned()),
            ("cache-control".to_owned(), "no-cache".to_owned()),
        ],
    };
    let (_, a) = proxy_next(s, ProxyEvent::Upstream(Some(answer)));
    match a {
        ProxyAction::Relay { status, headers } => {
            assert_eq!(status, 200);
            assert_eq!(headers.len(), 2);
            assert_eq!(headers[0].0, "content-type");
            assert_eq!(headers[1].0, "cache-control");
        },
        other => panic!("unexpected {other:?}"),
    }
    let (s, _) = proxy_next(to_listing(), ProxyEvent::Sources(Some(vec![source("docs", "https://h/r", None)])));
    let (_, a) = proxy_next(s, ProxyEvent::Upstream(None));
    assert_eq!(refused(&a).0, 502);
}

#[test]
fn upstream_status_refuses_exactly_401_and_403() {
    assert_eq!(upstream_status(401), Err(403));
    assert_eq!(upstream_status(403), Err(403));
    assert_eq!(upstream_status(404), Ok(404));
    assert_eq!(upstream_status(200), Ok(200));
    assert_eq!(upstream_status(42), Ok(502));
}
