use serde_json::Value;
use simple_llm_proxy::auth::authorize;
use simple_llm_proxy::config::{Config, ServerEntry, ServerGroup};
use simple_llm_proxy::endpoints::{is_protected, routes, Endpoint};
use simple_llm_proxy::error::{ProxyError, RequestFailure};
use simple_llm_proxy::gpu_set::GpuSet;
use simple_llm_proxy::models::Report;
use simple_llm_proxy::proxy::{
    candidate_gpu_sets, forward_get, forward_request, models_queries, pick_server,
    relayed_headers, server_for_turn, Header, Method,
};
use simple_llm_proxy::query::{query_parameter, replace_query_parameter};
use simple_llm_proxy::register::{
    base_url, first_step, health_request, next_step, registered_reply, unreachable_host, Scheme,
    Step,
};
use simple_llm_proxy::routes::{
    get_props, health, model_of_document, proxy_model_request, route_document,
    streaming_gpu_sets, Props, RoutedRequest,
};
use simple_llm_proxy::state::{AppState, DiscoveredHost};
use simple_llm_proxy::text::{decimal_text, trim_end_slashes};
use std::sync::Arc;

fn value(text: &str) -> Value {
    serde_json::from_str(text).unwrap()
}

/// A configured set `a` with the model `plain`, and a registered host with the
/// model `own`.
fn state() -> AppState {
    let mut state = AppState::from_config(Config {
        listen: "127.0.0.1:0".to_string(),
        api_tokens: vec!["proxy-secret".to_string()],
        servers: vec![ServerGroup {
            name: "a".to_string(),
            entries: vec![
                ServerEntry::Url("http://a1/".to_string()),
                ServerEntry::Url("http://a2".to_string()),
                ServerEntry::Url("http://a3".to_string()),
            ],
        }],
    });
    state.add_discovered_host(
        DiscoveredHost {
            host: "127.0.0.1".to_string(),
            port: 9000,
            api_key: "backend-secret".to_string(),
        },
        "http://127.0.0.1:9000".to_string(),
    );
    let bodies = [r#"{"data":[{"id":"plain"}]}"#, r#"{"data":[{"id":"own"}]}"#];
    let reports: Vec<Report> = state
        .gpu_sets
        .iter()
        .zip(bodies)
        .map(|(set, body)| Report {
            gpu_set: Arc::clone(set),
            body: Some(body.as_bytes().to_vec()),
        })
        .collect();
    state.discover_models(&reports);
    state
}

fn names(sets: &[Arc<GpuSet>]) -> Vec<&str> {
    sets.iter().map(|s| s.name.as_str()).collect()
}

fn bad_request(r: Result<RoutedRequest, ProxyError>) -> String {
    match r {
        Err(ProxyError::BadRequest(message)) => message,
        Err(other) => panic!("{other:?}"),
        Ok(_) => panic!("routed"),
    }
}

#[test]
fn a_request_goes_on_unchanged_where_the_ids_agree() {
    let body = br#"{ "model" : "plain", "n": 1.50 }"#.to_vec();
    let routed = proxy_model_request(&state(), body.clone()).unwrap();
    assert_eq!(names(&routed.gpu_sets), ["a"]);
    assert_eq!(routed.body, body);
}

#[test]
fn a_registered_host_gets_its_own_id() {
    let body = br#"{"model":"127.0.0.1/own","messages":[]}"#.to_vec();
    let routed = proxy_model_request(&state(), body).unwrap();
    assert_eq!(names(&routed.gpu_sets), ["discovered-127.0.0.1-9000"]);
    assert_eq!(routed.body, br#"{"messages":[],"model":"own"}"#.to_vec());
}

#[test]
fn requests_that_cannot_be_routed_are_refused() {
    let state = state();
    assert_eq!(
        bad_request(proxy_model_request(&state, b"{".to_vec())),
        "invalid JSON: EOF while parsing an object at line 1 column 1"
    );
    for body in [r#"{}"#, r#"{"model":1}"#, r#"["model"]"#] {
        assert_eq!(
            bad_request(proxy_model_request(&state, body.as_bytes().to_vec())),
            "missing \"model\" field"
        );
    }
    assert_eq!(
        bad_request(proxy_model_request(&state, br#"{"model":"own"}"#.to_vec())),
        "model not found: own"
    );
}

#[test]
fn parsed_bodies_are_routed_by_what_they_hold() {
    let state = state();
    let routed = route_document(
        &state,
        b"raw".to_vec(),
        Ok(value(r#"{"model":"127.0.0.1/own"}"#)),
    )
    .unwrap();
    assert_eq!(routed.body, br#"{"model":"own"}"#.to_vec());
    let routed =
        route_document(&state, b"raw".to_vec(), Ok(value(r#"{"model":"plain"}"#))).unwrap();
    assert_eq!(routed.body, b"raw".to_vec());
    assert_eq!(
        bad_request(route_document(&state, Vec::new(), Err("why".to_string()))),
        "invalid JSON: why"
    );
    let text = "why".to_string();
    assert!(model_of_document(Err(&text)).is_err());
    assert_eq!(
        model_of_document(Ok(&value(r#"{"model":"m"}"#))).unwrap(),
        "m"
    );
}

#[test]
fn only_unchanged_bodies_are_streamed() {
    let state = state();
    let sets = streaming_gpu_sets(&state, "plain").unwrap();
    assert_eq!(names(&sets), ["a"]);
    assert!(streaming_gpu_sets(&state, "127.0.0.1/own").is_none());
    assert!(streaming_gpu_sets(&state, "none").is_none());
    assert!(matches!(
        candidate_gpu_sets(&state, "none"),
        Err(ProxyError::BadRequest(m)) if m == "model not found: none"
    ));
}

#[test]
fn nothing_but_the_model_decides_where_a_request_goes() {
    let state = state();
    let bodies = [
        r#"{"model":"127.0.0.1/own"}"#,
        r#"{"messages":[{"content":"{\"model\":\"plain\"}"}],"model":"127.0.0.1/own"}"#,
    ];
    for body in bodies {
        let routed = proxy_model_request(&state, body.as_bytes().to_vec()).unwrap();
        assert_eq!(names(&routed.gpu_sets), ["discovered-127.0.0.1-9000"]);
    }
}

#[test]
fn servers_take_turns() {
    let state = state();
    let set = &state.gpu_sets[0];
    let picked: Vec<&str> = (0..7).map(|_| pick_server(set).url()).collect();
    assert_eq!(
        picked,
        [
            "http://a1/", "http://a2", "http://a3", "http://a1/", "http://a2", "http://a3",
            "http://a1/"
        ]
    );
    assert_eq!(server_for_turn(set, 7).url(), "http://a2");
    assert_eq!(server_for_turn(set, 8).url(), "http://a3");
    assert_eq!(server_for_turn(set, 9).url(), "http://a1/");
    assert_eq!(server_for_turn(set, usize::MAX).url(), "http://a1/");
}

#[test]
fn requests_are_addressed_to_the_server() {
    let plain = ServerEntry::Url("http://a1//".to_string());
    let get = forward_get(&plain, "/props?x=1");
    assert_eq!(get.method, Method::Get);
    assert_eq!(get.url, "http://a1/props?x=1");
    assert_eq!(get.bearer, None);
    assert_eq!(get.content_type, None);

    let guarded = ServerEntry::WithToken {
        url: "http://b".to_string(),
        token: "t".to_string(),
    };
    let post = forward_request(&guarded, "/v1/completions");
    assert_eq!(post.method, Method::Post);
    assert_eq!(post.url, "http://b/v1/completions");
    assert_eq!(post.bearer.as_deref(), Some("t"));
    assert_eq!(post.content_type.as_deref(), Some("application/json"));

    let state = state();
    let urls: Vec<String> = models_queries(&state.gpu_sets)
        .into_iter()
        .map(|q| q.request.url)
        .collect();
    assert_eq!(
        urls,
        [
            "http://a1/v1/models",
            "http://a2/v1/models",
            "http://a3/v1/models",
            "http://127.0.0.1:9000/models"
        ]
    );
}

#[test]
fn transfer_encoding_is_not_relayed() {
    let header = |name: &str, value: &[u8]| Header {
        name: name.to_string(),
        value: value.to_vec(),
    };
    let kept = relayed_headers(vec![
        header("content-type", b"text/event-stream"),
        header("transfer-encoding", b"chunked"),
        header("x", b"\xff"),
        header("x", b""),
    ]);
    let kept: Vec<(&str, &[u8])> = kept
        .iter()
        .map(|h| (h.name.as_str(), h.value.as_slice()))
        .collect();
    assert_eq!(
        kept,
        [
            ("content-type", b"text/event-stream".as_slice()),
            ("x", b"\xff".as_slice()),
            ("x", b"".as_slice())
        ]
    );
}

#[test]
fn errors_are_told_in_json() {
    let reply = ProxyError::BadRequest("why".to_string()).into_response();
    assert_eq!(reply.status, 400);
    assert_eq!(
        reply.body,
        value(r#"{"error":{"message":"why","type":"proxy_error","code":"bad_request"}}"#)
    );
    let reply = ProxyError::BackendUnavailable("why".to_string()).into_response();
    assert_eq!(reply.status, 502);
    assert_eq!(
        reply.body,
        value(r#"{"error":{"message":"why","type":"proxy_error","code":"backend_unavailable"}}"#)
    );
    let reply = ProxyError::Internal("why".to_string()).into_response();
    assert_eq!(reply.status, 500);
    assert_eq!(
        reply.body,
        value(r#"{"error":{"message":"why","type":"proxy_error","code":"internal_error"}}"#)
    );
}

#[test]
fn failures_become_errors() {
    let failure = |connect, timeout| {
        ProxyError::from_request_failure(RequestFailure {
            connect,
            timeout,
            text: "e".to_string(),
        })
    };
    assert!(matches!(failure(true, true),
        ProxyError::BackendUnavailable(m) if m == "backend connection failed: e"));
    assert!(matches!(failure(false, true),
        ProxyError::BackendUnavailable(m) if m == "backend timed out: e"));
    assert!(matches!(failure(false, false),
        ProxyError::Internal(m) if m == "request error: e"));
    assert!(matches!(ProxyError::from_body_failure("e"),
        ProxyError::BadRequest(m) if m == "failed to read request body: e"));
    assert!(matches!(ProxyError::from_response_failure("e"),
        ProxyError::Internal(m) if m == "failed to build response: e"));
}

#[test]
fn a_token_opens_the_proxy() {
    let tokens = vec!["one".to_string(), "two".to_string()];
    assert_eq!(authorize(Some("Bearer one"), &tokens), Ok(()));
    assert_eq!(authorize(Some("Bearer two"), &tokens), Ok(()));
    for header in ["Bearer three", "bearer one", "one", "Bearer  one", "Bearer one "] {
        assert_eq!(authorize(Some(header), &tokens), Err(401));
    }
    assert_eq!(authorize(None, &tokens), Err(401));
    assert_eq!(authorize(Some("Bearer "), &Vec::new()), Err(401));
}

#[test]
fn health_is_ok() {
    assert_eq!(health(), value(r#"{"status":"ok"}"#));
}

fn forwarded(props: Props) -> (String, String) {
    match props {
        Props::Forward { gpu_set, path } => (gpu_set.name.clone(), path),
        Props::Document(body) => panic!("{body}"),
    }
}

#[test]
fn props_come_from_the_backend() {
    let state = state();
    assert_eq!(
        forwarded(get_props(&state, "")),
        ("a".to_string(), "/props".to_string())
    );
    assert_eq!(
        forwarded(get_props(&state, "x=1&model")),
        ("a".to_string(), "/props?x=1&model".to_string())
    );
    assert_eq!(
        forwarded(get_props(&state, "x=1&model=plain")),
        ("a".to_string(), "/props?x=1&model=plain".to_string())
    );
    assert_eq!(
        forwarded(get_props(&state, "model=127.0.0.1/own&y")),
        (
            "discovered-127.0.0.1-9000".to_string(),
            "/props?model=own&y".to_string()
        )
    );
}

#[test]
fn props_of_an_unknown_model_say_so() {
    match get_props(&state(), "model=none") {
        Props::Document(body) => assert_eq!(
            body,
            value(
                r#"{"error":{"code":400,"message":"model is not loaded","type":"not_found_error"}}"#
            )
        ),
        Props::Forward { path, .. } => panic!("{path}"),
    }
}

#[test]
fn query_parameters_are_read_and_replaced() {
    assert_eq!(query_parameter("a=1&model=x=y&model=z", "model").as_deref(), Some("x=y"));
    assert_eq!(query_parameter("model=", "model").as_deref(), Some(""));
    assert_eq!(query_parameter("models=1&amodel=2&model", "model"), None);
    assert_eq!(query_parameter("", "model"), None);
    let replaced = replace_query_parameter("a=1&model=x=y&model=z", "model", "new");
    assert_eq!(replaced, "a=1&model=new&model=z");
    assert_eq!(query_parameter(&replaced, "model").as_deref(), Some("new"));
    assert_eq!(replace_query_parameter("a=1&b", "model", "new"), "a=1&b");
    assert_eq!(replace_query_parameter("model=x", "model", "x"), "model=x");
}

#[test]
fn registration_tries_https_and_then_http() {
    assert_eq!(first_step(), Step::Probe(Scheme::Https));
    assert_eq!(next_step(Scheme::Https, Some(200)), Step::Accept(Scheme::Https));
    assert_eq!(next_step(Scheme::Https, None), Step::Probe(Scheme::Http));
    assert_eq!(next_step(Scheme::Https, Some(401)), Step::Probe(Scheme::Http));
    assert_eq!(next_step(Scheme::Http, Some(299)), Step::Accept(Scheme::Http));
    assert_eq!(next_step(Scheme::Http, Some(300)), Step::GiveUp);
    assert_eq!(next_step(Scheme::Http, Some(199)), Step::GiveUp);
    assert_eq!(next_step(Scheme::Http, None), Step::GiveUp);
}

#[test]
fn a_host_is_reached_under_its_url() {
    let host = DiscoveredHost {
        host: "127.0.0.1".to_string(),
        port: 9000,
        api_key: "backend-secret".to_string(),
    };
    assert_eq!(base_url(Scheme::Http, &host), "http://127.0.0.1:9000");
    assert_eq!(base_url(Scheme::Https, &host), "https://127.0.0.1:9000");
    let request = health_request(Scheme::Http, &host);
    assert_eq!(request.method, Method::Get);
    assert_eq!(request.url, "http://127.0.0.1:9000/health");
    assert_eq!(request.bearer.as_deref(), Some("backend-secret"));
    let reply = registered_reply("http://127.0.0.1:9000");
    assert_eq!(reply.status, 201);
    assert_eq!(reply.body, value(r#"{"url":"http://127.0.0.1:9000"}"#));
    assert!(matches!(unreachable_host(&host),
        ProxyError::BackendUnavailable(m) if m == "no healthy server at 127.0.0.1:9000"));

    let host = DiscoveredHost {
        host: "::1".to_string(),
        port: 80,
        api_key: String::new(),
    };
    assert_eq!(base_url(Scheme::Https, &host), "https://[::1]:80");
}

#[test]
fn texts_are_cut_and_numbers_written() {
    assert_eq!(trim_end_slashes("http://h/a//"), "http://h/a");
    assert_eq!(trim_end_slashes("///"), "");
    assert_eq!(trim_end_slashes("\u{e9}/"), "\u{e9}");
    assert_eq!(decimal_text(0), "0");
    assert_eq!(decimal_text(10), "10");
    assert_eq!(decimal_text(u64::MAX), "18446744073709551615");
}

#[test]
fn a_rewritten_body_reads_back() {
    let mut state = state();
    let reports = vec![Report {
        gpu_set: Arc::clone(&state.gpu_sets[1]),
        body: Some(br#"{"data":[{"id":"a\"b\n\u00e9"}]}"#.to_vec()),
    }];
    state.discover_models(&reports);
    let body = br#"{"model":"127.0.0.1/a\"b\n\u00e9","user":"x\\y","n":[1]}"#.to_vec();
    let routed = proxy_model_request(&state, body).unwrap();
    let back: Value = serde_json::from_slice(&routed.body).unwrap();
    assert_eq!(back["model"], "a\"b\n\u{e9}");
    assert_eq!(back["user"], "x\\y");
    assert_eq!(back["n"], value("[1]"));
}

#[test]
fn the_routes_are_those_of_the_api() {
    let table = routes();
    let posts: Vec<&str> = table
        .iter()
        .filter(|r| r.method == Method::Post && r.endpoint == Endpoint::ProxyModelRequest)
        .map(|r| r.path.as_str())
        .collect();
    assert_eq!(
        posts,
        [
            "/v1/chat/completions",
            "/v1/completions",
            "/v1/embeddings",
            "/v1/rerank",
            "/v1/messages",
            "/v1/messages/count_tokens"
        ]
    );
    let others: Vec<(Method, &str, Endpoint)> = table
        .iter()
        .skip(posts.len())
        .map(|r| (r.method, r.path.as_str(), r.endpoint))
        .collect();
    assert_eq!(
        others,
        [
            (Method::Get, "/v1/models", Endpoint::ListModels),
            (Method::Get, "/health", Endpoint::Health),
            (Method::Get, "/props", Endpoint::GetProps),
            (Method::Post, "/register", Endpoint::Register)
        ]
    );
}

#[test]
fn only_registration_needs_no_token() {
    for route in routes() {
        assert_eq!(is_protected(route.endpoint), route.path != "/register");
    }
}

#[test]
fn long_queries_are_read_and_replaced() {
    let lead = "&".repeat(60_000) + "a=1&";
    let query = format!("{lead}model=x&b=2");
    assert_eq!(query_parameter(&query, "model").as_deref(), Some("x"));
    assert_eq!(query_parameter(&query, "none"), None);
    assert_eq!(
        replace_query_parameter(&query, "model", "new"),
        format!("{lead}model=new&b=2")
    );
    assert_eq!(replace_query_parameter(&query, "none", "new"), query);
    assert_eq!(
        replace_query_parameter("\u{e9}=1&model=\u{fc}&\u{e9}", "model", "\u{e4}"),
        "\u{e9}=1&model=\u{e4}&\u{e9}"
    );
}
