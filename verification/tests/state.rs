use serde_json::Value;
use simple_llm_proxy::config::{Config, ServerEntry, ServerGroup};
use simple_llm_proxy::models::Report;
use simple_llm_proxy::proxy::{candidate_gpu_sets, models_queries};
use simple_llm_proxy::routes::list_models;
use simple_llm_proxy::state::{
    discovered_group_name, remember_host, AppState, ClientKind, DiscoveredHost,
};
use std::sync::Arc;

fn value(text: &str) -> Value {
    serde_json::from_str(text).unwrap()
}

fn state(groups: &[(&str, &[&str])]) -> AppState {
    AppState::from_config(Config {
        listen: "127.0.0.1:0".to_string(),
        api_tokens: vec!["proxy-secret".to_string()],
        servers: groups
            .iter()
            .map(|(name, urls)| ServerGroup {
                name: name.to_string(),
                entries: urls.iter().map(|u| ServerEntry::Url(u.to_string())).collect(),
            })
            .collect(),
    })
}

fn host(address: &str, port: u16, api_key: &str) -> DiscoveredHost {
    DiscoveredHost {
        host: address.to_string(),
        port,
        api_key: api_key.to_string(),
    }
}

fn reports(state: &AppState, bodies: &[Option<&str>]) -> Vec<Report> {
    state
        .gpu_sets
        .iter()
        .zip(bodies)
        .map(|(set, body)| Report {
            gpu_set: Arc::clone(set),
            body: body.map(|b| b.as_bytes().to_vec()),
        })
        .collect()
}

fn names(state: &AppState) -> Vec<&str> {
    state.gpu_sets.iter().map(|s| s.name.as_str()).collect()
}

#[test]
fn a_group_becomes_a_gpu_set() {
    let state = state(&[("a", &["http://a1", "http://a2"]), ("b", &["http://b"])]);
    assert_eq!(state.api_tokens, vec!["proxy-secret".to_string()]);
    assert_eq!(names(&state), ["a", "b"]);
    let set = &state.gpu_sets[0];
    assert_eq!(set.servers.len(), 2);
    assert_eq!(set.servers[1].url(), "http://a2");
    assert_eq!(set.models_path, "/v1/models");
    assert_eq!(set.model_prefix, None);
    assert!(!set.trust_invalid_tls);
    assert_eq!(set.next_server.load(std::sync::atomic::Ordering::Relaxed), 0);
    assert_eq!(state.client_for(set), ClientKind::Checking);
    assert!(state.model_map.models.is_empty());
}

#[test]
fn a_set_works_on_one_request_at_a_time() {
    let state = state(&[("a", &["http://a1", "http://a2"])]);
    let semaphore = &state.gpu_sets[0].semaphore;
    assert_eq!(semaphore.available_permits(), 1);
    let permit = semaphore.try_acquire().unwrap();
    assert!(semaphore.try_acquire().is_err());
    drop(permit);
    assert!(semaphore.try_acquire().is_ok());
}

#[test]
fn a_registered_host_becomes_a_gpu_set() {
    let mut state = state(&[("configured", &["http://c"])]);
    state.add_discovered_host(
        host("127.0.0.1", 9000, "backend-secret"),
        "http://127.0.0.1:9000".to_string(),
    );
    assert_eq!(names(&state), ["configured", "discovered-127.0.0.1-9000"]);
    let set = &state.gpu_sets[1];
    assert_eq!(set.servers.len(), 1);
    assert_eq!(set.servers[0].url(), "http://127.0.0.1:9000");
    assert_eq!(set.servers[0].token(), Some("backend-secret"));
    assert_eq!(set.models_path, "/models");
    assert_eq!(set.model_prefix.as_deref(), Some("127.0.0.1"));
    assert_eq!(set.semaphore.available_permits(), 1);
    assert_eq!(state.client_for(set), ClientKind::AcceptingInvalidCerts);
    let queries = models_queries(&state.gpu_sets);
    assert_eq!(queries.len(), 2);
    assert!(Arc::ptr_eq(&queries[1].gpu_set, set));
    assert_eq!(queries[1].request.url, "http://127.0.0.1:9000/models");
    assert_eq!(queries[1].request.bearer.as_deref(), Some("backend-secret"));
    assert_eq!(set.next_server.load(std::sync::atomic::Ordering::Relaxed), 0);
}

#[test]
fn registering_again_leaves_one_set() {
    let mut state = state(&[("configured", &["http://c"])]);
    state.add_discovered_host(host("10.0.0.1", 1, "old"), "https://10.0.0.1:1".to_string());
    state.add_discovered_host(host("10.0.0.2", 1, "x"), "https://10.0.0.2:1".to_string());
    state.add_discovered_host(host("10.0.0.1", 1, "new"), "http://10.0.0.1:1".to_string());
    assert_eq!(
        names(&state),
        ["configured", "discovered-10.0.0.2-1", "discovered-10.0.0.1-1"]
    );
    assert_eq!(state.gpu_sets[2].servers[0].token(), Some("new"));
    assert_eq!(state.gpu_sets[2].servers[0].url(), "http://10.0.0.1:1");
}

#[test]
fn group_names_hold_address_and_port() {
    assert_eq!(discovered_group_name("10.1.2.3", 80), "discovered-10.1.2.3-80");
    assert_eq!(discovered_group_name("::1", 0), "discovered-::1-0");
    assert_eq!(discovered_group_name("h", 65535), "discovered-h-65535");
    assert_ne!(discovered_group_name("h", 12), discovered_group_name("h-1", 2));
    assert_ne!(discovered_group_name("10.0.0.1", 11), discovered_group_name("10.0.0.11", 1));
}

#[test]
fn hosts_are_remembered_once_per_address() {
    let hosts = vec![host("a", 1, "k1"), host("a", 2, "k2"), host("b", 1, "k3")];
    let hosts = remember_host(&hosts, &host("a", 1, "k4"));
    assert_eq!(
        hosts,
        vec![host("a", 2, "k2"), host("b", 1, "k3"), host("a", 1, "k4")]
    );
    let hosts = remember_host(&hosts, &host("a", 1, "k5"));
    assert_eq!(
        hosts,
        vec![host("a", 2, "k2"), host("b", 1, "k3"), host("a", 1, "k5")]
    );
    assert_eq!(remember_host(&Vec::new(), &host("c", 3, "k")), vec![host("c", 3, "k")]);
}

#[test]
fn models_keep_the_fields_that_backends_report() {
    let mut state = state(&[("a", &["http://a"])]);
    let reports = reports(
        &state,
        &[Some(
            r#"{"data":[{"id":"m","object":"model","meta":{"n_ctx":4096},"x":1.5}],
                "models":[{"model":"other"},{"model":"m","capabilities":["multimodal"]}]}"#,
        )],
    );
    state.discover_models(&reports);
    let entry = state.model_map.get("m").unwrap();
    assert_eq!(
        entry.info,
        value(r#"{"id":"m","object":"model","meta":{"n_ctx":4096},"x":1.5}"#)
    );
    assert_eq!(
        entry.listing,
        Some(value(r#"{"model":"m","capabilities":["multimodal"]}"#))
    );
    assert_eq!(entry.backend_id, "m");
    assert!(state.model_map.get("other").is_none());
}

#[test]
fn models_of_registered_hosts_have_a_prefix() {
    let mut state = state(&[("configured", &["http://c"])]);
    state.add_discovered_host(
        host("127.0.0.1", 9000, "backend-secret"),
        "http://127.0.0.1:9000".to_string(),
    );
    let body = r#"{"data":[{"id":"registered-model","object":"model"}],
                   "models":[{"model":"registered-model"}]}"#;
    let reports = reports(&state, &[Some(body), Some(body)]);
    state.discover_models(&reports);
    let listed = list_models(&state.model_map);
    assert!(listed["data"]
        .as_array()
        .unwrap()
        .iter()
        .any(|model| model["id"] == "127.0.0.1/registered-model"));
    assert!(listed["models"]
        .as_array()
        .unwrap()
        .iter()
        .any(|model| model["model"] == "127.0.0.1/registered-model"));
    assert_eq!(
        listed,
        value(
            r#"{"object":"list",
                "data":[{"id":"registered-model","object":"model"},
                        {"id":"127.0.0.1/registered-model","object":"model"}],
                "models":[{"model":"registered-model"},
                          {"model":"127.0.0.1/registered-model"}]}"#
        )
    );
    let entry = state.model_map.get("127.0.0.1/registered-model").unwrap();
    assert_eq!(entry.backend_id, "registered-model");
}

#[test]
fn sets_that_report_the_same_model_share_it() {
    let mut state = state(&[("a", &["http://a"]), ("b", &["http://b"]), ("c", &["http://c"])]);
    let reports = reports(
        &state,
        &[
            Some(r#"{"data":[{"id":"m","from":"a"}]}"#),
            Some(r#"{"data":[{"id":"n"}]}"#),
            Some(r#"{"data":[{"id":"m","from":"c"}]}"#),
        ],
    );
    state.discover_models(&reports);
    let sets = candidate_gpu_sets(&state, "m").unwrap();
    let names: Vec<&str> = sets.iter().map(|s| s.name.as_str()).collect();
    assert_eq!(names, ["a", "c"]);
    assert!(Arc::ptr_eq(&sets[0], &state.gpu_sets[0]));
    assert_eq!(
        state.model_map.get("m").unwrap().info,
        value(r#"{"id":"m","from":"a"}"#)
    );
}

#[test]
fn sets_that_do_not_answer_are_passed_over() {
    let mut state = state(&[("a", &["http://a"]), ("b", &["http://b"]), ("c", &["http://c"])]);
    let first = reports(
        &state,
        &[Some(r#"{"data":[{"id":"gone"}]}"#), None, None],
    );
    state.discover_models(&first);
    assert!(state.model_map.get("gone").is_some());
    let second = reports(
        &state,
        &[None, Some("not json"), Some(r#"{"data":[{"id":"here"},{"id":7},{}]}"#)],
    );
    state.discover_models(&second);
    assert!(state.model_map.get("gone").is_none());
    assert_eq!(state.model_map.models.len(), 1);
    assert_eq!(state.model_map.models[0].id, "here");
}

#[test]
fn listings_stand_in_for_missing_data() {
    let mut state = state(&[("a", &["http://a"])]);
    let reports = reports(
        &state,
        &[Some(
            r#"{"models":[{"model":"m1","x":1},{"id":"m2","model":"ignored"},
                          {"id":3,"model":"not-taken"},{"name":"none"}]}"#,
        )],
    );
    state.discover_models(&reports);
    let ids: Vec<&str> = state.model_map.models.iter().map(|m| m.id.as_str()).collect();
    assert_eq!(ids, ["m1", "m2"]);
    let entry = state.model_map.get("m1").unwrap();
    assert_eq!(entry.info, value(r#"{"id":"m1","object":"model"}"#));
    assert_eq!(entry.listing, Some(value(r#"{"model":"m1","x":1}"#)));
    assert_eq!(state.model_map.get("m2").unwrap().listing, None);
}

#[test]
fn data_that_is_not_an_array_does_not_count() {
    let mut state = state(&[("a", &["http://a"])]);
    let reports = reports(&state, &[Some(r#"{"data":{"id":"m"},"models":null}"#)]);
    state.discover_models(&reports);
    assert!(state.model_map.models.is_empty());
    assert_eq!(
        list_models(&state.model_map),
        value(r#"{"object":"list","data":[]}"#)
    );
}

#[test]
fn a_model_that_is_reported_twice_is_listed_once() {
    let mut state = state(&[("a", &["http://a"])]);
    let reports = reports(&state, &[Some(r#"{"data":[{"id":"m","x":1},{"id":"m","x":2}]}"#)]);
    state.discover_models(&reports);
    assert_eq!(
        list_models(&state.model_map),
        value(r#"{"object":"list","data":[{"id":"m","x":1}]}"#)
    );
    assert_eq!(state.model_map.get("m").unwrap().gpu_sets.len(), 2);
}

#[test]
fn a_set_joins_once_for_all_its_servers() {
    let mut state = state(&[("a", &["http://a1", "http://a2", "http://a3"]), ("b", &["http://b"])]);
    let set = |i: usize| Arc::clone(&state.gpu_sets[i]);
    let bodies = [
        (set(0), r#"{"data":[{"id":"n"}]}"#),
        (set(0), r#"{"data":[{"id":"m"},{"id":"m"},{"id":"n"}]}"#),
        (set(0), r#"{"data":[{"id":"m"},{"id":"n"},{"id":"n"}]}"#),
        (set(1), r#"{"data":[{"id":"m"}]}"#),
    ];
    let reports: Vec<Report> = bodies
        .into_iter()
        .map(|(gpu_set, body)| Report {
            gpu_set,
            body: Some(body.as_bytes().to_vec()),
        })
        .collect();
    state.discover_models(&reports);
    let sets = |id: &str| -> Vec<String> {
        let entry = state.model_map.get(id).unwrap();
        entry.gpu_sets.iter().map(|s| s.name.clone()).collect()
    };
    assert_eq!(sets("m"), ["a", "a", "b"]);
    assert_eq!(sets("n"), ["a"]);
}

#[test]
fn the_first_set_gives_the_id_for_backends() {
    let mut state = state(&[("a", &["http://a"])]);
    state.add_discovered_host(host("127.0.0.1", 1, "x"), "http://127.0.0.1:1".to_string());
    state.add_discovered_host(host("127.0.0.1", 2, "y"), "http://127.0.0.1:2".to_string());
    let of_hosts = reports(
        &state,
        &[
            None,
            Some(r#"{"data":[{"id":"m"}]}"#),
            Some(r#"{"data":[{"id":"m"}]}"#),
        ],
    );
    state.discover_models(&of_hosts);
    let entry = state.model_map.get("127.0.0.1/m").unwrap();
    assert_eq!(entry.gpu_sets.len(), 2);
    assert_eq!(entry.backend_id, "m");

    let of_both = reports(
        &state,
        &[
            Some(r#"{"data":[{"id":"127.0.0.1/m"}]}"#),
            Some(r#"{"data":[{"id":"m"}]}"#),
        ],
    );
    state.discover_models(&of_both);
    let entry = state.model_map.get("127.0.0.1/m").unwrap();
    assert_eq!(entry.gpu_sets.len(), 2);
    assert_eq!(entry.backend_id, "127.0.0.1/m");
}

#[test]
fn every_backend_is_asked_for_its_models() {
    let mut state = state(&[("a", &["http://a1/", "http://a2"]), ("b", &["http://b"])]);
    let queries = models_queries(&state.gpu_sets);
    let asked: Vec<(&str, &str)> = queries
        .iter()
        .map(|q| (q.gpu_set.name.as_str(), q.request.url.as_str()))
        .collect();
    assert_eq!(
        asked,
        [
            ("a", "http://a1/v1/models"),
            ("a", "http://a2/v1/models"),
            ("b", "http://b/v1/models")
        ]
    );

    let bodies = [
        r#"{"data":[{"id":"m","from":"a1"}]}"#,
        r#"{"data":[{"id":"m","from":"a2"},{"id":"n"}]}"#,
        r#"{"data":[{"id":"m","from":"b"}]}"#,
    ];
    let reports: Vec<Report> = queries
        .into_iter()
        .zip(bodies)
        .map(|(query, body)| Report {
            gpu_set: query.gpu_set,
            body: Some(body.as_bytes().to_vec()),
        })
        .collect();
    state.discover_models(&reports);
    assert_eq!(
        list_models(&state.model_map),
        value(r#"{"object":"list","data":[{"id":"m","from":"a1"},{"id":"n"}]}"#)
    );
    let sets = candidate_gpu_sets(&state, "m").unwrap();
    let names: Vec<&str> = sets.iter().map(|s| s.name.as_str()).collect();
    assert_eq!(names, ["a", "b"]);
    let sets = candidate_gpu_sets(&state, "n").unwrap();
    let names: Vec<&str> = sets.iter().map(|s| s.name.as_str()).collect();
    assert_eq!(names, ["a"]);
}
