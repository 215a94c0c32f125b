use simple_llm_proxy::config::{Config, ConfigError, ServerEntry, ServerGroup};

fn entry(value: &toml::Value) -> ServerEntry {
    match value {
        toml::Value::String(url) => ServerEntry::Url(url.clone()),
        other => ServerEntry::WithToken {
            url: other.get("url").unwrap().as_str().unwrap().to_string(),
            token: other.get("token").unwrap().as_str().unwrap().to_string(),
        },
    }
}

fn config(text: &str) -> Config {
    let table: toml::Table = toml::from_str(text).unwrap();
    Config {
        listen: table["listen"].as_str().unwrap().to_string(),
        api_tokens: table["api_tokens"]
            .as_array()
            .unwrap()
            .iter()
            .map(|t| t.as_str().unwrap().to_string())
            .collect(),
        servers: table["servers"]
            .as_table()
            .unwrap()
            .iter()
            .map(|(name, entries)| ServerGroup {
                name: name.clone(),
                entries: entries.as_array().unwrap().iter().map(entry).collect(),
            })
            .collect(),
    }
}

#[test]
fn empty_servers_table_is_valid() {
    let config: Config = config(
        r#"
                listen = "127.0.0.1:8080"
                api_tokens = ["secret"]

                [servers]
            "#,
    );

    assert!(config.validate().is_ok());
}

#[test]
fn configured_server_group_must_not_be_empty() {
    let config: Config = config(
        r#"
                listen = "127.0.0.1:8080"
                api_tokens = ["secret"]

                [servers]
                local = []
            "#,
    );

    assert_eq!(
        config.validate().unwrap_err().to_string(),
        "server group 'local' has no URLs"
    );
}

#[test]
fn the_documented_configuration_is_valid() {
    let config = config(
        r#"
            listen = "0.0.0.0:8080"
            api_tokens = ["sk-my-token-1", "sk-my-token-2"]

            [servers]
            "serverA-gpu01" = ["http://127.0.0.1:8081", "http://127.0.0.1:8082"]
            "serverA-gpu23" = ["http://127.0.0.1:8083"]
        "#,
    );
    assert!(config.validate().is_ok());
    assert_eq!(config.servers.len(), 2);
}

#[test]
fn a_token_is_required() {
    let config = config(
        r#"
            listen = "127.0.0.1:8080"
            api_tokens = []

            [servers]
            local = []
        "#,
    );
    let error = config.validate().unwrap_err();
    assert!(matches!(error, ConfigError::NoApiToken));
    assert_eq!(error.to_string(), "at least one api_token is required");
}

#[test]
fn the_first_empty_group_is_reported() {
    let group = |name: &str, urls: &[&str]| ServerGroup {
        name: name.to_string(),
        entries: urls.iter().map(|u| ServerEntry::Url(u.to_string())).collect(),
    };
    let config = Config {
        listen: "127.0.0.1:8080".to_string(),
        api_tokens: vec!["secret".to_string()],
        servers: vec![group("a", &["http://a"]), group("b", &[]), group("c", &[])],
    };
    assert_eq!(
        config.validate().unwrap_err().to_string(),
        "server group 'b' has no URLs"
    );
}

#[test]
fn servers_may_have_tokens() {
    let plain = ServerEntry::Url("http://a".to_string());
    let guarded = ServerEntry::WithToken {
        url: "http://b".to_string(),
        token: "t".to_string(),
    };
    assert_eq!((plain.url(), plain.token()), ("http://a", None));
    assert_eq!((guarded.url(), guarded.token()), ("http://b", Some("t")));
    let copy = guarded.clone();
    assert_eq!((copy.url(), copy.token()), ("http://b", Some("t")));
}
