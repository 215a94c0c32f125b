use simple_llm_proxy::model_scan::{ModelScanner, ScanError};

fn scan(body: &str) -> Result<Option<String>, ScanError> {
    ModelScanner::new().feed(body.as_bytes())
}

/// Feeds the body one byte at a time, so that chunk boundaries land anywhere.
fn scan_bytewise(body: &str) -> Result<Option<String>, ScanError> {
    let mut scanner = ModelScanner::new();
    for b in body.as_bytes() {
        if let Some(model) = scanner.feed(&[*b])? {
            return Ok(Some(model));
        }
    }
    Ok(None)
}

#[test]
fn finds_model_first() {
    let body = r#"{"model":"gemma","stream":true}"#;
    assert_eq!(scan(body).unwrap().as_deref(), Some("gemma"));
    assert_eq!(scan_bytewise(body).unwrap().as_deref(), Some("gemma"));
}

#[test]
fn finds_model_after_nested_values() {
    let body = r#"{"messages":[{"role":"user","content":"what model are you"}],
                       "tools":[{"function":{"name":"x"}}],"model":"qwen"}"#;
    assert_eq!(scan(body).unwrap().as_deref(), Some("qwen"));
    assert_eq!(scan_bytewise(body).unwrap().as_deref(), Some("qwen"));
}

#[test]
fn ignores_nested_model_keys() {
    // A "model" inside message content must not be mistaken for routing.
    let body = r#"{"messages":[{"content":"{\"model\":\"evil\"}"},
                       {"model":"also-not-it"}],"model":"real"}"#;
    assert_eq!(scan(body).unwrap().as_deref(), Some("real"));
    assert_eq!(scan_bytewise(body).unwrap().as_deref(), Some("real"));
}

#[test]
fn handles_escapes_and_whitespace() {
    let body = "{ \"model\" : \"vendor\\/model-1\" , \"n\" : 1 }";
    assert_eq!(scan(body).unwrap().as_deref(), Some("vendor/model-1"));
}

#[test]
fn needs_more_when_truncated() {
    assert_eq!(scan(r#"{"messages":[{"role":"#).unwrap(), None);
    assert_eq!(scan(r#"{"model":"gem"#).unwrap(), None);
}

#[test]
fn reports_absent_model() {
    assert_eq!(scan(r#"{"stream":true}"#), Err(ScanError::Absent));
    assert_eq!(scan(r#"{"messages":[]}"#), Err(ScanError::Absent));
}

#[test]
fn rejects_non_string_and_non_object() {
    assert_eq!(scan(r#"{"model":123}"#), Err(ScanError::ModelNotString));
    assert_eq!(scan(r#"{"model":null}"#), Err(ScanError::ModelNotString));
    assert_eq!(scan("[1,2]"), Err(ScanError::Malformed));
}
