use simple_llm_proxy::model_scan::{ModelScanner, ScanError};
use simple_llm_proxy::routes::IncomingBody;

fn scan(body: &[u8]) -> Result<Option<String>, ScanError> {
    ModelScanner::new().feed(body)
}

#[test]
fn every_cut_gives_the_same_answer() {
    let bodies = [
        r#" {"a":[1,{"model":"x"}],"b":"\"","model":"m\n1"} tail"#,
        r#"{"a":-1.5e3 , "model" : true}"#,
        r#"{"a":{"b":"}"}}"#,
        r#"{"a" 1}"#,
    ];
    for body in bodies {
        let whole = scan(body.as_bytes());
        for cut in 0..=body.len() {
            let (first, second) = body.as_bytes().split_at(cut);
            let mut scanner = ModelScanner::new();
            let answer = match scanner.feed(first) {
                Ok(None) => scanner.feed(second),
                decided => decided,
            };
            assert_eq!(answer, whole);
        }
    }
}

#[test]
fn a_model_is_reported_with_its_closing_quote() {
    let body = r#"{"x":[[{"model":"no"}],"model"],"model":"yes"}"#;
    let end = body.len() - 1;
    for n in 0..end {
        assert_eq!(scan(&body.as_bytes()[..n]), Ok(None));
    }
    assert_eq!(scan(&body.as_bytes()[..end]), Ok(Some("yes".to_string())));
    assert_eq!(scan(body.as_bytes()), Ok(Some("yes".to_string())));
}

#[test]
fn the_first_of_two_models_counts() {
    assert_eq!(
        scan(br#"{"model":"first","model":"second"}"#),
        Ok(Some("first".to_string()))
    );
}

#[test]
fn escapes_in_a_model_name_are_undone() {
    assert_eq!(
        scan(br#"{"model":"a\nb\tc\rd\"e\\f\/g"}"#),
        Ok(Some("a\nb\tc\rd\"e\\f/g".to_string()))
    );
}

#[test]
fn bytes_are_taken_one_by_one() {
    assert_eq!(
        scan("{\"model\":\"\u{e9}\"}".as_bytes()),
        Ok(Some("\u{c3}\u{a9}".to_string()))
    );
}

#[test]
fn keys_are_compared_without_their_backslashes() {
    assert_eq!(
        scan(br#"{"\model":"m"}"#),
        Ok(Some("m".to_string()))
    );
}

#[test]
fn malformed_bodies_are_told_apart() {
    assert_eq!(scan(b"  x"), Err(ScanError::Malformed));
    assert_eq!(scan(b"{x"), Err(ScanError::Malformed));
    assert_eq!(scan(br#"{"a" x"#), Err(ScanError::Malformed));
    assert_eq!(scan(br#"{"a":}"#), Err(ScanError::Malformed));
    assert_eq!(scan(b"{}"), Err(ScanError::Absent));
    assert_eq!(scan(br#"{"a":"b"}"#), Err(ScanError::Absent));
    assert_eq!(scan(br#"{"model":["m"]}"#), Err(ScanError::ModelNotString));
}

#[test]
fn a_scanner_goes_on_where_it_stood() {
    let mut scanner = ModelScanner::new();
    assert_eq!(scanner.feed(br#"{"model":"a"rest"#), Ok(Some("a".to_string())));
    assert_eq!(scanner.feed(br#"b"rest"#), Ok(Some("b".to_string())));
    let mut scanner = ModelScanner::new();
    assert_eq!(scanner.feed(b"}"), Err(ScanError::Malformed));
    assert_eq!(scanner.feed(br#"{"model":"a""#), Ok(Some("a".to_string())));
}

#[test]
fn an_incoming_body_reports_its_model_once() {
    let mut body = IncomingBody::new();
    assert_eq!(body.receive(br#"{"n":1,"mod"#), None);
    assert_eq!(body.receive(br#"el":"m","x":"#), Some("m".to_string()));
    assert_eq!(body.receive(br#""model":"n"}"#), None);
    assert_eq!(body.len(), 35);
    assert_eq!(
        body.into_received(),
        br#"{"n":1,"model":"m","x":"model":"n"}"#.to_vec()
    );
}

#[test]
fn an_incoming_body_that_cannot_be_scanned_reports_nothing() {
    let mut body = IncomingBody::new();
    assert_eq!(body.receive(b"[1"), None);
    assert_eq!(body.receive(br#"{"model":"m"}"#), None);
    assert_eq!(body.into_received(), br#"[1{"model":"m"}"#.to_vec());
}

#[test]
fn values_under_other_keys_may_be_exchanged() {
    let values = [
        r#""what model are you""#,
        r#""{\"model\":\"evil\"}""#,
        r#"[{"model":"evil"},"]",["}"]]"#,
        r#"{"model":"evil"}"#,
        "-1.5e3",
        "null",
    ];
    let ends = ["", "  ", r#" , "model":"real"}"#, r#","model":1}"#, "}", " }tail"];
    for end in ends {
        let verdicts: Vec<Result<Option<String>, ScanError>> = values
            .iter()
            .map(|v| scan(format!(r#"{{"n":1,"messages":{v}{end}"#).as_bytes()))
            .collect();
        for verdict in &verdicts {
            assert_eq!(verdict, &verdicts[0]);
        }
    }
    assert_eq!(
        scan(br#"{"messages":null , "model":"real"}"#),
        Ok(Some("real".to_string()))
    );
}

#[test]
fn empty_chunks_change_nothing() {
    let mut scanner = ModelScanner::new();
    assert_eq!(scanner.feed(b""), Ok(None));
    assert_eq!(scanner.feed(br#"{"model":"a"#), Ok(None));
    assert_eq!(scanner.feed(b""), Ok(None));
    assert_eq!(scanner.feed(br#"b""#), Ok(Some("ab".to_string())));
}
