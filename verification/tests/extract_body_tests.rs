use bzr::attachment::{extract, Protocol};
use bzr::error::BzrError;

/// The marker that stands between the quotes after `"data":"`.
fn json_marker(body: &str) -> String {
    let start = body.find("\"data\":\"").expect("a data member") + "\"data\":\"".len();
    let rest = &body[start..];
    rest[..rest.find('"').expect("a closing quote")].to_string()
}

#[test]
fn xml_response_cut_short_names_the_truncation() {
    match extract(b"<methodResponse><params>".to_vec(), Protocol::Xml, 1024) {
        Err(BzrError::XmlRpc(message)) => assert_eq!(message, "truncated attachment XML response"),
        other => panic!("unexpected result: {:?}", other.map(|e| e.body)),
    }
}

#[test]
fn json_repeated_member_names_the_repeat() {
    let input = br#"{"data":"QQ==","data":"Qg=="}"#;
    match extract(input.to_vec(), Protocol::Json, 1024) {
        Err(BzrError::Deserialize(message)) => assert_eq!(message, "duplicate attachment JSON member"),
        other => panic!("unexpected result: {:?}", other.map(|e| e.body)),
    }
}

#[test]
fn json_body_keeps_everything_but_the_payload_text() {
    let input = br#" {"id": 7, "data":"QUJD" , "x":[1, {"y":"z"}]}  "#;
    let extracted = extract(input.to_vec(), Protocol::Json, 1024).unwrap();
    let marker = json_marker(&extracted.body);
    assert_eq!(
        extracted.body,
        format!(r#" {{"id": 7, "data":"{marker}" , "x":[1, {{"y":"z"}}]}}  "#)
    );
    assert_eq!(extracted.select(Some(marker.as_bytes()), 1).unwrap(), b"ABC");
}

#[test]
fn json_metadata_limit_is_exactly_the_retained_body() {
    let input = br#"{"data":"QUFBQUFBQUFBQUFBQUFBQUFBQUFBQUFB"}"#;
    let body = extract(input.to_vec(), Protocol::Json, 1024).unwrap().body;
    let fits = body.len() as u64;
    assert!(fits < input.len() as u64);
    let exact = extract(input.to_vec(), Protocol::Json, fits).unwrap();
    assert_eq!(exact.body, body);
    assert!(matches!(
        extract(input.to_vec(), Protocol::Json, fits - 1),
        Err(BzrError::ResponseTooLarge { .. })
    ));
}

#[test]
fn json_second_payload_gets_the_second_marker() {
    let input = br#"[{"data":"QQ=="},{"data":"Qg=="}]"#;
    let extracted = extract(input.to_vec(), Protocol::Json, 1024).unwrap();
    let second = &extracted.body[extracted.body.find("},").unwrap()..];
    let marker = json_marker(second);
    assert_eq!(extracted.select(Some(marker.as_bytes()), 2).unwrap(), b"B");
    assert_ne!(marker, json_marker(&extracted.body));
}
