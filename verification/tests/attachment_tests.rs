use bzr::attachment::xml::xml_text;
use bzr::attachment::{extract, Protocol};
use bzr::error::BzrError;

fn xml(data: &str) -> String {
    format!("<methodResponse><params><param><value><struct><member><name>data</name><value>{data}</value></member></struct></value></param></params></methodResponse>")
}

/// The first payload marker that stands in an extracted body.
fn marker_in(body: &str) -> String {
    let start = body.find("YnpyLXBheWxvYWQt").expect("a payload marker");
    let rest = &body[start..];
    let end = rest
        .find(|c: char| c == '<' || c == '"')
        .unwrap_or(rest.len());
    rest[..end].to_string()
}

#[test]
fn attachment_stream_json_candidate_selection() {
    let input = br#"{"attachments":[{"data":"QQ==","id":1},{"da\u0074a":"Q\u0067==","id":2}]}"#;
    let extracted = extract(input.to_vec(), Protocol::Json, 1024).unwrap();
    let body: serde_json::Value = serde_json::from_str(&extracted.body).unwrap();
    let marker = body["attachments"][1]["data"].as_str().unwrap();
    let bytes = extracted.select(Some(marker.as_bytes()), 2).unwrap();
    assert_eq!(bytes, b"B");
    let first = body["attachments"][0]["data"].as_str().unwrap();
    assert_eq!(extracted.select(Some(first.as_bytes()), 1).unwrap(), b"A");
}

#[test]
fn attachment_stream_xml_entities_cdata_and_strings() {
    for payload in [
        "<base64>Q&#81;==</base64>",
        "<string>QQ==</string>",
        "<base64><![CDATA[QQ==]]></base64>",
        "<![CDATA[QQ==]]>",
        "<!-- prefix -->QQ==",
        "QQ==",
        "<base64>\n QQ== \n</base64>",
    ] {
        let input = xml(payload);
        let extracted = extract(input.into_bytes(), Protocol::Xml, 1024).unwrap();
        let marker = marker_in(&extracted.body);
        let bytes = extracted.select(Some(marker.as_bytes()), 1).unwrap();
        assert_eq!(bytes, b"A", "payload {payload}");
    }
}

#[test]
fn attachment_stream_payload_can_exceed_metadata_limit() {
    for (input, protocol) in [
        (format!(r#"{{"data":"{}"}}"#, "QUFB".repeat(1024)), Protocol::Json),
        (xml(&format!("<base64>{}</base64>", "QUFB".repeat(1024))), Protocol::Xml),
    ] {
        let extracted = extract(input.into_bytes(), protocol, 512).unwrap();
        assert!(extracted.body.len() < 512);
        assert_eq!(extracted.data.len(), 3072);
    }
}

#[test]
fn attachment_stream_metadata_is_still_bounded() {
    for (input, protocol) in [
        (format!(r#"{{"message":"{}"}}"#, "a".repeat(200)), Protocol::Json),
        (
            xml(&format!("<string>{}</string>", "A".repeat(200))).replace("<name>data", "<name>name"),
            Protocol::Xml,
        ),
    ] {
        assert!(matches!(
            extract(input.into_bytes(), protocol, 100),
            Err(BzrError::ResponseTooLarge { .. })
        ));
    }
}

#[test]
fn attachment_stream_invalid_base64_is_rejected_only_when_selected() {
    for encoded in ["A", "!!!!", "QQ==QQ==", "QR=="] {
        let input = format!(r#"{{"data":"{encoded}"}}"#);
        let extracted = extract(input.into_bytes(), Protocol::Json, 1024).unwrap();
        let value: serde_json::Value = serde_json::from_str(&extracted.body).unwrap();
        assert!(extracted
            .select(value["data"].as_str().map(str::as_bytes), 1)
            .is_err());
    }
    let extracted = extract(
        br#"[{"data":"!!!!"},{"data":"QQ=="}]"#.to_vec(),
        Protocol::Json,
        1024,
    )
    .unwrap();
    let value: serde_json::Value = serde_json::from_str(&extracted.body).unwrap();
    assert!(extracted
        .select(value[1]["data"].as_str().map(str::as_bytes), 1)
        .is_ok());
}

#[test]
fn attachment_stream_rejects_truncated_or_malformed_framing() {
    for input in [
        r#"{"data":"QQ==""#,
        r#"{"data":"Q\x41=="}"#,
        r#"{"data":"QQ==","data":"Qg=="}"#,
    ] {
        assert!(extract(input.as_bytes().to_vec(), Protocol::Json, 1024).is_err());
    }
    let complete = xml("<base64>QQ==</base64>");
    for len in 0..complete.len() {
        assert!(
            extract(complete.as_bytes()[..len].to_vec(), Protocol::Xml, 1024).is_err(),
            "prefix {len}"
        );
    }
}

#[test]
fn attachment_stream_ignores_fake_markup_and_decodes_empty_data() {
    for input in [xml("<base64/>"), xml("<string/>")] {
        let input = input.replace("<params>", "<!-- <base64>AAAA</base64> --><params>");
        let extracted = extract(input.into_bytes(), Protocol::Xml, 1024).unwrap();
        let marker = marker_in(&extracted.body);
        assert_eq!(extracted.select(Some(marker.as_bytes()), 1).unwrap().len(), 0);
    }
}

#[test]
fn attachment_stream_rejects_duplicate_xml_members() {
    let input = xml("<base64>QQ==</base64>").replace(
        "</struct>",
        "<member><name> data </name><value><base64>Qg==</base64></value></member></struct>",
    );
    assert!(extract(input.into_bytes(), Protocol::Xml, 1024).is_err());
}

#[test]
fn attachment_stream_rejects_xml_value_before_member_name() {
    let input = xml("<string>YnpyLXBheWxvYWQtMA==</string>")
        .replace("<member><name>data</name><value>", "<member><value>")
        .replace("</value></member>", "</value><name>data</name></member>");
    assert!(extract(input.into_bytes(), Protocol::Xml, 1024).is_err());
}

#[test]
fn attachment_stream_xml_markup_limit_keeps_size_error() {
    let input = xml(&format!("<base64><!--{}-->QQ==</base64>", "a".repeat(512)));
    assert!(matches!(
        extract(input.into_bytes(), Protocol::Xml, 256),
        Err(BzrError::ResponseTooLarge { limit_bytes: 256, .. })
    ));
}

#[test]
fn attachment_select_reports_missing_marker() {
    let extracted = extract(br#"{"data":"QQ=="}"#.to_vec(), Protocol::Json, 1024).unwrap();
    assert!(matches!(extracted.select(None, 7), Err(BzrError::DataIntegrity(_))));
    assert!(extracted.select(Some(b"not-a-marker"), 7).is_err());
}

#[test]
fn attachment_extract_rejects_empty_input() {
    assert!(extract(Vec::new(), Protocol::Json, 1024).is_err());
    assert!(extract(Vec::new(), Protocol::Xml, 1024).is_err());
}

#[test]
fn attachment_json_payloads_decode_in_document_order() {
    let input = br#"{"bugs":[{"attachments":[{"data":"QU\u0045=","id":1}]},{"x":{"data":"Q\/8\u003d"}}],"data":7}"#;
    let extracted = extract(input.to_vec(), Protocol::Json, 1024).unwrap();
    assert_eq!(extracted.spans.len(), 2);
    assert_eq!(extracted.data, vec![0x41, 0x41, 0x43, 0xff]);
    assert_eq!((extracted.spans[0].offset, extracted.spans[0].length), (0, 2));
    assert_eq!((extracted.spans[1].offset, extracted.spans[1].length), (2, 2));
    assert!(extracted.spans.iter().all(|span| span.error.is_none()));
}

#[test]
fn attachment_json_payload_records_its_decoding_error() {
    let extracted = extract(br#"[{"data":"QUJD"},{"data":"QQ="}]"#.to_vec(), Protocol::Json, 1024).unwrap();
    assert_eq!(extracted.data, b"ABC".to_vec());
    assert_eq!(extracted.spans.len(), 2);
    assert_eq!(extracted.spans[0].error, None);
    assert_eq!(extracted.spans[1].error.as_deref(), Some("incomplete base64 quartet"));
    assert_eq!(extracted.spans[1].length, 0);
}

#[test]
fn attachment_xml_payload_skips_whitespace_and_comments() {
    let input = xml("<base64>\n  QU<!-- note -->JD\r\n  &#82;A== </base64>");
    let extracted = extract(input.into_bytes(), Protocol::Xml, 1024).unwrap();
    assert_eq!(extracted.spans.len(), 1);
    assert_eq!(extracted.data, b"ABCD".to_vec());
    assert!(extracted.body.contains("<!-- note -->"));
}

#[test]
fn attachment_xml_empty_payload_element_gets_an_empty_span() {
    let extracted = extract(xml("<base64/>").into_bytes(), Protocol::Xml, 1024).unwrap();
    assert_eq!(extracted.spans.len(), 1);
    assert_eq!((extracted.spans[0].offset, extracted.spans[0].length), (0, 0));
    assert!(extracted.spans[0].error.is_none());
}

#[test]
fn xml_member_name_text_resolves_markup_and_entities() {
    assert_eq!(xml_text(b" d<!-- c -->a<![CDATA[t]]>&#97; </name>").unwrap(), b"data".to_vec());
    assert_eq!(xml_text(b"plain").unwrap(), b"plain".to_vec());
    assert!(xml_text(b"da<b>ta").is_err());
    assert!(xml_text(b"da&amp").is_err());
    assert!(xml_text(b"<![CDATA[data").is_err());
}

#[test]
fn xml_member_name_with_markup_still_names_the_payload() {
    let input = xml("<base64>QQ==</base64>").replace("<name>data</name>", "<name>d<!-- x -->a&#116;<![CDATA[a]]></name>");
    let extracted = extract(input.into_bytes(), Protocol::Xml, 1024).unwrap();
    assert_eq!(extracted.spans.len(), 1);
    assert_eq!(extracted.data, b"A".to_vec());
}
