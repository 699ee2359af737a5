use bzr::client::{
    after_first_answer, alternate_auth, attachment_size_limit, group_lookup_after_rest_failure, group_lookup_start,
    prepare_auth, retried_answer_stands, FirstAnswerStep, GroupLookupStep, PreparedAuth,
};
use bzr::types::{ApiMode, AuthMethod};

#[test]
fn refused_request_is_resent_once_with_the_other_credential() {
    assert_eq!(after_first_answer(401, true), FirstAnswerStep::RetryWithAlternateAuth);
    assert_eq!(after_first_answer(401, false), FirstAnswerStep::CheckAnswer);
    assert_eq!(after_first_answer(403, true), FirstAnswerStep::CheckAnswer);
    assert_eq!(after_first_answer(500, true), FirstAnswerStep::CheckAnswer);
    assert_eq!(after_first_answer(200, true), FirstAnswerStep::CheckAnswer);
}

#[test]
fn resent_answer_stands_unless_it_is_an_error() {
    assert!(retried_answer_stands(200));
    assert!(retried_answer_stands(302));
    assert!(retried_answer_stands(399));
    assert!(!retried_answer_stands(400));
    assert!(!retried_answer_stands(401));
    assert!(!retried_answer_stands(503));
    assert!(!retried_answer_stands(599));
    assert!(retried_answer_stands(600));
}

#[test]
fn header_client_resends_the_key_as_a_query_parameter() {
    let auth = prepare_auth(Some("key"), Some(AuthMethod::Header)).unwrap().unwrap();
    assert!(matches!(alternate_auth(&auth, "key"), PreparedAuth::QueryParam(k) if k == "key"));
}

#[test]
fn query_client_resends_the_key_as_a_header() {
    let auth = prepare_auth(Some("key"), Some(AuthMethod::QueryParam)).unwrap().unwrap();
    assert!(matches!(alternate_auth(&auth, "key"), PreparedAuth::Header { bytes, .. } if bytes == b"key"));
    assert!(matches!(alternate_auth(&auth, "bad\u{7f}"), PreparedAuth::Header { bytes, .. } if bytes.is_empty()));
}

#[test]
fn group_lookup_starts_where_the_mode_says() {
    assert_eq!(group_lookup_start(ApiMode::XmlRpc), GroupLookupStep::AskXmlRpc);
    assert_eq!(group_lookup_start(ApiMode::Rest), GroupLookupStep::AskRest);
    assert_eq!(group_lookup_start(ApiMode::Hybrid), GroupLookupStep::AskRest);
}

#[test]
fn blocked_rest_group_lookup_falls_back_to_xmlrpc() {
    assert_eq!(group_lookup_after_rest_failure(ApiMode::Rest, Some(32610), false), GroupLookupStep::AskXmlRpc);
    assert_eq!(group_lookup_after_rest_failure(ApiMode::Hybrid, Some(32610), false), GroupLookupStep::AskXmlRpc);
    assert_eq!(group_lookup_after_rest_failure(ApiMode::Rest, Some(51), false), GroupLookupStep::GiveUp);
    assert_eq!(group_lookup_after_rest_failure(ApiMode::Hybrid, None, true), GroupLookupStep::AskXmlRpc);
    assert_eq!(group_lookup_after_rest_failure(ApiMode::Rest, None, true), GroupLookupStep::GiveUp);
    assert_eq!(group_lookup_after_rest_failure(ApiMode::Hybrid, None, false), GroupLookupStep::GiveUp);
}

#[test]
fn attachment_size_limit_is_kibibytes_times_1024() {
    assert_eq!(attachment_size_limit(true, Some(1000)), Some(1_024_000));
    assert_eq!(attachment_size_limit(true, Some(u64::MAX / 1024 + 1)), Some(u64::MAX));
    assert_eq!(attachment_size_limit(true, None), None);
    assert_eq!(attachment_size_limit(false, Some(1000)), None);
}
