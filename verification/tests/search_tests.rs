use bzr::search::{force_id_fields, has_negated_filters, has_raw_boolean_chart_params, SearchParams};

#[test]
fn has_negated_filters_detects_negation() {
    let params = SearchParams {
        status: vec!["!CLOSED".into()],
        ..Default::default()
    };
    assert!(has_negated_filters(&params));
}

#[test]
fn has_negated_filters_false_for_positive_only() {
    let params = SearchParams {
        status: vec!["NEW".into()],
        ..Default::default()
    };
    assert!(!has_negated_filters(&params));
}

#[test]
fn has_raw_boolean_chart_params_detects_f1() {
    let params = SearchParams {
        raw_params: vec![
            ("f1".into(), "qa_contact".into()),
            ("o1".into(), "equals".into()),
            ("v1".into(), "user@example.com".into()),
        ],
        ..Default::default()
    };
    assert!(has_raw_boolean_chart_params(&params));
}

#[test]
fn has_raw_boolean_chart_params_false_for_non_chart() {
    let params = SearchParams {
        raw_params: vec![("product".into(), "Firefox".into())],
        ..Default::default()
    };
    assert!(!has_raw_boolean_chart_params(&params));
}

#[test]
fn has_raw_boolean_chart_params_false_for_empty() {
    let params = SearchParams::default();
    assert!(!has_raw_boolean_chart_params(&params));
}

#[test]
fn has_raw_boolean_chart_params_false_for_non_chart_letter_with_digit() {
    let params = SearchParams {
        raw_params: vec![("a1".into(), "value".into())],
        ..Default::default()
    };
    assert!(!has_raw_boolean_chart_params(&params));
}

#[test]
fn force_id_fields_prepends_id_to_idless_include() {
    let (inc, exc) = force_id_fields(Some("summary,status"), None);
    assert_eq!(inc.as_deref(), Some("id,summary,status"));
    assert_eq!(exc, None);
}

#[test]
fn force_id_fields_leaves_include_with_id_unchanged() {
    let (inc, _) = force_id_fields(Some("summary,id,status"), None);
    assert_eq!(inc.as_deref(), Some("summary,id,status"));
}

#[test]
fn force_id_fields_matches_id_case_insensitively() {
    let (inc, _) = force_id_fields(Some("summary,ID"), None);
    assert_eq!(inc.as_deref(), Some("summary,ID"));
}

#[test]
fn force_id_fields_trims_tokens_when_detecting_id() {
    let (inc, _) = force_id_fields(Some(" id , summary "), None);
    assert_eq!(inc.as_deref(), Some(" id , summary "));
}

#[test]
fn force_id_fields_include_none_stays_none() {
    let (inc, _) = force_id_fields(None, None);
    assert_eq!(inc, None);
}

#[test]
fn force_id_fields_strips_id_from_exclude() {
    let (_, exc) = force_id_fields(None, Some("id,status"));
    assert_eq!(exc.as_deref(), Some("status"));
}

#[test]
fn force_id_fields_exclude_only_id_becomes_none() {
    let (_, exc) = force_id_fields(None, Some("id"));
    assert_eq!(exc, None);
}

#[test]
fn force_id_fields_exclude_without_id_unchanged() {
    let (_, exc) = force_id_fields(None, Some("status,priority"));
    assert_eq!(exc.as_deref(), Some("status,priority"));
}

#[test]
fn search_params_has_filters() {
    let empty = SearchParams::default();
    assert!(!empty.has_filters());

    let with_product = SearchParams {
        product: vec!["P".into()],
        ..Default::default()
    };
    assert!(with_product.has_filters());

    let with_quicksearch = SearchParams {
        quicksearch: Some("crash".into()),
        ..Default::default()
    };
    assert!(with_quicksearch.has_filters());
}

#[test]
fn force_id_fields_twice_is_force_id_fields_once() {
    for (wanted, unwanted) in [
        (Some("summary,status"), Some("id,summary")),
        (Some(" ID ,status"), Some(" id ,Id, status ,")),
        (Some(""), Some("id")),
        (None, Some("summary")),
    ] {
        let (inc, exc) = force_id_fields(wanted, unwanted);
        let (inc2, exc2) = force_id_fields(inc.as_deref(), exc.as_deref());
        assert_eq!(inc2, inc);
        assert_eq!(exc2, exc);
    }
    let (inc, exc) = force_id_fields(Some("summary"), Some("id,summary"));
    assert_eq!(inc.as_deref(), Some("id,summary"));
    assert_eq!(exc.as_deref(), Some("summary"));
}
