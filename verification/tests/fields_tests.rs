use bzr::fields::{field_values_of, field_values_path, resolve_field_alias, status_transitions, FieldDefinition};
use bzr::types::{FieldValue, StatusTransition};

#[test]
fn resolve_field_alias_maps_status() {
    assert_eq!(resolve_field_alias("status").as_ref(), "bug_status");
}

#[test]
fn resolve_field_alias_maps_severity() {
    assert_eq!(resolve_field_alias("severity").as_ref(), "bug_severity");
}

#[test]
fn resolve_field_alias_maps_id() {
    assert_eq!(resolve_field_alias("id").as_ref(), "bug_id");
}

#[test]
fn resolve_field_alias_maps_type() {
    assert_eq!(resolve_field_alias("type").as_ref(), "bug_type");
}

#[test]
fn resolve_field_alias_maps_group() {
    assert_eq!(resolve_field_alias("group").as_ref(), "bug_group");
}

#[test]
fn resolve_field_alias_maps_file_loc() {
    assert_eq!(resolve_field_alias("file_loc").as_ref(), "bug_file_loc");
}

#[test]
fn resolve_field_alias_passes_through_unknown() {
    assert_eq!(resolve_field_alias("priority").as_ref(), "priority");
}

#[test]
fn resolve_field_alias_passes_through_already_prefixed() {
    assert_eq!(resolve_field_alias("bug_status").as_ref(), "bug_status");
}

#[test]
fn resolve_field_alias_is_case_insensitive() {
    assert_eq!(resolve_field_alias("Status").as_ref(), "bug_status");
    assert_eq!(resolve_field_alias("SEVERITY").as_ref(), "bug_severity");
}

#[test]
fn field_values_path_encodes_one_segment() {
    assert_eq!(
        field_values_path("cf_release/channel?include_fields=id% raw").unwrap(),
        "field/bug/cf%5Frelease%2Fchannel%3Finclude%5Ffields%3Did%25%20raw"
    );
    assert_eq!(field_values_path("severity").unwrap(), "field/bug/bug%5Fseverity");
    for name in ["", ".", ".."] {
        assert!(matches!(
            field_values_path(name),
            Err(bzr::error::BzrError::InputValidation { field: Some(ref field), value: Some(ref value), .. })
                if field == "field" && value == name
        ));
    }
}

#[test]
fn field_values_of_first_field_or_not_found() {
    let value = FieldValue { name: Some("blocker".into()), sort_key: 100, is_active: true, can_change_to: None };
    let fields = vec![FieldDefinition { name: "bug_severity".into(), field_type: 2, is_custom: false, values: vec![value] }];
    let values = field_values_of(fields, "severity").unwrap();
    assert_eq!(values[0].name.as_deref(), Some("blocker"));
    match field_values_of(vec![], "nonexistent") {
        Err(bzr::error::BzrError::NotFound { resource, id }) => {
            assert_eq!(resource, "field");
            assert_eq!(id, "nonexistent");
        }
        _ => panic!("expected not found"),
    }
}

#[test]
fn status_transitions_skip_unnamed_and_listless_statuses() {
    let values = vec![
        FieldValue { name: None, sort_key: 0, is_active: true, can_change_to: Some(vec![StatusTransition { name: "NEW".into() }]) },
        FieldValue { name: Some("NEW".into()), sort_key: 1, is_active: true, can_change_to: Some(vec![StatusTransition { name: "ASSIGNED".into() }]) },
        FieldValue { name: Some("".into()), sort_key: 2, is_active: true, can_change_to: Some(vec![]) },
        FieldValue { name: Some("CLOSED".into()), sort_key: 3, is_active: true, can_change_to: None },
    ];
    let summaries = status_transitions(values);
    assert_eq!(summaries.len(), 1);
    assert_eq!(summaries[0].from, "NEW");
    assert_eq!(summaries[0].can_change_to, vec!["ASSIGNED".to_string()]);
}
