use okapi_operation::{
    convert_axum_path_to_openapi, exact_spec_format, negotiate_spec_format, Reference, SpecFormat,
};

#[test]
fn placeholders_become_braces() {
    assert_eq!(
        convert_axum_path_to_openapi("/users/:id/posts/:post_id"),
        "/users/{id}/posts/{post_id}"
    );
}

#[test]
fn path_without_placeholders_is_unchanged() {
    assert_eq!(convert_axum_path_to_openapi("/users/all"), "/users/all");
    assert_eq!(convert_axum_path_to_openapi(""), "");
    assert_eq!(convert_axum_path_to_openapi("/"), "/");
}

#[test]
fn colons_are_trimmed_from_parameter_names() {
    assert_eq!(convert_axum_path_to_openapi("/a/::id:/b"), "/a/{id}/b");
    assert_eq!(convert_axum_path_to_openapi("/a/:"), "/a/{}");
    assert_eq!(convert_axum_path_to_openapi("/a/b:c"), "/a/b:c");
}

#[test]
fn accept_header_selects_format() {
    assert_eq!(negotiate_spec_format(None), Some(SpecFormat::Json));
    assert_eq!(negotiate_spec_format(Some("application/json")), Some(SpecFormat::Json));
    assert_eq!(negotiate_spec_format(Some("*/*")), Some(SpecFormat::Json));
    assert_eq!(negotiate_spec_format(Some("Application/YAML")), Some(SpecFormat::Yaml));
    assert_eq!(negotiate_spec_format(Some("text/x-yaml, application/json")), Some(SpecFormat::Yaml));
    assert_eq!(negotiate_spec_format(Some("JSON")), Some(SpecFormat::Json));
    assert_eq!(negotiate_spec_format(Some("text/html")), None);
    assert_eq!(negotiate_spec_format(Some("")), None);
}

#[test]
fn reference_name_is_last_segment() {
    assert_eq!(Reference("#/components/schemas/User".to_string()).name(), "User");
    assert_eq!(Reference("User".to_string()).name(), "User");
    assert_eq!(Reference("#/components/schemas/".to_string()).name(), "");
}

#[test]
fn exact_accept_header_selects_format() {
    assert_eq!(exact_spec_format(None), Some(SpecFormat::Json));
    assert_eq!(exact_spec_format(Some("")), Some(SpecFormat::Json));
    assert_eq!(exact_spec_format(Some("json")), Some(SpecFormat::Json));
    assert_eq!(exact_spec_format(Some("*/*")), Some(SpecFormat::Json));
    assert_eq!(exact_spec_format(Some("yaml")), Some(SpecFormat::Yaml));
    assert_eq!(exact_spec_format(Some("application/json")), None);
    assert_eq!(exact_spec_format(Some("YAML")), None);
}
