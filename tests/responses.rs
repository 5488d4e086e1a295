use okapi::openapi3::{RefOr, Response, Responses};
use okapi_operation::{
    merge_response_sets, ComponentsBuilder, ResponseSet, SchemaRegistry, ToMediaTypes, ToResponses,
};

struct NotFound;

impl ToResponses for NotFound {
    fn generate(_: &mut SchemaRegistry) -> Result<Responses, anyhow::Error> {
        let mut responses = Responses::default();
        responses
            .responses
            .insert("404".to_string(), RefOr::Object(Response::default()));
        Ok(responses)
    }
}

fn entry(status: &str) -> (String, RefOr<Response>) {
    (status.to_string(), RefOr::Object(Response::default()))
}

#[test]
fn unit_responds_with_ok() {
    let mut registry = ComponentsBuilder::new().build();
    let responses = <() as ToResponses>::generate(&mut registry).expect("responses");
    assert_eq!(responses.responses.len(), 1);
    assert!(responses.responses.contains_key("200"));
    assert!(responses.default.is_none());
}

#[test]
fn result_joins_both_variants() {
    let mut registry = ComponentsBuilder::new().build();
    let responses = <Result<(), NotFound> as ToResponses>::generate(&mut registry).expect("responses");
    let statuses: Vec<&String> = responses.responses.keys().collect();
    assert_eq!(statuses, vec!["200", "404"]);
}

#[test]
fn result_with_one_status_twice_fails() {
    let mut registry = ComponentsBuilder::new().build();
    let err = <Result<(), ()> as ToResponses>::generate(&mut registry).expect_err("overlap");
    assert!(err.to_string().contains("200"));
}

#[test]
fn response_sets_with_two_defaults_fail() {
    let ok = ResponseSet {
        default: Some(RefOr::Object(Response::default())),
        responses: vec![],
    };
    let err = ResponseSet {
        default: Some(RefOr::Object(Response::default())),
        responses: vec![],
    };
    assert_eq!(merge_response_sets(ok, err).err().as_deref(), Some("default"));
}

#[test]
fn response_sets_join_in_order() {
    let ok = ResponseSet {
        default: None,
        responses: vec![entry("200"), entry("201")],
    };
    let err = ResponseSet {
        default: Some(RefOr::Object(Response::default())),
        responses: vec![entry("400")],
    };
    let merged = merge_response_sets(ok, err).ok().expect("merged");
    let statuses: Vec<&str> = merged.responses.iter().map(|(s, _)| s.as_str()).collect();
    assert_eq!(statuses, vec!["200", "201", "400"]);
    assert!(merged.default.is_some());
}

#[test]
fn response_sets_report_first_shared_status() {
    let ok = ResponseSet {
        default: None,
        responses: vec![entry("200"), entry("404")],
    };
    let err = ResponseSet {
        default: None,
        responses: vec![entry("500"), entry("404"), entry("200")],
    };
    assert_eq!(merge_response_sets(ok, err).err().as_deref(), Some("404"));
}

#[test]
fn text_and_bytes_media_types() {
    let mut registry = ComponentsBuilder::new().build();
    let text = <String as ToMediaTypes>::generate(&mut registry).expect("media");
    assert_eq!(text.keys().collect::<Vec<_>>(), vec!["text/plain"]);
    let bytes = <Vec<u8> as ToMediaTypes>::generate(&mut registry).expect("media");
    let media = bytes.get("application/octet-stream").expect("octet stream");
    assert_eq!(media.schema.as_ref().and_then(|s| s.format.as_deref()), Some("binary"));
    assert!(<() as ToMediaTypes>::generate(&mut registry).expect("media").is_empty());
    let html = <axum::response::Html<String> as ToMediaTypes>::generate(&mut registry).expect("media");
    assert!(html.contains_key("text/html"));
}

#[test]
fn text_responds_with_ok_content() {
    let mut registry = ComponentsBuilder::new().build();
    let responses = <String as ToResponses>::generate(&mut registry).expect("responses");
    match responses.responses.get("200") {
        Some(RefOr::Object(r)) => assert!(r.content.contains_key("text/plain")),
        other => panic!("unexpected {:?}", other),
    }
}
