//! Media types of a request or response body derived from a Rust type.
use vstd::prelude::*;

use okapi::openapi3::{MediaType, RefOr, Response, Responses};
use okapi::schemars::schema::SchemaObject;
use std::borrow::Cow;

use crate::components::SchemaRegistry;
use crate::responses::{response_set_into, ResponseSet, ToResponses};

verus! {

/// Generate [`MediaType`]s, by media type name, for a type.
pub trait ToMediaTypes {
    fn generate(components: &mut SchemaRegistry) -> Result<okapi::Map<String, MediaType>, anyhow::Error>;
}

/// Relies on okapi's `Map` (a `BTreeMap`): the entries collected into a map.
#[verifier::external_body]
fn media_type_map(entries: Vec<(String, MediaType)>) -> okapi::Map<String, MediaType> {
    entries.into_iter().collect()
}

/// Relies on `Default` of okapi's `MediaType`: nothing described.
#[verifier::external_body]
fn plain_media_type() -> MediaType {
    MediaType::default()
}

/// Relies on okapi's `MediaType`: one described by `schema` alone.
#[verifier::external_body]
fn media_type_of(schema: SchemaObject) -> MediaType {
    MediaType { schema: Some(schema), ..MediaType::default() }
}

/// Relies on schemars' `SchemaObject` and `InstanceType`: a string schema
/// of the given format.
#[verifier::external_body]
fn string_schema(format: String) -> SchemaObject {
    SchemaObject {
        instance_type: Some(okapi::schemars::schema::InstanceType::String.into()),
        format: Some(format),
        ..SchemaObject::default()
    }
}

#[verifier::external_type_specification]
#[verifier::external_body]
#[verifier::reject_recursive_types(T)]
pub struct ExHtml<T>(axum::response::Html<T>);

#[verifier::external_type_specification]
#[verifier::external_body]
pub struct ExBytes(bytes::Bytes);

#[verifier::external_type_specification]
#[verifier::external_body]
pub struct ExBytesMut(bytes::BytesMut);

/// Relies on `mime::TEXT_HTML`.
#[verifier::external_body]
fn text_html() -> String {
    mime::TEXT_HTML.to_string()
}

/// Relies on `mime::TEXT_PLAIN`.
#[verifier::external_body]
fn text_plain() -> String {
    mime::TEXT_PLAIN.to_string()
}

/// Relies on `mime::APPLICATION_OCTET_STREAM`.
#[verifier::external_body]
fn application_octet_stream() -> String {
    mime::APPLICATION_OCTET_STREAM.to_string()
}

/// Relies on okapi's `Response`, given inline with `RefOr::Object`: a
/// response with the given content and nothing else described.
#[verifier::external_body]
fn inline_response_with(content: okapi::Map<String, MediaType>) -> RefOr<Response> {
    RefOr::Object(Response { content, ..Response::default() })
}

/// The responses of a type whose value is the body of a `200` response.
fn ok_responses_of<T: ToMediaTypes>(components: &mut SchemaRegistry) -> Result<Responses, anyhow::Error> {
    let content = T::generate(components)?;
    let mut responses: Vec<(String, RefOr<Response>)> = Vec::new();
    responses.push((String::from_str("200"), inline_response_with(content)));
    Ok(response_set_into(ResponseSet { default: None, responses }))
}

impl ToMediaTypes for () {
    fn generate(_components: &mut SchemaRegistry) -> Result<okapi::Map<String, MediaType>, anyhow::Error> {
        Ok(media_type_map(Vec::new()))
    }
}

impl ToMediaTypes for String {
    fn generate(_components: &mut SchemaRegistry) -> Result<okapi::Map<String, MediaType>, anyhow::Error> {
        let mut entries: Vec<(String, MediaType)> = Vec::new();
        entries.push((text_plain(), plain_media_type()));
        Ok(media_type_map(entries))
    }
}

impl ToMediaTypes for &'static str {
    fn generate(components: &mut SchemaRegistry) -> Result<okapi::Map<String, MediaType>, anyhow::Error> {
        <String as ToMediaTypes>::generate(components)
    }
}

impl ToMediaTypes for Cow<'static, str> {
    fn generate(components: &mut SchemaRegistry) -> Result<okapi::Map<String, MediaType>, anyhow::Error> {
        <String as ToMediaTypes>::generate(components)
    }
}

impl ToMediaTypes for Vec<u8> {
    /// Bytes are described as a string of format `binary`, as OpenAPI
    /// recommends for file uploads.
    fn generate(_components: &mut SchemaRegistry) -> Result<okapi::Map<String, MediaType>, anyhow::Error> {
        let mut entries: Vec<(String, MediaType)> = Vec::new();
        entries.push((application_octet_stream(), media_type_of(string_schema(String::from_str("binary")))));
        Ok(media_type_map(entries))
    }
}

impl ToMediaTypes for &'static [u8] {
    fn generate(components: &mut SchemaRegistry) -> Result<okapi::Map<String, MediaType>, anyhow::Error> {
        <Vec<u8> as ToMediaTypes>::generate(components)
    }
}

impl ToMediaTypes for Cow<'static, [u8]> {
    fn generate(components: &mut SchemaRegistry) -> Result<okapi::Map<String, MediaType>, anyhow::Error> {
        <Vec<u8> as ToMediaTypes>::generate(components)
    }
}

impl ToResponses for String {
    fn generate(components: &mut SchemaRegistry) -> Result<Responses, anyhow::Error> {
        ok_responses_of::<String>(components)
    }
}

impl ToResponses for &'static str {
    fn generate(components: &mut SchemaRegistry) -> Result<Responses, anyhow::Error> {
        ok_responses_of::<String>(components)
    }
}

impl ToResponses for Cow<'static, str> {
    fn generate(components: &mut SchemaRegistry) -> Result<Responses, anyhow::Error> {
        ok_responses_of::<String>(components)
    }
}

impl ToResponses for Vec<u8> {
    fn generate(components: &mut SchemaRegistry) -> Result<Responses, anyhow::Error> {
        ok_responses_of::<Vec<u8>>(components)
    }
}

impl ToResponses for &'static [u8] {
    fn generate(components: &mut SchemaRegistry) -> Result<Responses, anyhow::Error> {
        ok_responses_of::<Vec<u8>>(components)
    }
}

impl ToResponses for Cow<'static, [u8]> {
    fn generate(components: &mut SchemaRegistry) -> Result<Responses, anyhow::Error> {
        ok_responses_of::<Vec<u8>>(components)
    }
}

impl<T> ToMediaTypes for axum::response::Html<T> {
    fn generate(_components: &mut SchemaRegistry) -> Result<okapi::Map<String, MediaType>, anyhow::Error> {
        let mut entries: Vec<(String, MediaType)> = Vec::new();
        entries.push((text_html(), plain_media_type()));
        Ok(media_type_map(entries))
    }
}

impl<T> ToResponses for axum::response::Html<T> {
    fn generate(components: &mut SchemaRegistry) -> Result<Responses, anyhow::Error> {
        ok_responses_of::<axum::response::Html<T>>(components)
    }
}

impl ToMediaTypes for bytes::Bytes {
    fn generate(components: &mut SchemaRegistry) -> Result<okapi::Map<String, MediaType>, anyhow::Error> {
        <Vec<u8> as ToMediaTypes>::generate(components)
    }
}

impl ToMediaTypes for bytes::BytesMut {
    fn generate(components: &mut SchemaRegistry) -> Result<okapi::Map<String, MediaType>, anyhow::Error> {
        <Vec<u8> as ToMediaTypes>::generate(components)
    }
}

} // verus!
