//! OpenAPI and JSON Schema types of the `okapi` crate that the library carries
//! through without looking inside them.
use vstd::prelude::*;

verus! {

#[verifier::external_type_specification]
#[verifier::external_body]
pub struct ExOperation(okapi::openapi3::Operation);

#[verifier::external_type_specification]
#[verifier::external_body]
pub struct ExComponents(okapi::openapi3::Components);

#[verifier::external_type_specification]
#[verifier::external_body]
pub struct ExSchemaObject(okapi::schemars::schema::SchemaObject);

#[verifier::external_type_specification]
#[verifier::external_body]
pub struct ExSchemaGenerator(okapi::schemars::gen::SchemaGenerator);

#[verifier::external_type_specification]
#[verifier::external_body]
pub struct ExSecurityScheme(okapi::openapi3::SecurityScheme);

#[verifier::external_type_specification]
#[verifier::external_body]
#[verifier::reject_recursive_types(T)]
pub struct ExRefOr<T>(okapi::openapi3::RefOr<T>);

#[verifier::external_type_specification]
#[verifier::external_body]
pub struct ExResponses(okapi::openapi3::Responses);

#[verifier::external_type_specification]
#[verifier::external_body]
pub struct ExResponse(okapi::openapi3::Response);

#[verifier::external_type_specification]
#[verifier::external_body]
pub struct ExMediaType(okapi::openapi3::MediaType);

#[verifier::external_type_specification]
#[verifier::external_body]
pub struct ExContact(okapi::openapi3::Contact);

#[verifier::external_type_specification]
#[verifier::external_body]
pub struct ExLicense(okapi::openapi3::License);

#[verifier::external_type_specification]
#[verifier::external_body]
pub struct ExServer(okapi::openapi3::Server);

#[verifier::external_type_specification]
#[verifier::external_body]
pub struct ExTag(okapi::openapi3::Tag);

#[verifier::external_type_specification]
#[verifier::external_body]
pub struct ExExternalDocs(okapi::openapi3::ExternalDocs);

/// okapi derives `Clone` for its types: the copy is field by field the same.
pub assume_specification[ <okapi::openapi3::Components as Clone>::clone ](
    c: &okapi::openapi3::Components,
) -> (r: okapi::openapi3::Components)
    ensures
        r == *c,
;

/// schemars derives `Clone` for `SchemaObject`: the copy is field by field the same.
pub assume_specification[ <okapi::schemars::schema::SchemaObject as Clone>::clone ](
    c: &okapi::schemars::schema::SchemaObject,
) -> (r: okapi::schemars::schema::SchemaObject)
    ensures
        r == *c,
;

/// okapi derives `Clone` for `RefOr`, which clones the content with `T`'s
/// own `Clone`; nothing is claimed of the copy.
pub assume_specification<T: Clone>[ <okapi::openapi3::RefOr<T> as Clone>::clone ](
    c: &okapi::openapi3::RefOr<T>,
) -> okapi::openapi3::RefOr<T>;

/// okapi derives `Clone` for `Contact`: the copy is field by field the same.
pub assume_specification[ <okapi::openapi3::Contact as Clone>::clone ](
    c: &okapi::openapi3::Contact,
) -> (r: okapi::openapi3::Contact)
    ensures
        r == *c,
;

/// okapi derives `Clone` for `License`: the copy is field by field the same.
pub assume_specification[ <okapi::openapi3::License as Clone>::clone ](
    c: &okapi::openapi3::License,
) -> (r: okapi::openapi3::License)
    ensures
        r == *c,
;

/// okapi derives `Clone` for `Server`: the copy is field by field the same.
pub assume_specification[ <okapi::openapi3::Server as Clone>::clone ](
    c: &okapi::openapi3::Server,
) -> (r: okapi::openapi3::Server)
    ensures
        r == *c,
;

/// okapi derives `Clone` for `Tag`: the copy is field by field the same.
pub assume_specification[ <okapi::openapi3::Tag as Clone>::clone ](
    c: &okapi::openapi3::Tag,
) -> (r: okapi::openapi3::Tag)
    ensures
        r == *c,
;

/// okapi derives `Clone` for `ExternalDocs`: the copy is field by field the same.
pub assume_specification[ <okapi::openapi3::ExternalDocs as Clone>::clone ](
    c: &okapi::openapi3::ExternalDocs,
) -> (r: okapi::openapi3::ExternalDocs)
    ensures
        r == *c,
;

/// okapi derives `Clone` for `Operation`: the copy is field by field the same.
pub assume_specification[ <okapi::openapi3::Operation as Clone>::clone ](
    c: &okapi::openapi3::Operation,
) -> (r: okapi::openapi3::Operation)
    ensures
        r == *c,
;

/// schemars implements `Clone` for `SchemaGenerator` by hand: settings and
/// definitions are copied, while the pending schemas and the tables of names
/// in use start empty; nothing is claimed of the copy.
pub assume_specification[ <okapi::schemars::gen::SchemaGenerator as Clone>::clone ](
    c: &okapi::schemars::gen::SchemaGenerator,
) -> okapi::schemars::gen::SchemaGenerator;

} // verus!
