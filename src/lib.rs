//! Assembly of OpenAPI specifications from per-route operation generators.
//!
//! Routes register operation generators (pure functions producing an OpenAPI
//! operation from the shared schema registry); the builder runs them in a
//! fixed `(path, method)` order and assembles one deterministic document.
pub mod builder;
pub mod components;
pub mod error;
pub mod media;
pub mod method;
pub mod order;
pub mod outside;
pub mod path;
pub mod reference;
pub mod responses;
pub mod route_operations;
pub mod routes;
pub mod serve;

pub use builder::{
    first_stop, BuilderOptions, BuiltOperation, GeneratorOutcome, Info, OpenApiBuilder, Specification,
};
pub use components::{
    finalize_schemas, registration_of, ComponentsBuilder, Registration, SchemaRegistry,
};
pub use error::SpecError;
pub use media::ToMediaTypes;
pub use method::{is_filter_present, Method, MethodFilter};
pub use path::convert_axum_path_to_openapi;
pub use reference::Reference;
pub use responses::{merge_response_sets, ResponseSet, ToResponses};
pub use route_operations::MethodRouterOperations;
pub use routes::{RouteTable, RoutesOperations};
pub use serve::{exact_spec_format, negotiate_spec_format, SpecFormat, Yaml};
