//! Errors of route composition, registration and specification assembly.
use vstd::prelude::*;

use crate::method::Method;

verus! {

#[verifier::external_type_specification]
#[verifier::external_body]
pub struct ExAnyhowError(anyhow::Error);

/// Why a route tree could not be composed or a specification could not be built.
#[derive(Debug)]
pub enum SpecError {
    /// Two route operation maps that were merged both document `method`.
    OverlappingMethod { method: Method },
    /// Two route trees that were combined both document `method` at `path`.
    OverlappingOperation { path: String, method: Method },
    /// `(path, method)` was registered with the builder before.
    DuplicateRoute { path: String, method: Method },
    /// Two built operations carry the same operation id.
    DuplicateOperationId { operation_id: String },
    /// Two distinct schemas were registered under one name.
    SchemaCollision { name: String },
    /// A security scheme was registered again under its name with another definition.
    ConflictingSecurityScheme { name: String },
    /// An HTTP method outside the eight that a path item can describe.
    UnsupportedMethod { method: String },
    /// The generator of `method path` failed.
    Generator { method: Method, path: String, source: anyhow::Error },
}

} // verus!
