//! Responses of an operation derived from a handler's return type.
use vstd::prelude::*;

use okapi::openapi3::{RefOr, Response, Responses};

use crate::components::{entry_names, find_name_collision, SchemaRegistry};

verus! {

/// Generate [`Responses`] for type.
pub trait ToResponses {
    fn generate(components: &mut SchemaRegistry) -> Result<Responses, anyhow::Error>;
}

/// The responses of an operation, by status, and its default response.
pub struct ResponseSet {
    pub default: Option<RefOr<Response>>,
    pub responses: Vec<(String, RefOr<Response>)>,
}

/// Relies on the `default` and `responses` fields of okapi's `Responses`:
/// takes them out, leaving the rest.
#[verifier::external_body]
fn take_response_set(responses: &mut Responses) -> ResponseSet {
    ResponseSet {
        default: responses.default.take(),
        responses: std::mem::take(&mut responses.responses).into_iter().collect(),
    }
}

/// Relies on the `default` and `responses` fields of okapi's `Responses`:
/// puts the set into them.
#[verifier::external_body]
fn with_response_set(mut responses: Responses, set: ResponseSet) -> Responses {
    responses.default = set.default;
    responses.responses.extend(set.responses);
    responses
}

/// Relies on `Default` of okapi's `Responses`: no response at all.
#[verifier::external_body]
fn empty_responses() -> Responses {
    Responses::default()
}

/// Relies on `Default` of okapi's `Response`, given inline with `RefOr::Object`:
/// a response with nothing described.
#[verifier::external_body]
fn empty_inline_response() -> RefOr<Response> {
    RefOr::Object(Response::default())
}

/// Relies on `anyhow::Error::msg`: the error of a result type whose two
/// variants describe one response.
#[verifier::external_body]
fn overlap_error(status: &str) -> anyhow::Error {
    anyhow::Error::msg(format!("Result type produces {} response in both Ok and Err variants", status))
}

/// Joins the responses of two alternatives: every status of both, and the
/// default of whichever has one. Fails with `"default"` where both have a
/// default, else with the first status of `err` that `ok` has too.
pub fn merge_response_sets(ok: ResponseSet, err: ResponseSet) -> (r: Result<ResponseSet, String>)
    ensures
        ok.default is Some && err.default is Some ==> (r matches Err(s) && s@ == seq!['d', 'e', 'f', 'a', 'u', 'l', 't']),
        !(ok.default is Some && err.default is Some) ==> match r {
            Ok(m) => (forall|j: int|
                0 <= j < err.responses@.len() ==> !entry_names(ok.responses@).contains(#[trigger] err.responses@[j].0@))
                && m.default == (if ok.default is Some { ok.default } else { err.default })
                && m.responses@ == ok.responses@ + err.responses@,
            Err(s) => exists|i: int|
                0 <= i < err.responses@.len() && err.responses@[i].0@ == s@ && entry_names(ok.responses@).contains(s@)
                    && forall|j: int|
                    0 <= j < i ==> !entry_names(ok.responses@).contains(#[trigger] err.responses@[j].0@),
        },
{
    if ok.default.is_some() && err.default.is_some() {
        proof {
            reveal_strlit("default");
            assert("default"@ =~= seq!['d', 'e', 'f', 'a', 'u', 'l', 't']);
        }
        return Err(String::from_str("default"));
    }
    if let Some(i) = find_name_collision(&ok.responses, &err.responses) {
        return Err(err.responses[i].0.clone());
    }
    let default = if ok.default.is_some() {
        ok.default
    } else {
        err.default
    };
    let mut responses = ok.responses;
    let mut rest = err.responses;
    responses.append(&mut rest);
    Ok(ResponseSet { default, responses })
}

/// The responses given by a response set, nothing else described.
pub(crate) fn response_set_into(set: ResponseSet) -> Responses {
    with_response_set(empty_responses(), set)
}

impl ToResponses for () {
    fn generate(_components: &mut SchemaRegistry) -> Result<Responses, anyhow::Error> {
        let mut responses: Vec<(String, RefOr<Response>)> = Vec::new();
        responses.push((String::from_str("200"), empty_inline_response()));
        Ok(response_set_into(ResponseSet { default: None, responses }))
    }
}

impl<T: ToResponses, E: ToResponses> ToResponses for Result<T, E> {
    fn generate(components: &mut SchemaRegistry) -> Result<Responses, anyhow::Error> {
        let mut ok = T::generate(components)?;
        let mut err = E::generate(components)?;
        let ok_set = take_response_set(&mut ok);
        let err_set = take_response_set(&mut err);
        match merge_response_sets(ok_set, err_set) {
            Ok(set) => Ok(with_response_set(ok, set)),
            Err(status) => Err(overlap_error(status.as_str())),
        }
    }
}

} // verus!
