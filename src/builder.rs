//! The specification builder: registers operation generators by `(path,
//! method)` and runs them, in key order, into one specification.
use vstd::prelude::*;

use okapi::openapi3::{Contact, ExternalDocs, License, Operation, SecurityScheme, Server, Tag};

use crate::components::SchemaRegistry;
use crate::error::SpecError;
use crate::method::{str_equal, Method};
use crate::order::{
    key_before, key_lt, key_of, lemma_key_lt_total, lemma_key_lt_transitive, strictly_sorted,
};
use crate::path::{convert_axum_path_to_openapi, openapi_path};
use crate::route_operations::MethodRouterOperations;
use crate::routes::RoutesOperations;

verus! {

/// Options handed to every operation generator.
#[derive(Clone, Debug)]
pub struct BuilderOptions {
    /// Whether an operation without an explicit id gets its handler's name as id.
    pub infer_operation_id: bool,
}

impl BuilderOptions {
    pub fn infer_operation_id(&self) -> (r: bool)
        ensures
            r == self.infer_operation_id,
    {
        self.infer_operation_id
    }
}

impl Default for BuilderOptions {
    fn default() -> (r: Self)
        ensures
            !r.infer_operation_id,
    {
        BuilderOptions { infer_operation_id: false }
    }
}

/// Document-level metadata of a specification.
#[derive(Clone, Debug)]
pub struct Info {
    pub title: String,
    pub version: String,
    pub description: Option<String>,
    pub terms_of_service: Option<String>,
    pub contact: Option<Contact>,
    pub license: Option<License>,
}

/// One built operation, at its path and method.
#[derive(Clone, Debug)]
pub struct BuiltOperation {
    pub path: String,
    pub method: Method,
    /// The operation's id as the generator set it.
    pub operation_id: Option<String>,
    pub operation: Operation,
}

/// A built specification: metadata, the operations in `(path, method)` order,
/// and the components.
#[derive(Clone, Debug)]
pub struct Specification {
    pub info: Info,
    pub servers: Vec<Server>,
    pub tags: Vec<Tag>,
    pub external_docs: Option<ExternalDocs>,
    /// Security requirements that apply to every operation: scheme name and scopes.
    pub security: Vec<(String, Vec<String>)>,
    pub operations: Vec<BuiltOperation>,
    pub components: okapi::openapi3::Components,
}

/// Whether some documented route of `routes` has `(path, method)` as the
/// OpenAPI form of its path and its method.
pub open spec fn route_key<G>(routes: Map<Seq<char>, MethodRouterOperations<G>>, path: Seq<char>, method: Method) -> bool {
    exists|p: Seq<char>| routes.contains_key(p) && openapi_path(p) == path && #[trigger] routes[p].slot(method) is Some
}

/// Whether every key of `operations` is new: not among `registered` and not
/// repeated within `operations`.
pub open spec fn fresh_keys<G>(registered: Seq<(Seq<char>, Method, G)>, operations: Seq<(String, Method, G)>) -> bool {
    &&& forall|k: int, g: G|
        0 <= k < operations.len() ==> !#[trigger] registered.contains((operations[k].0@, operations[k].1, g))
    &&& forall|a: int, b: int|
        0 <= a < b < operations.len() ==> !(#[trigger] operations[a].0@ == #[trigger] operations[b].0@
            && operations[a].1 == operations[b].1)
}

/// No operation id is carried by two operations.
pub open spec fn operation_ids_distinct(ops: Seq<BuiltOperation>) -> bool {
    forall|i: int, j: int|
        0 <= i < j < ops.len() && (#[trigger] ops[i]).operation_id is Some && (#[trigger] ops[j]).operation_id is Some
            ==> ops[i].operation_id->0@ != ops[j].operation_id->0@
}

/// Relies on the `operation_id` field of okapi's `Operation`.
#[verifier::external_body]
fn operation_id_of(operation: &Operation) -> Option<String> {
    operation.operation_id.clone()
}

/// The index of `id` among `ids`, if it is there.
fn position_of(ids: &Vec<String>, id: &str) -> (r: Option<usize>)
    ensures
        match r {
            Some(k) => k < ids@.len() && ids@[k as int]@ == id@,
            None => forall|k: int| 0 <= k < ids@.len() ==> ids@[k]@ != id@,
        },
{
    let mut k: usize = 0;
    while k < ids.len()
        invariant
            k <= ids@.len(),
            forall|j: int| 0 <= j < k ==> ids@[j]@ != id@,
        decreases ids@.len() - k,
    {
        if str_equal(ids[k].as_str(), id) {
            return Some(k);
        }
        k = k + 1;
    }
    None
}

fn copy_text(s: &Option<String>) -> (r: Option<String>)
    ensures
        r is Some == s is Some,
        r is Some ==> r->0@ == s->0@,
{
    match s {
        Some(t) => Some(t.clone()),
        None => None,
    }
}

impl Info {
    /// A copy of the metadata.
    pub fn duplicate(&self) -> (r: Info)
        ensures
            r.title@ == self.title@,
            r.version@ == self.version@,
            r.description is Some == self.description is Some,
            r.description is Some ==> r.description->0@ == self.description->0@,
            r.terms_of_service is Some == self.terms_of_service is Some,
            r.terms_of_service is Some ==> r.terms_of_service->0@ == self.terms_of_service->0@,
            r.contact == self.contact,
            r.license == self.license,
    {
        Info {
            title: self.title.clone(),
            version: self.version.clone(),
            description: copy_text(&self.description),
            terms_of_service: copy_text(&self.terms_of_service),
            contact: match &self.contact {
                Some(c) => Some(c.clone()),
                None => None,
            },
            license: match &self.license {
                Some(l) => Some(l.clone()),
                None => None,
            },
        }
    }
}

/// OpenAPI specification builder.
#[derive(Clone)]
pub struct OpenApiBuilder<G> {
    info: Info,
    servers: Vec<Server>,
    tags: Vec<Tag>,
    external_docs: Option<ExternalDocs>,
    security: Vec<(String, Vec<String>)>,
    components: SchemaRegistry,
    operations: Vec<(String, Method, G)>,
    builder_options: BuilderOptions,
}

impl<G: Copy> OpenApiBuilder<G> {
    /// The registered operations, in key order.
    pub closed spec fn registered(&self) -> Seq<(Seq<char>, Method, G)> {
        self.operations@.map_values(|e: (String, Method, G)| (e.0@, e.1, e.2))
    }

    /// The document-level metadata.
    pub closed spec fn info(&self) -> Info {
        self.info
    }

    /// The options handed to the generators.
    pub closed spec fn options(&self) -> BuilderOptions {
        self.builder_options
    }

    /// The schema registry.
    pub closed spec fn registry(&self) -> SchemaRegistry {
        self.components
    }

    /// Security requirements that apply to every operation.
    pub closed spec fn security(&self) -> Seq<(String, Vec<String>)> {
        self.security@
    }

    /// The registered operations are kept in strictly increasing key order.
    pub open spec fn wf(&self) -> bool {
        strictly_sorted(self.registered())
    }

    /// A builder with the given title and version and nothing else.
    pub fn new(title: &str, version: &str) -> (r: Self)
        ensures
            r.wf(),
            r.registered() == Seq::<(Seq<char>, Method, G)>::empty(),
            r.info().title@ == title@,
            r.info().version@ == version@,
            r.info().description is None,
            r.info().terms_of_service is None,
            r.info().contact is None,
            r.info().license is None,
            r.servers().len() == 0,
            r.tags().len() == 0,
            r.spec_external_docs() is None,
            r.security().len() == 0,
            r.registry().schema_names().len() == 0,
            !r.options().infer_operation_id,
    {
        let r = OpenApiBuilder {
            info: Info {
                title: String::from_str(title),
                version: String::from_str(version),
                description: None,
                terms_of_service: None,
                contact: None,
                license: None,
            },
            servers: Vec::new(),
            tags: Vec::new(),
            external_docs: None,
            security: Vec::new(),
            components: crate::components::ComponentsBuilder::new().build(),
            operations: Vec::new(),
            builder_options: BuilderOptions { infer_operation_id: false },
        };
        assert(r.registered() =~= Seq::<(Seq<char>, Method, G)>::empty());
        r
    }

    /// Where the key `(path, method)` stands or would stand, and whether it is there.
    fn locate(&self, path: &str, method: Method) -> (r: (usize, bool))
        requires
            self.wf(),
        ensures
            r.0 <= self.registered().len(),
            forall|j: int| 0 <= j < r.0 ==> key_lt(key_of(#[trigger] self.registered()[j]), (path@, method)),
            r.1 ==> r.0 < self.registered().len() && key_of(self.registered()[r.0 as int]) == (path@, method),
            !r.1 ==> r.0 == self.registered().len() || key_lt((path@, method), key_of(self.registered()[r.0 as int])),
            !r.1 ==> forall|j: int| 0 <= j < self.registered().len() ==> key_of(#[trigger] self.registered()[j]) != (path@, method),
    {
        let mut i: usize = 0;
        while i < self.operations.len()
            && key_before(self.operations[i].0.as_str(), self.operations[i].1, path, method)
            invariant
                self.wf(),
                i <= self.operations@.len(),
                forall|j: int| 0 <= j < i ==> key_lt(key_of(#[trigger] self.registered()[j]), (path@, method)),
            decreases self.operations@.len() - i,
        {
            i = i + 1;
        }
        if i < self.operations.len() && str_equal(self.operations[i].0.as_str(), path)
            && self.operations[i].1 == method {
            (i, true)
        } else {
            proof {
                if i < self.operations@.len() {
                    lemma_key_lt_total((path@, method), key_of(self.registered()[i as int]));
                }
                assert forall|j: int| 0 <= j < self.registered().len() implies key_of(#[trigger] self.registered()[j]) != (path@, method) by {
                    crate::order::lemma_key_lt_irreflexive((path@, method));
                    if j > i {
                        assert(key_lt(key_of(self.registered()[i as int]), key_of(self.registered()[j])));
                        lemma_key_lt_transitive((path@, method), key_of(self.registered()[i as int]), key_of(self.registered()[j]));
                    }
                }
            }
            (i, false)
        }
    }

    /// Registers `generator` for `(path, method)`, replacing the one there was.
    fn register(&mut self, path: &str, method: Method, generator: G)
        requires
            old(self).wf(),
        ensures
            final(self).wf(),
            forall|x: (Seq<char>, Method, G)| #[trigger] final(self).registered().contains(x) <==> (x == (
                path@,
                method,
                generator,
            ) || (old(self).registered().contains(x) && key_of(x) != (path@, method))),
            final(self).info() == old(self).info(),
            final(self).options() == old(self).options(),
            final(self).registry() == old(self).registry(),
            final(self).security() == old(self).security(),
    {
        let (i, found) = self.locate(path, method);
        let ghost old_ops = self.registered();
        let entry = (String::from_str(path), method, generator);
        if found {
            self.operations.set(i, entry);
            proof {
                assert(self.registered() =~= old_ops.update(i as int, (path@, method, generator)));
                assert forall|a: int, b: int| 0 <= a < b < self.registered().len() implies key_lt(
                    key_of(#[trigger] self.registered()[a]),
                    key_of(#[trigger] self.registered()[b]),
                ) by {
                    assert(key_lt(key_of(old_ops[a]), key_of(old_ops[b])));
                }
                assert forall|x: (Seq<char>, Method, G)| #[trigger] self.registered().contains(x) <==> (
                x == (path@, method, generator) || (old_ops.contains(x) && key_of(x) != (path@, method))) by {
                    if self.registered().contains(x) {
                        let k = choose|k: int| 0 <= k < self.registered().len() && self.registered()[k] == x;
                        if k != i {
                            assert(old_ops[k] == x);
                            assert(key_lt(key_of(old_ops[k]), key_of(old_ops[i as int])) || key_lt(
                                key_of(old_ops[i as int]),
                                key_of(old_ops[k]),
                            ));
                            crate::order::lemma_key_lt_irreflexive(key_of(x));
                        }
                    }
                    if x == (path@, method, generator) {
                        assert(self.registered()[i as int] == x);
                    } else if old_ops.contains(x) && key_of(x) != (path@, method) {
                        let k = choose|k: int| 0 <= k < old_ops.len() && old_ops[k] == x;
                        assert(k != i);
                        assert(self.registered()[k] == x);
                    }
                }
            }
        } else {
            self.operations.insert(i, entry);
            proof {
                let new_ops = old_ops.insert(i as int, (path@, method, generator));
                assert(self.registered() =~= new_ops);
                assert forall|a: int, b: int| 0 <= a < b < new_ops.len() implies key_lt(
                    key_of(#[trigger] new_ops[a]),
                    key_of(#[trigger] new_ops[b]),
                ) by {
                    if b < i {
                        assert(key_lt(key_of(old_ops[a]), key_of(old_ops[b])));
                    } else if b == i {
                    } else if a < i {
                        assert(key_lt(key_of(old_ops[a]), (path@, method)));
                        assert(key_lt((path@, method), key_of(old_ops[i as int])));
                        if b - 1 > i {
                            assert(key_lt(key_of(old_ops[i as int]), key_of(old_ops[b - 1])));
                            lemma_key_lt_transitive((path@, method), key_of(old_ops[i as int]), key_of(old_ops[b - 1]));
                        }
                        lemma_key_lt_transitive(key_of(old_ops[a]), (path@, method), key_of(old_ops[b - 1]));
                    } else if a == i {
                        if b - 1 > i {
                            assert(key_lt(key_of(old_ops[i as int]), key_of(old_ops[b - 1])));
                            lemma_key_lt_transitive((path@, method), key_of(old_ops[i as int]), key_of(old_ops[b - 1]));
                        }
                    } else {
                        assert(key_lt(key_of(old_ops[a - 1]), key_of(old_ops[b - 1])));
                    }
                }
                assert forall|x: (Seq<char>, Method, G)| #[trigger] new_ops.contains(x) <==> (
                x == (path@, method, generator) || (old_ops.contains(x) && key_of(x) != (path@, method))) by {
                    if new_ops.contains(x) {
                        let k = choose|k: int| 0 <= k < new_ops.len() && new_ops[k] == x;
                        if k < i {
                            assert(old_ops[k] == x);
                            assert(old_ops.contains(x));
                            crate::order::lemma_key_lt_irreflexive(key_of(x));
                        } else if k > i {
                            assert(old_ops[k - 1] == x);
                            assert(old_ops.contains(x));
                            if k - 1 > i {
                                assert(key_lt(key_of(old_ops[i as int]), key_of(old_ops[k - 1])));
                                lemma_key_lt_transitive((path@, method), key_of(old_ops[i as int]), key_of(old_ops[k - 1]));
                            }
                            crate::order::lemma_key_lt_irreflexive(key_of(x));
                        }
                    }
                    if x == (path@, method, generator) {
                        assert(new_ops[i as int] == x);
                    } else if old_ops.contains(x) && key_of(x) != (path@, method) {
                        let k = choose|k: int| 0 <= k < old_ops.len() && old_ops[k] == x;
                        if k < i {
                            assert(new_ops[k] == x);
                        } else {
                            assert(new_ops[k + 1] == x);
                        }
                    }
                }
            }
        }
    }

    /// Registration order does not matter: two builders that hold the same
    /// registrations hold them in the same order, so their builds run the same
    /// generators for the same paths and methods in the same order.
    pub proof fn lemma_registration_order_irrelevant(a: &Self, b: &Self)
        requires
            a.wf(),
            b.wf(),
            forall|x: (Seq<char>, Method, G)| a.registered().contains(x) <==> b.registered().contains(x),
        ensures
            a.registered() == b.registered(),
    {
        crate::order::lemma_sorted_unique(a.registered(), b.registered());
    }

    /// Sets the title.
    pub fn title(&mut self, title: &str) -> (r: &mut Self)
        ensures
            r.info().title@ == title@,
            r.info().version == old(self).info().version,
            r.registered() == old(self).registered(),
            r.wf() == old(self).wf(),
            *final(self) == *final(r),
    {
        self.info.title = String::from_str(title);
        self
    }

    /// Sets the version.
    pub fn version(&mut self, version: &str) -> (r: &mut Self)
        ensures
            r.info().version@ == version@,
            r.info().title == old(self).info().title,
            r.registered() == old(self).registered(),
            r.wf() == old(self).wf(),
            *final(self) == *final(r),
    {
        self.info.version = String::from_str(version);
        self
    }

    /// Sets the description.
    pub fn description(&mut self, description: &str) -> (r: &mut Self)
        ensures
            r.info().description is Some,
            r.info().description->0@ == description@,
            r.info().title == old(self).info().title,
            r.registered() == old(self).registered(),
            r.wf() == old(self).wf(),
            *final(self) == *final(r),
    {
        self.info.description = Some(String::from_str(description));
        self
    }

    /// Sets the terms of service.
    pub fn terms_of_service(&mut self, terms_of_service: &str) -> (r: &mut Self)
        ensures
            r.info().terms_of_service is Some,
            r.info().terms_of_service->0@ == terms_of_service@,
            r.info().title == old(self).info().title,
            r.registered() == old(self).registered(),
            r.wf() == old(self).wf(),
            *final(self) == *final(r),
    {
        self.info.terms_of_service = Some(String::from_str(terms_of_service));
        self
    }

    /// Sets the contact.
    pub fn contact(&mut self, contact: Contact) -> (r: &mut Self)
        ensures
            r.info().contact == Some(contact),
            r.info().title == old(self).info().title,
            r.registered() == old(self).registered(),
            r.wf() == old(self).wf(),
            *final(self) == *final(r),
    {
        self.info.contact = Some(contact);
        self
    }

    /// Sets the license.
    pub fn license(&mut self, license: License) -> (r: &mut Self)
        ensures
            r.info().license == Some(license),
            r.info().title == old(self).info().title,
            r.registered() == old(self).registered(),
            r.wf() == old(self).wf(),
            *final(self) == *final(r),
    {
        self.info.license = Some(license);
        self
    }

    /// The servers of the specification.
    pub closed spec fn servers(&self) -> Seq<Server> {
        self.servers@
    }

    /// The tags of the specification.
    pub closed spec fn tags(&self) -> Seq<Tag> {
        self.tags@
    }

    /// The external documentation of the specification.
    pub closed spec fn spec_external_docs(&self) -> Option<ExternalDocs> {
        self.external_docs
    }

    /// Adds a server.
    pub fn server(&mut self, server: Server) -> (r: &mut Self)
        ensures
            r.servers() == old(self).servers().push(server),
            r.registered() == old(self).registered(),
            r.wf() == old(self).wf(),
            *final(self) == *final(r),
    {
        self.servers.push(server);
        self
    }

    /// Adds a tag.
    pub fn tag(&mut self, tag: Tag) -> (r: &mut Self)
        ensures
            r.tags() == old(self).tags().push(tag),
            r.registered() == old(self).registered(),
            r.wf() == old(self).wf(),
            *final(self) == *final(r),
    {
        self.tags.push(tag);
        self
    }

    /// Sets the external documentation.
    pub fn external_docs(&mut self, docs: ExternalDocs) -> (r: &mut Self)
        ensures
            r.spec_external_docs() == Some(docs),
            r.registered() == old(self).registered(),
            r.wf() == old(self).wf(),
            *final(self) == *final(r),
    {
        self.external_docs = Some(docs);
        self
    }

    /// Requires the security scheme `name`, with `scopes`, for every operation.
    pub fn apply_global_security(&mut self, name: &str, scopes: Vec<String>) -> (r: &mut Self)
        ensures
            r.security().len() == old(self).security().len() + 1,
            r.security().last().0@ == name@,
            r.security().last().1 == scopes,
            forall|k: int| 0 <= k < old(self).security().len() ==> r.security()[k] == old(self).security()[k],
            r.registered() == old(self).registered(),
            r.wf() == old(self).wf(),
            *final(self) == *final(r),
    {
        self.security.push((String::from_str(name), scopes));
        self
    }

    /// Whether operation ids are inferred from handler names.
    pub fn set_infer_operation_id(&mut self, value: bool) -> (r: &mut Self)
        ensures
            r.options().infer_operation_id == value,
            r.registered() == old(self).registered(),
            r.wf() == old(self).wf(),
            *final(self) == *final(r),
    {
        self.builder_options.infer_operation_id = value;
        self
    }

    /// Replaces the schema registry; do this before anything is added to it.
    pub fn set_components(&mut self, components: SchemaRegistry) -> (r: &mut Self)
        ensures
            r.registry() == components,
            r.registered() == old(self).registered(),
            r.wf() == old(self).wf(),
            *final(self) == *final(r),
    {
        self.components = components;
        self
    }

    /// Registers a security scheme under `name` with the registry; another
    /// scheme under a taken name is refused.
    pub fn security_scheme(&mut self, name: &str, scheme: SecurityScheme) -> (r: Result<&mut Self, SpecError>)
        ensures
            match r {
                Ok(b) => b.registered() == old(self).registered() && b.wf() == old(self).wf()
                    && *final(self) == *final(b),
                Err(e) => e is ConflictingSecurityScheme && e->ConflictingSecurityScheme_name@ == name@
                    && final(self).registered() == old(self).registered() && final(self).wf() == old(self).wf(),
            },
    {
        match self.components.add_security_scheme(name, scheme) {
            Ok(()) => Ok(self),
            Err(e) => Err(e),
        }
    }

    /// Registers `generator` for `(path, method)`; fails, changing nothing,
    /// where `(path, method)` is registered already.
    pub fn add_operation(&mut self, path: &str, method: Method, generator: G) -> (r: Result<&mut Self, SpecError>)
        requires
            old(self).wf(),
        ensures
            match r {
                Ok(b) => !old(self).has_key(path@, method) && b.wf() && (forall|x: (Seq<char>, Method, G)|
                    #[trigger] b.registered().contains(x) <==> (x == (path@, method, generator)
                        || old(self).registered().contains(x))) && *final(self) == *final(b),
                Err(e) => old(self).has_key(path@, method) && e is DuplicateRoute
                    && *final(self) == *old(self),
            },
    {
        self.try_operation(path, method, generator)
    }

    /// Registers each `(path, method, generator)` in turn; a later one
    /// replaces an earlier one for the same `(path, method)`.
    pub fn operations(&mut self, operations: Vec<(String, Method, G)>) -> (r: &mut Self)
        requires
            old(self).wf(),
        ensures
            r.wf(),
            forall|k: int|
                0 <= k < operations@.len() ==> #[trigger] r.has_key(operations@[k].0@, operations@[k].1),
            forall|x: (Seq<char>, Method, G)| #[trigger]
                r.registered().contains(x) ==> old(self).registered().contains(x) || exists|k: int|
                    0 <= k < operations@.len() && x == (operations@[k].0@, operations@[k].1, operations@[k].2),
            forall|x: (Seq<char>, Method, G)| #[trigger]
                old(self).registered().contains(x) && (forall|k: int|
                    0 <= k < operations@.len() ==> key_of(x) != (operations@[k].0@, operations@[k].1))
                    ==> r.registered().contains(x),
            r.info() == old(self).info(),
            r.options() == old(self).options(),
            r.security() == old(self).security(),
            *final(self) == *final(r),
    {
        let mut j: usize = 0;
        while j < operations.len()
            invariant
                self.wf(),
                j <= operations@.len(),
                self.info() == old(self).info(),
                self.options() == old(self).options(),
                self.security() == old(self).security(),
                forall|k: int| 0 <= k < j ==> #[trigger] self.has_key(operations@[k].0@, operations@[k].1),
                forall|x: (Seq<char>, Method, G)| #[trigger]
                    old(self).registered().contains(x) && (forall|k: int|
                        0 <= k < j ==> key_of(x) != (operations@[k].0@, operations@[k].1))
                        ==> self.registered().contains(x),
                forall|x: (Seq<char>, Method, G)| #[trigger]
                    self.registered().contains(x) ==> old(self).registered().contains(x) || exists|k: int|
                        0 <= k < operations@.len() && x == (operations@[k].0@, operations@[k].1, operations@[k].2),
            decreases operations@.len() - j,
        {
            let ghost head = *self;
            self.register(operations[j].0.as_str(), operations[j].1, operations[j].2);
            proof {
                let cur = (operations@[j as int].0@, operations@[j as int].1, operations@[j as int].2);
                assert(self.registered().contains(cur));
                assert forall|k: int| 0 <= k < j + 1 implies #[trigger] self.has_key(operations@[k].0@, operations@[k].1) by {
                    if k < j {
                        assert(head.has_key(operations@[k].0@, operations@[k].1));
                        let g = choose|g: G| #[trigger] head.registered().contains((operations@[k].0@, operations@[k].1, g));
                        if key_of((operations@[k].0@, operations@[k].1, g)) != (operations@[j as int].0@, operations@[j as int].1) {
                            assert(self.registered().contains((operations@[k].0@, operations@[k].1, g)));
                        } else {
                            assert(self.registered().contains((operations@[k].0@, operations@[k].1, cur.2)));
                        }
                    } else {
                        assert(self.registered().contains((operations@[k].0@, operations@[k].1, cur.2)));
                    }
                }
                assert forall|x: (Seq<char>, Method, G)| #[trigger]
                    old(self).registered().contains(x) && (forall|k: int|
                        0 <= k < j + 1 ==> key_of(x) != (operations@[k].0@, operations@[k].1))
                        implies self.registered().contains(x) by {
                    assert(key_of(x) != (operations@[j as int].0@, operations@[j as int].1));
                    assert(head.registered().contains(x));
                }
                assert forall|x: (Seq<char>, Method, G)| #[trigger]
                    self.registered().contains(x) implies old(self).registered().contains(x) || exists|k: int|
                        0 <= k < operations@.len() && x == (operations@[k].0@, operations@[k].1, operations@[k].2) by {
                    if x == cur {
                        assert(0 <= j < operations@.len() && x == (operations@[j as int].0@, operations@[j as int].1, operations@[j as int].2));
                    } else {
                        assert(head.registered().contains(x));
                    }
                }
            }
            j = j + 1;
        }
        self
    }

    /// Registers each `(path, method, generator)` in turn; fails at the first
    /// whose `(path, method)` is registered already (before the call or
    /// earlier in the list), keeping those before it.
    pub fn try_operations(&mut self, operations: Vec<(String, Method, G)>) -> (r: Result<&mut Self, SpecError>)
        requires
            old(self).wf(),
        ensures
            r is Ok <==> fresh_keys(old(self).registered(), operations@),
            match r {
                Ok(b) => b.wf() && (forall|k: int|
                    0 <= k < operations@.len() ==> #[trigger] b.has_key(operations@[k].0@, operations@[k].1))
                    && (forall|x: (Seq<char>, Method, G)| #[trigger] b.registered().contains(x) <==> (
                    old(self).registered().contains(x) || exists|k: int|
                        0 <= k < operations@.len() && x == (operations@[k].0@, operations@[k].1, operations@[k].2)))
                    && *final(self) == *final(b),
                Err(e) => final(self).wf() && e is DuplicateRoute && exists|k: int|
                    0 <= k < operations@.len() && operations@[k].0@ == e->DuplicateRoute_path@
                        && operations@[k].1 == e->DuplicateRoute_method && (old(self).has_key(
                        operations@[k].0@,
                        operations@[k].1,
                    ) || exists|a: int|
                        0 <= a < k && operations@[a].0@ == operations@[k].0@ && operations@[a].1
                            == operations@[k].1),
            },
    {
        let mut j: usize = 0;
        while j < operations.len()
            invariant
                self.wf(),
                j <= operations@.len(),
                fresh_keys(old(self).registered(), operations@.subrange(0, j as int)),
                forall|x: (Seq<char>, Method, G)| #[trigger] self.registered().contains(x) <==> (
                    old(self).registered().contains(x) || exists|k: int|
                        0 <= k < j && x == (operations@[k].0@, operations@[k].1, operations@[k].2)),
            decreases operations@.len() - j,
        {
            let ghost head = *self;
            let ghost key = (operations@[j as int].0@, operations@[j as int].1);
            let (_, found) = self.locate(operations[j].0.as_str(), operations[j].1);
            if found {
                proof {
                    let i = choose|i: int| 0 <= i < head.registered().len() && key_of(head.registered()[i]) == key;
                    let x = head.registered()[i];
                    assert(head.registered().contains(x));
                    if !old(self).registered().contains(x) {
                        let k = choose|k: int| 0 <= k < j && x == (operations@[k].0@, operations@[k].1, operations@[k].2);
                        assert(0 <= k < j && operations@[k].0@ == key.0 && operations@[k].1 == key.1);
                    } else {
                        assert(old(self).has_key(key.0, key.1));
                    }
                    assert(!fresh_keys(old(self).registered(), operations@)) by {
                        if !old(self).registered().contains(x) {
                            let k = choose|k: int| 0 <= k < j && x == (operations@[k].0@, operations@[k].1, operations@[k].2);
                            assert(!(operations@[k].0@ == operations@[j as int].0@ && operations@[k].1 == operations@[j as int].1)
                                ==> false);
                        } else {
                            assert(old(self).registered().contains((key.0, key.1, x.2)));
                        }
                    }
                }
                return Err(SpecError::DuplicateRoute { path: operations[j].0.clone(), method: operations[j].1 });
            }
            proof {
                assert forall|g: G| !old(self).registered().contains((key.0, key.1, g)) by {
                    if old(self).registered().contains((key.0, key.1, g)) {
                        assert(head.registered().contains((key.0, key.1, g)));
                        let i = choose|i: int| 0 <= i < head.registered().len() && head.registered()[i] == (key.0, key.1, g);
                        assert(key_of(head.registered()[i]) == key);
                    }
                }
                assert forall|a: int| 0 <= a < j implies !(operations@[a].0@ == key.0 && operations@[a].1 == key.1) by {
                    let x = (operations@[a].0@, operations@[a].1, operations@[a].2);
                    assert(head.registered().contains(x));
                    let i = choose|i: int| 0 <= i < head.registered().len() && head.registered()[i] == x;
                    assert(key_of(head.registered()[i]) == key_of(x));
                }
                let sub = operations@.subrange(0, j + 1);
                assert(sub =~= operations@.subrange(0, j as int).push(operations@[j as int]));
                assert forall|k: int, g: G| 0 <= k < sub.len() implies !#[trigger] old(self).registered().contains(
                    (sub[k].0@, sub[k].1, g),
                ) by {
                    if k < j {
                        assert(operations@.subrange(0, j as int)[k] == sub[k]);
                    }
                }
                assert forall|a: int, b: int| 0 <= a < b < sub.len() implies !(#[trigger] sub[a].0@
                    == #[trigger] sub[b].0@ && sub[a].1 == sub[b].1) by {
                    if b < j {
                        assert(operations@.subrange(0, j as int)[a] == sub[a]);
                        assert(operations@.subrange(0, j as int)[b] == sub[b]);
                    }
                }
                assert(fresh_keys(old(self).registered(), sub));
            }
            self.register(operations[j].0.as_str(), operations[j].1, operations[j].2);
            proof {
                assert forall|x: (Seq<char>, Method, G)| #[trigger] self.registered().contains(x) <==> (
                    old(self).registered().contains(x) || exists|k: int|
                        0 <= k < j + 1 && x == (operations@[k].0@, operations@[k].1, operations@[k].2)) by {
                    if head.registered().contains(x) && key_of(x) == key {
                        let i = choose|i: int| 0 <= i < head.registered().len() && head.registered()[i] == x;
                        assert(key_of(head.registered()[i]) == key);
                    }
                    if exists|k: int| 0 <= k < j + 1 && x == (operations@[k].0@, operations@[k].1, operations@[k].2) {
                        let k = choose|k: int| 0 <= k < j + 1 && x == (operations@[k].0@, operations@[k].1, operations@[k].2);
                        if k < j {
                            assert(head.registered().contains(x));
                        }
                    }
                    if old(self).registered().contains(x) {
                        assert(head.registered().contains(x));
                        if key_of(x) == key {
                            assert(old(self).registered().contains((key.0, key.1, x.2)));
                        }
                    }
                }
            }
            j = j + 1;
        }
        proof {
            assert(operations@.subrange(0, operations@.len() as int) =~= operations@);
            assert forall|k: int| 0 <= k < operations@.len() implies #[trigger] self.has_key(operations@[k].0@, operations@[k].1) by {
                assert(self.registered().contains((operations@[k].0@, operations@[k].1, operations@[k].2)));
            }
        }
        Ok(self)
    }

    /// Registers each `(path, method, generator)` in turn; fails at the first
    /// whose `(path, method)` is registered already (before the call or
    /// earlier in the list), keeping those before it.
    pub fn add_operations(&mut self, operations: Vec<(String, Method, G)>) -> (r: Result<&mut Self, SpecError>)
        requires
            old(self).wf(),
        ensures
            r is Ok <==> fresh_keys(old(self).registered(), operations@),
            match r {
                Ok(b) => b.wf() && (forall|k: int|
                    0 <= k < operations@.len() ==> #[trigger] b.has_key(operations@[k].0@, operations@[k].1))
                    && (forall|x: (Seq<char>, Method, G)| #[trigger] b.registered().contains(x) <==> (
                    old(self).registered().contains(x) || exists|k: int|
                        0 <= k < operations@.len() && x == (operations@[k].0@, operations@[k].1, operations@[k].2)))
                    && *final(self) == *final(b),
                Err(e) => final(self).wf() && e is DuplicateRoute && exists|k: int|
                    0 <= k < operations@.len() && operations@[k].0@ == e->DuplicateRoute_path@
                        && operations@[k].1 == e->DuplicateRoute_method && (old(self).has_key(
                        operations@[k].0@,
                        operations@[k].1,
                    ) || exists|a: int|
                        0 <= a < k && operations@[a].0@ == operations@[k].0@ && operations@[a].1
                            == operations@[k].1),
            },
    {
        self.try_operations(operations)
    }

    /// Registers every documented operation of a router at the OpenAPI form
    /// of its path, replacing what was registered for that path and method.
    pub fn add_routes(&mut self, routes: &RoutesOperations<G>) -> (r: &mut Self)
        requires
            old(self).wf(),
            routes.wf(),
        ensures
            r.wf(),
            forall|p: Seq<char>, m: Method|
                routes@.contains_key(p) && #[trigger] routes@[p].slot(m) is Some ==> r.has_key(openapi_path(p), m),
            forall|x: (Seq<char>, Method, G)| #[trigger]
                r.registered().contains(x) ==> old(self).registered().contains(x) || exists|p: Seq<char>|
                    routes@.contains_key(p) && x.0 == openapi_path(p) && routes@[p].slot(x.1) == Some(x.2),
            forall|x: (Seq<char>, Method, G)| #[trigger]
                old(self).registered().contains(x) && !route_key(routes@, x.0, x.1) ==> r.registered().contains(x),
            forall|x: (Seq<char>, Method, G)| #[trigger]
                r.registered().contains(x) && route_key(routes@, x.0, x.1) ==> exists|p: Seq<char>|
                    routes@.contains_key(p) && x.0 == openapi_path(p) && routes@[p].slot(x.1) == Some(x.2),
            r.info() == old(self).info(),
            r.options() == old(self).options(),
            r.security() == old(self).security(),
            *final(self) == *final(r),
    {
        let list = routes.openapi_operation_generators();
        assert forall|i: int|
            0 <= i < list@.len() implies #[trigger] routes@.contains_key(list@[i].0@) && routes@[list@[i].0@].slot(
                list@[i].1,
            ) == Some(list@[i].2) by {
            assert(routes@.contains_key(list@[i].0@));
        }
        let mut j: usize = 0;
        while j < list.len()
            invariant
                self.wf(),
                routes.wf(),
                j <= list@.len(),
                self.info() == old(self).info(),
                self.options() == old(self).options(),
                self.security() == old(self).security(),
                forall|i: int|
                    0 <= i < list@.len() ==> #[trigger] routes@.contains_key(list@[i].0@) && routes@[list@[i].0@].slot(
                        list@[i].1,
                    ) == Some(list@[i].2),
                forall|i: int| 0 <= i < j ==> #[trigger] self.has_key(openapi_path(list@[i].0@), list@[i].1),
                forall|x: (Seq<char>, Method, G)| #[trigger]
                    old(self).registered().contains(x) && (forall|i: int|
                        0 <= i < j ==> (openapi_path(list@[i].0@), list@[i].1) != key_of(x))
                        ==> self.registered().contains(x),
                forall|x: (Seq<char>, Method, G)| #[trigger]
                    self.registered().contains(x) && (exists|i: int|
                        0 <= i < j && (openapi_path(list@[i].0@), list@[i].1) == key_of(x)) ==> exists|p: Seq<char>|
                        routes@.contains_key(p) && x.0 == openapi_path(p) && routes@[p].slot(x.1) == Some(x.2),
                forall|x: (Seq<char>, Method, G)| #[trigger]
                    self.registered().contains(x) ==> old(self).registered().contains(x) || exists|p: Seq<char>|
                        routes@.contains_key(p) && x.0 == openapi_path(p) && routes@[p].slot(x.1) == Some(x.2),
            decreases list@.len() - j,
        {
            let path = convert_axum_path_to_openapi(list[j].0.as_str());
            let ghost head = *self;
            self.register(path.as_str(), list[j].1, list[j].2);
            proof {
                let cur = (path@, list@[j as int].1, list@[j as int].2);
                assert(self.registered().contains(cur));
                assert forall|i: int| 0 <= i < j + 1 implies #[trigger] self.has_key(openapi_path(list@[i].0@), list@[i].1) by {
                    if i < j {
                        assert(head.has_key(openapi_path(list@[i].0@), list@[i].1));
                        let g = choose|g: G| #[trigger] head.registered().contains((openapi_path(list@[i].0@), list@[i].1, g));
                        if key_of((openapi_path(list@[i].0@), list@[i].1, g)) != (path@, list@[j as int].1) {
                            assert(self.registered().contains((openapi_path(list@[i].0@), list@[i].1, g)));
                        } else {
                            assert(self.registered().contains((openapi_path(list@[i].0@), list@[i].1, cur.2)));
                        }
                    } else {
                        assert(self.registered().contains((openapi_path(list@[i].0@), list@[i].1, cur.2)));
                    }
                }
                assert forall|x: (Seq<char>, Method, G)| #[trigger]
                    old(self).registered().contains(x) && (forall|i: int|
                        0 <= i < j + 1 ==> (openapi_path(list@[i].0@), list@[i].1) != key_of(x))
                        implies self.registered().contains(x) by {
                    assert((openapi_path(list@[j as int].0@), list@[j as int].1) != key_of(x));
                    assert(head.registered().contains(x));
                }
                assert forall|x: (Seq<char>, Method, G)| #[trigger]
                    self.registered().contains(x) && (exists|i: int|
                        0 <= i < j + 1 && (openapi_path(list@[i].0@), list@[i].1) == key_of(x)) implies exists|p: Seq<char>|
                        routes@.contains_key(p) && x.0 == openapi_path(p) && routes@[p].slot(x.1) == Some(x.2) by {
                    if x == cur {
                        assert(routes@.contains_key(list@[j as int].0@));
                    } else {
                        assert(head.registered().contains(x));
                        assert(key_of(x) != (path@, list@[j as int].1));
                        let i = choose|i: int| 0 <= i < j + 1 && (openapi_path(list@[i].0@), list@[i].1) == key_of(x);
                        assert(i < j);
                    }
                }
                assert forall|x: (Seq<char>, Method, G)| #[trigger]
                    self.registered().contains(x) implies old(self).registered().contains(x) || exists|p: Seq<char>|
                        routes@.contains_key(p) && x.0 == openapi_path(p) && routes@[p].slot(x.1) == Some(x.2) by {
                    if x == cur {
                        assert(routes@.contains_key(list@[j as int].0@));
                    } else {
                        assert(head.registered().contains(x));
                    }
                }
            }
            j = j + 1;
        }
        proof {
            assert forall|x: (Seq<char>, Method, G)| #[trigger]
                old(self).registered().contains(x) && !route_key(routes@, x.0, x.1) implies self.registered().contains(x) by {
                assert forall|i: int| 0 <= i < list@.len() implies (openapi_path(list@[i].0@), list@[i].1) != key_of(x) by {
                    assert(routes@.contains_key(list@[i].0@) && routes@[list@[i].0@].slot(list@[i].1) == Some(list@[i].2));
                }
            }
            assert forall|x: (Seq<char>, Method, G)| #[trigger]
                self.registered().contains(x) && route_key(routes@, x.0, x.1) implies exists|p: Seq<char>|
                    routes@.contains_key(p) && x.0 == openapi_path(p) && routes@[p].slot(x.1) == Some(x.2) by {
                let p = choose|p: Seq<char>| routes@.contains_key(p) && openapi_path(p) == x.0 && #[trigger] routes@[p].slot(x.1) is Some;
                assert(routes@[p].slot(x.1) is Some);
                let i = choose|i: int| 0 <= i < list@.len() && list@[i].0@ == p && list@[i].1 == x.1;
                assert((openapi_path(list@[i].0@), list@[i].1) == key_of(x));
            }
            assert forall|p: Seq<char>, m: Method|
                routes@.contains_key(p) && #[trigger] routes@[p].slot(m) is Some implies self.has_key(openapi_path(p), m) by {
                assert(routes@[p].slot(m) is Some);
                let i = choose|i: int| 0 <= i < list@.len() && list@[i].0@ == p && list@[i].1 == m;
                assert(self.has_key(openapi_path(list@[i].0@), list@[i].1));
            }
        }
        self
    }

    /// Whether a generator is registered for `(path, method)`.
    pub open spec fn has_key(&self, path: Seq<char>, method: Method) -> bool {
        exists|g: G| #[trigger] self.registered().contains((path, method, g))
    }

    /// Registers `generator` for `(path, method)`, replacing one registered before.
    pub fn operation(&mut self, path: &str, method: Method, generator: G) -> (r: &mut Self)
        requires
            old(self).wf(),
        ensures
            r.wf(),
            forall|x: (Seq<char>, Method, G)| #[trigger] r.registered().contains(x) <==> (x == (
                path@,
                method,
                generator,
            ) || (old(self).registered().contains(x) && key_of(x) != (path@, method))),
            r.info() == old(self).info(),
            r.options() == old(self).options(),
            r.security() == old(self).security(),
            *final(self) == *final(r),
    {
        self.register(path, method, generator);
        self
    }

    /// Registers `generator` for `(path, method)`; fails, changing nothing,
    /// where `(path, method)` is registered already.
    pub fn try_operation(&mut self, path: &str, method: Method, generator: G) -> (r: Result<&mut Self, SpecError>)
        requires
            old(self).wf(),
        ensures
            match r {
                Ok(b) => !old(self).has_key(path@, method) && b.wf() && (forall|x: (Seq<char>, Method, G)|
                    #[trigger] b.registered().contains(x) <==> (x == (path@, method, generator)
                        || old(self).registered().contains(x))) && b.info() == old(self).info()
                    && b.options() == old(self).options() && b.security() == old(self).security()
                    && *final(self) == *final(b),
                Err(e) => old(self).has_key(path@, method) && e is DuplicateRoute
                    && e->DuplicateRoute_path@ == path@ && e->DuplicateRoute_method == method
                    && *final(self) == *old(self),
            },
    {
        let (i, found) = self.locate(path, method);
        if found {
            proof {
                let e = self.registered()[i as int];
                assert(self.registered().contains((path@, method, e.2)));
            }
            Err(SpecError::DuplicateRoute { path: String::from_str(path), method })
        } else {
            proof {
                assert forall|g: G| !self.registered().contains((path@, method, g)) by {
                    if self.registered().contains((path@, method, g)) {
                        let k = choose|k: int| 0 <= k < self.registered().len() && self.registered()[k] == (path@, method, g);
                        assert(key_of(self.registered()[k]) == (path@, method));
                    }
                }
            }
            self.register(path, method, generator);
            Ok(self)
        }
    }
}

impl<G: Copy> Default for OpenApiBuilder<G> {
    /// A builder with empty title and version and nothing else.
    fn default() -> (r: Self)
        ensures
            r.wf(),
            r.registered() == Seq::<(Seq<char>, Method, G)>::empty(),
            r.info().title@ == Seq::<char>::empty(),
            r.info().version@ == Seq::<char>::empty(),
    {
        proof {
            reveal_strlit("");
        }
        OpenApiBuilder::new("", "")
    }
}

/// What running one registered generator gave.
#[derive(Debug)]
pub enum GeneratorOutcome {
    /// The generator returned an operation.
    Built(BuiltOperation),
    /// The generator of `method path` failed.
    Failed { path: String, method: Method, source: anyhow::Error },
}

/// Whether the outcome at `k` carries an operation id that an earlier
/// outcome carries too.
pub open spec fn repeats_id(s: Seq<GeneratorOutcome>, k: int) -> bool {
    &&& s[k] is Built
    &&& s[k]->Built_0.operation_id is Some
    &&& exists|j: int|
        0 <= j < k && (#[trigger] s[j]) is Built && s[j]->Built_0.operation_id is Some
            && s[j]->Built_0.operation_id->0@ == s[k]->Built_0.operation_id->0@
}

/// Whether the outcome at `k` stops the build: its generator failed, or its
/// operation id was met before.
pub open spec fn stops_at(s: Seq<GeneratorOutcome>, k: int) -> bool {
    s[k] is Failed || repeats_id(s, k)
}

/// The error of an outcome that stops the build.
fn stop_error(stop: GeneratorOutcome) -> (e: SpecError)
    ensures
        stop is Failed ==> e is Generator && e->Generator_path@ == stop->Failed_path@
            && e->Generator_method == stop->Failed_method && e->Generator_source == stop->Failed_source,
        stop is Built ==> e is DuplicateOperationId,
{
    match stop {
        GeneratorOutcome::Failed { path, method, source } => SpecError::Generator { method, path, source },
        GeneratorOutcome::Built(op) => SpecError::DuplicateOperationId {
            operation_id: match op.operation_id {
                Some(id) => id,
                None => String::new(),
            },
        },
    }
}

/// The first outcome that stops the build, if any: a failed generator, or
/// an operation id met a second time.
pub fn first_stop(outcomes: &Vec<GeneratorOutcome>) -> (r: Option<usize>)
    ensures
        match r {
            Some(k) => k < outcomes@.len() && stops_at(outcomes@, k as int) && forall|j: int|
                0 <= j < k ==> !#[trigger] stops_at(outcomes@, j),
            None => forall|k: int| 0 <= k < outcomes@.len() ==> !#[trigger] stops_at(outcomes@, k),
        },
{
    let ghost all = outcomes@;
    let mut seen: Vec<String> = Vec::new();
    let ghost mut src: Seq<int> = Seq::empty();
    let mut i: usize = 0;
    while i < outcomes.len()
        invariant
            all == outcomes@,
            i <= all.len(),
            forall|k: int| 0 <= k < i ==> !#[trigger] stops_at(all, k),
            src.len() == seen@.len(),
            forall|j: int|
                0 <= j < seen@.len() ==> 0 <= #[trigger] src[j] < i && all[src[j]] is Built
                    && all[src[j]]->Built_0.operation_id is Some && all[src[j]]->Built_0.operation_id->0@
                    == seen@[j]@,
            forall|k: int|
                0 <= k < i && (#[trigger] all[k]) is Built && all[k]->Built_0.operation_id is Some
                    ==> exists|j: int| 0 <= j < seen@.len() && seen@[j]@ == all[k]->Built_0.operation_id->0@,
        decreases all.len() - i,
    {
        match &outcomes[i] {
            GeneratorOutcome::Failed { .. } => {
                return Some(i);
            },
            GeneratorOutcome::Built(op) => {
                let ghost before_seen = seen@;
                match &op.operation_id {
                    Some(id) => {
                        if let Some(j) = position_of(&seen, id.as_str()) {
                            proof {
                                let k = src[j as int];
                                assert(all[k] is Built);
                                assert(repeats_id(all, i as int));
                            }
                            return Some(i);
                        }
                        proof {
                            assert forall|j: int| 0 <= j < i && (#[trigger] all[j]) is Built
                                && all[j]->Built_0.operation_id is Some implies all[j]->Built_0.operation_id->0@
                                != id@ by {
                                let t = choose|t: int| 0 <= t < seen@.len() && seen@[t]@ == all[j]->Built_0.operation_id->0@;
                            }
                        }
                        seen.push(id.clone());
                        proof {
                            let old_src = src;
                            src = src.push(i as int);
                            assert forall|j: int| 0 <= j < seen@.len() implies 0 <= #[trigger] src[j] < i + 1
                                && all[src[j]] is Built && all[src[j]]->Built_0.operation_id is Some
                                && all[src[j]]->Built_0.operation_id->0@ == seen@[j]@ by {
                                if j < old_src.len() {
                                    assert(src[j] == old_src[j]);
                                    assert(seen@[j] == before_seen[j]);
                                }
                            }
                        }
                    },
                    None => {},
                }
                proof {
                    assert(!stops_at(all, i as int));
                    assert forall|j: int| 0 <= j < seen@.len() implies 0 <= #[trigger] src[j] < i + 1 by {}
                    assert forall|k: int| 0 <= k < i + 1 && (#[trigger] all[k]) is Built
                        && all[k]->Built_0.operation_id is Some implies exists|j: int|
                        0 <= j < seen@.len() && seen@[j]@ == all[k]->Built_0.operation_id->0@ by {
                        if k < i {
                            let t = choose|t: int| 0 <= t < before_seen.len() && before_seen[t]@ == all[k]->Built_0.operation_id->0@;
                            assert(seen@[t] == before_seen[t]);
                        } else {
                            assert(seen@[seen@.len() - 1]@ == all[k]->Built_0.operation_id->0@);
                        }
                    }
                }
            },
        }
        i = i + 1;
    }
    None
}

impl<G> OpenApiBuilder<G> where
    G: Copy + Fn(&mut SchemaRegistry, &BuilderOptions) -> Result<Operation, anyhow::Error>,
 {
    /// Builds the specification: runs the registered generators one after the
    /// other in key order, each with the shared registry and the options,
    /// until one fails; each built operation is what its generator returned,
    /// and a generator error is returned as it came, with its method and path. The first outcome that stops the build (as
    /// [`first_stop`] finds it: a failed generator, named by its method and
    /// path, or an operation id met a second time) is the error; otherwise
    /// the components are finalized, and fail on a schema name taken twice.
    /// Can be called again; registrations and metadata are kept.
    pub fn build(&mut self) -> (r: Result<Specification, SpecError>)
        requires
            old(self).wf(),
            forall|i: int, c: &mut SchemaRegistry, o: &BuilderOptions|
                0 <= i < old(self).registered().len() ==> #[trigger] old(self).registered()[i].2.requires((c, o)),
        ensures
            final(self).wf(),
            final(self).registered() == old(self).registered(),
            final(self).info() == old(self).info(),
            final(self).options() == old(self).options(),
            final(self).security() == old(self).security(),
            final(self).servers() == old(self).servers(),
            final(self).tags() == old(self).tags(),
            final(self).spec_external_docs() == old(self).spec_external_docs(),
            old(self).registered().len() == 0 && old(self).registry().schema_names().len() == 0 ==> r is Ok,
            match r {
                Ok(spec) => spec.operations@.len() == old(self).registered().len() && (forall|i: int|
                    0 <= i < spec.operations@.len() ==> (#[trigger] spec.operations@[i]).path@
                        == old(self).registered()[i].0 && spec.operations@[i].method == old(self).registered()[i].1)
                    && (forall|i: int, j: int|
                        0 <= i < j < spec.operations@.len() ==> key_lt(
                            ((#[trigger] spec.operations@[i]).path@, spec.operations@[i].method),
                            ((#[trigger] spec.operations@[j]).path@, spec.operations@[j].method),
                        ))
                    && operation_ids_distinct(spec.operations@)
                    && spec.info.title@ == old(self).info().title@
                    && spec.info.version@ == old(self).info().version@
                    && (spec.info.description is Some <==> old(self).info().description is Some)
                    && (spec.info.description is Some ==> spec.info.description->0@ == old(self).info().description->0@)
                    && (spec.info.terms_of_service is Some <==> old(self).info().terms_of_service is Some)
                    && (spec.info.terms_of_service is Some ==> spec.info.terms_of_service->0@
                        == old(self).info().terms_of_service->0@)
                    && spec.info.contact == old(self).info().contact
                    && spec.info.license == old(self).info().license
                    && spec.servers@ == old(self).servers()
                    && spec.tags@ == old(self).tags()
                    && spec.external_docs == old(self).spec_external_docs()
                    && spec.security@.len() == old(self).security().len()
                    && (forall|k: int| 0 <= k < spec.security@.len() ==> (#[trigger] spec.security@[k]).0@
                        == old(self).security()[k].0@),
                Err(e) => (e is Generator && exists|i: int|
                    0 <= i < old(self).registered().len() && old(self).registered()[i].0 == e->Generator_path@
                        && old(self).registered()[i].1 == e->Generator_method && exists|c: &mut SchemaRegistry, o: &BuilderOptions|
                        *o == old(self).options() && #[trigger] old(self).registered()[i].2.ensures(
                            (c, o),
                            Err::<Operation, anyhow::Error>(e->Generator_source),
                        )) || e is DuplicateOperationId || (
                e is SchemaCollision && final(self).registry().schema_names().contains(e->SchemaCollision_name@)),
            },
            r matches Ok(spec) ==> forall|i: int|
                #![trigger spec.operations@[i]]
                0 <= i < spec.operations@.len() ==> exists|c: &mut SchemaRegistry, o: &BuilderOptions|
                    *o == old(self).options() && #[trigger] old(self).registered()[i].2.ensures(
                        (c, o),
                        Ok::<Operation, anyhow::Error>(spec.operations@[i].operation),
                    ),
    {
        let mut outcomes: Vec<GeneratorOutcome> = Vec::new();
        let mut i: usize = 0;
        while i < self.operations.len()
            invariant
                self.wf(),
                self.registered() == old(self).registered(),
                self.info == old(self).info,
                self.builder_options == old(self).builder_options,
                self.security == old(self).security,
                self.servers == old(self).servers,
                self.tags == old(self).tags,
                self.external_docs == old(self).external_docs,
                i == 0 ==> self.components == old(self).components,
                forall|k: int, c: &mut SchemaRegistry, o: &BuilderOptions|
                    0 <= k < self.registered().len() ==> #[trigger] self.registered()[k].2.requires((c, o)),
                i <= self.operations@.len(),
                outcomes@.len() == i,
                forall|k: int|
                    0 <= k < i ==> (#[trigger] outcomes@[k]) is Built && outcomes@[k]->Built_0.path@
                        == self.registered()[k].0 && outcomes@[k]->Built_0.method == self.registered()[k].1,
                forall|k: int|
                    #![trigger outcomes@[k]]
                    0 <= k < i ==> exists|c: &mut SchemaRegistry, o: &BuilderOptions|
                        *o == old(self).builder_options && #[trigger] self.registered()[k].2.ensures(
                            (c, o),
                            Ok::<Operation, anyhow::Error>(outcomes@[k]->Built_0.operation),
                        ),
            decreases self.operations@.len() - i,
        {
            let g = self.operations[i].2;
            proof {
                assert(self.registered()[i as int].2 == g);
            }
            let result = g(&mut self.components, &self.builder_options);
            proof {
                assert(exists|c: &mut SchemaRegistry, o: &BuilderOptions|
                    *o == old(self).builder_options && #[trigger] g.ensures((c, o), result));
            }
            let path = self.operations[i].0.clone();
            let method = self.operations[i].1;
            proof {
                assert(self.registered()[i as int].0 == self.operations@[i as int].0@);
            }
            match result {
                Err(source) => {
                    let ghost failure = source;
                    proof {
                        assert(exists|c: &mut SchemaRegistry, o: &BuilderOptions|
                            *o == old(self).builder_options && #[trigger] g.ensures(
                                (c, o),
                                Err::<Operation, anyhow::Error>(failure),
                            ));
                    }
                    let ghost before = outcomes@;
                    outcomes.push(GeneratorOutcome::Failed { path, method, source });
                    let ghost all = outcomes@;
                    proof {
                        assert(stops_at(all, i as int));
                        assert(forall|k: int| 0 <= k < i ==> all[k] == before[k]);
                    }
                    match first_stop(&outcomes) {
                        Some(k) => {
                            let stop = outcomes.swap_remove(k);
                            proof {
                                assert(stop == all[k as int]);
                                if k < i {
                                    assert(all[k as int] is Built);
                                } else {
                                    assert(stop->Failed_source == failure);
                                }
                            }
                            return Err(stop_error(stop));
                        },
                        None => {
                            proof {
                                assert(!stops_at(all, i as int));
                            }
                            return unreached();
                        },
                    }
                },
                Ok(operation) => {
                    let ghost built = operation;
                    let ghost before = outcomes@;
                    proof {
                        assert(exists|c: &mut SchemaRegistry, o: &BuilderOptions|
                            *o == old(self).builder_options && #[trigger] g.ensures(
                                (c, o),
                                Ok::<Operation, anyhow::Error>(built),
                            ));
                    }
                    let operation_id = operation_id_of(&operation);
                    outcomes.push(
                        GeneratorOutcome::Built(BuiltOperation { path, method, operation_id, operation }),
                    );
                    proof {
                        assert forall|k: int|
                            #![trigger outcomes@[k]]
                            0 <= k < i + 1 implies exists|c: &mut SchemaRegistry, o: &BuilderOptions|
                                *o == old(self).builder_options && #[trigger] self.registered()[k].2.ensures(
                                    (c, o),
                                    Ok::<Operation, anyhow::Error>(outcomes@[k]->Built_0.operation),
                                ) by {
                            if k < i {
                                assert(outcomes@[k] == before[k]);
                            } else {
                                assert(outcomes@[k]->Built_0.operation == built);
                            }
                        }
                    }
                },
            }
            i = i + 1;
        }
        let ghost all = outcomes@;
        if let Some(k) = first_stop(&outcomes) {
            let stop = outcomes.swap_remove(k);
            proof {
                assert(stop == all[k as int]);
                assert(all[k as int] is Built);
            }
            return Err(stop_error(stop));
        }
        let mut out: Vec<BuiltOperation> = Vec::new();
        let n = outcomes.len();
        let mut j: usize = 0;
        while j < n
            invariant
                n == all.len(),
                j <= n,
                outcomes@ == all.subrange(j as int, n as int),
                out@.len() == j,
                forall|k: int| 0 <= k < n ==> !#[trigger] stops_at(all, k),
                forall|k: int| 0 <= k < j ==> all[k] == GeneratorOutcome::Built(#[trigger] out@[k]),
            decreases n - j,
        {
            assert(outcomes@[0] == all[j as int]);
            let next = outcomes.remove(0);
            assert(outcomes@ =~= all.subrange(j + 1, n as int));
            proof {
                assert(!stops_at(all, j as int));
            }
            if let GeneratorOutcome::Built(op) = next {
                out.push(op);
            }
            j = j + 1;
        }
        proof {
            assert forall|a: int, b: int|
                0 <= a < b < out@.len() && (#[trigger] out@[a]).operation_id is Some
                    && (#[trigger] out@[b]).operation_id is Some implies out@[a].operation_id->0@
                    != out@[b].operation_id->0@ by {
                assert(all[a] == GeneratorOutcome::Built(out@[a]));
                assert(all[b] == GeneratorOutcome::Built(out@[b]));
                assert(!stops_at(all, b));
            }
            assert forall|k: int|
                #![trigger out@[k]]
                0 <= k < out@.len() implies exists|c: &mut SchemaRegistry, o: &BuilderOptions|
                    *o == old(self).builder_options && #[trigger] self.registered()[k].2.ensures(
                        (c, o),
                        Ok::<Operation, anyhow::Error>(out@[k].operation),
                    ) by {
                assert(all[k] == GeneratorOutcome::Built(out@[k]));
                assert(all[k]->Built_0.operation == out@[k].operation);
            }
            assert forall|a: int, b: int|
                0 <= a < b < out@.len() implies key_lt(
                    ((#[trigger] out@[a]).path@, out@[a].method),
                    ((#[trigger] out@[b]).path@, out@[b].method),
                ) by {
                assert(all[a] == GeneratorOutcome::Built(out@[a]));
                assert(all[b] == GeneratorOutcome::Built(out@[b]));
                assert(key_lt(key_of(self.registered()[a]), key_of(self.registered()[b])));
            }
        }
        let components = match self.components.okapi_components() {
            Ok(c) => c,
            Err(e) => {
                return Err(e);
            },
        };
        let mut security: Vec<(String, Vec<String>)> = Vec::new();
        let mut k: usize = 0;
        while k < self.security.len()
            invariant
                k <= self.security@.len(),
                security@.len() == k,
                forall|t: int| 0 <= t < k ==> (#[trigger] security@[t]).0@ == self.security@[t].0@,
            decreases self.security@.len() - k,
        {
            security.push((self.security[k].0.clone(), self.security[k].1.clone()));
            k = k + 1;
        }
        let mut servers: Vec<Server> = Vec::new();
        let mut k: usize = 0;
        while k < self.servers.len()
            invariant
                k <= self.servers@.len(),
                servers@ == self.servers@.subrange(0, k as int),
            decreases self.servers@.len() - k,
        {
            servers.push(self.servers[k].clone());
            assert(servers@ =~= self.servers@.subrange(0, k + 1));
            k = k + 1;
        }
        assert(servers@ =~= self.servers@);
        let mut tags: Vec<Tag> = Vec::new();
        let mut k: usize = 0;
        while k < self.tags.len()
            invariant
                k <= self.tags@.len(),
                tags@ == self.tags@.subrange(0, k as int),
            decreases self.tags@.len() - k,
        {
            tags.push(self.tags[k].clone());
            assert(tags@ =~= self.tags@.subrange(0, k + 1));
            k = k + 1;
        }
        assert(tags@ =~= self.tags@);
        Ok(
            Specification {
                info: self.info.duplicate(),
                servers,
                tags,
                external_docs: match &self.external_docs {
                    Some(d) => Some(d.clone()),
                    None => None,
                },
                security,
                operations: out,
                components,
            },
        )
    }
}

} // verus!
