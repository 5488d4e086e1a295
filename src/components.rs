//! The schema registry: named, reusable schemas and security schemes that
//! operations refer to.
use vstd::prelude::*;

use okapi::openapi3::{RefOr, SecurityScheme};
use okapi::schemars::gen::SchemaGenerator;
use okapi::schemars::schema::SchemaObject;
use okapi::schemars::JsonSchema;

use crate::error::SpecError;
use crate::method::str_equal;

verus! {

/// The names of a list of named entries, in order.
pub open spec fn entry_names<V>(entries: Seq<(String, V)>) -> Seq<Seq<char>> {
    entries.map_values(|e: (String, V)| e.0@)
}

/// Relies on `SchemaSettings::openapi3` and `SchemaSettings::into_generator`
/// of schemars: a generator for OpenAPI 3 schemas, with subschemas inlined or
/// kept as named definitions.
#[verifier::external_body]
fn openapi3_generator(inline_subschemas: bool) -> SchemaGenerator {
    let mut settings = okapi::schemars::gen::SchemaSettings::openapi3();
    settings.inline_subschemas = inline_subschemas;
    settings.into_generator()
}

/// Relies on `SchemaGenerator::definitions` of schemars: every named
/// definition made so far.
#[verifier::external_body]
fn definitions_of(generator: &SchemaGenerator) -> Vec<(String, SchemaObject)> {
    generator.definitions().iter().map(|(n, s)| (n.clone(), s.clone().into_object())).collect()
}

/// Relies on `SchemaGenerator::visitors_mut` of schemars: applies the
/// generator's visitors to `schema`.
#[verifier::external_body]
fn apply_visitors(generator: &mut SchemaGenerator, schema: &mut SchemaObject) {
    for visitor in generator.visitors_mut() {
        visitor.visit_schema_object(schema);
    }
}

/// Relies on the `schemas` map of okapi's `Components`: takes its entries out.
#[verifier::external_body]
fn take_schemas(components: &mut okapi::openapi3::Components) -> Vec<(String, SchemaObject)>
{
    std::mem::take(&mut components.schemas).into_iter().collect()
}

/// Relies on the `security_schemes` map of okapi's `Components`: takes its
/// entries out.
#[verifier::external_body]
fn take_security_schemes(components: &mut okapi::openapi3::Components) -> Vec<
    (String, RefOr<SecurityScheme>),
> {
    std::mem::take(&mut components.security_schemes).into_iter().collect()
}

/// Relies on the derived `PartialEq` of okapi's `RefOr<SecurityScheme>`.
#[verifier::external_body]
fn same_security_scheme(a: &RefOr<SecurityScheme>, b: &RefOr<SecurityScheme>) -> bool {
    a == b
}

/// Relies on okapi's `RefOr::Object`: the scheme given inline.
#[verifier::external_body]
fn inline_security_scheme(scheme: SecurityScheme) -> RefOr<SecurityScheme> {
    RefOr::Object(scheme)
}

/// Relies on the `schemas` and `security_schemes` maps of okapi's
/// `Components`: puts the entries into them.
#[verifier::external_body]
fn with_entries(
    mut components: okapi::openapi3::Components,
    schemas: Vec<(String, SchemaObject)>,
    security_schemes: Vec<(String, RefOr<SecurityScheme>)>,
) -> okapi::openapi3::Components {
    components.schemas.extend(schemas);
    components.security_schemes.extend(security_schemes);
    components
}

/// Relies on `SchemaGenerator::subschema_for` of schemars: the schema of
/// `T`, registering `T`'s definition under its name the first time.
#[verifier::external_body]
fn subschema_object<T: JsonSchema>(generator: &mut SchemaGenerator) -> SchemaObject {
    generator.subschema_for::<T>().into_object()
}

/// Relies on `Default` of okapi's `Components`: no entries at all.
#[verifier::external_body]
fn empty_components() -> okapi::openapi3::Components {
    okapi::openapi3::Components::default()
}

/// The index of the first entry of `added` whose name is already among
/// `registered`, if there is one.
pub fn find_name_collision<V>(registered: &Vec<(String, V)>, added: &Vec<(String, V)>) -> (r: Option<
    usize,
>)
    ensures
        match r {
            Some(i) => i < added@.len() && entry_names(registered@).contains(added@[i as int].0@)
                && forall|j: int|
                0 <= j < i ==> !entry_names(registered@).contains(#[trigger] added@[j].0@),
            None => forall|j: int|
                0 <= j < added@.len() ==> !entry_names(registered@).contains(#[trigger] added@[j].0@),
        },
{
    let mut i: usize = 0;
    while i < added.len()
        invariant
            i <= added@.len(),
            forall|j: int|
                0 <= j < i ==> !entry_names(registered@).contains(#[trigger] added@[j].0@),
        decreases added@.len() - i,
    {
        if let Some(k) = find_name(registered, added[i].0.as_str()) {
            proof {
                assert(entry_names(registered@)[k as int] == added@[i as int].0@);
            }
            return Some(i);
        }
        i = i + 1;
    }
    None
}

/// The index of the entry named `name`, if there is one.
fn find_name<V>(entries: &Vec<(String, V)>, name: &str) -> (r: Option<usize>)
    ensures
        match r {
            Some(k) => k < entries@.len() && entries@[k as int].0@ == name@,
            None => !entry_names(entries@).contains(name@),
        },
{
    let mut k: usize = 0;
    while k < entries.len()
        invariant
            k <= entries@.len(),
            forall|j: int| 0 <= j < k ==> entries@[j].0@ != name@,
        decreases entries@.len() - k,
    {
        if str_equal(entries[k].0.as_str(), name) {
            return Some(k);
        }
        k = k + 1;
    }
    proof {
        if entry_names(entries@).contains(name@) {
            let j = choose|j: int| 0 <= j < entry_names(entries@).len() && entry_names(entries@)[j] == name@;
            assert(entries@[j].0@ == name@);
        }
    }
    None
}

/// The schemas of a specification: the schemas registered by name followed
/// by the definitions made from types. Fails, naming it, at the first
/// definition whose name is already registered: a name is never taken twice.
pub fn finalize_schemas(
    registered: Vec<(String, SchemaObject)>,
    definitions: Vec<(String, SchemaObject)>,
) -> (r: Result<Vec<(String, SchemaObject)>, SpecError>)
    ensures
        match r {
            Ok(all) => all@ == registered@ + definitions@,
            Err(e) => e is SchemaCollision && exists|i: int|
                0 <= i < definitions@.len() && definitions@[i].0@ == e->SchemaCollision_name@
                    && entry_names(registered@).contains(e->SchemaCollision_name@) && forall|j: int|
                    0 <= j < i ==> !entry_names(registered@).contains(#[trigger] definitions@[j].0@),
        },
        r is Err <==> exists|j: int|
            0 <= j < definitions@.len() && entry_names(registered@).contains(#[trigger] definitions@[j].0@),
{
    match find_name_collision(&registered, &definitions) {
        Some(i) => Err(SpecError::SchemaCollision { name: definitions[i].0.clone() }),
        None => {
            let mut all = registered;
            let mut rest = definitions;
            all.append(&mut rest);
            Ok(all)
        },
    }
}

/// What registering a security scheme under a name does.
#[derive(Clone, Copy, Debug, PartialEq, Eq, Structural)]
pub enum Registration {
    /// The name is free: the scheme is added.
    Insert,
    /// The same scheme is registered under the name: nothing changes.
    Keep,
    /// Another scheme is registered under the name: the registration is refused.
    Refuse,
}

/// What registering a security scheme does, given whether its name is
/// taken and, if so, whether by the same definition.
pub fn registration_of(taken: bool, same_definition: bool) -> (r: Registration)
    ensures
        r == (if !taken {
            Registration::Insert
        } else if same_definition {
            Registration::Keep
        } else {
            Registration::Refuse
        }),
{
    if !taken {
        Registration::Insert
    } else if same_definition {
        Registration::Keep
    } else {
        Registration::Refuse
    }
}

/// Settings for a new [`SchemaRegistry`].
#[derive(Debug)]
pub struct ComponentsBuilder {
    components: Option<okapi::openapi3::Components>,
    inline_subschemas: bool,
}

impl ComponentsBuilder {
    /// Whether schemas of nested types are inlined rather than named.
    pub closed spec fn spec_inline_subschemas(&self) -> bool {
        self.inline_subschemas
    }

    /// The components that the registry starts with; none at all if `None`.
    pub closed spec fn spec_components(&self) -> Option<okapi::openapi3::Components> {
        self.components
    }

    /// No components to start with; subschemas are named, not inlined.
    pub fn new() -> (r: Self)
        ensures
            !r.spec_inline_subschemas(),
            r.spec_components() is None,
    {
        ComponentsBuilder { components: None, inline_subschemas: false }
    }

    /// Starts the registry with `components` (schemas, security schemes, ...).
    pub fn okapi_components(self, components: okapi::openapi3::Components) -> (r: Self)
        ensures
            r.spec_components() == Some(components),
            r.spec_inline_subschemas() == self.spec_inline_subschemas(),
    {
        ComponentsBuilder { components: Some(components), inline_subschemas: self.inline_subschemas }
    }

    /// Inlines the schemas of nested types instead of naming them (off by default).
    pub fn inline_subschemas(self, inline_subschemas: bool) -> (r: Self)
        ensures
            r.spec_components() == self.spec_components(),
            r.spec_inline_subschemas() == inline_subschemas,
    {
        ComponentsBuilder { components: self.components, inline_subschemas }
    }

    /// The registry.
    pub fn build(self) -> (r: SchemaRegistry)
        ensures
            self.spec_components() is None ==> r.schema_names().len() == 0 && r.security_schemes().len()
                == 0,
    {
        let (rest, schemas, security_schemes) = match self.components {
            Some(c) => {
                let mut rest = c;
                let schemas = take_schemas(&mut rest);
                let security_schemes = take_security_schemes(&mut rest);
                (rest, schemas, security_schemes)
            },
            None => (empty_components(), Vec::new(), Vec::new()),
        };
        SchemaRegistry {
            generator: openapi3_generator(self.inline_subschemas),
            schemas,
            security_schemes,
            rest,
        }
    }
}

impl Default for ComponentsBuilder {
    fn default() -> (r: Self)
        ensures
            !r.spec_inline_subschemas(),
            r.spec_components() is None,
    {
        ComponentsBuilder::new()
    }
}

/// Storage for reusable components: schemas made from types, schemas and
/// security schemes registered by name, and any other component.
#[derive(Clone, Debug)]
pub struct SchemaRegistry {
    generator: SchemaGenerator,
    schemas: Vec<(String, SchemaObject)>,
    security_schemes: Vec<(String, RefOr<SecurityScheme>)>,
    rest: okapi::openapi3::Components,
}

impl SchemaRegistry {
    /// The names of the schemas registered by name.
    pub closed spec fn schema_names(&self) -> Seq<Seq<char>> {
        entry_names(self.schemas@)
    }

    /// The security schemes, by name.
    pub closed spec fn security_schemes(&self) -> Seq<(String, RefOr<SecurityScheme>)> {
        self.security_schemes@
    }

    /// A registry that starts with `components`.
    pub fn new(components: okapi::openapi3::Components) -> (r: Self) {
        ComponentsBuilder::new().okapi_components(components).build()
    }

    /// The schema of `T`; the first time, `T`'s definition is registered
    /// under its name.
    pub fn schema_for<T: JsonSchema>(&mut self) -> (r: SchemaObject)
        ensures
            final(self).schema_names() == old(self).schema_names(),
            final(self).security_schemes() == old(self).security_schemes(),
    {
        let mut object = subschema_object::<T>(&mut self.generator);
        apply_visitors(&mut self.generator, &mut object);
        object
    }

    /// Registers a security scheme under `name`, as [`registration_of`] says:
    /// a free name takes the scheme, the same scheme again changes nothing,
    /// another scheme under a taken name is refused.
    pub fn add_security_scheme(&mut self, name: &str, scheme: SecurityScheme) -> (r: Result<
        (),
        SpecError,
    >)
        ensures
            final(self).schema_names() == old(self).schema_names(),
            !entry_names(old(self).security_schemes()).contains(name@) ==> r is Ok && entry_names(
                final(self).security_schemes(),
            ) == entry_names(old(self).security_schemes()).push(name@),
            entry_names(old(self).security_schemes()).contains(name@) ==> final(self).security_schemes()
                == old(self).security_schemes(),
            r matches Err(e) ==> e is ConflictingSecurityScheme && e->ConflictingSecurityScheme_name@ == name@
                && entry_names(old(self).security_schemes()).contains(name@),
    {
        let scheme = inline_security_scheme(scheme);
        let found = find_name(&self.security_schemes, name);
        let same = match found {
            Some(k) => same_security_scheme(&self.security_schemes[k].1, &scheme),
            None => false,
        };
        proof {
            if let Some(k) = found {
                assert(entry_names(self.security_schemes@)[k as int] == name@);
            }
        }
        match registration_of(found.is_some(), same) {
            Registration::Insert => {
                self.security_schemes.push((String::from_str(name), scheme));
                proof {
                    assert(entry_names(self.security_schemes@) =~= entry_names(
                        old(self).security_schemes@,
                    ).push(name@));
                }
                Ok(())
            },
            Registration::Keep => Ok(()),
            Registration::Refuse => Err(SpecError::ConflictingSecurityScheme { name: String::from_str(name) }),
        }
    }

    /// The components of the specification: everything registered, with the
    /// schemas as [`finalize_schemas`] joins the schemas registered by name and
    /// the definitions made from types. Fails where a definition has the name
    /// of a schema registered by name, so never where no schema is registered
    /// by name.
    pub fn okapi_components(&mut self) -> (r: Result<okapi::openapi3::Components, SpecError>)
        ensures
            final(self).schema_names() == old(self).schema_names(),
            final(self).security_schemes() == old(self).security_schemes(),
            r matches Err(e) ==> e is SchemaCollision && old(self).schema_names().contains(
                e->SchemaCollision_name@,
            ),
            old(self).schema_names().len() == 0 ==> r is Ok,
    {
        let definitions = definitions_of(&self.generator);
        let mut generated: Vec<(String, SchemaObject)> = Vec::new();
        let mut k: usize = 0;
        while k < definitions.len()
            invariant
                k <= definitions@.len(),
                generated@.len() == k,
                self.schemas == old(self).schemas,
                self.security_schemes == old(self).security_schemes,
                forall|j: int| 0 <= j < k ==> #[trigger] generated@[j].0@ == definitions@[j].0@,
            decreases definitions@.len() - k,
        {
            let mut schema = definitions[k].1.clone();
            apply_visitors(&mut self.generator, &mut schema);
            generated.push((definitions[k].0.clone(), schema));
            k = k + 1;
        }
        let mut schemas: Vec<(String, SchemaObject)> = Vec::new();
        let mut k: usize = 0;
        while k < self.schemas.len()
            invariant
                k <= self.schemas@.len(),
                schemas@.len() == k,
                forall|j: int| 0 <= j < k ==> #[trigger] schemas@[j].0@ == self.schemas@[j].0@,
            decreases self.schemas@.len() - k,
        {
            schemas.push((self.schemas[k].0.clone(), self.schemas[k].1.clone()));
            k = k + 1;
        }
        proof {
            assert(entry_names(schemas@) =~= entry_names(self.schemas@));
        }
        let all = match finalize_schemas(schemas, generated) {
            Ok(all) => all,
            Err(e) => {
                return Err(e);
            },
        };
        let mut security_schemes: Vec<(String, RefOr<SecurityScheme>)> = Vec::new();
        let mut k: usize = 0;
        while k < self.security_schemes.len()
            invariant
                k <= self.security_schemes@.len(),
            decreases self.security_schemes@.len() - k,
        {
            security_schemes.push((self.security_schemes[k].0.clone(), self.security_schemes[k].1.clone()));
            k = k + 1;
        }
        Ok(with_entries(self.rest.clone(), all, security_schemes))
    }
}

} // verus!
