use okapi::openapi3::{Contact, Operation, SecurityScheme, SecuritySchemeData};
use okapi::schemars::gen::SchemaGenerator;
use okapi::schemars::schema::{InstanceType, Schema, SchemaObject};
use okapi::schemars::JsonSchema;
use okapi_operation::{
    finalize_schemas, first_stop, registration_of, BuiltOperation, GeneratorOutcome, Registration,
    BuilderOptions, ComponentsBuilder, Method, MethodFilter, MethodRouterOperations, OpenApiBuilder,
    RouteTable, SchemaRegistry, SpecError,
};

type Generator = fn(&mut SchemaRegistry, &BuilderOptions) -> Result<Operation, anyhow::Error>;

fn plain(_: &mut SchemaRegistry, _: &BuilderOptions) -> Result<Operation, anyhow::Error> {
    Ok(Operation::default())
}

fn echo(_: &mut SchemaRegistry, _: &BuilderOptions) -> Result<Operation, anyhow::Error> {
    Ok(Operation {
        operation_id: Some("echo".to_string()),
        ..Default::default()
    })
}

fn echo_other(_: &mut SchemaRegistry, _: &BuilderOptions) -> Result<Operation, anyhow::Error> {
    Ok(Operation {
        operation_id: Some("echo_other".to_string()),
        ..Default::default()
    })
}

fn failing(_: &mut SchemaRegistry, _: &BuilderOptions) -> Result<Operation, anyhow::Error> {
    Err(anyhow::Error::msg("cannot describe"))
}

struct User;

impl JsonSchema for User {
    fn schema_name() -> String {
        "User".to_string()
    }

    fn json_schema(_: &mut SchemaGenerator) -> Schema {
        Schema::Object(SchemaObject {
            instance_type: Some(InstanceType::Object.into()),
            ..Default::default()
        })
    }
}

fn with_user(registry: &mut SchemaRegistry, _: &BuilderOptions) -> Result<Operation, anyhow::Error> {
    let _ = registry.schema_for::<User>();
    Ok(Operation::default())
}

fn with_id_inferred(_: &mut SchemaRegistry, options: &BuilderOptions) -> Result<Operation, anyhow::Error> {
    Ok(Operation {
        operation_id: if options.infer_operation_id() { Some("inferred".to_string()) } else { None },
        ..Default::default()
    })
}

/// Ensures that a builder always generates the same file every time, by not relying on
/// internal data structures that may contain random ordering.
#[test]
fn ensure_builder_deterministic() {
    let mut built_specs = Vec::new();

    // generate 100 specs
    for _ in 0..100 {
        let mut builder = OpenApiBuilder::new("title", "version");
        for i in 0..2 {
            builder.operation(
                &format!("/path/{}", i),
                Method::GET,
                |_: &mut SchemaRegistry, _: &BuilderOptions| Ok(Operation::default()),
            );
        }

        let spec = builder
            .build()
            .map(|x| format!("{:?}", x))
            .expect("Failed to build spec");
        built_specs.push(spec);
    }

    // ensure all specs are the same
    for i in 1..built_specs.len() {
        assert_eq!(built_specs[i - 1], built_specs[i]);
    }
}

#[test]
fn operations_are_emitted_in_path_order() {
    let mut builder: OpenApiBuilder<Generator> = OpenApiBuilder::new("title", "version");
    builder.operation("/path/1", Method::GET, plain);
    builder.operation("/path/0", Method::GET, plain);
    builder.operation("/path/0", Method::DELETE, plain);
    let first = format!("{:?}", builder.build().expect("build"));
    let spec = builder.build().expect("build");
    assert_eq!(first, format!("{:?}", spec));
    let order: Vec<(String, Method)> = spec.operations.iter().map(|o| (o.path.clone(), o.method)).collect();
    assert_eq!(
        order,
        vec![
            ("/path/0".to_string(), Method::DELETE),
            ("/path/0".to_string(), Method::GET),
            ("/path/1".to_string(), Method::GET),
        ]
    );
    assert_eq!(spec.info.title, "title");
    assert_eq!(spec.info.version, "version");
}

#[test]
fn registration_order_does_not_change_output() {
    let mut a: OpenApiBuilder<Generator> = OpenApiBuilder::new("t", "v");
    a.operation("/b", Method::POST, plain);
    a.operation("/a", Method::GET, plain);
    let mut b: OpenApiBuilder<Generator> = OpenApiBuilder::new("t", "v");
    b.operation("/a", Method::GET, plain);
    b.operation("/b", Method::POST, plain);
    assert_eq!(
        format!("{:?}", a.build().expect("build")),
        format!("{:?}", b.build().expect("build"))
    );
}

#[test]
fn duplicate_operation_id_fails_build() {
    let mut builder: OpenApiBuilder<Generator> = OpenApiBuilder::new("t", "v");
    builder.operation("/one", Method::GET, echo);
    builder.operation("/two", Method::GET, echo);
    match builder.build() {
        Err(SpecError::DuplicateOperationId { operation_id }) => assert_eq!(operation_id, "echo"),
        other => panic!("unexpected {:?}", other.map(|_| ())),
    }
}

#[test]
fn distinct_operation_ids_build() {
    let mut builder: OpenApiBuilder<Generator> = OpenApiBuilder::new("t", "v");
    builder.operation("/one", Method::GET, echo);
    builder.operation("/two", Method::GET, echo_other);
    let spec = builder.build().expect("build");
    assert_eq!(spec.operations.len(), 2);
    assert_eq!(spec.operations[0].operation_id.as_deref(), Some("echo"));
    assert_eq!(spec.operations[1].operation_id.as_deref(), Some("echo_other"));
}

#[test]
fn failing_generator_names_method_and_path() {
    let mut builder: OpenApiBuilder<Generator> = OpenApiBuilder::new("t", "v");
    builder.operation("/ok", Method::GET, plain);
    builder.operation("/bad", Method::PUT, failing);
    match builder.build() {
        Err(SpecError::Generator { method, path, source }) => {
            assert_eq!(method, Method::PUT);
            assert_eq!(path, "/bad");
            assert_eq!(source.to_string(), "cannot describe");
        }
        other => panic!("unexpected {:?}", other.map(|_| ())),
    }
}

#[test]
fn strict_registration_refuses_same_route() {
    let mut builder: OpenApiBuilder<Generator> = OpenApiBuilder::new("t", "v");
    assert!(builder.try_operation("/x", Method::GET, plain).is_ok());
    match builder.try_operation("/x", Method::GET, echo) {
        Err(SpecError::DuplicateRoute { path, method }) => {
            assert_eq!(path, "/x");
            assert_eq!(method, Method::GET);
        }
        other => panic!("unexpected {:?}", other.map(|_| ())),
    }
    assert!(builder.add_operation("/x", Method::POST, echo).is_ok());
    // the first registration is kept
    let spec = builder.build().expect("build");
    assert_eq!(spec.operations.len(), 2);
    assert_eq!(spec.operations[0].operation_id, None);
}

#[test]
fn permissive_registration_replaces() {
    let mut builder: OpenApiBuilder<Generator> = OpenApiBuilder::new("t", "v");
    builder.operations(vec![
        ("/x".to_string(), Method::GET, plain as Generator),
        ("/x".to_string(), Method::GET, echo as Generator),
    ]);
    let spec = builder.build().expect("build");
    assert_eq!(spec.operations.len(), 1);
    assert_eq!(spec.operations[0].operation_id.as_deref(), Some("echo"));
    assert!(builder
        .try_operations(vec![("/y".to_string(), Method::GET, plain as Generator)])
        .is_ok());
    assert!(builder
        .add_operations(vec![("/x".to_string(), Method::GET, plain as Generator)])
        .is_err());
}

#[test]
fn schema_for_same_type_registers_once() {
    let mut registry = ComponentsBuilder::new().build();
    let first = registry.schema_for::<User>();
    let second = registry.schema_for::<User>();
    assert_eq!(first, second);
    let components = registry.okapi_components().expect("components");
    assert_eq!(components.schemas.len(), 1);
    assert!(components.schemas.contains_key("User"));
}

#[test]
fn built_components_hold_generated_schemas() {
    let mut builder: OpenApiBuilder<Generator> = OpenApiBuilder::new("t", "v");
    builder.operation("/u", Method::GET, with_user);
    builder.operation("/v", Method::GET, with_user);
    let spec = builder.build().expect("build");
    assert_eq!(spec.components.schemas.len(), 1);
    assert!(spec.components.schemas.contains_key("User"));
}

#[test]
fn schema_name_collision_fails() {
    let mut base = okapi::openapi3::Components::default();
    base.schemas.insert("User".to_string(), SchemaObject::default());
    let mut builder: OpenApiBuilder<Generator> = OpenApiBuilder::new("t", "v");
    builder.set_components(ComponentsBuilder::new().okapi_components(base).build());
    builder.operation("/u", Method::GET, with_user);
    match builder.build() {
        Err(SpecError::SchemaCollision { name }) => assert_eq!(name, "User"),
        other => panic!("unexpected {:?}", other.map(|_| ())),
    }
}

fn api_key(name: &str) -> SecurityScheme {
    SecurityScheme {
        description: None,
        data: SecuritySchemeData::ApiKey {
            name: name.to_string(),
            location: "header".to_string(),
        },
        extensions: Default::default(),
    }
}

#[test]
fn security_scheme_reregistration() {
    let mut builder: OpenApiBuilder<Generator> = OpenApiBuilder::new("t", "v");
    assert!(builder.security_scheme("key", api_key("X-Key")).is_ok());
    assert!(builder.security_scheme("key", api_key("X-Key")).is_ok());
    match builder.security_scheme("key", api_key("X-Other")) {
        Err(SpecError::ConflictingSecurityScheme { name }) => assert_eq!(name, "key"),
        other => panic!("unexpected {:?}", other.map(|_| ())),
    }
    let spec = builder.build().expect("build");
    assert_eq!(spec.components.security_schemes.len(), 1);
}

#[test]
fn metadata_is_copied_into_specification() {
    let mut builder: OpenApiBuilder<Generator> = OpenApiBuilder::new("t", "v");
    builder
        .title("Demo")
        .version("1.0.0")
        .description("about")
        .terms_of_service("tos")
        .contact(Contact {
            name: Some("me".to_string()),
            ..Default::default()
        })
        .apply_global_security("key", vec!["read".to_string()]);
    let spec = builder.build().expect("build");
    assert_eq!(spec.info.title, "Demo");
    assert_eq!(spec.info.version, "1.0.0");
    assert_eq!(spec.info.description.as_deref(), Some("about"));
    assert_eq!(spec.info.terms_of_service.as_deref(), Some("tos"));
    assert_eq!(spec.info.contact.and_then(|c| c.name).as_deref(), Some("me"));
    assert_eq!(spec.security, vec![("key".to_string(), vec!["read".to_string()])]);
}

#[test]
fn options_reach_generators() {
    let mut builder: OpenApiBuilder<Generator> = OpenApiBuilder::new("t", "v");
    builder.set_infer_operation_id(true);
    builder.operation("/i", Method::GET, with_id_inferred);
    let spec = builder.build().expect("build");
    assert_eq!(spec.operations[0].operation_id.as_deref(), Some("inferred"));
    assert!(!BuilderOptions::default().infer_operation_id());
}

#[test]
fn router_routes_land_at_openapi_paths() {
    let mut table: RouteTable<Generator> = RouteTable::new();
    table.route(
        "/users/:id",
        MethodRouterOperations::new().on(MethodFilter::GET, Some(echo as Generator)),
    );
    table.route("/health", MethodRouterOperations::new().on(MethodFilter::GET, None));
    let routes = table.into_operations();
    let mut builder: OpenApiBuilder<Generator> = OpenApiBuilder::new("t", "v");
    builder.add_routes(&routes);
    let spec = builder.build().expect("build");
    assert_eq!(spec.operations.len(), 1);
    assert_eq!(spec.operations[0].path, "/users/{id}");
    assert_eq!(spec.operations[0].method, Method::GET);
}

fn built(path: &str, id: Option<&str>) -> GeneratorOutcome {
    GeneratorOutcome::Built(BuiltOperation {
        path: path.to_string(),
        method: Method::GET,
        operation_id: id.map(|s| s.to_string()),
        operation: Operation::default(),
    })
}

#[test]
fn first_stop_finds_repeated_id_or_failure() {
    assert_eq!(first_stop(&vec![built("/a", Some("x")), built("/b", None), built("/c", Some("y"))]), None);
    assert_eq!(first_stop(&vec![built("/a", Some("x")), built("/b", Some("y")), built("/c", Some("x"))]), Some(2));
    let failed = GeneratorOutcome::Failed {
        path: "/f".to_string(),
        method: Method::POST,
        source: anyhow::Error::msg("no"),
    };
    assert_eq!(first_stop(&vec![built("/a", None), failed, built("/c", Some("x"))]), Some(1));
    assert_eq!(first_stop(&vec![]), None);
}

#[test]
fn empty_builder_builds() {
    let mut builder: OpenApiBuilder<Generator> = OpenApiBuilder::new("t", "v");
    let spec = builder.build().expect("build");
    assert!(spec.operations.is_empty());
    assert!(spec.components.schemas.is_empty());
}

#[test]
fn finalizing_schemas_joins_or_reports_collision() {
    let named = vec![("A".to_string(), SchemaObject::default())];
    let defs = vec![("B".to_string(), SchemaObject::default()), ("C".to_string(), SchemaObject::default())];
    let all = finalize_schemas(named.clone(), defs).expect("joined");
    let names: Vec<&str> = all.iter().map(|(n, _)| n.as_str()).collect();
    assert_eq!(names, vec!["A", "B", "C"]);
    let clash = vec![("B".to_string(), SchemaObject::default()), ("A".to_string(), SchemaObject::default())];
    match finalize_schemas(named, clash) {
        Err(SpecError::SchemaCollision { name }) => assert_eq!(name, "A"),
        other => panic!("unexpected {:?}", other),
    }
}

#[test]
fn security_scheme_registration_rule() {
    assert_eq!(registration_of(false, false), Registration::Insert);
    assert_eq!(registration_of(true, true), Registration::Keep);
    assert_eq!(registration_of(true, false), Registration::Refuse);
}

#[test]
fn strict_bulk_registration_refuses_repeat_in_list() {
    let mut builder: OpenApiBuilder<Generator> = OpenApiBuilder::new("t", "v");
    match builder.try_operations(vec![
        ("/a".to_string(), Method::GET, plain as Generator),
        ("/b".to_string(), Method::GET, plain as Generator),
        ("/a".to_string(), Method::GET, echo as Generator),
    ]) {
        Err(SpecError::DuplicateRoute { path, method }) => {
            assert_eq!(path, "/a");
            assert_eq!(method, Method::GET);
        }
        other => panic!("unexpected {:?}", other.map(|_| ())),
    }
    // the entries before the repeat stay
    let spec = builder.build().expect("build");
    assert_eq!(spec.operations.len(), 2);
    assert_eq!(spec.operations[0].operation_id, None);
}

#[test]
fn template_registrations_stay_beside_routes() {
    let mut table: RouteTable<Generator> = RouteTable::new();
    table.route(
        "/users/:id",
        MethodRouterOperations::new().on(MethodFilter::GET, Some(echo as Generator)),
    );
    let routes = table.into_operations();
    let mut builder: OpenApiBuilder<Generator> = OpenApiBuilder::new("t", "v");
    builder.operation("/users/{id}", Method::GET, plain);
    builder.operation("/other", Method::GET, plain);
    builder.add_routes(&routes);
    let spec = builder.build().expect("build");
    assert_eq!(spec.operations.len(), 2);
    assert_eq!(spec.operations[0].path, "/other");
    assert_eq!(spec.operations[1].operation_id.as_deref(), Some("echo"));
}
