use okapi_operation::{Method, MethodFilter, MethodRouterOperations, RouteTable, SpecError};

fn gen_inner(_: &mut u8) -> u8 {
    1
}

fn gen_other(_: &mut u8) -> u8 {
    2
}

type Gen = fn(&mut u8) -> u8;

fn ops(filter: MethodFilter, g: Option<Gen>) -> MethodRouterOperations<Gen> {
    MethodRouterOperations::new().on(filter, g)
}

#[test]
fn nesting_puts_paths_under_prefix_and_keeps_generator() {
    let mut inner: RouteTable<Gen> = RouteTable::new();
    inner.route("/inner", ops(MethodFilter::GET, Some(gen_inner as Gen)));
    let mut outer: RouteTable<Gen> = RouteTable::new();
    assert!(outer.nest("/outer", inner).is_ok());
    let found = outer.get("/outer/inner", Method::GET);
    assert!(found == Some(gen_inner as Gen));
    assert!(outer.get("/inner", Method::GET).is_none());
}

#[test]
fn route_replaces_map_of_same_path() {
    let mut table: RouteTable<Gen> = RouteTable::new();
    table.route("/p", ops(MethodFilter::GET, Some(gen_inner as Gen)));
    table.route("/p", ops(MethodFilter::POST, Some(gen_other as Gen)));
    assert!(table.get("/p", Method::GET).is_none());
    assert!(table.get("/p", Method::POST) == Some(gen_other as Gen));
}

#[test]
fn merging_trees_unions_paths_and_methods() {
    let mut a: RouteTable<Gen> = RouteTable::new();
    a.route("/p", ops(MethodFilter::GET, Some(gen_inner as Gen)));
    let mut b: RouteTable<Gen> = RouteTable::new();
    b.route("/p", ops(MethodFilter::POST, Some(gen_other as Gen)));
    b.route("/q", ops(MethodFilter::PUT, Some(gen_other as Gen)));
    assert!(a.merge(b).is_ok());
    assert!(a.get("/p", Method::GET) == Some(gen_inner as Gen));
    assert!(a.get("/p", Method::POST) == Some(gen_other as Gen));
    assert!(a.get("/q", Method::PUT) == Some(gen_other as Gen));
}

#[test]
fn merging_trees_with_same_operation_fails() {
    let mut a: RouteTable<Gen> = RouteTable::new();
    a.route("/p", ops(MethodFilter::GET, Some(gen_inner as Gen)));
    let mut b: RouteTable<Gen> = RouteTable::new();
    b.route("/p", ops(MethodFilter::GET, Some(gen_other as Gen)));
    match a.merge(b) {
        Err(SpecError::OverlappingOperation { path, method }) => {
            assert_eq!(path, "/p");
            assert_eq!(method, Method::GET);
        }
        other => panic!("unexpected {:?}", other),
    }
    // the table is left as it was
    assert!(a.get("/p", Method::GET) == Some(gen_inner as Gen));
}

#[test]
fn nesting_onto_a_documented_path_fails() {
    let mut inner: RouteTable<Gen> = RouteTable::new();
    inner.route("/x", ops(MethodFilter::DELETE, Some(gen_inner as Gen)));
    let mut outer: RouteTable<Gen> = RouteTable::new();
    outer.route("/o/x", ops(MethodFilter::DELETE, Some(gen_other as Gen)));
    assert!(matches!(
        outer.nest("/o", inner),
        Err(SpecError::OverlappingOperation { method: Method::DELETE, .. })
    ));
}

#[test]
fn undocumented_routes_are_dropped() {
    let mut table: RouteTable<Gen> = RouteTable::new();
    table.route("/plain", ops(MethodFilter::GET, None));
    let documented = table.into_operations();
    assert!(documented.is_empty());
    assert!(documented.get_path("/plain").is_none());
    assert!(documented.openapi_operation_generators().is_empty());
}

#[test]
fn documented_operations_are_listed_once() {
    let mut table: RouteTable<Gen> = RouteTable::new();
    table.route("/", ops(MethodFilter::GET, None));
    table.route(
        "/my_path",
        ops(MethodFilter::GET, Some(gen_inner as Gen)).on(MethodFilter::POST, Some(gen_other as Gen)),
    );
    let documented = table.into_operations();
    assert!(!documented.is_empty());
    assert!(documented.get_path("/").is_none());
    assert!(documented.get("/my_path", &Method::GET).is_some());
    assert!(documented.get("/my_path", &Method::POST).is_some());
    assert!(documented.get("/my_path", &Method::PUT).is_none());
    let list = documented.openapi_operation_generators();
    assert_eq!(list.len(), 2);
    assert!(list.iter().any(|(p, m, _)| p == "/my_path" && *m == Method::GET));
    assert!(list.iter().any(|(p, m, _)| p == "/my_path" && *m == Method::POST));
}
