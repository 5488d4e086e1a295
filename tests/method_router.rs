use okapi_operation::{is_filter_present, Method, MethodFilter, MethodRouterOperations, SpecError};

fn gen_a(_: &mut u8) -> u8 {
    1
}

fn gen_b(_: &mut u8) -> u8 {
    2
}

type Gen = fn(&mut u8) -> u8;

#[test]
fn test_is_filter_present() {
    // Positive tests
    assert!(is_filter_present(MethodFilter::DELETE, MethodFilter::DELETE));
    assert!(is_filter_present(
        MethodFilter::DELETE.or(MethodFilter::GET),
        MethodFilter::DELETE
    ));
    assert!(is_filter_present(
        MethodFilter::GET.or(MethodFilter::DELETE),
        MethodFilter::DELETE
    ));
    assert!(is_filter_present(
        MethodFilter::DELETE.or(MethodFilter::DELETE),
        MethodFilter::DELETE
    ));

    // Negative tests
    assert!(!is_filter_present(MethodFilter::GET, MethodFilter::DELETE));
}

#[test]
fn filter_bits_follow_methods() {
    assert_eq!(MethodFilter::DELETE.bits(), 0x2);
    assert_eq!(MethodFilter::TRACE.bits(), 0x100);
    assert_eq!(MethodFilter::GET.or(MethodFilter::POST).bits(), 0x44);
    assert!(!is_filter_present(
        MethodFilter::GET,
        MethodFilter::GET.or(MethodFilter::POST)
    ));
}

#[test]
fn method_names_round_trip() {
    for m in [
        Method::DELETE,
        Method::GET,
        Method::HEAD,
        Method::OPTIONS,
        Method::PATCH,
        Method::POST,
        Method::PUT,
        Method::TRACE,
    ] {
        assert_eq!(Method::parse(m.as_str()).ok(), Some(m));
    }
    assert_eq!(Method::GET.as_str(), "GET");
    assert_eq!(Method::from_name("PATCH"), Some(Method::PATCH));
}

#[test]
fn unsupported_method_is_refused() {
    match Method::parse("CONNECT") {
        Err(SpecError::UnsupportedMethod { method }) => assert_eq!(method, "CONNECT"),
        other => panic!("unexpected {:?}", other),
    }
    assert_eq!(Method::from_name("get"), None);
}

#[test]
fn on_sets_every_admitted_slot() {
    let ops: MethodRouterOperations<Gen> = MethodRouterOperations::new();
    assert!(ops.is_empty());
    let ops = ops.on(MethodFilter::GET.or(MethodFilter::POST), Some(gen_a as Gen));
    assert!(ops.get(Method::GET) == Some(gen_a as Gen));
    assert!(ops.get(Method::POST) == Some(gen_a as Gen));
    assert!(ops.get(Method::PUT).is_none());
    let ops = ops.on(MethodFilter::POST, None);
    assert!(ops.get(Method::POST).is_none());
    assert!(ops.get(Method::GET).is_some());
}

#[test]
fn merge_with_same_method_fails_naming_it() {
    let a: MethodRouterOperations<Gen> =
        MethodRouterOperations::new().on(MethodFilter::GET, Some(gen_a as Gen));
    let b: MethodRouterOperations<Gen> =
        MethodRouterOperations::new().on(MethodFilter::GET, Some(gen_b as Gen));
    match a.merge(b) {
        Err(SpecError::OverlappingMethod { method }) => assert_eq!(method, Method::GET),
        _ => panic!("merging two GET operations must fail"),
    }
}

#[test]
fn merge_with_other_method_keeps_both() {
    let a: MethodRouterOperations<Gen> =
        MethodRouterOperations::new().on(MethodFilter::GET, Some(gen_a as Gen));
    let c: MethodRouterOperations<Gen> =
        MethodRouterOperations::new().on(MethodFilter::POST, Some(gen_b as Gen));
    let merged = match a.merge(c) {
        Ok(m) => m,
        Err(e) => panic!("unexpected {:?}", e),
    };
    assert!(merged.get(Method::GET) == Some(gen_a as Gen));
    assert!(merged.get(Method::POST) == Some(gen_b as Gen));
}

#[test]
fn into_map_drops_empty_slots_in_method_order() {
    let ops: MethodRouterOperations<Gen> = MethodRouterOperations::new()
        .on(MethodFilter::PUT, Some(gen_a as Gen))
        .on(MethodFilter::DELETE, Some(gen_b as Gen));
    let flat = ops.into_map();
    assert_eq!(flat.len(), 2);
    assert_eq!(flat[0].0, Method::DELETE);
    assert_eq!(flat[1].0, Method::PUT);
    assert!(flat[0].1 == gen_b as Gen);
}
