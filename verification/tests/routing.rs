use sapper::{compile, Error, Method, Router, SapperRouter, TableEntry};

fn entry(method: Method, glob: &str, module_id: usize, handler_id: usize) -> TableEntry {
    TableEntry {
        method,
        pattern: compile(glob).unwrap(),
        module_id,
        handler_id,
    }
}

#[test]
fn lookup_returns_first_match_in_registration_order() {
    let mut table = Router::new();
    table.push_entry(entry(Method::Get, "/a/:x", 0, 10));
    table.push_entry(entry(Method::Get, "/a/b", 0, 11));
    // both entries match; the earlier registration wins even though the
    // later one is an exact literal match
    let (module_id, handler_id, params) = table.lookup(Method::Get, "/a/b").unwrap();
    assert_eq!(module_id, 0);
    assert_eq!(handler_id, 10);
    assert_eq!(params, vec![(b"x".to_vec(), b"b".to_vec())]);
}

#[test]
fn lookup_respects_method() {
    let mut table = Router::new();
    table.push_entry(entry(Method::Post, "/a", 0, 1));
    match table.lookup(Method::Get, "/a") {
        Err(Error::NotFound(p)) => assert_eq!(p, b"/a".to_vec()),
        other => panic!("expected NotFound, got {:?}", other.map(|_| ())),
    }
    assert!(table.lookup(Method::Post, "/a").is_ok());
}

#[test]
fn lookup_skips_non_matching_entries() {
    let mut table = Router::new();
    table.push_entry(entry(Method::Get, "/x/y", 3, 7));
    table.push_entry(entry(Method::Get, "/user/:id", 5, 9));
    let (module_id, handler_id, params) = table.lookup(Method::Get, "/user/42").unwrap();
    assert_eq!(module_id, 5);
    assert_eq!(handler_id, 9);
    assert_eq!(params, vec![(b"id".to_vec(), b"42".to_vec())]);
}

#[test]
fn lookup_on_empty_table_is_not_found() {
    let table = Router::new();
    match table.lookup(Method::Get, "/missing") {
        Err(Error::NotFound(p)) => assert_eq!(p, b"/missing".to_vec()),
        _ => panic!("expected NotFound"),
    }
}

#[test]
fn module_router_rejects_bad_pattern() {
    let mut router = SapperRouter::new();
    assert_eq!(
        router.route(Method::Get, "/a/:x/:x", 0).unwrap_err(),
        Error::InvalidRouterConfig
    );
    assert!(router.route(Method::Get, "/a/:x", 0).is_ok());
}
