use sapper::{compile, pattern_match, Error};

fn params(p: &sapper::Pattern, path: &str) -> Option<Vec<(Vec<u8>, Vec<u8>)>> {
    pattern_match(p, path)
}

#[test]
fn literal_pattern_matches_exactly() {
    let p = compile("/hello/world").unwrap();
    assert!(params(&p, "/hello/world").unwrap().is_empty());
    assert!(params(&p, "/hello/there").is_none());
    assert!(params(&p, "/hello").is_none());
    assert!(params(&p, "/hello/world/more").is_none());
}

#[test]
fn params_bind_path_segments_verbatim() {
    let p = compile("/user/:id").unwrap();
    let bs = params(&p, "/user/42").unwrap();
    assert_eq!(bs, vec![(b"id".to_vec(), b"42".to_vec())]);
    let bs = params(&p, "/user/%20x").unwrap();
    assert_eq!(bs, vec![(b"id".to_vec(), b"%20x".to_vec())]);
}

#[test]
fn two_params_bind_in_pattern_order() {
    let p = compile("/a/:x/b/:y").unwrap();
    let bs = params(&p, "/a/1/b/2").unwrap();
    assert_eq!(
        bs,
        vec![
            (b"x".to_vec(), b"1".to_vec()),
            (b"y".to_vec(), b"2".to_vec())
        ]
    );
}

#[test]
fn segment_count_mismatch_never_matches() {
    let p = compile("/a/:x").unwrap();
    assert!(params(&p, "/a").is_none());
    assert!(params(&p, "/a/b/c").is_none());
    assert!(params(&p, "/").is_none());
}

#[test]
fn literals_are_case_sensitive() {
    let p = compile("/User").unwrap();
    assert!(params(&p, "/user").is_none());
    assert!(params(&p, "/User").is_some());
}

#[test]
fn catch_all_binds_remaining_segments_joined() {
    let p = compile("/files/*rest").unwrap();
    let bs = params(&p, "/files/a/b/c").unwrap();
    assert_eq!(bs, vec![(b"rest".to_vec(), b"a/b/c".to_vec())]);
    let bs = params(&p, "/files/one").unwrap();
    assert_eq!(bs, vec![(b"rest".to_vec(), b"one".to_vec())]);
    // a catch-all needs at least one remaining segment
    assert!(params(&p, "/files").is_none());
}

#[test]
fn empty_segments_are_dropped() {
    let p = compile("/a/b").unwrap();
    assert!(params(&p, "/a//b/").is_some());
    assert!(params(&p, "a/b").is_some());
}

#[test]
fn bare_marker_is_rejected() {
    assert_eq!(compile("/a/:").unwrap_err(), Error::InvalidConfig);
    assert_eq!(compile("/a/*").unwrap_err(), Error::InvalidConfig);
}

#[test]
fn duplicate_parameter_name_is_rejected() {
    assert_eq!(compile("/a/:x/:x").unwrap_err(), Error::InvalidConfig);
    assert_eq!(compile("/:x/*x").unwrap_err(), Error::InvalidConfig);
}

#[test]
fn catch_all_must_be_last_and_single() {
    assert_eq!(compile("/*rest/a").unwrap_err(), Error::InvalidConfig);
    assert_eq!(compile("/*a/*b").unwrap_err(), Error::InvalidConfig);
    assert!(compile("/a/*rest").is_ok());
}
