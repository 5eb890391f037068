use isolate_rt::uri_util::{join_path_bytes, uri_join, UriError};

#[test]
fn join_path_bytes_appends_across_one_slash() {
    let base = b"/foo/bar".to_vec();
    let path = b"one/two/three".to_vec();
    assert_eq!(join_path_bytes(&base, &path), b"/foo/bar/one/two/three".to_vec());
}

#[test]
fn join_path_bytes_on_empty_base() {
    let base: Vec<u8> = Vec::new();
    assert_eq!(join_path_bytes(&base, &b"x".to_vec()), b"/x".to_vec());
}

#[test]
fn uri_join_appends_and_keeps_scheme_and_authority() {
    let base: hyper::Uri = "http://example.org/foo/bar?x=1".parse().unwrap();
    let joined = uri_join(base, &b"one/two".to_vec()).unwrap();
    assert_eq!(joined.path(), "/foo/bar/one/two");
    assert_eq!(joined.scheme_str(), Some("http"));
    assert_eq!(joined.authority().map(|a| a.as_str()), Some("example.org"));
    assert_eq!(joined.query(), None);
}

#[test]
fn uri_join_on_relative_base() {
    let base: hyper::Uri = "/foo".parse().unwrap();
    let joined = uri_join(base, &b"bar".to_vec()).unwrap();
    assert_eq!(joined.path(), "/foo/bar");
}

#[test]
fn test_uri_join() {
    let base: hyper::Uri = "/foo/bar?baz".parse().unwrap();
    let joined = uri_join(base, &b"./one/two/three".to_vec()).unwrap();
    // The join is textual: no dot-segment normalization, and the base
    // query is not carried over.
    assert_eq!(joined.path(), "/foo/bar/./one/two/three");
    assert_eq!(joined.query(), None);
}

#[test]
fn uri_join_rejects_invalid_path_bytes() {
    let base: hyper::Uri = "/foo".parse().unwrap();
    assert_eq!(uri_join(base, &vec![0x0a]), Err(UriError::InvalidPath));
}
