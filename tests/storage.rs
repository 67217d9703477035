use ygramul::error::ErrorKind;
use ygramul::storage::{next_iteration, page_keys, FileCollector, FilePath, Iteration, S3Uri};

#[test]
fn remote_address_splits_at_first_slash() {
    let u = S3Uri::from_uri("s3://bucket/some/key.txt").ok().unwrap();
    assert_eq!(u.bucket, "bucket");
    assert_eq!(u.key, "some/key.txt");
    assert_eq!(u.to_text(), "s3://bucket/some/key.txt");
    assert_eq!(S3Uri::from_uri("s3://bucket").err().unwrap().kind, ErrorKind::Configuration);
    assert!(S3Uri::from_uri("http://bucket/key").is_err());
}

#[test]
fn locations_by_scheme() {
    assert!(matches!(FilePath::from_path("s3://b/k").ok().unwrap(), FilePath::S3(_)));
    match FilePath::from_path("/tmp/data").ok().unwrap() {
        FilePath::Local(p) => assert_eq!(p, "/tmp/data"),
        _ => panic!("local expected"),
    }
    assert!(FilePath::from_path("s3://nobucketkey").is_err());
}

#[test]
fn collector_prefixes_entries() {
    let mut c = FileCollector::new(&FilePath::Local("/data".to_string()));
    c.consume("a.txt");
    let mut d = FileCollector::new(&FilePath::S3(S3Uri::new("b".to_string(), "p/".to_string())));
    d.consume("p/x");
    let e = FileCollector::new(&FilePath::Local("/data/".to_string()));
    assert_eq!(c.files, vec!["/data/a.txt".to_string()]);
    assert_eq!(d.files, vec!["s3://b/p/x".to_string()]);
    assert_eq!(e.prefix, "/data/");
}

#[test]
fn pagination_follows_the_truncation_flag() {
    match next_iteration(Some(true), Some("t1".to_string())).ok().unwrap() {
        Iteration::Continuation(t) => assert_eq!(t, "t1"),
        _ => panic!("continuation expected"),
    }
    assert_eq!(next_iteration(Some(true), None).err().unwrap().kind, ErrorKind::Storage);
    assert!(matches!(next_iteration(Some(false), None).ok().unwrap(), Iteration::Complete));
    assert!(matches!(next_iteration(None, Some("t".to_string())).ok().unwrap(), Iteration::Complete));
}

#[test]
fn page_keys_need_contents_and_keys() {
    let keys = page_keys(Some(vec![Some("a".to_string()), Some("b".to_string())])).ok().unwrap();
    assert_eq!(keys, vec!["a".to_string(), "b".to_string()]);
    assert!(page_keys(None).is_err());
    assert!(page_keys(Some(vec![Some("a".to_string()), None])).is_err());
    assert!(page_keys(Some(vec![])).ok().unwrap().is_empty());
}
