use cograph::common::path::{Path, PathError};

#[test]
fn empty_string_is_root() {
    let p = Path::parse("").unwrap();
    assert!(p.is_root());
    assert!(p.iter().next().is_none());
}

#[test]
fn slash_is_root() {
    let p = Path::parse("/").unwrap();
    assert!(p.is_root());
    assert!(p.iter().next().is_none());
}

#[test]
fn path_iterates_segments() {
    let p = Path::parse("/s1/s2").unwrap();
    let segs: Vec<String> = p.iter().collect();
    assert_eq!(segs, vec!["s1", "s2"]);
}

#[test]
fn path_missing_leading_slash_rejected() {
    assert_eq!(Path::parse("s1/s2"), Err(PathError::MissingLeadingSlash));
}

#[test]
fn path_trailing_slash_rejected() {
    assert_eq!(Path::parse("/s1/"), Err(PathError::TrailingSlash));
}

#[test]
fn path_double_slash_rejected() {
    assert_eq!(Path::parse("//s1"), Err(PathError::EmptySegment));
    assert_eq!(Path::parse("/a//b"), Err(PathError::EmptySegment));
}

#[test]
fn path_push_appends_segment() {
    let mut p = Path::new();
    p.push("s1").unwrap();
    p.push("s2").unwrap();
    assert_eq!(p.iter().collect(), vec!["s1", "s2"]);
    assert_eq!(p.as_str(), "/s1/s2");
}

#[test]
fn path_push_empty_rejected() {
    let mut p = Path::new();
    assert_eq!(p.push(""), Err(PathError::EmptySegment));
}

#[test]
fn path_push_segment_with_slash_rejected() {
    let mut p = Path::new();
    assert_eq!(p.push("a/b"), Err(PathError::SegmentContainsSlash));
    assert_eq!(p.push("/a"), Err(PathError::SegmentContainsSlash));
}

#[test]
fn path_try_from_str() {
    let p: Path = "/x/y".try_into().unwrap();
    assert_eq!(p.iter().collect(), vec!["x", "y"]);

    let err: Result<Path, _> = "x/y".try_into();
    assert_eq!(err, Err(PathError::MissingLeadingSlash));
}

#[test]
fn path_into_iter_for_reference() {
    let p = Path::parse("/a/b/c").unwrap();
    let collected: Vec<String> = (&p).into_iter().collect();
    assert_eq!(collected, vec!["a", "b", "c"]);
}

#[test]
fn display_root_as_slash() {
    assert_eq!(Path::new().to_string(), "/");
    assert_eq!(Path::parse("/").unwrap().to_string(), "/");
    assert_eq!(Path::parse("/s1/s2").unwrap().to_string(), "/s1/s2");
}

#[test]
fn path_equality_is_byte_for_byte() {
    // There is only one valid spelling of any path.
    assert_eq!(Path::parse("/a/b").unwrap(), Path::parse("/a/b").unwrap());
    assert_ne!(Path::new(), Path::parse("/a").unwrap());
}

// ---- further cases ----

#[test]
fn path_root_has_no_segments_and_is_default() {
    let p = Path::default();
    assert!(p.is_root());
    assert_eq!(p.as_str(), "");
    assert!(p.iter().collect().is_empty());
}

#[test]
fn path_push_onto_root_then_parse_round_trips() {
    let mut p = Path::new();
    p.push("only").unwrap();
    assert!(!p.is_root());
    let q = Path::parse(p.as_str()).unwrap();
    assert_eq!(p, q);
}

#[test]
fn path_failed_push_leaves_path_unchanged() {
    let mut p = Path::parse("/a").unwrap();
    assert!(p.push("").is_err());
    assert_eq!(p.as_str(), "/a");
}

#[test]
fn path_errors_have_messages() {
    assert_eq!(PathError::EmptySegment.to_string(), "empty path segment");
    assert_eq!(PathError::MissingLeadingSlash.to_string(), "path must start with `/`");
    assert_eq!(PathError::TrailingSlash.to_string(), "path must not end with `/`");
    assert_eq!(PathError::SegmentContainsSlash.to_string(), "segment must not contain `/`");
}

#[test]
fn path_double_slash_alone_is_an_empty_segment() {
    assert_eq!(Path::parse("//"), Err(PathError::EmptySegment));
    assert_eq!(Path::parse("/a//b"), Err(PathError::EmptySegment));
    assert_eq!(Path::parse("/a/"), Err(PathError::TrailingSlash));
}
