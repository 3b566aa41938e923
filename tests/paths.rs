use turbo_aggregation::paths::AbsoluteSystemPath;
use turbo_aggregation::paths::AbsoluteSystemPathBuf;
use turbo_aggregation::paths::AnchoredSystemPathBuf;
use turbo_aggregation::paths::PathValidationError;
use turbo_aggregation::paths::RelativeSystemPathBuf;

#[test]
fn test_relative_path_to() {
    let root_token = "/";
    let root = AbsoluteSystemPathBuf::new(&["/", "a", "b", "c"].join("/")).unwrap();

    // /a/b/c
    // vs
    // /a -> ../..
    // /a/b/d -> ../d
    // /a/b/c/d -> d
    // /e/f -> ../../../e/f
    // / -> ../../..
    let test_cases: &[(&[&str], &[&str])] = &[
        (&["a"], &["..", ".."]),
        (&["a", "b", "d"], &["..", "d"]),
        (&["a", "b", "c", "d"], &["d"]),
        (&["e", "f"], &["..", "..", "..", "e", "f"]),
        (&[], &["..", "..", ".."]),
    ];
    for (input, expected) in test_cases {
        let mut parts = vec![root_token];
        parts.extend_from_slice(input);
        let target = AbsoluteSystemPathBuf::new(&parts.join("/")).unwrap();
        let expected = AnchoredSystemPathBuf::from_raw(&expected.join("/")).unwrap();
        let result = root
            .as_absolute_path()
            .relative_path_to(&target.as_absolute_path());
        assert_eq!(result, expected);
    }
}

#[test]
fn test_create_absolute_path() {
    let absolute_path = AbsoluteSystemPath::new("/foo/bar").unwrap();
    assert_eq!(absolute_path.to_string(), "/foo/bar");
}

#[test]
fn absolute_path_must_start_at_root() {
    assert_eq!(
        AbsoluteSystemPathBuf::new("foo/bar"),
        Err(PathValidationError::NotAbsolute("foo/bar".to_string()))
    );
    assert_eq!(
        AnchoredSystemPathBuf::from_raw("/foo"),
        Err(PathValidationError::NotRelative("/foo".to_string()))
    );
    assert!(RelativeSystemPathBuf::new("/etc").is_none());
    assert!(RelativeSystemPathBuf::new("etc").is_some());
}

#[test]
fn components_drop_empty_and_dot_segments() {
    let p = AbsoluteSystemPathBuf::new("//usr/./local//bin/").unwrap();
    assert_eq!(p.components(), vec!["usr", "local", "bin"]);
    assert_eq!(p.as_path(), "/usr/local/bin");
    assert_eq!(p.to_str().unwrap(), "/usr/local/bin");
    let root = AbsoluteSystemPathBuf::new("/").unwrap();
    assert_eq!(root.as_path(), "/");
    assert!(root.parent().is_none());
}

#[test]
fn parent_join_and_prefixes() {
    let base = AbsoluteSystemPathBuf::new("/repo").unwrap();
    let rel = RelativeSystemPathBuf::new("packages/ui").unwrap();
    let joined = base.join(&rel);
    assert_eq!(joined.as_path(), "/repo/packages/ui");
    assert_eq!(joined.parent().unwrap().as_path(), "/repo/packages");
    assert!(joined.starts_with(&base));
    assert!(!base.starts_with(&joined));
    assert!(joined.ends_with(&RelativeSystemPathBuf::new("ui").unwrap()));
    assert!(!joined.ends_with(&RelativeSystemPathBuf::new("packages").unwrap()));
    assert!(rel.starts_with(&RelativeSystemPathBuf::new("packages").unwrap()));
    assert!(rel.ends_with(&RelativeSystemPathBuf::new("packages/ui").unwrap()));
    assert_eq!(rel.join(&RelativeSystemPathBuf::new("src").unwrap()).as_path(), "packages/ui/src");
    assert_eq!(rel.parent().unwrap().as_path(), "packages");
}

#[test]
fn anchor_and_resolve() {
    let base = AbsoluteSystemPathBuf::new("/repo").unwrap();
    let inner = AbsoluteSystemPathBuf::new("/repo/apps/web").unwrap();
    let anchored = base.anchor(&inner).unwrap();
    assert_eq!(anchored.as_path(), "apps/web");
    assert_eq!(base.resolve(&anchored), inner);
    let outside = AbsoluteSystemPathBuf::new("/other").unwrap();
    assert_eq!(
        base.anchor(&outside),
        Err(PathValidationError::NotParent("/repo".to_string(), "/other".to_string()))
    );
}

#[test]
fn file_name_and_extension() {
    let p = RelativeSystemPathBuf::new("src/lib.rs").unwrap();
    assert_eq!(p.file_name().as_deref(), Some("lib.rs"));
    assert_eq!(p.extension().as_deref(), Some("rs"));
    let hidden = RelativeSystemPathBuf::new("home/.bashrc").unwrap();
    assert_eq!(hidden.file_name().as_deref(), Some(".bashrc"));
    assert_eq!(hidden.extension(), None);
    let dotted = RelativeSystemPathBuf::new("a/archive.tar.gz").unwrap();
    assert_eq!(dotted.extension().as_deref(), Some("gz"));
    let trailing = RelativeSystemPathBuf::new("a/name.").unwrap();
    assert_eq!(trailing.extension().as_deref(), Some(""));
    let up = RelativeSystemPathBuf::new("a/..").unwrap();
    assert_eq!(up.file_name(), None);
    let abs = AbsoluteSystemPathBuf::new("/x/y.json").unwrap();
    assert_eq!(abs.extension().as_deref(), Some("json"));
}

#[test]
fn ancestors_reach_the_root() {
    let p = AbsoluteSystemPath::new("/a/b").unwrap();
    let all: Vec<String> = p.ancestors().iter().map(|a| a.as_path()).collect();
    assert_eq!(all, vec!["/a/b", "/a", "/"]);
}

#[test]
fn unchecked_path_comes_back_as_given() {
    let relative = AbsoluteSystemPathBuf::new_unchecked("a/b");
    assert_eq!(relative.as_path(), "a/b");
    assert_eq!(relative.clone().into_path_buf(), "a/b");
    assert_eq!(relative.parent().unwrap().as_path(), "a");
    let rooted = AbsoluteSystemPathBuf::new_unchecked("/a/b");
    assert_eq!(rooted.into_path_buf(), "/a/b");
    let again = AbsoluteSystemPathBuf::new_unchecked(&relative.as_path());
    assert_eq!(again, relative);
}
