use turbo_aggregation::util::join_path;
use turbo_aggregation::util::normalize_path;
use turbo_aggregation::util::normalize_request;
use turbo_aggregation::util::sys_to_unix;
use turbo_aggregation::util::unix_to_sys;

#[test]
fn normalize_path_removes_dots_and_slashes() {
    assert_eq!(normalize_path("/a//b/./c/").as_deref(), Some("a/b/c"));
    assert_eq!(normalize_path("a/b/../c").as_deref(), Some("a/c"));
    assert_eq!(normalize_path("a/..").as_deref(), Some(""));
    assert_eq!(normalize_path("").as_deref(), Some(""));
    assert_eq!(normalize_path("../a"), None);
    assert_eq!(normalize_path("a/../.."), None);
}

#[test]
fn join_path_normalizes() {
    assert_eq!(join_path("a/b", "c").as_deref(), Some("a/b/c"));
    assert_eq!(join_path("a/b", "../c").as_deref(), Some("a/c"));
    assert_eq!(join_path("", "x/./y").as_deref(), Some("x/y"));
    assert_eq!(join_path("x//y", "").as_deref(), Some("x/y"));
    assert_eq!(join_path("a", "../../b"), None);
}

#[test]
fn normalize_request_keeps_leading_parents() {
    assert_eq!(normalize_request("a/b"), "./a/b");
    assert_eq!(normalize_request("./a/../b"), "./b");
    assert_eq!(normalize_request("../a"), "../a");
    assert_eq!(normalize_request("../../a/./b"), "../../a/b");
    assert_eq!(normalize_request("a/../../b"), "../b");
    assert_eq!(normalize_request("."), ".");
}

#[test]
fn system_and_unix_paths_agree() {
    assert_eq!(sys_to_unix("a/b/c"), "a/b/c");
    assert_eq!(unix_to_sys("a/b/c"), "a/b/c");
}
