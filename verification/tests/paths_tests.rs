use apiflow::paths::{build_upstream_url, normalize_base_path, strip_base_path, trim_trailing_slash};

#[test]
fn normalize_base_path_handles_empty_and_slashes() {
    assert_eq!(normalize_base_path(""), "/");
    assert_eq!(normalize_base_path("api"), "/api");
    assert_eq!(normalize_base_path("/api/"), "/api");
}

#[test]
fn strip_base_path_removes_prefix() {
    assert_eq!(strip_base_path("/api/v1/chat", "/api"), "/v1/chat");
    assert_eq!(strip_base_path("/any", "/"), "/any");
}

#[test]
fn build_upstream_url_respects_separators() {
    assert_eq!(build_upstream_url("https://a.com", "/v1"), "https://a.com/v1");
    assert_eq!(build_upstream_url("https://a.com/", "v1"), "https://a.com/v1");
}

#[test]
fn build_upstream_url_drops_duplicate_slash() {
    assert_eq!(build_upstream_url("https://a.com/", "/v1"), "https://a.com/v1");
    assert_eq!(build_upstream_url("https://a.com", "v1"), "https://a.com/v1");
}

#[test]
fn normalize_base_path_is_idempotent_on_ordinary_paths() {
    for input in ["", "api", "/api/", "//", " /v1/models/ ", "a//b///"] {
        let once = normalize_base_path(input);
        assert_eq!(normalize_base_path(&once), once);
    }
}

#[test]
fn normalize_base_path_collapses_root_forms() {
    assert_eq!(normalize_base_path("//"), "/");
    assert_eq!(normalize_base_path("   "), "/");
    assert_eq!(normalize_base_path("/"), "/");
}

#[test]
fn join_root_agrees_before_and_after_trailing_slash_trim() {
    for base in ["https://a.com", "https://a.com/", "", "/"] {
        assert_eq!(
            build_upstream_url(base, "/"),
            build_upstream_url(trim_trailing_slash(base), "/")
        );
    }
}

#[test]
fn trim_trailing_slash_strips_all() {
    assert_eq!(trim_trailing_slash("https://a.com///"), "https://a.com");
    assert_eq!(trim_trailing_slash("x"), "x");
    assert_eq!(trim_trailing_slash("///"), "");
}
