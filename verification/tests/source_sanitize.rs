use artifex_mcp_server::source::Source;

fn sanitize(text: &str) -> Option<String> {
    Source(text).sanitize()
}

#[test]
fn crates_io_registry_is_crates_io() {
    assert_eq!(
        sanitize("registry+https://github.com/rust-lang/crates.io-index"),
        Some("crates-io".to_string())
    );
}

#[test]
fn other_registry_keeps_its_url() {
    assert_eq!(
        sanitize("registry+https://my-intranet:8080/git/index"),
        Some("https://my-intranet:8080/git/index".to_string())
    );
}

#[test]
fn git_source_drops_query_and_fragment() {
    assert_eq!(
        sanitize("git+https://github.com/elebihan/artifex?branch=main#0123456789abcdef"),
        Some("https://github.com/elebihan/artifex".to_string())
    );
    assert_eq!(
        sanitize("git+https://github.com/elebihan/artifex#0123456789abcdef"),
        Some("https://github.com/elebihan/artifex".to_string())
    );
    assert_eq!(
        sanitize("git+https://github.com/elebihan/artifex?rev=abc"),
        Some("https://github.com/elebihan/artifex".to_string())
    );
}

#[test]
fn git_fragment_before_query_cuts_at_fragment() {
    assert_eq!(
        sanitize("git+https://example.org/repo#frag?notquery"),
        Some("https://example.org/repo".to_string())
    );
}

#[test]
fn plain_git_url_is_kept() {
    assert_eq!(
        sanitize("git+https://example.org/repo.git"),
        Some("https://example.org/repo.git".to_string())
    );
}

#[test]
fn other_kinds_have_no_section() {
    assert_eq!(sanitize("path+file:///home/me/artifex"), None);
    assert_eq!(sanitize("sparse+https://index.crates.io/"), None);
    assert_eq!(sanitize("registry"), None);
    assert_eq!(sanitize(""), None);
}

#[test]
fn split_is_at_first_plus() {
    assert_eq!(sanitize("git+ssh+x://host/r"), Some("ssh+x://host/r".to_string()));
    assert_eq!(sanitize("+git+https://x"), None);
}

#[test]
fn non_ascii_urls_are_kept_whole() {
    assert_eq!(
        sanitize("git+https://exemple.fr/dépôt?x=é"),
        Some("https://exemple.fr/dépôt".to_string())
    );
}
