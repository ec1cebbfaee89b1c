use linkcrawl::address::{resolution, resolve_all, resolve_url};
use linkcrawl::page::{fetch_result, keep_present, link_hrefs};

#[test]
fn resolve_root_relative_link() {
    assert_eq!(resolve_url("/x", "https://h/a/b"), "https://h/x");
}

#[test]
fn resolve_path_relative_link() {
    assert_eq!(resolve_url("x", "https://h/a/b"), "https://h/a/x");
}

#[test]
fn resolve_absolute_link_unchanged() {
    assert_eq!(resolve_url("https://other/y", "https://h/a/b"), "https://other/y");
    assert_eq!(resolve_url("https://other/y", "http://elsewhere/"), "https://other/y");
}

#[test]
fn resolve_scheme_relative_query_and_fragment_links() {
    assert_eq!(resolve_url("//cdn/z", "https://h/a/b"), "https://cdn/z");
    assert_eq!(resolve_url("?q=1", "https://h/a/b"), "https://h/a/b?q=1");
    assert_eq!(resolve_url("#top", "https://h/a/b"), "https://h/a/b#top");
    assert_eq!(resolve_url("../up", "https://h/a/b/c"), "https://h/a/up");
}

#[test]
fn resolve_falls_back_to_href_on_bad_base() {
    assert_eq!(resolve_url("x", "not a url"), "x");
    assert_eq!(resolve_url("/rel", ""), "/rel");
}

#[test]
fn resolve_all_keeps_order_and_repeats() {
    let hrefs = vec!["/a".to_string(), "b".to_string(), "/a".to_string()];
    let r = resolve_all("https://h/p/q", &hrefs);
    assert_eq!(r, vec!["https://h/a", "https://h/p/b", "https://h/a"]);
}

#[test]
fn link_hrefs_in_tree_order() {
    let body = "<html><body><a href=\"/one\">1</a><p><a>none</a></p><a href='two'>2</a><a href=\"/one\">again</a></body></html>";
    assert_eq!(link_hrefs(body), vec!["/one", "two", "/one"]);
}

#[test]
fn link_hrefs_of_page_without_links() {
    assert!(link_hrefs("<p>plain text</p>").is_empty());
    assert!(link_hrefs("").is_empty());
}

#[test]
fn failed_fetch_has_no_children() {
    let (url, children) = fetch_result("https://unreachable.invalid/".to_string(), None);
    assert_eq!(url, "https://unreachable.invalid/");
    assert!(children.is_empty());
}

#[test]
fn fetched_page_children_are_resolved() {
    let body = "<a href=\"/x\">x</a><a href=\"y\">y</a><a href=\"https://other/z\">z</a><a href=\"/x\">x</a>".to_string();
    let (url, children) = fetch_result("https://h/a/b".to_string(), Some(body));
    assert_eq!(url, "https://h/a/b");
    assert_eq!(children, vec!["https://h/x", "https://h/a/y", "https://other/z", "https://h/x"]);
}

#[test]
fn resolution_prefers_joined_address() {
    assert_eq!(resolution("x", Some("https://h/x".to_string())), "https://h/x");
    assert_eq!(resolution("x", None), "x");
}

#[test]
fn keep_present_drops_absent_values() {
    let opts = vec![Some("a".to_string()), None, Some("b".to_string()), None, Some("a".to_string())];
    assert_eq!(keep_present(&opts), vec!["a", "b", "a"]);
    assert!(keep_present(&Vec::new()).is_empty());
}
