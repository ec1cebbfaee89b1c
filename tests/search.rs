use linkcrawl::filter::should_expand;
use linkcrawl::search::{page_result_links, result_links, search_page_url, SearchPager};

fn strings(v: &[&str]) -> Vec<String> {
    v.iter().map(|s| s.to_string()).collect()
}

#[test]
fn filter_expands_on_any_pattern() {
    let patterns = strings(&["docs", "blog"]);
    assert!(should_expand("https://h/blog/1", &patterns));
    assert!(should_expand("https://docs.h/", &patterns));
    assert!(!should_expand("https://h/shop", &patterns));
}

#[test]
fn filter_without_patterns_expands_nothing() {
    assert!(!should_expand("https://h/", &Vec::new()));
    assert!(should_expand("https://h/", &strings(&[""])));
}

#[test]
fn search_page_url_encodes_query() {
    assert_eq!(
        search_page_url("example.com", 0),
        "https://www.google.com/search?q=site%3Aexample.com&start=0"
    );
    assert_eq!(
        search_page_url("a b/c", 120),
        "https://www.google.com/search?q=site%3Aa%20b%2Fc&start=120"
    );
}

#[test]
fn result_links_pick_redirect_targets() {
    let hrefs = strings(&[
        "/url?q=https://example.com/a&sa=U&ved=1",
        "/search?q=other",
        "https://example.com/direct",
        "/url?q=https://example.com/b?x=1&sa=U",
    ]);
    assert_eq!(
        result_links(&hrefs),
        strings(&["https://example.com/a", "https://example.com/b?x=1"])
    );
}

#[test]
fn page_result_links_in_tree_order() {
    let body = "<a href=\"/url?q=https://s/1&sa=X\">1</a><a href=\"/about\">x</a><a>y</a><a href=\"/url?q=https://s/2&sa=Y\">2</a>";
    assert_eq!(page_result_links(body), strings(&["https://s/1", "https://s/2"]));
}

#[test]
fn pager_with_zero_limit_asks_nothing() {
    let p = SearchPager::new(0);
    assert!(p.done);
    assert_eq!(p.next_url("example.com"), None);
}

#[test]
fn pager_stops_at_limit() {
    let mut p = SearchPager::new(3);
    assert_eq!(
        p.next_url("example.com"),
        Some("https://www.google.com/search?q=site%3Aexample.com&start=0".to_string())
    );
    let taken = p.accept(strings(&["a", "b"]), true);
    assert_eq!(taken, strings(&["a", "b"]));
    assert!(!p.done);
    assert_eq!(p.start_index, 10);
    let taken = p.accept(strings(&["c", "d", "e"]), true);
    assert_eq!(taken, strings(&["c"]));
    assert_eq!(p.fetched, 3);
    assert!(p.done);
    assert_eq!(p.next_url("example.com"), None);
}

#[test]
fn pager_stops_on_empty_page_only_when_asked() {
    let mut p = SearchPager::new(5);
    assert!(p.accept(Vec::new(), false).is_empty());
    assert!(!p.done);
    assert_eq!(p.start_index, 10);
    assert!(p.accept(Vec::new(), true).is_empty());
    assert!(p.done);
    assert_eq!(p.start_index, 10);
}
