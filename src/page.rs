use vstd::prelude::*;
use crate::address::{opt_view, resolve_all, resolved, string_views};

verus! {

/// For each element of the HTML document `html` that matches the CSS selector
/// `selector`, in the order in which the parsed tree is walked, the value of
/// its attribute `attr`, or `None` where it has no such attribute; empty
/// where `selector` does not parse.
pub uninterp spec fn selected_attr_options(
    html: Seq<char>,
    selector: Seq<char>,
    attr: Seq<char>,
) -> Seq<Option<Seq<char>>>;

/// Relies on scraper's `Selector::parse`, `Html::parse_document`, `Html::select`
/// and `Element::attr`: the HTML5 parse of `html`, its elements matching
/// `selector`, and the value of `attr` on each of them.
#[verifier::external_body]
pub(crate) fn select_attr_options(html: &str, selector: &str, attr: &str) -> (r: Vec<Option<String>>)
    ensures
        r@.map_values(|o: Option<String>| opt_view(o)) == selected_attr_options(html@, selector@, attr@),
{
    match scraper::Selector::parse(selector) {
        Ok(sel) => scraper::Html::parse_document(html)
            .select(&sel)
            .map(|e| e.value().attr(attr).map(|v| v.to_string()))
            .collect(),
        Err(_) => Vec::new(),
    }
}

/// The values present among `os`, in order.
pub open spec fn present_values(os: Seq<Option<Seq<char>>>) -> Seq<Seq<char>>
    decreases os.len(),
{
    if os.len() == 0 {
        Seq::empty()
    } else {
        let rest = present_values(os.drop_last());
        match os.last() {
            Some(v) => rest.push(v),
            None => rest,
        }
    }
}

/// The strings present among `opts`, in order; the absent entries are dropped.
pub fn keep_present(opts: &Vec<Option<String>>) -> (r: Vec<String>)
    ensures
        string_views(r@) == present_values(opts@.map_values(|o: Option<String>| opt_view(o))),
{
    let ghost views = opts@.map_values(|o: Option<String>| opt_view(o));
    let mut out: Vec<String> = Vec::new();
    let mut i: usize = 0;
    while i < opts.len()
        invariant
            i <= opts@.len(),
            views == opts@.map_values(|o: Option<String>| opt_view(o)),
            string_views(out@) == present_values(views.subrange(0, i as int)),
        decreases opts@.len() - i,
    {
        proof {
            assert(views.subrange(0, i + 1).drop_last() =~= views.subrange(0, i as int));
            assert(views.subrange(0, i + 1).last() == opt_view(opts@[i as int]));
        }
        match &opts[i] {
            Some(v) => {
                let item = v.clone();
                proof {
                    assert(string_views(out@.push(item)) =~= string_views(out@).push(v@));
                }
                out.push(item);
            },
            None => {},
        }
        i = i + 1;
    }
    proof {
        assert(views.subrange(0, opts@.len() as int) =~= views);
    }
    out
}

/// The `href` values of a page's anchors, in the order in which the parsed
/// tree is walked.
pub open spec fn page_hrefs(body: Seq<char>) -> Seq<Seq<char>> {
    present_values(selected_attr_options(body, "a[href]"@, "href"@))
}

/// The children of the page at `url` whose body is `body`: each anchor's
/// `href` resolved against `url`, in the order of `page_hrefs`, repeats kept.
pub open spec fn page_children(url: Seq<char>, body: Seq<char>) -> Seq<Seq<char>> {
    page_hrefs(body).map_values(|h: Seq<char>| resolved(h, url))
}

/// The `href` values of the anchors of an HTML page, in the order in which
/// the parsed tree is walked.
pub fn link_hrefs(body: &str) -> (r: Vec<String>)
    ensures
        string_views(r@) == page_hrefs(body@),
{
    let found = select_attr_options(body, "a[href]", "href");
    keep_present(&found)
}

/// The result of fetching `url`: the address itself and its children. `body`
/// is the page's text where the retrieval succeeded and `None` where it failed;
/// a failed retrieval has no children.
pub fn fetch_result(url: String, body: Option<String>) -> (r: (String, Vec<String>))
    ensures
        r.0@ == url@,
        match body {
            Some(b) => string_views(r.1@) == page_children(url@, b@),
            None => r.1@.len() == 0,
        },
{
    match body {
        Some(b) => {
            let hrefs = link_hrefs(b.as_str());
            let children = resolve_all(url.as_str(), &hrefs);
            proof {
                assert(string_views(children@) =~= page_children(url@, b@));
            }
            (url, children)
        },
        None => (url, Vec::new()),
    }
}

} // verus!
