use vstd::prelude::*;

verus! {

/// The text of each string of a sequence, in order.
pub open spec fn string_views(v: Seq<String>) -> Seq<Seq<char>> {
    v.map_values(|s: String| s@)
}

/// The text of an optional string.
pub open spec fn opt_view(o: Option<String>) -> Option<Seq<char>> {
    match o {
        Some(s) => Some(s@),
        None => None,
    }
}

/// What the URL parser makes of `href` resolved against the absolute URL
/// `base`: the serialised absolute URL, or `None` where `base` is not an
/// absolute URL or `href` cannot be joined onto it.
pub uninterp spec fn joined_url(base: Seq<char>, href: Seq<char>) -> Option<Seq<char>>;

/// The address that a link `href` found on the page at `base` stands for:
/// the joined URL where joining succeeds, else `href` itself.
pub open spec fn resolved(href: Seq<char>, base: Seq<char>) -> Seq<char> {
    match joined_url(base, href) {
        Some(u) => u,
        None => href,
    }
}

/// Relies on `url::Url::parse` and `url::Url::join` (re-exported by reqwest as
/// `reqwest::Url`): parse `base` as an absolute URL, resolve `href` against it
/// by the standard relative-reference rules, and serialise the result; `None`
/// where either step returns a `ParseError`.
#[verifier::external_body]
fn join_url(base: &str, href: &str) -> (r: Option<String>)
    ensures
        opt_view(r) == joined_url(base@, href@),
{
    match reqwest::Url::parse(base) {
        Ok(b) => match b.join(href) {
            Ok(u) => Some(u.to_string()),
            Err(_) => None,
        },
        Err(_) => None,
    }
}

/// Resolves a link `href` found on the page at `base_url` into an absolute
/// address. Never fails: where `base_url` does not parse or `href` cannot be
/// joined onto it, `href` comes back unchanged.
pub fn resolve_url(href: &str, base_url: &str) -> (r: String)
    ensures
        r@ == resolved(href@, base_url@),
{
    resolution(href, join_url(base_url, href))
}

/// The address that link `href` stands for, given what joining it onto its
/// page's URL gave: the joined URL, or `href` itself where joining failed.
pub fn resolution(href: &str, joined: Option<String>) -> (r: String)
    ensures
        r@ == match opt_view(joined) {
            Some(u) => u,
            None => href@,
        },
{
    match joined {
        Some(u) => u,
        None => href.to_string(),
    }
}

/// Resolves each of `hrefs` against `base_url`, keeping their order and any
/// repeats.
pub fn resolve_all(base_url: &str, hrefs: &Vec<String>) -> (r: Vec<String>)
    ensures
        string_views(r@) == hrefs@.map_values(|h: String| resolved(h@, base_url@)),
{
    let mut out: Vec<String> = Vec::new();
    let mut i: usize = 0;
    while i < hrefs.len()
        invariant
            i <= hrefs@.len(),
            string_views(out@) == hrefs@.subrange(0, i as int).map_values(
                |h: String| resolved(h@, base_url@),
            ),
        decreases hrefs@.len() - i,
    {
        let ghost prev = out@;
        let child = resolve_url(hrefs[i].as_str(), base_url);
        out.push(child);
        proof {
            assert(out@ == prev.push(child));
            assert(string_views(prev).len() == prev.len());
            assert(string_views(prev).len() == i);
            assert(string_views(out@).len() == i + 1);
            assert forall|j: int| 0 <= j < i implies #[trigger] string_views(out@)[j] == string_views(prev)[j] by {}
            assert(string_views(out@) =~= hrefs@.subrange(0, i + 1).map_values(
                |h: String| resolved(h@, base_url@),
            ));
        }
        i = i + 1;
    }
    assert(hrefs@.subrange(0, hrefs@.len() as int) =~= hrefs@);
    out
}

} // verus!
