use vstd::prelude::*;
use crate::address::{opt_view, string_views};
use crate::page::{keep_present, present_values, select_attr_options, selected_attr_options};

verus! {

/// How far the result offset advances from one results page to the next.
pub const PAGE_STEP: u32 = 10;

/// The text of a decimal digit.
pub open spec fn digit_char(d: nat) -> char {
    seq!['0', '1', '2', '3', '4', '5', '6', '7', '8', '9'][d as int]
}

/// The decimal notation of `n`, without sign or leading zeros.
pub open spec fn decimal_text(n: nat) -> Seq<char>
    decreases n,
{
    if n < 10 {
        seq![digit_char(n)]
    } else {
        decimal_text(n / 10).push(digit_char(n % 10))
    }
}

/// Relies on `u32`'s `Display` through `ToString::to_string`, documented to
/// write the number in decimal.
#[verifier::external_body]
fn u32_text(n: u32) -> (r: String)
    ensures
        r@ == decimal_text(n as nat),
{
    n.to_string()
}

/// The percent-encoding of `s`: its UTF-8 bytes, each kept where it is an
/// ASCII letter or digit or one of `-_.~`, else written `%XX`.
pub uninterp spec fn percent_encoded(s: Seq<char>) -> Seq<char>;

/// Relies on `urlencoding::encode`.
#[verifier::external_body]
fn percent_encode(s: &str) -> (r: String)
    ensures
        r@ == percent_encoded(s@),
{
    urlencoding::encode(s).into_owned()
}

/// The text of capture group 1 of the leftmost-first match of the regular
/// expression `pattern` in `text`; `None` where `pattern` does not compile,
/// nothing matches, or the group takes no part in the match.
pub uninterp spec fn first_group(pattern: Seq<char>, text: Seq<char>) -> Option<Seq<char>>;

/// Relies on regex's `Regex::new`, `Regex::captures`, `Captures::get` and
/// `Match::as_str`.
#[verifier::external_body]
fn capture_group_one(pattern: &str, text: &str) -> (r: Option<String>)
    ensures
        opt_view(r) == first_group(pattern@, text@),
{
    match regex::Regex::new(pattern) {
        Ok(re) => match re.captures(text) {
            Some(caps) => match caps.get(1) {
                Some(m) => Some(m.as_str().to_string()),
                None => None,
            },
            None => None,
        },
        Err(_) => None,
    }
}

/// The pattern of a search result's redirect link; its group is the target.
pub open spec fn redirect_pattern() -> Seq<char> {
    "/url\\?q=(.*?)&sa="@
}

/// The address of the results page for site search `site`, starting at the
/// result offset `start`.
pub open spec fn search_page_address(site: Seq<char>, start: nat) -> Seq<char> {
    "https://www.google.com/search?q="@ + percent_encoded("site:"@ + site) + "&start="@ + decimal_text(start)
}

/// The address of the results page of a search for pages of `search_site`,
/// starting at result offset `start_index`.
pub fn search_page_url(search_site: &str, start_index: u32) -> (r: String)
    ensures
        r@ == search_page_address(search_site@, start_index as nat),
{
    let mut query = String::from_str("site:");
    query.append(search_site);
    let encoded = percent_encode(query.as_str());
    let number = u32_text(start_index);
    let mut url = String::from_str("https://www.google.com/search?q=");
    url.append(encoded.as_str());
    url.append("&start=");
    url.append(number.as_str());
    url
}

/// The redirect targets among `hrefs`, in order: of each href, the text
/// between `/url?q=` and the nearest following `&sa=`.
pub open spec fn redirect_targets(hrefs: Seq<Seq<char>>) -> Seq<Seq<char>>
    decreases hrefs.len(),
{
    if hrefs.len() == 0 {
        Seq::empty()
    } else {
        let rest = redirect_targets(hrefs.drop_last());
        match first_group(redirect_pattern(), hrefs.last()) {
            Some(t) => rest.push(t),
            None => rest,
        }
    }
}

/// The result addresses that a list of link targets of a results page holds.
pub fn result_links(hrefs: &Vec<String>) -> (r: Vec<String>)
    ensures
        string_views(r@) == redirect_targets(string_views(hrefs@)),
{
    let mut out: Vec<String> = Vec::new();
    let mut i: usize = 0;
    while i < hrefs.len()
        invariant
            i <= hrefs@.len(),
            string_views(out@) == redirect_targets(string_views(hrefs@.subrange(0, i as int))),
        decreases hrefs@.len() - i,
    {
        let ghost pre = string_views(hrefs@.subrange(0, i as int));
        let ghost post = string_views(hrefs@.subrange(0, i + 1));
        proof {
            assert(post.drop_last() =~= pre);
            assert(post.last() == hrefs@[i as int]@);
        }
        match capture_group_one("/url\\?q=(.*?)&sa=", hrefs[i].as_str()) {
            Some(t) => {
                proof {
                    reveal_strlit("/url\\?q=(.*?)&sa=");
                    assert(string_views(out@.push(t)) =~= string_views(out@).push(t@));
                }
                out.push(t);
            },
            None => {
                proof {
                    reveal_strlit("/url\\?q=(.*?)&sa=");
                }
            },
        }
        i = i + 1;
    }
    proof {
        assert(hrefs@.subrange(0, hrefs@.len() as int) =~= hrefs@);
    }
    out
}

/// The result addresses on a search results page, in the order in which the
/// parsed tree is walked.
pub open spec fn page_results(body: Seq<char>) -> Seq<Seq<char>> {
    redirect_targets(present_values(selected_attr_options(body, "a"@, "href"@)))
}

/// The result addresses that a search results page links to, in the order in
/// which the parsed tree is walked.
pub fn page_result_links(body: &str) -> (r: Vec<String>)
    ensures
        string_views(r@) == page_results(body@),
{
    let found = select_attr_options(body, "a", "href");
    let hrefs = keep_present(&found);
    result_links(&hrefs)
}

/// Where a paginated site search stands: how many results it may hand on,
/// how many it has, the offset of the next results page, and whether it has
/// stopped.
pub struct SearchPager {
    pub limit: u32,
    pub fetched: u32,
    pub start_index: u32,
    pub done: bool,
}

impl SearchPager {
    /// Never more results than the limit, and a pager that has not stopped
    /// still wants some.
    pub open spec fn wf(&self) -> bool {
        &&& self.fetched <= self.limit
        &&& !self.done ==> self.fetched < self.limit
    }

    /// A pager for a search that hands on at most `limit` results; with a limit
    /// of zero it asks for no page at all.
    pub fn new(limit: u32) -> (r: SearchPager)
        ensures
            r.wf(),
            r.limit == limit,
            r.fetched == 0,
            r.start_index == 0,
            r.done == (limit == 0),
    {
        SearchPager { limit, fetched: 0, start_index: 0, done: limit == 0 }
    }

    /// The address of the next results page to retrieve for site search
    /// `search_site`, or `None` once the search has stopped.
    pub fn next_url(&self, search_site: &str) -> (r: Option<String>)
        ensures
            match r {
                Some(u) => !self.done && u@ == search_page_address(search_site@, self.start_index as nat),
                None => self.done,
            },
    {
        if self.done {
            None
        } else {
            Some(search_page_url(search_site, self.start_index))
        }
    }

    /// Takes in the results `found` on the current page and returns those to
    /// hand on: the first of them, up to the limit. The search stops once the
    /// limit is reached, where `stop_when_empty` holds and the page had no
    /// result, or where the next offset would not fit; otherwise it moves on to
    /// the next page.
    pub fn accept(&mut self, found: Vec<String>, stop_when_empty: bool) -> (r: Vec<String>)
        requires
            old(self).wf(),
            !old(self).done,
        ensures
            final(self).wf(),
            final(self).limit == old(self).limit,
            ({
                let room = old(self).limit - old(self).fetched;
                let take = if found@.len() < room { found@.len() } else { room as nat };
                &&& r@ == found@.subrange(0, take as int)
                &&& final(self).fetched == old(self).fetched + take
            }),
            final(self).done == (final(self).fetched >= final(self).limit || (stop_when_empty
                && found@.len() == 0) || old(self).start_index > u32::MAX - PAGE_STEP),
            final(self).done ==> final(self).start_index == old(self).start_index,
            !final(self).done ==> final(self).start_index == old(self).start_index + PAGE_STEP,
    {
        let room: u32 = self.limit - self.fetched;
        let mut taken: Vec<String> = Vec::new();
        let mut i: usize = 0;
        while i < found.len() && (i as u32) < room
            invariant
                i <= found@.len(),
                i <= room,
                taken@ == found@.subrange(0, i as int),
            decreases found@.len() - i,
        {
            taken.push(found[i].clone());
            proof {
                assert(taken@ =~= found@.subrange(0, i + 1));
            }
            i = i + 1;
        }
        let empty_page = found.len() == 0;
        self.fetched = self.fetched + i as u32;
        if self.fetched >= self.limit || (stop_when_empty && empty_page) || self.start_index > u32::MAX - PAGE_STEP {
            self.done = true;
        } else {
            self.start_index = self.start_index + PAGE_STEP;
        }
        taken
    }
}

} // verus!
