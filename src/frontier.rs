use vstd::prelude::*;
use crate::address::string_views;

verus! {

/// The addresses that the strings of `v` hold.
pub open spec fn address_set(v: Seq<String>) -> Set<Seq<char>> {
    Set::new(|a: Seq<char>| exists|i: int| 0 <= i < v.len() && (#[trigger] v[i])@ == a)
}

/// The abstract state of a crawl run.
pub struct CrawlState {
    /// Every address ever admitted.
    pub visited: Set<Seq<char>>,
    /// Admitted addresses whose fetch has not completed.
    pub in_flight: Set<Seq<char>>,
    /// The output sequence so far, in emission order.
    pub emitted: Seq<Seq<char>>,
    /// Whether the input has been closed by all producers.
    pub input_closed: bool,
}

/// Of `cs`, in order, those not in `visited` and not earlier in `cs`: the
/// children that admission lets through.
pub open spec fn fresh_in_order(visited: Set<Seq<char>>, cs: Seq<Seq<char>>) -> Seq<Seq<char>>
    decreases cs.len(),
{
    if cs.len() == 0 {
        Seq::empty()
    } else {
        let prev = cs.drop_last();
        let rest = fresh_in_order(visited, prev);
        if visited.contains(cs.last()) || prev.contains(cs.last()) {
            rest
        } else {
            rest.push(cs.last())
        }
    }
}

impl CrawlState {
    /// A run before any input: nothing admitted, nothing emitted.
    pub open spec fn initial() -> CrawlState {
        CrawlState {
            visited: Set::empty(),
            in_flight: Set::empty(),
            emitted: Seq::empty(),
            input_closed: false,
        }
    }

    /// Every admitted address is either in flight or emitted, never both, and
    /// nothing is emitted twice.
    pub open spec fn wf(self) -> bool {
        &&& self.emitted.no_duplicates()
        &&& forall|a: Seq<char>|
            #[trigger] self.visited.contains(a) <==> (self.in_flight.contains(a)
                || self.emitted.contains(a))
        &&& forall|a: Seq<char>|
            !(#[trigger] self.in_flight.contains(a) && self.emitted.contains(a))
    }

    /// Admission of candidate `a`: unless already visited, it is inserted into
    /// the visited set and its fetch dispatched.
    pub open spec fn enqueue(self, a: Seq<char>) -> CrawlState {
        if self.visited.contains(a) {
            self
        } else {
            CrawlState {
                visited: self.visited.insert(a),
                in_flight: self.in_flight.insert(a),
                ..self
            }
        }
    }

    /// Completion of the fetch of in-flight address `a` with children `cs`:
    /// `a` is emitted, and where the filter said `expand` each child is put
    /// through admission in order.
    pub open spec fn complete(self, a: Seq<char>, cs: Seq<Seq<char>>, expand: bool) -> CrawlState {
        if !self.in_flight.contains(a) {
            self
        } else if expand {
            CrawlState {
                visited: self.visited + cs.to_set(),
                in_flight: self.in_flight.remove(a) + fresh_in_order(self.visited, cs).to_set(),
                emitted: self.emitted.push(a),
                input_closed: self.input_closed,
            }
        } else {
            CrawlState {
                in_flight: self.in_flight.remove(a),
                emitted: self.emitted.push(a),
                ..self
            }
        }
    }

    /// All producers have closed the input.
    pub open spec fn close(self) -> CrawlState {
        CrawlState { input_closed: true, ..self }
    }

    /// The run has ended: input closed and no fetch in flight.
    pub open spec fn finished(self) -> bool {
        self.input_closed && self.in_flight.is_empty()
    }
}

/// What a sequence holds after a push.
proof fn lemma_push_contains(s: Seq<Seq<char>>, a: Seq<char>)
    ensures
        forall|x: Seq<char>| #[trigger] s.push(a).contains(x) <==> (s.contains(x) || x == a),
        !s.contains(a) && s.no_duplicates() ==> s.push(a).no_duplicates(),
{
    let t = s.push(a);
    assert forall|x: Seq<char>| #[trigger] t.contains(x) <==> (s.contains(x) || x == a) by {
        if t.contains(x) {
            let j = choose|j: int| 0 <= j < t.len() && t[j] == x;
            if j < s.len() {
                assert(s[j] == x);
            }
        }
        if s.contains(x) {
            let j = choose|j: int| 0 <= j < s.len() && s[j] == x;
            assert(t[j] == x);
        }
        if x == a {
            assert(t[s.len() as int] == x);
        }
    }
    if !s.contains(a) && s.no_duplicates() {
        assert forall|i: int, j: int| 0 <= i < t.len() && 0 <= j < t.len() && i != j implies t[i] != t[j] by {
            if i < s.len() && j < s.len() {
                assert(t[i] == s[i] && t[j] == s[j]);
            } else if i < s.len() {
                assert(t[i] == s[i]);
            } else if j < s.len() {
                assert(t[j] == s[j]);
            }
        }
    }
}

/// Of `cs`, exactly the addresses outside `visited` make it through
/// admission, each once.
pub proof fn lemma_fresh_in_order(visited: Set<Seq<char>>, cs: Seq<Seq<char>>)
    ensures
        fresh_in_order(visited, cs).no_duplicates(),
        forall|x: Seq<char>|
            #[trigger] fresh_in_order(visited, cs).contains(x) <==> (cs.contains(x)
                && !visited.contains(x)),
    decreases cs.len(),
{
    if cs.len() > 0 {
        let prev = cs.drop_last();
        lemma_fresh_in_order(visited, prev);
        assert(prev.push(cs.last()) =~= cs);
        lemma_push_contains(prev, cs.last());
        lemma_push_contains(fresh_in_order(visited, prev), cs.last());
    }
}

/// `address_set` after a push.
proof fn lemma_address_set_push(v: Seq<String>, s: String)
    ensures
        address_set(v.push(s)) == address_set(v).insert(s@),
{
    let w = v.push(s);
    assert forall|a: Seq<char>| address_set(w).contains(a) <==> address_set(v).insert(s@).contains(a) by {
        if address_set(v).contains(a) {
            let i = choose|i: int| 0 <= i < v.len() && (#[trigger] v[i])@ == a;
            assert(w[i] == v[i]);
        }
        if a == s@ {
            assert(w[v.len() as int] == s);
        }
        if address_set(w).contains(a) {
            let i = choose|i: int| 0 <= i < w.len() && (#[trigger] w[i])@ == a;
            if i < v.len() {
                assert(v[i] == w[i]);
            }
        }
    }
    assert(address_set(w) =~= address_set(v).insert(s@));
}

/// `address_set` after removing the entry at `i`, where no text repeats.
proof fn lemma_address_set_remove(v: Seq<String>, i: int)
    requires
        0 <= i < v.len(),
        string_views(v).no_duplicates(),
    ensures
        address_set(v.remove(i)) == address_set(v).remove(v[i]@),
{
    let w = v.remove(i);
    assert forall|a: Seq<char>| address_set(w).contains(a) <==> address_set(v).remove(v[i]@).contains(a) by {
        if address_set(w).contains(a) {
            let j = choose|j: int| 0 <= j < w.len() && (#[trigger] w[j])@ == a;
            if j < i {
                assert(w[j] == v[j]);
                assert(string_views(v)[j] != string_views(v)[i]);
            } else {
                assert(w[j] == v[j + 1]);
                assert(string_views(v)[j + 1] != string_views(v)[i]);
            }
        }
        if address_set(v).remove(v[i]@).contains(a) {
            let j = choose|j: int| 0 <= j < v.len() && (#[trigger] v[j])@ == a;
            if j < i {
                assert(w[j] == v[j]);
            } else {
                assert(j != i);
                assert(w[j - 1] == v[j]);
            }
        }
    }
    assert(address_set(w) =~= address_set(v).remove(v[i]@));
}

/// Every step of a run keeps the run's invariant.
pub proof fn lemma_steps_keep_wf(s: CrawlState, a: Seq<char>, cs: Seq<Seq<char>>, expand: bool)
    requires
        s.wf(),
    ensures
        s.enqueue(a).wf(),
        s.complete(a, cs, expand).wf(),
        s.close().wf(),
{
    lemma_fresh_in_order(s.visited, cs);
    let t = s.complete(a, cs, expand);
    if s.in_flight.contains(a) {
        assert(!s.emitted.contains(a));
        lemma_push_contains(s.emitted, a);
    }
}

/// One event of a crawl run, as the frontier sees it.
pub enum CrawlEvent {
    /// A candidate address arrives on the input.
    Input(Seq<char>),
    /// All producers have closed the input.
    Close,
    /// The fetch of an address completed with these children, and the filter
    /// said whether to expand them.
    Fetched(Seq<char>, Seq<Seq<char>>, bool),
}

impl CrawlState {
    /// The state after one event.
    pub open spec fn step(self, e: CrawlEvent) -> CrawlState {
        match e {
            CrawlEvent::Input(a) => self.enqueue(a),
            CrawlEvent::Close => self.close(),
            CrawlEvent::Fetched(a, cs, expand) => self.complete(a, cs, expand),
        }
    }
}

/// The state after a run of `events` from the start.
pub open spec fn run(events: Seq<CrawlEvent>) -> CrawlState
    decreases events.len(),
{
    if events.len() == 0 {
        CrawlState::initial()
    } else {
        run(events.drop_last()).step(events.last())
    }
}

/// In every run no address is emitted twice, only admitted addresses are
/// emitted, and once the run has finished every admitted address has been
/// emitted: each admitted address is emitted exactly once.
pub proof fn lemma_each_address_emitted_once(events: Seq<CrawlEvent>)
    ensures
        run(events).wf(),
        run(events).emitted.no_duplicates(),
        forall|a: Seq<char>| #[trigger] run(events).emitted.contains(a) ==> run(events).visited.contains(a),
        run(events).finished() ==> forall|a: Seq<char>|
            #[trigger] run(events).visited.contains(a) ==> run(events).emitted.contains(a),
    decreases events.len(),
{
    if events.len() > 0 {
        lemma_each_address_emitted_once(events.drop_last());
        let s = run(events.drop_last());
        match events.last() {
            CrawlEvent::Input(a) => lemma_steps_keep_wf(s, a, Seq::empty(), false),
            CrawlEvent::Close => lemma_steps_keep_wf(s, Seq::empty(), Seq::empty(), false),
            CrawlEvent::Fetched(a, cs, x) => lemma_steps_keep_wf(s, a, cs, x),
        }
    }
    let t = run(events);
    if t.finished() {
        assert forall|a: Seq<char>| #[trigger] t.visited.contains(a) implies t.emitted.contains(a) by {
            assert(!t.in_flight.contains(a));
        }
    }
}

/// When the filter allows expansion of a completed address, every one of its
/// children is visited afterwards, and each that was not visited before is
/// dispatched (in flight).
pub proof fn lemma_expansion_reaches_children(s: CrawlState, a: Seq<char>, cs: Seq<Seq<char>>)
    requires
        s.wf(),
        s.in_flight.contains(a),
    ensures
        forall|c: Seq<char>| #[trigger] cs.contains(c) ==> s.complete(a, cs, true).visited.contains(c),
        forall|c: Seq<char>|
            #[trigger] cs.contains(c) && !s.visited.contains(c) ==> s.complete(a, cs, true).in_flight.contains(c),
{
    lemma_fresh_in_order(s.visited, cs);
}

/// When the filter refuses expansion, completing an address admits none of
/// its children: the visited set stays as it was, and only the address itself
/// leaves the in-flight set.
pub proof fn lemma_refusal_admits_no_children(s: CrawlState, a: Seq<char>, cs: Seq<Seq<char>>)
    requires
        s.in_flight.contains(a),
    ensures
        s.complete(a, cs, false).visited == s.visited,
        s.complete(a, cs, false).in_flight == s.in_flight.remove(a),
{
}

/// An address offered twice is admitted once: the second offer changes
/// nothing.
pub proof fn lemma_duplicate_offer_admitted_once(s: CrawlState, a: Seq<char>)
    ensures
        s.enqueue(a).visited.contains(a),
        s.enqueue(a).enqueue(a) == s.enqueue(a),
        !s.visited.contains(a) ==> s.enqueue(a).in_flight == s.in_flight.insert(a),
{
}

/// A run whose input closes before any address arrives is finished at once,
/// with nothing emitted.
pub proof fn lemma_empty_closed_run_finishes()
    ensures
        run(seq![CrawlEvent::Close]).finished(),
        run(seq![CrawlEvent::Close]).emitted.len() == 0,
{
    let e = seq![CrawlEvent::Close];
    assert(e.drop_last() =~= Seq::<CrawlEvent>::empty());
    assert(e.last() == CrawlEvent::Close);
    assert(run(e.drop_last()) == CrawlState::initial());
    assert(run(e) == CrawlState::initial().close());
    assert(run(e).in_flight =~= Set::empty());
}

/// The executable crawl frontier: the visited set, the in-flight set, and
/// whether input has closed. It owns the sole deduplication point of a run.
pub struct Frontier {
    visited: Vec<String>,
    in_flight: Vec<String>,
    input_closed: bool,
    emitted: Ghost<Seq<Seq<char>>>,
}

impl View for Frontier {
    type V = CrawlState;

    closed spec fn view(&self) -> CrawlState {
        CrawlState {
            visited: address_set(self.visited@),
            in_flight: address_set(self.in_flight@),
            emitted: self.emitted@,
            input_closed: self.input_closed,
        }
    }
}

/// The position of `a` in `v`, if it is there.
fn find(v: &Vec<String>, a: &String) -> (r: Option<usize>)
    ensures
        match r {
            Some(i) => i < v@.len() && v@[i as int]@ == a@,
            None => !address_set(v@).contains(a@),
        },
{
    let mut i: usize = 0;
    while i < v.len()
        invariant
            i <= v@.len(),
            forall|j: int| 0 <= j < i ==> (#[trigger] v@[j])@ != a@,
        decreases v@.len() - i,
    {
        if v[i] == *a {
            return Some(i);
        }
        i = i + 1;
    }
    None
}

impl Frontier {
    /// The frontier's invariant: its state is well formed, and its storage
    /// holds each in-flight address once.
    pub open spec fn wf(&self) -> bool {
        &&& self@.wf()
        &&& self.storage_wf()
    }

    /// No address is stored as in flight twice, and each is stored as visited.
    pub closed spec fn storage_wf(&self) -> bool {
        &&& string_views(self.in_flight@).no_duplicates()
        &&& address_set(self.in_flight@).subset_of(address_set(self.visited@))
    }

    /// A frontier for a new run.
    pub fn new() -> (r: Frontier)
        ensures
            r.wf(),
            r@ == CrawlState::initial(),
    {
        let r = Frontier {
            visited: Vec::new(),
            in_flight: Vec::new(),
            input_closed: false,
            emitted: Ghost(Seq::empty()),
        };
        assert(r@.visited =~= Set::empty());
        assert(r@.in_flight =~= Set::empty());
        r
    }

    /// Admission of a candidate address: `true` where it was new, in which case
    /// it is now visited and in flight, and its fetch must be dispatched.
    pub fn enqueue(&mut self, url: String) -> (r: bool)
        requires
            old(self).wf(),
        ensures
            final(self).wf(),
            final(self)@ == old(self)@.enqueue(url@),
            r == !old(self)@.visited.contains(url@),
    {
        proof {
            lemma_steps_keep_wf(self@, url@, Seq::empty(), false);
        }
        match find(&self.visited, &url) {
            Some(i) => {
                assert(address_set(self.visited@).contains(url@)) by {
                    assert(self.visited@[i as int]@ == url@);
                }
                false
            },
            None => {
                assert(!address_set(self.in_flight@).contains(url@));
                proof {
                    lemma_address_set_push(self.visited@, url);
                    lemma_address_set_push(self.in_flight@, url);
                    assert(string_views(self.in_flight@.push(url)) =~= string_views(self.in_flight@).push(url@));
                    assert forall|j: int| 0 <= j < self.in_flight@.len() implies string_views(self.in_flight@)[j] != url@ by {
                        assert(self.in_flight@[j]@ == string_views(self.in_flight@)[j]);
                    }
                }
                self.visited.push(url.clone());
                self.in_flight.push(url);
                true
            },
        }
    }

    /// The fetch of `url` has completed with `children`, and the filter said
    /// `expand` for it. Where `url` is in flight it leaves the in-flight set and
    /// is emitted, and the result holds the children to dispatch: none where
    /// `expand` is false, else those not yet visited, in order, each once.
    /// `None` where `url` was not in flight: nothing changes.
    pub fn complete(&mut self, url: &String, children: Vec<String>, expand: bool) -> (r: Option<Vec<String>>)
        requires
            old(self).wf(),
        ensures
            final(self).wf(),
            final(self)@ == old(self)@.complete(url@, string_views(children@), expand),
            r is None <==> !old(self)@.in_flight.contains(url@),
            match r {
                Some(d) => string_views(d@) == if expand {
                    fresh_in_order(old(self)@.visited, string_views(children@))
                } else {
                    Seq::empty()
                },
                None => true,
            },
    {
        let ghost s0 = self@;
        let ghost cs = string_views(children@);
        proof {
            lemma_steps_keep_wf(s0, url@, cs, expand);
        }
        let i = match find(&self.in_flight, url) {
            Some(i) => i,
            None => {
                return None;
            },
        };
        proof {
            assert(self.in_flight@[i as int]@ == string_views(self.in_flight@)[i as int]);
            lemma_address_set_remove(self.in_flight@, i as int);
            assert(string_views(self.in_flight@.remove(i as int)) =~= string_views(self.in_flight@).remove(i as int));
        }
        self.in_flight.remove(i);
        self.emitted = Ghost(self.emitted@.push(url@));
        let mut dispatched: Vec<String> = Vec::new();
        assert(string_views(dispatched@) =~= fresh_in_order(s0.visited, cs.subrange(0, 0)));
        assert(address_set(self.visited@) =~= s0.visited + cs.subrange(0, 0).to_set());
        if expand {
            let mut k: usize = 0;
            while k < children.len()
                invariant
                    k <= children@.len(),
                    cs == string_views(children@),
                    s0.wf(),
                    s0.in_flight.contains(url@),
                    self.emitted@ == s0.emitted.push(url@),
                    self.input_closed == s0.input_closed,
                    address_set(self.visited@) == s0.visited + cs.subrange(0, k as int).to_set(),
                    string_views(dispatched@) == fresh_in_order(s0.visited, cs.subrange(0, k as int)),
                    address_set(self.in_flight@) == s0.in_flight.remove(url@)
                        + fresh_in_order(s0.visited, cs.subrange(0, k as int)).to_set(),
                    string_views(self.in_flight@).no_duplicates(),
                    address_set(self.in_flight@).subset_of(address_set(self.visited@)),
                decreases children@.len() - k,
            {
                let c = children[k].clone();
                let ghost pre = cs.subrange(0, k as int);
                let ghost post = cs.subrange(0, k + 1);
                proof {
                    assert(post.drop_last() =~= pre);
                    assert(post.last() == c@);
                    assert(post =~= pre.push(c@));
                    lemma_push_contains(pre, c@);
                    lemma_fresh_in_order(s0.visited, pre);
                }
                match find(&self.visited, &c) {
                    Some(j) => {
                        proof {
                            assert(self.visited@[j as int]@ == c@);
                            assert(address_set(self.visited@).contains(c@));
                            assert(fresh_in_order(s0.visited, post) == fresh_in_order(s0.visited, pre));
                            assert(s0.visited + post.to_set() =~= s0.visited + pre.to_set());
                        }
                    },
                    None => {
                        proof {
                            assert(!address_set(self.in_flight@).contains(c@));
                            assert(fresh_in_order(s0.visited, post) == fresh_in_order(s0.visited, pre).push(c@));
                            lemma_push_contains(fresh_in_order(s0.visited, pre), c@);
                            lemma_address_set_push(self.visited@, c);
                            lemma_address_set_push(self.in_flight@, c);
                            assert(s0.visited + post.to_set() =~= (s0.visited + pre.to_set()).insert(c@));
                            assert(s0.in_flight.remove(url@) + fresh_in_order(s0.visited, post).to_set()
                                =~= (s0.in_flight.remove(url@) + fresh_in_order(s0.visited, pre).to_set()).insert(c@));
                            assert(string_views(self.in_flight@.push(c)) =~= string_views(self.in_flight@).push(c@));
                            assert(string_views(dispatched@.push(c)) =~= string_views(dispatched@).push(c@));
                            assert forall|j: int| 0 <= j < self.in_flight@.len() implies string_views(self.in_flight@)[j] != c@ by {
                                assert(self.in_flight@[j]@ == string_views(self.in_flight@)[j]);
                            }
                        }
                        self.visited.push(c.clone());
                        self.in_flight.push(c.clone());
                        dispatched.push(c);
                    },
                }
                k = k + 1;
            }
            proof {
                assert(cs.subrange(0, cs.len() as int) =~= cs);
            }
        } else {
            proof {
                assert(s0.visited + cs.subrange(0, 0).to_set() =~= s0.visited);
                assert(fresh_in_order(s0.visited, cs.subrange(0, 0)) =~= Seq::empty());
            }
        }
        assert(self@ =~= s0.complete(url@, cs, expand));
        Some(dispatched)
    }

    /// All producers have closed the input.
    pub fn close_input(&mut self)
        requires
            old(self).wf(),
        ensures
            final(self).wf(),
            final(self)@ == old(self)@.close(),
    {
        proof {
            lemma_steps_keep_wf(self@, Seq::empty(), Seq::empty(), false);
        }
        self.input_closed = true;
    }

    /// Whether the run has ended: input closed and nothing in flight.
    pub fn is_finished(&self) -> (r: bool)
        ensures
            r == self@.finished(),
    {
        if self.input_closed && self.in_flight.len() == 0 {
            assert(self@.in_flight =~= Set::empty());
            true
        } else {
            if self.in_flight.len() > 0 {
                assert(self@.in_flight.contains(self.in_flight@[0]@));
            }
            false
        }
    }
}

} // verus!
