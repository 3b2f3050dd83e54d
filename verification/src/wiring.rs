use vstd::prelude::*;

use crate::text::{cat3, views};

verus! {

/// The largest edit distance at which a registered name is taken to be a
/// misspelling of a requested one.
pub const MISSPELLING_THRESHOLD: usize = 3;

/// The Levenshtein distance between two character sequences: the fewest
/// single-character insertions, deletions and substitutions that turn `a`
/// into `b`, by the usual recurrence on the last characters.
pub open spec fn levenshtein_distance(a: Seq<char>, b: Seq<char>) -> nat
    decreases a.len() + b.len(),
{
    if a.len() == 0 {
        b.len()
    } else if b.len() == 0 {
        a.len()
    } else {
        let delete = levenshtein_distance(a.drop_last(), b) + 1;
        let insert = levenshtein_distance(a, b.drop_last()) + 1;
        let substitute = levenshtein_distance(a.drop_last(), b.drop_last()) + if a.last()
            == b.last() {
            0nat
        } else {
            1nat
        };
        if delete <= insert && delete <= substitute {
            delete
        } else if insert <= substitute {
            insert
        } else {
            substitute
        }
    }
}

/// The Levenshtein distance as a machine integer.
pub open spec fn distance(a: Seq<char>, b: Seq<char>) -> usize {
    levenshtein_distance(a, b) as usize
}

/// Calls `strsim::levenshtein`, which returns the Levenshtein distance of
/// the two strings, counted over their characters.
#[verifier::external_body]
fn levenshtein(a: &str, b: &str) -> (d: usize)
    ensures
        d == levenshtein_distance(a@, b@),
{
    strsim::levenshtein(a, b)
}

/// Candidate `i` is the best match: it is within the threshold, no
/// candidate within the threshold is closer, and every earlier candidate is
/// farther away.
pub open spec fn is_best_match(dist: Seq<usize>, i: int) -> bool {
    &&& 0 <= i < dist.len()
    &&& dist[i] <= MISSPELLING_THRESHOLD
    &&& forall|j: int|
        0 <= j < dist.len() && dist[j] <= MISSPELLING_THRESHOLD ==> dist[i] <= #[trigger] dist[j]
    &&& forall|j: int| 0 <= j < i ==> dist[i] < #[trigger] dist[j]
}

/// Some candidate is within the threshold.
pub open spec fn any_within(dist: Seq<usize>) -> bool {
    exists|j: int| 0 <= j < dist.len() && #[trigger] dist[j] <= MISSPELLING_THRESHOLD
}

/// The distance from `needle` to every candidate, in order.
pub open spec fn distances(names: Seq<String>, needle: Seq<char>) -> Seq<usize> {
    Seq::new(names.len(), |i: int| distance(needle, names[i]@))
}

/// The position of the best match, if any candidate is within the threshold.
pub open spec fn best_index(dist: Seq<usize>) -> Option<int> {
    if exists|i: int| is_best_match(dist, i) {
        Some(choose|i: int| is_best_match(dist, i))
    } else {
        None
    }
}

/// The registered name that `needle` most likely misspells.
pub open spec fn best_match(names: Seq<String>, needle: Seq<char>) -> Option<String> {
    match best_index(distances(names, needle)) {
        Some(i) => Some(names[i]),
        None => None,
    }
}

/// There is at most one best match, and there is one exactly when some
/// candidate is within the threshold.
pub proof fn lemma_best_match_unique(dist: Seq<usize>, i: int, k: int)
    ensures
        is_best_match(dist, i) && is_best_match(dist, k) ==> i == k,
        (exists|j: int| is_best_match(dist, j)) <==> any_within(dist),
{
    if is_best_match(dist, i) && is_best_match(dist, k) {
        if i < k {
            assert(dist[k] < dist[i]);
        } else if k < i {
            assert(dist[i] < dist[k]);
        }
    }
    if any_within(dist) {
        let w = choose|j: int| 0 <= j < dist.len() && #[trigger] dist[j] <= MISSPELLING_THRESHOLD;
        let b = lemma_first_minimum(dist, w);
        assert(is_best_match(dist, b));
    }
}

/// Given a candidate within the threshold, the first one of least distance
/// is the best match.
proof fn lemma_first_minimum(dist: Seq<usize>, w: int) -> (b: int)
    requires
        0 <= w < dist.len(),
        dist[w] <= MISSPELLING_THRESHOLD,
    ensures
        is_best_match(dist, b),
    decreases dist.len(),
{
    if dist.len() == 1 {
        0
    } else {
        let init = dist.drop_last();
        let last = dist.len() - 1;
        if w == last {
            if exists|j: int| 0 <= j < init.len() && #[trigger] init[j] <= dist[last] {
                let v = choose|j: int| 0 <= j < init.len() && #[trigger] init[j] <= dist[last];
                let b = lemma_first_minimum(init, v);
                assert(init[b] == dist[b]);
                assert forall|j: int| 0 <= j < dist.len() && dist[j] <= MISSPELLING_THRESHOLD implies dist[b]
                    <= #[trigger] dist[j] by {
                    if j < last {
                        assert(init[j] == dist[j]);
                    }
                }
                assert forall|j: int| 0 <= j < b implies dist[b] < #[trigger] dist[j] by {
                    assert(init[j] == dist[j]);
                }
                b
            } else {
                assert forall|j: int| 0 <= j < last implies dist[last] < #[trigger] dist[j] by {
                    assert(init[j] == dist[j]);
                }
                last
            }
        } else {
            assert(init[w] == dist[w]);
            let b = lemma_first_minimum(init, w);
            assert(init[b] == dist[b]);
            if dist[last] < dist[b] {
                assert forall|j: int| 0 <= j < last implies dist[last] < #[trigger] dist[j] by {
                    assert(init[j] == dist[j]);
                    if j < b {
                    } else if init[j] <= MISSPELLING_THRESHOLD {
                    }
                }
                last
            } else {
                assert forall|j: int| 0 <= j < dist.len() && dist[j] <= MISSPELLING_THRESHOLD implies dist[b]
                    <= #[trigger] dist[j] by {
                    if j < last {
                        assert(init[j] == dist[j]);
                    }
                }
                assert forall|j: int| 0 <= j < b implies dist[b] < #[trigger] dist[j] by {
                    assert(init[j] == dist[j]);
                }
                b
            }
        }
    }
}

/// The candidate whose distance is least, the first of them on a tie,
/// among those within the threshold; `None` where none is within it.
pub fn best_match_from_distances(candidates: &Vec<String>, distances: &Vec<usize>) -> (r: Option<
    String,
>)
    requires
        candidates@.len() == distances@.len(),
    ensures
        r is None <==> !any_within(distances@),
        r matches Some(s) ==> exists|i: int| is_best_match(distances@, i) && s == candidates@[i],
{
    let n = distances.len();
    let mut best: Option<usize> = None;
    for i in 0..n
        invariant
            n == distances@.len(),
            best is None <==> !any_within(distances@.take(i as int)),
            best matches Some(b) ==> b < i && is_best_match(distances@.take(i as int), b as int),
    {
        let d = distances[i];
        let ghost prev = distances@.take(i as int);
        let ghost next = distances@.take(i + 1);
        assert(next.drop_last() =~= prev);
        if d <= MISSPELLING_THRESHOLD {
            match best {
                Some(b) => {
                    if d < distances[b] {
                        best = Some(i);
                        assert forall|j: int| 0 <= j < i implies next[i as int] < #[trigger] next[j] by {
                            assert(prev[j] == next[j]);
                            if prev[j] <= MISSPELLING_THRESHOLD {
                                assert(prev[b as int] <= prev[j]);
                            } else {
                            }
                        }
                    } else {
                        assert forall|j: int| 0 <= j < next.len() && next[j] <= MISSPELLING_THRESHOLD implies next[b as int]
                            <= #[trigger] next[j] by {
                            if j < i {
                                assert(prev[j] == next[j]);
                            }
                        }
                        assert forall|j: int| 0 <= j < b implies next[b as int] < #[trigger] next[j] by {
                            assert(prev[j] == next[j]);
                        }
                    }
                },
                None => {
                    best = Some(i);
                    assert forall|j: int| 0 <= j < i implies next[i as int] < #[trigger] next[j] by {
                        assert(prev[j] == next[j]);
                        if next[j] <= MISSPELLING_THRESHOLD {
                            assert(any_within(prev));
                        }
                    }
                },
            }
            assert(next[i as int] == d);
            assert(any_within(next));
        } else {
            match best {
                Some(b) => {
                    assert forall|j: int| 0 <= j < next.len() && next[j] <= MISSPELLING_THRESHOLD implies next[b as int]
                        <= #[trigger] next[j] by {
                        assert(prev[j] == next[j]);
                    }
                    assert forall|j: int| 0 <= j < b implies next[b as int] < #[trigger] next[j] by {
                        assert(prev[j] == next[j]);
                    }
                    assert(prev[b as int] <= MISSPELLING_THRESHOLD);
                    assert(any_within(next));
                },
                None => {
                    proof {
                        if any_within(next) {
                            let j = choose|j: int|
                                0 <= j < next.len() && #[trigger] next[j] <= MISSPELLING_THRESHOLD;
                            assert(prev[j] == next[j]);
                        }
                    }
                },
            }
        }
    }
    assert(distances@.take(n as int) =~= distances@);
    match best {
        Some(b) => Some(candidates[b].clone()),
        None => None,
    }
}

/// The registered name that `needle` most likely misspells: the one at the
/// least edit distance, the first of them on a tie, provided that distance
/// is at most the threshold.
pub fn get_best_dependency_match(dependencies: &Vec<String>, needle: &str) -> (r: Option<String>)
    ensures
        r == best_match(dependencies@, needle@),
{
    let n = dependencies.len();
    let mut dist: Vec<usize> = Vec::new();
    for i in 0..n
        invariant
            n == dependencies@.len(),
            dist@ == distances(dependencies@, needle@).take(i as int),
    {
        let d = levenshtein(needle, dependencies[i].as_str());
        dist.push(d);
        assert(dist@ =~= distances(dependencies@, needle@).take(i + 1));
    }
    assert(dist@ =~= distances(dependencies@, needle@));
    let r = best_match_from_distances(dependencies, &dist);
    proof {
        let ds = distances(dependencies@, needle@);
        if r is Some {
            {
                let s = r->0;
                let i = choose|i: int| is_best_match(ds, i) && s == dependencies@[i];
                let k = choose|k: int| is_best_match(ds, k);
                lemma_best_match_unique(ds, i, k);
            }
        } else {
            lemma_best_match_unique(ds, 0, 0);
        }
    }
    r
}


/// A requested dependency that is not registered, with the registered name
/// it most likely misspells.
#[derive(Debug, PartialEq, Eq)]
pub struct WiringError {
    pub requested: String,
    pub best_match: Option<String>,
}

/// What is reported for an unregistered request.
pub open spec fn missing_error(registered: Seq<String>, requested: String) -> WiringError {
    WiringError { requested, best_match: best_match(registered, requested@) }
}

/// `name` is one of the registered names.
pub open spec fn is_registered(registered: Seq<String>, name: Seq<char>) -> bool {
    views(registered).contains(name)
}

/// A compile error to report: its message at the requested name, and a
/// hint, placed at the best match where `hint_at_best_match` holds.
#[derive(Debug, PartialEq, Eq)]
pub struct Diagnostic {
    pub message: String,
    pub hint: String,
    pub hint_at_best_match: bool,
}

/// The diagnostic for an unregistered request.
pub open spec fn diagnostic_for(e: WiringError) -> (Seq<char>, Seq<char>, bool) {
    match e.best_match {
        Some(m) => (
            "The '"@ + e.requested@ + "' dependency has not been registered"@,
            "Did you mean `"@ + m@ + "`?"@,
            true,
        ),
        None => (
            "Dependency not found. Did you forget to add it?"@,
            "Try adding it with `fn "@ + e.requested@ + "(&self) ...`"@,
            false,
        ),
    }
}

/// The errors for one dependency's requests: one per unregistered name, in
/// order.
pub open spec fn dependency_errors(registered: Seq<String>, requested: Seq<String>) -> Seq<
    WiringError,
> {
    requested.filter(|r: String| !is_registered(registered, r@)).map_values(
        |r: String| missing_error(registered, r),
    )
}

/// The errors for a container's requests, dependency by dependency.
pub open spec fn container_errors(registered: Seq<String>, requests: Seq<Vec<String>>) -> Seq<
    WiringError,
>
    decreases requests.len(),
{
    if requests.len() == 0 {
        Seq::empty()
    } else {
        container_errors(registered, requests.drop_last()) + dependency_errors(
            registered,
            requests.last()@,
        )
    }
}

/// Every requested name, of every dependency, is registered.
pub open spec fn all_registered(registered: Seq<String>, requests: Seq<Vec<String>>) -> bool {
    forall|i: int, j: int|
        0 <= i < requests.len() && 0 <= j < requests[i]@.len() ==> is_registered(
            registered,
            (#[trigger] requests[i]@[j])@,
        )
}

/// Requests of registered names record no error: visiting any sequence of
/// dependencies whose requests are all registered leaves nothing to report.
pub proof fn lemma_registered_requests_record_nothing(
    registered: Seq<String>,
    requests: Seq<Vec<String>>,
)
    requires
        all_registered(registered, requests),
    ensures
        container_errors(registered, requests) == Seq::<WiringError>::empty(),
    decreases requests.len(),
{
    if requests.len() > 0 {
        let init = requests.drop_last();
        assert forall|i: int, j: int|
            0 <= i < init.len() && 0 <= j < init[i]@.len() implies is_registered(
            registered,
            (#[trigger] init[i]@[j])@,
        ) by {
            assert(init[i] == requests[i]);
        }
        lemma_registered_requests_record_nothing(registered, init);
        let last = requests.last()@;
        let pred = |r: String| !is_registered(registered, r@);
        assert forall|j: int| 0 <= j < last.len() implies !pred(last[j]) by {
            assert(requests[requests.len() - 1]@[j] == last[j]);
        }
        lemma_filter_none(last, pred);
        assert(dependency_errors(registered, last) =~= Seq::<WiringError>::empty());
        assert(container_errors(registered, requests) =~= Seq::<WiringError>::empty());
    }
}

proof fn lemma_filter_none(s: Seq<String>, pred: spec_fn(String) -> bool)
    requires
        forall|j: int| 0 <= j < s.len() ==> !pred(#[trigger] s[j]),
    ensures
        s.filter(pred).len() == 0,
    decreases s.len(),
{
    reveal(Seq::filter);
    if s.len() > 0 {
        let init = s.drop_last();
        assert forall|j: int| 0 <= j < init.len() implies !pred(#[trigger] init[j]) by {
            assert(init[j] == s[j]);
        }
        lemma_filter_none(init, pred);
        assert(!pred(s[s.len() - 1]));
    }
}

/// A new visitor that is then shown only registered names has nothing to
/// report, whatever the order and number of visits.
pub proof fn lemma_no_diagnostics_for_registered(
    v: WiringVisitor,
    after: WiringVisitor,
    requests: Seq<Vec<String>>,
)
    requires
        v.recorded() == Seq::<WiringError>::empty(),
        after.registered() == v.registered(),
        after.recorded() == v.recorded() + container_errors(v.registered(), requests),
        all_registered(v.registered(), requests),
    ensures
        after.recorded() == Seq::<WiringError>::empty(),
{
    lemma_registered_requests_record_nothing(v.registered(), requests);
    assert(after.recorded() =~= Seq::<WiringError>::empty());
}

/// Checks that every requested dependency has been registered on the
/// container, and records an error for each one that has not.
pub struct WiringVisitor {
    dependencies: Vec<String>,
    errors: Vec<WiringError>,
}

impl WiringVisitor {
    /// The registered names.
    pub closed spec fn registered(&self) -> Seq<String> {
        self.dependencies@
    }

    /// The errors recorded so far, in the order the requests were visited.
    pub closed spec fn recorded(&self) -> Seq<WiringError> {
        self.errors@
    }

    /// A visitor for a container on which `dependencies` are registered,
    /// with no error recorded yet.
    pub fn new(dependencies: Vec<String>) -> (r: WiringVisitor)
        ensures
            r.registered() == dependencies@,
            r.recorded() == Seq::<WiringError>::empty(),
    {
        WiringVisitor { dependencies, errors: Vec::new() }
    }

    /// The errors recorded so far.
    pub fn errors(&self) -> (r: &Vec<WiringError>)
        ensures
            r@ == self.recorded(),
    {
        &self.errors
    }

    /// Whether `name` is registered.
    fn is_registered(&self, name: &String) -> (r: bool)
        ensures
            r == is_registered(self.registered(), name@),
    {
        let n = self.dependencies.len();
        for i in 0..n
            invariant
                n == self.dependencies@.len(),
                forall|j: int| 0 <= j < i ==> self.dependencies@[j]@ != name@,
        {
            if self.dependencies[i] == *name {
                assert(views(self.dependencies@)[i as int] == name@);
                return true;
            }
        }
        assert(!views(self.dependencies@).contains(name@)) by {
            if views(self.dependencies@).contains(name@) {
                let j = choose|j: int|
                    0 <= j < views(self.dependencies@).len() && views(self.dependencies@)[j]
                        == name@;
                assert(self.dependencies@[j]@ == name@);
            }
        }
        false
    }

    /// Visits a requested dependency: records an error, with the most
    /// likely misspelled registration, where it is not registered. A request
    /// is a name and holds no requests of its own, so nothing lies below it;
    /// `visit_container` walks every request of every dependency.
    pub fn visit_child_dependency(&mut self, requested: &String)
        ensures
            final(self).registered() == old(self).registered(),
            final(self).recorded() == if is_registered(old(self).registered(), requested@) {
                old(self).recorded()
            } else {
                old(self).recorded().push(missing_error(old(self).registered(), *requested))
            },
    {
        if !self.is_registered(requested) {
            let best_match = get_best_dependency_match(&self.dependencies, requested.as_str());
            self.errors.push(WiringError { requested: requested.clone(), best_match });
        }
    }

    /// Visits the dependencies requested by one registered dependency, in order.
    pub fn visit_dependency(&mut self, requested: &Vec<String>)
        ensures
            final(self).registered() == old(self).registered(),
            final(self).recorded() == old(self).recorded() + dependency_errors(
                old(self).registered(),
                requested@,
            ),
    {
        let ghost reg = self.registered();
        let ghost start = self.recorded();
        let ghost pred = |r: String| !is_registered(reg, r@);
        let ghost mk = |r: String| missing_error(reg, r);
        let n = requested.len();
        for i in 0..n
            invariant
                n == requested@.len(),
                self.registered() == reg,
                pred == (|r: String| !is_registered(reg, r@)),
                mk == (|r: String| missing_error(reg, r)),
                self.recorded() == start + requested@.take(i as int).filter(pred).map_values(mk),
        {
            proof {
                reveal(Seq::filter);
                assert(requested@.take(i + 1).drop_last() =~= requested@.take(i as int));
            }
            self.visit_child_dependency(&requested[i]);
            proof {
                let t = requested@.take(i + 1);
                assert(t.last() == requested@[i as int]);
                assert(self.recorded() =~= start + t.filter(pred).map_values(mk));
            }
        }
        assert(requested@.take(n as int) =~= requested@);
    }

    /// Visits every dependency of a container, in order, with the names that
    /// each one requests.
    pub fn visit_container(&mut self, requests: &Vec<Vec<String>>)
        ensures
            final(self).registered() == old(self).registered(),
            final(self).recorded() == old(self).recorded() + container_errors(
                old(self).registered(),
                requests@,
            ),
    {
        let ghost reg = self.registered();
        let ghost start = self.recorded();
        let n = requests.len();
        for i in 0..n
            invariant
                n == requests@.len(),
                self.registered() == reg,
                self.recorded() == start + container_errors(reg, requests@.take(i as int)),
        {
            self.visit_dependency(&requests[i]);
            proof {
                let t = requests@.take(i + 1);
                assert(t.drop_last() =~= requests@.take(i as int));
                assert(t.last() == requests@[i as int]);
                assert(self.recorded() =~= start + container_errors(reg, t));
            }
        }
        assert(requests@.take(n as int) =~= requests@);
    }

    /// The diagnostics to report, one per recorded error, in order.
    pub fn diagnostics(&self) -> (r: Vec<Diagnostic>)
        ensures
            r@.len() == self.recorded().len(),
            forall|i: int|
                0 <= i < r@.len() ==> diagnostic_for(self.recorded()[i]) == (
                    (#[trigger] r@[i]).message@,
                    r@[i].hint@,
                    r@[i].hint_at_best_match,
                ),
    {
        let mut r: Vec<Diagnostic> = Vec::new();
        let n = self.errors.len();
        for i in 0..n
            invariant
                n == self.errors@.len(),
                r@.len() == i,
                forall|k: int|
                    0 <= k < i ==> diagnostic_for(self.errors@[k]) == (
                        (#[trigger] r@[k]).message@,
                        r@[k].hint@,
                        r@[k].hint_at_best_match,
                    ),
        {
            let e = &self.errors[i];
            let d = match &e.best_match {
                Some(m) => Diagnostic {
                    message: cat3(
                        "The '",
                        e.requested.as_str(),
                        "' dependency has not been registered",
                    ),
                    hint: cat3("Did you mean `", m.as_str(), "`?"),
                    hint_at_best_match: true,
                },
                None => Diagnostic {
                    message: String::from_str("Dependency not found. Did you forget to add it?"),
                    hint: cat3("Try adding it with `fn ", e.requested.as_str(), "(&self) ...`"),
                    hint_at_best_match: false,
                },
            };
            r.push(d);
        }
        r
    }
}


/// The suggested name is a registered one within the threshold, and no
/// registered name is closer to the request; nothing is suggested exactly
/// when every registered name is farther than the threshold.
pub proof fn lemma_best_match_properties(names: Seq<String>, needle: Seq<char>)
    ensures
        best_match(names, needle) is None <==> forall|j: int|
            0 <= j < names.len() ==> distance(needle, #[trigger] names[j]@)
                > MISSPELLING_THRESHOLD,
        best_match(names, needle) matches Some(m) ==> exists|i: int|
            {
                &&& 0 <= i < names.len()
                &&& names[i] == m
                &&& distance(needle, names[i]@) <= MISSPELLING_THRESHOLD
                &&& forall|j: int|
                    0 <= j < names.len() ==> distance(needle, names[i]@)
                        <= distance(needle, #[trigger] names[j]@)
            },
{
    let dist = distances(names, needle);
    lemma_best_match_unique(dist, 0, 0);
    if any_within(dist) {
        let i = choose|i: int| is_best_match(dist, i);
        assert(dist[i] == distance(needle, names[i]@));
        assert forall|j: int| 0 <= j < names.len() implies distance(needle, names[i]@)
            <= distance(needle, #[trigger] names[j]@) by {
            assert(dist[j] == distance(needle, names[j]@));
        }
    } else {
        assert forall|j: int| 0 <= j < names.len() implies distance(
            needle,
            #[trigger] names[j]@,
        ) > MISSPELLING_THRESHOLD by {
            assert(dist[j] == distance(needle, names[j]@));
        }
    }
    if forall|j: int|
        0 <= j < names.len() ==> distance(needle, #[trigger] names[j]@)
            > MISSPELLING_THRESHOLD {
        if any_within(dist) {
            let j = choose|j: int| 0 <= j < dist.len() && #[trigger] dist[j] <= MISSPELLING_THRESHOLD;
            assert(distance(needle, names[j]@) > MISSPELLING_THRESHOLD);
        }
    }
}


/// The errors for one dependency's requests, request by request: none for
/// no requests, and one more request adds its error exactly when its name
/// is not registered.
pub proof fn lemma_dependency_errors_step(registered: Seq<String>, requested: Seq<String>, r: String)
    ensures
        dependency_errors(registered, Seq::<String>::empty()) == Seq::<WiringError>::empty(),
        dependency_errors(registered, requested.push(r)) == dependency_errors(registered, requested)
            + if is_registered(registered, r@) {
            Seq::<WiringError>::empty()
        } else {
            seq![WiringError { requested: r, best_match: best_match(registered, r@) }]
        },
{
    reveal(Seq::filter);
    let pred = |x: String| !is_registered(registered, x@);
    let mk = |x: String| missing_error(registered, x);
    assert(Seq::<String>::empty().filter(pred) =~= Seq::<String>::empty());
    assert(dependency_errors(registered, Seq::<String>::empty()) =~= Seq::<WiringError>::empty());
    assert(requested.push(r).drop_last() =~= requested);
    if is_registered(registered, r@) {
        assert(requested.push(r).filter(pred) == requested.filter(pred));
        assert(dependency_errors(registered, requested.push(r)) =~= dependency_errors(
            registered,
            requested,
        ) + Seq::<WiringError>::empty());
    } else {
        assert(requested.push(r).filter(pred) == requested.filter(pred).push(r));
        assert(dependency_errors(registered, requested.push(r)) =~= dependency_errors(
            registered,
            requested,
        ) + seq![WiringError { requested: r, best_match: best_match(registered, r@) }]);
    }
}

/// The errors of a container visit, dependency by dependency, the first
/// one included: none for no dependencies, one dependency gives exactly its
/// own errors, and one more dependency appends its errors.
pub proof fn lemma_container_errors_step(
    registered: Seq<String>,
    requests: Seq<Vec<String>>,
    r: Vec<String>,
)
    ensures
        container_errors(registered, Seq::<Vec<String>>::empty()) == Seq::<WiringError>::empty(),
        container_errors(registered, seq![r]) == dependency_errors(registered, r@),
        container_errors(registered, requests.push(r)) == container_errors(registered, requests)
            + dependency_errors(registered, r@),
{
    assert(requests.push(r).drop_last() =~= requests);
    assert(seq![r].drop_last() =~= Seq::<Vec<String>>::empty());
    assert(seq![r].last() == r);
    assert(seq![r].len() == 1);
    assert(container_errors(registered, Seq::<Vec<String>>::empty()) =~= Seq::<WiringError>::empty());
    assert(container_errors(registered, seq![r]) =~= Seq::<WiringError>::empty()
        + dependency_errors(registered, r@));
}

} // verus!
