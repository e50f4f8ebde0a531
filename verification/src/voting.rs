//! Majority voting over projected answers: flat voting, hierarchical
//! (level by level) voting over tuples, and the vote counts reported
//! with the winner.

use rand::Rng;
use vstd::prelude::*;

verus! {

/// A response reduced to what is voted on: one optional answer, or a
/// tuple of optional answers (one per extraction pattern or per voting level).
#[derive(Debug, Clone, PartialEq, Eq)]
pub enum ProjectedValue {
    Single(Option<String>),
    Tuple(Vec<Option<String>>),
}

/// The mathematical value of a [`ProjectedValue`].
pub enum ProjectedView {
    Single(Option<Seq<char>>),
    Tuple(Seq<Option<Seq<char>>>),
}

/// The view of an optional string.
pub open spec fn opt_view(o: Option<String>) -> Option<Seq<char>> {
    match o {
        Some(s) => Some(s@),
        None => None,
    }
}

/// The views of a sequence of optional strings.
pub open spec fn opts_view(s: Seq<Option<String>>) -> Seq<Option<Seq<char>>> {
    s.map_values(|o: Option<String>| opt_view(o))
}

impl View for ProjectedValue {
    type V = ProjectedView;

    open spec fn view(&self) -> ProjectedView {
        match self {
            ProjectedValue::Single(o) => ProjectedView::Single(opt_view(*o)),
            ProjectedValue::Tuple(t) => ProjectedView::Tuple(opts_view(t@)),
        }
    }
}

/// How tool-call responses are reduced before voting.
#[derive(Debug, Clone, PartialEq, Eq)]
pub enum ToolVoteStrategy {
    /// Vote on the called function's name.
    Name,
    /// Vote on the sorted `key=value` pairs of the arguments, without the excluded keys.
    Args { exclude: Vec<String> },
    /// Vote on the name first, then on the canonical arguments.
    Hierarchical { exclude: Vec<String> },
}

/// The views of a sequence of projected values.
pub open spec fn views(values: Seq<ProjectedValue>) -> Seq<ProjectedView> {
    values.map_values(|v: ProjectedValue| v@)
}

/// The number of occurrences of `v` in `s`.
pub open spec fn count_of<T>(s: Seq<T>, v: T) -> nat
    decreases s.len(),
{
    if s.len() == 0 {
        0
    } else {
        count_of(s.drop_last(), v) + (if s.last() == v {
            1nat
        } else {
            0nat
        })
    }
}

/// Position `p` of `s` holds a most common value of `s`.
pub open spec fn is_mode<T>(s: Seq<T>, p: int) -> bool {
    &&& 0 <= p < s.len()
    &&& forall|q: int| 0 <= q < s.len() ==> count_of(s, #[trigger] s[q]) <= count_of(s, s[p])
}

/// The positions below `n` that hold a most common value of `s`, in increasing order.
pub open spec fn mode_positions<T>(s: Seq<T>, n: int) -> Seq<int>
    decreases n,
{
    if n <= 0 {
        Seq::empty()
    } else if is_mode(s, n - 1) {
        mode_positions(s, n - 1).push(n - 1)
    } else {
        mode_positions(s, n - 1)
    }
}

/// Counting occurrences is bounded by the length.
pub proof fn lemma_count_bound<T>(s: Seq<T>, v: T)
    ensures
        count_of(s, v) <= s.len(),
    decreases s.len(),
{
    if s.len() > 0 {
        lemma_count_bound(s.drop_last(), v);
    }
}

/// A value that occurs in `s` is counted at least once.
pub proof fn lemma_count_positive<T>(s: Seq<T>, p: int)
    requires
        0 <= p < s.len(),
    ensures
        count_of(s, s[p]) >= 1,
    decreases s.len(),
{
    if p < s.len() - 1 {
        lemma_count_positive(s.drop_last(), p);
        assert(s.drop_last()[p] == s[p]);
    }
}

/// A value that does not occur in `s` has count zero.
pub proof fn lemma_count_absent<T>(s: Seq<T>, v: T)
    requires
        forall|i: int| 0 <= i < s.len() ==> s[i] != v,
    ensures
        count_of(s, v) == 0,
    decreases s.len(),
{
    if s.len() > 0 {
        lemma_count_absent(s.drop_last(), v);
    }
}

/// Two different values occur together at most once per position.
pub proof fn lemma_count_pair<T>(s: Seq<T>, a: T, b: T)
    requires
        a != b,
    ensures
        count_of(s, a) + count_of(s, b) <= s.len(),
    decreases s.len(),
{
    if s.len() > 0 {
        lemma_count_pair(s.drop_last(), a, b);
    }
}

/// A value that is counted occurs somewhere.
pub proof fn lemma_count_witness<T>(s: Seq<T>, v: T)
    requires
        count_of(s, v) > 0,
    ensures
        exists|q: int| 0 <= q < s.len() && s[q] == v,
{
    if forall|q: int| 0 <= q < s.len() ==> s[q] != v {
        lemma_count_absent(s, v);
    }
}

/// A strict majority wins: when a value occurs at more than half of the
/// positions, every position that holds a most common value holds it.
pub proof fn law_majority_wins<T>(s: Seq<T>, w: T, p: int)
    requires
        is_mode(s, p),
        2 * count_of(s, w) > s.len(),
    ensures
        s[p] == w,
{
    if s[p] != w {
        lemma_count_witness(s, w);
        let q = choose|q: int| 0 <= q < s.len() && s[q] == w;
        assert(count_of(s, s[q]) <= count_of(s, s[p]));
        lemma_count_pair(s, s[p], w);
    }
}

/// Membership in `mode_positions` is exactly being a mode position below `n`.
pub proof fn lemma_mode_positions<T>(s: Seq<T>, n: int)
    ensures
        forall|x: int| mode_positions(s, n).contains(x) <==> (0 <= x < n && is_mode(s, x)),
        forall|k: int| 0 <= k < mode_positions(s, n).len() ==> 0 <= #[trigger] mode_positions(s, n)[k] < n,
        forall|k1: int, k2: int|
            0 <= k1 < k2 < mode_positions(s, n).len() ==> mode_positions(s, n)[k1] < mode_positions(s, n)[k2],
    decreases n,
{
    if n > 0 {
        lemma_mode_positions(s, n - 1);
        let prev = mode_positions(s, n - 1);
        if is_mode(s, n - 1) {
            assert forall|x: int| mode_positions(s, n).contains(x) <==> (0 <= x < n && is_mode(s, x)) by {
                if x == n - 1 {
                    assert(prev.push(n - 1)[prev.len() as int] == x);
                } else if mode_positions(s, n).contains(x) {
                    let k = choose|k: int| 0 <= k < prev.push(n - 1).len() && #[trigger] prev.push(n - 1)[k] == x;
                    assert(k < prev.len());
                    assert(prev.contains(x));
                } else if 0 <= x < n && is_mode(s, x) {
                    let k = choose|k: int| 0 <= k < prev.len() && #[trigger] prev[k] == x;
                    assert(prev.push(n - 1)[k] == x);
                }
            }
        }
    }
}

/// Among the first `n` positions of `s` one holds a value counted at least
/// as often as each of the others.
proof fn lemma_best_prefix<T>(s: Seq<T>, n: int) -> (best: int)
    requires
        1 <= n <= s.len(),
    ensures
        0 <= best < n,
        forall|q: int| 0 <= q < n ==> count_of(s, #[trigger] s[q]) <= count_of(s, s[best]),
    decreases n,
{
    if n == 1 {
        0
    } else {
        let b = lemma_best_prefix(s, n - 1);
        if count_of(s, s[n - 1]) > count_of(s, s[b]) {
            n - 1
        } else {
            b
        }
    }
}

/// A non-empty sequence has a mode position.
pub proof fn lemma_mode_exists<T>(s: Seq<T>)
    requires
        s.len() > 0,
    ensures
        exists|p: int| is_mode(s, p),
{
    let best = lemma_best_prefix(s, s.len() as int);
    assert(is_mode(s, best));
}

/// A non-empty sequence has a non-empty list of mode positions.
pub proof fn lemma_mode_positions_nonempty<T>(s: Seq<T>)
    requires
        s.len() > 0,
    ensures
        mode_positions(s, s.len() as int).len() > 0,
{
    lemma_mode_exists(s);
    let p = choose|p: int| is_mode(s, p);
    lemma_mode_positions(s, s.len() as int);
    assert(mode_positions(s, s.len() as int).contains(p));
}

/// The view of an optional string, computed.
pub fn opt_equal(a: &Option<String>, b: &Option<String>) -> (r: bool)
    ensures
        r == (opt_view(*a) == opt_view(*b)),
{
    match (a, b) {
        (Some(x), Some(y)) => *x == *y,
        (None, None) => true,
        _ => false,
    }
}

/// Whether two projected values are equal.
pub fn projected_equal(a: &ProjectedValue, b: &ProjectedValue) -> (r: bool)
    ensures
        r == (a@ == b@),
{
    match (a, b) {
        (ProjectedValue::Single(x), ProjectedValue::Single(y)) => opt_equal(x, y),
        (ProjectedValue::Tuple(x), ProjectedValue::Tuple(y)) => {
            if x.len() != y.len() {
                assert(opts_view(x@).len() != opts_view(y@).len());
                return false;
            }
            let mut i: usize = 0;
            while i < x.len()
                invariant
                    i <= x@.len(),
                    x@.len() == y@.len(),
                    a@ == ProjectedView::Tuple(opts_view(x@)),
                    b@ == ProjectedView::Tuple(opts_view(y@)),
                    forall|j: int| 0 <= j < i ==> opt_view(x@[j]) == opt_view(y@[j]),
                decreases x@.len() - i,
            {
                if !opt_equal(&x[i], &y[i]) {
                    assert(opts_view(x@)[i as int] != opts_view(y@)[i as int]);
                    assert(opts_view(x@) != opts_view(y@));
                    return false;
                }
                i = i + 1;
            }
            assert(opts_view(x@) =~= opts_view(y@));
            true
        },
        _ => false,
    }
}

/// A copy of an optional string with the same view.
pub fn copy_opt(o: &Option<String>) -> (r: Option<String>)
    ensures
        opt_view(r) == opt_view(*o),
{
    match o {
        Some(s) => Some(s.clone()),
        None => None,
    }
}

/// A copy of a projected value with the same view.
pub fn copy_projected(v: &ProjectedValue) -> (r: ProjectedValue)
    ensures
        r@ == v@,
{
    match v {
        ProjectedValue::Single(o) => ProjectedValue::Single(copy_opt(o)),
        ProjectedValue::Tuple(t) => {
            let mut out: Vec<Option<String>> = Vec::new();
            let mut i: usize = 0;
            while i < t.len()
                invariant
                    i <= t@.len(),
                    out@.len() == i,
                    forall|j: int| 0 <= j < i ==> opt_view(#[trigger] out@[j]) == opt_view(t@[j]),
                decreases t@.len() - i,
            {
                out.push(copy_opt(&t[i]));
                i = i + 1;
            }
            assert(opts_view(out@) =~= opts_view(t@));
            ProjectedValue::Tuple(out)
        },
    }
}

/// The number of values in `values` equal to `v`.
pub fn count_occurrences(values: &Vec<ProjectedValue>, v: &ProjectedValue) -> (r: usize)
    ensures
        r == count_of(views(values@), v@),
{
    let ghost vs = views(values@);
    let mut r: usize = 0;
    let mut i: usize = 0;
    while i < values.len()
        invariant
            i <= values@.len(),
            vs == views(values@),
            r == count_of(vs.take(i as int), v@),
            r <= i,
        decreases values@.len() - i,
    {
        assert(vs.take(i + 1).drop_last() =~= vs.take(i as int));
        if projected_equal(&values[i], v) {
            r = r + 1;
        }
        i = i + 1;
    }
    assert(vs.take(values@.len() as int) =~= vs);
    r
}

/// The positions of `values` that hold a most common value, in increasing
/// order; non-empty whenever `values` is.
pub fn most_common_indices(values: &Vec<ProjectedValue>) -> (r: Vec<usize>)
    ensures
        r@.map_values(|i: usize| i as int) == mode_positions(views(values@), values@.len() as int),
        values@.len() > 0 ==> r@.len() > 0,
{
    let ghost vs = views(values@);
    let n = values.len();
    let mut counts: Vec<usize> = Vec::new();
    let mut i: usize = 0;
    while i < n
        invariant
            n == values@.len(),
            vs == views(values@),
            i <= n,
            counts@.len() == i,
            forall|j: int| 0 <= j < i ==> #[trigger] counts@[j] == count_of(vs, vs[j]),
        decreases n - i,
    {
        let c = count_occurrences(values, &values[i]);
        counts.push(c);
        i = i + 1;
    }
    let mut best: usize = 0;
    let mut k: usize = 0;
    while k < n
        invariant
            n == values@.len(),
            counts@.len() == n,
            k <= n,
            n > 0 ==> best < n,
            forall|q: int| 0 <= q < k ==> counts@[q] <= counts@[best as int],
        decreases n - k,
    {
        if counts[k] > counts[best] {
            best = k;
        }
        k = k + 1;
    }
    let mut r: Vec<usize> = Vec::new();
    let mut i: usize = 0;
    while i < n
        invariant
            n == values@.len(),
            vs == views(values@),
            counts@.len() == n,
            forall|j: int| 0 <= j < n ==> #[trigger] counts@[j] == count_of(vs, vs[j]),
            n > 0 ==> best < n,
            forall|q: int| 0 <= q < n ==> counts@[q] <= counts@[best as int],
            i <= n,
            r@.map_values(|x: usize| x as int) == mode_positions(vs, i as int),
        decreases n - i,
    {
        let ghost before = r@;
        let is_mode_here = counts[i] == counts[best];
        proof {
            if is_mode_here {
                assert forall|q: int| 0 <= q < vs.len() implies count_of(vs, #[trigger] vs[q]) <= count_of(
                    vs,
                    vs[i as int],
                ) by {
                    assert(counts@[q] == count_of(vs, vs[q]));
                }
                assert(is_mode(vs, i as int));
            } else {
                assert(counts@[best as int] == count_of(vs, vs[best as int]));
                assert(!is_mode(vs, i as int));
            }
        }
        if is_mode_here {
            r.push(i);
            assert(r@.map_values(|x: usize| x as int) =~= before.map_values(|x: usize| x as int).push(
                i as int,
            ));
        }
        i = i + 1;
    }
    proof {
        if n > 0 {
            assert(counts@[best as int] == count_of(vs, vs[best as int]));
            assert(is_mode(vs, best as int)) by {
                assert forall|q: int| 0 <= q < vs.len() implies count_of(vs, #[trigger] vs[q]) <= count_of(
                    vs,
                    vs[best as int],
                ) by {
                    assert(counts@[q] == count_of(vs, vs[q]));
                }
            }
            lemma_mode_positions(vs, n as int);
            assert(mode_positions(vs, n as int).contains(best as int));
            assert(r@.map_values(|x: usize| x as int).len() > 0);
        }
    }
    r
}

/// A uniformly random number below `n` (rand `Rng::gen_range`); nothing is
/// promised of which one beyond the range.
#[verifier::external_body]
fn random_below(n: usize) -> (r: usize)
    requires
        n > 0,
    ensures
        r < n,
{
    rand::thread_rng().gen_range(0..n)
}


/// Vote counts: each distinct projected value with the number of responses
/// that projected to it, in order of first occurrence.
pub struct VoteCounts {
    keys: Vec<ProjectedValue>,
    counts: Vec<usize>,
}

/// No value occurs twice in `s`.
pub open spec fn all_distinct<T>(s: Seq<T>) -> bool {
    forall|i: int, j: int| 0 <= i < s.len() && 0 <= j < s.len() && i != j ==> s[i] != s[j]
}

impl VoteCounts {
    #[verifier::type_invariant]
    spec fn well_formed(self) -> bool {
        &&& self.keys@.len() == self.counts@.len()
        &&& all_distinct(views(self.keys@))
    }

    /// The distinct values that were counted, in order of first occurrence.
    pub closed spec fn key_views(self) -> Seq<ProjectedView> {
        views(self.keys@)
    }

    /// The count recorded for each key, by position.
    pub closed spec fn count_seq(self) -> Seq<usize> {
        self.counts@
    }

    /// The number of votes recorded for `v` (zero when `v` was not seen).
    pub closed spec fn count_for(self, v: ProjectedView) -> nat {
        if exists|i: int| 0 <= i < self.keys@.len() && #[trigger] self.keys@[i]@ == v {
            self.counts@[choose|i: int| 0 <= i < self.keys@.len() && #[trigger] self.keys@[i]@ == v] as nat
        } else {
            0
        }
    }

    /// The number of votes recorded for `v`.
    pub fn get(&self, v: &ProjectedValue) -> (r: usize)
        ensures
            r == self.count_for(v@),
    {
        proof {
            use_type_invariant(self);
        }
        let mut i: usize = 0;
        while i < self.keys.len()
            invariant
                i <= self.keys@.len(),
                self.keys@.len() == self.counts@.len(),
                all_distinct(views(self.keys@)),
                forall|j: int| 0 <= j < i ==> #[trigger] self.keys@[j]@ != v@,
            decreases self.keys@.len() - i,
        {
            if projected_equal(&self.keys[i], v) {
                proof {
                    let k = choose|k: int| 0 <= k < self.keys@.len() && #[trigger] self.keys@[k]@ == v@;
                    if k != i {
                        assert(views(self.keys@)[k] == self.keys@[k]@);
                        assert(views(self.keys@)[i as int] == self.keys@[i as int]@);
                    }
                }
                return self.counts[i];
            }
            i = i + 1;
        }
        0
    }

    /// The number of distinct values counted.
    pub fn len(&self) -> (r: usize)
        ensures
            r == self.key_views().len(),
    {
        self.keys.len()
    }

    /// The distinct values counted, in order of first occurrence.
    pub fn keys(&self) -> (r: &Vec<ProjectedValue>)
        ensures
            views(r@) == self.key_views(),
    {
        &self.keys
    }

    /// The counts, by the position of their key in [`VoteCounts::keys`].
    pub fn counts(&self) -> (r: &Vec<usize>)
        ensures
            r@ == self.count_seq(),
            r@.len() == self.key_views().len(),
    {
        proof {
            use_type_invariant(self);
        }
        &self.counts
    }
}

/// Counts how many times each distinct projected value occurs.
pub fn count_values(values: &Vec<ProjectedValue>) -> (r: VoteCounts)
    ensures
        forall|v: ProjectedView| #[trigger] r.count_for(v) == count_of(views(values@), v),
        all_distinct(r.key_views()),
        forall|k: int| 0 <= k < r.key_views().len() ==> views(values@).contains(#[trigger] r.key_views()[k]),
{
    let ghost vs = views(values@);
    let mut keys: Vec<ProjectedValue> = Vec::new();
    let mut counts: Vec<usize> = Vec::new();
    let mut i: usize = 0;
    while i < values.len()
        invariant
            vs == views(values@),
            i <= values@.len(),
            keys@.len() == counts@.len(),
            all_distinct(views(keys@)),
            forall|j: int| 0 <= j < i ==> views(keys@).contains(#[trigger] vs[j]),
            forall|k: int| 0 <= k < keys@.len() ==> vs.contains(#[trigger] keys@[k]@),
            forall|k: int| 0 <= k < keys@.len() ==> #[trigger] counts@[k] == count_of(vs, keys@[k]@),
        decreases values@.len() - i,
    {
        let mut found = false;
        let mut k: usize = 0;
        while k < keys.len()
            invariant
                k <= keys@.len(),
                i < values@.len(),
                vs == views(values@),
                !found ==> forall|m: int| 0 <= m < k ==> #[trigger] keys@[m]@ != vs[i as int],
                found ==> views(keys@).contains(vs[i as int]),
            decreases keys@.len() - k,
        {
            if projected_equal(&keys[k], &values[i]) {
                found = true;
                assert(views(keys@)[k as int] == vs[i as int]);
            }
            k = k + 1;
        }
        if !found {
            let c = count_occurrences(values, &values[i]);
            let ghost before = keys@;
            keys.push(copy_projected(&values[i]));
            counts.push(c);
            proof {
                assert(views(keys@) =~= views(before).push(vs[i as int]));
                assert forall|a: int, b: int|
                    0 <= a < views(keys@).len() && 0 <= b < views(keys@).len() && a != b implies views(
                    keys@,
                )[a] != views(keys@)[b] by {
                    if a < before.len() && b < before.len() {
                        assert(views(before)[a] != views(before)[b]);
                    } else if a < before.len() {
                        assert(views(before)[a] == before[a]@);
                    } else {
                        assert(views(before)[b] == before[b]@);
                    }
                }
                assert forall|j: int| 0 <= j < i + 1 implies views(keys@).contains(#[trigger] vs[j]) by {
                    if j < i {
                        let m = choose|m: int| 0 <= m < views(before).len() && views(before)[m] == vs[j];
                        assert(views(keys@)[m] == vs[j]);
                    } else {
                        assert(views(keys@)[before.len() as int] == vs[j]);
                    }
                }
                assert(vs[i as int] == values@[i as int]@);
                assert(vs.contains(keys@[before.len() as int]@));
            }
        }
        i = i + 1;
    }
    let r = VoteCounts { keys, counts };
    proof {
        assert forall|v: ProjectedView| #[trigger] r.count_for(v) == count_of(vs, v) by {
            if exists|k: int| 0 <= k < r.keys@.len() && #[trigger] r.keys@[k]@ == v {
                let k = choose|k: int| 0 <= k < r.keys@.len() && #[trigger] r.keys@[k]@ == v;
                assert(r.counts@[k] == count_of(vs, r.keys@[k]@));
            } else {
                assert forall|j: int| 0 <= j < vs.len() implies vs[j] != v by {
                    assert(views(r.keys@).contains(vs[j]));
                    let m = choose|m: int| 0 <= m < views(r.keys@).len() && views(r.keys@)[m] == vs[j];
                    assert(r.keys@[m]@ == vs[j]);
                }
                lemma_count_absent(vs, v);
            }
        }
    }
    r
}

/// Flat majority vote: the counts of every value, and the index of a
/// response whose value is most common, chosen at random among the tied
/// ones.
pub fn select_most_common_or_random(values: &Vec<ProjectedValue>) -> (r: (VoteCounts, usize))
    requires
        values@.len() > 0,
    ensures
        forall|v: ProjectedView| #[trigger] r.0.count_for(v) == count_of(views(values@), v),
        r.1 < values@.len(),
        is_mode(views(values@), r.1 as int),
{
    let counts = count_values(values);
    let tied = most_common_indices(values);
    let pick = random_below(tied.len());
    let selected = tied[pick];
    proof {
        let vs = views(values@);
        lemma_mode_positions(vs, values@.len() as int);
        assert(tied@.map_values(|i: usize| i as int)[pick as int] == selected as int);
        assert(mode_positions(vs, values@.len() as int).contains(selected as int));
    }
    (counts, selected)
}


/// Why hierarchical voting could not run.
#[derive(Debug, Clone, Copy, PartialEq, Eq)]
pub enum VoteError {
    /// There was nothing to vote on.
    Empty,
    /// Some projected value was not a tuple.
    NotTuple,
}

impl VoteError {
    /// The error message.
    pub fn message(&self) -> (r: String)
        ensures
            r@ == self.spec_message(),
    {
        match self {
            VoteError::Empty => owned_message("Cannot select from empty list"),
            VoteError::NotTuple => owned_message("hierarchical voting requires Tuple projected values"),
        }
    }

    /// The error message, as text.
    pub open spec fn spec_message(&self) -> Seq<char> {
        match self {
            VoteError::Empty => "Cannot select from empty list"@,
            VoteError::NotTuple => "hierarchical voting requires Tuple projected values"@,
        }
    }
}

fn owned_message(s: &str) -> (r: String)
    ensures
        r@ == s@,
{
    crate::text::owned(s)
}

/// The components of a tuple value (empty for a single value).
pub open spec fn tuple_of(v: ProjectedView) -> Seq<Option<Seq<char>>> {
    match v {
        ProjectedView::Tuple(t) => t,
        ProjectedView::Single(_) => Seq::empty(),
    }
}

/// Every value is a tuple.
pub open spec fn all_tuples(vs: Seq<ProjectedView>) -> bool {
    forall|i: int| 0 <= i < vs.len() ==> (#[trigger] vs[i]) is Tuple
}

/// The tuples of a sequence of values.
pub open spec fn tuples_of(vs: Seq<ProjectedView>) -> Seq<Seq<Option<Seq<char>>>> {
    vs.map_values(|v: ProjectedView| tuple_of(v))
}

/// The longest tuple length among the first `n` tuples.
pub open spec fn max_len(ts: Seq<Seq<Option<Seq<char>>>>, n: int) -> nat
    decreases n,
{
    if n <= 0 {
        0
    } else {
        let m = max_len(ts, n - 1);
        if ts[n - 1].len() > m {
            ts[n - 1].len()
        } else {
            m
        }
    }
}

/// The candidates whose tuple has a component at `level`, in order.
pub open spec fn keep_long(ts: Seq<Seq<Option<Seq<char>>>>, cands: Seq<int>, level: int) -> Seq<int>
    decreases cands.len(),
{
    if cands.len() == 0 {
        Seq::empty()
    } else if level < ts[cands.last()].len() {
        keep_long(ts, cands.drop_last(), level).push(cands.last())
    } else {
        keep_long(ts, cands.drop_last(), level)
    }
}

/// The `level` components of the given candidates, as single values.
pub open spec fn level_votes(ts: Seq<Seq<Option<Seq<char>>>>, valid: Seq<int>, level: int) -> Seq<ProjectedView> {
    valid.map_values(|idx: int| ProjectedView::Single(ts[idx][level]))
}

/// The candidates whose `level` component is a most common one among `valid`.
pub open spec fn level_winners(ts: Seq<Seq<Option<Seq<char>>>>, valid: Seq<int>, level: int) -> Seq<int> {
    mode_positions(level_votes(ts, valid, level), valid.len() as int).map_values(|p: int| valid[p])
}

/// Level-by-level narrowing: at each level keep the candidates whose
/// component is most common among those that have one, until one candidate
/// is left, no candidate has a component at the level, or the levels run out.
pub open spec fn narrow(ts: Seq<Seq<Option<Seq<char>>>>, cands: Seq<int>, level: int, depth: int) -> Seq<int>
    decreases depth - level,
{
    if level >= depth {
        cands
    } else {
        let valid = keep_long(ts, cands, level);
        if valid.len() == 0 {
            cands
        } else {
            let winners = level_winners(ts, valid, level);
            if winners.len() == 1 {
                winners
            } else {
                narrow(ts, winners, level + 1, depth)
            }
        }
    }
}

/// The candidates left by hierarchical voting over the tuples `ts`.
pub open spec fn hierarchical_winners(ts: Seq<Seq<Option<Seq<char>>>>) -> Seq<int> {
    narrow(ts, Seq::new(ts.len(), |i: int| i), 0, max_len(ts, ts.len() as int) as int)
}

/// `keep_long` keeps exactly the candidates that have a component at `level`.
pub proof fn lemma_keep_long(ts: Seq<Seq<Option<Seq<char>>>>, cands: Seq<int>, level: int)
    ensures
        forall|x: int| #[trigger] keep_long(ts, cands, level).contains(x) <==> (cands.contains(x) && level < ts[x].len()),
        keep_long(ts, cands, level).len() <= cands.len(),
    decreases cands.len(),
{
    if cands.len() > 0 {
        let prev = cands.drop_last();
        lemma_keep_long(ts, prev, level);
        let kp = keep_long(ts, prev, level);
        assert forall|x: int| keep_long(ts, cands, level).contains(x) <==> (cands.contains(x) && level < ts[x].len()) by {
            if cands.contains(x) && level < ts[x].len() {
                let k = choose|k: int| 0 <= k < cands.len() && cands[k] == x;
                if k < cands.len() - 1 {
                    assert(prev[k] == cands[k]);
                    assert(prev.contains(x));
                    assert(kp.contains(x));
                    let m = choose|m: int| 0 <= m < kp.len() && kp[m] == x;
                    if level < ts[cands.last()].len() {
                        assert(kp.push(cands.last())[m] == kp[m]);
                        assert(keep_long(ts, cands, level)[m] == x);
                    } else {
                        assert(keep_long(ts, cands, level)[m] == x);
                    }
                } else {
                    assert(cands.last() == x);
                    assert(kp.push(cands.last())[kp.len() as int] == x);
                    assert(keep_long(ts, cands, level)[kp.len() as int] == x);
                }
            }
            if keep_long(ts, cands, level).contains(x) {
                let m = choose|m: int| 0 <= m < keep_long(ts, cands, level).len() && keep_long(ts, cands, level)[m] == x;
                if level < ts[cands.last()].len() && m == kp.len() {
                    assert(cands[cands.len() - 1] == x);
                } else {
                    assert(kp[m] == x);
                    assert(kp.contains(x));
                    assert(prev.contains(x) && level < ts[x].len());
                    let k = choose|k: int| 0 <= k < prev.len() && prev[k] == x;
                    assert(prev[k] == cands[k]);
                    assert(cands[k] == x);
                }
            }
        }
    }
}

/// The winners at a level are candidates holding a most common component.
pub proof fn lemma_level_winners(ts: Seq<Seq<Option<Seq<char>>>>, valid: Seq<int>, level: int)
    ensures
        forall|x: int| #[trigger] level_winners(ts, valid, level).contains(x) ==> valid.contains(x),
        valid.len() > 0 ==> level_winners(ts, valid, level).len() > 0,
{
    let votes = level_votes(ts, valid, level);
    let mp = mode_positions(votes, valid.len() as int);
    lemma_mode_positions(votes, valid.len() as int);
    assert forall|x: int| level_winners(ts, valid, level).contains(x) implies valid.contains(x) by {
        let m = choose|m: int| 0 <= m < level_winners(ts, valid, level).len() && level_winners(ts, valid, level)[m] == x;
        assert(0 <= mp[m] < valid.len());
        assert(valid[mp[m]] == x);
    }
    if valid.len() > 0 {
        lemma_mode_positions_nonempty(votes);
    }
}

/// Narrowing only removes candidates, and leaves at least one.
pub proof fn lemma_narrow_subset(ts: Seq<Seq<Option<Seq<char>>>>, cands: Seq<int>, level: int, depth: int)
    ensures
        forall|x: int| #[trigger] narrow(ts, cands, level, depth).contains(x) ==> cands.contains(x),
        cands.len() > 0 ==> narrow(ts, cands, level, depth).len() > 0,
    decreases depth - level,
{
    if level < depth {
        let valid = keep_long(ts, cands, level);
        lemma_keep_long(ts, cands, level);
        if valid.len() > 0 {
            let winners = level_winners(ts, valid, level);
            lemma_level_winners(ts, valid, level);
            if winners.len() != 1 {
                lemma_narrow_subset(ts, winners, level + 1, depth);
            }
        }
    }
}

/// Hierarchical voting keeps only candidates whose first component is most
/// common among the responses that have a first component.
pub proof fn law_hierarchical_first_level(ts: Seq<Seq<Option<Seq<char>>>>)
    ensures
        ({
            let all = Seq::new(ts.len(), |i: int| i);
            let valid = keep_long(ts, all, 0);
            max_len(ts, ts.len() as int) > 0 && valid.len() > 0 ==> forall|x: int|
                hierarchical_winners(ts).contains(x) ==> level_winners(ts, valid, 0).contains(x)
        }),
{
    let all = Seq::new(ts.len(), |i: int| i);
    let valid = keep_long(ts, all, 0);
    let depth = max_len(ts, ts.len() as int) as int;
    if depth > 0 && valid.len() > 0 {
        let winners = level_winners(ts, valid, 0);
        if winners.len() != 1 {
            lemma_narrow_subset(ts, winners, 1, depth);
        }
    }
}


/// The longest tuple is at least as long as each of the first `n` tuples.
proof fn lemma_max_len_bound(ts: Seq<Seq<Option<Seq<char>>>>, n: int)
    requires
        0 <= n <= ts.len(),
    ensures
        forall|i: int| 0 <= i < n ==> (#[trigger] ts[i]).len() <= max_len(ts, n),
    decreases n,
{
    if n > 0 {
        lemma_max_len_bound(ts, n - 1);
    }
}

/// Candidates that all have a component at `level` are all kept.
proof fn lemma_keep_long_all(ts: Seq<Seq<Option<Seq<char>>>>, cands: Seq<int>, level: int)
    requires
        forall|k: int| 0 <= k < cands.len() ==> level < ts[#[trigger] cands[k]].len(),
    ensures
        keep_long(ts, cands, level) == cands,
    decreases cands.len(),
{
    if cands.len() > 0 {
        lemma_keep_long_all(ts, cands.drop_last(), level);
        assert(cands.drop_last().push(cands.last()) =~= cands);
    }
}

/// When all values are equal, every position below `n` is a mode position.
proof fn lemma_all_modes<T>(s: Seq<T>, n: int)
    requires
        0 <= n <= s.len(),
        forall|i: int, j: int| 0 <= i < s.len() && 0 <= j < s.len() ==> s[i] == s[j],
    ensures
        mode_positions(s, n) == Seq::new(n as nat, |i: int| i),
    decreases n,
{
    if n > 0 {
        lemma_all_modes(s, n - 1);
        assert(is_mode(s, n - 1));
        assert(Seq::new((n - 1) as nat, |i: int| i).push(n - 1) =~= Seq::new(n as nat, |i: int| i));
    }
}

/// The `level` components of all tuples, as single values.
pub open spec fn level_column(ts: Seq<Seq<Option<Seq<char>>>>, level: int) -> Seq<ProjectedView> {
    Seq::new(ts.len(), |i: int| ProjectedView::Single(ts[i][level]))
}

/// The positions `0..n`, in order.
pub open spec fn all_indices(n: nat) -> Seq<int> {
    Seq::new(n, |i: int| i)
}

proof fn lemma_narrow_agreeing_prefix(ts: Seq<Seq<Option<Seq<char>>>>, level: int, target: int, depth: int)
    requires
        ts.len() > 1,
        0 <= level <= target < depth,
        forall|i: int| 0 <= i < ts.len() ==> target < (#[trigger] ts[i]).len(),
        forall|i: int, j: int, l: int| 0 <= i < ts.len() && 0 <= j < ts.len() && 0 <= l < target ==> #[trigger] ts[i][l] == #[trigger] ts[j][l],
    ensures
        forall|x: int| #[trigger] narrow(ts, all_indices(ts.len()), level, depth).contains(x) ==> 0 <= x < ts.len()
            && forall|j: int| 0 <= j < ts.len() ==> count_of(level_column(ts, target), #[trigger] level_column(ts, target)[j]) <= count_of(
                level_column(ts, target),
                level_column(ts, target)[x],
            ),
    decreases target - level,
{
    let n = ts.len();
    let all = all_indices(n);
    lemma_keep_long_all(ts, all, level);
    let votes = level_votes(ts, all, level);
    if level < target {
        assert forall|i: int, j: int| 0 <= i < votes.len() && 0 <= j < votes.len() implies votes[i] == votes[j] by {
            assert(ts[i][level] == ts[j][level]);
        }
        lemma_all_modes(votes, n as int);
        assert(level_winners(ts, all, level) =~= all);
        assert(narrow(ts, all, level, depth) == narrow(ts, all, level + 1, depth));
        lemma_narrow_agreeing_prefix(ts, level + 1, target, depth);
    } else {
        let winners = level_winners(ts, all, level);
        let col = level_column(ts, target);
        assert(votes =~= col);
        lemma_mode_positions(votes, n as int);
        assert(winners =~= mode_positions(votes, n as int));
        if winners.len() != 1 {
            lemma_narrow_subset(ts, winners, level + 1, depth);
            assert(narrow(ts, all, level, depth) == narrow(ts, winners, level + 1, depth));
        } else {
            assert(narrow(ts, all, level, depth) == winners);
        }
        assert forall|x: int| #[trigger] narrow(ts, all, level, depth).contains(x) implies 0 <= x < ts.len() && forall|j: int|
            0 <= j < ts.len() ==> count_of(col, #[trigger] col[j]) <= count_of(col, col[x]) by {
            assert(winners.contains(x));
            assert(is_mode(votes, x));
            assert forall|j: int| 0 <= j < ts.len() implies count_of(col, #[trigger] col[j]) <= count_of(col, col[x]) by {
                assert(count_of(votes, votes[j]) <= count_of(votes, votes[x]));
            }
        }
    }
}

/// Hierarchical voting narrows level by level: when all tuples have a
/// component at `level` and agree on every earlier component, every
/// candidate it leaves holds a most common component at `level`.
pub proof fn law_hierarchical_narrows_each_level(ts: Seq<Seq<Option<Seq<char>>>>, level: int)
    requires
        0 <= level,
        forall|i: int| 0 <= i < ts.len() ==> level < (#[trigger] ts[i]).len(),
        forall|i: int, j: int, l: int| 0 <= i < ts.len() && 0 <= j < ts.len() && 0 <= l < level ==> #[trigger] ts[i][l] == #[trigger] ts[j][l],
    ensures
        forall|x: int| #[trigger] hierarchical_winners(ts).contains(x) ==> 0 <= x < ts.len() && forall|j: int|
            0 <= j < ts.len() ==> count_of(level_column(ts, level), #[trigger] level_column(ts, level)[j]) <= count_of(
                level_column(ts, level),
                level_column(ts, level)[x],
            ),
{
    let n = ts.len();
    let all = all_indices(n);
    let depth = max_len(ts, n as int) as int;
    assert(all =~= Seq::new(n, |i: int| i));
    lemma_narrow_subset(ts, all, 0, depth);
    if n > 1 {
        lemma_max_len_bound(ts, n as int);
        assert(level < ts[0].len());
        lemma_narrow_agreeing_prefix(ts, 0, level, depth);
    } else {
        assert forall|x: int| #[trigger] hierarchical_winners(ts).contains(x) implies 0 <= x < ts.len() && forall|j: int|
            0 <= j < ts.len() ==> count_of(level_column(ts, level), #[trigger] level_column(ts, level)[j]) <= count_of(
                level_column(ts, level),
                level_column(ts, level)[x],
            ) by {
            assert(all.contains(x));
            let k = choose|k: int| 0 <= k < all.len() && all[k] == x;
            assert(x == 0);
        }
    }
}

/// A sequence of indices as integers.
pub open spec fn ints(v: Seq<usize>) -> Seq<int> {
    v.map_values(|i: usize| i as int)
}

/// The number of components of the tuple at `i`.
fn tuple_len(values: &Vec<ProjectedValue>, i: usize) -> (r: usize)
    requires
        i < values@.len(),
    ensures
        r == tuple_of(values@[i as int]@).len(),
{
    match &values[i] {
        ProjectedValue::Tuple(t) => t.len(),
        ProjectedValue::Single(_) => 0,
    }
}

/// The component at `level` of the tuple at `i`, as a single value.
fn component(values: &Vec<ProjectedValue>, i: usize, level: usize) -> (r: ProjectedValue)
    requires
        i < values@.len(),
        level < tuple_of(values@[i as int]@).len(),
    ensures
        r@ == ProjectedView::Single(tuple_of(values@[i as int]@)[level as int]),
{
    match &values[i] {
        ProjectedValue::Tuple(t) => ProjectedValue::Single(copy_opt(&t[level])),
        ProjectedValue::Single(_) => ProjectedValue::Single(None),
    }
}

/// The candidates that hierarchical voting leaves: indices of the values
/// that survive level-by-level narrowing.
pub fn hierarchical_candidates(values: &Vec<ProjectedValue>) -> (r: Vec<usize>)
    requires
        all_tuples(views(values@)),
    ensures
        ints(r@) == hierarchical_winners(tuples_of(views(values@))),
        forall|k: int| 0 <= k < r@.len() ==> #[trigger] r@[k] < values@.len(),
        values@.len() > 0 ==> r@.len() > 0,
{
    let ghost vs = views(values@);
    let ghost ts = tuples_of(vs);
    let n = values.len();
    let mut depth: usize = 0;
    let mut i: usize = 0;
    while i < n
        invariant
            n == values@.len(),
            ts == tuples_of(views(values@)),
            i <= n,
            depth == max_len(ts, i as int),
        decreases n - i,
    {
        let l = tuple_len(values, i);
        assert(ts[i as int] == tuple_of(values@[i as int]@));
        if l > depth {
            depth = l;
        }
        i = i + 1;
    }
    let mut cands: Vec<usize> = Vec::new();
    let mut i: usize = 0;
    while i < n
        invariant
            i <= n,
            ints(cands@) == Seq::new(i as nat, |j: int| j),
            forall|k: int| 0 <= k < cands@.len() ==> #[trigger] cands@[k] < n,
        decreases n - i,
    {
        let ghost before = cands@;
        cands.push(i);
        assert(ints(cands@) =~= ints(before).push(i as int));
        assert(ints(cands@) =~= Seq::new((i + 1) as nat, |j: int| j));
        i = i + 1;
    }
    let ghost target = hierarchical_winners(ts);
    assert(ts.len() == n);
    let mut level: usize = 0;
    let mut done = false;
    while level < depth && !done
        invariant
            n == values@.len(),
            ts == tuples_of(views(values@)),
            ts.len() == n,
            level <= depth,
            done ==> ints(cands@) == target,
            !done ==> narrow(ts, ints(cands@), level as int, depth as int) == target,
            forall|k: int| 0 <= k < cands@.len() ==> #[trigger] cands@[k] < n,
            n > 0 ==> cands@.len() > 0,
        decreases depth - level + (if done {
            0int
        } else {
            1int
        }),
    {
        let mut valid: Vec<usize> = Vec::new();
        let mut k: usize = 0;
        while k < cands.len()
            invariant
                n == values@.len(),
                ts == tuples_of(views(values@)),
                k <= cands@.len(),
                forall|q: int| 0 <= q < cands@.len() ==> #[trigger] cands@[q] < n,
                forall|q: int| 0 <= q < valid@.len() ==> #[trigger] valid@[q] < n,
                ints(valid@) == keep_long(ts, ints(cands@).take(k as int), level as int),
            decreases cands@.len() - k,
        {
            let c = cands[k];
            let l = tuple_len(values, c);
            assert(ints(cands@).take(k + 1).drop_last() =~= ints(cands@).take(k as int));
            assert(ts[c as int] == tuple_of(values@[c as int]@));
            if level < l {
                let ghost before = valid@;
                valid.push(c);
                assert(ints(valid@) =~= ints(before).push(c as int));
            }
            k = k + 1;
        }
        assert(ints(cands@).take(cands@.len() as int) =~= ints(cands@));
        proof {
            lemma_keep_long(ts, ints(cands@), level as int);
        }
        if valid.len() == 0 {
            done = true;
        } else {
            let ghost vi = ints(valid@);
            let mut votes: Vec<ProjectedValue> = Vec::new();
            let mut k: usize = 0;
            while k < valid.len()
                invariant
                    n == values@.len(),
                    ts == tuples_of(views(values@)),
                    vi == ints(valid@),
                    vi == keep_long(ts, ints(cands@), level as int),
                    k <= valid@.len(),
                    forall|q: int| 0 <= q < valid@.len() ==> #[trigger] valid@[q] < n,
                    views(votes@) == level_votes(ts, vi, level as int).take(k as int),
                decreases valid@.len() - k,
            {
                let c = valid[k];
                proof {
                    lemma_keep_long(ts, ints(cands@), level as int);
                    assert(vi[k as int] == c as int);
                    assert(keep_long(ts, ints(cands@), level as int).contains(c as int));
                    assert(ts[c as int] == tuple_of(values@[c as int]@));
                }
                let ghost before = votes@;
                let cv = component(values, c, level);
                votes.push(cv);
                assert(views(votes@) =~= views(before).push(cv@));
                assert(level_votes(ts, vi, level as int)[k as int] == ProjectedView::Single(ts[c as int][level as int]));
                assert(views(votes@) =~= level_votes(ts, vi, level as int).take(k + 1));
                k = k + 1;
            }
            assert(views(votes@) =~= level_votes(ts, vi, level as int));
            let pos = most_common_indices(&votes);
            proof {
                lemma_mode_positions(views(votes@), votes@.len() as int);
            }
            let ghost mp = mode_positions(views(votes@), votes@.len() as int);
            let mut winners: Vec<usize> = Vec::new();
            let mut q: usize = 0;
            while q < pos.len()
                invariant
                    n == values@.len(),
                    vi == ints(valid@),
                    votes@.len() == valid@.len(),
                    ints(pos@) == mp,
                    forall|k: int| 0 <= k < mp.len() ==> 0 <= #[trigger] mp[k] < votes@.len(),
                    forall|k: int| 0 <= k < valid@.len() ==> #[trigger] valid@[k] < n,
                    q <= pos@.len(),
                    forall|k: int| 0 <= k < winners@.len() ==> #[trigger] winners@[k] < n,
                    ints(winners@) == mp.map_values(|p: int| vi[p]).take(q as int),
                decreases pos@.len() - q,
            {
                assert(mp[q as int] == pos@[q as int] as int);
                let w = valid[pos[q]];
                let ghost before = winners@;
                winners.push(w);
                assert(ints(winners@) =~= ints(before).push(w as int));
                assert(mp.map_values(|p: int| vi[p])[q as int] == w as int);
                assert(ints(winners@) =~= mp.map_values(|p: int| vi[p]).take(q + 1));
                q = q + 1;
            }
            assert(ints(winners@) =~= level_winners(ts, vi, level as int));
            proof {
                lemma_mode_positions_nonempty(views(votes@));
            }
            if winners.len() == 1 {
                done = true;
            } else {
                level = level + 1;
            }
            cands = winners;
        }
    }
    cands
}

/// Hierarchical majority vote over tuples: the counts of every tuple and
/// the index of a response that survives level-by-level narrowing, chosen
/// at random among the survivors.
pub fn select_hierarchical_most_common_or_random(values: &Vec<ProjectedValue>) -> (r: Result<(VoteCounts, usize), VoteError>)
    ensures
        r matches Err(VoteError::Empty) <==> values@.len() == 0,
        r matches Err(VoteError::NotTuple) <==> (values@.len() > 0 && !all_tuples(views(values@))),
        r matches Ok((c, i)) ==> {
            &&& forall|v: ProjectedView| #[trigger] c.count_for(v) == count_of(views(values@), v)
            &&& i < values@.len()
            &&& hierarchical_winners(tuples_of(views(values@))).contains(i as int)
        },
{
    if values.len() == 0 {
        return Err(VoteError::Empty);
    }
    let mut i: usize = 0;
    while i < values.len()
        invariant
            i <= values@.len(),
            forall|j: int| 0 <= j < i ==> (#[trigger] views(values@)[j]) is Tuple,
        decreases values@.len() - i,
    {
        match &values[i] {
            ProjectedValue::Single(_) => {
                assert(views(values@)[i as int] is Single);
                return Err(VoteError::NotTuple);
            },
            ProjectedValue::Tuple(_) => {},
        }
        i = i + 1;
    }
    let counts = count_values(values);
    let cands = hierarchical_candidates(values);
    let pick = random_below(cands.len());
    let selected = cands[pick];
    assert(ints(cands@)[pick as int] == selected as int);
    Ok((counts, selected))
}

} // verus!
