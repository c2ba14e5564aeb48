//! Putting items in order, and fuzzy matching.

use nucleo_matcher::pattern::{CaseMatching, Normalization, Pattern};
use nucleo_matcher::{Config, Matcher, Utf32Str};
use vstd::prelude::*;

verus! {

/// Whether `order` puts the first `n` numbers in the order of the relation: each of them once,
/// earlier ones before later ones.
pub open spec fn arranged(n: int, before: spec_fn(int, int) -> bool, order: Seq<usize>) -> bool {
    &&& order.len() == n
    &&& forall|i: int| 0 <= i < n ==> 0 <= (#[trigger] order[i]) < n
    &&& forall|x: usize| x < n ==> #[trigger] order.contains(x)
    &&& forall|a: int, b: int|
        0 <= a < b < n ==> before((#[trigger] order[a]) as int, (#[trigger] order[b]) as int)
}

/// A strict order of the first `n` numbers.
pub open spec fn is_order(n: int, before: spec_fn(int, int) -> bool) -> bool {
    &&& forall|i: int, j: int|
        0 <= i < n && 0 <= j < n ==> #[trigger] before(i, j) ==> !before(j, i)
    &&& forall|i: int, j: int|
        0 <= i < n && 0 <= j < n && i != j ==> #[trigger] before(i, j) || before(j, i)
    &&& forall|i: int, j: int, k: int|
        0 <= i < n && 0 <= j < n && 0 <= k < n && #[trigger] before(i, j) && #[trigger] before(j, k)
            ==> before(i, k)
}

/// There is only one way to put numbers in a strict order.
pub proof fn arrangement_is_unique(
    n: int,
    before: spec_fn(int, int) -> bool,
    a: Seq<usize>,
    b: Seq<usize>,
)
    requires
        is_order(n, before),
        arranged(n, before, a),
        arranged(n, before, b),
    ensures
        a == b,
{
    arrangement_is_unique_upto(n, before, a, b, n);
    assert(a.take(n) =~= a);
    assert(b.take(n) =~= b);
}

proof fn arrangement_is_unique_upto(
    n: int,
    before: spec_fn(int, int) -> bool,
    a: Seq<usize>,
    b: Seq<usize>,
    k: int,
)
    requires
        is_order(n, before),
        arranged(n, before, a),
        arranged(n, before, b),
        0 <= k <= n,
    ensures
        a.take(k) == b.take(k),
    decreases k,
{
    if k > 0 {
        arrangement_is_unique_upto(n, before, a, b, k - 1);
        let x = a[k - 1];
        let y = b[k - 1];
        if x != y {
            assert(b.contains(x));
            assert(a.contains(y));
            let i = choose|i: int| 0 <= i < b.len() && b[i] == x;
            let j = choose|j: int| 0 <= j < a.len() && a[j] == y;
            if i < k - 1 {
                assert(a.take(k - 1)[i] == b.take(k - 1)[i]);
                assert(a[i] == x);
                assert(before(a[i] as int, a[k - 1] as int));
                assert(!before(x as int, x as int));
            } else if j < k - 1 {
                assert(a.take(k - 1)[j] == b.take(k - 1)[j]);
                assert(b[j] == y);
                assert(before(b[j] as int, b[k - 1] as int));
                assert(!before(y as int, y as int));
            } else {
                assert(before(b[k - 1] as int, b[i] as int));
                assert(before(a[k - 1] as int, a[j] as int));
            }
        }
        assert(a.take(k) =~= a.take(k - 1).push(x));
        assert(b.take(k) =~= b.take(k - 1).push(y));
    }
}

/// Puts the first `n` numbers in order.
pub(crate) fn arrange(
    n: usize,
    precedes: impl Fn(usize, usize) -> bool,
    Ghost(before): Ghost<spec_fn(int, int) -> bool>,
) -> (order: Vec<usize>)
    requires
        is_order(n as int, before),
        forall|i: usize, j: usize| i < n && j < n ==> #[trigger] precedes.requires((i, j)),
        forall|i: usize, j: usize, r: bool| #[trigger]
            precedes.ensures((i, j), r) && i < n && j < n ==> r == before(i as int, j as int),
    ensures
        arranged(n as int, before, order@),
{
    let mut order: Vec<usize> = Vec::new();
    let mut k: usize = 0;
    while k < n
        invariant
            k <= n,
            is_order(n as int, before),
            forall|i: usize, j: usize| i < n && j < n ==> #[trigger] precedes.requires((i, j)),
            forall|i: usize, j: usize, r: bool| #[trigger]
                precedes.ensures((i, j), r) && i < n && j < n ==> r == before(
                    i as int,
                    j as int,
                ),
            arranged(k as int, before, order@),
        decreases n - k,
    {
        // The place of `k`: behind all that precede it.
        let mut at: usize = k;
        while at > 0 && precedes(k, order[at - 1])
            invariant
                at <= k < n,
                is_order(n as int, before),
                forall|i: usize, j: usize| i < n && j < n ==> #[trigger] precedes.requires((i, j)),
                forall|i: usize, j: usize, r: bool| #[trigger]
                    precedes.ensures((i, j), r) && i < n && j < n ==> r == before(
                        i as int,
                        j as int,
                    ),
                arranged(k as int, before, order@),
                forall|i: int| at <= i < k ==> before(k as int, (#[trigger] order@[i]) as int),
            decreases at,
        {
            at = at - 1;
        }
        let ghost old = order@;
        order.insert(at, k);
        proof {
            let new = order@;
            assert forall|i: int| 0 <= i < at implies before((#[trigger] old[i]) as int, k as int) by {
                let last = old[at - 1];
                assert(before(last as int, k as int));
                if i < at - 1 {
                    assert(before(old[i] as int, old[at - 1] as int));
                }
            }
            assert forall|x: usize| x < k + 1 implies #[trigger] new.contains(x) by {
                if x == k {
                    assert(new[at as int] == x);
                } else {
                    assert(old.contains(x));
                    let i = choose|i: int| 0 <= i < old.len() && old[i] == x;
                    if i < at {
                        assert(new[i] == x);
                    } else {
                        assert(new[i + 1] == x);
                    }
                }
            }
            assert forall|a: int, b: int| 0 <= a < b < k + 1 implies before(
                (#[trigger] new[a]) as int,
                (#[trigger] new[b]) as int,
            ) by {
                if b < at {
                    assert(new[a] == old[a] && new[b] == old[b]);
                } else if b == at {
                    assert(new[a] == old[a]);
                } else if a < at {
                    assert(new[a] == old[a] && new[b] == old[b - 1]);
                } else if a == at {
                    assert(new[b] == old[b - 1]);
                } else {
                    assert(new[a] == old[a - 1] && new[b] == old[b - 1]);
                }
            }
        }
        k = k + 1;
    }
    order
}

/// The places of the first `n` items that have a score, and those scores.
pub open spec fn hits_in(scores: Seq<Option<u32>>, n: int) -> (Seq<int>, Seq<u32>)
    decreases n,
{
    if n <= 0 {
        (Seq::empty(), Seq::empty())
    } else {
        let (places, values) = hits_in(scores, n - 1);
        match scores[n - 1] {
            Some(score) => (places.push(n - 1), values.push(score)),
            None => (places, values),
        }
    }
}

/// Whether a text comes before another in the order of their characters.
pub open spec fn text_before(a: Seq<char>, b: Seq<char>) -> bool
    decreases a.len(),
{
    if b.len() == 0 {
        false
    } else if a.len() == 0 {
        true
    } else if a[0] != b[0] {
        a[0] < b[0]
    } else {
        text_before(a.skip(1), b.skip(1))
    }
}

/// The order of texts is strict and total.
pub proof fn text_order_is_strict(a: Seq<char>, b: Seq<char>)
    ensures
        !(text_before(a, b) && text_before(b, a)),
        a != b ==> text_before(a, b) || text_before(b, a),
        !text_before(a, a),
    decreases a.len(),
{
    if a.len() > 0 && b.len() > 0 {
        text_order_is_strict(a.skip(1), b.skip(1));
        if a[0] == b[0] && a.skip(1) == b.skip(1) {
            assert(a =~= seq![a[0]] + a.skip(1));
            assert(b =~= seq![b[0]] + b.skip(1));
        }
    } else if a.len() == 0 && b.len() == 0 {
        assert(a =~= b);
    } else if a.len() > 0 {
        text_order_is_strict(a.skip(1), a.skip(1));
    }
}

/// The order of texts is transitive.
pub proof fn text_order_is_transitive(a: Seq<char>, b: Seq<char>, c: Seq<char>)
    requires
        text_before(a, b),
        text_before(b, c),
    ensures
        text_before(a, c),
    decreases a.len(),
{
    if a.len() > 0 && a[0] == b[0] && b[0] == c[0] {
        text_order_is_transitive(a.skip(1), b.skip(1), c.skip(1));
    }
}

/// Whether a text comes before another in the order of their characters.
pub fn precedes(a: &[char], b: &[char]) -> (r: bool)
    ensures
        r == text_before(a@, b@),
{
    let mut i: usize = 0;
    assert(a@.skip(0) =~= a@);
    assert(b@.skip(0) =~= b@);
    while i < a.len() && i < b.len()
        invariant
            i <= a@.len(),
            i <= b@.len(),
            text_before(a@, b@) == text_before(a@.skip(i as int), b@.skip(i as int)),
        decreases a@.len() - i,
    {
        assert(a@.skip(i as int)[0] == a@[i as int]);
        assert(b@.skip(i as int)[0] == b@[i as int]);
        if a[i] != b[i] {
            return a[i] < b[i];
        }
        assert(a@.skip(i as int).skip(1) =~= a@.skip(i + 1));
        assert(b@.skip(i as int).skip(1) =~= b@.skip(i + 1));
        i = i + 1;
    }
    i < b.len()
}

/// The longest query whose score cannot overflow.
pub const MAX_QUERY: usize = 2500;

/// How well a text matches a query of the fuzzy finder; nothing where it does not match.
pub uninterp spec fn fuzzy(query: Seq<char>, text: Seq<char>) -> Option<u32>;

/// `Pattern::score` of the pattern that `Pattern::parse` makes of the query, with a fresh
/// `Matcher` in its default configuration: it depends on the query and the text alone. The matcher
/// panics on longer texts, and its scores of sixteen bits overflow on longer queries.
#[verifier::external_body]
pub(crate) fn fuzzy_score(query: &str, text: &str) -> (r: Option<u32>)
    requires
        query@.len() <= MAX_QUERY,
        text@.len() <= u32::MAX,
    ensures
        r == fuzzy(query@, text@),
{
    let pattern = Pattern::parse(query, CaseMatching::Ignore, Normalization::Smart);
    let mut matcher = Matcher::new(Config::DEFAULT);
    let mut buf = Vec::new();
    pattern.score(Utf32Str::new(text, &mut buf), &mut matcher)
}

} // verus!
