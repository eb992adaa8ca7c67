//! Typo suggestions: edit distance and the ranking of candidates.

use crate::text::{chars_of, texts};
use vstd::prelude::*;
use vstd::string::*;

verus! {

/// The smaller of two naturals.
pub open spec fn least(a: nat, b: nat) -> nat {
    if a <= b {
        a
    } else {
        b
    }
}

/// Levenshtein distance: the least number of single-character insertions,
/// deletions and substitutions that turn `a` into `b`.
pub open spec fn edit_distance(a: Seq<char>, b: Seq<char>) -> nat
    decreases a.len() + b.len(),
{
    if a.len() == 0 {
        b.len()
    } else if b.len() == 0 {
        a.len()
    } else {
        let del = edit_distance(a.drop_last(), b) + 1;
        let ins = edit_distance(a, b.drop_last()) + 1;
        let sub = edit_distance(a.drop_last(), b.drop_last()) + if a.last() == b.last() {
            0nat
        } else {
            1nat
        };
        least(del, least(ins, sub))
    }
}

/// The distance never exceeds the longer of the two lengths.
pub proof fn lemma_distance_bound(a: Seq<char>, b: Seq<char>)
    ensures
        edit_distance(a, b) <= a.len() || edit_distance(a, b) <= b.len(),
    decreases a.len() + b.len(),
{
    if a.len() > 0 && b.len() > 0 {
        lemma_distance_bound(a.drop_last(), b.drop_last());
    }
}

/// Equal strings are at distance zero.
pub proof fn law_distance_to_itself(a: Seq<char>)
    ensures
        edit_distance(a, a) == 0,
    decreases a.len(),
{
    if a.len() > 0 {
        law_distance_to_itself(a.drop_last());
    }
}

fn distance_of(x: &Vec<char>, y: &Vec<char>) -> (d: usize)
    ensures
        d == edit_distance(x@, y@),
{
    let n = x.len();
    let m = y.len();
    let mut prev: Vec<usize> = Vec::new();
    let mut j: usize = 0;
    prev.push(0);
    while j < m
        invariant
            j <= m,
            m == y@.len(),
            prev@.len() == j + 1,
            forall|k: int| 0 <= k <= j ==> prev@[k] == k,
        decreases m - j,
    {
        j += 1;
        prev.push(j);
    }
    assert(x@.take(0).len() == 0);
    let mut i: usize = 0;
    while i < n
        invariant
            i <= n,
            n == x@.len(),
            m == y@.len(),
            prev@.len() == m + 1,
            forall|k: int|
                0 <= k <= m ==> prev@[k] == edit_distance(x@.take(i as int), #[trigger] y@.take(k)),
        decreases n - i,
    {
        let ghost xi = x@.take(i as int);
        let ghost xn = x@.take(i + 1);
        assert(xn.drop_last() =~= xi);
        assert(xn.last() == x@[i as int]);
        let mut curr: Vec<usize> = Vec::new();
        curr.push(i + 1);
        assert(y@.take(0).len() == 0);
        let mut j: usize = 0;
        while j < m
            invariant
                j <= m,
                i < n,
                n == x@.len(),
                m == y@.len(),
                prev@.len() == m + 1,
                curr@.len() == j + 1,
                xi == x@.take(i as int),
                xn == x@.take(i + 1),
                xn.drop_last() == xi,
                xn.last() == x@[i as int],
                xn.len() == i + 1,
                forall|k: int|
                    0 <= k <= m ==> prev@[k] == edit_distance(xi, #[trigger] y@.take(k)),
                forall|k: int|
                    0 <= k <= j ==> curr@[k] == edit_distance(xn, #[trigger] y@.take(k)),
            decreases m - j,
        {
            let ghost yj = y@.take(j as int);
            let ghost yn = y@.take(j + 1);
            proof {
                assert(yn.drop_last() =~= yj);
                assert(yn.last() == y@[j as int]);
                lemma_distance_bound(xi, yj);
            }
            let cost: usize = if x[i] != y[j] {
                1
            } else {
                0
            };
            let mut best: usize = prev[j] + cost;
            if prev[j + 1] < best {
                best = prev[j + 1] + 1;
            }
            if curr[j] < best {
                best = curr[j] + 1;
            }
            assert(best == edit_distance(xn, yn));
            curr.push(best);
            j += 1;
        }
        prev = curr;
        i += 1;
    }
    assert(x@.take(n as int) =~= x@);
    assert(y@.take(m as int) =~= y@);
    prev[m]
}

/// Levenshtein distance between two strings, counted in characters.
pub fn levenshtein(a: &str, b: &str) -> (d: usize)
    ensures
        d == edit_distance(a@, b@),
{
    let x = chars_of(a);
    let y = chars_of(b);
    distance_of(&x, &y)
}

/// The largest distance at which a candidate is still offered, by the length
/// of the mistyped token.
pub open spec fn threshold(len: nat) -> nat {
    if len <= 3 {
        1
    } else if len <= 6 {
        2
    } else {
        3
    }
}

/// Strict lexicographic order on character sequences.
pub open spec fn lex_lt(a: Seq<char>, b: Seq<char>) -> bool
    decreases a.len(),
{
    if b.len() == 0 {
        false
    } else if a.len() == 0 {
        true
    } else if a[0] != b[0] {
        a[0] < b[0]
    } else {
        lex_lt(a.skip(1), b.skip(1))
    }
}

/// The ranking of candidates: nearer first, and among equally near ones the
/// lexicographically smaller first.
pub open spec fn ranks_before(needle: Seq<char>, x: Seq<char>, y: Seq<char>) -> bool {
    let dx = edit_distance(needle, x);
    let dy = edit_distance(needle, y);
    dx < dy || (dx == dy && lex_lt(x, y))
}

/// Whether a candidate is near enough to be offered at all.
pub open spec fn qualifies(needle: Seq<char>, c: Seq<char>) -> bool {
    edit_distance(needle, c) <= threshold(needle.len())
}

/// Whether a candidate may be chosen next, `after` being the one chosen last.
pub open spec fn eligible(needle: Seq<char>, c: Seq<char>, after: Option<Seq<char>>) -> bool {
    qualifies(needle, c) && (after matches Some(a) ==> ranks_before(needle, a, c))
}

/// The best eligible candidate among the first `n`.
pub open spec fn best_after(
    needle: Seq<char>,
    cands: Seq<Seq<char>>,
    after: Option<Seq<char>>,
    n: int,
) -> Option<Seq<char>>
    decreases n,
{
    if n <= 0 {
        None
    } else {
        let prev = best_after(needle, cands, after, n - 1);
        let c = cands[n - 1];
        if eligible(needle, c, after) && (prev matches Some(p) ==> ranks_before(needle, c, p)) {
            Some(c)
        } else {
            prev
        }
    }
}

/// Up to `budget` candidates in ranking order, each ranked after `after`.
pub open spec fn suggestions_from(
    needle: Seq<char>,
    cands: Seq<Seq<char>>,
    after: Option<Seq<char>>,
    budget: nat,
) -> Seq<Seq<char>>
    decreases budget,
{
    if budget == 0 {
        Seq::empty()
    } else {
        match best_after(needle, cands, after, cands.len() as int) {
            None => Seq::empty(),
            Some(c) => seq![c] + suggestions_from(needle, cands, Some(c), (budget - 1) as nat),
        }
    }
}

/// The suggestions for a mistyped token: the three best-ranked distinct
/// candidates within the threshold, best first.
pub open spec fn suggestions(needle: Seq<char>, cands: Seq<Seq<char>>) -> Seq<Seq<char>> {
    suggestions_from(needle, cands, None, 3)
}

/// Between two texts of one character the distance is zero if they are
/// equal and one if they are not.
pub proof fn law_single_char_distance(a: char, b: char)
    ensures
        edit_distance(seq![a], seq![b]) == (if a == b {
            0nat
        } else {
            1nat
        }),
{
    let x = seq![a];
    let y = seq![b];
    assert(x.drop_last().len() == 0 && y.drop_last().len() == 0);
    assert(edit_distance(x.drop_last(), y) == 1);
    assert(edit_distance(x, y.drop_last()) == 1);
    assert(edit_distance(x.drop_last(), y.drop_last()) == 0);
    assert(x.last() == a && y.last() == b);
}

/// The lexicographic order is transitive.
pub proof fn lemma_lex_transitive(a: Seq<char>, b: Seq<char>, c: Seq<char>)
    requires
        lex_lt(a, b),
        lex_lt(b, c),
    ensures
        lex_lt(a, c),
    decreases a.len(),
{
    if a.len() > 0 && a[0] == b[0] && b[0] == c[0] {
        lemma_lex_transitive(a.skip(1), b.skip(1), c.skip(1));
    }
}

/// Of two different texts one comes before the other.
pub proof fn lemma_lex_total(a: Seq<char>, b: Seq<char>)
    ensures
        a == b || lex_lt(a, b) || lex_lt(b, a),
    decreases a.len(),
{
    if a.len() == 0 || b.len() == 0 {
        if a.len() == 0 && b.len() == 0 {
            assert(a =~= b);
        }
    } else if a[0] == b[0] {
        lemma_lex_total(a.skip(1), b.skip(1));
        if a.skip(1) == b.skip(1) {
            assert(a =~= seq![a[0]] + a.skip(1));
            assert(b =~= seq![b[0]] + b.skip(1));
        }
    }
}

/// No text comes before itself.
pub proof fn lemma_lex_irreflexive(a: Seq<char>)
    ensures
        !lex_lt(a, a),
    decreases a.len(),
{
    if a.len() > 0 {
        lemma_lex_irreflexive(a.skip(1));
    }
}

/// The ranking is transitive.
pub proof fn lemma_ranking_transitive(
    needle: Seq<char>,
    x: Seq<char>,
    y: Seq<char>,
    z: Seq<char>,
)
    requires
        ranks_before(needle, x, y),
        ranks_before(needle, y, z),
    ensures
        ranks_before(needle, x, z),
{
    if lex_lt(x, y) && lex_lt(y, z) {
        lemma_lex_transitive(x, y, z);
    }
}

/// The best eligible candidate is an eligible candidate, and no eligible
/// candidate ranks before it; there is none only if no candidate is eligible.
pub proof fn lemma_best_after(
    needle: Seq<char>,
    cands: Seq<Seq<char>>,
    after: Option<Seq<char>>,
    n: int,
)
    requires
        0 <= n <= cands.len(),
    ensures
        match best_after(needle, cands, after, n) {
            Some(c) => eligible(needle, c, after) && (exists|k: int|
                0 <= k < n && cands[k] == c) && forall|k: int|
                0 <= k < n && eligible(needle, #[trigger] cands[k], after) ==> !ranks_before(
                    needle,
                    cands[k],
                    c,
                ),
            None => forall|k: int| 0 <= k < n ==> !eligible(needle, #[trigger] cands[k], after),
        },
    decreases n,
{
    if n > 0 {
        lemma_best_after(needle, cands, after, n - 1);
        let prev = best_after(needle, cands, after, n - 1);
        let c = cands[n - 1];
        if eligible(needle, c, after) && (prev matches Some(p) ==> ranks_before(needle, c, p)) {
            lemma_lex_irreflexive(c);
            assert(cands[n - 1] == c);
            match prev {
                Some(p) => {
                    assert forall|k: int|
                        0 <= k < n && eligible(needle, #[trigger] cands[k], after) implies !ranks_before(
                        needle,
                        cands[k],
                        c,
                    ) by {
                        if k < n - 1 && ranks_before(needle, cands[k], c) {
                            lemma_ranking_transitive(needle, cands[k], c, p);
                        }
                    }
                },
                None => {},
            }
        } else {
            match prev {
                Some(p) => {
                    let k0 = choose|k: int| 0 <= k < n - 1 && cands[k] == p;
                    assert(cands[k0] == p);
                },
                None => {},
            }
        }
    }
}

/// Suggestions are sound and sorted: there are at most `budget` of them,
/// each is a candidate within the threshold, and their distances ascend.
pub proof fn law_suggestions_ascend(
    needle: Seq<char>,
    cands: Seq<Seq<char>>,
    after: Option<Seq<char>>,
    budget: nat,
)
    ensures
        ({
            let r = suggestions_from(needle, cands, after, budget);
            &&& r.len() <= budget
            &&& forall|i: int|
                0 <= i < r.len() ==> cands.contains(#[trigger] r[i]) && qualifies(needle, r[i])
                    && (after matches Some(a) ==> edit_distance(needle, a) <= edit_distance(
                    needle,
                    r[i],
                ))
            &&& forall|i: int, j: int|
                0 <= i < j < r.len() ==> edit_distance(needle, #[trigger] r[i]) <= edit_distance(
                    needle,
                    #[trigger] r[j],
                )
        }),
    decreases budget,
{
    if budget > 0 {
        lemma_best_after(needle, cands, after, cands.len() as int);
        match best_after(needle, cands, after, cands.len() as int) {
            None => {},
            Some(c) => {
                let rest = suggestions_from(needle, cands, Some(c), (budget - 1) as nat);
                let r = suggestions_from(needle, cands, after, budget);
                law_suggestions_ascend(needle, cands, Some(c), (budget - 1) as nat);
                assert(r =~= seq![c] + rest);
                assert(r[0] == c);
                assert forall|i: int| 0 <= i < r.len() implies cands.contains(#[trigger] r[i])
                    && qualifies(needle, r[i]) && (after matches Some(a) ==> edit_distance(
                    needle,
                    a,
                ) <= edit_distance(needle, r[i])) by {
                    if i > 0 {
                        assert(r[i] == rest[i - 1]);
                    }
                }
                assert forall|i: int, j: int| 0 <= i < j < r.len() implies edit_distance(
                    needle,
                    #[trigger] r[i],
                ) <= edit_distance(needle, #[trigger] r[j]) by {
                    assert(r[j] == rest[j - 1]);
                    if i > 0 {
                        assert(r[i] == rest[i - 1]);
                    }
                }
            },
        }
    }
}

/// Suggestions are the best: a candidate within the threshold that is not
/// among them ranks before none of them, and is left out only because the
/// budget is used up.
pub proof fn law_suggestions_best(
    needle: Seq<char>,
    cands: Seq<Seq<char>>,
    after: Option<Seq<char>>,
    budget: nat,
    x: Seq<char>,
)
    requires
        cands.contains(x),
        eligible(needle, x, after),
    ensures
        ({
            let r = suggestions_from(needle, cands, after, budget);
            r.contains(x) || (r.len() == budget && forall|i: int|
                0 <= i < r.len() ==> !ranks_before(needle, x, #[trigger] r[i]))
        }),
    decreases budget,
{
    if budget > 0 {
        let n = cands.len() as int;
        lemma_best_after(needle, cands, after, n);
        let k = choose|k: int| 0 <= k < n && cands[k] == x;
        assert(eligible(needle, cands[k], after));
        match best_after(needle, cands, after, n) {
            None => {},
            Some(c) => {
                let rest = suggestions_from(needle, cands, Some(c), (budget - 1) as nat);
                let r = suggestions_from(needle, cands, after, budget);
                assert(r =~= seq![c] + rest);
                assert(r[0] == c);
                assert(!ranks_before(needle, cands[k], c));
                if x == c {
                    assert(r.contains(x));
                } else {
                    lemma_lex_total(x, c);
                    assert(ranks_before(needle, c, x));
                    law_suggestions_best(needle, cands, Some(c), (budget - 1) as nat, x);
                    if rest.contains(x) {
                        let i = choose|i: int| 0 <= i < rest.len() && rest[i] == x;
                        assert(r[i + 1] == x);
                    } else {
                        assert forall|i: int| 0 <= i < r.len() implies !ranks_before(
                            needle,
                            x,
                            #[trigger] r[i],
                        ) by {
                            if i > 0 {
                                assert(r[i] == rest[i - 1]);
                            }
                        }
                    }
                }
            },
        }
    }
}

fn lex_less(a: &Vec<char>, b: &Vec<char>) -> (r: bool)
    ensures
        r == lex_lt(a@, b@),
{
    let mut i: usize = 0;
    assert(a@.skip(0) =~= a@ && b@.skip(0) =~= b@);
    while i < a.len() && i < b.len()
        invariant
            i <= a.len(),
            i <= b.len(),
            lex_lt(a@, b@) == lex_lt(a@.skip(i as int), b@.skip(i as int)),
        decreases a.len() - i,
    {
        let ghost x = a@.skip(i as int);
        let ghost y = b@.skip(i as int);
        assert(x[0] == a@[i as int] && y[0] == b@[i as int]);
        assert(x.skip(1) =~= a@.skip(i + 1) && y.skip(1) =~= b@.skip(i + 1));
        if a[i] != b[i] {
            return a[i] < b[i];
        }
        i += 1;
    }
    i < b.len()
}

fn threshold_of(len: usize) -> (t: usize)
    ensures
        t == threshold(len as nat),
{
    if len <= 3 {
        1
    } else if len <= 6 {
        2
    } else {
        3
    }
}

/// The suggestions for `needle` among `hay`: at most three, nearest first.
pub fn best_suggestions(needle: &str, hay: &Vec<String>) -> (out: Vec<String>)
    ensures
        texts(out@) == suggestions(needle@, texts(hay@)),
{
    let nd = chars_of(needle);
    let ghost cands = texts(hay@);
    let mut dists: Vec<usize> = Vec::new();
    let mut chars: Vec<Vec<char>> = Vec::new();
    let mut i: usize = 0;
    while i < hay.len()
        invariant
            i <= hay.len(),
            nd@ == needle@,
            cands == texts(hay@),
            dists@.len() == i,
            chars@.len() == i,
            forall|k: int| 0 <= k < i ==> (#[trigger] chars@[k])@ == cands[k],
            forall|k: int| 0 <= k < i ==> #[trigger] dists@[k] == edit_distance(needle@, cands[k]),
        decreases hay.len() - i,
    {
        let c = chars_of(hay[i].as_str());
        dists.push(distance_of(&nd, &c));
        chars.push(c);
        i += 1;
    }
    let thr = threshold_of(nd.len());
    let mut out: Vec<String> = Vec::new();
    let mut last: Option<usize> = None;
    let mut round: usize = 0;
    assert(texts(out@) =~= Seq::empty());
    while round < 3
        invariant
            round <= 3,
            nd@ == needle@,
            cands == texts(hay@),
            thr == threshold(needle@.len()),
            dists@.len() == hay@.len(),
            chars@.len() == hay@.len(),
            forall|k: int| 0 <= k < hay@.len() ==> (#[trigger] chars@[k])@ == cands[k],
            forall|k: int|
                0 <= k < hay@.len() ==> #[trigger] dists@[k] == edit_distance(needle@, cands[k]),
            last matches Some(l) ==> l < hay@.len(),
            suggestions(needle@, cands) == texts(out@) + suggestions_from(
                needle@,
                cands,
                match last {
                    Some(l) => Some(cands[l as int]),
                    None => None,
                },
                (3 - round) as nat,
            ),
        ensures
            texts(out@) == suggestions(needle@, cands),
        decreases 3 - round,
    {
        let ghost after: Option<Seq<char>> = match last {
            Some(l) => Some(cands[l as int]),
            None => None,
        };
        let mut best: Option<usize> = None;
        let mut j: usize = 0;
        while j < hay.len()
            invariant
                j <= hay.len(),
                cands == texts(hay@),
                thr == threshold(needle@.len()),
                dists@.len() == hay@.len(),
                chars@.len() == hay@.len(),
                forall|k: int| 0 <= k < hay@.len() ==> (#[trigger] chars@[k])@ == cands[k],
                forall|k: int|
                    0 <= k < hay@.len() ==> #[trigger] dists@[k] == edit_distance(
                        needle@,
                        cands[k],
                    ),
                last matches Some(l) ==> l < hay@.len(),
                after == match last {
                    Some(l) => Some(cands[l as int]),
                    None => None,
                },
                best matches Some(b) ==> b < j,
                best_after(needle@, cands, after, j as int) == match best {
                    Some(b) => Some(cands[b as int]),
                    None => None,
                },
            decreases hay.len() - j,
        {
            let near = dists[j] <= thr;
            let follows = match last {
                Some(l) => dists[l] < dists[j] || (dists[l] == dists[j] && lex_less(
                    &chars[l],
                    &chars[j],
                )),
                None => true,
            };
            let improves = match best {
                Some(b) => dists[j] < dists[b] || (dists[j] == dists[b] && lex_less(
                    &chars[j],
                    &chars[b],
                )),
                None => true,
            };
            if near && follows && improves {
                best = Some(j);
            }
            j += 1;
        }
        match best {
            None => {
                assert(texts(out@) + Seq::<Seq<char>>::empty() =~= texts(out@));
                break ;
            },
            Some(b) => {
                let ghost before = texts(out@);
                let picked = hay[b].clone();
                out.push(picked);
                proof {
                    let rest = suggestions_from(
                        needle@,
                        cands,
                        Some(cands[b as int]),
                        (3 - round - 1) as nat,
                    );
                    assert(texts(out@) =~= before + seq![cands[b as int]]);
                    assert(before + (seq![cands[b as int]] + rest) =~= texts(out@) + rest);
                }
                last = Some(b);
            },
        }
        round += 1;
    }
    proof {
        if round == 3 {
            assert(texts(out@) + Seq::<Seq<char>>::empty() =~= texts(out@));
        }
    }
    out
}

} // verus!
