use vstd::prelude::*;

verus! {

/// A similarity score held exactly as the fraction `matched / total`.
#[derive(Clone, Copy, Debug, PartialEq, Eq, Structural)]
pub struct Score {
    pub matched: u128,
    pub total: u128,
}

impl Score {
    /// A score lies in `[0, 1]`: its numerator never exceeds its positive denominator.
    pub open spec fn wf(self) -> bool {
        0 < self.total && self.matched <= self.total && self.total < SCORE_BOUND
    }

    /// `self` is strictly greater than `other` as a fraction.
    pub open spec fn gt(self, other: Score) -> bool {
        other.matched * self.total < self.matched * other.total
    }

    /// The two scores are equal as fractions.
    pub open spec fn same_value(self, other: Score) -> bool {
        other.matched * self.total == self.matched * other.total
    }

    /// The score is exactly one.
    pub open spec fn is_one(self) -> bool {
        self.matched == self.total
    }
}

/// Every score's denominator is a sum of two lengths, so it stays below 2^66.
pub const SCORE_BOUND: u128 = 0x4_0000_0000_0000_0000;

const HALF: u128 = 0x1_0000_0000;

/// The larger of two scores; the first one where they are equal.
pub open spec fn max_score(x: Score, y: Score) -> Score {
    if y.gt(x) {
        y
    } else {
        x
    }
}

/// `a * b` as `hi * 2^32 + lo`, with `lo < 2^32`, without overflow.
fn wide_mul(a: u128, b: u128) -> (r: (u128, u128))
    requires
        a < SCORE_BOUND,
        b < SCORE_BOUND,
    ensures
        r.0 * HALF + r.1 == a * b,
        r.1 < HALF,
{
    let bh = b / HALF;
    let bl = b % HALF;
    assert(a * bl < SCORE_BOUND * HALF) by (nonlinear_arith)
        requires a < SCORE_BOUND, bl < HALF, SCORE_BOUND == 0x4_0000_0000_0000_0000u128, HALF == 0x1_0000_0000u128;
    assert(bh < 0x4_0000_0000u128);
    assert(a * bh < SCORE_BOUND * 0x4_0000_0000u128) by (nonlinear_arith)
        requires a < SCORE_BOUND, bh < 0x4_0000_0000u128;
    let lo_full = a * bl;
    let hi = a * bh + lo_full / HALF;
    let lo = lo_full % HALF;
    assert(hi * HALF + lo == a * b) by (nonlinear_arith)
        requires
            b == bh * HALF + bl,
            lo_full == a * bl,
            lo_full == (lo_full / HALF) * HALF + lo,
            hi == a * bh + lo_full / HALF;
    (hi, lo)
}

/// Whether `x` is strictly greater than `y` as a fraction.
pub fn score_gt(x: Score, y: Score) -> (r: bool)
    requires
        x.wf(),
        y.wf(),
    ensures
        r == x.gt(y),
{
    let (h1, l1) = wide_mul(y.matched, x.total);
    let (h2, l2) = wide_mul(x.matched, y.total);
    let r = h1 < h2 || (h1 == h2 && l1 < l2);
    assert(r == (h1 * HALF + l1 < h2 * HALF + l2)) by (nonlinear_arith)
        requires l1 < HALF, l2 < HALF, HALF > 0, r == (h1 < h2 || (h1 == h2 && l1 < l2));
    r
}

pub open spec fn min3(x: nat, y: nat, z: nat) -> nat {
    if x <= y && x <= z {
        x
    } else if y <= z {
        y
    } else {
        z
    }
}

/// Minimum cost of turning `a` into `b` with insertions and deletions of cost one
/// and substitutions of cost `sub`.
pub open spec fn edit_distance(a: Seq<char>, b: Seq<char>, sub: nat) -> nat
    decreases a.len() + b.len(),
{
    if a.len() == 0 {
        b.len()
    } else if b.len() == 0 {
        a.len()
    } else {
        let cost: nat = if a.last() == b.last() { 0 } else { sub };
        min3(
            edit_distance(a.drop_last(), b, sub) + 1,
            edit_distance(a, b.drop_last(), sub) + 1,
            edit_distance(a.drop_last(), b.drop_last(), sub) + cost,
        )
    }
}

/// The similarity of `a` and `b`: `(|a| + |b| - distance) / (|a| + |b|)`, and one
/// when both are empty.
pub open spec fn similarity(a: Seq<char>, b: Seq<char>, sub: nat) -> Score {
    let total = a.len() + b.len();
    if total == 0 {
        Score { matched: 1, total: 1 }
    } else {
        Score {
            matched: (total - edit_distance(a, b, sub)) as u128,
            total: total as u128,
        }
    }
}

/// The distance never exceeds deleting all of `a` and inserting all of `b`.
pub proof fn lemma_distance_bound(a: Seq<char>, b: Seq<char>, sub: nat)
    ensures
        edit_distance(a, b, sub) <= a.len() + b.len(),
    decreases a.len() + b.len(),
{
    if a.len() > 0 && b.len() > 0 {
        lemma_distance_bound(a.drop_last(), b, sub);
    }
}

/// A string is at distance zero from itself.
pub proof fn lemma_distance_self(a: Seq<char>, sub: nat)
    ensures
        edit_distance(a, a, sub) == 0,
    decreases a.len(),
{
    if a.len() > 0 {
        lemma_distance_self(a.drop_last(), sub);
    }
}

/// The distance is the same in both directions.
pub proof fn lemma_distance_symmetric(a: Seq<char>, b: Seq<char>, sub: nat)
    ensures
        edit_distance(a, b, sub) == edit_distance(b, a, sub),
    decreases a.len() + b.len(),
{
    if a.len() > 0 && b.len() > 0 {
        lemma_distance_symmetric(a.drop_last(), b, sub);
        lemma_distance_symmetric(a, b.drop_last(), sub);
        lemma_distance_symmetric(a.drop_last(), b.drop_last(), sub);
    }
}

/// Every similarity lies in `[0, 1]`.
pub proof fn lemma_similarity_wf(a: Seq<char>, b: Seq<char>, sub: nat)
    requires
        a.len() <= usize::MAX,
        b.len() <= usize::MAX,
    ensures
        similarity(a, b, sub).wf(),
{
    lemma_distance_bound(a, b, sub);
}

/// Weighted edit distance between two character sequences, by dynamic programming
/// over one row of the distance grid at a time.
pub fn edit_distance_chars(a: &Vec<char>, b: &Vec<char>, sub: usize) -> (d: u128)
    ensures
        d == edit_distance(a@, b@, sub as nat),
{
    let n = a.len();
    let m = b.len();
    let mut prev: Vec<u128> = Vec::new();
    prev.push(0);
    let mut j: usize = 0;
    while j < m
        invariant
            j <= m,
            m == b.len(),
            prev.len() == j + 1,
            forall|k: int| 0 <= k <= j ==> #[trigger] prev[k] == edit_distance(a@.take(0), b@.take(k), sub as nat),
        decreases m - j,
    {
        prev.push(j as u128 + 1);
        j = j + 1;
    }
    let mut i: usize = 0;
    while i < n
        invariant
            i <= n,
            n == a.len(),
            m == b.len(),
            prev.len() == m + 1,
            forall|k: int| 0 <= k <= m ==> #[trigger] prev[k] == edit_distance(a@.take(i as int), b@.take(k), sub as nat),
        decreases n - i,
    {
        let mut cur: Vec<u128> = Vec::new();
        cur.push(i as u128 + 1);
        let mut j: usize = 0;
        while j < m
            invariant
                i < n,
                j <= m,
                n == a.len(),
                m == b.len(),
                prev.len() == m + 1,
                cur.len() == j + 1,
                forall|k: int| 0 <= k <= m ==> #[trigger] prev[k] == edit_distance(a@.take(i as int), b@.take(k), sub as nat),
                forall|k: int| 0 <= k <= j ==> #[trigger] cur[k] == edit_distance(a@.take(i + 1), b@.take(k), sub as nat),
            decreases m - j,
        {
            let ghost ai = a@.take(i + 1);
            let ghost bj = b@.take(j + 1);
            proof {
                assert(ai.drop_last() =~= a@.take(i as int));
                assert(bj.drop_last() =~= b@.take(j as int));
                lemma_distance_bound(a@.take(i as int), bj, sub as nat);
                lemma_distance_bound(ai, b@.take(j as int), sub as nat);
                lemma_distance_bound(a@.take(i as int), b@.take(j as int), sub as nat);
            }
            let cost: u128 = if a[i] == b[j] { 0 } else { sub as u128 };
            let up = prev[j + 1] + 1;
            let left = cur[j] + 1;
            let diag = prev[j] + cost;
            let best = if up <= left && up <= diag {
                up
            } else if left <= diag {
                left
            } else {
                diag
            };
            cur.push(best);
            j = j + 1;
        }
        prev = cur;
        i = i + 1;
    }
    proof {
        assert(a@.take(n as int) =~= a@);
        assert(b@.take(m as int) =~= b@);
    }
    prev[m]
}

/// The similarity score of two character sequences.
pub fn similarity_chars(a: &Vec<char>, b: &Vec<char>, sub: usize) -> (r: Score)
    ensures
        r == similarity(a@, b@, sub as nat),
        r.wf(),
{
    let n = a.len();
    let m = b.len();
    proof {
        lemma_similarity_wf(a@, b@, sub as nat);
        lemma_distance_bound(a@, b@, sub as nat);
    }
    let total = n as u128 + m as u128;
    if total == 0 {
        Score { matched: 1, total: 1 }
    } else {
        let d = edit_distance_chars(a, b, sub);
        Score { matched: total - d, total }
    }
}

/// Similarity of two strings under substitution cost `substitution_const`.
pub fn levenshtein(str1: &str, str2: &str, substitution_const: usize) -> (r: Score)
    ensures
        r == similarity(str1@, str2@, substitution_const as nat),
        r.wf(),
{
    let a = crate::text::chars_of(str1);
    let b = crate::text::chars_of(str2);
    similarity_chars(&a, &b, substitution_const)
}

} // verus!
