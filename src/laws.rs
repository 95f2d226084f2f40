use vstd::prelude::*;
use crate::distance::{lemma_distance_symmetric, max_score, similarity, Score};
use crate::normalize::{lemma_normalized_clean, lemma_normalized_of_clean, normalized};
use crate::order::{lemma_lex_total_ordering, lex_order, sorted_tokens};
use crate::tokens::{select, split_spaces, unique};
use crate::scorer::{
    combined, one, partial_ratio_spec, prepared, sorted_joined, token_group, token_set_scores, ratio_spec, token_set_ratio_spec, token_sort_ratio_spec,
};

verus! {

/// Normalizing twice gives what normalizing once gives.
pub proof fn lemma_normalize_idempotent(s: Seq<char>)
    ensures
        normalized(normalized(s)) == normalized(s),
{
    lemma_normalized_clean(s);
    lemma_normalized_of_clean(normalized(s));
}

/// Every strategy scores a string against itself as exactly one.
pub proof fn lemma_identity(s: Seq<char>, clean_str: Option<bool>)
    ensures
        ratio_spec(s, s, clean_str) == one(),
        partial_ratio_spec(s, s, clean_str) == one(),
        token_sort_ratio_spec(s, s, clean_str) == one(),
        token_set_ratio_spec(s, s, clean_str) == one(),
        one().wf() && one().is_one(),
{
}

/// Similarity does not depend on the order of its arguments.
pub proof fn lemma_similarity_symmetric(a: Seq<char>, b: Seq<char>, sub: nat)
    ensures
        similarity(a, b, sub) == similarity(b, a, sub),
{
    lemma_distance_symmetric(a, b, sub);
}

/// The token-sort score does not depend on the order of the two strings.
pub proof fn lemma_token_sort_symmetric(a: Seq<char>, b: Seq<char>, clean_str: Option<bool>)
    ensures
        token_sort_ratio_spec(a, b, clean_str) == token_sort_ratio_spec(b, a, clean_str),
{
    lemma_similarity_symmetric(sorted_joined(prepared(a, clean_str)), sorted_joined(prepared(b, clean_str)), 0);
}

proof fn lemma_push_contains(s: Seq<Seq<char>>, x: Seq<char>)
    ensures
        forall|t: Seq<char>| #[trigger] s.push(x).contains(t) <==> (s.contains(t) || t == x),
{
    assert forall|t: Seq<char>| #[trigger] s.push(x).contains(t) <==> (s.contains(t) || t == x) by {
        if s.contains(t) {
            let i = choose|i: int| 0 <= i < s.len() && s[i] == t;
            assert(s.push(x)[i] == t);
        }
        if t == x {
            assert(s.push(x)[s.len() as int] == t);
        }
        if s.push(x).contains(t) && t != x {
            let i = choose|i: int| 0 <= i < s.push(x).len() && s.push(x)[i] == t;
            assert(s[i] == t);
        }
    }
}

proof fn lemma_unique_members(ts: Seq<Seq<char>>)
    ensures
        unique(ts).no_duplicates(),
        forall|t: Seq<char>| unique(ts).contains(t) <==> ts.contains(t),
    decreases ts.len(),
{
    if ts.len() > 0 {
        let init = ts.drop_last();
        lemma_unique_members(init);
        assert(ts =~= init.push(ts.last()));
        lemma_push_contains(init, ts.last());
        lemma_push_contains(unique(init), ts.last());
    }
}

proof fn lemma_select_members(ts: Seq<Seq<char>>, other: Seq<Seq<char>>, inside: bool)
    requires
        ts.no_duplicates(),
    ensures
        select(ts, other, inside).no_duplicates(),
        forall|t: Seq<char>| select(ts, other, inside).contains(t) <==> (ts.contains(t) && other.contains(t) == inside),
    decreases ts.len(),
{
    if ts.len() > 0 {
        let init = ts.drop_last();
        assert(init.no_duplicates());
        lemma_select_members(init, other, inside);
        assert(ts =~= init.push(ts.last()));
        lemma_push_contains(init, ts.last());
        lemma_push_contains(select(init, other, inside), ts.last());
        assert(!init.contains(ts.last())) by {
            if init.contains(ts.last()) {
                let i = choose|i: int| 0 <= i < init.len() && init[i] == ts.last();
                assert(ts[i] == ts[ts.len() - 1]);
            }
        }
    }
}

proof fn lemma_same_members_same_multiset(x: Seq<Seq<char>>, y: Seq<Seq<char>>)
    requires
        x.no_duplicates(),
        y.no_duplicates(),
        forall|t: Seq<char>| x.contains(t) <==> y.contains(t),
    ensures
        x.to_multiset() == y.to_multiset(),
{
    broadcast use vstd::seq_lib::group_to_multiset_ensures;
    broadcast use vstd::multiset::group_multiset_axioms;

    x.lemma_multiset_has_no_duplicates();
    y.lemma_multiset_has_no_duplicates();
    assert forall|t: Seq<char>| x.to_multiset().count(t) == y.to_multiset().count(t) by {
        if x.contains(t) {
            assert(x.to_multiset().contains(t));
            assert(y.to_multiset().contains(t));
        }
    }
    assert(x.to_multiset() =~= y.to_multiset());
}

/// The shared tokens of two strings are the same whichever comes first.
pub proof fn lemma_common_tokens_symmetric(p: Seq<char>, q: Seq<char>)
    ensures
        token_group(p, q, true) == token_group(q, p, true),
{
    let tp = split_spaces(p);
    let tq = split_spaces(q);
    lemma_unique_members(tp);
    lemma_unique_members(tq);
    lemma_select_members(unique(tp), tq, true);
    lemma_select_members(unique(tq), tp, true);
    let x = select(unique(tp), tq, true);
    let y = select(unique(tq), tp, true);
    assert forall|t: Seq<char>| x.contains(t) <==> y.contains(t) by {
        assert(x.contains(t) <==> (unique(tp).contains(t) && tq.contains(t)));
        assert(y.contains(t) <==> (unique(tq).contains(t) && tp.contains(t)));
    }
    lemma_same_members_same_multiset(x, y);
    lemma_lex_total_ordering();
    x.lemma_sort_by_ensures(lex_order());
    y.lemma_sort_by_ensures(lex_order());
    vstd::seq_lib::lemma_sorted_unique(sorted_tokens(x), sorted_tokens(y), lex_order());
}

proof fn lemma_max_commutes(x: Score, y: Score)
    requires
        x.wf(),
        y.wf(),
    ensures
        max_score(x, y).same_value(max_score(y, x)),
        max_score(x, y).wf(),
        max_score(y, x).wf(),
{
    assert(!(x.gt(y) && y.gt(x)));
}

proof fn lemma_max_respects_value(u: Score, v: Score, z: Score)
    requires
        u.wf(),
        v.wf(),
        z.wf(),
        u.same_value(v),
    ensures
        max_score(u, z).same_value(max_score(v, z)),
{
    let (um, ut, vm, vt, zm, zt) = (u.matched as int, u.total as int, v.matched as int, v.total as int, z.matched as int, z.total as int);
    assert((um * zt < zm * ut) <==> (vm * zt < zm * vt)) by (nonlinear_arith)
        requires ut > 0, vt > 0, vm * ut == um * vt;
}

/// The token-set score has the same value whichever string comes first. The two
/// combined token strings are held in memory, so their lengths fit in `usize`.
pub proof fn lemma_token_set_symmetric(a: Seq<char>, b: Seq<char>, clean_str: Option<bool>)
    requires
        combined(prepared(a, clean_str), prepared(b, clean_str)).len() <= usize::MAX,
        combined(prepared(b, clean_str), prepared(a, clean_str)).len() <= usize::MAX,
    ensures
        token_set_ratio_spec(a, b, clean_str).same_value(token_set_ratio_spec(b, a, clean_str)),
{
    if a != b {
        let p = prepared(a, clean_str);
        let q = prepared(b, clean_str);
        lemma_common_tokens_symmetric(p, q);
        let common = token_group(p, q, true);
        let cp = combined(p, q);
        let cq = combined(q, p);
        assert(cq == common + seq![' '] + token_group(q, p, false));
        assert(common.len() <= cp.len());
        assert(cp == token_group(q, p, true) + seq![' '] + token_group(p, q, false));
        lemma_similarity_symmetric(cp, cq, 2);
        crate::distance::lemma_similarity_wf(common, cp, 2);
        crate::distance::lemma_similarity_wf(common, cq, 2);
        crate::distance::lemma_similarity_wf(cp, cq, 2);
        let x = similarity(common, cp, 2);
        let y = similarity(common, cq, 2);
        lemma_max_commutes(x, y);
        lemma_max_respects_value(max_score(x, y), max_score(y, x), similarity(cp, cq, 2));
        assert(token_set_scores(p, q) == max_score(max_score(x, y), similarity(cp, cq, 2)));
        assert(token_set_scores(q, p) == max_score(max_score(y, x), similarity(cq, cp, 2)));
    }
}

} // verus!
