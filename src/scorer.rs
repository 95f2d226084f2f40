use vstd::prelude::*;
use crate::distance::{max_score, score_gt, similarity, similarity_chars, Score};
use crate::normalize::{normalized, normalized_chars};
use crate::text::chars_of;
use crate::order::{sort_tokens, sorted_tokens};
use crate::tokens::{
    join_tokens, joined, push_all, same_chars, select, select_tokens, split_spaces, split_tokens,
    unique, unique_tokens, views,
};

verus! {

pub open spec fn one() -> Score {
    Score { matched: 1, total: 1 }
}

/// Whether the inputs go through normalization: unless the caller says they are
/// already normalized (`Some(false)`).
pub open spec fn cleans(clean_str: Option<bool>) -> bool {
    clean_str != Some(false)
}

pub open spec fn prepared(s: Seq<char>, clean_str: Option<bool>) -> Seq<char> {
    if cleans(clean_str) {
        normalized(s)
    } else {
        s
    }
}

/// The best similarity of any of `ts` to `short`, starting from zero.
pub open spec fn best_token(ts: Seq<Seq<char>>, short: Seq<char>) -> Score
    decreases ts.len(),
{
    if ts.len() == 0 {
        Score { matched: 0, total: 1 }
    } else {
        max_score(best_token(ts.drop_last(), short), similarity(ts.last(), short, 2))
    }
}

pub open spec fn ratio_spec(a: Seq<char>, b: Seq<char>, clean_str: Option<bool>) -> Score {
    if a == b {
        one()
    } else {
        similarity(prepared(a, clean_str), prepared(b, clean_str), 2)
    }
}

pub open spec fn partial_ratio_spec(a: Seq<char>, b: Seq<char>, clean_str: Option<bool>) -> Score {
    if a == b {
        one()
    } else {
        let p = prepared(a, clean_str);
        let q = prepared(b, clean_str);
        if p.len() > q.len() {
            best_token(split_spaces(p), q)
        } else {
            best_token(split_spaces(q), p)
        }
    }
}

/// The tokens of `s` sorted and joined again.
pub open spec fn sorted_joined(s: Seq<char>) -> Seq<char> {
    joined(sorted_tokens(split_spaces(s)))
}

pub open spec fn token_sort_ratio_spec(a: Seq<char>, b: Seq<char>, clean_str: Option<bool>) -> Score {
    if a == b {
        one()
    } else {
        similarity(sorted_joined(prepared(a, clean_str)), sorted_joined(prepared(b, clean_str)), 0)
    }
}

/// The distinct tokens of `p` that `q` has (`inside`) or lacks, sorted and joined.
pub open spec fn token_group(p: Seq<char>, q: Seq<char>, inside: bool) -> Seq<char> {
    joined(sorted_tokens(select(unique(split_spaces(p)), split_spaces(q), inside)))
}

/// The shared tokens of `p` and `q`, a space, and the tokens only `p` has.
pub open spec fn combined(p: Seq<char>, q: Seq<char>) -> Seq<char> {
    token_group(p, q, true) + seq![' '] + token_group(p, q, false)
}

/// The best of: the shared tokens against each side's combined string, and the two
/// combined strings against each other.
pub open spec fn token_set_scores(p: Seq<char>, q: Seq<char>) -> Score {
    let common = token_group(p, q, true);
    let combined_q = common + seq![' '] + token_group(q, p, false);
    max_score(
        max_score(similarity(common, combined(p, q), 2), similarity(common, combined_q, 2)),
        similarity(combined(p, q), combined_q, 2),
    )
}

pub open spec fn token_set_ratio_spec(a: Seq<char>, b: Seq<char>, clean_str: Option<bool>) -> Score {
    if a == b {
        one()
    } else {
        token_set_scores(prepared(a, clean_str), prepared(b, clean_str))
    }
}

fn prepare(s: &str, clean_str: Option<bool>) -> (r: Vec<char>)
    ensures
        r@ == prepared(s@, clean_str),
{
    match clean_str {
        Some(false) => chars_of(s),
        _ => normalized_chars(s),
    }
}

/// Similarity of the two whole strings, after normalization unless `clean_str` is
/// `Some(false)`; equal strings score one at once.
pub fn ratio(str1: &str, str2: &str, clean_str: Option<bool>) -> (r: Score)
    ensures
        r == ratio_spec(str1@, str2@, clean_str),
        r.wf(),
{
    let a = chars_of(str1);
    let b = chars_of(str2);
    if same_chars(&a, &b) {
        return Score { matched: 1, total: 1 };
    }
    let p = prepare(str1, clean_str);
    let q = prepare(str2, clean_str);
    similarity_chars(&p, &q, 2)
}

fn best_token_chars(ts: &Vec<Vec<char>>, short: &Vec<char>) -> (r: Score)
    ensures
        r == best_token(views(ts@), short@),
        r.wf(),
{
    let mut best = Score { matched: 0, total: 1 };
    let mut i: usize = 0;
    while i < ts.len()
        invariant
            i <= ts.len(),
            best == best_token(views(ts@).take(i as int), short@),
            best.wf(),
        decreases ts.len() - i,
    {
        let s = similarity_chars(&ts[i], short, 2);
        proof {
            assert(views(ts@).take(i + 1).drop_last() =~= views(ts@).take(i as int));
        }
        if score_gt(s, best) {
            best = s;
        }
        i = i + 1;
    }
    proof {
        assert(views(ts@).take(i as int) =~= views(ts@));
    }
    best
}

/// The best similarity of a token of the longer prepared string to the shorter one;
/// equal strings score one at once.
pub fn partial_ratio(str1: &str, str2: &str, clean_str: Option<bool>) -> (r: Score)
    ensures
        r == partial_ratio_spec(str1@, str2@, clean_str),
        r.wf(),
{
    let a = chars_of(str1);
    let b = chars_of(str2);
    if same_chars(&a, &b) {
        return Score { matched: 1, total: 1 };
    }
    let p = prepare(str1, clean_str);
    let q = prepare(str2, clean_str);
    if p.len() > q.len() {
        let ts = split_tokens(&p);
        best_token_chars(&ts, &q)
    } else {
        let ts = split_tokens(&q);
        best_token_chars(&ts, &p)
    }
}

fn sorted_joined_chars(s: &Vec<char>) -> (r: Vec<char>)
    ensures
        r@ == sorted_joined(s@),
{
    let ts = split_tokens(s);
    let sorted = sort_tokens(ts);
    join_tokens(&sorted)
}

/// Similarity of the two prepared strings with their tokens sorted, where a
/// substitution costs nothing; equal strings score one at once.
pub fn token_sort_ratio(str1: &str, str2: &str, clean_str: Option<bool>) -> (r: Score)
    ensures
        r == token_sort_ratio_spec(str1@, str2@, clean_str),
        r.wf(),
{
    let a = chars_of(str1);
    let b = chars_of(str2);
    if same_chars(&a, &b) {
        return Score { matched: 1, total: 1 };
    }
    let p = prepare(str1, clean_str);
    let q = prepare(str2, clean_str);
    let sp = sorted_joined_chars(&p);
    let sq = sorted_joined_chars(&q);
    similarity_chars(&sp, &sq, 0)
}

fn token_group_chars(p: &Vec<char>, q: &Vec<char>, inside: bool) -> (r: Vec<char>)
    ensures
        r@ == token_group(p@, q@, inside),
{
    let tp = split_tokens(p);
    let tq = split_tokens(q);
    let distinct = unique_tokens(&tp);
    let chosen = select_tokens(&distinct, &tq, inside);
    let sorted = sort_tokens(chosen);
    join_tokens(&sorted)
}

fn combine(common: &Vec<char>, only: &Vec<char>) -> (r: Vec<char>)
    ensures
        r@ == common@ + seq![' '] + only@,
{
    let mut r: Vec<char> = Vec::new();
    push_all(&mut r, common);
    r.push(' ');
    push_all(&mut r, only);
    proof {
        assert(r@ =~= common@ + seq![' '] + only@);
    }
    r
}

/// The best of three similarities built from the shared and the unshared tokens of
/// the prepared strings; equal strings score one at once.
pub fn token_set_ratio(str1: &str, str2: &str, clean_str: Option<bool>) -> (r: Score)
    ensures
        r == token_set_ratio_spec(str1@, str2@, clean_str),
        r.wf(),
{
    let a = chars_of(str1);
    let b = chars_of(str2);
    if same_chars(&a, &b) {
        return Score { matched: 1, total: 1 };
    }
    let p = prepare(str1, clean_str);
    let q = prepare(str2, clean_str);
    let common = token_group_chars(&p, &q, true);
    let only_p = token_group_chars(&p, &q, false);
    let only_q = token_group_chars(&q, &p, false);
    let combined_p = combine(&common, &only_p);
    let combined_q = combine(&common, &only_q);
    let mut best = similarity_chars(&common, &combined_p, 2);
    let second = similarity_chars(&common, &combined_q, 2);
    if score_gt(second, best) {
        best = second;
    }
    let third = similarity_chars(&combined_p, &combined_q, 2);
    if score_gt(third, best) {
        best = third;
    }
    best
}

} // verus!
