use vstd::prelude::*;

verus! {

/// The views of a list of tokens.
pub open spec fn views(v: Seq<Vec<char>>) -> Seq<Seq<char>> {
    v.map_values(|t: Vec<char>| t@)
}

/// `s` cut at every space; neighbouring spaces give an empty token between them.
pub open spec fn split_spaces(s: Seq<char>) -> Seq<Seq<char>>
    decreases s.len(),
{
    if s.len() == 0 {
        seq![Seq::<char>::empty()]
    } else {
        let t = split_spaces(s.drop_last());
        if s.last() == ' ' {
            t.push(Seq::<char>::empty())
        } else {
            t.update(t.len() - 1, t.last().push(s.last()))
        }
    }
}

pub proof fn lemma_split_nonempty(s: Seq<char>)
    ensures
        split_spaces(s).len() >= 1,
    decreases s.len(),
{
    if s.len() > 0 {
        lemma_split_nonempty(s.drop_last());
    }
}

/// Splits `s` at every space.
pub fn split_tokens(s: &Vec<char>) -> (r: Vec<Vec<char>>)
    ensures
        views(r@) == split_spaces(s@),
        r.len() >= 1,
{
    let mut done: Vec<Vec<char>> = Vec::new();
    let mut cur: Vec<char> = Vec::new();
    let mut i: usize = 0;
    while i < s.len()
        invariant
            i <= s.len(),
            views(done@).push(cur@) =~= split_spaces(s@.take(i as int)),
        decreases s.len() - i,
    {
        proof {
            lemma_split_nonempty(s@.take(i as int));
            assert(s@.take(i + 1).drop_last() =~= s@.take(i as int));
        }
        if s[i] == ' ' {
            let finished = cur;
            done.push(finished);
            cur = Vec::new();
        } else {
            cur.push(s[i]);
        }
        i = i + 1;
        proof {
            assert(views(done@).push(cur@) =~= split_spaces(s@.take(i as int)));
        }
    }
    done.push(cur);
    proof {
        assert(s@.take(i as int) =~= s@);
        assert(views(done@) =~= split_spaces(s@));
    }
    done
}

/// The tokens joined with one space between neighbours.
pub open spec fn joined(ts: Seq<Seq<char>>) -> Seq<char>
    decreases ts.len(),
{
    if ts.len() == 0 {
        Seq::<char>::empty()
    } else if ts.len() == 1 {
        ts[0]
    } else {
        joined(ts.drop_last()) + seq![' '] + ts.last()
    }
}

/// The tokens of `ts` without repeats, each where it first occurs.
pub open spec fn unique(ts: Seq<Seq<char>>) -> Seq<Seq<char>>
    decreases ts.len(),
{
    if ts.len() == 0 {
        ts
    } else {
        let u = unique(ts.drop_last());
        if u.contains(ts.last()) {
            u
        } else {
            u.push(ts.last())
        }
    }
}

/// The tokens of `ts` that `other` holds (`inside`) or lacks (`!inside`), in order.
pub open spec fn select(ts: Seq<Seq<char>>, other: Seq<Seq<char>>, inside: bool) -> Seq<Seq<char>>
    decreases ts.len(),
{
    if ts.len() == 0 {
        ts
    } else {
        let r = select(ts.drop_last(), other, inside);
        if other.contains(ts.last()) == inside {
            r.push(ts.last())
        } else {
            r
        }
    }
}

/// Appends the characters of `s` to `r`.
pub fn push_all(r: &mut Vec<char>, s: &Vec<char>)
    ensures
        final(r)@ == old(r)@ + s@,
{
    let ghost start = r@;
    let mut i: usize = 0;
    while i < s.len()
        invariant
            i <= s.len(),
            r@ =~= start + s@.take(i as int),
        decreases s.len() - i,
    {
        r.push(s[i]);
        i = i + 1;
        proof {
            assert(r@ =~= start + s@.take(i as int));
        }
    }
    proof {
        assert(s@.take(i as int) =~= s@);
    }
}

/// The tokens joined with one space between neighbours.
pub fn join_tokens(ts: &Vec<Vec<char>>) -> (r: Vec<char>)
    ensures
        r@ == joined(views(ts@)),
{
    let mut r: Vec<char> = Vec::new();
    let mut i: usize = 0;
    while i < ts.len()
        invariant
            i <= ts.len(),
            r@ == joined(views(ts@).take(i as int)),
        decreases ts.len() - i,
    {
        proof {
            assert(views(ts@).take(i + 1).drop_last() =~= views(ts@).take(i as int));
        }
        if i > 0 {
            r.push(' ');
        }
        push_all(&mut r, &ts[i]);
        i = i + 1;
        proof {
            assert(r@ =~= joined(views(ts@).take(i as int)));
        }
    }
    proof {
        assert(views(ts@).take(i as int) =~= views(ts@));
    }
    r
}

/// Whether `ts` holds the token `t`.
pub fn contains_token(ts: &Vec<Vec<char>>, t: &Vec<char>) -> (r: bool)
    ensures
        r == views(ts@).contains(t@),
{
    let mut i: usize = 0;
    while i < ts.len()
        invariant
            i <= ts.len(),
            forall|k: int| 0 <= k < i ==> views(ts@)[k] != t@,
        decreases ts.len() - i,
    {
        if same_chars(&ts[i], t) {
            proof {
                assert(views(ts@)[i as int] == t@);
            }
            return true;
        }
        i = i + 1;
    }
    false
}

/// The tokens of `ts` without repeats, each where it first occurs.
pub fn unique_tokens(ts: &Vec<Vec<char>>) -> (r: Vec<Vec<char>>)
    ensures
        views(r@) == unique(views(ts@)),
{
    let mut r: Vec<Vec<char>> = Vec::new();
    let mut i: usize = 0;
    while i < ts.len()
        invariant
            i <= ts.len(),
            views(r@) == unique(views(ts@).take(i as int)),
        decreases ts.len() - i,
    {
        proof {
            assert(views(ts@).take(i + 1).drop_last() =~= views(ts@).take(i as int));
        }
        if !contains_token(&r, &ts[i]) {
            r.push(ts[i].clone());
        }
        i = i + 1;
        proof {
            assert(views(r@) =~= unique(views(ts@).take(i as int)));
        }
    }
    proof {
        assert(views(ts@).take(i as int) =~= views(ts@));
    }
    r
}

/// The tokens of `ts` that `other` holds (`inside`) or lacks (`!inside`), in order.
pub fn select_tokens(ts: &Vec<Vec<char>>, other: &Vec<Vec<char>>, inside: bool) -> (r: Vec<Vec<char>>)
    ensures
        views(r@) == select(views(ts@), views(other@), inside),
{
    let mut r: Vec<Vec<char>> = Vec::new();
    let mut i: usize = 0;
    while i < ts.len()
        invariant
            i <= ts.len(),
            views(r@) == select(views(ts@).take(i as int), views(other@), inside),
        decreases ts.len() - i,
    {
        proof {
            assert(views(ts@).take(i + 1).drop_last() =~= views(ts@).take(i as int));
        }
        if contains_token(other, &ts[i]) == inside {
            r.push(ts[i].clone());
        }
        i = i + 1;
        proof {
            assert(views(r@) =~= select(views(ts@).take(i as int), views(other@), inside));
        }
    }
    proof {
        assert(views(ts@).take(i as int) =~= views(ts@));
    }
    r
}

/// Whether two character lists are equal.
pub fn same_chars(a: &Vec<char>, b: &Vec<char>) -> (r: bool)
    ensures
        r == (a@ == b@),
{
    if a.len() != b.len() {
        return false;
    }
    let mut i: usize = 0;
    while i < a.len()
        invariant
            i <= a.len(),
            a.len() == b.len(),
            a@.take(i as int) == b@.take(i as int),
        decreases a.len() - i,
    {
        if a[i] != b[i] {
            return false;
        }
        i = i + 1;
        proof {
            assert(a@.take(i as int) =~= a@.take(i - 1).push(a@[i - 1]));
            assert(b@.take(i as int) =~= b@.take(i - 1).push(b@[i - 1]));
        }
    }
    proof {
        assert(a@ =~= a@.take(i as int));
        assert(b@ =~= b@.take(i as int));
    }
    true
}

} // verus!
