use vstd::prelude::*;

verus! {

broadcast use vstd::string::group_string_axioms;

/// The characters of `s`, in order.
pub fn chars_of(s: &str) -> (v: Vec<char>)
    ensures
        v@ == s@,
{
    let mut v: Vec<char> = Vec::new();
    for c in it: s.chars()
        invariant
            it.seq() == s@,
            v@ == s@.take(v@.len() as int),
            v@.len() == it.index(),
    {
        v.push(c);
        proof {
            assert(v@ =~= s@.take(v@.len() as int));
        }
    }
    proof {
        assert(v@ =~= s@);
    }
    v
}

} // verus!
