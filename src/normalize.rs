use vstd::prelude::*;
use regex::Regex;
use crate::text::chars_of;

verus! {

/// White space as regex's `\s` reads it in Unicode mode (the `White_Space` property).
pub open spec fn is_white_space(c: char) -> bool {
    ('\t' <= c && c <= '\r') || c == ' ' || c == '\u{85}' || c == '\u{a0}' || c == '\u{1680}'
        || ('\u{2000}' <= c && c <= '\u{200a}') || c == '\u{2028}' || c == '\u{2029}'
        || c == '\u{202f}' || c == '\u{205f}' || c == '\u{3000}'
}

pub open spec fn is_ascii_alphanumeric(c: char) -> bool {
    ('a' <= c && c <= 'z') || ('A' <= c && c <= 'Z') || ('0' <= c && c <= '9')
}

/// The characters that survive normalization: ASCII letters and digits, and white space.
pub open spec fn is_kept(c: char) -> bool {
    is_ascii_alphanumeric(c) || is_white_space(c)
}

pub open spec fn stripped(s: Seq<char>) -> Seq<char> {
    s.filter(|c: char| is_kept(c))
}

/// Each maximal run of white space in `s` replaced by one space.
pub open spec fn collapsed(s: Seq<char>) -> Seq<char>
    decreases s.len(),
{
    if s.len() == 0 {
        s
    } else if is_white_space(s.last()) {
        if s.len() > 1 && is_white_space(s.drop_last().last()) {
            collapsed(s.drop_last())
        } else {
            collapsed(s.drop_last()).push(' ')
        }
    } else {
        collapsed(s.drop_last()).push(s.last())
    }
}

pub open spec fn lower_char(c: char) -> char {
    if 'A' <= c && c <= 'Z' {
        ((c as u32) + 32) as char
    } else {
        c
    }
}

pub open spec fn lowered(s: Seq<char>) -> Seq<char> {
    s.map_values(|c: char| lower_char(c))
}

pub open spec fn trim_front(s: Seq<char>) -> Seq<char>
    decreases s.len(),
{
    if s.len() > 0 && s[0] == ' ' {
        trim_front(s.drop_first())
    } else {
        s
    }
}

pub open spec fn trim_back(s: Seq<char>) -> Seq<char>
    decreases s.len(),
{
    if s.len() > 0 && s.last() == ' ' {
        trim_back(s.drop_last())
    } else {
        s
    }
}

/// The normal form of `s`: only ASCII letters, digits and white space kept, letters
/// lowered, each run of white space made one space, and no space at either end.
pub open spec fn normalized(s: Seq<char>) -> Seq<char> {
    trim_back(trim_front(lowered(collapsed(stripped(s)))))
}

/// A letter or digit, or a space.
pub open spec fn is_word_or_space(c: char) -> bool {
    is_ascii_alphanumeric(c) || c == ' '
}

/// A lowercase ASCII letter, a digit or a space.
pub open spec fn is_clean_char(c: char) -> bool {
    ('a' <= c && c <= 'z') || ('0' <= c && c <= '9') || c == ' '
}

/// No two spaces stand next to each other.
pub open spec fn single_spaced(w: Seq<char>) -> bool {
    forall|i: int| 0 <= i < w.len() - 1 ==> !(#[trigger] w[i] == ' ' && w[i + 1] == ' ')
}

/// What normalization produces: lowercase letters, digits and single spaces between
/// words, with no space at either end.
pub open spec fn is_clean(w: Seq<char>) -> bool {
    &&& forall|i: int| 0 <= i < w.len() ==> is_clean_char(#[trigger] w[i])
    &&& single_spaced(w)
    &&& w.len() > 0 ==> w[0] != ' ' && w.last() != ' '
}

proof fn lemma_stripped_kept(x: Seq<char>)
    requires
        forall|i: int| 0 <= i < x.len() ==> is_kept(#[trigger] x[i]),
    ensures
        stripped(x) == x,
    decreases x.len(),
{
    if x.len() > 0 {
        let init = x.drop_last();
        assert(forall|i: int| 0 <= i < init.len() ==> init[i] == x[i]);
        lemma_stripped_kept(init);
        assert(is_kept(x[x.len() - 1]));
        reveal_with_fuel(Seq::filter, 2);
        assert(stripped(x) == stripped(init).push(x.last()));
        assert(init.push(x.last()) =~= x);
    }
}

proof fn lemma_collapsed_shape(x: Seq<char>)
    requires
        forall|i: int| 0 <= i < x.len() ==> is_kept(#[trigger] x[i]),
    ensures
        forall|i: int| 0 <= i < collapsed(x).len() ==> is_word_or_space(#[trigger] collapsed(x)[i]),
        single_spaced(collapsed(x)),
        x.len() > 0 ==> collapsed(x).len() > 0 && (collapsed(x).last() == ' ' <==> is_white_space(x.last())),
    decreases x.len(),
{
    if x.len() > 0 {
        let init = x.drop_last();
        lemma_collapsed_shape(init);
        let c = collapsed(init);
        assert forall|i: int| 0 <= i < collapsed(x).len() implies is_word_or_space(#[trigger] collapsed(x)[i]) by {
            if i < c.len() {
                assert(collapsed(x)[i] == c[i]);
            }
        }
        assert forall|i: int| 0 <= i < collapsed(x).len() - 1 implies !(#[trigger] collapsed(x)[i] == ' ' && collapsed(x)[i + 1] == ' ') by {
            if i + 1 < c.len() {
                assert(collapsed(x)[i] == c[i] && collapsed(x)[i + 1] == c[i + 1]);
            } else {
                assert(i == c.len() - 1);
                assert(collapsed(x)[i] == c.last());
            }
        }
    }
}

proof fn lemma_collapsed_clean(x: Seq<char>)
    requires
        forall|i: int| 0 <= i < x.len() ==> is_word_or_space(#[trigger] x[i]),
        single_spaced(x),
    ensures
        collapsed(x) == x,
    decreases x.len(),
{
    if x.len() > 0 {
        let init = x.drop_last();
        assert(forall|i: int| 0 <= i < init.len() ==> init[i] == x[i]);
        lemma_collapsed_clean(init);
        if init.len() > 0 {
            assert(!(x[init.len() - 1] == ' ' && x[init.len() as int] == ' '));
        }
        assert(init.push(x.last()) =~= x);
    }
}

proof fn lemma_lowered_shape(x: Seq<char>)
    requires
        forall|i: int| 0 <= i < x.len() ==> is_word_or_space(#[trigger] x[i]),
        single_spaced(x),
    ensures
        forall|i: int| 0 <= i < lowered(x).len() ==> is_clean_char(#[trigger] lowered(x)[i]),
        single_spaced(lowered(x)),
        lowered(x).len() == x.len(),
        forall|i: int| 0 <= i < x.len() ==> (#[trigger] lowered(x)[i] == ' ' <==> x[i] == ' '),
{
    assert forall|i: int| 0 <= i < x.len() implies is_clean_char(#[trigger] lowered(x)[i]) && (lowered(x)[i] == ' ' <==> x[i] == ' ') by {
        let c = x[i];
        if 'A' <= c && c <= 'Z' {
            assert((c as u32) + 32 >= 'a' as u32 && (c as u32) + 32 <= 'z' as u32);
        }
    }
    assert forall|i: int| 0 <= i < lowered(x).len() - 1 implies !(#[trigger] lowered(x)[i] == ' ' && lowered(x)[i + 1] == ' ') by {
        assert(!(x[i] == ' ' && x[i + 1] == ' '));
    }
}

proof fn lemma_lowered_clean(x: Seq<char>)
    requires
        forall|i: int| 0 <= i < x.len() ==> is_clean_char(#[trigger] x[i]),
    ensures
        lowered(x) == x,
{
    assert(lowered(x) =~= x);
}

proof fn lemma_trim_front_shape(x: Seq<char>)
    ensures
        exists|k: int| 0 <= k <= x.len() && trim_front(x) == x.subrange(k, x.len() as int),
        trim_front(x).len() > 0 ==> trim_front(x)[0] != ' ',
    decreases x.len(),
{
    if x.len() > 0 && x[0] == ' ' {
        lemma_trim_front_shape(x.drop_first());
        let k = choose|k: int| 0 <= k <= x.drop_first().len() && trim_front(x.drop_first()) == x.drop_first().subrange(k, x.drop_first().len() as int);
        assert(x.drop_first().subrange(k, x.drop_first().len() as int) =~= x.subrange(k + 1, x.len() as int));
    } else {
        assert(x.subrange(0, x.len() as int) =~= x);
    }
}

proof fn lemma_trim_back_shape(x: Seq<char>)
    ensures
        exists|k: int| 0 <= k <= x.len() && trim_back(x) == x.subrange(0, k),
        trim_back(x).len() > 0 ==> trim_back(x).last() != ' ',
    decreases x.len(),
{
    if x.len() > 0 && x.last() == ' ' {
        lemma_trim_back_shape(x.drop_last());
        let k = choose|k: int| 0 <= k <= x.drop_last().len() && trim_back(x.drop_last()) == x.drop_last().subrange(0, k);
        assert(x.drop_last().subrange(0, k) =~= x.subrange(0, k));
    } else {
        assert(x.subrange(0, x.len() as int) =~= x);
    }
}

/// The normal form is clean.
pub proof fn lemma_normalized_clean(s: Seq<char>)
    ensures
        is_clean(normalized(s)),
{
    let st = stripped(s);
    assert forall|i: int| 0 <= i < st.len() implies is_kept(#[trigger] st[i]) by {
        s.lemma_filter_pred(|c: char| is_kept(c), i);
    }
    lemma_collapsed_shape(st);
    let low = lowered(collapsed(st));
    lemma_lowered_shape(collapsed(st));
    lemma_trim_front_shape(low);
    let front = trim_front(low);
    let k = choose|k: int| 0 <= k <= low.len() && front == low.subrange(k, low.len() as int);
    lemma_trim_back_shape(front);
    let w = trim_back(front);
    let j = choose|j: int| 0 <= j <= front.len() && w == front.subrange(0, j);
    assert forall|i: int| 0 <= i < w.len() implies is_clean_char(#[trigger] w[i]) by {
        assert(w[i] == low[i + k]);
    }
    assert forall|i: int| 0 <= i < w.len() - 1 implies !(#[trigger] w[i] == ' ' && w[i + 1] == ' ') by {
        assert(w[i] == low[i + k] && w[i + 1] == low[i + k + 1]);
    }
    if w.len() > 0 {
        assert(w[0] == front[0]);
    }
}

/// Normalizing a clean string changes nothing.
pub proof fn lemma_normalized_of_clean(w: Seq<char>)
    requires
        is_clean(w),
    ensures
        normalized(w) == w,
{
    lemma_stripped_kept(w);
    lemma_collapsed_clean(w);
    lemma_lowered_clean(w);
}

/// Relies on regex's `Regex::replace_all` with the class `[^a-zA-Z0-9\s]` and an empty
/// replacement: every character that is not an ASCII letter, an ASCII digit or white
/// space is removed.
#[verifier::external_body]
fn strip_symbols(s: &str) -> (r: String)
    ensures
        r@ == stripped(s@),
{
    Regex::new(r"[^a-zA-Z0-9\s]").unwrap().replace_all(s, "").into_owned()
}

/// Relies on regex's `Regex::replace_all` with `\s+` and the replacement `" "`: each
/// leftmost-longest run of white space becomes one space.
#[verifier::external_body]
fn collapse_white_space(s: &str) -> (r: String)
    ensures
        r@ == collapsed(s@),
{
    Regex::new(r"\s+").unwrap().replace_all(s, " ").into_owned()
}

/// Relies on `FromIterator<char>` for `String`: the characters in order.
#[verifier::external_body]
pub(crate) fn string_of(v: &Vec<char>) -> (r: String)
    ensures
        r@ == v@,
{
    v.iter().collect()
}

fn lowercase_chars(v: &Vec<char>) -> (r: Vec<char>)
    ensures
        r@ == lowered(v@),
{
    let mut r: Vec<char> = Vec::new();
    let mut i: usize = 0;
    while i < v.len()
        invariant
            i <= v.len(),
            r@ =~= lowered(v@.take(i as int)),
        decreases v.len() - i,
    {
        let c = v[i];
        let l = if 'A' <= c && c <= 'Z' { ((c as u8) + 32) as char } else { c };
        r.push(l);
        i = i + 1;
        proof {
            assert(r@ =~= lowered(v@.take(i as int)));
        }
    }
    proof {
        assert(v@.take(i as int) =~= v@);
    }
    r
}

proof fn lemma_trim_front_step(s: Seq<char>, k: int)
    requires
        0 <= k < s.len(),
        s[k] == ' ',
    ensures
        trim_front(s.subrange(k, s.len() as int)) == trim_front(s.subrange(k + 1, s.len() as int)),
{
    assert(s.subrange(k, s.len() as int).drop_first() =~= s.subrange(k + 1, s.len() as int));
}

proof fn lemma_trim_back_step(s: Seq<char>, k: int)
    requires
        0 < k <= s.len(),
        s[k - 1] == ' ',
    ensures
        trim_back(s.subrange(0, k)) == trim_back(s.subrange(0, k - 1)),
{
    assert(s.subrange(0, k).drop_last() =~= s.subrange(0, k - 1));
}

fn trim_spaces(v: &Vec<char>) -> (r: Vec<char>)
    ensures
        r@ == trim_back(trim_front(v@)),
{
    let n = v.len();
    let mut start: usize = 0;
    proof {
        assert(v@.subrange(0, n as int) =~= v@);
    }
    while start < n && v[start] == ' '
        invariant
            start <= n,
            n == v.len(),
            trim_front(v@) == trim_front(v@.subrange(start as int, n as int)),
        decreases n - start,
    {
        proof {
            lemma_trim_front_step(v@, start as int);
        }
        start = start + 1;
    }
    let ghost front = v@.subrange(start as int, n as int);
    proof {
        assert(trim_front(front) == front);
        assert(front.subrange(0, front.len() as int) =~= front);
    }
    let mut end: usize = n;
    while end > start && v[end - 1] == ' '
        invariant
            start <= end <= n,
            n == v.len(),
            front == v@.subrange(start as int, n as int),
            trim_back(front) == trim_back(front.subrange(0, end - start)),
        decreases end,
    {
        proof {
            lemma_trim_back_step(front, end - start);
        }
        end = end - 1;
    }
    let mut r: Vec<char> = Vec::new();
    let mut i: usize = start;
    while i < end
        invariant
            start <= i <= end <= n,
            n == v.len(),
            r@ =~= v@.subrange(start as int, i as int),
        decreases end - i,
    {
        r.push(v[i]);
        i = i + 1;
        proof {
            assert(r@ =~= v@.subrange(start as int, i as int));
        }
    }
    proof {
        let t = front.subrange(0, end - start);
        assert(t =~= r@);
        assert(trim_back(t) == t);
    }
    r
}

/// The normal form of `s`, as characters.
pub(crate) fn normalized_chars(s: &str) -> (r: Vec<char>)
    ensures
        r@ == normalized(s@),
{
    let kept = strip_symbols(s);
    let single = collapse_white_space(kept.as_str());
    let chars = chars_of(single.as_str());
    let low = lowercase_chars(&chars);
    trim_spaces(&low)
}

/// Normalizes `s`: only ASCII letters, digits and white space are kept, letters are
/// lowered, runs of white space become one space, and the ends are trimmed.
pub fn clean_string(s: &str) -> (r: String)
    ensures
        r@ == normalized(s@),
{
    let v = normalized_chars(s);
    string_of(&v)
}

} // verus!
