//! Small executable helpers over strings, with their sequence-level
//! specifications: equality, prefix test, substring search, joining.

use vstd::prelude::*;
use vstd::string::StrSliceExecFns;
use vstd::string::StringExecFns;

verus! {

/// The views of a sequence of strings.
pub open spec fn seq_views(v: Seq<String>) -> Seq<Seq<char>> {
    v.map_values(|s: String| s@)
}

/// `p` is a prefix of `s`.
pub open spec fn has_prefix(s: Seq<char>, p: Seq<char>) -> bool {
    p.len() <= s.len() && forall|j: int| 0 <= j < p.len() ==> s[j] == p[j]
}

/// `sub` occurs in `s` starting at position `i`.
pub open spec fn matches_at(s: Seq<char>, sub: Seq<char>, i: int) -> bool {
    0 <= i && i + sub.len() <= s.len() && forall|j: int| 0 <= j < sub.len() ==> s[i + j] == sub[j]
}

/// `sub` occurs somewhere in `s`.
pub open spec fn contains_sub(s: Seq<char>, sub: Seq<char>) -> bool {
    exists|i: int| matches_at(s, sub, i)
}

/// The concatenation of a sequence of strings.
pub open spec fn concat_all(ss: Seq<Seq<char>>) -> Seq<char>
    decreases ss.len(),
{
    if ss.len() == 0 {
        Seq::<char>::empty()
    } else {
        concat_all(ss.drop_last()) + ss.last()
    }
}

/// Concatenating after a prepended element splits off that element.
pub proof fn lemma_concat_all_prepend(x: Seq<char>, ss: Seq<Seq<char>>)
    ensures
        concat_all(seq![x] + ss) == x + concat_all(ss),
    decreases ss.len(),
{
    if ss.len() == 0 {
        assert(seq![x] + ss =~= seq![x]);
        assert(seq![x].drop_last() =~= Seq::<Seq<char>>::empty());
        assert(seq![x].last() == x);
        assert(concat_all(Seq::<Seq<char>>::empty()) =~= Seq::<char>::empty());
        assert(Seq::<char>::empty() + x =~= x);
        assert(concat_all(seq![x]) =~= x);
        assert(x + concat_all(ss) =~= x);
    } else {
        let s2 = seq![x] + ss;
        assert(s2.drop_last() =~= seq![x] + ss.drop_last());
        assert(s2.last() == ss.last());
        lemma_concat_all_prepend(x, ss.drop_last());
        assert((x + concat_all(ss.drop_last())) + ss.last() =~= x + concat_all(ss));
    }
}

/// Whether the two strings hold the same characters.
pub fn str_eq(a: &str, b: &str) -> (r: bool)
    ensures
        r == (a@ == b@),
{
    let na = a.unicode_len();
    let nb = b.unicode_len();
    if na != nb {
        return false;
    }
    let mut i: usize = 0;
    while i < na
        invariant
            0 <= i <= na,
            na == a@.len(),
            na == b@.len(),
            forall|j: int| 0 <= j < i ==> a@[j] == b@[j],
        decreases na - i,
    {
        if a.get_char(i) != b.get_char(i) {
            return false;
        }
        i = i + 1;
    }
    proof {
        assert(a@ =~= b@);
    }
    true
}

/// Whether `p` is a prefix of `s`.
pub fn starts_with_str(s: &str, p: &str) -> (r: bool)
    ensures
        r == has_prefix(s@, p@),
{
    let ns = s.unicode_len();
    let np = p.unicode_len();
    if np > ns {
        return false;
    }
    let mut i: usize = 0;
    while i < np
        invariant
            0 <= i <= np,
            ns == s@.len(),
            np == p@.len(),
            np <= ns,
            forall|j: int| 0 <= j < i ==> s@[j] == p@[j],
        decreases np - i,
    {
        if s.get_char(i) != p.get_char(i) {
            return false;
        }
        i = i + 1;
    }
    true
}

/// Whether `sub` occurs in `s` as a contiguous substring.
pub fn contains_str(s: &str, sub: &str) -> (r: bool)
    ensures
        r == contains_sub(s@, sub@),
{
    let ns = s.unicode_len();
    let nsub = sub.unicode_len();
    if nsub > ns {
        proof {
            assert(forall|i: int| !matches_at(s@, sub@, i));
        }
        return false;
    }
    let mut i: usize = 0;
    while i <= ns - nsub
        invariant
            0 <= i <= ns - nsub + 1,
            ns == s@.len(),
            nsub == sub@.len(),
            nsub <= ns,
            forall|k: int| 0 <= k < i ==> !matches_at(s@, sub@, k),
        decreases ns - nsub - i + 1,
    {
        let mut j: usize = 0;
        let mut all: bool = true;
        while j < nsub
            invariant
                0 <= j <= nsub,
                0 <= i <= ns - nsub,
                ns == s@.len(),
                nsub == sub@.len(),
                all ==> forall|k: int| 0 <= k < j ==> s@[i + k] == sub@[k],
                !all ==> !matches_at(s@, sub@, i as int),
            decreases nsub - j,
        {
            if s.get_char(i + j) != sub.get_char(j) {
                all = false;
                j = nsub;
            } else {
                j = j + 1;
            }
        }
        if all {
            assert(matches_at(s@, sub@, i as int));
            return true;
        }
        i = i + 1;
    }
    proof {
        assert forall|k: int| !matches_at(s@, sub@, k) by {
            if 0 <= k <= ns - nsub {
                assert(!matches_at(s@, sub@, k));
            }
        }
    }
    false
}

/// The concatenation of a sequence of strings, in order.
pub fn join_strings(v: &[String]) -> (r: String)
    ensures
        r@ == concat_all(seq_views(v@)),
{
    let mut r = String::new();
    let mut i: usize = 0;
    while i < v.len()
        invariant
            0 <= i <= v@.len(),
            r@ == concat_all(seq_views(v@).take(i as int)),
        decreases v@.len() - i,
    {
        r.append(v[i].as_str());
        proof {
            assert(seq_views(v@).take(i + 1).drop_last() =~= seq_views(v@).take(i as int));
        }
        i = i + 1;
    }
    proof {
        assert(seq_views(v@).take(v@.len() as int) =~= seq_views(v@));
    }
    r
}

} // verus!
