//! The gismu similarity scorer's integer core: longest common
//! subsequence and the dyad-pattern rule.  The weighting of these
//! numerators by donor-language weights is floating-point arithmetic
//! and lives with the front end.

use crate::strutil::contains_str;
use crate::strutil::contains_sub;
use vstd::prelude::*;
use vstd::string::StrSliceExecFns;
use vstd::string::StringExecFns;

verus! {

/// Length of the longest common subsequence of `a` and `b`, by the
/// standard recurrence.
pub open spec fn lcs_spec(a: Seq<char>, b: Seq<char>) -> int
    decreases a.len() + b.len(),
{
    if a.len() == 0 || b.len() == 0 {
        0
    } else if a.last() == b.last() {
        1 + lcs_spec(a.drop_last(), b.drop_last())
    } else {
        let x = lcs_spec(a.drop_last(), b);
        let y = lcs_spec(a, b.drop_last());
        if x >= y {
            x
        } else {
            y
        }
    }
}

/// An LCS is never longer than either word.
pub proof fn lemma_lcs_bounds(a: Seq<char>, b: Seq<char>)
    ensures
        0 <= lcs_spec(a, b),
        lcs_spec(a, b) <= a.len(),
        lcs_spec(a, b) <= b.len(),
    decreases a.len() + b.len(),
{
    if a.len() == 0 || b.len() == 0 {
    } else if a.last() == b.last() {
        lemma_lcs_bounds(a.drop_last(), b.drop_last());
    } else {
        lemma_lcs_bounds(a.drop_last(), b);
        lemma_lcs_bounds(a, b.drop_last());
    }
}

/// Length of the longest common subsequence of `a` and `b`, by
/// dynamic programming over prefixes.
#[verifier::loop_isolation(false)]
pub fn lcs_length(a: &str, b: &str) -> (r: usize)
    ensures
        r as int == lcs_spec(a@, b@),
{
    let m = a.unicode_len();
    let n = b.unicode_len();
    let mut prev: Vec<usize> = Vec::new();
    prev.push(0);
    let mut j0: usize = 0;
    while j0 < n
        invariant
            0 <= j0 <= n,
            prev@.len() == j0 + 1,
            forall|j: int| 0 <= j <= j0 ==> prev@[j] == 0,
        decreases n - j0,
    {
        prev.push(0);
        j0 = j0 + 1;
    }
    proof {
        assert forall|j: int| 0 <= j <= n implies prev@[j] as int == lcs_spec(
            a@.take(0),
            b@.take(j),
        ) by {
            assert(a@.take(0).len() == 0);
        }
    }
    let mut i: usize = 0;
    while i < m
        invariant
            0 <= i <= m,
            m == a@.len(),
            n == b@.len(),
            prev@.len() == n + 1,
            forall|j: int| 0 <= j <= n ==> prev@[j] as int == lcs_spec(a@.take(i as int), b@.take(j)),
        decreases m - i,
    {
        let ca = a.get_char(i);
        let mut cur: Vec<usize> = Vec::new();
        cur.push(0);
        proof {
            assert(b@.take(0).len() == 0);
        }
        let mut j: usize = 0;
        while j < n
            invariant
                0 <= j <= n,
                0 <= i < m,
                cur@.len() == j + 1,
                ca == a@[i as int],
                n == b@.len(),
                m == a@.len(),
                prev@.len() == n + 1,
                forall|jj: int|
                    0 <= jj <= n ==> prev@[jj] as int == lcs_spec(a@.take(i as int), b@.take(jj)),
                forall|jj: int|
                    0 <= jj <= j ==> cur@[jj] as int == lcs_spec(a@.take(i + 1), b@.take(jj)),
            decreases n - j,
        {
            let cb = b.get_char(j);
            proof {
                assert(a@.take(i + 1).drop_last() =~= a@.take(i as int));
                assert(b@.take(j + 1).drop_last() =~= b@.take(j as int));
                assert(a@.take(i + 1).last() == a@[i as int]);
                assert(b@.take(j + 1).last() == b@[j as int]);
                lemma_lcs_bounds(a@.take(i as int), b@.take(j as int));
                lemma_lcs_bounds(a@.take(i as int), b@.take(j + 1));
                lemma_lcs_bounds(a@.take(i + 1), b@.take(j as int));
            }
            if ca == cb {
                cur.push(prev[j] + 1);
            } else {
                let up = prev[j + 1];
                let left = cur[j];
                if up >= left {
                    cur.push(up);
                } else {
                    cur.push(left);
                }
            }
            j = j + 1;
        }
        prev = cur;
        i = i + 1;
    }
    proof {
        assert(a@.take(m as int) =~= a@);
        assert(b@.take(n as int) =~= b@);
    }
    prev[n]
}

/// Characters of `w` at even positions.
pub open spec fn evens(w: Seq<char>) -> Seq<char> {
    Seq::new(((w.len() + 1) / 2) as nat, |i: int| w[2 * i])
}

/// Characters of `w` at odd positions.
pub open spec fn odds(w: Seq<char>) -> Seq<char> {
    Seq::new((w.len() / 2) as nat, |i: int| w[2 * i + 1])
}

/// The dyad rule for a candidate whose LCS with the donor is exactly
/// two: score 2 when some dyad of the candidate occurs in the
/// even-position or odd-position subsequence of the donor (the final
/// dyad is not tried there), or, failing that, anywhere in the donor
/// itself; else 0.
pub open spec fn dyad_pattern_score(k: Seq<char>, w: Seq<char>) -> int {
    if exists|i: int|
        0 <= i < k.len() - 2 && (contains_sub(evens(w), #[trigger] k.subrange(i, i + 2))
            || contains_sub(odds(w), k.subrange(i, i + 2))) {
        2
    } else if exists|i: int| 0 <= i < k.len() - 1 && contains_sub(w, #[trigger] k.subrange(i, i + 2)) {
        2
    } else {
        0
    }
}

/// Evaluate the dyad rule.
#[verifier::loop_isolation(false)]
pub fn score_dyad_by_pattern(candidate: &str, input_word: &str) -> (r: u32)
    requires
        candidate@.len() >= 2,
    ensures
        r as int == dyad_pattern_score(candidate@, input_word@),
{
    let l = candidate.unicode_len();
    let wn = input_word.unicode_len();
    let mut iw02 = String::new();
    let mut iw12 = String::new();
    let mut k: usize = 0;
    while k < wn
        invariant
            0 <= k <= wn,
            wn == input_word@.len(),
            iw02@ == evens(input_word@).take(((k + 1) / 2) as int),
            iw12@ == odds(input_word@).take((k / 2) as int),
        decreases wn - k,
    {
        let ghost e_before = iw02@;
        let ghost o_before = iw12@;
        let piece = input_word.substring_char(k, k + 1);
        proof {
            assert(input_word@.subrange(k as int, k + 1) =~= seq![input_word@[k as int]]);
        }
        if k % 2 == 0 {
            iw02.append(piece);
            proof {
                assert(evens(input_word@)[(k / 2) as int] == input_word@[k as int]);
                assert(iw02@ =~= e_before.push(evens(input_word@)[(k / 2) as int]));
                assert(iw02@ =~= evens(input_word@).take(((k + 2) / 2) as int));
                assert(iw12@ =~= odds(input_word@).take(((k + 1) / 2) as int));
            }
        } else {
            iw12.append(piece);
            proof {
                assert(odds(input_word@)[(k / 2) as int] == input_word@[k as int]);
                assert(iw12@ =~= o_before.push(odds(input_word@)[(k / 2) as int]));
                assert(iw12@ =~= odds(input_word@).take(((k + 1) / 2) as int));
                assert(iw02@ =~= evens(input_word@).take(((k + 2) / 2) as int));
            }
        }
        k = k + 1;
    }
    proof {
        assert(evens(input_word@).take(((wn + 1) / 2) as int) =~= evens(input_word@));
        assert(odds(input_word@).take((wn / 2) as int) =~= odds(input_word@));
        assert(iw02@ == evens(input_word@));
        assert(iw12@ == odds(input_word@));
    }
    let mut i: usize = 0;
    while i < l - 2
        invariant
            0 <= i,
            i <= l,
            l == candidate@.len(),
            iw02@ == evens(input_word@),
            iw12@ == odds(input_word@),
            forall|ii: int|
                0 <= ii < i ==> !(contains_sub(evens(input_word@), #[trigger] candidate@.subrange(
                    ii,
                    ii + 2,
                )) || contains_sub(odds(input_word@), candidate@.subrange(ii, ii + 2))),
        decreases l - i,
    {
        let dyad = candidate.substring_char(i, i + 2);
        if contains_str(iw02.as_str(), dyad) || contains_str(iw12.as_str(), dyad) {
            return 2;
        }
        i = i + 1;
    }
    let mut i2: usize = 0;
    while i2 < l - 1
        invariant
            0 <= i2,
            i2 <= l,
            l == candidate@.len(),
            forall|ii: int|
                0 <= ii < candidate@.len() - 2 ==> !(contains_sub(
                    evens(input_word@),
                    #[trigger] candidate@.subrange(ii, ii + 2),
                ) || contains_sub(odds(input_word@), candidate@.subrange(ii, ii + 2))),
            forall|ii: int|
                0 <= ii < i2 ==> !contains_sub(input_word@, #[trigger] candidate@.subrange(
                    ii,
                    ii + 2,
                )),
        decreases l - i2,
    {
        let dyad = candidate.substring_char(i2, i2 + 2);
        if contains_str(input_word, dyad) {
            return 2;
        }
        i2 = i2 + 1;
    }
    0
}

/// The raw (unnormalized) similarity of a candidate and one donor
/// word: the LCS length, except that an LCS of zero or one scores
/// nothing and an LCS of exactly two is decided by the dyad rule.
pub open spec fn raw_similarity_spec(k: Seq<char>, w: Seq<char>) -> int {
    let l = lcs_spec(k, w);
    if l <= 1 {
        0
    } else if l == 2 {
        dyad_pattern_score(k, w)
    } else {
        l
    }
}

/// The raw similarity numerator of a candidate against one donor
/// word; the caller divides by the donor's length and weighs.
pub fn score_numerator(candidate: &str, word: &str) -> (r: usize)
    ensures
        r as int == raw_similarity_spec(candidate@, word@),
{
    let l = lcs_length(candidate, word);
    if l <= 1 {
        0
    } else if l == 2 {
        proof {
            lemma_lcs_bounds(candidate@, word@);
        }
        let d = score_dyad_by_pattern(candidate, word);
        d as usize
    } else {
        l
    }
}

/// The raw similarity numerators of a candidate against each donor
/// word, in order.
#[verifier::loop_isolation(false)]
pub fn score_numerators(candidate: &str, words: &[String]) -> (r: Vec<usize>)
    ensures
        r@.len() == words@.len(),
        forall|i: int|
            0 <= i < words@.len() ==> r@[i] as int == raw_similarity_spec(
                candidate@,
                (#[trigger] words@[i])@,
            ),
{
    let mut r: Vec<usize> = Vec::new();
    let mut i: usize = 0;
    while i < words.len()
        invariant
            0 <= i <= words@.len(),
            r@.len() == i,
            forall|j: int|
                0 <= j < i ==> r@[j] as int == raw_similarity_spec(
                    candidate@,
                    (#[trigger] words@[j])@,
                ),
        decreases words@.len() - i,
    {
        let s = score_numerator(candidate, words[i].as_str());
        r.push(s);
        i = i + 1;
    }
    r
}

} // verus!
