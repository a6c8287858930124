//! The lujvo cost function: lower is better.  The cost weighs the
//! total length, the apostrophes, the inserted hyphens, the shapes of
//! the rafsi used and the vowels.

use crate::letters::is_ccv;
use crate::letters::is_ccv_shape;
use crate::letters::is_ccvc_shape;
use crate::letters::is_ccvcv_shape;
use crate::letters::is_consonant;
use crate::letters::is_cvc;
use crate::letters::is_cvc_shape;
use crate::letters::is_cvcc_shape;
use crate::letters::is_cvccv_shape;
use crate::letters::is_cvhv_shape;
use crate::letters::is_cvv3_shape;
use crate::letters::is_vowel;
use crate::letters::letter_is_consonant;
use crate::letters::letter_is_vowel;
use crate::letters::shape_ccvc;
use crate::letters::shape_ccvcv;
use crate::letters::shape_cvcc;
use crate::letters::shape_cvccv;
use crate::letters::shape_cvhv;
use crate::letters::shape_cvv3;
use crate::strutil::concat_all;
use crate::strutil::join_strings;
use crate::strutil::seq_views;
use vstd::prelude::*;
use vstd::string::StrSliceExecFns;

verus! {

/// Number of apostrophes in `s`.
pub open spec fn count_apostrophes(s: Seq<char>) -> int
    decreases s.len(),
{
    if s.len() == 0 {
        0
    } else {
        count_apostrophes(s.drop_last()) + if s.last() == '\'' {
            1int
        } else {
            0int
        }
    }
}

/// Number of vowels (`aeiou`) in `s`.
pub open spec fn count_vowels(s: Seq<char>) -> int
    decreases s.len(),
{
    if s.len() == 0 {
        0
    } else {
        count_vowels(s.drop_last()) + if is_vowel(s.last()) {
            1int
        } else {
            0int
        }
    }
}

/// A single-character hyphen token: one consonant (`r`/`n`) or `y`.
pub open spec fn is_hyphen_token(t: Seq<char>) -> bool {
    t.len() == 1 && (is_consonant(t[0]) || t[0] == 'y')
}

/// Number of hyphen tokens in a rafsi/hyphen sequence.
pub open spec fn count_hyphen_tokens(ss: Seq<Seq<char>>) -> int
    decreases ss.len(),
{
    if ss.len() == 0 {
        0
    } else {
        count_hyphen_tokens(ss.drop_last()) + if is_hyphen_token(ss.last()) {
            1int
        } else {
            0int
        }
    }
}

/// The per-shape bonus of one token.
pub open spec fn shape_bonus(t: Seq<char>) -> int {
    if is_cvccv_shape(t) {
        1
    } else if is_cvcc_shape(t) {
        2
    } else if is_ccvcv_shape(t) {
        3
    } else if is_ccvc_shape(t) {
        4
    } else if is_cvc_shape(t) {
        5
    } else if is_cvhv_shape(t) {
        6
    } else if is_ccv_shape(t) {
        7
    } else if is_cvv3_shape(t) {
        8
    } else {
        0
    }
}

/// Sum of the shape bonuses over a rafsi/hyphen sequence.
pub open spec fn shape_bonus_sum(ss: Seq<Seq<char>>) -> int
    decreases ss.len(),
{
    if ss.len() == 0 {
        0
    } else {
        shape_bonus_sum(ss.drop_last()) + shape_bonus(ss.last())
    }
}

/// The cost of a normalized rafsi/hyphen sequence.
pub open spec fn lujvo_score_spec(ss: Seq<Seq<char>>) -> int {
    1000 * concat_all(ss).len() - 500 * count_apostrophes(concat_all(ss)) + 100
        * count_hyphen_tokens(ss) - 10 * shape_bonus_sum(ss) - count_vowels(concat_all(ss))
}

proof fn lemma_count_bounds(s: Seq<char>)
    ensures
        0 <= count_apostrophes(s) <= s.len(),
        0 <= count_vowels(s) <= s.len(),
    decreases s.len(),
{
    if s.len() > 0 {
        lemma_count_bounds(s.drop_last());
    }
}

proof fn lemma_token_bounds(ss: Seq<Seq<char>>)
    ensures
        0 <= count_hyphen_tokens(ss) <= ss.len(),
        0 <= shape_bonus_sum(ss) <= 8 * ss.len(),
    decreases ss.len(),
{
    if ss.len() > 0 {
        lemma_token_bounds(ss.drop_last());
    }
}

/// The cost of a normalized rafsi/hyphen sequence (lower is better):
/// `1000·L − 500·A + 100·H − 10·R − V`, where `L` counts all
/// characters, `A` the apostrophes, `H` the one-character hyphens,
/// `R` the shape bonuses of the rafsi and `V` the vowels.
#[verifier::loop_isolation(false)]
pub fn get_lujvo_score(rafsi_ynr_sequence: &[String]) -> (r: i32)
    requires
        concat_all(seq_views(rafsi_ynr_sequence@)).len() <= 1_000_000,
        rafsi_ynr_sequence@.len() <= 1_000_000,
    ensures
        r as int == lujvo_score_spec(seq_views(rafsi_ynr_sequence@)),
{
    let ghost views = seq_views(rafsi_ynr_sequence@);
    let lujvo = join_strings(rafsi_ynr_sequence);
    let l = lujvo.as_str().unicode_len();
    let mut a: usize = 0;
    let mut v: usize = 0;
    let mut i: usize = 0;
    while i < l
        invariant
            0 <= i <= l,
            l == lujvo@.len(),
            a == count_apostrophes(lujvo@.take(i as int)),
            v == count_vowels(lujvo@.take(i as int)),
            a <= i,
            v <= i,
        decreases l - i,
    {
        let c = lujvo.as_str().get_char(i);
        proof {
            assert(lujvo@.take(i + 1).drop_last() =~= lujvo@.take(i as int));
        }
        if c == '\'' {
            a = a + 1;
        }
        if letter_is_vowel(c) {
            v = v + 1;
        }
        i = i + 1;
    }
    proof {
        assert(lujvo@.take(l as int) =~= lujvo@);
    }
    let n = rafsi_ynr_sequence.len();
    let mut h: usize = 0;
    let mut bonus: usize = 0;
    let mut k: usize = 0;
    while k < n
        invariant
            0 <= k <= n,
            n == rafsi_ynr_sequence@.len(),
            h == count_hyphen_tokens(views.take(k as int)),
            bonus == shape_bonus_sum(views.take(k as int)),
            h <= k,
            bonus <= 8 * k,
        decreases n - k,
    {
        let t = rafsi_ynr_sequence[k].as_str();
        proof {
            assert(views.take(k + 1).drop_last() =~= views.take(k as int));
            assert(views.take(k + 1).last() == t@);
        }
        if t.unicode_len() == 1 && (letter_is_consonant(t.get_char(0)) || t.get_char(0) == 'y') {
            h = h + 1;
        }
        if shape_cvccv(t) {
            bonus = bonus + 1;
        } else if shape_cvcc(t) {
            bonus = bonus + 2;
        } else if shape_ccvcv(t) {
            bonus = bonus + 3;
        } else if shape_ccvc(t) {
            bonus = bonus + 4;
        } else if is_cvc(t) {
            bonus = bonus + 5;
        } else if shape_cvhv(t) {
            bonus = bonus + 6;
        } else if is_ccv(t) {
            bonus = bonus + 7;
        } else if shape_cvv3(t) {
            bonus = bonus + 8;
        }
        k = k + 1;
    }
    proof {
        assert(views.take(n as int) =~= views);
        lemma_count_bounds(lujvo@);
        lemma_token_bounds(views);
    }
    let score: i64 = 1000 * (l as i64) - 500 * (a as i64) + 100 * (h as i64) - 10 * (bonus as i64)
        - (v as i64);
    score as i32
}

} // verus!
