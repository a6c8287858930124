//! Legality of consonant clusters: the admissible word-initial pairs,
//! the banned medial pairs and triples, and the three-valued
//! permissibility judgment on ordered consonant pairs.

use crate::letters::is_consonant;
use vstd::prelude::*;

verus! {

/// The 48 consonant pairs that may start a word.
pub open spec fn is_valid_initial_pair(c1: char, c2: char) -> bool {
    (c1 == 'b' && (c2 == 'l' || c2 == 'r')) || (c1 == 'c' && (c2 == 'f' || c2 == 'k' || c2 == 'l'
        || c2 == 'm' || c2 == 'n' || c2 == 'p' || c2 == 'r' || c2 == 't')) || (c1 == 'd' && (c2
        == 'j' || c2 == 'r' || c2 == 'z')) || (c1 == 'f' && (c2 == 'l' || c2 == 'r')) || (c1 == 'g'
        && (c2 == 'l' || c2 == 'r')) || (c1 == 'j' && (c2 == 'b' || c2 == 'd' || c2 == 'g' || c2
        == 'm' || c2 == 'v')) || (c1 == 'k' && (c2 == 'l' || c2 == 'r')) || (c1 == 'm' && (c2 == 'l'
        || c2 == 'r')) || (c1 == 'p' && (c2 == 'l' || c2 == 'r')) || (c1 == 's' && (c2 == 'f' || c2
        == 'k' || c2 == 'l' || c2 == 'm' || c2 == 'n' || c2 == 'p' || c2 == 'r' || c2 == 't')) || (
    c1 == 't' && (c2 == 'c' || c2 == 'r' || c2 == 's')) || (c1 == 'v' && (c2 == 'l' || c2 == 'r'))
        || (c1 == 'x' && (c2 == 'l' || c2 == 'r')) || (c1 == 'z' && (c2 == 'b' || c2 == 'd' || c2
        == 'g' || c2 == 'm' || c2 == 'v'))
}

/// The sibilants `c`, `j`, `s`, `z`.
pub open spec fn is_sibilant(c: char) -> bool {
    c == 'c' || c == 'j' || c == 's' || c == 'z'
}

/// The voiced consonants `b`, `d`, `g`, `j`, `v`, `z`.
pub open spec fn is_voiced(c: char) -> bool {
    c == 'b' || c == 'd' || c == 'g' || c == 'j' || c == 'v' || c == 'z'
}

/// The unvoiced consonants `c`, `f`, `k`, `p`, `s`, `t`, `x`.
pub open spec fn is_unvoiced(c: char) -> bool {
    c == 'c' || c == 'f' || c == 'k' || c == 'p' || c == 's' || c == 't' || c == 'x'
}

/// The pairs `cx`, `kx`, `xc`, `xk`, `mz`, banned anywhere.
pub open spec fn is_forbidden_cc(c1: char, c2: char) -> bool {
    (c1 == 'c' && c2 == 'x') || (c1 == 'k' && c2 == 'x') || (c1 == 'x' && c2 == 'c') || (c1 == 'x'
        && c2 == 'k') || (c1 == 'm' && c2 == 'z')
}

/// The triples `ndj`, `ndz`, `ntc`, `nts`, banned anywhere.
pub open spec fn is_forbidden_ccc(c1: char, c2: char, c3: char) -> bool {
    c1 == 'n' && ((c2 == 'd' && (c3 == 'j' || c3 == 'z')) || (c2 == 't' && (c3 == 'c' || c3
        == 's')))
}

/// A pair of consonants admissible in the middle of a word: the two
/// differ, do not mix voiced with unvoiced, are not both sibilants,
/// and are not one of the banned pairs.
pub open spec fn is_valid_medial_pair(c1: char, c2: char) -> bool {
    !(c1 == c2 || (is_voiced(c1) && is_unvoiced(c2)) || (is_unvoiced(c1) && is_voiced(c2)) || (
    is_sibilant(c1) && is_sibilant(c2)) || is_forbidden_cc(c1, c2))
}

/// The permissibility judgment on an ordered pair: `2` when the pair
/// may start a word, `1` when it is admissible only medially, `0`
/// when it is inadmissible.  Pairs outside the consonant alphabet
/// have no table entry and default to `0`.
pub open spec fn perm_value(c1: char, c2: char) -> int {
    if is_consonant(c1) && is_consonant(c2) {
        if is_valid_initial_pair(c1, c2) {
            2
        } else if is_valid_medial_pair(c1, c2) {
            1
        } else {
            0
        }
    } else {
        0
    }
}

/// Whether the ordered pair `(c1, c2)` may start a word.
pub fn valid_initial_pair(c1: char, c2: char) -> (r: bool)
    ensures
        r == is_valid_initial_pair(c1, c2),
{
    match c1 {
        'b' => c2 == 'l' || c2 == 'r',
        'c' => c2 == 'f' || c2 == 'k' || c2 == 'l' || c2 == 'm' || c2 == 'n' || c2 == 'p' || c2
            == 'r' || c2 == 't',
        'd' => c2 == 'j' || c2 == 'r' || c2 == 'z',
        'f' => c2 == 'l' || c2 == 'r',
        'g' => c2 == 'l' || c2 == 'r',
        'j' => c2 == 'b' || c2 == 'd' || c2 == 'g' || c2 == 'm' || c2 == 'v',
        'k' => c2 == 'l' || c2 == 'r',
        'm' => c2 == 'l' || c2 == 'r',
        'p' => c2 == 'l' || c2 == 'r',
        's' => c2 == 'f' || c2 == 'k' || c2 == 'l' || c2 == 'm' || c2 == 'n' || c2 == 'p' || c2
            == 'r' || c2 == 't',
        't' => c2 == 'c' || c2 == 'r' || c2 == 's',
        'v' => c2 == 'l' || c2 == 'r',
        'x' => c2 == 'l' || c2 == 'r',
        'z' => c2 == 'b' || c2 == 'd' || c2 == 'g' || c2 == 'm' || c2 == 'v',
        _ => false,
    }
}

/// Whether the ordered pair `(c1, c2)` is admissible in the middle of
/// a word.
pub fn valid_medial_pair(c1: char, c2: char) -> (r: bool)
    ensures
        r == is_valid_medial_pair(c1, c2),
{
    let voiced1 = c1 == 'b' || c1 == 'd' || c1 == 'g' || c1 == 'j' || c1 == 'v' || c1 == 'z';
    let voiced2 = c2 == 'b' || c2 == 'd' || c2 == 'g' || c2 == 'j' || c2 == 'v' || c2 == 'z';
    let unvoiced1 = c1 == 'c' || c1 == 'f' || c1 == 'k' || c1 == 'p' || c1 == 's' || c1 == 't'
        || c1 == 'x';
    let unvoiced2 = c2 == 'c' || c2 == 'f' || c2 == 'k' || c2 == 'p' || c2 == 's' || c2 == 't'
        || c2 == 'x';
    let sib1 = c1 == 'c' || c1 == 'j' || c1 == 's' || c1 == 'z';
    let sib2 = c2 == 'c' || c2 == 'j' || c2 == 's' || c2 == 'z';
    let banned = (c1 == 'c' && c2 == 'x') || (c1 == 'k' && c2 == 'x') || (c1 == 'x' && c2 == 'c')
        || (c1 == 'x' && c2 == 'k') || (c1 == 'm' && c2 == 'z');
    !(c1 == c2 || (voiced1 && unvoiced2) || (unvoiced1 && voiced2) || (sib1 && sib2) || banned)
}

/// The permissibility of the ordered pair `(c1, c2)`, as an integer
/// in `{0, 1, 2}` (see [`perm_value`]).
pub fn is_permissible(c1: char, c2: char) -> (r: i32)
    ensures
        r as int == perm_value(c1, c2),
        0 <= r <= 2,
{
    if !(crate::letters::letter_is_consonant(c1) && crate::letters::letter_is_consonant(c2)) {
        0
    } else if valid_initial_pair(c1, c2) {
        2
    } else if valid_medial_pair(c1, c2) {
        1
    } else {
        0
    }
}

} // verus!
