//! Classification of the letters of the Lojban alphabet and of the
//! CV-patterns (shapes) of rafsi.

use vstd::prelude::*;
use vstd::string::StrSliceExecFns;
use vstd::string::StringExecFns;

verus! {

/// The seventeen Lojban consonants.
pub open spec fn is_consonant(c: char) -> bool {
    c == 'b' || c == 'c' || c == 'd' || c == 'f' || c == 'g' || c == 'j' || c == 'k' || c == 'l'
        || c == 'm' || c == 'n' || c == 'p' || c == 'r' || c == 's' || c == 't' || c == 'v'
        || c == 'x' || c == 'z'
}

/// The five Lojban vowels; `y` is a hyphen vowel and is kept apart.
pub open spec fn is_vowel(c: char) -> bool {
    c == 'a' || c == 'e' || c == 'i' || c == 'o' || c == 'u'
}

/// Every character a lujvo may contain.
pub open spec fn is_lojban_char(c: char) -> bool {
    is_consonant(c) || is_vowel(c) || c == '\'' || c == 'y'
}

/// CV class of one character: vowels map to `V`, consonants to `C`,
/// the apostrophe to itself and `y` to `Y`.  Any other character maps
/// to `?`, a class that no shape below accepts.
pub open spec fn cv_of(c: char) -> char {
    if is_vowel(c) {
        'V'
    } else if is_consonant(c) {
        'C'
    } else if c == '\'' {
        '\''
    } else if c == 'y' {
        'Y'
    } else {
        '?'
    }
}

/// The CV-pattern of a string, character by character.
pub open spec fn cv_info_spec(s: Seq<char>) -> Seq<char> {
    s.map_values(|c: char| cv_of(c))
}

/// Shape `CVV` proper (three letters, no apostrophe).
pub open spec fn is_cvv3_shape(s: Seq<char>) -> bool {
    s.len() == 3 && is_consonant(s[0]) && is_vowel(s[1]) && is_vowel(s[2])
}

/// Shape `CV'V`.
pub open spec fn is_cvhv_shape(s: Seq<char>) -> bool {
    s.len() == 4 && is_consonant(s[0]) && is_vowel(s[1]) && s[2] == '\'' && is_vowel(s[3])
}

/// Shape `CVV` in the wide sense used by the normalizer: `CVV` or `CV'V`.
pub open spec fn is_cvv_shape(s: Seq<char>) -> bool {
    is_cvv3_shape(s) || is_cvhv_shape(s)
}

/// Shape `CCV`.
pub open spec fn is_ccv_shape(s: Seq<char>) -> bool {
    s.len() == 3 && is_consonant(s[0]) && is_consonant(s[1]) && is_vowel(s[2])
}

/// Shape `CVC`.
pub open spec fn is_cvc_shape(s: Seq<char>) -> bool {
    s.len() == 3 && is_consonant(s[0]) && is_vowel(s[1]) && is_consonant(s[2])
}

/// Shape `CVCC`.
pub open spec fn is_cvcc_shape(s: Seq<char>) -> bool {
    s.len() == 4 && is_consonant(s[0]) && is_vowel(s[1]) && is_consonant(s[2]) && is_consonant(
        s[3],
    )
}

/// Shape `CCVC`.
pub open spec fn is_ccvc_shape(s: Seq<char>) -> bool {
    s.len() == 4 && is_consonant(s[0]) && is_consonant(s[1]) && is_vowel(s[2]) && is_consonant(
        s[3],
    )
}

/// A four-letter rafsi: shape `CVCC` or `CCVC`.
pub open spec fn is_4letter_shape(s: Seq<char>) -> bool {
    is_cvcc_shape(s) || is_ccvc_shape(s)
}

/// Shape `CVCCV`.
pub open spec fn is_cvccv_shape(s: Seq<char>) -> bool {
    s.len() == 5 && is_consonant(s[0]) && is_vowel(s[1]) && is_consonant(s[2]) && is_consonant(
        s[3],
    ) && is_vowel(s[4])
}

/// Shape `CCVCV`.
pub open spec fn is_ccvcv_shape(s: Seq<char>) -> bool {
    s.len() == 5 && is_consonant(s[0]) && is_consonant(s[1]) && is_vowel(s[2]) && is_consonant(
        s[3],
    ) && is_vowel(s[4])
}

/// A full gismu form: `CVCCV` or `CCVCV`.
pub open spec fn is_gismu_shape(s: Seq<char>) -> bool {
    is_cvccv_shape(s) || is_ccvcv_shape(s)
}

/// A cmevla is a word whose final character is none of `aeiouy'`.
pub open spec fn is_cmevla_spec(s: Seq<char>) -> bool {
    s.len() > 0 && !(is_vowel(s.last()) || s.last() == 'y' || s.last() == '\'')
}

/// Whether `c` is one of the seventeen consonants.
pub fn letter_is_consonant(c: char) -> (r: bool)
    ensures
        r == is_consonant(c),
{
    c == 'b' || c == 'c' || c == 'd' || c == 'f' || c == 'g' || c == 'j' || c == 'k' || c == 'l'
        || c == 'm' || c == 'n' || c == 'p' || c == 'r' || c == 's' || c == 't' || c == 'v'
        || c == 'x' || c == 'z'
}

/// Whether `c` is one of the five vowels.
pub fn letter_is_vowel(c: char) -> (r: bool)
    ensures
        r == is_vowel(c),
{
    c == 'a' || c == 'e' || c == 'i' || c == 'o' || c == 'u'
}

/// Whether every character of `v` is a consonant.
pub fn is_c(v: &str) -> (r: bool)
    ensures
        r == (forall|i: int| 0 <= i < v@.len() ==> is_consonant(v@[i])),
{
    let n = v.unicode_len();
    let mut i: usize = 0;
    while i < n
        invariant
            0 <= i <= n,
            n == v@.len(),
            forall|j: int| 0 <= j < i ==> is_consonant(v@[j]),
        decreases n - i,
    {
        if !letter_is_consonant(v.get_char(i)) {
            return false;
        }
        i = i + 1;
    }
    true
}

/// The CV-pattern of `v` as a string, e.g. `klama` gives `CCVCV` and
/// `ga'u` gives `CV'V`.  Characters outside the Lojban alphabet are
/// excluded: classifying one is a programmer error, not user input.
pub fn get_cv_info(v: &str) -> (r: String)
    requires
        forall|i: int| 0 <= i < v@.len() ==> is_lojban_char(v@[i]),
    ensures
        r@ == cv_info_spec(v@),
{
    proof {
        reveal_strlit("V");
        reveal_strlit("C");
        reveal_strlit("'");
        reveal_strlit("Y");
    }
    let n = v.unicode_len();
    let mut r = String::new();
    let mut i: usize = 0;
    while i < n
        invariant
            0 <= i <= n,
            n == v@.len(),
            forall|k: int| 0 <= k < v@.len() ==> is_lojban_char(v@[k]),
            r@ == cv_info_spec(v@.take(i as int)),
        decreases n - i,
    {
        proof {
            reveal_strlit("V");
            reveal_strlit("C");
            reveal_strlit("'");
            reveal_strlit("Y");
        }
        let c = v.get_char(i);
        if letter_is_vowel(c) {
            r.append("V");
        } else if letter_is_consonant(c) {
            r.append("C");
        } else if c == '\'' {
            r.append("'");
        } else {
            r.append("Y");
        }
        i = i + 1;
        assert(r@ =~= cv_info_spec(v@.take(i as int)));
    }
    assert(v@.take(n as int) =~= v@);
    r
}

/// Whether `rafsi` has shape `CVV` or `CV'V`.
pub fn is_cvv(rafsi: &str) -> (r: bool)
    ensures
        r == is_cvv_shape(rafsi@),
{
    let n = rafsi.unicode_len();
    if n == 3 {
        letter_is_consonant(rafsi.get_char(0)) && letter_is_vowel(rafsi.get_char(1))
            && letter_is_vowel(rafsi.get_char(2))
    } else if n == 4 {
        letter_is_consonant(rafsi.get_char(0)) && letter_is_vowel(rafsi.get_char(1))
            && rafsi.get_char(2) == '\'' && letter_is_vowel(rafsi.get_char(3))
    } else {
        false
    }
}

/// Whether `rafsi` has shape `CCV`.
pub fn is_ccv(rafsi: &str) -> (r: bool)
    ensures
        r == is_ccv_shape(rafsi@),
{
    let n = rafsi.unicode_len();
    n == 3 && letter_is_consonant(rafsi.get_char(0)) && letter_is_consonant(rafsi.get_char(1))
        && letter_is_vowel(rafsi.get_char(2))
}

/// Whether `rafsi` has shape `CVC`.
pub fn is_cvc(rafsi: &str) -> (r: bool)
    ensures
        r == is_cvc_shape(rafsi@),
{
    let n = rafsi.unicode_len();
    n == 3 && letter_is_consonant(rafsi.get_char(0)) && letter_is_vowel(rafsi.get_char(1))
        && letter_is_consonant(rafsi.get_char(2))
}

/// Whether `rafsi` is a four-letter rafsi (`CVCC` or `CCVC`).
pub fn is_4letter(rafsi: &str) -> (r: bool)
    ensures
        r == is_4letter_shape(rafsi@),
{
    let n = rafsi.unicode_len();
    if n != 4 {
        return false;
    }
    let c0 = letter_is_consonant(rafsi.get_char(0));
    let c1 = letter_is_consonant(rafsi.get_char(1));
    let v1 = letter_is_vowel(rafsi.get_char(1));
    let c2 = letter_is_consonant(rafsi.get_char(2));
    let v2 = letter_is_vowel(rafsi.get_char(2));
    let c3 = letter_is_consonant(rafsi.get_char(3));
    (c0 && v1 && c2 && c3) || (c0 && c1 && v2 && c3)
}

/// Whether `s` has shape `CVCC`.
pub fn shape_cvcc(s: &str) -> (r: bool)
    ensures
        r == is_cvcc_shape(s@),
{
    let n = s.unicode_len();
    n == 4 && letter_is_consonant(s.get_char(0)) && letter_is_vowel(s.get_char(1))
        && letter_is_consonant(s.get_char(2)) && letter_is_consonant(s.get_char(3))
}

/// Whether `s` has shape `CCVC`.
pub fn shape_ccvc(s: &str) -> (r: bool)
    ensures
        r == is_ccvc_shape(s@),
{
    let n = s.unicode_len();
    n == 4 && letter_is_consonant(s.get_char(0)) && letter_is_consonant(s.get_char(1))
        && letter_is_vowel(s.get_char(2)) && letter_is_consonant(s.get_char(3))
}

/// Whether `s` has shape `CVCCV`.
pub fn shape_cvccv(s: &str) -> (r: bool)
    ensures
        r == is_cvccv_shape(s@),
{
    let n = s.unicode_len();
    n == 5 && letter_is_consonant(s.get_char(0)) && letter_is_vowel(s.get_char(1))
        && letter_is_consonant(s.get_char(2)) && letter_is_consonant(s.get_char(3))
        && letter_is_vowel(s.get_char(4))
}

/// Whether `s` has shape `CCVCV`.
pub fn shape_ccvcv(s: &str) -> (r: bool)
    ensures
        r == is_ccvcv_shape(s@),
{
    let n = s.unicode_len();
    n == 5 && letter_is_consonant(s.get_char(0)) && letter_is_consonant(s.get_char(1))
        && letter_is_vowel(s.get_char(2)) && letter_is_consonant(s.get_char(3))
        && letter_is_vowel(s.get_char(4))
}

/// Whether `s` has shape `CVV` proper (no apostrophe).
pub fn shape_cvv3(s: &str) -> (r: bool)
    ensures
        r == is_cvv3_shape(s@),
{
    let n = s.unicode_len();
    n == 3 && letter_is_consonant(s.get_char(0)) && letter_is_vowel(s.get_char(1))
        && letter_is_vowel(s.get_char(2))
}

/// Whether `s` has shape `CV'V`.
pub fn shape_cvhv(s: &str) -> (r: bool)
    ensures
        r == is_cvhv_shape(s@),
{
    let n = s.unicode_len();
    n == 4 && letter_is_consonant(s.get_char(0)) && letter_is_vowel(s.get_char(1)) && s.get_char(2)
        == '\'' && letter_is_vowel(s.get_char(3))
}

/// Whether `valsi` ends in a consonant-like character, i.e. is a cmevla.
pub fn is_cmevla(valsi: &str) -> (r: bool)
    ensures
        r == is_cmevla_spec(valsi@),
{
    let n = valsi.unicode_len();
    if n == 0 {
        return false;
    }
    let c = valsi.get_char(n - 1);
    !(letter_is_vowel(c) || c == 'y' || c == '\'')
}

} // verus!
