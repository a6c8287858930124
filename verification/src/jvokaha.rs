//! The lujvo decomposer: greedy left-to-right segmentation into rafsi
//! and hyphens, followed by the round-trip check against the
//! normalizer.

use crate::letters::is_ccv_shape;
use crate::letters::is_consonant;
use crate::letters::is_cvc_shape;
use crate::letters::is_cvhv_shape;
use crate::letters::is_gismu_shape;
use crate::letters::is_lojban_char;
use crate::letters::is_vowel;
use crate::letters::letter_is_consonant;
use crate::letters::letter_is_vowel;
use crate::normalize::normalize;
use crate::normalize::normalize_from;
use crate::normalize::normalize_spec;
use crate::strutil::concat_all;
use crate::strutil::join_strings;
use crate::strutil::seq_views;
use crate::strutil::str_eq;
use vstd::prelude::*;
use vstd::string::StrSliceExecFns;
use vstd::string::StringExecFns;

verus! {

/// Why a string failed to parse as a lujvo.
#[derive(Debug, Clone, PartialEq, Eq)]
pub enum LujvoError {
    /// No segmentation into rafsi and hyphens exists.
    Decompose,
    /// The string segments into fewer than two rafsi.
    TooFewRafsi,
    /// The segmentation re-splices to a different string; `correct`
    /// is the form the normalizer would have produced.
    Malformed { correct: String },
}

/// The four falling diphthongs `ai`, `ei`, `oi`, `au`.
pub open spec fn is_diphthong(c1: char, c2: char) -> bool {
    (c1 == 'a' && c2 == 'i') || (c1 == 'e' && c2 == 'i') || (c1 == 'o' && c2 == 'i') || (c1 == 'a'
        && c2 == 'u')
}

/// Pattern `CVCCY`: a four-letter rafsi of shape `CVCC` plus its `y` hyphen.
pub open spec fn is_cvccy_shape(t: Seq<char>) -> bool {
    t.len() == 5 && is_consonant(t[0]) && is_vowel(t[1]) && is_consonant(t[2]) && is_consonant(
        t[3],
    ) && t[4] == 'y'
}

/// Pattern `CCVCY`: a four-letter rafsi of shape `CCVC` plus its `y` hyphen.
pub open spec fn is_ccvcy_shape(t: Seq<char>) -> bool {
    t.len() == 5 && is_consonant(t[0]) && is_consonant(t[1]) && is_vowel(t[2]) && is_consonant(
        t[3],
    ) && t[4] == 'y'
}

/// Greedy segmentation of `s`, where `prev_len` is the length of the
/// token emitted last (`-1` when none has been).  Each step sheds a
/// hyphen or the longest rafsi the head of `s` can be.
pub open spec fn decompose_from(s: Seq<char>, prev_len: int) -> Option<Seq<Seq<char>>>
    decreases s.len(),
{
    if s.len() == 0 {
        Some(Seq::<Seq<char>>::empty())
    } else if prev_len >= 0 && prev_len != 1 && (s[0] == 'y' || (s.len() >= 2 && s[0] == 'n' && s[1]
        == 'r') || (s.len() >= 2 && s[0] == 'r' && is_consonant(s[1]))) {
        match decompose_from(s.drop_first(), 1) {
            Some(rest) => Some(seq![s.take(1)] + rest),
            None => None,
        }
    } else if s.len() >= 3 && is_consonant(s[0]) && is_diphthong(s[1], s[2]) {
        match decompose_from(s.skip(3), 3) {
            Some(rest) => Some(seq![s.take(3)] + rest),
            None => None,
        }
    } else if s.len() >= 4 && is_cvhv_shape(s.take(4)) {
        match decompose_from(s.skip(4), 4) {
            Some(rest) => Some(seq![s.take(4)] + rest),
            None => None,
        }
    } else if s.len() >= 5 && (is_cvccy_shape(s.take(5)) || is_ccvcy_shape(s.take(5))) {
        match decompose_from(s.skip(5), 1) {
            Some(rest) => Some(seq![s.take(4), seq!['y']] + rest),
            None => None,
        }
    } else if is_gismu_shape(s) {
        Some(seq![s])
    } else if s.len() >= 3 && (is_cvc_shape(s.take(3)) || is_ccv_shape(s.take(3))) {
        match decompose_from(s.skip(3), 3) {
            Some(rest) => Some(seq![s.take(3)] + rest),
            None => None,
        }
    } else {
        None
    }
}

/// Length of the token emitted last, `-1` when none has been.
pub open spec fn prev_of(toks: Seq<Seq<char>>) -> int {
    if toks.len() == 0 {
        -1
    } else {
        toks.last().len() as int
    }
}

/// The rafsi of a token sequence: the tokens that are not
/// one-character hyphens, in order.
pub open spec fn rafsi_tokens(toks: Seq<Seq<char>>) -> Seq<Seq<char>>
    decreases toks.len(),
{
    if toks.len() == 0 {
        Seq::<Seq<char>>::empty()
    } else if toks.last().len() != 1 {
        rafsi_tokens(toks.drop_last()).push(toks.last())
    } else {
        rafsi_tokens(toks.drop_last())
    }
}

/// Every token a segmentation emits is a hyphen of one character or
/// a rafsi of three to five.
pub proof fn lemma_decompose_token_lengths(s: Seq<char>, prev_len: int)
    ensures
        decompose_from(s, prev_len) matches Some(toks) ==> forall|i: int|
            0 <= i < toks.len() ==> (#[trigger] toks[i]).len() == 1 || 3 <= toks[i].len() <= 5,
    decreases s.len(),
{
    if s.len() == 0 {
    } else {
        lemma_decompose_token_lengths(s.drop_first(), 1);
        if s.len() >= 3 {
            lemma_decompose_token_lengths(s.skip(3), 3);
        }
        if s.len() >= 4 {
            lemma_decompose_token_lengths(s.skip(4), 4);
        }
        if s.len() >= 5 {
            lemma_decompose_token_lengths(s.skip(5), 1);
        }
    }
}

/// Split a string into rafsi and hyphen tokens by the greedy rules.
/// `Ok` holds exactly the segmentation of [`decompose_from`]; `Err`
/// is returned exactly when no segmentation exists.
#[verifier::loop_isolation(false)]
#[verifier::rlimit(100)]
pub fn jvokaha2(lujvo: &str) -> (r: Result<Vec<String>, LujvoError>)
    requires
        forall|i: int| 0 <= i < lujvo@.len() ==> is_lojban_char(lujvo@[i]),
    ensures
        match r {
            Ok(toks) => decompose_from(lujvo@, -1) == Some(seq_views(toks@)),
            Err(e) => decompose_from(lujvo@, -1) is None && e == LujvoError::Decompose,
        },
{
    proof {
        reveal_strlit("y");
    }
    let n = lujvo.unicode_len();
    let mut res: Vec<String> = Vec::new();
    let mut pos: usize = 0;
    proof {
        assert(lujvo@.skip(0) =~= lujvo@);
        if let Some(rest) = decompose_from(lujvo@, -1) {
            assert(seq_views(res@) + rest =~= rest);
        }
    }
    while pos < n
        invariant
            0 <= pos <= n,
            decompose_from(lujvo@, -1) == match decompose_from(
                lujvo@.skip(pos as int),
                prev_of(seq_views(res@)),
            ) {
                Some(rest) => Some(seq_views(res@) + rest),
                None => None,
            },
        decreases n - pos,
    {
        let ghost rem = lujvo@.skip(pos as int);
        let ghost prev = prev_of(seq_views(res@));
        let ghost res0 = seq_views(res@);
        let avail = n - pos;
        let c0 = lujvo.get_char(pos);

        // Shed one hyphen character.
        let mut hyphen = false;
        if res.len() > 0 {
            let last_len = res[res.len() - 1].as_str().unicode_len();
            if last_len != 1 {
                hyphen = c0 == 'y' || (avail >= 2 && c0 == 'n' && lujvo.get_char(pos + 1) == 'r')
                    || (avail >= 2 && c0 == 'r' && letter_is_consonant(lujvo.get_char(pos + 1)));
            }
        }
        proof {
            assert(rem.len() == avail);
            assert(forall|k: int| 0 <= k < rem.len() ==> rem[k] == lujvo@[pos + k]);
        }
        if hyphen {
            let tok = lujvo.substring_char(pos, pos + 1);
            res.push(tok.to_owned());
            pos = pos + 1;
            proof {
                assert(tok@ =~= rem.take(1));
                assert(seq_views(res@) =~= res0.push(rem.take(1)));
                assert(lujvo@.skip(pos as int) =~= rem.drop_first());
                assert(prev_of(seq_views(res@)) == 1);
                if let Some(rest) = decompose_from(rem.drop_first(), 1) {
                    assert(res0 + (seq![rem.take(1)] + rest) =~= seq_views(res@) + rest);
                }
            }
            continue;
        }
        // A CVV rafsi whose vowels form a diphthong.
        if avail >= 3 && letter_is_consonant(c0) {
            let c1 = lujvo.get_char(pos + 1);
            let c2 = lujvo.get_char(pos + 2);
            let diph = (c1 == 'a' && c2 == 'i') || (c1 == 'e' && c2 == 'i') || (c1 == 'o' && c2
                == 'i') || (c1 == 'a' && c2 == 'u');
            if diph {
                let tok = lujvo.substring_char(pos, pos + 3);
                res.push(tok.to_owned());
                pos = pos + 3;
                proof {
                    assert(tok@ =~= rem.take(3));
                    assert(seq_views(res@) =~= res0.push(rem.take(3)));
                    assert(lujvo@.skip(pos as int) =~= rem.skip(3));
                    assert(prev_of(seq_views(res@)) == 3);
                    if let Some(rest) = decompose_from(rem.skip(3), 3) {
                        assert(res0 + (seq![rem.take(3)] + rest) =~= seq_views(res@) + rest);
                    }
                }
                continue;
            }
        }
        // A CV'V rafsi.
        if avail >= 4 {
            let c1 = lujvo.get_char(pos + 1);
            let c2 = lujvo.get_char(pos + 2);
            let c3 = lujvo.get_char(pos + 3);
            let cvhv = letter_is_consonant(c0) && letter_is_vowel(c1) && c2 == '\''
                && letter_is_vowel(c3);
            proof {
                assert(rem.take(4).len() == 4);
                assert(forall|k: int| 0 <= k < 4 ==> rem.take(4)[k] == rem[k]);
            }
            if cvhv {
                let tok = lujvo.substring_char(pos, pos + 4);
                res.push(tok.to_owned());
                pos = pos + 4;
                proof {
                    assert(tok@ =~= rem.take(4));
                    assert(seq_views(res@) =~= res0.push(rem.take(4)));
                    assert(lujvo@.skip(pos as int) =~= rem.skip(4));
                    assert(prev_of(seq_views(res@)) == 4);
                    if let Some(rest) = decompose_from(rem.skip(4), 4) {
                        assert(res0 + (seq![rem.take(4)] + rest) =~= seq_views(res@) + rest);
                    }
                }
                continue;
            }
        }
        // A four-letter rafsi followed by its y hyphen.
        if avail >= 5 {
            let c1 = lujvo.get_char(pos + 1);
            let c2 = lujvo.get_char(pos + 2);
            let c3 = lujvo.get_char(pos + 3);
            let c4 = lujvo.get_char(pos + 4);
            let cvccy = letter_is_consonant(c0) && letter_is_vowel(c1) && letter_is_consonant(c2)
                && letter_is_consonant(c3) && c4 == 'y';
            let ccvcy = letter_is_consonant(c0) && letter_is_consonant(c1) && letter_is_vowel(c2)
                && letter_is_consonant(c3) && c4 == 'y';
            proof {
                assert(rem.take(5).len() == 5);
                assert(forall|k: int| 0 <= k < 5 ==> rem.take(5)[k] == rem[k]);
            }
            if cvccy || ccvcy {
                let tok = lujvo.substring_char(pos, pos + 4);
                res.push(tok.to_owned());
                let mut y = String::new();
                y.append("y");
                proof {
                    assert(y@ =~= seq!['y']);
                }
                res.push(y);
                pos = pos + 5;
                proof {
                    assert(tok@ =~= rem.take(4));
                    assert(seq_views(res@) =~= res0.push(rem.take(4)).push(seq!['y']));
                    assert(lujvo@.skip(pos as int) =~= rem.skip(5));
                    assert(prev_of(seq_views(res@)) == 1);
                    if let Some(rest) = decompose_from(rem.skip(5), 1) {
                        assert(res0 + (seq![rem.take(4), seq!['y']] + rest) =~= seq_views(res@)
                            + rest);
                    }
                }
                continue;
            }
        }
        // The whole remainder is a five-letter gismu form.
        if avail == 5 {
            let c1 = lujvo.get_char(pos + 1);
            let c2 = lujvo.get_char(pos + 2);
            let c3 = lujvo.get_char(pos + 3);
            let c4 = lujvo.get_char(pos + 4);
            let cvccv = letter_is_consonant(c0) && letter_is_vowel(c1) && letter_is_consonant(c2)
                && letter_is_consonant(c3) && letter_is_vowel(c4);
            let ccvcv = letter_is_consonant(c0) && letter_is_consonant(c1) && letter_is_vowel(c2)
                && letter_is_consonant(c3) && letter_is_vowel(c4);
            if cvccv || ccvcv {
                let tok = lujvo.substring_char(pos, n);
                res.push(tok.to_owned());
                proof {
                    assert(tok@ =~= rem);
                    assert(is_gismu_shape(rem));
                    assert(seq_views(res@) =~= res0.push(rem));
                    assert(res0 + seq![rem] =~= seq_views(res@));
                }
                return Ok(res);
            }
        }
        // A three-letter CVC or CCV rafsi.
        if avail >= 3 {
            let c1 = lujvo.get_char(pos + 1);
            let c2 = lujvo.get_char(pos + 2);
            let cvc = letter_is_consonant(c0) && letter_is_vowel(c1) && letter_is_consonant(c2);
            let ccv = letter_is_consonant(c0) && letter_is_consonant(c1) && letter_is_vowel(c2);
            proof {
                assert(rem.take(3).len() == 3);
                assert(forall|k: int| 0 <= k < 3 ==> rem.take(3)[k] == rem[k]);
            }
            if cvc || ccv {
                let tok = lujvo.substring_char(pos, pos + 3);
                res.push(tok.to_owned());
                pos = pos + 3;
                proof {
                    assert(tok@ =~= rem.take(3));
                    assert(seq_views(res@) =~= res0.push(rem.take(3)));
                    assert(lujvo@.skip(pos as int) =~= rem.skip(3));
                    assert(prev_of(seq_views(res@)) == 3);
                    if let Some(rest) = decompose_from(rem.skip(3), 3) {
                        assert(res0 + (seq![rem.take(3)] + rest) =~= seq_views(res@) + rest);
                    }
                }
                continue;
            }
        }
        proof {
            assert(!is_gismu_shape(rem));
            assert(decompose_from(rem, prev) is None);
        }
        return Err(LujvoError::Decompose);
    }
    proof {
        assert(lujvo@.skip(pos as int) =~= Seq::<char>::empty());
        assert(seq_views(res@) + Seq::<Seq<char>>::empty() =~= seq_views(res@));
    }
    Ok(res)
}

/// Split a lujvo into its constituent rafsi and hyphens.  Succeeds
/// exactly when the greedy segmentation exists, yields at least two
/// rafsi, and re-splices through the normalizer to the input itself;
/// each failure is reported by its own error.
#[verifier::loop_isolation(false)]
pub fn jvokaha(lujvo: &str) -> (r: Result<Vec<String>, LujvoError>)
    requires
        forall|i: int| 0 <= i < lujvo@.len() ==> is_lojban_char(lujvo@[i]),
    ensures
        match r {
            Ok(toks) => {
                &&& decompose_from(lujvo@, -1) == Some(seq_views(toks@))
                &&& rafsi_tokens(seq_views(toks@)).len() >= 2
                &&& concat_all(normalize_spec(rafsi_tokens(seq_views(toks@)))) == lujvo@
            },
            Err(LujvoError::Decompose) => decompose_from(lujvo@, -1) is None,
            Err(LujvoError::TooFewRafsi) => decompose_from(lujvo@, -1) matches Some(toks)
                && rafsi_tokens(toks).len() < 2,
            Err(LujvoError::Malformed { correct }) => decompose_from(lujvo@, -1) matches Some(toks)
                && rafsi_tokens(toks).len() >= 2 && concat_all(normalize_spec(rafsi_tokens(toks)))
                != lujvo@ && correct@ == concat_all(normalize_spec(rafsi_tokens(toks))),
        },
{
    let arr = match jvokaha2(lujvo) {
        Ok(arr) => arr,
        Err(e) => {
            return Err(e);
        },
    };
    let ghost toks = seq_views(arr@);
    let mut rafsi_list: Vec<String> = Vec::new();
    let mut i: usize = 0;
    while i < arr.len()
        invariant
            0 <= i <= arr@.len(),
            toks == seq_views(arr@),
            seq_views(rafsi_list@) == rafsi_tokens(toks.take(i as int)),
        decreases arr@.len() - i,
    {
        proof {
            assert(toks.take(i + 1).drop_last() =~= toks.take(i as int));
            assert(toks.take(i + 1).last() == arr@[i as int]@);
        }
        if arr[i].as_str().unicode_len() != 1 {
            rafsi_list.push(arr[i].clone());
            proof {
                assert(seq_views(rafsi_list@) =~= rafsi_tokens(toks.take(i as int)).push(
                    arr@[i as int]@,
                ));
            }
        }
        i = i + 1;
    }
    proof {
        assert(toks.take(arr@.len() as int) =~= toks);
    }
    if rafsi_list.len() < 2 {
        return Err(LujvoError::TooFewRafsi);
    }
    proof {
        lemma_decompose_token_lengths(lujvo@, -1);
        lemma_rafsi_tokens_long(toks);
        assert forall|k: int| 0 <= k < rafsi_list@.len() implies rafsi_list@[k]@.len() >= 1 by {
            assert(seq_views(rafsi_list@)[k] == rafsi_list@[k]@);
            assert(3 <= rafsi_tokens(toks)[k].len() <= 5);
        }
    }
    let norm = normalize(rafsi_list.as_slice());
    let correct_lujvo = join_strings(norm.as_slice());
    if str_eq(lujvo, correct_lujvo.as_str()) {
        Ok(arr)
    } else {
        Err(LujvoError::Malformed { correct: correct_lujvo })
    }
}

/// Filtering distributes over prepending one token.
proof fn lemma_rafsi_tokens_prepend(x: Seq<char>, ts: Seq<Seq<char>>)
    ensures
        rafsi_tokens(seq![x] + ts) == (if x.len() != 1 {
            seq![x]
        } else {
            Seq::<Seq<char>>::empty()
        }) + rafsi_tokens(ts),
    decreases ts.len(),
{
    if ts.len() == 0 {
        assert(seq![x] + ts =~= seq![x]);
        assert(seq![x].drop_last() =~= Seq::<Seq<char>>::empty());
        assert(rafsi_tokens(Seq::<Seq<char>>::empty()) =~= Seq::<Seq<char>>::empty());
        if x.len() != 1 {
            assert(rafsi_tokens(seq![x]) =~= seq![x]);
            assert(seq![x] + Seq::<Seq<char>>::empty() =~= seq![x]);
        } else {
            assert(rafsi_tokens(seq![x]) =~= Seq::<Seq<char>>::empty());
            assert(Seq::<Seq<char>>::empty() + Seq::<Seq<char>>::empty() =~= Seq::<
                Seq<char>,
            >::empty());
        }
    } else {
        let w = seq![x] + ts;
        assert(w.drop_last() =~= seq![x] + ts.drop_last());
        assert(w.last() == ts.last());
        lemma_rafsi_tokens_prepend(x, ts.drop_last());
        if x.len() != 1 {
            if ts.last().len() != 1 {
                assert((seq![x] + rafsi_tokens(ts.drop_last())).push(ts.last()) =~= seq![x]
                    + rafsi_tokens(ts.drop_last()).push(ts.last()));
            }
        } else {
            if ts.last().len() != 1 {
                assert((Seq::<Seq<char>>::empty() + rafsi_tokens(ts.drop_last())).push(ts.last())
                    =~= Seq::<Seq<char>>::empty() + rafsi_tokens(ts.drop_last()).push(ts.last()));
            }
        }
    }
}

/// A rafsi list fit for the full round-trip theorem: rafsi of shape
/// `CVC`, `CCV`, `CVV` (with a diphthong), `CV'V` or four letters
/// before a plain final rafsi, none of whose heads sheds a hyphen;
/// the first rafsi must not be of `CVV` shape, whose `r`/`n` hyphen
/// the decomposer cannot digest.
pub open spec fn plain_rafsi_list(list: Seq<Seq<char>>) -> bool {
    &&& list.len() >= 2
    &&& forall|j: int|
        0 <= j < list.len() - 1 ==> crate::letters::is_cvc_shape(#[trigger] list[j])
            || crate::letters::is_ccv_shape(list[j]) || crate::letters::is_4letter_shape(list[j])
            || (j >= 1 && ((crate::letters::is_cvv3_shape(list[j]) && is_diphthong(
            list[j][1],
            list[j][2],
        )) || crate::letters::is_cvhv_shape(list[j])))
    &&& plain_tail(list.last())
    &&& forall|j: int| 1 <= j < list.len() ==> sheds_no_hyphen(#[trigger] list[j])
}

/// What the normalizer makes of the suffix of a plain rafsi list
/// starting at `j`: a token sequence whose head is `list[j]`, whose
/// rafsi are exactly that suffix, and which obeys the round-trip
/// grammar's local rules.
proof fn lemma_normalize_grammar(list: Seq<Seq<char>>, j: int)
    requires
        plain_rafsi_list(list),
        0 <= j < list.len(),
    ensures
        ({
            let r = normalize_from(list, j);
            &&& r.len() >= 1
            &&& r[0] == list[j]
            &&& r[0] != seq!['y']
            &&& r.last() == list.last()
            &&& rafsi_tokens(r) == list.skip(j)
            &&& forall|k: int| 0 <= k < r.len() - 1 ==> plain_middle(#[trigger] r[k])
            &&& forall|k: int|
                0 <= k < r.len() && (#[trigger] r[k]) == seq!['y'] ==> 1 <= k < r.len() - 1 && (
                crate::letters::is_cvc_shape(r[k - 1]) || crate::letters::is_ccv_shape(r[k - 1])
                    || crate::letters::is_4letter_shape(r[k - 1]))
            &&& forall|k: int|
                0 <= k < r.len() && crate::letters::is_4letter_shape(#[trigger] r[k]) ==> k + 1
                    < r.len() && r[k + 1] == seq!['y']
            &&& forall|k: int|
                1 <= k < r.len() && (#[trigger] r[k]) != seq!['y'] ==> sheds_no_hyphen(r[k])
        }),
    decreases list.len() - j,
{
    let r = normalize_from(list, j);
    if j == list.len() - 1 {
        assert(r == seq![list.last()]);
        assert(plain_tail(list.last()));
        assert(list.last().len() >= 3);
        assert(!crate::letters::is_4letter_shape(list.last()));
        assert(seq![list.last()].drop_last() =~= Seq::<Seq<char>>::empty());
        assert(rafsi_tokens(Seq::<Seq<char>>::empty()) =~= Seq::<Seq<char>>::empty());
        assert(rafsi_tokens(r) =~= seq![list.last()]);
        assert(list.skip(j) =~= seq![list.last()]);
    } else {
        lemma_normalize_grammar(list, j + 1);
        let rp = normalize_from(list, j + 1);
        let a = list[j];
        assert(crate::letters::is_cvc_shape(a) || crate::letters::is_ccv_shape(a)
            || crate::letters::is_4letter_shape(a) || (j >= 1 && ((crate::letters::is_cvv3_shape(a)
            && is_diphthong(a[1], a[2])) || crate::letters::is_cvhv_shape(a))));
        assert(j == 0 ==> !crate::letters::is_cvv_shape(a));
        assert(a.len() >= 3);
        let withy = crate::normalize::needs_y_spec(a, rp, j == 0, list.len() as int);
        assert(crate::letters::is_4letter_shape(a) ==> withy);
        assert((crate::letters::is_cvv3_shape(a) || crate::letters::is_cvhv_shape(a))
            ==> !withy) by {
            if crate::letters::is_cvv3_shape(a) {
                assert(a.last() == a[2]);
            }
            if crate::letters::is_cvhv_shape(a) {
                assert(a.last() == a[3]);
            }
        }
        assert(r == if withy {
            seq![a] + (seq![seq!['y']] + rp)
        } else {
            seq![a] + rp
        }) by {
            let acc1 = if withy {
                seq![seq!['y']] + rp
            } else {
                rp
            };
            assert(!(j == 0 && crate::letters::is_cvv_shape(a)
                && crate::normalize::should_add_hyphen_spec(list.len() as int, acc1[0])));
        }
        // The rafsi of the new tokens.
        lemma_rafsi_tokens_prepend(a, rp);
        if withy {
            lemma_rafsi_tokens_prepend(seq!['y'], rp);
            assert(seq![a] + (seq![seq!['y']] + rp) =~= seq![a] + seq![seq!['y']] + rp);
            lemma_rafsi_tokens_prepend(a, seq![seq!['y']] + rp);
            assert(rafsi_tokens(r) =~= seq![a] + rafsi_tokens(rp));
        } else {
            assert(rafsi_tokens(r) =~= seq![a] + rafsi_tokens(rp));
        }
        assert(seq![a] + list.skip(j + 1) =~= list.skip(j));
        // The local grammar rules, token by token.
        let off = if withy {
            2int
        } else {
            1int
        };
        assert(r.len() == rp.len() + off);
        assert(forall|k: int| 0 <= k < rp.len() ==> r[k + off] == rp[k]);
        assert(r[0] == a);
        assert(withy ==> r[1] == seq!['y']);
        assert forall|k: int| 0 <= k < r.len() - 1 implies plain_middle(#[trigger] r[k]) by {
            if k >= off {
                assert(r[k] == rp[k - off]);
            } else if k == 1 {
                assert(r[k] == seq!['y']);
            }
        }
        assert forall|k: int|
            0 <= k < r.len() && (#[trigger] r[k]) == seq!['y'] implies 1 <= k < r.len() - 1 && (
        crate::letters::is_cvc_shape(r[k - 1]) || crate::letters::is_ccv_shape(r[k - 1])
            || crate::letters::is_4letter_shape(r[k - 1])) by {
            if k >= off + 1 {
                assert(r[k] == rp[k - off]);
                assert(r[k - 1] == rp[k - off - 1]);
            } else if k == off {
                assert(rp[0] == list[j + 1]);
                assert(rp[0] != seq!['y']);
                if withy {
                    assert(r[k] == rp[0]);
                    assert(false);
                } else {
                    assert(r[k] == rp[0]);
                    assert(false);
                }
            } else if k == 1 && withy {
                assert(r[0] == a);
                assert(!(crate::letters::is_cvv3_shape(a) || crate::letters::is_cvhv_shape(a)));
            } else {
                assert(r[k] == a);
                assert(a.len() >= 3);
                assert(false);
            }
        }
        assert forall|k: int|
            0 <= k < r.len() && crate::letters::is_4letter_shape(#[trigger] r[k]) implies k + 1
            < r.len() && r[k + 1] == seq!['y'] by {
            if k >= off {
                assert(r[k] == rp[k - off]);
                assert(k - off + 1 < rp.len() && rp[k - off + 1] == seq!['y']);
                assert(r[k + 1] == rp[k - off + 1]);
            } else if k == 0 {
                assert(withy);
            } else {
                assert(r[k] == seq!['y']);
                assert(false);
            }
        }
        assert forall|k: int|
            1 <= k < r.len() && (#[trigger] r[k]) != seq!['y'] implies sheds_no_hyphen(r[k]) by {
            if k >= off {
                assert(r[k] == rp[k - off]);
                if k == off {
                    assert(rp[0] == list[j + 1]);
                    assert(sheds_no_hyphen(list[j + 1]));
                } else {
                    assert(rp[k - off] != seq!['y']);
                }
            }
        }
    }
}

/// The full round trip for a plain rafsi list: what the normalizer
/// makes of it is in the round-trip grammar, its rafsi are exactly
/// the list, and the decomposer splits its concatenation back into
/// exactly those tokens — so `jvokaha` accepts every lujvo the
/// enumerator builds from such a list.
pub proof fn lemma_lujvo_round_trip(list: Seq<Seq<char>>)
    requires
        plain_rafsi_list(list),
    ensures
        plain_norm_tokens(normalize_spec(list)),
        rafsi_tokens(normalize_spec(list)) == list,
        decompose_from(concat_all(normalize_spec(list)), -1) == Some(normalize_spec(list)),
{
    lemma_normalize_grammar(list, 0);
    let toks = normalize_spec(list);
    assert(list.skip(0) =~= list);
    assert(toks.len() >= 2) by {
        if toks.len() == 1 {
            assert(toks.drop_last() =~= Seq::<Seq<char>>::empty());
            assert(rafsi_tokens(Seq::<Seq<char>>::empty()).len() == 0);
            assert(rafsi_tokens(toks).len() <= 1);
        }
    }
    assert(plain_norm_tokens(toks));
    lemma_normalized_round_trip(toks);
}

/// Splicing and decomposition invert each other on a two-part lujvo
/// that needs no hyphen: a `CVC` or `CCV` rafsi followed by a final
/// rafsi of shape `CVV` (with a diphthong), `CV'V`, `CVCCV` or
/// `CCVCV` glues to the plain concatenation, and the greedy
/// decomposer splits that string back into exactly the two rafsi —
/// so `jvokaha` accepts every such output of the normalizer.
pub proof fn lemma_two_part_round_trip(a: Seq<char>, b: Seq<char>)
    requires
        crate::letters::is_cvc_shape(a) || crate::letters::is_ccv_shape(a),
        (crate::letters::is_cvv3_shape(b) && is_diphthong(b[1], b[2]))
            || crate::letters::is_cvhv_shape(b) || is_gismu_shape(b),
        crate::letters::is_ccvcv_shape(b) ==> b[0] != 'r' && !(b[0] == 'n' && b[1] == 'r'),
        crate::letters::is_cvc_shape(a) ==> crate::phonotactics::perm_value(a[2], b[0]) != 0 && !(
        a[2] == 'n' && (crate::strutil::has_prefix(b, seq!['t', 's'])
            || crate::strutil::has_prefix(b, seq!['t', 'c']) || crate::strutil::has_prefix(
            b,
            seq!['d', 'z'],
        ) || crate::strutil::has_prefix(b, seq!['d', 'j'])))
            && !crate::normalize::is_tosmabru_spec(a, seq![b]),
    ensures
        normalize_spec(seq![a, b]) == seq![a, b],
        concat_all(seq![a, b]) == a + b,
        decompose_from(a + b, -1) == Some(seq![a, b]),
        rafsi_tokens(seq![a, b]) == seq![a, b],
        concat_all(normalize_spec(rafsi_tokens(seq![a, b]))) == a + b,
{
    let l = a + b;
    let lst = seq![a, b];
    // The normalizer inserts nothing.
    assert(normalize_from(lst, 1) == seq![b]) by {
        assert(lst.last() == b);
    }
    assert(!crate::normalize::needs_y_spec(a, seq![b], true, 2)) by {
        assert(seq![b][0] == b);
        if crate::letters::is_ccv_shape(a) {
            assert(a.last() == a[2]);
            assert(!crate::letters::is_consonant(a.last()));
        } else {
            assert(a.last() == a[2]);
        }
    }
    assert(crate::normalize::glue_step(a, seq![b], true, 2) =~= lst) by {
        assert(!(true && crate::letters::is_cvv_shape(a)
            && crate::normalize::should_add_hyphen_spec(2, seq![b][0])));
        assert(seq![a] + seq![b] =~= lst);
    }
    assert(normalize_spec(lst) == lst);
    // The concatenation of the two parts.
    assert(concat_all(lst) == a + b) by {
        assert(lst.drop_last() =~= seq![a]);
        assert(seq![a].drop_last() =~= Seq::<Seq<char>>::empty());
        assert(concat_all(Seq::<Seq<char>>::empty()) =~= Seq::<char>::empty());
        assert(Seq::<char>::empty() + a =~= a);
        assert(concat_all(seq![a]) == a);
    }
    // Both parts are rafsi tokens.
    assert(rafsi_tokens(lst) =~= lst) by {
        assert(lst.last() == b && b.len() != 1);
        assert(lst.drop_last() =~= seq![a]);
        assert(seq![a].last() == a && a.len() != 1);
        assert(seq![a].drop_last() =~= Seq::<Seq<char>>::empty());
        assert(rafsi_tokens(Seq::<Seq<char>>::empty()) =~= Seq::<Seq<char>>::empty());
        assert(rafsi_tokens(seq![a]) =~= seq![a]);
    }
    // The greedy decomposer takes the first three letters as one
    // rafsi and the remainder as the final one.
    assert(l.len() == 3 + b.len());
    assert(forall|j: int| 0 <= j < 3 ==> l[j] == a[j]);
    assert(forall|j: int| 0 <= j < b.len() ==> l[3 + j] == b[j]);
    assert(l.take(3) =~= a);
    assert(l.skip(3) =~= b);
    assert(l.take(4).len() == 4 && l.take(4)[2] == l[2]);
    assert(l.take(5).len() == 5 && l.take(5)[4] == l[4]);
    assert(l[4] == b[1]);
    assert(!is_cvccy_shape(l.take(5)) && !is_ccvcy_shape(l.take(5)));
    assert(!is_gismu_shape(l));
    assert(!(is_consonant(l[0]) && is_diphthong(l[1], l[2])));
    assert(!is_cvhv_shape(l.take(4)));
    lemma_tail_decomposes(b, 3);
    assert(decompose_from(l, -1) == Some(seq![l.take(3)] + seq![b]));
    assert(seq![l.take(3)] + seq![b] =~= lst);
}

/// A lone final rafsi of shape `CVV` (with a diphthong), `CV'V`,
/// `CVCCV` or `CCVCV` decomposes to itself, provided the
/// hyphen-shedding step does not fire first.
proof fn lemma_tail_decomposes(b: Seq<char>, prev: int)
    requires
        (crate::letters::is_cvv3_shape(b) && is_diphthong(b[1], b[2]))
            || crate::letters::is_cvhv_shape(b) || is_gismu_shape(b),
        prev == 1 || (b[0] != 'y' && !(b.len() >= 2 && b[0] == 'n' && b[1] == 'r') && !(b.len()
            >= 2 && b[0] == 'r' && is_consonant(b[1]))),
    ensures
        decompose_from(b, prev) == Some(seq![b]),
{
    if crate::letters::is_cvv3_shape(b) && is_diphthong(b[1], b[2]) {
        assert(b.take(3) =~= b);
        assert(b.skip(3) =~= Seq::<char>::empty());
        assert(decompose_from(Seq::<char>::empty(), 3) == Some(Seq::<Seq<char>>::empty()));
        assert(seq![b] + Seq::<Seq<char>>::empty() =~= seq![b]);
    } else if crate::letters::is_cvhv_shape(b) {
        assert(!(is_consonant(b[0]) && is_diphthong(b[1], b[2])));
        assert(b.take(4) =~= b);
        assert(b.skip(4) =~= Seq::<char>::empty());
        assert(decompose_from(Seq::<char>::empty(), 4) == Some(Seq::<Seq<char>>::empty()));
        assert(seq![b] + Seq::<Seq<char>>::empty() =~= seq![b]);
    } else {
        assert(is_gismu_shape(b));
        assert(!(is_consonant(b[0]) && is_diphthong(b[1], b[2])));
        assert(b.take(4).len() == 4 && b.take(4)[2] == b[2]);
        assert(!crate::letters::is_cvhv_shape(b.take(4)));
        assert(b.take(5) =~= b);
        assert(!is_cvccy_shape(b.take(5)) && !is_ccvcy_shape(b.take(5)));
    }
}

/// As [`lemma_two_part_round_trip`], for a leading four-letter
/// rafsi: the normalizer inserts the `y` hyphen after it, and the
/// decomposer sheds the rafsi and its hyphen in one step — so
/// `jvokaha` accepts every such output of the normalizer as well.
pub proof fn lemma_four_letter_round_trip(a: Seq<char>, b: Seq<char>)
    requires
        crate::letters::is_4letter_shape(a),
        (crate::letters::is_cvv3_shape(b) && is_diphthong(b[1], b[2]))
            || crate::letters::is_cvhv_shape(b) || is_gismu_shape(b),
    ensures
        normalize_spec(seq![a, b]) == seq![a, seq!['y'], b],
        concat_all(seq![a, seq!['y'], b]) == a + seq!['y'] + b,
        decompose_from(a + seq!['y'] + b, -1) == Some(seq![a, seq!['y'], b]),
        rafsi_tokens(seq![a, seq!['y'], b]) == seq![a, b],
        concat_all(normalize_spec(rafsi_tokens(seq![a, seq!['y'], b]))) == concat_all(
            seq![a, seq!['y'], b],
        ),
{
    let y = seq!['y'];
    let l = a + y + b;
    let lst = seq![a, b];
    let norm = seq![a, y, b];
    // The normalizer inserts exactly the y hyphen.
    assert(normalize_from(lst, 1) == seq![b]) by {
        assert(lst.last() == b);
    }
    assert(crate::normalize::needs_y_spec(a, seq![b], true, 2));
    assert(crate::normalize::glue_step(a, seq![b], true, 2) =~= norm) by {
        assert((seq![y] + seq![b])[0] == y);
        assert(!crate::letters::is_cvv_shape(a));
        assert(seq![a] + (seq![y] + seq![b]) =~= norm);
    }
    assert(normalize_spec(lst) == norm);
    // Its concatenation.
    assert(concat_all(norm) == a + y + b) by {
        assert(norm.drop_last() =~= seq![a, y]);
        assert(seq![a, y].drop_last() =~= seq![a]);
        assert(seq![a].drop_last() =~= Seq::<Seq<char>>::empty());
        assert(concat_all(Seq::<Seq<char>>::empty()) =~= Seq::<char>::empty());
        assert(Seq::<char>::empty() + a =~= a);
        assert(concat_all(seq![a]) == a);
        assert(concat_all(seq![a, y]) == a + y);
    }
    // The rafsi among the tokens are the two rafsi.
    assert(rafsi_tokens(norm) =~= lst) by {
        assert(norm.last() == b && b.len() != 1);
        assert(norm.drop_last() =~= seq![a, y]);
        assert(seq![a, y].last() == y && y.len() == 1);
        assert(seq![a, y].drop_last() =~= seq![a]);
        assert(seq![a].last() == a && a.len() != 1);
        assert(seq![a].drop_last() =~= Seq::<Seq<char>>::empty());
        assert(rafsi_tokens(Seq::<Seq<char>>::empty()) =~= Seq::<Seq<char>>::empty());
        assert(rafsi_tokens(seq![a]) =~= seq![a]);
        assert(rafsi_tokens(seq![a, y]) =~= seq![a]);
    }
    // The decomposer sheds the four-letter rafsi and its hyphen.
    assert(l.len() == 5 + b.len());
    assert(forall|j: int| 0 <= j < 4 ==> l[j] == a[j]);
    assert(l[4] == 'y');
    assert(forall|j: int| 0 <= j < b.len() ==> l[5 + j] == b[j]);
    assert(!(is_consonant(l[0]) && is_diphthong(l[1], l[2])));
    assert(l.take(4).len() == 4 && l.take(4)[2] == l[2]);
    assert(!crate::letters::is_cvhv_shape(l.take(4)));
    assert(l.take(5).len() == 5);
    assert(forall|j: int| 0 <= j < 5 ==> l.take(5)[j] == l[j]);
    assert(is_cvccy_shape(l.take(5)) || is_ccvcy_shape(l.take(5)));
    assert(l.take(4) =~= a);
    assert(l.skip(5) =~= b);
    lemma_tail_decomposes(b, 1);
    assert(decompose_from(l, -1) == Some(seq![l.take(4), seq!['y']] + seq![b]));
    assert(seq![l.take(4), seq!['y']] + seq![b] =~= norm);
}

/// A rafsi whose head sheds no hyphen: it does not begin with `y`,
/// `nr`, or `r` before a consonant.
pub open spec fn sheds_no_hyphen(t: Seq<char>) -> bool {
    t.len() >= 1 && t[0] != 'y' && !(t.len() >= 2 && t[0] == 'n' && t[1] == 'r') && !(t.len() >= 2
        && t[0] == 'r' && is_consonant(t[1]))
}

/// An admissible final rafsi for the round-trip laws: `CVV` with a
/// diphthong, `CV'V`, or a full gismu form.
pub open spec fn plain_tail(t: Seq<char>) -> bool {
    (crate::letters::is_cvv3_shape(t) && is_diphthong(t[1], t[2]))
        || crate::letters::is_cvhv_shape(t) || is_gismu_shape(t)
}

/// A middle token of a normalized sequence in the round-trip
/// grammar: a rafsi of shape `CVC`, `CCV`, `CVV` (with a diphthong),
/// `CV'V`, a four-letter rafsi, or the `y` hyphen.
pub open spec fn plain_middle(t: Seq<char>) -> bool {
    crate::letters::is_cvc_shape(t) || crate::letters::is_ccv_shape(t) || (
    crate::letters::is_cvv3_shape(t) && is_diphthong(t[1], t[2])) || crate::letters::is_cvhv_shape(
        t,
    ) || crate::letters::is_4letter_shape(t) || t == seq!['y']
}

/// A token sequence in the round-trip grammar: middles before a
/// plain tail, every `y` right after a rafsi, every four-letter
/// rafsi right before a `y`, and no rafsi head shedding a hyphen.
pub open spec fn plain_norm_tokens(toks: Seq<Seq<char>>) -> bool {
    &&& toks.len() >= 2
    &&& plain_tail(toks.last())
    &&& forall|j: int| 0 <= j < toks.len() - 1 ==> plain_middle(#[trigger] toks[j])
    &&& forall|j: int|
        0 <= j < toks.len() && (#[trigger] toks[j]) == seq!['y'] ==> 1 <= j < toks.len() - 1 && (
        crate::letters::is_cvc_shape(toks[j - 1]) || crate::letters::is_ccv_shape(toks[j - 1])
            || crate::letters::is_4letter_shape(toks[j - 1]))
    &&& forall|j: int|
        0 <= j < toks.len() && crate::letters::is_4letter_shape(#[trigger] toks[j]) ==> j + 1
            < toks.len() && toks[j + 1] == seq!['y']
    &&& forall|j: int|
        1 <= j < toks.len() && (#[trigger] toks[j]) != seq!['y'] ==> sheds_no_hyphen(toks[j])
}

/// The decomposer splits the concatenation of any token sequence in
/// the round-trip grammar back into exactly those tokens.  When the
/// sequence moreover is what the normalizer makes of its rafsi, the
/// three conditions under which `jvokaha` succeeds all hold, so the
/// decomposer accepts every such output of the lujvo maker.
pub proof fn lemma_normalized_round_trip(toks: Seq<Seq<char>>)
    requires
        plain_norm_tokens(toks),
    ensures
        decompose_from(concat_all(toks), -1) == Some(toks),
        normalize_spec(rafsi_tokens(toks)) == toks ==> concat_all(
            normalize_spec(rafsi_tokens(toks)),
        ) == concat_all(toks),
{
    lemma_norm_suffix_decomposes(toks, 0, -1);
    assert(toks.skip(0) =~= toks);
}

/// The decomposition of the suffix of a grammar-conforming token
/// sequence from token `i` on; `prev` is `1` after a `y` hyphen,
/// `3` after a three-letter rafsi, `4` after a `CV'V` rafsi, `-1` at
/// the start.
proof fn lemma_norm_suffix_decomposes(toks: Seq<Seq<char>>, i: int, prev: int)
    requires
        plain_norm_tokens(toks),
        0 <= i < toks.len(),
        i == 0 ==> prev == -1,
        i >= 1 ==> (toks[i - 1] == seq!['y'] && prev == 1) || ((crate::letters::is_cvc_shape(
            toks[i - 1],
        ) || crate::letters::is_ccv_shape(toks[i - 1]) || crate::letters::is_cvv3_shape(
            toks[i - 1],
        )) && prev == 3) || (crate::letters::is_cvhv_shape(toks[i - 1]) && prev == 4),
        toks[i] == seq!['y'] ==> prev == 3 || prev == 4,
    ensures
        decompose_from(concat_all(toks.skip(i)), prev) == Some(toks.skip(i)),
    decreases toks.len() - i,
{
    let s = concat_all(toks.skip(i));
    if i == toks.len() - 1 {
        assert(toks.skip(i) =~= seq![toks.last()]);
        assert(seq![toks.last()].drop_last() =~= Seq::<Seq<char>>::empty());
        assert(concat_all(Seq::<Seq<char>>::empty()) =~= Seq::<char>::empty());
        assert(Seq::<char>::empty() + toks.last() =~= toks.last());
        assert(s == toks.last());
        assert(prev == 1 || sheds_no_hyphen(toks[i]));
        lemma_tail_decomposes(toks.last(), prev);
        assert(Some(seq![toks.last()]) == Some(toks.skip(i)));
    } else {
        let a = toks[i];
        let rest = concat_all(toks.skip(i + 1));
        crate::strutil::lemma_concat_all_prepend(a, toks.skip(i + 1));
        assert(seq![a] + toks.skip(i + 1) =~= toks.skip(i));
        assert(s == a + rest);
        let b = toks[i + 1];
        let rest2 = concat_all(toks.skip(i + 2));
        crate::strutil::lemma_concat_all_prepend(b, toks.skip(i + 2));
        assert(seq![b] + toks.skip(i + 2) =~= toks.skip(i + 1));
        assert(rest == b + rest2);
        assert(plain_middle(a));
        if a == seq!['y'] {
            // A hyphen is shed on its own.
            assert(prev == 3 || prev == 4);
            assert(s[0] == 'y');
            assert(s.take(1) =~= seq!['y']);
            assert(s.drop_first() =~= rest);
            assert(b != seq!['y']);
            lemma_norm_suffix_decomposes(toks, i + 1, 1);
            assert(decompose_from(s, prev) == Some(seq![s.take(1)] + toks.skip(i + 1)));
            assert(seq![s.take(1)] + toks.skip(i + 1) =~= toks.skip(i));
        } else if crate::letters::is_cvc_shape(a) || crate::letters::is_ccv_shape(a) {
            // A three-letter rafsi is taken on its own.
            assert(a.len() == 3);
            assert(forall|j: int| 0 <= j < 3 ==> s[j] == a[j]);
            assert(s[3] == b[0]);
            if b == seq!['y'] {
                assert(toks[i + 2] != seq!['y']);
                assert(i + 2 < toks.len());
                let c = toks[i + 2];
                crate::strutil::lemma_concat_all_prepend(c, toks.skip(i + 3));
                assert(seq![c] + toks.skip(i + 3) =~= toks.skip(i + 2));
                assert(rest2 == c + concat_all(toks.skip(i + 3)));
                assert(c.len() >= 3 && is_consonant(c[0])) by {
                    if i + 2 == toks.len() - 1 {
                        assert(c == toks.last());
                    }
                }
                assert(rest.len() >= 4);
                assert(rest[1] == rest2[0]);
                assert(rest2[0] == c[0]);
                assert(rest[1] != 'y');
            } else {
                assert(b.len() >= 3 && (is_consonant(b[1]) || crate::letters::is_vowel(b[1])))
                    by {
                    if i + 1 == toks.len() - 1 {
                        assert(b == toks.last());
                    }
                }
                assert(rest[1] == b[1]);
                assert(rest[1] != 'y');
            }
            assert(rest.len() >= 3);
            assert(s.len() >= 6);
            assert(s[4] == rest[1]);
            assert(prev == 3 ==> sheds_no_hyphen(a));
            assert(!(is_consonant(s[0]) && is_diphthong(s[1], s[2])));
            assert(s.take(4).len() == 4 && s.take(4)[2] == s[2]);
            assert(!crate::letters::is_cvhv_shape(s.take(4)));
            assert(s.take(5).len() == 5 && s.take(5)[3] == s[3] && s.take(5)[4] == s[4]);
            assert(!is_cvccy_shape(s.take(5)) && !is_ccvcy_shape(s.take(5))) by {
                if b == seq!['y'] {
                    assert(s[3] == 'y');
                    assert(!is_consonant('y') && !crate::letters::is_vowel('y'));
                } else {
                    assert(s[4] == b[1]);
                }
            }
            assert(!is_gismu_shape(s));
            assert(s.take(3) =~= a);
            assert(s.skip(3) =~= rest);
            lemma_norm_suffix_decomposes(toks, i + 1, 3);
            assert(decompose_from(s, prev) == Some(seq![s.take(3)] + toks.skip(i + 1)));
            assert(seq![s.take(3)] + toks.skip(i + 1) =~= toks.skip(i));
        } else if crate::letters::is_cvv3_shape(a) && is_diphthong(a[1], a[2]) {
            // A CVV rafsi with a diphthong is taken on its own; its
            // vowel at the second position rules the hyphen step out.
            assert(a.len() == 3);
            assert(forall|j: int| 0 <= j < 3 ==> s[j] == a[j]);
            assert(is_consonant(s[0]) && is_diphthong(s[1], s[2]));
            assert(s.take(3) =~= a);
            assert(s.skip(3) =~= rest);
            lemma_norm_suffix_decomposes(toks, i + 1, 3);
            assert(decompose_from(s, prev) == Some(seq![s.take(3)] + toks.skip(i + 1)));
            assert(seq![s.take(3)] + toks.skip(i + 1) =~= toks.skip(i));
        } else if crate::letters::is_cvhv_shape(a) {
            // A CV'V rafsi is taken on its own.
            assert(a.len() == 4);
            assert(forall|j: int| 0 <= j < 4 ==> s[j] == a[j]);
            assert(!(is_consonant(s[0]) && is_diphthong(s[1], s[2])));
            assert(s.take(4).len() == 4);
            assert(forall|j: int| 0 <= j < 4 ==> s.take(4)[j] == s[j]);
            assert(crate::letters::is_cvhv_shape(s.take(4)));
            assert(s.take(4) =~= a);
            assert(s.skip(4) =~= rest);
            lemma_norm_suffix_decomposes(toks, i + 1, 4);
            assert(decompose_from(s, prev) == Some(seq![s.take(4)] + toks.skip(i + 1)));
            assert(seq![s.take(4)] + toks.skip(i + 1) =~= toks.skip(i));
        } else {
            // A four-letter rafsi is taken together with its y hyphen.
            assert(crate::letters::is_4letter_shape(a));
            assert(b == seq!['y']);
            assert(i + 1 < toks.len() - 1);
            assert(a.len() == 4);
            assert(forall|j: int| 0 <= j < 4 ==> s[j] == a[j]);
            assert(rest[0] == 'y');
            assert(s[4] == 'y');
            assert(prev == 3 ==> sheds_no_hyphen(a));
            assert(!(is_consonant(s[0]) && is_diphthong(s[1], s[2])));
            assert(s.take(4).len() == 4 && s.take(4)[2] == s[2]);
            assert(!crate::letters::is_cvhv_shape(s.take(4)));
            assert(s.take(5).len() == 5);
            assert(forall|j: int| 0 <= j < 5 ==> s.take(5)[j] == s[j]);
            assert(is_cvccy_shape(s.take(5)) || is_ccvcy_shape(s.take(5)));
            assert(s.take(4) =~= a);
            assert(s.skip(5) =~= rest2) by {
                assert(rest.drop_first() =~= rest2);
                assert(forall|j: int| 0 <= j < rest2.len() ==> s[5 + j] == rest2[j]);
            }
            assert(toks[i + 2] != seq!['y']);
            lemma_norm_suffix_decomposes(toks, i + 2, 1);
            assert(decompose_from(s, prev) == Some(seq![s.take(4), seq!['y']] + toks.skip(i + 2)));
            assert(seq![s.take(4), seq!['y']] + toks.skip(i + 2) =~= toks.skip(i));
        }
    }
}

/// A rafsi token is never a one-character token, so when every token
/// is a hyphen or a rafsi of three to five characters, every rafsi
/// token has at least three.
proof fn lemma_rafsi_tokens_long(toks: Seq<Seq<char>>)
    requires
        forall|i: int| 0 <= i < toks.len() ==> (#[trigger] toks[i]).len() == 1 || 3 <= toks[i].len()
            <= 5,
    ensures
        forall|k: int| 0 <= k < rafsi_tokens(toks).len() ==> 3 <= (#[trigger] rafsi_tokens(
            toks,
        )[k]).len() <= 5,
    decreases toks.len(),
{
    if toks.len() > 0 {
        assert(forall|i: int| 0 <= i < toks.drop_last().len() ==> (#[trigger] toks.drop_last()[
            i
        ]).len() == 1 || 3 <= toks.drop_last()[i].len() <= 5);
        lemma_rafsi_tokens_long(toks.drop_last());
        if toks.last().len() != 1 {
            assert(toks[toks.len() - 1].len() == 1 || 3 <= toks[toks.len() - 1].len() <= 5);
            assert(rafsi_tokens(toks) == rafsi_tokens(toks.drop_last()).push(toks.last()));
            assert forall|k: int| 0 <= k < rafsi_tokens(toks).len() implies 3 <= (
            #[trigger] rafsi_tokens(toks)[k]).len() <= 5 by {
                if k < rafsi_tokens(toks.drop_last()).len() {
                    assert(rafsi_tokens(toks)[k] == rafsi_tokens(toks.drop_last())[k]);
                } else {
                    assert(rafsi_tokens(toks)[k] == toks.last());
                }
            }
        }
    }
}

} // verus!
