//! The lujvo normalizer: splices an ordered rafsi list into a single
//! compound, inserting the `y`, `r` and `n` hyphens that Lojban
//! morphology requires, including the tosmabru guard.

use crate::letters::is_4letter_shape;
use crate::letters::is_ccv_shape;
use crate::letters::is_cmevla_spec;
use crate::letters::is_consonant;
use crate::letters::is_cvc_shape;
use crate::letters::is_cvccv_shape;
use crate::letters::is_cvv_shape;
use crate::letters::is_4letter;
use crate::letters::is_ccv;
use crate::letters::is_cmevla;
use crate::letters::is_cvc;
use crate::letters::is_cvv;
use crate::letters::letter_is_consonant;
use crate::phonotactics::is_permissible;
use crate::phonotactics::perm_value;
use crate::strutil::has_prefix;
use crate::strutil::seq_views;
use crate::strutil::starts_with_str;
use crate::strutil::str_eq;
use vstd::prelude::*;
use vstd::string::StrSliceExecFns;
use vstd::string::StringExecFns;

verus! {

/// An `r`/`n` hyphen is required after a leading `CVV` rafsi unless
/// the lujvo has exactly two parts and the second is of shape `CCV`.
pub open spec fn should_add_hyphen_spec(list_len: int, next: Seq<char>) -> bool {
    list_len > 2 || !is_ccv_shape(next)
}

/// Index of the first element of `rest` that is not of shape `CVC`
/// (`rest.len()` if every element is).
pub open spec fn first_non_cvc(rest: Seq<Seq<char>>) -> int
    decreases rest.len(),
{
    if rest.len() == 0 {
        0
    } else if !is_cvc_shape(rest[0]) {
        0
    } else {
        1 + first_non_cvc(rest.drop_first())
    }
}

/// When the last element of `rest` is not of shape `CVC` (as is the
/// case whenever it is not a cmevla), the first non-`CVC` index is a
/// real index, everything before it is `CVC`, and it is not.
pub proof fn lemma_first_non_cvc(rest: Seq<Seq<char>>)
    requires
        rest.len() > 0,
        !is_cvc_shape(rest.last()),
    ensures
        0 <= first_non_cvc(rest) < rest.len(),
        forall|k: int| 0 <= k < first_non_cvc(rest) ==> is_cvc_shape(rest[k]),
        !is_cvc_shape(rest[first_non_cvc(rest)]),
    decreases rest.len(),
{
    if is_cvc_shape(rest[0]) {
        lemma_first_non_cvc(rest.drop_first());
        assert forall|k: int| 0 <= k < first_non_cvc(rest) implies is_cvc_shape(rest[k]) by {
            if k > 0 {
                assert(is_cvc_shape(rest.drop_first()[k - 1]));
            }
        }
        assert(!is_cvc_shape(rest.drop_first()[first_non_cvc(rest.drop_first())]));
    }
}

/// The boundary walk of the tosmabru test: every junction must be an
/// admissible word-initial pair; a `y` hyphen settles the question.
pub open spec fn tosmabru_walk(prev_last: char, items: Seq<Seq<char>>) -> bool
    decreases items.len(),
{
    if items.len() == 0 {
        true
    } else if items[0] == seq!['y'] {
        true
    } else if perm_value(prev_last, items[0][0]) != 2 {
        false
    } else {
        tosmabru_walk(items[0].last(), items.drop_first())
    }
}

/// The tosmabru hazard: a leading `CVC` rafsi followed by material
/// that could be re-read with a word break after it, which forces a
/// preventive `y` hyphen.
pub open spec fn is_tosmabru_spec(rafsi: Seq<char>, rest: Seq<Seq<char>>) -> bool {
    if rest.len() == 0 {
        false
    } else if is_cmevla_spec(rest.last()) {
        false
    } else {
        let idx = first_non_cvc(rest);
        let s = rest[idx];
        if s != seq!['y'] && !(is_cvccv_shape(s) && perm_value(s[2], s[3]) == 2) {
            false
        } else {
            tosmabru_walk(rafsi.last(), rest.take(idx + 1))
        }
    }
}

/// The conditions under which a `y` hyphen is inserted in front of
/// the part already assembled (`acc`), when `rafsi` precedes it.
/// `first` says that `rafsi` is the first rafsi of the whole list,
/// `list_len` is the length of the whole list.
pub open spec fn needs_y_spec(rafsi: Seq<char>, acc: Seq<Seq<char>>, first: bool, list_len: int) -> bool {
    let next = acc[0];
    is_4letter_shape(rafsi) || (is_consonant(rafsi.last()) && is_consonant(next[0]) && perm_value(
        rafsi.last(),
        next[0],
    ) == 0) || (rafsi.last() == 'n' && (has_prefix(next, seq!['t', 's']) || has_prefix(
        next,
        seq!['t', 'c'],
    ) || has_prefix(next, seq!['d', 'z']) || has_prefix(next, seq!['d', 'j']))) || (first
        && is_cvv_shape(rafsi) && should_add_hyphen_spec(list_len, next)) || (first && is_cvc_shape(
        rafsi,
    ) && is_tosmabru_spec(rafsi, acc))
}

/// One right-to-left step of the normalizer: possibly a `y` hyphen,
/// possibly an `r`/`n` hyphen after a leading `CVV` rafsi, then the
/// rafsi itself, all prepended to `acc`.
pub open spec fn glue_step(rafsi: Seq<char>, acc: Seq<Seq<char>>, first: bool, list_len: int) -> Seq<
    Seq<char>,
> {
    let acc1 = if needs_y_spec(rafsi, acc, first, list_len) {
        seq![seq!['y']] + acc
    } else {
        acc
    };
    let acc2 = if first && is_cvv_shape(rafsi) && should_add_hyphen_spec(list_len, acc1[0]) {
        if acc1[0].len() > 0 && acc1[0][0] == 'r' {
            seq![seq!['n']] + acc1
        } else {
            seq![seq!['r']] + acc1
        }
    } else {
        acc1
    };
    seq![rafsi] + acc2
}

/// The normalized form of the suffix of `list` that starts at `j`:
/// the last rafsi alone, with every earlier rafsi glued on in turn.
pub open spec fn normalize_from(list: Seq<Seq<char>>, j: int) -> Seq<Seq<char>>
    decreases list.len() - j,
{
    if j < 0 || j >= list.len() - 1 {
        seq![list.last()]
    } else {
        glue_step(list[j], normalize_from(list, j + 1), j == 0, list.len() as int)
    }
}

/// The normalized form of a whole rafsi list.
pub open spec fn normalize_spec(list: Seq<Seq<char>>) -> Seq<Seq<char>> {
    normalize_from(list, 0)
}

/// Whether an `r`/`n` hyphen is required after a leading `CVV` rafsi:
/// yes unless the lujvo has exactly two parts and the part already
/// assembled begins with a `CCV` rafsi.
pub fn should_add_hyphen(rafsi_list: &[String], result: &[String]) -> (r: bool)
    requires
        result@.len() >= 1,
    ensures
        r == should_add_hyphen_spec(rafsi_list@.len() as int, result@[0]@),
{
    rafsi_list.len() > 2 || !is_ccv(result[0].as_str())
}

/// The tosmabru test: does prepending the `CVC` rafsi `rafsi` to the
/// assembled tail `rest` create a form that would be mis-segmented,
/// so that a `y` hyphen must be inserted?
#[verifier::loop_isolation(false)]
pub fn is_tosmabru(rafsi: &str, rest: &[String]) -> (r: bool)
    requires
        rafsi@.len() >= 1,
        rest@.len() >= 1,
    ensures
        r == is_tosmabru_spec(rafsi@, seq_views(rest@)),
{
    proof {
        reveal_strlit("y");
    }
    let ghost views = seq_views(rest@);
    let n = rest.len();
    if is_cmevla(rest[n - 1].as_str()) {
        return false;
    }
    proof {
        assert(views.last() == rest@[n - 1]@);
        assert(!is_cvc_shape(views.last()));
        lemma_first_non_cvc(views);
    }
    let mut idx: usize = 0;
    let mut found: bool = false;
    while !found && idx < n
        invariant
            0 <= idx <= n,
            n == rest@.len(),
            views == seq_views(rest@),
            forall|k: int| 0 <= k < idx ==> is_cvc_shape(views[k]),
            found ==> idx < n && !is_cvc_shape(views[idx as int]),
        decreases n - idx + (if found { 0int } else { 1int }),
    {
        if !is_cvc(rest[idx].as_str()) {
            found = true;
        } else {
            idx = idx + 1;
        }
    }
    proof {
        if !found {
            assert(is_cvc_shape(views.last()));
        }
        assert(found);
        assert(first_non_cvc(views) == idx) by {
            lemma_first_non_cvc_at(views, idx as int);
        }
    }
    let s = &rest[idx];
    proof {
        assert(views[idx as int] == rest@[idx as int]@);
        assert("y"@ =~= seq!['y']);
    }
    let s_is_y = str_eq(s.as_str(), "y");
    if !s_is_y {
        let cvccv = crate::letters::shape_cvccv(s.as_str());
        if !cvccv {
            return false;
        }
        if is_permissible(s.as_str().get_char(2), s.as_str().get_char(3)) != 2 {
            return false;
        }
    }
    let ghost items = views.take(idx + 1);
    let mut prev_last: char = rafsi.get_char(rafsi.unicode_len() - 1);
    proof {
        assert(prev_last == rafsi@.last());
        assert(items.subrange(0, idx + 1) =~= items);
    }
    let mut j: usize = 0;
    while j <= idx
        invariant
            0 <= j <= idx + 1,
            idx < n,
            n == rest@.len(),
            views == seq_views(rest@),
            items == views.take(idx + 1),
            forall|k: int| 0 <= k < idx ==> is_cvc_shape(views[k]),
            views[idx as int] == seq!['y'] || (is_cvccv_shape(views[idx as int]) && perm_value(
                views[idx as int][2],
                views[idx as int][3],
            ) == 2),
            tosmabru_walk(prev_last, items.subrange(j as int, idx + 1)) == tosmabru_walk(
                rafsi@.last(),
                items,
            ),
        decreases idx + 1 - j,
    {
        let cur = &rest[j];
        proof {
            assert(items.subrange(j as int, idx + 1)[0] == views[j as int]);
        }
        if str_eq(cur.as_str(), "y") {
            return true;
        }
        proof {
            if j < idx {
                assert(is_cvc_shape(views[j as int]));
            }
            assert(views[j as int].len() >= 1);
        }
        let cur_first = cur.as_str().get_char(0);
        if is_permissible(prev_last, cur_first) != 2 {
            return false;
        }
        proof {
            assert(items.subrange(j as int, idx + 1).drop_first() =~= items.subrange(
                j + 1,
                idx + 1,
            ));
        }
        prev_last = cur.as_str().get_char(cur.as_str().unicode_len() - 1);
        j = j + 1;
    }
    proof {
        assert(items.subrange(idx + 1, idx + 1) =~= Seq::<Seq<char>>::empty());
        assert(tosmabru_walk(rafsi@.last(), items));
        assert(is_tosmabru_spec(rafsi@, views) == tosmabru_walk(rafsi@.last(), items));
    }
    true
}

/// If everything before `at` in `rest` is `CVC` and `rest[at]` is
/// not, then `at` is the first non-`CVC` index.
proof fn lemma_first_non_cvc_at(rest: Seq<Seq<char>>, at: int)
    requires
        0 <= at < rest.len(),
        forall|k: int| 0 <= k < at ==> is_cvc_shape(rest[k]),
        !is_cvc_shape(rest[at]),
    ensures
        first_non_cvc(rest) == at,
    decreases rest.len(),
{
    if at > 0 {
        assert(is_cvc_shape(rest[0]));
        lemma_first_non_cvc_at(rest.drop_first(), at - 1);
    }
}

/// Splice a rafsi list (at least two entries, none empty) into the
/// alternating sequence of rafsi and inserted hyphens whose
/// concatenation is the lujvo.
#[verifier::loop_isolation(false)]
pub fn normalize(rafsi_list: &[String]) -> (result: Vec<String>)
    requires
        rafsi_list@.len() >= 2,
        forall|i: int| 0 <= i < rafsi_list@.len() ==> rafsi_list@[i]@.len() >= 1,
    ensures
        seq_views(result@) == normalize_spec(seq_views(rafsi_list@)),
{
    proof {
        reveal_strlit("y");
        reveal_strlit("r");
        reveal_strlit("n");
    }
    let ghost lst = seq_views(rafsi_list@);
    let n = rafsi_list.len();
    let mut result: Vec<String> = Vec::new();
    result.push(rafsi_list[n - 1].clone());
    proof {
        assert(seq_views(result@) =~= normalize_from(lst, n - 1));
    }
    let mut j: usize = n - 1;
    while j > 0
        invariant
            0 <= j <= n - 1,
            n == rafsi_list@.len(),
            n >= 2,
            lst == seq_views(rafsi_list@),
            forall|i: int| 0 <= i < rafsi_list@.len() ==> rafsi_list@[i]@.len() >= 1,
            seq_views(result@) == normalize_from(lst, j as int),
            result@.len() >= 1,
            forall|k: int| 0 <= k < result@.len() ==> (#[trigger] result@[k])@.len() >= 1,
        decreases j,
    {
        j = j - 1;
        let ghost acc0 = seq_views(result@);
        let rafsi = &rafsi_list[j];
        let rlen = rafsi.as_str().unicode_len();
        let end = rafsi.as_str().get_char(rlen - 1);
        let init = result[0].as_str().get_char(0);
        let first = j == 0;
        let four = is_4letter(rafsi.as_str());
        let cond_pair = letter_is_consonant(end) && letter_is_consonant(init) && is_permissible(
            end,
            init,
        ) == 0;
        let cond_n = end == 'n' && (starts_with_str(result[0].as_str(), "ts") || starts_with_str(
            result[0].as_str(),
            "tc",
        ) || starts_with_str(result[0].as_str(), "dz") || starts_with_str(
            result[0].as_str(),
            "dj",
        ));
        proof {
            reveal_strlit("ts");
            reveal_strlit("tc");
            reveal_strlit("dz");
            reveal_strlit("dj");
            assert("ts"@ =~= seq!['t', 's']);
            assert("tc"@ =~= seq!['t', 'c']);
            assert("dz"@ =~= seq!['d', 'z']);
            assert("dj"@ =~= seq!['d', 'j']);
        }
        let cvv = is_cvv(rafsi.as_str());
        let cond_cvv = first && cvv && should_add_hyphen(rafsi_list, result.as_slice());
        let cond_tos = first && is_cvc(rafsi.as_str()) && is_tosmabru(
            rafsi.as_str(),
            result.as_slice(),
        );
        let needs_y = four || cond_pair || cond_n || cond_cvv || cond_tos;
        proof {
            assert(needs_y == needs_y_spec(rafsi@, acc0, j == 0, n as int));
        }
        if needs_y {
            let mut y = String::new();
            y.append("y");
            proof {
                assert(y@ =~= seq!['y']);
            }
            result.insert(0, y);
            proof {
                assert(seq_views(result@) =~= seq![seq!['y']] + acc0);
            }
        }
        let ghost acc1 = seq_views(result@);
        proof {
            assert(acc1 == if needs_y_spec(rafsi@, acc0, j == 0, n as int) {
                seq![seq!['y']] + acc0
            } else {
                acc0
            });
        }
        if first && cvv && should_add_hyphen(rafsi_list, result.as_slice()) {
            let h: &str = if starts_with_str(result[0].as_str(), "r") {
                "n"
            } else {
                "r"
            };
            proof {
                assert("r"@ =~= seq!['r']);
                assert("n"@ =~= seq!['n']);
            }
            let mut hs = String::new();
            hs.append(h);
            result.insert(0, hs);
            proof {
                assert((acc1[0].len() > 0 && acc1[0][0] == 'r') ==> seq_views(result@) =~= seq![
                    seq!['n'],
                ] + acc1);
                assert(!(acc1[0].len() > 0 && acc1[0][0] == 'r') ==> seq_views(result@) =~= seq![
                    seq!['r'],
                ] + acc1);
            }
        }
        let ghost acc2 = seq_views(result@);
        result.insert(0, rafsi.clone());
        proof {
            assert(seq_views(result@) =~= seq![rafsi@] + acc2);
            assert(seq_views(result@) == glue_step(rafsi@, acc0, j == 0, n as int));
            assert(seq_views(result@) == normalize_from(lst, j as int));
        }
    }
    result
}

} // verus!
