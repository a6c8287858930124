//! The lujvo enumerator: the cartesian product of the per-selrafsi
//! candidate rafsi, each tuple spliced by the normalizer, scored,
//! filtered against the forbidden cmevla patterns, and ranked.

use crate::letters::is_cmevla;
use crate::letters::is_cmevla_spec;
use crate::letters::is_vowel;
use crate::normalize::normalize;
use crate::normalize::normalize_from;
use crate::normalize::normalize_spec;
use crate::rafsi::candid_spec;
use crate::rafsi::get_candid;
use crate::rafsi::map_get;
use crate::rafsi::rafsi_map_wf;
use crate::rafsi::tables_wf;
use crate::rafsi::valid_rafsi_text;
use crate::rafsi::RafsiTables;
use crate::scoring::get_lujvo_score;
use crate::scoring::lujvo_score_spec;
use crate::strutil::concat_all;
use crate::strutil::contains_str;
use crate::strutil::contains_sub;
use crate::strutil::has_prefix;
use crate::strutil::join_strings;
use crate::strutil::seq_views;
use crate::strutil::starts_with_str;
use vstd::prelude::*;
use vstd::seq_lib::group_to_multiset_ensures;
use vstd::string::StrSliceExecFns;

verus! {

/// One enumerated lujvo with its cost.
#[derive(Debug, Clone)]
pub struct LujvoAndScore {
    pub lujvo: String,
    pub score: i32,
}

/// The views of a sequence of string vectors.
pub open spec fn seq_views2(v: Seq<Vec<String>>) -> Seq<Seq<Seq<char>>> {
    v.map_values(|x: Vec<String>| seq_views(x@))
}

/// Each element of `sub` extended by `e`.
pub open spec fn map_push(sub: Seq<Seq<Seq<char>>>, e: Seq<char>) -> Seq<Seq<Seq<char>>> {
    sub.map_values(|f: Seq<Seq<char>>| f.push(e))
}

/// `sub` extended by each element of `arr` in turn, concatenated.
pub open spec fn product_append(sub: Seq<Seq<Seq<char>>>, arr: Seq<Seq<char>>) -> Seq<
    Seq<Seq<char>>,
>
    decreases arr.len(),
{
    if arr.len() == 0 {
        Seq::<Seq<Seq<char>>>::empty()
    } else {
        product_append(sub, arr.drop_last()) + map_push(sub, arr.last())
    }
}

/// The cartesian product of a sequence of choice lists, ordered with
/// the last list outermost.
pub open spec fn product_spec(lists: Seq<Seq<Seq<char>>>) -> Seq<Seq<Seq<char>>>
    decreases lists.len(),
{
    if lists.len() == 0 {
        seq![Seq::<Seq<char>>::empty()]
    } else {
        product_append(product_spec(lists.drop_last()), lists.last())
    }
}

/// Every tuple of the product picks one element of each list, in
/// order.
pub proof fn lemma_product_shape(lists: Seq<Seq<Seq<char>>>)
    ensures
        forall|k: int|
            0 <= k < product_spec(lists).len() ==> (#[trigger] product_spec(lists)[k]).len()
                == lists.len(),
        forall|k: int, i: int|
            0 <= k < product_spec(lists).len() && 0 <= i < lists.len() ==> lists[i].contains(
                #[trigger] product_spec(lists)[k][i],
            ),
    decreases lists.len(),
{
    if lists.len() > 0 {
        lemma_product_shape(lists.drop_last());
        lemma_product_append_shape(product_spec(lists.drop_last()), lists.last(), lists);
    }
}

/// Shape of [`product_append`], given the shape of `sub`.
proof fn lemma_product_append_shape(
    sub: Seq<Seq<Seq<char>>>,
    arr: Seq<Seq<char>>,
    lists: Seq<Seq<Seq<char>>>,
)
    requires
        lists.len() >= 1,
        forall|k: int| 0 <= k < sub.len() ==> (#[trigger] sub[k]).len() == lists.len() - 1,
        forall|k: int, i: int|
            0 <= k < sub.len() && 0 <= i < lists.len() - 1 ==> lists[i].contains(
                #[trigger] sub[k][i],
            ),
        forall|j: int| 0 <= j < arr.len() ==> lists.last().contains(#[trigger] arr[j]),
    ensures
        forall|k: int|
            0 <= k < product_append(sub, arr).len() ==> (#[trigger] product_append(sub, arr)[
                k
            ]).len() == lists.len(),
        forall|k: int, i: int|
            0 <= k < product_append(sub, arr).len() && 0 <= i < lists.len() ==> lists[i].contains(
                #[trigger] product_append(sub, arr)[k][i],
            ),
    decreases arr.len(),
{
    if arr.len() > 0 {
        assert(forall|j: int|
            0 <= j < arr.drop_last().len() ==> lists.last().contains(#[trigger] arr.drop_last()[
                j
            ]));
        lemma_product_append_shape(sub, arr.drop_last(), lists);
        let pa = product_append(sub, arr);
        let pre = product_append(sub, arr.drop_last());
        let tail = map_push(sub, arr.last());
        assert forall|k: int| 0 <= k < pa.len() implies (#[trigger] pa[k]).len()
            == lists.len() by {
            if k >= pre.len() {
                assert(pa[k] == tail[k - pre.len()]);
                assert(tail[k - pre.len()] == sub[k - pre.len()].push(arr.last()));
            }
        }
        assert forall|k: int, i: int|
            0 <= k < pa.len() && 0 <= i < lists.len() implies lists[i].contains(
            #[trigger] pa[k][i],
        ) by {
            if k < pre.len() {
                assert(lists[i].contains(pre[k][i]));
            } else {
                let f = sub[k - pre.len()];
                assert(pa[k] == f.push(arr.last()));
                if i < lists.len() - 1 {
                    assert(lists[i].contains(f[i]));
                } else {
                    assert(arr.contains(arr.last())) by {
                        assert(arr[arr.len() - 1] == arr.last());
                    }
                    assert(lists.last().contains(arr.last()));
                }
            }
        }
    }
}

/// Every tuple combining one candidate from each of the given lists,
/// ordered with the last list's choice varying slowest.
#[verifier::loop_isolation(false)]
pub fn create_every_possibility(aa: Vec<Vec<String>>) -> (r: Vec<Vec<String>>)
    ensures
        seq_views2(r@) == product_spec(seq_views2(aa@)),
    decreases aa@.len(),
{
    let ghost aav = seq_views2(aa@);
    let mut aa = aa;
    if aa.len() == 0 {
        let mut r: Vec<Vec<String>> = Vec::new();
        r.push(Vec::<String>::new());
        proof {
            assert(seq_views2(r@) =~~= seq![Seq::<Seq<char>>::empty()]);
        }
        return r;
    }
    let arr = match aa.pop() {
        Some(arr) => arr,
        None => {
            proof {
                assert(false);
            }
            Vec::new()
        },
    };
    proof {
        assert(seq_views2(aa@) =~= aav.drop_last());
        assert(seq_views(arr@) == aav.last());
    }
    let ghost subv = product_spec(aav.drop_last());
    let ghost arrv = seq_views(arr@);
    // The recursion over the remaining lists is pure, so one shared
    // result serves every choice from `arr`.
    let sub_results = create_every_possibility(aa);
    let mut result: Vec<Vec<String>> = Vec::new();
    let mut e: usize = 0;
    proof {
        assert(seq_views2(result@) =~= product_append(subv, arrv.take(0)));
    }
    while e < arr.len()
        invariant
            0 <= e <= arr@.len(),
            seq_views2(sub_results@) == subv,
            arrv == seq_views(arr@),
            seq_views2(result@) == product_append(subv, arrv.take(e as int)),
        decreases arr@.len() - e,
    {
        let ghost res0 = seq_views2(result@);
        let mut f: usize = 0;
        while f < sub_results.len()
            invariant
                0 <= f <= sub_results@.len(),
                0 <= e < arr@.len(),
                seq_views2(sub_results@) == subv,
                arrv == seq_views(arr@),
                res0 == product_append(subv, arrv.take(e as int)),
                seq_views2(result@) == res0 + map_push(subv, arrv[e as int]).take(f as int),
            decreases sub_results@.len() - f,
        {
            let mut t = sub_results[f].clone();
            proof {
                assert(seq_views2(sub_results@)[f as int] == seq_views(
                    sub_results@[f as int]@,
                ));
                assert(seq_views(t@) =~= seq_views(sub_results@[f as int]@));
            }
            t.push(arr[e].clone());
            proof {
                assert(arrv[e as int] == arr@[e as int]@);
                assert(seq_views(t@) =~= subv[f as int].push(arrv[e as int]));
            }
            let ghost before = seq_views2(result@);
            result.push(t);
            proof {
                assert(seq_views2(result@) =~= before.push(subv[f as int].push(arrv[e as int])));
                assert(map_push(subv, arrv[e as int]).take(f + 1).drop_last() =~= map_push(
                    subv,
                    arrv[e as int],
                ).take(f as int));
                assert(map_push(subv, arrv[e as int]).take(f + 1).last() == subv[f as int].push(
                    arrv[e as int],
                ));
                assert(seq_views2(result@) =~= res0 + map_push(subv, arrv[e as int]).take(f + 1));
            }
            f = f + 1;
        }
        proof {
            assert(map_push(subv, arrv[e as int]).take(sub_results@.len() as int) =~= map_push(
                subv,
                arrv[e as int],
            ));
            assert(arrv.take(e + 1).drop_last() =~= arrv.take(e as int));
            assert(arrv.take(e + 1).last() == arrv[e as int]);
            assert(seq_views2(result@) == product_append(subv, arrv.take(e + 1)));
        }
        e = e + 1;
    }
    proof {
        assert(arrv.take(arr@.len() as int) =~= arrv);
        assert(product_spec(aav) == product_append(subv, arrv));
    }
    result
}

/// A vowel or `y`: the separators of the split used below.
pub open spec fn vowel_or_y(c: char) -> bool {
    is_vowel(c) || c == 'y'
}

/// `p` is a prefix of the vowel-free segment of `l` that starts at
/// `i`: the next `p.len()` characters match `p` and none of them is
/// a separator.
pub open spec fn seg_prefix(l: Seq<char>, i: int, p: Seq<char>) -> bool {
    i + p.len() <= l.len() && forall|j: int|
        0 <= j < p.len() ==> l[i + j] == p[j] && !vowel_or_y(l[i + j])
}

/// Some segment of `l`, split on vowels and `y`, starts with `la`
/// but not with `lau`.
pub open spec fn split_la_spec(l: Seq<char>) -> bool {
    exists|i: int|
        0 <= i < l.len() && (i == 0 || vowel_or_y(l[i - 1])) && seg_prefix(l, i, seq!['l', 'a'])
            && !seg_prefix(l, i, seq!['l', 'a', 'u'])
}

/// No segment of a split on vowels can start with `la`: the `a`
/// would itself be a separator.
pub proof fn lemma_split_la_never(l: Seq<char>)
    ensures
        !split_la_spec(l),
{
    assert forall|i: int| !(0 <= i < l.len() && (i == 0 || vowel_or_y(l[i - 1])) && seg_prefix(
        l,
        i,
        seq!['l', 'a'],
    ) && !seg_prefix(l, i, seq!['l', 'a', 'u'])) by {
        if 0 <= i < l.len() && seg_prefix(l, i, seq!['l', 'a']) {
            assert(l[i + 1] == 'a' && !vowel_or_y(l[i + 1]));
        }
    }
}

/// The patterns that drop a cmevla result when `forbid` is set:
/// `lai` or `doi` anywhere, a leading `la` not followed by `u`, or a
/// vowel-split segment starting with `la` (which can never occur).
pub open spec fn is_forbidden_spec(l: Seq<char>, forbid: bool) -> bool {
    is_cmevla_spec(l) && forbid && (has_prefix(l, seq!['l', 'a', 'i']) || has_prefix(
        l,
        seq!['d', 'o', 'i'],
    ) || contains_sub(l, seq!['l', 'a', 'i']) || contains_sub(l, seq!['d', 'o', 'i']) || (
    has_prefix(l, seq!['l', 'a']) && !has_prefix(l, seq!['l', 'a', 'u'])) || split_la_spec(l))
}

/// Whether a candidate is dropped by the `la`/`lai`/`doi` rule.
pub fn is_forbidden(d: &LujvoAndScore, forbid_la_lai_doi: bool) -> (r: bool)
    ensures
        r == is_forbidden_spec(d.lujvo@, forbid_la_lai_doi),
{
    proof {
        reveal_strlit("lai");
        reveal_strlit("doi");
        reveal_strlit("la");
        reveal_strlit("lau");
        assert("lai"@ =~= seq!['l', 'a', 'i']);
        assert("doi"@ =~= seq!['d', 'o', 'i']);
        assert("la"@ =~= seq!['l', 'a']);
        assert("lau"@ =~= seq!['l', 'a', 'u']);
        // The split-segment disjunct never holds, so it needs no
        // executable counterpart.
        lemma_split_la_never(d.lujvo@);
    }
    let l = d.lujvo.as_str();
    is_cmevla(l) && forbid_la_lai_doi && (starts_with_str(l, "lai") || starts_with_str(l, "doi")
        || contains_str(l, "lai") || contains_str(l, "doi") || (starts_with_str(l, "la")
        && !starts_with_str(l, "lau")))
}

/// Bounds on one glue step: at most three tokens and the rafsi plus
/// two hyphen characters are added.
proof fn lemma_glue_bounds(rafsi: Seq<char>, acc: Seq<Seq<char>>, first: bool, list_len: int)
    ensures
        crate::normalize::glue_step(rafsi, acc, first, list_len).len() <= acc.len() + 3,
        crate::normalize::glue_step(rafsi, acc, first, list_len).len() >= acc.len() + 1,
        concat_all(crate::normalize::glue_step(rafsi, acc, first, list_len)).len() <= rafsi.len()
            + 2 + concat_all(acc).len(),
{
    let acc1 = if crate::normalize::needs_y_spec(rafsi, acc, first, list_len) {
        seq![seq!['y']] + acc
    } else {
        acc
    };
    crate::strutil::lemma_concat_all_prepend(seq!['y'], acc);
    assert(concat_all(acc1).len() <= 1 + concat_all(acc).len());
    crate::strutil::lemma_concat_all_prepend(seq!['n'], acc1);
    crate::strutil::lemma_concat_all_prepend(seq!['r'], acc1);
    assert(crate::normalize::glue_step(rafsi, acc, first, list_len) == seq![rafsi] + (
    if first && crate::letters::is_cvv_shape(rafsi) && crate::normalize::should_add_hyphen_spec(
        list_len,
        acc1[0],
    ) {
        if acc1[0].len() > 0 && acc1[0][0] == 'r' {
            seq![seq!['n']] + acc1
        } else {
            seq![seq!['r']] + acc1
        }
    } else {
        acc1
    }));
    crate::strutil::lemma_concat_all_prepend(rafsi, acc1);
    crate::strutil::lemma_concat_all_prepend(rafsi, seq![seq!['n']] + acc1);
    crate::strutil::lemma_concat_all_prepend(rafsi, seq![seq!['r']] + acc1);
}

/// Size of the normalized suffix: linearly bounded in the number of
/// rafsi, with every rafsi at most 64 characters.
pub proof fn lemma_normalize_from_bounds(list: Seq<Seq<char>>, j: int)
    requires
        0 <= j < list.len(),
        forall|i: int| 0 <= i < list.len() ==> 1 <= (#[trigger] list[i]).len() <= 64,
    ensures
        1 <= normalize_from(list, j).len() <= 1 + 3 * (list.len() - 1 - j),
        concat_all(normalize_from(list, j)).len() <= 64 + 66 * (list.len() - 1 - j),
    decreases list.len() - j,
{
    if j >= list.len() - 1 {
        assert(normalize_from(list, j) == seq![list.last()]);
        assert(seq![list.last()].drop_last() =~= Seq::<Seq<char>>::empty());
        assert(seq![list.last()].last() == list.last());
        assert(concat_all(Seq::<Seq<char>>::empty()) =~= Seq::<char>::empty());
        assert(Seq::<char>::empty() + list.last() =~= list.last());
        assert(concat_all(seq![list.last()]) =~= list.last());
        assert(list.last() == list[list.len() - 1]);
    } else {
        lemma_normalize_from_bounds(list, j + 1);
        lemma_glue_bounds(list[j], normalize_from(list, j + 1), j == 0, list.len() as int);
    }
}

/// A lookup in a well-formed table yields only usable rafsi entries.
proof fn lemma_map_get_wf(entries: Seq<(Seq<char>, Seq<Seq<char>>)>, key: Seq<char>)
    requires
        rafsi_map_wf(entries),
    ensures
        map_get(entries, key) matches Some(l) ==> forall|j: int|
            0 <= j < l.len() ==> valid_rafsi_text(#[trigger] l[j]),
    decreases entries.len(),
{
    if entries.len() > 0 {
        if entries[0].0 == key {
            assert(forall|j: int|
                0 <= j < entries[0].1.len() ==> valid_rafsi_text(#[trigger] entries[0].1[j]));
        } else {
            assert forall|i: int, j: int|
                0 <= i < entries.drop_first().len() && 0 <= j
                    < entries.drop_first()[i].1.len() implies valid_rafsi_text(
                #[trigger] entries.drop_first()[i].1[j],
            ) by {
                assert(entries.drop_first()[i] == entries[i + 1]);
                assert(valid_rafsi_text(entries[i + 1].1[j]));
            }
            lemma_map_get_wf(entries.drop_first(), key);
        }
    }
}

/// Every candidate rafsi of a selrafsi between two and 64 characters
/// is itself between one and 64 characters.
proof fn lemma_candid_sized(t: &RafsiTables, word: Seq<char>, is_last: bool, exp: bool)
    requires
        tables_wf(t),
        2 <= word.len() <= 64,
    ensures
        forall|i: int|
            0 <= i < candid_spec(t, word, is_last, exp).len() ==> 1 <= (#[trigger] candid_spec(
                t,
                word,
                is_last,
                exp,
            )[i]).len() <= 64,
{
    lemma_map_get_wf(t.cmavo@, word);
    lemma_map_get_wf(t.cmavo_exp@, word);
    lemma_map_get_wf(t.gismu@, word);
    lemma_map_get_wf(t.gismu_exp@, word);
}

/// The per-selrafsi candidate lists for a word list.
pub open spec fn candid_lists_spec(t: &RafsiTables, words: Seq<Seq<char>>, exp: bool) -> Seq<
    Seq<Seq<char>>,
> {
    Seq::new(words.len(), |i: int| candid_spec(t, words[i], i == words.len() - 1, exp))
}

/// The lujvo/score pairs of the kept results, in enumeration order.
pub open spec fn jvozba_results_spec(tuples: Seq<Seq<Seq<char>>>, forbid: bool) -> Seq<
    (Seq<char>, int),
>
    decreases tuples.len(),
{
    if tuples.len() == 0 {
        Seq::<(Seq<char>, int)>::empty()
    } else {
        let rest = jvozba_results_spec(tuples.drop_last(), forbid);
        let norm = normalize_spec(tuples.last());
        if is_forbidden_spec(concat_all(norm), forbid) {
            rest
        } else {
            rest.push((concat_all(norm), lujvo_score_spec(norm)))
        }
    }
}

/// The lujvo/score views of a result vector.
pub open spec fn pair_views(v: Seq<LujvoAndScore>) -> Seq<(Seq<char>, int)> {
    v.map_values(|x: LujvoAndScore| (x.lujvo@, x.score as int))
}

/// Inserting anywhere adds the element to the multiset.
proof fn lemma_to_multiset_insert<A>(s: Seq<A>, p: int, x: A)
    requires
        0 <= p <= s.len(),
    ensures
        s.insert(p, x).to_multiset() == s.to_multiset().insert(x),
{
    broadcast use group_to_multiset_ensures;
    broadcast use vstd::multiset::group_multiset_axioms;

    let t = s.insert(p, x);
    assert(t.remove(p) =~= s);
    assert(t[p] == x);
    assert(t.remove(p).to_multiset() =~= t.to_multiset().remove(x));
    assert(t.to_multiset().contains(x)) by {
        assert(t.contains(x)) by {
            assert(t[p] == x);
        }
    }
    assert(t.to_multiset() =~= s.to_multiset().insert(x));
}

/// Sort results in place, ascending by score.
#[verifier::loop_isolation(false)]
fn sort_by_score(v: &mut Vec<LujvoAndScore>)
    ensures
        final(v)@.len() == old(v)@.len(),
        pair_views(final(v)@).to_multiset() == pair_views(old(v)@).to_multiset(),
        forall|a: int, b: int|
            0 <= a < b < final(v)@.len() ==> final(v)@[a].score <= final(v)@[b].score,
{
    broadcast use group_to_multiset_ensures;

    let ghost orig = pair_views(old(v)@);
    if v.len() <= 1 {
        return ;
    }
    let mut i: usize = 1;
    while i < v.len()
        invariant
            1 <= i <= v@.len(),
            v@.len() == old(v)@.len(),
            pair_views(v@).to_multiset() == orig.to_multiset(),
            forall|a: int, b: int| 0 <= a < b < i ==> v@[a].score <= v@[b].score,
        decreases v@.len() - i,
    {
        let ghost before = v@;
        let x = v.remove(i);
        let ghost mid = v@;
        proof {
            assert(pair_views(mid) =~= pair_views(before).remove(i as int));
            assert(pair_views(before).remove(i as int).to_multiset() =~= pair_views(
                before,
            ).to_multiset().remove(pair_views(before)[i as int]));
        }
        let mut p: usize = 0;
        while p < i && v[p].score <= x.score
            invariant
                0 <= p <= i,
                i < before.len(),
                v@ == mid,
                forall|k: int| 0 <= k < p ==> v@[k].score <= x.score,
            decreases i - p,
        {
            p = p + 1;
        }
        let ghost pos = p as int;
        let ghost xpair = (x.lujvo@, x.score as int);
        v.insert(p, x);
        proof {
            assert(pair_views(v@) =~= pair_views(mid).insert(pos, xpair));
            lemma_to_multiset_insert(pair_views(mid), pos, xpair);
            assert(pair_views(before)[i as int] == xpair);
            assert(pair_views(v@).to_multiset() =~= pair_views(before).to_multiset());
            assert forall|a: int, b: int| 0 <= a < b < i + 1 implies v@[a].score
                <= v@[b].score by {
                if b < pos {
                    assert(v@[a] == mid[a] && v@[b] == mid[b]);
                } else if b == pos {
                    if a < pos {
                        assert(v@[a] == mid[a]);
                    }
                } else {
                    assert(v@[b] == mid[b - 1]);
                    assert(mid[b - 1].score >= x.score) by {
                        if pos < i {
                            assert(mid[pos].score > x.score);
                            if b - 1 > pos {
                                assert(mid[pos].score <= mid[b - 1].score);
                            }
                        }
                    }
                    if a < pos {
                        assert(v@[a] == mid[a]);
                        assert(mid[a].score <= x.score);
                    } else if a == pos {
                        assert(v@[a] == x);
                    } else {
                        assert(v@[a] == mid[a - 1]);
                    }
                }
            }
        }
        i = i + 1;
    }
}

/// Whether the enumerator can find rafsi for `w`: it is in a cmavo
/// table with a non-empty list, or the gismu table has its key.
pub open spec fn selrafsi_known(t: &RafsiTables, w: Seq<char>, exp: bool) -> bool {
    crate::rafsi::cmavo_list_spec(t, w, exp) is Some || map_get(t.gismu@, w) is Some
}

/// Enumerate the lujvo for an ordered selrafsi list: every
/// combination of candidate rafsi is spliced by the normalizer,
/// scored, kept unless the `la`/`lai`/`doi` rule drops it, and the
/// survivors are returned sorted ascending by score (best first).
#[verifier::loop_isolation(false)]
#[verifier::rlimit(100)]
pub fn jvozba(tables: &RafsiTables, arr: &[String], forbid_la_lai_doi: bool, exp_rafsi: bool) -> (res:
    Vec<LujvoAndScore>)
    requires
        tables_wf(tables),
        2 <= arr@.len() <= 1024,
        forall|i: int| 0 <= i < arr@.len() ==> 2 <= (#[trigger] arr@[i])@.len() <= 64,
        forall|i: int|
            0 <= i < arr@.len() ==> selrafsi_known(tables, (#[trigger] arr@[i])@, exp_rafsi),
    ensures
        pair_views(res@).to_multiset() == jvozba_results_spec(
            product_spec(candid_lists_spec(tables, seq_views(arr@), exp_rafsi)),
            forbid_la_lai_doi,
        ).to_multiset(),
        forall|a: int, b: int| 0 <= a < b < res@.len() ==> res@[a].score <= res@[b].score,
{
    let ghost words = seq_views(arr@);
    let ghost lists = candid_lists_spec(tables, words, exp_rafsi);
    let n = arr.len();
    let mut candid_arr: Vec<Vec<String>> = Vec::new();
    let mut i: usize = 0;
    proof {
        assert(seq_views2(candid_arr@) =~= lists.take(0));
    }
    while i < n
        invariant
            0 <= i <= n,
            seq_views2(candid_arr@) == lists.take(i as int),
        decreases n - i,
    {
        let c = get_candid(tables, arr[i].as_str(), i == n - 1, exp_rafsi);
        candid_arr.push(c);
        proof {
            assert(words[i as int] == arr@[i as int]@);
            assert(lists[i as int] == candid_spec(tables, words[i as int], i == n - 1, exp_rafsi));
            assert(seq_views2(candid_arr@) =~= lists.take(i + 1));
        }
        i = i + 1;
    }
    proof {
        assert(lists.take(n as int) =~= lists);
    }
    let tuples = create_every_possibility(candid_arr);
    let ghost tuplesv = product_spec(lists);
    proof {
        lemma_product_shape(lists);
        assert forall|ii: int, jj: int|
            0 <= ii < lists.len() && 0 <= jj < lists[ii].len() implies 1 <= (
        #[trigger] lists[ii][jj]).len() <= 64 by {
            lemma_candid_sized(tables, words[ii], ii == n - 1, exp_rafsi);
        }
    }
    let mut answers: Vec<LujvoAndScore> = Vec::new();
    let mut k: usize = 0;
    proof {
        assert(pair_views(answers@) =~= jvozba_results_spec(tuplesv.take(0), forbid_la_lai_doi));
    }
    while k < tuples.len()
        invariant
            0 <= k <= tuples@.len(),
            seq_views2(tuples@) == tuplesv,
            pair_views(answers@) == jvozba_results_spec(tuplesv.take(k as int), forbid_la_lai_doi),
        decreases tuples@.len() - k,
    {
        let t = &tuples[k];
        let ghost tv = tuplesv[k as int];
        proof {
            assert(seq_views2(tuples@)[k as int] == seq_views(tuples@[k as int]@));
            assert(tv.len() == lists.len());
            assert forall|ii: int| 0 <= ii < tv.len() implies 1 <= (#[trigger] tv[ii]).len()
                <= 64 by {
                assert(lists[ii].contains(tv[ii]));
                let jj = choose|jj: int| 0 <= jj < lists[ii].len() && lists[ii][jj] == tv[ii];
                assert(1 <= lists[ii][jj].len() <= 64);
            }
            assert forall|ii: int| 0 <= ii < t@.len() implies (#[trigger] t@[ii])@.len() >= 1 by {
                assert(seq_views(t@)[ii] == t@[ii]@);
            }
        }
        let norm = normalize(t.as_slice());
        proof {
            lemma_normalize_from_bounds(tv, 0);
            assert(concat_all(seq_views(norm@)).len() <= 64 + 66 * 1023);
            assert(seq_views(norm@).len() <= 1 + 3 * 1023);
            assert(norm@.len() == seq_views(norm@).len());
        }
        let lujvo_str = join_strings(norm.as_slice());
        let score = get_lujvo_score(norm.as_slice());
        let cand = LujvoAndScore { lujvo: lujvo_str, score };
        let forb = is_forbidden(&cand, forbid_la_lai_doi);
        let ghost before = pair_views(answers@);
        if !forb {
            let ghost cpair = (cand.lujvo@, cand.score as int);
            answers.push(cand);
            proof {
                assert(pair_views(answers@) =~= before.push(cpair));
            }
        }
        proof {
            assert(tuplesv.take(k + 1).drop_last() =~= tuplesv.take(k as int));
            assert(tuplesv.take(k + 1).last() == tv);
        }
        k = k + 1;
    }
    proof {
        assert(tuplesv.take(tuples@.len() as int) =~= tuplesv);
    }
    sort_by_score(&mut answers);
    answers
}

} // verus!
