//! The gismu candidate generator: enumerates every string of a given
//! CV-shape over chosen consonant and vowel alphabets, keeping those
//! that satisfy the phonotactic predicates of the shape.

use crate::letters::is_consonant;
use crate::letters::is_vowel;
use crate::phonotactics::is_forbidden_ccc;
use crate::phonotactics::is_valid_initial_pair;
use crate::phonotactics::is_valid_medial_pair;
use crate::phonotactics::valid_initial_pair;
use crate::phonotactics::valid_medial_pair;
use crate::strutil::seq_views;
use vstd::prelude::*;
use vstd::string::StrSliceExecFns;
use vstd::string::StringExecFns;

verus! {

/// The alternatives a shape character offers: the consonant alphabet
/// for `c`, the vowel alphabet for `v` (case-insensitively), nothing
/// for any other character.
pub open spec fn alts_of(ch: char, cs: Seq<Seq<char>>, vs: Seq<Seq<char>>) -> Seq<Seq<char>> {
    if ch == 'c' || ch == 'C' {
        cs
    } else if ch == 'v' || ch == 'V' {
        vs
    } else {
        Seq::<Seq<char>>::empty()
    }
}

/// The alternatives of each position of a shape.
pub open spec fn shape_alts(shape: Seq<char>, cs: Seq<Seq<char>>, vs: Seq<Seq<char>>) -> Seq<
    Seq<Seq<char>>,
> {
    shape.map_values(|ch: char| alts_of(ch, cs, vs))
}

/// The number of choice tuples a list of alternatives offers.
pub open spec fn total_count(alts: Seq<Seq<Seq<char>>>) -> int
    decreases alts.len(),
{
    if alts.len() == 0 {
        1
    } else {
        total_count(alts.drop_last()) * alts.last().len()
    }
}

/// The candidate of a mixed-radix choice index: position by
/// position, the index modulo the number of alternatives picks one,
/// and the quotient carries to the next position.
pub open spec fn decode(alts: Seq<Seq<Seq<char>>>, idx: int) -> Seq<char>
    decreases alts.len(),
{
    if alts.len() == 0 {
        Seq::<char>::empty()
    } else {
        alts[0][idx % (alts[0].len() as int)] + decode(
            alts.drop_first(),
            idx / (alts[0].len() as int),
        )
    }
}

/// Adjacent shape positions `i`, `i+1` both ask for a consonant.
pub open spec fn is_cc_at(shape: Seq<char>, i: int) -> bool {
    0 <= i && i + 1 < shape.len() && (shape[i] == 'c' || shape[i] == 'C') && (shape[i + 1] == 'c'
        || shape[i + 1] == 'C')
}

/// The pair predicate: word-initial pairs at position 0, medial
/// pairs elsewhere.
pub open spec fn pair_ok(x: Seq<char>, i: int) -> bool {
    if i == 0 {
        is_valid_initial_pair(x[0], x[1])
    } else {
        is_valid_medial_pair(x[i], x[i + 1])
    }
}

/// The literal suffix `ccvcv` starts at position `i` of the shape.
pub open spec fn ccvcv_suffix_at(shape: Seq<char>, i: int) -> bool {
    0 <= i && i + 5 <= shape.len() && shape[i] == 'c' && shape[i + 1] == 'c' && shape[i + 2] == 'v'
        && shape[i + 3] == 'c' && shape[i + 4] == 'v'
}

/// The predicates a candidate must satisfy at one shape position:
/// the pair rule at each `cc`, the triple rule when a third
/// consonant follows, and, medially before a `ccvcv` suffix, no
/// cluster that could pass for word-initial.
pub open spec fn shape_pos_ok(shape: Seq<char>, x: Seq<char>, i: int) -> bool {
    (is_cc_at(shape, i) ==> pair_ok(x, i)) && (is_cc_at(shape, i) && i + 2 < shape.len() && (
    shape[i + 2] == 'c' || shape[i + 2] == 'C') ==> !is_forbidden_ccc(x[i], x[i + 1], x[i + 2]))
        && (is_cc_at(shape, i) && i > 0 && ccvcv_suffix_at(shape, i) ==> !is_valid_initial_pair(
        x[i],
        x[i + 1],
    ))
}

/// A candidate satisfies every positional predicate of the shape.
pub open spec fn shape_ok(shape: Seq<char>, x: Seq<char>) -> bool {
    forall|i: int| 0 <= i < shape.len() ==> shape_pos_ok(shape, x, i)
}

/// The candidates among the first `k` choice indices, in index
/// order, filtered by the shape predicates.
pub open spec fn gen_upto(shape: Seq<char>, alts: Seq<Seq<Seq<char>>>, k: int) -> Seq<Seq<char>>
    decreases k,
{
    if k <= 0 {
        Seq::<Seq<char>>::empty()
    } else {
        gen_upto(shape, alts, k - 1) + (if shape_ok(shape, decode(alts, k - 1)) {
            seq![decode(alts, k - 1)]
        } else {
            Seq::<Seq<char>>::empty()
        })
    }
}

/// All candidates of one shape over the two alphabets.
pub open spec fn shape_candidates_spec(shape: Seq<char>, cs: Seq<Seq<char>>, vs: Seq<Seq<char>>) -> Seq<
    Seq<char>,
> {
    gen_upto(shape, shape_alts(shape, cs, vs), total_count(shape_alts(shape, cs, vs)))
}

/// All candidates of a list of shapes, in shape order.
pub open spec fn all_candidates_spec(
    shapes: Seq<Seq<char>>,
    cs: Seq<Seq<char>>,
    vs: Seq<Seq<char>>,
) -> Seq<Seq<char>>
    decreases shapes.len(),
{
    if shapes.len() == 0 {
        Seq::<Seq<char>>::empty()
    } else {
        all_candidates_spec(shapes.drop_last(), cs, vs) + shape_candidates_spec(
            shapes.last(),
            cs,
            vs,
        )
    }
}

/// A prefix of the choice lists never offers more tuples than the
/// whole, when no list is empty.
proof fn lemma_total_monotone(alts: Seq<Seq<Seq<char>>>, i: int)
    requires
        0 <= i <= alts.len(),
        forall|j: int| 0 <= j < alts.len() ==> (#[trigger] alts[j]).len() >= 1,
        total_count(alts.take(i)) >= 0,
    ensures
        total_count(alts.take(i)) <= total_count(alts),
        total_count(alts) >= 0,
    decreases alts.len() - i,
{
    if i == alts.len() {
        assert(alts.take(i) =~= alts);
    } else {
        let a = total_count(alts.take(i));
        let b = alts[i].len() as int;
        assert(alts.take(i + 1).drop_last() =~= alts.take(i));
        assert(alts.take(i + 1).last() == alts[i]);
        assert(total_count(alts.take(i + 1)) == a * b);
        assert(a <= a * b && a * b >= 0) by (nonlinear_arith)
            requires
                a >= 0,
                b >= 1,
        ;
        lemma_total_monotone(alts, i + 1);
    }
}

/// The digit that the mixed-radix index assigns to position `p`.
pub open spec fn digit_at(alts: Seq<Seq<Seq<char>>>, idx: int, p: int) -> int
    decreases p,
{
    if alts.len() == 0 {
        0
    } else if p <= 0 {
        idx % (alts[0].len() as int)
    } else {
        digit_at(alts.drop_first(), idx / (alts[0].len() as int), p - 1)
    }
}

/// The positions of a decoded candidate each hold the single letter
/// of the alternative that the index's digit picks there.
proof fn lemma_decode_shape(alts: Seq<Seq<Seq<char>>>, idx: int)
    requires
        0 <= idx,
        forall|j: int| 0 <= j < alts.len() ==> (#[trigger] alts[j]).len() >= 1,
        forall|j: int, q: int|
            0 <= j < alts.len() && 0 <= q < alts[j].len() ==> (#[trigger] alts[j][q]).len() == 1,
    ensures
        decode(alts, idx).len() == alts.len(),
        forall|p: int|
            0 <= p < alts.len() ==> 0 <= #[trigger] digit_at(alts, idx, p) < alts[p].len()
                && decode(alts, idx)[p] == alts[p][digit_at(alts, idx, p)][0],
    decreases alts.len(),
{
    if alts.len() > 0 {
        let len0 = alts[0].len() as int;
        let d = idx % len0;
        assert(0 <= d < len0);
        assert(alts[0][d].len() == 1);
        let rest = alts.drop_first();
        assert(forall|j: int| 0 <= j < rest.len() ==> (#[trigger] rest[j]).len() >= 1) by {
            assert(forall|j: int| 0 <= j < rest.len() ==> rest[j] == alts[j + 1]);
        }
        assert forall|j: int, q: int|
            0 <= j < rest.len() && 0 <= q < rest[j].len() implies (#[trigger] rest[j][q]).len()
            == 1 by {
            assert(rest[j] == alts[j + 1]);
        }
        assert(idx / len0 >= 0) by (nonlinear_arith)
            requires
                idx >= 0,
                len0 >= 1,
        ;
        lemma_decode_shape(rest, idx / len0);
        let cand = decode(alts, idx);
        assert(cand == alts[0][d] + decode(rest, idx / len0));
        assert(cand.len() == alts.len());
        assert forall|p: int|
            0 <= p < alts.len() implies 0 <= #[trigger] digit_at(alts, idx, p) < alts[p].len()
            && decode(alts, idx)[p] == alts[p][digit_at(alts, idx, p)][0] by {
            if p == 0 {
                assert(digit_at(alts, idx, 0) == d);
                assert(cand[0] == alts[0][d][0]);
            } else {
                assert(cand[p] == decode(rest, idx / len0)[p - 1]);
                assert(digit_at(alts, idx, p) == digit_at(rest, idx / len0, p - 1));
                assert(rest[p - 1] == alts[p]);
            }
        }
    }
}

/// Everything the generator emits for one shape has the shape's
/// length, satisfies its phonotactic predicates, and draws each
/// position from the alphabet the shape letter names.
pub proof fn lemma_generator_phonotactics(shape: Seq<char>, cs: Seq<Seq<char>>, vs: Seq<Seq<char>>)
    requires
        forall|i: int| 0 <= i < cs.len() ==> (#[trigger] cs[i]).len() == 1 && is_consonant(cs[i][0]),
        forall|i: int| 0 <= i < vs.len() ==> (#[trigger] vs[i]).len() == 1 && is_vowel(vs[i][0]),
    ensures
        forall|k: int|
            0 <= k < shape_candidates_spec(shape, cs, vs).len() ==> {
                let cand = #[trigger] shape_candidates_spec(shape, cs, vs)[k];
                cand.len() == shape.len() && shape_ok(shape, cand) && (forall|p: int|
                    0 <= p < shape.len() ==> (((shape[p] == 'c' || shape[p] == 'C')
                        ==> is_consonant(#[trigger] cand[p])) && ((shape[p] == 'v' || shape[p]
                        == 'V') ==> is_vowel(cand[p]))))
            },
{
    let alts = shape_alts(shape, cs, vs);
    let total = total_count(alts);
    if forall|j: int| 0 <= j < alts.len() ==> (#[trigger] alts[j]).len() >= 1 {
        lemma_gen_upto_ok(shape, cs, vs, total);
    } else {
        let j = choose|j: int| 0 <= j < alts.len() && !((#[trigger] alts[j]).len() >= 1);
        lemma_total_zero(alts, j);
        assert(gen_upto(shape, alts, 0).len() == 0);
    }
}

/// Enumerates gismu candidates of prescribed shapes over chosen
/// alphabets.
pub struct GismuGenerator {
    pub c: Vec<String>,
    pub v: Vec<String>,
    pub shape_strings: Vec<String>,
}

/// Every alphabet entry is a single letter.
pub open spec fn single_letter_alphabets(g: &GismuGenerator) -> bool {
    (forall|i: int| 0 <= i < g.c@.len() ==> (#[trigger] g.c@[i])@.len() == 1) && (forall|i: int|
        0 <= i < g.v@.len() ==> (#[trigger] g.v@[i])@.len() == 1)
}

impl GismuGenerator {
    /// A generator over the given consonant alphabet, vowel alphabet
    /// and shape strings.
    pub fn new(c: Vec<String>, v: Vec<String>, shape_strings: Vec<String>) -> (r: Self)
        ensures
            r.c@ == c@,
            r.v@ == v@,
            r.shape_strings@ == shape_strings@,
    {
        Self { c, v, shape_strings }
    }

    /// All candidates of all shapes, in shape order.
    #[verifier::loop_isolation(false)]
    pub fn iterator(&self) -> (r: Vec<String>)
        requires
            single_letter_alphabets(self),
            forall|s: int|
                0 <= s < self.shape_strings@.len() ==> total_count(
                    shape_alts(
                        (#[trigger] self.shape_strings@[s])@,
                        seq_views(self.c@),
                        seq_views(self.v@),
                    ),
                ) <= usize::MAX,
        ensures
            seq_views(r@) == all_candidates_spec(
                seq_views(self.shape_strings@),
                seq_views(self.c@),
                seq_views(self.v@),
            ),
    {
        let ghost shapesv = seq_views(self.shape_strings@);
        let ghost csv = seq_views(self.c@);
        let ghost vsv = seq_views(self.v@);
        let mut result: Vec<String> = Vec::new();
        let mut s: usize = 0;
        proof {
            assert(seq_views(result@) =~= all_candidates_spec(shapesv.take(0), csv, vsv));
        }
        while s < self.shape_strings.len()
            invariant
                0 <= s <= self.shape_strings@.len(),
                seq_views(result@) == all_candidates_spec(shapesv.take(s as int), csv, vsv),
            decreases self.shape_strings@.len() - s,
        {
            let ghost before = seq_views(result@);
            let mut part = self.shape_iterator(self.shape_strings[s].as_str());
            let ghost partv = seq_views(part@);
            result.append(&mut part);
            proof {
                assert(shapesv[s as int] == self.shape_strings@[s as int]@);
                assert(seq_views(result@) =~= before + partv);
                assert(shapesv.take(s + 1).drop_last() =~= shapesv.take(s as int));
                assert(shapesv.take(s + 1).last() == shapesv[s as int]);
            }
            s = s + 1;
        }
        proof {
            assert(shapesv.take(self.shape_strings@.len() as int) =~= shapesv);
        }
        result
    }

    /// All candidates of one shape: the mixed-radix enumeration of
    /// the per-position alternatives, filtered by the shape
    /// predicates.
    #[verifier::loop_isolation(false)]
    #[verifier::rlimit(100)]
    pub fn shape_iterator(&self, shape_string: &str) -> (r: Vec<String>)
        requires
            single_letter_alphabets(self),
            total_count(shape_alts(shape_string@, seq_views(self.c@), seq_views(self.v@)))
                <= usize::MAX,
        ensures
            seq_views(r@) == shape_candidates_spec(
                shape_string@,
                seq_views(self.c@),
                seq_views(self.v@),
            ),
    {
        let ghost csv = seq_views(self.c@);
        let ghost vsv = seq_views(self.v@);
        let ghost alts = shape_alts(shape_string@, csv, vsv);
        let sn = shape_string.unicode_len();
        // First pass: an empty alternative list anywhere means no
        // candidates at all.
        let mut j: usize = 0;
        while j < sn
            invariant
                0 <= j <= sn,
                sn == shape_string@.len(),
                forall|t: int| 0 <= t < j ==> (#[trigger] alts[t]).len() >= 1,
            decreases sn - j,
        {
            let ch = shape_string.get_char(j);
            let len = if ch == 'c' || ch == 'C' {
                self.c.len()
            } else if ch == 'v' || ch == 'V' {
                self.v.len()
            } else {
                0
            };
            proof {
                assert(alts[j as int] == alts_of(shape_string@[j as int], csv, vsv));
            }
            if len == 0 {
                proof {
                    lemma_total_zero(alts, j as int);
                    assert(shape_candidates_spec(shape_string@, csv, vsv) =~= Seq::<
                        Seq<char>,
                    >::empty());
                }
                let empty: Vec<String> = Vec::new();
                proof {
                    assert(seq_views(empty@) =~= Seq::<Seq<char>>::empty());
                }
                return empty;
            }
            j = j + 1;
        }
        // Second pass: the number of choice tuples.
        let mut total: usize = 1;
        let mut j2: usize = 0;
        proof {
            assert(alts.take(0) =~= Seq::<Seq<Seq<char>>>::empty());
            lemma_total_monotone(alts, 0);
        }
        while j2 < sn
            invariant
                0 <= j2 <= sn,
                sn == shape_string@.len(),
                forall|t: int| 0 <= t < alts.len() ==> (#[trigger] alts[t]).len() >= 1,
                total as int == total_count(alts.take(j2 as int)),
                total_count(alts) <= usize::MAX,
            decreases sn - j2,
        {
            let ch = shape_string.get_char(j2);
            let len = if ch == 'c' || ch == 'C' {
                self.c.len()
            } else {
                self.v.len()
            };
            proof {
                assert(alts[j2 as int] == alts_of(shape_string@[j2 as int], csv, vsv));
                assert(alts[j2 as int].len() >= 1);
                assert(len as int == alts[j2 as int].len());
                assert(alts.take(j2 + 1).drop_last() =~= alts.take(j2 as int));
                assert(alts.take(j2 + 1).last() == alts[j2 as int]);
                lemma_total_monotone(alts, j2 + 1);
                assert(total_count(alts.take(j2 + 1)) == total as int * len as int);
            }
            total = total * len;
            j2 = j2 + 1;
        }
        proof {
            assert(alts.take(sn as int) =~= alts);
        }
        // Third pass: decode and filter each choice index.
        let mut result: Vec<String> = Vec::new();
        let mut idx: usize = 0;
        proof {
            assert(seq_views(result@) =~= gen_upto(shape_string@, alts, 0));
        }
        while idx < total
            invariant
                0 <= idx <= total,
                sn == shape_string@.len(),
                total as int == total_count(alts),
                forall|t: int| 0 <= t < alts.len() ==> (#[trigger] alts[t]).len() >= 1,
                seq_views(result@) == gen_upto(shape_string@, alts, idx as int),
            decreases total - idx,
        {
            let mut cand = String::new();
            let mut remaining: usize = idx;
            let mut j3: usize = 0;
            proof {
                assert(alts.skip(0) =~= alts);
            }
            while j3 < sn
                invariant
                    0 <= j3 <= sn,
                    sn == shape_string@.len(),
                    forall|t: int| 0 <= t < alts.len() ==> (#[trigger] alts[t]).len() >= 1,
                    cand@.len() == j3,
                    decode(alts, idx as int) == cand@ + decode(
                        alts.skip(j3 as int),
                        remaining as int,
                    ),
                    remaining >= 0,
                decreases sn - j3,
            {
                let ch = shape_string.get_char(j3);
                let opts: &Vec<String> = if ch == 'c' || ch == 'C' {
                    &self.c
                } else {
                    proof {
                        assert(alts[j3 as int] == alts_of(shape_string@[j3 as int], csv, vsv));
                    }
                    &self.v
                };
                proof {
                    assert(alts[j3 as int] == alts_of(shape_string@[j3 as int], csv, vsv));
                    assert(seq_views(opts@) == alts[j3 as int]);
                }
                let len = opts.len();
                let d = remaining % len;
                let ghost rem0 = remaining as int;
                let ghost cand0 = cand@;
                cand.append(opts[d].as_str());
                remaining = remaining / len;
                proof {
                    assert(alts.skip(j3 as int)[0] == alts[j3 as int]);
                    assert(alts.skip(j3 as int).drop_first() =~= alts.skip(j3 + 1));
                    assert(decode(alts.skip(j3 as int), rem0) == alts[j3 as int][d as int]
                        + decode(alts.skip(j3 + 1), remaining as int));
                    assert(alts[j3 as int][d as int] == opts@[d as int]@);
                    assert(opts@[d as int]@.len() == 1);
                    assert(cand0 + (alts[j3 as int][d as int] + decode(
                        alts.skip(j3 + 1),
                        remaining as int,
                    )) =~= cand@ + decode(alts.skip(j3 + 1), remaining as int));
                }
                j3 = j3 + 1;
            }
            proof {
                assert(alts.skip(sn as int) =~= Seq::<Seq<Seq<char>>>::empty());
                assert(cand@ + Seq::<char>::empty() =~= cand@);
                assert(cand@ == decode(alts, idx as int));
            }
            let ok = self.check_shape(shape_string, cand.as_str());
            let ghost before = seq_views(result@);
            if ok {
                let ghost cv = cand@;
                result.push(cand);
                proof {
                    assert(seq_views(result@) =~= before.push(cv));
                    assert(gen_upto(shape_string@, alts, idx + 1) =~= before + seq![cv]);
                    assert(before.push(cv) =~= before + seq![cv]);
                }
            } else {
                proof {
                    assert(gen_upto(shape_string@, alts, idx + 1) =~= before + Seq::<
                        Seq<char>,
                    >::empty());
                    assert(before + Seq::<Seq<char>>::empty() =~= before);
                }
            }
            idx = idx + 1;
        }
        result
    }

    /// Evaluate every positional predicate of the shape on one
    /// candidate.
    #[verifier::loop_isolation(false)]
    fn check_shape(&self, shape: &str, x: &str) -> (r: bool)
        requires
            x@.len() == shape@.len(),
        ensures
            r == shape_ok(shape@, x@),
    {
        let sn = shape.unicode_len();
        let mut i: usize = 0;
        while i < sn
            invariant
                0 <= i <= sn,
                sn == shape@.len(),
                x@.len() == shape@.len(),
                forall|k: int| 0 <= k < i ==> shape_pos_ok(shape@, x@, k),
            decreases sn - i,
        {
            if i + 1 < sn {
                let c1 = shape.get_char(i);
                let c2 = shape.get_char(i + 1);
                if (c1 == 'c' || c1 == 'C') && (c2 == 'c' || c2 == 'C') {
                    proof {
                        assert(is_cc_at(shape@, i as int));
                    }
                    if !self.validator_for_cc(x, i) {
                        proof {
                            assert(!shape_pos_ok(shape@, x@, i as int));
                        }
                        return false;
                    }
                    if i + 2 < sn {
                        let c3 = shape.get_char(i + 2);
                        if (c3 == 'c' || c3 == 'C') && !self.validator_for_ccc(x, i) {
                            proof {
                                assert(!shape_pos_ok(shape@, x@, i as int));
                            }
                            return false;
                        }
                    }
                    if i > 0 && sn >= 5 && i <= sn - 5 {
                        let s0 = shape.get_char(i);
                        let s1 = shape.get_char(i + 1);
                        let s2 = shape.get_char(i + 2);
                        let s3 = shape.get_char(i + 3);
                        let s4 = shape.get_char(i + 4);
                        if s0 == 'c' && s1 == 'c' && s2 == 'v' && s3 == 'c' && s4 == 'v'
                            && !self.invalidator_for_initial_cc(x, i) {
                            proof {
                                assert(ccvcv_suffix_at(shape@, i as int));
                                assert(!shape_pos_ok(shape@, x@, i as int));
                            }
                            return false;
                        }
                    }
                }
            }
            i = i + 1;
        }
        true
    }

    /// The pair predicate at position `i`: a word-initial pair at the
    /// start, a medial pair elsewhere.
    fn validator_for_cc(&self, x: &str, i: usize) -> (r: bool)
        requires
            i + 2 <= x@.len(),
            x@.len() <= usize::MAX,
        ensures
            r == pair_ok(x@, i as int),
    {
        if i == 0 {
            valid_initial_pair(x.get_char(0), x.get_char(1))
        } else {
            valid_medial_pair(x.get_char(i), x.get_char(i + 1))
        }
    }

    /// The triple predicate at position `i`: not one of the banned
    /// triples.
    fn validator_for_ccc(&self, x: &str, i: usize) -> (r: bool)
        requires
            i + 3 <= x@.len(),
            x@.len() <= usize::MAX,
        ensures
            r == !is_forbidden_ccc(x@[i as int], x@[i + 1], x@[i + 2]),
    {
        let c1 = x.get_char(i);
        let c2 = x.get_char(i + 1);
        let c3 = x.get_char(i + 2);
        !(c1 == 'n' && ((c2 == 'd' && (c3 == 'j' || c3 == 'z')) || (c2 == 't' && (c3 == 'c' || c3
            == 's'))))
    }

    /// The medial-cluster predicate before a `ccvcv` suffix: the pair
    /// must not be word-initial, which would invite a false word
    /// break.
    fn invalidator_for_initial_cc(&self, x: &str, i: usize) -> (r: bool)
        requires
            i + 2 <= x@.len(),
            x@.len() <= usize::MAX,
        ensures
            r == !is_valid_initial_pair(x@[i as int], x@[i + 1]),
    {
        !valid_initial_pair(x.get_char(i), x.get_char(i + 1))
    }
}

/// The consonant alphabet, in its fixed order.
pub open spec fn consonant_alphabet() -> Seq<char> {
    seq!['b', 'c', 'd', 'f', 'g', 'j', 'k', 'l', 'm', 'n', 'p', 'r', 's', 't', 'v', 'x', 'z']
}

/// The vowel alphabet, in its fixed order.
pub open spec fn vowel_alphabet() -> Seq<char> {
    seq!['a', 'e', 'i', 'o', 'u']
}

/// `c` occurs somewhere in the given words.
pub open spec fn char_in_words(c: char, words: Seq<Seq<char>>) -> bool {
    exists|i: int, j: int| 0 <= i < words.len() && 0 <= j < words[i].len() && words[i][j] == c
}

/// The letters of `alphabet` that occur in the words, in alphabet
/// order, each as a one-letter string.
pub open spec fn letters_selected(alphabet: Seq<char>, words: Seq<Seq<char>>) -> Seq<Seq<char>>
    decreases alphabet.len(),
{
    if alphabet.len() == 0 {
        Seq::<Seq<char>>::empty()
    } else {
        letters_selected(alphabet.drop_last(), words) + (if char_in_words(alphabet.last(), words) {
            seq![seq![alphabet.last()]]
        } else {
            Seq::<Seq<char>>::empty()
        })
    }
}

/// Whether `c` occurs in any of the words.
#[verifier::loop_isolation(false)]
fn occurs_in_words(c: char, words: &[String]) -> (r: bool)
    ensures
        r == char_in_words(c, seq_views(words@)),
{
    let ghost wv = seq_views(words@);
    let mut i: usize = 0;
    while i < words.len()
        invariant
            0 <= i <= words@.len(),
            forall|ii: int, j: int|
                0 <= ii < i && 0 <= j < wv[ii].len() ==> #[trigger] wv[ii][j] != c,
        decreases words@.len() - i,
    {
        let w = words[i].as_str();
        let n = w.unicode_len();
        let mut j: usize = 0;
        proof {
            assert(wv[i as int] == words@[i as int]@);
        }
        while j < n
            invariant
                0 <= j <= n,
                0 <= i < words@.len(),
                n == words@[i as int]@.len(),
                w@ == words@[i as int]@,
                forall|t: int| 0 <= t < j ==> w@[t] != c,
            decreases n - j,
        {
            if w.get_char(j) == c {
                proof {
                    assert(wv[i as int][j as int] == c);
                }
                return true;
            }
            j = j + 1;
        }
        i = i + 1;
    }
    false
}

/// The consonants and vowels that occur in the given words, in
/// alphabet order, as the two alphabets for candidate generation.
#[verifier::loop_isolation(false)]
pub fn letters_for_words(words: &[String]) -> (r: (Vec<String>, Vec<String>))
    ensures
        seq_views(r.0@) == letters_selected(consonant_alphabet(), seq_views(words@)),
        seq_views(r.1@) == letters_selected(vowel_alphabet(), seq_views(words@)),
{
    let consonants: [char; 17] = ['b', 'c', 'd', 'f', 'g', 'j', 'k', 'l', 'm', 'n', 'p', 'r', 's',
        't', 'v', 'x', 'z'];
    let vowels: [char; 5] = ['a', 'e', 'i', 'o', 'u'];
    let ghost wv = seq_views(words@);
    let mut cs: Vec<String> = Vec::new();
    let mut i: usize = 0;
    proof {
        assert(consonants@ =~= consonant_alphabet());
        assert(vowels@ =~= vowel_alphabet());
        assert(seq_views(cs@) =~= letters_selected(consonant_alphabet().take(0), wv));
    }
    while i < 17
        invariant
            0 <= i <= 17,
            seq_views(cs@) == letters_selected(consonant_alphabet().take(i as int), wv),
        decreases 17 - i,
    {
        let c = consonants[i];
        proof {
            assert(c == consonant_alphabet()[i as int]);
            assert(consonant_alphabet().take(i + 1).drop_last() =~= consonant_alphabet().take(
                i as int,
            ));
            assert(consonant_alphabet().take(i + 1).last() == c);
        }
        if occurs_in_words(c, words) {
            let mut s = String::new();
            s.append(push_letter(c));
            proof {
                assert(s@ =~= seq![c]);
                assert(seq_views(cs@).push(s@) =~= letters_selected(
                    consonant_alphabet().take(i + 1),
                    wv,
                ));
            }
            let ghost before = seq_views(cs@);
            cs.push(s);
            proof {
                assert(seq_views(cs@) =~= before.push(seq![c]));
            }
        } else {
            proof {
                assert(seq_views(cs@) + Seq::<Seq<char>>::empty() =~= seq_views(cs@));
            }
        }
        i = i + 1;
    }
    proof {
        assert(consonant_alphabet().take(17) =~= consonant_alphabet());
    }
    let mut vs: Vec<String> = Vec::new();
    let mut k: usize = 0;
    proof {
        assert(seq_views(vs@) =~= letters_selected(vowel_alphabet().take(0), wv));
    }
    while k < 5
        invariant
            0 <= k <= 5,
            seq_views(vs@) == letters_selected(vowel_alphabet().take(k as int), wv),
        decreases 5 - k,
    {
        let c = vowels[k];
        proof {
            assert(c == vowel_alphabet()[k as int]);
            assert(vowel_alphabet().take(k + 1).drop_last() =~= vowel_alphabet().take(k as int));
            assert(vowel_alphabet().take(k + 1).last() == c);
        }
        if occurs_in_words(c, words) {
            let mut s = String::new();
            s.append(push_letter(c));
            proof {
                assert(s@ =~= seq![c]);
                assert(seq_views(vs@).push(s@) =~= letters_selected(
                    vowel_alphabet().take(k + 1),
                    wv,
                ));
            }
            let ghost before = seq_views(vs@);
            vs.push(s);
            proof {
                assert(seq_views(vs@) =~= before.push(seq![c]));
            }
        } else {
            proof {
                assert(seq_views(vs@) + Seq::<Seq<char>>::empty() =~= seq_views(vs@));
            }
        }
        k = k + 1;
    }
    proof {
        assert(vowel_alphabet().take(5) =~= vowel_alphabet());
    }
    (cs, vs)
}

/// The one-character string slice of an alphabet letter.
fn push_letter(c: char) -> (r: &'static str)
    requires
        is_consonant(c) || is_vowel(c),
    ensures
        r@ =~= seq![c],
{
    proof {
        reveal_strlit("a");
        reveal_strlit("e");
        reveal_strlit("i");
        reveal_strlit("o");
        reveal_strlit("u");
        reveal_strlit("b");
        reveal_strlit("c");
        reveal_strlit("d");
        reveal_strlit("f");
        reveal_strlit("g");
        reveal_strlit("j");
        reveal_strlit("k");
        reveal_strlit("l");
        reveal_strlit("m");
        reveal_strlit("n");
        reveal_strlit("p");
        reveal_strlit("r");
        reveal_strlit("s");
        reveal_strlit("t");
        reveal_strlit("v");
        reveal_strlit("x");
        reveal_strlit("z");
    }
    match c {
        'a' => "a",
        'e' => "e",
        'i' => "i",
        'o' => "o",
        'u' => "u",
        'b' => "b",
        'c' => "c",
        'd' => "d",
        'f' => "f",
        'g' => "g",
        'j' => "j",
        'k' => "k",
        'l' => "l",
        'm' => "m",
        'n' => "n",
        'p' => "p",
        'r' => "r",
        's' => "s",
        't' => "t",
        'v' => "v",
        'x' => "x",
        'z' => "z",
        _ => "a",
    }
}

/// An empty choice list leaves no choice tuple at all.
proof fn lemma_total_zero(alts: Seq<Seq<Seq<char>>>, j: int)
    requires
        0 <= j < alts.len(),
        alts[j].len() == 0,
    ensures
        total_count(alts) == 0,
    decreases alts.len(),
{
    if j == alts.len() - 1 {
        assert(total_count(alts) == total_count(alts.drop_last()) * 0);
    } else {
        assert(alts.drop_last()[j] == alts[j]);
        lemma_total_zero(alts.drop_last(), j);
    }
}

/// As [`lemma_generator_phonotactics`], for the first `k` indices,
/// when every position offers at least one alternative.
proof fn lemma_gen_upto_ok(shape: Seq<char>, cs: Seq<Seq<char>>, vs: Seq<Seq<char>>, k: int)
    requires
        forall|i: int| 0 <= i < cs.len() ==> (#[trigger] cs[i]).len() == 1 && is_consonant(cs[i][0]),
        forall|i: int| 0 <= i < vs.len() ==> (#[trigger] vs[i]).len() == 1 && is_vowel(vs[i][0]),
        forall|j: int|
            0 <= j < shape_alts(shape, cs, vs).len() ==> (#[trigger] shape_alts(shape, cs, vs)[
                j
            ]).len() >= 1,
    ensures
        forall|t: int|
            0 <= t < gen_upto(shape, shape_alts(shape, cs, vs), k).len() ==> {
                let cand = #[trigger] gen_upto(shape, shape_alts(shape, cs, vs), k)[t];
                cand.len() == shape.len() && shape_ok(shape, cand) && (forall|p: int|
                    0 <= p < shape.len() ==> (((shape[p] == 'c' || shape[p] == 'C')
                        ==> is_consonant(#[trigger] cand[p])) && ((shape[p] == 'v' || shape[p]
                        == 'V') ==> is_vowel(cand[p]))))
            },
    decreases k,
{
    let alts = shape_alts(shape, cs, vs);
    if k > 0 {
        lemma_gen_upto_ok(shape, cs, vs, k - 1);
        let cand = decode(alts, k - 1);
        if shape_ok(shape, cand) {
            assert forall|j: int, q: int|
                0 <= j < alts.len() && 0 <= q < alts[j].len() implies (#[trigger] alts[j][q]).len()
                == 1 by {
                assert(alts[j] == alts_of(shape[j], cs, vs));
            }
            lemma_decode_shape(alts, k - 1);
            assert forall|p: int| 0 <= p < shape.len() implies (((shape[p] == 'c' || shape[p]
                == 'C') ==> is_consonant(#[trigger] cand[p])) && ((shape[p] == 'v' || shape[p]
                == 'V') ==> is_vowel(cand[p]))) by {
                assert(alts[p] == alts_of(shape[p], cs, vs));
                let q = digit_at(alts, k - 1, p);
                assert(cand[p] == alts[p][q][0]);
            }
        }
        let g = gen_upto(shape, alts, k);
        let gprev = gen_upto(shape, alts, k - 1);
        assert forall|t: int| 0 <= t < g.len() implies {
            let c = #[trigger] g[t];
            c.len() == shape.len() && shape_ok(shape, c) && (forall|p: int|
                0 <= p < shape.len() ==> (((shape[p] == 'c' || shape[p] == 'C') ==> is_consonant(
                    #[trigger] c[p],
                )) && ((shape[p] == 'v' || shape[p] == 'V') ==> is_vowel(c[p]))))
        } by {
            if t < gprev.len() {
                assert(g[t] == gprev[t]);
            } else {
                assert(g[t] == cand);
            }
        }
    }
}

} // verus!
