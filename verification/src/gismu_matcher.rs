//! The similar-gismu matcher: tests a candidate against an existing
//! gismu inventory, by stem prefix or by a single confusable-letter
//! substitution.

use crate::strutil::has_prefix;
use crate::strutil::seq_views;
use crate::strutil::starts_with_str;
use vstd::prelude::*;
use vstd::string::StrSliceExecFns;
use vstd::string::StringExecFns;

verus! {

/// ASCII whitespace, as trimmed from the end of a candidate.
pub open spec fn is_ascii_space(c: char) -> bool {
    c == ' ' || c == '\t' || c == '\n' || c == '\r' || c == '\u{b}' || c == '\u{c}'
}

/// `s` with trailing ASCII whitespace removed.
pub open spec fn trim_end_spec(s: Seq<char>) -> Seq<char>
    decreases s.len(),
{
    if s.len() > 0 && is_ascii_space(s.last()) {
        trim_end_spec(s.drop_last())
    } else {
        s
    }
}

/// `g` is listed as confusable with `c` (e.g. `b` with `p` and `v`).
/// Case of the candidate letter is ignored.
pub open spec fn similar_letters(c: char, g: char) -> bool {
    match c {
        'b' | 'B' => g == 'p' || g == 'v',
        'c' | 'C' => g == 'j' || g == 's',
        'd' | 'D' => g == 't',
        'f' | 'F' => g == 'p' || g == 'v',
        'g' | 'G' => g == 'k' || g == 'x',
        'j' | 'J' => g == 'c' || g == 'z',
        'k' | 'K' => g == 'g' || g == 'x',
        'l' | 'L' => g == 'r',
        'm' | 'M' => g == 'n',
        'n' | 'N' => g == 'm',
        'p' | 'P' => g == 'b' || g == 'f',
        'r' | 'R' => g == 'l',
        's' | 'S' => g == 'c' || g == 'z',
        't' | 'T' => g == 'd',
        'v' | 'V' => g == 'b' || g == 'f',
        'x' | 'X' => g == 'g' || g == 'k',
        'z' | 'Z' => g == 'j' || g == 's',
        _ => false,
    }
}

/// `x` and `y` agree on `[0, i)` and on `(i, j)`.
pub open spec fn strings_match_except(x: Seq<char>, y: Seq<char>, i: int, j: int) -> bool {
    x.subrange(0, i) == y.subrange(0, i) && x.subrange(i + 1, j) == y.subrange(i + 1, j)
}

/// The common length of the two words.
pub open spec fn common_len(gismu: Seq<char>, cand: Seq<char>) -> int {
    if cand.len() <= gismu.len() {
        cand.len() as int
    } else {
        gismu.len() as int
    }
}

/// Structural match: over the common length, the two words agree
/// everywhere but at one position, where the gismu's letter is
/// confusable with the candidate's.
pub open spec fn structure_match(gismu: Seq<char>, cand: Seq<char>) -> bool {
    exists|i: int|
        0 <= i < common_len(gismu, cand) && #[trigger] strings_match_except(
            gismu,
            cand,
            i,
            common_len(gismu, cand),
        ) && similar_letters(cand[i], gismu[i])
}

/// Stem match: the first `stem` characters of the candidate are a
/// prefix of the gismu.
pub open spec fn stem_match(gismu: Seq<char>, cand: Seq<char>, stem: int) -> bool {
    cand.len() >= stem && has_prefix(gismu, cand.take(stem))
}

/// A collision with one gismu, by stem or by structure.
pub open spec fn match_gismu_spec(gismu: Seq<char>, cand: Seq<char>, stem: int) -> bool {
    stem_match(gismu, cand, stem) || structure_match(gismu, cand)
}

/// The first gismu of the inventory, in order, that collides with
/// the candidate.
pub open spec fn find_similar_spec(gismus: Seq<Seq<char>>, cand: Seq<char>, stem: int) -> Option<
    Seq<char>,
>
    decreases gismus.len(),
{
    if gismus.len() == 0 {
        None
    } else if match_gismu_spec(gismus[0], cand, stem) {
        Some(gismus[0])
    } else {
        find_similar_spec(gismus.drop_first(), cand, stem)
    }
}

/// Tests candidates against an inventory of existing gismu.
pub struct GismuMatcher<'a> {
    pub gismus: &'a [String],
    pub stem_length: usize,
}

impl<'a> GismuMatcher<'a> {
    /// A matcher over `gismus`; the stem length defaults to four.
    pub fn new(gismus: &'a [String], stem_length: Option<usize>) -> (r: Self)
        ensures
            r.gismus@ == gismus@,
            r.stem_length == match stem_length {
                Some(s) => s,
                None => 4usize,
            },
    {
        let stem = match stem_length {
            Some(s) => s,
            None => 4,
        };
        GismuMatcher { gismus, stem_length: stem }
    }

    /// The first gismu of the inventory that collides with the
    /// candidate (trailing whitespace ignored), if any.
    #[verifier::loop_isolation(false)]
    pub fn find_similar_gismu(&self, candidate: &str) -> (r: Option<String>)
        ensures
            match r {
                Some(g) => find_similar_spec(
                    seq_views(self.gismus@),
                    trim_end_spec(candidate@),
                    self.stem_length as int,
                ) == Some(g@),
                None => find_similar_spec(
                    seq_views(self.gismus@),
                    trim_end_spec(candidate@),
                    self.stem_length as int,
                ) is None,
            },
    {
        let mut end = candidate.unicode_len();
        let mut done = false;
        proof {
            assert(candidate@.take(candidate@.len() as int) =~= candidate@);
        }
        while !done && end > 0
            invariant
                0 <= end <= candidate@.len(),
                trim_end_spec(candidate@) == trim_end_spec(candidate@.take(end as int)),
                done ==> end == 0 || !is_ascii_space(candidate@[end - 1]),
            decreases end + (if done {
                0int
            } else {
                1int
            }),
        {
            let c = candidate.get_char(end - 1);
            if c == ' ' || c == '\t' || c == '\n' || c == '\r' || c == '\u{b}' || c == '\u{c}' {
                proof {
                    assert(candidate@.take(end as int).drop_last() =~= candidate@.take(end - 1));
                    assert(candidate@.take(end as int).last() == candidate@[end - 1]);
                }
                end = end - 1;
            } else {
                done = true;
            }
        }
        let cand = candidate.substring_char(0, end);
        proof {
            assert(trim_end_spec(candidate@.take(end as int)) == candidate@.take(end as int));
            assert(cand@ == trim_end_spec(candidate@));
        }
        let ghost gv = seq_views(self.gismus@);
        let ghost cv = cand@;
        let mut i: usize = 0;
        proof {
            assert(gv.skip(0) =~= gv);
        }
        while i < self.gismus.len()
            invariant
                0 <= i <= self.gismus@.len(),
                find_similar_spec(gv, cv, self.stem_length as int) == find_similar_spec(
                    gv.skip(i as int),
                    cv,
                    self.stem_length as int,
                ),
            decreases self.gismus@.len() - i,
        {
            let g = &self.gismus[i];
            proof {
                assert(gv.skip(i as int)[0] == gv[i as int]);
                assert(gv[i as int] == self.gismus@[i as int]@);
                assert(gv.skip(i as int).drop_first() =~= gv.skip(i + 1));
            }
            if self.match_gismu(g.as_str(), cand) {
                return Some(g.clone());
            }
            i = i + 1;
        }
        proof {
            assert(gv.skip(self.gismus@.len() as int) =~= Seq::<Seq<char>>::empty());
        }
        None
    }

    /// Whether one gismu collides with the candidate.
    fn match_gismu(&self, gismu: &str, candidate: &str) -> (r: bool)
        ensures
            r == match_gismu_spec(gismu@, candidate@, self.stem_length as int),
    {
        self.match_stem(gismu, candidate) || self.match_structure(gismu, candidate)
    }

    /// Whether the candidate's stem is a prefix of the gismu.
    fn match_stem(&self, gismu: &str, candidate: &str) -> (r: bool)
        ensures
            r == stem_match(gismu@, candidate@, self.stem_length as int),
    {
        let n = candidate.unicode_len();
        if n < self.stem_length {
            return false;
        }
        let stem = candidate.substring_char(0, self.stem_length);
        proof {
            assert(stem@ == candidate@.take(self.stem_length as int));
        }
        starts_with_str(gismu, stem)
    }

    /// Whether the two words agree over their common length except at
    /// one position holding confusable letters.
    #[verifier::loop_isolation(false)]
    fn match_structure(&self, gismu: &str, candidate: &str) -> (r: bool)
        ensures
            r == structure_match(gismu@, candidate@),
    {
        let gn = gismu.unicode_len();
        let cn = candidate.unicode_len();
        let common = if cn <= gn {
            cn
        } else {
            gn
        };
        let mut i: usize = 0;
        while i < common
            invariant
                0 <= i <= common,
                common as int == common_len(gismu@, candidate@),
                gn == gismu@.len(),
                cn == candidate@.len(),
                forall|k: int|
                    0 <= k < i ==> !(#[trigger] strings_match_except(
                        gismu@,
                        candidate@,
                        k,
                        common as int,
                    ) && similar_letters(candidate@[k], gismu@[k])),
            decreases common - i,
        {
            if self.strings_match_except(gismu, candidate, i, common) && self
                .match_structural_pattern(gismu.get_char(i), candidate.get_char(i)) {
                proof {
                    assert(strings_match_except(gismu@, candidate@, i as int, common as int));
                    assert(similar_letters(candidate@[i as int], gismu@[i as int]));
                }
                return true;
            }
            i = i + 1;
        }
        false
    }

    /// Whether the gismu's letter at the differing position is
    /// confusable with the candidate's.
    fn match_structural_pattern(&self, letter: char, c: char) -> (r: bool)
        ensures
            r == similar_letters(c, letter),
    {
        let g = letter;
        match c {
            'b' | 'B' => g == 'p' || g == 'v',
            'c' | 'C' => g == 'j' || g == 's',
            'd' | 'D' => g == 't',
            'f' | 'F' => g == 'p' || g == 'v',
            'g' | 'G' => g == 'k' || g == 'x',
            'j' | 'J' => g == 'c' || g == 'z',
            'k' | 'K' => g == 'g' || g == 'x',
            'l' | 'L' => g == 'r',
            'm' | 'M' => g == 'n',
            'n' | 'N' => g == 'm',
            'p' | 'P' => g == 'b' || g == 'f',
            'r' | 'R' => g == 'l',
            's' | 'S' => g == 'c' || g == 'z',
            't' | 'T' => g == 'd',
            'v' | 'V' => g == 'b' || g == 'f',
            'x' | 'X' => g == 'g' || g == 'k',
            'z' | 'Z' => g == 'j' || g == 's',
            _ => false,
        }
    }

    /// Whether `x` and `y` agree on `[0, i)` and on `(i, j)`.
    #[verifier::loop_isolation(false)]
    fn strings_match_except(&self, x: &str, y: &str, i: usize, j: usize) -> (r: bool)
        requires
            j <= x@.len(),
            j <= y@.len(),
            i < j,
        ensures
            r == strings_match_except(x@, y@, i as int, j as int),
    {
        let mut k: usize = 0;
        while k < i
            invariant
                0 <= k <= i,
                i < j <= x@.len(),
                j <= y@.len(),
                forall|t: int| 0 <= t < k ==> x@[t] == y@[t],
            decreases i - k,
        {
            if x.get_char(k) != y.get_char(k) {
                proof {
                    assert(x@.subrange(0, i as int)[k as int] != y@.subrange(0, i as int)[
                        k as int
                    ]);
                }
                return false;
            }
            k = k + 1;
        }
        let mut t: usize = i + 1;
        while t < j
            invariant
                i + 1 <= t <= j,
                i < j <= x@.len(),
                j <= y@.len(),
                forall|u: int| 0 <= u < i ==> x@[u] == y@[u],
                forall|u: int| i + 1 <= u < t ==> x@[u] == y@[u],
            decreases j - t,
        {
            if x.get_char(t) != y.get_char(t) {
                proof {
                    assert(x@.subrange(i + 1, j as int)[t - i - 1] != y@.subrange(i + 1, j as int)[
                        t - i - 1
                    ]);
                }
                return false;
            }
            t = t + 1;
        }
        proof {
            assert(x@.subrange(0, i as int) =~= y@.subrange(0, i as int));
            assert(x@.subrange(i + 1, j as int) =~= y@.subrange(i + 1, j as int));
        }
        true
    }
}

} // verus!
