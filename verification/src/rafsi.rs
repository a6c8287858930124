//! The rafsi lookup tables: selrafsi-to-rafsi maps for gismu and
//! cmavo, standard and experimental, held as explicit values with a
//! first-match lookup, and the candidate computation over them.

use crate::strutil::seq_views;
use crate::strutil::str_eq;
use vstd::prelude::*;
use vstd::string::StrSliceExecFns;
use vstd::string::StringExecFns;

verus! {

/// An ordered association table from selrafsi to its rafsi forms.
pub struct RafsiMap {
    entries: Vec<(String, Vec<String>)>,
}

impl View for RafsiMap {
    type V = Seq<(Seq<char>, Seq<Seq<char>>)>;

    closed spec fn view(&self) -> Seq<(Seq<char>, Seq<Seq<char>>)> {
        self.entries@.map_values(|p: (String, Vec<String>)| (p.0@, seq_views(p.1@)))
    }
}

/// First-match lookup in an association table.
pub open spec fn map_get(entries: Seq<(Seq<char>, Seq<Seq<char>>)>, key: Seq<char>) -> Option<
    Seq<Seq<char>>,
>
    decreases entries.len(),
{
    if entries.len() == 0 {
        None
    } else if entries[0].0 == key {
        Some(entries[0].1)
    } else {
        map_get(entries.drop_first(), key)
    }
}

/// First key, in table order, whose rafsi list contains `rafsi`.
pub open spec fn scan_for_rafsi(entries: Seq<(Seq<char>, Seq<Seq<char>>)>, rafsi: Seq<char>) -> Option<
    Seq<char>,
>
    decreases entries.len(),
{
    if entries.len() == 0 {
        None
    } else if entries[0].1.contains(rafsi) {
        Some(entries[0].0)
    } else {
        scan_for_rafsi(entries.drop_first(), rafsi)
    }
}

/// A usable rafsi entry: short and over the Lojban alphabet.
pub open spec fn valid_rafsi_text(s: Seq<char>) -> bool {
    1 <= s.len() <= 8 && forall|i: int| 0 <= i < s.len() ==> crate::letters::is_lojban_char(s[i])
}

/// Every rafsi the table holds is a usable rafsi entry.
pub open spec fn rafsi_map_wf(entries: Seq<(Seq<char>, Seq<Seq<char>>)>) -> bool {
    forall|i: int, j: int|
        0 <= i < entries.len() && 0 <= j < entries[i].1.len() ==> valid_rafsi_text(
            #[trigger] entries[i].1[j],
        )
}

impl RafsiMap {
    /// An empty table.
    pub fn new() -> (r: RafsiMap)
        ensures
            r@ == Seq::<(Seq<char>, Seq<Seq<char>>)>::empty(),
    {
        let r = RafsiMap { entries: Vec::new() };
        proof {
            assert(r@ =~= Seq::<(Seq<char>, Seq<Seq<char>>)>::empty());
        }
        r
    }

    /// Append one selrafsi with its rafsi forms.
    pub fn add(&mut self, key: String, rafsi: Vec<String>)
        ensures
            final(self)@ == old(self)@.push((key@, seq_views(rafsi@))),
    {
        let ghost k = key@;
        let ghost vs = seq_views(rafsi@);
        self.entries.push((key, rafsi));
        proof {
            assert(self@ =~= old(self)@.push((k, vs)));
        }
    }

    /// Look `key` up, returning the first matching entry's rafsi list.
    pub fn get<'a>(&'a self, key: &str) -> (r: Option<&'a Vec<String>>)
        ensures
            match r {
                Some(v) => map_get(self@, key@) == Some(seq_views(v@)),
                None => map_get(self@, key@) is None,
            },
    {
        let mut i: usize = 0;
        proof {
            assert(self@.skip(0) =~= self@);
        }
        while i < self.entries.len()
            invariant
                0 <= i <= self.entries@.len(),
                map_get(self@, key@) == map_get(self@.skip(i as int), key@),
            decreases self.entries@.len() - i,
        {
            proof {
                assert(self@.skip(i as int)[0] == self@[i as int]);
                assert(self@[i as int] == (self.entries@[i as int].0@, seq_views(
                    self.entries@[i as int].1@,
                )));
                assert(self@.skip(i as int).drop_first() =~= self@.skip(i + 1));
            }
            if str_eq(self.entries[i].0.as_str(), key) {
                return Some(&self.entries[i].1);
            }
            i = i + 1;
        }
        proof {
            assert(self@.skip(self.entries@.len() as int) =~= Seq::<(
                Seq<char>,
                Seq<Seq<char>>,
            )>::empty());
        }
        None
    }

    /// First key, in table order, whose rafsi list contains `rafsi`.
    pub fn find_key_of_rafsi(&self, rafsi: &str) -> (r: Option<String>)
        ensures
            match r {
                Some(k) => scan_for_rafsi(self@, rafsi@) == Some(k@),
                None => scan_for_rafsi(self@, rafsi@) is None,
            },
    {
        let mut i: usize = 0;
        proof {
            assert(self@.skip(0) =~= self@);
        }
        while i < self.entries.len()
            invariant
                0 <= i <= self.entries@.len(),
                scan_for_rafsi(self@, rafsi@) == scan_for_rafsi(self@.skip(i as int), rafsi@),
            decreases self.entries@.len() - i,
        {
            proof {
                assert(self@.skip(i as int)[0] == self@[i as int]);
                assert(self@[i as int] == (self.entries@[i as int].0@, seq_views(
                    self.entries@[i as int].1@,
                )));
                assert(self@.skip(i as int).drop_first() =~= self@.skip(i + 1));
            }
            let list = &self.entries[i].1;
            let mut j: usize = 0;
            let mut found: bool = false;
            while j < list.len()
                invariant
                    0 <= j <= list@.len(),
                    0 <= i < self.entries@.len(),
                    list == &self.entries@[i as int].1,
                    !found ==> forall|k: int| 0 <= k < j ==> list@[k]@ != rafsi@,
                    found ==> seq_views(list@).contains(rafsi@),
                decreases list@.len() - j + (if found {
                    0int
                } else {
                    1int
                }),
            {
                if str_eq(list[j].as_str(), rafsi) {
                    proof {
                        assert(seq_views(list@)[j as int] == rafsi@);
                    }
                    found = true;
                }
                j = j + 1;
            }
            proof {
                if !found {
                    assert forall|k: int| 0 <= k < seq_views(list@).len() implies seq_views(list@)[k]
                        != rafsi@ by {
                        assert(seq_views(list@)[k] == list@[k]@);
                    }
                    assert(!seq_views(list@).contains(rafsi@));
                }
            }
            if found {
                let k = self.entries[i].0.clone();
                return Some(k);
            }
            i = i + 1;
        }
        proof {
            assert(self@.skip(self.entries@.len() as int) =~= Seq::<(
                Seq<char>,
                Seq<Seq<char>>,
            )>::empty());
        }
        None
    }
}

/// The four rafsi tables the lujvo machinery consults.
pub struct RafsiTables {
    pub gismu: RafsiMap,
    pub gismu_exp: RafsiMap,
    pub cmavo: RafsiMap,
    pub cmavo_exp: RafsiMap,
}

/// Every table holds only usable rafsi entries.
pub open spec fn tables_wf(t: &RafsiTables) -> bool {
    rafsi_map_wf(t.gismu@) && rafsi_map_wf(t.gismu_exp@) && rafsi_map_wf(t.cmavo@) && rafsi_map_wf(
        t.cmavo_exp@,
    )
}

/// The gismu rafsi table.
pub fn get_gismu_rafsi_list(t: &RafsiTables) -> (r: &RafsiMap)
    ensures
        r@ == t.gismu@,
{
    &t.gismu
}

/// The experimental gismu rafsi table.
pub fn get_gismu_rafsi_list_exp(t: &RafsiTables) -> (r: &RafsiMap)
    ensures
        r@ == t.gismu_exp@,
{
    &t.gismu_exp
}

/// The cmavo rafsi table.
pub fn get_cmavo_rafsi_list(t: &RafsiTables) -> (r: &RafsiMap)
    ensures
        r@ == t.cmavo@,
{
    &t.cmavo
}

/// The experimental cmavo rafsi table.
pub fn get_cmavo_rafsi_list_exp(t: &RafsiTables) -> (r: &RafsiMap)
    ensures
        r@ == t.cmavo_exp@,
{
    &t.cmavo_exp
}

/// The gismu lookup: the standard table's entry when it is present
/// and non-empty, else the experimental one's when enabled, present
/// and non-empty, else an empty list — never `None`.
pub open spec fn gismu_list_spec(t: &RafsiTables, a: Seq<char>, exp: bool) -> Option<
    Seq<Seq<char>>,
> {
    match map_get(t.gismu@, a) {
        Some(r) => if r.len() > 0 {
            Some(r)
        } else {
            gismu_list_exp_spec(t, a, exp)
        },
        None => gismu_list_exp_spec(t, a, exp),
    }
}

/// The experimental-gismu half of [`gismu_list_spec`].
pub open spec fn gismu_list_exp_spec(t: &RafsiTables, a: Seq<char>, exp: bool) -> Option<
    Seq<Seq<char>>,
> {
    if exp {
        match map_get(t.gismu_exp@, a) {
            Some(r) => if r.len() > 0 {
                Some(r)
            } else {
                Some(Seq::<Seq<char>>::empty())
            },
            None => Some(Seq::<Seq<char>>::empty()),
        }
    } else {
        Some(Seq::<Seq<char>>::empty())
    }
}

/// The cmavo lookup: as the gismu lookup, but a missing or empty
/// entry yields `None`.
pub open spec fn cmavo_list_spec(t: &RafsiTables, a: Seq<char>, exp: bool) -> Option<
    Seq<Seq<char>>,
> {
    match map_get(t.cmavo@, a) {
        Some(r) => if r.len() > 0 {
            Some(r)
        } else {
            cmavo_list_exp_spec(t, a, exp)
        },
        None => cmavo_list_exp_spec(t, a, exp),
    }
}

/// The experimental-cmavo half of [`cmavo_list_spec`].
pub open spec fn cmavo_list_exp_spec(t: &RafsiTables, a: Seq<char>, exp: bool) -> Option<
    Seq<Seq<char>>,
> {
    if exp {
        match map_get(t.cmavo_exp@, a) {
            Some(r) => if r.len() > 0 {
                Some(r)
            } else {
                None
            },
            None => None,
        }
    } else {
        None
    }
}

/// Rafsi of the gismu `a`: a copy of its table entry, or an empty
/// list when no table lists it.
pub fn gismu_rafsi_list(tables: &RafsiTables, a: &str, exp_rafsi: bool) -> (r: Option<Vec<String>>)
    ensures
        match r {
            Some(v) => gismu_list_spec(tables, a@, exp_rafsi) == Some(seq_views(v@)),
            None => gismu_list_spec(tables, a@, exp_rafsi) is None,
        },
{
    match tables.gismu.get(a) {
        Some(rafsi) => {
            if rafsi.len() > 0 {
                let c = rafsi.clone();
                proof {
                    assert(seq_views(c@) =~= seq_views(rafsi@));
                }
                return Some(c);
            }
        },
        None => {},
    }
    if exp_rafsi {
        match tables.gismu_exp.get(a) {
            Some(rafsi) => {
                if rafsi.len() > 0 {
                    let c = rafsi.clone();
                    proof {
                        assert(seq_views(c@) =~= seq_views(rafsi@));
                    }
                    return Some(c);
                }
            },
            None => {},
        }
    }
    let empty: Vec<String> = Vec::new();
    proof {
        assert(seq_views(empty@) =~= Seq::<Seq<char>>::empty());
    }
    Some(empty)
}

/// Rafsi of the cmavo `a`: a copy of its table entry, or `None` when
/// no table lists it.
pub fn cmavo_rafsi_list(tables: &RafsiTables, a: &str, exp_rafsi: bool) -> (r: Option<Vec<String>>)
    ensures
        match r {
            Some(v) => cmavo_list_spec(tables, a@, exp_rafsi) == Some(seq_views(v@)),
            None => cmavo_list_spec(tables, a@, exp_rafsi) is None,
        },
{
    match tables.cmavo.get(a) {
        Some(rafsi) => {
            if rafsi.len() > 0 {
                let c = rafsi.clone();
                proof {
                    assert(seq_views(c@) =~= seq_views(rafsi@));
                }
                return Some(c);
            }
        },
        None => {},
    }
    if exp_rafsi {
        match tables.cmavo_exp.get(a) {
            Some(rafsi) => {
                if rafsi.len() > 0 {
                    let c = rafsi.clone();
                    proof {
                        assert(seq_views(c@) =~= seq_views(rafsi@));
                    }
                    return Some(c);
                }
            },
            None => {},
        }
    }
    None
}

/// The candidate rafsi of one selrafsi: its cmavo rafsi when it has
/// any; otherwise its gismu rafsi, plus the selrafsi itself in final
/// position, plus the four-letter chopped form unless that form is
/// the literal `brod`.
pub open spec fn candid_spec(t: &RafsiTables, word: Seq<char>, is_last: bool, exp: bool) -> Seq<
    Seq<char>,
> {
    match cmavo_list_spec(t, word, exp) {
        Some(a) => a,
        None => {
            let b = match gismu_list_spec(t, word, exp) {
                Some(b) => b,
                None => Seq::<Seq<char>>::empty(),
            };
            let with_gismu = if is_last {
                b.push(word)
            } else {
                b
            };
            if word.drop_last() == seq!['b', 'r', 'o', 'd'] {
                with_gismu
            } else {
                with_gismu.push(word.drop_last())
            }
        },
    }
}

/// The candidate rafsi list used by the lujvo enumerator for one
/// selrafsi.
#[verifier::loop_isolation(false)]
pub fn get_candid(tables: &RafsiTables, selrafsi: &str, is_last: bool, exp_rafsi: bool) -> (r: Vec<
    String,
>)
    requires
        selrafsi@.len() >= 1,
    ensures
        seq_views(r@) == candid_spec(tables, selrafsi@, is_last, exp_rafsi),
{
    proof {
        reveal_strlit("brod");
        assert("brod"@ =~= seq!['b', 'r', 'o', 'd']);
    }
    match cmavo_rafsi_list(tables, selrafsi, exp_rafsi) {
        Some(a) => a,
        None => {
            let mut candid = match gismu_rafsi_list(tables, selrafsi, exp_rafsi) {
                Some(b) => b,
                None => Vec::new(),
            };
            let ghost b = seq_views(candid@);
            if is_last {
                candid.push(String::from_str(selrafsi));
                proof {
                    assert(seq_views(candid@) =~= b.push(selrafsi@));
                }
            }
            let ghost with_gismu = seq_views(candid@);
            let n = selrafsi.unicode_len();
            let chopped = selrafsi.substring_char(0, n - 1);
            proof {
                assert(chopped@ =~= selrafsi@.drop_last());
            }
            if !str_eq(chopped, "brod") {
                candid.push(String::from_str(chopped));
                proof {
                    assert(seq_views(candid@) =~= with_gismu.push(selrafsi@.drop_last()));
                }
            }
            candid
        },
    }
}

/// Find the selrafsi a rafsi belongs to: the rafsi itself when it is
/// a gismu with rafsi; a four-letter non-`brod` form without an
/// apostrophe completed with `a`; else the first selrafsi, in table
/// order, whose rafsi list contains it — gismu before cmavo,
/// standard tables before experimental ones.
pub open spec fn search_spec(t: &RafsiTables, rafsi: Seq<char>, exp: bool) -> Option<Seq<char>> {
    if gismu_has_rafsi(t, rafsi, exp) {
        Some(rafsi)
    } else if rafsi != seq!['b', 'r', 'o', 'd'] && rafsi.len() == 4 && !(exists|i: int|
        0 <= i < rafsi.len() && rafsi[i] == '\'') {
        Some(rafsi.push('a'))
    } else {
        match scan_for_rafsi(t.gismu@, rafsi) {
            Some(k) => Some(k),
            None => match scan_for_rafsi(t.cmavo@, rafsi) {
                Some(k) => Some(k),
                None => if exp {
                    match scan_for_rafsi(t.gismu_exp@, rafsi) {
                        Some(k) => Some(k),
                        None => scan_for_rafsi(t.cmavo_exp@, rafsi),
                    }
                } else {
                    None
                },
            },
        }
    }
}

/// Whether the gismu lookup yields a non-empty rafsi list.
pub open spec fn gismu_has_rafsi(t: &RafsiTables, a: Seq<char>, exp: bool) -> bool {
    match gismu_list_spec(t, a, exp) {
        Some(r) => r.len() > 0,
        None => false,
    }
}

/// Map a rafsi back to a selrafsi, per [`search_spec`].
#[verifier::loop_isolation(false)]
pub fn search_selrafsi_from_rafsi2(tables: &RafsiTables, rafsi: &str, exp_rafsi: bool) -> (r:
    Option<String>)
    ensures
        match r {
            Some(s) => search_spec(tables, rafsi@, exp_rafsi) == Some(s@),
            None => search_spec(tables, rafsi@, exp_rafsi) is None,
        },
{
    proof {
        reveal_strlit("brod");
        assert("brod"@ =~= seq!['b', 'r', 'o', 'd']);
    }
    match gismu_rafsi_list(tables, rafsi, exp_rafsi) {
        Some(rafsis) => {
            if rafsis.len() > 0 {
                return Some(String::from_str(rafsi));
            }
        },
        None => {},
    }
    let n = rafsi.unicode_len();
    if !str_eq(rafsi, "brod") && n == 4 && !contains_apostrophe(rafsi) {
        // Completing the rafsi with each vowel in turn stops at the
        // first candidate, because the gismu lookup never misses.
        let mut gismu_candid = String::from_str(rafsi);
        gismu_candid.append("a");
        proof {
            reveal_strlit("a");
            assert(gismu_candid@ =~= rafsi@.push('a'));
        }
        match gismu_rafsi_list(tables, gismu_candid.as_str(), exp_rafsi) {
            Some(_) => {
                return Some(gismu_candid);
            },
            None => {
                proof {
                    assert(false);
                }
            },
        }
    }
    match tables.gismu.find_key_of_rafsi(rafsi) {
        Some(k) => {
            return Some(k);
        },
        None => {},
    }
    match tables.cmavo.find_key_of_rafsi(rafsi) {
        Some(k) => {
            return Some(k);
        },
        None => {},
    }
    if exp_rafsi {
        match tables.gismu_exp.find_key_of_rafsi(rafsi) {
            Some(k) => {
                return Some(k);
            },
            None => {},
        }
        match tables.cmavo_exp.find_key_of_rafsi(rafsi) {
            Some(k) => {
                return Some(k);
            },
            None => {},
        }
    }
    None
}

/// Whether the string holds an apostrophe.
fn contains_apostrophe(s: &str) -> (r: bool)
    ensures
        r == exists|i: int| 0 <= i < s@.len() && s@[i] == '\'',
{
    let n = s.unicode_len();
    let mut i: usize = 0;
    while i < n
        invariant
            0 <= i <= n,
            n == s@.len(),
            forall|j: int| 0 <= j < i ==> s@[j] != '\'',
        decreases n - i,
    {
        if s.get_char(i) == '\'' {
            return true;
        }
        i = i + 1;
    }
    false
}

} // verus!
