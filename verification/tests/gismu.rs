use vlazba::{
    lcs_length, letters_for_words, score_dyad_by_pattern, score_numerator, score_numerators,
    GismuGenerator, GismuMatcher,
};

fn s(x: &str) -> String {
    x.to_string()
}

fn strings(xs: &[&str]) -> Vec<String> {
    xs.iter().map(|x| x.to_string()).collect()
}

fn letter_vec(letters: &str) -> Vec<String> {
    letters.chars().map(|c| c.to_string()).collect()
}

#[test]
fn lcs_values() {
    assert_eq!(lcs_length("klama", "klama"), 5);
    assert_eq!(lcs_length("bxxgo", "bongo"), 3);
    assert_eq!(lcs_length("xbxbo", "bongo"), 2);
    assert_eq!(lcs_length("abc", ""), 0);
}

#[test]
fn identical_word_scores_its_length() {
    assert_eq!(score_numerator("klama", "klama"), 5);
    assert_eq!(score_numerators("klama", &strings(&["klama"])), vec![5]);
}

#[test]
fn dyad_rule_cases() {
    // LCS three: the plain LCS length is the score.
    assert_eq!(score_numerator("bxxgo", "bongo"), 3);
    // LCS two: the dyad `bo` is not in the even or odd letters of
    // `bongo` but is a substring of it.
    assert_eq!(score_dyad_by_pattern("xbxbo", "bongo"), 2);
    assert_eq!(score_numerator("xbxbo", "bongo"), 2);
    // No dyad at all.
    assert_eq!(score_numerator("xaxex", "pivot"), 0);
}

#[test]
fn dyad_rule_even_odd_patterns() {
    // The dyad `bn` occurs in the even positions `bng` of `bongo`.
    assert_eq!(score_dyad_by_pattern("bnxxx", "bongo"), 2);
}

#[test]
fn scorer_short_donor_words() {
    assert_eq!(score_numerator("klama", "ma"), 2);
    assert_eq!(score_numerator("klama", "k"), 0);
    assert_eq!(score_numerator("klama", ""), 0);
}

#[test]
fn generator_small_shape_exact_output() {
    let g = GismuGenerator::new(letter_vec("bd"), letter_vec("a"), strings(&["cvccv"]));
    assert_eq!(
        g.iterator(),
        vec![s("badba"), s("dadba"), s("babda"), s("dabda")]
    );
}

#[test]
fn generator_ccvcv_respects_phonotactics() {
    let g = GismuGenerator::new(
        letter_vec("bcdfgjklmnprstvxz"),
        letter_vec("aeiou"),
        strings(&["ccvcv"]),
    );
    let candidates = g.iterator();
    assert!(!candidates.is_empty());
    for cand in &candidates {
        assert_eq!(cand.len(), 5);
        let chars: Vec<char> = cand.chars().collect();
        // The leading pair must be a valid initial pair.
        assert_eq!(vlazba::is_permissible(chars[0], chars[1]), 2);
        // The banned pair `mz` must not occur anywhere.
        assert!(!cand.contains("mz"));
    }
}

#[test]
fn generator_medial_cluster_must_not_look_initial() {
    let g = GismuGenerator::new(
        letter_vec("bcdfgjklmnprstvxz"),
        letter_vec("aeiou"),
        strings(&["cvccvcv"]),
    );
    // In `cvccvcv` the suffix starting at the medial `cc` is `ccvcv`,
    // so that cluster must not be a plausible word-initial pair.
    for cand in g.iterator().iter().take(5000) {
        let chars: Vec<char> = cand.chars().collect();
        assert_ne!(vlazba::is_permissible(chars[2], chars[3]), 2);
        assert_eq!(vlazba::is_permissible(chars[2], chars[3]), 1);
    }
}

#[test]
fn matcher_stem_and_structure() {
    let inventory = strings(&["klama", "bacru"]);
    let m = GismuMatcher::new(&inventory, None);
    assert_eq!(m.find_similar_gismu("klamo"), Some(s("klama")));
    assert_eq!(m.find_similar_gismu("pacru"), Some(s("bacru")));
    assert_eq!(m.find_similar_gismu("xelso"), None);
    assert_eq!(m.find_similar_gismu("klamo\n"), Some(s("klama")));
}

#[test]
fn matcher_respects_stem_length() {
    let inventory = strings(&["klama"]);
    let m = GismuMatcher::new(&inventory, Some(2));
    assert_eq!(m.find_similar_gismu("klxxx"), Some(s("klama")));
}

#[test]
fn letters_for_words_filters_alphabets() {
    let words = strings(&["klama"]);
    let (cs, vs) = letters_for_words(&words);
    assert_eq!(cs, strings(&["k", "l", "m"]));
    assert_eq!(vs, strings(&["a"]));
}
