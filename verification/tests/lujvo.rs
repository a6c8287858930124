use vlazba::jvokaha::LujvoError;
use vlazba::jvozba::LujvoAndScore;
use vlazba::rafsi::{RafsiMap, RafsiTables};
use vlazba::{
    cmavo_rafsi_list, create_every_possibility, get_candid, get_cv_info, get_lujvo_score,
    gismu_rafsi_list, is_c, is_cmevla, is_forbidden, is_permissible, is_tosmabru, jvokaha,
    jvokaha2, jvozba, normalize, search_selrafsi_from_rafsi2, should_add_hyphen,
};

fn s(x: &str) -> String {
    x.to_string()
}

fn tables() -> RafsiTables {
    let mut gismu = RafsiMap::new();
    gismu.add(s("klama"), vec![s("kla")]);
    gismu.add(s("gasnu"), vec![s("gau")]);
    gismu.add(s("barda"), vec![s("bra"), s("bad")]);
    gismu.add(s("lajre"), vec![s("laj")]);
    let mut cmavo = RafsiMap::new();
    cmavo.add(s("zo'e"), vec![s("zoh")]);
    RafsiTables {
        gismu,
        gismu_exp: RafsiMap::new(),
        cmavo,
        cmavo_exp: RafsiMap::new(),
    }
}

#[test]
fn jvozba_klama_gasnu_contains_klagau() {
    let t = tables();
    let words = vec![s("klama"), s("gasnu")];
    let res = jvozba(&t, &words, false, false);
    assert!(res.iter().any(|r| r.lujvo == "klagau"));
    assert_eq!(res[0].lujvo, "klagau");
}

#[test]
fn jvozba_results_are_sorted_by_score() {
    let t = tables();
    let words = vec![s("klama"), s("gasnu")];
    let res = jvozba(&t, &words, false, false);
    assert!(res.len() >= 2);
    for w in res.windows(2) {
        assert!(w[0].score <= w[1].score);
    }
}

#[test]
fn jvozba_outputs_decompose_again() {
    let t = tables();
    let words = vec![s("klama"), s("gasnu")];
    let res = jvozba(&t, &words, false, false);
    for r in &res {
        if !is_cmevla(&r.lujvo) {
            let toks = jvokaha(&r.lujvo).unwrap();
            let rafsi: Vec<String> = toks.into_iter().filter(|a| a.len() != 1).collect();
            assert_eq!(normalize(&rafsi).join(""), r.lujvo);
        }
    }
}

#[test]
fn jvokaha_kalgahu() {
    assert_eq!(jvokaha("kalga'u").unwrap(), vec![s("kal"), s("ga'u")]);
}

#[test]
fn jvokaha_bramlatu_round_trips() {
    let toks = jvokaha("bramlatu").unwrap();
    assert_eq!(toks, vec![s("bra"), s("mlatu")]);
    assert_eq!(normalize(&toks).join(""), "bramlatu");
}

#[test]
fn jvokaha_rejects_spurious_hyphen() {
    match jvokaha("kalyga'u") {
        Err(LujvoError::Malformed { correct }) => assert_eq!(correct, "kalga'u"),
        other => panic!("expected a malformed error, got {:?}", other),
    }
}

#[test]
fn jvokaha_rejects_undecomposable() {
    assert_eq!(jvokaha("zzz"), Err(LujvoError::Decompose));
}

#[test]
fn jvokaha_rejects_single_gismu() {
    assert_eq!(jvokaha("klama"), Err(LujvoError::TooFewRafsi));
}

#[test]
fn jvokaha_three_part_lujvo() {
    let toks = jvokaha("kalkalga'u").unwrap();
    assert_eq!(toks, vec![s("kal"), s("kal"), s("ga'u")]);
}

#[test]
fn jvokaha_cvv_rafsi_in_the_middle() {
    let toks = jvokaha("kalsaiklama").unwrap();
    assert_eq!(toks, vec![s("kal"), s("sai"), s("klama")]);
}

#[test]
fn jvokaha_four_letter_rafsi_in_front() {
    let toks = jvokaha("klamykalga'u").unwrap();
    assert_eq!(toks, vec![s("klam"), s("y"), s("kal"), s("ga'u")]);
}

#[test]
fn jvokaha2_splits_four_letter_rafsi_with_hyphen() {
    assert_eq!(
        jvokaha2("klamygau").unwrap(),
        vec![s("klam"), s("y"), s("gau")]
    );
}

#[test]
fn normalize_inserts_tosmabru_hyphen() {
    let parts = vec![s("tos"), s("mabru")];
    assert_eq!(normalize(&parts), vec![s("tos"), s("y"), s("mabru")]);
    assert_eq!(normalize(&parts).join(""), "tosymabru");
}

#[test]
fn normalize_leaves_plain_pair_alone() {
    let parts = vec![s("kal"), s("ga'u")];
    assert_eq!(normalize(&parts), parts);
}

#[test]
fn normalize_adds_hyphens_after_leading_cvv() {
    let parts = vec![s("sai"), s("klama")];
    assert_eq!(
        normalize(&parts),
        vec![s("sai"), s("r"), s("y"), s("klama")]
    );
}

#[test]
fn normalize_adds_y_after_four_letter_rafsi() {
    let parts = vec![s("klam"), s("gau")];
    assert_eq!(normalize(&parts), vec![s("klam"), s("y"), s("gau")]);
}

#[test]
fn tosmabru_detection() {
    assert!(is_tosmabru("tos", &[s("mabru")]));
    assert!(!is_tosmabru("kal", &[s("ga'u")]));
}

#[test]
fn should_add_hyphen_two_part_ccv() {
    assert!(!should_add_hyphen(
        &[s("sai"), s("bra")],
        &[s("bra")]
    ));
    assert!(should_add_hyphen(&[s("sai"), s("kal")], &[s("kal")]));
}

#[test]
fn forbidden_cmevla_patterns() {
    let d = LujvoAndScore {
        lujvo: s("lajgasn"),
        score: 0,
    };
    assert!(is_forbidden(&d, true));
    assert!(!is_forbidden(&d, false));
    let open_form = LujvoAndScore {
        lujvo: s("lajgau"),
        score: 0,
    };
    assert!(!is_forbidden(&open_form, true));
}

#[test]
fn jvozba_forbid_la_lai_doi_drops_cmevla() {
    let t = tables();
    let words = vec![s("lajre"), s("gasnu")];
    let kept = jvozba(&t, &words, false, false);
    assert!(kept.iter().any(|r| r.lujvo == "lajgasn"));
    let filtered = jvozba(&t, &words, true, false);
    assert!(!filtered.iter().any(|r| r.lujvo == "lajgasn"));
    assert!(filtered.iter().any(|r| r.lujvo == "lajgau"));
}

#[test]
fn lujvo_score_values() {
    assert_eq!(get_lujvo_score(&[s("kla"), s("gau")]), 5847);
    assert_eq!(get_lujvo_score(&[s("tos"), s("y"), s("mabru")]), 9037);
}

#[test]
fn cv_info_classification() {
    assert_eq!(get_cv_info("klama"), "CCVCV");
    assert_eq!(get_cv_info("ga'u"), "CV'V");
    assert_eq!(get_cv_info("klamy"), "CCVCY");
}

#[test]
fn consonant_string_test() {
    assert!(is_c("zd"));
    assert!(!is_c("za"));
    assert!(is_c(""));
}

#[test]
fn permissibility_values() {
    assert_eq!(is_permissible('s', 'm'), 2);
    assert_eq!(is_permissible('l', 'g'), 1);
    assert_eq!(is_permissible('m', 'z'), 0);
    assert_eq!(is_permissible('b', 'b'), 0);
    assert_eq!(is_permissible('a', 'b'), 0);
}

#[test]
fn candidate_lists() {
    let t = tables();
    assert_eq!(get_candid(&t, "klama", false, false), vec![s("kla"), s("klam")]);
    assert_eq!(
        get_candid(&t, "gasnu", true, false),
        vec![s("gau"), s("gasnu"), s("gasn")]
    );
    assert_eq!(get_candid(&t, "zo'e", false, false), vec![s("zoh")]);
}

#[test]
fn rafsi_lookups() {
    let t = tables();
    assert_eq!(gismu_rafsi_list(&t, "klama", false), Some(vec![s("kla")]));
    assert_eq!(gismu_rafsi_list(&t, "nosuch", false), Some(vec![]));
    assert_eq!(cmavo_rafsi_list(&t, "zo'e", false), Some(vec![s("zoh")]));
    assert_eq!(cmavo_rafsi_list(&t, "klama", false), None);
}

#[test]
fn search_selrafsi() {
    let t = tables();
    assert_eq!(search_selrafsi_from_rafsi2(&t, "kla", false), Some(s("klama")));
    assert_eq!(search_selrafsi_from_rafsi2(&t, "gasnu", false), Some(s("gasnu")));
    assert_eq!(search_selrafsi_from_rafsi2(&t, "zoh", false), Some(s("zo'e")));
    assert_eq!(search_selrafsi_from_rafsi2(&t, "qqq", false), None);
    // A four-letter rafsi without an apostrophe is completed with the
    // first vowel, whether or not that word is in the tables.
    assert_eq!(search_selrafsi_from_rafsi2(&t, "mlat", false), Some(s("mlata")));
}

#[test]
fn cartesian_product_order() {
    let aa = vec![vec![s("a"), s("b")], vec![s("c")]];
    let got = create_every_possibility(aa);
    assert_eq!(got, vec![vec![s("a"), s("c")], vec![s("b"), s("c")]]);
}
