//! Lojban compound-word morphology: phonotactics, gismu candidate
//! generation, scoring and matching, lujvo assembly (`jvozba`) and
//! lujvo decomposition (`jvokaha`).

pub mod gismu_generator;
pub mod gismu_matcher;
pub mod gismu_scoring;
pub mod jvokaha;
pub mod jvozba;
pub mod letters;
pub mod normalize;
pub mod phonotactics;
pub mod rafsi;
pub mod scoring;
pub mod strutil;

pub use gismu_generator::{letters_for_words, GismuGenerator};
pub use gismu_matcher::GismuMatcher;
pub use gismu_scoring::{lcs_length, score_dyad_by_pattern, score_numerator, score_numerators};
pub use jvokaha::{jvokaha, jvokaha2, LujvoError};
pub use jvozba::{create_every_possibility, is_forbidden, jvozba, LujvoAndScore};
pub use letters::{get_cv_info, is_4letter, is_c, is_ccv, is_cmevla, is_cvc, is_cvv};
pub use normalize::{is_tosmabru, normalize, should_add_hyphen};
pub use phonotactics::is_permissible;
pub use rafsi::{
    cmavo_rafsi_list, get_candid, get_cmavo_rafsi_list, get_cmavo_rafsi_list_exp,
    get_gismu_rafsi_list, get_gismu_rafsi_list_exp, gismu_rafsi_list, search_selrafsi_from_rafsi2,
    RafsiMap, RafsiTables,
};
pub use scoring::get_lujvo_score;
