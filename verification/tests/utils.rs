use bw_build_overlay::types::{Opponent, Race};
use bw_build_overlay::utils::{derive_matchup, derive_matchup_typed, race_initial, slugify, split_step, SplitStep};

#[test]
fn derive_matchup_composes_initials_including_random() {
    assert_eq!(derive_matchup("Protoss", "Terran"), "PvT");
    assert_eq!(derive_matchup("Zerg", "Random"), "ZvR");
    assert_eq!(derive_matchup("Terran", "Terran"), "TvT");
    assert_eq!(derive_matchup("Bogus", "Terran"), "?vT");
}

#[test]
fn slugify_produces_stable_kebab_case_ids() {
    assert_eq!(slugify("1 Gate Cybernetics Core (vs. Terran)"), "1-gate-cybernetics-core");
    assert_eq!(slugify("   double  spaces   "), "double-spaces");
    assert_eq!(slugify("---leading-and-trailing---"), "leading-and-trailing");
    assert_eq!(slugify(""), "build");
}

#[test]
fn split_step_peels_supply_prefixes() {
    assert_eq!(
        split_step("8 - Pylon"),
        SplitStep { supply: Some("8".to_string()), action: "Pylon".to_string() }
    );
    assert_eq!(
        split_step("12/18 - Cybernetics Core"),
        SplitStep { supply: Some("12/18".to_string()), action: "Cybernetics Core".to_string() }
    );
    assert_eq!(
        split_step("Scout for proxy"),
        SplitStep { supply: None, action: "Scout for proxy".to_string() }
    );
    assert_eq!(split_step(""), SplitStep { supply: None, action: String::new() });
}

#[test]
fn race_initial_maps_names_and_unknowns() {
    assert_eq!(race_initial("Zerg"), 'Z');
    assert_eq!(race_initial("Random"), 'R');
    assert_eq!(race_initial("zerg"), '?');
}

#[test]
fn derive_matchup_typed_uses_enum_initials() {
    assert_eq!(derive_matchup_typed(Race::Terran, Opponent::Random), "TvR");
    assert_eq!(derive_matchup_typed(Race::Zerg, Opponent::Protoss), "ZvP");
}

#[test]
fn slugify_keeps_only_lowercase_alphanumerics_and_single_dashes() {
    let s = slugify("Hello, World!! -- 2 Gate (PvZ) extra");
    assert_eq!(s, "hello-world-2-gate-extra");
    assert!(s.chars().all(|c| c.is_ascii_lowercase() || c.is_ascii_digit() || c == '-'));
}

#[test]
fn slugify_caps_long_names() {
    let long = "a".repeat(200);
    let s = slugify(&long);
    assert_eq!(s.len(), 80);
}

#[test]
fn split_step_without_dash_separator_keeps_text() {
    assert_eq!(
        split_step("  9 Overlord  "),
        SplitStep { supply: None, action: "9 Overlord".to_string() }
    );
}

#[test]
fn slugify_of_a_slug_is_the_slug() {
    for v in ["1 Gate Cybernetics Core (vs. Terran)", "   double  spaces   ", "", "Äpfel & Birnen", "---"] {
        let once = slugify(v);
        assert_eq!(slugify(&once), once);
    }
}

#[test]
fn slugs_are_clean_kebab_case() {
    for v in ["Ünïcödé & More (x) -- y", "A--B", "-", "ABC   ", "9/10 - Supply Depot"] {
        let s = slugify(v);
        assert!(s.bytes().all(|b| b.is_ascii_lowercase() || b.is_ascii_digit() || b == b'-'), "{}", s);
        assert!(!s.starts_with('-') && !s.ends_with('-') && !s.contains("--"), "{}", s);
        assert!(!s.is_empty() && s.len() <= 80);
    }
}
