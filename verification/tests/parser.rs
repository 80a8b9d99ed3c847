use bw_build_overlay::liquipedia::parser::{
    detect_difficulty, normalize_race, parse_build_body, parse_heading, parse_infobox,
    parse_liquipedia_page, strip_wiki_markup,
};
use bw_build_overlay::types::{Difficulty, Opponent, Race, RaceOrRandom};

#[test]
fn parses_build_template_variants_into_distinct_builds() {
    let wikitext = [
        "{{Infobox strategy",
        "|name=1 Gate Cybernetics Core",
        "|race=P",
        "|matchups=PvT",
        "|creator=Unknown",
        "|popularized=Unknown",
        "}}",
        "",
        "==Build Order==",
        "===No Zealot before Cybernetics Core===",
        "{{build|name=\"One Gate Cybernetics Core\"|width=400px|race=Protoss|",
        "*8 - Pylon",
        "*10 - Gateway",
        "*12 - Assimilator",
        "*13 - Cybernetics Core",
        "}}",
        "",
        "===One Zealot before Cybernetics Core===",
        "{{build|name=\"One Gate Cybernetics Core\"|width=400px|race=Protoss|",
        "*8 - Pylon",
        "*10 - Gate",
        "*12 - Assimilator",
        "*13 - Zealot",
        "*16 - Pylon",
        "*18 - Cybernetics Core",
        "}}",
    ]
    .join("\n");

    let parsed = parse_liquipedia_page("1 Gate Core (vs. Terran)", &wikitext);
    assert_eq!(parsed.variants.len(), 2, "expected two variants, got {}", parsed.variants.len());
    assert_ne!(parsed.variants[0].steps, parsed.variants[1].steps);
    assert!(!parsed.variants[0].steps.is_empty());
    assert!(parsed.variants[1].steps.len() > parsed.variants[0].steps.len());
}

#[test]
fn fallback_extracts_supply_steps_from_bullet_only_pages() {
    let wikitext = "{{Infobox strategy\n|name=14 CC\n|race=T\n|matchups=TvZ\n}}\n==Build Order==\n*9/10 - Supply Depot\n*14/18 - Command Center\n*15/28 - Barracks\n*17/36 - Barracks\n*18/36 - Refinery\n*22/36 - Academy\n*40/52 - Barracks";
    let parsed = parse_liquipedia_page("14 CC (vs. Zerg)", wikitext);
    assert!(!parsed.variants.is_empty());
    assert!(parsed.variants[0].steps.len() >= 6);
}

#[test]
fn strip_wiki_markup_handles_links_and_templates() {
    assert_eq!(strip_wiki_markup("[[Foo|Bar]]"), "Bar");
    assert_eq!(strip_wiki_markup("[[Plain]]"), "Plain");
    assert_eq!(strip_wiki_markup("'''bold''' and ''italic''"), "bold and italic");
    assert_eq!(strip_wiki_markup("hello {{T}} world"), "hello Terran world");
}

#[test]
fn parse_heading_detects_balanced_levels() {
    assert_eq!(parse_heading("== Foo =="), Some((2, "Foo".to_string())));
    assert_eq!(parse_heading("=== Bar ==="), Some((3, "Bar".to_string())));
    assert_eq!(parse_heading("== Mismatch ==="), None);
    assert_eq!(parse_heading("not a heading"), None);
}

#[test]
fn parse_infobox_extracts_name_race_matchups_and_credits() {
    let wikitext = [
        "{{Infobox strategy",
        "|name='''2 Hatch Lurker'''",
        "|race=Z",
        "|matchups=ZvT, ZvP",
        "|creator=[[Some Player|SomePlayer]]",
        "|popularized=AnotherPlayer",
        "}}",
        "",
        "==Build Order==",
    ]
    .join("\n");

    let parsed = parse_infobox(&wikitext).expect("infobox should parse");
    assert_eq!(parsed.name.as_deref(), Some("2 Hatch Lurker"));
    assert_eq!(parsed.race, Some(Race::Zerg));
    assert_eq!(parsed.matchups.as_deref(), Some(&["ZvT".to_string(), "ZvP".to_string()][..]));
    assert_eq!(parsed.creator.as_deref(), Some("SomePlayer"));
    assert_eq!(parsed.popularized.as_deref(), Some("AnotherPlayer"));
}

#[test]
fn parse_heading_rejects_single_and_overlong_runs() {
    assert_eq!(parse_heading("= One ="), None);
    assert_eq!(parse_heading("====== Six ======"), None);
    assert_eq!(parse_heading("===== Five ====="), Some((5, "Five".to_string())));
    assert_eq!(parse_heading("===="), None);
}

#[test]
fn parse_infobox_is_none_without_a_template() {
    assert!(parse_infobox("just some text\n==Build Order==").is_none());
}

#[test]
fn normalize_race_reads_letters_and_names() {
    assert_eq!(normalize_race("P"), Some(RaceOrRandom::Race(Race::Protoss)));
    assert_eq!(normalize_race("terran"), Some(RaceOrRandom::Race(Race::Terran)));
    assert_eq!(normalize_race("R"), Some(RaceOrRandom::Random));
    assert_eq!(normalize_race("x"), None);
}

#[test]
fn parse_build_body_keeps_bullets_and_skips_named_parts() {
    let steps = parse_build_body("name=\"X\"|race=Protoss|\n*8 - Pylon\n*10 - Gateway\n");
    assert_eq!(steps, vec!["8 - Pylon".to_string(), "10 - Gateway".to_string()]);
}

#[test]
fn page_detects_races_from_the_title_and_infobox() {
    let wikitext = "{{Infobox strategy\n|name=9 Pool\n|race=Z\n|matchups=ZvP\n}}\n==Build Order==\n*9 - Spawning Pool\n*10 - Drone\n*11 - Overlord\n*12 - Zergling\n*13 - Zergling\n*14 - Hatchery";
    let parsed = parse_liquipedia_page("9 Pool (vs. Protoss)", wikitext);
    assert_eq!(parsed.player_race, Some(Race::Zerg));
    assert_eq!(parsed.opponent, Some(Opponent::Protoss));
}

#[test]
fn detect_difficulty_finds_nothing_in_plain_text() {
    assert_eq!(detect_difficulty("nothing here"), None::<Difficulty>);
}

use bw_build_overlay::liquipedia::parser::{
    pick_difficulty, pick_opponent, pick_player_race, race_from_forms, opponent_from_upper,
    replace_entities, split_template_body,
};

#[test]
fn split_template_body_splits_only_outside_links_and_templates() {
    assert_eq!(
        split_template_body("a|[[b|c]]|{{d|e}}|"),
        vec!["a".to_string(), "[[b|c]]".to_string(), "{{d|e}}".to_string(), String::new()]
    );
    assert!(split_template_body("").is_empty());
    for body in ["name=\"X\"|race=Protoss|\n*8 - Pylon", "||", "[[a|b]]"] {
        assert_eq!(split_template_body(body).join("|"), body);
    }
}

#[test]
fn race_from_forms_reads_letters_then_first_letter() {
    assert_eq!(race_from_forms("p", "P", "p"), Some(RaceOrRandom::Race(Race::Protoss)));
    assert_eq!(race_from_forms("Zerg", "ZERG", "zerg"), Some(RaceOrRandom::Race(Race::Zerg)));
    assert_eq!(race_from_forms("random", "RANDOM", "random"), Some(RaceOrRandom::Random));
    assert_eq!(race_from_forms("", "", ""), None);
    assert_eq!(race_from_forms("x", "X", "x"), None);
}

#[test]
fn opponent_and_difficulty_picks() {
    assert_eq!(opponent_from_upper("R"), Some(Opponent::Random));
    assert_eq!(opponent_from_upper("Q"), None);
    assert_eq!(pick_opponent(false, true, true, false, None), Some(Opponent::Zerg));
    assert_eq!(pick_opponent(false, false, false, false, Some(Opponent::Protoss)), Some(Opponent::Protoss));
    assert_eq!(pick_player_race(None, Some(Race::Terran), Some(Race::Zerg)), Some(Race::Terran));
    assert_eq!(pick_player_race(None, None, None), None);
    assert_eq!(pick_difficulty(false, true, true), Some(Difficulty::Advanced));
    assert_eq!(pick_difficulty(false, false, false), None);
}

#[test]
fn replace_entities_spells_them_out() {
    assert_eq!(replace_entities("a&nbsp;b &ndash; c &mdash;".to_string()), "a b \u{2013} c \u{2014}");
}
