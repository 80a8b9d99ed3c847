use bw_build_overlay::liquipedia::api::{LiquipediaCategoryMember, PageWikitext};
use bw_build_overlay::liquipedia::import::{
    builds_from_page, bulk_races, import_page, is_common_title, make_build_id, merge_build,
    merge_builds, preview_page, race_roots, select_titles, strip_paren_suffix, BulkTally,
    CategoryWalk,
};
use bw_build_overlay::liquipedia::parser::parse_liquipedia_page;
use bw_build_overlay::types::{
    Build, BuildsData, BulkImportMode, BulkImportOptions, ImportMergeResult, Opponent, Race,
};

fn two_variant_page() -> String {
    [
        "{{Infobox strategy",
        "|name=1 Gate Cybernetics Core",
        "|race=P",
        "|matchups=PvT",
        "}}",
        "==Build Order==",
        "===No Zealot before Cybernetics Core===",
        "{{build|name=\"One Gate Cybernetics Core\"|race=Protoss|",
        "*8 - Pylon",
        "*10 - Gateway",
        "}}",
        "===One Zealot before Cybernetics Core===",
        "{{build|name=\"One Gate Cybernetics Core\"|race=Protoss|",
        "*8 - Pylon",
        "*10 - Gate",
        "*13 - Zealot",
        "}}",
    ]
    .join("\n")
}

#[test]
fn builds_from_page_links_variants_via_variant_of() {
    let wikitext = two_variant_page();
    let parsed = parse_liquipedia_page("1 Gate Core (vs. Terran)", &wikitext);
    let builds = builds_from_page("1 Gate Core (vs. Terran)", &parsed, Some(99999));
    assert_eq!(builds.len(), 2);
    assert_ne!(builds[0].id, builds[1].id);
    assert_eq!(builds[1].variant_of.as_deref(), Some(builds[0].id.as_str()));
}

#[test]
fn is_common_title_recognises_curated_patterns() {
    assert!(is_common_title("1 Gate Core (vs. Terran)"));
    assert!(is_common_title("9 Pool"));
    assert!(is_common_title("Forge FE"));
    assert!(!is_common_title("Random Garbage Build"));
}

#[test]
fn builds_from_page_fills_source_fields() {
    let wikitext = two_variant_page();
    let parsed = parse_liquipedia_page("1 Gate Core (vs. Terran)", &wikitext);
    let builds = builds_from_page("1 Gate Core (vs. Terran)", &parsed, Some(99999));
    for b in &builds {
        assert_eq!(b.race, Race::Protoss);
        assert_eq!(b.opponent, Opponent::Terran);
        assert_eq!(b.matchup, "PvT");
        assert_eq!(b.source_name, "Liquipedia");
        assert_eq!(b.source_page_title.as_deref(), Some("1 Gate Core (vs. Terran)"));
        assert_eq!(b.revision_id, Some(99999));
        assert!(!b.custom_edited);
        assert!(!b.favorite);
        assert!(b.id.starts_with("liquipedia-protoss-terran-"));
    }
    assert!(builds[0].variant_of.is_none());
}

#[test]
fn make_build_id_and_paren_suffix() {
    assert_eq!(strip_paren_suffix("1 Gate Core (vs. Terran)"), "1 Gate Core");
    assert_eq!(strip_paren_suffix("9 Pool"), "9 Pool");
    let id = make_build_id("Protoss", "Terran", "1 Gate Core", "");
    assert_eq!(id, "liquipedia-protoss-terran-1-gate-core");
}

#[test]
fn race_roots_name_three_categories_per_race() {
    let roots = race_roots(Race::Zerg);
    assert_eq!(roots, ["Category:Zerg_Build_Orders", "Category:Zerg_Builds", "Category:Zerg_Strategy"]);
}

fn build(id: &str, title: &str, name: &str) -> Build {
    Build {
        id: id.to_string(),
        race: Race::Protoss,
        opponent: Opponent::Terran,
        matchup: "PvT".to_string(),
        name: name.to_string(),
        variant_of: None,
        tags: vec![],
        difficulty: None,
        source_name: "Liquipedia".to_string(),
        source_url: String::new(),
        source_page_title: Some(title.to_string()),
        notes: String::new(),
        user_notes: String::new(),
        custom_edited: false,
        favorite: false,
        recently_used_at: None,
        revision_id: Some(1),
        last_imported_at: None,
        last_checked_at: None,
        counters: vec![],
        countered_by: vec![],
        steps: vec!["8 - Pylon".to_string()],
    }
}

fn data_with(builds: Vec<Build>) -> BuildsData {
    BuildsData { version: 4, last_updated: "2024-01-01".to_string(), builds }
}

#[test]
fn merge_build_adds_updates_skips_and_keeps_user_fields() {
    let mut data = data_with(vec![]);
    assert_eq!(merge_build(&mut data, build("a", "P", "A"), true), ImportMergeResult::Added);
    assert_eq!(data.builds.len(), 1);

    data.builds[0].favorite = true;
    data.builds[0].user_notes = "mine".to_string();
    let mut fresh = build("a", "P", "A");
    fresh.steps = vec!["9 - Pylon".to_string()];
    fresh.revision_id = Some(2);
    assert_eq!(merge_build(&mut data, fresh.clone(), false), ImportMergeResult::Skipped);
    assert_eq!(data.builds[0].revision_id, Some(1));

    assert_eq!(merge_build(&mut data, fresh.clone(), true), ImportMergeResult::Updated);
    assert_eq!(data.builds.len(), 1);
    assert_eq!(data.builds[0].revision_id, Some(2));
    assert_eq!(data.builds[0].steps, vec!["9 - Pylon".to_string()]);
    assert!(data.builds[0].favorite);
    assert_eq!(data.builds[0].user_notes, "mine");

    data.builds[0].custom_edited = true;
    assert_eq!(merge_build(&mut data, fresh, true), ImportMergeResult::SkippedCustom);
}

#[test]
fn merge_build_matches_on_page_and_name_too() {
    let mut data = data_with(vec![build("old-id", "Page", "Same")]);
    assert_eq!(merge_build(&mut data, build("new-id", "Page", "Same"), true), ImportMergeResult::Updated);
    assert_eq!(data.builds[0].id, "old-id");
}

#[test]
fn merging_the_same_builds_twice_changes_nothing_more() {
    let mut data = data_with(vec![build("x", "Q", "X")]);
    let incoming = vec![build("a", "P", "A"), build("b", "P", "B")];
    let first = merge_builds(&mut data, &incoming, true);
    assert_eq!(first, vec![ImportMergeResult::Added, ImportMergeResult::Added]);
    let snapshot: Vec<String> = data.builds.iter().map(|b| b.id.clone()).collect();
    let second = merge_builds(&mut data, &incoming, true);
    assert_eq!(second, vec![ImportMergeResult::Updated, ImportMergeResult::Updated]);
    let again: Vec<String> = data.builds.iter().map(|b| b.id.clone()).collect();
    assert_eq!(snapshot, again);
}

fn page(title: &str, text: &str) -> PageWikitext {
    PageWikitext {
        page_title: title.to_string(),
        page_id: Some(1),
        revision_id: Some(5),
        revision_timestamp: None,
        wikitext: text.to_string(),
    }
}

#[test]
fn import_page_previews_then_merges() {
    let p = page("1 Gate Core (vs. Terran)", &two_variant_page());
    let preview = preview_page(&p);
    assert_eq!(preview.len(), 2);
    let mut data = data_with(vec![]);
    let result = import_page(&mut data, &p, false);
    assert_eq!(result.page_title, "1 Gate Core (vs. Terran)");
    assert_eq!(result.total_variants, 2);
    assert_eq!(result.results, vec![ImportMergeResult::Added, ImportMergeResult::Added]);
    assert_eq!(data.builds.len(), 2);
}

#[test]
fn category_walk_queues_matching_categories_and_collects_articles() {
    let mut walk = CategoryWalk::new(Race::Protoss);
    let first = walk.next_category().unwrap();
    assert_eq!(first, "Category:Protoss_Strategy");
    let members = vec![
        LiquipediaCategoryMember { pageid: 1, ns: 0, title: "Zealot Rush".to_string() },
        LiquipediaCategoryMember { pageid: 2, ns: 0, title: "1 Gate Core".to_string() },
        LiquipediaCategoryMember { pageid: 3, ns: 0, title: "Zealot Rush".to_string() },
        LiquipediaCategoryMember { pageid: 4, ns: 14, title: "Category:PvT Builds".to_string() },
        LiquipediaCategoryMember { pageid: 5, ns: 14, title: "Category:Maps".to_string() },
        LiquipediaCategoryMember { pageid: 6, ns: 2, title: "User:Someone".to_string() },
    ];
    walk.add_members(&members);
    assert_eq!(walk.next_category().unwrap(), "Category:PvT Builds");
    assert_eq!(walk.next_category().unwrap(), "Category:Protoss_Builds");
    assert_eq!(walk.next_category().unwrap(), "Category:Protoss_Build_Orders");
    assert!(walk.next_category().is_none());
    assert_eq!(walk.pages(), vec!["1 Gate Core".to_string(), "Zealot Rush".to_string()]);
}

#[test]
fn category_walk_reads_each_category_once() {
    let mut walk = CategoryWalk::new(Race::Terran);
    let c = walk.next_category().unwrap();
    walk.add_members(&vec![LiquipediaCategoryMember { pageid: 1, ns: 14, title: c.clone() }]);
    assert_ne!(walk.next_category().unwrap(), c);
}

#[test]
fn select_titles_dedupes_and_filters_common() {
    let found = vec![
        (Race::Protoss, "9 Pool".to_string()),
        (Race::Zerg, "Odd Build".to_string()),
        (Race::Zerg, "9 Pool".to_string()),
        (Race::Terran, "14 CC".to_string()),
    ];
    let (all, total) = select_titles(&found, BulkImportMode::All);
    assert_eq!(total, 3);
    assert_eq!(
        all,
        vec![
            (Race::Protoss, "9 Pool".to_string()),
            (Race::Zerg, "Odd Build".to_string()),
            (Race::Terran, "14 CC".to_string()),
        ]
    );
    let (common, total) = select_titles(&found, BulkImportMode::Common);
    assert_eq!(total, 3);
    assert_eq!(common, vec![(Race::Protoss, "9 Pool".to_string()), (Race::Terran, "14 CC".to_string())]);
}

#[test]
fn bulk_races_default_to_protoss() {
    let none = BulkImportOptions { races: vec![], mode: BulkImportMode::All, update_existing: false };
    assert_eq!(bulk_races(&none), vec![Race::Protoss]);
    let two = BulkImportOptions { races: vec![Race::Zerg, Race::Terran], mode: BulkImportMode::Common, update_existing: true };
    assert_eq!(bulk_races(&two), vec![Race::Zerg, Race::Terran]);
}

#[test]
fn bulk_tally_counts_results() {
    let mut tally = BulkTally::new();
    tally.record_page(&vec![
        ImportMergeResult::Added,
        ImportMergeResult::Updated,
        ImportMergeResult::Skipped,
        ImportMergeResult::SkippedCustom,
        ImportMergeResult::Added,
    ]);
    tally.record_failure();
    let result = tally.finish(BulkImportMode::All, vec![Race::Protoss], 2, 3);
    assert_eq!(result.added, 2);
    assert_eq!(result.updated, 1);
    assert_eq!(result.skipped, 2);
    assert_eq!(result.failed, 1);
    assert_eq!(result.variants_total, 5);
    assert_eq!(result.selected, 2);
    assert_eq!(result.total_discovered, 3);
}

use bw_build_overlay::liquipedia::api::ApiError;
use bw_build_overlay::liquipedia::import::bulk_step;

fn stamp_shaped(s: &str) -> bool {
    let b = s.as_bytes();
    let n = b.len();
    n >= 24 && b[n - 1] == b'Z' && b[n - 5] == b'.' && b[n - 14] == b'T' && b[n - 20] == b'-'
}

#[test]
fn imported_builds_carry_iso_stamps() {
    let parsed = parse_liquipedia_page("1 Gate Core (vs. Terran)", &two_variant_page());
    for b in builds_from_page("1 Gate Core (vs. Terran)", &parsed, None) {
        let stamp = b.last_imported_at.clone().unwrap();
        assert!(stamp_shaped(&stamp), "{}", stamp);
        assert_eq!(b.last_checked_at, Some(stamp));
    }
}

#[test]
fn bulk_step_counts_failures_and_merged_pages() {
    let mut data = data_with(vec![]);
    let mut tally = BulkTally::new();
    bulk_step(&mut data, &mut tally, Err(ApiError::NotFound("x".to_string())), false);
    assert_eq!(tally.failed, 1);
    assert!(data.builds.is_empty());
    let p = page("1 Gate Core (vs. Terran)", &two_variant_page());
    bulk_step(&mut data, &mut tally, Ok(p.clone()), false);
    assert_eq!((tally.added, tally.variants_total), (2, 2));
    bulk_step(&mut data, &mut tally, Ok(p), false);
    assert_eq!((tally.skipped, tally.variants_total), (2, 4));
    assert_eq!(data.builds.len(), 2);
}
