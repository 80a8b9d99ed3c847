use bw_build_overlay::liquipedia::api::{ApiError, PageWikitext, RevisionInfo};
use bw_build_overlay::liquipedia::response::RevisionTable;
use bw_build_overlay::liquipedia::updates::{
    apply_refreshed, check_updates, finish_refresh, liquipedia_titles, pick_chosen, plan_refresh,
    refresh_from_page, refresh_source, update_info, variant_suffix_for,
};
use bw_build_overlay::types::{
    Build, BuildsData, Opponent, Race, RefreshBuildsResult, UpdateReason,
};

fn build(id: &str, title: Option<&str>, name: &str, rev: Option<i64>) -> Build {
    Build {
        id: id.to_string(),
        race: Race::Protoss,
        opponent: Opponent::Terran,
        matchup: "PvT".to_string(),
        name: name.to_string(),
        variant_of: None,
        tags: vec![],
        difficulty: None,
        source_name: "Liquipedia".to_string(),
        source_url: String::new(),
        source_page_title: title.map(|t| t.to_string()),
        notes: String::new(),
        user_notes: String::new(),
        custom_edited: false,
        favorite: false,
        recently_used_at: None,
        revision_id: rev,
        last_imported_at: None,
        last_checked_at: None,
        counters: vec![],
        countered_by: vec![],
        steps: vec![],
    }
}

fn data_with(builds: Vec<Build>) -> BuildsData {
    BuildsData { version: 4, last_updated: "2024-01-01".to_string(), builds }
}

fn rev(id: Option<i64>) -> RevisionInfo {
    RevisionInfo { revision_id: id, revision_timestamp: Some("2024-02-02T00:00:00Z".to_string()), missing: false }
}

#[test]
fn liquipedia_titles_are_unique_and_non_empty() {
    let mut manual = build("m", Some("Manual Page"), "M", None);
    manual.source_name = "Manual".to_string();
    let builds = vec![
        build("a", Some("P1"), "A", None),
        build("b", Some("P1"), "B", None),
        build("c", Some(""), "C", None),
        build("d", None, "D", None),
        manual,
        build("e", Some("P2"), "E", None),
    ];
    assert_eq!(liquipedia_titles(&builds), vec!["P1".to_string(), "P2".to_string()]);
}

#[test]
fn update_info_reports_each_reason() {
    let mut table = RevisionTable::new();
    table.insert("Same".to_string(), rev(Some(5)));
    table.insert("Newer".to_string(), rev(Some(9)));
    table.insert("Unknown".to_string(), rev(Some(3)));

    let same = update_info(&build("a", Some("Same"), "A", Some(5)), &table);
    assert_eq!(same.reason, UpdateReason::UpToDate);
    assert!(!same.outdated);

    let newer = update_info(&build("b", Some("Newer"), "B", Some(5)), &table);
    assert_eq!(newer.reason, UpdateReason::NewerRevision);
    assert!(newer.outdated);
    assert_eq!(newer.latest_rev_id, Some(9));
    assert_eq!(newer.current_rev_id, Some(5));

    let unknown = update_info(&build("c", Some("Unknown"), "C", None), &table);
    assert_eq!(unknown.reason, UpdateReason::NoStoredRev);
    assert!(unknown.outdated);

    let missing = update_info(&build("d", Some("1 Gate Core"), "D", Some(1)), &table);
    assert_eq!(missing.reason, UpdateReason::MissingOnServer);
    assert!(!missing.outdated);
    assert_eq!(missing.source_url, "https://liquipedia.net/starcraft/1_Gate_Core");
}

#[test]
fn check_updates_reports_and_stamps_liquipedia_builds() {
    let mut manual = build("m", None, "M", None);
    manual.source_name = "Manual".to_string();
    let mut data = data_with(vec![
        build("a", Some("Same"), "A", Some(5)),
        manual,
        build("b", Some("Newer"), "B", Some(5)),
    ]);
    let mut table = RevisionTable::new();
    table.insert("Same".to_string(), rev(Some(5)));
    table.insert("Newer".to_string(), rev(Some(9)));
    let result = check_updates(&mut data, &table, "2024-03-03T00:00:00.000Z");
    assert_eq!(result.checked, 2);
    assert_eq!(result.all.len(), 2);
    assert_eq!(result.outdated.len(), 1);
    assert_eq!(result.outdated[0].build_id, "b");
    assert_eq!(data.builds[0].last_checked_at.as_deref(), Some("2024-03-03T00:00:00.000Z"));
    assert_eq!(data.builds[1].last_checked_at, None);
    assert_eq!(data.builds[2].last_checked_at.as_deref(), Some("2024-03-03T00:00:00.000Z"));
}

#[test]
fn check_updates_without_titles_checks_nothing() {
    let mut data = data_with(vec![build("a", Some(""), "A", None)]);
    let result = check_updates(&mut data, &RevisionTable::new(), "now");
    assert_eq!(result.checked, 0);
    assert!(result.all.is_empty());
    assert_eq!(data.builds[0].last_checked_at, None);
}

#[test]
fn variant_suffix_strips_the_page_prefix() {
    assert_eq!(variant_suffix_for("1 Gate Core - Fast Expand", "1 Gate Core (vs. Terran)"), "Fast Expand");
    assert_eq!(variant_suffix_for("Other Name", "1 Gate Core (vs. Terran)"), "Other Name");
    assert_eq!(variant_suffix_for("X 1 Gate Core - Y", "1 Gate Core"), "X Y");
}

#[test]
fn pick_chosen_prefers_exact_then_suffix_then_first() {
    let fresh = vec![
        build("1", None, "Page - Alpha", None),
        build("2", None, "Page - Beta", None),
    ];
    assert_eq!(pick_chosen(&fresh, "Page - Beta", "Page"), Some(1));
    assert_eq!(pick_chosen(&fresh, "Old Page - Beta", "Old Page"), Some(1));
    assert_eq!(pick_chosen(&fresh, "Something", "Page"), Some(0));
    assert_eq!(pick_chosen(&vec![], "Something", "Page"), None);
}

#[test]
fn apply_refreshed_keeps_user_fields() {
    let mut existing = build("keep-id", Some("P"), "Old", Some(1));
    existing.favorite = true;
    existing.user_notes = "notes".to_string();
    existing.recently_used_at = Some("yesterday".to_string());
    existing.custom_edited = true;
    let mut chosen = build("fresh-id", Some("P"), "New", Some(2));
    chosen.steps = vec!["8 - Pylon".to_string()];
    apply_refreshed(&mut existing, chosen);
    assert_eq!(existing.id, "keep-id");
    assert!(existing.favorite);
    assert_eq!(existing.user_notes, "notes");
    assert_eq!(existing.recently_used_at.as_deref(), Some("yesterday"));
    assert!(!existing.custom_edited);
    assert_eq!(existing.name, "New");
    assert_eq!(existing.revision_id, Some(2));
    assert_eq!(existing.steps, vec!["8 - Pylon".to_string()]);
}

#[test]
fn refresh_source_reports_missing_builds_and_sources() {
    let data = data_with(vec![build("a", Some("P"), "A", None), build("b", None, "B", None)]);
    assert!(matches!(refresh_source(&data, "zz"), Err(ApiError::NotFound(m)) if m == "Build not found."));
    assert!(matches!(refresh_source(&data, "b"),
        Err(ApiError::NotFound(m)) if m == "This build has no Liquipedia source."));
    assert_eq!(refresh_source(&data, "a").unwrap(), (0, "P".to_string()));
}

fn page(text: &str) -> PageWikitext {
    PageWikitext {
        page_title: "9 Pool (vs. Protoss)".to_string(),
        page_id: Some(1),
        revision_id: Some(77),
        revision_timestamp: None,
        wikitext: text.to_string(),
    }
}

const NINE_POOL: &str = "{{Infobox strategy\n|name=9 Pool\n|race=Z\n|matchups=ZvP\n}}\n==Build Order==\n{{build|name=\"9 Pool\"|race=Zerg|\n*9 - Spawning Pool\n*8 - Drone\n}}";

#[test]
fn refresh_from_page_replaces_the_build_in_place() {
    let mut stored = build("mine", Some("9 Pool (vs. Protoss)"), "9 Pool - 9 Pool", Some(1));
    stored.favorite = true;
    let mut data = data_with(vec![stored]);
    let refreshed = refresh_from_page(&mut data, 0, &page(NINE_POOL)).unwrap();
    assert_eq!(refreshed.id, "mine");
    assert!(refreshed.favorite);
    assert_eq!(refreshed.revision_id, Some(77));
    assert_eq!(data.builds[0].revision_id, Some(77));
    assert_eq!(data.builds[0].steps, vec!["9 - Spawning Pool".to_string(), "8 - Drone".to_string()]);
}

#[test]
fn refresh_several_records_each_outcome() {
    let mut custom = build("custom", Some("9 Pool (vs. Protoss)"), "9 Pool", Some(1));
    custom.custom_edited = true;
    let mut data = data_with(vec![
        build("ok", Some("9 Pool (vs. Protoss)"), "9 Pool", Some(1)),
        build("nosrc", Some(""), "X", None),
        custom,
        build("broken", Some("Gone"), "Y", None),
    ]);
    let mut res = RefreshBuildsResult { refreshed: vec![], failed: vec![], skipped_custom: vec![] };
    assert!(plan_refresh(&data, "missing", false, &mut res).is_none());
    assert!(plan_refresh(&data, "nosrc", false, &mut res).is_none());
    assert!(plan_refresh(&data, "custom", false, &mut res).is_none());
    let (pos, title) = plan_refresh(&data, "ok", false, &mut res).unwrap();
    assert_eq!(title, "9 Pool (vs. Protoss)");
    finish_refresh(&mut data, &mut res, "ok", pos, Ok(page(NINE_POOL)));
    let (pos, _) = plan_refresh(&data, "broken", false, &mut res).unwrap();
    finish_refresh(&mut data, &mut res, "broken", pos, Err(ApiError::NotFound("Gone".to_string())));
    let (pos, _) = plan_refresh(&data, "custom", true, &mut res).unwrap();
    finish_refresh(&mut data, &mut res, "custom", pos, Ok(page("no builds here")));

    assert_eq!(res.refreshed, vec!["ok".to_string()]);
    assert_eq!(res.skipped_custom, vec!["custom".to_string()]);
    let failures: Vec<(String, String)> = res.failed.iter().map(|f| (f.build_id.clone(), f.error.clone())).collect();
    assert_eq!(
        failures,
        vec![
            ("missing".to_string(), "not-found".to_string()),
            ("nosrc".to_string(), "no-source".to_string()),
            ("broken".to_string(), "Page not found: Gone".to_string()),
            ("custom".to_string(), "No build template on source page.".to_string()),
        ]
    );
    assert_eq!(data.builds[0].revision_id, Some(77));
    assert!(data.builds[2].custom_edited);
}
