use bw_build_overlay::json::{get_field, JsonNumber, JsonValue};
use bw_build_overlay::storage::{
    backup_file_name, merge_settings, migrate_build, migrate_data, migrate_data_at, needs_migration,
    new_backup_name, StorageError, UserPaths, SCHEMA_VERSION,
};

fn text(s: &str) -> JsonValue {
    JsonValue::String(s.to_string())
}

fn list(items: &[&str]) -> JsonValue {
    JsonValue::Array(items.iter().map(|s| text(s)).collect())
}

fn object(entries: Vec<(&str, JsonValue)>) -> JsonValue {
    JsonValue::Object(entries.into_iter().map(|(k, v)| (k.to_string(), v)).collect())
}

fn entries(v: &JsonValue) -> &Vec<(String, JsonValue)> {
    match v {
        JsonValue::Object(o) => o,
        other => panic!("not an object: {:?}", other),
    }
}

fn text_at(v: &JsonValue, key: &str) -> Option<String> {
    match get_field(entries(v), key) {
        Some(JsonValue::String(s)) => Some(s.clone()),
        _ => None,
    }
}

fn bool_at(v: &JsonValue, key: &str) -> Option<bool> {
    match get_field(entries(v), key) {
        Some(JsonValue::Bool(b)) => Some(*b),
        _ => None,
    }
}

fn list_len_at(v: &JsonValue, key: &str) -> Option<usize> {
    match get_field(entries(v), key) {
        Some(JsonValue::Array(a)) => Some(a.len()),
        _ => None,
    }
}

fn is_null_at(v: &JsonValue, key: &str) -> bool {
    matches!(get_field(entries(v), key), Some(JsonValue::Null))
}

#[test]
fn migrate_build_populates_required_v4_defaults() {
    let v3 = object(vec![
        ("id", text("pvt-1-gate-core")),
        ("race", text("Protoss")),
        ("opponent", text("Terran")),
        ("name", text("1 Gate Core")),
        ("tags", list(&["standard"])),
        ("sourceName", text("Liquipedia")),
        ("sourceUrl", text("https://liquipedia.net/starcraft/1_Gate_Core_%28vs._Terran%29")),
        ("notes", text("old notes")),
        ("customEdited", JsonValue::Bool(false)),
        ("steps", list(&["8 - Pylon", "10 - Gateway"])),
    ]);
    let out = migrate_build(v3);
    assert_eq!(text_at(&out, "matchup").as_deref(), Some("PvT"));
    assert_eq!(text_at(&out, "userNotes").as_deref(), Some(""));
    assert_eq!(bool_at(&out, "favorite"), Some(false));
    assert_eq!(text_at(&out, "notes").as_deref(), Some("old notes"));
}

#[test]
fn migrate_data_normalises_envelope_and_stamps_schema_version() {
    let pre_v4 = object(vec![
        ("version", JsonValue::Number(JsonNumber::Int(1))),
        ("lastUpdated", text("2024-06-15")),
        (
            "builds",
            JsonValue::Array(vec![object(vec![
                ("id", text("old")),
                ("race", text("Zerg")),
                ("opponent", text("Protoss")),
                ("name", text("9 Pool")),
                ("steps", list(&["9 - Spawning Pool"])),
            ])]),
        ),
    ]);
    let migrated = migrate_data(pre_v4);
    assert_eq!(migrated.version, SCHEMA_VERSION);
    assert_eq!(migrated.last_updated, "2024-06-15");
    assert_eq!(migrated.builds.len(), 1);
    let only = &migrated.builds[0];
    assert_eq!(text_at(only, "matchup").as_deref(), Some("ZvP"));
    assert_eq!(text_at(only, "userNotes").as_deref(), Some(""));
    assert_eq!(list_len_at(only, "tags"), Some(0));
    assert_eq!(bool_at(only, "customEdited"), Some(false));
}

#[test]
fn migrate_build_defaults_an_empty_object() {
    let out = migrate_build(JsonValue::Null);
    assert_eq!(text_at(&out, "id").as_deref(), Some(""));
    assert_eq!(text_at(&out, "race").as_deref(), Some("Protoss"));
    assert_eq!(text_at(&out, "opponent").as_deref(), Some("Terran"));
    assert_eq!(text_at(&out, "matchup").as_deref(), Some("PvT"));
    assert_eq!(text_at(&out, "sourceName").as_deref(), Some("Manual"));
    assert_eq!(text_at(&out, "sourceUrl").as_deref(), Some(""));
    assert!(is_null_at(&out, "variantOf"));
    assert!(is_null_at(&out, "revisionId"));
    assert!(is_null_at(&out, "sourcePageTitle"));
    assert_eq!(list_len_at(&out, "counteredBy"), Some(0));
    assert_eq!(bool_at(&out, "customEdited"), Some(false));
}

#[test]
fn migrate_build_keeps_present_values_and_unknown_keys() {
    let old = object(vec![
        ("race", JsonValue::Number(JsonNumber::Int(3))),
        ("matchup", text("XvY")),
        ("favorite", JsonValue::Bool(true)),
        ("tags", text("not-a-list")),
        ("extra", text("kept")),
        ("revisionId", JsonValue::Number(JsonNumber::Int(77))),
    ]);
    let out = migrate_build(old);
    assert_eq!(text_at(&out, "race").as_deref(), Some("Protoss"));
    assert_eq!(text_at(&out, "matchup").as_deref(), Some("XvY"));
    assert_eq!(bool_at(&out, "favorite"), Some(true));
    assert_eq!(list_len_at(&out, "tags"), Some(0));
    assert_eq!(text_at(&out, "extra").as_deref(), Some("kept"));
    assert!(matches!(
        get_field(entries(&out), "revisionId"),
        Some(JsonValue::Number(JsonNumber::Int(77)))
    ));
}

#[test]
fn migrate_data_of_a_non_object_has_no_builds() {
    let migrated = migrate_data(list(&["x"]));
    assert_eq!(migrated.version, SCHEMA_VERSION);
    assert!(migrated.builds.is_empty());
    assert!(!migrated.last_updated.is_empty());
}

#[test]
fn needs_migration_reads_the_stored_version() {
    let v = |n: i64| object(vec![("version", JsonValue::Number(JsonNumber::Int(n)))]);
    assert!(needs_migration(&v(1)));
    assert!(needs_migration(&v(3)));
    assert!(!needs_migration(&v(4)));
    assert!(!needs_migration(&v(9)));
    assert!(needs_migration(&v(-2)));
    assert!(needs_migration(&object(vec![])));
    assert!(needs_migration(&JsonValue::Null));
    assert!(needs_migration(&object(vec![("version", text("4"))])));
}

#[test]
fn merge_settings_overrides_given_keys_and_stamps_version() {
    let existing = object(vec![
        ("version", JsonValue::Number(JsonNumber::Int(7))),
        ("rateLimitMs", JsonValue::Number(JsonNumber::Int(2300))),
        ("compactOverlay", JsonValue::Bool(false)),
        ("liquipediaUserAgent", text("agent")),
    ]);
    let partial = object(vec![
        ("rateLimitMs", JsonValue::Number(JsonNumber::Int(4000))),
        ("compactOverlay", JsonValue::Bool(true)),
    ]);
    let merged = merge_settings(existing, partial);
    assert!(matches!(
        get_field(entries(&merged), "rateLimitMs"),
        Some(JsonValue::Number(JsonNumber::Int(4000)))
    ));
    assert_eq!(bool_at(&merged, "compactOverlay"), Some(true));
    assert_eq!(text_at(&merged, "liquipediaUserAgent").as_deref(), Some("agent"));
    assert!(matches!(
        get_field(entries(&merged), "version"),
        Some(JsonValue::Number(JsonNumber::Int(1)))
    ));
    let untouched = merge_settings(text("x"), object(vec![]));
    assert!(matches!(untouched, JsonValue::String(s) if s == "x"));
}

#[test]
fn backup_file_names_replace_colons_and_dots() {
    assert_eq!(
        backup_file_name("2024-06-15T10:20:30.123Z"),
        "builds-backup-2024-06-15T10-20-30-123Z.json"
    );
    let name = new_backup_name();
    assert!(name.starts_with("builds-backup-"));
    assert!(name.ends_with(".json"));
    assert!(!name.contains(':'));
}

#[test]
fn user_paths_keep_their_folders() {
    let paths = UserPaths::new("/data/app".to_string(), "/res/builds.json".to_string());
    assert_eq!(paths.user_data, "/data/app");
    assert_eq!(paths.seed_builds_path, "/res/builds.json");
    assert!(paths.user_builds_path.ends_with("builds.json"));
    assert!(paths.settings_path.ends_with("settings.json"));
    let dto = paths.to_dto();
    assert_eq!(dto.user_data, paths.user_data);
    assert_eq!(dto.user_builds_path, paths.user_builds_path);
    assert_eq!(dto.settings_path, paths.settings_path);
}

#[test]
fn storage_error_messages() {
    assert_eq!(StorageError::Io("denied".to_string()).message(), "io: denied");
    assert_eq!(
        StorageError::InvalidPayload.message(),
        "invalid builds payload: expected { builds: [...] }"
    );
}

#[test]
fn migrating_twice_gives_the_same_values() {
    let old = object(vec![
        ("id", text("zvp-9-pool")),
        ("race", text("Zerg")),
        ("name", text("9 Pool")),
        ("steps", list(&["9 - Spawning Pool"])),
        ("extra", JsonValue::Bool(true)),
    ]);
    let once = migrate_build(old);
    let keys: Vec<String> = entries(&once).iter().map(|(k, _)| k.clone()).collect();
    let described: Vec<String> = keys
        .iter()
        .map(|k| format!("{}={:?}", k, get_field(entries(&once), k)))
        .collect();
    let twice = migrate_build(once);
    let again: Vec<String> = keys
        .iter()
        .map(|k| format!("{}={:?}", k, get_field(entries(&twice), k)))
        .collect();
    assert_eq!(described, again);
}

#[test]
fn migrate_data_at_uses_the_given_date_when_undated() {
    let undated = object(vec![("builds", JsonValue::Array(vec![]))]);
    let m = migrate_data_at(undated, "2030-01-02".to_string());
    assert_eq!(m.last_updated, "2030-01-02");
    let dated = object(vec![("lastUpdated", text("2024-06-15"))]);
    assert_eq!(migrate_data_at(dated, "2030-01-02".to_string()).last_updated, "2024-06-15");
}

fn describe(b: &JsonValue, keys: &[String]) -> Vec<String> {
    keys.iter().map(|k| format!("{}={:?}", k, get_field(entries(b), k))).collect()
}

#[test]
fn migrating_a_migrated_file_again_keeps_it() {
    let file = object(vec![
        ("version", JsonValue::Number(JsonNumber::Int(2))),
        ("builds", JsonValue::Array(vec![object(vec![("id", text("a")), ("race", text("Terran"))])])),
    ]);
    let first = migrate_data_at(file, "2030-01-02".to_string());
    let date = first.last_updated.clone();
    let keys: Vec<String> = entries(&first.builds[0]).iter().map(|(k, _)| k.clone()).collect();
    let before = describe(&first.builds[0], &keys);
    let again = migrate_data_at(first.into_json(), "2099-12-31".to_string());
    assert_eq!(again.version, SCHEMA_VERSION);
    assert_eq!(again.last_updated, date);
    assert_eq!(again.builds.len(), 1);
    assert_eq!(describe(&again.builds[0], &keys), before);
}

#[test]
fn merge_settings_keeps_fractional_numbers() {
    let existing = object(vec![("overlayOpacity", JsonValue::Number(JsonNumber::Real("0.75".to_string())))]);
    let merged = merge_settings(existing, object(vec![("pageSize", JsonValue::Number(JsonNumber::Int(30)))]));
    assert!(matches!(
        get_field(entries(&merged), "overlayOpacity"),
        Some(JsonValue::Number(JsonNumber::Real(t))) if t == "0.75"
    ));
}

#[test]
fn user_paths_end_with_their_file_names() {
    let paths = UserPaths::new("data".to_string(), "seed.json".to_string());
    assert!(paths.user_builds_path.ends_with("builds.json"));
    assert!(paths.settings_path.ends_with("settings.json"));
    assert_ne!(paths.user_builds_path, paths.settings_path);
}

#[test]
fn undated_files_get_a_dated_last_updated() {
    let m = migrate_data(object(vec![]));
    let b = m.last_updated.as_bytes();
    let n = b.len();
    assert!(n >= 10 && b[n - 3] == b'-' && b[n - 6] == b'-');
}
