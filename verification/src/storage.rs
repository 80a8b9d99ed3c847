//! What the user-data files hold and how old ones are brought up to the
//! current schema: the paths of the files, the migration of stored builds
//! and of the file's envelope, the merge of settings updates, and the name
//! of a backup. Reading and writing the files is the application's part.

use vstd::prelude::*;
use crate::json::{
    entries_of, field, get_field, has_field, is_array_field, set_field, str_field, str_or,
    JsonNumber, JsonValue,
};
use crate::liquipedia::import::{digits_at, iso_stamp_shape, now_iso};
use crate::text::{ends_with, chars_of, push_char, push_str, str_eq, string_from, string_of};
use crate::types::UserDataPaths;
use crate::utils::{derive_matchup, name_initial};

pub use crate::liquipedia::api::DEFAULT_USER_AGENT;

verus! {

/// The schema version of the builds file this library writes.
pub const SCHEMA_VERSION: u32 = 4;

/// The pause between Liquipedia requests in fresh settings, in milliseconds.
pub const DEFAULT_RATE_LIMIT_MS: u64 = 2300;

/// Errors of the user-data files; I/O and JSON failures carry the message
/// of the underlying error.
#[derive(Debug)]
pub enum StorageError {
    Io(String),
    Json(String),
    InvalidPayload,
}

pub open spec fn storage_error_text(e: StorageError) -> Seq<char> {
    match e {
        StorageError::Io(m) => "io: "@ + m@,
        StorageError::Json(m) => "json: "@ + m@,
        StorageError::InvalidPayload => "invalid builds payload: expected { builds: [...] }"@,
    }
}

impl StorageError {
    /// The text the error is shown as.
    pub fn message(&self) -> (r: String)
        ensures
            r@ == storage_error_text(*self),
    {
        match self {
            StorageError::Io(m) => {
                let mut r = string_from("io: ");
                push_str(&mut r, m.as_str());
                r
            },
            StorageError::Json(m) => {
                let mut r = string_from("json: ");
                push_str(&mut r, m.as_str());
                r
            },
            StorageError::InvalidPayload => string_from("invalid builds payload: expected { builds: [...] }"),
        }
    }
}

// ---------------------------------------------------------------------------
// Paths
// ---------------------------------------------------------------------------

/// The name of the builds file.
pub const BUILDS_FILE: &'static str = "builds.json";

/// The name of the settings file.
pub const SETTINGS_FILE: &'static str = "settings.json";

/// Where the user's files live.
#[derive(Debug, Clone)]
pub struct UserPaths {
    pub user_data: String,
    pub user_builds_path: String,
    pub settings_path: String,
    pub seed_builds_path: String,
}

/// A file name that joins as itself on every platform: not empty, not `.`
/// or `..`, and without `/`, backslash or `:`.
pub open spec fn plain_file_name(name: Seq<char>) -> bool {
    &&& name.len() > 0
    &&& name != seq!['.']
    &&& name != seq!['.', '.']
    &&& forall|i: int| 0 <= i < name.len() ==> #[trigger] name[i] != '/' && name[i] != '\\' && name[i] != ':'
}

/// `Path::new(base).join(name)`, as text. The separator it puts in depends
/// on the platform, so the result is only stated to end with the file
/// name: a plain name is pushed as the last component.
#[verifier::external_body]
fn join_path(base: &str, name: &str) -> (r: String)
    requires
        plain_file_name(name@),
    ensures
        ends_with(r@, name@),
{
    std::path::Path::new(base).join(name).to_string_lossy().into_owned()
}

impl UserPaths {
    /// The paths under a user-data folder: `builds.json` and
    /// `settings.json` in it, and the bundled seed file.
    pub fn new(user_data: String, seed_builds_path: String) -> (p: UserPaths)
        ensures
            p.user_data@ == user_data@,
            p.seed_builds_path@ == seed_builds_path@,
            ends_with(p.user_builds_path@, BUILDS_FILE@),
            ends_with(p.settings_path@, SETTINGS_FILE@),
    {
        proof {
            reveal_strlit("builds.json");
            reveal_strlit("settings.json");
            assert(BUILDS_FILE@.len() == 11);
            assert(SETTINGS_FILE@.len() == 13);
        }
        let user_builds_path = join_path(user_data.as_str(), BUILDS_FILE);
        let settings_path = join_path(user_data.as_str(), SETTINGS_FILE);
        UserPaths { user_data, user_builds_path, settings_path, seed_builds_path }
    }

    /// The paths as the front end sees them.
    pub fn to_dto(&self) -> (d: UserDataPaths)
        ensures
            d.user_builds_path@ == self.user_builds_path@,
            d.settings_path@ == self.settings_path@,
            d.user_data@ == self.user_data@,
    {
        UserDataPaths {
            user_builds_path: self.user_builds_path.clone(),
            settings_path: self.settings_path.clone(),
            user_data: self.user_data.clone(),
        }
    }
}

/// The shape of a `%Y-%m-%d` date: a year of at least four characters,
/// then `-MM-DD`.
pub open spec fn date_shape(s: Seq<char>) -> bool {
    let n = s.len() as int;
    &&& n >= 10
    &&& s[n - 6] == '-' && digits_at(s, n - 5, 2)
    &&& s[n - 3] == '-' && digits_at(s, n - 2, 2)
}

/// Today's UTC date, formatted by chrono as `%Y-%m-%d`: `SystemTime::now`
/// converted with `DateTime::<Utc>::from`, which maps a clock set before
/// 1970 to a negative time instead of failing; its range check only fails
/// for times more than 262,000 years away, which no platform's clock
/// returns. Only the shape of the date is stated.
#[verifier::external_body]
pub(crate) fn today() -> (r: String)
    ensures
        date_shape(r@),
{
    chrono::DateTime::<chrono::Utc>::from(std::time::SystemTime::now()).format("%Y-%m-%d").to_string()
}

// ---------------------------------------------------------------------------
// Migrating a stored build
// ---------------------------------------------------------------------------

/// What migration does to one key of a stored build.
#[derive(Debug, Clone, Copy, PartialEq, Eq, Structural)]
pub enum FieldRule {
    /// Set to the build's race text, `Protoss` where it has none.
    Race,
    /// Set to the build's opponent text, `Terran` where it has none.
    Opponent,
    /// Kept if it is text, else derived from the race and the opponent.
    Matchup,
    /// Kept if present, else `null`.
    NullIfMissing,
    /// Kept if it is a list, else an empty list.
    ListIfNotList,
    /// Kept if present, else the empty string.
    EmptyIfMissing,
    /// Kept if present, else `Manual`.
    ManualIfMissing,
    /// Kept if present, else `false`.
    FalseIfMissing,
    /// Set to the build's id text, empty where it has none.
    Id,
}

/// How many keys migration looks at.
pub const MIGRATED_KEY_COUNT: usize = 21;

/// The keys migration looks at, in the order it treats them ...
pub const MIGRATION_KEYS: [&'static str; 21] = [
    "race",
    "opponent",
    "matchup",
    "variantOf",
    "tags",
    "difficulty",
    "userNotes",
    "notes",
    "favorite",
    "recentlyUsedAt",
    "revisionId",
    "lastImportedAt",
    "lastCheckedAt",
    "counters",
    "counteredBy",
    "steps",
    "customEdited",
    "sourcePageTitle",
    "sourceName",
    "sourceUrl",
    "id",
];

/// ... and what it does to each.
pub const MIGRATION_RULES: [FieldRule; 21] = [
    FieldRule::Race,
    FieldRule::Opponent,
    FieldRule::Matchup,
    FieldRule::NullIfMissing,
    FieldRule::ListIfNotList,
    FieldRule::NullIfMissing,
    FieldRule::EmptyIfMissing,
    FieldRule::EmptyIfMissing,
    FieldRule::FalseIfMissing,
    FieldRule::NullIfMissing,
    FieldRule::NullIfMissing,
    FieldRule::NullIfMissing,
    FieldRule::NullIfMissing,
    FieldRule::ListIfNotList,
    FieldRule::ListIfNotList,
    FieldRule::ListIfNotList,
    FieldRule::FalseIfMissing,
    FieldRule::NullIfMissing,
    FieldRule::ManualIfMissing,
    FieldRule::EmptyIfMissing,
    FieldRule::Id,
];

/// What a key holds during migration: its old value, or text, `null`, an
/// empty list or `false` that migration put there.
pub enum Slot {
    Kept(Option<JsonValue>),
    Text(Seq<char>),
    Null,
    EmptyList,
    False,
}

pub open spec fn slot_present(s: Slot) -> bool {
    !(s matches Slot::Kept(None))
}

pub open spec fn slot_is_text(s: Slot) -> bool {
    s matches Slot::Kept(Some(JsonValue::String(_))) || s is Text
}

pub open spec fn slot_is_list(s: Slot) -> bool {
    s matches Slot::Kept(Some(JsonValue::Array(_))) || s is EmptyList
}

/// The value `v` is what the slot describes.
pub open spec fn slot_holds(v: Option<JsonValue>, s: Slot) -> bool {
    match s {
        Slot::Kept(x) => v == x,
        Slot::Text(t) => v matches Some(JsonValue::String(x)) && x@ == t,
        Slot::Null => v matches Some(JsonValue::Null),
        Slot::EmptyList => v matches Some(JsonValue::Array(a)) && a@.len() == 0,
        Slot::False => v matches Some(JsonValue::Bool(false)),
    }
}

/// The race, opponent and id texts a build's old entries give.
pub open spec fn race_text(o: Seq<(String, JsonValue)>) -> Seq<char> {
    str_or(o, "race"@, "Protoss"@)
}

pub open spec fn opponent_text(o: Seq<(String, JsonValue)>) -> Seq<char> {
    str_or(o, "opponent"@, "Terran"@)
}

pub open spec fn id_text(o: Seq<(String, JsonValue)>) -> Seq<char> {
    str_or(o, "id"@, Seq::empty())
}

pub open spec fn apply_rule(rule: FieldRule, prev: Slot, o: Seq<(String, JsonValue)>) -> Slot {
    match rule {
        FieldRule::Race => Slot::Text(race_text(o)),
        FieldRule::Opponent => Slot::Text(opponent_text(o)),
        FieldRule::Id => Slot::Text(id_text(o)),
        FieldRule::Matchup => if slot_is_text(prev) {
            prev
        } else {
            Slot::Text(seq![name_initial(race_text(o)), 'v', name_initial(opponent_text(o))])
        },
        FieldRule::NullIfMissing => if slot_present(prev) {
            prev
        } else {
            Slot::Null
        },
        FieldRule::ListIfNotList => if slot_is_list(prev) {
            prev
        } else {
            Slot::EmptyList
        },
        FieldRule::EmptyIfMissing => if slot_present(prev) {
            prev
        } else {
            Slot::Text(Seq::empty())
        },
        FieldRule::ManualIfMissing => if slot_present(prev) {
            prev
        } else {
            Slot::Text("Manual"@)
        },
        FieldRule::FalseIfMissing => if slot_present(prev) {
            prev
        } else {
            Slot::False
        },
    }
}

/// What key `k` holds after the first `n` rules, from the old entries `o`.
pub open spec fn migrated_slot(o: Seq<(String, JsonValue)>, k: Seq<char>, n: int) -> Slot
    decreases n,
{
    if n <= 0 {
        Slot::Kept(field(o, k))
    } else {
        let prev = migrated_slot(o, k, n - 1);
        if MIGRATION_KEYS@[n - 1]@ == k {
            apply_rule(MIGRATION_RULES@[n - 1], prev, o)
        } else {
            prev
        }
    }
}

/// A build migrated from its old entries `o`: an object in which every
/// key holds what the rules make of it (keys without a rule keep their
/// values).
pub open spec fn migrated_build(o: Seq<(String, JsonValue)>, r: JsonValue) -> bool {
    &&& r is Object
    &&& forall|k: Seq<char>| #[trigger] slot_holds(field(entries_of(r), k), migrated_slot(o, k, MIGRATED_KEY_COUNT as int))
}

/// A key's length and first character, which tell the migrated keys apart.
pub open spec fn key_sig(k: Seq<char>) -> int {
    k.len() * 1000 + (k[0] as u32) as int
}

/// No key has two rules.
pub proof fn lemma_migration_keys_distinct()
    ensures
        forall|i: int, j: int|
            0 <= i < j < MIGRATED_KEY_COUNT ==> #[trigger] MIGRATION_KEYS@[i]@ != #[trigger] MIGRATION_KEYS@[j]@,
{
    assert(key_sig(MIGRATION_KEYS@[0]@) == 4114) by { reveal_strlit("race"); }
    assert(key_sig(MIGRATION_KEYS@[1]@) == 8111) by { reveal_strlit("opponent"); }
    assert(key_sig(MIGRATION_KEYS@[2]@) == 7109) by { reveal_strlit("matchup"); }
    assert(key_sig(MIGRATION_KEYS@[3]@) == 9118) by { reveal_strlit("variantOf"); }
    assert(key_sig(MIGRATION_KEYS@[4]@) == 4116) by { reveal_strlit("tags"); }
    assert(key_sig(MIGRATION_KEYS@[5]@) == 10100) by { reveal_strlit("difficulty"); }
    assert(key_sig(MIGRATION_KEYS@[6]@) == 9117) by { reveal_strlit("userNotes"); }
    assert(key_sig(MIGRATION_KEYS@[7]@) == 5110) by { reveal_strlit("notes"); }
    assert(key_sig(MIGRATION_KEYS@[8]@) == 8102) by { reveal_strlit("favorite"); }
    assert(key_sig(MIGRATION_KEYS@[9]@) == 14114) by { reveal_strlit("recentlyUsedAt"); }
    assert(key_sig(MIGRATION_KEYS@[10]@) == 10114) by { reveal_strlit("revisionId"); }
    assert(key_sig(MIGRATION_KEYS@[11]@) == 14108) by { reveal_strlit("lastImportedAt"); }
    assert(key_sig(MIGRATION_KEYS@[12]@) == 13108) by { reveal_strlit("lastCheckedAt"); }
    assert(key_sig(MIGRATION_KEYS@[13]@) == 8099) by { reveal_strlit("counters"); }
    assert(key_sig(MIGRATION_KEYS@[14]@) == 11099) by { reveal_strlit("counteredBy"); }
    assert(key_sig(MIGRATION_KEYS@[15]@) == 5115) by { reveal_strlit("steps"); }
    assert(key_sig(MIGRATION_KEYS@[16]@) == 12099) by { reveal_strlit("customEdited"); }
    assert(key_sig(MIGRATION_KEYS@[17]@) == 15115) by { reveal_strlit("sourcePageTitle"); }
    assert(key_sig(MIGRATION_KEYS@[18]@) == 10115) by { reveal_strlit("sourceName"); }
    assert(key_sig(MIGRATION_KEYS@[19]@) == 9115) by { reveal_strlit("sourceUrl"); }
    assert(key_sig(MIGRATION_KEYS@[20]@) == 2105) by { reveal_strlit("id"); }
    assert forall|i: int, j: int| 0 <= i < j < MIGRATED_KEY_COUNT implies #[trigger] MIGRATION_KEYS@[i]@
        != #[trigger] MIGRATION_KEYS@[j]@ by {
        assert(key_sig(MIGRATION_KEYS@[i]@) != key_sig(MIGRATION_KEYS@[j]@));
    }
}

proof fn lemma_slot_listed(o: Seq<(String, JsonValue)>, k: Seq<char>, j: int, n: int)
    requires
        0 <= j < MIGRATED_KEY_COUNT,
        MIGRATION_KEYS@[j]@ == k,
        0 <= n <= MIGRATED_KEY_COUNT,
    ensures
        migrated_slot(o, k, n) == if n <= j {
            Slot::Kept(field(o, k))
        } else {
            apply_rule(MIGRATION_RULES@[j], Slot::Kept(field(o, k)), o)
        },
    decreases n,
{
    if n > 0 {
        lemma_slot_listed(o, k, j, n - 1);
        lemma_migration_keys_distinct();
        if n - 1 < j {
            assert(MIGRATION_KEYS@[n - 1]@ != MIGRATION_KEYS@[j]@);
        } else if n - 1 > j {
            assert(MIGRATION_KEYS@[j]@ != MIGRATION_KEYS@[n - 1]@);
        }
    }
}

proof fn lemma_slot_unlisted(o: Seq<(String, JsonValue)>, k: Seq<char>, n: int)
    requires
        forall|i: int| 0 <= i < MIGRATED_KEY_COUNT ==> #[trigger] MIGRATION_KEYS@[i]@ != k,
        n <= MIGRATED_KEY_COUNT,
    ensures
        migrated_slot(o, k, n) == Slot::Kept(field(o, k)),
    decreases n,
{
    if n > 0 {
        lemma_slot_unlisted(o, k, n - 1);
        assert(MIGRATION_KEYS@[n - 1]@ != k);
    }
}

/// Two values are alike: equal, or strings or lists with equal contents.
pub open spec fn same_value(a: Option<JsonValue>, b: Option<JsonValue>) -> bool {
    match (a, b) {
        (Some(JsonValue::String(x)), Some(JsonValue::String(y))) => x@ == y@,
        (Some(JsonValue::Array(x)), Some(JsonValue::Array(y))) => x@ == y@,
        _ => a == b,
    }
}

/// Migrating a build that was already migrated changes none of its values,
/// so that saving builds and reading them back gives the same builds.
pub proof fn lemma_migrate_build_idempotent(o: Seq<(String, JsonValue)>, r1: JsonValue, r2: JsonValue)
    requires
        migrated_build(o, r1),
        migrated_build(entries_of(r1), r2),
    ensures
        forall|k: Seq<char>| #[trigger] same_value(field(entries_of(r2), k), field(entries_of(r1), k)),
{
    let o1 = entries_of(r1);
    let n = MIGRATED_KEY_COUNT as int;
    assert forall|k: Seq<char>| #[trigger] same_value(field(entries_of(r2), k), field(o1, k)) by {
        assert(slot_holds(field(o1, k), migrated_slot(o, k, n)));
        assert(slot_holds(field(entries_of(r2), k), migrated_slot(o1, k, n)));
        if exists|j: int| 0 <= j < n && #[trigger] MIGRATION_KEYS@[j]@ == k {
            let j = choose|j: int| 0 <= j < n && #[trigger] MIGRATION_KEYS@[j]@ == k;
            lemma_slot_listed(o, k, j, n);
            lemma_slot_listed(o1, k, j, n);
            if j == 0 {
                reveal_strlit("race");
                assert(str_field(o1, "race"@) == Some(race_text(o)));
            } else if j == 1 {
                reveal_strlit("opponent");
                assert(str_field(o1, "opponent"@) == Some(opponent_text(o)));
            } else if j == 20 {
                reveal_strlit("id");
                assert(str_field(o1, "id"@) == Some(id_text(o)));
            }
        } else {
            lemma_slot_unlisted(o, k, n);
            lemma_slot_unlisted(o1, k, n);
        }
    }
}

fn text_of(o: &Vec<(String, JsonValue)>, key: &str, default: &str) -> (r: String)
    ensures
        r@ == str_or(o@, key@, default@),
{
    match get_field(o, key) {
        Some(JsonValue::String(s)) => s.clone(),
        _ => string_from(default),
    }
}

fn text_value(s: &String) -> (v: JsonValue)
    ensures
        v matches JsonValue::String(t) && t@ == s@,
{
    JsonValue::String(s.clone())
}

/// Fills in what an older build lacks, key by key as `MIGRATION_KEYS` and
/// `MIGRATION_RULES` say. Anything but an object counts as an empty one.
pub fn migrate_build(build: JsonValue) -> (r: JsonValue)
    ensures
        migrated_build(entries_of(build), r),
{
    let ghost o0 = entries_of(build);
    let mut obj: Vec<(String, JsonValue)> = match build {
        JsonValue::Object(map) => map,
        _ => Vec::new(),
    };
    let id = text_of(&obj, "id", "");
    let race = text_of(&obj, "race", "Protoss");
    let opp = text_of(&obj, "opponent", "Terran");
    let matchup = derive_matchup(race.as_str(), opp.as_str());
    let empty = String::new();
    let manual = string_from("Manual");
    proof {
        reveal_strlit("");
        assert(empty@ =~= Seq::<char>::empty());
    }
    let mut i: usize = 0;
    while i < MIGRATED_KEY_COUNT
        invariant
            i <= MIGRATED_KEY_COUNT,
            id@ == id_text(o0),
            race@ == race_text(o0),
            opp@ == opponent_text(o0),
            matchup@ == seq![name_initial(race_text(o0)), 'v', name_initial(opponent_text(o0))],
            empty@ == Seq::<char>::empty(),
            manual@ == "Manual"@,
            forall|k: Seq<char>| #[trigger] slot_holds(field(obj@, k), migrated_slot(o0, k, i as int)),
        decreases MIGRATED_KEY_COUNT - i,
    {
        let key = MIGRATION_KEYS[i];
        let ghost prev = migrated_slot(o0, key@, i as int);
        assert(slot_holds(field(obj@, key@), prev));
        let current = get_field(&obj, key);
        let value: Option<JsonValue> = match MIGRATION_RULES[i] {
            FieldRule::Race => Some(text_value(&race)),
            FieldRule::Opponent => Some(text_value(&opp)),
            FieldRule::Id => Some(text_value(&id)),
            FieldRule::Matchup => match current {
                Some(JsonValue::String(_)) => None,
                _ => Some(text_value(&matchup)),
            },
            FieldRule::NullIfMissing => match current {
                Some(_) => None,
                None => Some(JsonValue::Null),
            },
            FieldRule::ListIfNotList => match current {
                Some(JsonValue::Array(_)) => None,
                _ => Some(JsonValue::Array(Vec::new())),
            },
            FieldRule::EmptyIfMissing => match current {
                Some(_) => None,
                None => Some(text_value(&empty)),
            },
            FieldRule::ManualIfMissing => match current {
                Some(_) => None,
                None => Some(text_value(&manual)),
            },
            FieldRule::FalseIfMissing => match current {
                Some(_) => None,
                None => Some(JsonValue::Bool(false)),
            },
        };
        let ghost next = apply_rule(MIGRATION_RULES@[i as int], prev, o0);
        match value {
            Some(v) => {
                assert(slot_holds(Some(v), next));
                set_field(&mut obj, string_from(key), v);
            },
            None => {
                assert(next == prev);
            },
        }
        assert forall|k: Seq<char>| #[trigger] slot_holds(field(obj@, k), migrated_slot(o0, k, i + 1)) by {
            if k != key@ {
                assert(slot_holds(field(obj@, k), migrated_slot(o0, k, i as int)));
            }
        }
        i = i + 1;
    }
    JsonValue::Object(obj)
}

// ---------------------------------------------------------------------------
// Migrating the builds file
// ---------------------------------------------------------------------------

/// A builds file brought to the current schema; its builds are migrated
/// objects, to be read as builds.
pub struct MigratedBuilds {
    pub version: u32,
    pub last_updated: String,
    pub builds: Vec<JsonValue>,
}

/// The stored builds of a file's entries: its `builds` list, or none.
pub open spec fn raw_builds(o: Seq<(String, JsonValue)>) -> Seq<JsonValue> {
    match field(o, "builds"@) {
        Some(JsonValue::Array(a)) => a@,
        _ => Seq::empty(),
    }
}

/// Takes out the value of `key`.
fn take_field(o: &mut Vec<(String, JsonValue)>, key: &str) -> (r: Option<JsonValue>)
    ensures
        r == field(old(o)@, key@),
{
    let mut i: usize = o.len();
    while i > 0
        invariant
            o@ == old(o)@,
            i <= o@.len(),
            forall|k: int| i <= k < o@.len() ==> (#[trigger] o@[k]).0@ != key@,
        decreases i,
    {
        i = i - 1;
        if str_eq(o[i].0.as_str(), key) {
            proof {
                crate::json::lemma_field_at(o@, key@, i as int);
            }
            let (_, v) = o.remove(i);
            return Some(v);
        }
    }
    proof {
        crate::json::lemma_field_absent(o@, key@);
    }
    None
}

/// A builds file `data` brought to the current schema on date `today`:
/// every stored build migrated, in order; the file's `lastUpdated` kept
/// where it is text, else `today`; the version set to `SCHEMA_VERSION`.
/// Anything but an object counts as an empty one.
pub open spec fn migrated_file(data: JsonValue, today: Seq<char>, r: MigratedBuilds) -> bool {
    &&& r.version == SCHEMA_VERSION
    &&& r.last_updated@ == str_or(entries_of(data), "lastUpdated"@, today)
    &&& r.builds@.len() == raw_builds(entries_of(data)).len()
    &&& forall|i: int|
        0 <= i < r.builds@.len() ==> migrated_build(
            entries_of(#[trigger] raw_builds(entries_of(data))[i]),
            r.builds@[i],
        )
}

/// Brings a builds file to the current schema, on today's date (used where
/// the file has no `lastUpdated`).
pub fn migrate_data(data: JsonValue) -> (r: MigratedBuilds)
    ensures
        exists|today: Seq<char>| #[trigger] migrated_file(data, today, r),
        str_field(entries_of(data), "lastUpdated"@) matches Some(t) ==> r.last_updated@ == t,
        str_field(entries_of(data), "lastUpdated"@) is None ==> date_shape(r.last_updated@),
{
    let dated = match &data {
        JsonValue::Object(o) => match get_field(o, "lastUpdated") {
            Some(JsonValue::String(_)) => true,
            _ => false,
        },
        _ => false,
    };
    let date = if dated {
        String::new()
    } else {
        today()
    };
    let ghost d = date@;
    let r = migrate_data_at(data, date);
    assert(migrated_file(data, d, r));
    r
}

/// Brings a builds file to the current schema on the given date.
pub fn migrate_data_at(data: JsonValue, today: String) -> (r: MigratedBuilds)
    ensures
        migrated_file(data, today@, r),
{
    let ghost o0 = entries_of(data);
    let mut obj: Vec<(String, JsonValue)> = match data {
        JsonValue::Object(map) => map,
        _ => Vec::new(),
    };
    let last_updated = match get_field(&obj, "lastUpdated") {
        Some(JsonValue::String(s)) => s.clone(),
        _ => today,
    };
    let mut raw: Vec<JsonValue> = match take_field(&mut obj, "builds") {
        Some(JsonValue::Array(a)) => a,
        _ => Vec::new(),
    };
    let ghost rb = raw@;
    assert(rb == raw_builds(o0));
    // Reversed, so that popping gives the builds in their order.
    let mut rev: Vec<JsonValue> = Vec::new();
    while raw.len() > 0
        invariant
            rb.len() == raw@.len() + rev@.len(),
            raw@ == rb.take(raw@.len() as int),
            forall|k: int| 0 <= k < rev@.len() ==> rev@[k] == rb[rb.len() - 1 - k],
        decreases raw@.len(),
    {
        let b = raw.pop().unwrap();
        rev.push(b);
        assert(raw@ =~= rb.take(raw@.len() as int));
    }
    let mut builds: Vec<JsonValue> = Vec::new();
    while rev.len() > 0
        invariant
            rb.len() == builds@.len() + rev@.len(),
            forall|k: int| 0 <= k < rev@.len() ==> rev@[k] == rb[rb.len() - 1 - k],
            forall|k: int| 0 <= k < builds@.len() ==> migrated_build(entries_of(#[trigger] rb[k]), builds@[k]),
        decreases rev@.len(),
    {
        let b = rev.pop().unwrap();
        let ghost at = builds@.len();
        assert(b == rb[at as int]);
        builds.push(migrate_build(b));
    }
    MigratedBuilds { version: SCHEMA_VERSION, last_updated, builds }
}

/// `f` is the JSON form of the migrated file `m`: an object holding its
/// version, `lastUpdated` and builds.
pub open spec fn file_json_of(m: MigratedBuilds, f: JsonValue) -> bool {
    &&& f is Object
    &&& field(entries_of(f), "version"@) == Some(JsonValue::Number(JsonNumber::Int(m.version as i64)))
    &&& str_field(entries_of(f), "lastUpdated"@) == Some(m.last_updated@)
    &&& field(entries_of(f), "builds"@) matches Some(JsonValue::Array(a)) && a@ == m.builds@
}

impl MigratedBuilds {
    /// The file as JSON, to be written.
    pub fn into_json(self) -> (r: JsonValue)
        ensures
            file_json_of(self, r),
    {
        proof {
            reveal_strlit("version");
            reveal_strlit("lastUpdated");
            reveal_strlit("builds");
            assert("version"@.len() == 7);
            assert("lastUpdated"@.len() == 11);
            assert("builds"@.len() == 6);
        }
        let MigratedBuilds { version, last_updated, builds } = self;
        let mut o: Vec<(String, JsonValue)> = Vec::new();
        set_field(&mut o, string_from("version"), JsonValue::Number(JsonNumber::Int(version as i64)));
        set_field(&mut o, string_from("lastUpdated"), JsonValue::String(last_updated));
        set_field(&mut o, string_from("builds"), JsonValue::Array(builds));
        JsonValue::Object(o)
    }
}

/// Migrating a migrated file again changes nothing: the version and
/// `lastUpdated` stay, and every build keeps its values, whatever the date.
pub proof fn lemma_migrate_data_idempotent(
    data: JsonValue,
    d1: Seq<char>,
    m1: MigratedBuilds,
    file: JsonValue,
    d2: Seq<char>,
    m2: MigratedBuilds,
)
    requires
        migrated_file(data, d1, m1),
        file_json_of(m1, file),
        migrated_file(file, d2, m2),
    ensures
        m2.version == m1.version,
        m2.last_updated@ == m1.last_updated@,
        m2.builds@.len() == m1.builds@.len(),
        forall|i: int, k: Seq<char>|
            0 <= i < m2.builds@.len() ==> #[trigger] same_value(
                field(entries_of(m2.builds@[i]), k),
                field(entries_of(m1.builds@[i]), k),
            ),
{
    assert(raw_builds(entries_of(file)) == m1.builds@);
    assert forall|i: int, k: Seq<char>| 0 <= i < m2.builds@.len() implies #[trigger] same_value(
        field(entries_of(m2.builds@[i]), k),
        field(entries_of(m1.builds@[i]), k),
    ) by {
        let raw = raw_builds(entries_of(data))[i];
        assert(migrated_build(entries_of(raw), m1.builds@[i]));
        assert(migrated_build(entries_of(raw_builds(entries_of(file))[i]), m2.builds@[i]));
        lemma_migrate_build_idempotent(entries_of(raw), m1.builds@[i], m2.builds@[i]);
    }
}

/// The stored file's version: its `version` where that is a non-negative
/// integer (cut to 32 bits), else 0.
pub open spec fn stored_version(raw: JsonValue) -> u32 {
    match field(entries_of(raw), "version"@) {
        Some(JsonValue::Number(JsonNumber::Int(n))) => if n >= 0 {
            n as u32
        } else {
            0
        },
        Some(JsonValue::Number(JsonNumber::Big(n))) => n as u32,
        _ => 0,
    }
}

/// The stored file predates the current schema and is to be migrated.
pub fn needs_migration(raw: &JsonValue) -> (r: bool)
    ensures
        r == (stored_version(*raw) < SCHEMA_VERSION),
{
    let version: u32 = match raw {
        JsonValue::Object(o) => match get_field(o, "version") {
            Some(JsonValue::Number(JsonNumber::Int(n))) => if *n >= 0 {
                *n as u32
            } else {
                0
            },
            Some(JsonValue::Number(JsonNumber::Big(n))) => *n as u32,
            _ => 0,
        },
        _ => 0,
    };
    version < SCHEMA_VERSION
}

// ---------------------------------------------------------------------------
// Settings and backups
// ---------------------------------------------------------------------------

/// The settings file's version.
pub const SETTINGS_VERSION: i64 = 1;

/// Settings after an update: each key the update sets takes its value, the
/// others keep theirs, and `version` is set to `SETTINGS_VERSION`. Where
/// either side is not an object the settings stay as they are.
pub fn merge_settings(existing: JsonValue, partial: JsonValue) -> (r: JsonValue)
    ensures
        (existing is Object && partial is Object) ==> (r is Object && forall|k: Seq<char>|
            #[trigger] field(entries_of(r), k) == if k == "version"@ {
                Some(JsonValue::Number(JsonNumber::Int(SETTINGS_VERSION)))
            } else if field(entries_of(partial), k) is Some {
                field(entries_of(partial), k)
            } else {
                field(entries_of(existing), k)
            }),
        !(existing is Object && partial is Object) ==> r == existing,
{
    match (existing, partial) {
        (JsonValue::Object(mut target), JsonValue::Object(source)) => {
            let ghost t0 = target@;
            let ghost s0 = source@;
            let mut source = source;
            // Taken from the back, then applied from the front.
            let mut rev: Vec<(String, JsonValue)> = Vec::new();
            while source.len() > 0
                invariant
                    s0.len() == source@.len() + rev@.len(),
                    source@ == s0.take(source@.len() as int),
                    forall|k: int| 0 <= k < rev@.len() ==> rev@[k] == s0[s0.len() - 1 - k],
                decreases source@.len(),
            {
                let e = source.pop().unwrap();
                rev.push(e);
                assert(source@ =~= s0.take(source@.len() as int));
            }
            while rev.len() > 0
                invariant
                    s0.len() == (target@.len() - t0.len()) + rev@.len(),
                    target@.len() >= t0.len(),
                    target@ == t0 + s0.take(target@.len() - t0.len()),
                    forall|k: int| 0 <= k < rev@.len() ==> rev@[k] == s0[s0.len() - 1 - k],
                decreases rev@.len(),
            {
                let ghost n = target@.len() - t0.len();
                let e = rev.pop().unwrap();
                assert(e == s0[n]);
                target.push(e);
                assert(s0.take(n + 1) =~= s0.take(n).push(s0[n]));
                assert(target@ =~= t0 + s0.take(n + 1));
            }
            assert(s0.take(s0.len() as int) =~= s0);
            let ghost merged = target@;
            set_field(&mut target, string_from("version"), JsonValue::Number(JsonNumber::Int(SETTINGS_VERSION)));
            assert forall|k: Seq<char>| k != "version"@ implies #[trigger] field(merged, k) == if field(s0, k) is Some {
                field(s0, k)
            } else {
                field(t0, k)
            } by {
                lemma_field_concat(t0, s0, k);
            }
            JsonValue::Object(target)
        },
        (existing, _) => existing,
    }
}

proof fn lemma_field_concat(a: Seq<(String, JsonValue)>, b: Seq<(String, JsonValue)>, k: Seq<char>)
    ensures
        field(a + b, k) == if field(b, k) is Some {
            field(b, k)
        } else {
            field(a, k)
        },
    decreases b.len(),
{
    if b.len() > 0 {
        assert((a + b).drop_last() =~= a + b.drop_last());
        assert((a + b).last() == b.last());
        lemma_field_concat(a, b.drop_last(), k);
    } else {
        assert(a + b =~= a);
    }
}

/// The file name of a backup made at `stamp` (an ISO time): its `:` and
/// `.` become `-`.
pub open spec fn backup_name_of(stamp: Seq<char>) -> Seq<char> {
    "builds-backup-"@ + Seq::new(stamp.len(), |i: int| if stamp[i] == ':' || stamp[i] == '.' {
        '-'
    } else {
        stamp[i]
    }) + ".json"@
}

pub fn backup_file_name(stamp: &str) -> (r: String)
    ensures
        r@ == backup_name_of(stamp@),
{
    let v = chars_of(stamp);
    let mut r = string_from("builds-backup-");
    let ghost head = r@;
    let n = v.len();
    let mut i: usize = 0;
    while i < n
        invariant
            n == v@.len(),
            v@ == stamp@,
            i <= n,
            head == "builds-backup-"@,
            r@ == head + Seq::new(i as nat, |j: int| if v@[j] == ':' || v@[j] == '.' {
                '-'
            } else {
                v@[j]
            }),
        decreases n - i,
    {
        let c = v[i];
        if c == ':' || c == '.' {
            push_char(&mut r, '-');
        } else {
            push_char(&mut r, c);
        }
        assert(r@ =~= head + Seq::new((i + 1) as nat, |j: int| if v@[j] == ':' || v@[j] == '.' {
            '-'
        } else {
            v@[j]
        }));
        i = i + 1;
    }
    push_str(&mut r, ".json");
    assert(r@ =~= backup_name_of(stamp@));
    r
}

/// The file name for a backup made now.
pub fn new_backup_name() -> (r: String)
    ensures
        exists|stamp: Seq<char>| r@ == #[trigger] backup_name_of(stamp) && iso_stamp_shape(stamp),
{
    let now = now_iso();
    let r = backup_file_name(now.as_str());
    assert(r@ == backup_name_of(now@));
    r
}

} // verus!
