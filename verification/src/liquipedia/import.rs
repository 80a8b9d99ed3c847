//! Turning parsed Liquipedia pages into builds and merging them into the
//! stored builds: one build per `{{build}}` variant, variants linked to the
//! first one via `variant_of`, and merges that keep the user's favourite,
//! notes and recent-use stamp. The category walks and page fetches of a
//! bulk import are driven by the application; the decisions they need are
//! here.

use vstd::prelude::*;
use crate::liquipedia::api::{
    api_error_text, page_url, page_url_of, ApiError, LiquipediaCategoryMember, PageWikitext,
};
use crate::storage::{storage_error_text, StorageError};
use crate::liquipedia::parser::{page_of, parse_liquipedia_page};
use crate::pattern::{is_match, is_match_str, replace_first_str, replaced_first};
use crate::text::{
    chars_of, is_ascii_digit, lowercase, push_char, push_str, str_eq, string_from, to_lowercase, trim, trim_string,
};
use crate::order::{sorted_unique, strictly_sorted};
use crate::types::{
    builds_view, BulkImportMode, BulkImportOptions, BulkImportResult, copy_opt_string, copy_string, copy_strings, opponent_name, opt_view, race_name,
    strs_view, variants_view, Build, BuildView, BuildsData, Difficulty, ImportMergeResult,
    ImportSinglePageResult, InfoboxView, Opponent, PageView, ParsedLiquipediaPage, ParsedVariant,
    Race, VariantView,
};
use crate::utils::{derive_matchup_typed, matchup_of, slug, slugify};

verus! {

/// Errors of an import: the client's or the storage's.
#[derive(Debug)]
pub enum ImportError {
    Api(ApiError),
    Storage(StorageError),
}

pub open spec fn import_error_text(e: ImportError) -> Seq<char> {
    match e {
        ImportError::Api(a) => api_error_text(a),
        ImportError::Storage(s) => storage_error_text(s),
    }
}

impl ImportError {
    /// The text the error is shown as: that of the error it carries.
    pub fn message(&self) -> (r: String)
        ensures
            r@ == import_error_text(*self),
    {
        match self {
            ImportError::Api(a) => a.message(),
            ImportError::Storage(s) => s.message(),
        }
    }
}

pub const RE_PAREN_SUFFIX: &'static str = r"\s*\(.*?\)\s*$";

/// Title patterns of the curated "common" builds.
pub const COMMON_TITLE_PATTERNS: [&'static str; 38] = [
    r"(?i)1\s*Gate\s*Core",
    r"(?i)10/15\s*Gates",
    r"(?i)2\s*Gate\s*Range",
    r"(?i)12\s*Nexus",
    r"(?i)14\s*Nexus",
    r"(?i)Reaver",
    r"(?i)Dark\s*Templar",
    r"(?i)Forge\s*FE",
    r"(?i)Forge\s*Fast\s*Expand",
    r"(?i)2\s*Gateway",
    r"(?i)1\s*Gate\s*Stargate",
    r"(?i)Corsair",
    r"(?i)3\s*Gate\s*Robo",
    r"(?i)Gateway\s*Robo",
    r"(?i)Observer",
    r"(?i)4\s*Gate",
    r"(?i)Goon",
    r"(?i)14\s*CC",
    r"(?i)1\s*Rax\s*FE",
    r"(?i)2\s*Rax",
    r"(?i)Siege\s*Expand",
    r"(?i)1\s*Fact",
    r"(?i)2\s*Fact",
    r"(?i)SK\s*Terran",
    r"(?i)Mech",
    r"(?i)Wraith",
    r"(?i)BBS",
    r"(?i)9\s*Pool",
    r"(?i)Overpool",
    r"(?i)12\s*Pool",
    r"(?i)12\s*Hatch",
    r"(?i)3\s*Hatch",
    r"(?i)5\s*Hatch",
    r"(?i)2\s*Hatch",
    r"(?i)Lurker",
    r"(?i)Mutalisk",
    r"(?i)Hydralisk",
    r"(?i)Hatch\s*first",
];

/// The category roots walked for each race.
pub open spec fn race_roots_of(race: Race) -> Seq<Seq<char>> {
    match race {
        Race::Protoss => seq![
            "Category:Protoss_Build_Orders"@,
            "Category:Protoss_Builds"@,
            "Category:Protoss_Strategy"@,
        ],
        Race::Terran => seq![
            "Category:Terran_Build_Orders"@,
            "Category:Terran_Builds"@,
            "Category:Terran_Strategy"@,
        ],
        Race::Zerg => seq![
            "Category:Zerg_Build_Orders"@,
            "Category:Zerg_Builds"@,
            "Category:Zerg_Strategy"@,
        ],
    }
}

pub fn race_roots(race: Race) -> (r: [&'static str; 3])
    ensures
        r@.map_values(|s: &str| s@) == race_roots_of(race),
{
    let r = match race {
        Race::Protoss => [
            "Category:Protoss_Build_Orders",
            "Category:Protoss_Builds",
            "Category:Protoss_Strategy",
        ],
        Race::Terran => [
            "Category:Terran_Build_Orders",
            "Category:Terran_Builds",
            "Category:Terran_Strategy",
        ],
        Race::Zerg => ["Category:Zerg_Build_Orders", "Category:Zerg_Builds", "Category:Zerg_Strategy"],
    };
    assert(r@.map_values(|s: &str| s@) =~= race_roots_of(race));
    r
}

/// The title matches one of the curated common-build patterns.
pub open spec fn is_common(title: Seq<char>) -> bool {
    exists|i: int| 0 <= i < 38 && is_match(#[trigger] COMMON_TITLE_PATTERNS@[i]@, title)
}

pub fn is_common_title(title: &str) -> (r: bool)
    ensures
        r == is_common(title@),
{
    let mut i: usize = 0;
    while i < 38
        invariant
            i <= 38,
            forall|k: int| 0 <= k < i ==> !is_match(#[trigger] COMMON_TITLE_PATTERNS@[k]@, title@),
        decreases 38 - i,
    {
        if is_match_str(COMMON_TITLE_PATTERNS[i], title) {
            return true;
        }
        i = i + 1;
    }
    false
}


// ---------------------------------------------------------------------------
// Builds from a parsed page
// ---------------------------------------------------------------------------

/// The id of an imported build:
/// `liquipedia-<race>-<opponent>-<name[-variant]>`, each part slugged.
pub open spec fn build_id_of(
    player_race: Seq<char>,
    opponent: Seq<char>,
    name: Seq<char>,
    variant_name: Seq<char>,
) -> Seq<char> {
    let race = if player_race.len() == 0 {
        "unknown"@
    } else {
        player_race
    };
    let opp = if opponent.len() == 0 {
        "any"@
    } else {
        opponent
    };
    let base = if variant_name.len() == 0 {
        name
    } else {
        name + "-"@ + variant_name
    };
    "liquipedia-"@ + slug(race) + "-"@ + slug(opp) + "-"@ + slug(base)
}

fn push_string(s: &mut String, t: &String)
    ensures
        final(s)@ == old(s)@ + t@,
{
    push_str(s, t.as_str());
}

pub fn make_build_id(player_race: &str, opponent: &str, name: &str, variant_name: &str) -> (r: String)
    ensures
        r@ == build_id_of(player_race@, opponent@, name@, variant_name@),
{
    let race = if chars_of(player_race).len() == 0 {
        "unknown"
    } else {
        player_race
    };
    let opp = if chars_of(opponent).len() == 0 {
        "any"
    } else {
        opponent
    };
    let mut base = string_from(name);
    if chars_of(variant_name).len() > 0 {
        push_str(&mut base, "-");
        push_str(&mut base, variant_name);
    }
    let mut id = string_from("liquipedia-");
    push_string(&mut id, &slugify(race));
    push_str(&mut id, "-");
    push_string(&mut id, &slugify(opp));
    push_str(&mut id, "-");
    push_string(&mut id, &slugify(base.as_str()));
    id
}

/// A page title without a trailing parenthesised part.
pub open spec fn without_paren_suffix(title: Seq<char>) -> Seq<char> {
    trim(replaced_first(RE_PAREN_SUFFIX@, title, ""@))
}

pub fn strip_paren_suffix(title: &str) -> (r: String)
    ensures
        r@ == without_paren_suffix(title@),
{
    let s = replace_first_str(RE_PAREN_SUFFIX, title, "");
    trim_string(s.as_str())
}

/// The characters at `i .. i + k` are decimal digits.
pub open spec fn digits_at(s: Seq<char>, i: int, k: int) -> bool {
    forall|j: int| i <= j < i + k ==> is_ascii_digit(#[trigger] s[j])
}

/// The shape of a `%Y-%m-%dT%H:%M:%S%.3fZ` time: a year of at least four
/// characters, then `-MM-DDTHH:MM:SS.mmmZ`.
pub open spec fn iso_stamp_shape(s: Seq<char>) -> bool {
    let n = s.len() as int;
    &&& n >= 24
    &&& s[n - 20] == '-' && digits_at(s, n - 19, 2)
    &&& s[n - 17] == '-' && digits_at(s, n - 16, 2)
    &&& s[n - 14] == 'T' && digits_at(s, n - 13, 2)
    &&& s[n - 11] == ':' && digits_at(s, n - 10, 2)
    &&& s[n - 8] == ':' && digits_at(s, n - 7, 2)
    &&& s[n - 5] == '.' && digits_at(s, n - 4, 3)
    &&& s[n - 1] == 'Z'
}

/// The current UTC time, formatted by chrono as
/// `%Y-%m-%dT%H:%M:%S%.3fZ`: `SystemTime::now` converted with
/// `DateTime::<Utc>::from`, which maps a clock set before 1970 to a
/// negative time instead of failing. Its range check only fails for times
/// more than 262,000 years away, which no platform's clock returns. The
/// value depends on the clock; only its shape is stated: chrono pads the
/// year to at least four characters, the other fields to two digits, and
/// `%.3f` gives a dot and three digits.
#[verifier::external_body]
pub(crate) fn now_iso() -> (r: String)
    ensures
        iso_stamp_shape(r@),
{
    chrono::DateTime::<chrono::Utc>::from(std::time::SystemTime::now()).format("%Y-%m-%dT%H:%M:%S%.3fZ").to_string()
}

pub open spec fn difficulty_tag(d: Difficulty) -> Seq<char> {
    match d {
        Difficulty::Beginner => "beginner"@,
        Difficulty::Intermediate => "intermediate"@,
        Difficulty::Advanced => "advanced"@,
    }
}

/// Tags of an imported build: `liquipedia`, `imported` (or `needs-review`
/// when the variant has no steps), and the page's difficulty.
pub open spec fn import_tags(page: PageView, v: VariantView) -> Seq<Seq<char>> {
    let base = seq!["liquipedia"@, if v.steps.len() > 0 {
        "imported"@
    } else {
        "needs-review"@
    }];
    match page.difficulty {
        Some(d) => base.push(difficulty_tag(d)),
        None => base,
    }
}

pub open spec fn infobox_creator(ib: Option<InfoboxView>) -> Seq<char> {
    match ib {
        Some(b) => match b.creator {
            Some(c) => c,
            None => Seq::empty(),
        },
        None => Seq::empty(),
    }
}

pub open spec fn infobox_popularized(ib: Option<InfoboxView>) -> Seq<char> {
    match ib {
        Some(b) => match b.popularized {
            Some(c) => c,
            None => Seq::empty(),
        },
        None => Seq::empty(),
    }
}

pub const NO_TEMPLATE_NOTE: &'static str = "Could not parse a build template - open Source and copy the order manually.";

pub const NO_STEPS_STEP: &'static str = "No build steps were parsed \u{2014} add them manually from the Liquipedia page source or in the Build Manager.";

/// Notes of an imported build: where it came from and its credits.
pub open spec fn import_notes(page: PageView, v: VariantView) -> Seq<char> {
    let creator = infobox_creator(page.infobox);
    let popularized = infobox_popularized(page.infobox);
    if v.steps.len() > 0 {
        trim(
            "Imported from Liquipedia."@ + (if creator.len() > 0 {
                " Creator: "@ + creator + "."@
            } else {
                Seq::empty()
            }) + (if popularized.len() > 0 {
                " Popularized: "@ + popularized + "."@
            } else {
                Seq::empty()
            }),
        )
    } else {
        NO_TEMPLATE_NOTE@
    }
}

/// The build one variant of page `title` gives, imported at time `now`.
pub open spec fn variant_build(
    title: Seq<char>,
    page: PageView,
    v: VariantView,
    revision_id: Option<i64>,
    now: Seq<char>,
) -> BuildView {
    let race = match page.player_race {
        Some(r) => r,
        None => Race::Protoss,
    };
    let opponent = match page.opponent {
        Some(o) => o,
        None => Opponent::Random,
    };
    let base = without_paren_suffix(title);
    BuildView {
        id: build_id_of(race_name(race), opponent_name(opponent), base, v.variant_name),
        race,
        opponent,
        matchup: matchup_of(race, opponent),
        name: if v.variant_name.len() == 0 {
            base
        } else {
            base + " - "@ + v.variant_name
        },
        variant_of: None,
        tags: import_tags(page, v),
        difficulty: page.difficulty,
        source_name: "Liquipedia"@,
        source_url: page_url_of(title),
        source_page_title: Some(title),
        notes: import_notes(page, v),
        user_notes: Seq::empty(),
        custom_edited: false,
        favorite: false,
        recently_used_at: None,
        revision_id,
        last_imported_at: Some(now),
        last_checked_at: Some(now),
        counters: page.counters,
        countered_by: page.countered_by,
        steps: if v.steps.len() == 0 {
            seq![NO_STEPS_STEP@]
        } else {
            v.steps
        },
    }
}

fn import_notes_exec(parsed: &ParsedLiquipediaPage, variant: &ParsedVariant) -> (r: String)
    ensures
        r@ == import_notes(parsed@, variant@),
{
    if variant.steps.len() > 0 {
        let creator = match &parsed.infobox {
            Some(ib) => match &ib.creator {
                Some(c) => copy_string(c),
                None => String::new(),
            },
            None => String::new(),
        };
        let popularized = match &parsed.infobox {
            Some(ib) => match &ib.popularized {
                Some(c) => copy_string(c),
                None => String::new(),
            },
            None => String::new(),
        };
        let mut s = string_from("Imported from Liquipedia.");
        let ghost s0 = s@;
        if chars_of(creator.as_str()).len() > 0 {
            push_str(&mut s, " Creator: ");
            push_string(&mut s, &creator);
            push_str(&mut s, ".");
        }
        let ghost s1 = s@;
        assert(s1 =~= s0 + (if creator@.len() > 0 {
            " Creator: "@ + creator@ + "."@
        } else {
            Seq::empty()
        }));
        if chars_of(popularized.as_str()).len() > 0 {
            push_str(&mut s, " Popularized: ");
            push_string(&mut s, &popularized);
            push_str(&mut s, ".");
        }
        assert(s@ =~= s1 + (if popularized@.len() > 0 {
            " Popularized: "@ + popularized@ + "."@
        } else {
            Seq::empty()
        }));
        trim_string(s.as_str())
    } else {
        string_from(NO_TEMPLATE_NOTE)
    }
}

fn import_tags_exec(parsed: &ParsedLiquipediaPage, variant: &ParsedVariant) -> (r: Vec<String>)
    ensures
        strs_view(r@) == import_tags(parsed@, variant@),
{
    let mut tags: Vec<String> = Vec::new();
    tags.push(string_from("liquipedia"));
    if variant.steps.len() > 0 {
        tags.push(string_from("imported"));
    } else {
        tags.push(string_from("needs-review"));
    }
    match parsed.difficulty {
        Some(d) => {
            let t = match d {
                Difficulty::Beginner => string_from("beginner"),
                Difficulty::Intermediate => string_from("intermediate"),
                Difficulty::Advanced => string_from("advanced"),
            };
            tags.push(t);
        },
        None => {},
    }
    assert(strs_view(tags@) =~= import_tags(parsed@, variant@));
    tags
}

/// The build one variant gives, stamped with `now`.
pub fn build_from_variant_at(
    page_title: &str,
    parsed: &ParsedLiquipediaPage,
    variant: &ParsedVariant,
    revision_id: Option<i64>,
    now: &str,
) -> (r: Build)
    ensures
        r@ == variant_build(page_title@, parsed@, variant@, revision_id, now@),
{
    let race = match parsed.player_race {
        Some(r) => r,
        None => Race::Protoss,
    };
    let opponent = match parsed.opponent {
        Some(o) => o,
        None => Opponent::Random,
    };
    let base_name = strip_paren_suffix(page_title);
    let final_name = if chars_of(variant.variant_name.as_str()).len() == 0 {
        copy_string(&base_name)
    } else {
        let mut n = copy_string(&base_name);
        push_str(&mut n, " - ");
        push_string(&mut n, &variant.variant_name);
        n
    };
    let id = make_build_id(race.as_str(), opponent.as_str(), base_name.as_str(), variant.variant_name.as_str());
    let tags = import_tags_exec(parsed, variant);
    let notes = import_notes_exec(parsed, variant);
    let steps = if variant.steps.len() == 0 {
        let mut v: Vec<String> = Vec::new();
        v.push(string_from(NO_STEPS_STEP));
        assert(strs_view(v@) =~= seq![NO_STEPS_STEP@]);
        v
    } else {
        copy_strings(&variant.steps)
    };
    Build {
        id,
        race,
        opponent,
        matchup: derive_matchup_typed(race, opponent),
        name: final_name,
        variant_of: None,
        tags,
        difficulty: parsed.difficulty,
        source_name: string_from("Liquipedia"),
        source_url: page_url(page_title),
        source_page_title: Some(string_from(page_title)),
        notes,
        user_notes: String::new(),
        custom_edited: false,
        favorite: false,
        recently_used_at: None,
        revision_id,
        last_imported_at: Some(string_from(now)),
        last_checked_at: Some(string_from(now)),
        counters: copy_strings(&parsed.counters),
        countered_by: copy_strings(&parsed.countered_by),
        steps,
    }
}

/// The import stamp a build carries.
pub open spec fn import_stamp(b: BuildView) -> Seq<char> {
    match b.last_imported_at {
        Some(t) => t,
        None => Seq::empty(),
    }
}

/// The build one variant gives, stamped with the current time.
pub fn build_from_variant(
    page_title: &str,
    parsed: &ParsedLiquipediaPage,
    variant: &ParsedVariant,
    revision_id: Option<i64>,
) -> (r: Build)
    ensures
        r@ == variant_build(page_title@, parsed@, variant@, revision_id, import_stamp(r@)),
        iso_stamp_shape(import_stamp(r@)),
{
    let now = now_iso();
    build_from_variant_at(page_title, parsed, variant, revision_id, now.as_str())
}

/// How many variants have the given lower-cased name.
pub open spec fn name_count(vs: Seq<VariantView>, key: Seq<char>) -> nat
    decreases vs.len(),
{
    if vs.len() == 0 {
        0
    } else {
        name_count(vs.drop_last(), key) + (if lowercase(vs.last().variant_name) == key {
            1nat
        } else {
            0nat
        })
    }
}

/// A variant whose name is shared (case-insensitively) with another one
/// is named after its heading instead, when it has one.
pub open spec fn renamed_variant(vs: Seq<VariantView>, v: VariantView) -> VariantView {
    if name_count(vs, lowercase(v.variant_name)) > 1 && v.heading is Some {
        VariantView { variant_name: v.heading.unwrap(), heading: v.heading, steps: v.steps }
    } else {
        v
    }
}

/// `b` marked as a variant of the build with id `parent`.
pub open spec fn as_variant_of(b: BuildView, parent: Seq<char>) -> BuildView {
    BuildView { variant_of: Some(parent), ..b }
}

/// The builds of a page, the `i`th stamped with `stamps[i]`; all but the
/// first are marked as variants of the first.
pub open spec fn page_builds(
    title: Seq<char>,
    page: PageView,
    revision_id: Option<i64>,
    stamps: Seq<Seq<char>>,
) -> Seq<BuildView> {
    let vs = page.variants;
    Seq::new(
        vs.len(),
        |i: int|
            {
                let b = variant_build(title, page, renamed_variant(vs, vs[i]), revision_id, stamps[i]);
                if i == 0 {
                    b
                } else {
                    as_variant_of(
                        b,
                        variant_build(title, page, renamed_variant(vs, vs[0]), revision_id, stamps[0]).id,
                    )
                }
            },
    )
}

/// A page's builds are linked to its first one: every later build is a
/// variant of the first, and the first is a variant of none.
pub proof fn lemma_page_builds_link_first(
    title: Seq<char>,
    page: PageView,
    revision_id: Option<i64>,
    stamps: Seq<Seq<char>>,
)
    ensures
        forall|i: int|
            0 < i < page_builds(title, page, revision_id, stamps).len() ==> (#[trigger] page_builds(
                title,
                page,
                revision_id,
                stamps,
            )[i]).variant_of == Some(page_builds(title, page, revision_id, stamps)[0].id),
        page_builds(title, page, revision_id, stamps).len() > 0 ==> page_builds(
            title,
            page,
            revision_id,
            stamps,
        )[0].variant_of is None,
{
}

/// Every build made from a page is tagged `liquipedia`, then `imported`
/// (`needs-review` when its variant has no steps), then the page's
/// difficulty (`beginner`, `intermediate` or `advanced`) as its last tag;
/// its tags hold one of those names exactly when the page has a difficulty.
pub proof fn lemma_page_builds_difficulty_tag(
    title: Seq<char>,
    page: PageView,
    revision_id: Option<i64>,
    stamps: Seq<Seq<char>>,
    i: int,
)
    requires
        0 <= i < page.variants.len(),
    ensures
        page_builds(title, page, revision_id, stamps)[i].difficulty == page.difficulty,
        page_builds(title, page, revision_id, stamps)[i].tags.len() == if page.difficulty is Some { 3int } else { 2int },
        page_builds(title, page, revision_id, stamps)[i].tags[0] == "liquipedia"@,
        page_builds(title, page, revision_id, stamps)[i].tags[1] == if page.variants[i].steps.len() > 0 {
            "imported"@
        } else {
            "needs-review"@
        },
        page.difficulty == Some(Difficulty::Beginner) ==> page_builds(title, page, revision_id, stamps)[i].tags.len() > 0
            && page_builds(title, page, revision_id, stamps)[i].tags.last() == "beginner"@,
        page.difficulty == Some(Difficulty::Intermediate) ==> page_builds(title, page, revision_id, stamps)[i].tags.len() > 0
            && page_builds(title, page, revision_id, stamps)[i].tags.last() == "intermediate"@,
        page.difficulty == Some(Difficulty::Advanced) ==> page_builds(title, page, revision_id, stamps)[i].tags.len() > 0
            && page_builds(title, page, revision_id, stamps)[i].tags.last() == "advanced"@,
        (exists|k: int|
            0 <= k < page_builds(title, page, revision_id, stamps)[i].tags.len() && {
                let t = #[trigger] page_builds(title, page, revision_id, stamps)[i].tags[k];
                t == "beginner"@ || t == "intermediate"@ || t == "advanced"@
            }) <==> page.difficulty is Some,
{
    reveal_strlit("beginner");
    reveal_strlit("intermediate");
    reveal_strlit("advanced");
    reveal_strlit("liquipedia");
    reveal_strlit("imported");
    reveal_strlit("needs-review");
    let vs = page.variants;
    let b = page_builds(title, page, revision_id, stamps)[i];
    let v = renamed_variant(vs, vs[i]);
    assert(b.tags == import_tags(page, v));
    let tags = b.tags;
    assert("liquipedia"@[0] == 'l');
    assert("imported"@[0] == 'i');
    assert("needs-review"@[0] == 'n');
    assert("beginner"@[0] == 'b');
    assert("intermediate"@[0] == 'i');
    assert("intermediate"@.len() == 12);
    assert("imported"@.len() == 8);
    assert("advanced"@[0] == 'a');
    assert("needs-review"@.len() == 12);
    assert("intermediate"@[1] == 'n');
    assert("needs-review"@[1] == 'e');
    assert(tags[0] == "liquipedia"@);
    assert(tags[1] == "imported"@ || tags[1] == "needs-review"@);
    match page.difficulty {
        Some(d) => {
            let k = 2int;
            assert(tags[k] == difficulty_tag(d));
        },
        None => {
            assert(tags.len() == 2);
            assert forall|k: int| 0 <= k < tags.len() implies !({
                let t = #[trigger] tags[k];
                t == "beginner"@ || t == "intermediate"@ || t == "advanced"@
            }) by {
                if k == 0 {
                    assert(tags[k][0] == 'l');
                } else {
                    assert(tags[k][0] == 'i' || tags[k][0] == 'n');
                    if tags[k] == "intermediate"@ {
                        assert(tags[k].len() == 12);
                        assert(tags[k] == "needs-review"@);
                        assert(false);
                    }
                }
            }
        },
    }
}

pub open spec fn stamps_of(bs: Seq<Build>) -> Seq<Seq<char>> {
    bs.map_values(|b: Build| import_stamp(b@))
}

fn count_name(keys: &Vec<String>, key: &String) -> (r: usize)
    ensures
        r as nat == keys_count(strs_view(keys@), key@),
{
    let n = keys.len();
    let mut c: usize = 0;
    let mut i: usize = 0;
    while i < n
        invariant
            n == keys@.len(),
            i <= n,
            c as nat == keys_count(strs_view(keys@).take(i as int), key@),
            c <= i,
        decreases n - i,
    {
        assert(strs_view(keys@).take(i + 1).drop_last() =~= strs_view(keys@).take(i as int));
        if str_eq(keys[i].as_str(), key.as_str()) {
            c = c + 1;
        }
        i = i + 1;
    }
    assert(strs_view(keys@).take(n as int) =~= strs_view(keys@));
    c
}

pub open spec fn keys_count(keys: Seq<Seq<char>>, key: Seq<char>) -> nat
    decreases keys.len(),
{
    if keys.len() == 0 {
        0
    } else {
        keys_count(keys.drop_last(), key) + (if keys.last() == key {
            1nat
        } else {
            0nat
        })
    }
}

proof fn lemma_name_count_keys(vs: Seq<VariantView>, keys: Seq<Seq<char>>, key: Seq<char>)
    requires
        keys.len() == vs.len(),
        forall|i: int| 0 <= i < vs.len() ==> keys[i] == lowercase(#[trigger] vs[i].variant_name),
    ensures
        keys_count(keys, key) == name_count(vs, key),
    decreases vs.len(),
{
    if vs.len() > 0 {
        lemma_name_count_keys(vs.drop_last(), keys.drop_last(), key);
    }
}

/// The builds of a parsed page, each stamped with the time it was made.
pub fn builds_from_page(page_title: &str, parsed: &ParsedLiquipediaPage, revision_id: Option<i64>) -> (r: Vec<Build>)
    ensures
        builds_view(r@) == page_builds(page_title@, parsed@, revision_id, stamps_of(r@)),
        forall|i: int| 0 <= i < r@.len() ==> iso_stamp_shape(#[trigger] stamps_of(r@)[i]),
{
    let ghost vs = parsed@.variants;
    let n = parsed.variants.len();
    let mut keys: Vec<String> = Vec::new();
    let mut i: usize = 0;
    while i < n
        invariant
            n == parsed.variants@.len() == vs.len(),
            vs == variants_view(parsed.variants@),
            i <= n,
            keys@.len() == i,
            forall|k: int| 0 <= k < i ==> #[trigger] keys@[k]@ == lowercase(vs[k].variant_name),
        decreases n - i,
    {
        keys.push(to_lowercase(parsed.variants[i].variant_name.as_str()));
        i = i + 1;
    }
    proof {
        assert forall|key: Seq<char>| keys_count(strs_view(keys@), key) == name_count(vs, key) by {
            lemma_name_count_keys(vs, strs_view(keys@), key);
        }
    }
    let mut out: Vec<Build> = Vec::new();
    let mut i: usize = 0;
    while i < n
        invariant
            n == parsed.variants@.len() == vs.len() == keys@.len(),
            vs == variants_view(parsed.variants@),
            forall|k: int| 0 <= k < n ==> #[trigger] keys@[k]@ == lowercase(vs[k].variant_name),
            forall|key: Seq<char>| keys_count(strs_view(keys@), key) == name_count(vs, key),
            i <= n,
            out@.len() == i,
            forall|k: int| 0 <= k < i ==> iso_stamp_shape(import_stamp(#[trigger] out@[k]@)),
            forall|k: int|
                0 <= k < i ==> #[trigger] out@[k]@ == variant_build(
                    page_title@,
                    parsed@,
                    renamed_variant(vs, vs[k]),
                    revision_id,
                    import_stamp(out@[k]@),
                ),
        decreases n - i,
    {
        let v = &parsed.variants[i];
        let cnt = count_name(&keys, &keys[i]);
        let renamed = if cnt > 1 && v.heading.is_some() {
            ParsedVariant {
                variant_name: match &v.heading {
                    Some(h) => copy_string(h),
                    None => String::new(),
                },
                heading: copy_opt_string(&v.heading),
                steps: copy_strings(&v.steps),
            }
        } else {
            ParsedVariant {
                variant_name: copy_string(&v.variant_name),
                heading: copy_opt_string(&v.heading),
                steps: copy_strings(&v.steps),
            }
        };
        assert(renamed@ == renamed_variant(vs, vs[i as int]));
        let b = build_from_variant(page_title, parsed, &renamed, revision_id);
        out.push(b);
        i = i + 1;
    }
    if out.len() > 1 {
        let parent_id = copy_string(&out[0].id);
        let mut k: usize = 1;
        while k < n
            invariant
                n == out@.len(),
                n > 1,
                1 <= k <= n,
                parent_id@ == out@[0]@.id,
                forall|j: int| 0 <= j < n ==> iso_stamp_shape(import_stamp(#[trigger] out@[j]@)),
                forall|j: int|
                    0 <= j < n ==> import_stamp(#[trigger] out@[j]@) == import_stamp(
                        variant_build(page_title@, parsed@, renamed_variant(vs, vs[j]), revision_id, import_stamp(out@[j]@)),
                    ),
                out@[0]@ == variant_build(page_title@, parsed@, renamed_variant(vs, vs[0]), revision_id, import_stamp(out@[0]@)),
                forall|j: int|
                    k <= j < n ==> #[trigger] out@[j]@ == variant_build(
                        page_title@,
                        parsed@,
                        renamed_variant(vs, vs[j]),
                        revision_id,
                        import_stamp(out@[j]@),
                    ),
                forall|j: int|
                    1 <= j < k ==> #[trigger] out@[j]@ == as_variant_of(
                        variant_build(
                            page_title@,
                            parsed@,
                            renamed_variant(vs, vs[j]),
                            revision_id,
                            import_stamp(out@[j]@),
                        ),
                        parent_id@,
                    ),
            decreases n - k,
        {
            let mut b = out[k].duplicate();
            b.variant_of = Some(copy_string(&parent_id));
            out.set(k, b);
            k = k + 1;
        }
    }
    assert(builds_view(out@) =~= page_builds(page_title@, parsed@, revision_id, stamps_of(out@)));
    out
}


// ---------------------------------------------------------------------------
// Merging imported builds into the stored ones
// ---------------------------------------------------------------------------

/// A stored build stands for an imported one: both come from the same
/// (non-empty) page title under the same name, or they share the id.
pub open spec fn same_entry(existing: BuildView, imported: BuildView) -> bool {
    ||| (existing.source_page_title is Some && imported.source_page_title is Some
        && existing.source_page_title.unwrap().len() > 0
        && imported.source_page_title.unwrap().len() > 0
        && existing.source_page_title == imported.source_page_title && existing.name
        == imported.name)
    ||| existing.id == imported.id
}

/// The first stored build at or after `i` that stands for `imported`.
pub open spec fn first_entry_from(bs: Seq<BuildView>, imported: BuildView, i: int) -> Option<int>
    decreases bs.len() - i,
{
    if i < 0 || i >= bs.len() {
        None
    } else if same_entry(bs[i], imported) {
        Some(i)
    } else {
        first_entry_from(bs, imported, i + 1)
    }
}

pub open spec fn first_entry(bs: Seq<BuildView>, imported: BuildView) -> Option<int> {
    first_entry_from(bs, imported, 0)
}

/// The imported build, keeping the stored build's id, custom-edit flag,
/// favourite flag, user notes and recent-use stamp.
pub open spec fn refreshed_entry(existing: BuildView, imported: BuildView) -> BuildView {
    BuildView {
        id: existing.id,
        custom_edited: existing.custom_edited,
        favorite: existing.favorite,
        user_notes: existing.user_notes,
        recently_used_at: existing.recently_used_at,
        ..imported
    }
}

/// Merging one imported build: appended when nothing stands for it;
/// otherwise left alone unless updating is asked for and the stored build
/// is not custom-edited, in which case it is refreshed in place.
pub open spec fn merge_outcome(bs: Seq<BuildView>, imported: BuildView, update_existing: bool) -> (
    Seq<BuildView>,
    ImportMergeResult,
) {
    match first_entry(bs, imported) {
        None => (bs.push(imported), ImportMergeResult::Added),
        Some(p) => if !update_existing {
            (bs, ImportMergeResult::Skipped)
        } else if bs[p].custom_edited {
            (bs, ImportMergeResult::SkippedCustom)
        } else {
            (bs.update(p, refreshed_entry(bs[p], imported)), ImportMergeResult::Updated)
        },
    }
}

fn opt_str_eq(a: &Option<String>, b: &Option<String>) -> (r: bool)
    ensures
        r == (opt_view(*a) == opt_view(*b)),
{
    match (a, b) {
        (Some(x), Some(y)) => str_eq(x.as_str(), y.as_str()),
        (None, None) => true,
        _ => false,
    }
}

fn same_entry_exec(existing: &Build, imported: &Build) -> (r: bool)
    ensures
        r == same_entry(existing@, imported@),
{
    let same_source = match (&existing.source_page_title, &imported.source_page_title) {
        (Some(a), Some(b)) => chars_of(a.as_str()).len() > 0 && chars_of(b.as_str()).len() > 0
            && str_eq(a.as_str(), b.as_str()) && str_eq(existing.name.as_str(), imported.name.as_str()),
        _ => false,
    };
    same_source || str_eq(existing.id.as_str(), imported.id.as_str())
}

fn find_entry(builds: &Vec<Build>, imported: &Build) -> (r: Option<usize>)
    ensures
        match r {
            Some(p) => first_entry(builds_view(builds@), imported@) == Some(p as int) && p < builds@.len(),
            None => first_entry(builds_view(builds@), imported@) is None,
        },
{
    let ghost bs = builds_view(builds@);
    let n = builds.len();
    let mut i: usize = 0;
    while i < n
        invariant
            n == builds@.len(),
            bs == builds_view(builds@),
            i <= n,
            first_entry(bs, imported@) == first_entry_from(bs, imported@, i as int),
        decreases n - i,
    {
        if same_entry_exec(&builds[i], imported) {
            return Some(i);
        }
        i = i + 1;
    }
    None
}

pub open spec fn data_builds(d: BuildsData) -> Seq<BuildView> {
    builds_view(d.builds@)
}

/// Merges one imported build into the stored builds.
pub fn merge_build(data: &mut BuildsData, imported: Build, update_existing: bool) -> (r: ImportMergeResult)
    ensures
        (data_builds(*final(data)), r) == merge_outcome(data_builds(*old(data)), imported@, update_existing),
        final(data).version == old(data).version,
        final(data).last_updated@ == old(data).last_updated@,
{
    let ghost bs = data_builds(*data);
    let position = match find_entry(&data.builds, &imported) {
        None => {
            data.builds.push(imported);
            assert(data_builds(*data) =~= bs.push(imported@));
            return ImportMergeResult::Added;
        },
        Some(p) => p,
    };
    if !update_existing {
        return ImportMergeResult::Skipped;
    }
    if data.builds[position].custom_edited {
        return ImportMergeResult::SkippedCustom;
    }
    let existing = &data.builds[position];
    let mut next = imported;
    next.id = copy_string(&existing.id);
    next.custom_edited = existing.custom_edited;
    next.favorite = existing.favorite;
    next.user_notes = copy_string(&existing.user_notes);
    next.recently_used_at = copy_opt_string(&existing.recently_used_at);
    let ghost nv = next@;
    assert(nv == refreshed_entry(bs[position as int], imported@));
    data.builds.set(position, next);
    assert(data_builds(*data) =~= bs.update(position as int, nv));
    ImportMergeResult::Updated
}

/// Merging several imported builds in turn: the stored builds after each
/// merge and the result of each.
pub open spec fn merge_all(bs: Seq<BuildView>, imported: Seq<BuildView>, update_existing: bool) -> (
    Seq<BuildView>,
    Seq<ImportMergeResult>,
)
    decreases imported.len(),
{
    if imported.len() == 0 {
        (bs, Seq::empty())
    } else {
        let (before, results) = merge_all(bs, imported.drop_last(), update_existing);
        let (after, r) = merge_outcome(before, imported.last(), update_existing);
        (after, results.push(r))
    }
}

/// Merges a page's builds into the stored builds, one after the other.
pub fn merge_builds(data: &mut BuildsData, builds: &Vec<Build>, update_existing: bool) -> (r: Vec<ImportMergeResult>)
    ensures
        (data_builds(*final(data)), r@) == merge_all(data_builds(*old(data)), builds_view(builds@), update_existing),
        final(data).version == old(data).version,
        final(data).last_updated@ == old(data).last_updated@,
{
    let ghost start = data_builds(*data);
    let ghost imports = builds_view(builds@);
    let mut results: Vec<ImportMergeResult> = Vec::new();
    let n = builds.len();
    let mut i: usize = 0;
    while i < n
        invariant
            n == builds@.len(),
            imports == builds_view(builds@),
            i <= n,
            (data_builds(*data), results@) == merge_all(start, imports.take(i as int), update_existing),
            data.version == old(data).version,
            data.last_updated@ == old(data).last_updated@,
        decreases n - i,
    {
        assert(imports.take(i + 1).drop_last() =~= imports.take(i as int));
        assert(imports.take(i + 1).last() == builds@[i as int]@);
        let r = merge_build(data, builds[i].duplicate(), update_existing);
        results.push(r);
        i = i + 1;
    }
    assert(imports.take(n as int) =~= imports);
    results
}

// ---------------------------------------------------------------------------
// Laws of merging
// ---------------------------------------------------------------------------

proof fn lemma_first_entry_from_bounds(bs: Seq<BuildView>, imported: BuildView, i: int)
    requires
        0 <= i,
    ensures
        match first_entry_from(bs, imported, i) {
            Some(p) => i <= p < bs.len() && same_entry(bs[p], imported) && forall|k: int|
                i <= k < p ==> !same_entry(#[trigger] bs[k], imported),
            None => forall|k: int| i <= k < bs.len() ==> !same_entry(#[trigger] bs[k], imported),
        },
    decreases bs.len() - i,
{
    if i < bs.len() && !same_entry(bs[i], imported) {
        lemma_first_entry_from_bounds(bs, imported, i + 1);
    }
}

proof fn lemma_first_entry_char(bs: Seq<BuildView>, imported: BuildView, p: int)
    requires
        0 <= p < bs.len(),
        same_entry(bs[p], imported),
        forall|k: int| 0 <= k < p ==> !same_entry(#[trigger] bs[k], imported),
    ensures
        first_entry(bs, imported) == Some(p),
{
    lemma_first_entry_from_bounds(bs, imported, 0);
    match first_entry(bs, imported) {
        Some(q) => {
            if q < p {
                assert(!same_entry(bs[q], imported));
            }
            if p < q {
                assert(!same_entry(bs[p], imported));
            }
        },
        None => {
            assert(!same_entry(bs[p], imported));
        },
    }
}

/// Merging never loses a stored build: every stored build keeps its place
/// and its id, and at most one build is added, at the end.
pub proof fn lemma_merge_keeps_stored(bs: Seq<BuildView>, imported: BuildView, update_existing: bool)
    ensures
        ({
            let (after, r) = merge_outcome(bs, imported, update_existing);
            &&& after.len() == bs.len() + (if r == ImportMergeResult::Added {
                1int
            } else {
                0int
            })
            &&& forall|k: int| 0 <= k < bs.len() ==> (#[trigger] after[k]).id == bs[k].id
            &&& r == ImportMergeResult::Added ==> after.last() == imported
        }),
{
    lemma_first_entry_from_bounds(bs, imported, 0);
}

/// A refreshed build keeps what belongs to the user (favourite, notes,
/// recent use, id) and takes everything else from the import; skipped
/// merges change nothing, and custom-edited builds are never refreshed.
pub proof fn lemma_merge_preserves_user_fields(bs: Seq<BuildView>, imported: BuildView, update_existing: bool)
    ensures
        ({
            let (after, r) = merge_outcome(bs, imported, update_existing);
            &&& (r == ImportMergeResult::Skipped || r == ImportMergeResult::SkippedCustom) ==> after == bs
            &&& r == ImportMergeResult::Updated ==> update_existing && exists|p: int|
                0 <= p < bs.len() && !bs[p].custom_edited && after == bs.update(
                    p,
                    refreshed_entry(bs[p], imported),
                ) && same_entry(#[trigger] bs[p], imported)
            &&& forall|k: int|
                0 <= k < bs.len() && bs[k].custom_edited ==> #[trigger] after[k] == bs[k]
        }),
{
    lemma_first_entry_from_bounds(bs, imported, 0);
}

/// Merging the same import twice leaves the stored builds as merging it
/// once does.
pub proof fn lemma_merge_idempotent(bs: Seq<BuildView>, imported: BuildView, update_existing: bool)
    ensures
        merge_outcome(merge_outcome(bs, imported, update_existing).0, imported, update_existing).0
            == merge_outcome(bs, imported, update_existing).0,
{
    lemma_first_entry_from_bounds(bs, imported, 0);
    let (after, r) = merge_outcome(bs, imported, update_existing);
    match first_entry(bs, imported) {
        None => {
            let p = bs.len() as int;
            assert(after[p] == imported);
            assert(same_entry(after[p], imported));
            assert forall|k: int| 0 <= k < p implies !same_entry(#[trigger] after[k], imported) by {
                assert(after[k] == bs[k]);
            }
            lemma_first_entry_char(after, imported, p);
            assert(refreshed_entry(imported, imported) =~= imported);
            assert(after.update(p, refreshed_entry(after[p], imported)) =~= after);
        },
        Some(p) => {
            if update_existing && !bs[p].custom_edited {
                let e = refreshed_entry(bs[p], imported);
                assert(after[p] == e);
                assert forall|k: int| 0 <= k < p implies !same_entry(#[trigger] after[k], imported) by {
                    assert(after[k] == bs[k]);
                }
                // the refreshed build still stands for the import
                if bs[p].id == imported.id {
                    assert(e.id == imported.id);
                } else {
                    assert(e.source_page_title == imported.source_page_title);
                    assert(e.name == imported.name);
                }
                assert(same_entry(after[p], imported));
                lemma_first_entry_char(after, imported, p);
                assert(refreshed_entry(e, imported) =~= e);
                assert(after.update(p, refreshed_entry(after[p], imported)) =~= after);
            }
        },
    }
}


// ---------------------------------------------------------------------------
// Single-page import
// ---------------------------------------------------------------------------

pub open spec fn fetched_page_view(page: PageWikitext) -> PageView {
    page_of(page.page_title@, page.wikitext@)
}

/// The builds a fetched page previews as (nothing is stored).
pub fn preview_page(page: &PageWikitext) -> (r: Vec<Build>)
    ensures
        builds_view(r@) == page_builds(page.page_title@, fetched_page_view(*page), page.revision_id, stamps_of(r@)),
        forall|i: int| 0 <= i < r@.len() ==> iso_stamp_shape(#[trigger] stamps_of(r@)[i]),
{
    let parsed = parse_liquipedia_page(page.page_title.as_str(), page.wikitext.as_str());
    builds_from_page(page.page_title.as_str(), &parsed, page.revision_id)
}

/// Imports the builds of a fetched page into the stored builds.
pub fn import_page(data: &mut BuildsData, page: &PageWikitext, update_existing: bool) -> (r: ImportSinglePageResult)
    ensures
        builds_view(r.added_or_updated@) == page_builds(
            page.page_title@,
            fetched_page_view(*page),
            page.revision_id,
            stamps_of(r.added_or_updated@),
        ),
        (data_builds(*final(data)), r.results@) == merge_all(
            data_builds(*old(data)),
            builds_view(r.added_or_updated@),
            update_existing,
        ),
        r.page_title@ == page.page_title@,
        r.total_variants == r.added_or_updated@.len(),
        final(data).version == old(data).version,
        final(data).last_updated@ == old(data).last_updated@,
{
    let builds = preview_page(page);
    let results = merge_builds(data, &builds, update_existing);
    let total = builds.len();
    ImportSinglePageResult {
        page_title: copy_string(&page.page_title),
        added_or_updated: builds,
        results,
        total_variants: total,
    }
}

// ---------------------------------------------------------------------------
// Bulk import: category walks
// ---------------------------------------------------------------------------

/// The namespace of category pages.
pub const CATEGORY_NAMESPACE: i64 = 14;

/// The namespace of articles.
pub const ARTICLE_NAMESPACE: i64 = 0;

pub const RE_CATEGORY_PREFIX: &'static str = r"(?i)^Category:";

/// Nested categories worth walking for a race: their title names the
/// race, a matchup prefix, or builds.
pub open spec fn nested_pattern(race: Race) -> Seq<char> {
    "(?i)"@ + race_name(race) + "|Pv|Tv|Zv|Build"@
}

fn nested_pattern_exec(race: Race) -> (r: String)
    ensures
        r@ == nested_pattern(race),
{
    let mut p = string_from("(?i)");
    push_str(&mut p, race.as_str());
    push_str(&mut p, "|Pv|Tv|Zv|Build");
    p
}

/// Where a walk of a race's categories stands: categories still to read
/// (the last one is read next), categories already read, and the article
/// titles found so far.
pub struct CategoryWalk {
    pub race: Race,
    pub queue: Vec<String>,
    pub seen_categories: Vec<String>,
    pub seen_pages: Vec<String>,
}

pub struct WalkView {
    pub race: Race,
    pub queue: Seq<Seq<char>>,
    pub seen_categories: Seq<Seq<char>>,
    pub seen_pages: Seq<Seq<char>>,
}

impl View for CategoryWalk {
    type V = WalkView;

    open spec fn view(&self) -> WalkView {
        WalkView {
            race: self.race,
            queue: strs_view(self.queue@),
            seen_categories: strs_view(self.seen_categories@),
            seen_pages: strs_view(self.seen_pages@),
        }
    }
}

/// The walk's state after a category's members are read: sub-categories
/// whose title fits the race are queued, articles are added to the found
/// titles once each.
pub open spec fn absorb_member(w: WalkView, m: (i64, Seq<char>)) -> WalkView {
    let (ns, title) = m;
    if ns == CATEGORY_NAMESPACE && is_match(RE_CATEGORY_PREFIX@, title) {
        if is_match(nested_pattern(w.race), title) {
            WalkView { queue: w.queue.push(title), ..w }
        } else {
            w
        }
    } else if ns == ARTICLE_NAMESPACE {
        if w.seen_pages.contains(title) {
            w
        } else {
            WalkView { seen_pages: w.seen_pages.push(title), ..w }
        }
    } else {
        w
    }
}

pub open spec fn absorb_members(w: WalkView, ms: Seq<(i64, Seq<char>)>) -> WalkView
    decreases ms.len(),
{
    if ms.len() == 0 {
        w
    } else {
        absorb_member(absorb_members(w, ms.drop_last()), ms.last())
    }
}

pub open spec fn members_view(ms: Seq<LiquipediaCategoryMember>) -> Seq<(i64, Seq<char>)> {
    ms.map_values(|m: LiquipediaCategoryMember| (m.ns, m.title@))
}

/// The next category to read: queued categories already read are dropped
/// from the end of the queue; the first unread one is taken and marked as
/// read.
pub open spec fn next_category_of(w: WalkView) -> (WalkView, Option<Seq<char>>)
    decreases w.queue.len(),
{
    if w.queue.len() == 0 {
        (w, None)
    } else {
        let c = w.queue.last();
        let popped = WalkView { queue: w.queue.drop_last(), ..w };
        if w.seen_categories.contains(c) {
            next_category_of(popped)
        } else {
            (WalkView { seen_categories: w.seen_categories.push(c), ..popped }, Some(c))
        }
    }
}

/// A walk never reads a category twice: the category it takes next was not
/// read before, and it is the only one added to those read; the articles
/// found stay as they were.
pub proof fn lemma_next_category_fresh(w: WalkView)
    ensures
        next_category_of(w).1 matches Some(c) ==> !w.seen_categories.contains(c)
            && next_category_of(w).0.seen_categories == w.seen_categories.push(c),
        next_category_of(w).1 is None ==> next_category_of(w).0.seen_categories == w.seen_categories,
        next_category_of(w).0.seen_pages == w.seen_pages,
        next_category_of(w).0.race == w.race,
    decreases w.queue.len(),
{
    if w.queue.len() > 0 {
        let c = w.queue.last();
        let popped = WalkView { queue: w.queue.drop_last(), ..w };
        if w.seen_categories.contains(c) {
            lemma_next_category_fresh(popped);
        }
    }
}

fn strings_contain(v: &Vec<String>, s: &String) -> (r: bool)
    ensures
        r == strs_view(v@).contains(s@),
{
    let n = v.len();
    let mut i: usize = 0;
    while i < n
        invariant
            n == v@.len(),
            i <= n,
            forall|k: int| 0 <= k < i ==> strs_view(v@)[k] != s@,
        decreases n - i,
    {
        if str_eq(v[i].as_str(), s.as_str()) {
            assert(strs_view(v@)[i as int] == s@);
            return true;
        }
        i = i + 1;
    }
    false
}

impl CategoryWalk {
    /// A walk that starts at the race's root categories.
    pub fn new(race: Race) -> (w: CategoryWalk)
        ensures
            w@ == (WalkView { race, queue: race_roots_of(race), seen_categories: Seq::empty(), seen_pages: Seq::empty() }),
    {
        let roots = race_roots(race);
        let mut queue: Vec<String> = Vec::new();
        queue.push(string_from(roots[0]));
        queue.push(string_from(roots[1]));
        queue.push(string_from(roots[2]));
        assert(strs_view(queue@) =~= race_roots_of(race));
        let w = CategoryWalk { race, queue, seen_categories: Vec::new(), seen_pages: Vec::new() };
        assert(strs_view(w.seen_categories@) =~= Seq::<Seq<char>>::empty());
        assert(strs_view(w.seen_pages@) =~= Seq::<Seq<char>>::empty());
        w
    }

    /// Takes the next category to read, if any is left.
    pub fn next_category(&mut self) -> (r: Option<String>)
        ensures
            (final(self)@, opt_view(r)) == next_category_of(old(self)@),
    {
        while self.queue.len() > 0
            invariant
                next_category_of(self@) == next_category_of(old(self)@),
            decreases self.queue@.len(),
        {
            let ghost before = self@;
            let c = self.queue.pop().unwrap();
            assert(strs_view(self.queue@) =~= before.queue.drop_last());
            if !strings_contain(&self.seen_categories, &c) {
                let copy = copy_string(&c);
                self.seen_categories.push(c);
                assert(strs_view(self.seen_categories@) =~= before.seen_categories.push(copy@));
                return Some(copy);
            }
        }
        None
    }

    /// Reads the members of a category.
    pub fn add_members(&mut self, members: &Vec<LiquipediaCategoryMember>)
        ensures
            final(self)@ == absorb_members(old(self)@, members_view(members@)),
    {
        let ghost ms = members_view(members@);
        let pattern = nested_pattern_exec(self.race);
        let n = members.len();
        let mut i: usize = 0;
        while i < n
            invariant
                n == members@.len(),
                ms == members_view(members@),
                pattern@ == nested_pattern(self.race),
                self.race == old(self).race,
                i <= n,
                self@ == absorb_members(old(self)@, ms.take(i as int)),
            decreases n - i,
        {
            assert(ms.take(i + 1).drop_last() =~= ms.take(i as int));
            let m = &members[i];
            let ghost before = self@;
            if m.ns == CATEGORY_NAMESPACE && is_match_str(RE_CATEGORY_PREFIX, m.title.as_str()) {
                if is_match_str(pattern.as_str(), m.title.as_str()) {
                    self.queue.push(copy_string(&m.title));
                    assert(strs_view(self.queue@) =~= before.queue.push(m.title@));
                }
            } else if m.ns == ARTICLE_NAMESPACE {
                if !strings_contain(&self.seen_pages, &m.title) {
                    self.seen_pages.push(copy_string(&m.title));
                    assert(strs_view(self.seen_pages@) =~= before.seen_pages.push(m.title@));
                }
            }
            i = i + 1;
        }
        assert(ms.take(n as int) =~= ms);
    }

    /// The articles found so far, in ascending order, each once.
    pub fn pages(&self) -> (r: Vec<String>)
        ensures
            strictly_sorted(strs_view(r@)),
            forall|t: Seq<char>|
                #![trigger strs_view(r@).contains(t)]
                strs_view(r@).contains(t) <==> self@.seen_pages.contains(t),
    {
        sorted_unique(&self.seen_pages)
    }
}

// ---------------------------------------------------------------------------
// Bulk import: selection and tally
// ---------------------------------------------------------------------------

/// The races a bulk import walks: those asked for, or Protoss alone.
pub open spec fn bulk_races_of(races: Seq<Race>) -> Seq<Race> {
    if races.len() == 0 {
        seq![Race::Protoss]
    } else {
        races
    }
}

pub fn bulk_races(options: &BulkImportOptions) -> (r: Vec<Race>)
    ensures
        r@ == bulk_races_of(options.races@),
{
    if options.races.len() == 0 {
        let mut v: Vec<Race> = Vec::new();
        v.push(Race::Protoss);
        assert(v@ =~= seq![Race::Protoss]);
        v
    } else {
        let mut v: Vec<Race> = Vec::new();
        let n = options.races.len();
        let mut i: usize = 0;
        while i < n
            invariant
                n == options.races@.len(),
                i <= n,
                v@ == options.races@.take(i as int),
            decreases n - i,
        {
            v.push(options.races[i]);
            assert(options.races@.take(i + 1) =~= options.races@.take(i as int).push(options.races@[i as int]));
            i = i + 1;
        }
        assert(options.races@.take(n as int) =~= options.races@);
        v
    }
}

pub open spec fn found_view(v: Seq<(Race, String)>) -> Seq<(Race, Seq<char>)> {
    v.map_values(|p: (Race, String)| (p.0, p.1@))
}

/// Some earlier entry has this title.
pub open spec fn title_listed(s: Seq<(Race, Seq<char>)>, t: Seq<char>) -> bool {
    exists|j: int| 0 <= j < s.len() && #[trigger] s[j].1 == t
}

/// The found titles, each kept at its first occurrence only.
pub open spec fn first_titles(s: Seq<(Race, Seq<char>)>) -> Seq<(Race, Seq<char>)>
    decreases s.len(),
{
    if s.len() == 0 {
        s
    } else {
        let kept = first_titles(s.drop_last());
        if title_listed(s.drop_last(), s.last().1) {
            kept
        } else {
            kept.push(s.last())
        }
    }
}

/// The entries whose title is one of the common builds.
pub open spec fn common_only(s: Seq<(Race, Seq<char>)>) -> Seq<(Race, Seq<char>)>
    decreases s.len(),
{
    if s.len() == 0 {
        s
    } else {
        let kept = common_only(s.drop_last());
        if is_common(s.last().1) {
            kept.push(s.last())
        } else {
            kept
        }
    }
}

/// The pages a bulk import fetches, out of the titles found in the order
/// the races were walked.
pub open spec fn selected_titles(s: Seq<(Race, Seq<char>)>, mode: BulkImportMode) -> Seq<(Race, Seq<char>)> {
    match mode {
        BulkImportMode::All => first_titles(s),
        BulkImportMode::Common => common_only(first_titles(s)),
    }
}

proof fn lemma_first_titles_listed(s: Seq<(Race, Seq<char>)>, t: Seq<char>)
    ensures
        title_listed(first_titles(s), t) <==> title_listed(s, t),
    decreases s.len(),
{
    if s.len() > 0 {
        let pre = s.drop_last();
        let last = s.last();
        lemma_first_titles_listed(pre, t);
        let kept = first_titles(pre);
        // listed in s <==> listed in pre, or the last title
        if title_listed(pre, t) {
            let j = choose|j: int| 0 <= j < pre.len() && #[trigger] pre[j].1 == t;
            assert(s[j].1 == t);
        }
        if title_listed(s, t) {
            let j = choose|j: int| 0 <= j < s.len() && #[trigger] s[j].1 == t;
            if j < pre.len() {
                assert(pre[j].1 == t);
            } else {
                assert(last.1 == t);
            }
        }
        assert(title_listed(s, t) <==> (title_listed(pre, t) || last.1 == t)) by {
            if last.1 == t {
                assert(s[s.len() - 1].1 == t);
            }
        }
        if title_listed(pre, last.1) {
            assert(first_titles(s) == kept);
            if last.1 == t {
                let j = choose|j: int| 0 <= j < pre.len() && #[trigger] pre[j].1 == last.1;
                assert(pre[j].1 == t);
            }
        } else {
            let out = kept.push(last);
            assert(first_titles(s) == out);
            if title_listed(kept, t) {
                let j = choose|j: int| 0 <= j < kept.len() && #[trigger] kept[j].1 == t;
                assert(out[j].1 == t);
            }
            if last.1 == t {
                assert(out[kept.len() as int].1 == t);
            }
            if title_listed(out, t) {
                let j = choose|j: int| 0 <= j < out.len() && #[trigger] out[j].1 == t;
                if j < kept.len() {
                    assert(kept[j].1 == t);
                } else {
                    assert(last.1 == t);
                }
            }
        }
    }
}

/// A bulk import fetches each found page once: the selected titles are
/// all different, and every found title is among them.
pub proof fn lemma_first_titles_once(s: Seq<(Race, Seq<char>)>)
    ensures
        forall|i: int, j: int|
            0 <= i < j < first_titles(s).len() ==> (#[trigger] first_titles(s)[i]).1 != (#[trigger] first_titles(s)[j]).1,
        forall|t: Seq<char>| #[trigger] title_listed(s, t) ==> title_listed(first_titles(s), t),
    decreases s.len(),
{
    if s.len() > 0 {
        let pre = s.drop_last();
        lemma_first_titles_once(pre);
        lemma_first_titles_listed(pre, s.last().1);
        let kept = first_titles(pre);
        if !title_listed(pre, s.last().1) {
            let out = kept.push(s.last());
            assert forall|i: int, j: int| 0 <= i < j < out.len() implies (#[trigger] out[i]).1 != (#[trigger] out[j]).1 by {
                if j == kept.len() {
                    assert(out[i] == kept[i]);
                    if kept[i].1 == s.last().1 {
                        assert(title_listed(kept, s.last().1));
                    }
                }
            }
        }
        assert forall|t: Seq<char>| #[trigger] title_listed(s, t) implies title_listed(first_titles(s), t) by {
            lemma_first_titles_listed(s, t);
        }
    }
}

fn title_in(v: &Vec<(Race, String)>, t: &String) -> (r: bool)
    ensures
        r == title_listed(found_view(v@), t@),
{
    let n = v.len();
    let mut i: usize = 0;
    while i < n
        invariant
            n == v@.len(),
            i <= n,
            forall|k: int| 0 <= k < i ==> (#[trigger] found_view(v@)[k]).1 != t@,
        decreases n - i,
    {
        if str_eq(v[i].1.as_str(), t.as_str()) {
            assert(found_view(v@)[i as int].1 == t@);
            return true;
        }
        i = i + 1;
    }
    false
}

/// Chooses the pages of a bulk import: each title once, at its first
/// occurrence, then only the common ones when asked; also gives how many
/// distinct titles were found.
pub fn select_titles(found: &Vec<(Race, String)>, mode: BulkImportMode) -> (r: (Vec<(Race, String)>, usize))
    ensures
        found_view(r.0@) == selected_titles(found_view(found@), mode),
        r.1 == first_titles(found_view(found@)).len(),
{
    let ghost s = found_view(found@);
    let mut unique: Vec<(Race, String)> = Vec::new();
    let n = found.len();
    let mut i: usize = 0;
    while i < n
        invariant
            n == found@.len(),
            s == found_view(found@),
            i <= n,
            found_view(unique@) == first_titles(s.take(i as int)),
        decreases n - i,
    {
        let ghost pre = s.take(i as int);
        assert(s.take(i + 1).drop_last() =~= pre);
        assert(s.take(i + 1).last() == s[i as int]);
        proof {
            lemma_first_titles_listed(pre, s[i as int].1);
        }
        if !title_in(&unique, &found[i].1) {
            let ghost before = found_view(unique@);
            unique.push((found[i].0, copy_string(&found[i].1)));
            assert(found_view(unique@) =~= before.push(s[i as int]));
        }
        i = i + 1;
    }
    assert(s.take(n as int) =~= s);
    let total = unique.len();
    match mode {
        BulkImportMode::All => (unique, total),
        BulkImportMode::Common => {
            let ghost u = found_view(unique@);
            let mut out: Vec<(Race, String)> = Vec::new();
            let m = unique.len();
            let mut k: usize = 0;
            while k < m
                invariant
                    m == unique@.len(),
                    u == found_view(unique@),
                    k <= m,
                    found_view(out@) == common_only(u.take(k as int)),
                decreases m - k,
            {
                assert(u.take(k + 1).drop_last() =~= u.take(k as int));
                assert(u.take(k + 1).last() == u[k as int]);
                if is_common_title(unique[k].1.as_str()) {
                    let ghost before = found_view(out@);
                    out.push((unique[k].0, copy_string(&unique[k].1)));
                    assert(found_view(out@) =~= before.push(u[k as int]));
                }
                k = k + 1;
            }
            assert(u.take(m as int) =~= u);
            (out, total)
        },
    }
}

/// The running counts of a bulk import.
pub struct BulkTally {
    pub added: u32,
    pub updated: u32,
    pub skipped: u32,
    pub failed: u32,
    pub variants_total: u32,
}

pub open spec fn count_results(rs: Seq<ImportMergeResult>, which: spec_fn(ImportMergeResult) -> bool) -> nat
    decreases rs.len(),
{
    if rs.len() == 0 {
        0
    } else {
        count_results(rs.drop_last(), which) + if which(rs.last()) { 1nat } else { 0nat }
    }
}

pub open spec fn is_added(r: ImportMergeResult) -> bool {
    r is Added
}

pub open spec fn is_updated(r: ImportMergeResult) -> bool {
    r is Updated
}

pub open spec fn is_skipped(r: ImportMergeResult) -> bool {
    r is Skipped || r is SkippedCustom
}

pub open spec fn added_results() -> spec_fn(ImportMergeResult) -> bool {
    |r: ImportMergeResult| is_added(r)
}

pub open spec fn updated_results() -> spec_fn(ImportMergeResult) -> bool {
    |r: ImportMergeResult| is_updated(r)
}

pub open spec fn skipped_results() -> spec_fn(ImportMergeResult) -> bool {
    |r: ImportMergeResult| is_skipped(r)
}

proof fn lemma_merge_all_len(bs: Seq<BuildView>, imported: Seq<BuildView>, update_existing: bool)
    ensures
        merge_all(bs, imported, update_existing).1.len() == imported.len(),
    decreases imported.len(),
{
    if imported.len() > 0 {
        lemma_merge_all_len(bs, imported.drop_last(), update_existing);
    }
}

proof fn lemma_count_results_bound(rs: Seq<ImportMergeResult>, which: spec_fn(ImportMergeResult) -> bool)
    ensures
        count_results(rs, which) <= rs.len(),
    decreases rs.len(),
{
    if rs.len() > 0 {
        lemma_count_results_bound(rs.drop_last(), which);
    }
}

impl BulkTally {
    /// All counts at zero.
    pub fn new() -> (t: BulkTally)
        ensures
            t.added == 0,
            t.updated == 0,
            t.skipped == 0,
            t.failed == 0,
            t.variants_total == 0,
    {
        BulkTally { added: 0, updated: 0, skipped: 0, failed: 0, variants_total: 0 }
    }

    /// Counts a page that could not be fetched.
    pub fn record_failure(&mut self)
        requires
            old(self).failed < u32::MAX,
        ensures
            final(self).failed == old(self).failed + 1,
            final(self).added == old(self).added,
            final(self).updated == old(self).updated,
            final(self).skipped == old(self).skipped,
            final(self).variants_total == old(self).variants_total,
    {
        self.failed = self.failed + 1;
    }

    /// Counts the variants of a fetched page and how each one was merged.
    pub fn record_page(&mut self, results: &Vec<ImportMergeResult>)
        requires
            old(self).variants_total + results@.len() <= u32::MAX,
            old(self).added + results@.len() <= u32::MAX,
            old(self).updated + results@.len() <= u32::MAX,
            old(self).skipped + results@.len() <= u32::MAX,
        ensures
            final(self).variants_total == old(self).variants_total + results@.len(),
            final(self).added == old(self).added + count_results(results@, added_results()),
            final(self).updated == old(self).updated + count_results(results@, updated_results()),
            final(self).skipped == old(self).skipped + count_results(results@, skipped_results()),
            final(self).failed == old(self).failed,
    {
        let ghost a = added_results();
        let ghost u = updated_results();
        let ghost k = skipped_results();
        let n = results.len();
        self.variants_total = self.variants_total + n as u32;
        let mut i: usize = 0;
        while i < n
            invariant
                n == results@.len(),
                i <= n,
                a == added_results(),
                u == updated_results(),
                k == skipped_results(),
                old(self).added + n <= u32::MAX,
                old(self).updated + n <= u32::MAX,
                old(self).skipped + n <= u32::MAX,
                self.variants_total == old(self).variants_total + n,
                self.failed == old(self).failed,
                self.added == old(self).added + count_results(results@.take(i as int), a),
                self.updated == old(self).updated + count_results(results@.take(i as int), u),
                self.skipped == old(self).skipped + count_results(results@.take(i as int), k),
            decreases n - i,
        {
            let ghost pre = results@.take(i as int);
            assert(results@.take(i + 1).drop_last() =~= pre);
            proof {
                lemma_count_results_bound(pre, a);
                lemma_count_results_bound(pre, u);
                lemma_count_results_bound(pre, k);
            }
            match results[i] {
                ImportMergeResult::Added => self.added = self.added + 1,
                ImportMergeResult::Updated => self.updated = self.updated + 1,
                ImportMergeResult::Skipped | ImportMergeResult::SkippedCustom => self.skipped = self.skipped + 1,
            }
            i = i + 1;
        }
        assert(results@.take(n as int) =~= results@);
    }

    /// The summary of a finished bulk import.
    pub fn finish(self, mode: BulkImportMode, races: Vec<Race>, selected: usize, total_discovered: usize) -> (r: BulkImportResult)
        ensures
            r.mode == mode,
            r.races@ == races@,
            r.selected == selected,
            r.total_discovered == total_discovered,
            r.added == self.added,
            r.updated == self.updated,
            r.skipped == self.skipped,
            r.failed == self.failed,
            r.variants_total == self.variants_total,
    {
        BulkImportResult {
            mode,
            races,
            selected,
            total_discovered,
            added: self.added,
            updated: self.updated,
            skipped: self.skipped,
            failed: self.failed,
            variants_total: self.variants_total,
        }
    }
}

/// How many builds a fetched page gives: one per variant.
pub open spec fn page_variant_count(page: PageWikitext) -> nat {
    fetched_page_view(page).variants.len()
}

/// The counts of a bulk import have room for one more page (or failure).
pub open spec fn bulk_step_fits(t: BulkTally, fetched: Result<PageWikitext, ApiError>) -> bool {
    match fetched {
        Err(_) => t.failed < u32::MAX,
        Ok(page) => {
            let n = page_variant_count(page);
            &&& t.variants_total + n <= u32::MAX
            &&& t.added + n <= u32::MAX
            &&& t.updated + n <= u32::MAX
            &&& t.skipped + n <= u32::MAX
        },
    }
}

/// One fetched page of a bulk import: its builds `fresh` are merged into
/// the stored builds one after the other, and each merge is counted.
pub open spec fn bulk_step_outcome(
    before: Seq<BuildView>,
    after: Seq<BuildView>,
    t0: BulkTally,
    t1: BulkTally,
    fresh: Seq<BuildView>,
    update_existing: bool,
) -> bool {
    let (merged, results) = merge_all(before, fresh, update_existing);
    &&& after == merged
    &&& t1.variants_total == t0.variants_total + fresh.len()
    &&& t1.added == t0.added + count_results(results, added_results())
    &&& t1.updated == t0.updated + count_results(results, updated_results())
    &&& t1.skipped == t0.skipped + count_results(results, skipped_results())
    &&& t1.failed == t0.failed
}

/// One page of a bulk import, once it was fetched (or the fetch failed): a
/// failed fetch is counted as a failure and changes no build; a fetched
/// page's builds are merged and counted.
pub fn bulk_step(
    data: &mut BuildsData,
    tally: &mut BulkTally,
    fetched: Result<PageWikitext, ApiError>,
    update_existing: bool,
)
    requires
        bulk_step_fits(*old(tally), fetched),
    ensures
        final(data).version == old(data).version,
        final(data).last_updated@ == old(data).last_updated@,
        match fetched {
            Err(_) => {
                &&& data_builds(*final(data)) == data_builds(*old(data))
                &&& final(tally).failed == old(tally).failed + 1
                &&& final(tally).added == old(tally).added
                &&& final(tally).updated == old(tally).updated
                &&& final(tally).skipped == old(tally).skipped
                &&& final(tally).variants_total == old(tally).variants_total
            },
            Ok(page) => exists|stamps: Seq<Seq<char>>|
                #![trigger page_builds(page.page_title@, fetched_page_view(page), page.revision_id, stamps)]
                bulk_step_outcome(
                    data_builds(*old(data)),
                    data_builds(*final(data)),
                    *old(tally),
                    *final(tally),
                    page_builds(page.page_title@, fetched_page_view(page), page.revision_id, stamps),
                    update_existing,
                ),
        },
{
    match fetched {
        Err(_) => {
            tally.record_failure();
        },
        Ok(page) => {
            let ghost before = data_builds(*data);
            let ghost t0 = *tally;
            let builds = preview_page(&page);
            let ghost stamps = stamps_of(builds@);
            let ghost fresh = builds_view(builds@);
            let results = merge_builds(data, &builds, update_existing);
            proof {
                lemma_merge_all_len(before, fresh, update_existing);
            }
            tally.record_page(&results);
            assert(bulk_step_outcome(before, data_builds(*data), t0, *tally, page_builds(
                page.page_title@,
                fetched_page_view(page),
                page.revision_id,
                stamps,
            ), update_existing));
        },
    }
}

} // verus!
