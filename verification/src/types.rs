//! Domain types shared across storage, the Liquipedia importer and the
//! command surface: races, builds, parse results and the result records of
//! import / update runs.

use vstd::prelude::*;

verus! {

#[derive(Debug, Clone, Copy, PartialEq, Eq, Hash, Structural)]
pub enum Race {
    Terran,
    Protoss,
    Zerg,
}

pub open spec fn race_initial_char(r: Race) -> char {
    match r {
        Race::Terran => 'T',
        Race::Protoss => 'P',
        Race::Zerg => 'Z',
    }
}

pub open spec fn race_name(r: Race) -> Seq<char> {
    match r {
        Race::Terran => "Terran"@,
        Race::Protoss => "Protoss"@,
        Race::Zerg => "Zerg"@,
    }
}

impl Race {
    pub fn initial(&self) -> (c: char)
        ensures
            c == race_initial_char(*self),
    {
        match self {
            Race::Terran => 'T',
            Race::Protoss => 'P',
            Race::Zerg => 'Z',
        }
    }

    pub fn as_str(&self) -> (s: &'static str)
        ensures
            s@ == race_name(*self),
    {
        match self {
            Race::Terran => "Terran",
            Race::Protoss => "Protoss",
            Race::Zerg => "Zerg",
        }
    }
}

#[derive(Debug, Clone, Copy, PartialEq, Eq, Hash, Structural)]
pub enum Opponent {
    Terran,
    Protoss,
    Zerg,
    Random,
}

pub open spec fn opponent_initial_char(o: Opponent) -> char {
    match o {
        Opponent::Terran => 'T',
        Opponent::Protoss => 'P',
        Opponent::Zerg => 'Z',
        Opponent::Random => 'R',
    }
}

pub open spec fn opponent_name(o: Opponent) -> Seq<char> {
    match o {
        Opponent::Terran => "Terran"@,
        Opponent::Protoss => "Protoss"@,
        Opponent::Zerg => "Zerg"@,
        Opponent::Random => "Random"@,
    }
}

impl Opponent {
    pub fn initial(&self) -> (c: char)
        ensures
            c == opponent_initial_char(*self),
    {
        match self {
            Opponent::Terran => 'T',
            Opponent::Protoss => 'P',
            Opponent::Zerg => 'Z',
            Opponent::Random => 'R',
        }
    }

    pub fn as_str(&self) -> (s: &'static str)
        ensures
            s@ == opponent_name(*self),
    {
        match self {
            Opponent::Terran => "Terran",
            Opponent::Protoss => "Protoss",
            Opponent::Zerg => "Zerg",
            Opponent::Random => "Random",
        }
    }
}

#[derive(Debug, Clone, Copy, PartialEq, Eq, Structural)]
pub enum Difficulty {
    Beginner,
    Intermediate,
    Advanced,
}

/// Race-or-Random helper used by the wikitext parser when normalising the
/// `R` from `PvR` etc. before deciding if it counts as a player race.
#[derive(Debug, Clone, Copy, PartialEq, Eq, Structural)]
pub enum RaceOrRandom {
    Race(Race),
    Random,
}


/// The view of an optional string.
pub open spec fn opt_view(o: Option<String>) -> Option<Seq<char>> {
    match o {
        Some(s) => Some(s@),
        None => None,
    }
}

/// The views of a list of strings.
pub open spec fn strs_view(v: Seq<String>) -> Seq<Seq<char>> {
    v.map_values(|s: String| s@)
}

/// The views of an optional list of strings.
pub open spec fn opt_strs_view(o: Option<Vec<String>>) -> Option<Seq<Seq<char>>> {
    match o {
        Some(v) => Some(strs_view(v@)),
        None => None,
    }
}

#[derive(Debug, Clone, Default)]
pub struct ParsedInfobox {
    pub name: Option<String>,
    pub race: Option<Race>,
    pub matchups: Option<Vec<String>>,
    pub creator: Option<String>,
    pub popularized: Option<String>,
}

pub struct InfoboxView {
    pub name: Option<Seq<char>>,
    pub race: Option<Race>,
    pub matchups: Option<Seq<Seq<char>>>,
    pub creator: Option<Seq<char>>,
    pub popularized: Option<Seq<char>>,
}

impl View for ParsedInfobox {
    type V = InfoboxView;

    open spec fn view(&self) -> InfoboxView {
        InfoboxView {
            name: opt_view(self.name),
            race: self.race,
            matchups: opt_strs_view(self.matchups),
            creator: opt_view(self.creator),
            popularized: opt_view(self.popularized),
        }
    }
}

pub open spec fn opt_infobox_view(o: Option<ParsedInfobox>) -> Option<InfoboxView> {
    match o {
        Some(b) => Some(b@),
        None => None,
    }
}

#[derive(Debug, Clone)]
pub struct ParsedVariant {
    pub variant_name: String,
    pub heading: Option<String>,
    pub steps: Vec<String>,
}

pub struct VariantView {
    pub variant_name: Seq<char>,
    pub heading: Option<Seq<char>>,
    pub steps: Seq<Seq<char>>,
}

impl View for ParsedVariant {
    type V = VariantView;

    open spec fn view(&self) -> VariantView {
        VariantView {
            variant_name: self.variant_name@,
            heading: opt_view(self.heading),
            steps: strs_view(self.steps@),
        }
    }
}

#[derive(Debug, Clone)]
pub struct ParsedLiquipediaPage {
    pub infobox: Option<ParsedInfobox>,
    pub player_race: Option<Race>,
    pub opponent: Option<Opponent>,
    pub difficulty: Option<Difficulty>,
    pub counters: Vec<String>,
    pub countered_by: Vec<String>,
    pub variants: Vec<ParsedVariant>,
}

pub open spec fn variants_view(v: Seq<ParsedVariant>) -> Seq<VariantView> {
    v.map_values(|x: ParsedVariant| x@)
}

pub struct PageView {
    pub infobox: Option<InfoboxView>,
    pub player_race: Option<Race>,
    pub opponent: Option<Opponent>,
    pub difficulty: Option<Difficulty>,
    pub counters: Seq<Seq<char>>,
    pub countered_by: Seq<Seq<char>>,
    pub variants: Seq<VariantView>,
}

impl View for ParsedLiquipediaPage {
    type V = PageView;

    open spec fn view(&self) -> PageView {
        PageView {
            infobox: opt_infobox_view(self.infobox),
            player_race: self.player_race,
            opponent: self.opponent,
            difficulty: self.difficulty,
            counters: strs_view(self.counters@),
            countered_by: strs_view(self.countered_by@),
            variants: variants_view(self.variants@),
        }
    }
}


#[derive(Debug, Clone)]
pub struct Build {
    pub id: String,
    pub race: Race,
    pub opponent: Opponent,
    pub matchup: String,
    pub name: String,
    pub variant_of: Option<String>,
    pub tags: Vec<String>,
    pub difficulty: Option<Difficulty>,
    pub source_name: String,
    pub source_url: String,
    pub source_page_title: Option<String>,
    pub notes: String,
    pub user_notes: String,
    pub custom_edited: bool,
    pub favorite: bool,
    pub recently_used_at: Option<String>,
    pub revision_id: Option<i64>,
    pub last_imported_at: Option<String>,
    pub last_checked_at: Option<String>,
    pub counters: Vec<String>,
    pub countered_by: Vec<String>,
    pub steps: Vec<String>,
}

pub struct BuildView {
    pub id: Seq<char>,
    pub race: Race,
    pub opponent: Opponent,
    pub matchup: Seq<char>,
    pub name: Seq<char>,
    pub variant_of: Option<Seq<char>>,
    pub tags: Seq<Seq<char>>,
    pub difficulty: Option<Difficulty>,
    pub source_name: Seq<char>,
    pub source_url: Seq<char>,
    pub source_page_title: Option<Seq<char>>,
    pub notes: Seq<char>,
    pub user_notes: Seq<char>,
    pub custom_edited: bool,
    pub favorite: bool,
    pub recently_used_at: Option<Seq<char>>,
    pub revision_id: Option<i64>,
    pub last_imported_at: Option<Seq<char>>,
    pub last_checked_at: Option<Seq<char>>,
    pub counters: Seq<Seq<char>>,
    pub countered_by: Seq<Seq<char>>,
    pub steps: Seq<Seq<char>>,
}

impl View for Build {
    type V = BuildView;

    open spec fn view(&self) -> BuildView {
        BuildView {
            id: self.id@,
            race: self.race,
            opponent: self.opponent,
            matchup: self.matchup@,
            name: self.name@,
            variant_of: opt_view(self.variant_of),
            tags: strs_view(self.tags@),
            difficulty: self.difficulty,
            source_name: self.source_name@,
            source_url: self.source_url@,
            source_page_title: opt_view(self.source_page_title),
            notes: self.notes@,
            user_notes: self.user_notes@,
            custom_edited: self.custom_edited,
            favorite: self.favorite,
            recently_used_at: opt_view(self.recently_used_at),
            revision_id: self.revision_id,
            last_imported_at: opt_view(self.last_imported_at),
            last_checked_at: opt_view(self.last_checked_at),
            counters: strs_view(self.counters@),
            countered_by: strs_view(self.countered_by@),
            steps: strs_view(self.steps@),
        }
    }
}

pub open spec fn builds_view(v: Seq<Build>) -> Seq<BuildView> {
    v.map_values(|b: Build| b@)
}

/// A copy of a string.
pub fn copy_string(s: &String) -> (r: String)
    ensures
        r@ == s@,
{
    s.clone()
}

/// A copy of an optional string.
pub fn copy_opt_string(s: &Option<String>) -> (r: Option<String>)
    ensures
        opt_view(r) == opt_view(*s),
{
    match s {
        Some(x) => Some(x.clone()),
        None => None,
    }
}

/// A copy of a list of strings.
pub fn copy_strings(v: &Vec<String>) -> (r: Vec<String>)
    ensures
        strs_view(r@) == strs_view(v@),
{
    let mut r: Vec<String> = Vec::new();
    let n = v.len();
    let mut i: usize = 0;
    while i < n
        invariant
            n == v@.len(),
            i <= n,
            strs_view(r@) == strs_view(v@.take(i as int)),
        decreases n - i,
    {
        let ghost before = strs_view(r@);
        r.push(v[i].clone());
        assert(strs_view(r@) =~= before.push(v@[i as int]@));
        assert(strs_view(v@.take(i + 1)) =~= strs_view(v@.take(i as int)).push(v@[i as int]@));
        i = i + 1;
    }
    assert(v@.take(n as int) =~= v@);
    r
}

impl Build {
    /// A copy of this build.
    pub fn duplicate(&self) -> (r: Build)
        ensures
            r@ == self@,
    {
        Build {
            id: copy_string(&self.id),
            race: self.race,
            opponent: self.opponent,
            matchup: copy_string(&self.matchup),
            name: copy_string(&self.name),
            variant_of: copy_opt_string(&self.variant_of),
            tags: copy_strings(&self.tags),
            difficulty: self.difficulty,
            source_name: copy_string(&self.source_name),
            source_url: copy_string(&self.source_url),
            source_page_title: copy_opt_string(&self.source_page_title),
            notes: copy_string(&self.notes),
            user_notes: copy_string(&self.user_notes),
            custom_edited: self.custom_edited,
            favorite: self.favorite,
            recently_used_at: copy_opt_string(&self.recently_used_at),
            revision_id: self.revision_id,
            last_imported_at: copy_opt_string(&self.last_imported_at),
            last_checked_at: copy_opt_string(&self.last_checked_at),
            counters: copy_strings(&self.counters),
            countered_by: copy_strings(&self.countered_by),
            steps: copy_strings(&self.steps),
        }
    }
}

#[derive(Debug, Clone)]
pub struct BuildsData {
    pub version: u32,
    pub last_updated: String,
    pub builds: Vec<Build>,
}

#[derive(Debug, Clone)]
pub struct UserDataPaths {
    pub user_builds_path: String,
    pub settings_path: String,
    pub user_data: String,
}

#[derive(Debug, Clone, Copy, PartialEq, Eq, Structural)]
pub enum BulkImportMode {
    Common,
    All,
}

#[derive(Debug, Clone)]
pub struct ImportOptions {
    pub update_existing: bool,
}

#[derive(Debug, Clone)]
pub struct BulkImportOptions {
    pub races: Vec<Race>,
    pub mode: BulkImportMode,
    pub update_existing: bool,
}

#[derive(Debug, Clone, Copy, PartialEq, Eq, Structural)]
pub enum ImportMergeResult {
    Added,
    Updated,
    Skipped,
    SkippedCustom,
}

#[derive(Debug, Clone)]
pub struct ImportSinglePageResult {
    pub page_title: String,
    pub added_or_updated: Vec<Build>,
    pub results: Vec<ImportMergeResult>,
    pub total_variants: usize,
}

#[derive(Debug, Clone)]
pub struct BulkImportResult {
    pub mode: BulkImportMode,
    pub races: Vec<Race>,
    pub selected: usize,
    pub total_discovered: usize,
    pub added: u32,
    pub updated: u32,
    pub skipped: u32,
    pub failed: u32,
    pub variants_total: u32,
}

#[derive(Debug, Clone, Copy, PartialEq, Eq, Structural)]
pub enum UpdateReason {
    NewerRevision,
    NoStoredRev,
    MissingOnServer,
    UpToDate,
}

#[derive(Debug, Clone)]
pub struct UpdateInfo {
    pub build_id: String,
    pub name: String,
    pub matchup: String,
    pub source_page_title: String,
    pub source_url: String,
    pub current_rev_id: Option<i64>,
    pub latest_rev_id: Option<i64>,
    pub latest_timestamp: Option<String>,
    pub outdated: bool,
    pub reason: UpdateReason,
    pub custom_edited: bool,
}

#[derive(Debug, Clone)]
pub struct CheckUpdatesResult {
    pub checked: usize,
    pub outdated: Vec<UpdateInfo>,
    pub all: Vec<UpdateInfo>,
}

#[derive(Debug, Clone)]
pub struct RefreshBuildsOptions {
    pub force: bool,
}

#[derive(Debug, Clone)]
pub struct RefreshBuildsFailure {
    pub build_id: String,
    pub error: String,
}

#[derive(Debug, Clone)]
pub struct RefreshBuildsResult {
    pub refreshed: Vec<String>,
    pub failed: Vec<RefreshBuildsFailure>,
    pub skipped_custom: Vec<String>,
}

/// The overlay's global hotkey actions.
#[derive(Debug, Clone, Copy, PartialEq, Eq, Structural)]
pub enum HotkeyAction {
    RaceTerran,
    RaceProtoss,
    RaceZerg,
    OppTerran,
    OppZerg,
    OppProtoss,
    OppRandom,
    NextBuild,
    PrevBuild,
    NextPage,
    PrevPage,
    FirstPage,
    ToggleFavorite,
    ToggleCompact,
    ToggleWindow,
}

} // verus!
