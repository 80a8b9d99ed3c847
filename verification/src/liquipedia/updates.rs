//! Keeping Liquipedia builds current: which stored builds came from
//! Liquipedia, how each one's stored revision compares with the latest one
//! on the wiki, and refreshing a build from its page while the user's id,
//! favourite, notes and recent-use stamp stay as they were.

use vstd::prelude::*;
use crate::liquipedia::api::{api_error_text, page_url, page_url_of, ApiError, PageWikitext};
use crate::liquipedia::import::{
    data_builds, fetched_page_view, page_builds, preview_page, stamps_of, without_paren_suffix,
    strip_paren_suffix,
};
use crate::liquipedia::response::{RevisionTable, RevisionView};
use crate::text::{
    ends_with,
    chars_of, push_str, replace_exec, slice_chars, replace_str, str_eq, string_from, string_of, trim,
    trim_chars,
};
use crate::types::{
    builds_view, copy_opt_string, copy_string, opt_view, strs_view, Build, BuildView, BuildsData,
    CheckUpdatesResult, RefreshBuildsFailure, RefreshBuildsResult, UpdateInfo, UpdateReason,
};

verus! {

/// The source name of builds imported from Liquipedia.
pub const LIQUIPEDIA_SOURCE: &'static str = "Liquipedia";

/// A build imported from Liquipedia that names its page.
pub open spec fn is_liquipedia(b: BuildView) -> bool {
    b.source_name == LIQUIPEDIA_SOURCE@ && b.source_page_title is Some
}

fn is_liquipedia_exec(b: &Build) -> (r: bool)
    ensures
        r == is_liquipedia(b@),
{
    str_eq(b.source_name.as_str(), LIQUIPEDIA_SOURCE) && b.source_page_title.is_some()
}

/// The Liquipedia pages the stored builds come from: each non-empty title
/// once, in the order the builds are stored.
pub open spec fn liquipedia_titles_of(bs: Seq<BuildView>) -> Seq<Seq<char>>
    decreases bs.len(),
{
    if bs.len() == 0 {
        Seq::empty()
    } else {
        let prev = liquipedia_titles_of(bs.drop_last());
        let b = bs.last();
        if b.source_name == LIQUIPEDIA_SOURCE@ && b.source_page_title is Some {
            let t = b.source_page_title.unwrap();
            if t.len() > 0 && !prev.contains(t) {
                prev.push(t)
            } else {
                prev
            }
        } else {
            prev
        }
    }
}

fn list_contains(v: &Vec<String>, s: &String) -> (r: bool)
    ensures
        r == strs_view(v@).contains(s@),
{
    let n = v.len();
    let mut i: usize = 0;
    while i < n
        invariant
            n == v@.len(),
            i <= n,
            forall|k: int| 0 <= k < i ==> strs_view(v@)[k] != s@,
        decreases n - i,
    {
        if str_eq(v[i].as_str(), s.as_str()) {
            assert(strs_view(v@)[i as int] == s@);
            return true;
        }
        i = i + 1;
    }
    false
}

/// The titles of the Liquipedia pages to look up.
pub fn liquipedia_titles(builds: &Vec<Build>) -> (r: Vec<String>)
    ensures
        strs_view(r@) == liquipedia_titles_of(builds_view(builds@)),
{
    let ghost bs = builds_view(builds@);
    let mut out: Vec<String> = Vec::new();
    let n = builds.len();
    let mut i: usize = 0;
    while i < n
        invariant
            n == builds@.len(),
            bs == builds_view(builds@),
            i <= n,
            strs_view(out@) == liquipedia_titles_of(bs.take(i as int)),
        decreases n - i,
    {
        assert(bs.take(i + 1).drop_last() =~= bs.take(i as int));
        assert(bs.take(i + 1).last() == builds@[i as int]@);
        let b = &builds[i];
        if str_eq(b.source_name.as_str(), LIQUIPEDIA_SOURCE) {
            match &b.source_page_title {
                Some(t) => {
                    if t.as_str().unicode_len() > 0 && !list_contains(&out, t) {
                        let ghost before = strs_view(out@);
                        out.push(copy_string(t));
                        assert(strs_view(out@) =~= before.push(t@));
                    }
                },
                None => {},
            }
        }
        i = i + 1;
    }
    assert(bs.take(n as int) =~= bs);
    out
}

/// How many stored builds are Liquipedia builds.
pub open spec fn liquipedia_count_of(bs: Seq<BuildView>) -> nat
    decreases bs.len(),
{
    if bs.len() == 0 {
        0
    } else {
        liquipedia_count_of(bs.drop_last()) + if is_liquipedia(bs.last()) { 1nat } else { 0nat }
    }
}

proof fn lemma_count_bound(bs: Seq<BuildView>)
    ensures
        liquipedia_count_of(bs) <= bs.len(),
    decreases bs.len(),
{
    if bs.len() > 0 {
        lemma_count_bound(bs.drop_last());
    }
}

// ---------------------------------------------------------------------------
// Comparing revisions
// ---------------------------------------------------------------------------

pub struct UpdateInfoView {
    pub build_id: Seq<char>,
    pub name: Seq<char>,
    pub matchup: Seq<char>,
    pub source_page_title: Seq<char>,
    pub source_url: Seq<char>,
    pub current_rev_id: Option<i64>,
    pub latest_rev_id: Option<i64>,
    pub latest_timestamp: Option<Seq<char>>,
    pub outdated: bool,
    pub reason: UpdateReason,
    pub custom_edited: bool,
}

impl View for UpdateInfo {
    type V = UpdateInfoView;

    open spec fn view(&self) -> UpdateInfoView {
        UpdateInfoView {
            build_id: self.build_id@,
            name: self.name@,
            matchup: self.matchup@,
            source_page_title: self.source_page_title@,
            source_url: self.source_url@,
            current_rev_id: self.current_rev_id,
            latest_rev_id: self.latest_rev_id,
            latest_timestamp: opt_view(self.latest_timestamp),
            outdated: self.outdated,
            reason: self.reason,
            custom_edited: self.custom_edited,
        }
    }
}

pub open spec fn infos_view(v: Seq<UpdateInfo>) -> Seq<UpdateInfoView> {
    v.map_values(|u: UpdateInfo| u@)
}

/// The stored revision differs from the latest one.
pub open spec fn is_newer(latest: Option<i64>, stored: Option<i64>) -> bool {
    match (latest, stored) {
        (Some(l), Some(s)) => l != s,
        _ => false,
    }
}

/// How a build stands against the latest revision of its page (`latest`
/// is the table's entry for its title, if it has one).
pub open spec fn reason_of(latest: Option<RevisionView>, stored: Option<i64>) -> UpdateReason {
    match latest {
        None => UpdateReason::MissingOnServer,
        Some(r) => if is_newer(r.revision_id, stored) {
            UpdateReason::NewerRevision
        } else if stored is None && r.revision_id is Some {
            UpdateReason::NoStoredRev
        } else {
            UpdateReason::UpToDate
        },
    }
}

pub open spec fn latest_of(m: Map<Seq<char>, RevisionView>, title: Seq<char>) -> Option<RevisionView> {
    if m.contains_key(title) {
        Some(m[title])
    } else {
        None
    }
}

/// What the check reports of one Liquipedia build.
pub open spec fn update_info_of(b: BuildView, m: Map<Seq<char>, RevisionView>) -> UpdateInfoView {
    let title = match b.source_page_title {
        Some(t) => t,
        None => Seq::empty(),
    };
    let latest = latest_of(m, title);
    let latest_rev_id = match latest {
        Some(r) => r.revision_id,
        None => None,
    };
    let newer = is_newer(latest_rev_id, b.revision_id);
    let unknown = b.revision_id is None && latest_rev_id is Some;
    UpdateInfoView {
        build_id: b.id,
        name: b.name,
        matchup: b.matchup,
        source_page_title: title,
        source_url: if b.source_url.len() == 0 {
            page_url_of(title)
        } else {
            b.source_url
        },
        current_rev_id: b.revision_id,
        latest_rev_id,
        latest_timestamp: match latest {
            Some(r) => r.revision_timestamp,
            None => None,
        },
        outdated: newer || unknown,
        reason: reason_of(latest, b.revision_id),
        custom_edited: b.custom_edited,
    }
}

/// Compares one build with the table of latest revisions.
pub fn update_info(b: &Build, table: &RevisionTable) -> (r: UpdateInfo)
    ensures
        r@ == update_info_of(b@, table@),
{
    let title = match &b.source_page_title {
        Some(t) => copy_string(t),
        None => String::new(),
    };
    let latest = table.get(title.as_str());
    let latest_rev_id = match &latest {
        Some(r) => r.revision_id,
        None => None,
    };
    let newer = match (latest_rev_id, b.revision_id) {
        (Some(l), Some(s)) => l != s,
        _ => false,
    };
    let unknown = b.revision_id.is_none() && latest_rev_id.is_some();
    let reason = match &latest {
        None => UpdateReason::MissingOnServer,
        Some(_) => if newer {
            UpdateReason::NewerRevision
        } else if unknown {
            UpdateReason::NoStoredRev
        } else {
            UpdateReason::UpToDate
        },
    };
    let source_url = if b.source_url.as_str().unicode_len() == 0 {
        page_url(title.as_str())
    } else {
        copy_string(&b.source_url)
    };
    let latest_timestamp = match latest {
        Some(r) => r.revision_timestamp,
        None => None,
    };
    UpdateInfo {
        build_id: copy_string(&b.id),
        name: copy_string(&b.name),
        matchup: copy_string(&b.matchup),
        source_page_title: title,
        source_url,
        current_rev_id: b.revision_id,
        latest_rev_id,
        latest_timestamp,
        outdated: newer || unknown,
        reason,
        custom_edited: b.custom_edited,
    }
}

/// The report of every Liquipedia build, in the order they are stored.
pub open spec fn update_infos_of(bs: Seq<BuildView>, m: Map<Seq<char>, RevisionView>) -> Seq<UpdateInfoView>
    decreases bs.len(),
{
    if bs.len() == 0 {
        Seq::empty()
    } else {
        let prev = update_infos_of(bs.drop_last(), m);
        if is_liquipedia(bs.last()) {
            prev.push(update_info_of(bs.last(), m))
        } else {
            prev
        }
    }
}

/// The reports that call for an update.
pub open spec fn outdated_of(infos: Seq<UpdateInfoView>) -> Seq<UpdateInfoView>
    decreases infos.len(),
{
    if infos.len() == 0 {
        Seq::empty()
    } else {
        let prev = outdated_of(infos.drop_last());
        if infos.last().outdated {
            prev.push(infos.last())
        } else {
            prev
        }
    }
}

/// A build after the check: Liquipedia builds get the check's time.
pub open spec fn checked_build(b: BuildView, now: Seq<char>) -> BuildView {
    if is_liquipedia(b) {
        BuildView { last_checked_at: Some(now), ..b }
    } else {
        b
    }
}

pub open spec fn checked_builds(bs: Seq<BuildView>, now: Seq<char>) -> Seq<BuildView> {
    Seq::new(bs.len(), |i: int| checked_build(bs[i], now))
}

fn copy_info(u: &UpdateInfo) -> (r: UpdateInfo)
    ensures
        r@ == u@,
{
    UpdateInfo {
        build_id: copy_string(&u.build_id),
        name: copy_string(&u.name),
        matchup: copy_string(&u.matchup),
        source_page_title: copy_string(&u.source_page_title),
        source_url: copy_string(&u.source_url),
        current_rev_id: u.current_rev_id,
        latest_rev_id: u.latest_rev_id,
        latest_timestamp: copy_opt_string(&u.latest_timestamp),
        outdated: u.outdated,
        reason: u.reason,
        custom_edited: u.custom_edited,
    }
}

/// The outcome of an update check, given the latest revisions of the
/// pages `liquipedia_titles` named and the time of the check. Where no
/// build names a page, nothing is checked and the builds stay as they are;
/// otherwise every Liquipedia build is reported and stamped with the time.
pub fn check_updates(data: &mut BuildsData, table: &RevisionTable, now: &str) -> (r: CheckUpdatesResult)
    ensures
        liquipedia_titles_of(data_builds(*old(data))).len() == 0 ==> {
            &&& r.checked == 0
            &&& r.all@.len() == 0
            &&& r.outdated@.len() == 0
            &&& data_builds(*final(data)) == data_builds(*old(data))
        },
        liquipedia_titles_of(data_builds(*old(data))).len() > 0 ==> {
            &&& r.checked == liquipedia_count_of(data_builds(*old(data)))
            &&& infos_view(r.all@) == update_infos_of(data_builds(*old(data)), table@)
            &&& infos_view(r.outdated@) == outdated_of(infos_view(r.all@))
            &&& data_builds(*final(data)) == checked_builds(data_builds(*old(data)), now@)
        },
        final(data).version == old(data).version,
        final(data).last_updated@ == old(data).last_updated@,
{
    let ghost bs = data_builds(*data);
    let titles = liquipedia_titles(&data.builds);
    if titles.len() == 0 {
        let all: Vec<UpdateInfo> = Vec::new();
        let outdated: Vec<UpdateInfo> = Vec::new();
        return CheckUpdatesResult { checked: 0, outdated, all };
    }
    let mut all: Vec<UpdateInfo> = Vec::new();
    let mut outdated: Vec<UpdateInfo> = Vec::new();
    let mut checked: usize = 0;
    let n = data.builds.len();
    let mut i: usize = 0;
    while i < n
        invariant
            n == data.builds@.len(),
            bs == data_builds(*old(data)),
            bs.len() == n,
            data.version == old(data).version,
            data.last_updated@ == old(data).last_updated@,
            i <= n,
            checked == liquipedia_count_of(bs.take(i as int)),
            infos_view(all@) == update_infos_of(bs.take(i as int), table@),
            infos_view(outdated@) == outdated_of(infos_view(all@)),
            forall|k: int| 0 <= k < i ==> data_builds(*data)[k] == checked_build(#[trigger] bs[k], now@),
            forall|k: int| i <= k < n ==> data_builds(*data)[k] == #[trigger] bs[k],
        decreases n - i,
    {
        let ghost pre = bs.take(i as int);
        assert(bs.take(i + 1).drop_last() =~= pre);
        assert(bs.take(i + 1).last() == bs[i as int]);
        proof {
            lemma_count_bound(pre);
        }
        if is_liquipedia_exec(&data.builds[i]) {
            let info = update_info(&data.builds[i], table);
            let ghost before_all = infos_view(all@);
            let ghost before_out = infos_view(outdated@);
            if info.outdated {
                outdated.push(copy_info(&info));
                assert(infos_view(outdated@) =~= before_out.push(info@));
            }
            all.push(info);
            assert(infos_view(all@) =~= before_all.push(info@));
            assert(infos_view(all@).drop_last() =~= before_all);
            checked = checked + 1;
            let ghost prior = data_builds(*data);
            let mut b = data.builds[i].duplicate();
            b.last_checked_at = Some(string_from(now));
            let ghost nb = b@;
            data.builds.set(i, b);
            assert(nb == checked_build(bs[i as int], now@));
            assert(data_builds(*data) =~= prior.update(i as int, nb));
        } else {
            assert(infos_view(all@) == update_infos_of(bs.take(i + 1), table@));
        }
        i = i + 1;
    }
    assert(bs.take(n as int) =~= bs);
    assert(data_builds(*data) =~= checked_builds(bs, now@));
    CheckUpdatesResult { checked, outdated, all }
}

// ---------------------------------------------------------------------------
// Refreshing builds from their pages
// ---------------------------------------------------------------------------

/// What a build's name has after "<page title without its parenthesised
/// part> - ", trimmed: the variant it was imported as.
pub open spec fn variant_suffix_of(name: Seq<char>, page_title: Seq<char>) -> Seq<char> {
    let prefix = without_paren_suffix(page_title) + " - "@;
    if prefix.len() <= name.len() && name.take(prefix.len() as int) == prefix {
        trim(name.skip(prefix.len() as int))
    } else {
        trim(replace_str(name, prefix, ""@))
    }
}

pub fn variant_suffix_for(name: &str, page_title: &str) -> (r: String)
    ensures
        r@ == variant_suffix_of(name@, page_title@),
{
    let mut prefix = strip_paren_suffix(page_title);
    push_str(&mut prefix, " - ");
    let p = chars_of(prefix.as_str());
    let v = chars_of(name);
    proof {
        reveal_strlit(" - ");
    }
    if p.len() <= v.len() {
        let mut k: usize = 0;
        while k < p.len() && v[k] == p[k]
            invariant
                p.len() <= v.len(),
                k <= p.len(),
                forall|j: int| 0 <= j < k ==> v@[j] == p@[j],
            decreases p.len() - k,
        {
            k = k + 1;
        }
        let same = k == p.len();
        if same {
            assert(v@.take(p@.len() as int) =~= p@);
        } else {
            assert(v@.take(p@.len() as int)[k as int] != p@[k as int]);
        }
        if same {
            let tail = slice_chars(v.as_slice(), p.len(), v.len());
            let rest = trim_chars(tail.as_slice());
            assert(v@.subrange(p@.len() as int, v@.len() as int) =~= v@.skip(p@.len() as int));
            return string_of(rest.as_slice());
        }
    }
    let empty: Vec<char> = Vec::new();
    let replaced = replace_exec(v.as_slice(), p.as_slice(), empty.as_slice());
    assert(empty@ =~= ""@) by {
        reveal_strlit("");
    }
    let t = trim_chars(replaced.as_slice());
    string_of(t.as_slice())
}

fn ends_with_exec(s: &[char], suffix: &[char]) -> (r: bool)
    ensures
        r == ends_with(s@, suffix@),
{
    if suffix.len() > s.len() {
        return false;
    }
    let off = s.len() - suffix.len();
    let mut k: usize = 0;
    while k < suffix.len()
        invariant
            off as int + suffix@.len() == s@.len(),
            s@.len() == s.len(),
            k <= suffix@.len(),
            forall|j: int| 0 <= j < k ==> s@[off + j] == suffix@[j],
        decreases suffix.len() - k,
    {
        if s[off + k] != suffix[k] {
            assert(s@.skip(off as int)[k as int] != suffix@[k as int]);
            return false;
        }
        k = k + 1;
    }
    assert(s@.skip(off as int) =~= suffix@);
    true
}

/// The first build whose name satisfies `p`, by position.
pub open spec fn first_named(names: Seq<Seq<char>>, p: spec_fn(Seq<char>) -> bool) -> Option<int> {
    if exists|i: int| 0 <= i < names.len() && p(#[trigger] names[i]) {
        Some(choose|i: int| 0 <= i < names.len() && p(#[trigger] names[i]) && forall|j: int| 0 <= j < i ==> !p(#[trigger] names[j]))
    } else {
        None
    }
}

/// Names equal to `name`.
pub open spec fn named(name: Seq<char>) -> spec_fn(Seq<char>) -> bool {
    |n: Seq<char>| n == name
}

/// Names that end with `suffix`.
pub open spec fn suffixed(suffix: Seq<char>) -> spec_fn(Seq<char>) -> bool {
    |n: Seq<char>| ends_with(n, suffix)
}

pub open spec fn names_of(bs: Seq<BuildView>) -> Seq<Seq<char>> {
    bs.map_values(|b: BuildView| b.name)
}

/// Which fresh build replaces a stored one: the one with the same name;
/// else the first whose name ends with the stored one's variant suffix
/// (when it has one); else the first.
pub open spec fn chosen_of(names: Seq<Seq<char>>, existing_name: Seq<char>, page_title: Seq<char>) -> Option<int> {
    let suffix = variant_suffix_of(existing_name, page_title);
    match first_named(names, named(existing_name)) {
        Some(i) => Some(i),
        None => {
            let by_suffix = if suffix.len() > 0 {
                first_named(names, suffixed(suffix))
            } else {
                None
            };
            match by_suffix {
                Some(i) => Some(i),
                None => if names.len() > 0 {
                    Some(0)
                } else {
                    None
                },
            }
        },
    }
}

proof fn lemma_first_named(names: Seq<Seq<char>>, p: spec_fn(Seq<char>) -> bool, i: int)
    requires
        0 <= i < names.len(),
        p(names[i]),
        forall|j: int| 0 <= j < i ==> !p(#[trigger] names[j]),
    ensures
        first_named(names, p) == Some(i),
{
    let c = choose|c: int| 0 <= c < names.len() && p(#[trigger] names[c]) && forall|j: int| 0 <= j < c ==> !p(#[trigger] names[j]);
    assert(0 <= c < names.len() && p(names[c]) && forall|j: int| 0 <= j < c ==> !p(#[trigger] names[j]));
    if c < i {
        assert(!p(names[c]));
    } else if c > i {
        assert(!p(names[i]));
    }
}

/// Picks the fresh build that replaces a stored one.
pub fn pick_chosen(fresh: &Vec<Build>, existing_name: &str, page_title: &str) -> (r: Option<usize>)
    ensures
        match r {
            Some(i) => chosen_of(names_of(builds_view(fresh@)), existing_name@, page_title@) == Some(i as int)
                && i < fresh@.len(),
            None => chosen_of(names_of(builds_view(fresh@)), existing_name@, page_title@) is None,
        },
{
    let ghost names = names_of(builds_view(fresh@));
    let ghost exact = named(existing_name@);
    let n = fresh.len();
    let mut i: usize = 0;
    while i < n
        invariant
            n == fresh@.len(),
            names == names_of(builds_view(fresh@)),
            names.len() == n,
            exact == named(existing_name@),
            i <= n,
            forall|j: int| 0 <= j < i ==> !exact(#[trigger] names[j]),
        decreases n - i,
    {
        if str_eq(fresh[i].name.as_str(), existing_name) {
            assert(names[i as int] == fresh@[i as int].name@);
            proof {
                lemma_first_named(names, exact, i as int);
            }
            return Some(i);
        }
        assert(names[i as int] == fresh@[i as int].name@);
        i = i + 1;
    }
    assert(first_named(names, exact) is None);
    let suffix = variant_suffix_for(existing_name, page_title);
    let sc = chars_of(suffix.as_str());
    let ghost ends = suffixed(suffix@);
    if sc.len() > 0 {
        let mut k: usize = 0;
        while k < n
            invariant
                n == fresh@.len(),
                names == names_of(builds_view(fresh@)),
                names.len() == n,
                sc@ == suffix@,
                sc@.len() > 0,
                ends == suffixed(suffix@),
                exact == named(existing_name@),
                first_named(names, exact) is None,
                suffix@ == variant_suffix_of(existing_name@, page_title@),
                k <= n,
                forall|j: int| 0 <= j < k ==> !ends(#[trigger] names[j]),
            decreases n - k,
        {
            let nc = chars_of(fresh[k].name.as_str());
            assert(names[k as int] == fresh@[k as int].name@);
            if ends_with_exec(nc.as_slice(), sc.as_slice()) {
                proof {
                    lemma_first_named(names, ends, k as int);
                }
                return Some(k);
            }
            k = k + 1;
        }
        assert(first_named(names, ends) is None);
    }
    if n > 0 {
        Some(0)
    } else {
        None
    }
}

/// A stored build after a refresh: the fresh build, with the stored id,
/// favourite, notes and recent-use stamp, and no longer marked as edited.
pub open spec fn refreshed_build(existing: BuildView, chosen: BuildView) -> BuildView {
    BuildView {
        id: existing.id,
        custom_edited: false,
        favorite: existing.favorite,
        user_notes: existing.user_notes,
        recently_used_at: existing.recently_used_at,
        ..chosen
    }
}

pub fn apply_refreshed(existing: &mut Build, chosen: Build)
    ensures
        final(existing)@ == refreshed_build(old(existing)@, chosen@),
{
    let mut next = chosen;
    next.id = copy_string(&existing.id);
    next.custom_edited = false;
    next.favorite = existing.favorite;
    next.user_notes = copy_string(&existing.user_notes);
    next.recently_used_at = copy_opt_string(&existing.recently_used_at);
    *existing = next;
}

/// Refreshing keeps what the user owns of a build, whatever the page gave.
pub proof fn lemma_refresh_keeps_user_fields(existing: BuildView, chosen: BuildView)
    ensures
        refreshed_build(existing, chosen).id == existing.id,
        refreshed_build(existing, chosen).favorite == existing.favorite,
        refreshed_build(existing, chosen).user_notes == existing.user_notes,
        refreshed_build(existing, chosen).recently_used_at == existing.recently_used_at,
        !refreshed_build(existing, chosen).custom_edited,
        refreshed_build(existing, chosen).steps == chosen.steps,
        refreshed_build(existing, chosen).revision_id == chosen.revision_id,
{
}

/// Refreshing a build twice from the same fresh build is refreshing it once.
pub proof fn lemma_refresh_idempotent(existing: BuildView, chosen: BuildView)
    ensures
        refreshed_build(refreshed_build(existing, chosen), chosen) == refreshed_build(existing, chosen),
{
}

pub open spec fn ids_of(bs: Seq<BuildView>) -> Seq<Seq<char>> {
    bs.map_values(|b: BuildView| b.id)
}

/// The position of the first stored build with this id.
pub open spec fn position_of(bs: Seq<BuildView>, id: Seq<char>) -> Option<int> {
    first_named(ids_of(bs), named(id))
}

fn find_build(builds: &Vec<Build>, id: &str) -> (r: Option<usize>)
    ensures
        match r {
            Some(i) => position_of(builds_view(builds@), id@) == Some(i as int) && i < builds@.len(),
            None => position_of(builds_view(builds@), id@) is None,
        },
{
    let ghost ids = ids_of(builds_view(builds@));
    let ghost same = named(id@);
    let n = builds.len();
    let mut i: usize = 0;
    while i < n
        invariant
            n == builds@.len(),
            ids == ids_of(builds_view(builds@)),
            ids.len() == n,
            same == named(id@),
            i <= n,
            forall|j: int| 0 <= j < i ==> !same(#[trigger] ids[j]),
        decreases n - i,
    {
        assert(ids[i as int] == builds@[i as int].id@);
        if str_eq(builds[i].id.as_str(), id) {
            proof {
                lemma_first_named(ids, same, i as int);
            }
            return Some(i);
        }
        i = i + 1;
    }
    None
}

pub const BUILD_NOT_FOUND: &'static str = "Build not found.";

pub const NO_SOURCE: &'static str = "This build has no Liquipedia source.";

pub const NO_PARSEABLE_BUILD: &'static str = "Source page no longer contains a parseable build.";

/// Where a single refresh starts: the stored build with that id and the
/// page it names.
pub fn refresh_source(data: &BuildsData, build_id: &str) -> (r: Result<(usize, String), ApiError>)
    ensures
        match position_of(data_builds(*data), build_id@) {
            None => r matches Err(ApiError::NotFound(m)) && m@ == BUILD_NOT_FOUND@,
            Some(p) => match data_builds(*data)[p].source_page_title {
                None => r matches Err(ApiError::NotFound(m)) && m@ == NO_SOURCE@,
                Some(t) => r matches Ok((q, title)) && q == p && title@ == t,
            },
        },
{
    match find_build(&data.builds, build_id) {
        None => Err(ApiError::NotFound(string_from(BUILD_NOT_FOUND))),
        Some(p) => match &data.builds[p].source_page_title {
            None => Err(ApiError::NotFound(string_from(NO_SOURCE))),
            Some(t) => Ok((p, copy_string(t))),
        },
    }
}

/// The fresh builds of a fetched page.
pub open spec fn fresh_builds(page: PageWikitext, stamps: Seq<Seq<char>>) -> Seq<BuildView> {
    page_builds(page.page_title@, fetched_page_view(page), page.revision_id, stamps)
}

/// What refreshing the stored build at `position` from these fresh
/// builds gives: the chosen one, refreshed, stands in its place and is
/// returned; with no fresh build there is nothing to refresh from.
pub open spec fn refresh_outcome(
    before: Seq<BuildView>,
    after: Seq<BuildView>,
    position: int,
    fresh: Seq<BuildView>,
    page_title: Seq<char>,
    r: Result<Build, ApiError>,
) -> bool {
    let existing = before[position];
    match chosen_of(names_of(fresh), existing.name, page_title) {
        None => r matches Err(ApiError::NotFound(m)) && m@ == NO_PARSEABLE_BUILD@ && after == before,
        Some(c) => r matches Ok(b) && b@ == refreshed_build(existing, fresh[c]) && after == before.update(
            position,
            b@,
        ),
    }
}

/// Refreshes the stored build at `position` from fresh builds of its page.
fn refresh_at(data: &mut BuildsData, position: usize, fresh: &Vec<Build>, page_title: &str) -> (r: Result<Build, ApiError>)
    requires
        position < old(data).builds@.len(),
    ensures
        final(data).version == old(data).version,
        final(data).last_updated@ == old(data).last_updated@,
        refresh_outcome(
            data_builds(*old(data)),
            data_builds(*final(data)),
            position as int,
            builds_view(fresh@),
            page_title@,
            r,
        ),
{
    let ghost fv = builds_view(fresh@);
    let existing_name = copy_string(&data.builds[position].name);
    let ghost prior = data_builds(*data);
    match pick_chosen(fresh, existing_name.as_str(), page_title) {
        None => Err(ApiError::NotFound(string_from(NO_PARSEABLE_BUILD))),
        Some(c) => {
            assert(fresh@[c as int]@ == fv[c as int]);
            let chosen = fresh[c].duplicate();
            let mut b = data.builds[position].duplicate();
            apply_refreshed(&mut b, chosen);
            let out = b.duplicate();
            data.builds.set(position, b);
            assert(data_builds(*data) =~= prior.update(position as int, out@));
            Ok(out)
        },
    }
}

/// Refreshes the stored build at `position` from its fetched page, and
/// returns it; the page must still hold a build.
pub fn refresh_from_page(data: &mut BuildsData, position: usize, page: &PageWikitext) -> (r: Result<Build, ApiError>)
    requires
        position < old(data).builds@.len(),
    ensures
        final(data).version == old(data).version,
        final(data).last_updated@ == old(data).last_updated@,
        exists|stamps: Seq<Seq<char>>|
            #![trigger fresh_builds(*page, stamps)]
            refresh_outcome(
                data_builds(*old(data)),
                data_builds(*final(data)),
                position as int,
                fresh_builds(*page, stamps),
                page.page_title@,
                r,
            ),
{
    let fresh = preview_page(page);
    let ghost stamps = stamps_of(fresh@);
    assert(builds_view(fresh@) == fresh_builds(*page, stamps));
    refresh_at(data, position, &fresh, page.page_title.as_str())
}

// ---------------------------------------------------------------------------
// Refreshing several builds
// ---------------------------------------------------------------------------

pub const FAILURE_NOT_FOUND: &'static str = "not-found";

pub const FAILURE_NO_SOURCE: &'static str = "no-source";

pub const FAILURE_NO_TEMPLATE: &'static str = "No build template on source page.";

pub struct FailureView {
    pub build_id: Seq<char>,
    pub error: Seq<char>,
}

pub open spec fn failures_view(v: Seq<RefreshBuildsFailure>) -> Seq<FailureView> {
    v.map_values(|f: RefreshBuildsFailure| FailureView { build_id: f.build_id@, error: f.error@ })
}

pub struct RefreshView {
    pub refreshed: Seq<Seq<char>>,
    pub failed: Seq<FailureView>,
    pub skipped_custom: Seq<Seq<char>>,
}

impl View for RefreshBuildsResult {
    type V = RefreshView;

    open spec fn view(&self) -> RefreshView {
        RefreshView {
            refreshed: strs_view(self.refreshed@),
            failed: failures_view(self.failed@),
            skipped_custom: strs_view(self.skipped_custom@),
        }
    }
}

/// What happens first to one build of a multi-build refresh.
pub open spec fn refresh_plan_of(bs: Seq<BuildView>, id: Seq<char>, force: bool) -> Option<(int, Seq<char>)> {
    match position_of(bs, id) {
        None => None,
        Some(p) => match bs[p].source_page_title {
            Some(t) => if t.len() > 0 && (!bs[p].custom_edited || force) {
                Some((p, t))
            } else {
                None
            },
            None => None,
        },
    }
}

/// The result after the first look at one build: a missing build or one
/// without a page is a failure, an edited one is skipped unless forced;
/// otherwise nothing is recorded yet.
pub open spec fn planned_result(bs: Seq<BuildView>, id: Seq<char>, force: bool, res: RefreshView) -> RefreshView {
    match position_of(bs, id) {
        None => RefreshView {
            failed: res.failed.push(FailureView { build_id: id, error: FAILURE_NOT_FOUND@ }),
            ..res
        },
        Some(p) => match bs[p].source_page_title {
            Some(t) => if t.len() == 0 {
                RefreshView { failed: res.failed.push(FailureView { build_id: id, error: FAILURE_NO_SOURCE@ }), ..res }
            } else if bs[p].custom_edited && !force {
                RefreshView { skipped_custom: res.skipped_custom.push(id), ..res }
            } else {
                res
            },
            None => RefreshView {
                failed: res.failed.push(FailureView { build_id: id, error: FAILURE_NO_SOURCE@ }),
                ..res
            },
        },
    }
}

fn push_failure(res: &mut RefreshBuildsResult, build_id: &str, error: &str)
    ensures
        final(res)@ == (RefreshView {
            failed: old(res)@.failed.push(FailureView { build_id: build_id@, error: error@ }),
            ..old(res)@
        }),
{
    let ghost before = old(res)@;
    res.failed.push(RefreshBuildsFailure { build_id: string_from(build_id), error: string_from(error) });
    assert(failures_view(res.failed@) =~= before.failed.push(FailureView { build_id: build_id@, error: error@ }));
}

/// The first look at one build of a multi-build refresh: records a failure
/// or a skip where there is one, and otherwise gives the position of the
/// build and the page to fetch for it.
pub fn plan_refresh(data: &BuildsData, build_id: &str, force: bool, res: &mut RefreshBuildsResult) -> (r: Option<(usize, String)>)
    ensures
        final(res)@ == planned_result(data_builds(*data), build_id@, force, old(res)@),
        match refresh_plan_of(data_builds(*data), build_id@, force) {
            None => r is None,
            Some((p, t)) => r matches Some((q, title)) && q == p && title@ == t && q < data.builds@.len(),
        },
{
    match find_build(&data.builds, build_id) {
        None => {
            push_failure(res, build_id, FAILURE_NOT_FOUND);
            None
        },
        Some(p) => {
            let b = &data.builds[p];
            match &b.source_page_title {
                Some(t) => {
                    if t.as_str().unicode_len() == 0 {
                        push_failure(res, build_id, FAILURE_NO_SOURCE);
                        None
                    } else if b.custom_edited && !force {
                        let ghost before = res@;
                        res.skipped_custom.push(string_from(build_id));
                        assert(strs_view(res.skipped_custom@) =~= before.skipped_custom.push(build_id@));
                        None
                    } else {
                        Some((p, copy_string(t)))
                    }
                },
                None => {
                    push_failure(res, build_id, FAILURE_NO_SOURCE);
                    None
                },
            }
        },
    }
}

/// The result and the builds after one fetched page of a multi-build
/// refresh: the refreshed build's id is recorded, or the failure of a page
/// without builds.
pub open spec fn finish_outcome(
    res_before: RefreshView,
    res_after: RefreshView,
    before: Seq<BuildView>,
    after: Seq<BuildView>,
    position: int,
    fresh: Seq<BuildView>,
    page_title: Seq<char>,
    build_id: Seq<char>,
) -> bool {
    let existing = before[position];
    match chosen_of(names_of(fresh), existing.name, page_title) {
        None => res_after == (RefreshView {
            failed: res_before.failed.push(FailureView { build_id, error: FAILURE_NO_TEMPLATE@ }),
            ..res_before
        }) && after == before,
        Some(c) => res_after == (RefreshView { refreshed: res_before.refreshed.push(build_id), ..res_before })
            && after == before.update(position, refreshed_build(existing, fresh[c])),
    }
}

/// The rest of one build's refresh, once its page was fetched (or the
/// fetch failed): a failed fetch is recorded with its message, a page
/// without builds as `FAILURE_NO_TEMPLATE`; otherwise the build is
/// refreshed and its id recorded.
pub fn finish_refresh(
    data: &mut BuildsData,
    res: &mut RefreshBuildsResult,
    build_id: &str,
    position: usize,
    fetched: Result<PageWikitext, ApiError>,
)
    requires
        position < old(data).builds@.len(),
    ensures
        final(data).version == old(data).version,
        final(data).last_updated@ == old(data).last_updated@,
        match fetched {
            Err(e) => final(res)@ == (RefreshView {
                failed: old(res)@.failed.push(FailureView { build_id: build_id@, error: api_error_text(e) }),
                ..old(res)@
            }) && data_builds(*final(data)) == data_builds(*old(data)),
            Ok(page) => exists|stamps: Seq<Seq<char>>|
                #![trigger fresh_builds(page, stamps)]
                finish_outcome(
                    old(res)@,
                    final(res)@,
                    data_builds(*old(data)),
                    data_builds(*final(data)),
                    position as int,
                    fresh_builds(page, stamps),
                    page.page_title@,
                    build_id@,
                ),
        },
{
    match fetched {
        Err(e) => {
            let m = e.message();
            push_failure(res, build_id, m.as_str());
        },
        Ok(page) => {
            let ghost prior = data_builds(*data);
            let ghost res0 = res@;
            let r = refresh_from_page(data, position, &page);
            let ghost stamps = choose|stamps: Seq<Seq<char>>|
                #![trigger fresh_builds(page, stamps)]
                refresh_outcome(prior, data_builds(*data), position as int, fresh_builds(page, stamps), page.page_title@, r);
            match r {
                Err(_) => {
                    push_failure(res, build_id, FAILURE_NO_TEMPLATE);
                },
                Ok(_) => {
                    res.refreshed.push(string_from(build_id));
                    assert(strs_view(res.refreshed@) =~= res0.refreshed.push(build_id@));
                },
            }
            assert(finish_outcome(
                res0,
                res@,
                prior,
                data_builds(*data),
                position as int,
                fresh_builds(page, stamps),
                page.page_title@,
                build_id@,
            ));
        },
    }
}

} // verus!
