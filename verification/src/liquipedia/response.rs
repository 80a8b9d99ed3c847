//! What the MediaWiki API answers, as plain records, and what the client
//! makes of an answer: errors, the page a title query gives, category
//! listings, batches of titles for revision lookups, and the table of
//! latest revisions by title.

use vstd::prelude::*;
use crate::liquipedia::api::{ApiError, LiquipediaCategoryMember, PageWikitext, RevisionInfo};
use crate::text::{chars_of, push_char, push_str, str_eq, string_of};
use crate::types::{copy_opt_string, copy_string, opt_view, strs_view};

verus! {

/// A revision as the API reports it; `content` is the text of its main
/// slot, where it was asked for.
#[derive(Debug, Clone)]
pub struct LiquipediaPageRevision {
    pub revid: Option<i64>,
    pub timestamp: Option<String>,
    pub content: Option<String>,
}

#[derive(Debug, Clone)]
pub struct LiquipediaPage {
    pub pageid: Option<i64>,
    pub title: String,
    pub missing: bool,
    pub ns: i64,
    pub revisions: Option<Vec<LiquipediaPageRevision>>,
}

/// A title the API rewrote (normalised or redirected) into another.
#[derive(Debug, Clone)]
pub struct LiquipediaNormalized {
    pub from: String,
    pub to: String,
}

#[derive(Debug, Clone)]
pub struct LiquipediaErrorBody {
    pub code: String,
    pub info: String,
}

#[derive(Debug, Clone)]
pub struct LiquipediaQueryInner {
    pub pages: Vec<LiquipediaPage>,
    pub categorymembers: Vec<LiquipediaCategoryMember>,
    pub normalized: Vec<LiquipediaNormalized>,
    pub redirects: Vec<LiquipediaNormalized>,
}

/// A whole answer; `cmcontinue` is the token for the next part of a
/// category listing.
#[derive(Debug, Clone)]
pub struct LiquipediaQueryResponse {
    pub error: Option<LiquipediaErrorBody>,
    pub query: Option<LiquipediaQueryInner>,
    pub cmcontinue: Option<String>,
}

// ---------------------------------------------------------------------------
// Errors
// ---------------------------------------------------------------------------

/// How many characters of an error page are kept.
pub const BAD_STATUS_BODY_LIMIT: usize = 500;

/// The error for a reply whose HTTP status is not a success: the status and
/// the first `BAD_STATUS_BODY_LIMIT` characters of its body.
pub fn bad_status(status: u16, body: &str) -> (r: ApiError)
    ensures
        r matches ApiError::BadStatus { status: s, body: b } && s == status && b@ == body@.take(
            if body@.len() < BAD_STATUS_BODY_LIMIT { body@.len() as int } else { BAD_STATUS_BODY_LIMIT as int },
        ),
{
    let v = chars_of(body);
    let n = if v.len() < BAD_STATUS_BODY_LIMIT { v.len() } else { BAD_STATUS_BODY_LIMIT };
    let head = string_of(&v.as_slice()[0..n]);
    assert(v@.subrange(0, n as int) =~= body@.take(n as int));
    ApiError::BadStatus { status, body: head }
}

/// A reply that reports an error becomes that error; any other reply is
/// passed on.
pub fn check_reply(reply: LiquipediaQueryResponse) -> (r: Result<LiquipediaQueryResponse, ApiError>)
    ensures
        reply.error is None ==> r == Ok::<LiquipediaQueryResponse, ApiError>(reply),
        reply.error matches Some(e) ==> (r matches Err(ApiError::Api { code, info }) && code@ == e.code@
            && info@ == e.info@),
{
    match &reply.error {
        Some(e) => Err(ApiError::Api { code: copy_string(&e.code), info: copy_string(&e.info) }),
        None => Ok(reply),
    }
}

// ---------------------------------------------------------------------------
// The page a title query gives
// ---------------------------------------------------------------------------

pub open spec fn first_page(query: Option<LiquipediaQueryInner>) -> Option<LiquipediaPage> {
    match query {
        Some(q) => if q.pages@.len() > 0 {
            Some(q.pages@[0])
        } else {
            None
        },
        None => None,
    }
}

pub open spec fn first_revision(page: LiquipediaPage) -> Option<LiquipediaPageRevision> {
    match page.revisions {
        Some(v) => if v@.len() > 0 {
            Some(v@[0])
        } else {
            None
        },
        None => None,
    }
}

pub open spec fn revision_id_of(r: Option<LiquipediaPageRevision>) -> Option<i64> {
    match r {
        Some(r) => r.revid,
        None => None,
    }
}

pub open spec fn revision_timestamp_of(r: Option<LiquipediaPageRevision>) -> Option<Seq<char>> {
    match r {
        Some(r) => opt_view(r.timestamp),
        None => None,
    }
}

pub open spec fn revision_content_of(r: Option<LiquipediaPageRevision>) -> Seq<char> {
    match r {
        Some(r) => match r.content {
            Some(c) => c@,
            None => Seq::empty(),
        },
        None => Seq::empty(),
    }
}

fn first_revision_exec(page: &LiquipediaPage) -> (r: Option<LiquipediaPageRevision>)
    ensures
        revision_id_of(r) == revision_id_of(first_revision(*page)),
        revision_timestamp_of(r) == revision_timestamp_of(first_revision(*page)),
        revision_content_of(r) == revision_content_of(first_revision(*page)),
{
    match &page.revisions {
        Some(v) => {
            if v.len() > 0 {
                let r = &v[0];
                Some(LiquipediaPageRevision {
                    revid: r.revid,
                    timestamp: copy_opt_string(&r.timestamp),
                    content: copy_opt_string(&r.content),
                })
            } else {
                None
            }
        },
        None => None,
    }
}

/// The page a title query answered with: its first page and that page's
/// first revision. No page, or a missing one, is `NotFound`.
pub fn page_wikitext_of(query: Option<LiquipediaQueryInner>, title: &str) -> (r: Result<PageWikitext, ApiError>)
    ensures
        match first_page(query) {
            None => r matches Err(ApiError::NotFound(t)) && t@ == title@,
            Some(p) => if p.missing {
                r matches Err(ApiError::NotFound(t)) && t@ == p.title@
            } else {
                r matches Ok(w) && w.page_title@ == p.title@ && w.page_id == p.pageid
                    && w.revision_id == revision_id_of(first_revision(p))
                    && opt_view(w.revision_timestamp) == revision_timestamp_of(first_revision(p))
                    && w.wikitext@ == revision_content_of(first_revision(p))
            },
        },
{
    let q = match &query {
        Some(q) => q,
        None => {
            return Err(ApiError::NotFound(copy_string_of(title)));
        },
    };
    if q.pages.len() == 0 {
        return Err(ApiError::NotFound(copy_string_of(title)));
    }
    let page = &q.pages[0];
    if page.missing {
        return Err(ApiError::NotFound(copy_string(&page.title)));
    }
    let rev = first_revision_exec(page);
    let (revision_id, revision_timestamp, wikitext) = match rev {
        Some(r) => {
            let text = match r.content {
                Some(c) => c,
                None => String::new(),
            };
            (r.revid, r.timestamp, text)
        },
        None => (None, None, String::new()),
    };
    Ok(PageWikitext {
        page_title: copy_string(&page.title),
        page_id: page.pageid,
        revision_id,
        revision_timestamp,
        wikitext,
    })
}

fn copy_string_of(s: &str) -> (r: String)
    ensures
        r@ == s@,
{
    let mut r = String::new();
    push_str(&mut r, s);
    assert(Seq::<char>::empty() + s@ =~= s@);
    r
}

// ---------------------------------------------------------------------------
// Category listings
// ---------------------------------------------------------------------------

/// Adds the members one part of a category listing gives, and returns the
/// token for the next part (none when the listing is complete).
pub fn absorb_listing(members: &mut Vec<LiquipediaCategoryMember>, reply: LiquipediaQueryResponse) -> (r: Option<String>)
    ensures
        final(members)@ == old(members)@ + match reply.query {
            Some(q) => q.categorymembers@,
            None => Seq::empty(),
        },
        opt_view(r) == opt_view(reply.cmcontinue),
{
    let LiquipediaQueryResponse { error: _, query, cmcontinue } = reply;
    match query {
        Some(q) => {
            let mut more = q.categorymembers;
            let ghost added = more@;
            members.append(&mut more);
            assert(members@ =~= old(members)@ + added);
        },
        None => {
            assert(members@ =~= old(members)@ + Seq::<LiquipediaCategoryMember>::empty());
        },
    }
    cmcontinue
}

// ---------------------------------------------------------------------------
// Revision lookups
// ---------------------------------------------------------------------------

/// How many titles one revision query asks about.
pub const TITLES_PER_QUERY: usize = 50;

/// The titles joined with `|`.
pub open spec fn join_bar(s: Seq<Seq<char>>) -> Seq<char>
    decreases s.len(),
{
    if s.len() == 0 {
        Seq::empty()
    } else if s.len() == 1 {
        s[0]
    } else {
        join_bar(s.drop_last()) + "|"@ + s.last()
    }
}

/// The `titles` parameter of each revision query: the titles in runs of
/// `TITLES_PER_QUERY`, each run joined with `|`.
pub open spec fn title_batches_of(s: Seq<Seq<char>>) -> Seq<Seq<char>>
    decreases s.len(),
{
    if s.len() == 0 {
        Seq::empty()
    } else if s.len() <= TITLES_PER_QUERY {
        seq![join_bar(s)]
    } else {
        seq![join_bar(s.take(TITLES_PER_QUERY as int))] + title_batches_of(s.skip(TITLES_PER_QUERY as int))
    }
}

fn join_titles(titles: &Vec<String>, from: usize, to: usize) -> (r: String)
    requires
        from < to <= titles@.len(),
    ensures
        r@ == join_bar(strs_view(titles@).subrange(from as int, to as int)),
{
    let ghost s = strs_view(titles@);
    let mut out = copy_string(&titles[from]);
    assert(s.subrange(from as int, from + 1) =~= seq![s[from as int]]);
    let mut i: usize = from + 1;
    while i < to
        invariant
            s == strs_view(titles@),
            from < i <= to <= titles@.len(),
            out@ == join_bar(s.subrange(from as int, i as int)),
        decreases to - i,
    {
        let ghost before = out@;
        push_char(&mut out, '|');
        push_str(&mut out, titles[i].as_str());
        let ghost next = s.subrange(from as int, i + 1);
        assert(next.drop_last() =~= s.subrange(from as int, i as int));
        assert(before.push('|') + s[i as int] =~= before + "|"@ + s[i as int]) by {
            reveal_strlit("|");
        }
        i = i + 1;
    }
    out
}

proof fn lemma_batches_step(s: Seq<Seq<char>>, from: int)
    requires
        0 <= from < s.len(),
    ensures
        title_batches_of(s.skip(from)) == seq![join_bar(s.subrange(
            from,
            if s.len() - from <= TITLES_PER_QUERY { s.len() as int } else { from + TITLES_PER_QUERY },
        ))] + title_batches_of(s.skip(
            if s.len() - from <= TITLES_PER_QUERY { s.len() as int } else { from + TITLES_PER_QUERY },
        )),
{
    let t = s.skip(from);
    if s.len() - from <= TITLES_PER_QUERY {
        assert(t =~= s.subrange(from, s.len() as int));
        assert(s.skip(s.len() as int) =~= Seq::<Seq<char>>::empty());
        assert(title_batches_of(s.skip(s.len() as int)) =~= Seq::<Seq<char>>::empty());
        assert(seq![join_bar(t)] + Seq::<Seq<char>>::empty() =~= seq![join_bar(t)]);
    } else {
        assert(t.take(TITLES_PER_QUERY as int) =~= s.subrange(from, from + TITLES_PER_QUERY));
        assert(t.skip(TITLES_PER_QUERY as int) =~= s.skip(from + TITLES_PER_QUERY));
    }
}

/// The `titles` parameters of the revision queries for these titles.
pub fn title_batches(titles: &Vec<String>) -> (r: Vec<String>)
    ensures
        strs_view(r@) == title_batches_of(strs_view(titles@)),
{
    let ghost s = strs_view(titles@);
    let n = titles.len();
    let mut out: Vec<String> = Vec::new();
    let mut from: usize = 0;
    assert(s.skip(0) =~= s);
    while from < n
        invariant
            s == strs_view(titles@),
            n == titles@.len(),
            from <= n,
            strs_view(out@) + title_batches_of(s.skip(from as int)) == title_batches_of(s),
        decreases n - from,
    {
        let to = if n - from <= TITLES_PER_QUERY { n } else { from + TITLES_PER_QUERY };
        let joined = join_titles(titles, from, to);
        proof {
            lemma_batches_step(s, from as int);
        }
        let ghost before = strs_view(out@);
        out.push(joined);
        assert(strs_view(out@) =~= before.push(joined@));
        assert(strs_view(out@) + title_batches_of(s.skip(to as int)) =~= before + title_batches_of(
            s.skip(from as int),
        ));
        from = to;
    }
    assert(s.skip(n as int) =~= Seq::<Seq<char>>::empty());
    assert(strs_view(out@) + Seq::<Seq<char>>::empty() =~= strs_view(out@));
    out
}

/// A latest revision as a plain value.
pub struct RevisionView {
    pub revision_id: Option<i64>,
    pub revision_timestamp: Option<Seq<char>>,
    pub missing: bool,
}

impl View for RevisionInfo {
    type V = RevisionView;

    open spec fn view(&self) -> RevisionView {
        RevisionView {
            revision_id: self.revision_id,
            revision_timestamp: opt_view(self.revision_timestamp),
            missing: self.missing,
        }
    }
}

fn copy_revision(r: &RevisionInfo) -> (c: RevisionInfo)
    ensures
        c@ == r@,
{
    RevisionInfo {
        revision_id: r.revision_id,
        revision_timestamp: copy_opt_string(&r.revision_timestamp),
        missing: r.missing,
    }
}

/// The latest revisions by title. Entries are kept in the order they were
/// written; a later entry for a title stands over an earlier one.
pub struct RevisionTable {
    pub entries: Vec<(String, RevisionInfo)>,
}

pub open spec fn entries_view(s: Seq<(String, RevisionInfo)>) -> Seq<(Seq<char>, RevisionView)> {
    s.map_values(|e: (String, RevisionInfo)| (e.0@, e.1@))
}

pub open spec fn map_of_entries(s: Seq<(Seq<char>, RevisionView)>) -> Map<Seq<char>, RevisionView>
    decreases s.len(),
{
    if s.len() == 0 {
        Map::empty()
    } else {
        map_of_entries(s.drop_last()).insert(s.last().0, s.last().1)
    }
}

impl View for RevisionTable {
    type V = Map<Seq<char>, RevisionView>;

    open spec fn view(&self) -> Map<Seq<char>, RevisionView> {
        map_of_entries(entries_view(self.entries@))
    }
}

/// The entry that stands for `key`: the last one written for it.
proof fn lemma_map_of_entries(s: Seq<(Seq<char>, RevisionView)>, key: Seq<char>, j: int)
    requires
        0 <= j < s.len(),
        s[j].0 == key,
        forall|k: int| j < k < s.len() ==> (#[trigger] s[k]).0 != key,
    ensures
        map_of_entries(s).contains_key(key),
        map_of_entries(s)[key] == s[j].1,
    decreases s.len(),
{
    if j < s.len() - 1 {
        lemma_map_of_entries(s.drop_last(), key, j);
    }
}

proof fn lemma_map_of_entries_absent(s: Seq<(Seq<char>, RevisionView)>, key: Seq<char>)
    requires
        forall|k: int| 0 <= k < s.len() ==> (#[trigger] s[k]).0 != key,
    ensures
        !map_of_entries(s).contains_key(key),
    decreases s.len(),
{
    if s.len() > 0 {
        lemma_map_of_entries_absent(s.drop_last(), key);
    }
}

impl RevisionTable {
    /// An empty table.
    pub fn new() -> (t: RevisionTable)
        ensures
            t@ == Map::<Seq<char>, RevisionView>::empty(),
    {
        let t = RevisionTable { entries: Vec::new() };
        assert(entries_view(t.entries@) =~= Seq::<(Seq<char>, RevisionView)>::empty());
        t
    }

    /// The latest revision known for a title.
    pub fn get(&self, title: &str) -> (r: Option<RevisionInfo>)
        ensures
            match r {
                Some(info) => self@.contains_key(title@) && info@ == self@[title@],
                None => !self@.contains_key(title@),
            },
    {
        let ghost s = entries_view(self.entries@);
        let mut i: usize = self.entries.len();
        while i > 0
            invariant
                s == entries_view(self.entries@),
                i <= self.entries@.len(),
                forall|k: int| i <= k < s.len() ==> (#[trigger] s[k]).0 != title@,
            decreases i,
        {
            i = i - 1;
            if str_eq(self.entries[i].0.as_str(), title) {
                proof {
                    lemma_map_of_entries(s, title@, i as int);
                }
                return Some(copy_revision(&self.entries[i].1));
            }
        }
        proof {
            lemma_map_of_entries_absent(s, title@);
        }
        None
    }

    /// Records the latest revision of a title.
    pub fn insert(&mut self, title: String, info: RevisionInfo)
        ensures
            final(self)@ == old(self)@.insert(title@, info@),
    {
        let ghost before = entries_view(self.entries@);
        let ghost key = title@;
        let ghost value = info@;
        self.entries.push((title, info));
        assert(entries_view(self.entries@) =~= before.push((key, value)));
        assert(entries_view(self.entries@).drop_last() =~= before);
    }
}

/// The revision a page's answer reports, if it reports one (an id or a
/// timestamp).
pub open spec fn page_revision(p: LiquipediaPage) -> Option<RevisionView> {
    let r = first_revision(p);
    if revision_id_of(r) is None && revision_timestamp_of(r) is None {
        None
    } else {
        Some(RevisionView {
            revision_id: revision_id_of(r),
            revision_timestamp: revision_timestamp_of(r),
            missing: p.missing,
        })
    }
}

pub open spec fn absorb_pages(m: Map<Seq<char>, RevisionView>, pages: Seq<LiquipediaPage>) -> Map<Seq<char>, RevisionView>
    decreases pages.len(),
{
    if pages.len() == 0 {
        m
    } else {
        let before = absorb_pages(m, pages.drop_last());
        match page_revision(pages.last()) {
            Some(r) => before.insert(pages.last().title@, r),
            None => before,
        }
    }
}

/// Each rewritten title gets the entry of the title it was rewritten to,
/// where that one has an entry.
pub open spec fn absorb_links(m: Map<Seq<char>, RevisionView>, links: Seq<LiquipediaNormalized>) -> Map<Seq<char>, RevisionView>
    decreases links.len(),
{
    if links.len() == 0 {
        m
    } else {
        let before = absorb_links(m, links.drop_last());
        let l = links.last();
        if before.contains_key(l.to@) {
            before.insert(l.from@, before[l.to@])
        } else {
            before
        }
    }
}

/// The table after one revision query's answer: its pages first, then its
/// normalised titles, then its redirects.
pub open spec fn absorb_query(m: Map<Seq<char>, RevisionView>, q: LiquipediaQueryInner) -> Map<Seq<char>, RevisionView> {
    absorb_links(absorb_links(absorb_pages(m, q.pages@), q.normalized@), q.redirects@)
}

impl RevisionTable {
    fn absorb_links_exec(&mut self, links: &Vec<LiquipediaNormalized>)
        ensures
            final(self)@ == absorb_links(old(self)@, links@),
    {
        let n = links.len();
        let mut i: usize = 0;
        while i < n
            invariant
                n == links@.len(),
                i <= n,
                self@ == absorb_links(old(self)@, links@.take(i as int)),
            decreases n - i,
        {
            assert(links@.take(i + 1).drop_last() =~= links@.take(i as int));
            let l = &links[i];
            match self.get(l.to.as_str()) {
                Some(info) => self.insert(copy_string(&l.from), info),
                None => {},
            }
            i = i + 1;
        }
        assert(links@.take(n as int) =~= links@);
    }

    /// Takes in the answer to one revision query.
    pub fn absorb(&mut self, query: &LiquipediaQueryInner)
        ensures
            final(self)@ == absorb_query(old(self)@, *query),
    {
        let pages = &query.pages;
        let n = pages.len();
        let mut i: usize = 0;
        while i < n
            invariant
                n == pages@.len(),
                i <= n,
                self@ == absorb_pages(old(self)@, pages@.take(i as int)),
            decreases n - i,
        {
            assert(pages@.take(i + 1).drop_last() =~= pages@.take(i as int));
            let p = &pages[i];
            let rev = first_revision_exec(p);
            match rev {
                Some(r) => {
                    if r.revid.is_some() || r.timestamp.is_some() {
                        self.insert(
                            copy_string(&p.title),
                            RevisionInfo { revision_id: r.revid, revision_timestamp: r.timestamp, missing: p.missing },
                        );
                    }
                },
                None => {},
            }
            i = i + 1;
        }
        assert(pages@.take(n as int) =~= pages@);
        self.absorb_links_exec(&query.normalized);
        self.absorb_links_exec(&query.redirects);
    }
}

} // verus!
