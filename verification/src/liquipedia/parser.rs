//! Wikitext parser for Liquipedia strategy pages. Locates `{{build}}` and
//! `{{Infobox strategy}}` templates with brace-aware scanning, extracts step
//! bullets and infobox fields, detects player race / opponent / difficulty,
//! and pulls the "Counter To" / "Countered By" sections.
//!
//! The parser works on the characters of the page; a template's position is
//! a character index.

use vstd::prelude::*;
use crate::types::{
    opt_infobox_view, opt_view, strs_view, Difficulty, InfoboxView, Opponent, ParsedInfobox, Race,
    RaceOrRandom, ParsedLiquipediaPage, ParsedVariant, PageView, VariantView,
    variants_view,
};
use crate::utils::{strip_char_bounds, strip_end_char, strip_start_char};
use crate::liquipedia::response::join_bar;
use crate::pattern::{
    group1, group1_str, is_match, is_match_str, replace_all_str, replace_first_str, replaced_all,
    replaced_first,
};
use crate::text::{
    chars_of, has_char, contains_char, find_char_exec, find_char_from, lemma_find_char_from,
    lines, lines_exec, lowercase, replace_exec, replace_str, skip_char_back, skip_char_back_exec,
    skip_char_from, skip_char_from_exec, lemma_skip_char_back, lemma_skip_char_from, slice_chars,
    split_char, split_char_exec, string_of, to_lowercase, to_uppercase, trim, trim_chars,
    trim_string, uppercase, utf8_head, utf8_head_exec, utf8_len, white_char, is_white, push_char,
    push_chars, chars_eq, str_eq, string_from, utf8_len_capped,
};

verus! {

pub const RE_HTML_COMMENT: &'static str = r"(?s)<!--.*?-->";
pub const RE_REF_TAG: &'static str = r"(?is)<ref[^>]*>.*?</ref>";
pub const RE_BR_TAG: &'static str = r"(?i)<br\s*/?>";
pub const RE_HTML_TAG: &'static str = r"<[^>]+>";
pub const RE_RACE_P: &'static str = r"\{\{[Pp]\}\}";
pub const RE_RACE_T: &'static str = r"\{\{[Tt]\}\}";
pub const RE_RACE_Z: &'static str = r"\{\{[Zz]\}\}";
pub const RE_TEMPLATE: &'static str = r"\{\{(?:[^{}]|\{[^{}]*\})*\}\}";
pub const RE_FILE_LINK: &'static str = r"(?i)\[\[(?:File|Image):[^\]]+\]\]";
pub const RE_PIPED_LINK: &'static str = r"\[\[([^|\]]+)\|([^\]]+)\]\]";
pub const RE_PLAIN_LINK: &'static str = r"\[\[([^\]]+)\]\]";
pub const RE_EXTERNAL_LINK: &'static str = r"\[https?://[^\s\]]+\s*([^\]]*)\]";
pub const RE_TRIPLE_QUOTE: &'static str = r"'''";
pub const RE_DOUBLE_QUOTE: &'static str = r"''";
pub const RE_WHITESPACE_RUN: &'static str = r"\s+";
pub const RE_NAMED_PARAM_KEY: &'static str = r"^[a-z][a-z0-9_-]*\s*=";
pub const RE_BULLET_PREFIX: &'static str = r"^\*+\s*";
pub const RE_LEADING_BULLET: &'static str = r"^\s*\*+";
pub const RE_LEADING_BULLET_STRIP: &'static str = r"^\s*\*+\s*";
pub const RE_SUPPLY_PREFIX: &'static str = "^\\d{1,3}(?:\\s*/\\s*\\d{1,3})?\\s*[-\u{2013}\u{2014}:.\\)]";
pub const RE_BEGINNER_CAT: &'static str = r"(?i)\[\[Category:[^\]]*Beginner\s*Strategy\]\]";
pub const RE_ADVANCED_CAT: &'static str = r"(?i)\[\[Category:[^\]]*Advanced\s*Strategy\]\]";
pub const RE_INTERMEDIATE_CAT: &'static str = r"(?i)\[\[Category:[^\]]*Intermediate\s*Strategy\]\]";
pub const RE_PVT_PATTERN: &'static str = r"(?i)\b([PTZ])v([PTZR])\b";
pub const RE_VS_TERRAN: &'static str = r"(?i)\b(?:vs\.?|versus)\s*Terran\b";
pub const RE_VS_ZERG: &'static str = r"(?i)\b(?:vs\.?|versus)\s*Zerg\b";
pub const RE_VS_PROTOSS: &'static str = r"(?i)\b(?:vs\.?|versus)\s*Protoss\b";
pub const RE_VS_RANDOM: &'static str = r"(?i)\b(?:vs\.?|versus)\s*Random\b";
pub const RE_VT_TITLE: &'static str = r"\bv?T\b";
pub const RE_PVT_HAYSTACK: &'static str = r"\b[PTZ]vT\b";
pub const RE_PVZ_HAYSTACK: &'static str = r"\b[PTZ]vZ\b";
pub const RE_PVP_HAYSTACK: &'static str = r"\b[PTZ]vP\b";
pub const RE_PVR_HAYSTACK: &'static str = r"\b[PTZ]vR\b";
pub const RE_MATCHUP_FIRST: &'static str = r"(?i)^([PTZ])v[PTZR]";
pub const RE_MATCHUP_SECOND: &'static str = r"(?i)^[PTZ]v([PTZR])";
pub const RE_INFOBOX_NAME: &'static str = r"(?i)^Infobox\s*strategy$";
pub const RE_BUILD_TEMPLATE_NAME: &'static str = r"(?i)^build$";
pub const RE_COUNTER_TO: &'static str = r"(?i)Counter\s*To";
pub const RE_COUNTERED_BY: &'static str = r"(?i)Counter(?:ed)?\s*By";

// ---------------------------------------------------------------------------
// strip_wiki_markup
// ---------------------------------------------------------------------------

/// A line of wikitext as plain text: comments, `<ref>`s and HTML tags
/// dropped (`<br>` becomes a space), race icons spelled out, other
/// templates dropped, links reduced to their label, bold/italic quotes
/// dropped, entities replaced, whitespace runs collapsed, and the result
/// trimmed.
pub open spec fn strip_markup(line: Seq<char>) -> Seq<char> {
    let s = replaced_all(RE_HTML_COMMENT@, line, ""@);
    let s = replaced_all(RE_REF_TAG@, s, ""@);
    let s = replaced_all(RE_BR_TAG@, s, " "@);
    let s = replaced_all(RE_HTML_TAG@, s, ""@);
    let s = replaced_all(RE_RACE_P@, s, "Protoss"@);
    let s = replaced_all(RE_RACE_T@, s, "Terran"@);
    let s = replaced_all(RE_RACE_Z@, s, "Zerg"@);
    let s = replaced_all(RE_TEMPLATE@, s, ""@);
    let s = replaced_all(RE_FILE_LINK@, s, ""@);
    let s = replaced_all(RE_PIPED_LINK@, s, "$2"@);
    let s = replaced_all(RE_PLAIN_LINK@, s, "$1"@);
    let s = replaced_all(RE_EXTERNAL_LINK@, s, "$1"@);
    let s = replaced_all(RE_TRIPLE_QUOTE@, s, ""@);
    let s = replaced_all(RE_DOUBLE_QUOTE@, s, ""@);
    let s = entities_replaced(s);
    let s = replaced_all(RE_WHITESPACE_RUN@, s, " "@);
    trim(s)
}

/// `&nbsp;`, `&ndash;` and `&mdash;` spelled as the characters they stand for.
pub open spec fn entities_replaced(s: Seq<char>) -> Seq<char> {
    let s = replace_str(s, "&nbsp;"@, " "@);
    let s = replace_str(s, "&ndash;"@, "\u{2013}"@);
    replace_str(s, "&mdash;"@, "\u{2014}"@)
}

/// Spells out the entities a line of wikitext may hold.
pub fn replace_entities(s: String) -> (r: String)
    ensures
        r@ == entities_replaced(s@),
{
    proof {
        reveal_strlit("&nbsp;");
        reveal_strlit("&ndash;");
        reveal_strlit("&mdash;");
    }
    let s = replace_entity(s, "&nbsp;", " ");
    let s = replace_entity(s, "&ndash;", "\u{2013}");
    replace_entity(s, "&mdash;", "\u{2014}")
}

fn replace_entity(s: String, from: &str, to: &str) -> (r: String)
    requires
        from@.len() > 0,
    ensures
        r@ == replace_str(s@, from@, to@),
{
    let v = chars_of(s.as_str());
    let f = chars_of(from);
    let t = chars_of(to);
    let out = replace_exec(v.as_slice(), f.as_slice(), t.as_slice());
    string_of(out.as_slice())
}

pub fn strip_wiki_markup(line: &str) -> (r: String)
    ensures
        r@ == strip_markup(line@),
{
    let s = replace_all_str(RE_HTML_COMMENT, line, "");
    let s = replace_all_str(RE_REF_TAG, s.as_str(), "");
    let s = replace_all_str(RE_BR_TAG, s.as_str(), " ");
    let s = replace_all_str(RE_HTML_TAG, s.as_str(), "");
    let s = replace_all_str(RE_RACE_P, s.as_str(), "Protoss");
    let s = replace_all_str(RE_RACE_T, s.as_str(), "Terran");
    let s = replace_all_str(RE_RACE_Z, s.as_str(), "Zerg");
    let s = replace_all_str(RE_TEMPLATE, s.as_str(), "");
    let s = replace_all_str(RE_FILE_LINK, s.as_str(), "");
    let s = replace_all_str(RE_PIPED_LINK, s.as_str(), "$2");
    let s = replace_all_str(RE_PLAIN_LINK, s.as_str(), "$1");
    let s = replace_all_str(RE_EXTERNAL_LINK, s.as_str(), "$1");
    let s = replace_all_str(RE_TRIPLE_QUOTE, s.as_str(), "");
    let s = replace_all_str(RE_DOUBLE_QUOTE, s.as_str(), "");
    let s = replace_entities(s);
    let s = replace_all_str(RE_WHITESPACE_RUN, s.as_str(), " ");
    trim_string(s.as_str())
}

// ---------------------------------------------------------------------------
// Templates
// ---------------------------------------------------------------------------

/// `{{` (or `}}` for `c == '}'`) starts at `j`.
pub open spec fn pair_at(s: Seq<char>, j: int, c: char) -> bool {
    0 <= j && j + 1 < s.len() && s[j] == c && s[j + 1] == c
}

/// Scans from `j` with `depth` open templates until they are all closed
/// or the text ends: where the scan stops and the depth left open.
pub open spec fn close_scan(s: Seq<char>, j: int, depth: int) -> (int, int)
    decreases s.len() - j,
{
    if 0 <= j < s.len() && depth > 0 {
        if pair_at(s, j, '{') {
            close_scan(s, j + 2, depth + 1)
        } else if pair_at(s, j, '}') {
            close_scan(s, j + 2, depth - 1)
        } else {
            close_scan(s, j + 1, depth)
        }
    } else {
        (j, depth)
    }
}

pub proof fn lemma_close_scan(s: Seq<char>, j: int, depth: int)
    requires
        0 <= j <= s.len(),
        depth > 0,
    ensures
        j <= close_scan(s, j, depth).0 <= s.len(),
        close_scan(s, j, depth).1 >= 0,
        close_scan(s, j, depth).1 == 0 ==> close_scan(s, j, depth).0 >= j + 2,
    decreases s.len() - j,
{
    if j < s.len() {
        if pair_at(s, j, '{') {
            lemma_close_scan(s, j + 2, depth + 1);
        } else if pair_at(s, j, '}') {
            if depth > 1 {
                lemma_close_scan(s, j + 2, depth - 1);
            } else {
                assert(close_scan(s, j + 2, depth - 1) == (j + 2, 0int));
            }
        } else {
            lemma_close_scan(s, j + 1, depth);
        }
    }
}

/// A template found in a page: its trimmed name, the text after the first
/// `|`, and where `{{` starts and `}}` ends.
pub struct TemplateSpan {
    pub name: Seq<char>,
    pub body: Seq<char>,
    pub start: int,
    pub end: int,
}

/// The template whose `{{` is at `i` and whose `}}` ends at `j`.
pub open spec fn template_at(s: Seq<char>, i: int, j: int) -> TemplateSpan {
    let inner = s.subrange(i + 2, j - 2);
    let k = find_char_from(inner, '|', 0);
    let name = if k < inner.len() {
        inner.take(k)
    } else {
        inner
    };
    let body = if k < inner.len() {
        inner.skip(k + 1)
    } else {
        Seq::empty()
    };
    TemplateSpan { name: trim(name), body, start: i, end: j }
}

/// The outermost templates from index `i` on whose trimmed name matches
/// `pat`, in order; scanning stops at a template that is never closed.
pub open spec fn templates_from(s: Seq<char>, pat: Seq<char>, i: int) -> Seq<TemplateSpan>
    decreases s.len() - i,
{
    if i < 0 || i + 1 >= s.len() {
        Seq::empty()
    } else if !pair_at(s, i, '{') {
        templates_from(s, pat, i + 1)
    } else {
        let (j, d) = close_scan(s, i + 2, 1);
        if d != 0 {
            Seq::empty()
        } else {
            proof {
                lemma_close_scan(s, i + 2, 1);
            }
            let t = template_at(s, i, j);
            let rest = templates_from(s, pat, j);
            if is_match(pat, t.name) {
                seq![t] + rest
            } else {
                rest
            }
        }
    }
}

pub struct Template {
    pub name: String,
    pub body: String,
    pub start: usize,
    pub end: usize,
}

impl View for Template {
    type V = TemplateSpan;

    open spec fn view(&self) -> TemplateSpan {
        TemplateSpan { name: self.name@, body: self.body@, start: self.start as int, end: self.end as int }
    }
}

fn close_scan_exec(v: &[char], start: usize) -> (r: (usize, usize))
    requires
        start <= v@.len(),
    ensures
        (r.0 as int, r.1 as int) == close_scan(v@, start as int, 1),
{
    let n = v.len();
    let mut j = start;
    let mut depth: usize = 1;
    while j < n && depth > 0
        invariant
            n == v@.len(),
            start <= j <= n,
            depth <= j + 1,
            close_scan(v@, start as int, 1) == close_scan(v@, j as int, depth as int),
        decreases n - j,
    {
        if j + 1 < n && v[j] == '{' && v[j + 1] == '{' {
            depth = depth + 1;
            j = j + 2;
        } else if j + 1 < n && v[j] == '}' && v[j + 1] == '}' {
            depth = depth - 1;
            j = j + 2;
        } else {
            j = j + 1;
        }
    }
    (j, depth)
}

fn template_at_exec(v: &[char], i: usize, j: usize) -> (t: Template)
    requires
        i + 4 <= j <= v@.len(),
    ensures
        t@ == template_at(v@, i as int, j as int),
{
    let inner = slice_chars(v, i + 2, j - 2);
    let k = find_char_exec(inner.as_slice(), '|', 0);
    let name = if k < inner.len() {
        slice_chars(inner.as_slice(), 0, k)
    } else {
        slice_chars(inner.as_slice(), 0, inner.len())
    };
    let body = if k < inner.len() {
        slice_chars(inner.as_slice(), k + 1, inner.len())
    } else {
        Vec::new()
    };
    proof {
        assert(inner@.subrange(0, inner@.len() as int) =~= inner@);
        assert(inner@.subrange(k as int, inner@.len() as int) =~= inner@.skip(k as int));
        if k < inner@.len() {
            assert(inner@.subrange(k + 1, inner@.len() as int) =~= inner@.skip(k + 1));
        }
    }
    let name = trim_chars(name.as_slice());
    Template { name: string_of(name.as_slice()), body: string_of(body.as_slice()), start: i, end: j }
}

/// The outermost templates of `v` whose trimmed name matches `pat`.
pub fn find_templates(v: &[char], pat: &str) -> (r: Vec<Template>)
    ensures
        r@.len() == templates_from(v@, pat@, 0).len(),
        forall|k: int| 0 <= k < r@.len() ==> #[trigger] r@[k]@ == templates_from(v@, pat@, 0)[k],
{
    let ghost s = v@;
    let n = v.len();
    let mut out: Vec<Template> = Vec::new();
    let ghost mut acc: Seq<TemplateSpan> = Seq::empty();
    let mut i: usize = 0;
    while n > 0 && i < n - 1
        invariant
            s == v@,
            n == s.len(),
            i <= n,
            acc.len() == out@.len(),
            forall|k: int| 0 <= k < out@.len() ==> #[trigger] out@[k]@ == acc[k],
            acc + templates_from(s, pat@, i as int) == templates_from(s, pat@, 0),
        decreases n - i,
    {
        if v[i] != '{' || v[i + 1] != '{' {
            i = i + 1;
            continue;
        }
        let (j, depth) = close_scan_exec(v, i + 2);
        proof {
            lemma_close_scan(s, i + 2, 1);
        }
        if depth != 0 {
            assert(acc + templates_from(s, pat@, i as int) =~= acc);
            return out;
        }
        let t = template_at_exec(v, i, j);
        if is_match_str(pat, t.name.as_str()) {
            proof {
                let old_acc = acc;
                acc = acc.push(t@);
                assert(old_acc + templates_from(s, pat@, i as int) =~= acc + templates_from(s, pat@, j as int));
            }
            out.push(t);
        }
        i = j;
    }
    assert(acc + templates_from(s, pat@, i as int) =~= acc);
    out
}


// ---------------------------------------------------------------------------
// Template bodies and parameters
// ---------------------------------------------------------------------------

/// The state of a split of a template body into `|`-separated parts:
/// finished parts, the part being read, and how many `{{` / `[[` are open.
pub struct BodySplit {
    pub parts: Seq<Seq<char>>,
    pub buf: Seq<char>,
    pub braces: int,
    pub brackets: int,
}

pub open spec fn body_step(st: BodySplit, s: Seq<char>, p: int) -> BodySplit {
    if pair_at(s, p, '{') {
        BodySplit { parts: st.parts, buf: st.buf.push('{'), braces: st.braces + 1, brackets: st.brackets }
    } else if pair_at(s, p, '}') {
        BodySplit {
            parts: st.parts,
            buf: st.buf.push('}'),
            braces: if st.braces > 0 { st.braces - 1 } else { 0 },
            brackets: st.brackets,
        }
    } else if pair_at(s, p, '[') {
        BodySplit { parts: st.parts, buf: st.buf.push('['), braces: st.braces, brackets: st.brackets + 1 }
    } else if pair_at(s, p, ']') {
        BodySplit {
            parts: st.parts,
            buf: st.buf.push(']'),
            braces: st.braces,
            brackets: if st.brackets > 0 { st.brackets - 1 } else { 0 },
        }
    } else if s[p] == '|' && st.braces == 0 && st.brackets == 0 {
        BodySplit { parts: st.parts.push(st.buf), buf: Seq::empty(), braces: 0, brackets: 0 }
    } else {
        BodySplit { parts: st.parts, buf: st.buf.push(s[p]), braces: st.braces, brackets: st.brackets }
    }
}

/// The split state after reading the first `k` characters of `s`.
pub open spec fn body_state(s: Seq<char>, k: int) -> BodySplit
    decreases k,
{
    if k <= 0 {
        BodySplit { parts: Seq::empty(), buf: Seq::empty(), braces: 0, brackets: 0 }
    } else {
        body_step(body_state(s, k - 1), s, k - 1)
    }
}

/// The `|`-separated parts of a template body; a `|` inside a nested
/// `{{..}}` or `[[..]]` does not separate. An empty body has no parts.
pub open spec fn split_body(s: Seq<char>) -> Seq<Seq<char>> {
    let st = body_state(s, s.len() as int);
    if st.buf.len() > 0 || st.parts.len() > 0 {
        st.parts.push(st.buf)
    } else {
        st.parts
    }
}

proof fn lemma_join_bar_push_char(ps: Seq<Seq<char>>, b: Seq<char>, c: char)
    ensures
        join_bar(ps.push(b.push(c))) == join_bar(ps.push(b)).push(c),
{
    reveal_strlit("|");
    if ps.len() == 0 {
        assert(ps.push(b.push(c)) =~= seq![b.push(c)]);
        assert(ps.push(b) =~= seq![b]);
    } else {
        assert(ps.push(b.push(c)).drop_last() =~= ps);
        assert(ps.push(b).drop_last() =~= ps);
        assert(join_bar(ps) + "|"@ + b.push(c) =~= (join_bar(ps) + "|"@ + b).push(c));
    }
}

/// The parts read so far, with the part being read, joined with `|`, give
/// back what was read.
proof fn lemma_body_state_joins(s: Seq<char>, k: int)
    requires
        0 <= k <= s.len(),
    ensures
        join_bar(body_state(s, k).parts.push(body_state(s, k).buf)) == s.take(k),
    decreases k,
{
    reveal_strlit("|");
    if k == 0 {
        let st = body_state(s, 0);
        assert(st.parts.push(st.buf) =~= seq![Seq::<char>::empty()]);
        assert(s.take(0) =~= Seq::<char>::empty());
    } else {
        lemma_body_state_joins(s, k - 1);
        let st = body_state(s, k - 1);
        let p = k - 1;
        assert(s.take(k) =~= s.take(p).push(s[p]));
        if s[p] == '|' && st.braces == 0 && st.brackets == 0 && !pair_at(s, p, '{') && !pair_at(s, p, '}')
            && !pair_at(s, p, '[') && !pair_at(s, p, ']') {
            let ps = st.parts.push(st.buf);
            assert(ps.push(Seq::<char>::empty()).drop_last() =~= ps);
            assert(join_bar(ps) + "|"@ + Seq::<char>::empty() =~= s.take(k));
        } else {
            lemma_join_bar_push_char(st.parts, st.buf, s[p]);
        }
    }
}

/// Splitting a template body loses nothing: its parts joined with `|` give
/// the body back, and an empty body has no parts.
pub proof fn lemma_split_body_joins(s: Seq<char>)
    ensures
        join_bar(split_body(s)) == s,
        s.len() == 0 ==> split_body(s).len() == 0,
{
    lemma_body_state_joins(s, s.len() as int);
    assert(s.take(s.len() as int) =~= s);
    let st = body_state(s, s.len() as int);
    if !(st.buf.len() > 0 || st.parts.len() > 0) {
        assert(st.parts.push(st.buf) =~= seq![st.buf]);
        assert(st.buf =~= Seq::<char>::empty());
        assert(st.parts =~= Seq::<Seq<char>>::empty());
    }
}

pub open spec fn vecs_view(v: Seq<Vec<char>>) -> Seq<Seq<char>> {
    v.map_values(|x: Vec<char>| x@)
}

fn split_body_chars(body: &[char]) -> (r: Vec<Vec<char>>)
    ensures
        vecs_view(r@) == split_body(body@),
{
    let ghost s = body@;
    let n = body.len();
    let mut parts: Vec<Vec<char>> = Vec::new();
    let mut buf: Vec<char> = Vec::new();
    let mut braces: usize = 0;
    let mut brackets: usize = 0;
    let mut i: usize = 0;
    while i < n
        invariant
            s == body@,
            n == s.len(),
            i <= n,
            braces <= i,
            brackets <= i,
            vecs_view(parts@) == body_state(s, i as int).parts,
            buf@ == body_state(s, i as int).buf,
            braces == body_state(s, i as int).braces,
            brackets == body_state(s, i as int).brackets,
        decreases n - i,
    {
        let c = body[i];
        let two = i + 1 < n;
        if two && c == '{' && body[i + 1] == '{' {
            braces = braces + 1;
            buf.push('{');
        } else if two && c == '}' && body[i + 1] == '}' {
            if braces > 0 {
                braces = braces - 1;
            }
            buf.push('}');
        } else if two && c == '[' && body[i + 1] == '[' {
            brackets = brackets + 1;
            buf.push('[');
        } else if two && c == ']' && body[i + 1] == ']' {
            if brackets > 0 {
                brackets = brackets - 1;
            }
            buf.push(']');
        } else if c == '|' && braces == 0 && brackets == 0 {
            let ghost before = parts@;
            let done = buf;
            buf = Vec::new();
            parts.push(done);
            assert(vecs_view(parts@) =~= vecs_view(before).push(done@));
        } else {
            buf.push(c);
        }
        i = i + 1;
    }
    if buf.len() > 0 || parts.len() > 0 {
        let ghost before = parts@;
        let b = buf;
        parts.push(b);
        assert(vecs_view(parts@) =~= vecs_view(before).push(b@));
    }
    parts
}

/// The `|`-separated parts of a template body (a `|` inside `{{..}}` or
/// `[[..]]` does not separate).
pub fn split_template_body(body: &str) -> (r: Vec<String>)
    ensures
        strs_view(r@) == split_body(body@),
{
    let chars = chars_of(body);
    let parts = split_body_chars(chars.as_slice());
    let mut out: Vec<String> = Vec::new();
    let n = parts.len();
    let mut i: usize = 0;
    while i < n
        invariant
            n == parts@.len(),
            i <= n,
            strs_view(out@) == vecs_view(parts@).take(i as int),
        decreases n - i,
    {
        let ghost before = strs_view(out@);
        out.push(string_of(parts[i].as_slice()));
        assert(strs_view(out@) =~= before.push(vecs_view(parts@)[i as int]));
        assert(vecs_view(parts@).take(i + 1) =~= vecs_view(parts@).take(i as int).push(vecs_view(parts@)[i as int]));
        i = i + 1;
    }
    assert(vecs_view(parts@).take(n as int) =~= vecs_view(parts@));
    out
}

/// A `key=value` part: the key trimmed and lower-cased, the value as is.
pub open spec fn param_entry(part: Seq<char>) -> Option<(Seq<char>, Seq<char>)> {
    let k = find_char_from(part, '=', 0);
    if k < part.len() {
        Some((lowercase(trim(part.take(k))), part.skip(k + 1)))
    } else {
        None
    }
}

pub open spec fn param_entries(parts: Seq<Seq<char>>) -> Seq<(Seq<char>, Seq<char>)>
    decreases parts.len(),
{
    if parts.len() == 0 {
        Seq::empty()
    } else {
        let prev = param_entries(parts.drop_last());
        match param_entry(parts.last()) {
            Some(e) => prev.push(e),
            None => prev,
        }
    }
}

/// The value stored last under `key`.
pub open spec fn lookup_param(es: Seq<(Seq<char>, Seq<char>)>, key: Seq<char>) -> Option<Seq<char>>
    decreases es.len(),
{
    if es.len() == 0 {
        None
    } else if es.last().0 == key {
        Some(es.last().1)
    } else {
        lookup_param(es.drop_last(), key)
    }
}

/// The named parameter `key` of a template body.
pub open spec fn template_param(body: Seq<char>, key: Seq<char>) -> Option<Seq<char>> {
    lookup_param(param_entries(split_body(body)), key)
}

/// The named parameters of a template body, in order.
struct TemplateParams {
    named: Vec<(String, String)>,
}

spec fn entries_view(v: Seq<(String, String)>) -> Seq<(Seq<char>, Seq<char>)> {
    v.map_values(|e: (String, String)| (e.0@, e.1@))
}

fn parse_template_params(body: &[char]) -> (p: TemplateParams)
    ensures
        entries_view(p.named@) == param_entries(split_body(body@)),
{
    let parts = split_body_chars(body);
    let ghost ps = vecs_view(parts@);
    let mut named: Vec<(String, String)> = Vec::new();
    let n = parts.len();
    let mut i: usize = 0;
    while i < n
        invariant
            n == parts@.len(),
            ps == vecs_view(parts@),
            ps == split_body(body@),
            i <= n,
            entries_view(named@) == param_entries(ps.take(i as int)),
        decreases n - i,
    {
        let part = &parts[i];
        assert(ps.take(i + 1).drop_last() =~= ps.take(i as int));
        assert(ps.take(i + 1).last() == part@);
        let k = find_char_exec(part.as_slice(), '=', 0);
        if k < part.len() {
            let key_raw = slice_chars(part.as_slice(), 0, k);
            assert(key_raw@ =~= part@.take(k as int));
            let key_trim = trim_chars(key_raw.as_slice());
            let key_str = string_of(key_trim.as_slice());
            let key = to_lowercase(key_str.as_str());
            let val = slice_chars(part.as_slice(), k + 1, part.len());
            assert(val@ =~= part@.skip(k + 1));
            let ghost before = named@;
            named.push((key, string_of(val.as_slice())));
            assert(entries_view(named@) =~= entries_view(before).push(
                (lowercase(trim(part@.take(k as int))), part@.skip(k + 1)),
            ));
        }
        i = i + 1;
    }
    assert(ps.take(n as int) =~= ps);
    TemplateParams { named }
}

/// The value stored last under `key`.
fn param_get(p: &TemplateParams, key: &str) -> (r: Option<String>)
    ensures
        opt_view(r) == lookup_param(entries_view(p.named@), key@),
{
    let ghost es = entries_view(p.named@);
    let mut k = p.named.len();
    assert(es.take(k as int) =~= es);
    while k > 0
        invariant
            k <= p.named@.len(),
            es == entries_view(p.named@),
            lookup_param(es, key@) == lookup_param(es.take(k as int), key@),
        decreases k,
    {
        let e = &p.named[k - 1];
        assert(es.take(k as int).drop_last() =~= es.take(k - 1));
        assert(es.take(k as int).last() == (e.0@, e.1@));
        if str_eq(e.0.as_str(), key) {
            return Some(string_from(e.1.as_str()));
        }
        k = k - 1;
    }
    assert(es.take(0) =~= Seq::<(Seq<char>, Seq<char>)>::empty());
    None
}


// ---------------------------------------------------------------------------
// {{build}} bodies
// ---------------------------------------------------------------------------

/// A body line that is a bullet, as a step (`None` for other lines).
pub open spec fn bullet_step(raw: Seq<char>) -> Option<Seq<char>> {
    let line = trim(raw.take(skip_char_back(raw, '\r', 0, raw.len() as int)));
    if line.len() == 0 || !is_match(RE_BULLET_PREFIX@, line) {
        None
    } else {
        let cleaned = strip_markup(replaced_first(RE_BULLET_PREFIX@, line, ""@));
        if cleaned.len() == 0 {
            None
        } else {
            Some(cleaned)
        }
    }
}

pub open spec fn bullet_steps(ls: Seq<Seq<char>>) -> Seq<Seq<char>>
    decreases ls.len(),
{
    if ls.len() == 0 {
        Seq::empty()
    } else {
        let prev = bullet_steps(ls.drop_last());
        match bullet_step(ls.last()) {
            Some(x) => prev.push(x),
            None => prev,
        }
    }
}

/// A body part of the form `key=value` (lower-case key).
pub open spec fn is_named_part(part: Seq<char>) -> bool {
    let t = trim(part);
    has_char(t, '=') && is_match(RE_NAMED_PARAM_KEY@, lowercase(t))
}

pub open spec fn part_steps(part: Seq<char>) -> Seq<Seq<char>> {
    if is_named_part(part) {
        Seq::empty()
    } else {
        bullet_steps(split_char(part, '\n'))
    }
}

pub open spec fn parts_steps(parts: Seq<Seq<char>>) -> Seq<Seq<char>>
    decreases parts.len(),
{
    if parts.len() == 0 {
        Seq::empty()
    } else {
        parts_steps(parts.drop_last()) + part_steps(parts.last())
    }
}

/// The steps of a `{{build}}` body: the bullet lines of its unnamed parts,
/// bullet and markup stripped, empty ones dropped.
pub open spec fn build_body_steps(body: Seq<char>) -> Seq<Seq<char>> {
    parts_steps(split_body(body))
}

fn bullet_step_exec(raw: &[char]) -> (r: Option<String>)
    ensures
        opt_view(r) == bullet_step(raw@),
{
    let end = skip_char_back_exec(raw, '\r', 0, raw.len());
    let head = slice_chars(raw, 0, end);
    assert(head@ =~= raw@.take(end as int));
    let line_v = trim_chars(head.as_slice());
    let line = string_of(line_v.as_slice());
    if line_v.len() == 0 || !is_match_str(RE_BULLET_PREFIX, line.as_str()) {
        return None;
    }
    let stripped = replace_first_str(RE_BULLET_PREFIX, line.as_str(), "");
    let cleaned = strip_wiki_markup(stripped.as_str());
    if cleaned.as_str().unicode_len() == 0 {
        None
    } else {
        Some(cleaned)
    }
}

fn part_steps_exec(part: &[char], out: &mut Vec<String>)
    ensures
        strs_view(final(out)@) == strs_view(old(out)@) + part_steps(part@),
{
    let trimmed = trim_chars(part);
    if contains_char(trimmed.as_slice(), '=') {
        let t = string_of(trimmed.as_slice());
        let lower = to_lowercase(t.as_str());
        if is_match_str(RE_NAMED_PARAM_KEY, lower.as_str()) {
            assert(strs_view(out@) =~= strs_view(out@) + Seq::<Seq<char>>::empty());
            return;
        }
    }
    let pieces = split_char_exec(part, '\n');
    let ghost ls = split_char(part@, '\n');
    let ghost base = strs_view(out@);
    let n = pieces.len();
    let mut i: usize = 0;
    while i < n
        invariant
            n == pieces@.len() == ls.len(),
            ls == split_char(part@, '\n'),
            forall|k: int| 0 <= k < n ==> #[trigger] pieces@[k]@ == ls[k],
            i <= n,
            strs_view(out@) == base + bullet_steps(ls.take(i as int)),
        decreases n - i,
    {
        assert(ls.take(i + 1).drop_last() =~= ls.take(i as int));
        assert(ls.take(i + 1).last() == pieces@[i as int]@);
        match bullet_step_exec(pieces[i].as_slice()) {
            Some(step) => {
                let ghost before = strs_view(out@);
                out.push(step);
                assert(strs_view(out@) =~= before.push(step@));
            },
            None => {},
        }
        i = i + 1;
    }
    assert(ls.take(n as int) =~= ls);
}


/// The steps of a `{{build}}` body.
pub fn parse_build_body(body: &str) -> (r: Vec<String>)
    ensures
        strs_view(r@) == build_body_steps(body@),
{
    let chars = chars_of(body);
    let parts = split_body_chars(chars.as_slice());
    let ghost ps = vecs_view(parts@);
    let mut out: Vec<String> = Vec::new();
    let n = parts.len();
    let mut i: usize = 0;
    while i < n
        invariant
            n == parts@.len(),
            ps == vecs_view(parts@),
            ps == split_body(body@),
            i <= n,
            strs_view(out@) == parts_steps(ps.take(i as int)),
        decreases n - i,
    {
        assert(ps.take(i + 1).drop_last() =~= ps.take(i as int));
        assert(ps.take(i + 1).last() == parts@[i as int]@);
        part_steps_exec(parts[i].as_slice(), &mut out);
        i = i + 1;
    }
    assert(ps.take(n as int) =~= ps);
    out
}

// ---------------------------------------------------------------------------
// Headings
// ---------------------------------------------------------------------------

/// `== Foo ==`-style headings: 2 to 5 `=` on each side, the same number
/// on both, and something between them. The level and the trimmed inner
/// text.
pub open spec fn heading_of(line: Seq<char>) -> Option<(nat, Seq<char>)> {
    let t = trim(line);
    let opening = skip_char_from(t, '=', 0);
    let inner_end = skip_char_back(t, '=', 0, t.len() as int);
    let trailing = t.len() - inner_end;
    if opening < 2 || opening > 5 || trailing != opening || t.len() < opening + trailing {
        None
    } else {
        Some((opening as nat, trim(t.subrange(opening, inner_end))))
    }
}

fn heading_in(line: &[char]) -> (r: Option<(usize, String)>)
    ensures
        match r {
            Some((level, inner)) => heading_of(line@) == Some((level as nat, inner@)),
            None => heading_of(line@) is None,
        },
{
    let t = trim_chars(line);
    let ghost tv = t@;
    let n = t.len();
    let opening = skip_char_from_exec(t.as_slice(), '=', 0);
    let inner_end = skip_char_back_exec(t.as_slice(), '=', 0, n);
    let trailing = n - inner_end;
    if opening < 2 || opening > 5 || trailing != opening || n < opening + trailing {
        return None;
    }
    let inner = slice_chars(t.as_slice(), opening, inner_end);
    let inner_t = trim_chars(inner.as_slice());
    Some((opening, string_of(inner_t.as_slice())))
}

/// Reads a `== Foo ==`-style heading line: its level and trimmed text.
pub fn parse_heading(line: &str) -> (r: Option<(usize, String)>)
    ensures
        match r {
            Some((level, inner)) => heading_of(line@) == Some((level as nat, inner@)),
            None => heading_of(line@) is None,
        },
{
    let v = chars_of(line);
    heading_in(v.as_slice())
}


/// The cleaned text of a heading line with something between its `=`s.
pub open spec fn heading_text(line: Seq<char>) -> Option<Seq<char>> {
    match heading_of(line) {
        Some((_, inner)) => if inner.len() > 0 {
            Some(strip_markup(inner))
        } else {
            None
        },
        None => None,
    }
}

/// The text of the last heading among `ls`.
pub open spec fn last_heading(ls: Seq<Seq<char>>) -> Option<Seq<char>>
    decreases ls.len(),
{
    if ls.len() == 0 {
        None
    } else {
        match heading_text(ls.last()) {
            Some(h) => Some(h),
            None => last_heading(ls.drop_last()),
        }
    }
}

/// The last heading before character `position` of `s`.
pub open spec fn preceding_heading(s: Seq<char>, position: int) -> Option<Seq<char>> {
    let cut = if position < s.len() {
        position
    } else {
        s.len() as int
    };
    last_heading(lines(s.take(cut)))
}

fn heading_text_exec(line: &[char]) -> (r: Option<String>)
    ensures
        opt_view(r) == heading_text(line@),
{
    match heading_in(line) {
        Some((_, inner)) => {
            if inner.as_str().unicode_len() > 0 {
                Some(strip_wiki_markup(inner.as_str()))
            } else {
                None
            }
        },
        None => None,
    }
}

fn find_preceding_heading(v: &[char], position: usize) -> (r: Option<String>)
    ensures
        opt_view(r) == preceding_heading(v@, position as int),
{
    let cut = if position < v.len() {
        position
    } else {
        v.len()
    };
    let head = slice_chars(v, 0, cut);
    assert(head@ =~= v@.take(cut as int));
    let ls = lines_exec(head.as_slice());
    let ghost lv = lines(head@);
    let mut last: Option<String> = None;
    let n = ls.len();
    let mut i: usize = 0;
    while i < n
        invariant
            n == ls@.len() == lv.len(),
            lv == lines(head@),
            forall|k: int| 0 <= k < n ==> #[trigger] ls@[k]@ == lv[k],
            i <= n,
            opt_view(last) == last_heading(lv.take(i as int)),
        decreases n - i,
    {
        assert(lv.take(i + 1).drop_last() =~= lv.take(i as int));
        assert(lv.take(i + 1).last() == ls@[i as int]@);
        match heading_text_exec(ls[i].as_slice()) {
            Some(h) => {
                last = Some(h);
            },
            None => {},
        }
        i = i + 1;
    }
    assert(lv.take(n as int) =~= lv);
    last
}

// ---------------------------------------------------------------------------
// Infobox
// ---------------------------------------------------------------------------

pub open spec fn is_token_delim(c: char) -> bool {
    c == ',' || is_white(c)
}

/// Tokens so far and the token being read, after reading `s`.
pub open spec fn token_state(s: Seq<char>) -> (Seq<Seq<char>>, Seq<char>)
    decreases s.len(),
{
    if s.len() == 0 {
        (Seq::empty(), Seq::empty())
    } else {
        let (done, cur) = token_state(s.drop_last());
        if is_token_delim(s.last()) {
            if cur.len() > 0 {
                (done.push(cur), Seq::empty())
            } else {
                (done, Seq::empty())
            }
        } else {
            (done, cur.push(s.last()))
        }
    }
}

/// The non-empty pieces of `s` between commas and whitespace.
pub open spec fn tokens(s: Seq<char>) -> Seq<Seq<char>> {
    let (done, cur) = token_state(s);
    if cur.len() > 0 {
        done.push(cur)
    } else {
        done
    }
}

fn tokens_exec(v: &[char]) -> (r: Vec<String>)
    ensures
        strs_view(r@) == tokens(v@),
{
    let ghost s = v@;
    let mut done: Vec<String> = Vec::new();
    let mut cur: Vec<char> = Vec::new();
    let n = v.len();
    let mut i: usize = 0;
    while i < n
        invariant
            s == v@,
            n == s.len(),
            i <= n,
            (strs_view(done@), cur@) == token_state(s.take(i as int)),
        decreases n - i,
    {
        let c = v[i];
        assert(s.take(i + 1).drop_last() =~= s.take(i as int));
        if c == ',' || white_char(c) {
            if cur.len() > 0 {
                let ghost before = strs_view(done@);
                done.push(string_of(cur.as_slice()));
                assert(strs_view(done@) =~= before.push(cur@));
            }
            cur = Vec::new();
        } else {
            cur.push(c);
        }
        i = i + 1;
    }
    assert(s.take(n as int) =~= s);
    if cur.len() > 0 {
        let ghost before = strs_view(done@);
        done.push(string_of(cur.as_slice()));
        assert(strs_view(done@) =~= before.push(cur@));
    }
    done
}

/// How a race field reads: `P`/`T`/`Z`/`R` in either case, else the first
/// letter of the lower-cased text; nothing for an empty field.
pub open spec fn race_or_random(value: Seq<char>) -> Option<RaceOrRandom> {
    let s = trim(value);
    race_from_case(s, uppercase(s), lowercase(s))
}

/// How a trimmed race field `s` reads, given its upper-cased and
/// lower-cased forms.
pub open spec fn race_from_case(s: Seq<char>, u: Seq<char>, l: Seq<char>) -> Option<RaceOrRandom> {
    if s.len() == 0 {
        None
    } else if u == "P"@ {
        Some(RaceOrRandom::Race(Race::Protoss))
    } else if u == "T"@ {
        Some(RaceOrRandom::Race(Race::Terran))
    } else if u == "Z"@ {
        Some(RaceOrRandom::Race(Race::Zerg))
    } else if u == "R"@ {
        Some(RaceOrRandom::Random)
    } else if l.len() > 0 && l[0] == 'p' {
        Some(RaceOrRandom::Race(Race::Protoss))
    } else if l.len() > 0 && l[0] == 't' {
        Some(RaceOrRandom::Race(Race::Terran))
    } else if l.len() > 0 && l[0] == 'z' {
        Some(RaceOrRandom::Race(Race::Zerg))
    } else if l.len() > 0 && l[0] == 'r' {
        Some(RaceOrRandom::Random)
    } else {
        None
    }
}

/// A race field reads by its letter: upper-cased `P`, `T`, `Z` give
/// Protoss, Terran, Zerg and `R` Random; otherwise the first letter of the
/// lower-cased text decides (`p`, `t`, `z`, `r` alike). A non-empty field
/// whose lower-cased text starts with one of those letters always reads as
/// something, and an empty one reads as nothing.
pub proof fn lemma_race_letters(s: Seq<char>, u: Seq<char>, l: Seq<char>)
    ensures
        s.len() == 0 ==> race_from_case(s, u, l) is None,
        s.len() > 0 && u == seq!['P'] ==> race_from_case(s, u, l) == Some(RaceOrRandom::Race(Race::Protoss)),
        s.len() > 0 && u == seq!['T'] ==> race_from_case(s, u, l) == Some(RaceOrRandom::Race(Race::Terran)),
        s.len() > 0 && u == seq!['Z'] ==> race_from_case(s, u, l) == Some(RaceOrRandom::Race(Race::Zerg)),
        s.len() > 0 && u == seq!['R'] ==> race_from_case(s, u, l) == Some(RaceOrRandom::Random),
        s.len() > 0 && l.len() > 0 && u != seq!['P'] && u != seq!['T'] && u != seq!['Z'] && u != seq!['R'] ==> {
            &&& l[0] == 'p' ==> race_from_case(s, u, l) == Some(RaceOrRandom::Race(Race::Protoss))
            &&& l[0] == 't' ==> race_from_case(s, u, l) == Some(RaceOrRandom::Race(Race::Terran))
            &&& l[0] == 'z' ==> race_from_case(s, u, l) == Some(RaceOrRandom::Race(Race::Zerg))
            &&& l[0] == 'r' ==> race_from_case(s, u, l) == Some(RaceOrRandom::Random)
            &&& l[0] != 'p' && l[0] != 't' && l[0] != 'z' && l[0] != 'r' ==> race_from_case(s, u, l) is None
        },
        s.len() > 0 && l.len() > 0 && (l[0] == 'p' || l[0] == 't' || l[0] == 'z' || l[0] == 'r')
            ==> race_from_case(s, u, l) is Some,
        s.len() > 0 && l.len() == 0 && u != seq!['P'] && u != seq!['T'] && u != seq!['Z'] && u != seq!['R']
            ==> race_from_case(s, u, l) is None,
{
    reveal_strlit("P");
    reveal_strlit("T");
    reveal_strlit("Z");
    reveal_strlit("R");
    assert("P"@ =~= seq!['P']);
    assert("T"@ =~= seq!['T']);
    assert("Z"@ =~= seq!['Z']);
    assert("R"@ =~= seq!['R']);
    assert(seq!['P'][0] == 'P' && seq!['T'][0] == 'T' && seq!['Z'][0] == 'Z' && seq!['R'][0] == 'R');
    assert(seq!['T'] != seq!['P']);
    assert(seq!['Z'] != seq!['P'] && seq!['Z'] != seq!['T']);
}

/// Reads a trimmed race field from the field and its upper- and
/// lower-cased forms.
pub fn race_from_forms(trimmed: &str, upper: &str, lower: &str) -> (r: Option<RaceOrRandom>)
    ensures
        r == race_from_case(trimmed@, upper@, lower@),
{
    if trimmed.unicode_len() == 0 {
        return None;
    }
    if str_eq(upper, "P") {
        return Some(RaceOrRandom::Race(Race::Protoss));
    }
    if str_eq(upper, "T") {
        return Some(RaceOrRandom::Race(Race::Terran));
    }
    if str_eq(upper, "Z") {
        return Some(RaceOrRandom::Race(Race::Zerg));
    }
    if str_eq(upper, "R") {
        return Some(RaceOrRandom::Random);
    }
    let lv = chars_of(lower);
    if lv.len() > 0 && lv[0] == 'p' {
        Some(RaceOrRandom::Race(Race::Protoss))
    } else if lv.len() > 0 && lv[0] == 't' {
        Some(RaceOrRandom::Race(Race::Terran))
    } else if lv.len() > 0 && lv[0] == 'z' {
        Some(RaceOrRandom::Race(Race::Zerg))
    } else if lv.len() > 0 && lv[0] == 'r' {
        Some(RaceOrRandom::Random)
    } else {
        None
    }
}

pub fn normalize_race(value: &str) -> (r: Option<RaceOrRandom>)
    ensures
        r == race_or_random(value@),
{
    let s = trim_string(value);
    let upper = to_uppercase(s.as_str());
    let lower = to_lowercase(s.as_str());
    race_from_forms(s.as_str(), upper.as_str(), lower.as_str())
}

/// The race a field names (`None` for Random or no race).
pub open spec fn race_of_field(v: Seq<char>) -> Option<Race> {
    match race_or_random(v) {
        Some(RaceOrRandom::Race(r)) => Some(r),
        _ => None,
    }
}

pub open spec fn cleaned_field(v: Option<Seq<char>>) -> Option<Seq<char>> {
    match v {
        Some(x) => Some(trim(strip_markup(x))),
        None => None,
    }
}

/// The first `{{Infobox strategy}}` of a page, read.
pub open spec fn infobox_of(s: Seq<char>) -> Option<InfoboxView> {
    let ts = templates_from(s, RE_INFOBOX_NAME@, 0);
    if ts.len() == 0 {
        None
    } else {
        let body = ts[0].body;
        Some(
            InfoboxView {
                name: cleaned_field(template_param(body, "name"@)),
                race: match template_param(body, "race"@) {
                    Some(v) => race_of_field(v),
                    None => None,
                },
                matchups: match template_param(body, "matchups"@) {
                    Some(v) => Some(tokens(strip_markup(v))),
                    None => None,
                },
                creator: cleaned_field(template_param(body, "creator"@)),
                popularized: cleaned_field(template_param(body, "popularized"@)),
            },
        )
    }
}

fn cleaned_field_exec(v: Option<String>) -> (r: Option<String>)
    ensures
        opt_view(r) == cleaned_field(opt_view(v)),
{
    match v {
        Some(x) => {
            let c = strip_wiki_markup(x.as_str());
            Some(trim_string(c.as_str()))
        },
        None => None,
    }
}

fn infobox_in(v: &[char]) -> (r: Option<ParsedInfobox>)
    ensures
        opt_infobox_view(r) == infobox_of(v@),
{
    let found = find_templates(v, RE_INFOBOX_NAME);
    if found.len() == 0 {
        return None;
    }
    assert(found@[0]@ == templates_from(v@, RE_INFOBOX_NAME@, 0)[0]);
    let body = chars_of(found[0].body.as_str());
    let params = parse_template_params(body.as_slice());
    let name = cleaned_field_exec(param_get(&params, "name"));
    let race = match param_get(&params, "race") {
        Some(x) => match normalize_race(x.as_str()) {
            Some(RaceOrRandom::Race(r)) => Some(r),
            _ => None,
        },
        None => None,
    };
    let matchups = match param_get(&params, "matchups") {
        Some(x) => {
            let cleaned = strip_wiki_markup(x.as_str());
            let cv = chars_of(cleaned.as_str());
            Some(tokens_exec(cv.as_slice()))
        },
        None => None,
    };
    let creator = cleaned_field_exec(param_get(&params, "creator"));
    let popularized = cleaned_field_exec(param_get(&params, "popularized"));
    Some(ParsedInfobox { name, race, matchups, creator, popularized })
}

/// The first `{{Infobox strategy}}` of a page, read.
pub fn parse_infobox(wikitext: &str) -> (r: Option<ParsedInfobox>)
    ensures
        opt_infobox_view(r) == infobox_of(wikitext@),
{
    let v = chars_of(wikitext);
    infobox_in(v.as_slice())
}


// ---------------------------------------------------------------------------
// Race, opponent, difficulty
// ---------------------------------------------------------------------------

pub open spec fn opt_ref_infobox_view(o: Option<&ParsedInfobox>) -> Option<InfoboxView> {
    match o {
        Some(b) => Some(b@),
        None => None,
    }
}

/// The first matchup listed in an infobox.
pub open spec fn first_matchup(ib: Option<InfoboxView>) -> Option<Seq<char>> {
    match ib {
        Some(b) => match b.matchups {
            Some(m) => if m.len() > 0 {
                Some(m[0])
            } else {
                None
            },
            None => None,
        },
        None => None,
    }
}

/// `title`, a newline, and the first `limit` bytes of `text`.
pub open spec fn haystack(title: Seq<char>, text: Seq<char>, limit: int) -> Seq<char> {
    title + seq!['\n'] + utf8_head(text, limit)
}

/// The player's race: the infobox race; else the first letter of the first
/// `XvY` in the title and the first 2000 bytes of the page; else the first
/// letter of the infobox's first matchup.
pub open spec fn player_race_of(title: Seq<char>, ib: Option<InfoboxView>, text: Seq<char>) -> Option<Race> {
    let from_infobox = match ib {
        Some(b) => b.race,
        None => None,
    };
    let from_text = match group1(RE_PVT_PATTERN@, haystack(title, text, 2000)) {
        Some(l) => race_of_field(l),
        None => None,
    };
    let from_matchups = match first_matchup(ib) {
        Some(m) => match group1(RE_MATCHUP_FIRST@, m) {
            Some(l) => race_of_field(l),
            None => None,
        },
        None => None,
    };
    first_race(from_infobox, from_text, from_matchups)
}

/// The first race known, in the order given.
pub open spec fn first_race(a: Option<Race>, b: Option<Race>, c: Option<Race>) -> Option<Race> {
    if a is Some {
        a
    } else if b is Some {
        b
    } else {
        c
    }
}

/// The player's race from what the infobox, the page text and the
/// infobox's first matchup give.
pub fn pick_player_race(from_infobox: Option<Race>, from_text: Option<Race>, from_matchups: Option<Race>) -> (r: Option<Race>)
    ensures
        r == first_race(from_infobox, from_text, from_matchups),
{
    if from_infobox.is_some() {
        from_infobox
    } else if from_text.is_some() {
        from_text
    } else {
        from_matchups
    }
}

fn make_haystack(title: &str, text: &[char], limit: usize) -> (h: String)
    ensures
        h@ == haystack(title@, text@, limit as int),
{
    let head = utf8_head_exec(text, limit);
    let mut h = string_from(title);
    push_char(&mut h, '\n');
    push_chars(&mut h, head.as_slice());
    h
}

fn first_matchup_exec(infobox: Option<&ParsedInfobox>) -> (r: Option<&String>)
    ensures
        match r {
            Some(m) => first_matchup(opt_ref_infobox_view(infobox)) == Some(m@),
            None => first_matchup(opt_ref_infobox_view(infobox)) is None,
        },
{
    match infobox {
        Some(ib) => match &ib.matchups {
            Some(m) => if m.len() > 0 {
                Some(&m[0])
            } else {
                None
            },
            None => None,
        },
        None => None,
    }
}

fn race_of_letter(l: Option<String>) -> (r: Option<Race>)
    ensures
        r == match opt_view(l) {
            Some(x) => race_of_field(x),
            None => None,
        },
{
    match l {
        Some(x) => match normalize_race(x.as_str()) {
            Some(RaceOrRandom::Race(r)) => Some(r),
            _ => None,
        },
        None => None,
    }
}

fn player_race_in(title: &str, infobox: Option<&ParsedInfobox>, text: &[char]) -> (r: Option<Race>)
    ensures
        r == player_race_of(title@, opt_ref_infobox_view(infobox), text@),
{
    let from_infobox = match infobox {
        Some(ib) => ib.race,
        None => None,
    };
    let hay = make_haystack(title, text, 2000);
    let from_text = race_of_letter(group1_str(RE_PVT_PATTERN, hay.as_str()));
    let from_matchups = match first_matchup_exec(infobox) {
        Some(m) => race_of_letter(group1_str(RE_MATCHUP_FIRST, m.as_str())),
        None => None,
    };
    pick_player_race(from_infobox, from_text, from_matchups)
}

pub fn detect_player_race(title: &str, infobox: Option<&ParsedInfobox>, wikitext: &str) -> (r: Option<Race>)
    ensures
        r == player_race_of(title@, opt_ref_infobox_view(infobox), wikitext@),
{
    let v = chars_of(wikitext);
    player_race_in(title, infobox, v.as_slice())
}

/// The opponent a matchup letter names.
pub open spec fn opponent_of_letter(l: Seq<char>) -> Option<Opponent> {
    opponent_of_upper(uppercase(l))
}

/// The opponent an upper-cased matchup letter names.
pub open spec fn opponent_of_upper(u: Seq<char>) -> Option<Opponent> {
    if u == "P"@ {
        Some(Opponent::Protoss)
    } else if u == "T"@ {
        Some(Opponent::Terran)
    } else if u == "Z"@ {
        Some(Opponent::Zerg)
    } else if u == "R"@ {
        Some(Opponent::Random)
    } else {
        None
    }
}

/// Reads an upper-cased matchup letter.
pub fn opponent_from_upper(upper: &str) -> (r: Option<Opponent>)
    ensures
        r == opponent_of_upper(upper@),
{
    if str_eq(upper, "P") {
        Some(Opponent::Protoss)
    } else if str_eq(upper, "T") {
        Some(Opponent::Terran)
    } else if str_eq(upper, "Z") {
        Some(Opponent::Zerg)
    } else if str_eq(upper, "R") {
        Some(Opponent::Random)
    } else {
        None
    }
}

/// The opponent the clues name: Terran, then Zerg, Protoss, Random, else
/// what the matchup says.
pub open spec fn opponent_of_clues(
    terran: bool,
    zerg: bool,
    protoss: bool,
    random: bool,
    from_matchup: Option<Opponent>,
) -> Option<Opponent> {
    if terran {
        Some(Opponent::Terran)
    } else if zerg {
        Some(Opponent::Zerg)
    } else if protoss {
        Some(Opponent::Protoss)
    } else if random {
        Some(Opponent::Random)
    } else {
        from_matchup
    }
}

/// The opponent from whether the page names each race as the opponent
/// and from the infobox's first matchup.
pub fn pick_opponent(terran: bool, zerg: bool, protoss: bool, random: bool, from_matchup: Option<Opponent>) -> (r: Option<Opponent>)
    ensures
        r == opponent_of_clues(terran, zerg, protoss, random, from_matchup),
{
    if terran {
        Some(Opponent::Terran)
    } else if zerg {
        Some(Opponent::Zerg)
    } else if protoss {
        Some(Opponent::Protoss)
    } else if random {
        Some(Opponent::Random)
    } else {
        from_matchup
    }
}

/// The opponent: "vs. X" / "versus X" or an `?vX` in the title and the first
/// 3000 bytes of the page (Terran, then Zerg, Protoss, Random; a `T` or
/// `vT` word in the title also means Terran); else the second letter of the
/// infobox's first matchup.
pub open spec fn opponent_of(title: Seq<char>, ib: Option<InfoboxView>, text: Seq<char>) -> Option<Opponent> {
    let hay = haystack(title, text, 3000);
    opponent_of_clues(
        is_match(RE_VS_TERRAN@, hay) || is_match(RE_VT_TITLE@, title) || is_match(RE_PVT_HAYSTACK@, hay),
        is_match(RE_VS_ZERG@, hay) || is_match(RE_PVZ_HAYSTACK@, hay),
        is_match(RE_VS_PROTOSS@, hay) || is_match(RE_PVP_HAYSTACK@, hay),
        is_match(RE_VS_RANDOM@, hay) || is_match(RE_PVR_HAYSTACK@, hay),
        match first_matchup(ib) {
            Some(m) => match group1(RE_MATCHUP_SECOND@, m) {
                Some(l) => opponent_of_letter(l),
                None => None,
            },
            None => None,
        },
    )
}

fn opponent_in(title: &str, infobox: Option<&ParsedInfobox>, text: &[char]) -> (r: Option<Opponent>)
    ensures
        r == opponent_of(title@, opt_ref_infobox_view(infobox), text@),
{
    let hay = make_haystack(title, text, 3000);
    let h = hay.as_str();
    let terran = is_match_str(RE_VS_TERRAN, h) || is_match_str(RE_VT_TITLE, title) || is_match_str(RE_PVT_HAYSTACK, h);
    let zerg = is_match_str(RE_VS_ZERG, h) || is_match_str(RE_PVZ_HAYSTACK, h);
    let protoss = is_match_str(RE_VS_PROTOSS, h) || is_match_str(RE_PVP_HAYSTACK, h);
    let random = is_match_str(RE_VS_RANDOM, h) || is_match_str(RE_PVR_HAYSTACK, h);
    let from_matchup = match first_matchup_exec(infobox) {
        Some(m) => match group1_str(RE_MATCHUP_SECOND, m.as_str()) {
            Some(l) => {
                let u = to_uppercase(l.as_str());
                opponent_from_upper(u.as_str())
            },
            None => None,
        },
        None => None,
    };
    pick_opponent(terran, zerg, protoss, random, from_matchup)
}

pub fn detect_opponent(title: &str, infobox: Option<&ParsedInfobox>, wikitext: &str) -> (r: Option<Opponent>)
    ensures
        r == opponent_of(title@, opt_ref_infobox_view(infobox), wikitext@),
{
    let v = chars_of(wikitext);
    opponent_in(title, infobox, v.as_slice())
}

/// The difficulty a strategy category names (Beginner, then Advanced, then
/// Intermediate).
pub open spec fn difficulty_of(text: Seq<char>) -> Option<Difficulty> {
    difficulty_of_matches(
        is_match(RE_BEGINNER_CAT@, text),
        is_match(RE_ADVANCED_CAT@, text),
        is_match(RE_INTERMEDIATE_CAT@, text),
    )
}

/// The difficulty from which strategy categories the page is in.
pub open spec fn difficulty_of_matches(beginner: bool, advanced: bool, intermediate: bool) -> Option<Difficulty> {
    if beginner {
        Some(Difficulty::Beginner)
    } else if advanced {
        Some(Difficulty::Advanced)
    } else if intermediate {
        Some(Difficulty::Intermediate)
    } else {
        None
    }
}

/// The difficulty follows the strategy categories found: Beginner wins,
/// then Advanced, then Intermediate, and there is none only when no
/// category was found.
pub proof fn lemma_difficulty_priority(beginner: bool, advanced: bool, intermediate: bool)
    ensures
        beginner ==> difficulty_of_matches(beginner, advanced, intermediate) == Some(Difficulty::Beginner),
        !beginner && advanced ==> difficulty_of_matches(beginner, advanced, intermediate) == Some(Difficulty::Advanced),
        !beginner && !advanced && intermediate ==> difficulty_of_matches(beginner, advanced, intermediate)
            == Some(Difficulty::Intermediate),
        difficulty_of_matches(beginner, advanced, intermediate) is None <==> !beginner && !advanced && !intermediate,
{
}

/// A page in the Intermediate Strategy category and in neither of the
/// other two has difficulty Intermediate (and likewise by priority for the
/// others); a page has no difficulty only when it is in none of the three.
pub proof fn lemma_difficulty_of_categories(text: Seq<char>)
    ensures
        is_match(RE_BEGINNER_CAT@, text) ==> difficulty_of(text) == Some(Difficulty::Beginner),
        !is_match(RE_BEGINNER_CAT@, text) && is_match(RE_ADVANCED_CAT@, text) ==> difficulty_of(text) == Some(
            Difficulty::Advanced,
        ),
        !is_match(RE_BEGINNER_CAT@, text) && !is_match(RE_ADVANCED_CAT@, text) && is_match(RE_INTERMEDIATE_CAT@, text)
            ==> difficulty_of(text) == Some(Difficulty::Intermediate),
        difficulty_of(text) is None <==> !is_match(RE_BEGINNER_CAT@, text) && !is_match(RE_ADVANCED_CAT@, text)
            && !is_match(RE_INTERMEDIATE_CAT@, text),
{
}

/// Picks the difficulty from the categories found.
pub fn pick_difficulty(beginner: bool, advanced: bool, intermediate: bool) -> (r: Option<Difficulty>)
    ensures
        r == difficulty_of_matches(beginner, advanced, intermediate),
{
    if beginner {
        Some(Difficulty::Beginner)
    } else if advanced {
        Some(Difficulty::Advanced)
    } else if intermediate {
        Some(Difficulty::Intermediate)
    } else {
        None
    }
}

pub fn detect_difficulty(wikitext: &str) -> (r: Option<Difficulty>)
    ensures
        r == difficulty_of(wikitext@),
{
    let beginner = is_match_str(RE_BEGINNER_CAT, wikitext);
    let advanced = is_match_str(RE_ADVANCED_CAT, wikitext);
    let intermediate = is_match_str(RE_INTERMEDIATE_CAT, wikitext);
    pick_difficulty(beginner, advanced, intermediate)
}

// ---------------------------------------------------------------------------
// Bullet lists
// ---------------------------------------------------------------------------

/// A bullet line as a list item (`None` for other lines).
pub open spec fn bullet_item(line: Seq<char>) -> Option<Seq<char>> {
    if !is_match(RE_LEADING_BULLET@, line) {
        None
    } else {
        let cleaned = strip_markup(replaced_first(RE_LEADING_BULLET_STRIP@, line, ""@));
        if cleaned.len() == 0 {
            None
        } else {
            Some(cleaned)
        }
    }
}

fn bullet_item_exec(line: &[char]) -> (r: Option<String>)
    ensures
        opt_view(r) == bullet_item(line@),
{
    let l = string_of(line);
    if !is_match_str(RE_LEADING_BULLET, l.as_str()) {
        return None;
    }
    let stripped = replace_first_str(RE_LEADING_BULLET_STRIP, l.as_str(), "");
    let cleaned = strip_wiki_markup(stripped.as_str());
    if cleaned.as_str().unicode_len() == 0 {
        None
    } else {
        Some(cleaned)
    }
}

/// Whether the last heading seen matched `pat`, and the items collected
/// under such headings, after reading `ls`.
pub open spec fn section_state(ls: Seq<Seq<char>>, pat: Seq<char>) -> (bool, Seq<Seq<char>>)
    decreases ls.len(),
{
    if ls.len() == 0 {
        (false, Seq::empty())
    } else {
        let (inside, items) = section_state(ls.drop_last(), pat);
        let line = ls.last();
        match heading_of(line) {
            Some((_, inner)) => (is_match(pat, inner), items),
            None => if !inside {
                (inside, items)
            } else {
                match bullet_item(line) {
                    Some(x) => (inside, items.push(x)),
                    None => (inside, items),
                }
            },
        }
    }
}

/// The bullet items under the headings that match `pat`.
pub open spec fn section_items(text: Seq<char>, pat: Seq<char>) -> Seq<Seq<char>> {
    section_state(lines(text), pat).1
}

fn extract_list_section(v: &[char], pat: &str) -> (r: Vec<String>)
    ensures
        strs_view(r@) == section_items(v@, pat@),
{
    let ls = lines_exec(v);
    let ghost lv = lines(v@);
    let mut items: Vec<String> = Vec::new();
    let mut inside = false;
    let n = ls.len();
    let mut i: usize = 0;
    while i < n
        invariant
            n == ls@.len() == lv.len(),
            lv == lines(v@),
            forall|k: int| 0 <= k < n ==> #[trigger] ls@[k]@ == lv[k],
            i <= n,
            (inside, strs_view(items@)) == section_state(lv.take(i as int), pat@),
        decreases n - i,
    {
        assert(lv.take(i + 1).drop_last() =~= lv.take(i as int));
        assert(lv.take(i + 1).last() == ls@[i as int]@);
        let line = ls[i].as_slice();
        match heading_in(line) {
            Some((_, inner)) => {
                inside = is_match_str(pat, inner.as_str());
            },
            None => {
                if inside {
                    match bullet_item_exec(line) {
                        Some(x) => {
                            let ghost before = strs_view(items@);
                            items.push(x);
                            assert(strs_view(items@) =~= before.push(x@));
                        },
                        None => {},
                    }
                }
            },
        }
        i = i + 1;
    }
    assert(lv.take(n as int) =~= lv);
    items
}

/// At most this many fallback steps are taken from a page.
pub const FALLBACK_MAX_STEPS: usize = 60;

/// A bullet line that reads as a supply-prefixed step.
pub open spec fn fallback_candidate(line: Seq<char>) -> Option<Seq<char>> {
    if heading_of(line) is Some {
        None
    } else {
        match bullet_item(line) {
            Some(c) => if utf8_len(c) < 3 || utf8_len(c) > 220 || !is_match(RE_SUPPLY_PREFIX@, c) {
                None
            } else {
                Some(c)
            },
            None => None,
        }
    }
}

/// Steps and their lower-cased forms, after reading `ls`: supply-prefixed
/// bullet lines outside headings, each text once (case-insensitively), at
/// most `FALLBACK_MAX_STEPS`.
pub open spec fn fallback_state(ls: Seq<Seq<char>>) -> (Seq<Seq<char>>, Seq<Seq<char>>)
    decreases ls.len(),
{
    if ls.len() == 0 {
        (Seq::empty(), Seq::empty())
    } else {
        let (steps, seen) = fallback_state(ls.drop_last());
        if steps.len() >= FALLBACK_MAX_STEPS {
            (steps, seen)
        } else {
            match fallback_candidate(ls.last()) {
                Some(c) => if seen.contains(lowercase(c)) {
                    (steps, seen)
                } else {
                    (steps.push(c), seen.push(lowercase(c)))
                },
                None => (steps, seen),
            }
        }
    }
}

pub open spec fn fallback_steps(text: Seq<char>) -> Seq<Seq<char>> {
    fallback_state(lines(text)).0
}

fn fallback_candidate_exec(line: &[char]) -> (r: Option<String>)
    ensures
        opt_view(r) == fallback_candidate(line@),
{
    if heading_in(line).is_some() {
        return None;
    }
    match bullet_item_exec(line) {
        Some(c) => {
            let cv = chars_of(c.as_str());
            let n = utf8_len_capped(cv.as_slice(), 220);
            if n < 3 || n > 220 || !is_match_str(RE_SUPPLY_PREFIX, c.as_str()) {
                None
            } else {
                Some(c)
            }
        },
        None => None,
    }
}

fn seen_contains(seen: &Vec<String>, key: &str) -> (b: bool)
    ensures
        b == strs_view(seen@).contains(key@),
{
    let n = seen.len();
    let mut i: usize = 0;
    while i < n
        invariant
            n == seen@.len(),
            i <= n,
            forall|k: int| 0 <= k < i ==> strs_view(seen@)[k] != key@,
        decreases n - i,
    {
        if str_eq(seen[i].as_str(), key) {
            assert(strs_view(seen@)[i as int] == key@);
            return true;
        }
        i = i + 1;
    }
    false
}

fn extract_fallback_steps(v: &[char]) -> (r: Vec<String>)
    ensures
        strs_view(r@) == fallback_steps(v@),
{
    let ls = lines_exec(v);
    let ghost lv = lines(v@);
    let mut steps: Vec<String> = Vec::new();
    let mut seen: Vec<String> = Vec::new();
    let n = ls.len();
    let mut i: usize = 0;
    while i < n
        invariant
            n == ls@.len() == lv.len(),
            lv == lines(v@),
            forall|k: int| 0 <= k < n ==> #[trigger] ls@[k]@ == lv[k],
            i <= n,
            (strs_view(steps@), strs_view(seen@)) == fallback_state(lv.take(i as int)),
        decreases n - i,
    {
        assert(lv.take(i + 1).drop_last() =~= lv.take(i as int));
        assert(lv.take(i + 1).last() == ls@[i as int]@);
        if steps.len() >= FALLBACK_MAX_STEPS {
            proof {
                lemma_fallback_frozen(lv, i as int);
            }
            assert(lv.take(n as int) =~= lv);
            return steps;
        }
        match fallback_candidate_exec(ls[i].as_slice()) {
            Some(c) => {
                let key = to_lowercase(c.as_str());
                if !seen_contains(&seen, key.as_str()) {
                    let ghost before_steps = strs_view(steps@);
                    let ghost before_seen = strs_view(seen@);
                    let ghost cv = c@;
                    let ghost kv = key@;
                    steps.push(c);
                    seen.push(key);
                    assert(strs_view(steps@) =~= before_steps.push(cv));
                    assert(strs_view(seen@) =~= before_seen.push(kv));
                }
            },
            None => {},
        }
        i = i + 1;
    }
    assert(lv.take(n as int) =~= lv);
    steps
}

proof fn lemma_fallback_frozen(ls: Seq<Seq<char>>, i: int)
    requires
        0 <= i <= ls.len(),
        fallback_state(ls.take(i)).0.len() >= FALLBACK_MAX_STEPS,
    ensures
        fallback_state(ls.take(ls.len() as int)) == fallback_state(ls.take(i)),
    decreases ls.len() - i,
{
    if i < ls.len() {
        assert(ls.take(i + 1).drop_last() =~= ls.take(i));
        lemma_fallback_frozen(ls, i + 1);
    }
}


// ---------------------------------------------------------------------------
// Whole pages
// ---------------------------------------------------------------------------

/// The variant a `{{build}}` template of page `text` gives: named after its
/// `name` parameter (quotes trimmed), else after the heading above it.
pub open spec fn variant_of_template(text: Seq<char>, t: TemplateSpan) -> VariantView {
    let heading = preceding_heading(text, t.start);
    let raw = match template_param(t.body, "name"@) {
        Some(v) => strip_markup(v),
        None => Seq::empty(),
    };
    let unquoted = strip_start_char(strip_end_char(raw, '"'), '"');
    let name = if unquoted.len() == 0 && heading is Some {
        heading.unwrap()
    } else {
        unquoted
    };
    VariantView { variant_name: name, heading, steps: build_body_steps(t.body) }
}

/// One variant per `{{build}}` template with at least one step.
pub open spec fn template_variants(text: Seq<char>, ts: Seq<TemplateSpan>) -> Seq<VariantView>
    decreases ts.len(),
{
    if ts.len() == 0 {
        Seq::empty()
    } else {
        let prev = template_variants(text, ts.drop_last());
        if build_body_steps(ts.last().body).len() == 0 {
            prev
        } else {
            prev.push(variant_of_template(text, ts.last()))
        }
    }
}

/// The variants of a page: its `{{build}}` templates, or, when none has a
/// step, one unnamed variant of the supply-prefixed bullet lines (none if
/// there are no such lines either).
pub open spec fn page_variants(text: Seq<char>) -> Seq<VariantView> {
    let vs = template_variants(text, templates_from(text, RE_BUILD_TEMPLATE_NAME@, 0));
    let fb = fallback_steps(text);
    if vs.len() > 0 {
        vs
    } else if fb.len() > 0 {
        seq![VariantView { variant_name: Seq::empty(), heading: None, steps: fb }]
    } else {
        Seq::empty()
    }
}

/// A whole page, read.
pub open spec fn page_of(title: Seq<char>, text: Seq<char>) -> PageView {
    let ib = infobox_of(text);
    PageView {
        infobox: ib,
        player_race: player_race_of(title, ib, text),
        opponent: opponent_of(title, ib, text),
        difficulty: difficulty_of(text),
        counters: section_items(text, RE_COUNTER_TO@),
        countered_by: section_items(text, RE_COUNTERED_BY@),
        variants: page_variants(text),
    }
}


fn variant_from_template(v: &[char], t: &Template, steps: Vec<String>) -> (r: ParsedVariant)
    requires
        strs_view(steps@) == build_body_steps(t@.body),
    ensures
        r@ == variant_of_template(v@, t@),
{
    let heading = find_preceding_heading(v, t.start);
    let body = chars_of(t.body.as_str());
    let params = parse_template_params(body.as_slice());
    let raw = match param_get(&params, "name") {
        Some(x) => strip_wiki_markup(x.as_str()),
        None => String::new(),
    };
    let rv = chars_of(raw.as_str());
    let (a, b) = strip_char_bounds(rv.as_slice(), '"');
    let unquoted = slice_chars(rv.as_slice(), a, b);
    let name = if unquoted.len() == 0 && heading.is_some() {
        match &heading {
            Some(h) => string_from(h.as_str()),
            None => String::new(),
        }
    } else {
        string_of(unquoted.as_slice())
    };
    ParsedVariant { variant_name: name, heading, steps }
}

pub fn parse_liquipedia_page(page_title: &str, wikitext: &str) -> (r: ParsedLiquipediaPage)
    ensures
        r@ == page_of(page_title@, wikitext@),
{
    let v = chars_of(wikitext);
    let text = v.as_slice();
    let infobox = infobox_in(text);
    let ib_ref = infobox.as_ref();
    assert(opt_ref_infobox_view(ib_ref) == opt_infobox_view(infobox));
    let player_race = player_race_in(page_title, ib_ref, text);
    let opponent = opponent_in(page_title, ib_ref, text);
    let difficulty = detect_difficulty(wikitext);
    let counters = extract_list_section(text, RE_COUNTER_TO);
    let countered_by = extract_list_section(text, RE_COUNTERED_BY);

    let templates = find_templates(text, RE_BUILD_TEMPLATE_NAME);
    let ghost ts = templates_from(v@, RE_BUILD_TEMPLATE_NAME@, 0);
    let mut variants: Vec<ParsedVariant> = Vec::new();
    let n = templates.len();
    let mut i: usize = 0;
    while i < n
        invariant
            n == templates@.len() == ts.len(),
            ts == templates_from(v@, RE_BUILD_TEMPLATE_NAME@, 0),
            v@ == wikitext@,
            text@ == v@,
            forall|k: int| 0 <= k < n ==> #[trigger] templates@[k]@ == ts[k],
            i <= n,
            variants_view(variants@) == template_variants(v@, ts.take(i as int)),
        decreases n - i,
    {
        let t = &templates[i];
        assert(ts.take(i + 1).drop_last() =~= ts.take(i as int));
        assert(ts.take(i + 1).last() == t@);
        let steps = parse_build_body(t.body.as_str());
        if steps.len() > 0 {
            let pv = variant_from_template(text, t, steps);
            let ghost before = variants_view(variants@);
            let ghost pvv = pv@;
            variants.push(pv);
            assert(variants_view(variants@) =~= before.push(pvv));
        }
        i = i + 1;
    }
    assert(ts.take(n as int) =~= ts);
    if variants.len() == 0 {
        let fallback = extract_fallback_steps(text);
        if fallback.len() > 0 {
            let ghost fb = strs_view(fallback@);
            variants.push(ParsedVariant { variant_name: String::new(), heading: None, steps: fallback });
            assert(variants_view(variants@) =~= seq![VariantView { variant_name: Seq::empty(), heading: None, steps: fb }]);
        }
    }
    assert(opt_infobox_view(infobox) == infobox_of(wikitext@));
    assert(player_race == player_race_of(page_title@, infobox_of(wikitext@), wikitext@));
    assert(opponent == opponent_of(page_title@, infobox_of(wikitext@), wikitext@));
    assert(strs_view(counters@) == section_items(wikitext@, RE_COUNTER_TO@));
    assert(variants_view(variants@) == page_variants(wikitext@));
    ParsedLiquipediaPage {
        infobox,
        player_race,
        opponent,
        difficulty,
        counters,
        countered_by,
        variants,
    }
}

} // verus!
