//! Pure helpers shared between storage, the Liquipedia parser and the
//! importer: race initials, matchup derivation, kebab-case slugs and
//! "X - Y" build-step splitting.

use vstd::prelude::*;
use crate::text::{
    alphanumeric_char, chars_of, digit_char, is_ascii_alphanumeric, is_ascii_digit, is_ascii_lower,
    is_ascii_upper, is_white, skip_white_back, skip_white_from,
    lowercase, push_char, slice_chars, str_eq, string_of, to_lowercase, trim, trim_chars,
    white_char,
};
use crate::types::{opponent_initial_char, race_initial_char, Opponent, Race};

verus! {

// ---------------------------------------------------------------------------
// Race initials and matchups
// ---------------------------------------------------------------------------

/// The initial used in matchup strings for a race / opponent name; `'?'`
/// for any other name.
pub open spec fn name_initial(name: Seq<char>) -> char {
    if name == "Terran"@ {
        'T'
    } else if name == "Protoss"@ {
        'P'
    } else if name == "Zerg"@ {
        'Z'
    } else if name == "Random"@ {
        'R'
    } else {
        '?'
    }
}

pub fn race_initial(race: &str) -> (c: char)
    ensures
        c == name_initial(race@),
{
    if str_eq(race, "Terran") {
        'T'
    } else if str_eq(race, "Protoss") {
        'P'
    } else if str_eq(race, "Zerg") {
        'Z'
    } else if str_eq(race, "Random") {
        'R'
    } else {
        '?'
    }
}

/// `"{r}v{o}"` from the initials of two names.
pub fn derive_matchup(race: &str, opponent: &str) -> (m: String)
    ensures
        m@ == seq![name_initial(race@), 'v', name_initial(opponent@)],
{
    let r = race_initial(race);
    let o = race_initial(opponent);
    let mut m = String::new();
    push_char(&mut m, r);
    push_char(&mut m, 'v');
    push_char(&mut m, o);
    assert(m@ =~= seq![r, 'v', o]);
    m
}

pub open spec fn matchup_of(race: Race, opponent: Opponent) -> Seq<char> {
    seq![race_initial_char(race), 'v', opponent_initial_char(opponent)]
}

pub fn derive_matchup_typed(race: Race, opponent: Opponent) -> (m: String)
    ensures
        m@ == matchup_of(race, opponent),
{
    let mut m = String::new();
    push_char(&mut m, race.initial());
    push_char(&mut m, 'v');
    push_char(&mut m, opponent.initial());
    assert(m@ =~= matchup_of(race, opponent));
    m
}

// ---------------------------------------------------------------------------
// slugify
// ---------------------------------------------------------------------------

/// Every occurrence of `c` in `s` replaced by `rep`.
pub open spec fn replace_char(s: Seq<char>, c: char, rep: Seq<char>) -> Seq<char>
    decreases s.len(),
{
    if s.len() == 0 {
        Seq::empty()
    } else {
        replace_char(s.drop_last(), c, rep) + (if s.last() == c {
            rep
        } else {
            seq![s.last()]
        })
    }
}

/// Parenthesis nesting depth after reading `s` (a stray `)` at depth 0 is
/// ignored).
pub open spec fn paren_depth(s: Seq<char>) -> nat
    decreases s.len(),
{
    if s.len() == 0 {
        0
    } else {
        let d = paren_depth(s.drop_last());
        if s.last() == '(' {
            d + 1
        } else if s.last() == ')' {
            if d > 0 {
                (d - 1) as nat
            } else {
                0
            }
        } else {
            d
        }
    }
}

/// `s` without parentheses and without what stands inside them.
pub open spec fn outside_parens(s: Seq<char>) -> Seq<char>
    decreases s.len(),
{
    if s.len() == 0 {
        Seq::empty()
    } else {
        let prev = outside_parens(s.drop_last());
        if s.last() == '(' || s.last() == ')' {
            prev
        } else if paren_depth(s.drop_last()) == 0 {
            prev.push(s.last())
        } else {
            prev
        }
    }
}

/// ASCII letters and digits kept; every run of other characters that
/// follows a kept character becomes one `-`.
pub open spec fn dash_runs(s: Seq<char>) -> Seq<char>
    decreases s.len(),
{
    if s.len() == 0 {
        Seq::empty()
    } else {
        let prev = dash_runs(s.drop_last());
        if is_ascii_alphanumeric(s.last()) {
            prev.push(s.last())
        } else if s.len() > 1 && is_ascii_alphanumeric(s.drop_last().last()) {
            prev.push('-')
        } else {
            prev
        }
    }
}

/// `s` without its trailing `c`s.
pub open spec fn strip_end_char(s: Seq<char>, c: char) -> Seq<char>
    decreases s.len(),
{
    if s.len() > 0 && s.last() == c {
        strip_end_char(s.drop_last(), c)
    } else {
        s
    }
}

/// `s` without its leading `c`s.
pub open spec fn strip_start_char(s: Seq<char>, c: char) -> Seq<char>
    decreases s.len(),
{
    if s.len() > 0 && s[0] == c {
        strip_start_char(s.drop_first(), c)
    } else {
        s
    }
}

pub open spec fn and_word() -> Seq<char> {
    seq!['a', 'n', 'd']
}

pub open spec fn build_word() -> Seq<char> {
    seq!['b', 'u', 'i', 'l', 'd']
}

/// The longest a slug may be.
pub const SLUG_MAX: usize = 80;

/// The slug of `value`: lower-cased, `&` spelled `and`, parenthesised
/// parts dropped, runs of other characters turned into single dashes,
/// no dash at either end, at most `SLUG_MAX` characters, and `build` when
/// nothing is left.
pub open spec fn slug(value: Seq<char>) -> Seq<char> {
    let core = dash_runs(outside_parens(replace_char(lowercase(value), '&', and_word())));
    let trimmed = strip_start_char(strip_end_char(core, '-'), '-');
    let capped = if trimmed.len() > SLUG_MAX {
        strip_end_char(trimmed.take(SLUG_MAX as int), '-')
    } else {
        trimmed
    };
    if capped.len() == 0 {
        build_word()
    } else {
        capped
    }
}

pub open spec fn is_slug_char(c: char) -> bool {
    is_ascii_alphanumeric(c) || c == '-'
}

/// `strip_end_char(s.take(j))` does not depend on trailing `c`s beyond `j`.
proof fn lemma_strip_end_step(s: Seq<char>, c: char, j: int)
    requires
        0 < j <= s.len(),
        s[j - 1] == c,
    ensures
        strip_end_char(s.take(j), c) == strip_end_char(s.take(j - 1), c),
{
    assert(s.take(j).drop_last() =~= s.take(j - 1));
}

proof fn lemma_strip_start_step(s: Seq<char>, c: char, i: int)
    requires
        0 <= i < s.len(),
        s[i] == c,
    ensures
        strip_start_char(s.skip(i), c) == strip_start_char(s.skip(i + 1), c),
{
    assert(s.skip(i).drop_first() =~= s.skip(i + 1));
}

/// Removes trailing `c`s, then leading `c`s: the bounds of what is left.
pub fn strip_char_bounds(v: &[char], c: char) -> (r: (usize, usize))
    ensures
        r.0 <= r.1 <= v@.len(),
        v@.subrange(r.0 as int, r.1 as int) == strip_start_char(strip_end_char(v@, c), c),
        strip_end_char(v@, c) == v@.take(r.1 as int),
{
    let n = v.len();
    let mut b: usize = n;
    assert(v@.take(n as int) =~= v@);
    while b > 0 && v[b - 1] == c
        invariant
            n == v@.len(),
            b <= n,
            strip_end_char(v@, c) == strip_end_char(v@.take(b as int), c),
        decreases b,
    {
        proof {
            lemma_strip_end_step(v@, c, b as int);
        }
        b = b - 1;
    }
    let ghost t = v@.take(b as int);
    assert(strip_end_char(t, c) == t);
    let mut a: usize = 0;
    assert(t.skip(0) =~= t);
    while a < b && v[a] == c
        invariant
            n == v@.len(),
            a <= b <= n,
            t == v@.take(b as int),
            strip_start_char(t, c) == strip_start_char(t.skip(a as int), c),
        decreases b - a,
    {
        proof {
            lemma_strip_start_step(t, c, a as int);
        }
        a = a + 1;
    }
    assert(t.skip(a as int) =~= v@.subrange(a as int, b as int));
    (a, b)
}

/// Characters a slug is made of: ASCII lower-case letters, digits, `-`.
pub open spec fn lower_slug_char(c: char) -> bool {
    is_ascii_lower(c) || is_ascii_digit(c) || c == '-'
}

pub open spec fn no_ascii_upper(s: Seq<char>) -> bool {
    forall|i: int| 0 <= i < s.len() ==> !is_ascii_upper(#[trigger] s[i])
}

/// No two `-` side by side.
pub open spec fn single_dashes(s: Seq<char>) -> bool {
    forall|i: int| 0 <= i < s.len() - 1 ==> !(#[trigger] s[i] == '-' && s[i + 1] == '-')
}

/// What every slug is: 1 to `SLUG_MAX` slug characters, no `-` at either
/// end, no two `-` side by side.
pub open spec fn clean_slug(x: Seq<char>) -> bool {
    &&& 0 < x.len() <= SLUG_MAX
    &&& forall|i: int| 0 <= i < x.len() ==> lower_slug_char(#[trigger] x[i])
    &&& x[0] != '-'
    &&& x.last() != '-'
    &&& single_dashes(x)
}

proof fn lemma_replace_no_upper(s: Seq<char>)
    requires
        no_ascii_upper(s),
    ensures
        no_ascii_upper(replace_char(s, '&', and_word())),
    decreases s.len(),
{
    if s.len() > 0 {
        lemma_replace_no_upper(s.drop_last());
        let prev = replace_char(s.drop_last(), '&', and_word());
        let piece = if s.last() == '&' { and_word() } else { seq![s.last()] };
        let r = prev + piece;
        assert forall|i: int| 0 <= i < r.len() implies !is_ascii_upper(#[trigger] r[i]) by {
            if i >= prev.len() {
                assert(r[i] == piece[i - prev.len()]);
            }
        }
    }
}

proof fn lemma_replace_identity(s: Seq<char>)
    requires
        forall|i: int| 0 <= i < s.len() ==> #[trigger] s[i] != '&',
    ensures
        replace_char(s, '&', and_word()) == s,
    decreases s.len(),
{
    if s.len() > 0 {
        lemma_replace_identity(s.drop_last());
        assert(s.drop_last() + seq![s.last()] =~= s);
    }
}

proof fn lemma_outside_parens_no_upper(s: Seq<char>)
    requires
        no_ascii_upper(s),
    ensures
        no_ascii_upper(outside_parens(s)),
    decreases s.len(),
{
    if s.len() > 0 {
        lemma_outside_parens_no_upper(s.drop_last());
    }
}

proof fn lemma_outside_parens_identity(s: Seq<char>)
    requires
        forall|i: int| 0 <= i < s.len() ==> #[trigger] s[i] != '(' && s[i] != ')',
    ensures
        outside_parens(s) == s,
        paren_depth(s) == 0,
    decreases s.len(),
{
    if s.len() > 0 {
        lemma_outside_parens_identity(s.drop_last());
        assert(s.drop_last().push(s.last()) =~= s);
    }
}

/// What `dash_runs` gives: slug characters (when nothing upper-case came
/// in), no leading `-`, single dashes, and the last character when that
/// one is kept.
proof fn lemma_dash_runs_shape(s: Seq<char>)
    requires
        no_ascii_upper(s),
    ensures
        forall|i: int| 0 <= i < dash_runs(s).len() ==> lower_slug_char(#[trigger] dash_runs(s)[i]),
        dash_runs(s).len() > 0 ==> dash_runs(s)[0] != '-',
        single_dashes(dash_runs(s)),
        s.len() > 0 && is_ascii_alphanumeric(s.last()) ==> dash_runs(s).len() > 0 && dash_runs(s).last() == s.last(),
    decreases s.len(),
{
    if s.len() > 0 {
        let pre = s.drop_last();
        lemma_dash_runs_shape(pre);
        let prev = dash_runs(pre);
        let d = dash_runs(s);
        if is_ascii_alphanumeric(s.last()) {
            assert(!is_ascii_upper(s[s.len() - 1]));
            assert(d == prev.push(s.last()));
        } else if s.len() > 1 && is_ascii_alphanumeric(pre.last()) {
            assert(d == prev.push('-'));
            assert(prev.last() == pre.last());
        }
    }
}

proof fn lemma_dash_runs_identity(s: Seq<char>)
    requires
        forall|i: int| 0 <= i < s.len() ==> lower_slug_char(#[trigger] s[i]),
        s.len() > 0 ==> s[0] != '-',
        single_dashes(s),
    ensures
        dash_runs(s) == s,
    decreases s.len(),
{
    if s.len() > 0 {
        let pre = s.drop_last();
        assert forall|i: int| 0 <= i < pre.len() - 1 implies !(#[trigger] pre[i] == '-' && pre[i + 1] == '-') by {
            assert(pre[i] == s[i] && pre[i + 1] == s[i + 1]);
        }
        lemma_dash_runs_identity(pre);
        if s.last() == '-' {
            assert(s.len() > 1);
            assert(!(s[s.len() - 2] == '-' && s[s.len() - 1] == '-'));
            assert(pre.last() == s[s.len() - 2]);
        }
        assert(pre.push(s.last()) =~= s);
    }
}

proof fn lemma_strip_end_prefix(s: Seq<char>, c: char)
    ensures
        strip_end_char(s, c).len() <= s.len(),
        strip_end_char(s, c) == s.take(strip_end_char(s, c).len() as int),
        strip_end_char(s, c).len() > 0 ==> strip_end_char(s, c).last() != c,
    decreases s.len(),
{
    if s.len() > 0 && s.last() == c {
        lemma_strip_end_prefix(s.drop_last(), c);
        let r = strip_end_char(s.drop_last(), c);
        assert(s.drop_last().take(r.len() as int) =~= s.take(r.len() as int));
    } else {
        assert(s.take(s.len() as int) =~= s);
    }
}

/// A prefix of `s` keeps its slug characters, its first character and its
/// single dashes.
proof fn lemma_prefix_shape(s: Seq<char>, j: int)
    requires
        0 <= j <= s.len(),
        forall|i: int| 0 <= i < s.len() ==> lower_slug_char(#[trigger] s[i]),
        s.len() > 0 ==> s[0] != '-',
        single_dashes(s),
    ensures
        forall|i: int| 0 <= i < s.take(j).len() ==> lower_slug_char(#[trigger] s.take(j)[i]),
        s.take(j).len() > 0 ==> s.take(j)[0] != '-',
        single_dashes(s.take(j)),
{
    let t = s.take(j);
    assert forall|i: int| 0 <= i < t.len() implies lower_slug_char(#[trigger] t[i]) by {
        assert(t[i] == s[i]);
    }
    assert forall|i: int| 0 <= i < t.len() - 1 implies !(#[trigger] t[i] == '-' && t[i + 1] == '-') by {
        assert(t[i] == s[i] && t[i + 1] == s[i + 1]);
    }
}

/// Every slug is clean, provided lower-casing its input left no ASCII
/// capital letter (which `to_lowercase` promises).
proof fn lemma_slug_clean(value: Seq<char>)
    requires
        no_ascii_upper(lowercase(value)),
    ensures
        clean_slug(slug(value)),
{
    let amp = replace_char(lowercase(value), '&', and_word());
    lemma_replace_no_upper(lowercase(value));
    lemma_outside_parens_no_upper(amp);
    let core = dash_runs(outside_parens(amp));
    lemma_dash_runs_shape(outside_parens(amp));
    let ended = strip_end_char(core, '-');
    lemma_strip_end_prefix(core, '-');
    lemma_prefix_shape(core, ended.len() as int);
    let trimmed = strip_start_char(ended, '-');
    assert(trimmed == ended);
    if trimmed.len() > SLUG_MAX {
        let taken = trimmed.take(SLUG_MAX as int);
        lemma_prefix_shape(trimmed, SLUG_MAX as int);
        lemma_strip_end_prefix(taken, '-');
        lemma_prefix_shape(taken, strip_end_char(taken, '-').len() as int);
    }
    let capped = slug(value);
    if capped == build_word() {
        assert forall|i: int| 0 <= i < capped.len() implies lower_slug_char(#[trigger] capped[i]) by {
        }
        assert(single_dashes(capped));
    }
}

/// A clean slug that lower-casing leaves alone is its own slug.
proof fn lemma_slug_fixed(x: Seq<char>)
    requires
        clean_slug(x),
        lowercase(x) == x,
    ensures
        slug(x) == x,
{
    lemma_replace_identity(x);
    lemma_outside_parens_identity(x);
    lemma_dash_runs_identity(x);
    assert(strip_end_char(x, '-') == x);
    assert(strip_start_char(x, '-') == x);
}

pub fn slugify(value: &str) -> (r: String)
    ensures
        r@ == slug(value@),
        forall|k: int| 0 <= k < r@.len() ==> is_slug_char(#[trigger] r@[k]),
        0 < r@.len() <= SLUG_MAX,
        clean_slug(r@),
        slug(r@) == r@,
{
    let lowered = to_lowercase(value);
    proof {
        lemma_slug_clean(value@);
    }
    let l = chars_of(lowered.as_str());
    let ghost lv = l@;
    assert(lv == lowercase(value@));

    // `&` -> `and`
    let mut no_amp: Vec<char> = Vec::new();
    let n = l.len();
    let mut i: usize = 0;
    while i < n
        invariant
            n == lv.len(),
            l@ == lv,
            i <= n,
            no_amp@ == replace_char(lv.take(i as int), '&', and_word()),
        decreases n - i,
    {
        let ch = l[i];
        assert(lv.take(i + 1).drop_last() =~= lv.take(i as int));
        if ch == '&' {
            no_amp.push('a');
            no_amp.push('n');
            no_amp.push('d');
        } else {
            no_amp.push(ch);
        }
        i = i + 1;
        assert(no_amp@ =~= replace_char(lv.take(i as int), '&', and_word()));
    }
    assert(lv.take(n as int) =~= lv);
    let ghost na = no_amp@;

    // drop parenthesised text
    let mut buf: Vec<char> = Vec::new();
    let mut depth: u64 = 0;
    let m = no_amp.len();
    let mut i: usize = 0;
    while i < m
        invariant
            m == na.len(),
            no_amp@ == na,
            i <= m,
            depth == paren_depth(na.take(i as int)),
            depth <= i,
            buf@ == outside_parens(na.take(i as int)),
        decreases m - i,
    {
        let ch = no_amp[i];
        assert(na.take(i + 1).drop_last() =~= na.take(i as int));
        if ch == '(' {
            depth = depth + 1;
        } else if ch == ')' {
            if depth > 0 {
                depth = depth - 1;
            }
        } else if depth == 0 {
            buf.push(ch);
        }
        i = i + 1;
    }
    assert(na.take(m as int) =~= na);
    let ghost bv = buf@;

    // collapse runs of other characters into dashes
    let mut out: Vec<char> = Vec::new();
    let mut last_was_dash = true;
    let k = buf.len();
    let mut i: usize = 0;
    while i < k
        invariant
            k == bv.len(),
            buf@ == bv,
            i <= k,
            out@ == dash_runs(bv.take(i as int)),
            last_was_dash == (i == 0 || !is_ascii_alphanumeric(bv[i - 1])),
            forall|j: int| 0 <= j < out@.len() ==> is_slug_char(#[trigger] out@[j]),
        decreases k - i,
    {
        let ch = buf[i];
        assert(bv.take(i + 1).drop_last() =~= bv.take(i as int));
        assert(i > 0 ==> bv.take(i as int).last() == bv[i - 1]);
        if alphanumeric_char(ch) {
            out.push(ch);
            last_was_dash = false;
        } else if !last_was_dash {
            out.push('-');
            last_was_dash = true;
        }
        i = i + 1;
    }
    assert(bv.take(k as int) =~= bv);
    let ghost core = out@;

    let (a, b) = strip_char_bounds(out.as_slice(), '-');
    let trimmed = slice_chars(out.as_slice(), a, b);
    let ghost tv = trimmed@;
    let result: Vec<char> = if trimmed.len() > SLUG_MAX {
        let capped = slice_chars(trimmed.as_slice(), 0, SLUG_MAX);
        assert(capped@ =~= tv.take(SLUG_MAX as int));
        let (_a2, b2) = strip_char_bounds(capped.as_slice(), '-');
        slice_chars(capped.as_slice(), 0, b2)
    } else {
        trimmed
    };
    let out = if result.len() == 0 {
        let mut s = String::new();
        push_char(&mut s, 'b');
        push_char(&mut s, 'u');
        push_char(&mut s, 'i');
        push_char(&mut s, 'l');
        push_char(&mut s, 'd');
        assert(s@ =~= build_word());
        s
    } else {
        string_of(result.as_slice())
    };
    // Lower-casing a slug leaves it as it is; the slug of a slug is itself.
    let r = to_lowercase(out.as_str());
    proof {
        lemma_slug_fixed(r@);
    }
    r
}

// ---------------------------------------------------------------------------
// split_step
// ---------------------------------------------------------------------------

#[derive(Debug, Clone, PartialEq, Eq)]
pub struct SplitStep {
    pub supply: Option<String>,
    pub action: String,
}

impl View for SplitStep {
    type V = (Option<Seq<char>>, Seq<char>);

    open spec fn view(&self) -> Self::V {
        (
            match self.supply {
                Some(s) => Some(s@),
                None => None,
            },
            self.action@,
        )
    }
}

/// The first index at or after `i` that does not hold an ASCII digit.
pub open spec fn digits_end(s: Seq<char>, i: int) -> int
    decreases s.len() - i,
{
    if 0 <= i < s.len() && is_ascii_digit(s[i]) {
        digits_end(s, i + 1)
    } else {
        i
    }
}

/// The first index at or after `i` that does not hold a space.
pub open spec fn spaces_end(s: Seq<char>, i: int) -> int
    decreases s.len() - i,
{
    if 0 <= i < s.len() && s[i] == ' ' {
        spaces_end(s, i + 1)
    } else {
        i
    }
}

/// The characters that may end a supply prefix.
pub open spec fn is_step_separator(c: char) -> bool {
    c == '-' || c == '\u{2013}' || c == '\u{2014}' || c == ':' || c == '.' || c == ')'
}

/// `s` without its whitespace characters.
pub open spec fn remove_white(s: Seq<char>) -> Seq<char>
    decreases s.len(),
{
    if s.len() == 0 {
        Seq::empty()
    } else if is_white(s.last()) {
        remove_white(s.drop_last())
    } else {
        remove_white(s.drop_last()).push(s.last())
    }
}

/// A step with a supply count split off the trimmed text `s` whose supply
/// prefix ends at `end` and whose separator stands at `sep`.
pub open spec fn with_supply(s: Seq<char>, end: int, sep: int) -> (Option<Seq<char>>, Seq<char>) {
    (Some(remove_white(s.take(end))), trim(s.skip(sep + 1)))
}

/// How a build step is split: 1-3 digits, optionally `/` and 1-3 more
/// digits (spaces allowed around the `/`), optional spaces, then one of
/// `- – — : . )`; the supply is that prefix without spaces and the action
/// the trimmed rest. Any other step has no supply and the trimmed step as
/// its action.
pub open spec fn split_step_view(step: Seq<char>) -> (Option<Seq<char>>, Seq<char>) {
    let s = trim(step);
    let d1 = digits_end(s, 0);
    if s.len() == 0 {
        (None, Seq::empty())
    } else if d1 == 0 || d1 > 3 {
        (None, s)
    } else {
        let p = spaces_end(s, d1);
        if p < s.len() && s[p] == '/' {
            let q = spaces_end(s, p + 1);
            let e = digits_end(s, q);
            let r = spaces_end(s, e);
            if e == q || e - q > 3 {
                (None, s)
            } else if r < s.len() && is_step_separator(s[r]) {
                with_supply(s, e, r)
            } else {
                (None, s)
            }
        } else if p < s.len() && is_step_separator(s[p]) {
            with_supply(s, d1, p)
        } else {
            (None, s)
        }
    }
}

/// Where `skip_white_from` stops: after a run of whitespace, at a
/// non-whitespace character or the end.
proof fn lemma_skip_white_from_stop(s: Seq<char>, i: int)
    requires
        0 <= i <= s.len(),
    ensures
        i <= skip_white_from(s, i) <= s.len(),
        forall|k: int| i <= k < skip_white_from(s, i) ==> is_white(#[trigger] s[k]),
        skip_white_from(s, i) < s.len() ==> !is_white(s[skip_white_from(s, i)]),
    decreases s.len() - i,
{
    if i < s.len() && is_white(s[i]) {
        lemma_skip_white_from_stop(s, i + 1);
    }
}

/// Where `skip_white_back` stops: before a run of whitespace, after a
/// non-whitespace character or at `lo`.
proof fn lemma_skip_white_back_stop(s: Seq<char>, lo: int, j: int)
    requires
        0 <= lo <= j <= s.len(),
    ensures
        lo <= skip_white_back(s, lo, j) <= j,
        forall|k: int| skip_white_back(s, lo, j) <= k < j ==> is_white(#[trigger] s[k]),
        skip_white_back(s, lo, j) > lo ==> !is_white(s[skip_white_back(s, lo, j) - 1]),
    decreases j - lo,
{
    if lo < j && is_white(s[j - 1]) {
        lemma_skip_white_back_stop(s, lo, j - 1);
    }
}

/// `trim(s)` is `s[a..b]` for any `a`, `b` that bound its non-whitespace
/// characters.
proof fn lemma_trim_bounds(s: Seq<char>, a: int, b: int)
    requires
        0 <= a <= b <= s.len(),
        forall|k: int| 0 <= k < a ==> is_white(#[trigger] s[k]),
        forall|k: int| b <= k < s.len() ==> is_white(#[trigger] s[k]),
        a < b ==> !is_white(s[a]) && !is_white(s[b - 1]),
    ensures
        a < b ==> trim(s) == s.subrange(a, b),
        a == b ==> trim(s).len() == 0,
{
    lemma_skip_white_from_stop(s, 0);
    let x = skip_white_from(s, 0);
    lemma_skip_white_back_stop(s, x, s.len() as int);
    let y = skip_white_back(s, x, s.len() as int);
    if a < b {
        if x < a {
            assert(is_white(s[x]));
        }
        if x > a {
            assert(is_white(s[a]));
        }
        if y < b {
            assert(is_white(s[b - 1]));
        }
        if y > b {
            assert(is_white(s[y - 1]));
        }
    } else {
        if x < s.len() {
            assert(is_white(s[x]));
        }
    }
}

/// Leading and trailing whitespace around `x` leave `trim(x)` unchanged:
/// `trim((" " + x)[..k]) == trim(x)` when what follows `k` is whitespace.
proof fn lemma_trim_space_prefix_take(x: Seq<char>, k: int)
    requires
        0 <= k <= x.len() + 1,
        forall|i: int| k <= i < x.len() + 1 ==> is_white(#[trigger] (seq![' '] + x)[i]),
    ensures
        trim((seq![' '] + x).take(k)) == trim(x),
{
    let w = seq![' '] + x;
    let t = w.take(k);
    lemma_skip_white_from_stop(x, 0);
    let f = skip_white_from(x, 0);
    lemma_skip_white_back_stop(x, f, x.len() as int);
    let g = skip_white_back(x, f, x.len() as int);
    assert(trim(x) == x.subrange(f, g));
    if f < g {
        assert(w[g] == x[g - 1]);
        if g >= k {
            assert(is_white(w[g]));
        }
        assert forall|i: int| 0 <= i < f + 1 implies is_white(#[trigger] t[i]) by {
            if i > 0 {
                assert(t[i] == x[i - 1]);
            }
        }
        assert forall|i: int| g + 1 <= i < t.len() implies is_white(#[trigger] t[i]) by {
            assert(t[i] == x[i - 1]);
        }
        assert(t[f + 1] == x[f]);
        assert(t[g] == x[g - 1]);
        lemma_trim_bounds(t, f + 1, g + 1);
        assert(t.subrange(f + 1, g + 1) =~= x.subrange(f, g));
    } else {
        assert forall|i: int| 0 <= i < t.len() implies is_white(#[trigger] t[i]) by {
            if i > 0 {
                assert(t[i] == x[i - 1]);
                if i - 1 >= g {
                } else {
                    assert(i - 1 < f);
                }
            }
        }
        lemma_trim_bounds(t, t.len() as int, t.len() as int);
        assert(trim(x).len() == 0);
        assert(trim(t) =~= trim(x));
    }
}

/// The digits of a run of ASCII digits end where the run does.
proof fn lemma_digits_run(s: Seq<char>, i: int, n: int)
    requires
        0 <= i <= n < s.len(),
        forall|k: int| i <= k < n ==> is_ascii_digit(#[trigger] s[k]),
        !is_ascii_digit(s[n]),
    ensures
        digits_end(s, i) == n,
    decreases n - i,
{
    if i < n {
        lemma_digits_run(s, i + 1, n);
    }
}

/// Digits hold no whitespace to remove.
proof fn lemma_remove_white_digits(d: Seq<char>)
    requires
        forall|k: int| 0 <= k < d.len() ==> '0' <= #[trigger] d[k] <= '9',
    ensures
        remove_white(d) == d,
    decreases d.len(),
{
    if d.len() > 0 {
        lemma_remove_white_digits(d.drop_last());
        assert(d.drop_last().push(d.last()) =~= d);
    }
}

/// A step written `supply sep action` (one to three ASCII digits, a space,
/// one of `- – — : . )`, a space, the action) splits into the digits as its
/// supply and the trimmed action.
pub proof fn lemma_split_step_separators(d: Seq<char>, c: char, a: Seq<char>)
    requires
        1 <= d.len() <= 3,
        forall|k: int| 0 <= k < d.len() ==> '0' <= #[trigger] d[k] <= '9',
        c == '-' || c == '\u{2013}' || c == '\u{2014}' || c == ':' || c == '.' || c == ')',
    ensures
        split_step_view(d + seq![' ', c, ' '] + a) == (Some(d), trim(a)),
{
    let z = d + seq![' ', c, ' '] + a;
    let n = d.len() as int;
    assert(z[0] == d[0]);
    assert(z[n] == ' ');
    assert(z[n + 1] == c);
    assert(z[n + 2] == ' ');
    lemma_skip_white_back_stop(z, 0, z.len() as int);
    let e = skip_white_back(z, 0, z.len() as int);
    if e <= n + 1 {
        assert(is_white(z[n + 1]));
    }
    assert(!is_white(z[e - 1]));
    lemma_trim_bounds(z, 0, e);
    let s = trim(z);
    assert(s == z.subrange(0, e));
    assert(s[n] == ' ');
    assert(s[n + 1] == c);
    assert forall|k: int| 0 <= k < n implies is_ascii_digit(#[trigger] s[k]) by {
        assert(s[k] == d[k]);
    }
    lemma_digits_run(s, 0, n);
    assert(spaces_end(s, n + 1) == n + 1);
    assert(spaces_end(s, n) == n + 1);
    assert(is_step_separator(c));
    assert(split_step_view(z) == with_supply(s, n, n + 1));
    assert(s.take(n) =~= d);
    lemma_remove_white_digits(d);
    let w = seq![' '] + a;
    assert(s.skip(n + 2) =~= w.take(e - n - 2));
    assert forall|i: int| e - n - 2 <= i < a.len() + 1 implies is_white(#[trigger] w[i]) by {
        assert(w[i] == z[i + n + 2]);
    }
    lemma_trim_space_prefix_take(a, e - n - 2);
}

proof fn lemma_digits_end_at_least(s: Seq<char>, i: int)
    ensures
        digits_end(s, i) >= i,
    decreases s.len() - i,
{
    if 0 <= i < s.len() && is_ascii_digit(s[i]) {
        lemma_digits_end_at_least(s, i + 1);
    }
}

/// A step whose trimmed text does not start with an ASCII digit, or starts
/// with four or more of them, has no supply: its action is the trimmed
/// step. A blank step is empty.
pub proof fn lemma_split_step_no_supply(step: Seq<char>)
    ensures
        trim(step).len() == 0 ==> split_step_view(step) == (None::<Seq<char>>, Seq::<char>::empty()),
        trim(step).len() > 0 && !('0' <= trim(step)[0] <= '9') ==> split_step_view(step) == (None::<Seq<char>>, trim(step)),
        trim(step).len() >= 4 && (forall|k: int| 0 <= k < 4 ==> '0' <= #[trigger] trim(step)[k] <= '9')
            ==> split_step_view(step) == (None::<Seq<char>>, trim(step)),
{
    let s = trim(step);
    if s.len() >= 4 && (forall|k: int| 0 <= k < 4 ==> '0' <= #[trigger] s[k] <= '9') {
        assert('0' <= s[0] <= '9' && '0' <= s[1] <= '9' && '0' <= s[2] <= '9' && '0' <= s[3] <= '9');
        lemma_digits_end_at_least(s, 4);
        assert(digits_end(s, 3) == digits_end(s, 4));
        assert(digits_end(s, 2) == digits_end(s, 3));
        assert(digits_end(s, 1) == digits_end(s, 2));
        assert(digits_end(s, 0) == digits_end(s, 1));
    }
}

fn digits_end_exec(s: &[char], i: usize) -> (r: usize)
    requires
        i <= s@.len(),
    ensures
        r as int == digits_end(s@, i as int),
        i <= r <= s@.len(),
{
    let mut j = i;
    while j < s.len() && digit_char(s[j])
        invariant
            i <= j <= s@.len(),
            digits_end(s@, i as int) == digits_end(s@, j as int),
        decreases s@.len() - j,
    {
        j = j + 1;
    }
    j
}

fn spaces_end_exec(s: &[char], i: usize) -> (r: usize)
    requires
        i <= s@.len(),
    ensures
        r as int == spaces_end(s@, i as int),
        i <= r <= s@.len(),
{
    let mut j = i;
    while j < s.len() && s[j] == ' '
        invariant
            i <= j <= s@.len(),
            spaces_end(s@, i as int) == spaces_end(s@, j as int),
        decreases s@.len() - j,
    {
        j = j + 1;
    }
    j
}

fn separator_char(c: char) -> (b: bool)
    ensures
        b == is_step_separator(c),
{
    c == '-' || c == '\u{2013}' || c == '\u{2014}' || c == ':' || c == '.' || c == ')'
}

fn remove_white_exec(s: &[char]) -> (r: Vec<char>)
    ensures
        r@ == remove_white(s@),
{
    let mut r: Vec<char> = Vec::new();
    let n = s.len();
    let mut i: usize = 0;
    while i < n
        invariant
            n == s@.len(),
            i <= n,
            r@ == remove_white(s@.take(i as int)),
        decreases n - i,
    {
        assert(s@.take(i + 1).drop_last() =~= s@.take(i as int));
        if !white_char(s[i]) {
            r.push(s[i]);
        }
        i = i + 1;
    }
    assert(s@.take(n as int) =~= s@);
    r
}

fn make_split(s: &[char], end: usize, sep: usize) -> (r: SplitStep)
    requires
        end <= sep < s.len(),
    ensures
        r@ == with_supply(s@, end as int, sep as int),
{
    let head = slice_chars(s, 0, end);
    assert(head@ =~= s@.take(end as int));
    let supply = remove_white_exec(head.as_slice());
    let rest = slice_chars(s, sep + 1, s.len());
    assert(rest@ =~= s@.skip(sep + 1));
    let action = trim_chars(rest.as_slice());
    SplitStep { supply: Some(string_of(supply.as_slice())), action: string_of(action.as_slice()) }
}

fn no_supply(s: &[char]) -> (r: SplitStep)
    ensures
        r@ == (None::<Seq<char>>, s@),
{
    SplitStep { supply: None, action: string_of(s) }
}

pub fn split_step(step: &str) -> (r: SplitStep)
    ensures
        r@ == split_step_view(step@),
{
    let raw = chars_of(step);
    let sv = trim_chars(raw.as_slice());
    let s = sv.as_slice();
    let n = s.len();
    if n == 0 {
        return SplitStep { supply: None, action: String::new() };
    }
    let d1 = digits_end_exec(s, 0);
    if d1 == 0 || d1 > 3 {
        return no_supply(s);
    }
    let p = spaces_end_exec(s, d1);
    if p < n && s[p] == '/' {
        let q = spaces_end_exec(s, p + 1);
        let e = digits_end_exec(s, q);
        let r = spaces_end_exec(s, e);
        if e == q || e - q > 3 {
            no_supply(s)
        } else if r < n && separator_char(s[r]) {
            make_split(s, e, r)
        } else {
            no_supply(s)
        }
    } else if p < n && separator_char(s[p]) {
        make_split(s, d1, p)
    } else {
        no_supply(s)
    }
}

} // verus!
