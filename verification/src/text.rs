//! Character-level text helpers shared by the wikitext parser, the importer
//! and the slug / step utilities. Strings are modelled by their view, a
//! `Seq<char>`; every helper states its result over that view.

use vstd::prelude::*;

verus! {

// ---------------------------------------------------------------------------
// Character classes
// ---------------------------------------------------------------------------

/// Unicode `White_Space`, the class that `char::is_whitespace`, `str::trim`
/// and `str::split_whitespace` use.
pub open spec fn is_white(c: char) -> bool {
    ||| ('\u{9}' <= c && c <= '\u{d}')
    ||| c == ' '
    ||| c == '\u{85}'
    ||| c == '\u{a0}'
    ||| c == '\u{1680}'
    ||| ('\u{2000}' <= c && c <= '\u{200a}')
    ||| c == '\u{2028}'
    ||| c == '\u{2029}'
    ||| c == '\u{202f}'
    ||| c == '\u{205f}'
    ||| c == '\u{3000}'
}

pub open spec fn is_ascii_digit(c: char) -> bool {
    '0' <= c && c <= '9'
}

pub open spec fn is_ascii_lower(c: char) -> bool {
    'a' <= c && c <= 'z'
}

pub open spec fn is_ascii_upper(c: char) -> bool {
    'A' <= c && c <= 'Z'
}

pub open spec fn is_ascii_alphanumeric(c: char) -> bool {
    is_ascii_digit(c) || is_ascii_lower(c) || is_ascii_upper(c)
}

pub fn white_char(c: char) -> (b: bool)
    ensures
        b == is_white(c),
{
    ('\u{9}' <= c && c <= '\u{d}') || c == ' ' || c == '\u{85}' || c == '\u{a0}' || c == '\u{1680}'
        || ('\u{2000}' <= c && c <= '\u{200a}') || c == '\u{2028}' || c == '\u{2029}' || c
        == '\u{202f}' || c == '\u{205f}' || c == '\u{3000}'
}

pub fn digit_char(c: char) -> (b: bool)
    ensures
        b == is_ascii_digit(c),
{
    '0' <= c && c <= '9'
}

pub fn alphanumeric_char(c: char) -> (b: bool)
    ensures
        b == is_ascii_alphanumeric(c),
{
    ('0' <= c && c <= '9') || ('a' <= c && c <= 'z') || ('A' <= c && c <= 'Z')
}

// ---------------------------------------------------------------------------
// Conversions between `&str` / `String` and `Vec<char>`
// ---------------------------------------------------------------------------

/// Appends one character to a `String` (`String::push`).
#[verifier::external_body]
pub(crate) fn push_char(s: &mut String, c: char)
    ensures
        final(s)@ == old(s)@.push(c),
{
    s.push(c);
}

/// The characters of `s`, in order.
pub fn chars_of(s: &str) -> (v: Vec<char>)
    ensures
        v@ == s@,
{
    let mut v: Vec<char> = Vec::new();
    for c in it: s.chars()
        invariant
            v@ == it.seq().take(it.index() as int),
    {
        v.push(c);
    }
    v
}

/// Appends the characters of `v` to `s`.
pub fn push_chars(s: &mut String, v: &[char])
    ensures
        final(s)@ == old(s)@ + v@,
{
    let n = v.len();
    let mut i: usize = 0;
    while i < n
        invariant
            n == v@.len(),
            i <= n,
            s@ == old(s)@ + v@.take(i as int),
        decreases n - i,
    {
        push_char(s, v[i]);
        i = i + 1;
        assert(v@.take(i as int) == v@.take((i - 1) as int).push(v@[i - 1]));
    }
    assert(v@.take(n as int) == v@);
}

/// Appends the characters of `t` to `s`.
pub fn push_str(s: &mut String, t: &str)
    ensures
        final(s)@ == old(s)@ + t@,
{
    let v = chars_of(t);
    push_chars(s, v.as_slice());
}

/// A `String` holding the characters of `v`.
pub fn string_of(v: &[char]) -> (s: String)
    ensures
        s@ == v@,
{
    let mut s = String::new();
    push_chars(&mut s, v);
    assert(Seq::<char>::empty() + v@ == v@);
    s
}

/// A `String` with the characters of `t`.
pub fn string_from(t: &str) -> (s: String)
    ensures
        s@ == t@,
{
    let mut s = String::new();
    push_str(&mut s, t);
    assert(Seq::<char>::empty() + t@ == t@);
    s
}

/// Copies `v[from..to]`.
pub fn slice_chars(v: &[char], from: usize, to: usize) -> (r: Vec<char>)
    requires
        from <= to <= v@.len(),
    ensures
        r@ == v@.subrange(from as int, to as int),
{
    let mut r: Vec<char> = Vec::new();
    let mut i = from;
    while i < to
        invariant
            from <= i <= to <= v@.len(),
            r@ == v@.subrange(from as int, i as int),
        decreases to - i,
    {
        r.push(v[i]);
        i = i + 1;
        assert(r@ == v@.subrange(from as int, i as int));
    }
    r
}

/// `s == t` on characters.
pub fn chars_eq(s: &[char], t: &[char]) -> (b: bool)
    ensures
        b == (s@ == t@),
{
    if s.len() != t.len() {
        return false;
    }
    let n = s.len();
    let mut i: usize = 0;
    while i < n
        invariant
            n == s@.len() == t@.len(),
            i <= n,
            forall|k: int| 0 <= k < i ==> s@[k] == t@[k],
        decreases n - i,
    {
        if s[i] != t[i] {
            return false;
        }
        i = i + 1;
    }
    assert(s@ =~= t@);
    true
}


// ---------------------------------------------------------------------------
// Equality, case mapping
// ---------------------------------------------------------------------------

/// `a == b` for string slices.
pub fn str_eq(a: &str, b: &str) -> (r: bool)
    ensures
        r == (a@ == b@),
{
    let x = chars_of(a);
    let y = chars_of(b);
    chars_eq(x.as_slice(), y.as_slice())
}

/// What `str::to_lowercase` returns for a string with the given characters.
pub uninterp spec fn lowercase(s: Seq<char>) -> Seq<char>;

/// What `str::to_uppercase` returns for a string with the given characters.
pub uninterp spec fn uppercase(s: Seq<char>) -> Seq<char>;

/// `str::to_lowercase` (Unicode lower-case mapping of the whole string).
/// The mapping is named, not spelled out. Two facts of it are stated: no
/// ASCII capital letter is left (each maps to its small letter, and no
/// character maps to one), and a string of ASCII small letters, digits and
/// `-` has no mapping to apply and comes back as it was.
#[verifier::external_body]
pub(crate) fn to_lowercase(s: &str) -> (r: String)
    ensures
        r@ == lowercase(s@),
        forall|i: int| 0 <= i < r@.len() ==> !is_ascii_upper(#[trigger] r@[i]),
        (forall|i: int| 0 <= i < s@.len() ==> #[trigger] is_ascii_lower(s@[i]) || is_ascii_digit(s@[i]) || s@[i] == '-')
            ==> r@ == s@,
{
    s.to_lowercase()
}

/// `str::to_uppercase` (Unicode upper-case mapping of the whole string).
/// The mapping is named, not spelled out: the contract only ties the result
/// to the argument.
#[verifier::external_body]
pub(crate) fn to_uppercase(s: &str) -> (r: String)
    ensures
        r@ == uppercase(s@),
{
    s.to_uppercase()
}

// ---------------------------------------------------------------------------
// Trimming
// ---------------------------------------------------------------------------

/// The index of the first non-whitespace character at or after `i`
/// (or `s.len()` when there is none).
pub open spec fn skip_white_from(s: Seq<char>, i: int) -> int
    decreases s.len() - i,
{
    if 0 <= i < s.len() && is_white(s[i]) {
        skip_white_from(s, i + 1)
    } else {
        i
    }
}

/// The end of `s[lo..j]` once its trailing whitespace is removed.
pub open spec fn skip_white_back(s: Seq<char>, lo: int, j: int) -> int
    decreases j - lo,
{
    if lo < j && j <= s.len() && is_white(s[j - 1]) {
        skip_white_back(s, lo, j - 1)
    } else {
        j
    }
}

/// `str::trim`: `s` without leading and trailing whitespace.
pub open spec fn trim(s: Seq<char>) -> Seq<char> {
    let a = skip_white_from(s, 0);
    s.subrange(a, skip_white_back(s, a, s.len() as int))
}

/// `str::trim_start`.
pub open spec fn trim_start(s: Seq<char>) -> Seq<char> {
    s.subrange(skip_white_from(s, 0), s.len() as int)
}

/// `str::trim_end`.
pub open spec fn trim_end(s: Seq<char>) -> Seq<char> {
    s.subrange(0, skip_white_back(s, 0, s.len() as int))
}

/// The bounds `[a, b)` of `trim(v)` inside `v`.
pub fn trim_bounds(v: &[char]) -> (r: (usize, usize))
    ensures
        r.0 as int == skip_white_from(v@, 0),
        r.1 as int == skip_white_back(v@, r.0 as int, v@.len() as int),
        r.0 <= r.1 <= v@.len(),
{
    let n = v.len();
    let mut a: usize = 0;
    while a < n && white_char(v[a])
        invariant
            n == v@.len(),
            a <= n,
            skip_white_from(v@, 0) == skip_white_from(v@, a as int),
        decreases n - a,
    {
        a = a + 1;
    }
    let mut b: usize = n;
    while b > a && white_char(v[b - 1])
        invariant
            n == v@.len(),
            a <= b <= n,
            skip_white_back(v@, a as int, n as int) == skip_white_back(v@, a as int, b as int),
        decreases b - a,
    {
        b = b - 1;
    }
    (a, b)
}

pub fn trim_chars(v: &[char]) -> (r: Vec<char>)
    ensures
        r@ == trim(v@),
{
    let (a, b) = trim_bounds(v);
    slice_chars(v, a, b)
}

pub fn trim_end_chars(v: &[char]) -> (r: Vec<char>)
    ensures
        r@ == trim_end(v@),
{
    let n = v.len();
    let mut b: usize = n;
    while b > 0 && white_char(v[b - 1])
        invariant
            n == v@.len(),
            b <= n,
            skip_white_back(v@, 0, n as int) == skip_white_back(v@, 0, b as int),
        decreases b,
    {
        b = b - 1;
    }
    slice_chars(v, 0, b)
}

/// `s.trim().to_string()`.
pub fn trim_string(s: &str) -> (r: String)
    ensures
        r@ == trim(s@),
{
    let v = chars_of(s);
    let t = trim_chars(v.as_slice());
    string_of(t.as_slice())
}


// ---------------------------------------------------------------------------
// Searching, splitting, replacing
// ---------------------------------------------------------------------------

/// `s` contains the character `c`.
pub open spec fn has_char(s: Seq<char>, c: char) -> bool {
    exists|k: int| 0 <= k < s.len() && s[k] == c
}

pub fn contains_char(v: &[char], c: char) -> (b: bool)
    ensures
        b == has_char(v@, c),
{
    let n = v.len();
    let mut i: usize = 0;
    while i < n
        invariant
            n == v@.len(),
            i <= n,
            forall|k: int| 0 <= k < i ==> v@[k] != c,
        decreases n - i,
    {
        if v[i] == c {
            return true;
        }
        i = i + 1;
    }
    false
}

/// The first index at or after `i` that holds `c`, or `s.len()`.
pub open spec fn find_char_from(s: Seq<char>, c: char, i: int) -> int
    decreases s.len() - i,
{
    if 0 <= i < s.len() && s[i] != c {
        find_char_from(s, c, i + 1)
    } else {
        i
    }
}

pub proof fn lemma_find_char_from(s: Seq<char>, c: char, i: int)
    requires
        0 <= i <= s.len(),
    ensures
        i <= find_char_from(s, c, i) <= s.len(),
        forall|k: int| i <= k < find_char_from(s, c, i) ==> #[trigger] s[k] != c,
        find_char_from(s, c, i) < s.len() ==> s[find_char_from(s, c, i)] == c,
    decreases s.len() - i,
{
    if i < s.len() && s[i] != c {
        lemma_find_char_from(s, c, i + 1);
    }
}

pub fn find_char_exec(v: &[char], c: char, i: usize) -> (r: usize)
    requires
        i <= v@.len(),
    ensures
        r as int == find_char_from(v@, c, i as int),
        i <= r <= v@.len(),
{
    let mut j = i;
    while j < v.len() && v[j] != c
        invariant
            i <= j <= v@.len(),
            find_char_from(v@, c, i as int) == find_char_from(v@, c, j as int),
        decreases v@.len() - j,
    {
        j = j + 1;
    }
    j
}

/// `str::split(c)` on the suffix of `s` that starts at `i`: the pieces
/// between occurrences of `c`, empty pieces included.
pub open spec fn split_from(s: Seq<char>, c: char, i: int) -> Seq<Seq<char>>
    decreases s.len() - i,
{
    if i < 0 || i > s.len() {
        Seq::empty()
    } else {
        let j = find_char_from(s, c, i);
        if j >= s.len() {
            seq![s.subrange(i, s.len() as int)]
        } else {
            proof {
                lemma_find_char_from(s, c, i);
            }
            seq![s.subrange(i, j)] + split_from(s, c, j + 1)
        }
    }
}

/// `str::split(c)`.
pub open spec fn split_char(s: Seq<char>, c: char) -> Seq<Seq<char>> {
    split_from(s, c, 0)
}

pub fn split_char_exec(v: &[char], c: char) -> (r: Vec<Vec<char>>)
    ensures
        r@.len() == split_char(v@, c).len(),
        forall|k: int| 0 <= k < r@.len() ==> #[trigger] r@[k]@ == split_char(v@, c)[k],
{
    let ghost s = v@;
    let mut out: Vec<Vec<char>> = Vec::new();
    let ghost mut acc: Seq<Seq<char>> = Seq::empty();
    let mut i: usize = 0;
    loop
        invariant
            s == v@,
            i <= s.len(),
            acc.len() == out@.len(),
            forall|k: int| 0 <= k < out@.len() ==> #[trigger] out@[k]@ == acc[k],
            acc + split_from(s, c, i as int) == split_char(s, c),
        decreases s.len() - i,
    {
        let j = find_char_exec(v, c, i);
        proof {
            lemma_find_char_from(s, c, i as int);
        }
        let piece = slice_chars(v, i, j);
        if j >= v.len() {
            out.push(piece);
            proof {
                acc = acc.push(s.subrange(i as int, s.len() as int));
                assert(acc =~= split_char(s, c));
            }
            return out;
        }
        out.push(piece);
        proof {
            let old_acc = acc;
            acc = acc.push(s.subrange(i as int, j as int));
            assert(split_from(s, c, i as int) == seq![s.subrange(i as int, j as int)] + split_from(s, c, j + 1));
            assert(old_acc + split_from(s, c, i as int) =~= acc + split_from(s, c, j + 1));
        }
        i = j + 1;
    }
}

/// One line of `str::lines`: a trailing carriage return is dropped.
pub open spec fn strip_cr(p: Seq<char>) -> Seq<char> {
    if p.len() > 0 && p.last() == '\r' {
        p.drop_last()
    } else {
        p
    }
}

/// `str::lines`: the pieces between newlines; a final newline does not
/// start an extra empty line, and a line that ends in `\r\n` loses the `\r`.
pub open spec fn lines(s: Seq<char>) -> Seq<Seq<char>> {
    let parts = split_char(s, '\n');
    if s.len() == 0 {
        Seq::empty()
    } else if s.last() == '\n' {
        parts.drop_last().map_values(|p: Seq<char>| strip_cr(p))
    } else {
        parts.drop_last().map_values(|p: Seq<char>| strip_cr(p)).push(parts.last())
    }
}

pub proof fn lemma_split_from_nonempty(s: Seq<char>, c: char, i: int)
    requires
        0 <= i <= s.len(),
    ensures
        split_from(s, c, i).len() >= 1,
    decreases s.len() - i,
{
    lemma_find_char_from(s, c, i);
    let j = find_char_from(s, c, i);
    if j < s.len() {
        lemma_split_from_nonempty(s, c, j + 1);
    }
}

pub fn lines_exec(v: &[char]) -> (r: Vec<Vec<char>>)
    ensures
        r@.len() == lines(v@).len(),
        forall|k: int| 0 <= k < r@.len() ==> #[trigger] r@[k]@ == lines(v@)[k],
{
    let ghost s = v@;
    let mut out: Vec<Vec<char>> = Vec::new();
    if v.len() == 0 {
        return out;
    }
    let parts = split_char_exec(v, '\n');
    let ghost ps = split_char(s, '\n');
    proof {
        lemma_split_from_nonempty(s, '\n', 0);
    }
    let np = parts.len();
    let ghost ls = lines(s);
    let ends_nl = v[v.len() - 1] == '\n';
    let mut k: usize = 0;
    while k + 1 < np
        invariant
            np == parts@.len() == ps.len(),
            np >= 1,
            s == v@,
            s.len() > 0,
            ends_nl == (s.last() == '\n'),
            ps == split_char(s, '\n'),
            ls == lines(s),
            forall|j: int| 0 <= j < np ==> #[trigger] parts@[j]@ == ps[j],
            k + 1 <= np,
            out@.len() == k,
            forall|j: int| 0 <= j < k ==> #[trigger] out@[j]@ == strip_cr(ps[j]),
        decreases np - k,
    {
        let p = &parts[k];
        let pl = p.len();
        let line = if pl > 0 && p[pl - 1] == '\r' {
            slice_chars(p.as_slice(), 0, pl - 1)
        } else {
            slice_chars(p.as_slice(), 0, pl)
        };
        assert(p@.drop_last() =~= p@.subrange(0, pl - 1)) ;
        assert(line@ == strip_cr(ps[k as int]));
        out.push(line);
        k = k + 1;
    }
    if !ends_nl {
        let last = slice_chars(parts[np - 1].as_slice(), 0, parts[np - 1].len());
        out.push(last);
    }
    assert forall|j: int| 0 <= j < out@.len() implies #[trigger] out@[j]@ == ls[j] by {
        if j < np - 1 {
            assert(ls[j] == strip_cr(ps[j]));
        }
    }
    out
}

/// `s` starts with `t` at index `i`.
pub open spec fn occurs_at(s: Seq<char>, t: Seq<char>, i: int) -> bool {
    0 <= i && i + t.len() <= s.len() && s.subrange(i, i + t.len()) == t
}

pub fn occurs_at_exec(v: &[char], t: &[char], i: usize) -> (b: bool)
    ensures
        b == occurs_at(v@, t@, i as int),
{
    if i > v.len() || t.len() > v.len() - i {
        return false;
    }
    let n = t.len();
    let mut k: usize = 0;
    while k < n
        invariant
            n == t@.len(),
            i + n <= v@.len(),
            i + n <= v.len(),
            k <= n,
            forall|j: int| 0 <= j < k ==> v@[i + j] == t@[j],
        decreases n - k,
    {
        if v[i + k] != t[k] {
            assert(v@.subrange(i as int, i + n)[k as int] != t@[k as int]);
            return false;
        }
        k = k + 1;
    }
    assert(v@.subrange(i as int, i + n) =~= t@);
    true
}

/// `str::replace(from, to)` on the suffix of `s` that starts at `i`:
/// non-overlapping occurrences of `from`, leftmost first, become `to`.
pub open spec fn replace_from(s: Seq<char>, from: Seq<char>, to: Seq<char>, i: int) -> Seq<char>
    decreases s.len() - i,
{
    if i < 0 || i >= s.len() {
        Seq::empty()
    } else if from.len() > 0 && occurs_at(s, from, i) {
        to + replace_from(s, from, to, i + from.len())
    } else {
        seq![s[i]] + replace_from(s, from, to, i + 1)
    }
}

/// `str::replace(from, to)` for a non-empty `from`.
pub open spec fn replace_str(s: Seq<char>, from: Seq<char>, to: Seq<char>) -> Seq<char> {
    replace_from(s, from, to, 0)
}

pub fn replace_exec(v: &[char], from: &[char], to: &[char]) -> (r: Vec<char>)
    requires
        from@.len() > 0,
    ensures
        r@ == replace_str(v@, from@, to@),
{
    let ghost s = v@;
    let mut out: Vec<char> = Vec::new();
    let mut i: usize = 0;
    while i < v.len()
        invariant
            s == v@,
            from@.len() > 0,
            i <= s.len(),
            out@ + replace_from(s, from@, to@, i as int) == replace_str(s, from@, to@),
        decreases s.len() - i,
    {
        if occurs_at_exec(v, from, i) {
            let ghost before = out@;
            let mut k: usize = 0;
            while k < to.len()
                invariant
                    k <= to@.len(),
                    out@ == before + to@.take(k as int),
                decreases to@.len() - k,
            {
                out.push(to[k]);
                k = k + 1;
                assert(out@ =~= before + to@.take(k as int));
            }
            assert(to@.take(to@.len() as int) =~= to@);
            assert(before + (to@ + replace_from(s, from@, to@, i + from@.len()))
                =~= out@ + replace_from(s, from@, to@, i + from@.len()));
            i = i + from.len();
        } else {
            let ghost before = out@;
            out.push(v[i]);
            assert(before + (seq![s[i as int]] + replace_from(s, from@, to@, i + 1))
                =~= out@ + replace_from(s, from@, to@, i + 1));
            i = i + 1;
        }
    }
    assert(out@ + replace_from(s, from@, to@, i as int) =~= out@);
    out
}

// ---------------------------------------------------------------------------
// UTF-8 lengths
// ---------------------------------------------------------------------------

/// The number of bytes UTF-8 uses for `c`.
pub open spec fn char_utf8_len(c: char) -> nat {
    if (c as u32) < 0x80 {
        1
    } else if (c as u32) < 0x800 {
        2
    } else if (c as u32) < 0x10000 {
        3
    } else {
        4
    }
}

/// The number of bytes UTF-8 uses for `s` (what `str::len` returns).
pub open spec fn utf8_len(s: Seq<char>) -> nat
    decreases s.len(),
{
    if s.len() == 0 {
        0
    } else {
        utf8_len(s.drop_last()) + char_utf8_len(s.last())
    }
}

pub fn char_utf8_len_exec(c: char) -> (n: usize)
    ensures
        n == char_utf8_len(c),
        1 <= n <= 4,
{
    let u = c as u32;
    if u < 0x80 {
        1
    } else if u < 0x800 {
        2
    } else if u < 0x10000 {
        3
    } else {
        4
    }
}

/// The number of leading characters of `s`, counted from `k`, that fit in
/// `limit` bytes: the cut that the largest char boundary at or below
/// `limit` makes.
pub open spec fn fit_prefix(s: Seq<char>, limit: int, k: int) -> int
    decreases s.len() - k,
{
    if 0 <= k < s.len() && utf8_len(s.take(k + 1)) <= limit {
        fit_prefix(s, limit, k + 1)
    } else {
        k
    }
}

/// The longest prefix of `s` whose UTF-8 encoding has at most `limit`
/// bytes (the whole of `s` when it is short enough).
pub open spec fn utf8_head(s: Seq<char>, limit: int) -> Seq<char> {
    s.take(fit_prefix(s, limit, 0))
}

pub fn utf8_head_exec(v: &[char], limit: usize) -> (r: Vec<char>)
    ensures
        r@ == utf8_head(v@, limit as int),
{
    let ghost s = v@;
    let mut k: usize = 0;
    let mut bytes: usize = 0;
    assert(s.take(0) =~= Seq::<char>::empty());
    while k < v.len() && bytes <= limit && char_utf8_len_exec(v[k]) <= limit - bytes
        invariant
            s == v@,
            k <= s.len(),
            bytes == utf8_len(s.take(k as int)),
            fit_prefix(s, limit as int, 0) == fit_prefix(s, limit as int, k as int),
        decreases s.len() - k,
    {
        assert(s.take(k + 1).drop_last() =~= s.take(k as int));
        bytes = bytes + char_utf8_len_exec(v[k]);
        k = k + 1;
    }
    if k < v.len() {
        assert(s.take(k + 1).drop_last() =~= s.take(k as int));
    }
    slice_chars(v, 0, k)
}


// ---------------------------------------------------------------------------
// Runs of one character
// ---------------------------------------------------------------------------

/// The first index at or after `i` that does not hold `c`.
pub open spec fn skip_char_from(s: Seq<char>, c: char, i: int) -> int
    decreases s.len() - i,
{
    if 0 <= i < s.len() && s[i] == c {
        skip_char_from(s, c, i + 1)
    } else {
        i
    }
}

/// The end of `s[lo..j]` once its trailing `c`s are removed.
pub open spec fn skip_char_back(s: Seq<char>, c: char, lo: int, j: int) -> int
    decreases j - lo,
{
    if lo < j && j <= s.len() && s[j - 1] == c {
        skip_char_back(s, c, lo, j - 1)
    } else {
        j
    }
}

pub proof fn lemma_skip_char_from(s: Seq<char>, c: char, i: int)
    requires
        0 <= i <= s.len(),
    ensures
        i <= skip_char_from(s, c, i) <= s.len(),
    decreases s.len() - i,
{
    if i < s.len() && s[i] == c {
        lemma_skip_char_from(s, c, i + 1);
    }
}

pub proof fn lemma_skip_char_back(s: Seq<char>, c: char, lo: int, j: int)
    requires
        0 <= lo <= j <= s.len(),
    ensures
        lo <= skip_char_back(s, c, lo, j) <= j,
    decreases j - lo,
{
    if lo < j && s[j - 1] == c {
        lemma_skip_char_back(s, c, lo, j - 1);
    }
}

pub fn skip_char_from_exec(v: &[char], c: char, i: usize) -> (r: usize)
    requires
        i <= v@.len(),
    ensures
        r as int == skip_char_from(v@, c, i as int),
        i <= r <= v@.len(),
{
    let mut j = i;
    while j < v.len() && v[j] == c
        invariant
            i <= j <= v@.len(),
            skip_char_from(v@, c, i as int) == skip_char_from(v@, c, j as int),
        decreases v@.len() - j,
    {
        j = j + 1;
    }
    j
}

pub fn skip_char_back_exec(v: &[char], c: char, lo: usize, j: usize) -> (r: usize)
    requires
        lo <= j <= v@.len(),
    ensures
        r as int == skip_char_back(v@, c, lo as int, j as int),
        lo <= r <= j,
{
    let mut k = j;
    while k > lo && v[k - 1] == c
        invariant
            lo <= k <= j <= v@.len(),
            skip_char_back(v@, c, lo as int, j as int) == skip_char_back(v@, c, lo as int, k as int),
        decreases k - lo,
    {
        k = k - 1;
    }
    k
}


pub proof fn lemma_utf8_len_take_mono(s: Seq<char>, i: int, j: int)
    requires
        0 <= i <= j <= s.len(),
    ensures
        utf8_len(s.take(i)) <= utf8_len(s.take(j)),
    decreases j - i,
{
    if i < j {
        assert(s.take(j).drop_last() =~= s.take(j - 1));
        lemma_utf8_len_take_mono(s, i, j - 1);
    }
}

/// `utf8_len(v)` when it is at most `cap`, and some number above `cap`
/// otherwise.
pub fn utf8_len_capped(v: &[char], cap: usize) -> (n: usize)
    requires
        cap < usize::MAX - 4,
    ensures
        utf8_len(v@) <= cap ==> n == utf8_len(v@),
        utf8_len(v@) > cap ==> n > cap,
{
    let ghost s = v@;
    let mut bytes: usize = 0;
    let mut i: usize = 0;
    assert(s.take(0) =~= Seq::<char>::empty());
    while i < v.len()
        invariant
            s == v@,
            i <= s.len(),
            bytes == utf8_len(s.take(i as int)),
            bytes <= cap,
            cap < usize::MAX - 4,
        decreases s.len() - i,
    {
        assert(s.take(i + 1).drop_last() =~= s.take(i as int));
        bytes = bytes + char_utf8_len_exec(v[i]);
        i = i + 1;
        if bytes > cap {
            proof {
                lemma_utf8_len_take_mono(s, i as int, s.len() as int);
                assert(s.take(s.len() as int) =~= s);
            }
            return bytes;
        }
    }
    assert(s.take(s.len() as int) =~= s);
    bytes
}


// ---------------------------------------------------------------------------
// Decimal numbers
// ---------------------------------------------------------------------------

/// The character of a decimal digit.
pub open spec fn digit_of(d: nat) -> char {
    if d == 0 {
        '0'
    } else if d == 1 {
        '1'
    } else if d == 2 {
        '2'
    } else if d == 3 {
        '3'
    } else if d == 4 {
        '4'
    } else if d == 5 {
        '5'
    } else if d == 6 {
        '6'
    } else if d == 7 {
        '7'
    } else if d == 8 {
        '8'
    } else {
        '9'
    }
}

/// A number written in decimal, without leading zeros.
pub open spec fn decimal(n: nat) -> Seq<char>
    decreases n,
{
    if n < 10 {
        seq![digit_of(n)]
    } else {
        decimal(n / 10).push(digit_of(n % 10))
    }
}

fn digit_exec(d: u64) -> (c: char)
    requires
        d < 10,
    ensures
        c == digit_of(d as nat),
{
    if d == 0 {
        '0'
    } else if d == 1 {
        '1'
    } else if d == 2 {
        '2'
    } else if d == 3 {
        '3'
    } else if d == 4 {
        '4'
    } else if d == 5 {
        '5'
    } else if d == 6 {
        '6'
    } else if d == 7 {
        '7'
    } else if d == 8 {
        '8'
    } else {
        '9'
    }
}

/// Writes a number in decimal.
pub fn decimal_string(n: u64) -> (s: String)
    ensures
        s@ == decimal(n as nat),
    decreases n,
{
    if n < 10 {
        let mut s = String::new();
        push_char(&mut s, digit_exec(n));
        assert(s@ =~= seq![digit_of(n as nat)]);
        s
    } else {
        let mut s = decimal_string(n / 10);
        push_char(&mut s, digit_exec(n % 10));
        s
    }
}

/// `s` ends with `suffix`.
pub open spec fn ends_with(s: Seq<char>, suffix: Seq<char>) -> bool {
    suffix.len() <= s.len() && s.skip(s.len() - suffix.len()) == suffix
}

} // verus!
