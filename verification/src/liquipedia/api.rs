//! The pure side of the Liquipedia MediaWiki client: the records its
//! queries produce, page URLs, percent-encoding, and reading a page title
//! out of a URL or title typed by the user. The HTTP requests themselves
//! are made by the application around the library.

use vstd::prelude::*;
use vstd::utf8::{
    decode_utf8, encode_scalar, encode_utf8, has_width_1_encoding, is_scalar, leading_byte_width_1, valid_utf8,
};
use crate::text::{
    decimal, decimal_string, push_str, chars_of, has_char, lowercase, occurs_at, occurs_at_exec, push_char, push_chars, slice_chars,
    str_eq, string_from, string_of, to_lowercase, trim, trim_chars, utf8_len, char_utf8_len_exec,
};
use crate::types::strs_view;
use crate::utils::replace_char;

verus! {

pub const API_URL: &'static str = "https://liquipedia.net/starcraft/api.php";

/// The User-Agent sent when the settings leave it blank.
pub const DEFAULT_USER_AGENT: &'static str = "BWBuildOverlay/1.0.0 (local-use; set-your-email-in-settings)";

/// The shortest pause between two API requests, in milliseconds.
pub const MIN_RATE_LIMIT_MS: u64 = 2000;

/// Errors of the Liquipedia client. Transport and JSON failures carry the
/// message of the underlying error.
#[derive(Debug)]
pub enum ApiError {
    Http(String),
    BadStatus { status: u16, body: String },
    Api { code: String, info: String },
    NotFound(String),
    EmptyInput,
    InvalidUrl(String),
    Json(String),
}

/// The text an error is shown as.
pub open spec fn api_error_text(e: ApiError) -> Seq<char> {
    match e {
        ApiError::Http(m) => "http "@ + m@,
        ApiError::BadStatus { status, body } => "Liquipedia HTTP "@ + decimal(status as nat) + ": "@ + body@,
        ApiError::Api { code, info } => "Liquipedia API error "@ + code@ + ": "@ + info@,
        ApiError::NotFound(t) => "Page not found: "@ + t@,
        ApiError::EmptyInput => "Enter a Liquipedia URL or page title."@,
        ApiError::InvalidUrl(m) => "invalid url: "@ + m@,
        ApiError::Json(m) => "json: "@ + m@,
    }
}

fn concat2(a: &str, b: &str) -> (r: String)
    ensures
        r@ == a@ + b@,
{
    let mut r = string_from(a);
    push_str(&mut r, b);
    r
}

impl ApiError {
    /// The text the error is shown as.
    pub fn message(&self) -> (r: String)
        ensures
            r@ == api_error_text(*self),
    {
        match self {
            ApiError::Http(m) => concat2("http ", m.as_str()),
            ApiError::BadStatus { status, body } => {
                let mut r = string_from("Liquipedia HTTP ");
                let digits = decimal_string(*status as u64);
                push_str(&mut r, digits.as_str());
                push_str(&mut r, ": ");
                push_str(&mut r, body.as_str());
                r
            },
            ApiError::Api { code, info } => {
                let mut r = string_from("Liquipedia API error ");
                push_str(&mut r, code.as_str());
                push_str(&mut r, ": ");
                push_str(&mut r, info.as_str());
                r
            },
            ApiError::NotFound(t) => concat2("Page not found: ", t.as_str()),
            ApiError::EmptyInput => string_from("Enter a Liquipedia URL or page title."),
            ApiError::InvalidUrl(m) => concat2("invalid url: ", m.as_str()),
            ApiError::Json(m) => concat2("json: ", m.as_str()),
        }
    }
}

#[derive(Debug, Clone)]
pub struct LiquipediaCategoryMember {
    pub pageid: i64,
    pub ns: i64,
    pub title: String,
}

#[derive(Debug, Clone)]
pub struct PageWikitext {
    pub page_title: String,
    pub page_id: Option<i64>,
    pub revision_id: Option<i64>,
    pub revision_timestamp: Option<String>,
    pub wikitext: String,
}

#[derive(Debug, Clone)]
pub struct RevisionInfo {
    pub revision_id: Option<i64>,
    pub revision_timestamp: Option<String>,
    pub missing: bool,
}

/// The User-Agent to send: the configured one, or `DEFAULT_USER_AGENT`
/// when it is blank.
pub fn user_agent_for(configured: &str) -> (r: String)
    ensures
        r@ == (if trim(configured@).len() == 0 {
            DEFAULT_USER_AGENT@
        } else {
            configured@
        }),
{
    let v = chars_of(configured);
    let t = trim_chars(v.as_slice());
    if t.len() == 0 {
        string_from(DEFAULT_USER_AGENT)
    } else {
        string_from(configured)
    }
}

/// The pause after each request: the configured one, but never below
/// `MIN_RATE_LIMIT_MS`.
pub fn rate_limit_for(rate_limit_ms: u64) -> (r: u64)
    ensures
        r == (if rate_limit_ms < MIN_RATE_LIMIT_MS {
            MIN_RATE_LIMIT_MS
        } else {
            rate_limit_ms
        }),
        r >= MIN_RATE_LIMIT_MS,
{
    if rate_limit_ms < MIN_RATE_LIMIT_MS {
        MIN_RATE_LIMIT_MS
    } else {
        rate_limit_ms
    }
}

// ---------------------------------------------------------------------------
// Percent-encoding
// ---------------------------------------------------------------------------

/// Bytes left as they are: ASCII letters and digits and `- _ . ~ /`.
pub open spec fn unreserved(b: u8) -> bool {
    (48 <= b <= 57) || (65 <= b <= 90) || (97 <= b <= 122) || b == 45 || b == 95 || b == 46 || b == 126
        || b == 47
}

pub fn is_unreserved(b: u8) -> (r: bool)
    ensures
        r == unreserved(b),
{
    (48 <= b && b <= 57) || (65 <= b && b <= 90) || (97 <= b && b <= 122) || b == 45 || b == 95 || b
        == 46 || b == 126 || b == 47
}

/// The upper-case hex digit for `n < 16`.
pub open spec fn hex_char(n: u8) -> char {
    if n < 10 {
        (48 + n) as char
    } else {
        (55 + n) as char
    }
}

/// The value of a hex digit (either case).
pub open spec fn hex_value(b: u8) -> Option<u8> {
    if 48 <= b <= 57 {
        Some((b - 48) as u8)
    } else if 97 <= b <= 102 {
        Some((b - 87) as u8)
    } else if 65 <= b <= 70 {
        Some((b - 55) as u8)
    } else {
        None
    }
}

pub fn hex_digit(b: u8) -> (r: Option<u8>)
    ensures
        r == hex_value(b),
{
    if 48 <= b && b <= 57 {
        Some(b - 48)
    } else if 97 <= b && b <= 102 {
        Some(b - 87)
    } else if 65 <= b && b <= 70 {
        Some(b - 55)
    } else {
        None
    }
}

/// How one byte is written: itself, or `%` and two upper-case hex digits.
pub open spec fn encode_byte(b: u8) -> Seq<char> {
    if unreserved(b) {
        seq![b as char]
    } else {
        seq!['%', hex_char(b / 16), hex_char(b % 16)]
    }
}

pub open spec fn encode_bytes(bs: Seq<u8>) -> Seq<char>
    decreases bs.len(),
{
    if bs.len() == 0 {
        Seq::empty()
    } else {
        encode_byte(bs[0]) + encode_bytes(bs.drop_first())
    }
}

/// Percent-encoding of the UTF-8 bytes of `s`.
pub open spec fn url_encode(s: Seq<char>) -> Seq<char> {
    encode_bytes(encode_utf8(s))
}

proof fn lemma_encode_bytes_push(bs: Seq<u8>, b: u8)
    ensures
        encode_bytes(bs.push(b)) == encode_bytes(bs) + encode_byte(b),
    decreases bs.len(),
{
    if bs.len() == 0 {
        assert(bs.push(b).drop_first() =~= Seq::<u8>::empty());
        assert(encode_bytes(Seq::<u8>::empty()) == Seq::<char>::empty());
        assert(encode_bytes(bs.push(b)) =~= encode_byte(b));
    } else {
        assert(bs.push(b).drop_first() =~= bs.drop_first().push(b));
        lemma_encode_bytes_push(bs.drop_first(), b);
        assert(encode_bytes(bs.push(b)) =~= encode_byte(bs[0]) + (encode_bytes(bs.drop_first())
            + encode_byte(b)));
    }
}

/// The percent-encoding of a string (`%XX` with upper-case hex digits for
/// every byte but ASCII letters, digits and `- _ . ~ /`).
pub fn encode(input: &str) -> (r: String)
    ensures
        r@ == url_encode(input@),
{
    let bytes = input.as_bytes();
    let ghost bs = bytes@;
    let mut out = String::new();
    let n = bytes.len();
    let mut i: usize = 0;
    assert(bs.take(0) =~= Seq::<u8>::empty());
    while i < n
        invariant
            bs == bytes@,
            bs == encode_utf8(input@),
            n == bs.len(),
            i <= n,
            out@ == encode_bytes(bs.take(i as int)),
        decreases n - i,
    {
        let b = bytes[i];
        proof {
            assert(bs.take(i + 1) =~= bs.take(i as int).push(b));
            lemma_encode_bytes_push(bs.take(i as int), b);
        }
        if is_unreserved(b) {
            push_char(&mut out, b as char);
            assert(out@ =~= encode_bytes(bs.take(i as int)) + encode_byte(b));
        } else {
            let hi = b / 16;
            let lo = b % 16;
            push_char(&mut out, '%');
            push_char(&mut out, hex_upper(hi));
            push_char(&mut out, hex_upper(lo));
            assert(out@ =~= encode_bytes(bs.take(i as int)) + encode_byte(b));
        }
        i = i + 1;
    }
    assert(bs.take(n as int) =~= bs);
    out
}

fn hex_upper(n: u8) -> (c: char)
    requires
        n < 16,
    ensures
        c == hex_char(n),
{
    if n < 10 {
        (48 + n) as char
    } else {
        (55 + n) as char
    }
}

/// Percent-decoding of `bs` from index `i`: a `%` followed by two hex
/// digits becomes the byte they spell; every other byte stays.
pub open spec fn decode_from(bs: Seq<u8>, i: int) -> Seq<u8>
    decreases bs.len() - i,
{
    if i < 0 || i >= bs.len() {
        Seq::empty()
    } else if bs[i] == 37 && i + 2 < bs.len() && hex_value(bs[i + 1]) is Some && hex_value(
        bs[i + 2],
    ) is Some {
        seq![(hex_value(bs[i + 1]).unwrap() * 16 + hex_value(bs[i + 2]).unwrap()) as u8]
            + decode_from(bs, i + 3)
    } else {
        seq![bs[i]] + decode_from(bs, i + 1)
    }
}

/// Percent-decoding of `s`: the decoded bytes as a string, or `None` when
/// they are not UTF-8.
pub open spec fn url_decode(s: Seq<char>) -> Option<Seq<char>> {
    let bs = decode_from(encode_utf8(s), 0);
    if valid_utf8(bs) {
        Some(decode_utf8(bs))
    } else {
        None
    }
}

/// `String::from_utf8`: the bytes as a string when they are valid UTF-8.
#[verifier::external_body]
fn string_from_utf8(bytes: Vec<u8>) -> (r: Option<String>)
    ensures
        r is Some <==> valid_utf8(bytes@),
        r matches Some(s) ==> s@ == decode_utf8(bytes@),
{
    String::from_utf8(bytes).ok()
}

/// Percent-decodes a string; `None` when the decoded bytes are not UTF-8.
pub fn decode(input: &str) -> (r: Option<String>)
    ensures
        opt_string_view(r) == url_decode(input@),
{
    let bytes = input.as_bytes();
    let ghost bs = bytes@;
    let mut out: Vec<u8> = Vec::new();
    let n = bytes.len();
    let mut i: usize = 0;
    while i < n
        invariant
            bs == bytes@,
            bs == encode_utf8(input@),
            n == bs.len(),
            i <= n,
            out@ + decode_from(bs, i as int) == decode_from(bs, 0),
        decreases n - i,
    {
        if bytes[i] == 37 && n - i > 2 {
            let hi = hex_digit(bytes[i + 1]);
            let lo = hex_digit(bytes[i + 2]);
            if hi.is_some() && lo.is_some() {
                let h = hi.unwrap();
                let l = lo.unwrap();
                let ghost before = out@;
                out.push(h * 16 + l);
                assert(before + decode_from(bs, i as int) =~= out@ + decode_from(bs, i + 3));
                i = i + 3;
                continue;
            }
        }
        let ghost before = out@;
        out.push(bytes[i]);
        assert(before + decode_from(bs, i as int) =~= out@ + decode_from(bs, i + 1));
        i = i + 1;
    }
    assert(out@ + decode_from(bs, i as int) =~= out@);
    string_from_utf8(out)
}

pub open spec fn opt_string_view(o: Option<String>) -> Option<Seq<char>> {
    match o {
        Some(s) => Some(s@),
        None => None,
    }
}

/// The wiki URL of a page title: spaces become underscores, then the
/// title is percent-encoded.
pub open spec fn page_url_of(title: Seq<char>) -> Seq<char> {
    "https://liquipedia.net/starcraft/"@ + url_encode(replace_char(title, ' ', seq!['_']))
}

pub fn page_url(title: &str) -> (r: String)
    ensures
        r@ == page_url_of(title@),
{
    let v = chars_of(title);
    let mut underscored: Vec<char> = Vec::new();
    let n = v.len();
    let mut i: usize = 0;
    while i < n
        invariant
            n == v@.len(),
            i <= n,
            underscored@ == replace_char(v@.take(i as int), ' ', seq!['_']),
        decreases n - i,
    {
        assert(v@.take(i + 1).drop_last() =~= v@.take(i as int));
        if v[i] == ' ' {
            underscored.push('_');
        } else {
            underscored.push(v[i]);
        }
        i = i + 1;
        assert(underscored@ =~= replace_char(v@.take(i as int), ' ', seq!['_']));
    }
    assert(v@.take(n as int) =~= v@);
    let u = string_of(underscored.as_slice());
    let encoded = encode(u.as_str());
    let mut out = string_from("https://liquipedia.net/starcraft/");
    push_str_owned(&mut out, &encoded);
    out
}

fn push_str_owned(s: &mut String, t: &String)
    ensures
        final(s)@ == old(s)@ + t@,
{
    crate::text::push_str(s, t.as_str());
}


// ---------------------------------------------------------------------------
// Decoding undoes encoding
// ---------------------------------------------------------------------------

/// The bytes `encode_byte(b)` stands for.
spec fn encoded_byte_bytes(b: u8) -> Seq<u8> {
    if unreserved(b) {
        seq![b]
    } else {
        seq![37u8, hex_char(b / 16) as u8, hex_char(b % 16) as u8]
    }
}

proof fn lemma_encode_utf8_concat(a: Seq<char>, b: Seq<char>)
    ensures
        encode_utf8(a + b) == encode_utf8(a) + encode_utf8(b),
    decreases a.len(),
{
    if a.len() == 0 {
        assert(a + b =~= b);
    } else {
        assert((a + b).drop_first() =~= a.drop_first() + b);
        lemma_encode_utf8_concat(a.drop_first(), b);
        assert((a + b)[0] == a[0]);
    }
}

proof fn lemma_ascii_char_utf8(b: u8)
    requires
        b < 128,
    ensures
        encode_utf8(seq![b as char]) == seq![b],
{
    let c = b as char;
    assert((c as u32) == (b as u32));
    let u = b as u32;
    assert((u & 0x7F) as u8 == b) by (bit_vector)
        requires
            u == b as u32,
            b < 128,
    ;
    assert(seq![c].drop_first() =~= Seq::<char>::empty());
    assert(has_width_1_encoding(c as u32));
    assert(encode_scalar(c as u32) == seq![leading_byte_width_1(c as u32)]);
    assert(leading_byte_width_1(c as u32) == b);
    assert(encode_utf8(Seq::<char>::empty()) == Seq::<u8>::empty());
    assert(encode_utf8(seq![c]) == encode_scalar(c as u32) + encode_utf8(seq![c].drop_first()));
    assert(encode_utf8(seq![c]) =~= seq![b]);
}

proof fn lemma_encode_byte_utf8(b: u8)
    ensures
        encode_utf8(encode_byte(b)) == encoded_byte_bytes(b),
{
    if unreserved(b) {
        lemma_ascii_char_utf8(b);
    } else {
        let h = hex_char(b / 16) as u8;
        let l = hex_char(b % 16) as u8;
        assert(hex_char(b / 16) == h as char);
        assert(hex_char(b % 16) == l as char);
        assert(37u8 as char == '%');
        lemma_ascii_char_utf8(37);
        lemma_ascii_char_utf8(h);
        lemma_ascii_char_utf8(l);
        assert(encode_byte(b) =~= seq!['%'] + seq![h as char] + seq![l as char]);
        lemma_encode_utf8_concat(seq!['%'] + seq![h as char], seq![l as char]);
        lemma_encode_utf8_concat(seq!['%'], seq![h as char]);
        assert(encoded_byte_bytes(b) =~= seq![37u8] + seq![h] + seq![l]);
    }
}

proof fn lemma_decode_shift(s: Seq<u8>, i: int)
    requires
        0 <= i <= s.len(),
    ensures
        decode_from(s, i) == decode_from(s.skip(i), 0),
    decreases s.len() - i,
{
    let t = s.skip(i);
    if i < s.len() {
        if s[i] == 37 && i + 2 < s.len() && hex_value(s[i + 1]) is Some && hex_value(s[i + 2]) is Some {
            lemma_decode_shift(s, i + 3);
            lemma_decode_shift(t, 3);
            assert(t.skip(3) =~= s.skip(i + 3));
        } else {
            lemma_decode_shift(s, i + 1);
            lemma_decode_shift(t, 1);
            assert(t.skip(1) =~= s.skip(i + 1));
        }
    }
}

proof fn lemma_decode_encoded_bytes(bs: Seq<u8>)
    ensures
        decode_from(encode_utf8(encode_bytes(bs)), 0) == bs,
    decreases bs.len(),
{
    if bs.len() == 0 {
        assert(encode_utf8(Seq::<char>::empty()) =~= Seq::<u8>::empty());
    } else {
        let b = bs[0];
        let rest = bs.drop_first();
        let r = encode_utf8(encode_bytes(rest));
        lemma_encode_utf8_concat(encode_byte(b), encode_bytes(rest));
        lemma_encode_byte_utf8(b);
        let p = encoded_byte_bytes(b);
        let all = p + r;
        assert(encode_utf8(encode_bytes(bs)) == all);
        lemma_decode_encoded_bytes(rest);
        lemma_decode_shift(all, p.len() as int);
        assert(all.skip(p.len() as int) =~= r);
        if unreserved(b) {
            assert(all[0] == b);
            assert(decode_from(all, 0) == seq![b] + decode_from(all, 1));
        } else {
            let hi = b / 16;
            let lo = b % 16;
            assert(hex_value(hex_char(hi) as u8) == Some(hi));
            assert(hex_value(hex_char(lo) as u8) == Some(lo));
            assert(all[0] == 37u8);
            assert(all[1] == hex_char(hi) as u8);
            assert(all[2] == hex_char(lo) as u8);
            assert((hi * 16 + lo) as u8 == b);
            assert(decode_from(all, 0) == seq![b] + decode_from(all, 3));
        }
        assert(bs =~= seq![b] + rest);
    }
}

/// Percent-decoding undoes percent-encoding: for every string `s`,
/// `decode(&encode(s))` gives `s` back.
pub proof fn lemma_decode_encode_roundtrip(s: Seq<char>)
    ensures
        url_decode(url_encode(s)) == Some(s),
{
    vstd::utf8::encode_utf8_valid_utf8(s);
    vstd::utf8::encode_utf8_decode_utf8(s);
    lemma_decode_encoded_bytes(encode_utf8(s));
}


// ---------------------------------------------------------------------------
// Page titles typed by the user
// ---------------------------------------------------------------------------

/// What `url::Url::parse(input)` then `Url::path_segments` gives: `None`
/// when `input` is not an absolute URL; otherwise its `/`-separated path
/// segments (none for a URL that cannot be a base).
pub uninterp spec fn url_path_segments(input: Seq<char>) -> Option<Seq<Seq<char>>>;

/// `url::Url::parse(input)` and the path segments of the parsed URL.
#[verifier::external_body]
fn url_segments(input: &str) -> (r: Option<Vec<String>>)
    ensures
        match r {
            Some(v) => url_path_segments(input@) == Some(strs_view(v@)),
            None => url_path_segments(input@) is None,
        },
{
    match url::Url::parse(input) {
        Ok(u) => Some(match u.path_segments() {
            Some(segs) => segs.map(|seg| seg.to_string()).collect(),
            None => Vec::new(),
        }),
        Err(_) => None,
    }
}

pub const STARCRAFT_PATH_MARKER: &'static str = "liquipedia.net/starcraft/";

pub const INVALID_URL_MESSAGE: &'static str = "Expected a liquipedia.net/starcraft URL.";

pub open spec fn ascii_lower(c: char) -> char {
    if 'A' <= c && c <= 'Z' {
        ((c as u32) + 32) as char
    } else {
        c
    }
}

/// `str::eq_ignore_ascii_case`.
pub open spec fn eq_ignore_ascii_case(a: Seq<char>, b: Seq<char>) -> bool {
    a.len() == b.len() && forall|i: int| 0 <= i < a.len() ==> ascii_lower(#[trigger] a[i]) == ascii_lower(b[i])
}

fn ascii_lower_exec(c: char) -> (r: char)
    ensures
        r == ascii_lower(c),
{
    if 'A' <= c && c <= 'Z' {
        ((c as u8) + 32) as char
    } else {
        c
    }
}

fn eq_ignore_ascii_case_exec(a: &[char], b: &[char]) -> (r: bool)
    ensures
        r == eq_ignore_ascii_case(a@, b@),
{
    if a.len() != b.len() {
        return false;
    }
    let n = a.len();
    let mut i: usize = 0;
    while i < n
        invariant
            n == a@.len() == b@.len(),
            i <= n,
            forall|k: int| 0 <= k < i ==> ascii_lower(#[trigger] a@[k]) == ascii_lower(b@[k]),
        decreases n - i,
    {
        if ascii_lower_exec(a[i]) != ascii_lower_exec(b[i]) {
            return false;
        }
        i = i + 1;
    }
    true
}

/// The non-empty strings of `v`, in order.
pub open spec fn nonempty_strs(v: Seq<Seq<char>>) -> Seq<Seq<char>>
    decreases v.len(),
{
    if v.len() == 0 {
        Seq::empty()
    } else if v.last().len() == 0 {
        nonempty_strs(v.drop_last())
    } else {
        nonempty_strs(v.drop_last()).push(v.last())
    }
}

/// The strings of `v` joined with `/`.
pub open spec fn join_slash(v: Seq<Seq<char>>) -> Seq<char>
    decreases v.len(),
{
    if v.len() == 0 {
        Seq::empty()
    } else if v.len() == 1 {
        v[0]
    } else {
        join_slash(v.drop_last()) + seq!['/'] + v.last()
    }
}

/// The title a wiki URL's path names: everything after a first segment
/// `starcraft` (any case), percent-decoded when that gives UTF-8, with
/// underscores as spaces; `None` when the path is not such a path.
pub open spec fn title_of_segments(segs: Seq<Seq<char>>) -> Option<Seq<char>> {
    let ne = nonempty_strs(segs);
    if ne.len() < 2 || !eq_ignore_ascii_case(ne[0], "starcraft"@) {
        None
    } else {
        let joined = join_slash(ne.skip(1));
        let decoded = match url_decode(joined) {
            Some(d) => d,
            None => joined,
        };
        Some(replace_char(decoded, '_', seq![' ']))
    }
}

/// Every byte of a scalar's UTF-8 encoding is 37 (`%`) only when the
/// scalar is 37 itself.
proof fn lemma_scalar_bytes_not_percent(u: u32)
    requires
        is_scalar(u),
        u != 37,
    ensures
        forall|k: int| 0 <= k < encode_scalar(u).len() ==> #[trigger] encode_scalar(u)[k] != 37u8,
{
    assert(u <= 0x7F && u != 37 ==> (u & 0x7F) as u8 != 37u8) by (bit_vector);
    assert((0xC0u8 | ((u >> 6) & 0x1F) as u8) >= 128u8) by (bit_vector);
    assert((0xE0u8 | ((u >> 12) & 0x0F) as u8) >= 128u8) by (bit_vector);
    assert((0xF0u8 | ((u >> 18) & 0x7) as u8) >= 128u8) by (bit_vector);
    assert((0x80u8 | (u & 0x3F) as u8) >= 128u8) by (bit_vector);
    assert((0x80u8 | ((u >> 6) & 0x3F) as u8) >= 128u8) by (bit_vector);
    assert((0x80u8 | ((u >> 12) & 0x3F) as u8) >= 128u8) by (bit_vector);
}

/// A string without `%` encodes to bytes without 37.
proof fn lemma_encode_no_percent(s: Seq<char>)
    requires
        forall|j: int| 0 <= j < s.len() ==> s[j] != '%',
    ensures
        forall|k: int| 0 <= k < encode_utf8(s).len() ==> #[trigger] encode_utf8(s)[k] != 37u8,
    decreases s.len(),
{
    if s.len() > 0 {
        let u = s[0] as u32;
        vstd::utf8::char_is_scalar(s[0]);
        if u == 37 {
            vstd::utf8::char_u32_cast(s[0], u);
            assert(37u32 as char == '%');
        }
        lemma_scalar_bytes_not_percent(u);
        lemma_encode_no_percent(s.drop_first());
        let a = encode_scalar(u);
        let b = encode_utf8(s.drop_first());
        assert(encode_utf8(s) == a + b);
        assert forall|k: int| 0 <= k < encode_utf8(s).len() implies #[trigger] encode_utf8(s)[k] != 37u8 by {
            if k < a.len() {
                assert(encode_utf8(s)[k] == a[k]);
            } else {
                assert(encode_utf8(s)[k] == b[k - a.len()]);
            }
        }
    }
}

/// Bytes without 37 are left as they are by percent-decoding.
proof fn lemma_decode_plain_bytes(bs: Seq<u8>, i: int)
    requires
        0 <= i <= bs.len(),
        forall|k: int| 0 <= k < bs.len() ==> #[trigger] bs[k] != 37u8,
    ensures
        decode_from(bs, i) == bs.skip(i),
    decreases bs.len() - i,
{
    if i == bs.len() {
        assert(bs.skip(i) =~= Seq::<u8>::empty());
    } else {
        lemma_decode_plain_bytes(bs, i + 1);
        assert(bs.skip(i) =~= seq![bs[i]] + bs.skip(i + 1));
    }
}

/// A string without `%` is its own percent-decoding.
proof fn lemma_url_decode_plain(s: Seq<char>)
    requires
        forall|j: int| 0 <= j < s.len() ==> s[j] != '%',
    ensures
        url_decode(s) == Some(s),
{
    lemma_encode_no_percent(s);
    lemma_decode_plain_bytes(encode_utf8(s), 0);
    assert(encode_utf8(s).skip(0) =~= encode_utf8(s));
    vstd::utf8::encode_utf8_valid_utf8(s);
    vstd::utf8::encode_utf8_decode_utf8(s);
}

/// Replacing a character distributes over concatenation.
proof fn lemma_replace_char_concat(a: Seq<char>, b: Seq<char>, c: char, rep: Seq<char>)
    ensures
        replace_char(a + b, c, rep) == replace_char(a, c, rep) + replace_char(b, c, rep),
    decreases b.len(),
{
    if b.len() == 0 {
        assert(a + b =~= a);
        assert(replace_char(a, c, rep) + Seq::<char>::empty() =~= replace_char(a, c, rep));
    } else {
        assert((a + b).drop_last() =~= a + b.drop_last());
        assert((a + b).last() == b.last());
        lemma_replace_char_concat(a, b.drop_last(), c, rep);
        let tail = if b.last() == c { rep } else { seq![b.last()] };
        assert(replace_char(a, c, rep) + replace_char(b.drop_last(), c, rep) + tail
            =~= replace_char(a, c, rep) + (replace_char(b.drop_last(), c, rep) + tail));
    }
}

/// Underscores read as spaces, character by character.
proof fn lemma_underscores_pointwise(s: Seq<char>)
    ensures
        replace_char(s, '_', seq![' ']).len() == s.len(),
        forall|i: int| 0 <= i < s.len() ==> #[trigger] replace_char(s, '_', seq![' '])[i] == (if s[i] == '_' { ' ' } else { s[i] }),
    decreases s.len(),
{
    if s.len() > 0 {
        lemma_underscores_pointwise(s.drop_last());
        let r = replace_char(s, '_', seq![' ']);
        assert forall|i: int| 0 <= i < s.len() implies #[trigger] r[i] == (if s[i] == '_' { ' ' } else { s[i] }) by {
            if i < s.len() - 1 {
                assert(s.drop_last()[i] == s[i]);
            }
        }
    }
}

/// The non-empty strings of strings without `%` are without `%`.
proof fn lemma_nonempty_no_percent(v: Seq<Seq<char>>)
    requires
        forall|i: int, j: int| 0 <= i < v.len() && 0 <= j < v[i].len() ==> v[i][j] != '%',
    ensures
        forall|i: int, j: int| 0 <= i < nonempty_strs(v).len() && 0 <= j < nonempty_strs(v)[i].len() ==> nonempty_strs(v)[i][j] != '%',
    decreases v.len(),
{
    if v.len() > 0 {
        let d = v.drop_last();
        assert forall|i: int, j: int| 0 <= i < d.len() && 0 <= j < d[i].len() implies d[i][j] != '%' by {
            assert(d[i] == v[i]);
        }
        lemma_nonempty_no_percent(d);
        let nd = nonempty_strs(d);
        let nv = nonempty_strs(v);
        assert forall|i: int, j: int| 0 <= i < nv.len() && 0 <= j < nv[i].len() implies nv[i][j] != '%' by {
            if i < nd.len() {
                assert(nv[i] == nd[i]);
            } else {
                assert(nv[i] == v[v.len() - 1]);
            }
        }
    }
}

/// Strings without `%` joined with `/` hold no `%`.
proof fn lemma_join_no_percent(v: Seq<Seq<char>>)
    requires
        forall|i: int, j: int| 0 <= i < v.len() && 0 <= j < v[i].len() ==> v[i][j] != '%',
    ensures
        forall|j: int| 0 <= j < join_slash(v).len() ==> join_slash(v)[j] != '%',
    decreases v.len(),
{
    if v.len() > 1 {
        let d = v.drop_last();
        assert forall|i: int, j: int| 0 <= i < d.len() && 0 <= j < d[i].len() implies d[i][j] != '%' by {
            assert(d[i] == v[i]);
        }
        lemma_join_no_percent(d);
        let a = join_slash(d);
        let l = v.last();
        assert forall|j: int| 0 <= j < join_slash(v).len() implies join_slash(v)[j] != '%' by {
            if j < a.len() {
                assert(join_slash(v)[j] == a[j]);
            } else if j == a.len() {
                assert(join_slash(v)[j] == '/');
            } else {
                assert(join_slash(v)[j] == l[j - a.len() - 1]);
                assert(l == v[v.len() - 1]);
            }
        }
    } else if v.len() == 1 {
        assert(join_slash(v) == v[0]);
    }
}

/// A wiki URL path with one title segment after `starcraft`: the title is
/// that segment, with each underscore read as a space (for a segment
/// without percent escapes).
pub proof fn lemma_title_one_segment(s: Seq<char>)
    requires
        s.len() > 0,
        forall|j: int| 0 <= j < s.len() ==> s[j] != '%',
    ensures
        title_of_segments(seq!["starcraft"@, s]) matches Some(x) && x.len() == s.len()
            && forall|i: int| 0 <= i < s.len() ==> #[trigger] x[i] == (if s[i] == '_' { ' ' } else { s[i] }),
{
    reveal_strlit("starcraft");
    let segs = seq!["starcraft"@, s];
    assert(segs.drop_last() =~= seq!["starcraft"@]);
    assert(seq!["starcraft"@].drop_last() =~= Seq::<Seq<char>>::empty());
    assert("starcraft"@.len() == 9);
    assert(nonempty_strs(Seq::<Seq<char>>::empty()) == Seq::<Seq<char>>::empty());
    assert(nonempty_strs(seq!["starcraft"@]) == Seq::<Seq<char>>::empty().push("starcraft"@));
    let ne = nonempty_strs(segs);
    assert(ne =~= segs);
    assert(ne[0] == "starcraft"@);
    assert(eq_ignore_ascii_case(ne[0], "starcraft"@));
    assert(ne.skip(1) =~= seq![s]);
    assert(join_slash(ne.skip(1)) == s);
    lemma_url_decode_plain(s);
    lemma_underscores_pointwise(s);
}

/// A title segment written percent-encoded reads back as the text it
/// encodes, with each underscore read as a space.
pub proof fn lemma_title_encoded_segment(x: Seq<char>)
    requires
        x.len() > 0,
    ensures
        title_of_segments(seq!["starcraft"@, url_encode(x)]) matches Some(y) && y.len() == x.len()
            && forall|i: int| 0 <= i < x.len() ==> #[trigger] y[i] == (if x[i] == '_' { ' ' } else { x[i] }),
{
    reveal_strlit("starcraft");
    let s = url_encode(x);
    vstd::utf8::char_is_scalar(x[0]);
    let bs = encode_utf8(x);
    assert(bs == encode_scalar(x[0] as u32) + encode_utf8(x.drop_first()));
    assert(bs.len() > 0);
    assert(s == encode_byte(bs[0]) + encode_bytes(bs.drop_first()));
    assert(s.len() > 0);
    let segs = seq!["starcraft"@, s];
    assert(segs.drop_last() =~= seq!["starcraft"@]);
    assert(seq!["starcraft"@].drop_last() =~= Seq::<Seq<char>>::empty());
    assert("starcraft"@.len() == 9);
    assert(nonempty_strs(Seq::<Seq<char>>::empty()) == Seq::<Seq<char>>::empty());
    assert(nonempty_strs(seq!["starcraft"@]) == Seq::<Seq<char>>::empty().push("starcraft"@));
    let ne = nonempty_strs(segs);
    assert(ne =~= segs);
    assert(eq_ignore_ascii_case(ne[0], "starcraft"@));
    assert(ne.skip(1) =~= seq![s]);
    assert(join_slash(ne.skip(1)) == s);
    lemma_decode_encode_roundtrip(x);
    lemma_underscores_pointwise(x);
}

/// One more path segment adds `/` and that segment (underscores read as
/// spaces) to the title, and an empty segment changes nothing: so the
/// title of `/starcraft/s1/.../sn` holds every segment, joined with `/`
/// (for segments without percent escapes).
pub proof fn lemma_title_next_segment(segs: Seq<Seq<char>>, s: Seq<char>, t: Seq<char>)
    requires
        title_of_segments(segs) == Some(t),
        forall|i: int, j: int| 0 <= i < segs.len() && 0 <= j < segs[i].len() ==> segs[i][j] != '%',
        forall|j: int| 0 <= j < s.len() ==> s[j] != '%',
    ensures
        s.len() == 0 ==> title_of_segments(segs.push(s)) == Some(t),
        s.len() > 0 ==> (title_of_segments(segs.push(s)) matches Some(x)
            && x.len() == t.len() + 1 + s.len()
            && x.take(t.len() as int) == t
            && x[t.len() as int] == '/'
            && forall|i: int| 0 <= i < s.len() ==> #[trigger] x[t.len() + 1 + i] == (if s[i] == '_' { ' ' } else { s[i] })),
{
    let ne = nonempty_strs(segs);
    let p = segs.push(s);
    assert(p.drop_last() =~= segs);
    assert(p.last() == s);
    if s.len() > 0 {
        let ne2 = nonempty_strs(p);
        assert(ne2 == ne.push(s));
        assert(ne2[0] == ne[0]);
        let r = ne.skip(1);
        assert(ne2.skip(1) =~= r.push(s));
        assert(r.push(s).drop_last() =~= r);
        let joined = join_slash(r);
        assert(join_slash(ne2.skip(1)) == joined + seq!['/'] + s);
        lemma_nonempty_no_percent(segs);
        assert forall|i: int, j: int| 0 <= i < r.len() && 0 <= j < r[i].len() implies r[i][j] != '%' by {
            assert(r[i] == ne[i + 1]);
        }
        lemma_join_no_percent(r);
        lemma_url_decode_plain(joined);
        let j2 = joined + seq!['/'] + s;
        assert forall|j: int| 0 <= j < j2.len() implies j2[j] != '%' by {
            if j < joined.len() {
                assert(j2[j] == joined[j]);
            } else if j > joined.len() {
                assert(j2[j] == s[j - joined.len() - 1]);
            }
        }
        lemma_url_decode_plain(j2);
        assert(t == replace_char(joined, '_', seq![' ']));
        lemma_replace_char_concat(joined + seq!['/'], s, '_', seq![' ']);
        lemma_replace_char_concat(joined, seq!['/'], '_', seq![' ']);
        assert(seq!['/'].drop_last() =~= Seq::<char>::empty());
        assert(replace_char(Seq::<char>::empty(), '_', seq![' ']) == Seq::<char>::empty());
        assert(replace_char(seq!['/'], '_', seq![' ']) == replace_char(Seq::<char>::empty(), '_', seq![' ']) + seq!['/']);
        assert(replace_char(seq!['/'], '_', seq![' ']) =~= seq!['/']);
        let u = replace_char(s, '_', seq![' ']);
        lemma_underscores_pointwise(s);
        let x = t + seq!['/'] + u;
        assert(title_of_segments(p) == Some(x));
        assert(x.take(t.len() as int) =~= t);
        assert forall|i: int| 0 <= i < s.len() implies #[trigger] x[t.len() + 1 + i] == (if s[i] == '_' { ' ' } else { s[i] }) by {
            assert(x[t.len() + 1 + i] == u[i]);
        }
    } else {
        assert(nonempty_strs(p) == ne);
    }
}

/// The first index at or after `i` where `needle` occurs in `hay`.
pub open spec fn find_from(hay: Seq<char>, needle: Seq<char>, i: int) -> Option<int>
    decreases hay.len() + 1 - i,
{
    if i < 0 || i > hay.len() {
        None
    } else if occurs_at(hay, needle, i) {
        Some(i)
    } else {
        find_from(hay, needle, i + 1)
    }
}

/// The character index at which the UTF-8 encoding of `s` reaches byte
/// `b` (searching from character `k`); `None` when `b` falls inside a
/// character or past the end.
pub open spec fn char_index_of_byte(s: Seq<char>, b: int, k: int) -> Option<int>
    decreases s.len() + 1 - k,
{
    if k < 0 || k > s.len() {
        None
    } else if utf8_len(s.take(k)) == b {
        Some(k)
    } else if utf8_len(s.take(k)) > b {
        None
    } else {
        char_index_of_byte(s, b, k + 1)
    }
}

/// The byte offset, in `lowercase(s)`, just after the part of a typed
/// input that names the wiki: after `liquipedia.net/starcraft/`, or at
/// `https://` / `http://`; `None` when there is none of these.
pub open spec fn title_cut(s: Seq<char>) -> Option<int> {
    let lc = lowercase(s);
    match find_from(lc, STARCRAFT_PATH_MARKER@, 0) {
        Some(k) => Some((utf8_len(lc.take(k)) + 25) as int),
        None => match find_from(lc, "https://"@, 0) {
            Some(k) => Some(utf8_len(lc.take(k)) as int),
            None => match find_from(lc, "http://"@, 0) {
                Some(k) => Some(utf8_len(lc.take(k)) as int),
                None => None,
            },
        },
    }
}

/// How a typed page input reads.
pub enum TitleReading {
    /// The page title.
    Title(Seq<char>),
    /// Nothing but whitespace was typed.
    Empty,
    /// A URL that is not a `liquipedia.net/starcraft` page URL.
    NotWikiUrl,
    /// The byte offset found in the lower-cased input does not fall on a
    /// character boundary of the input itself.
    Unsliceable,
}

/// How a typed page input reads: a wiki URL gives the title in its path;
/// other text is cut after `liquipedia.net/starcraft/` (or at `http(s)://`)
/// when it holds one, and has its underscores read as spaces.
pub open spec fn title_reading(input: Seq<char>) -> TitleReading {
    let t = trim(input);
    if t.len() == 0 {
        TitleReading::Empty
    } else {
        match url_path_segments(t) {
            Some(segs) => match title_of_segments(segs) {
                Some(x) => TitleReading::Title(x),
                None => TitleReading::NotWikiUrl,
            },
            None => match title_cut(t) {
                None => TitleReading::Title(replace_char(t, '_', seq![' '])),
                Some(b) => match char_index_of_byte(t, b, 0) {
                    Some(k) => TitleReading::Title(replace_char(t.skip(k), '_', seq![' '])),
                    None => TitleReading::Unsliceable,
                },
            },
        }
    }
}

fn find_exec(hay: &[char], needle: &[char]) -> (r: Option<usize>)
    ensures
        match r {
            Some(k) => find_from(hay@, needle@, 0) == Some(k as int) && k <= hay@.len(),
            None => find_from(hay@, needle@, 0) is None,
        },
{
    let n = hay.len();
    let mut i: usize = 0;
    while i <= n
        invariant
            n == hay@.len(),
            find_from(hay@, needle@, 0) == find_from(hay@, needle@, i as int),
        decreases n + 1 - i,
    {
        if occurs_at_exec(hay, needle, i) {
            return Some(i);
        }
        if i == n {
            assert(find_from(hay@, needle@, i + 1) is None);
            return None;
        }
        i = i + 1;
    }
    None
}

/// `utf8_len(v.take(k))`, which is at most `4 * k`.
fn utf8_len_of_prefix(v: &[char], k: usize) -> (r: u128)
    requires
        k <= v@.len(),
    ensures
        r == utf8_len(v@.take(k as int)),
        r <= 4 * k,
{
    let mut bytes: u128 = 0;
    let mut i: usize = 0;
    assert(v@.take(0) =~= Seq::<char>::empty());
    while i < k
        invariant
            i <= k <= v@.len(),
            bytes == utf8_len(v@.take(i as int)),
            bytes <= 4 * i,
        decreases k - i,
    {
        assert(v@.take(i + 1).drop_last() =~= v@.take(i as int));
        bytes = bytes + char_utf8_len_exec(v[i]) as u128;
        i = i + 1;
    }
    bytes
}

fn char_index_of_byte_exec(v: &[char], b: u128) -> (r: Option<usize>)
    ensures
        match r {
            Some(k) => char_index_of_byte(v@, b as int, 0) == Some(k as int) && k <= v@.len(),
            None => char_index_of_byte(v@, b as int, 0) is None,
        },
{
    let n = v.len();
    let mut k: usize = 0;
    let mut bytes: u128 = 0;
    assert(v@.take(0) =~= Seq::<char>::empty());
    while k <= n
        invariant
            n == v@.len(),
            k <= n,
            bytes == utf8_len(v@.take(k as int)),
            bytes <= 4 * k,
            char_index_of_byte(v@, b as int, 0) == char_index_of_byte(v@, b as int, k as int),
        decreases n + 1 - k,
    {
        if bytes == b {
            return Some(k);
        }
        if bytes > b {
            return None;
        }
        if k == n {
            assert(char_index_of_byte(v@, b as int, k + 1) is None);
            return None;
        }
        assert(v@.take(k + 1).drop_last() =~= v@.take(k as int));
        bytes = bytes + char_utf8_len_exec(v[k]) as u128;
        k = k + 1;
    }
    None
}

fn underscores_to_spaces(v: &[char]) -> (r: String)
    ensures
        r@ == replace_char(v@, '_', seq![' ']),
{
    let mut out: Vec<char> = Vec::new();
    let n = v.len();
    let mut i: usize = 0;
    while i < n
        invariant
            n == v@.len(),
            i <= n,
            out@ == replace_char(v@.take(i as int), '_', seq![' ']),
        decreases n - i,
    {
        assert(v@.take(i + 1).drop_last() =~= v@.take(i as int));
        if v[i] == '_' {
            out.push(' ');
        } else {
            out.push(v[i]);
        }
        i = i + 1;
        assert(out@ =~= replace_char(v@.take(i as int), '_', seq![' ']));
    }
    assert(v@.take(n as int) =~= v@);
    string_of(out.as_slice())
}

fn title_of_segments_exec(segs: Vec<String>) -> (r: Option<String>)
    ensures
        opt_string_view(r) == title_of_segments(strs_view(segs@)),
{
    let ghost sv = strs_view(segs@);
    let mut ne: Vec<Vec<char>> = Vec::new();
    let n = segs.len();
    let mut i: usize = 0;
    while i < n
        invariant
            n == segs@.len(),
            sv == strs_view(segs@),
            i <= n,
            ne@.len() == nonempty_strs(sv.take(i as int)).len(),
            forall|k: int| 0 <= k < ne@.len() ==> #[trigger] ne@[k]@ == nonempty_strs(sv.take(i as int))[k],
        decreases n - i,
    {
        assert(sv.take(i + 1).drop_last() =~= sv.take(i as int));
        assert(sv.take(i + 1).last() == segs@[i as int]@);
        let c = chars_of(segs[i].as_str());
        if c.len() > 0 {
            ne.push(c);
        }
        i = i + 1;
    }
    assert(sv.take(n as int) =~= sv);
    let ghost nev = nonempty_strs(sv);
    if ne.len() < 2 {
        return None;
    }
    let sc = chars_of("starcraft");
    if !eq_ignore_ascii_case_exec(ne[0].as_slice(), sc.as_slice()) {
        return None;
    }
    let ghost rest = nev.skip(1);
    let mut joined: Vec<char> = Vec::new();
    let m = ne.len();
    let mut k: usize = 1;
    while k < m
        invariant
            m == ne@.len() == nev.len(),
            m >= 2,
            rest == nev.skip(1),
            forall|j: int| 0 <= j < m ==> #[trigger] ne@[j]@ == nev[j],
            1 <= k <= m,
            joined@ == join_slash(rest.take(k - 1)),
        decreases m - k,
    {
        assert(rest.take(k as int).drop_last() =~= rest.take(k - 1));
        assert(rest.take(k as int).last() == ne@[k as int]@);
        let ghost before = joined@;
        if k > 1 {
            joined.push('/');
        }
        let mut j: usize = 0;
        let part = &ne[k];
        while j < part.len()
            invariant
                j <= part@.len(),
                joined@ == before + (if k > 1 { seq!['/'] } else { Seq::<char>::empty() }) + part@.take(j as int),
            decreases part@.len() - j,
        {
            joined.push(part[j]);
            j = j + 1;
            assert(joined@ =~= before + (if k > 1 { seq!['/'] } else { Seq::<char>::empty() }) + part@.take(j as int));
        }
        assert(part@.take(j as int) =~= part@);
        if k == 1 {
            assert(rest.take(1) =~= seq![part@]);
            assert(joined@ =~= part@);
        } else {
            assert(joined@ =~= join_slash(rest.take(k - 1)) + seq!['/'] + part@);
        }
        k = k + 1;
    }
    assert(rest.take(m - 1) =~= rest);
    let js = string_of(joined.as_slice());
    let decoded = match decode(js.as_str()) {
        Some(d) => chars_of(d.as_str()),
        None => joined,
    };
    Some(underscores_to_spaces(decoded.as_slice()))
}

/// How a typed page input reads, every case included.
fn read_title(input: &str) -> (r: (u8, String))
    ensures
        r.0 == 0 ==> title_reading(input@) == TitleReading::Title(r.1@),
        r.0 == 1 ==> title_reading(input@) == TitleReading::Empty,
        r.0 == 2 ==> title_reading(input@) == TitleReading::NotWikiUrl,
        r.0 == 3 ==> title_reading(input@) == TitleReading::Unsliceable,
        r.0 <= 3,
{
    let raw = chars_of(input);
    let tv = trim_chars(raw.as_slice());
    if tv.len() == 0 {
        return (1, String::new());
    }
    let trimmed = string_of(tv.as_slice());
    match url_segments(trimmed.as_str()) {
        Some(segs) => {
            return match title_of_segments_exec(segs) {
                Some(t) => (0, t),
                None => (2, String::new()),
            };
        },
        None => {},
    }
    let lc_s = to_lowercase(trimmed.as_str());
    let lc = chars_of(lc_s.as_str());
    let marker = chars_of(STARCRAFT_PATH_MARKER);
    let https = chars_of("https://");
    let http = chars_of("http://");
    let cut: Option<u128> = match find_exec(lc.as_slice(), marker.as_slice()) {
        Some(k) => Some(utf8_len_of_prefix(lc.as_slice(), k) + 25),
        None => match find_exec(lc.as_slice(), https.as_slice()) {
            Some(k) => Some(utf8_len_of_prefix(lc.as_slice(), k)),
            None => match find_exec(lc.as_slice(), http.as_slice()) {
                Some(k) => Some(utf8_len_of_prefix(lc.as_slice(), k)),
                None => None,
            },
        },
    };
    match cut {
        None => (0, underscores_to_spaces(tv.as_slice())),
        Some(b) => match char_index_of_byte_exec(tv.as_slice(), b) {
            Some(k) => {
                let tail = slice_chars(tv.as_slice(), k, tv.len());
                assert(tail@ =~= tv@.skip(k as int));
                (0, underscores_to_spaces(tail.as_slice()))
            },
            None => (3, String::new()),
        },
    }
}

/// The page title named by a Liquipedia URL or a typed title.
/// Inputs whose lower-cased form shifts the cut point off a character
/// boundary are excluded (see `read_page_title` for one that takes any
/// input).
pub fn parse_liquipedia_title(input: &str) -> (r: Result<String, ApiError>)
    requires
        !(title_reading(input@) is Unsliceable),
    ensures
        match r {
            Ok(t) => title_reading(input@) == TitleReading::Title(t@),
            Err(ApiError::EmptyInput) => title_reading(input@) == TitleReading::Empty,
            Err(ApiError::InvalidUrl(m)) => title_reading(input@) == TitleReading::NotWikiUrl
                && m@ == INVALID_URL_MESSAGE@,
            Err(_) => false,
        },
{
    let (kind, t) = read_title(input);
    if kind == 0 {
        Ok(t)
    } else if kind == 1 {
        Err(ApiError::EmptyInput)
    } else {
        Err(ApiError::InvalidUrl(string_from(INVALID_URL_MESSAGE)))
    }
}

/// `parse_liquipedia_title` for any input: `None` exactly for the inputs
/// it excludes.
pub fn read_page_title(input: &str) -> (r: Option<Result<String, ApiError>>)
    ensures
        match r {
            None => title_reading(input@) is Unsliceable,
            Some(Ok(t)) => title_reading(input@) == TitleReading::Title(t@),
            Some(Err(ApiError::EmptyInput)) => title_reading(input@) == TitleReading::Empty,
            Some(Err(ApiError::InvalidUrl(m))) => title_reading(input@) == TitleReading::NotWikiUrl
                && m@ == INVALID_URL_MESSAGE@,
            Some(Err(_)) => false,
        },
{
    let (kind, _) = read_title(input);
    if kind == 3 {
        None
    } else {
        Some(parse_liquipedia_title(input))
    }
}

} // verus!
