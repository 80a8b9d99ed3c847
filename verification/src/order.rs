//! The order in which `String`s compare (byte-wise on UTF-8, which is the
//! code-point order of their characters) and a sorted, duplicate-free list
//! of titles built on it.

use vstd::prelude::*;
use crate::text::{chars_of, str_eq};
use crate::types::{copy_string, strs_view};

verus! {

/// `a` comes strictly before `b`: lexicographic by code point, a proper
/// prefix first.
pub open spec fn str_lt(a: Seq<char>, b: Seq<char>) -> bool
    decreases a.len(),
{
    if a.len() == 0 {
        b.len() > 0
    } else if b.len() == 0 {
        false
    } else if a[0] != b[0] {
        (a[0] as u32) < (b[0] as u32)
    } else {
        str_lt(a.drop_first(), b.drop_first())
    }
}

/// Every element comes strictly before every later one.
pub open spec fn strictly_sorted(s: Seq<Seq<char>>) -> bool {
    forall|i: int, j: int| 0 <= i < j < s.len() ==> str_lt(#[trigger] s[i], #[trigger] s[j])
}

pub proof fn lemma_str_lt_transitive(a: Seq<char>, b: Seq<char>, c: Seq<char>)
    requires
        str_lt(a, b),
        str_lt(b, c),
    ensures
        str_lt(a, c),
    decreases a.len(),
{
    if a.len() > 0 && b.len() > 0 && c.len() > 0 && a[0] == b[0] && b[0] == c[0] {
        lemma_str_lt_transitive(a.drop_first(), b.drop_first(), c.drop_first());
    }
}

pub proof fn lemma_str_lt_total(a: Seq<char>, b: Seq<char>)
    ensures
        a == b || str_lt(a, b) || str_lt(b, a),
    decreases a.len(),
{
    if a.len() == 0 {
        if b.len() == 0 {
            assert(a =~= b);
        }
    } else if b.len() > 0 && a[0] == b[0] {
        let a1 = a.drop_first();
        let b1 = b.drop_first();
        lemma_str_lt_total(a1, b1);
        if a1 == b1 {
            assert(a.len() == b.len());
            assert forall|i: int| 0 <= i < a.len() implies a[i] == b[i] by {
                if i > 0 {
                    assert(a[i] == a1[i - 1]);
                    assert(b[i] == b1[i - 1]);
                }
            }
            assert(a =~= b);
        }
    } else if b.len() > 0 {
        vstd::utf8::char_u32_cast(a[0], a[0] as u32);
        vstd::utf8::char_u32_cast(b[0], b[0] as u32);
    }
}

/// Compares two strings given by their characters.
pub fn str_lt_exec(a: &[char], b: &[char]) -> (r: bool)
    ensures
        r == str_lt(a@, b@),
{
    let mut i: usize = 0;
    assert(a@.skip(0) =~= a@);
    assert(b@.skip(0) =~= b@);
    loop
        invariant
            i <= a.len(),
            i <= b.len(),
            str_lt(a@, b@) == str_lt(a@.skip(i as int), b@.skip(i as int)),
        decreases a.len() - i,
    {
        if i == a.len() {
            return i < b.len();
        }
        if i == b.len() {
            return false;
        }
        assert(a@.skip(i as int)[0] == a@[i as int]);
        assert(b@.skip(i as int)[0] == b@[i as int]);
        if a[i] != b[i] {
            return (a[i] as u32) < (b[i] as u32);
        }
        assert(a@.skip(i as int).drop_first() =~= a@.skip(i + 1));
        assert(b@.skip(i as int).drop_first() =~= b@.skip(i + 1));
        i = i + 1;
    }
}

/// Puts `x` into a strictly sorted list, unless it is there already.
fn insert_sorted(v: &mut Vec<String>, x: String)
    requires
        strictly_sorted(strs_view(old(v)@)),
    ensures
        strictly_sorted(strs_view(final(v)@)),
        forall|t: Seq<char>|
            #![trigger strs_view(final(v)@).contains(t)]
            strs_view(final(v)@).contains(t) <==> (strs_view(old(v)@).contains(t) || t == x@),
{
    let ghost s = strs_view(v@);
    let xc = chars_of(x.as_str());
    let n = v.len();
    let mut p: usize = 0;
    while p < n
        invariant
            n == v@.len(),
            s == strs_view(v@),
            xc@ == x@,
            p <= n,
            forall|k: int| 0 <= k < p ==> str_lt(#[trigger] s[k], x@),
        ensures
            p <= n,
            forall|k: int| 0 <= k < p ==> str_lt(#[trigger] s[k], x@),
            p < n ==> !str_lt(s[p as int], x@),
        decreases n - p,
    {
        let vc = chars_of(v[p].as_str());
        if !str_lt_exec(&vc, &xc) {
            break;
        }
        p = p + 1;
    }
    if p < n && str_eq(v[p].as_str(), x.as_str()) {
        assert(s.contains(x@)) by {
            assert(s[p as int] == x@);
        }
        return;
    }
    proof {
        if p < n {
            lemma_str_lt_total(s[p as int], x@);
            assert(str_lt(x@, s[p as int]));
        }
    }
    v.insert(p, x);
    let ghost t = strs_view(v@);
    assert(t =~= s.insert(p as int, x@));
    proof {
        s.insert_ensures(p as int, x@);
    }
    assert forall|i: int, j: int| 0 <= i < j < t.len() implies str_lt(#[trigger] t[i], #[trigger] t[j]) by {
        if j < p {
        } else if j == p {
        } else if i < p {
            assert(t[j] == s[j - 1]);
        } else if i == p {
            assert(t[j] == s[j - 1]);
            if j - 1 > p {
                lemma_str_lt_transitive(x@, s[p as int], s[j - 1]);
            }
        } else {
            assert(t[i] == s[i - 1]);
            assert(t[j] == s[j - 1]);
        }
    }
    assert forall|e: Seq<char>| t.contains(e) <==> (s.contains(e) || e == x@) by {
        if t.contains(e) {
            let k = choose|k: int| 0 <= k < t.len() && t[k] == e;
            if k < p {
                assert(s[k] == e);
            } else if k > p {
                assert(s[k - 1] == e);
            }
        }
        if s.contains(e) {
            let k = choose|k: int| 0 <= k < s.len() && s[k] == e;
            if k < p {
                assert(t[k] == e);
            } else {
                assert(t[k + 1] == e);
            }
        }
        if e == x@ {
            assert(t[p as int] == e);
        }
    }
}

/// The titles in ascending order, each once.
pub fn sorted_unique(titles: &Vec<String>) -> (r: Vec<String>)
    ensures
        strictly_sorted(strs_view(r@)),
        forall|t: Seq<char>|
            #![trigger strs_view(r@).contains(t)]
            strs_view(r@).contains(t) <==> strs_view(titles@).contains(t),
{
    let mut out: Vec<String> = Vec::new();
    let n = titles.len();
    let mut i: usize = 0;
    while i < n
        invariant
            n == titles@.len(),
            i <= n,
            strictly_sorted(strs_view(out@)),
            forall|t: Seq<char>|
                #![trigger strs_view(out@).contains(t)]
                strs_view(out@).contains(t) <==> strs_view(titles@).take(i as int).contains(t),
        decreases n - i,
    {
        let ghost before = strs_view(out@);
        let ghost pre = strs_view(titles@).take(i as int);
        let ghost next = strs_view(titles@).take(i + 1);
        assert(next =~= pre.push(titles@[i as int]@));
        insert_sorted(&mut out, copy_string(&titles[i]));
        assert forall|t: Seq<char>| #![trigger strs_view(out@).contains(t)]
            strs_view(out@).contains(t) <==> next.contains(t) by {
            if pre.contains(t) {
                let k = choose|k: int| 0 <= k < pre.len() && pre[k] == t;
                assert(next[k] == t);
            }
            if next.contains(t) {
                let k = choose|k: int| 0 <= k < next.len() && next[k] == t;
                if k < i {
                    assert(pre[k] == t);
                }
            }
            if t == titles@[i as int]@ {
                assert(next[i as int] == t);
            }
        }
        i = i + 1;
    }
    assert(strs_view(titles@).take(n as int) =~= strs_view(titles@));
    out
}

} // verus!
