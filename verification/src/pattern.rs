//! Substring search with the storage engine's text-pattern semantics.
//!
//! A search query is wrapped in `%` wildcards and matched against memo
//! contents the way the relational store's `LIKE` operator matches: `%`
//! matches any run of characters, `_` matches exactly one character, and
//! letters in the ASCII range compare case-insensitively.  The query itself
//! is interpolated unescaped, so wildcards inside it keep their meaning.

use vstd::prelude::*;
use vstd::string::StrSliceExecFns;

verus! {

/// The code point used for comparisons: ASCII upper-case letters are folded
/// to their lower-case counterparts, every other character stands for itself.
pub open spec fn lower_code(c: char) -> int {
    if 'A' <= c && c <= 'Z' {
        c as int + 32
    } else {
        c as int
    }
}

/// Pattern character `p` accepts text character `t`.
pub open spec fn char_matches(p: char, t: char) -> bool {
    lower_code(p) == lower_code(t)
}

/// Pattern `p` matches the whole of text `t`: `%` matches any run of
/// characters, `_` matches exactly one, anything else matches itself up to
/// ASCII case.
pub open spec fn like_match(p: Seq<char>, t: Seq<char>) -> bool
    decreases p.len() + t.len(),
{
    if p.len() == 0 {
        t.len() == 0
    } else if p.first() == '%' {
        like_match(p.drop_first(), t) || (t.len() > 0 && like_match(p, t.drop_first()))
    } else if p.first() == '_' {
        t.len() > 0 && like_match(p.drop_first(), t.drop_first())
    } else {
        t.len() > 0 && char_matches(p.first(), t.first()) && like_match(
            p.drop_first(),
            t.drop_first(),
        )
    }
}

/// A query wrapped in `%` wildcards, as the search operation submits it.
pub open spec fn wrapped(q: Seq<char>) -> Seq<char> {
    seq!['%'] + q + seq!['%']
}

/// A query wrapped in wildcards matches every text when the query is empty.
pub proof fn lemma_empty_query_matches_all(t: Seq<char>)
    ensures
        like_match(wrapped(Seq::<char>::empty()), t),
    decreases t.len(),
{
    let p = wrapped(Seq::<char>::empty());
    assert(p =~= seq!['%', '%']);
    assert(p.drop_first() =~= seq!['%']);
    assert(p.drop_first().drop_first() =~= Seq::<char>::empty());
    if t.len() == 0 {
        assert(like_match(p.drop_first().drop_first(), t));
        assert(like_match(p.drop_first(), t));
    } else {
        lemma_empty_query_matches_all(t.drop_first());
    }
}

fn char_eq_fold(a: char, b: char) -> (r: bool)
    ensures
        r == char_matches(a, b),
{
    let ac: u32 = if 'A' <= a && a <= 'Z' {
        a as u32 + 32
    } else {
        a as u32
    };
    let bc: u32 = if 'A' <= b && b <= 'Z' {
        b as u32 + 32
    } else {
        b as u32
    };
    ac == bc
}

/// Whether the pattern from position `pi` on matches the text from position
/// `ti` on.
fn like_match_from(p: &Vec<char>, t: &Vec<char>, pi: usize, ti: usize) -> (r: bool)
    requires
        pi <= p@.len(),
        ti <= t@.len(),
    ensures
        r == like_match(p@.skip(pi as int), t@.skip(ti as int)),
    decreases p@.len() - pi + t@.len() - ti,
{
    let ghost ps = p@.skip(pi as int);
    let ghost ts = t@.skip(ti as int);
    if pi == p.len() {
        proof {
            if ti < t@.len() {
                assert(ts.len() > 0);
            }
        }
        ti == t.len()
    } else {
        proof {
            assert(ps.first() == p@[pi as int]);
            assert(ps.drop_first() =~= p@.skip(pi as int + 1));
            if ti < t@.len() {
                assert(ts.first() == t@[ti as int]);
                assert(ts.drop_first() =~= t@.skip(ti as int + 1));
            }
        }
        let c = p[pi];
        if c == '%' {
            if like_match_from(p, t, pi + 1, ti) {
                true
            } else if ti < t.len() {
                like_match_from(p, t, pi, ti + 1)
            } else {
                false
            }
        } else if c == '_' {
            if ti < t.len() {
                like_match_from(p, t, pi + 1, ti + 1)
            } else {
                false
            }
        } else {
            if ti < t.len() && char_eq_fold(c, t[ti]) {
                like_match_from(p, t, pi + 1, ti + 1)
            } else {
                false
            }
        }
    }
}

/// The characters of `s`, in order.
pub fn chars_vec(s: &str) -> (r: Vec<char>)
    ensures
        r@ == s@,
{
    let n = s.unicode_len();
    let mut r: Vec<char> = Vec::new();
    let mut i: usize = 0;
    while i < n
        invariant
            i <= n,
            n == s@.len(),
            r@ =~= s@.take(i as int),
        decreases n - i,
    {
        r.push(s.get_char(i));
        i += 1;
    }
    proof {
        assert(s@.take(n as int) =~= s@);
    }
    r
}

/// The query wrapped in `%` wildcards.
pub fn build_wrapped(q: &str) -> (r: Vec<char>)
    ensures
        r@ == wrapped(q@),
{
    let mut r: Vec<char> = Vec::new();
    r.push('%');
    let n = q.unicode_len();
    let mut i: usize = 0;
    while i < n
        invariant
            i <= n,
            n == q@.len(),
            r@ =~= seq!['%'] + q@.take(i as int),
        decreases n - i,
    {
        r.push(q.get_char(i));
        i += 1;
    }
    r.push('%');
    proof {
        assert(r@ =~= wrapped(q@));
    }
    r
}

/// Whether pattern `p` matches the whole of text `t`.
pub fn like_matches(p: &Vec<char>, t: &Vec<char>) -> (r: bool)
    ensures
        r == like_match(p@, t@),
{
    proof {
        assert(p@.skip(0) =~= p@);
        assert(t@.skip(0) =~= t@);
    }
    like_match_from(p, t, 0, 0)
}

} // verus!
