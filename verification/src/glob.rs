//! Glob patterns for log filters and topic subscriptions.
//!
//! `*` matches any run of characters (also none), `?` matches exactly one
//! character, and every other character matches itself.
use vstd::prelude::*;
use crate::text::{chars_of, str_eq};

verus! {

/// Whether `pattern` matches the whole of `text`.
pub open spec fn glob(p: Seq<char>, t: Seq<char>) -> bool
    decreases p.len(), t.len(),
{
    if p.len() == 0 {
        t.len() == 0
    } else if p[0] == '*' {
        glob(p.drop_first(), t) || (t.len() > 0 && glob(p, t.drop_first()))
    } else if t.len() == 0 {
        false
    } else if p[0] == '?' {
        glob(p.drop_first(), t.drop_first())
    } else {
        p[0] == t[0] && glob(p.drop_first(), t.drop_first())
    }
}

/// Whether `p` holds a wildcard.
pub open spec fn has_wildcard(p: Seq<char>) -> bool {
    exists|i: int| 0 <= i < p.len() && (p[i] == '*' || p[i] == '?')
}

/// A leading star matches when the rest matches some suffix of the text.
pub proof fn lemma_star(p: Seq<char>, t: Seq<char>)
    requires
        p.len() > 0,
        p[0] == '*',
    ensures
        glob(p, t) == (exists|k: int| 0 <= k <= t.len() && glob(p.drop_first(), #[trigger] t.skip(k))),
    decreases t.len(),
{
    if t.len() == 0 {
        assert(t.skip(0) =~= t);
        if glob(p, t) {
            assert(glob(p.drop_first(), t.skip(0)));
        }
    } else {
        lemma_star(p, t.drop_first());
        if glob(p, t) {
            if glob(p.drop_first(), t) {
                assert(t.skip(0) =~= t);
                assert(glob(p.drop_first(), t.skip(0)));
            } else {
                let k = choose|k: int|
                    0 <= k <= t.drop_first().len() && glob(
                        p.drop_first(),
                        #[trigger] t.drop_first().skip(k),
                    );
                assert(t.drop_first().skip(k) =~= t.skip(k + 1));
            }
        }
        if exists|k: int| 0 <= k <= t.len() && glob(p.drop_first(), #[trigger] t.skip(k)) {
            let k = choose|k: int| 0 <= k <= t.len() && glob(p.drop_first(), #[trigger] t.skip(k));
            if k == 0 {
                assert(t.skip(0) =~= t);
            } else {
                assert(t.drop_first().skip(k - 1) =~= t.skip(k));
                assert(glob(p, t.drop_first()));
            }
        }
    }
}

/// A star followed by another star matches like the single star.
pub proof fn lemma_double_star(p: Seq<char>, t: Seq<char>)
    requires
        p.len() > 1,
        p[0] == '*',
        p[1] == '*',
    ensures
        glob(p, t) == glob(p.drop_first(), t),
    decreases t.len(),
{
    if t.len() > 0 {
        lemma_double_star(p, t.drop_first());
    }
}

/// A lone star matches everything.
pub proof fn lemma_lone_star(p: Seq<char>, t: Seq<char>)
    requires
        p.len() == 1,
        p[0] == '*',
    ensures
        glob(p, t),
    decreases t.len(),
{
    assert(p.drop_first().len() == 0);
    if t.len() > 0 {
        lemma_lone_star(p, t.drop_first());
    } else {
        assert(glob(p.drop_first(), t));
    }
}

/// Without wildcards a pattern matches exactly itself.
pub proof fn lemma_literal(p: Seq<char>, t: Seq<char>)
    requires
        !has_wildcard(p),
    ensures
        glob(p, t) == (p == t),
    decreases p.len(),
{
    if p.len() == 0 {
        if t.len() == 0 {
            assert(p =~= t);
        }
    } else {
        assert(p[0] != '*' && p[0] != '?');
        assert(!has_wildcard(p.drop_first())) by {
            if has_wildcard(p.drop_first()) {
                let i = choose|i: int|
                    0 <= i < p.drop_first().len() && (p.drop_first()[i] == '*'
                        || p.drop_first()[i] == '?');
                assert(p[i + 1] == p.drop_first()[i]);
            }
        }
        if t.len() > 0 {
            lemma_literal(p.drop_first(), t.drop_first());
            if p[0] == t[0] && p.drop_first() == t.drop_first() {
                assert forall|i: int| 0 <= i < p.len() implies p[i] == t[i] by {
                    if i > 0 {
                        assert(p[i] == p.drop_first()[i - 1]);
                        assert(t[i] == t.drop_first()[i - 1]);
                    }
                }
                assert(p =~= t);
            }
            if p == t {
                assert(p.drop_first() =~= t.drop_first());
            }
        }
    }
}

proof fn lemma_skip_step<T>(s: Seq<T>, i: int)
    requires
        0 <= i < s.len(),
    ensures
        s.skip(i).drop_first() =~= s.skip(i + 1),
        s.skip(i)[0] == s[i],
{
}

/// The log filter's matcher: walks the pattern, and at a star tries the rest
/// of the pattern against every suffix of the rest of the text.
pub fn glob_match_chars(pattern: &[char], text: &[char]) -> (r: bool)
    ensures
        r == glob(pattern@, text@),
    decreases pattern@.len(),
{
    let mut pi: usize = 0;
    let mut ti: usize = 0;
    assert(pattern@.skip(0) =~= pattern@);
    assert(text@.skip(0) =~= text@);
    while pi < pattern.len()
        invariant
            pi <= pattern@.len(),
            ti <= text@.len(),
            glob(pattern@, text@) == glob(pattern@.skip(pi as int), text@.skip(ti as int)),
        decreases pattern@.len() - pi,
    {
        let c = pattern[pi];
        proof {
            lemma_skip_step(pattern@, pi as int);
        }
        pi = pi + 1;
        if c == '*' {
            let start = pi - 1;
            while pi < pattern.len() && pattern[pi] == '*'
                invariant
                    start < pi <= pattern@.len(),
                    pattern@[start as int] == '*',
                    pattern@.skip(pi - 1)[0] == '*',
                    glob(pattern@, text@) == glob(pattern@.skip(pi - 1), text@.skip(ti as int)),
                decreases pattern@.len() - pi,
            {
                proof {
                    lemma_skip_step(pattern@, pi as int);
                    lemma_skip_step(pattern@, pi - 1);
                    lemma_double_star(pattern@.skip(pi - 1), text@.skip(ti as int));
                }
                pi = pi + 1;
            }
            let ghost q = pattern@.skip(pi - 1);
            proof {
                lemma_skip_step(pattern@, pi - 1);
            }
            if pi == pattern.len() {
                proof {
                    lemma_lone_star(q, text@.skip(ti as int));
                }
                return true;
            }
            let rest = &pattern[pi..pattern.len()];
            assert(rest@ =~= q.drop_first());
            proof {
                lemma_star(q, text@.skip(ti as int));
            }
            let ghost t0 = ti;
            while ti < text.len()
                invariant
                    t0 <= ti <= text@.len(),
                    q.len() > 0,
                    q[0] == '*',
                    glob(pattern@, text@) == glob(q, text@.skip(t0 as int)),
                    rest@ == q.drop_first(),
                    rest@.len() < pattern@.len(),
                    forall|k: int| t0 <= k < ti ==> !glob(rest@, #[trigger] text@.skip(k)),
                decreases text@.len() - ti,
            {
                let tail = &text[ti..text.len()];
                assert(tail@ =~= text@.skip(ti as int));
                if glob_match_chars(rest, tail) {
                    proof {
                        lemma_star(q, text@.skip(t0 as int));
                        assert(text@.skip(t0 as int).skip(ti - t0) =~= text@.skip(ti as int));
                    }
                    return true;
                }
                ti = ti + 1;
            }
            let empty: Vec<char> = Vec::new();
            let r = glob_match_chars(rest, empty.as_slice());
            proof {
                lemma_star(q, text@.skip(t0 as int));
                assert(text@.skip(text@.len() as int) =~= empty@);
                assert forall|k: int| 0 <= k <= text@.skip(t0 as int).len() implies #[trigger] text@.skip(
                    t0 as int,
                ).skip(k) =~= text@.skip(t0 + k) by {}
                if r {
                    assert(text@.skip(t0 as int).skip(text@.len() - t0) =~= empty@);
                }
                if glob(q, text@.skip(t0 as int)) {
                    let k = choose|k: int|
                        0 <= k <= text@.skip(t0 as int).len() && glob(
                            q.drop_first(),
                            #[trigger] text@.skip(t0 as int).skip(k),
                        );
                    assert(text@.skip(t0 as int).skip(k) =~= text@.skip(t0 + k));
                }
            }
            return r;
        } else if c == '?' {
            if ti >= text.len() {
                return false;
            }
            proof {
                lemma_skip_step(text@, ti as int);
            }
            ti = ti + 1;
        } else {
            if ti >= text.len() || text[ti] != c {
                return false;
            }
            proof {
                lemma_skip_step(text@, ti as int);
            }
            ti = ti + 1;
        }
    }
    assert(pattern@.skip(pi as int).len() == 0);
    ti == text.len()
}

/// Glob matching of the log filter (`*` any run, `?` one character).
pub fn glob_match(pattern: &str, text: &str) -> (r: bool)
    ensures
        r == glob(pattern@, text@),
{
    let p = chars_of(pattern);
    let t = chars_of(text);
    glob_match_chars(p.as_slice(), t.as_slice())
}

/// The topic matcher's form: pattern and text positions into whole slices.
pub fn glob_match_recursive(pattern: &[char], text: &[char], pi: usize, ti: usize) -> (r: bool)
    requires
        pi <= pattern@.len(),
        ti <= text@.len(),
    ensures
        r == glob(pattern@.skip(pi as int), text@.skip(ti as int)),
    decreases pattern@.len() - pi,
{
    if pi == pattern.len() {
        return ti == text.len();
    }
    proof {
        lemma_skip_step(pattern@, pi as int);
    }
    let c = pattern[pi];
    if c == '*' {
        let ghost q = pattern@.skip(pi as int);
        proof {
            lemma_star(q, text@.skip(ti as int));
        }
        let plen = pattern.len();
        let mut i = ti;
        loop
            invariant
                ti <= i <= text@.len(),
                plen == pattern@.len(),
                pi < pattern@.len(),
                q.len() > 0,
                q[0] == '*',
                q == pattern@.skip(pi as int),
                q.drop_first() =~= pattern@.skip(pi + 1),
                forall|k: int| ti <= k < i ==> !glob(q.drop_first(), #[trigger] text@.skip(k)),
            ensures
                forall|k: int|
                    ti <= k <= text@.len() ==> !glob(q.drop_first(), #[trigger] text@.skip(k)),
            decreases text@.len() - i,
        {
            if glob_match_recursive(pattern, text, pi + 1, i) {
                proof {
                    lemma_star(q, text@.skip(ti as int));
                    assert(text@.skip(ti as int).skip(i - ti) =~= text@.skip(i as int));
                }
                return true;
            }
            if i == text.len() {
                break;
            }
            i = i + 1;
        }
        proof {
            lemma_star(q, text@.skip(ti as int));
            if glob(q, text@.skip(ti as int)) {
                let k = choose|k: int|
                    0 <= k <= text@.skip(ti as int).len() && glob(
                        q.drop_first(),
                        #[trigger] text@.skip(ti as int).skip(k),
                    );
                assert(text@.skip(ti as int).skip(k) =~= text@.skip(ti + k));
            }
        }
        false
    } else if c == '?' {
        if ti < text.len() {
            proof {
                lemma_skip_step(text@, ti as int);
            }
            glob_match_recursive(pattern, text, pi + 1, ti + 1)
        } else {
            false
        }
    } else {
        if ti < text.len() && text[ti] == c {
            proof {
                lemma_skip_step(text@, ti as int);
            }
            glob_match_recursive(pattern, text, pi + 1, ti + 1)
        } else {
            false
        }
    }
}

/// Glob matching of the topic subscriber (recursive over positions).
pub fn glob_match_topic(pattern: &str, text: &str) -> (r: bool)
    ensures
        r == glob(pattern@, text@),
{
    let p = chars_of(pattern);
    let t = chars_of(text);
    assert(p@.skip(0) =~= p@);
    assert(t@.skip(0) =~= t@);
    glob_match_recursive(p.as_slice(), t.as_slice(), 0, 0)
}

fn has_wildcard_chars(p: &[char]) -> (r: bool)
    ensures
        r == has_wildcard(p@),
{
    let mut i: usize = 0;
    while i < p.len()
        invariant
            i <= p@.len(),
            forall|j: int| 0 <= j < i ==> p@[j] != '*' && p@[j] != '?',
        decreases p@.len() - i,
    {
        if p[i] == '*' || p[i] == '?' {
            return true;
        }
        i = i + 1;
    }
    false
}

/// Whether a discovered topic name matches a subscription pattern: equal
/// names match, a pattern without wildcards matches only itself, and a
/// pattern with wildcards matches by glob.
pub open spec fn spec_topic_matches(pattern: Seq<char>, text: Seq<char>) -> bool {
    if pattern == text {
        true
    } else if !has_wildcard(pattern) {
        false
    } else {
        glob(pattern, text)
    }
}

pub fn topic_matches(pattern: &str, text: &str) -> (r: bool)
    ensures
        r == spec_topic_matches(pattern@, text@),
{
    if str_eq(pattern, text) {
        return true;
    }
    let p = chars_of(pattern);
    if !has_wildcard_chars(p.as_slice()) {
        return false;
    }
    glob_match_topic(pattern, text)
}

/// Topic matching is glob matching: the shortcuts for equal names and for
/// patterns without wildcards never change the answer.
pub proof fn law_topic_matches_is_glob(pattern: Seq<char>, text: Seq<char>)
    ensures
        spec_topic_matches(pattern, text) == glob(pattern, text),
{
    if !has_wildcard(pattern) || pattern == text {
        if !has_wildcard(pattern) {
            lemma_literal(pattern, text);
        } else {
            lemma_glob_refl(pattern);
        }
    }
}

/// Every pattern matches its own text.
pub proof fn lemma_glob_refl(p: Seq<char>)
    ensures
        glob(p, p),
    decreases p.len(),
{
    if p.len() > 0 {
        lemma_glob_refl(p.drop_first());
        if p[0] == '*' {
            assert(glob(p, p.drop_first()));
        }
    }
}

} // verus!
