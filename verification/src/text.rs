//! Character sequences: conversion to and from `String`, trimming, literal
//! replacement, line splitting and joining.

use vstd::prelude::*;

verus! {

/// The Unicode `White_Space` property, which `str::trim` and the `\s` class of
/// the `regex` crate both use.
pub open spec fn is_white_space(c: char) -> bool {
    let u = c as u32;
    ||| (9 <= u && u <= 13)
    ||| u == 32
    ||| u == 0x85
    ||| u == 0xa0
    ||| u == 0x1680
    ||| (0x2000 <= u && u <= 0x200a)
    ||| u == 0x2028
    ||| u == 0x2029
    ||| u == 0x202f
    ||| u == 0x205f
    ||| u == 0x3000
}

pub fn white_space(c: char) -> (b: bool)
    ensures
        b == is_white_space(c),
{
    let u = c as u32;
    (9 <= u && u <= 13) || u == 32 || u == 0x85 || u == 0xa0 || u == 0x1680 || (0x2000 <= u
        && u <= 0x200a) || u == 0x2028 || u == 0x2029 || u == 0x202f || u == 0x205f || u == 0x3000
}

/// The characters of `s`, in order.
pub fn chars_of(s: &str) -> (v: Vec<char>)
    ensures
        v@ == s@,
{
    let mut v: Vec<char> = Vec::new();
    for c in it: s.chars()
        invariant
            v@ == it.seq().take(it.index() as int),
    {
        v.push(c);
    }
    proof {
        broadcast use vstd::string::group_string_axioms;
    }
    assert(v@ =~= s@);
    v
}


/// Calls `String::from_iter` on the characters of `v`, which collects them,
/// in order, into a `String`; the result is taken to hold exactly them.
#[verifier::external_body]
pub(crate) fn string_of(v: &Vec<char>) -> (s: String)
    ensures
        s@ == v@,
{
    String::from_iter(v.iter())
}

/// The characters of `s` from `a` up to (not including) `b`.
pub fn copy_range(s: &Vec<char>, a: usize, b: usize) -> (out: Vec<char>)
    requires
        a <= b <= s.len(),
    ensures
        out@ == s@.subrange(a as int, b as int),
{
    let mut out: Vec<char> = Vec::new();
    let mut i = a;
    while i < b
        invariant
            a <= i <= b <= s.len(),
            out@ == s@.subrange(a as int, i as int),
        decreases b - i,
    {
        out.push(s[i]);
        i = i + 1;
    }
    out
}

/// Appends the characters of `r` to `out`.
pub fn push_all(out: &mut Vec<char>, r: &Vec<char>)
    ensures
        final(out)@ == old(out)@ + r@,
{
    let mut i: usize = 0;
    while i < r.len()
        invariant
            i <= r.len(),
            out@ == old(out)@ + r@.subrange(0, i as int),
        decreases r.len() - i,
    {
        out.push(r[i]);
        i = i + 1;
        assert(r@.subrange(0, i as int) =~= r@.subrange(0, i - 1).push(r@[i - 1]));
    }
    assert(r@.subrange(0, r.len() as int) =~= r@);
}

/// `p` occurs in `s` starting at index `i`.
pub open spec fn occurs_at(s: Seq<char>, i: int, p: Seq<char>) -> bool {
    0 <= i && i + p.len() <= s.len() && s.subrange(i, i + p.len()) =~= p
}

pub fn starts_at(s: &Vec<char>, i: usize, p: &Vec<char>) -> (b: bool)
    ensures
        b == occurs_at(s@, i as int, p@),
{
    if i > s.len() || p.len() > s.len() - i {
        return false;
    }
    let mut k: usize = 0;
    while k < p.len()
        invariant
            k <= p.len(),
            i + p.len() <= s.len(),
            forall|t: int| 0 <= t < k ==> s@[i + t] == p@[t],
        decreases p.len() - k,
    {
        if s[i + k] != p[k] {
            assert(s@.subrange(i as int, i + p.len())[k as int] != p@[k as int]);
            return false;
        }
        k = k + 1;
    }
    true
}

/// `p` occurs somewhere in `s` (`str::contains` with a string pattern; the
/// empty pattern occurs in every string).
pub open spec fn contains_seq(s: Seq<char>, p: Seq<char>) -> bool {
    exists|i: int| occurs_at(s, i, p)
}

pub fn contains(s: &Vec<char>, p: &Vec<char>) -> (b: bool)
    ensures
        b == contains_seq(s@, p@),
{
    if p.len() > s.len() {
        return false;
    }
    let mut i: usize = 0;
    while i <= s.len() - p.len()
        invariant
            p.len() <= s.len(),
            forall|t: int| 0 <= t < i ==> !occurs_at(s@, t, p@),
        decreases s.len() - p.len() + 1 - i,
    {
        if starts_at(s, i, p) {
            return true;
        }
        i = i + 1;
    }
    false
}


/// `s` without its leading white space.
pub open spec fn trim_start_seq(s: Seq<char>) -> Seq<char>
    decreases s.len(),
{
    if s.len() > 0 && is_white_space(s[0]) {
        trim_start_seq(s.drop_first())
    } else {
        s
    }
}

/// `s` without its trailing white space.
pub open spec fn trim_end_seq(s: Seq<char>) -> Seq<char>
    decreases s.len(),
{
    if s.len() > 0 && is_white_space(s.last()) {
        trim_end_seq(s.drop_last())
    } else {
        s
    }
}

/// `s` without leading and trailing white space (`str::trim`).
pub open spec fn trim_seq(s: Seq<char>) -> Seq<char> {
    trim_end_seq(trim_start_seq(s))
}

/// Every character of `s` is white space.
pub open spec fn all_white_space(s: Seq<char>) -> bool {
    forall|i: int| 0 <= i < s.len() ==> is_white_space(#[trigger] s[i])
}

/// White space in front of `y` is all that `trim_start_seq` takes away.
pub proof fn lemma_trim_start_after_space(p: Seq<char>, y: Seq<char>)
    requires
        all_white_space(p),
    ensures
        trim_start_seq(p + y) == trim_start_seq(y),
    decreases p.len(),
{
    if p.len() == 0 {
        assert(p + y =~= y);
    } else {
        assert((p + y)[0] == p[0]);
        assert((p + y).drop_first() =~= p.drop_first() + y);
        assert(all_white_space(p.drop_first())) by {
            assert forall|i: int| 0 <= i < p.drop_first().len() implies is_white_space(
                #[trigger] p.drop_first()[i],
            ) by {
                assert(p.drop_first()[i] == p[i + 1]);
            }
        }
        lemma_trim_start_after_space(p.drop_first(), y);
    }
}

/// White space after `y` is all that `trim_end_seq` takes away.
pub proof fn lemma_trim_end_before_space(y: Seq<char>, q: Seq<char>)
    requires
        all_white_space(q),
    ensures
        trim_end_seq(y + q) == trim_end_seq(y),
    decreases q.len(),
{
    if q.len() == 0 {
        assert(y + q =~= y);
    } else {
        assert((y + q).last() == q.last());
        assert((y + q).drop_last() =~= y + q.drop_last());
        assert(all_white_space(q.drop_last())) by {
            assert forall|i: int| 0 <= i < q.drop_last().len() implies is_white_space(
                #[trigger] q.drop_last()[i],
            ) by {
                assert(q.drop_last()[i] == q[i]);
            }
        }
        lemma_trim_end_before_space(y, q.drop_last());
    }
}

/// When `k` holds a character that is not white space, trimming the start of
/// `k + q` leaves `q` whole.
pub proof fn lemma_trim_start_keeps_tail(k: Seq<char>, q: Seq<char>)
    requires
        !all_white_space(k),
    ensures
        trim_start_seq(k + q) == trim_start_seq(k) + q,
    decreases k.len(),
{
    let j = choose|j: int| 0 <= j < k.len() && !is_white_space(#[trigger] k[j]);
    assert((k + q)[0] == k[0]);
    if is_white_space(k[0]) {
        assert(j > 0);
        assert(k.drop_first()[j - 1] == k[j]);
        assert((k + q).drop_first() =~= k.drop_first() + q);
        lemma_trim_start_keeps_tail(k.drop_first(), q);
    }
}

/// What `trim_start_seq` leaves is empty or starts with a character that is
/// not white space.
pub proof fn lemma_trim_start_first(s: Seq<char>)
    ensures
        trim_start_seq(s).len() > 0 ==> !is_white_space(trim_start_seq(s)[0]),
    decreases s.len(),
{
    if s.len() > 0 && is_white_space(s[0]) {
        lemma_trim_start_first(s.drop_first());
    }
}

/// What `trim_end_seq` leaves is a prefix of `s`, empty or ending with a
/// character that is not white space.
pub proof fn lemma_trim_end_prefix(s: Seq<char>)
    ensures
        trim_end_seq(s).len() <= s.len(),
        trim_end_seq(s) =~= s.subrange(0, trim_end_seq(s).len() as int),
        trim_end_seq(s).len() > 0 ==> !is_white_space(trim_end_seq(s).last()),
    decreases s.len(),
{
    if s.len() > 0 && is_white_space(s.last()) {
        lemma_trim_end_prefix(s.drop_last());
        let t = trim_end_seq(s.drop_last());
        assert forall|i: int| 0 <= i < t.len() implies t[i] == s.subrange(0, t.len() as int)[i] by {
            assert(t[i] == s.drop_last().subrange(0, t.len() as int)[i]);
        }
    }
}

/// Trimming what is already trimmed changes nothing.
pub proof fn lemma_trim_idempotent(s: Seq<char>)
    ensures
        trim_seq(trim_seq(s)) == trim_seq(s),
{
    let u = trim_start_seq(s);
    let t = trim_end_seq(u);
    lemma_trim_start_first(s);
    lemma_trim_end_prefix(u);
    if t.len() > 0 {
        assert(t[0] == u.subrange(0, t.len() as int)[0]);
        assert(trim_start_seq(t) == t);
        assert(trim_end_seq(t) == t);
    } else {
        assert(trim_start_seq(t) == t);
        assert(trim_end_seq(t) == t);
    }
}

pub fn trim(s: &Vec<char>) -> (out: Vec<char>)
    ensures
        out@ == trim_seq(s@),
{
    let n = s.len();
    let mut a: usize = 0;
    assert(s@.subrange(0, n as int) =~= s@);
    while a < n && white_space(s[a])
        invariant
            a <= n == s.len(),
            trim_start_seq(s@) == trim_start_seq(s@.subrange(a as int, n as int)),
        decreases n - a,
    {
        assert(s@.subrange(a as int, n as int).drop_first() =~= s@.subrange(a + 1, n as int));
        a = a + 1;
    }
    let ghost t = s@.subrange(a as int, n as int);
    assert(trim_start_seq(s@) == t);
    let mut b: usize = n;
    while b > a && white_space(s[b - 1])
        invariant
            a <= b <= n == s.len(),
            t == s@.subrange(a as int, n as int),
            trim_end_seq(t) == trim_end_seq(s@.subrange(a as int, b as int)),
        decreases b - a,
    {
        assert(s@.subrange(a as int, b as int).drop_last() =~= s@.subrange(a as int, b - 1));
        b = b - 1;
    }
    copy_range(s, a, b)
}

/// `p` matched literally at `i`: where the match ends, -1 when there is none
/// (the empty pattern matches nowhere here).
pub open spec fn literal_end(p: Seq<char>, s: Seq<char>, i: int) -> int {
    if p.len() > 0 && occurs_at(s, i, p) {
        i + p.len()
    } else {
        -1
    }
}

/// The scan that `replace_all` of a pattern performs: from index `i` on, each
/// leftmost match (whose end `m` gives, or a value not after `i` when no
/// match starts there) is replaced by `r`, matches do not overlap, and the
/// other characters are kept.
pub open spec fn rewrite_all(
    s: Seq<char>,
    i: int,
    m: spec_fn(Seq<char>, int) -> int,
    r: Seq<char>,
) -> Seq<char>
    decreases s.len() - i,
{
    if i < 0 || i >= s.len() {
        seq![]
    } else {
        let e = m(s, i);
        if i < e && e <= s.len() {
            r + rewrite_all(s, e, m, r)
        } else {
            seq![s[i]] + rewrite_all(s, i + 1, m, r)
        }
    }
}

/// An index `e` of a suffix as an index of the whole sequence, whose first
/// `k` characters come before the suffix; a negative `e` (no index) stays as
/// it is.
pub open spec fn shifted(e: int, k: int) -> int {
    if e >= 0 {
        k + e
    } else {
        e
    }
}

/// What lies at `x.len() + q` in `x + b` is what lies at `q` in `b`.
pub proof fn lemma_occurs_after_prefix(x: Seq<char>, b: Seq<char>, q: int, t: Seq<char>)
    requires
        0 <= q,
    ensures
        occurs_at(x + b, x.len() + q, t) == occurs_at(b, q, t),
{
    if q + t.len() <= b.len() {
        assert((x + b).subrange(x.len() + q, x.len() + q + t.len()) =~= b.subrange(
            q,
            q + t.len(),
        ));
    }
}

/// When a matcher reads `b` the same behind a prefix `x` as alone, the scan
/// of `x + b` from the start of `b` is the scan of `b`.
pub proof fn lemma_rewrite_after_prefix(
    x: Seq<char>,
    b: Seq<char>,
    j: int,
    m: spec_fn(Seq<char>, int) -> int,
    r: Seq<char>,
)
    requires
        0 <= j <= b.len(),
        forall|q: int| 0 <= q < b.len() ==> m(x + b, x.len() + q) == shifted(#[trigger] m(b, q), x.len() as int),
    ensures
        rewrite_all(x + b, x.len() + j, m, r) == rewrite_all(b, j, m, r),
    decreases b.len() - j,
{
    if j < b.len() {
        let e = m(b, j);
        assert(m(x + b, x.len() + j) == shifted(e, x.len() as int));
        assert((x + b)[x.len() + j] == b[j]);
        if j < e && e <= b.len() {
            lemma_rewrite_after_prefix(x, b, e, m, r);
        } else {
            lemma_rewrite_after_prefix(x, b, j + 1, m, r);
        }
    }
}

/// With no match starting in `[i, k)`, the scan copies those characters and
/// goes on from `k`.
pub proof fn lemma_rewrite_copies(
    s: Seq<char>,
    i: int,
    k: int,
    m: spec_fn(Seq<char>, int) -> int,
    r: Seq<char>,
)
    requires
        0 <= i <= k <= s.len(),
        forall|p: int| i <= p < k ==> !(p < #[trigger] m(s, p) && m(s, p) <= s.len()),
    ensures
        rewrite_all(s, i, m, r) == s.subrange(i, k) + rewrite_all(s, k, m, r),
    decreases k - i,
{
    if i < k {
        lemma_rewrite_copies(s, i + 1, k, m, r);
        assert(seq![s[i]] + s.subrange(i + 1, k) =~= s.subrange(i, k));
        assert(seq![s[i]] + (s.subrange(i + 1, k) + rewrite_all(s, k, m, r)) =~= s.subrange(i, k)
            + rewrite_all(s, k, m, r));
    } else {
        assert(s.subrange(i, k) =~= Seq::<char>::empty());
        assert(Seq::<char>::empty() + rewrite_all(s, k, m, r) =~= rewrite_all(s, k, m, r));
    }
}

/// A scan that finds no match anywhere leaves the text as it is.
pub proof fn lemma_rewrite_nothing(s: Seq<char>, m: spec_fn(Seq<char>, int) -> int, r: Seq<char>)
    requires
        forall|p: int| 0 <= p < s.len() ==> !(p < #[trigger] m(s, p) && m(s, p) <= s.len()),
    ensures
        rewrite_all(s, 0, m, r) == s,
{
    lemma_rewrite_copies(s, 0, s.len() as int, m, r);
    assert(s.subrange(0, s.len() as int) =~= s);
    assert(s + Seq::<char>::empty() =~= s);
}

/// Replacing a literal that occurs in `a + n + c` only between `a` and `c`
/// gives `a + r + c`.
pub proof fn lemma_replace_once(a: Seq<char>, n: Seq<char>, c: Seq<char>, r: Seq<char>)
    requires
        n.len() > 0,
        forall|q: int| 0 <= q < (a + n + c).len() && q != a.len() ==> !occurs_at(a + n + c, q, n),
    ensures
        replace_seq(a + n + c, n, r) == a + r + c,
{
    let s = a + n + c;
    let k = a.len() as int;
    let e = k + n.len();
    let m = literal(n);
    assert forall|p: int| 0 <= p < k implies !(p < #[trigger] m(s, p) && m(s, p) <= s.len()) by {
        assert(!occurs_at(s, p, n));
    }
    lemma_rewrite_copies(s, 0, k, m, r);
    assert(s.subrange(k, e) =~= n);
    assert(m(s, k) == e);
    assert forall|p: int| e <= p < s.len() implies !(p < #[trigger] m(s, p) && m(s, p) <= s.len()) by {
        assert(!occurs_at(s, p, n));
    }
    lemma_rewrite_copies(s, e, s.len() as int, m, r);
    assert(s.subrange(0, k) =~= a);
    assert(s.subrange(e, s.len() as int) =~= c);
    assert(rewrite_all(s, s.len() as int, m, r) =~= Seq::<char>::empty());
    assert(rewrite_all(s, 0, m, r) =~= a + r + c);
}

/// A match of `m` starts at `i`.
pub open spec fn match_starts(m: spec_fn(Seq<char>, int) -> int, s: Seq<char>, i: int) -> bool {
    i < m(s, i) && m(s, i) <= s.len()
}

/// The leftmost index from `i` on where a match of `m` starts, -1 if none.
pub open spec fn leftmost_match(m: spec_fn(Seq<char>, int) -> int, s: Seq<char>, i: int) -> int
    decreases s.len() - i,
{
    if i < 0 || i >= s.len() {
        -1
    } else if match_starts(m, s, i) {
        i
    } else {
        leftmost_match(m, s, i + 1)
    }
}

/// With no match starting from `i` on, there is no leftmost match.
pub proof fn lemma_leftmost_none(m: spec_fn(Seq<char>, int) -> int, s: Seq<char>, i: int)
    requires
        0 <= i,
        forall|j: int| i <= j < s.len() ==> !#[trigger] match_starts(m, s, j),
    ensures
        leftmost_match(m, s, i) == -1,
    decreases s.len() - i,
{
    if i < s.len() {
        lemma_leftmost_none(m, s, i + 1);
    }
}

/// A match at `k` with none before it, from `i` on, is the leftmost.
pub proof fn lemma_leftmost_is(m: spec_fn(Seq<char>, int) -> int, s: Seq<char>, i: int, k: int)
    requires
        0 <= i <= k < s.len(),
        match_starts(m, s, k),
        forall|j: int| i <= j < k ==> !#[trigger] match_starts(m, s, j),
    ensures
        leftmost_match(m, s, i) == k,
    decreases k - i,
{
    if i < k {
        lemma_leftmost_is(m, s, i + 1, k);
    }
}

/// The scan that `replace` (first match only) performs.
pub open spec fn rewrite_first(
    s: Seq<char>,
    m: spec_fn(Seq<char>, int) -> int,
    r: Seq<char>,
) -> Seq<char> {
    let k = leftmost_match(m, s, 0);
    if k < 0 {
        s
    } else {
        s.subrange(0, k) + r + s.subrange(m(s, k), s.len() as int)
    }
}

/// What an executable matcher reports at `i`: the end of the match that
/// starts there, or `None` when none does.
pub open spec fn reports(
    m: spec_fn(Seq<char>, int) -> int,
    s: Seq<char>,
    i: int,
    res: Option<usize>,
) -> bool {
    match res {
        Some(e) => match_starts(m, s, i) && m(s, i) == e,
        None => !match_starts(m, s, i),
    }
}

/// Replaces every match that `find` reports, as `rewrite_all` says.
pub fn replace_matches<F: Fn(&Vec<char>, usize) -> Option<usize>>(
    s: &Vec<char>,
    r: &Vec<char>,
    find: F,
    Ghost(m): Ghost<spec_fn(Seq<char>, int) -> int>,
) -> (out: Vec<char>)
    requires
        forall|i: usize| i < s.len() ==> call_requires(find, (s, i)),
        forall|i: usize, res: Option<usize>|
            i < s.len() && #[trigger] call_ensures(find, (s, i), res) ==> reports(
                m,
                s@,
                i as int,
                res,
            ),
    ensures
        out@ == rewrite_all(s@, 0, m, r@),
{
    let mut out: Vec<char> = Vec::new();
    let mut i: usize = 0;
    while i < s.len()
        invariant
            i <= s.len(),
            forall|i: usize| i < s.len() ==> call_requires(find, (s, i)),
            forall|i: usize, res: Option<usize>|
                i < s.len() && #[trigger] call_ensures(find, (s, i), res) ==> reports(
                    m,
                    s@,
                    i as int,
                    res,
                ),
            out@ + rewrite_all(s@, i as int, m, r@) == rewrite_all(s@, 0, m, r@),
        decreases s.len() - i,
    {
        let found = find(s, i);
        match found {
            Some(e) => {
                let ghost before = out@;
                push_all(&mut out, r);
                assert(before + (r@ + rewrite_all(s@, e as int, m, r@)) =~= out@ + rewrite_all(
                    s@,
                    e as int,
                    m,
                    r@,
                ));
                i = e;
            },
            None => {
                let ghost before = out@;
                out.push(s[i]);
                assert(before + (seq![s@[i as int]] + rewrite_all(s@, i + 1, m, r@)) =~= out@
                    + rewrite_all(s@, i + 1, m, r@));
                i = i + 1;
            },
        }
    }
    assert(out@ =~= out@ + rewrite_all(s@, i as int, m, r@));
    out
}

/// Replaces the leftmost match that `find` reports, as `rewrite_first` says.
pub fn replace_first_match<F: Fn(&Vec<char>, usize) -> Option<usize>>(
    s: &Vec<char>,
    r: &Vec<char>,
    find: F,
    Ghost(m): Ghost<spec_fn(Seq<char>, int) -> int>,
) -> (out: Vec<char>)
    requires
        forall|i: usize| i < s.len() ==> call_requires(find, (s, i)),
        forall|i: usize, res: Option<usize>|
            i < s.len() && #[trigger] call_ensures(find, (s, i), res) ==> reports(
                m,
                s@,
                i as int,
                res,
            ),
    ensures
        out@ == rewrite_first(s@, m, r@),
{
    let mut i: usize = 0;
    while i < s.len()
        invariant
            i <= s.len(),
            forall|i: usize| i < s.len() ==> call_requires(find, (s, i)),
            forall|i: usize, res: Option<usize>|
                i < s.len() && #[trigger] call_ensures(find, (s, i), res) ==> reports(
                    m,
                    s@,
                    i as int,
                    res,
                ),
            leftmost_match(m, s@, 0) == leftmost_match(m, s@, i as int),
        decreases s.len() - i,
    {
        let found = find(s, i);
        match found {
            Some(e) => {
                let mut out = copy_range(s, 0, i);
                push_all(&mut out, r);
                let rest = copy_range(s, e, s.len());
                push_all(&mut out, &rest);
                return out;
            },
            None => {
                i = i + 1;
            },
        }
    }
    assert(s@.subrange(0, s.len() as int) =~= s@);
    copy_range(s, 0, s.len())
}


/// The matches of the literal pattern `p`.
pub open spec fn literal(p: Seq<char>) -> spec_fn(Seq<char>, int) -> int {
    |t: Seq<char>, i: int| literal_end(p, t, i)
}

/// Every non-overlapping occurrence of `p` in `s`, from the left, becomes
/// `r`: `str::replace` with a non-empty string pattern. The empty pattern
/// matches nowhere here, so `s` is left as it is.
pub open spec fn replace_seq(s: Seq<char>, p: Seq<char>, r: Seq<char>) -> Seq<char> {
    rewrite_all(s, 0, literal(p), r)
}

/// `s.replace(p, r)` for a non-empty literal pattern `p`.
pub fn replace_literal(s: &Vec<char>, p: &Vec<char>, r: &Vec<char>) -> (out: Vec<char>)
    requires
        p@.len() > 0,
    ensures
        out@ == replace_seq(s@, p@, r@),
{
    let ghost m = literal(p@);
    let find = |v: &Vec<char>, i: usize| -> (res: Option<usize>)
        ensures
            reports(literal(p@), v@, i as int, res),
        {
            if p.len() > 0 && i <= v.len() && p.len() <= v.len() - i && starts_at(v, i, p) {
                Some(i + p.len())
            } else {
                None
            }
        };
    replace_matches(s, r, find, Ghost(m))
}

/// The pieces of `s[i..]` between `'\n'` characters, the first of them
/// continuing `cur` (`str::split('\n')` when `i` is 0 and `cur` empty).
pub open spec fn lines_from(s: Seq<char>, i: int, cur: Seq<char>) -> Seq<Seq<char>>
    decreases s.len() - i,
{
    if i < 0 || i >= s.len() {
        seq![cur]
    } else if s[i] == '\n' {
        seq![cur] + lines_from(s, i + 1, seq![])
    } else {
        lines_from(s, i + 1, cur.push(s[i]))
    }
}

/// `s.split('\n')`.
pub open spec fn split_lines(s: Seq<char>) -> Seq<Seq<char>> {
    lines_from(s, 0, seq![])
}

/// `<p>` + `l` + `</p>`.
pub open spec fn paragraph(l: Seq<char>) -> Seq<char> {
    seq!['<', 'p', '>'] + l + seq!['<', '/', 'p', '>']
}

/// Each line trimmed; the empty ones dropped, the others wrapped in `<p>`.
pub open spec fn paragraphs(lines: Seq<Seq<char>>) -> Seq<Seq<char>>
    decreases lines.len(),
{
    if lines.len() == 0 {
        seq![]
    } else {
        let t = trim_seq(lines[0]);
        (if t.len() == 0 {
            seq![]
        } else {
            seq![paragraph(t)]
        }) + paragraphs(lines.drop_first())
    }
}

/// The elements of `list` with `sep` between each two of them.
pub open spec fn join_seqs(list: Seq<Seq<char>>, sep: Seq<char>) -> Seq<char>
    decreases list.len(),
{
    if list.len() == 0 {
        seq![]
    } else if list.len() == 1 {
        list[0]
    } else {
        join_seqs(list.drop_last(), sep) + sep + list.last()
    }
}

/// The paragraph markup of a text: its lines trimmed, the empty ones
/// dropped, each other one wrapped in `<p>`, and the results joined by `'\n'`.
pub open spec fn paragraph_markup(text: Seq<char>) -> Seq<char> {
    join_seqs(paragraphs(split_lines(text)), seq!['\n'])
}

pub proof fn lemma_paragraphs_concat(a: Seq<Seq<char>>, b: Seq<Seq<char>>)
    ensures
        paragraphs(a + b) == paragraphs(a) + paragraphs(b),
    decreases a.len(),
{
    if a.len() == 0 {
        assert(a + b =~= b);
    } else {
        assert((a + b).drop_first() =~= a.drop_first() + b);
        lemma_paragraphs_concat(a.drop_first(), b);
        let t = trim_seq(a[0]);
        let first: Seq<Seq<char>> = if t.len() == 0 {
            seq![]
        } else {
            seq![paragraph(t)]
        };
        assert(first + (paragraphs(a.drop_first()) + paragraphs(b)) =~= (first + paragraphs(
            a.drop_first(),
        )) + paragraphs(b));
    }
}

/// Paragraphs are no more than the lines, and each is a `<p>` element
/// around one line, trimmed and not empty.
pub proof fn paragraphs_wrap_lines(lines: Seq<Seq<char>>)
    ensures
        paragraphs(lines).len() <= lines.len(),
        forall|k: int|
            0 <= k < paragraphs(lines).len() ==> exists|j: int|
                0 <= j < lines.len() && trim_seq(lines[j]).len() > 0 && #[trigger] paragraphs(
                    lines,
                )[k] == paragraph(trim_seq(lines[j])),
    decreases lines.len(),
{
    if lines.len() > 0 {
        let rest = lines.drop_first();
        paragraphs_wrap_lines(rest);
        let t = trim_seq(lines[0]);
        let first: Seq<Seq<char>> = if t.len() == 0 {
            seq![]
        } else {
            seq![paragraph(t)]
        };
        let all = paragraphs(lines);
        assert(all == first + paragraphs(rest));
        assert forall|k: int| 0 <= k < all.len() implies exists|j: int|
            0 <= j < lines.len() && trim_seq(lines[j]).len() > 0 && #[trigger] all[k] == paragraph(
                trim_seq(lines[j]),
            ) by {
            if k < first.len() {
                assert(all[k] == paragraph(trim_seq(lines[0])));
            } else {
                let k2 = k - first.len();
                assert(all[k] == paragraphs(rest)[k2]);
                let j = choose|j: int|
                    0 <= j < rest.len() && trim_seq(rest[j]).len() > 0 && #[trigger] paragraphs(
                        rest,
                    )[k2] == paragraph(trim_seq(rest[j]));
                assert(rest[j] == lines[j + 1]);
            }
        }
    }
}

/// The paragraph list of one line.
fn line_paragraph(line: &Vec<char>) -> (out: Option<Vec<char>>)
    ensures
        paragraphs(seq![line@]) == (match out {
            Some(p) => seq![p@],
            None => Seq::<Seq<char>>::empty(),
        }),
{
    let t = trim(line);
    assert(seq![line@].drop_first() =~= Seq::<Seq<char>>::empty());
    assert(paragraphs(Seq::<Seq<char>>::empty()) == Seq::<Seq<char>>::empty());
    if t.len() == 0 {
        assert(paragraphs(seq![line@]) =~= Seq::<Seq<char>>::empty());
        None
    } else {
        let mut p: Vec<char> = Vec::new();
        p.push('<');
        p.push('p');
        p.push('>');
        push_all(&mut p, &t);
        p.push('<');
        p.push('/');
        p.push('p');
        p.push('>');
        assert(p@ =~= paragraph(t@));
        assert(paragraphs(seq![line@]) =~= seq![p@]);
        Some(p)
    }
}

/// The characters of the elements of `list` with `sep` between each two.
pub fn join(list: &Vec<Vec<char>>, sep: &Vec<char>, Ghost(gl): Ghost<Seq<Seq<char>>>) -> (out: Vec<
    char,
>)
    requires
        list.len() == gl.len(),
        forall|k: int| 0 <= k < gl.len() ==> #[trigger] list@[k]@ == gl[k],
    ensures
        out@ == join_seqs(gl, sep@),
{
    let mut out: Vec<char> = Vec::new();
    let mut i: usize = 0;
    while i < list.len()
        invariant
            i <= list.len() == gl.len(),
            forall|k: int| 0 <= k < gl.len() ==> #[trigger] list@[k]@ == gl[k],
            out@ == join_seqs(gl.take(i as int), sep@),
        decreases list.len() - i,
    {
        assert(gl.take(i + 1).drop_last() =~= gl.take(i as int));
        assert(list@[i as int]@ == gl[i as int]);
        if i > 0 {
            push_all(&mut out, sep);
        }
        push_all(&mut out, &list[i]);
        if i == 0 {
            assert(out@ =~= gl.take(1)[0]);
        }
        i = i + 1;
    }
    assert(gl.take(gl.len() as int) =~= gl);
    out
}

/// `text` split at `'\n'`, each line trimmed, the empty ones dropped, each
/// other one wrapped in `<p>`, the results joined by `'\n'`.
pub fn paragraph_text(text: &Vec<char>) -> (out: Vec<char>)
    ensures
        out@ == paragraph_markup(text@),
{
    let mut list: Vec<Vec<char>> = Vec::new();
    let ghost mut gl: Seq<Seq<char>> = seq![];
    let mut cur: Vec<char> = Vec::new();
    let mut i: usize = 0;
    while i < text.len()
        invariant
            i <= text.len(),
            list.len() == gl.len(),
            forall|k: int| 0 <= k < gl.len() ==> #[trigger] list@[k]@ == gl[k],
            gl + paragraphs(lines_from(text@, i as int, cur@)) == paragraphs(split_lines(text@)),
        decreases text.len() - i,
    {
        let c = text[i];
        if c == '\n' {
            proof {
                lemma_paragraphs_concat(seq![cur@], lines_from(text@, i + 1, seq![]));
            }
            match line_paragraph(&cur) {
                Some(p) => {
                    proof {
                        gl = gl.push(p@);
                    }
                    list.push(p);
                },
                None => {},
            }
            assert(gl + paragraphs(lines_from(text@, i + 1, seq![])) == paragraphs(
                split_lines(text@),
            )) by {
                assert(lines_from(text@, i as int, cur@) == seq![cur@] + lines_from(
                    text@,
                    i + 1,
                    seq![],
                ));
            }
            cur = Vec::new();
            assert(cur@ =~= Seq::<char>::empty());
        } else {
            let ghost old_cur = cur@;
            cur.push(c);
            assert(lines_from(text@, i as int, old_cur) == lines_from(text@, i + 1, cur@));
        }
        i = i + 1;
    }
    assert(lines_from(text@, i as int, cur@) == seq![cur@]);
    let ghost before = gl;
    match line_paragraph(&cur) {
        Some(p) => {
            proof {
                gl = gl.push(p@);
            }
            assert(before + seq![p@] =~= gl);
            list.push(p);
        },
        None => {
            assert(gl + Seq::<Seq<char>>::empty() =~= gl);
        },
    }
    assert(gl == paragraphs(split_lines(text@)));
    let mut sep: Vec<char> = Vec::new();
    sep.push('\n');
    assert(sep@ =~= seq!['\n']);
    join(&list, &sep, Ghost(gl))
}


/// Whether `a` and `b` hold the same characters.
pub fn same_text(a: &str, b: &str) -> (r: bool)
    ensures
        r == (a@ == b@),
{
    let x = chars_of(a);
    let y = chars_of(b);
    if x.len() != y.len() {
        return false;
    }
    let mut i: usize = 0;
    while i < x.len()
        invariant
            i <= x.len() == y.len(),
            x@ == a@,
            y@ == b@,
            forall|t: int| 0 <= t < i ==> x@[t] == y@[t],
        decreases x.len() - i,
    {
        if x[i] != y[i] {
            assert(a@[i as int] != b@[i as int]);
            assert(a@ != b@);
            return false;
        }
        i = i + 1;
    }
    assert(x@ =~= y@);
    true
}

} // verus!
