//! Scanning a character sequence for a character class: the first index of a
//! class before some stop class, the end of a run, the last index of a class.

use vstd::prelude::*;
use crate::text::shifted;

verus! {

/// The first index `k >= j` whose character is in `target`, provided no
/// character of `stop` comes between `j` and `k`; -1 when there is none.
pub open spec fn scan_to(
    s: Seq<char>,
    j: int,
    stop: spec_fn(char) -> bool,
    target: spec_fn(char) -> bool,
) -> int
    decreases s.len() - j,
{
    if j < 0 || j >= s.len() {
        -1
    } else if target(s[j]) {
        j
    } else if stop(s[j]) {
        -1
    } else {
        scan_to(s, j + 1, stop, target)
    }
}

/// Scanning `x + b` from inside `b` finds what scanning `b` finds, moved by
/// the length of `x`.
pub proof fn lemma_scan_to_after_prefix(
    x: Seq<char>,
    b: Seq<char>,
    q: int,
    stop: spec_fn(char) -> bool,
    target: spec_fn(char) -> bool,
)
    requires
        0 <= q,
    ensures
        scan_to(x + b, x.len() + q, stop, target) == shifted(
            scan_to(b, q, stop, target),
            x.len() as int,
        ),
    decreases b.len() - q,
{
    if q < b.len() {
        assert((x + b)[x.len() + q] == b[q]);
        lemma_scan_to_after_prefix(x, b, q + 1, stop, target);
    }
}

/// The first index `k >= j` whose character is not in `class` (the length of
/// `s` when there is none).
pub open spec fn skip_while(s: Seq<char>, j: int, class: spec_fn(char) -> bool) -> int
    decreases s.len() - j,
{
    if j < 0 || j >= s.len() || !class(s[j]) {
        j
    } else {
        skip_while(s, j + 1, class)
    }
}

/// Where a skip from `j` ends: at or after `j`, past characters of the
/// class only, at a character outside it or at the end.
pub proof fn lemma_skip_while(s: Seq<char>, j: int, class: spec_fn(char) -> bool)
    requires
        0 <= j,
    ensures
        j <= skip_while(s, j, class),
        j <= s.len() ==> skip_while(s, j, class) <= s.len(),
        skip_while(s, j, class) < s.len() ==> !class(s[skip_while(s, j, class)]),
        forall|q: int| j <= q < skip_while(s, j, class) ==> class(#[trigger] s[q]),
    decreases s.len() - j,
{
    if j < s.len() && class(s[j]) {
        lemma_skip_while(s, j + 1, class);
    }
}

/// The last index `k >= j` whose character is in `target`, looking no further
/// than the first character of `stop`; `best` when there is none.
pub open spec fn scan_last(
    s: Seq<char>,
    j: int,
    stop: spec_fn(char) -> bool,
    target: spec_fn(char) -> bool,
    best: int,
) -> int
    decreases s.len() - j,
{
    if j < 0 || j >= s.len() || stop(s[j]) {
        best
    } else if target(s[j]) {
        scan_last(s, j + 1, stop, target, j)
    } else {
        scan_last(s, j + 1, stop, target, best)
    }
}

/// Scanning to the end with no stop on the way, when the last character is
/// a target, finds the last character.
pub proof fn lemma_scan_last_at_end(
    s: Seq<char>,
    j: int,
    stop: spec_fn(char) -> bool,
    target: spec_fn(char) -> bool,
    best: int,
)
    requires
        0 <= j < s.len(),
        forall|p: int| j <= p < s.len() ==> !stop(#[trigger] s[p]),
        target(s[s.len() - 1]),
    ensures
        scan_last(s, j, stop, target, best) == s.len() - 1,
    decreases s.len() - j,
{
    if j + 1 < s.len() {
        assert(!stop(s[j]));
        if target(s[j]) {
            lemma_scan_last_at_end(s, j + 1, stop, target, j);
        } else {
            lemma_scan_last_at_end(s, j + 1, stop, target, best);
        }
    } else {
        assert(!stop(s[j]));
        assert(scan_last(s, j + 1, stop, target, j) == j);
    }
}

/// `classify` decides `class` for every character.
pub open spec fn decides<F: Fn(char) -> bool>(classify: F, class: spec_fn(char) -> bool) -> bool {
    &&& forall|c: char| call_requires(classify, (c,))
    &&& forall|c: char, b: bool| #[trigger] call_ensures(classify, (c,), b) ==> b == class(c)
}

pub fn find_forward<F: Fn(char) -> bool, G: Fn(char) -> bool>(
    s: &Vec<char>,
    j: usize,
    stop: F,
    target: G,
    Ghost(st): Ghost<spec_fn(char) -> bool>,
    Ghost(tg): Ghost<spec_fn(char) -> bool>,
) -> (r: Option<usize>)
    requires
        decides(stop, st),
        decides(target, tg),
    ensures
        match r {
            Some(k) => k == scan_to(s@, j as int, st, tg) && j <= k < s.len(),
            None => scan_to(s@, j as int, st, tg) == -1,
        },
{
    let mut k = j;
    while k < s.len()
        invariant
            j <= k,
            decides(stop, st),
            decides(target, tg),
            scan_to(s@, j as int, st, tg) == scan_to(s@, k as int, st, tg),
        decreases s.len() - k,
    {
        let c = s[k];
        if target(c) {
            return Some(k);
        }
        if stop(c) {
            return None;
        }
        k = k + 1;
    }
    None
}

pub fn skip_forward<F: Fn(char) -> bool>(
    s: &Vec<char>,
    j: usize,
    class: F,
    Ghost(cl): Ghost<spec_fn(char) -> bool>,
) -> (r: usize)
    requires
        j <= s.len(),
        decides(class, cl),
    ensures
        r == skip_while(s@, j as int, cl),
        j <= r <= s.len(),
{
    let mut k = j;
    while k < s.len() && class(s[k])
        invariant
            j <= k <= s.len(),
            decides(class, cl),
            skip_while(s@, j as int, cl) == skip_while(s@, k as int, cl),
        decreases s.len() - k,
    {
        k = k + 1;
    }
    k
}

pub fn find_last<F: Fn(char) -> bool, G: Fn(char) -> bool>(
    s: &Vec<char>,
    j: usize,
    stop: F,
    target: G,
    Ghost(st): Ghost<spec_fn(char) -> bool>,
    Ghost(tg): Ghost<spec_fn(char) -> bool>,
) -> (r: Option<usize>)
    requires
        decides(stop, st),
        decides(target, tg),
    ensures
        match r {
            Some(k) => k == scan_last(s@, j as int, st, tg, -1) && j <= k < s.len(),
            None => scan_last(s@, j as int, st, tg, -1) == -1,
        },
{
    let mut k = j;
    let mut best: Option<usize> = None;
    while k < s.len()
        invariant
            j <= k,
            decides(stop, st),
            decides(target, tg),
            match best {
                Some(b) => j <= b < k && b < s.len() && scan_last(s@, j as int, st, tg, -1)
                    == scan_last(s@, k as int, st, tg, b as int),
                None => scan_last(s@, j as int, st, tg, -1) == scan_last(
                    s@,
                    k as int,
                    st,
                    tg,
                    -1,
                ),
            },
        decreases s.len() - k,
    {
        let c = s[k];
        if stop(c) {
            return best;
        }
        if target(c) {
            best = Some(k);
        }
        k = k + 1;
    }
    best
}

} // verus!
