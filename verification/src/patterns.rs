//! The text patterns that the book sources strip from names, titles and
//! chapter text, each as the end of the match that starts at an index (-1
//! when none does), with an executable matcher that reports it.

use vstd::prelude::*;
use crate::classes::{
    ascii_space, ascii_word, close_paren, decimal_digit, is_ascii_space, is_ascii_word,
    is_close_bracket, is_close_paren, is_close_title_mark, is_decimal_digit, is_gt, is_name_char,
    is_newline, is_nothing, is_open_paren, is_quote, is_unicode_space, name_char, newline, nothing,
    open_paren, single, unicode_space, is_unicode_word, unicode_word,
};
use crate::scan::{
    find_forward, find_last, lemma_scan_to_after_prefix, scan_last, scan_to, skip_forward,
    skip_while,
};
use crate::text::{chars_of, lemma_occurs_after_prefix, occurs_at, reports, shifted, starts_at};

verus! {

/// A bracketed group: `(` or `（`, then the fewest characters up to `)` or
/// `）`, none of them a line break (`[（(].*?[）)]`).
pub open spec fn paren_group_end(s: Seq<char>, i: int) -> int {
    if 0 <= i < s.len() && open_paren()(s[i]) {
        let k = scan_to(s, i + 1, newline(), close_paren());
        if k >= 0 {
            k + 1
        } else {
            -1
        }
    } else {
        -1
    }
}

pub open spec fn paren_group() -> spec_fn(Seq<char>, int) -> int {
    |s: Seq<char>, i: int| paren_group_end(s, i)
}

pub fn match_paren_group(s: &Vec<char>, i: usize) -> (r: Option<usize>)
    requires
        i < s.len(),
    ensures
        reports(paren_group(), s@, i as int, r),
{
    if !is_open_paren(s[i]) {
        return None;
    }
    match find_forward(s, i + 1, is_newline, is_close_paren, Ghost(newline()), Ghost(close_paren())) {
        Some(k) => Some(k + 1),
        None => None,
    }
}

/// One character that a normalized book name does not keep
/// (`[^一-龥a-zA-Z0-9]`).
pub open spec fn name_symbol_end(s: Seq<char>, i: int) -> int {
    if 0 <= i < s.len() && !name_char()(s[i]) {
        i + 1
    } else {
        -1
    }
}

pub open spec fn name_symbol() -> spec_fn(Seq<char>, int) -> int {
    |s: Seq<char>, i: int| name_symbol_end(s, i)
}

pub fn match_name_symbol(s: &Vec<char>, i: usize) -> (r: Option<usize>)
    requires
        i < s.len(),
    ensures
        reports(name_symbol(), s@, i as int, r),
{
    if is_name_char(s[i]) {
        None
    } else {
        Some(i + 1)
    }
}


/// An alias note in a book name: `(` or `（`, `别名`, `:` or `：`, then the
/// fewest characters up to `)` or `）`, none of them a line break
/// (`[（(]别名[：:].*?[）)]`).
pub open spec fn alias_note_end(s: Seq<char>, i: int) -> int {
    if 0 <= i && i + 4 <= s.len() && open_paren()(s[i]) && s[i + 1] == '别' && s[i + 2] == '名'
        && (s[i + 3] == ':' || s[i + 3] == '：') {
        let k = scan_to(s, i + 4, newline(), close_paren());
        if k >= 0 {
            k + 1
        } else {
            -1
        }
    } else {
        -1
    }
}

pub open spec fn alias_note() -> spec_fn(Seq<char>, int) -> int {
    |s: Seq<char>, i: int| alias_note_end(s, i)
}

pub fn match_alias_note(s: &Vec<char>, i: usize) -> (r: Option<usize>)
    requires
        i < s.len(),
    ensures
        reports(alias_note(), s@, i as int, r),
{
    if s.len() - i < 4 || !is_open_paren(s[i]) || s[i + 1] != '别' || s[i + 2] != '名' || !(s[i
        + 3] == ':' || s[i + 3] == '：') {
        return None;
    }
    match find_forward(s, i + 4, is_newline, is_close_paren, Ghost(newline()), Ghost(close_paren())) {
        Some(k) => Some(k + 1),
        None => None,
    }
}

/// An `ident` attribute with the white space before it: ASCII white space,
/// `ident="`, any characters but `"`, then `"` (`\s*ident="[^"]*"` in
/// `regex_lite`, whose `\s` is ASCII).
pub open spec fn ident_attr_end(s: Seq<char>, i: int) -> int {
    if 0 <= i < s.len() {
        let k = skip_while(s, i, ascii_space());
        if occurs_at(s, k, "ident=\""@) {
            let q = scan_to(s, k + "ident=\""@.len(), nothing(), single('"'));
            if q >= 0 {
                q + 1
            } else {
                -1
            }
        } else {
            -1
        }
    } else {
        -1
    }
}

pub open spec fn ident_attr() -> spec_fn(Seq<char>, int) -> int {
    |s: Seq<char>, i: int| ident_attr_end(s, i)
}

pub fn match_ident_attr(s: &Vec<char>, i: usize) -> (r: Option<usize>)
    requires
        i < s.len(),
    ensures
        reports(ident_attr(), s@, i as int, r),
{
    let k = skip_forward(s, i, is_ascii_space, Ghost(ascii_space()));
    let attr = chars_of("ident=\"");
    proof {
        reveal_strlit("ident=\"");
    }
    if !starts_at(s, k, &attr) {
        return None;
    }
    match find_forward(s, k + attr.len(), is_nothing, is_quote, Ghost(nothing()), Ghost(single('"'))) {
        Some(q) => Some(q + 1),
        None => None,
    }
}

/// A line-break tag: `<br`, white space of the given class, an optional `/`,
/// then `>` (`<br\s*/?>`).
pub open spec fn line_break_end(s: Seq<char>, i: int, space: spec_fn(char) -> bool) -> int {
    if occurs_at(s, i, "<br"@) {
        let k = skip_while(s, i + "<br"@.len(), space);
        let k2 = if k < s.len() && s[k] == '/' {
            k + 1
        } else {
            k
        };
        if k2 < s.len() && s[k2] == '>' {
            k2 + 1
        } else {
            -1
        }
    } else {
        -1
    }
}

/// `<br\s*/?>` in `regex_lite`: ASCII white space.
pub open spec fn line_break_ascii() -> spec_fn(Seq<char>, int) -> int {
    |s: Seq<char>, i: int| line_break_end(s, i, ascii_space())
}

/// `<br\s*/?>` in the `regex` crate: Unicode white space.
pub open spec fn line_break_unicode() -> spec_fn(Seq<char>, int) -> int {
    |s: Seq<char>, i: int| line_break_end(s, i, unicode_space())
}

fn match_line_break<F: Fn(char) -> bool>(
    s: &Vec<char>,
    i: usize,
    space: F,
    Ghost(sp): Ghost<spec_fn(char) -> bool>,
) -> (r: Option<usize>)
    requires
        i < s.len(),
        crate::scan::decides(space, sp),
    ensures
        match r {
            Some(e) => i < e <= s.len() && line_break_end(s@, i as int, sp) == e,
            None => !(i < line_break_end(s@, i as int, sp) <= s.len()),
        },
{
    let br = chars_of("<br");
    proof {
        reveal_strlit("<br");
    }
    if !starts_at(s, i, &br) {
        return None;
    }
    let k = skip_forward(s, i + 3, space, Ghost(sp));
    let k2 = if k < s.len() && s[k] == '/' {
        k + 1
    } else {
        k
    };
    if k2 < s.len() && s[k2] == '>' {
        Some(k2 + 1)
    } else {
        None
    }
}

pub fn match_line_break_ascii(s: &Vec<char>, i: usize) -> (r: Option<usize>)
    requires
        i < s.len(),
    ensures
        reports(line_break_ascii(), s@, i as int, r),
{
    match_line_break(s, i, is_ascii_space, Ghost(ascii_space()))
}

pub fn match_line_break_unicode(s: &Vec<char>, i: usize) -> (r: Option<usize>)
    requires
        i < s.len(),
    ensures
        reports(line_break_unicode(), s@, i as int, r),
{
    match_line_break(s, i, is_unicode_space, Ghost(unicode_space()))
}

/// A markup tag: `<`, one or more characters but `>`, then `>` (`<[^>]+>`).
pub open spec fn tag_end(s: Seq<char>, i: int) -> int {
    if 0 <= i && i + 1 < s.len() && s[i] == '<' && s[i + 1] != '>' {
        let k = scan_to(s, i + 1, nothing(), single('>'));
        if k >= 0 {
            k + 1
        } else {
            -1
        }
    } else {
        -1
    }
}

pub open spec fn markup_tag() -> spec_fn(Seq<char>, int) -> int {
    |s: Seq<char>, i: int| tag_end(s, i)
}

pub fn match_markup_tag(s: &Vec<char>, i: usize) -> (r: Option<usize>)
    requires
        i < s.len(),
    ensures
        reports(markup_tag(), s@, i as int, r),
{
    if i + 1 >= s.len() || s[i] != '<' || s[i + 1] == '>' {
        return None;
    }
    match find_forward(s, i + 1, is_nothing, is_gt, Ghost(nothing()), Ghost(single('>'))) {
        Some(k) => Some(k + 1),
        None => None,
    }
}


/// The element names whose elements chapter text drops: `script`, `style`,
/// `div`, `a`, in the order a pattern tries them.
pub open spec fn element_name(n: int) -> Seq<char> {
    if n == 0 {
        "script"@
    } else if n == 1 {
        "style"@
    } else if n == 2 {
        "div"@
    } else {
        "a"@
    }
}

/// The closing tag `</name>` of element name `n`.
pub open spec fn close_tag(n: int) -> Seq<char> {
    "</"@ + element_name(n) + ">"@
}

/// A word boundary right after a word character at `p - 1`: `p` is the end
/// of `s` or the character at `p` is not in the word class.
pub open spec fn boundary_at(s: Seq<char>, p: int, word: spec_fn(char) -> bool) -> bool {
    p >= s.len() || !word(s[p])
}

/// `<` at `i` followed by element name `n` and a word boundary.
pub open spec fn opens_as(s: Seq<char>, i: int, n: int, word: spec_fn(char) -> bool) -> bool {
    occurs_at(s, i + 1, element_name(n)) && boundary_at(s, i + 1 + element_name(n).len(), word)
}

/// Which of the names, tried in order, opens an element at `i`; -1 if none
/// (`<(script|style|div|a)\b`).
pub open spec fn opening_name(s: Seq<char>, i: int, word: spec_fn(char) -> bool) -> int {
    if 0 <= i < s.len() && s[i] == '<' {
        if opens_as(s, i, 0, word) {
            0
        } else if opens_as(s, i, 1, word) {
            1
        } else if opens_as(s, i, 2, word) {
            2
        } else if opens_as(s, i, 3, word) {
            3
        } else {
            -1
        }
    } else {
        -1
    }
}

/// The length of the closing tag at `j`: of element name `n` when `n` is a
/// name, of any of the four names when `n` is -1; -1 when there is none.
pub open spec fn closing_len(s: Seq<char>, j: int, n: int) -> int {
    if n >= 0 {
        if occurs_at(s, j, close_tag(n)) {
            close_tag(n).len() as int
        } else {
            -1
        }
    } else if occurs_at(s, j, close_tag(0)) {
        close_tag(0).len() as int
    } else if occurs_at(s, j, close_tag(1)) {
        close_tag(1).len() as int
    } else if occurs_at(s, j, close_tag(2)) {
        close_tag(2).len() as int
    } else if occurs_at(s, j, close_tag(3)) {
        close_tag(3).len() as int
    } else {
        -1
    }
}

/// The first closing tag (as `closing_len` reads `n`) at or after `j`,
/// before any line break; -1 when there is none.
pub open spec fn scan_closing(s: Seq<char>, j: int, n: int) -> int
    decreases s.len() - j,
{
    if j < 0 || j >= s.len() {
        -1
    } else if closing_len(s, j, n) >= 0 {
        j
    } else if s[j] == '\n' {
        -1
    } else {
        scan_closing(s, j + 1, n)
    }
}

/// A whole element: its opening tag up to the first `>`, then the fewest
/// characters, none a line break, up to a closing tag. With `same` the
/// closing tag must name the same element (`<(script|style|div|a)\b[^>]*>.*?</\1>`);
/// without it any of the four closes it
/// (`<(script|style|div|a)\b[^>]*>.*?</(script|style|div|a)>`).
pub open spec fn element_end(s: Seq<char>, i: int, word: spec_fn(char) -> bool, same: bool) -> int {
    let n = opening_name(s, i, word);
    if n >= 0 {
        let g = scan_to(s, i + 1 + element_name(n).len(), nothing(), single('>'));
        if g >= 0 {
            let want = if same {
                n
            } else {
                -1
            };
            let c = scan_closing(s, g + 1, want);
            if c >= 0 {
                c + closing_len(s, c, want)
            } else {
                -1
            }
        } else {
            -1
        }
    } else {
        -1
    }
}

/// An element is read the same behind a prefix: its opening name at
/// `x.len() + j` in `x + b` is its opening name at `j` in `b`.
pub proof fn lemma_opening_after_prefix(
    x: Seq<char>,
    b: Seq<char>,
    j: int,
    word: spec_fn(char) -> bool,
)
    requires
        0 <= j,
    ensures
        opening_name(x + b, x.len() + j, word) == opening_name(b, j, word),
{
    if j < b.len() {
        assert((x + b)[x.len() + j] == b[j]);
        assert forall|n: int| 0 <= n < 4 implies opens_as(x + b, x.len() + j, n, word) == opens_as(
            b,
            j,
            n,
            word,
        ) by {
            lemma_occurs_after_prefix(x, b, j + 1, element_name(n));
            let p = j + 1 + element_name(n).len();
            if p < b.len() {
                assert((x + b)[x.len() + p] == b[p]);
            }
        }
        assert(opens_as(x + b, x.len() + j, 0, word) == opens_as(b, j, 0, word));
        assert(opens_as(x + b, x.len() + j, 1, word) == opens_as(b, j, 1, word));
        assert(opens_as(x + b, x.len() + j, 2, word) == opens_as(b, j, 2, word));
        assert(opens_as(x + b, x.len() + j, 3, word) == opens_as(b, j, 3, word));
    }
}

/// A closing tag is read the same behind a prefix.
pub proof fn lemma_closing_after_prefix(x: Seq<char>, b: Seq<char>, j: int, n: int)
    requires
        0 <= j,
    ensures
        closing_len(x + b, x.len() + j, n) == closing_len(b, j, n),
{
    lemma_occurs_after_prefix(x, b, j, close_tag(n));
    lemma_occurs_after_prefix(x, b, j, close_tag(0));
    lemma_occurs_after_prefix(x, b, j, close_tag(1));
    lemma_occurs_after_prefix(x, b, j, close_tag(2));
    lemma_occurs_after_prefix(x, b, j, close_tag(3));
}

/// The first closing tag is found the same behind a prefix, moved by its
/// length.
pub proof fn lemma_scan_closing_after_prefix(x: Seq<char>, b: Seq<char>, j: int, n: int)
    requires
        0 <= j,
    ensures
        scan_closing(x + b, x.len() + j, n) == shifted(scan_closing(b, j, n), x.len() as int),
    decreases b.len() - j,
{
    if j < b.len() {
        lemma_closing_after_prefix(x, b, j, n);
        assert((x + b)[x.len() + j] == b[j]);
        lemma_scan_closing_after_prefix(x, b, j + 1, n);
    }
}

/// A whole element is matched the same behind a prefix, its end moved by the
/// prefix's length.
pub proof fn lemma_element_after_prefix(
    x: Seq<char>,
    b: Seq<char>,
    j: int,
    word: spec_fn(char) -> bool,
    same: bool,
)
    requires
        0 <= j,
    ensures
        element_end(x + b, x.len() + j, word, same) == shifted(
            element_end(b, j, word, same),
            x.len() as int,
        ),
{
    let k = x.len() as int;
    lemma_opening_after_prefix(x, b, j, word);
    let n = opening_name(b, j, word);
    if n >= 0 {
        let start = j + 1 + element_name(n).len();
        lemma_scan_to_after_prefix(x, b, start, nothing(), single('>'));
        let g = scan_to(b, start, nothing(), single('>'));
        if g >= 0 {
            let want = if same {
                n
            } else {
                -1
            };
            lemma_scan_closing_after_prefix(x, b, g + 1, want);
            let c = scan_closing(b, g + 1, want);
            if c >= 0 {
                lemma_closing_after_prefix(x, b, c, want);
                assert(closing_len(b, c, want) >= 0) by {
                    lemma_scan_closing_found(b, g + 1, want);
                }
            }
        }
    }
}

/// `</` starts at `p` in `s`.
pub open spec fn closing_mark_at(s: Seq<char>, p: int) -> bool {
    s[p] == '<' && s[p + 1] == '/'
}

/// The element `<name attributes>inner</name>` of element name `n`.
pub open spec fn plain_element(n: int, attrs: Seq<char>, inner: Seq<char>) -> Seq<char> {
    "<"@ + element_name(n) + attrs + ">"@ + inner + close_tag(n)
}

/// A scan that meets neither its target nor a stop before `k`, and its
/// target at `k`, ends at `k`.
pub proof fn lemma_scan_to_reaches(
    s: Seq<char>,
    j: int,
    k: int,
    stop: spec_fn(char) -> bool,
    target: spec_fn(char) -> bool,
)
    requires
        0 <= j <= k < s.len(),
        forall|p: int| j <= p < k ==> !target(#[trigger] s[p]) && !stop(s[p]),
        target(s[k]),
    ensures
        scan_to(s, j, stop, target) == k,
    decreases k - j,
{
    if j < k {
        lemma_scan_to_reaches(s, j + 1, k, stop, target);
    }
}

proof fn lemma_scan_closing_reaches(s: Seq<char>, j: int, k: int, n: int)
    requires
        0 <= j <= k < s.len(),
        forall|p: int| j <= p < k ==> #[trigger] closing_len(s, p, n) < 0 && s[p] != '\n',
        closing_len(s, k, n) >= 0,
    ensures
        scan_closing(s, j, n) == k,
    decreases k - j,
{
    if j < k {
        lemma_scan_closing_reaches(s, j + 1, k, n);
    }
}

proof fn lemma_names()
    ensures
        "script"@ =~= seq!['s', 'c', 'r', 'i', 'p', 't'],
        "style"@ =~= seq!['s', 't', 'y', 'l', 'e'],
        "div"@ =~= seq!['d', 'i', 'v'],
        "a"@ =~= seq!['a'],
        "</"@ =~= seq!['<', '/'],
        ">"@ =~= seq!['>'],
        "<"@ =~= seq!['<'],
{
    reveal_strlit("script");
    reveal_strlit("style");
    reveal_strlit("div");
    reveal_strlit("a");
    reveal_strlit("</");
    reveal_strlit(">");
    reveal_strlit("<");
}

/// A closing tag starts with `</`.
proof fn lemma_close_tag_starts(m: int)
    ensures
        close_tag(m).len() >= 2,
        close_tag(m)[0] == '<',
        close_tag(m)[1] == '/',
{
    lemma_names();
}

/// `<name attributes>inner</name>` is matched whole, when the name ends at
/// a word boundary, the attributes hold no `>`, and `inner` holds no line
/// break and no `</`.
pub proof fn lemma_plain_element_matches(
    n: int,
    attrs: Seq<char>,
    inner: Seq<char>,
    b: Seq<char>,
    word: spec_fn(char) -> bool,
    same: bool,
)
    requires
        0 <= n < 4,
        forall|p: int| 0 <= p < attrs.len() ==> attrs[p] != '>',
        attrs.len() > 0 ==> !word(attrs[0]),
        attrs.len() == 0 ==> !word('>'),
        forall|p: int| 0 <= p < inner.len() ==> inner[p] != '\n',
        forall|p: int| 0 <= p < inner.len() - 1 ==> !closing_mark_at(inner, p),
    ensures
        element_end(plain_element(n, attrs, inner) + b, 0, word, same) == plain_element(
            n,
            attrs,
            inner,
        ).len(),
{
    lemma_names();
    let name = element_name(n);
    let ct = close_tag(n);
    let x = plain_element(n, attrs, inner);
    let s = x + b;
    let l = name.len() as int;
    let a = attrs.len() as int;
    let g = 1 + l + a;
    let st = g + 1;
    let k = st + inner.len();
    assert(x.len() == k + ct.len());
    assert(s[0] == '<');
    assert forall|q: int| 0 <= q < l implies #[trigger] s[1 + q] == name[q] by {
        assert(s[1 + q] == x[1 + q]);
    }
    assert forall|q: int| 0 <= q < a implies #[trigger] s[1 + l + q] == attrs[q] by {
        assert(s[1 + l + q] == x[1 + l + q]);
    }
    assert(s[g] == '>');
    assert forall|q: int| 0 <= q < inner.len() implies #[trigger] s[st + q] == inner[q] by {
        assert(s[st + q] == x[st + q]);
    }
    assert forall|q: int| 0 <= q < ct.len() implies #[trigger] s[k + q] == ct[q] by {
        assert(s[k + q] == x[k + q]);
    }
    // the opening name
    assert(s.subrange(1, 1 + l) =~= name);
    assert(occurs_at(s, 1, name));
    if a > 0 {
        assert(s[1 + l] == attrs[0]);
    }
    assert(boundary_at(s, 1 + l, word));
    assert(opens_as(s, 0, n, word));
    if n > 0 {
        assert(!occurs_at(s, 1, element_name(0))) by {
            if occurs_at(s, 1, element_name(0)) {
                assert(s.subrange(1, 7)[0] == 's');
                assert(s.subrange(1, 7)[1] == 'c');
            }
        }
    }
    if n > 1 {
        assert(!occurs_at(s, 1, element_name(1))) by {
            if occurs_at(s, 1, element_name(1)) {
                assert(s.subrange(1, 6)[0] == 's');
            }
        }
    }
    if n > 2 {
        assert(!occurs_at(s, 1, element_name(2))) by {
            if occurs_at(s, 1, element_name(2)) {
                assert(s.subrange(1, 4)[0] == 'd');
            }
        }
    }
    assert(opening_name(s, 0, word) == n);
    // the end of the opening tag
    lemma_scan_to_reaches(s, 1 + l, g, nothing(), single('>'));
    // the closing tag
    let want = if same {
        n
    } else {
        -1
    };
    assert forall|p: int| st <= p < k implies #[trigger] closing_len(s, p, want) < 0 && s[p]
        != '\n' by {
        assert(s[p] == inner[p - st]);
        assert forall|m: int| 0 <= m < 4 implies !occurs_at(s, p, close_tag(m)) by {
            lemma_close_tag_starts(m);
            if occurs_at(s, p, close_tag(m)) {
                assert(s[p] == s.subrange(p, p + close_tag(m).len())[0]);
                assert(s[p + 1] == s.subrange(p, p + close_tag(m).len())[1]);
                if p + 1 < k {
                    assert(s[p + 1] == inner[p + 1 - st]);
                    assert(closing_mark_at(inner, p - st));
                } else {
                    assert(s[p + 1] == ct[0]);
                }
            }
        }
        if want >= 0 {
            assert(!occurs_at(s, p, close_tag(want)));
        }
    }
    assert(s.subrange(k, k + ct.len()) =~= ct);
    assert(occurs_at(s, k, ct));
    if !same {
        if n > 0 {
            assert(!occurs_at(s, k, close_tag(0))) by {
                if occurs_at(s, k, close_tag(0)) {
                    assert(s.subrange(k, k + 9)[2] == 's');
                    assert(s.subrange(k, k + 9)[3] == 'c');
                }
            }
        }
        if n > 1 {
            assert(!occurs_at(s, k, close_tag(1))) by {
                if occurs_at(s, k, close_tag(1)) {
                    assert(s.subrange(k, k + 8)[2] == 's');
                }
            }
        }
        if n > 2 {
            assert(!occurs_at(s, k, close_tag(2))) by {
                if occurs_at(s, k, close_tag(2)) {
                    assert(s.subrange(k, k + 6)[2] == 'd');
                }
            }
        }
    }
    assert(closing_len(s, k, want) == ct.len());
    lemma_scan_closing_reaches(s, st, k, want);
}

/// Where `scan_closing` stops, a closing tag is.
pub proof fn lemma_scan_closing_found(s: Seq<char>, j: int, n: int)
    ensures
        scan_closing(s, j, n) >= 0 ==> closing_len(s, scan_closing(s, j, n), n) >= 0,
    decreases s.len() - j,
{
    if 0 <= j < s.len() && closing_len(s, j, n) < 0 && s[j] != '\n' {
        lemma_scan_closing_found(s, j + 1, n);
    }
}

fn element_name_chars(n: usize) -> (v: Vec<char>)
    requires
        n < 4,
    ensures
        v@ == element_name(n as int),
{
    if n == 0 {
        chars_of("script")
    } else if n == 1 {
        chars_of("style")
    } else if n == 2 {
        chars_of("div")
    } else {
        chars_of("a")
    }
}

fn close_tag_chars(n: usize) -> (v: Vec<char>)
    requires
        n < 4,
    ensures
        v@ == close_tag(n as int),
        v@.len() > 0,
{
    let mut v = chars_of("</");
    let name = element_name_chars(n);
    crate::text::push_all(&mut v, &name);
    let gt = chars_of(">");
    crate::text::push_all(&mut v, &gt);
    proof {
        reveal_strlit("</");
    }
    v
}

fn closing_len_exec(s: &Vec<char>, j: usize, n: Option<usize>) -> (r: Option<usize>)
    requires
        match n {
            Some(k) => k < 4,
            None => true,
        },
    ensures
        match r {
            Some(l) => l as int == closing_len(s@, j as int, match n {
                Some(k) => k as int,
                None => -1,
            }) && l > 0 && j + l <= s.len(),
            None => closing_len(s@, j as int, match n {
                Some(k) => k as int,
                None => -1,
            }) == -1,
        },
{
    match n {
        Some(k) => {
            let t = close_tag_chars(k);
            if starts_at(s, j, &t) {
                Some(t.len())
            } else {
                None
            }
        },
        None => {
            let t0 = close_tag_chars(0);
            if starts_at(s, j, &t0) {
                return Some(t0.len());
            }
            let t1 = close_tag_chars(1);
            if starts_at(s, j, &t1) {
                return Some(t1.len());
            }
            let t2 = close_tag_chars(2);
            if starts_at(s, j, &t2) {
                return Some(t2.len());
            }
            let t3 = close_tag_chars(3);
            if starts_at(s, j, &t3) {
                return Some(t3.len());
            }
            None
        },
    }
}

fn find_closing(s: &Vec<char>, j: usize, n: Option<usize>) -> (r: Option<(usize, usize)>)
    requires
        match n {
            Some(k) => k < 4,
            None => true,
        },
    ensures
        ({
            let want = match n {
                Some(k) => k as int,
                None => -1,
            };
            match r {
                Some((c, l)) => j <= c && c as int == scan_closing(s@, j as int, want) && l as int
                    == closing_len(s@, c as int, want) && l > 0 && c + l <= s.len(),
                None => scan_closing(s@, j as int, want) == -1,
            }
        }),
{
    let ghost want = match n {
        Some(k) => k as int,
        None => -1,
    };
    let mut p = j;
    while p < s.len()
        invariant
            j <= p,
            match n {
                Some(k) => k < 4,
                None => true,
            },
            want == match n {
                Some(k) => k as int,
                None => -1,
            },
            scan_closing(s@, j as int, want) == scan_closing(s@, p as int, want),
        decreases s.len() - p,
    {
        match closing_len_exec(s, p, n) {
            Some(l) => {
                return Some((p, l));
            },
            None => {},
        }
        if s[p] == '\n' {
            return None;
        }
        p = p + 1;
    }
    None
}

fn opening_name_exec<F: Fn(char) -> bool>(
    s: &Vec<char>,
    i: usize,
    word: F,
    Ghost(w): Ghost<spec_fn(char) -> bool>,
) -> (r: Option<usize>)
    requires
        i < s.len(),
        crate::scan::decides(word, w),
    ensures
        match r {
            Some(n) => n < 4 && n as int == opening_name(s@, i as int, w),
            None => opening_name(s@, i as int, w) == -1,
        },
{
    if s[i] != '<' {
        return None;
    }
    let mut n: usize = 0;
    while n < 4
        invariant
            n <= 4,
            i < s.len(),
            s@[i as int] == '<',
            crate::scan::decides(word, w),
            forall|t: int| 0 <= t < n ==> !opens_as(s@, i as int, t, w),
        decreases 4 - n,
    {
        let name = element_name_chars(n);
        if starts_at(s, i + 1, &name) {
            let p = i + 1 + name.len();
            if p >= s.len() || !word(s[p]) {
                return Some(n);
            }
        }
        n = n + 1;
    }
    None
}

fn match_element<F: Fn(char) -> bool>(
    s: &Vec<char>,
    i: usize,
    word: F,
    Ghost(w): Ghost<spec_fn(char) -> bool>,
    same: bool,
) -> (r: Option<usize>)
    requires
        i < s.len(),
        crate::scan::decides(word, w),
    ensures
        match r {
            Some(e) => i < e <= s.len() && element_end(s@, i as int, w, same) == e,
            None => !(i < element_end(s@, i as int, w, same) <= s.len()),
        },
{
    let n = match opening_name_exec(s, i, word, Ghost(w)) {
        Some(n) => n,
        None => {
            return None;
        },
    };
    let name = element_name_chars(n);
    let g = match find_forward(
        s,
        i + 1 + name.len(),
        is_nothing,
        is_gt,
        Ghost(nothing()),
        Ghost(single('>')),
    ) {
        Some(g) => g,
        None => {
            return None;
        },
    };
    let want = if same {
        Some(n)
    } else {
        None
    };
    let ghost want_n: int = if same {
        n as int
    } else {
        -1
    };
    assert(want_n == match want {
        Some(k) => k as int,
        None => -1,
    });
    match find_closing(s, g + 1, want) {
        Some((c, l)) => {
            assert(element_end(s@, i as int, w, same) == c + l);
            Some(c + l)
        },
        None => None,
    }
}

/// The elements that biquge chapter text drops: a `script`, `style`, `div`
/// or `a` element, from its opening tag (the name ending at an ASCII word
/// boundary, as `regex_lite` reads `\b`) through the nearest closing tag of
/// the same name, with no line break in between. The site's rule names these
/// four elements and asks for the closing tag to repeat the opening name,
/// which a pattern can only say with a back-reference (`<(script|style|div|a)\b[^>]*>.*?</\1>`);
/// `regex_lite` refuses back-references, so the rule is kept here as a
/// matcher of its own.
pub open spec fn same_named_element() -> spec_fn(Seq<char>, int) -> int {
    |s: Seq<char>, i: int| element_end(s, i, ascii_word(), true)
}

pub fn match_same_named_element(s: &Vec<char>, i: usize) -> (r: Option<usize>)
    requires
        i < s.len(),
    ensures
        reports(same_named_element(), s@, i as int, r),
{
    match_element(s, i, is_ascii_word, Ghost(ascii_word()), true)
}


/// A bracketed prefix: `[` at the very start, then the fewest characters up
/// to `]`, none of them a line break (`^\[.*?\]`).
pub open spec fn bracket_prefix_end(s: Seq<char>, i: int) -> int {
    if i == 0 && s.len() > 0 && s[0] == '[' {
        let k = scan_to(s, 1, newline(), single(']'));
        if k >= 0 {
            k + 1
        } else {
            -1
        }
    } else {
        -1
    }
}

pub open spec fn bracket_prefix() -> spec_fn(Seq<char>, int) -> int {
    |s: Seq<char>, i: int| bracket_prefix_end(s, i)
}

pub fn match_bracket_prefix(s: &Vec<char>, i: usize) -> (r: Option<usize>)
    requires
        i < s.len(),
    ensures
        reports(bracket_prefix(), s@, i as int, r),
{
    if i != 0 || s[0] != '[' {
        return None;
    }
    match find_forward(s, 1, is_newline, is_close_bracket, Ghost(newline()), Ghost(single(']'))) {
        Some(k) => Some(k + 1),
        None => None,
    }
}

/// A book-name suffix: `-《`, then the most characters up to `》`, none of
/// them a line break (`-《.*》`).
pub open spec fn book_suffix_end(s: Seq<char>, i: int) -> int {
    if occurs_at(s, i, "-《"@) {
        let k = scan_last(s, i + "-《"@.len(), newline(), single('》'), -1);
        if k >= 0 {
            k + 1
        } else {
            -1
        }
    } else {
        -1
    }
}

pub open spec fn book_suffix() -> spec_fn(Seq<char>, int) -> int {
    |s: Seq<char>, i: int| book_suffix_end(s, i)
}

pub fn match_book_suffix(s: &Vec<char>, i: usize) -> (r: Option<usize>)
    requires
        i < s.len(),
    ensures
        reports(book_suffix(), s@, i as int, r),
{
    let mark = chars_of("-《");
    proof {
        reveal_strlit("-《");
    }
    if !starts_at(s, i, &mark) {
        return None;
    }
    match find_last(
        s,
        i + mark.len(),
        is_newline,
        is_close_title_mark,
        Ghost(newline()),
        Ghost(single('》')),
    ) {
        Some(k) => Some(k + 1),
        None => None,
    }
}

/// A "chapter continues" notice: `本章未完` and the rest of its line
/// (`本章未完.*`).
pub open spec fn unfinished_notice_end(s: Seq<char>, i: int) -> int {
    if occurs_at(s, i, "本章未完"@) {
        let k = scan_to(s, i + "本章未完"@.len(), nothing(), newline());
        if k >= 0 {
            k
        } else {
            s.len() as int
        }
    } else {
        -1
    }
}

pub open spec fn unfinished_notice() -> spec_fn(Seq<char>, int) -> int {
    |s: Seq<char>, i: int| unfinished_notice_end(s, i)
}

pub fn match_unfinished_notice(s: &Vec<char>, i: usize) -> (r: Option<usize>)
    requires
        i < s.len(),
    ensures
        reports(unfinished_notice(), s@, i as int, r),
{
    let mark = chars_of("本章未完");
    proof {
        reveal_strlit("本章未完");
    }
    if !starts_at(s, i, &mark) {
        return None;
    }
    match find_forward(s, i + mark.len(), is_nothing, is_newline, Ghost(nothing()), Ghost(newline())) {
        Some(k) => Some(k),
        None => Some(s.len()),
    }
}

/// A page marker such as `第(1/2)页`: `第`, white space, an optional `(`,
/// white space, digits, white space, `/`, white space, digits, white space,
/// an optional `)`, white space, `页`, with Unicode white space and decimal
/// digits (`第\s*\(?\s*\d+\s*/\s*\d+\s*\)?\s*页` in the `regex` crate). Each
/// part's class is disjoint from the next one's, so the greedy reading below
/// is the only one.
pub open spec fn page_marker_end(s: Seq<char>, i: int) -> int {
    if 0 <= i < s.len() && s[i] == '第' {
        let a = skip_while(s, i + 1, unicode_space());
        let b = if a < s.len() && s[a] == '(' {
            a + 1
        } else {
            a
        };
        let c = skip_while(s, b, unicode_space());
        let d = skip_while(s, c, decimal_digit());
        let e = skip_while(s, d, unicode_space());
        if d > c && e < s.len() && s[e] == '/' {
            let f = skip_while(s, e + 1, unicode_space());
            let g = skip_while(s, f, decimal_digit());
            let h = skip_while(s, g, unicode_space());
            let h2 = if h < s.len() && s[h] == ')' {
                h + 1
            } else {
                h
            };
            let k = skip_while(s, h2, unicode_space());
            if g > f && k < s.len() && s[k] == '页' {
                k + 1
            } else {
                -1
            }
        } else {
            -1
        }
    } else {
        -1
    }
}

pub open spec fn page_marker() -> spec_fn(Seq<char>, int) -> int {
    |s: Seq<char>, i: int| page_marker_end(s, i)
}

pub fn match_page_marker(s: &Vec<char>, i: usize) -> (r: Option<usize>)
    requires
        i < s.len(),
    ensures
        reports(page_marker(), s@, i as int, r),
{
    if s[i] != '第' {
        return None;
    }
    let a = skip_forward(s, i + 1, is_unicode_space, Ghost(unicode_space()));
    let b = if a < s.len() && s[a] == '(' {
        a + 1
    } else {
        a
    };
    let c = skip_forward(s, b, is_unicode_space, Ghost(unicode_space()));
    let d = skip_forward(s, c, is_decimal_digit, Ghost(decimal_digit()));
    let e = skip_forward(s, d, is_unicode_space, Ghost(unicode_space()));
    if !(d > c && e < s.len() && s[e] == '/') {
        return None;
    }
    let f = skip_forward(s, e + 1, is_unicode_space, Ghost(unicode_space()));
    let g = skip_forward(s, f, is_decimal_digit, Ghost(decimal_digit()));
    let h = skip_forward(s, g, is_unicode_space, Ghost(unicode_space()));
    let h2 = if h < s.len() && s[h] == ')' {
        h + 1
    } else {
        h
    };
    let k = skip_forward(s, h2, is_unicode_space, Ghost(unicode_space()));
    if g > f && k < s.len() && s[k] == '页' {
        Some(k + 1)
    } else {
        None
    }
}

/// A run of three or more line breaks (`\n{3,}`).
pub open spec fn blank_run_end(s: Seq<char>, i: int) -> int {
    if 0 <= i < s.len() && s[i] == '\n' {
        let k = skip_while(s, i, newline());
        if k - i >= 3 {
            k
        } else {
            -1
        }
    } else {
        -1
    }
}

pub open spec fn blank_run() -> spec_fn(Seq<char>, int) -> int {
    |s: Seq<char>, i: int| blank_run_end(s, i)
}

pub fn match_blank_run(s: &Vec<char>, i: usize) -> (r: Option<usize>)
    requires
        i < s.len(),
    ensures
        reports(blank_run(), s@, i as int, r),
{
    if s[i] != '\n' {
        return None;
    }
    let k = skip_forward(s, i, is_newline, Ghost(newline()));
    if k - i >= 3 {
        Some(k)
    } else {
        None
    }
}


/// The elements that qixinge chapter text drops: any of the four closing
/// names ends one, and the word boundary is the `regex` crate's Unicode one.
pub open spec fn any_named_element() -> spec_fn(Seq<char>, int) -> int {
    |s: Seq<char>, i: int| element_end(s, i, unicode_word(), false)
}

pub fn match_any_named_element(s: &Vec<char>, i: usize) -> (r: Option<usize>)
    requires
        i < s.len(),
    ensures
        reports(any_named_element(), s@, i as int, r),
{
    match_element(s, i, is_unicode_word, Ghost(unicode_word()), false)
}


/// One colon, ASCII `:` or full-width `：`.
pub open spec fn colon_end(s: Seq<char>, i: int) -> int {
    if 0 <= i < s.len() && (s[i] == ':' || s[i] == '：') {
        i + 1
    } else {
        -1
    }
}

pub open spec fn colon() -> spec_fn(Seq<char>, int) -> int {
    |s: Seq<char>, i: int| colon_end(s, i)
}

pub fn match_colon(s: &Vec<char>, i: usize) -> (r: Option<usize>)
    requires
        i < s.len(),
    ensures
        reports(colon(), s@, i as int, r),
{
    if s[i] == ':' || s[i] == '：' {
        Some(i + 1)
    } else {
        None
    }
}

} // verus!
