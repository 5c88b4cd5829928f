//! Scope CSS selectors by appending `[data-s="…"]`.
//!
//! Expects flattened CSS. Handles `@media` / `@supports` / `@layer` by scoping
//! the block body; leaves `@keyframes` / `@font-face` / `@property` (and the
//! other descriptor at-rules) alone.

use vstd::prelude::*;
use vstd::slice::slice_subrange;

use crate::text::{
    char_is_ws, chars_of, find_at, find_from, has_prefix, is_ws, join, lower, lower_seq,
    split_on, split_ranges, string_of, trim, trim_range, trim_start, trim_start_char,
};

verus! {

// ---------------------------------------------------------------------------
// Specification

/// `[data-s="id"]`.
pub open spec fn marker(id: Seq<char>) -> Seq<char> {
    "[data-s=\""@ + id + "\"]"@
}

/// One selector with the scope marker appended (unless it already has it).
pub open spec fn scope_selector(s: Seq<char>, id: Seq<char>) -> Seq<char> {
    if find_from(s, marker(id), 0) is Some {
        s
    } else {
        s + marker(id)
    }
}

/// A scoped selector starts with the selector as written and carries the
/// scope marker; one that already carried it is left as it was.
pub proof fn law_scoped_selector_carries_marker(s: Seq<char>, id: Seq<char>)
    ensures
        find_from(scope_selector(s, id), marker(id), 0) is Some,
        scope_selector(s, id).take(s.len() as int) == s,
        find_from(s, marker(id), 0) is Some ==> scope_selector(s, id) == s,
{
    let m = marker(id);
    if find_from(s, m, 0) is None {
        let r = s + m;
        assert(r.subrange(s.len() as int, s.len() as int + m.len()) =~= m);
        assert(crate::text::match_at(r, m, s.len() as int));
        crate::text::lemma_find_from_bounds(r, m, 0);
        assert(r.take(s.len() as int) =~= s);
    } else {
        assert(s.take(s.len() as int) =~= s);
    }
}

/// Trimmed, non-empty selectors of a list, each scoped.
pub open spec fn scoped_parts(pieces: Seq<Seq<char>>, id: Seq<char>) -> Seq<Seq<char>>
    decreases pieces.len(),
{
    if pieces.len() == 0 {
        Seq::empty()
    } else {
        let t = trim(pieces[0]);
        let rest = scoped_parts(pieces.drop_first(), id);
        if t.len() == 0 {
            rest
        } else {
            seq![scope_selector(t, id)] + rest
        }
    }
}

/// A comma-separated selector list with every selector scoped.
pub open spec fn scope_selector_list_spec(selectors: Seq<char>, id: Seq<char>) -> Seq<char> {
    join(scoped_parts(split_on(selectors, ','), id), ", "@)
}

/// `u8::is_ascii_whitespace` (space, tab, LF, FF, CR).
pub open spec fn css_ws(c: char) -> bool {
    c == ' ' || c == '\t' || c == '\n' || c == '\x0C' || c == '\r'
}

/// End of the ASCII-whitespace run starting at `i`.
pub open spec fn ws_end(b: Seq<char>, i: int) -> int
    decreases b.len() - i,
{
    if 0 <= i < b.len() && css_ws(b[i]) {
        ws_end(b, i + 1)
    } else {
        i
    }
}

/// The character before `i`, or `b[0]` at the start.
pub open spec fn prev_char(b: Seq<char>, i: int) -> char {
    if i >= 1 {
        b[i - 1]
    } else {
        b[0]
    }
}

/// First `{` at nesting depth 0 from `i`, skipping quoted strings.
pub open spec fn brace_scan(b: Seq<char>, i: int, depth: nat, q: Option<char>) -> Option<int>
    decreases b.len() - i,
{
    if i < 0 || i >= b.len() {
        None
    } else {
        let c = b[i];
        match q {
            Some(qc) => if c == qc && prev_char(b, i) != '\\' {
                brace_scan(b, i + 1, depth, None)
            } else {
                brace_scan(b, i + 1, depth, q)
            },
            None => if c == '"' || c == '\'' {
                brace_scan(b, i + 1, depth, Some(c))
            } else if c == '{' {
                if depth == 0 {
                    Some(i)
                } else {
                    brace_scan(b, i + 1, depth + 1, None)
                }
            } else if c == '}' {
                brace_scan(b, i + 1, if depth > 0 { (depth - 1) as nat } else { 0 }, None)
            } else {
                brace_scan(b, i + 1, depth, None)
            },
        }
    }
}

/// The `}` matching the brace count from `i` (started at an opening `{`).
pub open spec fn match_scan(b: Seq<char>, i: int, depth: int, q: Option<char>) -> Option<int>
    decreases b.len() - i,
{
    if i < 0 || i >= b.len() {
        None
    } else {
        let c = b[i];
        match q {
            Some(qc) => if c == qc && (i == 0 || b[i - 1] != '\\') {
                match_scan(b, i + 1, depth, None)
            } else {
                match_scan(b, i + 1, depth, q)
            },
            None => if c == '"' || c == '\'' {
                match_scan(b, i + 1, depth, Some(c))
            } else if c == '{' {
                match_scan(b, i + 1, depth + 1, None)
            } else if c == '}' {
                if depth - 1 == 0 {
                    Some(i)
                } else {
                    match_scan(b, i + 1, depth - 1, None)
                }
            } else {
                match_scan(b, i + 1, depth, None)
            },
        }
    }
}

/// Index of the first whitespace character.
pub open spec fn ws_index(s: Seq<char>) -> Option<int>
    decreases s.len(),
{
    if s.len() == 0 {
        None
    } else if is_ws(s[0]) {
        Some(0)
    } else {
        match ws_index(s.drop_first()) {
            Some(k) => Some(k + 1),
            None => None,
        }
    }
}

/// Index of the first `(`.
pub open spec fn paren_index(s: Seq<char>) -> Option<int>
    decreases s.len(),
{
    if s.len() == 0 {
        None
    } else if s[0] == '(' {
        Some(0)
    } else {
        match paren_index(s.drop_first()) {
            Some(k) => Some(k + 1),
            None => None,
        }
    }
}

/// First whitespace-separated word (`split_whitespace().next()`), or empty.
pub open spec fn first_word(s: Seq<char>) -> Seq<char> {
    let t = trim_start(s);
    match ws_index(t) {
        Some(k) => t.take(k),
        None => t,
    }
}

/// At-rule name: first word after the `@`s, cut at `(`.
pub open spec fn at_rule_name_spec(prelude: Seq<char>) -> Seq<char> {
    let w = first_word(trim_start_char(trim_start(prelude), '@'));
    match paren_index(w) {
        Some(k) => w.take(k),
        None => w,
    }
}

/// At-rules whose bodies hold no selectors.
pub open spec fn passthrough_spec(name: Seq<char>) -> bool {
    let n = lower_seq(name);
    n == "keyframes"@ || n == "-webkit-keyframes"@ || n == "-moz-keyframes"@ || n == "font-face"@
        || n == "property"@ || n == "counter-style"@ || n == "font-feature-values"@ || n
        == "page"@ || n == "color-profile"@
}

/// The at-rules whose blocks are copied unscoped are exactly the
/// keyframes, font-face, property, counter-style, font-feature-values, page
/// and color-profile rules (any ASCII case); every other at-rule block, such
/// as `@media`, `@supports`, `@layer` or `@container`, has its rules scoped.
pub proof fn law_passthrough_at_rules(name: Seq<char>)
    ensures
        passthrough_spec(name) <==> ({
            let n = lower_seq(name);
            n == "keyframes"@ || n == "-webkit-keyframes"@ || n == "-moz-keyframes"@ || n == "font-face"@
                || n == "property"@ || n == "counter-style"@ || n == "font-feature-values"@ || n == "page"@
                || n == "color-profile"@
        }),
        lower_seq(name) == "supports"@ || lower_seq(name) == "media"@ || lower_seq(name) == "layer"@
            || lower_seq(name) == "container"@ ==> !passthrough_spec(name),
{
    reveal_strlit("keyframes");
    reveal_strlit("-webkit-keyframes");
    reveal_strlit("-moz-keyframes");
    reveal_strlit("font-face");
    reveal_strlit("property");
    reveal_strlit("counter-style");
    reveal_strlit("font-feature-values");
    reveal_strlit("page");
    reveal_strlit("color-profile");
    reveal_strlit("supports");
    reveal_strlit("media");
    reveal_strlit("layer");
    reveal_strlit("container");
    if lower_seq(name) == "supports"@ {
        assert("supports"@.len() != "keyframes"@.len());
        assert("supports"@.len() != "-webkit-keyframes"@.len());
        assert("supports"@.len() != "-moz-keyframes"@.len());
        assert("supports"@.len() != "font-face"@.len());
        assert("supports"@[0] != "property"@[0]);
        assert("supports"@.len() != "counter-style"@.len());
        assert("supports"@.len() != "font-feature-values"@.len());
        assert("supports"@.len() != "page"@.len());
        assert("supports"@.len() != "color-profile"@.len());
    }
    if lower_seq(name) == "media"@ {
        assert("media"@.len() != "keyframes"@.len());
        assert("media"@.len() != "-webkit-keyframes"@.len());
        assert("media"@.len() != "-moz-keyframes"@.len());
        assert("media"@.len() != "font-face"@.len());
        assert("media"@.len() != "property"@.len());
        assert("media"@.len() != "counter-style"@.len());
        assert("media"@.len() != "font-feature-values"@.len());
        assert("media"@.len() != "page"@.len());
        assert("media"@.len() != "color-profile"@.len());
    }
    if lower_seq(name) == "layer"@ {
        assert("layer"@.len() != "keyframes"@.len());
        assert("layer"@.len() != "-webkit-keyframes"@.len());
        assert("layer"@.len() != "-moz-keyframes"@.len());
        assert("layer"@.len() != "font-face"@.len());
        assert("layer"@.len() != "property"@.len());
        assert("layer"@.len() != "counter-style"@.len());
        assert("layer"@.len() != "font-feature-values"@.len());
        assert("layer"@.len() != "page"@.len());
        assert("layer"@.len() != "color-profile"@.len());
    }
    if lower_seq(name) == "container"@ {
        assert("container"@[0] != "keyframes"@[0]);
        assert("container"@.len() != "-webkit-keyframes"@.len());
        assert("container"@.len() != "-moz-keyframes"@.len());
        assert("container"@[0] != "font-face"@[0]);
        assert("container"@.len() != "property"@.len());
        assert("container"@.len() != "counter-style"@.len());
        assert("container"@.len() != "font-feature-values"@.len());
        assert("container"@.len() != "page"@.len());
        assert("container"@.len() != "color-profile"@.len());
    }
}

/// Scoped output for `css` from index `i`: whitespace is kept, each rule's
/// selector list is scoped, grouping at-rules are scoped recursively, and
/// text without a complete block is copied unchanged.
pub open spec fn scope_from(css: Seq<char>, i: int, id: Seq<char>) -> Seq<char>
    decreases css.len(), css.len() + 1 - i,
{
    if i < 0 || i >= css.len() {
        Seq::empty()
    } else {
        let j = ws_end(css, i);
        if !(i <= j <= css.len()) {
            Seq::empty()
        } else {
            let ws = css.subrange(i, j);
            if j >= css.len() {
                ws
            } else {
                match brace_scan(css, j, 0, None) {
                    None => ws + css.subrange(j, css.len() as int),
                    Some(open) => match match_scan(css, open, 0, None) {
                        None => ws + css.subrange(j, css.len() as int),
                        Some(close) => if j <= open < close < css.len() {
                            let prelude = trim(css.subrange(j, open));
                            let body = css.subrange(open + 1, close);
                            let piece = if prelude.len() > 0 && prelude[0] == '@' {
                                if passthrough_spec(at_rule_name_spec(prelude)) {
                                    prelude + " {"@ + body + "}"@
                                } else {
                                    prelude + " {"@ + scope_block_spec(body, id) + "}"@
                                }
                            } else {
                                scope_selector_list_spec(prelude, id) + " {"@ + body + "}"@
                            };
                            ws + piece + scope_from(css, close + 1, id)
                        } else {
                            Seq::empty()
                        },
                    },
                }
            }
        }
    }
}

/// Scoped CSS text.
pub open spec fn scope_block_spec(css: Seq<char>, id: Seq<char>) -> Seq<char>
    decreases css.len(), css.len() + 2,
{
    scope_from(css, 0, id)
}

// ---------------------------------------------------------------------------
// Implementation

fn is_css_ws(c: char) -> (r: bool)
    ensures
        r == css_ws(c),
{
    c == ' ' || c == '\t' || c == '\n' || c == '\x0C' || c == '\r'
}

fn skip_ws(b: &[char], i: usize) -> (r: usize)
    requires
        i <= b@.len(),
    ensures
        r == ws_end(b@, i as int),
        i <= r <= b@.len(),
{
    let mut j = i;
    while j < b.len() && is_css_ws(b[j])
        invariant
            i <= j <= b@.len(),
            ws_end(b@, i as int) == ws_end(b@, j as int),
        decreases b@.len() - j,
    {
        j += 1;
    }
    j
}

fn find_open_brace(b: &[char], from: usize) -> (r: Option<usize>)
    requires
        b@.len() <= isize::MAX,
    ensures
        match r {
            Some(k) => brace_scan(b@, from as int, 0, None) == Some(k as int) && from <= k < b@.len() && b@[k as int] == '{',
            None => brace_scan(b@, from as int, 0, None) is None,
        },
{
    let mut depth: usize = 0;
    let mut q: Option<char> = None;
    let mut i = from;
    while i < b.len()
        invariant
            from <= i,
            b@.len() <= isize::MAX,
            depth <= i - from,
            brace_scan(b@, from as int, 0, None) == brace_scan(b@, i as int, depth as nat, q),
        decreases b@.len() - i,
    {
        let c = b[i];
        match q {
            Some(qc) => {
                let prev = if i >= 1 { b[i - 1] } else { b[0] };
                if c == qc && prev != '\\' {
                    q = None;
                }
            },
            None => {
                if c == '"' || c == '\'' {
                    q = Some(c);
                } else if c == '{' {
                    if depth == 0 {
                        return Some(i);
                    }
                    depth += 1;
                } else if c == '}' {
                    if depth > 0 {
                        depth -= 1;
                    }
                }
            },
        }
        i += 1;
    }
    None
}

fn find_matching_brace(b: &[char], open: usize) -> (r: Option<usize>)
    requires
        b@.len() <= isize::MAX,
        open < b@.len(),
        b@[open as int] == '{',
    ensures
        match r {
            Some(k) => match_scan(b@, open as int, 0, None) == Some(k as int) && open < k < b@.len(),
            None => match_scan(b@, open as int, 0, None) is None,
        },
{
    let mut depth: usize = 0;
    let mut q: Option<char> = None;
    let mut i = open;
    while i < b.len()
        invariant
            open <= i,
            b@.len() <= isize::MAX,
            open < b@.len(),
            b@[open as int] == '{',
            depth <= i - open,
            (i == open && depth == 0 && q is None) || (i > open && depth >= 1),
            match_scan(b@, open as int, 0, None) == match_scan(b@, i as int, depth as int, q),
        decreases b@.len() - i,
    {
        let c = b[i];
        match q {
            Some(qc) => {
                if c == qc && (i == 0 || b[i - 1] != '\\') {
                    q = None;
                }
            },
            None => {
                if c == '"' || c == '\'' {
                    q = Some(c);
                } else if c == '{' {
                    depth += 1;
                } else if c == '}' {
                    if depth - 1 == 0 {
                        return Some(i);
                    }
                    depth -= 1;
                }
            },
        }
        i += 1;
    }
    None
}

/// At-rule name bounds inside `p[a..b]` (the trimmed prelude).
fn at_rule_name_range(p: &[char], a: usize, b: usize) -> (r: (usize, usize))
    requires
        a <= b <= p@.len(),
    ensures
        a <= r.0 <= r.1 <= b,
        p@.subrange(r.0 as int, r.1 as int) == at_rule_name_spec(p@.subrange(a as int, b as int)),
{
    let ghost s = p@.subrange(a as int, b as int);
    // trim_start
    let mut i = a;
    while i < b && char_is_ws(p[i])
        invariant
            a <= i <= b <= p@.len(),
            trim_start(s) == trim_start(p@.subrange(i as int, b as int)),
        decreases b - i,
    {
        proof {
            assert(p@.subrange(i as int, b as int).drop_first() =~= p@.subrange(i + 1, b as int));
        }
        i += 1;
    }
    proof {
        assert(s =~= p@.subrange(a as int, b as int));
        if i < b {
            assert(p@.subrange(i as int, b as int)[0] == p@[i as int]);
        }
        assert(trim_start(s) == p@.subrange(i as int, b as int));
    }
    // trim '@'
    let k = crate::text::skip_char_run(p, i, b, '@');
    // trim_start again for split_whitespace
    let mut w = k;
    while w < b && char_is_ws(p[w])
        invariant
            k <= w <= b <= p@.len(),
            trim_start(p@.subrange(k as int, b as int)) == trim_start(p@.subrange(w as int, b as int)),
        decreases b - w,
    {
        proof {
            assert(p@.subrange(w as int, b as int).drop_first() =~= p@.subrange(w + 1, b as int));
        }
        w += 1;
    }
    proof {
        if w < b {
            assert(p@.subrange(w as int, b as int)[0] == p@[w as int]);
        }
        assert(trim_start(p@.subrange(k as int, b as int)) == p@.subrange(w as int, b as int));
    }
    // first word
    let mut e = w;
    proof {
        assert(p@.subrange(w as int, b as int).skip(0) =~= p@.subrange(w as int, b as int));
    }
    while e < b && !char_is_ws(p[e])
        invariant
            w <= e <= b <= p@.len(),
            ws_index(p@.subrange(w as int, b as int)) == match ws_index(p@.subrange(e as int, b as int)) {
                Some(x) => Some(x + (e - w)),
                None => None,
            },
        decreases b - e,
    {
        proof {
            assert(p@.subrange(e as int, b as int).drop_first() =~= p@.subrange(e + 1, b as int));
        }
        e += 1;
    }
    proof {
        if e < b {
            assert(p@.subrange(e as int, b as int)[0] == p@[e as int]);
            assert(p@.subrange(w as int, b as int).take(e - w) =~= p@.subrange(w as int, e as int));
        } else {
            assert(p@.subrange(e as int, b as int) =~= Seq::<char>::empty());
        }
    }
    // cut at '('
    let mut f = w;
    while f < e && p[f] != '('
        invariant
            w <= f <= e <= p@.len(),
            paren_index(p@.subrange(w as int, e as int)) == match paren_index(p@.subrange(f as int, e as int)) {
                Some(x) => Some(x + (f - w)),
                None => None,
            },
        decreases e - f,
    {
        proof {
            assert(p@.subrange(f as int, e as int).drop_first() =~= p@.subrange(f + 1, e as int));
        }
        f += 1;
    }
    proof {
        if f < e {
            assert(p@.subrange(f as int, e as int)[0] == p@[f as int]);
            assert(p@.subrange(w as int, e as int).take(f - w) =~= p@.subrange(w as int, f as int));
        } else {
            assert(p@.subrange(f as int, e as int) =~= Seq::<char>::empty());
        }
    }
    (w, f)
}

/// Whether the ASCII-lowercase form of `p[a..b]` equals `lit`.
fn lower_eq(p: &[char], a: usize, b: usize, lit: &str) -> (r: bool)
    requires
        a <= b <= p@.len(),
    ensures
        r == (lower_seq(p@.subrange(a as int, b as int)) == lit@),
{
    let lv = chars_of(lit);
    if lv.len() != b - a {
        proof {
            assert(lower_seq(p@.subrange(a as int, b as int)).len() == b - a);
        }
        return false;
    }
    let mut k: usize = 0;
    while k < lv.len()
        invariant
            lv@ == lit@,
            lv@.len() == b - a,
            a <= b <= p@.len(),
            k <= lv@.len(),
            forall|j: int| 0 <= j < k ==> lower(p@[a + j]) == lv@[j],
        decreases lv@.len() - k,
    {
        if crate::text::char_lower(p[a + k]) != lv[k] {
            proof {
                assert(lower_seq(p@.subrange(a as int, b as int))[k as int] != lit@[k as int]);
            }
            return false;
        }
        k += 1;
    }
    proof {
        assert(lower_seq(p@.subrange(a as int, b as int)) =~= lit@);
    }
    true
}

fn is_passthrough(p: &[char], a: usize, b: usize) -> (r: bool)
    requires
        a <= b <= p@.len(),
    ensures
        r == passthrough_spec(p@.subrange(a as int, b as int)),
{
    lower_eq(p, a, b, "keyframes") || lower_eq(p, a, b, "-webkit-keyframes") || lower_eq(p, a, b, "-moz-keyframes")
        || lower_eq(p, a, b, "font-face") || lower_eq(p, a, b, "property") || lower_eq(p, a, b, "counter-style")
        || lower_eq(p, a, b, "font-feature-values") || lower_eq(p, a, b, "page") || lower_eq(p, a, b, "color-profile")
}

/// Append `v[a..b]`.
fn push_range(out: &mut Vec<char>, v: &[char], a: usize, b: usize)
    requires
        a <= b <= v@.len(),
    ensures
        final(out)@ == old(out)@ + v@.subrange(a as int, b as int),
{
    let mut k = a;
    while k < b
        invariant
            a <= k <= b <= v@.len(),
            out@ == old(out)@ + v@.subrange(a as int, k as int),
        decreases b - k,
    {
        out.push(v[k]);
        k += 1;
        proof {
            assert(out@ =~= old(out)@ + v@.subrange(a as int, k as int));
        }
    }
}

fn push_all(out: &mut Vec<char>, v: &[char])
    ensures
        final(out)@ == old(out)@ + v@,
{
    push_range(out, v, 0, v.len());
    proof {
        assert(v@.subrange(0, v@.len() as int) =~= v@);
    }
}

proof fn lemma_join_push(parts: Seq<Seq<char>>, x: Seq<char>, sep: Seq<char>)
    ensures
        join(parts.push(x), sep) == if parts.len() == 0 {
            x
        } else {
            join(parts, sep) + sep + x
        },
{
    assert(parts.push(x).drop_last() =~= parts);
    if parts.len() == 0 {
        assert(parts.push(x) =~= seq![x]);
    }
}

/// The selector list `p[a..b]` with every selector scoped.
fn scope_selector_list(p: &[char], a: usize, b: usize, id: &[char], mark: &[char]) -> (r: Vec<char>)
    requires
        a <= b <= p@.len(),
        mark@ == marker(id@),
    ensures
        r@ == scope_selector_list_spec(p@.subrange(a as int, b as int), id@),
{
    let ghost pieces = split_on(p@.subrange(a as int, b as int), ',');
    let ranges = split_ranges(p, a, b, ',');
    let mut out: Vec<char> = Vec::new();
    let ghost mut done: Seq<Seq<char>> = Seq::empty();
    let mut any = false;
    let mut k: usize = 0;
    proof {
        assert(pieces.skip(0) =~= pieces);
        assert(done + scoped_parts(pieces, id@) =~= scoped_parts(pieces, id@));
    }
    while k < ranges.len()
        invariant
            k <= ranges@.len(),
            a <= b <= p@.len(),
            mark@ == marker(id@),
            pieces == split_on(p@.subrange(a as int, b as int), ','),
            ranges@.len() == pieces.len(),
            forall|j: int|
                0 <= j < ranges@.len() ==> {
                    &&& a <= (#[trigger] ranges@[j]).0 <= ranges@[j].1 <= b
                    &&& p@.subrange(ranges@[j].0 as int, ranges@[j].1 as int) == pieces[j]
                },
            scoped_parts(pieces, id@) == done + scoped_parts(pieces.skip(k as int), id@),
            out@ == join(done, ", "@),
            any == (done.len() > 0),
        decreases ranges@.len() - k,
    {
        let (s0, e0) = ranges[k];
        proof {
            assert(p@.subrange(ranges@[k as int].0 as int, ranges@[k as int].1 as int) == pieces[k as int]);
            assert(pieces.skip(k as int).drop_first() =~= pieces.skip(k + 1));
            assert(pieces.skip(k as int)[0] == pieces[k as int]);
        }
        let (s, e) = trim_range(p, s0, e0);
        if s < e {
            let sub = slice_subrange(p, s, e);
            let found_mark = find_at(sub, 0, mark).is_some();
            let ghost t = p@.subrange(s as int, e as int);
            let ghost old_done = done;
            if any {
                proof {
                    reveal_strlit(", ");
                }
                out.push(',');
                out.push(' ');
            }
            push_range(&mut out, p, s, e);
            if !found_mark {
                push_all(&mut out, mark);
            }
            any = true;
            proof {
                done = done.push(scope_selector(t, id@));
                lemma_join_push(old_done, scope_selector(t, id@), ", "@);
                reveal_strlit(", ");
                assert(sub@ == t);
                if old_done.len() == 0 {
                    assert(join(old_done, ", "@) =~= Seq::<char>::empty());
                }
                assert(out@ =~= join(done, ", "@));
                assert(done + scoped_parts(pieces.skip(k + 1), id@) =~= old_done + scoped_parts(pieces.skip(k as int), id@));
            }
        } else {
            proof {
                assert(done + scoped_parts(pieces.skip(k + 1), id@) =~= done + scoped_parts(pieces.skip(k as int), id@));
            }
        }
        k += 1;
    }
    proof {
        assert(pieces.skip(ranges@.len() as int) =~= Seq::<Seq<char>>::empty());
        assert(done + Seq::<Seq<char>>::empty() =~= done);
    }
    out
}

/// Scope the CSS text `css`.
#[verifier::rlimit(60)]
fn scope_block(css: &[char], id: &[char], mark: &[char]) -> (r: Vec<char>)
    requires
        mark@ == marker(id@),
        css@.len() <= isize::MAX,
    ensures
        r@ == scope_block_spec(css@, id@),
    decreases css@.len(),
{
    let n = css.len();
    let mut out: Vec<char> = Vec::new();
    let mut i: usize = 0;
    proof {
        reveal_strlit(" {");
        reveal_strlit("}");
    }
    while i < n
        invariant
            n == css@.len(),
            css@.len() <= isize::MAX,
            mark@ == marker(id@),
            i <= n,
            scope_block_spec(css@, id@) == out@ + scope_from(css@, i as int, id@),
        decreases n - i,
    {
        let ghost o = out@;
        let j = skip_ws(css, i);
        push_range(&mut out, css, i, j);
        if j >= n {
            proof {
                assert(scope_from(css@, i as int, id@) == css@.subrange(i as int, j as int));
                assert(scope_from(css@, n as int, id@) =~= Seq::<char>::empty());
                assert(out@ + scope_from(css@, n as int, id@) =~= out@);
            }
            i = n;
            continue;
        }
        let open = match find_open_brace(css, j) {
            Some(o2) => o2,
            None => {
                push_range(&mut out, css, j, n);
                proof {
                    assert(scope_from(css@, i as int, id@) == css@.subrange(i as int, j as int) + css@.subrange(j as int, n as int));
                    assert(scope_from(css@, n as int, id@) =~= Seq::<char>::empty());
                    assert(out@ + scope_from(css@, n as int, id@) =~= o + scope_from(css@, i as int, id@));
                }
                i = n;
                continue;
            },
        };
        let close = match find_matching_brace(css, open) {
            Some(c) => c,
            None => {
                push_range(&mut out, css, j, n);
                proof {
                    assert(scope_from(css@, i as int, id@) == css@.subrange(i as int, j as int) + css@.subrange(j as int, n as int));
                    assert(scope_from(css@, n as int, id@) =~= Seq::<char>::empty());
                    assert(out@ + scope_from(css@, n as int, id@) =~= o + scope_from(css@, i as int, id@));
                }
                i = n;
                continue;
            },
        };
        let (pa, pb) = trim_range(css, j, open);
        let ghost prelude = css@.subrange(pa as int, pb as int);
        let ghost body = css@.subrange(open + 1, close as int);
        let ghost piece: Seq<char>;
        if pa < pb && css[pa] == '@' {
            let (na, nb) = at_rule_name_range(css, pa, pb);
            let pass = is_passthrough(css, na, nb);
            push_range(&mut out, css, pa, pb);
            out.push(' ');
            out.push('{');
            if pass {
                push_range(&mut out, css, open + 1, close);
                proof {
                    piece = prelude + " {"@ + body + "}"@;
                }
            } else {
                let inner = scope_block(slice_subrange(css, open + 1, close), id, mark);
                push_all(&mut out, inner.as_slice());
                proof {
                    piece = prelude + " {"@ + scope_block_spec(body, id@) + "}"@;
                }
            }
            out.push('}');
        } else {
            let sel = scope_selector_list(css, pa, pb, id, mark);
            push_all(&mut out, sel.as_slice());
            out.push(' ');
            out.push('{');
            push_range(&mut out, css, open + 1, close);
            out.push('}');
            proof {
                piece = scope_selector_list_spec(prelude, id@) + " {"@ + body + "}"@;
            }
        }
        proof {
            reveal_strlit(" {");
            reveal_strlit("}");
            assert(prelude.len() > 0 ==> prelude[0] == css@[pa as int]);
            assert(scope_from(css@, i as int, id@) == css@.subrange(i as int, j as int) + piece + scope_from(css@, close + 1, id@));
            assert(out@ =~= o + css@.subrange(i as int, j as int) + piece);
            assert(out@ + scope_from(css@, close + 1, id@) =~= o + scope_from(css@, i as int, id@));
        }
        i = close + 1;
    }
    proof {
        assert(scope_from(css@, i as int, id@) =~= Seq::<char>::empty());
        assert(out@ + Seq::<char>::empty() =~= out@);
    }
    out
}

/// Scope every selector in `css` to the fragment instance `scope_id`.
pub fn scope_style_text(css: &str, scope_id: &str) -> (r: String)
    ensures
        r@ == scope_block_spec(css@, scope_id@),
{
    let v = chars_of(css);
    let id = chars_of(scope_id);
    proof {
        crate::text::lemma_byte_len_bound(v@);
    }
    let mut mark = chars_of("[data-s=\"");
    let mut k: usize = 0;
    let ghost m0 = mark@;
    while k < id.len()
        invariant
            k <= id@.len(),
            mark@ == m0 + id@.take(k as int),
        decreases id@.len() - k,
    {
        mark.push(id[k]);
        k += 1;
        proof {
            assert(mark@ =~= m0 + id@.take(k as int));
        }
    }
    mark.push('"');
    mark.push(']');
    proof {
        reveal_strlit("\"]");
        assert(id@.take(id@.len() as int) =~= id@);
        assert(mark@ =~= marker(id@));
    }
    let out = scope_block(v.as_slice(), id.as_slice(), mark.as_slice());
    string_of(out.as_slice())
}

} // verus!
