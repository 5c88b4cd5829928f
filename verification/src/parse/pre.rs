//! Authoring normalization before HTML parsing.
//!
//! Minor source transforms so the HTML parser preserves statica-specific
//! syntax that browsers reject: a `<slot>` inside `<select>` (or inside an
//! `<optgroup>` there) becomes `<script type="statica/slot" …>`, which the
//! post-parse pass turns back into a slot.
//!
//! Positions are character indices; the source is scanned in its ASCII
//! lowercase form for tag names.

use vstd::prelude::*;
use vstd::slice::slice_subrange;

use crate::error::{Error, ErrorView};
use crate::text::{
    char_index, char_is_ws, char_lower, chars_of, find_at, find_char_in, find_from, has_prefix,
    is_ws, lemma_char_index, lemma_find_from_bounds, lower, lower_seq, match_at, matches_at,
    string_of, trim, trim_end, trim_end_char, trim_range,
};

verus! {

// ---------------------------------------------------------------------------
// Specification

/// `<tag`.
pub open spec fn open_pat(tag: Seq<char>) -> Seq<char> {
    seq!['<'] + tag
}

/// `</tag>`.
pub open spec fn close_pat(tag: Seq<char>) -> Seq<char> {
    seq!['<', '/'] + tag + seq!['>']
}

/// The character after `<tag` at `at` ends the tag name (or the text ends).
pub open spec fn tag_boundary(l: Seq<char>, at: int, tag: Seq<char>) -> bool {
    let after = at + tag.len() + 1;
    after >= l.len() || {
        let c = l[after];
        c == ' ' || c == '\t' || c == '\n' || c == '\r' || c == '/' || c == '>'
    }
}

/// First `<tag` at or after `i` that is followed by a tag-name boundary.
pub open spec fn tag_open_from(l: Seq<char>, i: int, tag: Seq<char>) -> Option<int>
    decreases l.len() + 1 - i,
{
    if i < 0 {
        None
    } else {
        match find_from(l, open_pat(tag), i) {
            Some(at) => if tag_boundary(l, at, tag) {
                Some(at)
            } else if i <= at && at + 1 <= l.len() {
                tag_open_from(l, at + 1, tag)
            } else {
                None
            },
            None => None,
        }
    }
}

/// Index just past the first `>` at or after `i` that is outside `'…'` and
/// `"…"` quotes (each quote kind toggles only outside the other).
pub open spec fn gt_from(r: Seq<char>, i: int, sq: bool, dq: bool) -> Option<int>
    decreases r.len() - i,
{
    if i < 0 || i >= r.len() {
        None
    } else {
        let c = r[i];
        if c == '\'' && !dq {
            gt_from(r, i + 1, !sq, dq)
        } else if c == '"' && !sq {
            gt_from(r, i + 1, sq, !dq)
        } else if c == '>' && !sq && !dq {
            Some(i + 1)
        } else {
            gt_from(r, i + 1, sq, dq)
        }
    }
}

/// Where the `</tag>` closing an element whose content starts at `pos` begins.
/// Depth grows at every `<` from which some later `<tag` opens.
pub open spec fn closing_from(l: Seq<char>, pos: int, tag: Seq<char>, depth: nat) -> Option<int>
    decreases l.len() - pos,
{
    if pos < 0 || pos >= l.len() {
        None
    } else if match_at(l, close_pat(tag), pos) {
        if depth <= 1 {
            Some(pos)
        } else {
            closing_from(l, pos + close_pat(tag).len(), tag, (depth - 1) as nat)
        }
    } else if l[pos] == '<' && tag_open_from(l, pos, tag) is Some {
        closing_from(l, pos + 1, tag, depth + 1)
    } else {
        closing_from(l, pos + 1, tag, depth)
    }
}

/// End (past `</tag>`) of an element whose content starts at `pos`; depth
/// grows at each `<tag` opening exactly at the scan position.
pub open spec fn end_close_from(l: Seq<char>, pos: int, tag: Seq<char>, depth: nat) -> Option<int>
    decreases l.len() - pos,
{
    if pos < 0 || pos >= l.len() {
        None
    } else if match_at(l, close_pat(tag), pos) {
        if depth <= 1 {
            Some(pos + close_pat(tag).len())
        } else {
            end_close_from(l, pos + close_pat(tag).len(), tag, (depth - 1) as nat)
        }
    } else {
        end_close_from(
            l,
            pos + 1,
            tag,
            if tag_open_from(l, pos, tag) == Some(pos) {
                depth + 1
            } else {
                depth
            },
        )
    }
}

/// The message for an unterminated tag.
pub open spec fn unclosed_tag() -> Seq<char> {
    "unclosed tag"@
}

/// The message for an element without its closing tag.
pub open spec fn unclosed_elem(tag: Seq<char>) -> Seq<char> {
    "unclosed <"@ + tag + ">"@
}

/// End of the element starting at `start` (its open tag ends in `/`, or past
/// its matching `</tag>`).
pub open spec fn element_end(r: Seq<char>, start: int, tag: Seq<char>) -> Result<int, Seq<char>> {
    match gt_from(r, start, false, false) {
        None => Err(unclosed_tag()),
        Some(oe) => {
            let head = trim_end(r.subrange(start, oe));
            if head.len() > 0 && head.last() == '/' {
                Ok(oe)
            } else {
                match end_close_from(lower_seq(r), oe, tag, 1) {
                    Some(e) => Ok(e),
                    None => Err(unclosed_elem(tag)),
                }
            }
        },
    }
}

/// Whitespace, `>` or `/` ends a tag name.
pub open spec fn name_stop(c: char) -> bool {
    is_ws(c) || c == '>' || c == '/'
}

/// Index of the first tag-name stop in `s`.
pub open spec fn stop_index(s: Seq<char>) -> Option<int>
    decreases s.len(),
{
    if s.len() == 0 {
        None
    } else if name_stop(s[0]) {
        Some(0)
    } else {
        match stop_index(s.drop_first()) {
            Some(i) => Some(i + 1),
            None => None,
        }
    }
}

/// Name of an opening tag at `pos`.
pub open spec fn tag_name_at(l: Seq<char>, pos: int) -> Option<Seq<char>> {
    if pos < 0 || pos >= l.len() || l[pos] != '<' {
        None
    } else {
        let rest = l.skip(pos + 1);
        if rest.len() > 0 && rest[0] == '/' {
            None
        } else {
            match stop_index(rest) {
                Some(e) => if e == 0 {
                    None
                } else {
                    Some(rest.take(e))
                },
                None => None,
            }
        }
    }
}

/// Last index at or before `i` where `p` occurs.
pub open spec fn rfind_upto(s: Seq<char>, p: Seq<char>, i: int) -> Option<int>
    decreases i + 1,
{
    if i < 0 {
        None
    } else if match_at(s, p, i) {
        Some(i)
    } else {
        rfind_upto(s, p, i - 1)
    }
}

/// `str::rfind`.
pub open spec fn rfind(s: Seq<char>, p: Seq<char>) -> Option<int> {
    rfind_upto(s, p, s.len() - p.len())
}

/// Attribute text of a `<slot …>` open tag ending at `oe`.
pub open spec fn slot_attrs(html: Seq<char>, oe: int) -> Seq<char> {
    let head = html.take(oe);
    let cut = match char_index(head, '<') {
        Some(i) => i + 1,
        None => 0,
    };
    let a0 = trim(head.skip(cut));
    let a1 = if has_prefix(a0, "slot"@) {
        trim(a0.skip(4))
    } else if has_prefix(a0, "SLOT"@) {
        trim(a0.skip(4))
    } else {
        a0
    };
    if a1.len() > 0 && a1.last() == '/' {
        trim(trim_end_char(a1, '/'))
    } else {
        a1
    }
}

/// Where the attribute text of an open tag that ends at `oe` stops: before
/// its closing `>`.
pub open spec fn before_gt(html: Seq<char>, oe: int) -> int {
    if 0 < oe <= html.len() && html[oe - 1] == '>' {
        oe - 1
    } else {
        oe
    }
}

/// `<slot …>…</slot>` → `<script type="statica/slot" …>…</script>`: the
/// element renamed, its attributes carried over.
pub open spec fn slot_to_script_spec(html: Seq<char>) -> Result<Seq<char>, Seq<char>> {
    let l = lower_seq(html);
    if tag_open_from(l, 0, "slot"@) != Some(0int) {
        Err("expected <slot> element"@)
    } else {
        match gt_from(html, 0, false, false) {
            None => Err(unclosed_tag()),
            Some(oe) => {
                let attrs = slot_attrs(html, before_gt(html, oe));
                let inner = match rfind(l, "</slot"@) {
                    Some(idx) => if idx >= oe {
                        html.subrange(oe, idx)
                    } else {
                        Seq::empty()
                    },
                    None => Seq::empty(),
                };
                if attrs.len() == 0 {
                    Ok("<script type=\"statica/slot\">"@ + inner + "</script>"@)
                } else {
                    Ok("<script type=\"statica/slot\" "@ + attrs + ">"@ + inner + "</script>"@)
                }
            },
        }
    }
}

pub proof fn lemma_then_ok(a: Seq<char>, b: Seq<char>, rest: Result<Seq<char>, Seq<char>>)
    ensures
        then_ok(a, then_ok(b, rest)) == then_ok(a + b, rest),
{
    match rest {
        Ok(s) => {
            assert((a + b) + s =~= a + (b + s));
        },
        Err(_) => {},
    }
}

/// `prefix` followed by an output, or the error.
pub open spec fn then_ok(prefix: Seq<char>, rest: Result<Seq<char>, Seq<char>>) -> Result<Seq<char>, Seq<char>> {
    match rest {
        Ok(s) => Ok(prefix + s),
        Err(e) => Err(e),
    }
}

/// Rewritten `<select>` content from `pos`.
pub open spec fn rewrite_from(r: Seq<char>, pos: int) -> Result<Seq<char>, Seq<char>>
    decreases r.len(), r.len() + 1 - pos,
{
    if pos < 0 || pos >= r.len() {
        Ok(Seq::empty())
    } else {
        let l = lower_seq(r);
        if l[pos] != '<' {
            then_ok(seq![r[pos]], rewrite_from(r, pos + 1))
        } else if tag_open_from(l, pos, "slot"@) == Some(pos) {
            match element_end(r, pos, "slot"@) {
                Err(e) => Err(e),
                Ok(end) => if pos < end <= r.len() {
                    match slot_to_script_spec(r.subrange(pos, end)) {
                        Err(e) => Err(e),
                        Ok(s) => then_ok(s, rewrite_from(r, end)),
                    }
                } else {
                    Err(unclosed_tag())
                },
            }
        } else if tag_open_from(l, pos, "optgroup"@) == Some(pos) {
            match gt_from(r, pos, false, false) {
                None => Err(unclosed_tag()),
                Some(oe) => match closing_from(l, oe, "optgroup"@, 1) {
                    None => Err(unclosed_elem("optgroup"@)),
                    Some(ie) => if pos < oe <= ie && ie + 11 <= r.len() {
                        match rewrite_inner(r.subrange(oe, ie)) {
                            Err(e) => Err(e),
                            Ok(inner) => then_ok(
                                r.subrange(pos, oe) + inner + "</optgroup>"@,
                                rewrite_from(r, ie + 11),
                            ),
                        }
                    } else {
                        Err(unclosed_tag())
                    },
                },
            }
        } else {
            match tag_name_at(l, pos) {
                Some(tag) => match element_end(r, pos, tag) {
                    Err(e) => Err(e),
                    Ok(end) => if pos < end <= r.len() {
                        then_ok(r.subrange(pos, end), rewrite_from(r, end))
                    } else {
                        Err(unclosed_tag())
                    },
                },
                None => then_ok(seq![r[pos]], rewrite_from(r, pos + 1)),
            }
        }
    }
}

/// Rewritten content of a `<select>` (or of an `<optgroup>` inside one).
pub open spec fn rewrite_inner(r: Seq<char>) -> Result<Seq<char>, Seq<char>>
    decreases r.len(), r.len() + 2,
{
    rewrite_from(r, 0)
}

/// Output for the source from `pos`, rewriting every `<select>` body.
pub open spec fn select_from(r: Seq<char>, pos: int) -> Result<Seq<char>, Seq<char>>
    decreases r.len() + 1 - pos,
{
    if pos < 0 || pos > r.len() {
        Ok(Seq::empty())
    } else {
        let l = lower_seq(r);
        match tag_open_from(l, pos, "select"@) {
            None => Ok(r.skip(pos)),
            Some(start) => match gt_from(r, start, false, false) {
                None => Err(unclosed_tag()),
                Some(oe) => match closing_from(l, oe, "select"@, 1) {
                    None => Err(unclosed_elem("select"@)),
                    Some(ie) => if pos <= start < oe <= ie && ie + 9 <= r.len() {
                        match rewrite_inner(r.subrange(oe, ie)) {
                            Err(e) => Err(e),
                            Ok(inner) => then_ok(
                                r.subrange(pos, oe) + inner + "</select>"@,
                                select_from(r, ie + 9),
                            ),
                        }
                    } else {
                        Err(unclosed_tag())
                    },
                },
            },
        }
    }
}

/// What [`preprocess`] produces: the input unchanged when its lowercase form
/// holds no `<slot`, otherwise the input with every `<select>` body rewritten.
pub open spec fn preprocess_spec(input: Seq<char>) -> Result<Seq<char>, Seq<char>> {
    if find_from(lower_seq(input), "<slot"@, 0) is None {
        Ok(input)
    } else {
        select_from(input, 0)
    }
}

// ---------------------------------------------------------------------------
// Scanning

/// ASCII lowercase copy.
pub fn lower_vec(v: &[char]) -> (r: Vec<char>)
    ensures
        r@ == lower_seq(v@),
{
    let mut out: Vec<char> = Vec::new();
    let mut i: usize = 0;
    while i < v.len()
        invariant
            i <= v@.len(),
            out@ == lower_seq(v@.take(i as int)),
        decreases v@.len() - i,
    {
        out.push(char_lower(v[i]));
        i += 1;
        proof {
            assert(out@ =~= lower_seq(v@.take(i as int)));
        }
    }
    proof {
        assert(v@.take(v@.len() as int) =~= v@);
    }
    out
}

/// Characters of a string literal.
fn lit(s: &str) -> (r: Vec<char>)
    ensures
        r@ == s@,
{
    chars_of(s)
}

/// `<tag` as characters.
fn open_vec(tag: &[char]) -> (r: Vec<char>)
    ensures
        r@ == open_pat(tag@),
{
    let mut out: Vec<char> = Vec::new();
    out.push('<');
    let mut i: usize = 0;
    while i < tag.len()
        invariant
            i <= tag@.len(),
            out@ == seq!['<'] + tag@.take(i as int),
        decreases tag@.len() - i,
    {
        out.push(tag[i]);
        i += 1;
        proof {
            assert(out@ =~= seq!['<'] + tag@.take(i as int));
        }
    }
    proof {
        assert(tag@.take(tag@.len() as int) =~= tag@);
    }
    out
}

/// `</tag>` as characters.
fn close_vec(tag: &[char]) -> (r: Vec<char>)
    ensures
        r@ == close_pat(tag@),
{
    let mut out: Vec<char> = Vec::new();
    out.push('<');
    out.push('/');
    let mut i: usize = 0;
    while i < tag.len()
        invariant
            i <= tag@.len(),
            out@ == seq!['<', '/'] + tag@.take(i as int),
        decreases tag@.len() - i,
    {
        out.push(tag[i]);
        i += 1;
        proof {
            assert(out@ =~= seq!['<', '/'] + tag@.take(i as int));
        }
    }
    out.push('>');
    proof {
        assert(tag@.take(tag@.len() as int) =~= tag@);
        assert(out@ =~= close_pat(tag@));
    }
    out
}

fn boundary_at(l: &[char], at: usize, tag_len: usize) -> (r: bool)
    requires
        at + tag_len + 1 <= usize::MAX,
    ensures
        r == ({
            let after = at + tag_len + 1;
            after >= l@.len() || {
                let c = l@[after];
                c == ' ' || c == '\t' || c == '\n' || c == '\r' || c == '/' || c == '>'
            }
        }),
{
    let after = at + tag_len + 1;
    if after >= l.len() {
        return true;
    }
    let c = l[after];
    c == ' ' || c == '\t' || c == '\n' || c == '\r' || c == '/' || c == '>'
}

/// First `<tag` at or after `from` followed by a tag-name boundary.
pub fn find_tag_open(l: &[char], from: usize, tag: &[char]) -> (r: Option<usize>)
    requires
        l@.len() <= isize::MAX,
    ensures
        match r {
            Some(at) => tag_open_from(l@, from as int, tag@) == Some(at as int) && from <= at < l@.len(),
            None => tag_open_from(l@, from as int, tag@) is None,
        },
{
    let pat = open_vec(tag);
    let mut i = from;
    loop
        invariant
            from <= i,
            l@.len() <= isize::MAX,
            pat@ == open_pat(tag@),
            tag_open_from(l@, from as int, tag@) == tag_open_from(l@, i as int, tag@),
        decreases l@.len() + 1 - i,
    {
        let found = find_at(l, i, pat.as_slice());
        proof {
            lemma_find_from_bounds(l@, pat@, i as int);
        }
        match found {
            None => return None,
            Some(at) => {
                if boundary_at(l, at, tag.len()) {
                    return Some(at);
                }
                if at + 1 <= l.len() {
                    i = at + 1;
                } else {
                    return None;
                }
            },
        }
    }
}

/// Index just past the first unquoted `>` at or after `from`.
pub fn find_gt(r: &[char], from: usize) -> (res: Option<usize>)
    ensures
        match res {
            Some(e) => gt_from(r@, from as int, false, false) == Some(e as int) && from < e <= r@.len(),
            None => gt_from(r@, from as int, false, false) is None,
        },
{
    let mut in_single = false;
    let mut in_double = false;
    let mut i = from;
    while i < r.len()
        invariant
            from <= i,
            gt_from(r@, from as int, false, false) == gt_from(r@, i as int, in_single, in_double),
        decreases r@.len() - i,
    {
        let c = r[i];
        if c == '\'' && !in_double {
            in_single = !in_single;
        } else if c == '"' && !in_single {
            in_double = !in_double;
        } else if c == '>' && !in_single && !in_double {
            return Some(i + 1);
        }
        i += 1;
    }
    None
}

/// Start of the `</tag>` closing an element whose content starts at `start`.
pub fn find_closing_tag(l: &[char], start: usize, tag: &[char]) -> (r: Option<usize>)
    requires
        l@.len() <= isize::MAX,
    ensures
        match r {
            Some(p) => closing_from(l@, start as int, tag@, 1) == Some(p as int) && start <= p
                && p + close_pat(tag@).len() <= l@.len(),
            None => closing_from(l@, start as int, tag@, 1) is None,
        },
{
    let close = close_vec(tag);
    let mut depth: usize = 1;
    let mut pos = start;
    while pos < l.len()
        invariant
            start <= pos,
            l@.len() <= isize::MAX,
            close@ == close_pat(tag@),
            1 <= depth <= pos - start + 1,
            closing_from(l@, start as int, tag@, 1) == closing_from(l@, pos as int, tag@, depth as nat),
        decreases l@.len() - pos,
    {
        if matches_at(l, pos, close.as_slice()) {
            if depth <= 1 {
                return Some(pos);
            }
            depth -= 1;
            pos += close.len();
        } else {
            let opens = l[pos] == '<' && find_tag_open(l, pos, tag).is_some();
            if opens {
                depth += 1;
            }
            pos += 1;
        }
    }
    None
}

/// Trimmed text of `r[a..b]` ends in `/`.
fn ends_with_slash_trimmed(r: &[char], a: usize, b: usize) -> (res: bool)
    requires
        a <= b <= r@.len(),
    ensures
        res == ({
            let head = trim_end(r@.subrange(a as int, b as int));
            head.len() > 0 && head.last() == '/'
        }),
{
    let mut e = b;
    while e > a && char_is_ws(r[e - 1])
        invariant
            a <= e <= b <= r@.len(),
            trim_end(r@.subrange(a as int, b as int)) == trim_end(r@.subrange(a as int, e as int)),
        decreases e - a,
    {
        proof {
            assert(r@.subrange(a as int, e as int).drop_last() =~= r@.subrange(a as int, e - 1));
        }
        e -= 1;
    }
    proof {
        if e > a {
            assert(r@.subrange(a as int, e as int).last() == r@[e - 1]);
        }
    }
    e > a && r[e - 1] == '/'
}

/// The message for an element without its closing tag.
fn unclosed_elem_msg(tag: &[char]) -> (r: String)
    ensures
        r@ == unclosed_elem(tag@),
{
    let mut m = String::from_str("unclosed <");
    m.append(string_of(tag).as_str());
    m.append(">");
    m
}

/// End of the element starting at `start`.
pub fn find_element_end(r: &[char], l: &[char], start: usize, tag: &[char]) -> (res: Result<usize, String>)
    requires
        l@ == lower_seq(r@),
        l@.len() <= isize::MAX,
    ensures
        match res {
            Ok(e) => element_end(r@, start as int, tag@) == Ok::<int, Seq<char>>(e as int) && e <= r@.len(),
            Err(m) => element_end(r@, start as int, tag@) == Err::<int, Seq<char>>(m@),
        },
{
    let open_end = match find_gt(r, start) {
        Some(e) => e,
        None => return Err(String::from_str("unclosed tag")),
    };
    if ends_with_slash_trimmed(r, start, open_end) {
        return Ok(open_end);
    }
    let close = close_vec(tag);
    let mut depth: usize = 1;
    let mut pos = open_end;
    while pos < l.len()
        invariant
            open_end <= pos,
            l@ == lower_seq(r@),
            l@.len() == r@.len(),
            l@.len() <= isize::MAX,
            gt_from(r@, start as int, false, false) == Some(open_end as int),
            !({
                let head = trim_end(r@.subrange(start as int, open_end as int));
                head.len() > 0 && head.last() == '/'
            }),
            close@ == close_pat(tag@),
            1 <= depth <= pos - open_end + 1,
            end_close_from(l@, open_end as int, tag@, 1) == end_close_from(l@, pos as int, tag@, depth as nat),
        decreases l@.len() - pos,
    {
        if matches_at(l, pos, close.as_slice()) {
            if depth <= 1 {
                return Ok(pos + close.len());
            }
            depth -= 1;
            pos += close.len();
        } else {
            if find_tag_open(l, pos, tag) == Some(pos) {
                depth += 1;
            }
            pos += 1;
        }
    }
    Err(unclosed_elem_msg(tag))
}

/// End of the tag name of an opening tag at `pos` (the name is `l[pos + 1..end]`).
fn tag_name_end(l: &[char], pos: usize) -> (r: Option<usize>)
    ensures
        match r {
            Some(e) => pos + 1 < e <= l@.len() && tag_name_at(l@, pos as int) == Some(l@.subrange(pos + 1, e as int)),
            None => tag_name_at(l@, pos as int) is None,
        },
{
    if pos >= l.len() || l[pos] != '<' {
        return None;
    }
    let ghost rest = l@.skip(pos + 1);
    if pos + 1 < l.len() && l[pos + 1] == '/' {
        proof {
            assert(rest[0] == '/');
        }
        return None;
    }
    let mut i = pos + 1;
    proof {
        assert(l@.subrange(pos + 1, l@.len() as int) =~= rest);
    }
    while i < l.len()
        invariant
            pos + 1 <= i <= l@.len(),
            pos < l@.len(),
            l@[pos as int] == '<',
            rest == l@.skip(pos + 1),
            rest.len() > 0 ==> rest[0] != '/',
            stop_index(rest) == match stop_index(l@.subrange(i as int, l@.len() as int)) {
                Some(k) => Some(k + (i - pos - 1)),
                None => None,
            },
        decreases l@.len() - i,
    {
        proof {
            assert(l@.subrange(i as int, l@.len() as int).drop_first() =~= l@.subrange(i + 1, l@.len() as int));
        }
        let c = l[i];
        proof {
            assert(l@.subrange(i as int, l@.len() as int)[0] == c);
        }
        if char_is_ws(c) || c == '>' || c == '/' {
            if i == pos + 1 {
                return None;
            }
            proof {
                assert(rest.take(i - pos - 1) =~= l@.subrange(pos + 1, i as int));
            }
            return Some(i);
        }
        i += 1;
    }
    None
}

/// Last index at which `p` occurs in `s`.
fn rfind_chars(s: &[char], p: &[char]) -> (r: Option<usize>)
    ensures
        match r {
            Some(i) => rfind(s@, p@) == Some(i as int) && i + p@.len() <= s@.len(),
            None => rfind(s@, p@) is None,
        },
{
    if p.len() > s.len() {
        return None;
    }
    let mut i = s.len() - p.len();
    loop
        invariant
            i + p@.len() <= s@.len(),
            rfind(s@, p@) == rfind_upto(s@, p@, i as int),
        decreases i,
    {
        if matches_at(s, i, p) {
            return Some(i);
        }
        if i == 0 {
            proof {
                assert(rfind_upto(s@, p@, -1) is None);
            }
            return None;
        }
        i -= 1;
    }
}

/// Trim bounds inside `v[lo..hi]`.
fn trim_in(v: &[char], lo: usize, hi: usize) -> (r: (usize, usize))
    requires
        lo <= hi <= v@.len(),
    ensures
        lo <= r.0 <= r.1 <= hi,
        v@.subrange(r.0 as int, r.1 as int) == trim(v@.subrange(lo as int, hi as int)),
{
    trim_range(v, lo, hi)
}

/// Bounds in `html` of [`slot_attrs`].
fn slot_attr_range(html: &[char], oe: usize) -> (r: (usize, usize))
    requires
        oe <= html@.len(),
    ensures
        r.0 <= r.1 <= oe,
        html@.subrange(r.0 as int, r.1 as int) == slot_attrs(html@, oe as int),
{
    let ghost head = html@.take(oe as int);
    let cut = match find_char_in(html, 0, oe, '<') {
        Some(i) => i + 1,
        None => 0,
    };
    proof {
        assert(html@.subrange(0, oe as int) =~= head);
        assert(head.skip(cut as int) =~= html@.subrange(cut as int, oe as int));
    }
    let (a0, b0) = trim_in(html, cut, oe);
    let ghost t0 = html@.subrange(a0 as int, b0 as int);
    let sl = lit("slot");
    let up = lit("SLOT");
    let (a1, b1) = if b0 - a0 >= 4 && (matches_at(html, a0, sl.as_slice()) || matches_at(html, a0, up.as_slice())) {
        proof {
            reveal_strlit("slot");
            reveal_strlit("SLOT");
            assert(t0.subrange(0, 4) =~= html@.subrange(a0 as int, a0 + 4));
            assert(t0.skip(4) =~= html@.subrange(a0 + 4, b0 as int));
        }
        trim_in(html, a0 + 4, b0)
    } else {
        proof {
            reveal_strlit("slot");
            reveal_strlit("SLOT");
            if has_prefix(t0, "slot"@) {
                assert(t0.subrange(0, 4) =~= html@.subrange(a0 as int, a0 + 4));
            }
            if has_prefix(t0, "SLOT"@) {
                assert(t0.subrange(0, 4) =~= html@.subrange(a0 as int, a0 + 4));
            }
        }
        (a0, b0)
    };
    let ghost t1 = html@.subrange(a1 as int, b1 as int);
    if b1 > a1 && html[b1 - 1] == '/' {
        proof {
            assert(t1.last() == '/');
        }
        let e = crate::text::drop_char_run_end(html, a1, b1, '/');
        trim_in(html, a1, e)
    } else {
        (a1, b1)
    }
}

/// `<slot …>…</slot>` → `<script type="statica/slot" …>…</script>`: the
/// element renamed, its attributes carried over.
fn slot_to_script(html: &[char]) -> (res: Result<Vec<char>, String>)
    requires
        html@.len() <= isize::MAX,
    ensures
        match res {
            Ok(v) => slot_to_script_spec(html@) == Ok::<Seq<char>, Seq<char>>(v@),
            Err(m) => slot_to_script_spec(html@) == Err::<Seq<char>, Seq<char>>(m@),
        },
{
    let l = lower_vec(html);
    let slot = lit("slot");
    if find_tag_open(l.as_slice(), 0, slot.as_slice()) != Some(0usize) {
        return Err(String::from_str("expected <slot> element"));
    }
    let open_end = match find_gt(html, 0) {
        Some(e) => e,
        None => return Err(String::from_str("unclosed tag")),
    };
    let attrs_end = if open_end > 0 && open_end <= html.len() && html[open_end - 1] == '>' {
        open_end - 1
    } else {
        open_end
    };
    let (a, b) = slot_attr_range(html, attrs_end);
    proof {
        assert(attrs_end as int == before_gt(html@, open_end as int));
    }
    let close = lit("</slot");
    let (ia, ib) = match rfind_chars(l.as_slice(), close.as_slice()) {
        Some(idx) => if idx >= open_end {
            (open_end, idx)
        } else {
            (0, 0)
        },
        None => (0, 0),
    };
    proof {
        assert(html@.subrange(0, 0) =~= Seq::<char>::empty());
    }
    let mut out: Vec<char> = lit("<script type=\"statica/slot\"");
    if a < b {
        out.push(' ');
        let mut k = a;
        let ghost o0 = out@;
        while k < b
            invariant
                a <= k <= b <= html@.len(),
                out@ == o0 + html@.subrange(a as int, k as int),
            decreases b - k,
        {
            out.push(html[k]);
            k += 1;
            proof {
                assert(out@ =~= o0 + html@.subrange(a as int, k as int));
            }
        }
    }
    out.push('>');
    let mut k = ia;
    let ghost o1 = out@;
    while k < ib
        invariant
            ia <= k <= ib <= html@.len(),
            out@ == o1 + html@.subrange(ia as int, k as int),
        decreases ib - k,
    {
        out.push(html[k]);
        k += 1;
        proof {
            assert(out@ =~= o1 + html@.subrange(ia as int, k as int));
        }
    }
    let tail = lit("</script>");
    let ghost o2 = out@;
    let mut k: usize = 0;
    while k < tail.len()
        invariant
            k <= tail@.len(),
            out@ == o2 + tail@.take(k as int),
        decreases tail@.len() - k,
    {
        out.push(tail[k]);
        k += 1;
        proof {
            assert(out@ =~= o2 + tail@.take(k as int));
        }
    }
    proof {
        reveal_strlit("<script type=\"statica/slot\"");
        reveal_strlit("<script type=\"statica/slot\">");
        reveal_strlit("<script type=\"statica/slot\" ");
        reveal_strlit(">");
        assert(tail@.take(tail@.len() as int) =~= tail@);
        if a < b {
            assert(out@ =~= "<script type=\"statica/slot\" "@ + slot_attrs(html@, attrs_end as int) + ">"@ + html@.subrange(ia as int, ib as int) + "</script>"@);
        } else {
            assert(out@ =~= "<script type=\"statica/slot\">"@ + html@.subrange(ia as int, ib as int) + "</script>"@);
        }
    }
    Ok(out)
}

/// Append `v[a..b]` to `out`.
fn push_range(out: &mut Vec<char>, v: &[char], a: usize, b: usize)
    requires
        a <= b <= v@.len(),
    ensures
        final(out)@ == old(out)@ + v@.subrange(a as int, b as int),
{
    let mut k = a;
    while k < b
        invariant
            a <= k <= b <= v@.len(),
            out@ == old(out)@ + v@.subrange(a as int, k as int),
        decreases b - k,
    {
        out.push(v[k]);
        k += 1;
        proof {
            assert(out@ =~= old(out)@ + v@.subrange(a as int, k as int));
        }
    }
}

/// Append all of `v` to `out`.
fn push_all(out: &mut Vec<char>, v: &[char])
    ensures
        final(out)@ == old(out)@ + v@,
{
    push_range(out, v, 0, v.len());
    proof {
        assert(v@.subrange(0, v@.len() as int) =~= v@);
    }
}

/// Rewrite the content of a `<select>` (or of an `<optgroup>` inside one).
#[verifier::rlimit(50)]
fn rewrite_select_inner(r: &[char], l: &[char]) -> (res: Result<Vec<char>, String>)
    requires
        l@ == lower_seq(r@),
        r@.len() <= isize::MAX,
    ensures
        match res {
            Ok(v) => rewrite_inner(r@) == Ok::<Seq<char>, Seq<char>>(v@),
            Err(m) => rewrite_inner(r@) == Err::<Seq<char>, Seq<char>>(m@),
        },
    decreases r@.len(),
{
    let slot = lit("slot");
    let optgroup = lit("optgroup");
    let og_close = lit("</optgroup>");
    proof {
        reveal_strlit("</optgroup>");
    }
    let mut out: Vec<char> = Vec::new();
    let mut pos: usize = 0;
    while pos < r.len()
        invariant
            l@ == lower_seq(r@),
            r@.len() <= isize::MAX,
            slot@ == "slot"@,
            optgroup@ == "optgroup"@,
            og_close@ == "</optgroup>"@,
            og_close@.len() == 11,
            pos <= r@.len(),
            rewrite_inner(r@) == then_ok(out@, rewrite_from(r@, pos as int)),
        decreases r@.len() - pos,
    {
        let ghost o = out@;
        if l[pos] != '<' {
            proof {
                assert(lower_seq(r@)[pos as int] == l@[pos as int]);
                assert(rewrite_from(r@, pos as int) == then_ok(seq![r@[pos as int]], rewrite_from(r@, pos + 1)));
                lemma_then_ok(o, seq![r@[pos as int]], rewrite_from(r@, pos + 1));
            }
            out.push(r[pos]);
            pos += 1;
            proof {
                assert(out@ =~= o + seq![r@[pos - 1]]);
            }
            continue;
        }
        if find_tag_open(l, pos, slot.as_slice()) == Some(pos) {
            let end = find_element_end(r, l, pos, slot.as_slice())?;
            if !(pos < end && end <= r.len()) {
                return Err(String::from_str("unclosed tag"));
            }
            let conv = slot_to_script(slice_subrange(r, pos, end))?;
            push_all(&mut out, conv.as_slice());
            proof {
                assert(rewrite_from(r@, pos as int) == then_ok(conv@, rewrite_from(r@, end as int)));
                lemma_then_ok(o, conv@, rewrite_from(r@, end as int));
            }
            pos = end;
            continue;
        }
        if find_tag_open(l, pos, optgroup.as_slice()) == Some(pos) {
            let open_end = match find_gt(r, pos) {
                Some(e) => e,
                None => return Err(String::from_str("unclosed tag")),
            };
            let inner_end = match find_closing_tag(l, open_end, optgroup.as_slice()) {
                Some(e) => e,
                None => return Err(unclosed_elem_msg(optgroup.as_slice())),
            };
            if !(pos < open_end && open_end <= inner_end && inner_end + 11 <= r.len()) {
                return Err(String::from_str("unclosed tag"));
            }
            let sub_r = slice_subrange(r, open_end, inner_end);
            let sub_l = slice_subrange(l, open_end, inner_end);
            proof {
                assert(sub_l@ =~= lower_seq(sub_r@));
            }
            let inner = rewrite_select_inner(sub_r, sub_l)?;
            push_range(&mut out, r, pos, open_end);
            push_all(&mut out, inner.as_slice());
            push_all(&mut out, og_close.as_slice());
            proof {
                let x = r@.subrange(pos as int, open_end as int) + inner@ + "</optgroup>"@;
                assert(rewrite_from(r@, pos as int) == then_ok(x, rewrite_from(r@, inner_end + 11)));
                lemma_then_ok(o, x, rewrite_from(r@, inner_end + 11));
                assert(out@ =~= o + x);
            }
            pos = inner_end + 11;
            continue;
        }
        match tag_name_end(l, pos) {
            Some(name_end) => {
                let name = slice_subrange(l, pos + 1, name_end);
                let end = find_element_end(r, l, pos, name)?;
                if !(pos < end && end <= r.len()) {
                    return Err(String::from_str("unclosed tag"));
                }
                push_range(&mut out, r, pos, end);
                proof {
                    assert(rewrite_from(r@, pos as int) == then_ok(r@.subrange(pos as int, end as int), rewrite_from(r@, end as int)));
                    lemma_then_ok(o, r@.subrange(pos as int, end as int), rewrite_from(r@, end as int));
                }
                pos = end;
            },
            None => {
                proof {
                    assert(rewrite_from(r@, pos as int) == then_ok(seq![r@[pos as int]], rewrite_from(r@, pos + 1)));
                    lemma_then_ok(o, seq![r@[pos as int]], rewrite_from(r@, pos + 1));
                }
                out.push(r[pos]);
                pos += 1;
                proof {
                    assert(out@ =~= o + seq![r@[pos - 1]]);
                }
            },
        }
    }
    proof {
        assert(out@ + Seq::<char>::empty() =~= out@);
    }
    Ok(out)
}

/// Normalize authoring HTML before parsing: rewrite `<slot>` elements inside
/// `<select>` into `<script type="statica/slot">` carriers.
pub fn preprocess(input: &str) -> (res: Result<String, Error>)
    ensures
        match res {
            Ok(s) => preprocess_spec(input@) == Ok::<Seq<char>, Seq<char>>(s@),
            Err(e) => exists|m: Seq<char>| preprocess_spec(input@) == Err::<Seq<char>, Seq<char>>(m) && e@ == ErrorView::Msg(m),
        },
{
    let r = chars_of(input);
    proof {
        crate::text::lemma_byte_len_bound(r@);
    }
    let l = lower_vec(r.as_slice());
    let slot_open = lit("<slot");
    if find_at(l.as_slice(), 0, slot_open.as_slice()).is_none() {
        return Ok(String::from_str(input));
    }
    let select = lit("select");
    proof {
        reveal_strlit("</select>");
    }
    let mut out: Vec<char> = Vec::new();
    let mut pos: usize = 0;
    loop
        invariant
            r@ == input@,
            l@ == lower_seq(r@),
            r@.len() <= isize::MAX,
            select@ == "select"@,
            "</select>"@.len() == 9,
            find_from(lower_seq(input@), "<slot"@, 0) is Some,
            pos <= r@.len(),
            select_from(r@, 0) == then_ok(out@, select_from(r@, pos as int)),
        decreases r@.len() - pos,
    {
        let ghost o = out@;
        let start = match find_tag_open(l.as_slice(), pos, select.as_slice()) {
            Some(s) => s,
            None => {
                push_range(&mut out, r.as_slice(), pos, r.len());
                proof {
                    assert(r@.skip(pos as int) =~= r@.subrange(pos as int, r@.len() as int));
                }
                return Ok(string_of(out.as_slice()));
            },
        };
        let open_end = match find_gt(r.as_slice(), start) {
            Some(e) => e,
            None => return Err(Error::msg("unclosed tag")),
        };
        let inner_end = match find_closing_tag(l.as_slice(), open_end, select.as_slice()) {
            Some(e) => e,
            None => {
                let m = unclosed_elem_msg(select.as_slice());
                return Err(Error::msg(m.as_str()));
            },
        };
        if !(pos <= start && start < open_end && open_end <= inner_end && inner_end + 9 <= r.len()) {
            return Err(Error::msg("unclosed tag"));
        }
        let sub_r = slice_subrange(r.as_slice(), open_end, inner_end);
        let sub_l = slice_subrange(l.as_slice(), open_end, inner_end);
        proof {
            assert(sub_l@ =~= lower_seq(sub_r@));
        }
        let inner = match rewrite_select_inner(sub_r, sub_l) {
            Ok(v) => v,
            Err(m) => return Err(Error::msg(m.as_str())),
        };
        push_range(&mut out, r.as_slice(), pos, open_end);
        push_all(&mut out, inner.as_slice());
        let close = lit("</select>");
        push_all(&mut out, close.as_slice());
        proof {
            let x = r@.subrange(pos as int, open_end as int) + inner@ + "</select>"@;
            assert(select_from(r@, pos as int) == then_ok(x, select_from(r@, inner_end + 9)));
            lemma_then_ok(o, x, select_from(r@, inner_end + 9));
            assert(out@ =~= o + x);
        }
        pos = inner_end + 9;
    }
}


/// Documents without a `<select …>` open tag pass through unchanged.
pub proof fn law_no_select_is_identity(input: Seq<char>)
    requires
        tag_open_from(lower_seq(input), 0, "select"@) is None,
    ensures
        preprocess_spec(input) == Ok::<Seq<char>, Seq<char>>(input),
{
    assert(input.skip(0) =~= input);
}

} // verus!
