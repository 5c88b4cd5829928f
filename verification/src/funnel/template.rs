//! statica `${path}` template token parsing.

use vstd::prelude::*;

use crate::funnel::json::{path_value, path_value_spec, value_as_str, value_as_str_spec};
use crate::funnel::value::{JsonView, Value};
use crate::text::{
    char_index, chars_of, find_at, find_char_in, find_from, lemma_find_from_bounds, split_on,
    split_ranges, string_range, trim, trim_range,
};

verus! {

/// ASCII letter or `_`.
pub open spec fn ident_start(c: char) -> bool {
    ('a' <= c && c <= 'z') || ('A' <= c && c <= 'Z') || c == '_'
}

/// ASCII letter, digit or `_`.
pub open spec fn ident_char(c: char) -> bool {
    ident_start(c) || ('0' <= c && c <= '9')
}

/// An identifier: a letter or `_`, then letters, digits or `_`.
pub open spec fn is_identifier_spec(s: Seq<char>) -> bool {
    &&& s.len() > 0
    &&& ident_start(s[0])
    &&& forall|i: int| 1 <= i < s.len() ==> ident_char(#[trigger] s[i])
}

/// Whether `v[lo..hi]` is an identifier.
pub fn is_identifier_range(v: &[char], lo: usize, hi: usize) -> (r: bool)
    requires
        lo <= hi <= v@.len(),
    ensures
        r == is_identifier_spec(v@.subrange(lo as int, hi as int)),
{
    let ghost s = v@.subrange(lo as int, hi as int);
    if lo == hi {
        return false;
    }
    let c = v[lo];
    if !(('a' <= c && c <= 'z') || ('A' <= c && c <= 'Z') || c == '_') {
        return false;
    }
    let mut i = lo + 1;
    while i < hi
        invariant
            lo < i <= hi <= v@.len(),
            s == v@.subrange(lo as int, hi as int),
            forall|j: int| 1 <= j < i - lo ==> ident_char(#[trigger] s[j]),
        decreases hi - i,
    {
        let c = v[i];
        if !(('a' <= c && c <= 'z') || ('A' <= c && c <= 'Z') || c == '_' || ('0' <= c && c <= '9')) {
            proof {
                assert(!ident_char(s[i - lo]));
            }
            return false;
        }
        i += 1;
    }
    true
}

/// Whether `s` is an identifier.
pub fn is_identifier(s: &str) -> (r: bool)
    ensures
        r == is_identifier_spec(s@),
{
    let v = chars_of(s);
    proof {
        assert(v@.subrange(0, v@.len() as int) =~= v@);
    }
    is_identifier_range(v.as_slice(), 0, v.len())
}

/// A trimmed, non-empty dotted path of identifiers, e.g. `item.title`.
pub open spec fn dotted_path_spec(raw: Seq<char>) -> Option<Seq<char>> {
    let t = trim(raw);
    if t.len() == 0 || !(forall|i: int| 0 <= i < split_on(t, '.').len() ==> is_identifier_spec(#[trigger] split_on(t, '.')[i])) {
        None
    } else {
        Some(t)
    }
}

/// Whether every `.`-separated part of `v[lo..hi]` is an identifier.
fn all_parts_identifiers(v: &Vec<char>, lo: usize, hi: usize) -> (r: bool)
    requires
        lo <= hi <= v@.len(),
    ensures
        r == forall|i: int|
            0 <= i < split_on(v@.subrange(lo as int, hi as int), '.').len() ==> is_identifier_spec(
                #[trigger] split_on(v@.subrange(lo as int, hi as int), '.')[i],
            ),
{
    let ghost parts = split_on(v@.subrange(lo as int, hi as int), '.');
    let ranges = split_ranges(v.as_slice(), lo, hi, '.');
    let mut k: usize = 0;
    while k < ranges.len()
        invariant
            k <= ranges@.len(),
            lo <= hi <= v@.len(),
            parts == split_on(v@.subrange(lo as int, hi as int), '.'),
            ranges@.len() == parts.len(),
            forall|j: int|
                0 <= j < ranges@.len() ==> {
                    &&& lo <= (#[trigger] ranges@[j]).0 <= ranges@[j].1 <= hi
                    &&& v@.subrange(ranges@[j].0 as int, ranges@[j].1 as int) == parts[j]
                },
            forall|j: int| 0 <= j < k ==> is_identifier_spec(#[trigger] parts[j]),
        decreases ranges@.len() - k,
    {
        let (a, b) = ranges[k];
        proof {
            assert(v@.subrange(ranges@[k as int].0 as int, ranges@[k as int].1 as int) == parts[k as int]);
        }
        if !is_identifier_range(v.as_slice(), a, b) {
            return false;
        }
        k += 1;
    }
    true
}

/// Dotted identifier path, e.g. `item.title`.
#[derive(Debug, Clone, PartialEq, Eq)]
pub struct DottedPath(String);

impl DottedPath {
    pub closed spec fn view_path(&self) -> Seq<char> {
        self.0@
    }

    pub fn parse(raw: &str) -> (r: Option<Self>)
        ensures
            match r {
                Some(p) => dotted_path_spec(raw@) == Some(p.view_path()),
                None => dotted_path_spec(raw@) is None,
            },
    {
        let v = chars_of(raw);
        let (a, b) = trim_range(v.as_slice(), 0, v.len());
        proof {
            assert(v@.subrange(0, v@.len() as int) =~= v@);
        }
        if a == b || !all_parts_identifiers(&v, a, b) {
            return None;
        }
        Some(DottedPath(string_range(v.as_slice(), a, b)))
    }

    /// First segment of the path.
    pub fn root(&self) -> (r: String)
        ensures
            r@ == split_on(self.view_path(), '.')[0],
    {
        let v = chars_of(self.0.as_str());
        let ranges = split_ranges(v.as_slice(), 0, v.len(), '.');
        proof {
            assert(v@.subrange(0, v@.len() as int) =~= v@);
            crate::text::lemma_split_nonempty(v@, '.');
        }
        let (a, b) = ranges[0];
        string_range(v.as_slice(), a, b)
    }

    pub fn as_str(&self) -> (r: &str)
        ensures
            r@ == self.view_path(),
    {
        self.0.as_str()
    }
}

/// Mathematical value of a [`TemplatePlaceholder`].
pub enum PlaceholderView {
    Path(Seq<char>),
    Expression(Seq<char>),
}

/// A trimmed, non-empty placeholder: a dotted path, or an expression.
pub open spec fn placeholder_spec(raw: Seq<char>) -> Option<PlaceholderView> {
    let t = trim(raw);
    if t.len() == 0 {
        None
    } else {
        match dotted_path_spec(raw) {
            Some(p) => Some(PlaceholderView::Path(p)),
            None => Some(PlaceholderView::Expression(t)),
        }
    }
}

#[derive(Debug, Clone, PartialEq, Eq)]
pub enum TemplatePlaceholder {
    Path(DottedPath),
    Expression(String),
}

impl TemplatePlaceholder {
    pub open spec fn view_placeholder(&self) -> PlaceholderView {
        match self {
            TemplatePlaceholder::Path(p) => PlaceholderView::Path(p.view_path()),
            TemplatePlaceholder::Expression(e) => PlaceholderView::Expression(e@),
        }
    }

    pub fn parse(raw: &str) -> (r: Option<Self>)
        ensures
            match r {
                Some(p) => placeholder_spec(raw@) == Some(p.view_placeholder()),
                None => placeholder_spec(raw@) is None,
            },
    {
        let v = chars_of(raw);
        let (a, b) = trim_range(v.as_slice(), 0, v.len());
        proof {
            assert(v@.subrange(0, v@.len() as int) =~= v@);
        }
        if a == b {
            return None;
        }
        match DottedPath::parse(raw) {
            Some(path) => Some(TemplatePlaceholder::Path(path)),
            None => Some(TemplatePlaceholder::Expression(string_range(v.as_slice(), a, b))),
        }
    }
}

/// Mathematical value of a [`TemplateToken`].
pub enum TokenView {
    Text(Seq<char>),
    Placeholder(PlaceholderView),
}

#[derive(Debug, Clone, PartialEq, Eq)]
pub enum TemplateToken<'a> {
    Text(&'a str),
    Placeholder(TemplatePlaceholder),
}

impl<'a> TemplateToken<'a> {
    pub open spec fn view_token(&self) -> TokenView {
        match self {
            TemplateToken::Text(t) => TokenView::Text(t@),
            TemplateToken::Placeholder(p) => TokenView::Placeholder(p.view_placeholder()),
        }
    }
}

pub open spec fn token_views<'a>(v: Seq<TemplateToken<'a>>) -> Seq<TokenView> {
    v.map_values(|t: TemplateToken<'a>| t.view_token())
}

/// `s[pos..]` as a text token, when non-empty.
pub open spec fn tail_text(s: Seq<char>, pos: int) -> Seq<TokenView> {
    if pos < s.len() {
        seq![TokenView::Text(s.subrange(pos, s.len() as int))]
    } else {
        Seq::empty()
    }
}

/// Tokens of `s` from `pos`: text runs, and one placeholder for each
/// `${…}` closed by a later `}` (an unclosed `${` ends the scan, leaving the
/// rest as text; blank `${ }` placeholders vanish).
pub open spec fn tokens_from(s: Seq<char>, pos: int) -> Seq<TokenView>
    decreases s.len() - pos,
{
    if pos < 0 || pos > s.len() {
        Seq::empty()
    } else {
        match find_from(s, "${"@, pos) {
            Some(start) => if start + 2 <= s.len() && start >= pos {
                match char_index(s.subrange(start + 2, s.len() as int), '}') {
                    Some(k) => {
                        let end = start + 2 + k;
                        let text = if pos < start {
                            seq![TokenView::Text(s.subrange(pos, start))]
                        } else {
                            Seq::empty()
                        };
                        let ph = match placeholder_spec(s.subrange(start + 2, end)) {
                            Some(p) => seq![TokenView::Placeholder(p)],
                            None => Seq::empty(),
                        };
                        if end + 1 > pos && end < s.len() {
                            text + ph + tokens_from(s, end + 1)
                        } else {
                            Seq::empty()
                        }
                    },
                    None => tail_text(s, pos),
                }
            } else {
                Seq::empty()
            },
            None => tail_text(s, pos),
        }
    }
}

pub fn has_template_tokens(raw: &str) -> (r: bool)
    ensures
        r == (find_from(raw@, "${"@, 0) is Some),
{
    let v = chars_of(raw);
    let pat = chars_of("${");
    find_at(v.as_slice(), 0, pat.as_slice()).is_some()
}

/// Split `raw` into text and `${…}` placeholder tokens.
pub fn template_tokens(raw: &str) -> (r: Vec<TemplateToken<'_>>)
    ensures
        token_views(r@) == tokens_from(raw@, 0),
{
    let v = chars_of(raw);
    let pat = chars_of("${");
    let n = v.len();
    let mut out: Vec<TemplateToken<'_>> = Vec::new();
    let mut scan_at: usize = 0;
    proof {
        reveal_strlit("${");
        assert(token_views(out@) =~= Seq::<TokenView>::empty());
    }
    loop
        invariant
            v@ == raw@,
            pat@ == "${"@,
            pat@.len() == 2,
            n == v@.len(),
            scan_at <= n,
            tokens_from(raw@, 0) == token_views(out@) + tokens_from(raw@, scan_at as int),
        ensures
            scan_at <= n,
            tokens_from(raw@, 0) == token_views(out@) + tail_text(raw@, scan_at as int),
        decreases n - scan_at,
    {
        let found = find_at(v.as_slice(), scan_at, pat.as_slice());
        proof {
            lemma_find_from_bounds(v@, pat@, scan_at as int);
        }
        let start = match found {
            Some(s) => s,
            None => break,
        };
        let close = find_char_in(v.as_slice(), start + 2, n, '}');
        proof {
            crate::text::lemma_char_index(v@.subrange(start + 2, n as int), '}');
        }
        let end = match close {
            Some(e) => e,
            None => break,
        };
        let ghost old_out = out@;
        if scan_at < start {
            out.push(TemplateToken::Text(raw.substring_char(scan_at, start)));
        }
        let expr = raw.substring_char(start + 2, end);
        match TemplatePlaceholder::parse(expr) {
            Some(p) => out.push(TemplateToken::Placeholder(p)),
            None => {},
        }
        proof {
            let text = if scan_at < start {
                seq![TokenView::Text(raw@.subrange(scan_at as int, start as int))]
            } else {
                Seq::empty()
            };
            let ph = match placeholder_spec(raw@.subrange(start + 2, end as int)) {
                Some(p) => seq![TokenView::Placeholder(p)],
                None => Seq::empty(),
            };
            assert(token_views(out@) =~= token_views(old_out) + text + ph);
        }
        scan_at = end + 1;
    }
    if scan_at < n {
        let ghost old_out = out@;
        out.push(TemplateToken::Text(raw.substring_char(scan_at, n)));
        proof {
            assert(token_views(out@) =~= token_views(old_out) + tail_text(raw@, scan_at as int));
        }
    } else {
        proof {
            assert(tail_text(raw@, scan_at as int) =~= Seq::<TokenView>::empty());
            assert(token_views(out@) =~= token_views(out@) + tail_text(raw@, scan_at as int));
        }
    }
    out
}

/// Why a dynamic attribute cannot be expanded.
#[derive(Debug, Clone, PartialEq, Eq)]
pub enum DynamicAttributeError {
    Expression(String),
    MissingPath(String),
    NonScalar(String),
}

impl DynamicAttributeError {
    /// The placeholder as the author wrote it: `${…}`.
    pub fn authored(&self) -> (r: String)
        ensures
            r@ == "${"@ + match self {
                DynamicAttributeError::Expression(e) => e@,
                DynamicAttributeError::MissingPath(p) => p@,
                DynamicAttributeError::NonScalar(p) => p@,
            } + "}"@,
    {
        let inner = match self {
            DynamicAttributeError::Expression(e) => e,
            DynamicAttributeError::MissingPath(p) => p,
            DynamicAttributeError::NonScalar(p) => p,
        };
        let mut out = String::from_str("${");
        out.append(inner.as_str());
        out.append("}");
        out
    }

    pub open spec fn message_spec(&self) -> Seq<char> {
        match self {
            DynamicAttributeError::Expression(e) => "template placeholder `${"@ + e@
                + "}` must be a dotted identifier path, not a JS expression"@,
            DynamicAttributeError::MissingPath(p) => "template placeholder `${"@ + p@
                + "}` is not defined in this context"@,
            DynamicAttributeError::NonScalar(p) => "template placeholder `${"@ + p@
                + "}` must resolve to a string, number, boolean, or null"@,
        }
    }

    /// Human-readable explanation.
    pub fn message(&self) -> (r: String)
        ensures
            r@ == self.message_spec(),
    {
        let (inner, tail) = match self {
            DynamicAttributeError::Expression(e) => (e, "}` must be a dotted identifier path, not a JS expression"),
            DynamicAttributeError::MissingPath(p) => (p, "}` is not defined in this context"),
            DynamicAttributeError::NonScalar(p) => (p, "}` must resolve to a string, number, boolean, or null"),
        };
        let mut out = String::from_str("template placeholder `${");
        out.append(inner.as_str());
        out.append(tail);
        out
    }
}

// ---------------------------------------------------------------------------
// Dynamic attributes

/// Mathematical value of a [`DynamicAttributeError`].
pub enum DynErrView {
    Expression(Seq<char>),
    MissingPath(Seq<char>),
    NonScalar(Seq<char>),
}

pub open spec fn dyn_err_view(e: DynamicAttributeError) -> DynErrView {
    match e {
        DynamicAttributeError::Expression(x) => DynErrView::Expression(x@),
        DynamicAttributeError::MissingPath(p) => DynErrView::MissingPath(p@),
        DynamicAttributeError::NonScalar(p) => DynErrView::NonScalar(p@),
    }
}

/// The text of one token in `ctx`: text as written, a path as the scalar
/// it resolves to; an undefined path, a list or object, or an expression
/// is an error.
pub open spec fn token_text(t: TokenView, ctx: JsonView) -> Result<Seq<char>, DynErrView> {
    match t {
        TokenView::Text(x) => Ok(x),
        TokenView::Placeholder(PlaceholderView::Path(p)) => match path_value_spec(ctx, p) {
            None => Err(DynErrView::MissingPath(p)),
            Some(v) => match value_as_str_spec(v) {
                Some(x) => Ok(x),
                None => Err(DynErrView::NonScalar(p)),
            },
        },
        TokenView::Placeholder(PlaceholderView::Expression(e)) => Err(DynErrView::Expression(e)),
    }
}

/// The tokens' texts joined; the first failing token is the error.
pub open spec fn expand_tokens(ts: Seq<TokenView>, ctx: JsonView) -> Result<Seq<char>, DynErrView>
    decreases ts.len(),
{
    if ts.len() == 0 {
        Ok(Seq::empty())
    } else {
        match expand_tokens(ts.drop_last(), ctx) {
            Err(e) => Err(e),
            Ok(pre) => match token_text(ts.last(), ctx) {
                Ok(t) => Ok(pre + t),
                Err(e) => Err(e),
            },
        }
    }
}

proof fn lemma_expand_err_prefix(ts: Seq<TokenView>, ctx: JsonView, k: int)
    requires
        0 <= k <= ts.len(),
        expand_tokens(ts.take(k), ctx) is Err,
    ensures
        expand_tokens(ts, ctx) == expand_tokens(ts.take(k), ctx),
    decreases ts.len() - k,
{
    if k < ts.len() {
        assert(ts.take(k + 1).drop_last() =~= ts.take(k));
        lemma_expand_err_prefix(ts, ctx, k + 1);
    } else {
        assert(ts.take(k) =~= ts);
    }
}

/// Expand a dynamic attribute (a data `href` with `${path}` placeholders)
/// from `context`: each placeholder must be a dotted path to a defined
/// scalar.
pub fn expand_dynamic_attribute(raw: &str, context: &Value) -> (r: Result<String, DynamicAttributeError>)
    ensures
        match expand_tokens(tokens_from(raw@, 0), context@) {
            Ok(t) => r matches Ok(x) && x@ == t,
            Err(e) => r matches Err(x) && dyn_err_view(x) == e,
        },
{
    let tokens = template_tokens(raw);
    let ghost ts = token_views(tokens@);
    let mut out = String::new();
    let mut i: usize = 0;
    proof {
        assert(ts.take(0) =~= Seq::<TokenView>::empty());
    }
    while i < tokens.len()
        invariant
            i <= tokens@.len(),
            ts == token_views(tokens@),
            ts == tokens_from(raw@, 0),
            ts.len() == tokens@.len(),
            expand_tokens(ts.take(i as int), context@) == Ok::<Seq<char>, DynErrView>(out@),
        decreases tokens@.len() - i,
    {
        proof {
            assert(ts.take(i + 1).drop_last() =~= ts.take(i as int));
            assert(ts.take(i + 1).last() == tokens@[i as int].view_token());
        }
        match &tokens[i] {
            TemplateToken::Text(t) => {
                out.append(t);
            },
            TemplateToken::Placeholder(TemplatePlaceholder::Path(p)) => {
                match path_value(context, p.as_str()) {
                    None => {
                        proof {
                            lemma_expand_err_prefix(ts, context@, i + 1);
                        }
                        return Err(DynamicAttributeError::MissingPath(String::from_str(p.as_str())));
                    },
                    Some(v) => match value_as_str(v) {
                        Some(x) => {
                            out.append(x.as_str());
                        },
                        None => {
                            proof {
                                lemma_expand_err_prefix(ts, context@, i + 1);
                            }
                            return Err(DynamicAttributeError::NonScalar(String::from_str(p.as_str())));
                        },
                    },
                }
            },
            TemplateToken::Placeholder(TemplatePlaceholder::Expression(e)) => {
                proof {
                    lemma_expand_err_prefix(ts, context@, i + 1);
                }
                return Err(DynamicAttributeError::Expression(e.clone()));
            },
        }
        i += 1;
    }
    proof {
        assert(ts.take(i as int) =~= ts);
    }
    Ok(out)
}

} // verus!
