//! Funnel content sources: which format a data file holds, and how a glob
//! `href` splits into a base directory and a pattern.
//!
//! Reading and decoding the files is the application's job.

use vstd::prelude::*;

use crate::error::{Error, ErrorView};
use crate::funnel::value::{copy_values, elems_view, members_view, JsonView, Value};
use crate::loc::diag_at_file;
use crate::aliases::{path_join, path_join_spec, resolve_local_href, resolve_local_href_spec};
use crate::paths::{components, components_of, extension, extension_spec, normalize_path, normalize_spec, render, render_components};
use crate::text::{
    char_index, chars_of, line_ranges, lines, contains_char, has_prefix, join, join_strings, lower_seq, lower_string,
    str_eq, str_starts_with, string_range, trim, trim_range, trim_str, views,
};

verus! {

/// Data source formats statica can infer from a path or accept from a `type` attr.
#[derive(Debug, Clone, Copy, PartialEq, Eq)]
pub enum DataKind {
    Json,
    Jsonl,
    Csv,
    Text,
    Markdown,
    Glob,
}

pub open spec fn kind_of_extension(ext: Seq<char>) -> Option<DataKind> {
    if ext == "json"@ {
        Some(DataKind::Json)
    } else if ext == "jsonl"@ || ext == "ndjson"@ {
        Some(DataKind::Jsonl)
    } else if ext == "csv"@ {
        Some(DataKind::Csv)
    } else if ext == "txt"@ || ext == "text"@ {
        Some(DataKind::Text)
    } else if ext == "md"@ || ext == "markdown"@ {
        Some(DataKind::Markdown)
    } else {
        None
    }
}

/// The MIME part of a `type` attribute: trimmed, lowercased, before any `;`.
pub open spec fn mime_part(raw: Seq<char>) -> Seq<char> {
    let r = lower_seq(trim(raw));
    match char_index(r, ';') {
        Some(i) => trim(r.take(i)),
        None => r,
    }
}

pub open spec fn kind_of_type(raw: Seq<char>) -> Option<DataKind> {
    let m = mime_part(raw);
    if m == "json"@ || m == "application/json"@ || m == "text/json"@ {
        Some(DataKind::Json)
    } else if m == "jsonl"@ || m == "ndjson"@ || m == "application/jsonl"@ || m == "application/x-jsonlines"@
        || m == "application/x-ndjson"@ || m == "application/ndjson"@ {
        Some(DataKind::Jsonl)
    } else if m == "csv"@ || m == "text/csv"@ || m == "application/csv"@ {
        Some(DataKind::Csv)
    } else if m == "text"@ || m == "plain"@ || m == "text/plain"@ {
        Some(DataKind::Text)
    } else if m == "md"@ || m == "markdown"@ || m == "text/markdown"@ || m == "text/x-markdown"@ {
        Some(DataKind::Markdown)
    } else {
        None
    }
}

impl DataKind {
    pub fn from_extension(ext: &str) -> (r: Option<Self>)
        ensures
            r == kind_of_extension(ext@),
    {
        if str_eq(ext, "json") {
            Some(DataKind::Json)
        } else if str_eq(ext, "jsonl") || str_eq(ext, "ndjson") {
            Some(DataKind::Jsonl)
        } else if str_eq(ext, "csv") {
            Some(DataKind::Csv)
        } else if str_eq(ext, "txt") || str_eq(ext, "text") {
            Some(DataKind::Text)
        } else if str_eq(ext, "md") || str_eq(ext, "markdown") {
            Some(DataKind::Markdown)
        } else {
            None
        }
    }

    /// The format of a path, by its extension.
    pub fn from_path(path: &str) -> (r: Option<Self>)
        ensures
            r == match extension_spec(path@) {
                Some(e) => kind_of_extension(e),
                None => None,
            },
    {
        match extension(path) {
            Some(e) => DataKind::from_extension(e.as_str()),
            None => None,
        }
    }

    /// The format named by a `type` attribute (MIME parameters ignored).
    pub fn from_type_attr(raw: &str) -> (r: Option<Self>)
        ensures
            r == kind_of_type(raw@),
    {
        let l = lower_string(trim_str(raw).as_str());
        let v = chars_of(l.as_str());
        let m = match crate::text::find_char_in(v.as_slice(), 0, v.len(), ';') {
            Some(i) => {
                proof {
                    assert(v@.subrange(0, v@.len() as int) =~= v@);
                    assert(v@.take(i as int) =~= v@.subrange(0, i as int));
                }
                let (a, b) = trim_range(v.as_slice(), 0, i);
                string_range(v.as_slice(), a, b)
            },
            None => {
                proof {
                    assert(v@.subrange(0, v@.len() as int) =~= v@);
                }
                l
            },
        };
        let s = m.as_str();
        if str_eq(s, "json") || str_eq(s, "application/json") || str_eq(s, "text/json") {
            Some(DataKind::Json)
        } else if str_eq(s, "jsonl") || str_eq(s, "ndjson") || str_eq(s, "application/jsonl") || str_eq(
            s,
            "application/x-jsonlines",
        ) || str_eq(s, "application/x-ndjson") || str_eq(s, "application/ndjson") {
            Some(DataKind::Jsonl)
        } else if str_eq(s, "csv") || str_eq(s, "text/csv") || str_eq(s, "application/csv") {
            Some(DataKind::Csv)
        } else if str_eq(s, "text") || str_eq(s, "plain") || str_eq(s, "text/plain") {
            Some(DataKind::Text)
        } else if str_eq(s, "md") || str_eq(s, "markdown") || str_eq(s, "text/markdown") || str_eq(
            s,
            "text/x-markdown",
        ) {
            Some(DataKind::Markdown)
        } else {
            None
        }
    }
}

/// Glob metacharacters: `*`, `?`, `[`, `{`.
pub open spec fn has_glob_meta_spec(s: Seq<char>) -> bool {
    s.contains('*') || s.contains('?') || s.contains('[') || s.contains('{')
}

pub fn is_glob_href(href: &str) -> (r: bool)
    ensures
        r == has_glob_meta_spec(href@),
{
    let v = chars_of(href);
    proof {
        assert(v@.subrange(0, v@.len() as int) =~= v@);
    }
    contains_char(v.as_slice(), 0, v.len(), '*') || contains_char(v.as_slice(), 0, v.len(), '?')
        || contains_char(v.as_slice(), 0, v.len(), '[') || contains_char(v.as_slice(), 0, v.len(), '{')
}

/// Index of the first component holding a glob metacharacter.
pub open spec fn meta_index(cs: Seq<Seq<char>>) -> nat
    decreases cs.len(),
{
    if cs.len() == 0 || has_glob_meta_spec(cs[0]) {
        0
    } else {
        1 + meta_index(cs.drop_first())
    }
}

proof fn lemma_meta_index(cs: Seq<Seq<char>>)
    ensures
        meta_index(cs) <= cs.len(),
        forall|j: int| 0 <= j < meta_index(cs) ==> !has_glob_meta_spec(#[trigger] cs[j]),
        meta_index(cs) < cs.len() ==> has_glob_meta_spec(cs[meta_index(cs) as int]),
    decreases cs.len(),
{
    if cs.len() > 0 && !has_glob_meta_spec(cs[0]) {
        lemma_meta_index(cs.drop_first());
        assert forall|j: int| 1 <= j < cs.len() implies cs[j] == cs.drop_first()[j - 1] by {}
    }
}

/// Where a glob's fixed leading components point: the page directory when
/// there are none; an absolute prefix as is; `./dir/…` from the site root,
/// `./x` from the page directory; other prefixes as local hrefs.
pub open spec fn glob_base_spec(site_root: Seq<char>, page_dir: Seq<char>, prefix: Seq<Seq<char>>) -> Seq<char> {
    let text = render(prefix);
    if prefix.len() == 0 {
        page_dir
    } else if prefix[0] == "/"@ {
        text
    } else if has_prefix(text, "./"@) {
        if text.skip(2).contains('/') {
            path_join_spec(site_root, text.skip(2))
        } else {
            path_join_spec(page_dir, text)
        }
    } else {
        resolve_local_href_spec(site_root, page_dir, text)
    }
}

/// `(base directory, pattern)` of a glob `href`: the base is normalized; the
/// pattern is the components from the first one with a metacharacter, joined by `/`.
pub open spec fn glob_split_spec(site_root: Seq<char>, page_dir: Seq<char>, pattern: Seq<char>) -> (Seq<char>, Seq<char>) {
    let cs = components(pattern);
    let k = meta_index(cs) as int;
    (normalize_spec(glob_base_spec(site_root, page_dir, cs.take(k))), join(cs.skip(k), "/"@))
}

fn has_glob_meta(part: &str) -> (r: bool)
    ensures
        r == has_glob_meta_spec(part@),
{
    is_glob_href(part)
}

pub fn glob_base_and_pattern(site_root: &str, page_dir: &str, pattern: &str) -> (r: (String, String))
    ensures
        (r.0@, r.1@) == glob_split_spec(site_root@, page_dir@, pattern@),
{
    let cs = components_of(pattern);
    let ghost cv = views(cs@);
    proof {
        lemma_meta_index(cv);
    }
    let mut k: usize = 0;
    while k < cs.len() && !has_glob_meta(cs[k].as_str())
        invariant
            k <= cs@.len(),
            cv == views(cs@),
            meta_index(cv) <= cs@.len(),
            forall|j: int| 0 <= j < meta_index(cv) ==> !has_glob_meta_spec(#[trigger] cv[j]),
            meta_index(cv) < cv.len() ==> has_glob_meta_spec(cv[meta_index(cv) as int]),
            k <= meta_index(cv),
        decreases cs@.len() - k,
    {
        k += 1;
    }
    proof {
        if k < meta_index(cv) {
            assert(!has_glob_meta_spec(cv[k as int]));
        }
        assert(k == meta_index(cv));
    }
    let mut prefix: Vec<String> = Vec::new();
    let mut rest: Vec<String> = Vec::new();
    let mut i: usize = 0;
    while i < cs.len()
        invariant
            i <= cs@.len(),
            k <= cs@.len(),
            cv == views(cs@),
            views(prefix@) == cv.take(if i < k { i as int } else { k as int }),
            views(rest@) == (if i <= k { Seq::<Seq<char>>::empty() } else { cv.subrange(k as int, i as int) }),
        decreases cs@.len() - i,
    {
        let ghost bp = views(prefix@);
        let ghost br = views(rest@);
        if i < k {
            prefix.push(String::from_str(cs[i].as_str()));
            proof {
                assert(views(prefix@) =~= bp.push(cv[i as int]));
                assert(cv.take(i + 1) =~= cv.take(i as int).push(cv[i as int]));
            }
        } else {
            rest.push(String::from_str(cs[i].as_str()));
            proof {
                assert(views(rest@) =~= br.push(cv[i as int]));
                assert(cv.subrange(k as int, i + 1) =~= (if i <= k { Seq::<Seq<char>>::empty() } else { cv.subrange(k as int, i as int) }).push(cv[i as int]));
            }
        }
        i += 1;
    }
    proof {
        assert(views(rest@) =~= cv.skip(k as int));
    }
    let text = render_components(&prefix);
    let base = if prefix.len() == 0 {
        String::from_str(page_dir)
    } else if str_eq(prefix[0].as_str(), "/") {
        text
    } else if str_starts_with(text.as_str(), "./") {
        let tv = chars_of(text.as_str());
        proof {
            reveal_strlit("./");
            assert(tv@.subrange(2, tv@.len() as int) =~= text@.skip(2));
        }
        if contains_char(tv.as_slice(), 2, tv.len(), '/') {
            let r = string_range(tv.as_slice(), 2, tv.len());
            path_join(site_root, r.as_str())
        } else {
            path_join(page_dir, text.as_str())
        }
    } else {
        resolve_local_href(site_root, page_dir, text.as_str())
    };
    (normalize_path(base.as_str()), join_strings(&rest, "/"))
}

/// Loaded data, by the format it was read from.
#[derive(Debug)]
pub enum DataSet {
    /// A JSON document.
    Json(Value),
    /// One record per line (JSONL) or row (CSV).
    Records(Vec<Value>),
    /// Plain text lines.
    Lines(Vec<String>),
    /// A Markdown document as `{ meta…, html }`.
    Markdown(Value),
    /// Every file a glob matched, in order.
    Glob(Vec<DataSet>),
}

/// Text lines as JSON strings.
pub open spec fn lines_view(l: Seq<String>) -> Seq<JsonView> {
    Seq::new(l.len(), |i: int| JsonView::String(l[i]@))
}

/// The value a data set stands for in the funnel.
pub open spec fn dataset_value(d: DataSet) -> JsonView
    decreases d,
{
    match d {
        DataSet::Json(v) => v@,
        DataSet::Markdown(v) => v@,
        DataSet::Records(r) => JsonView::Array(elems_view(r@)),
        DataSet::Lines(l) => JsonView::Array(lines_view(l@)),
        DataSet::Glob(items) => JsonView::Array(
            Seq::new(items@.len(), |i: int| if 0 <= i < items@.len() { dataset_value(items@[i]) } else { JsonView::Null }),
        ),
    }
}

/// The items of a data set that is a list (not a single document).
pub open spec fn dataset_array(d: DataSet) -> Option<Seq<JsonView>> {
    match d {
        DataSet::Json(v) => match v@ {
            JsonView::Array(a) => Some(a),
            _ => None,
        },
        DataSet::Markdown(_) => None,
        _ => match dataset_value(d) {
            JsonView::Array(a) => Some(a),
            _ => None,
        },
    }
}

fn lines_values(l: &Vec<String>) -> (r: Vec<Value>)
    ensures
        elems_view(r@) == lines_view(l@),
{
    let mut out: Vec<Value> = Vec::new();
    let mut i: usize = 0;
    while i < l.len()
        invariant
            i <= l@.len(),
            out@.len() == i,
            forall|k: int| 0 <= k < i ==> (#[trigger] out@[k])@ == JsonView::String(l@[k]@),
        decreases l@.len() - i,
    {
        out.push(Value::String(l[i].clone()));
        i += 1;
    }
    proof {
        assert(elems_view(out@) =~= lines_view(l@));
    }
    out
}

impl DataSet {
    /// The data as one JSON value.
    pub fn to_value(&self) -> (r: Value)
        ensures
            r@ == dataset_value(*self),
        decreases self,
    {
        match self {
            DataSet::Json(v) => {
                let r = v.copy();
                proof {
                    assert(dataset_value(DataSet::Json(*v)) == v@);
                    assert(*self == DataSet::Json(*v));
                    assert(r@ == dataset_value(*self));
                }
                r
            },
            DataSet::Markdown(v) => {
                let r = v.copy();
                proof {
                    assert(dataset_value(DataSet::Markdown(*v)) == v@);
                }
                r
            },
            DataSet::Records(recs) => {
                let out = Value::Array(copy_values(recs.as_slice()));
                proof {
                    assert(out@ == dataset_value(*self));
                }
                out
            },
            DataSet::Lines(l) => {
                let out = Value::Array(lines_values(l));
                proof {
                    assert(out@ == dataset_value(*self));
                }
                out
            },
            DataSet::Glob(items) => {
                let mut out: Vec<Value> = Vec::new();
                let mut i: usize = 0;
                while i < items.len()
                    invariant
                        i <= items@.len(),
                        out@.len() == i,
                        *self == DataSet::Glob(*items),
                        forall|k: int| 0 <= k < i ==> (#[trigger] out@[k])@ == dataset_value(items@[k]),
                    decreases items@.len() - i,
                {
                    proof {
                        assert(decreases_to!(*items => items@));
                        assert(decreases_to!(items@ => items@[i as int]));
                        assert(decreases_to!(*self => (*self)->Glob_0));
                    }
                    out.push(items[i].to_value());
                    i += 1;
                }
                proof {
                    let want = match dataset_value(*self) {
                        JsonView::Array(a) => a,
                        _ => Seq::empty(),
                    };
                    assert(dataset_value(*self) is Array);
                    assert(want.len() == items@.len());
                    assert forall|k: int| 0 <= k < items@.len() implies want[k] == dataset_value(items@[k]) by {
                    }
                    assert(elems_view(out@) =~= want);
                }
                let res = Value::Array(out);
                proof {
                    assert(res@ == dataset_value(*self));
                }
                res
            },
        }
    }

    /// The items, when the data is a list.
    pub fn as_array(&self) -> (r: Option<Vec<Value>>)
        ensures
            match r {
                Some(v) => dataset_array(*self) == Some(elems_view(v@)),
                None => dataset_array(*self) is None,
            },
    {
        match self {
            DataSet::Json(Value::Array(items)) => Some(copy_values(items.as_slice())),
            DataSet::Json(_) => None,
            DataSet::Markdown(_) => None,
            _ => match self.to_value() {
                Value::Array(items) => Some(items),
                _ => None,
            },
        }
    }
}

// ---------------------------------------------------------------------------
// Reading data files

/// Each line trimmed, blank lines dropped.
pub open spec fn text_lines_from(ls: Seq<Seq<char>>) -> Seq<Seq<char>>
    decreases ls.len(),
{
    if ls.len() == 0 {
        Seq::empty()
    } else {
        let p = text_lines_from(ls.drop_last());
        let t = trim(ls.last());
        if t.len() > 0 {
            p.push(t)
        } else {
            p
        }
    }
}

/// The items of a plain-text data file: its lines, trimmed, without the
/// blank ones.
pub open spec fn text_lines_spec(text: Seq<char>) -> Seq<Seq<char>> {
    text_lines_from(lines(text))
}

/// The 1-based number and trimmed text of each non-blank line.
pub open spec fn jsonl_from(ls: Seq<Seq<char>>) -> Seq<(nat, Seq<char>)>
    decreases ls.len(),
{
    if ls.len() == 0 {
        Seq::empty()
    } else {
        let p = jsonl_from(ls.drop_last());
        let t = trim(ls.last());
        if t.len() > 0 {
            p.push((ls.len(), t))
        } else {
            p
        }
    }
}

/// The lines of a JSONL file that hold a value (see [`jsonl_from`]).
pub open spec fn jsonl_lines_spec(text: Seq<char>) -> Seq<(nat, Seq<char>)> {
    jsonl_from(lines(text))
}

/// The items of a plain-text data file (see [`text_lines_spec`]).
pub fn parse_text_lines(text: &str) -> (r: Vec<String>)
    ensures
        views(r@) == text_lines_spec(text@),
{
    let v = chars_of(text);
    let rs = line_ranges(v.as_slice());
    let ghost ls = lines(v@);
    let mut out: Vec<String> = Vec::new();
    let mut i: usize = 0;
    proof {
        assert(ls.take(0) =~= Seq::<Seq<char>>::empty());
        assert(views(out@) =~= Seq::<Seq<char>>::empty());
    }
    while i < rs.len()
        invariant
            i <= rs@.len(),
            v@ == text@,
            ls == lines(v@),
            rs@.len() == ls.len(),
            forall|k: int|
                0 <= k < rs@.len() ==> {
                    &&& (#[trigger] rs@[k]).0 <= rs@[k].1 <= v@.len()
                    &&& v@.subrange(rs@[k].0 as int, rs@[k].1 as int) == ls[k]
                },
            views(out@) == text_lines_from(ls.take(i as int)),
        decreases rs@.len() - i,
    {
        let (a, b) = rs[i];
        proof {
            assert(v@.subrange(rs@[i as int].0 as int, rs@[i as int].1 as int) == ls[i as int]);
            assert(ls.take(i + 1).drop_last() =~= ls.take(i as int));
            assert(ls.take(i + 1).last() == ls[i as int]);
        }
        let (ta, tb) = trim_range(v.as_slice(), a, b);
        if ta < tb {
            let ghost before = views(out@);
            let t = string_range(v.as_slice(), ta, tb);
            let ghost tv = t@;
            out.push(t);
            proof {
                assert(views(out@) =~= before.push(tv));
            }
        }
        i += 1;
    }
    proof {
        assert(ls.take(i as int) =~= ls);
    }
    out
}

/// The non-blank lines of a JSONL file, each with its 1-based line number
/// (see [`jsonl_lines_spec`]); parsing each line is the JSON reader's part.
pub fn jsonl_lines(text: &str) -> (r: Vec<(usize, String)>)
    ensures
        r@.map_values(|p: (usize, String)| (p.0 as nat, p.1@)) == jsonl_lines_spec(text@),
{
    let v = chars_of(text);
    let rs = line_ranges(v.as_slice());
    let ghost ls = lines(v@);
    let mut out: Vec<(usize, String)> = Vec::new();
    let mut i: usize = 0;
    proof {
        assert(ls.take(0) =~= Seq::<Seq<char>>::empty());
        assert(out@.map_values(|p: (usize, String)| (p.0 as nat, p.1@)) =~= Seq::<(nat, Seq<char>)>::empty());
    }
    while i < rs.len()
        invariant
            i <= rs@.len(),
            v@ == text@,
            ls == lines(v@),
            rs@.len() == ls.len(),
            forall|k: int|
                0 <= k < rs@.len() ==> {
                    &&& (#[trigger] rs@[k]).0 <= rs@[k].1 <= v@.len()
                    &&& v@.subrange(rs@[k].0 as int, rs@[k].1 as int) == ls[k]
                },
            out@.map_values(|p: (usize, String)| (p.0 as nat, p.1@)) == jsonl_from(ls.take(i as int)),
        decreases rs@.len() - i,
    {
        let (a, b) = rs[i];
        proof {
            assert(v@.subrange(rs@[i as int].0 as int, rs@[i as int].1 as int) == ls[i as int]);
            assert(ls.take(i + 1).drop_last() =~= ls.take(i as int));
            assert(ls.take(i + 1).last() == ls[i as int]);
            assert(ls.take(i + 1).len() == i + 1);
        }
        let (ta, tb) = trim_range(v.as_slice(), a, b);
        if ta < tb {
            let ghost before = out@.map_values(|p: (usize, String)| (p.0 as nat, p.1@));
            let t = string_range(v.as_slice(), ta, tb);
            let ghost tv = t@;
            out.push((i + 1, t));
            proof {
                assert(out@.map_values(|p: (usize, String)| (p.0 as nat, p.1@)) =~= before.push(((i + 1) as nat, tv)));
            }
        }
        i += 1;
    }
    proof {
        assert(ls.take(i as int) =~= ls);
    }
    out
}

/// The first problem with a CSV header row from `i` on: an empty header,
/// or one an earlier header already has.
pub open spec fn header_error_from(hs: Seq<Seq<char>>, i: int) -> Option<Seq<char>>
    decreases hs.len() - i,
{
    if i < 0 || i >= hs.len() {
        None
    } else if hs[i].len() == 0 {
        Some("CSV headers cannot be empty"@)
    } else if hs.take(i).contains(hs[i]) {
        Some("duplicate CSV header `"@ + hs[i] + "`"@)
    } else {
        header_error_from(hs, i + 1)
    }
}

/// Why a CSV header row is refused, if it is: it is missing, or a header
/// is empty or repeated (the first in order).
pub open spec fn csv_header_error(hs: Seq<Seq<char>>) -> Option<Seq<char>> {
    if hs.len() == 0 {
        Some("CSV data needs a header row"@)
    } else {
        header_error_from(hs, 0)
    }
}

/// A data file error at `path`.
pub open spec fn content_error_spec(path: Seq<char>, message: Seq<char>) -> ErrorView {
    ErrorView::Diag(diag_at_file(path, message))
}

/// Accept a CSV header row (see [`csv_header_error`]).
pub fn validate_csv_headers(headers: &[String], path: &str) -> (r: Result<(), Error>)
    ensures
        match csv_header_error(views(headers@)) {
            None => r is Ok,
            Some(m) => r matches Err(e) && e@ == content_error_spec(path@, m),
        },
{
    let ghost hs = views(headers@);
    if headers.len() == 0 {
        return Err(Error::at_file(path, "CSV data needs a header row"));
    }
    let mut i: usize = 0;
    while i < headers.len()
        invariant
            i <= headers@.len(),
            hs == views(headers@),
            hs.len() == headers@.len(),
            header_error_from(hs, 0) == header_error_from(hs, i as int),
        decreases headers@.len() - i,
    {
        proof {
            assert(hs[i as int] == headers@[i as int]@);
        }
        if headers[i].unicode_len() == 0 {
            return Err(Error::at_file(path, "CSV headers cannot be empty"));
        }
        proof {
            assert(hs[i as int].len() > 0);
        }
        let mut j: usize = 0;
        while j < i
            invariant
                j <= i < headers@.len(),
                hs == views(headers@),
                hs.len() == headers@.len(),
                forall|k: int| 0 <= k < j ==> hs[k] != hs[i as int],
                header_error_from(hs, 0) == header_error_from(hs, i as int),
                hs[i as int].len() > 0,
            decreases i - j,
        {
            proof {
                assert(hs[j as int] == headers@[j as int]@);
            }
            if str_eq(headers[j].as_str(), headers[i].as_str()) {
                proof {
                    assert(hs.take(i as int)[j as int] == hs[i as int]);
                    assert(hs.take(i as int).contains(hs[i as int]));
                }
                let mut m = String::from_str("duplicate CSV header `");
                m.append(headers[i].as_str());
                m.append("`");
                return Err(Error::at_file(path, m.as_str()));
            }
            j += 1;
        }
        proof {
            assert forall|k: int| 0 <= k < hs.take(i as int).len() implies hs.take(i as int)[k] != hs[i as int] by {}
            assert(!hs.take(i as int).contains(hs[i as int]));
        }
        i += 1;
    }
    Ok(())
}

/// The object a CSV row makes: each header paired with the field in the
/// same position (as far as both go), a repeated header keeping its place
/// and taking the later field.
pub open spec fn record_members(hs: Seq<Seq<char>>, fs: Seq<Seq<char>>, n: nat) -> Seq<(Seq<char>, JsonView)>
    decreases n,
{
    if n == 0 {
        Seq::empty()
    } else {
        let k = (n - 1) as int;
        crate::i18n::member_set(record_members(hs, fs, (n - 1) as nat), hs[k], JsonView::String(fs[k]))
    }
}

pub open spec fn record_spec(hs: Seq<Seq<char>>, fs: Seq<Seq<char>>) -> JsonView {
    JsonView::Object(record_members(hs, fs, if hs.len() < fs.len() { hs.len() } else { fs.len() }))
}

/// The records of a CSV file: one object per row (see [`record_spec`]).
pub fn csv_records(headers: &[String], rows: &[Vec<String>]) -> (r: Vec<Value>)
    ensures
        elems_view(r@) == rows@.map_values(|row: Vec<String>| record_spec(views(headers@), views(row@))),
{
    let ghost hs = views(headers@);
    let mut out: Vec<Value> = Vec::new();
    let mut i: usize = 0;
    while i < rows.len()
        invariant
            i <= rows@.len(),
            hs == views(headers@),
            out@.len() == i,
            forall|k: int| 0 <= k < i ==> (#[trigger] out@[k])@ == record_spec(hs, views(rows@[k]@)),
        decreases rows@.len() - i,
    {
        let row = &rows[i];
        let ghost fs = views(row@);
        let n = if headers.len() < row.len() { headers.len() } else { row.len() };
        let mut members: Vec<(String, Value)> = Vec::new();
        let mut k: usize = 0;
        proof {
            assert(members_view(members@) =~= Seq::<(Seq<char>, JsonView)>::empty());
        }
        while k < n
            invariant
                k <= n,
                n <= headers@.len(),
                n <= row@.len(),
                hs == views(headers@),
                fs == views(row@),
                members_view(members@) == record_members(hs, fs, k as nat),
            decreases n - k,
        {
            proof {
                assert(hs[k as int] == headers@[k as int]@);
                assert(fs[k as int] == row@[k as int]@);
            }
            crate::i18n::set_member_value(&mut members, headers[k].as_str(), Value::String(row[k].clone()));
            k += 1;
        }
        let v = Value::Object(members);
        proof {
            assert(v@ == record_spec(hs, fs));
        }
        out.push(v);
        i += 1;
    }
    proof {
        assert(elems_view(out@) =~= rows@.map_values(|row: Vec<String>| record_spec(hs, views(row@))));
    }
    out
}

/// The format a data file is read as: the `type` asked for, else its
/// extension's; an error when neither names one.
pub fn data_kind_for(path: &str, explicit: Option<DataKind>) -> (r: Result<DataKind, Error>)
    ensures
        match explicit {
            Some(k) => r == Ok::<DataKind, Error>(k),
            None => match extension_spec(path@) {
                Some(e) => match kind_of_extension(e) {
                    Some(k) => r == Ok::<DataKind, Error>(k),
                    None => r matches Err(x) && x@ == content_error_spec(
                        path@,
                        "unsupported data file extension `."@ + e + "`"@,
                    ),
                },
                None => r matches Err(x) && x@ == content_error_spec(path@, "unsupported data file extension `."@ + "`"@),
            },
        },
{
    match explicit {
        Some(k) => Ok(k),
        None => match extension(path) {
            Some(e) => match DataKind::from_extension(e.as_str()) {
                Some(k) => Ok(k),
                None => {
                    let mut m = String::from_str("unsupported data file extension `.");
                    m.append(e.as_str());
                    m.append("`");
                    Err(Error::at_file(path, m.as_str()))
                },
            },
            None => {
                let mut m = String::from_str("unsupported data file extension `.");
                m.append("`");
                Err(Error::at_file(path, m.as_str()))
            },
        },
    }
}

/// Why a JSONL line is refused: its number and the JSON reader's reason.
pub fn jsonl_line_message(line: usize, reason: &str) -> (r: String)
    ensures
        r@ == "line "@ + crate::text::decimal(line as nat) + " is not valid JSON: "@ + reason@,
{
    let mut m = String::from_str("line ");
    m.append(crate::text::usize_to_string(line).as_str());
    m.append(" is not valid JSON: ");
    m.append(reason);
    m
}

/// A loaded data source and the format it was read as.
#[derive(Debug)]
pub struct LoadedContent {
    pub kind: DataKind,
    pub data: DataSet,
}

/// The format a loaded file is reported as: the `type` asked for, else its
/// extension's, else JSON.
pub fn loaded_kind(path: &str, explicit: Option<DataKind>) -> (r: DataKind)
    ensures
        r == match explicit {
            Some(k) => k,
            None => match extension_spec(path@) {
                Some(e) => match kind_of_extension(e) {
                    Some(k) => k,
                    None => DataKind::Json,
                },
                None => DataKind::Json,
            },
        },
{
    match explicit {
        Some(k) => k,
        None => match DataKind::from_path(path) {
            Some(k) => k,
            None => DataKind::Json,
        },
    }
}

/// A plain-text data file loaded: its items (see [`text_lines_spec`]).
pub fn text_content(text: &str) -> (r: LoadedContent)
    ensures
        r.kind == DataKind::Text,
        r.data matches DataSet::Lines(l) && views(l@) == text_lines_spec(text@),
{
    LoadedContent { kind: DataKind::Text, data: DataSet::Lines(parse_text_lines(text)) }
}

} // verus!
