//! Site search: index settings and the text rules used to build the index
//! (titles, sections, excerpts, searchable `<meta>` names).

use vstd::prelude::*;

use crate::text::{
    chars_of, char_is_ws, contains, has_prefix, is_ws, lower_seq, lower_string, push_char,
    replace_all, replace_str, split_on, split_ranges, str_contains, str_eq, str_starts_with,
    string_range, trim, trim_end_char, trim_start_char, word_ranges, words,
};
use crate::tokens::META_PREFIX;

verus! {

/// `[search]` settings.
#[derive(Debug, Clone)]
pub struct SearchOptions {
    pub enabled: bool,
    /// Index file name in the output directory.
    pub output: String,
    /// Results shown by the runtime.
    pub limit: usize,
    pub filters: Vec<String>,
    pub url_field: String,
}

impl Default for SearchOptions {
    /// Off; `search.json`; ten results; URLs from the `url` field.
    fn default() -> (r: Self)
        ensures
            !r.enabled,
            r.output@ == "search.json"@,
            r.limit == 10,
            r.filters@.len() == 0,
            r.url_field@ == "url"@,
    {
        SearchOptions {
            enabled: false,
            output: String::from_str("search.json"),
            limit: 10,
            filters: Vec::new(),
            url_field: String::from_str("url"),
        }
    }
}

/// How strongly a field name suggests an item title.
pub open spec fn title_key_score_spec(key: Seq<char>) -> Option<i32> {
    if key == "headline"@ || key == "name"@ || key == "label"@ {
        Some(100)
    } else if key == "title"@ {
        Some(90)
    } else if key == "slug"@ || key == "filename"@ || key == "file"@ {
        Some(80)
    } else {
        None
    }
}

pub fn title_key_score(key: &str) -> (r: Option<i32>)
    ensures
        r == title_key_score_spec(key@),
{
    if str_eq(key, "headline") || str_eq(key, "name") || str_eq(key, "label") {
        Some(100)
    } else if str_eq(key, "title") {
        Some(90)
    } else if str_eq(key, "slug") || str_eq(key, "filename") || str_eq(key, "file") {
        Some(80)
    } else {
        None
    }
}

pub open spec fn generic_word(w: Seq<char>) -> bool {
    w == "detail"@ || w == "details"@ || w == "page"@ || w == "record"@ || w == "item"@ || w == "entry"@
        || w == "overview"@
}

/// At most three words, one of them a placeholder like `details` or `page`
/// (compared in ASCII lowercase).
pub open spec fn is_generic_title_spec(value: Seq<char>) -> bool {
    let ws = words(lower_seq(trim(value)));
    ws.len() <= 3 && exists|j: int| 0 <= j < ws.len() && generic_word(#[trigger] ws[j])
}

pub fn is_generic_title(value: &str) -> (r: bool)
    ensures
        r == is_generic_title_spec(value@),
{
    let l = lower_string(crate::text::trim_str(value).as_str());
    let v = chars_of(l.as_str());
    let rs = word_ranges(v.as_slice());
    let ghost ws = words(v@);
    if rs.len() > 3 {
        return false;
    }
    let mut k: usize = 0;
    while k < rs.len()
        invariant
            k <= rs@.len(),
            rs@.len() <= 3,
            v@ == lower_seq(trim(value@)),
            rs@.len() == ws.len(),
            ws == words(v@),
            forall|m: int|
                0 <= m < rs@.len() ==> {
                    &&& (#[trigger] rs@[m]).0 <= rs@[m].1 <= v@.len()
                    &&& v@.subrange(rs@[m].0 as int, rs@[m].1 as int) == ws[m]
                },
            forall|m: int| 0 <= m < k ==> !generic_word(#[trigger] ws[m]),
        decreases rs@.len() - k,
    {
        let (a, b) = rs[k];
        let w = string_range(v.as_slice(), a, b);
        let ws_ = w.as_str();
        if str_eq(ws_, "detail") || str_eq(ws_, "details") || str_eq(ws_, "page") || str_eq(ws_, "record")
            || str_eq(ws_, "item") || str_eq(ws_, "entry") || str_eq(ws_, "overview") {
            proof {
                assert(generic_word(ws[k as int]));
            }
            return true;
        }
        k += 1;
    }
    false
}

/// Points for a title value: digits +8, `-`/`_`/`/` +6, three or more words
/// +4, generic wording −35.
pub open spec fn title_value_score_spec(value: Seq<char>) -> i32 {
    let d: int = if exists|j: int| 0 <= j < value.len() && '0' <= #[trigger] value[j] && value[j] <= '9' { 8 } else { 0 };
    let p: int = if value.contains('-') || value.contains('_') || value.contains('/') { 6 } else { 0 };
    let w: int = if words(value).len() >= 3 { 4 } else { 0 };
    let g: int = if is_generic_title_spec(value) { -35 } else { 0 };
    (d + p + w + g) as i32
}

pub fn title_value_score(value: &str) -> (r: i32)
    ensures
        r == title_value_score_spec(value@),
{
    let v = chars_of(value);
    let mut digit = false;
    let mut i: usize = 0;
    while i < v.len()
        invariant
            i <= v@.len(),
            v@ == value@,
            digit == exists|j: int| 0 <= j < i && '0' <= #[trigger] v@[j] && v@[j] <= '9',
        decreases v@.len() - i,
    {
        if '0' <= v[i] && v[i] <= '9' {
            digit = true;
        }
        i += 1;
    }
    let punct = crate::text::contains_char(v.as_slice(), 0, v.len(), '-') || crate::text::contains_char(
        v.as_slice(),
        0,
        v.len(),
        '_',
    ) || crate::text::contains_char(v.as_slice(), 0, v.len(), '/');
    proof {
        assert(v@.subrange(0, v@.len() as int) =~= v@);
    }
    let rs = word_ranges(v.as_slice());
    let mut score: i32 = 0;
    if digit {
        score = score + 8;
    }
    if punct {
        score = score + 6;
    }
    if rs.len() >= 3 {
        score = score + 4;
    }
    if is_generic_title(value) {
        score = score - 35;
    }
    score
}

/// Characters outside `<…>` tags, each `>` read as a space.
pub open spec fn strip_tags(s: Seq<char>, in_tag: bool) -> Seq<char>
    decreases s.len(),
{
    if s.len() == 0 {
        Seq::empty()
    } else if s[0] == '<' {
        strip_tags(s.drop_first(), true)
    } else if s[0] == '>' {
        seq![' '] + strip_tags(s.drop_first(), false)
    } else if !in_tag {
        seq![s[0]] + strip_tags(s.drop_first(), in_tag)
    } else {
        strip_tags(s.drop_first(), in_tag)
    }
}

pub fn strip_html(raw: &str) -> (r: String)
    ensures
        r@ == strip_tags(raw@, false),
{
    let v = chars_of(raw);
    let mut out = String::new();
    let mut in_tag = false;
    let mut i: usize = 0;
    proof {
        assert(v@.skip(0) =~= v@);
    }
    while i < v.len()
        invariant
            i <= v@.len(),
            v@ == raw@,
            strip_tags(raw@, false) == out@ + strip_tags(v@.skip(i as int), in_tag),
        decreases v@.len() - i,
    {
        let c = v[i];
        proof {
            assert(v@.skip(i as int).drop_first() =~= v@.skip(i + 1));
            assert(v@.skip(i as int)[0] == c);
        }
        if c == '<' {
            in_tag = true;
        } else if c == '>' {
            in_tag = false;
            let ghost before = out@;
            push_char(&mut out, ' ');
            proof {
                assert(before + (seq![' '] + strip_tags(v@.skip(i + 1), false)) =~= out@ + strip_tags(v@.skip(i + 1), false));
            }
        } else if !in_tag {
            let ghost before = out@;
            push_char(&mut out, c);
            proof {
                assert(before + (seq![c] + strip_tags(v@.skip(i + 1), false)) =~= out@ + strip_tags(v@.skip(i + 1), false));
            }
        }
        i += 1;
    }
    proof {
        assert(v@.skip(v@.len() as int) =~= Seq::<char>::empty());
        assert(out@ + Seq::<char>::empty() =~= out@);
    }
    out
}

/// Maximum excerpt length in characters.
pub const EXCERPT_MAX: usize = 180;

/// The first `EXCERPT_MAX` characters of `text`.
pub open spec fn excerpt_spec(text: Seq<char>) -> Seq<char> {
    if text.len() <= EXCERPT_MAX {
        text
    } else {
        text.take(EXCERPT_MAX as int)
    }
}

pub fn excerpt(text: &str) -> (r: String)
    ensures
        r@ == excerpt_spec(text@),
{
    let v = chars_of(text);
    if v.len() <= EXCERPT_MAX {
        String::from_str(text)
    } else {
        proof {
            assert(v@.subrange(0, EXCERPT_MAX as int) =~= v@.take(EXCERPT_MAX as int));
        }
        string_range(v.as_slice(), 0, EXCERPT_MAX)
    }
}

/// Site-absolute href of the index file.
pub open spec fn index_href_spec(output: Seq<char>) -> Seq<char> {
    if output.len() > 0 && output[0] == '/' {
        output
    } else {
        "/"@ + output
    }
}

pub fn index_href(output: &str) -> (r: String)
    ensures
        r@ == index_href_spec(output@),
{
    let v = chars_of(output);
    if v.len() > 0 && v[0] == '/' {
        String::from_str(output)
    } else {
        let mut s = String::from_str("/");
        s.append(output);
        s
    }
}

/// Section label of a page URL: its first path segment with `-` read as a
/// space, or `home`.
pub open spec fn section_spec(url: Seq<char>) -> Seq<char> {
    let t = trim_end_char(trim_start_char(url, '/'), '/');
    match first_nonempty(split_on(t, '/')) {
        Some(p) => replace_all(p, "-"@, " "@),
        None => "home"@,
    }
}

pub open spec fn first_nonempty(parts: Seq<Seq<char>>) -> Option<Seq<char>>
    decreases parts.len(),
{
    if parts.len() == 0 {
        None
    } else if parts[0].len() > 0 {
        Some(parts[0])
    } else {
        first_nonempty(parts.drop_first())
    }
}

pub fn section_for_url(url: &str) -> (r: String)
    ensures
        r@ == section_spec(url@),
{
    let v = chars_of(url);
    let a = crate::text::skip_char_run(v.as_slice(), 0, v.len(), '/');
    let b = crate::text::drop_char_run_end(v.as_slice(), a, v.len(), '/');
    proof {
        assert(v@.subrange(0, v@.len() as int) =~= v@);
    }
    let parts = split_ranges(v.as_slice(), a, b, '/');
    let ghost ps = split_on(v@.subrange(a as int, b as int), '/');
    let mut i: usize = 0;
    proof {
        assert(ps.skip(0) =~= ps);
        assert(v@.subrange(a as int, b as int) == trim_end_char(trim_start_char(url@, '/'), '/'));
    }
    while i < parts.len()
        invariant
            i <= parts@.len(),
            a <= b <= v@.len(),
            v@ == url@,
            ps == split_on(v@.subrange(a as int, b as int), '/'),
            v@.subrange(a as int, b as int) == trim_end_char(trim_start_char(url@, '/'), '/'),
            parts@.len() == ps.len(),
            forall|k: int|
                0 <= k < parts@.len() ==> {
                    &&& a <= (#[trigger] parts@[k]).0 <= parts@[k].1 <= b
                    &&& v@.subrange(parts@[k].0 as int, parts@[k].1 as int) == ps[k]
                },
            first_nonempty(ps) == first_nonempty(ps.skip(i as int)),
        decreases parts@.len() - i,
    {
        let (pa, pb) = parts[i];
        proof {
            assert(ps.skip(i as int).drop_first() =~= ps.skip(i + 1));
            assert(ps.skip(i as int)[0] == ps[i as int]);
        }
        if pa < pb {
            let piece = string_range(v.as_slice(), pa, pb);
            proof {
                reveal_strlit("-");
            }
            return replace_str(piece.as_str(), "-", " ");
        }
        i += 1;
    }
    proof {
        assert(ps.skip(parts@.len() as int) =~= Seq::<Seq<char>>::empty());
    }
    String::from_str("home")
}

/// `<meta>` names whose content goes into the index.
pub open spec fn searchable_meta_spec(name: Seq<char>) -> bool {
    name == "description"@ || name == "author"@ || name == "keywords"@ || name == "category"@
        || name == "categories"@ || name == "tag"@ || name == "tags"@ || name == "article:tag"@
        || name == "article:section"@ || has_prefix(name, META_PREFIX@)
}

pub fn searchable_meta(name: &str) -> (r: bool)
    ensures
        r == searchable_meta_spec(name@),
{
    str_eq(name, "description") || str_eq(name, "author") || str_eq(name, "keywords") || str_eq(
        name,
        "category",
    ) || str_eq(name, "categories") || str_eq(name, "tag") || str_eq(name, "tags") || str_eq(
        name,
        "article:tag",
    ) || str_eq(name, "article:section") || str_starts_with(name, META_PREFIX)
}

/// Elements whose text stays out of the index (any ASCII case).
pub open spec fn hidden_tag_spec(name: Seq<char>) -> bool {
    let n = lower_seq(name);
    n == "script"@ || n == "style"@ || n == "template"@ || n == "noscript"@ || n == "dialog"@
}

pub fn hidden_from_search(name: &str) -> (r: bool)
    ensures
        r == hidden_tag_spec(name@),
{
    let l = lower_string(name);
    let n = l.as_str();
    str_eq(n, "script") || str_eq(n, "style") || str_eq(n, "template") || str_eq(n, "noscript") || str_eq(
        n,
        "dialog",
    )
}

/// How many of `titles` equal `t`.
pub open spec fn count_of(titles: Seq<Seq<char>>, t: Seq<char>) -> nat
    decreases titles.len(),
{
    if titles.len() == 0 {
        0
    } else {
        count_of(titles.drop_last(), t) + if titles.last() == t { 1nat } else { 0nat }
    }
}

/// Titles shared by several entries are replaced by the entry's URL.
pub open spec fn disambiguated(titles: Seq<Seq<char>>, urls: Seq<Seq<char>>, i: int) -> Seq<char> {
    if count_of(titles, titles[i]) > 1 {
        urls[i]
    } else {
        titles[i]
    }
}

fn count_title(titles: &Vec<String>, t: &str) -> (r: usize)
    ensures
        r == count_of(crate::text::views(titles@), t@),
{
    let ghost tv = crate::text::views(titles@);
    let mut n: usize = 0;
    let mut i: usize = 0;
    proof {
        assert(tv.take(0) =~= Seq::<Seq<char>>::empty());
    }
    while i < titles.len()
        invariant
            i <= titles@.len(),
            tv == crate::text::views(titles@),
            n == count_of(tv.take(i as int), t@),
            n <= i,
        decreases titles@.len() - i,
    {
        proof {
            assert(tv.take(i + 1).drop_last() =~= tv.take(i as int));
            assert(tv.take(i + 1).last() == titles@[i as int]@);
        }
        if str_eq(titles[i].as_str(), t) {
            n = n + 1;
        }
        i += 1;
    }
    proof {
        assert(tv.take(titles@.len() as int) =~= tv);
    }
    n
}

/// The index titles after disambiguation (see [`disambiguated`]).
pub fn disambiguate_duplicate_titles(titles: &Vec<String>, urls: &Vec<String>) -> (r: Vec<String>)
    requires
        titles@.len() == urls@.len(),
    ensures
        r@.len() == titles@.len(),
        forall|i: int|
            0 <= i < r@.len() ==> (#[trigger] r@[i])@ == disambiguated(
                crate::text::views(titles@),
                crate::text::views(urls@),
                i,
            ),
{
    let mut out: Vec<String> = Vec::new();
    let mut i: usize = 0;
    while i < titles.len()
        invariant
            i <= titles@.len(),
            titles@.len() == urls@.len(),
            out@.len() == i,
            forall|k: int|
                0 <= k < i ==> (#[trigger] out@[k])@ == disambiguated(
                    crate::text::views(titles@),
                    crate::text::views(urls@),
                    k,
                ),
        decreases titles@.len() - i,
    {
        let c = count_title(titles, titles[i].as_str());
        if c > 1 {
            out.push(String::from_str(urls[i].as_str()));
        } else {
            out.push(String::from_str(titles[i].as_str()));
        }
        i += 1;
    }
    out
}


/// Stripped text holds no `<`: every tag opener is dropped.
pub proof fn law_stripped_text_has_no_tag_open(s: Seq<char>, in_tag: bool)
    ensures
        !strip_tags(s, in_tag).contains('<'),
    decreases s.len(),
{
    if s.len() > 0 {
        let rest = s.drop_first();
        law_stripped_text_has_no_tag_open(rest, true);
        law_stripped_text_has_no_tag_open(rest, false);
        law_stripped_text_has_no_tag_open(rest, in_tag);
        let r = strip_tags(s, in_tag);
        if s[0] != '<' && (s[0] == '>' || !in_tag) {
            let head = if s[0] == '>' { ' ' } else { s[0] };
            let tail = if s[0] == '>' { strip_tags(rest, false) } else { strip_tags(rest, in_tag) };
            assert(r =~= seq![head] + tail);
            assert forall|i: int| 0 <= i < r.len() implies r[i] != '<' by {
                if i > 0 {
                    assert(r[i] == tail[i - 1]);
                    if tail[i - 1] == '<' {
                        assert(tail.contains('<'));
                    }
                }
            }
        }
    }
}

/// An excerpt is a prefix of the text, at most `EXCERPT_MAX` characters long.
pub proof fn law_excerpt_is_bounded_prefix(text: Seq<char>)
    ensures
        excerpt_spec(text).len() <= EXCERPT_MAX,
        excerpt_spec(text) == text.take(excerpt_spec(text).len() as int),
        text.len() <= EXCERPT_MAX ==> excerpt_spec(text) == text,
{
    assert(text.take(text.len() as int) =~= text);
}

/// A title shared by no other entry is kept; shared titles become URLs.
pub proof fn law_unique_titles_kept(titles: Seq<Seq<char>>, urls: Seq<Seq<char>>, i: int)
    requires
        0 <= i < titles.len(),
        forall|j: int| 0 <= j < titles.len() && j != i ==> titles[j] != titles[i],
    ensures
        disambiguated(titles, urls, i) == titles[i],
{
    lemma_count_unique(titles, titles[i], i);
}

proof fn lemma_count_unique(titles: Seq<Seq<char>>, t: Seq<char>, i: int)
    requires
        0 <= i < titles.len(),
        titles[i] == t,
        forall|j: int| 0 <= j < titles.len() && j != i ==> titles[j] != t,
    ensures
        count_of(titles, t) == 1,
    decreases titles.len(),
{
    if titles.len() - 1 == i {
        lemma_count_absent(titles.drop_last(), t);
    } else {
        lemma_count_unique(titles.drop_last(), t, i);
    }
}

proof fn lemma_count_absent(titles: Seq<Seq<char>>, t: Seq<char>)
    requires
        forall|j: int| 0 <= j < titles.len() ==> titles[j] != t,
    ensures
        count_of(titles, t) == 0,
    decreases titles.len(),
{
    if titles.len() > 0 {
        lemma_count_absent(titles.drop_last(), t);
    }
}


/// URL of an output file: `/` for the root `index.html` (or a file outside
/// the output directory); otherwise `/{dirs}/`, dropping a final `index.html`.
pub open spec fn url_for_output_spec(out_dir: Seq<char>, path: Seq<char>) -> Seq<char> {
    match crate::paths::strip_prefix_spec(path, out_dir) {
        None => "/"@,
        Some(rel) => if rel == seq!["index.html"@] {
            "/"@
        } else {
            let parts = if rel.len() > 0 && rel.last() == "index.html"@ { rel.drop_last() } else { rel };
            "/"@ + crate::text::join(parts, "/"@) + "/"@
        },
    }
}

pub fn url_for_output(out_dir: &str, path: &str) -> (r: String)
    ensures
        r@ == url_for_output_spec(out_dir@, path@),
{
    match crate::paths::strip_prefix(path, out_dir) {
        None => String::from_str("/"),
        Some(mut parts) => {
            let ghost rel = crate::text::views(parts@);
            assert(rel.len() == parts@.len());
            assert(forall|i: int| 0 <= i < rel.len() ==> rel[i] == (#[trigger] parts@[i])@);
            let is_index = parts.len() > 0 && str_eq(parts[parts.len() - 1].as_str(), "index.html");
            if parts.len() == 1 && is_index {
                proof {
                    assert(rel =~= seq!["index.html"@]);
                }
                return String::from_str("/");
            }
            proof {
                if rel == seq!["index.html"@] {
                    assert(rel[0] == parts@[0]@);
                }
            }
            if is_index {
                parts.pop();
                proof {
                    assert(crate::text::views(parts@) =~= rel.drop_last());
                }
            }
            let mut s = String::from_str("/");
            s.append(crate::text::join_strings(&parts, "/").as_str());
            s.append("/");
            s
        },
    }
}

/// The output is the 404 page (`404.html` or `404/index.html`).
pub open spec fn is_404_spec(out_dir: Seq<char>, path: Seq<char>) -> bool {
    match crate::paths::strip_prefix_spec(path, out_dir) {
        Some(rel) => rel == seq!["404.html"@] || rel == seq!["404"@, "index.html"@],
        None => false,
    }
}

pub fn is_404(out_dir: &str, path: &str) -> (r: bool)
    ensures
        r == is_404_spec(out_dir@, path@),
{
    match crate::paths::strip_prefix(path, out_dir) {
        None => false,
        Some(parts) => {
            let ghost rel = crate::text::views(parts@);
            assert(rel.len() == parts@.len());
            assert(forall|i: int| 0 <= i < rel.len() ==> rel[i] == (#[trigger] parts@[i])@);
            let a = parts.len() == 1 && str_eq(parts[0].as_str(), "404.html");
            let b = parts.len() == 2 && str_eq(parts[0].as_str(), "404") && str_eq(parts[1].as_str(), "index.html");
            proof {
                if a {
                    assert(rel =~= seq!["404.html"@]);
                }
                if b {
                    assert(rel =~= seq!["404"@, "index.html"@]);
                }
                if rel == seq!["404.html"@] {
                    assert(rel[0] == parts@[0]@);
                }
                if rel == seq!["404"@, "index.html"@] {
                    assert(rel[0] == parts@[0]@);
                    assert(rel[1] == parts@[1]@);
                }
            }
            a || b
        },
    }
}

/// An `.html` output file.
pub fn is_html(path: &str) -> (r: bool)
    ensures
        r == (crate::paths::extension_spec(path@) == Some("html"@)),
{
    match crate::paths::extension(path) {
        Some(e) => str_eq(e.as_str(), "html"),
        None => false,
    }
}

} // verus!
