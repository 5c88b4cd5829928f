//! Path / URL aliases for authoring (`@Name/tail` → resolved path or URL).
//!
//! Aliases are defined in `statica.toml` under `[aliases.paths]` (local) and
//! `[aliases.urls]` (URLs). Use the configured symbol (default `@`) plus a
//! `/`-separated tail — e.g. `@fonts/?family=Outfit&display=swap`.

use vstd::prelude::*;

use crate::error::{Error, ErrorView};
use crate::loc::{diag_at, diag_at_file, str_views};
use crate::text::{
    any_ws, char_index, chars_of, contains_char, drop_char_run_end, find_char_in, find_from,
    has_prefix, is_ws, match_at, skip_char_run, starts_with_chars, str_starts_with, string_range,
    trim, trim_end_char, trim_range, trim_start_char,
};

verus! {

/// Local alias base.
#[derive(Debug, Clone, PartialEq, Eq)]
pub struct LocalAlias {
    pub base: String,
}

impl LocalAlias {
    pub fn new(base: &str) -> (r: Self)
        ensures
            r.base@ == base@,
    {
        LocalAlias { base: String::from_str(base) }
    }
}

/// URL alias base.
#[derive(Debug, Clone, PartialEq, Eq)]
pub struct UrlAlias {
    pub base: String,
}

impl UrlAlias {
    pub fn new(base: &str) -> (r: Self)
        ensures
            r.base@ == base@,
    {
        UrlAlias { base: String::from_str(base) }
    }
}

/// Alias map from project config (`[aliases]` in statica.toml).
///
/// Each table lists `(name, alias)` entries; a name occurs at most once per
/// table when entries are added with [`AliasOptions::insert_path`] /
/// [`AliasOptions::insert_url`].
#[derive(Debug, Clone, PartialEq, Eq)]
pub struct AliasOptions {
    /// Leading symbol for alias references (default `@`).
    pub symbol: String,
    /// Name → local path prefix (`[aliases.paths]`).
    pub paths: Vec<(String, LocalAlias)>,
    /// Name → URL prefix (`[aliases.urls]`).
    pub urls: Vec<(String, UrlAlias)>,
}

/// An alias table as `(name, base)` pairs.
pub open spec fn path_table(t: Seq<(String, LocalAlias)>) -> Seq<(Seq<char>, Seq<char>)> {
    t.map_values(|e: (String, LocalAlias)| (e.0@, e.1.base@))
}

pub open spec fn url_table(t: Seq<(String, UrlAlias)>) -> Seq<(Seq<char>, Seq<char>)> {
    t.map_values(|e: (String, UrlAlias)| (e.0@, e.1.base@))
}

/// Index of the first entry named `name`.
pub open spec fn table_index(t: Seq<(Seq<char>, Seq<char>)>, name: Seq<char>) -> Option<int>
    decreases t.len(),
{
    if t.len() == 0 {
        None
    } else if t[0].0 == name {
        Some(0)
    } else {
        match table_index(t.drop_first(), name) {
            Some(i) => Some(i + 1),
            None => None,
        }
    }
}

/// Typed alias target, by value.
pub enum TargetView {
    Path(Seq<char>),
    Url(Seq<char>),
}

impl TargetView {
    pub open spec fn base(self) -> Seq<char> {
        match self {
            TargetView::Path(b) => b,
            TargetView::Url(b) => b,
        }
    }
}

/// `[aliases.paths]` first, then `[aliases.urls]`.
pub open spec fn lookup_spec(
    paths: Seq<(Seq<char>, Seq<char>)>,
    urls: Seq<(Seq<char>, Seq<char>)>,
    name: Seq<char>,
) -> Option<TargetView> {
    match table_index(paths, name) {
        Some(i) => Some(TargetView::Path(paths[i].1)),
        None => match table_index(urls, name) {
            Some(i) => Some(TargetView::Url(urls[i].1)),
            None => None,
        },
    }
}

/// The name and tail of `rest` (the text after the symbol): up to the first
/// `/`, and after it with leading slashes removed.
pub open spec fn split_alias(rest: Seq<char>) -> (Seq<char>, Seq<char>) {
    match char_index(rest, '/') {
        Some(i) => (rest.take(i), trim_start_char(rest.skip(i + 1), '/')),
        None => (rest, Seq::empty()),
    }
}

/// The text after the alias symbol, when the trimmed value begins with it.
pub open spec fn after_symbol(symbol: Seq<char>, value: Seq<char>) -> Option<Seq<char>> {
    let t = trim(value);
    if has_prefix(t, symbol) {
        Some(t.skip(symbol.len() as int))
    } else {
        None
    }
}

/// What [`AliasOptions::parse`] finds: target and tail.
pub open spec fn parse_spec(
    symbol: Seq<char>,
    paths: Seq<(Seq<char>, Seq<char>)>,
    urls: Seq<(Seq<char>, Seq<char>)>,
    value: Seq<char>,
) -> Option<(TargetView, Seq<char>)> {
    match after_symbol(symbol, value) {
        Some(rest) => {
            let (name, tail) = split_alias(rest);
            if name.len() == 0 {
                None
            } else {
                match lookup_spec(paths, urls, name) {
                    Some(t) => Some((t, tail)),
                    None => None,
                }
            }
        },
        None => None,
    }
}

/// What [`AliasOptions::unknown_alias_name`] reports.
pub open spec fn unknown_name_spec(
    symbol: Seq<char>,
    paths: Seq<(Seq<char>, Seq<char>)>,
    urls: Seq<(Seq<char>, Seq<char>)>,
    value: Seq<char>,
) -> Option<Seq<char>> {
    match after_symbol(symbol, value) {
        Some(rest) => {
            let name = split_alias(rest).0;
            if name.len() == 0 || lookup_spec(paths, urls, name) is Some {
                None
            } else {
                Some(name)
            }
        },
        None => None,
    }
}

/// An alias reference before joining base + tail.
#[derive(Debug, Clone, Copy, PartialEq, Eq)]
pub struct ResolvedAlias<'a> {
    pub target: AliasTarget<'a>,
    pub tail: &'a str,
}

/// Typed alias target.
#[derive(Debug, Clone, Copy, PartialEq, Eq)]
pub enum AliasTarget<'a> {
    /// Local path alias from `[aliases.paths]`.
    Path(&'a LocalAlias),
    /// URL alias from `[aliases.urls]`.
    Url(&'a UrlAlias),
}

impl<'a> AliasTarget<'a> {
    pub open spec fn view_target(&self) -> TargetView {
        match *self {
            AliasTarget::Path(a) => TargetView::Path(a.base@),
            AliasTarget::Url(a) => TargetView::Url(a.base@),
        }
    }

    pub fn base(&self) -> (r: &'a str)
        ensures
            r@ == self.view_target().base(),
    {
        match *self {
            AliasTarget::Path(alias) => alias.base.as_str(),
            AliasTarget::Url(alias) => alias.base.as_str(),
        }
    }
}

impl<'a> ResolvedAlias<'a> {
    pub fn base(&self) -> (r: &'a str)
        ensures
            r@ == self.target.view_target().base(),
    {
        self.target.base()
    }
}

/// Index of the first entry of `t` named `name[lo..hi]`.
fn path_index(t: &Vec<(String, LocalAlias)>, name: &Vec<char>, lo: usize, hi: usize) -> (r: Option<usize>)
    requires
        lo <= hi <= name@.len(),
    ensures
        match r {
            Some(i) => i < t@.len() && table_index(path_table(t@), name@.subrange(lo as int, hi as int)) == Some(i as int),
            None => table_index(path_table(t@), name@.subrange(lo as int, hi as int)) is None,
        },
{
    let ghost n = name@.subrange(lo as int, hi as int);
    let mut i: usize = 0;
    proof {
        assert(path_table(t@).skip(0) =~= path_table(t@));
    }
    while i < t.len()
        invariant
            i <= t@.len(),
            n == name@.subrange(lo as int, hi as int),
            lo <= hi <= name@.len(),
            table_index(path_table(t@), n) == match table_index(path_table(t@).skip(i as int), n) {
                Some(j) => Some(j + i),
                None => None,
            },
        decreases t@.len() - i,
    {
        proof {
            assert(path_table(t@).skip(i as int).drop_first() =~= path_table(t@).skip(i + 1));
        }
        if same_as_range(&t[i].0, name, lo, hi) {
            return Some(i);
        }
        i += 1;
    }
    proof {
        assert(path_table(t@).skip(i as int) =~= Seq::<(Seq<char>, Seq<char>)>::empty());
    }
    None
}

/// Index of the first entry of `t` named `name[lo..hi]`.
fn url_index(t: &Vec<(String, UrlAlias)>, name: &Vec<char>, lo: usize, hi: usize) -> (r: Option<usize>)
    requires
        lo <= hi <= name@.len(),
    ensures
        match r {
            Some(i) => i < t@.len() && table_index(url_table(t@), name@.subrange(lo as int, hi as int)) == Some(i as int),
            None => table_index(url_table(t@), name@.subrange(lo as int, hi as int)) is None,
        },
{
    let ghost n = name@.subrange(lo as int, hi as int);
    let mut i: usize = 0;
    proof {
        assert(url_table(t@).skip(0) =~= url_table(t@));
    }
    while i < t.len()
        invariant
            i <= t@.len(),
            n == name@.subrange(lo as int, hi as int),
            lo <= hi <= name@.len(),
            table_index(url_table(t@), n) == match table_index(url_table(t@).skip(i as int), n) {
                Some(j) => Some(j + i),
                None => None,
            },
        decreases t@.len() - i,
    {
        proof {
            assert(url_table(t@).skip(i as int).drop_first() =~= url_table(t@).skip(i + 1));
        }
        if same_as_range(&t[i].0, name, lo, hi) {
            return Some(i);
        }
        i += 1;
    }
    proof {
        assert(url_table(t@).skip(i as int) =~= Seq::<(Seq<char>, Seq<char>)>::empty());
    }
    None
}

/// Whether `s` equals `v[lo..hi]`.
fn same_as_range(s: &String, v: &Vec<char>, lo: usize, hi: usize) -> (r: bool)
    requires
        lo <= hi <= v@.len(),
    ensures
        r == (s@ == v@.subrange(lo as int, hi as int)),
{
    let sv = chars_of(s.as_str());
    if sv.len() != hi - lo {
        return false;
    }
    let mut k: usize = 0;
    while k < sv.len()
        invariant
            sv@ == s@,
            sv@.len() == hi - lo,
            lo <= hi <= v@.len(),
            k <= sv@.len(),
            forall|j: int| 0 <= j < k ==> sv@[j] == v@[lo + j],
        decreases sv@.len() - k,
    {
        if sv[k] != v[lo + k] {
            proof {
                assert(v@.subrange(lo as int, hi as int)[k as int] != s@[k as int]);
            }
            return false;
        }
        k += 1;
    }
    proof {
        assert(s@ =~= v@.subrange(lo as int, hi as int));
    }
    true
}

/// Bounds in `v` of the text after the alias symbol, when the trimmed value
/// begins with it.
fn after_symbol_range(symbol: &str, v: &Vec<char>) -> (r: Option<(usize, usize)>)
    ensures
        match r {
            Some((a, e)) => a <= e <= v@.len() && after_symbol(symbol@, v@) == Some(v@.subrange(a as int, e as int)),
            None => after_symbol(symbol@, v@) is None,
        },
{
    let (a, b) = trim_range(v.as_slice(), 0, v.len());
    proof {
        assert(v@.subrange(0, v@.len() as int) =~= v@);
    }
    let t = vstd::slice::slice_subrange(v.as_slice(), a, b);
    if starts_with_chars(t, symbol) {
        let n = symbol.unicode_len();
        proof {
            assert(trim(v@).skip(n as int) =~= v@.subrange(a + n, b as int));
        }
        Some((a + n, b))
    } else {
        None
    }
}

/// Name end and tail start for the alias text `v[a..e]` (see [`split_alias`]).
fn split_alias_range(v: &Vec<char>, a: usize, e: usize) -> (r: (usize, usize))
    requires
        a <= e <= v@.len(),
    ensures
        a <= r.0 <= e,
        r.1 <= e,
        split_alias(v@.subrange(a as int, e as int)) == (
            v@.subrange(a as int, r.0 as int),
            v@.subrange(r.1 as int, e as int),
        ),
{
    let ghost rest = v@.subrange(a as int, e as int);
    match find_char_in(v.as_slice(), a, e, '/') {
        Some(i) => {
            let t = skip_char_run(v.as_slice(), i + 1, e, '/');
            proof {
                assert(rest.take(i - a) =~= v@.subrange(a as int, i as int));
                assert(rest.skip(i - a + 1) =~= v@.subrange(i + 1, e as int));
            }
            (i, t)
        },
        None => {
            proof {
                assert(v@.subrange(e as int, e as int) =~= Seq::<char>::empty());
            }
            (e, e)
        },
    }
}

impl Default for AliasOptions {
    /// `symbol = "@"`, no aliases.
    fn default() -> (r: Self)
        ensures
            r.symbol@ == "@"@,
            r.paths@.len() == 0,
            r.urls@.len() == 0,
    {
        AliasOptions { symbol: String::from_str("@"), paths: Vec::new(), urls: Vec::new() }
    }
}

impl AliasOptions {

    pub open spec fn paths_view(&self) -> Seq<(Seq<char>, Seq<char>)> {
        path_table(self.paths@)
    }

    pub open spec fn urls_view(&self) -> Seq<(Seq<char>, Seq<char>)> {
        url_table(self.urls@)
    }

    /// Add or replace a `[aliases.paths]` entry (`HashMap::insert`).
    pub fn insert_path(&mut self, name: &str, alias: LocalAlias)
        ensures
            final(self).symbol == old(self).symbol,
            final(self).urls == old(self).urls,
            match table_index(old(self).paths_view(), name@) {
                Some(i) => final(self).paths_view() == old(self).paths_view().update(i, (name@, alias.base@)),
                None => final(self).paths_view() == old(self).paths_view().push((name@, alias.base@)),
            },
    {
        let nv = chars_of(name);
        let ghost base = alias.base@;
        match path_index(&self.paths, &nv, 0, nv.len()) {
            Some(i) => {
                proof {
                    assert(nv@.subrange(0, nv@.len() as int) =~= nv@);
                }
                self.paths.set(i, (String::from_str(name), alias));
                proof {
                    assert(self.paths_view() =~= old(self).paths_view().update(i as int, (name@, base)));
                }
            },
            None => {
                proof {
                    assert(nv@.subrange(0, nv@.len() as int) =~= nv@);
                }
                self.paths.push((String::from_str(name), alias));
                proof {
                    assert(self.paths_view() =~= old(self).paths_view().push((name@, base)));
                }
            },
        }
    }

    /// Add or replace a `[aliases.urls]` entry (`HashMap::insert`).
    pub fn insert_url(&mut self, name: &str, alias: UrlAlias)
        ensures
            final(self).symbol == old(self).symbol,
            final(self).paths == old(self).paths,
            match table_index(old(self).urls_view(), name@) {
                Some(i) => final(self).urls_view() == old(self).urls_view().update(i, (name@, alias.base@)),
                None => final(self).urls_view() == old(self).urls_view().push((name@, alias.base@)),
            },
    {
        let nv = chars_of(name);
        let ghost base = alias.base@;
        match url_index(&self.urls, &nv, 0, nv.len()) {
            Some(i) => {
                proof {
                    assert(nv@.subrange(0, nv@.len() as int) =~= nv@);
                }
                self.urls.set(i, (String::from_str(name), alias));
                proof {
                    assert(self.urls_view() =~= old(self).urls_view().update(i as int, (name@, base)));
                }
            },
            None => {
                proof {
                    assert(nv@.subrange(0, nv@.len() as int) =~= nv@);
                }
                self.urls.push((String::from_str(name), alias));
                proof {
                    assert(self.urls_view() =~= old(self).urls_view().push((name@, base)));
                }
            },
        }
    }

    fn lookup_range<'s>(&'s self, v: &Vec<char>, lo: usize, hi: usize) -> (r: Option<AliasTarget<'s>>)
        requires
            lo <= hi <= v@.len(),
        ensures
            match r {
                Some(t) => lookup_spec(self.paths_view(), self.urls_view(), v@.subrange(lo as int, hi as int)) == Some(t.view_target()),
                None => lookup_spec(self.paths_view(), self.urls_view(), v@.subrange(lo as int, hi as int)) is None,
            },
    {
        match path_index(&self.paths, v, lo, hi) {
            Some(i) => {
                proof {
                    assert(self.paths_view()[i as int].1 == self.paths@[i as int].1.base@);
                }
                Some(AliasTarget::Path(&self.paths[i].1))
            },
            None => match url_index(&self.urls, v, lo, hi) {
                Some(i) => {
                    proof {
                        assert(self.urls_view()[i as int].1 == self.urls@[i as int].1.base@);
                    }
                    Some(AliasTarget::Url(&self.urls[i].1))
                },
                None => None,
            },
        }
    }

    /// Parse `@Name/tail` when `value` starts with [`Self::symbol`].
    pub fn parse<'a>(&'a self, value: &'a str) -> (r: Option<ResolvedAlias<'a>>)
        ensures
            match r {
                Some(ra) => parse_spec(self.symbol@, self.paths_view(), self.urls_view(), value@)
                    == Some((ra.target.view_target(), ra.tail@)),
                None => parse_spec(self.symbol@, self.paths_view(), self.urls_view(), value@) is None,
            },
    {
        let v = chars_of(value);
        let (a, e) = match after_symbol_range(self.symbol.as_str(), &v) {
            Some(r) => r,
            None => return None,
        };
        let (name_end, tail_start) = split_alias_range(&v, a, e);
        if name_end == a {
            return None;
        }
        let target = match self.lookup_range(&v, a, name_end) {
            Some(t) => t,
            None => return None,
        };
        let tail = value.substring_char(tail_start, e);
        Some(ResolvedAlias { target, tail })
    }

    /// True when `value` starts with the alias symbol (may still be invalid / unknown).
    pub fn looks_like_alias(&self, value: &str) -> (r: bool)
        ensures
            r == after_symbol(self.symbol@, value@) is Some,
    {
        let v = chars_of(value);
        after_symbol_range(self.symbol.as_str(), &v).is_some()
    }

    /// Unknown alias name from a symbol-prefixed value (for diagnostics).
    pub fn unknown_alias_name<'a>(&'a self, value: &'a str) -> (r: Option<&'a str>)
        ensures
            match r {
                Some(n) => unknown_name_spec(self.symbol@, self.paths_view(), self.urls_view(), value@) == Some(n@),
                None => unknown_name_spec(self.symbol@, self.paths_view(), self.urls_view(), value@) is None,
            },
    {
        let v = chars_of(value);
        let (a, e) = match after_symbol_range(self.symbol.as_str(), &v) {
            Some(r) => r,
            None => return None,
        };
        let (name_end, _tail_start) = split_alias_range(&v, a, e);
        if name_end == a {
            return None;
        }
        match self.lookup_range(&v, a, name_end) {
            Some(_) => None,
            None => Some(value.substring_char(a, name_end)),
        }
    }
}

/// `find_from` returns the first match.
pub proof fn lemma_find_first(s: Seq<char>, p: Seq<char>, i: int, k: int)
    requires
        0 <= i <= k,
        match_at(s, p, k),
        forall|j: int| i <= j < k ==> !match_at(s, p, j),
    ensures
        find_from(s, p, i) == Some(k),
    decreases k - i,
{
    if i < k {
        lemma_find_first(s, p, i + 1, k);
    }
}

/// `find_from` is `None` when nothing matches.
pub proof fn lemma_find_none(s: Seq<char>, p: Seq<char>, i: int)
    requires
        0 <= i,
        forall|j: int| i <= j ==> !match_at(s, p, j),
    ensures
        find_from(s, p, i) is None,
    decreases s.len() + 1 - i,
{
    if i + p.len() <= s.len() {
        lemma_find_none(s, p, i + 1);
    }
}

// ---------------------------------------------------------------------------
// Validation

/// `base` starts with `http://` or `https://`.
pub open spec fn is_url_spec(base: Seq<char>) -> bool {
    has_prefix(base, "http://"@) || has_prefix(base, "https://"@)
}

fn is_url_base(base: &str) -> (r: bool)
    ensures
        r == is_url_spec(base@),
{
    str_starts_with(base, "http://") || str_starts_with(base, "https://")
}

/// Why an alias name is rejected: empty after trimming, or holding `/` or whitespace.
pub open spec fn alias_name_error(name: Seq<char>) -> Option<Seq<char>> {
    if trim(name).len() == 0 || name.contains('/') || (exists|j: int| 0 <= j < name.len() && is_ws(#[trigger] name[j])) {
        Some("alias name `"@ + name + "` must be non-empty and cannot contain whitespace or `/`"@)
    } else {
        None
    }
}

/// Why a `[aliases.paths]` entry is rejected.
pub open spec fn path_entry_error(e: (Seq<char>, Seq<char>)) -> Option<Seq<char>> {
    if alias_name_error(e.0) is Some {
        alias_name_error(e.0)
    } else if trim(e.1).len() == 0 {
        Some("[aliases.paths]."@ + e.0 + " cannot be empty"@)
    } else if is_url_spec(e.1) {
        Some("[aliases.paths]."@ + e.0 + " must be a local path, not a URL (use [aliases.urls] for URLs)"@)
    } else {
        None
    }
}

/// Why a `[aliases.urls]` entry is rejected.
pub open spec fn url_entry_error(e: (Seq<char>, Seq<char>)) -> Option<Seq<char>> {
    if alias_name_error(e.0) is Some {
        alias_name_error(e.0)
    } else if !is_url_spec(e.1) {
        Some("[aliases.urls]."@ + e.0 + " must be a URL (http:// or https://)"@)
    } else {
        None
    }
}

/// The first present entry.
pub open spec fn first_some(s: Seq<Option<Seq<char>>>) -> Option<Seq<char>>
    decreases s.len(),
{
    if s.len() == 0 {
        None
    } else if s[0] is Some {
        s[0]
    } else {
        first_some(s.drop_first())
    }
}

/// The message of the first problem [`AliasOptions::validate`] reports, if any.
pub open spec fn validate_spec(
    symbol: Seq<char>,
    paths: Seq<(Seq<char>, Seq<char>)>,
    urls: Seq<(Seq<char>, Seq<char>)>,
) -> Option<Seq<char>> {
    if trim(symbol).len() == 0 {
        Some("[aliases].symbol cannot be empty"@)
    } else if first_some(paths.map_values(|e: (Seq<char>, Seq<char>)| path_entry_error(e))) is Some {
        first_some(paths.map_values(|e: (Seq<char>, Seq<char>)| path_entry_error(e)))
    } else if first_some(urls.map_values(|e: (Seq<char>, Seq<char>)| url_entry_error(e))) is Some {
        first_some(urls.map_values(|e: (Seq<char>, Seq<char>)| url_entry_error(e)))
    } else {
        first_some(
            paths.map_values(
                |e: (Seq<char>, Seq<char>)|
                    if table_index(urls, e.0) is Some {
                        Some("alias `"@ + e.0 + "` is defined in both [aliases.paths] and [aliases.urls]"@)
                    } else {
                        None
                    },
            ),
        )
    }
}

proof fn lemma_first_some_step(s: Seq<Option<Seq<char>>>, i: int)
    requires
        0 <= i < s.len(),
        forall|j: int| 0 <= j < i ==> s[j] is None,
        s[i] is None,
        first_some(s) == first_some(s.skip(i)),
    ensures
        first_some(s) == first_some(s.skip(i + 1)),
{
    assert(s.skip(i).drop_first() =~= s.skip(i + 1));
}

proof fn lemma_first_some_hit(s: Seq<Option<Seq<char>>>, i: int)
    requires
        0 <= i < s.len(),
        s[i] is Some,
        first_some(s) == first_some(s.skip(i)),
    ensures
        first_some(s) == s[i],
{
    assert(s.skip(i)[0] == s[i]);
}

/// Message for an invalid alias name, or `None`.
fn check_alias_name(name: &String) -> (r: Option<String>)
    ensures
        match r {
            Some(m) => alias_name_error(name@) == Some(m@),
            None => alias_name_error(name@) is None,
        },
{
    let v = chars_of(name.as_str());
    let (a, b) = trim_range(v.as_slice(), 0, v.len());
    let slash = contains_char(v.as_slice(), 0, v.len(), '/');
    let ws = any_ws(v.as_slice(), 0, v.len());
    proof {
        assert(v@.subrange(0, v@.len() as int) =~= v@);
    }
    if a == b || slash || ws {
        let mut m = String::from_str("alias name `");
        m.append(name.as_str());
        m.append("` must be non-empty and cannot contain whitespace or `/`");
        Some(m)
    } else {
        None
    }
}

/// `s` is empty after trimming.
fn trims_to_empty(s: &String) -> (r: bool)
    ensures
        r == (trim(s@).len() == 0),
{
    let v = chars_of(s.as_str());
    let (a, b) = trim_range(v.as_slice(), 0, v.len());
    proof {
        assert(v@.subrange(0, v@.len() as int) =~= v@);
    }
    a == b
}

/// Three-piece message `a + mid + b`.
fn message3(a: &str, mid: &str, b: &str) -> (r: String)
    ensures
        r@ == a@ + mid@ + b@,
{
    let mut m = String::from_str(a);
    m.append(mid);
    m.append(b);
    m
}

impl AliasOptions {
    /// Validate alias shape once before build-time resolution begins.
    pub fn validate(&self) -> (r: Result<(), Error>)
        ensures
            match r {
                Ok(()) => validate_spec(self.symbol@, self.paths_view(), self.urls_view()) is None,
                Err(e) => exists|m: Seq<char>|
                    validate_spec(self.symbol@, self.paths_view(), self.urls_view()) == Some(m)
                        && e@ == ErrorView::Diag(diag_at_file("<config>"@, m)),
            },
    {
        if trims_to_empty(&self.symbol) {
            return Err(Error::at_file("<config>", "[aliases].symbol cannot be empty"));
        }
        let ghost ps = self.paths_view().map_values(|e: (Seq<char>, Seq<char>)| path_entry_error(e));
        let mut i: usize = 0;
        proof {
            assert(ps.skip(0) =~= ps);
        }
        while i < self.paths.len()
            invariant
                i <= self.paths@.len(),
                trim(self.symbol@).len() != 0,
                ps == self.paths_view().map_values(|e: (Seq<char>, Seq<char>)| path_entry_error(e)),
                first_some(ps) == first_some(ps.skip(i as int)),
                forall|j: int| 0 <= j < i ==> ps[j] is None,
            decreases self.paths@.len() - i,
        {
            let name = &self.paths[i].0;
            let base = &self.paths[i].1.base;
            proof {
                assert(ps[i as int] == path_entry_error((name@, base@)));
            }
            let msg = match check_alias_name(name) {
                Some(m) => Some(m),
                None => if trims_to_empty(base) {
                    Some(message3("[aliases.paths].", name.as_str(), " cannot be empty"))
                } else if is_url_base(base.as_str()) {
                    Some(message3("[aliases.paths].", name.as_str(), " must be a local path, not a URL (use [aliases.urls] for URLs)"))
                } else {
                    None
                },
            };
            match msg {
                Some(m) => {
                    proof {
                        lemma_first_some_hit(ps, i as int);
                        assert(validate_spec(self.symbol@, self.paths_view(), self.urls_view()) == Some(m@));
                    }
                    return Err(Error::at_file("<config>", m.as_str()));
                },
                None => {
                    proof {
                        lemma_first_some_step(ps, i as int);
                    }
                },
            }
            i += 1;
        }
        proof {
            assert(ps.skip(i as int) =~= Seq::<Option<Seq<char>>>::empty());
        }
        let ghost us = self.urls_view().map_values(|e: (Seq<char>, Seq<char>)| url_entry_error(e));
        let mut i: usize = 0;
        proof {
            assert(us.skip(0) =~= us);
        }
        while i < self.urls.len()
            invariant
                i <= self.urls@.len(),
                trim(self.symbol@).len() != 0,
                ps == self.paths_view().map_values(|e: (Seq<char>, Seq<char>)| path_entry_error(e)),
                first_some(ps) is None,
                us == self.urls_view().map_values(|e: (Seq<char>, Seq<char>)| url_entry_error(e)),
                first_some(us) == first_some(us.skip(i as int)),
                forall|j: int| 0 <= j < i ==> us[j] is None,
            decreases self.urls@.len() - i,
        {
            let name = &self.urls[i].0;
            let base = &self.urls[i].1.base;
            proof {
                assert(us[i as int] == url_entry_error((name@, base@)));
            }
            let msg = match check_alias_name(name) {
                Some(m) => Some(m),
                None => if !is_url_base(base.as_str()) {
                    Some(message3("[aliases.urls].", name.as_str(), " must be a URL (http:// or https://)"))
                } else {
                    None
                },
            };
            match msg {
                Some(m) => {
                    proof {
                        lemma_first_some_hit(us, i as int);
                        assert(validate_spec(self.symbol@, self.paths_view(), self.urls_view()) == Some(m@));
                    }
                    return Err(Error::at_file("<config>", m.as_str()));
                },
                None => {
                    proof {
                        lemma_first_some_step(us, i as int);
                    }
                },
            }
            i += 1;
        }
        proof {
            assert(us.skip(i as int) =~= Seq::<Option<Seq<char>>>::empty());
        }
        let ghost uv = self.urls_view();
        let ghost ds = self.paths_view().map_values(
            |e: (Seq<char>, Seq<char>)|
                if table_index(uv, e.0) is Some {
                    Some("alias `"@ + e.0 + "` is defined in both [aliases.paths] and [aliases.urls]"@)
                } else {
                    None
                },
        );
        let mut i: usize = 0;
        proof {
            assert(ds.skip(0) =~= ds);
        }
        while i < self.paths.len()
            invariant
                i <= self.paths@.len(),
                trim(self.symbol@).len() != 0,
                ps == self.paths_view().map_values(|e: (Seq<char>, Seq<char>)| path_entry_error(e)),
                first_some(ps) is None,
                us == self.urls_view().map_values(|e: (Seq<char>, Seq<char>)| url_entry_error(e)),
                first_some(us) is None,
                uv == self.urls_view(),
                ds == self.paths_view().map_values(
                    |e: (Seq<char>, Seq<char>)|
                        if table_index(uv, e.0) is Some {
                            Some("alias `"@ + e.0 + "` is defined in both [aliases.paths] and [aliases.urls]"@)
                        } else {
                            None
                        },
                ),
                first_some(ds) == first_some(ds.skip(i as int)),
                forall|j: int| 0 <= j < i ==> ds[j] is None,
            decreases self.paths@.len() - i,
        {
            let name = &self.paths[i].0;
            let nv = chars_of(name.as_str());
            proof {
                assert(nv@.subrange(0, nv@.len() as int) =~= nv@);
                assert(self.paths_view()[i as int].0 == name@);
            }
            if url_index(&self.urls, &nv, 0, nv.len()).is_some() {
                proof {
                    lemma_first_some_hit(ds, i as int);
                }
                let m = message3("alias `", name.as_str(), "` is defined in both [aliases.paths] and [aliases.urls]");
                proof {
                    assert(validate_spec(self.symbol@, self.paths_view(), self.urls_view()) == Some(m@));
                }
                return Err(Error::at_file("<config>", m.as_str()));
            }
            proof {
                lemma_first_some_step(ds, i as int);
            }
            i += 1;
        }
        proof {
            assert(ds.skip(i as int) =~= Seq::<Option<Seq<char>>>::empty());
        }
        Ok(())
    }
}

// ---------------------------------------------------------------------------
// Resolution

/// Joining a URL alias and a tail keeps both whole and puts one separator
/// between them: `&` when the URL already has a query, `?` otherwise; a
/// tail that starts its own query (`?…`) is appended as it is.
pub proof fn law_url_alias_join(base: Seq<char>, tail: Seq<char>)
    requires
        is_url_spec(base),
        tail.len() > 0,
    ensures
        tail[0] == '?' ==> join_alias_spec(base, tail) == base + tail,
        tail[0] != '?' ==> ({
            let r = join_alias_spec(base, tail);
            &&& r.len() == base.len() + 1 + tail.len()
            &&& r.take(base.len() as int) == base
            &&& r.skip(base.len() as int + 1) == tail
            &&& r[base.len() as int] == (if base.contains('?') { '&' } else { '?' })
        }),
{
    reveal_strlit("&");
    reveal_strlit("?");
    if tail[0] != '?' {
        let r = join_alias_spec(base, tail);
        if base.contains('?') {
            assert(r == base + "&"@ + tail);
        } else {
            assert(r == base + "?"@ + tail);
        }
        assert(r.take(base.len() as int) =~= base);
        assert(r.skip(base.len() as int + 1) =~= tail);
    }
}

/// Join alias base and tail into a final URL or local path.
pub open spec fn join_alias_spec(base: Seq<char>, tail: Seq<char>) -> Seq<char> {
    if is_url_spec(base) {
        if tail.len() == 0 {
            base
        } else if tail[0] == '?' {
            base + tail
        } else if base.contains('?') {
            base + "&"@ + tail
        } else {
            base + "?"@ + tail
        }
    } else {
        let b = trim_end_char(base, '/');
        let t = trim_start_char(tail, '/');
        if t.len() == 0 {
            b
        } else {
            b + "/"@ + t
        }
    }
}

/// Join alias base and tail into a final URL or local path.
pub fn join_alias(base: &str, tail: &str) -> (r: String)
    ensures
        r@ == join_alias_spec(base@, tail@),
{
    let bv = chars_of(base);
    let tv = chars_of(tail);
    proof {
        assert(bv@.subrange(0, bv@.len() as int) =~= bv@);
        assert(tv@.subrange(0, tv@.len() as int) =~= tv@);
    }
    if is_url_base(base) {
        if tv.len() == 0 {
            return String::from_str(base);
        }
        if tv[0] == '?' {
            let mut out = String::from_str(base);
            out.append(tail);
            return out;
        }
        let q = contains_char(bv.as_slice(), 0, bv.len(), '?');
        let mut out = String::from_str(base);
        if q {
            out.append("&");
        } else {
            out.append("?");
        }
        out.append(tail);
        out
    } else {
        let b = drop_char_run_end(bv.as_slice(), 0, bv.len(), '/');
        let t = skip_char_run(tv.as_slice(), 0, tv.len(), '/');
        let mut out = string_range(bv.as_slice(), 0, b);
        if t < tv.len() {
            out.append("/");
            out.append(string_range(tv.as_slice(), t, tv.len()).as_str());
        }
        out
    }
}

/// The error `resolve_path` reports for an alias value at `attr="value"`.
pub open spec fn alias_err_spec(
    site: Option<(Seq<char>, Seq<char>)>,
    value: Seq<char>,
    attr: Seq<char>,
    message: Seq<char>,
) -> ErrorView {
    let dq = attr + "=\""@ + value + "\""@;
    let sq = attr + "='"@ + value + "'"@;
    match site {
        Some((file, source)) => ErrorView::Diag(diag_at(file, source, seq![dq, sq], message)),
        None => ErrorView::Diag(diag_at_file("<page>"@, message)),
    }
}

/// Both site strings by view.
pub open spec fn site_view(site: Option<(&str, &str)>) -> Option<(Seq<char>, Seq<char>)> {
    match site {
        Some((f, s)) => Some((f@, s@)),
        None => None,
    }
}

fn alias_err(site: Option<(&str, &str)>, value: &str, attr: &str, message: &str) -> (r: Error)
    ensures
        r@ == alias_err_spec(site_view(site), value@, attr@, message@),
{
    let mut dq = String::from_str(attr);
    dq.append("=\"");
    dq.append(value);
    dq.append("\"");
    let mut sq = String::from_str(attr);
    sq.append("='");
    sq.append(value);
    sq.append("'");
    match site {
        Some((file, source)) => {
            let needles = vec![dq.as_str(), sq.as_str()];
            proof {
                assert(str_views(needles@) =~= seq![dq@, sq@]);
            }
            Error::at(file, source, needles.as_slice(), message)
        },
        None => Error::at_file("<page>", message),
    }
}

/// What [`resolve_path`] returns: the value itself when it is not an alias,
/// the joined base and tail for a known alias, or an alias error.
pub open spec fn resolve_path_spec(
    symbol: Seq<char>,
    paths: Seq<(Seq<char>, Seq<char>)>,
    urls: Seq<(Seq<char>, Seq<char>)>,
    value: Seq<char>,
    site: Option<(Seq<char>, Seq<char>)>,
    attr: Seq<char>,
) -> Result<Seq<char>, ErrorView> {
    if after_symbol(symbol, value) is None {
        Ok(value)
    } else {
        match parse_spec(symbol, paths, urls, value) {
            Some((t, tail)) => Ok(join_alias_spec(t.base(), tail)),
            None => match unknown_name_spec(symbol, paths, urls, value) {
                Some(name) => Err(alias_err_spec(site, value, attr,
                    "unknown alias `"@ + symbol + name + "` (define it under [aliases.paths] or [aliases.urls] in statica.toml)"@)),
                None => Err(alias_err_spec(site, value, attr,
                    "invalid alias path `"@ + value + "` (expected `"@ + symbol + "Name/path` or `"@ + symbol + "Name/?query`)"@)),
            },
        }
    }
}

/// Resolve a single path/URL value. Non-alias values pass through unchanged.
pub fn resolve_path(value: &str, aliases: &AliasOptions, site: Option<(&str, &str)>, attr: &str) -> (r: Result<String, Error>)
    ensures
        match (r, resolve_path_spec(aliases.symbol@, aliases.paths_view(), aliases.urls_view(), value@, site_view(site), attr@)) {
            (Ok(s), Ok(t)) => s@ == t,
            (Err(e), Err(f)) => e@ == f,
            _ => false,
        },
{
    if !aliases.looks_like_alias(value) {
        return Ok(String::from_str(value));
    }
    if let Some(r) = aliases.parse(value) {
        return Ok(join_alias(r.base(), r.tail));
    }
    if let Some(name) = aliases.unknown_alias_name(value) {
        let mut m = String::from_str("unknown alias `");
        m.append(aliases.symbol.as_str());
        m.append(name);
        m.append("` (define it under [aliases.paths] or [aliases.urls] in statica.toml)");
        return Err(alias_err(site, value, attr, m.as_str()));
    }
    let mut m = String::from_str("invalid alias path `");
    m.append(value);
    m.append("` (expected `");
    m.append(aliases.symbol.as_str());
    m.append("Name/path` or `");
    m.append(aliases.symbol.as_str());
    m.append("Name/?query`)");
    Err(alias_err(site, value, attr, m.as_str()))
}

// ---------------------------------------------------------------------------
// Local paths

/// `Path::is_absolute` on a Unix path: it begins with `/`.
pub open spec fn is_absolute_path(p: Seq<char>) -> bool {
    p.len() > 0 && p[0] == '/'
}

/// `Path::join` on Unix paths: an absolute `rel` replaces `base`; otherwise a
/// `/` separates them unless `base` is empty or already ends with one.
pub open spec fn path_join_spec(base: Seq<char>, rel: Seq<char>) -> Seq<char> {
    if is_absolute_path(rel) {
        rel
    } else if base.len() == 0 || base.last() == '/' {
        base + rel
    } else {
        base + "/"@ + rel
    }
}

/// `Path::join` on Unix paths (see [`path_join_spec`]).
pub fn path_join(base: &str, rel: &str) -> (r: String)
    ensures
        r@ == path_join_spec(base@, rel@),
{
    let rv = chars_of(rel);
    if rv.len() > 0 && rv[0] == '/' {
        return String::from_str(rel);
    }
    let bv = chars_of(base);
    let mut out = String::from_str(base);
    if !(bv.len() == 0 || bv[bv.len() - 1] == '/') {
        out.append("/");
    }
    out.append(rel);
    out
}

/// Where a local href resolves: absolute paths stand; `./dir/…` is
/// site-root-relative; `./file.ext` and `../…` resolve from `page_dir`; other
/// relative paths from `site_root`.
pub open spec fn resolve_local_href_spec(site_root: Seq<char>, page_dir: Seq<char>, rel: Seq<char>) -> Seq<char> {
    if is_absolute_path(rel) {
        rel
    } else if has_prefix(rel, "./"@) {
        if rel.skip(2).contains('/') {
            path_join_spec(site_root, rel.skip(2))
        } else {
            path_join_spec(page_dir, rel)
        }
    } else if has_prefix(rel, "../"@) {
        path_join_spec(page_dir, rel)
    } else {
        path_join_spec(site_root, rel)
    }
}

/// Resolve a local href/src after alias expansion.
pub fn resolve_local_href(site_root: &str, page_dir: &str, rel: &str) -> (r: String)
    ensures
        r@ == resolve_local_href_spec(site_root@, page_dir@, rel@),
{
    let rv = chars_of(rel);
    if rv.len() > 0 && rv[0] == '/' {
        return String::from_str(rel);
    }
    if starts_with_chars(rv.as_slice(), "./") {
        proof {
            reveal_strlit("./");
        }
        let rest = rel.substring_char(2, rv.len());
        proof {
            assert(rest@ =~= rel@.skip(2));
            assert(rv@.subrange(2, rv@.len() as int) =~= rel@.skip(2));
        }
        if contains_char(rv.as_slice(), 2, rv.len(), '/') {
            path_join(site_root, rest)
        } else {
            path_join(page_dir, rel)
        }
    } else if starts_with_chars(rv.as_slice(), "../") {
        path_join(page_dir, rel)
    } else {
        path_join(site_root, rel)
    }
}

// ---------------------------------------------------------------------------
// Laws

/// The first `/` of `name + "/" + tail`, for a name without `/`.
proof fn lemma_first_slash(name: Seq<char>, tail: Seq<char>)
    requires
        !name.contains('/'),
    ensures
        char_index(name + "/"@ + tail, '/') == Some(name.len() as int),
{
    reveal_strlit("/");
    let rest = name + "/"@ + tail;
    crate::text::lemma_char_index(rest, '/');
    assert(rest[name.len() as int] == '/');
    match char_index(rest, '/') {
        Some(i) => {
            if i < name.len() {
                assert(rest[i] == name[i]);
                assert(name.contains('/'));
            }
        },
        None => {},
    }
}

/// The text after the alias name is kept as the tail: a known alias written
/// `{symbol}{name}/{tail}` resolves to that alias with exactly `tail`.
pub proof fn law_alias_tail_preserved(
    symbol: Seq<char>,
    paths: Seq<(Seq<char>, Seq<char>)>,
    urls: Seq<(Seq<char>, Seq<char>)>,
    name: Seq<char>,
    tail: Seq<char>,
)
    requires
        name.len() > 0,
        !name.contains('/'),
        tail.len() == 0 || tail[0] != '/',
        trim(symbol + name + "/"@ + tail) == symbol + name + "/"@ + tail,
        lookup_spec(paths, urls, name) is Some,
    ensures
        parse_spec(symbol, paths, urls, symbol + name + "/"@ + tail) == Some(
            (lookup_spec(paths, urls, name).unwrap(), tail),
        ),
{
    reveal_strlit("/");
    let value = symbol + name + "/"@ + tail;
    assert(value.subrange(0, symbol.len() as int) =~= symbol);
    let rest = value.skip(symbol.len() as int);
    assert(rest =~= name + "/"@ + tail);
    lemma_first_slash(name, tail);
    assert(rest.take(name.len() as int) =~= name);
    assert(rest.skip(name.len() as int + 1) =~= tail);
}

/// A URL alias with no tail is its base.
pub proof fn law_url_alias_without_tail(base: Seq<char>)
    requires
        is_url_spec(base),
    ensures
        join_alias_spec(base, Seq::empty()) == base,
{
}

/// A path alias joins base and tail with exactly one `/` when neither side
/// carries one at the seam.
pub proof fn law_path_alias_join(base: Seq<char>, tail: Seq<char>)
    requires
        !is_url_spec(base),
        base.len() == 0 || base.last() != '/',
        tail.len() > 0,
        tail[0] != '/',
    ensures
        join_alias_spec(base, tail) == base + "/"@ + tail,
{
}

} // verus!
