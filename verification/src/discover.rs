//! Page sources: every `**/index.html` under the site root becomes a page
//! with a route (its directory) and the dynamic `[param]` segments of that route.
//!
//! Walking the file tree is the application's job; this module says which
//! entries the walk enters, and turns the `index.html` files it found into
//! pages sorted by route.

use vstd::prelude::*;

use crate::error::{Error, ErrorView};
use crate::loc::diag_at_file;
use crate::paths::{parent, parent_spec, strip_prefix, strip_prefix_spec};
use crate::text::{
    chars_of, contains_str, has_prefix, join, join_strings, lex_le, split_on, split_ranges, str_le, str_starts_with,
    string_range, trim, trim_range, views,
};

verus! {

/// Source file for one statica page (`**/index.html`).
#[derive(Debug, Clone, PartialEq, Eq, Hash)]
pub struct PageFile(String);

impl View for PageFile {
    type V = Seq<char>;

    closed spec fn view(&self) -> Seq<char> {
        self.0@
    }
}

impl PageFile {
    pub fn new(path: String) -> (r: Self)
        ensures
            r@ == path@,
    {
        PageFile(path)
    }

    pub fn as_path(&self) -> (r: &str)
        ensures
            r@ == self@,
    {
        self.0.as_str()
    }
}

/// Filesystem route for a page, relative to the site root (`""` = home).
#[derive(Debug, Clone, PartialEq, Eq, PartialOrd, Ord)]
pub struct PageRoute(String);

impl View for PageRoute {
    type V = Seq<char>;

    closed spec fn view(&self) -> Seq<char> {
        self.0@
    }
}

impl PageRoute {
    pub fn new(route: String) -> (r: Self)
        ensures
            r@ == route@,
    {
        PageRoute(route)
    }

    pub fn as_str(&self) -> (r: &str)
        ensures
            r@ == self@,
    {
        self.0.as_str()
    }

    /// The site root page.
    pub fn is_home(&self) -> (r: bool)
        ensures
            r == (self@.len() == 0),
    {
        self.0.unicode_len() == 0
    }
}

/// Dynamic route segment without brackets, such as `slug`, `page`, or `locale`.
#[derive(Debug, Clone, PartialEq, Eq)]
pub struct RouteParam(String);

impl View for RouteParam {
    type V = Seq<char>;

    closed spec fn view(&self) -> Seq<char> {
        self.0@
    }
}

impl RouteParam {
    pub fn new(param: String) -> (r: Self)
        ensures
            r@ == param@,
    {
        RouteParam(param)
    }

    pub fn as_str(&self) -> (r: &str)
        ensures
            r@ == self@,
    {
        self.0.as_str()
    }
}

pub open spec fn param_views(v: Seq<RouteParam>) -> Seq<Seq<char>> {
    v.map_values(|p: RouteParam| p@)
}

/// One discovered page.
#[derive(Debug, Clone)]
pub struct PageSource {
    pub path: PageFile,
    pub route: PageRoute,
    pub params: Vec<RouteParam>,
}

#[derive(Debug, Clone, Copy, PartialEq, Eq)]
pub enum PageKind {
    Static,
    Collection,
}

impl PageSource {
    /// Static without route parameters; a collection template otherwise.
    pub fn kind(&self) -> (r: PageKind)
        ensures
            r == (if self.params@.len() == 0 {
                PageKind::Static
            } else {
                PageKind::Collection
            }),
    {
        if self.params.len() == 0 {
            PageKind::Static
        } else {
            PageKind::Collection
        }
    }
}

/// The parameter of a route segment: `[name]` (trimmed, with a non-empty name).
pub open spec fn segment_param(seg: Seq<char>) -> Option<Seq<char>> {
    let t = trim(seg);
    if t.len() > 2 && t[0] == '[' && t.last() == ']' {
        Some(t.subrange(1, t.len() - 1))
    } else {
        None
    }
}

pub open spec fn params_of(segs: Seq<Seq<char>>) -> Seq<Seq<char>>
    decreases segs.len(),
{
    if segs.len() == 0 {
        Seq::empty()
    } else {
        match segment_param(segs[0]) {
            Some(p) => seq![p] + params_of(segs.drop_first()),
            None => params_of(segs.drop_first()),
        }
    }
}

/// The `[param]` segments of a `/`-separated route, in order.
pub open spec fn parse_params_spec(route: Seq<char>) -> Seq<Seq<char>> {
    params_of(split_on(route, '/'))
}

/// Route parameters of `route` (`posts/[slug]` → `slug`).
pub fn parse_params(route: &str) -> (r: Vec<RouteParam>)
    ensures
        param_views(r@) == parse_params_spec(route@),
{
    let v = chars_of(route);
    let parts = split_ranges(v.as_slice(), 0, v.len(), '/');
    let ghost ps = split_on(v@, '/');
    proof {
        assert(v@.subrange(0, v@.len() as int) =~= v@);
        assert(ps.skip(0) =~= ps);
    }
    let mut out: Vec<RouteParam> = Vec::new();
    let mut i: usize = 0;
    while i < parts.len()
        invariant
            i <= parts@.len(),
            parts@.len() == ps.len(),
            ps == split_on(v@, '/'),
            v@ == route@,
            forall|k: int|
                0 <= k < parts@.len() ==> {
                    &&& (#[trigger] parts@[k]).0 <= parts@[k].1 <= v@.len()
                    &&& v@.subrange(parts@[k].0 as int, parts@[k].1 as int) == ps[k]
                },
            parse_params_spec(route@) == param_views(out@) + params_of(ps.skip(i as int)),
        decreases parts@.len() - i,
    {
        let (a, b) = parts[i];
        let (ta, tb) = trim_range(v.as_slice(), a, b);
        let ghost t = v@.subrange(ta as int, tb as int);
        proof {
            assert(ps.skip(i as int).drop_first() =~= ps.skip(i + 1));
            assert(ps.skip(i as int)[0] == ps[i as int]);
        }
        if tb - ta > 2 && v[ta] == '[' && v[tb - 1] == ']' {
            let ghost before = param_views(out@);
            out.push(RouteParam::new(string_range(v.as_slice(), ta + 1, tb - 1)));
            proof {
                assert(t[0] == v@[ta as int]);
                assert(t.last() == v@[tb - 1]);
                assert(t.subrange(1, t.len() - 1) =~= v@.subrange(ta + 1, tb - 1));
                assert(param_views(out@) =~= before + seq![t.subrange(1, t.len() - 1)]);
                assert(param_views(out@) + params_of(ps.skip(i + 1)) =~= before + params_of(ps.skip(i as int)));
            }
        } else {
            proof {
                if t.len() > 2 {
                    assert(t[0] == v@[ta as int]);
                    assert(t.last() == v@[tb - 1]);
                }
            }
        }
        i += 1;
    }
    proof {
        assert(ps.skip(parts@.len() as int) =~= Seq::<Seq<char>>::empty());
        assert(param_views(out@) + Seq::<Seq<char>>::empty() =~= param_views(out@));
    }
    out
}

// ---------------------------------------------------------------------------
// Discovery

/// Whether the walk enters an entry named `name`: hidden entries and the
/// ignored directories are skipped.
pub fn keep_walk_entry(name: &str, ignore_dirs: &[String]) -> (r: bool)
    ensures
        r == (!has_prefix(name@, "."@) && !views(ignore_dirs@).contains(name@)),
{
    proof {
        reveal_strlit(".");
    }
    !str_starts_with(name, ".") && !contains_str(ignore_dirs, name)
}

/// A page by value: its file, its route, its parameters.
pub type PageView = (Seq<char>, Seq<char>, Seq<Seq<char>>);

pub open spec fn page_view(p: PageSource) -> PageView {
    (p.path@, p.route@, param_views(p.params@))
}

pub open spec fn pages_view(v: Seq<PageSource>) -> Seq<PageView> {
    v.map_values(|p: PageSource| page_view(p))
}

/// The page of an `index.html` found at `path` under `root`: its route is
/// its directory relative to `root`, components joined by `/`.
pub open spec fn page_of(root: Seq<char>, path: Seq<char>) -> Result<PageView, ErrorView> {
    match parent_spec(path) {
        None => Err(ErrorView::Diag(diag_at_file(path, "orphan index.html at "@ + path))),
        Some(dir) => match strip_prefix_spec(dir, root) {
            None => Err(ErrorView::Diag(diag_at_file(path, "path outside root: "@ + path))),
            Some(rel) => {
                let route = join(rel, "/"@);
                Ok((path, route, parse_params_spec(route)))
            },
        },
    }
}

/// The pages of `files`, in order; the first failure is the error.
pub open spec fn pages_of(root: Seq<char>, files: Seq<Seq<char>>) -> Result<Seq<PageView>, ErrorView>
    decreases files.len(),
{
    if files.len() == 0 {
        Ok(Seq::empty())
    } else {
        match pages_of(root, files.drop_last()) {
            Err(e) => Err(e),
            Ok(ps) => match page_of(root, files.last()) {
                Err(e) => Err(e),
                Ok(p) => Ok(ps.push(p)),
            },
        }
    }
}

/// Where a stable sort by route puts `p` among the sorted `s`: behind the
/// last page whose route is not after it.
pub open spec fn route_pos(s: Seq<PageView>, route: Seq<char>) -> nat
    decreases s.len(),
{
    if s.len() == 0 {
        0
    } else if lex_le(s.last().1, route) {
        s.len()
    } else {
        route_pos(s.drop_last(), route)
    }
}

proof fn lemma_route_pos_bound(s: Seq<PageView>, route: Seq<char>)
    ensures
        route_pos(s, route) <= s.len(),
    decreases s.len(),
{
    if s.len() > 0 && !lex_le(s.last().1, route) {
        lemma_route_pos_bound(s.drop_last(), route);
    }
}

/// `sort_by(|a, b| a.route.cmp(&b.route))`: a stable sort by route.
pub open spec fn sort_by_route(s: Seq<PageView>) -> Seq<PageView>
    decreases s.len(),
{
    if s.len() == 0 {
        Seq::empty()
    } else {
        let t = sort_by_route(s.drop_last());
        t.insert(route_pos(t, s.last().1) as int, s.last())
    }
}

/// The pages of the `index.html` files a walk of `root` found, sorted by
/// route.
pub open spec fn discover_spec(root: Seq<char>, files: Seq<Seq<char>>) -> Result<Seq<PageView>, ErrorView> {
    match pages_of(root, files) {
        Ok(ps) => Ok(sort_by_route(ps)),
        Err(e) => Err(e),
    }
}

fn page_for(root: &str, path: &str) -> (r: Result<PageSource, Error>)
    ensures
        match page_of(root@, path@) {
            Ok(p) => r matches Ok(x) && page_view(x) == p,
            Err(e) => r matches Err(x) && x@ == e,
        },
{
    let dir = match parent(path) {
        Some(d) => d,
        None => {
            let mut m = String::from_str("orphan index.html at ");
            m.append(path);
            return Err(Error::at_file(path, m.as_str()));
        },
    };
    let rel = match strip_prefix(dir.as_str(), root) {
        Some(r) => r,
        None => {
            let mut m = String::from_str("path outside root: ");
            m.append(path);
            return Err(Error::at_file(path, m.as_str()));
        },
    };
    let route = join_strings(&rel, "/");
    let params = parse_params(route.as_str());
    Ok(PageSource { path: PageFile::new(String::from_str(path)), route: PageRoute::new(route), params })
}

fn insert_by_route(out: &mut Vec<PageSource>, p: PageSource)
    ensures
        pages_view(final(out)@) == pages_view(old(out)@).insert(
            route_pos(pages_view(old(out)@), p.route@) as int,
            page_view(p),
        ),
{
    let ghost s = pages_view(out@);
    let mut k = out.len();
    proof {
        assert(s.take(k as int) =~= s);
    }
    while k > 0 && !str_le(out[k - 1].route.as_str(), p.route.as_str())
        invariant
            k <= out@.len(),
            s == pages_view(out@),
            route_pos(s, p.route@) == route_pos(s.take(k as int), p.route@),
        decreases k,
    {
        proof {
            assert(s.take(k as int).drop_last() =~= s.take(k - 1));
            assert(s.take(k as int).last() == page_view(out@[k - 1]));
        }
        k -= 1;
    }
    proof {
        if k > 0 {
            assert(s.take(k as int).last() == page_view(out@[k - 1]));
        }
        assert(route_pos(s.take(k as int), p.route@) == k);
    }
    let ghost pv = page_view(p);
    out.insert(k, p);
    proof {
        assert(pages_view(out@) =~= s.insert(k as int, pv));
    }
}

/// Turn the `index.html` files found under `root` (walked with
/// [`keep_walk_entry`]) into pages sorted by route; a file without a parent
/// directory or outside `root` is an error.
pub fn discover_pages(root: &str, index_files: &[String]) -> (r: Result<Vec<PageSource>, Error>)
    ensures
        match discover_spec(root@, views(index_files@)) {
            Ok(ps) => r matches Ok(v) && pages_view(v@) == ps,
            Err(e) => r matches Err(x) && x@ == e,
        },
{
    let ghost fs = views(index_files@);
    let mut out: Vec<PageSource> = Vec::new();
    let mut i: usize = 0;
    proof {
        assert(fs.take(0) =~= Seq::<Seq<char>>::empty());
        assert(pages_view(out@) =~= Seq::<PageView>::empty());
    }
    while i < index_files.len()
        invariant
            i <= index_files@.len(),
            fs == views(index_files@),
            fs.len() == index_files@.len(),
            pages_of(root@, fs.take(i as int)) matches Ok(ps) && pages_view(out@) == sort_by_route(ps),
        decreases index_files@.len() - i,
    {
        proof {
            assert(fs.take(i + 1).drop_last() =~= fs.take(i as int));
            assert(fs.take(i + 1).last() == index_files@[i as int]@);
        }
        let ghost ps = pages_of(root@, fs.take(i as int))->Ok_0;
        match page_for(root, index_files[i].as_str()) {
            Ok(p) => {
                let ghost pv = page_view(p);
                insert_by_route(&mut out, p);
                proof {
                    assert(pages_of(root@, fs.take(i + 1)) == Ok::<Seq<PageView>, ErrorView>(ps.push(pv)));
                    assert(ps.push(pv).drop_last() =~= ps);
                    assert(ps.push(pv).last() == pv);
                }
            },
            Err(e) => {
                proof {
                    lemma_pages_err_prefix(root@, fs, i + 1);
                }
                return Err(e);
            },
        }
        i += 1;
    }
    proof {
        assert(fs.take(i as int) =~= fs);
    }
    Ok(out)
}

/// Once a prefix of the files fails, all of them fail with that error.
proof fn lemma_pages_err_prefix(root: Seq<char>, fs: Seq<Seq<char>>, k: int)
    requires
        0 <= k <= fs.len(),
        pages_of(root, fs.take(k)) is Err,
    ensures
        pages_of(root, fs) == pages_of(root, fs.take(k)),
    decreases fs.len() - k,
{
    if k < fs.len() {
        assert(fs.take(k + 1).drop_last() =~= fs.take(k));
        lemma_pages_err_prefix(root, fs, k + 1);
    } else {
        assert(fs.take(k) =~= fs);
    }
}

// ---------------------------------------------------------------------------
// Route order

/// Routes never go down along `s`.
pub open spec fn routes_ordered(s: Seq<PageView>) -> bool {
    forall|i: int, j: int| 0 <= i < j < s.len() ==> lex_le(#[trigger] s[i].1, #[trigger] s[j].1)
}

proof fn lemma_route_pos_props(t: Seq<PageView>, r: Seq<char>)
    ensures
        route_pos(t, r) <= t.len(),
        route_pos(t, r) > 0 ==> lex_le(t[route_pos(t, r) - 1].1, r),
        forall|i: int| route_pos(t, r) <= i < t.len() ==> !lex_le(#[trigger] t[i].1, r),
    decreases t.len(),
{
    if t.len() > 0 && !lex_le(t.last().1, r) {
        lemma_route_pos_props(t.drop_last(), r);
        let p = route_pos(t, r);
        assert forall|i: int| p <= i < t.len() implies !lex_le(#[trigger] t[i].1, r) by {
            if i < t.len() - 1 {
                assert(t.drop_last()[i] == t[i]);
            }
        }
    }
}

proof fn lemma_sort_by_route(s: Seq<PageView>)
    ensures
        routes_ordered(sort_by_route(s)),
        sort_by_route(s).to_multiset() == s.to_multiset(),
    decreases s.len(),
{
    if s.len() > 0 {
        let t = sort_by_route(s.drop_last());
        lemma_sort_by_route(s.drop_last());
        let x = s.last();
        let p = route_pos(t, x.1) as int;
        lemma_route_pos_props(t, x.1);
        let u = t.insert(p, x);
        assert forall|i: int, j: int| 0 <= i < j < u.len() implies lex_le(#[trigger] u[i].1, #[trigger] u[j].1) by {
            if i < p && j < p {
                assert(u[i] == t[i] && u[j] == t[j]);
            } else if i < p && j == p {
                assert(u[i] == t[i]);
                if i < p - 1 {
                    crate::text::lemma_lex_le_trans(t[i].1, t[p - 1].1, x.1);
                }
            } else if i < p && j > p {
                assert(u[i] == t[i] && u[j] == t[j - 1]);
            } else if i == p {
                assert(u[j] == t[j - 1]);
                crate::text::lemma_lex_le_total(t[j - 1].1, x.1);
            } else {
                assert(u[i] == t[i - 1] && u[j] == t[j - 1]);
            }
        }
        broadcast use vstd::seq_lib::group_to_multiset_ensures;
        assert(s =~= s.drop_last() + seq![x]);
        vstd::seq_lib::lemma_multiset_commutative(s.drop_last(), seq![x]);
        assert(t.take(p) + seq![x] + t.skip(p) =~= u);
        vstd::seq_lib::lemma_multiset_commutative(t.take(p), seq![x]);
        vstd::seq_lib::lemma_multiset_commutative(t.take(p) + seq![x], t.skip(p));
        vstd::seq_lib::lemma_multiset_commutative(t.take(p), t.skip(p));
        assert(t.take(p) + t.skip(p) =~= t);
        assert(u.to_multiset() =~= s.to_multiset());
    } else {
        broadcast use vstd::seq_lib::group_to_multiset_ensures;
        assert(sort_by_route(s) =~= Seq::<PageView>::empty());
        assert(s =~= Seq::<PageView>::empty());
    }
}

/// Discovery lists each page that the found files make exactly once, in
/// route order.
pub proof fn law_discovered_pages_in_route_order(root: Seq<char>, files: Seq<Seq<char>>)
    ensures
        match pages_of(root, files) {
            Ok(ps) => discover_spec(root, files) == Ok::<Seq<PageView>, ErrorView>(sort_by_route(ps))
                && routes_ordered(sort_by_route(ps)) && sort_by_route(ps).to_multiset() == ps.to_multiset(),
            Err(e) => discover_spec(root, files) == Err::<Seq<PageView>, ErrorView>(e),
        },
{
    if let Ok(ps) = pages_of(root, files) {
        lemma_sort_by_route(ps);
    }
}

} // verus!
