//! Which pages a collection or paginated template emits. A collection emits
//! one per item of its data
//! array, at the route with the `[param]` segment (and `[locale]`) filled
//! from the item. Rendering and writing them is the build's part.

use vstd::prelude::*;

use crate::aliases::{path_join, path_join_spec, site_view};
use crate::build::rebuild::BuildScope;
use crate::config::BuildOptions;
use crate::discover::PageSource;
use crate::i18n::{should_emit_root_redirect, I18nOptions};
use crate::text::{decimal, usize_to_string};
use crate::bind::collection_needles;
use crate::error::{Error, ErrorView};
use crate::funnel::json::{field_as_str, field_as_str_spec};
use crate::funnel::value::{elems_view, json_text, to_json_text, JsonView, Value};
use crate::loc::{diag_at, diag_at_file, str_views};
use crate::paginate::{
    apply_locale_to_chunk, chunk_items, chunks_spec, localize_chunk_value, route_with_param, route_with_param_spec,
    PageChunk, PaginationRule,
};
use crate::text::{contains_str, views};

verus! {

/// One page a collection emits: its route and the item it renders.
#[derive(Debug)]
pub struct CollectionPage {
    pub route: String,
    pub item: Value,
}

/// The pages a collection emits, and the warning for an empty one.
#[derive(Debug)]
pub struct CollectionPlan {
    pub pages: Vec<CollectionPage>,
    pub warning: Option<String>,
}

pub open spec fn plan_pages_view(p: Seq<CollectionPage>) -> Seq<(Seq<char>, JsonView)> {
    p.map_values(|c: CollectionPage| (c.route@, c.item@))
}

/// A collection error, located at the page's `data-bind="{id}"` when its
/// source is known.
pub open spec fn collection_err_spec(page: Option<(Seq<char>, Seq<char>)>, id: Seq<char>, message: Seq<char>) -> ErrorView {
    match page {
        Some((file, source)) => ErrorView::Diag(
            diag_at(file, source, seq!["data-bind=\""@ + id + "\""@, "data-bind='"@ + id + "'"@], message),
        ),
        None => ErrorView::Diag(diag_at_file("<page>"@, message)),
    }
}

pub open spec fn missing_field_msg(param: Seq<char>) -> Seq<char> {
    "collection item missing field `"@ + param + "` required by route `["@ + param + "]`"@
}

pub open spec fn duplicate_msg(param: Seq<char>, folder: Seq<char>) -> Seq<char> {
    "duplicate collection value for `["@ + param + "]`: `"@ + folder + "`"@
}

pub open spec fn not_array_msg(id: Seq<char>, v: JsonView) -> Seq<char> {
    "collection `"@ + id + "` must be an array, got "@ + json_text(v)
}

pub open spec fn empty_msg(id: Seq<char>) -> Seq<char> {
    "collection `"@ + id + "` is empty — 0 pages emitted"@
}

/// The folder of each item (its `param` field as text), in order; the
/// first item without one, or whose folder an earlier item took, fails.
pub open spec fn folders_spec(items: Seq<JsonView>, param: Seq<char>) -> Result<Seq<(Seq<char>, JsonView)>, Seq<char>>
    decreases items.len(),
{
    if items.len() == 0 {
        Ok(Seq::empty())
    } else {
        match folders_spec(items.drop_last(), param) {
            Err(m) => Err(m),
            Ok(pre) => match field_as_str_spec(items.last(), param) {
                None => Err(missing_field_msg(param)),
                Some(f) => if pre.map_values(|p: (Seq<char>, JsonView)| p.0).contains(f) {
                    Err(duplicate_msg(param, f))
                } else {
                    Ok(pre.push((f, items.last())))
                },
            },
        }
    }
}

/// The output route of an item: `[locale]` then `[param]` filled.
pub open spec fn item_route(route: Seq<char>, param: Seq<char>, locale: Option<Seq<char>>, folder: Seq<char>) -> Seq<char> {
    match locale {
        Some(l) => route_with_param_spec(route_with_param_spec(route, "locale"@, l), param, folder),
        None => route_with_param_spec(route, param, folder),
    }
}

/// The plan of a collection whose data is `items`: pages `(route, item)` in
/// item order and the warning for an empty array; an error for data that is
/// not an array, an item without the route's field, or a repeated folder.
pub open spec fn collection_plan_spec(
    items: JsonView,
    id: Seq<char>,
    route: Seq<char>,
    param: Seq<char>,
    locale: Option<Seq<char>>,
    page: Option<(Seq<char>, Seq<char>)>,
) -> Result<(Seq<(Seq<char>, JsonView)>, Option<Seq<char>>), ErrorView> {
    match items {
        JsonView::Array(a) => if a.len() == 0 {
            Ok((Seq::empty(), Some(empty_msg(id))))
        } else {
            match folders_spec(a, param) {
                Err(m) => Err(collection_err_spec(page, id, m)),
                Ok(fs) => Ok(
                    (
                        fs.map_values(|p: (Seq<char>, JsonView)| (item_route(route, param, locale, p.0), p.1)),
                        None,
                    ),
                ),
            }
        },
        _ => Err(collection_err_spec(page, id, not_array_msg(id, items))),
    }
}

fn collection_err(page: Option<(&str, &str)>, id: &str, message: &str) -> (r: Error)
    ensures
        r@ == collection_err_spec(site_view(page), id@, message@),
{
    match page {
        Some((file, source)) => {
            let needles = collection_needles(id);
            let refs = vec![needles[0].as_str(), needles[1].as_str()];
            proof {
                assert(str_views(refs@) =~= seq![needles[0]@, needles[1]@]);
            }
            Error::at(file, source, refs.as_slice(), message)
        },
        None => Error::at_file("<page>", message),
    }
}

proof fn lemma_folders_err_prefix(items: Seq<JsonView>, param: Seq<char>, k: int)
    requires
        0 <= k <= items.len(),
        folders_spec(items.take(k), param) is Err,
    ensures
        folders_spec(items, param) == folders_spec(items.take(k), param),
    decreases items.len() - k,
{
    if k < items.len() {
        assert(items.take(k + 1).drop_last() =~= items.take(k));
        lemma_folders_err_prefix(items, param, k + 1);
    } else {
        assert(items.take(k) =~= items);
    }
}

fn route_for(route: &str, param: &str, locale: Option<&str>, folder: &str) -> (r: String)
    ensures
        r@ == item_route(
            route@,
            param@,
            match locale {
                Some(l) => Some(l@),
                None => None,
            },
            folder@,
        ),
{
    match locale {
        Some(l) => {
            proof {
                reveal_strlit("locale");
            }
            let r1 = route_with_param(route, "locale", l);
            route_with_param(r1.as_str(), param, folder)
        },
        None => route_with_param(route, param, folder),
    }
}

/// The pages a collection template at `route` (with `[param]`, and
/// `[locale]` when `locale` is given) emits from its data `items` (see
/// [`collection_plan_spec`]); `page` locates errors in the page source.
pub fn plan_collection_pages(
    items: &Value,
    collection_id: &str,
    route: &str,
    param: &str,
    locale: Option<&str>,
    page: Option<(&str, &str)>,
) -> (r: Result<CollectionPlan, Error>)
    ensures
        match collection_plan_spec(
            items@,
            collection_id@,
            route@,
            param@,
            match locale {
                Some(l) => Some(l@),
                None => None,
            },
            site_view(page),
        ) {
            Ok((pages, warning)) => r matches Ok(p) && plan_pages_view(p.pages@) == pages && match (p.warning, warning) {
                (Some(a), Some(b)) => a@ == b,
                (None, None) => true,
                _ => false,
            },
            Err(e) => r matches Err(x) && x@ == e,
        },
{
    let ghost lv = match locale {
        Some(l) => Some(l@),
        None => None::<Seq<char>>,
    };
    let a = match items {
        Value::Array(a) => a,
        _ => {
            let mut m = String::from_str("collection `");
            m.append(collection_id);
            m.append("` must be an array, got ");
            m.append(to_json_text(items).as_str());
            return Err(collection_err(page, collection_id, m.as_str()));
        },
    };
    if a.len() == 0 {
        let mut m = String::from_str("collection `");
        m.append(collection_id);
        m.append("` is empty — 0 pages emitted");
        return Ok(CollectionPlan { pages: Vec::new(), warning: Some(m) });
    }
    let ghost av = elems_view(a@);
    let mut folders: Vec<String> = Vec::new();
    let mut pages: Vec<CollectionPage> = Vec::new();
    let mut i: usize = 0;
    proof {
        assert(av.take(0) =~= Seq::<JsonView>::empty());
        assert(views(folders@) =~= Seq::<Seq<char>>::empty());
        assert(plan_pages_view(pages@) =~= Seq::<(Seq<char>, JsonView)>::empty());
    }
    while i < a.len()
        invariant
            i <= a@.len(),
            av == elems_view(a@),
            av.len() == a@.len(),
            av.len() > 0,
            items@ == JsonView::Array(av),
            lv == match locale {
                Some(l) => Some(l@),
                None => None::<Seq<char>>,
            },
            folders_spec(av.take(i as int), param@) matches Ok(fs) && views(folders@) == fs.map_values(
                |p: (Seq<char>, JsonView)| p.0,
            ) && plan_pages_view(pages@) == fs.map_values(
                |p: (Seq<char>, JsonView)| (item_route(route@, param@, lv, p.0), p.1),
            ),
        decreases a@.len() - i,
    {
        let ghost fs = folders_spec(av.take(i as int), param@)->Ok_0;
        proof {
            assert(av.take(i + 1).drop_last() =~= av.take(i as int));
            assert(av.take(i + 1).last() == a@[i as int]@);
        }
        let item = &a[i];
        let folder = match field_as_str(item, param) {
            Some(f) => f,
            None => {
                proof {
                    lemma_folders_err_prefix(av, param@, i + 1);
                }
                let mut m = String::from_str("collection item missing field `");
                m.append(param);
                m.append("` required by route `[");
                m.append(param);
                m.append("]`");
                proof {
                    assert(m@ == missing_field_msg(param@));
                    assert(folders_spec(av.take(i + 1), param@) == Err::<Seq<(Seq<char>, JsonView)>, Seq<char>>(
                        missing_field_msg(param@),
                    ));
                }
                return Err(collection_err(page, collection_id, m.as_str()));
            },
        };
        if contains_str(folders.as_slice(), folder.as_str()) {
            proof {
                lemma_folders_err_prefix(av, param@, i + 1);
            }
            let mut m = String::from_str("duplicate collection value for `[");
            m.append(param);
            m.append("]`: `");
            m.append(folder.as_str());
            m.append("`");
            proof {
                assert(m@ == duplicate_msg(param@, folder@));
                assert(fs.map_values(|p: (Seq<char>, JsonView)| p.0).contains(folder@));
                assert(folders_spec(av.take(i + 1), param@) == Err::<Seq<(Seq<char>, JsonView)>, Seq<char>>(
                    duplicate_msg(param@, folder@),
                ));
            }
            return Err(collection_err(page, collection_id, m.as_str()));
        }
        let r = route_for(route, param, locale, folder.as_str());
        let ghost fv = folder@;
        let ghost iv = item@;
        let ghost rv = r@;
        let ghost before_f = views(folders@);
        let ghost before_p = plan_pages_view(pages@);
        folders.push(folder);
        pages.push(CollectionPage { route: r, item: item.copy() });
        proof {
            assert(rv == item_route(route@, param@, lv, fv));
            let fs2 = fs.push((fv, iv));
            assert(folders_spec(av.take(i + 1), param@) == Ok::<Seq<(Seq<char>, JsonView)>, Seq<char>>(fs2));
            assert(views(folders@) =~= before_f.push(fv));
            assert(fs2.map_values(|p: (Seq<char>, JsonView)| p.0) =~= fs.map_values(|p: (Seq<char>, JsonView)| p.0).push(
                fv,
            ));
            assert(plan_pages_view(pages@) =~= before_p.push((rv, iv)));
            assert(fs2.map_values(|p: (Seq<char>, JsonView)| (item_route(route@, param@, lv, p.0), p.1))
                =~= fs.map_values(|p: (Seq<char>, JsonView)| (item_route(route@, param@, lv, p.0), p.1)).push(
                (rv, iv),
            ));
        }
        i += 1;
    }
    proof {
        assert(av.take(i as int) =~= av);
    }
    Ok(CollectionPlan { pages, warning: None })
}

// ---------------------------------------------------------------------------
// Paginated listings

/// One page a paginated template emits: its route, its locale, and the
/// chunk it renders.
#[derive(Debug)]
pub struct PagePlan {
    pub route: String,
    pub locale: Option<String>,
    pub chunk: PageChunk,
}

/// A page plan by value: route, locale, page folder, chunk value.
pub type PagePlanView = (Seq<char>, Option<Seq<char>>, Seq<char>, JsonView);

pub open spec fn page_plan_view(p: PagePlan) -> PagePlanView {
    (
        p.route@,
        match p.locale {
            Some(l) => Some(l@),
            None => None,
        },
        p.chunk.page@,
        p.chunk.value@,
    )
}

pub open spec fn page_plans_view(v: Seq<PagePlan>) -> Seq<PagePlanView> {
    v.map_values(|p: PagePlan| page_plan_view(p))
}

/// The chunks as pages of one locale (or of none), each at the template's
/// route with `[locale]` and `[param]` filled, localized for that locale.
pub open spec fn locale_pages(
    cs: Seq<(Seq<char>, JsonView)>,
    page_route: Seq<char>,
    param: Seq<char>,
    locale: Option<Seq<char>>,
) -> Seq<PagePlanView> {
    cs.map_values(
        |c: (Seq<char>, JsonView)|
            (
                item_route(page_route, param, locale, c.0),
                locale,
                c.0,
                match locale {
                    Some(l) => localize_chunk_value(c.1, l),
                    None => c.1,
                },
            ),
    )
}

/// The chunks once for each locale, in locale order.
pub open spec fn per_locale_pages(
    cs: Seq<(Seq<char>, JsonView)>,
    page_route: Seq<char>,
    param: Seq<char>,
    locales: Seq<Seq<char>>,
) -> Seq<PagePlanView>
    decreases locales.len(),
{
    if locales.len() == 0 {
        Seq::empty()
    } else {
        per_locale_pages(cs, page_route, param, locales.drop_last()) + locale_pages(
            cs,
            page_route,
            param,
            Some(locales.last()),
        )
    }
}

/// The pages of a paginated template: the chunks of `items` under `rule`
/// (links under `listing_route`), unlocalized without `locales`, else once
/// per locale.
pub open spec fn paginated_plan_spec(
    items: Seq<JsonView>,
    rule: PaginationRule,
    page_route: Seq<char>,
    listing_route: Seq<char>,
    param: Seq<char>,
    locales: Option<Seq<Seq<char>>>,
) -> Seq<PagePlanView> {
    let cs = chunks_spec(items, rule, listing_route, param);
    match locales {
        None => locale_pages(cs, page_route, param, None),
        Some(ls) => per_locale_pages(cs, page_route, param, ls),
    }
}

fn push_locale_pages(
    out: &mut Vec<PagePlan>,
    chunks: &Vec<PageChunk>,
    page_route: &str,
    param: &str,
    locale: Option<&str>,
    Ghost(cs): Ghost<Seq<(Seq<char>, JsonView)>>,
)
    requires
        chunks@.len() == cs.len(),
        forall|i: int| 0 <= i < chunks@.len() ==> (#[trigger] chunks@[i]).page@ == cs[i].0 && chunks@[i].value@ == cs[i].1,
    ensures
        page_plans_view(final(out)@) == page_plans_view(old(out)@) + locale_pages(
            cs,
            page_route@,
            param@,
            match locale {
                Some(l) => Some(l@),
                None => None,
            },
        ),
{
    let ghost lv = match locale {
        Some(l) => Some(l@),
        None => None::<Seq<char>>,
    };
    let ghost start = page_plans_view(out@);
    let ghost want = locale_pages(cs, page_route@, param@, lv);
    let mut i: usize = 0;
    proof {
        assert(want.take(0) =~= Seq::<PagePlanView>::empty());
        assert(page_plans_view(out@) =~= start + want.take(0));
    }
    while i < chunks.len()
        invariant
            i <= chunks@.len(),
            chunks@.len() == cs.len(),
            forall|j: int| 0 <= j < chunks@.len() ==> (#[trigger] chunks@[j]).page@ == cs[j].0 && chunks@[j].value@ == cs[j].1,
            lv == match locale {
                Some(l) => Some(l@),
                None => None::<Seq<char>>,
            },
            want == locale_pages(cs, page_route@, param@, lv),
            want.len() == cs.len(),
            page_plans_view(out@) == start + want.take(i as int),
        decreases chunks@.len() - i,
    {
        let c = &chunks[i];
        let route = route_for(page_route, param, locale, c.page.as_str());
        let (loc, chunk) = match locale {
            Some(l) => (Some(String::from_str(l)), apply_locale_to_chunk(c, l)),
            None => (None, PageChunk { page: c.page.clone(), value: c.value.copy() }),
        };
        let plan = PagePlan { route, locale: loc, chunk };
        let ghost pv = page_plan_view(plan);
        let ghost before = page_plans_view(out@);
        out.push(plan);
        proof {
            assert(pv == want[i as int]);
            assert(page_plans_view(out@) =~= before.push(pv));
            assert(want.take(i + 1) =~= want.take(i as int).push(want[i as int]));
        }
        i += 1;
    }
    proof {
        assert(want.take(i as int) =~= want);
    }
}

/// The pages a paginated template at `page_route` emits (see
/// [`paginated_plan_spec`]): `locales` is `None` for a site without
/// locales.
pub fn plan_paginated_pages(
    items: &[Value],
    rule: &PaginationRule,
    page_route: &str,
    listing_route: &str,
    param: &str,
    locales: Option<&[String]>,
) -> (r: Vec<PagePlan>)
    ensures
        page_plans_view(r@) == paginated_plan_spec(
            elems_view(items@),
            *rule,
            page_route@,
            listing_route@,
            param@,
            match locales {
                Some(ls) => Some(views(ls@)),
                None => None,
            },
        ),
{
    let chunks = chunk_items(items, rule, listing_route, param);
    let ghost cs = chunks_spec(elems_view(items@), *rule, listing_route@, param@);
    let mut out: Vec<PagePlan> = Vec::new();
    proof {
        assert(page_plans_view(out@) =~= Seq::<PagePlanView>::empty());
    }
    match locales {
        None => {
            push_locale_pages(&mut out, &chunks, page_route, param, None, Ghost(cs));
            proof {
                assert(page_plans_view(out@) =~= locale_pages(cs, page_route@, param@, None));
            }
        },
        Some(ls) => {
            let ghost lsv = views(ls@);
            let mut k: usize = 0;
            proof {
                assert(lsv.take(0) =~= Seq::<Seq<char>>::empty());
            }
            while k < ls.len()
                invariant
                    k <= ls@.len(),
                    lsv == views(ls@),
                    chunks@.len() == cs.len(),
                    cs == chunks_spec(elems_view(items@), *rule, listing_route@, param@),
                    forall|i: int| 0 <= i < chunks@.len() ==> (#[trigger] chunks@[i]).page@ == cs[i].0 && chunks@[i].value@ == cs[i].1,
                    page_plans_view(out@) == per_locale_pages(cs, page_route@, param@, lsv.take(k as int)),
                decreases ls@.len() - k,
            {
                proof {
                    assert(lsv.take(k + 1).drop_last() =~= lsv.take(k as int));
                    assert(lsv.take(k + 1).last() == ls@[k as int]@);
                }
                push_locale_pages(&mut out, &chunks, page_route, param, Some(ls[k].as_str()), Ghost(cs));
                k += 1;
            }
            proof {
                assert(lsv.take(k as int) =~= lsv);
            }
        },
    }
    out
}

// ---------------------------------------------------------------------------
// The default 404 page

/// The 404 page written when a site has none of its own.
pub const DEFAULT_404_HTML: &'static str = "<!doctype html>\n<html lang=\"en\">\n  <head>\n    <meta charset=\"utf-8\" />\n    <meta name=\"viewport\" content=\"width=device-width, initial-scale=1\" />\n    <title>404 Not Found</title>\n    <style>\n      body { font-family: system-ui, sans-serif; max-width: 40rem; margin: 10vh auto; padding: 0 1rem; line-height: 1.5; }\n      a { color: #0f766e; }\n    </style>\n  </head>\n  <body>\n    <h1>404 Not Found</h1>\n    <p>The page you are looking for does not exist.</p>\n    <p><a href=\"/\">Return home</a></p>\n  </body>\n</html>\n";

/// The default 404 page text ([`DEFAULT_404_HTML`]).
pub fn default_404_html() -> (r: &'static str)
    ensures
        r@ == DEFAULT_404_HTML@,
{
    DEFAULT_404_HTML
}

/// Where the default 404 page goes: `{out_dir}/404/index.html`, unless the
/// output already has `404.html` or `404/index.html` (`flat_exists`,
/// `nested_exists`: whether those files exist), in which case nothing is
/// written.
pub fn ensure_default_404(out_dir: &str, flat_exists: bool, nested_exists: bool) -> (r: Option<String>)
    ensures
        (flat_exists || nested_exists) ==> r is None,
        !(flat_exists || nested_exists) ==> (r matches Some(p) && p@ == path_join_spec(path_join_spec(out_dir@, "404"@), "index.html"@)),
{
    if flat_exists || nested_exists {
        return None;
    }
    let dir = path_join(out_dir, "404");
    Some(path_join(dir.as_str(), "index.html"))
}

// ---------------------------------------------------------------------------
// The build's output passes

/// Which output passes a build runs besides rendering pages.
#[derive(Debug, Clone, Copy, PartialEq, Eq)]
pub struct BuildSteps {
    /// Remove the output directory first.
    pub clean: bool,
    /// Write `/index.html` redirecting to the default locale.
    pub root_redirect: bool,
    /// Write the default 404 page when the output has none.
    pub default_404: bool,
    /// Copy (and maybe process) the asset directories.
    pub assets: bool,
    pub sitemap: bool,
    pub rss: bool,
    /// Minify the emitted HTML, CSS and JS last.
    pub minify: bool,
}

/// The passes of a build over `scope`: the global passes belong to full
/// builds only; each also needs its setting (`clean` an existing output
/// directory, the redirect a localized site without a root page).
pub open spec fn build_steps_spec(
    full: bool,
    opts: BuildOptions,
    out_dir_exists: bool,
    root_redirect: bool,
) -> BuildSteps {
    BuildSteps {
        clean: full && opts.clean && out_dir_exists,
        root_redirect: full && root_redirect,
        default_404: full,
        assets: full && opts.copy_assets,
        sitemap: full && opts.sitemap.enabled,
        rss: full && opts.rss.enabled,
        minify: full && opts.minify.enabled,
    }
}

/// Plan the output passes of a build (see [`build_steps_spec`]).
/// `out_dir_exists` says whether the output directory exists before the
/// build; `pages` are the discovered pages and `default_home_written`
/// whether the default locale's home page was written.
pub fn plan_build(
    opts: &BuildOptions,
    scope: &BuildScope,
    out_dir_exists: bool,
    i18n: &I18nOptions,
    pages: &[PageSource],
    default_home_written: bool,
) -> (r: BuildSteps)
    ensures
        r == build_steps_spec(
            scope is Full,
            *opts,
            out_dir_exists,
            i18n.enabled && (forall|j: int| 0 <= j < pages@.len() ==> pages@[j].route@.len() != 0)
                && default_home_written,
        ),
{
    let full = scope.is_full();
    let redirect = should_emit_root_redirect(i18n, pages, default_home_written);
    BuildSteps {
        clean: full && opts.clean && out_dir_exists,
        root_redirect: full && redirect,
        default_404: full,
        assets: full && opts.copy_assets,
        sitemap: full && opts.sitemap.enabled,
        rss: full && opts.rss.enabled,
        minify: full && opts.minify.enabled,
    }
}

/// Responsive `<img>` rewriting runs after the assets when images were
/// processed into variants.
pub fn plan_responsive_images(process_enabled: bool, process_images: bool, images_processed: usize) -> (r: bool)
    ensures
        r == (process_enabled && process_images && images_processed > 0),
{
    process_enabled && process_images && images_processed > 0
}

/// The search pass of a full build: the index when search is on or a page
/// has search controls; the runtime files when a page has controls.
/// `(index, runtime)`.
pub fn plan_search(full: bool, search_enabled: bool, controls: usize) -> (r: (bool, bool))
    ensures
        r.0 == (full && (search_enabled || controls > 0)),
        r.1 == (full && (search_enabled || controls > 0) && controls > 0),
{
    let index = full && (search_enabled || controls > 0);
    (index, index && controls > 0)
}

/// The report line of the assets pass.
pub fn assets_detail(process_enabled: bool, processed: usize, copied: usize) -> (r: String)
    ensures
        r@ == (if process_enabled {
            decimal(processed as nat) + " processed"@
        } else {
            decimal(copied as nat) + " copied"@
        }),
{
    if process_enabled {
        let mut s = usize_to_string(processed);
        s.append(" processed");
        s
    } else {
        let mut s = usize_to_string(copied);
        s.append(" copied");
        s
    }
}

/// The report line of the search pass.
pub fn search_detail(controls: usize) -> (r: String)
    ensures
        r@ == (if controls > 0 {
            "index, "@ + decimal(controls as nat) + " control(s)"@
        } else {
            "index"@
        }),
{
    if controls > 0 {
        let mut s = String::from_str("index, ");
        s.append(usize_to_string(controls).as_str());
        s.append(" control(s)");
        s
    } else {
        String::from_str("index")
    }
}

/// The report line of the feeds pass: the feeds written, joined by `, `.
pub fn feeds_detail(sitemap: bool, rss: bool) -> (r: String)
    ensures
        r@ == (if sitemap && rss {
            "sitemap, rss"@
        } else if sitemap {
            "sitemap"@
        } else if rss {
            "rss"@
        } else {
            Seq::<char>::empty()
        }),
{
    if sitemap && rss {
        String::from_str("sitemap, rss")
    } else if sitemap {
        String::from_str("sitemap")
    } else if rss {
        String::from_str("rss")
    } else {
        String::new()
    }
}

} // verus!
