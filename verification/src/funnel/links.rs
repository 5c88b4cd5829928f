//! What each `<link rel="statica/data">` of a document asks for: its id, its
//! `href` with aliases resolved (and `${locale}` filled in a locale pass),
//! and its `type`. Loading the files is the build's part.

use vstd::prelude::*;

use crate::aliases::{resolve_path, resolve_path_spec, site_view, AliasOptions};
use crate::content::{kind_of_type, DataKind};
use crate::context::{root_named, CanonicalRoot};
use crate::error::{Error, ErrorView};
use crate::i18n::{interpolate_locale, src_has_locale_token, LOCALE_TOKEN};
use crate::funnel::json::{data_links, is_data_link_spec};
use crate::loc::{diag_at, diag_at_file, str_views};
use crate::parse::ast::{directive_spec, elements_in, Document, Element, Node};
use crate::parse::attrs::attr_lookup;
use crate::text::{contains, replace_all, trim_str};

verus! {

/// One data link: its id, its resolved `href`, and its `type` when set.
#[derive(Debug)]
pub struct DataLinkPlan {
    pub id: String,
    pub href: String,
    pub type_attr: Option<String>,
}

pub type LinkView = (Seq<char>, Seq<char>, Option<Seq<char>>);

pub open spec fn link_view(p: DataLinkPlan) -> LinkView {
    (
        p.id@,
        p.href@,
        match p.type_attr {
            Some(t) => Some(t@),
            None => None,
        },
    )
}

pub open spec fn links_view(v: Seq<DataLinkPlan>) -> Seq<LinkView> {
    v.map_values(|p: DataLinkPlan| link_view(p))
}

/// An error located in the page source by `needles`, when it is known.
pub open spec fn site_err_spec(site: Option<(Seq<char>, Seq<char>)>, needles: Seq<Seq<char>>, message: Seq<char>) -> ErrorView {
    match site {
        Some((file, source)) => ErrorView::Diag(diag_at(file, source, needles, message)),
        None => ErrorView::Diag(diag_at_file("<unknown>"@, message)),
    }
}

/// The plan of one data link: a trimmed, non-blank `id` that is not a
/// canonical root, a trimmed, non-blank `href` (aliases resolved), and the
/// trimmed, non-blank `type`. Without a `locale` the links whose `href`
/// uses `${locale}` are skipped (`None`); with one, only those are kept,
/// their `${locale}` filled in.
pub open spec fn link_plan_spec(
    e: Element,
    aliases: AliasOptions,
    site: Option<(Seq<char>, Seq<char>)>,
    locale: Option<Seq<char>>,
) -> Result<Option<LinkView>, ErrorView> {
    match directive_spec(attr_lookup(e@.attrs, "id"@)) {
        None => Err(
            site_err_spec(
                site,
                seq!["rel=\"statica/data\""@, "rel='statica/data'"@],
                "statica/data link missing id"@,
            ),
        ),
        Some(id) => if root_named(id) is Some {
            Err(
                site_err_spec(
                    site,
                    seq!["id=\""@ + id + "\""@, "id='"@ + id + "'"@],
                    "statica/data id `"@ + id + "` conflicts with canonical page context — rename this data source"@,
                ),
            )
        } else {
            match directive_spec(attr_lookup(e@.attrs, "href"@)) {
                None => Err(
                    site_err_spec(
                        site,
                        seq!["rel=\"statica/data\""@, "id=\""@ + id + "\""@],
                        "statica/data#"@ + id + " missing href"@,
                    ),
                ),
                Some(h) => match resolve_path_spec(aliases.symbol@, aliases.paths_view(), aliases.urls_view(), h, site, "href"@) {
                    Err(x) => Err(x),
                    Ok(href) => {
                        let tok = contains(href, LOCALE_TOKEN@);
                        match locale {
                            None => if tok {
                                Ok(None)
                            } else {
                                Ok(Some((id, href, directive_spec(attr_lookup(e@.attrs, "type"@)))))
                            },
                            Some(l) => if !tok {
                                Ok(None)
                            } else {
                                Ok(
                                    Some(
                                        (
                                            id,
                                            replace_all(href, LOCALE_TOKEN@, l),
                                            directive_spec(attr_lookup(e@.attrs, "type"@)),
                                        ),
                                    ),
                                )
                            },
                        }
                    },
                },
            }
        },
    }
}

/// The plans of the links, in order; the first failing link is the error.
pub open spec fn links_plan_spec(
    els: Seq<Element>,
    aliases: AliasOptions,
    site: Option<(Seq<char>, Seq<char>)>,
    locale: Option<Seq<char>>,
) -> Result<Seq<LinkView>, ErrorView>
    decreases els.len(),
{
    if els.len() == 0 {
        Ok(Seq::empty())
    } else {
        match links_plan_spec(els.drop_last(), aliases, site, locale) {
            Err(x) => Err(x),
            Ok(pre) => match link_plan_spec(els.last(), aliases, site, locale) {
                Ok(Some(p)) => Ok(pre.push(p)),
                Ok(None) => Ok(pre),
                Err(x) => Err(x),
            },
        }
    }
}

fn site_err(site: Option<(&str, &str)>, a: &str, b: &str, message: &str) -> (r: Error)
    ensures
        r@ == site_err_spec(site_view(site), seq![a@, b@], message@),
{
    match site {
        Some((file, source)) => {
            let needles = vec![a, b];
            proof {
                assert(str_views(needles@) =~= seq![a@, b@]);
            }
            Error::at(file, source, needles.as_slice(), message)
        },
        None => Error::at_file("<unknown>", message),
    }
}

fn directive_attr(el: &Element, name: &str) -> (r: Option<String>)
    ensures
        match r {
            Some(v) => directive_spec(attr_lookup(el@.attrs, name@)) == Some(v@),
            None => directive_spec(attr_lookup(el@.attrs, name@)) is None,
        },
{
    match el.attr(name) {
        Some(v) => {
            let t = trim_str(v);
            if t.unicode_len() > 0 {
                Some(t)
            } else {
                None
            }
        },
        None => None,
    }
}

fn link_plan(el: &Element, aliases: &AliasOptions, site: Option<(&str, &str)>, locale: Option<&str>) -> (r: Result<
    Option<DataLinkPlan>,
    Error,
>)
    ensures
        match link_plan_spec(*el, *aliases, site_view(site), opt_str(locale)) {
            Ok(Some(p)) => r matches Ok(Some(x)) && link_view(x) == p,
            Ok(None) => r matches Ok(None),
            Err(e) => r matches Err(x) && x@ == e,
        },
{
    proof {
        reveal_strlit("id");
        reveal_strlit("href");
        reveal_strlit("type");
    }
    let id = match directive_attr(el, "id") {
        Some(id) => id,
        None => {
            return Err(site_err(site, "rel=\"statica/data\"", "rel='statica/data'", "statica/data link missing id"));
        },
    };
    if CanonicalRoot::from_str(id.as_str()).is_some() {
        let mut dq = String::from_str("id=\"");
        dq.append(id.as_str());
        dq.append("\"");
        let mut sq = String::from_str("id='");
        sq.append(id.as_str());
        sq.append("'");
        let mut m = String::from_str("statica/data id `");
        m.append(id.as_str());
        m.append("` conflicts with canonical page context — rename this data source");
        return Err(site_err(site, dq.as_str(), sq.as_str(), m.as_str()));
    }
    let h = match directive_attr(el, "href") {
        Some(h) => h,
        None => {
            let mut dq = String::from_str("id=\"");
            dq.append(id.as_str());
            dq.append("\"");
            let mut m = String::from_str("statica/data#");
            m.append(id.as_str());
            m.append(" missing href");
            return Err(site_err(site, "rel=\"statica/data\"", dq.as_str(), m.as_str()));
        },
    };
    let href = match resolve_path(h.as_str(), aliases, site, "href") {
        Ok(x) => x,
        Err(e) => {
            return Err(e);
        },
    };
    let tok = src_has_locale_token(href.as_str());
    match locale {
        None => {
            if tok {
                return Ok(None);
            }
            Ok(Some(DataLinkPlan { id, href, type_attr: directive_attr(el, "type") }))
        },
        Some(l) => {
            if !tok {
                return Ok(None);
            }
            let filled = interpolate_locale(href.as_str(), l);
            Ok(Some(DataLinkPlan { id, href: filled, type_attr: directive_attr(el, "type") }))
        },
    }
}

pub open spec fn opt_str(o: Option<&str>) -> Option<Seq<char>> {
    match o {
        Some(s) => Some(s@),
        None => None,
    }
}

proof fn lemma_links_err_prefix(
    els: Seq<Element>,
    aliases: AliasOptions,
    site: Option<(Seq<char>, Seq<char>)>,
    locale: Option<Seq<char>>,
    k: int,
)
    requires
        0 <= k <= els.len(),
        links_plan_spec(els.take(k), aliases, site, locale) is Err,
    ensures
        links_plan_spec(els, aliases, site, locale) == links_plan_spec(els.take(k), aliases, site, locale),
    decreases els.len() - k,
{
    if k < els.len() {
        assert(els.take(k + 1).drop_last() =~= els.take(k));
        lemma_links_err_prefix(els, aliases, site, locale, k + 1);
    } else {
        assert(els.take(k) =~= els);
    }
}

/// The plan of every `<link rel="statica/data">` of `doc` that the pass
/// loads, in document order (see [`link_plan_spec`]): without `locale` the
/// links free of `${locale}`, with it the links that use it; the first
/// failing link is the error.
pub fn plan_data_links(
    doc: &Document,
    aliases: &AliasOptions,
    site: Option<(&str, &str)>,
    locale: Option<&str>,
) -> (r: Result<Vec<DataLinkPlan>, Error>)
    ensures
        match links_plan_spec(
            elements_in(doc.children@).filter(|e: Element| is_data_link_spec(e)),
            *aliases,
            site_view(site),
            opt_str(locale),
        ) {
            Ok(ps) => r matches Ok(v) && links_view(v@) == ps,
            Err(e) => r matches Err(x) && x@ == e,
        },
{
    let links = data_links(doc);
    let ghost els = crate::parse::ast::deref_all(links@);
    let mut out: Vec<DataLinkPlan> = Vec::new();
    let mut i: usize = 0;
    proof {
        assert(els.take(0) =~= Seq::<Element>::empty());
        assert(links_view(out@) =~= Seq::<LinkView>::empty());
    }
    while i < links.len()
        invariant
            i <= links@.len(),
            els == crate::parse::ast::deref_all(links@),
            els == elements_in(doc.children@).filter(|e: Element| is_data_link_spec(e)),
            els.len() == links@.len(),
            links_plan_spec(els.take(i as int), *aliases, site_view(site), opt_str(locale)) == Ok::<
                Seq<LinkView>,
                ErrorView,
            >(links_view(out@)),
        decreases links@.len() - i,
    {
        proof {
            assert(els.take(i + 1).drop_last() =~= els.take(i as int));
            assert(els.take(i + 1).last() == *links@[i as int]);
        }
        match link_plan(links[i], aliases, site, locale) {
            Ok(None) => {},
            Ok(Some(p)) => {
                let ghost before = links_view(out@);
                let ghost pv = link_view(p);
                out.push(p);
                proof {
                    assert(links_view(out@) =~= before.push(pv));
                }
            },
            Err(e) => {
                proof {
                    lemma_links_err_prefix(els, *aliases, site_view(site), opt_str(locale), i + 1);
                }
                return Err(e);
            },
        }
        i += 1;
    }
    proof {
        assert(els.take(i as int) =~= els);
    }
    Ok(out)
}

/// The format a link's `type` asks for: none without `type`; an error for
/// a `type` statica does not read.
pub fn data_link_kind(type_attr: Option<&str>, site: Option<(&str, &str)>) -> (r: Result<Option<DataKind>, Error>)
    ensures
        match type_attr {
            None => r == Ok::<Option<DataKind>, Error>(None),
            Some(raw) => match kind_of_type(raw@) {
                Some(k) => r == Ok::<Option<DataKind>, Error>(Some(k)),
                None => r matches Err(x) && x@ == ErrorView::Diag(
                    match site_view(site) {
                        Some((file, source)) => diag_at(
                            file,
                            source,
                            seq!["type=\""@ + raw@ + "\""@, "type='"@ + raw@ + "'"@, raw@],
                            "unsupported statica/data type `"@ + raw@ + "`"@,
                        ),
                        None => diag_at_file("<unknown>"@, "unsupported statica/data type `"@ + raw@ + "`"@),
                    },
                ),
            },
        },
{
    match type_attr {
        None => Ok(None),
        Some(raw) => match DataKind::from_type_attr(raw) {
            Some(k) => Ok(Some(k)),
            None => {
                let mut dq = String::from_str("type=\"");
                dq.append(raw);
                dq.append("\"");
                let mut sq = String::from_str("type='");
                sq.append(raw);
                sq.append("'");
                let mut m = String::from_str("unsupported statica/data type `");
                m.append(raw);
                m.append("`");
                match site {
                    Some((file, source)) => {
                        let needles = vec![dq.as_str(), sq.as_str(), raw];
                        proof {
                            assert(str_views(needles@) =~= seq![dq@, sq@, raw@]);
                        }
                        Err(Error::at(file, source, needles.as_slice(), m.as_str()))
                    },
                    None => Err(Error::at_file("<unknown>", m.as_str())),
                }
            },
        },
    }
}

/// The data links among `nodes`, in document order.
pub open spec fn data_link_els(nodes: Seq<Node>) -> Seq<Element> {
    elements_in(nodes).filter(|e: Element| is_data_link_spec(e))
}

/// A data link whose trimmed `href` uses `${locale}`.
pub open spec fn uses_locale_token(e: Element) -> bool {
    match directive_spec(attr_lookup(e@.attrs, "href"@)) {
        Some(h) => contains(h, LOCALE_TOKEN@),
        None => false,
    }
}

fn link_uses_locale_token(el: &Element) -> (r: bool)
    ensures
        r == uses_locale_token(*el),
{
    proof {
        reveal_strlit("href");
    }
    match directive_attr(el, "href") {
        Some(h) => src_has_locale_token(h.as_str()),
        None => false,
    }
}

/// Whether some data link of `doc` loads per-locale data (`${locale}` in
/// its `href`).
pub fn document_has_locale_data(doc: &Document) -> (r: bool)
    ensures
        r == exists|i: int|
            0 <= i < data_link_els(doc.children@).len() && uses_locale_token(
                #[trigger] data_link_els(doc.children@)[i],
            ),
{
    let links = data_links(doc);
    let ghost els = crate::parse::ast::deref_all(links@);
    let mut i: usize = 0;
    while i < links.len()
        invariant
            i <= links@.len(),
            els == crate::parse::ast::deref_all(links@),
            els == data_link_els(doc.children@),
            els.len() == links@.len(),
            forall|j: int| 0 <= j < i ==> !uses_locale_token(#[trigger] els[j]),
        decreases links@.len() - i,
    {
        proof {
            assert(els[i as int] == *links@[i as int]);
        }
        if link_uses_locale_token(links[i]) {
            return true;
        }
        i += 1;
    }
    false
}

/// Whether the data link `id` of `doc` uses `${locale}` in its `href`.
pub fn data_link_has_locale_token(doc: &Document, id: &str) -> (r: bool)
    ensures
        r == exists|i: int|
            0 <= i < data_link_els(doc.children@).len() && attr_lookup(
                (#[trigger] data_link_els(doc.children@)[i])@.attrs,
                "id"@,
            ) == Some(id@) && uses_locale_token(data_link_els(doc.children@)[i]),
{
    proof {
        reveal_strlit("id");
    }
    let links = data_links(doc);
    let ghost els = crate::parse::ast::deref_all(links@);
    let mut i: usize = 0;
    while i < links.len()
        invariant
            i <= links@.len(),
            els == crate::parse::ast::deref_all(links@),
            els == data_link_els(doc.children@),
            els.len() == links@.len(),
            forall|j: int|
                0 <= j < i ==> !(attr_lookup((#[trigger] els[j])@.attrs, "id"@) == Some(id@) && uses_locale_token(els[j])),
        decreases links@.len() - i,
    {
        proof {
            assert(els[i as int] == *links@[i as int]);
        }
        let matches_id = match links[i].attr("id") {
            Some(v) => crate::text::str_eq(v, id),
            None => false,
        };
        if matches_id && link_uses_locale_token(links[i]) {
            return true;
        }
        i += 1;
    }
    false
}

} // verus!
