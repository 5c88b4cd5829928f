//! Authoring and runtime contract tokens, and the messages that name them.

use vstd::prelude::*;

verus! {

pub const REL_DATA: &'static str = "statica/data";
pub const REL_FRAGMENT: &'static str = "statica/fragment";
pub const REL_FONT: &'static str = "statica/font";
pub const TYPE_SEARCH: &'static str = "statica/search";
/// Marks the search dialog (and counts controls in emitted pages).
pub const DATA_STATICA_SEARCH: &'static str = "data-statica-search";
pub const DATA_STATICA_SEARCH_CLOSE: &'static str = "data-statica-search-close";
pub const DATA_STATICA_SEARCH_META: &'static str = "data-statica-search-meta";
pub const DATA_STATICA_SEARCH_RESULTS: &'static str = "data-statica-search-results";
/// Where the search runtime files are written, under the output directory.
pub const SEARCH_RUNTIME_DIR: &'static str = "statica";
pub const SEARCH_JS_PATH: &'static str = "/statica/search.js";
pub const SEARCH_CSS_PATH: &'static str = "/statica/search.css";
pub const TYPE_SLOT: &'static str = "statica/slot";
pub const META_PREFIX: &'static str = "statica:";
/// Layout shell link relation.
pub const REL_LAYOUT: &'static str = "statica/layout";
/// Binding attribute (`data-bind="posts"` / `data-bind="{a, b}"`).
pub const DATA_BIND: &'static str = "data-bind";
/// Attribute that sends a mount child to a named slot (`slot="label"`).
pub const ATTR_SLOT: &'static str = "slot";
/// Loop attribute on a fragment mount (`data-each="path.to.items"`).
pub const DATA_EACH: &'static str = "data-each";
/// Translation marker attribute (`data-t="${key}"`).
pub const DATA_T: &'static str = "data-t";
/// Prefix of attribute translation markers (`data-t-{attr}`).
pub const DATA_T_ATTR_PREFIX: &'static str = "data-t-";

/// `rel="{rel}"`.
pub fn rel_double_quoted(rel: &str) -> (r: String)
    ensures
        r@ == "rel=\""@ + rel@ + "\""@,
{
    let mut s = String::from_str("rel=\"");
    s.append(rel);
    s.append("\"");
    s
}

/// `rel='{rel}'`.
pub fn rel_single_quoted(rel: &str) -> (r: String)
    ensures
        r@ == "rel='"@ + rel@ + "'"@,
{
    let mut s = String::from_str("rel='");
    s.append(rel);
    s.append("'");
    s
}

/// `rel="statica/data"`.
pub fn rel_double_quoted_data() -> (r: String)
    ensures
        r@ == "rel=\""@ + REL_DATA@ + "\""@,
{
    rel_double_quoted(REL_DATA)
}

pub open spec fn missing_data_source_spec(id: Seq<char>) -> Seq<char> {
    "no data source named `"@ + id + "` is available here; add <link rel=\""@ + REL_DATA@
        + "\" href=\"...\" id=\""@ + id
        + "\"> to this page or fragment, or update the binding to use an existing data id"@
}

pub fn missing_data_source_message(id: &str) -> (r: String)
    ensures
        r@ == missing_data_source_spec(id@),
{
    let mut s = String::from_str("no data source named `");
    s.append(id);
    s.append("` is available here; add <link rel=\"");
    s.append(REL_DATA);
    s.append("\" href=\"...\" id=\"");
    s.append(id);
    s.append("\"> to this page or fragment, or update the binding to use an existing data id");
    s
}

pub open spec fn missing_fragment_spec(id: Seq<char>) -> Seq<char> {
    "no fragment named `"@ + id + "` has been imported; add <link rel=\""@ + REL_FRAGMENT@
        + "\" type=\"text/html\" href=\"...\" id=\""@ + id + "\"> before mounting <slot id=\""@ + id
        + "\">"@
}

pub fn missing_fragment_message(id: &str) -> (r: String)
    ensures
        r@ == missing_fragment_spec(id@),
{
    let mut s = String::from_str("no fragment named `");
    s.append(id);
    s.append("` has been imported; add <link rel=\"");
    s.append(REL_FRAGMENT);
    s.append("\" type=\"text/html\" href=\"...\" id=\"");
    s.append(id);
    s.append("\"> before mounting <slot id=\"");
    s.append(id);
    s.append("\">");
    s
}

} // verus!
