//! Project configuration (`statica.toml`) and its command-line overrides.
//!
//! Loading the file is the application's job; this module holds the settings,
//! their defaults, and [`StaticaConfig::apply_cli`], which applies CLI flags and
//! compact `key=value` SPECs on top of them (CLI wins over the file).

use vstd::prelude::*;

use crate::aliases::{path_join, path_join_spec};
use crate::cli::ConfigCli;
use crate::env::EnvConfig;
use crate::error::{Error, ErrorView};
use crate::kv::{apply_kv, kv_fold, kv_items, kv_split, KvItem, KvTarget};
use crate::paths::{file_name, file_name_spec};
use crate::table::StrMap;
use crate::text::{
    chars_of, push_char, lower_seq, lower_string, parse_unsigned, parse_unsigned_str, split_on, split_ranges,
    contains_str, str_eq, string_range, trim, trim_range, trim_str, views,
};

verus! {

/// Canonical config file name in a statica project root.
pub const CONFIG_FILE: &'static str = "statica.toml";

// ---------------------------------------------------------------------------
// Value parsing

/// A boolean SPEC value: `1/true/yes/on` or `0/false/no/off`, any ASCII case,
/// surrounding whitespace ignored.
pub open spec fn bool_spec(raw: Seq<char>) -> Result<bool, Seq<char>> {
    let w = lower_seq(trim(raw));
    if w == "1"@ || w == "true"@ || w == "yes"@ || w == "on"@ {
        Ok(true)
    } else if w == "0"@ || w == "false"@ || w == "no"@ || w == "off"@ {
        Ok(false)
    } else {
        Err("invalid bool `"@ + w + "` (use true/false)"@)
    }
}

/// The words a flag accepts: `0`, `false`, `no`, `off` read as false and
/// `1`, `true`, `yes`, `on` as true, in any ASCII case and with surrounding
/// whitespace; anything else is refused.
pub proof fn law_bool_words(raw: Seq<char>)
    ensures
        ({
            let w = lower_seq(trim(raw));
            &&& (w == "0"@ || w == "false"@ || w == "no"@ || w == "off"@) ==> bool_spec(raw) == Ok::<bool, Seq<char>>(false)
            &&& (w == "1"@ || w == "true"@ || w == "yes"@ || w == "on"@) ==> bool_spec(raw) == Ok::<bool, Seq<char>>(true)
            &&& !(w == "0"@ || w == "false"@ || w == "no"@ || w == "off"@ || w == "1"@ || w == "true"@ || w == "yes"@
                || w == "on"@) ==> bool_spec(raw) is Err
        }),
{
    reveal_strlit("1");
    reveal_strlit("true");
    reveal_strlit("yes");
    reveal_strlit("on");
    reveal_strlit("0");
    reveal_strlit("false");
    reveal_strlit("no");
    reveal_strlit("off");
    assert("0"@[0] != "1"@[0]);
    assert("0"@.len() != "true"@.len());
    assert("0"@.len() != "yes"@.len());
    assert("0"@.len() != "on"@.len());
    assert("false"@.len() != "1"@.len());
    assert("false"@.len() != "true"@.len());
    assert("false"@.len() != "yes"@.len());
    assert("false"@.len() != "on"@.len());
    assert("no"@.len() != "1"@.len());
    assert("no"@.len() != "true"@.len());
    assert("no"@.len() != "yes"@.len());
    assert("no"@[0] != "on"@[0]);
    assert("off"@.len() != "1"@.len());
    assert("off"@.len() != "true"@.len());
    assert("off"@[0] != "yes"@[0]);
    assert("off"@.len() != "on"@.len());
}

pub fn parse_bool(raw: &str) -> (r: Result<bool, String>)
    ensures
        match bool_spec(raw@) {
            Ok(b) => r matches Ok(x) && x == b,
            Err(m) => r matches Err(e) && e@ == m,
        },
{
    let w = lower_string(trim_str(raw).as_str());
    let ws = w.as_str();
    if str_eq(ws, "1") || str_eq(ws, "true") || str_eq(ws, "yes") || str_eq(ws, "on") {
        Ok(true)
    } else if str_eq(ws, "0") || str_eq(ws, "false") || str_eq(ws, "no") || str_eq(ws, "off") {
        Ok(false)
    } else {
        let mut m = String::from_str("invalid bool `");
        m.append(ws);
        m.append("` (use true/false)");
        Err(m)
    }
}

/// `invalid {what} `{value}``.
pub open spec fn invalid_msg(what: Seq<char>, v: Seq<char>) -> Seq<char> {
    "invalid "@ + what + " `"@ + v + "`"@
}

/// An unsigned SPEC value no larger than `limit` (`str::parse` into the field's type).
pub open spec fn num_spec(v: Seq<char>, limit: nat, what: Seq<char>) -> Result<nat, Seq<char>> {
    match parse_unsigned(v) {
        Some(n) => if n <= limit {
            Ok(n)
        } else {
            Err(invalid_msg(what, v))
        },
        None => Err(invalid_msg(what, v)),
    }
}

fn parse_num(v: &str, limit: u64, what: &str) -> (r: Result<u64, String>)
    ensures
        match num_spec(v@, limit as nat, what@) {
            Ok(n) => r matches Ok(x) && x == n,
            Err(m) => r matches Err(e) && e@ == m,
        },
{
    match parse_unsigned_str(v, limit) {
        Some(n) => Ok(n),
        None => {
            let mut m = String::from_str("invalid ");
            m.append(what);
            m.append(" `");
            m.append(v);
            m.append("`");
            Err(m)
        },
    }
}

/// `unknown {section} key `{key}``.
pub open spec fn unknown_msg(section: Seq<char>, key: Seq<char>) -> Seq<char> {
    "unknown "@ + section + " key `"@ + key + "`"@
}

fn unknown_key(section: &str, key: &str) -> (r: String)
    ensures
        r@ == unknown_msg(section@, key@),
{
    let mut m = String::from_str("unknown ");
    m.append(section);
    m.append(" key `");
    m.append(key);
    m.append("`");
    m
}

/// The non-blank trimmed pieces.
pub open spec fn nonempty_trimmed(parts: Seq<Seq<char>>) -> Seq<Seq<char>>
    decreases parts.len(),
{
    if parts.len() == 0 {
        Seq::empty()
    } else {
        let t = trim(parts[0]);
        let rest = nonempty_trimmed(parts.drop_first());
        if t.len() == 0 {
            rest
        } else {
            seq![t] + rest
        }
    }
}

/// A `|`-separated list value (`collections=posts|notes`).
pub open spec fn pipe_list_spec(v: Seq<char>) -> Seq<Seq<char>> {
    nonempty_trimmed(split_on(v, '|'))
}

pub fn pipe_list(value: &str) -> (r: Vec<String>)
    ensures
        views(r@) == pipe_list_spec(value@),
{
    let v = chars_of(value);
    let parts = split_ranges(v.as_slice(), 0, v.len(), '|');
    let ghost ps = split_on(v@, '|');
    proof {
        assert(v@.subrange(0, v@.len() as int) =~= v@);
        assert(ps.skip(0) =~= ps);
    }
    let mut out: Vec<String> = Vec::new();
    let mut i: usize = 0;
    while i < parts.len()
        invariant
            i <= parts@.len(),
            parts@.len() == ps.len(),
            ps == split_on(v@, '|'),
            v@ == value@,
            forall|k: int|
                0 <= k < parts@.len() ==> {
                    &&& (#[trigger] parts@[k]).0 <= parts@[k].1 <= v@.len()
                    &&& v@.subrange(parts@[k].0 as int, parts@[k].1 as int) == ps[k]
                },
            pipe_list_spec(value@) == views(out@) + nonempty_trimmed(ps.skip(i as int)),
        decreases parts@.len() - i,
    {
        let (a, b) = parts[i];
        let (ta, tb) = trim_range(v.as_slice(), a, b);
        proof {
            assert(ps.skip(i as int).drop_first() =~= ps.skip(i + 1));
            assert(ps.skip(i as int)[0] == ps[i as int]);
        }
        if ta < tb {
            let ghost before = out@;
            out.push(string_range(v.as_slice(), ta, tb));
            proof {
                assert(views(out@) =~= views(before) + seq![v@.subrange(ta as int, tb as int)]);
                assert(views(out@) + nonempty_trimmed(ps.skip(i + 1)) =~= views(before) + nonempty_trimmed(ps.skip(i as int)));
            }
        }
        i += 1;
    }
    proof {
        assert(ps.skip(parts@.len() as int) =~= Seq::<Seq<char>>::empty());
        assert(views(out@) + Seq::<Seq<char>>::empty() =~= views(out@));
    }
    out
}

// ---------------------------------------------------------------------------
// [emit]

/// `[emit]` — what to strip / tidy in written HTML.
#[derive(Debug, Clone, Copy, PartialEq, Eq)]
pub struct EmitConfig {
    /// Remove `<script type="statica/data">` from output.
    pub strip_data: bool,
    /// Remove `<link rel="statica/fragment">` from output.
    pub strip_fragments: bool,
    /// Remove `data-bind` from `<html>`.
    pub strip_html_data_bind: bool,
    /// Dedupe inlined `$` helpers.
    pub dedupe_helpers: bool,
    /// Dedupe scoped `<style>` blocks.
    pub dedupe_styles: bool,
}

pub open spec fn emit_default() -> EmitConfig {
    EmitConfig {
        strip_data: true,
        strip_fragments: true,
        strip_html_data_bind: true,
        dedupe_helpers: true,
        dedupe_styles: true,
    }
}

impl Default for EmitConfig {
    /// Everything stripped and deduplicated.
    fn default() -> (r: Self)
        ensures
            r == emit_default(),
    {
        EmitConfig {
            strip_data: true,
            strip_fragments: true,
            strip_html_data_bind: true,
            dedupe_helpers: true,
            dedupe_styles: true,
        }
    }
}

pub open spec fn emit_step(c: EmitConfig, k: Seq<char>, v: Seq<char>) -> Result<EmitConfig, Seq<char>> {
    if k == "strip_data"@ {
        match bool_spec(v) {
            Ok(b) => Ok(EmitConfig { strip_data: b, ..c }),
            Err(m) => Err(m),
        }
    } else if k == "strip_fragments"@ {
        match bool_spec(v) {
            Ok(b) => Ok(EmitConfig { strip_fragments: b, ..c }),
            Err(m) => Err(m),
        }
    } else if k == "strip_html_data_bind"@ {
        match bool_spec(v) {
            Ok(b) => Ok(EmitConfig { strip_html_data_bind: b, ..c }),
            Err(m) => Err(m),
        }
    } else if k == "dedupe_helpers"@ {
        match bool_spec(v) {
            Ok(b) => Ok(EmitConfig { dedupe_helpers: b, ..c }),
            Err(m) => Err(m),
        }
    } else if k == "dedupe_styles"@ {
        match bool_spec(v) {
            Ok(b) => Ok(EmitConfig { dedupe_styles: b, ..c }),
            Err(m) => Err(m),
        }
    } else {
        Err(unknown_msg("emit"@, k))
    }
}

impl KvTarget for EmitConfig {
    type Model = EmitConfig;

    open spec fn kv_view(&self) -> EmitConfig {
        *self
    }

    open spec fn kv_step(m: EmitConfig, key: Seq<char>, value: Seq<char>) -> Result<EmitConfig, Seq<char>> {
        emit_step(m, key, value)
    }

    fn set_key(&mut self, key: &str, value: &str) -> (r: Result<(), String>) {
        if str_eq(key, "strip_data") {
            match parse_bool(value) {
                Ok(b) => {
                    self.strip_data = b;
                    Ok(())
                },
                Err(m) => Err(m),
            }
        } else if str_eq(key, "strip_fragments") {
            match parse_bool(value) {
                Ok(b) => {
                    self.strip_fragments = b;
                    Ok(())
                },
                Err(m) => Err(m),
            }
        } else if str_eq(key, "strip_html_data_bind") {
            match parse_bool(value) {
                Ok(b) => {
                    self.strip_html_data_bind = b;
                    Ok(())
                },
                Err(m) => Err(m),
            }
        } else if str_eq(key, "dedupe_helpers") {
            match parse_bool(value) {
                Ok(b) => {
                    self.dedupe_helpers = b;
                    Ok(())
                },
                Err(m) => Err(m),
            }
        } else if str_eq(key, "dedupe_styles") {
            match parse_bool(value) {
                Ok(b) => {
                    self.dedupe_styles = b;
                    Ok(())
                },
                Err(m) => Err(m),
            }
        } else {
            Err(unknown_key("emit", key))
        }
    }
}

// ---------------------------------------------------------------------------
// [process]

/// `[process]` — asset optimize pipeline.
#[derive(Debug, Clone, Copy, PartialEq, Eq)]
pub struct ProcessConfig {
    pub enabled: bool,
    pub css: bool,
    pub js: bool,
    pub images: bool,
    pub fonts: bool,
}

pub open spec fn process_default() -> ProcessConfig {
    ProcessConfig { enabled: false, css: true, js: true, images: true, fonts: false }
}

impl Default for ProcessConfig {
    /// Off; CSS, JS and images selected, fonts not.
    fn default() -> (r: Self)
        ensures
            r == process_default(),
    {
        ProcessConfig { enabled: false, css: true, js: true, images: true, fonts: false }
    }
}

pub open spec fn process_step(c: ProcessConfig, k: Seq<char>, v: Seq<char>) -> Result<ProcessConfig, Seq<char>> {
    if k == "enabled"@ {
        match bool_spec(v) {
            Ok(b) => Ok(ProcessConfig { enabled: b, ..c }),
            Err(m) => Err(m),
        }
    } else if k == "css"@ {
        match bool_spec(v) {
            Ok(b) => Ok(ProcessConfig { css: b, ..c }),
            Err(m) => Err(m),
        }
    } else if k == "js"@ {
        match bool_spec(v) {
            Ok(b) => Ok(ProcessConfig { js: b, ..c }),
            Err(m) => Err(m),
        }
    } else if k == "images"@ {
        match bool_spec(v) {
            Ok(b) => Ok(ProcessConfig { images: b, ..c }),
            Err(m) => Err(m),
        }
    } else if k == "fonts"@ {
        match bool_spec(v) {
            Ok(b) => Ok(ProcessConfig { fonts: b, ..c }),
            Err(m) => Err(m),
        }
    } else {
        Err(unknown_msg("process"@, k))
    }
}

impl KvTarget for ProcessConfig {
    type Model = ProcessConfig;

    open spec fn kv_view(&self) -> ProcessConfig {
        *self
    }

    open spec fn kv_step(m: ProcessConfig, key: Seq<char>, value: Seq<char>) -> Result<ProcessConfig, Seq<char>> {
        process_step(m, key, value)
    }

    fn set_key(&mut self, key: &str, value: &str) -> (r: Result<(), String>) {
        if str_eq(key, "enabled") {
            match parse_bool(value) {
                Ok(b) => {
                    self.enabled = b;
                    Ok(())
                },
                Err(m) => Err(m),
            }
        } else if str_eq(key, "css") {
            match parse_bool(value) {
                Ok(b) => {
                    self.css = b;
                    Ok(())
                },
                Err(m) => Err(m),
            }
        } else if str_eq(key, "js") {
            match parse_bool(value) {
                Ok(b) => {
                    self.js = b;
                    Ok(())
                },
                Err(m) => Err(m),
            }
        } else if str_eq(key, "images") {
            match parse_bool(value) {
                Ok(b) => {
                    self.images = b;
                    Ok(())
                },
                Err(m) => Err(m),
            }
        } else if str_eq(key, "fonts") {
            match parse_bool(value) {
                Ok(b) => {
                    self.fonts = b;
                    Ok(())
                },
                Err(m) => Err(m),
            }
        } else {
            Err(unknown_key("process", key))
        }
    }
}

// ---------------------------------------------------------------------------
// [minify]

/// `[minify]` — final pass that shrinks emitted HTML, CSS and JS.
#[derive(Debug, Clone, Copy, PartialEq, Eq)]
pub struct MinifyConfig {
    pub enabled: bool,
    pub html: bool,
    pub css: bool,
    pub js: bool,
}

pub open spec fn minify_default() -> MinifyConfig {
    MinifyConfig { enabled: false, html: true, css: true, js: true }
}

impl Default for MinifyConfig {
    /// Off; HTML, CSS and JS selected.
    fn default() -> (r: Self)
        ensures
            r == minify_default(),
    {
        MinifyConfig { enabled: false, html: true, css: true, js: true }
    }
}

pub open spec fn minify_step(c: MinifyConfig, k: Seq<char>, v: Seq<char>) -> Result<MinifyConfig, Seq<char>> {
    if k == "enabled"@ {
        match bool_spec(v) {
            Ok(b) => Ok(MinifyConfig { enabled: b, ..c }),
            Err(m) => Err(m),
        }
    } else if k == "html"@ {
        match bool_spec(v) {
            Ok(b) => Ok(MinifyConfig { html: b, ..c }),
            Err(m) => Err(m),
        }
    } else if k == "css"@ {
        match bool_spec(v) {
            Ok(b) => Ok(MinifyConfig { css: b, ..c }),
            Err(m) => Err(m),
        }
    } else if k == "js"@ {
        match bool_spec(v) {
            Ok(b) => Ok(MinifyConfig { js: b, ..c }),
            Err(m) => Err(m),
        }
    } else {
        Err(unknown_msg("minify"@, k))
    }
}

impl KvTarget for MinifyConfig {
    type Model = MinifyConfig;

    open spec fn kv_view(&self) -> MinifyConfig {
        *self
    }

    open spec fn kv_step(m: MinifyConfig, key: Seq<char>, value: Seq<char>) -> Result<MinifyConfig, Seq<char>> {
        minify_step(m, key, value)
    }

    fn set_key(&mut self, key: &str, value: &str) -> (r: Result<(), String>) {
        if str_eq(key, "enabled") {
            match parse_bool(value) {
                Ok(b) => {
                    self.enabled = b;
                    Ok(())
                },
                Err(m) => Err(m),
            }
        } else if str_eq(key, "html") {
            match parse_bool(value) {
                Ok(b) => {
                    self.html = b;
                    Ok(())
                },
                Err(m) => Err(m),
            }
        } else if str_eq(key, "css") {
            match parse_bool(value) {
                Ok(b) => {
                    self.css = b;
                    Ok(())
                },
                Err(m) => Err(m),
            }
        } else if str_eq(key, "js") {
            match parse_bool(value) {
                Ok(b) => {
                    self.js = b;
                    Ok(())
                },
                Err(m) => Err(m),
            }
        } else {
            Err(unknown_key("minify", key))
        }
    }
}

// ---------------------------------------------------------------------------
// [sitemap]

/// `[sitemap]` — XML sitemap of all emitted pages.
#[derive(Debug, Clone, PartialEq, Eq)]
pub struct SitemapConfig {
    pub enabled: bool,
    pub filename: String,
    /// URLs per file before splitting into parts + a sitemap index.
    pub urls_per_file: usize,
}

pub struct SitemapView {
    pub enabled: bool,
    pub filename: Seq<char>,
    pub urls_per_file: usize,
}

impl View for SitemapConfig {
    type V = SitemapView;

    open spec fn view(&self) -> SitemapView {
        SitemapView { enabled: self.enabled, filename: self.filename@, urls_per_file: self.urls_per_file }
    }
}

pub open spec fn sitemap_default() -> SitemapView {
    SitemapView { enabled: false, filename: "sitemap.xml"@, urls_per_file: 50000 }
}

impl Default for SitemapConfig {
    /// Off, `sitemap.xml`, 50 000 URLs per file.
    fn default() -> (r: Self)
        ensures
            r@ == sitemap_default(),
    {
        SitemapConfig { enabled: false, filename: String::from_str("sitemap.xml"), urls_per_file: 50000 }
    }
}

pub open spec fn sitemap_step(c: SitemapView, k: Seq<char>, v: Seq<char>) -> Result<SitemapView, Seq<char>> {
    if k == "enabled"@ {
        match bool_spec(v) {
            Ok(b) => Ok(SitemapView { enabled: b, ..c }),
            Err(m) => Err(m),
        }
    } else if k == "filename"@ {
        Ok(SitemapView { filename: v, ..c })
    } else if k == "urls_per_file"@ {
        match num_spec(v, usize::MAX as nat, "urls_per_file"@) {
            Ok(n) => Ok(SitemapView { urls_per_file: n as usize, ..c }),
            Err(m) => Err(m),
        }
    } else {
        Err(unknown_msg("sitemap"@, k))
    }
}

impl KvTarget for SitemapConfig {
    type Model = SitemapView;

    open spec fn kv_view(&self) -> SitemapView {
        self@
    }

    open spec fn kv_step(m: SitemapView, key: Seq<char>, value: Seq<char>) -> Result<SitemapView, Seq<char>> {
        sitemap_step(m, key, value)
    }

    fn set_key(&mut self, key: &str, value: &str) -> (r: Result<(), String>) {
        if str_eq(key, "enabled") {
            match parse_bool(value) {
                Ok(b) => {
                    self.enabled = b;
                    Ok(())
                },
                Err(m) => Err(m),
            }
        } else if str_eq(key, "filename") {
            self.filename = String::from_str(value);
            Ok(())
        } else if str_eq(key, "urls_per_file") {
            match parse_num(value, usize::MAX as u64, "urls_per_file") {
                Ok(n) => {
                    self.urls_per_file = n as usize;
                    Ok(())
                },
                Err(m) => Err(m),
            }
        } else {
            Err(unknown_key("sitemap", key))
        }
    }
}

// ---------------------------------------------------------------------------
// [rss]

/// `[rss]` — RSS 2.0 feed from collection pages.
#[derive(Debug, Clone, PartialEq, Eq)]
pub struct RssConfig {
    pub enabled: bool,
    pub filename: String,
    pub title: String,
    pub description: String,
    pub language: String,
    /// Max items (0 = unlimited).
    pub limit: usize,
    pub title_field: String,
    pub description_field: String,
    pub date_field: String,
    /// Data ids to include; empty = every collection.
    pub collections: Vec<String>,
}

pub struct RssView {
    pub enabled: bool,
    pub filename: Seq<char>,
    pub title: Seq<char>,
    pub description: Seq<char>,
    pub language: Seq<char>,
    pub limit: usize,
    pub title_field: Seq<char>,
    pub description_field: Seq<char>,
    pub date_field: Seq<char>,
    pub collections: Seq<Seq<char>>,
}

impl View for RssConfig {
    type V = RssView;

    open spec fn view(&self) -> RssView {
        RssView {
            enabled: self.enabled,
            filename: self.filename@,
            title: self.title@,
            description: self.description@,
            language: self.language@,
            limit: self.limit,
            title_field: self.title_field@,
            description_field: self.description_field@,
            date_field: self.date_field@,
            collections: views(self.collections@),
        }
    }
}

pub open spec fn rss_default() -> RssView {
    RssView {
        enabled: false,
        filename: "rss.xml"@,
        title: Seq::empty(),
        description: Seq::empty(),
        language: "en"@,
        limit: 50,
        title_field: "headline"@,
        description_field: "summary"@,
        date_field: "published_at"@,
        collections: Seq::empty(),
    }
}

impl Default for RssConfig {
    /// Off, `rss.xml`, English, 50 items, `headline` / `summary` / `published_at`.
    fn default() -> (r: Self)
        ensures
            r@ == rss_default(),
    {
        let r = RssConfig {
            enabled: false,
            filename: String::from_str("rss.xml"),
            title: String::new(),
            description: String::new(),
            language: String::from_str("en"),
            limit: 50,
            title_field: String::from_str("headline"),
            description_field: String::from_str("summary"),
            date_field: String::from_str("published_at"),
            collections: Vec::new(),
        };
        proof {
            assert(views(r.collections@) =~= Seq::<Seq<char>>::empty());
        }
        r
    }
}

pub open spec fn rss_step(c: RssView, k: Seq<char>, v: Seq<char>) -> Result<RssView, Seq<char>> {
    if k == "enabled"@ {
        match bool_spec(v) {
            Ok(b) => Ok(RssView { enabled: b, ..c }),
            Err(m) => Err(m),
        }
    } else if k == "filename"@ {
        Ok(RssView { filename: v, ..c })
    } else if k == "title"@ {
        Ok(RssView { title: v, ..c })
    } else if k == "description"@ {
        Ok(RssView { description: v, ..c })
    } else if k == "language"@ {
        Ok(RssView { language: v, ..c })
    } else if k == "limit"@ {
        match num_spec(v, usize::MAX as nat, "limit"@) {
            Ok(n) => Ok(RssView { limit: n as usize, ..c }),
            Err(m) => Err(m),
        }
    } else if k == "title_field"@ {
        Ok(RssView { title_field: v, ..c })
    } else if k == "description_field"@ {
        Ok(RssView { description_field: v, ..c })
    } else if k == "date_field"@ {
        Ok(RssView { date_field: v, ..c })
    } else if k == "collections"@ {
        Ok(RssView { collections: pipe_list_spec(v), ..c })
    } else {
        Err(unknown_msg("rss"@, k))
    }
}

impl KvTarget for RssConfig {
    type Model = RssView;

    open spec fn kv_view(&self) -> RssView {
        self@
    }

    open spec fn kv_step(m: RssView, key: Seq<char>, value: Seq<char>) -> Result<RssView, Seq<char>> {
        rss_step(m, key, value)
    }

    fn set_key(&mut self, key: &str, value: &str) -> (r: Result<(), String>) {
        if str_eq(key, "enabled") {
            match parse_bool(value) {
                Ok(b) => {
                    self.enabled = b;
                    Ok(())
                },
                Err(m) => Err(m),
            }
        } else if str_eq(key, "filename") {
            self.filename = String::from_str(value);
            Ok(())
        } else if str_eq(key, "title") {
            self.title = String::from_str(value);
            Ok(())
        } else if str_eq(key, "description") {
            self.description = String::from_str(value);
            Ok(())
        } else if str_eq(key, "language") {
            self.language = String::from_str(value);
            Ok(())
        } else if str_eq(key, "limit") {
            match parse_num(value, usize::MAX as u64, "limit") {
                Ok(n) => {
                    self.limit = n as usize;
                    Ok(())
                },
                Err(m) => Err(m),
            }
        } else if str_eq(key, "title_field") {
            self.title_field = String::from_str(value);
            Ok(())
        } else if str_eq(key, "description_field") {
            self.description_field = String::from_str(value);
            Ok(())
        } else if str_eq(key, "date_field") {
            self.date_field = String::from_str(value);
            Ok(())
        } else if str_eq(key, "collections") {
            self.collections = pipe_list(value);
            Ok(())
        } else {
            Err(unknown_key("rss", key))
        }
    }
}

// ---------------------------------------------------------------------------
// [preview]

/// `[preview]` (alias `[watch]`) — local HTTP preview for `serve` / `watch`.
#[derive(Debug, Clone, PartialEq, Eq)]
pub struct PreviewConfig {
    /// Bind address (default `0.0.0.0`).
    pub host: String,
    pub port: u16,
    pub debounce_ms: u64,
    pub poll_interval_secs: u64,
}

pub struct PreviewView {
    pub host: Seq<char>,
    pub port: u16,
    pub debounce_ms: u64,
    pub poll_interval_secs: u64,
}

impl View for PreviewConfig {
    type V = PreviewView;

    open spec fn view(&self) -> PreviewView {
        PreviewView {
            host: self.host@,
            port: self.port,
            debounce_ms: self.debounce_ms,
            poll_interval_secs: self.poll_interval_secs,
        }
    }
}

pub open spec fn preview_default() -> PreviewView {
    PreviewView { host: "0.0.0.0"@, port: 4321, debounce_ms: 80, poll_interval_secs: 2 }
}

impl Default for PreviewConfig {
    /// `0.0.0.0:4321`, 80 ms debounce, 2 s polling.
    fn default() -> (r: Self)
        ensures
            r@ == preview_default(),
    {
        PreviewConfig { host: String::from_str("0.0.0.0"), port: 4321, debounce_ms: 80, poll_interval_secs: 2 }
    }
}

pub open spec fn preview_step(c: PreviewView, k: Seq<char>, v: Seq<char>) -> Result<PreviewView, Seq<char>> {
    if k == "host"@ {
        Ok(PreviewView { host: v, ..c })
    } else if k == "port"@ {
        match num_spec(v, 65535 as nat, "port"@) {
            Ok(n) => Ok(PreviewView { port: n as u16, ..c }),
            Err(m) => Err(m),
        }
    } else if k == "debounce_ms"@ {
        match num_spec(v, u64::MAX as nat, "debounce_ms"@) {
            Ok(n) => Ok(PreviewView { debounce_ms: n as u64, ..c }),
            Err(m) => Err(m),
        }
    } else if k == "poll_interval_secs"@ {
        match num_spec(v, u64::MAX as nat, "poll_interval_secs"@) {
            Ok(n) => Ok(PreviewView { poll_interval_secs: n as u64, ..c }),
            Err(m) => Err(m),
        }
    } else {
        Err(unknown_msg("preview"@, k))
    }
}

impl KvTarget for PreviewConfig {
    type Model = PreviewView;

    open spec fn kv_view(&self) -> PreviewView {
        self@
    }

    open spec fn kv_step(m: PreviewView, key: Seq<char>, value: Seq<char>) -> Result<PreviewView, Seq<char>> {
        preview_step(m, key, value)
    }

    fn set_key(&mut self, key: &str, value: &str) -> (r: Result<(), String>) {
        if str_eq(key, "host") {
            self.host = String::from_str(value);
            Ok(())
        } else if str_eq(key, "port") {
            match parse_num(value, 65535, "port") {
                Ok(n) => {
                    self.port = n as u16;
                    Ok(())
                },
                Err(m) => Err(m),
            }
        } else if str_eq(key, "debounce_ms") {
            match parse_num(value, u64::MAX, "debounce_ms") {
                Ok(n) => {
                    self.debounce_ms = n as u64;
                    Ok(())
                },
                Err(m) => Err(m),
            }
        } else if str_eq(key, "poll_interval_secs") {
            match parse_num(value, u64::MAX, "poll_interval_secs") {
                Ok(n) => {
                    self.poll_interval_secs = n as u64;
                    Ok(())
                },
                Err(m) => Err(m),
            }
        } else {
            Err(unknown_key("preview", key))
        }
    }
}

// ---------------------------------------------------------------------------
// [[pagination]]

/// `[[pagination]]` — chunk a data array into `route/[page]/` pages.
#[derive(Debug, Clone, PartialEq, Eq)]
pub struct PaginationConfig {
    /// Page template route, e.g. `blog/[page]`.
    pub route: String,
    /// Items per generated page.
    pub page_size: usize,
    /// Max items after `offset` (0 = unlimited).
    pub limit: usize,
    /// Skip this many items before limit / paging.
    pub offset: usize,
    /// Sort field before slicing (empty = JSON order).
    pub sort_by: String,
    /// Sort descending when `sort_by` is set.
    pub sort_desc: bool,
    /// Cap emitted page folders (0 = unlimited).
    pub max_pages: usize,
    /// Also emit page 1 at the parent path.
    pub index: bool,
}

pub struct PaginationView {
    pub route: Seq<char>,
    pub page_size: usize,
    pub limit: usize,
    pub offset: usize,
    pub sort_by: Seq<char>,
    pub sort_desc: bool,
    pub max_pages: usize,
    pub index: bool,
}

impl View for PaginationConfig {
    type V = PaginationView;

    open spec fn view(&self) -> PaginationView {
        PaginationView {
            route: self.route@,
            page_size: self.page_size,
            limit: self.limit,
            offset: self.offset,
            sort_by: self.sort_by@,
            sort_desc: self.sort_desc,
            max_pages: self.max_pages,
            index: self.index,
        }
    }
}

/// The rule a pagination SPEC starts from: ten items per page, no route.
pub open spec fn pagination_start() -> PaginationView {
    PaginationView {
        route: Seq::empty(),
        page_size: 10,
        limit: 0,
        offset: 0,
        sort_by: Seq::empty(),
        sort_desc: false,
        max_pages: 0,
        index: false,
    }
}

pub open spec fn pagination_step(c: PaginationView, k: Seq<char>, v: Seq<char>) -> Result<PaginationView, Seq<char>> {
    if k == "route"@ {
        Ok(PaginationView { route: v, ..c })
    } else if k == "page_size"@ || k == "per_page"@ {
        match num_spec(v, usize::MAX as nat, "page_size"@) {
            Ok(n) => Ok(PaginationView { page_size: n as usize, ..c }),
            Err(m) => Err(m),
        }
    } else if k == "limit"@ {
        match num_spec(v, usize::MAX as nat, "limit"@) {
            Ok(n) => Ok(PaginationView { limit: n as usize, ..c }),
            Err(m) => Err(m),
        }
    } else if k == "offset"@ {
        match num_spec(v, usize::MAX as nat, "offset"@) {
            Ok(n) => Ok(PaginationView { offset: n as usize, ..c }),
            Err(m) => Err(m),
        }
    } else if k == "sort_by"@ {
        Ok(PaginationView { sort_by: v, ..c })
    } else if k == "sort_desc"@ {
        match bool_spec(v) {
            Ok(b) => Ok(PaginationView { sort_desc: b, ..c }),
            Err(m) => Err(m),
        }
    } else if k == "max_pages"@ {
        match num_spec(v, usize::MAX as nat, "max_pages"@) {
            Ok(n) => Ok(PaginationView { max_pages: n as usize, ..c }),
            Err(m) => Err(m),
        }
    } else if k == "index"@ {
        match bool_spec(v) {
            Ok(b) => Ok(PaginationView { index: b, ..c }),
            Err(m) => Err(m),
        }
    } else {
        Err(unknown_msg("pagination"@, k))
    }
}

impl KvTarget for PaginationConfig {
    type Model = PaginationView;

    open spec fn kv_view(&self) -> PaginationView {
        self@
    }

    open spec fn kv_step(m: PaginationView, key: Seq<char>, value: Seq<char>) -> Result<PaginationView, Seq<char>> {
        pagination_step(m, key, value)
    }

    fn set_key(&mut self, key: &str, value: &str) -> (r: Result<(), String>) {
        if str_eq(key, "route") {
            self.route = String::from_str(value);
            Ok(())
        } else if str_eq(key, "page_size") || str_eq(key, "per_page") {
            match parse_num(value, usize::MAX as u64, "page_size") {
                Ok(n) => {
                    self.page_size = n as usize;
                    Ok(())
                },
                Err(m) => Err(m),
            }
        } else if str_eq(key, "limit") {
            match parse_num(value, usize::MAX as u64, "limit") {
                Ok(n) => {
                    self.limit = n as usize;
                    Ok(())
                },
                Err(m) => Err(m),
            }
        } else if str_eq(key, "offset") {
            match parse_num(value, usize::MAX as u64, "offset") {
                Ok(n) => {
                    self.offset = n as usize;
                    Ok(())
                },
                Err(m) => Err(m),
            }
        } else if str_eq(key, "sort_by") {
            self.sort_by = String::from_str(value);
            Ok(())
        } else if str_eq(key, "sort_desc") {
            match parse_bool(value) {
                Ok(b) => {
                    self.sort_desc = b;
                    Ok(())
                },
                Err(m) => Err(m),
            }
        } else if str_eq(key, "max_pages") {
            match parse_num(value, usize::MAX as u64, "max_pages") {
                Ok(n) => {
                    self.max_pages = n as usize;
                    Ok(())
                },
                Err(m) => Err(m),
            }
        } else if str_eq(key, "index") {
            match parse_bool(value) {
                Ok(b) => {
                    self.index = b;
                    Ok(())
                },
                Err(m) => Err(m),
            }
        } else {
            Err(unknown_key("pagination", key))
        }
    }
}

// ---------------------------------------------------------------------------
// [i18n]

/// `[i18n]` — `[locale]/…` route expansion + `data-t` translation catalogs.
#[derive(Debug, Clone, PartialEq, Eq)]
pub struct I18nConfig {
    pub enabled: bool,
    /// Default locale for routes without a locale prefix.
    pub default: String,
    /// Locale codes expanded for `[locale]/…` page templates.
    pub locales: Vec<String>,
    /// Catalog directory under the site root: `{dir}/{locale}.json`.
    pub dir: String,
    /// Fallback catalog for missing keys (empty → `default`).
    pub fallback: String,
}

pub struct I18nView {
    pub enabled: bool,
    pub default: Seq<char>,
    pub locales: Seq<Seq<char>>,
    pub dir: Seq<char>,
    pub fallback: Seq<char>,
}

impl View for I18nConfig {
    type V = I18nView;

    open spec fn view(&self) -> I18nView {
        I18nView {
            enabled: self.enabled,
            default: self.default@,
            locales: views(self.locales@),
            dir: self.dir@,
            fallback: self.fallback@,
        }
    }
}

pub open spec fn i18n_default() -> I18nView {
    I18nView { enabled: false, default: "en"@, locales: seq!["en"@], dir: "content/i18n"@, fallback: Seq::empty() }
}

impl Default for I18nConfig {
    /// Off; locale `en` only, catalogs in `content/i18n`.
    fn default() -> (r: Self)
        ensures
            r@ == i18n_default(),
    {
        let mut locales: Vec<String> = Vec::new();
        locales.push(String::from_str("en"));
        let r = I18nConfig {
            enabled: false,
            default: String::from_str("en"),
            locales,
            dir: String::from_str("content/i18n"),
            fallback: String::new(),
        };
        proof {
            assert(views(r.locales@) =~= seq!["en"@]);
        }
        r
    }
}

pub open spec fn i18n_step(c: I18nView, k: Seq<char>, v: Seq<char>) -> Result<I18nView, Seq<char>> {
    if k == "enabled"@ {
        match bool_spec(v) {
            Ok(b) => Ok(I18nView { enabled: b, ..c }),
            Err(m) => Err(m),
        }
    } else if k == "default"@ {
        Ok(I18nView { default: v, ..c })
    } else if k == "locales"@ {
        Ok(I18nView { locales: pipe_list_spec(v), ..c })
    } else if k == "dir"@ {
        Ok(I18nView { dir: v, ..c })
    } else if k == "fallback"@ {
        Ok(I18nView { fallback: v, ..c })
    } else {
        Err(unknown_msg("i18n"@, k))
    }
}

impl KvTarget for I18nConfig {
    type Model = I18nView;

    open spec fn kv_view(&self) -> I18nView {
        self@
    }

    open spec fn kv_step(m: I18nView, key: Seq<char>, value: Seq<char>) -> Result<I18nView, Seq<char>> {
        i18n_step(m, key, value)
    }

    fn set_key(&mut self, key: &str, value: &str) -> (r: Result<(), String>) {
        if str_eq(key, "enabled") {
            match parse_bool(value) {
                Ok(b) => {
                    self.enabled = b;
                    Ok(())
                },
                Err(m) => Err(m),
            }
        } else if str_eq(key, "default") {
            self.default = String::from_str(value);
            Ok(())
        } else if str_eq(key, "locales") {
            self.locales = pipe_list(value);
            Ok(())
        } else if str_eq(key, "dir") {
            self.dir = String::from_str(value);
            Ok(())
        } else if str_eq(key, "fallback") {
            self.fallback = String::from_str(value);
            Ok(())
        } else {
            Err(unknown_key("i18n", key))
        }
    }
}

// ---------------------------------------------------------------------------
// [aliases] and [forms]

/// `[aliases]` — `@Name/tail` → resolved URL or path.
#[derive(Debug, Clone, PartialEq, Eq)]
pub struct AliasesConfig {
    /// Leading symbol for alias references (default `@`).
    pub symbol: String,
    /// Alias name → base URL or local path prefix.
    pub paths: StrMap,
}

impl Default for AliasesConfig {
    /// Symbol `@`, no aliases.
    fn default() -> (r: Self)
        ensures
            r.symbol@ == "@"@,
            r.paths.view_entries() == Seq::<(Seq<char>, Seq<char>)>::empty(),
    {
        AliasesConfig { symbol: String::from_str("@"), paths: StrMap::new() }
    }
}

/// `[forms]` — wire `<form statica>` to a provider endpoint at build time.
#[derive(Debug, Clone, PartialEq, Eq)]
pub struct FormsConfig {
    pub enabled: bool,
    /// `formspree` (default) or `custom`.
    pub provider: String,
    /// Formspree: URL template with `{id}`. Custom: single POST URL.
    pub endpoint: String,
    /// Logical form name → provider form id.
    pub ids: StrMap,
    /// Env var name that overrides `endpoint` when set.
    pub endpoint_env: String,
}

impl Default for FormsConfig {
    /// Off; Formspree with its `{id}` endpoint; `FORMS_ENDPOINT` override.
    fn default() -> (r: Self)
        ensures
            !r.enabled,
            r.provider@ == "formspree"@,
            r.endpoint@ == "https://formspree.io/f/{id}"@,
            r.ids.view_entries() == Seq::<(Seq<char>, Seq<char>)>::empty(),
            r.endpoint_env@ == "FORMS_ENDPOINT"@,
    {
        FormsConfig {
            enabled: false,
            provider: String::from_str("formspree"),
            endpoint: String::from_str("https://formspree.io/f/{id}"),
            ids: StrMap::new(),
            endpoint_env: String::from_str("FORMS_ENDPOINT"),
        }
    }
}

/// A form name character in an environment key: ASCII letters upper-cased,
/// `-` as `_`.
pub open spec fn env_key_char(c: char) -> char {
    if 'a' <= c && c <= 'z' {
        ((c as u32) - 32) as char
    } else if c == '-' {
        '_'
    } else {
        c
    }
}

/// `FORMS_{KEY}_ID`: the variable that overrides the id of form `key`.
pub open spec fn form_id_env_key(key: Seq<char>) -> Seq<char> {
    "FORMS_"@ + key.map_values(|c: char| env_key_char(c)) + "_ID"@
}

/// A set, non-empty variable replaces `current`.
pub open spec fn env_override(current: Seq<char>, value: Option<Seq<char>>) -> Seq<char> {
    match value {
        Some(v) => if v.len() > 0 {
            v
        } else {
            current
        },
        None => current,
    }
}

pub open spec fn opt_string_view(o: Option<String>) -> Option<Seq<char>> {
    match o {
        Some(s) => Some(s@),
        None => None,
    }
}

fn env_key_char_of(c: char) -> (r: char)
    ensures
        r == env_key_char(c),
{
    if 'a' <= c && c <= 'z' {
        let b: u8 = (c as u8) - 32;
        b as char
    } else if c == '-' {
        '_'
    } else {
        c
    }
}

fn form_id_env_key_of(key: &str) -> (r: String)
    ensures
        r@ == form_id_env_key(key@),
{
    let v = chars_of(key);
    let mut out = String::from_str("FORMS_");
    proof {
        reveal_strlit("FORMS_");
        reveal_strlit("_ID");
    }
    let mut i: usize = 0;
    while i < v.len()
        invariant
            i <= v@.len(),
            v@ == key@,
            out@ == "FORMS_"@ + v@.take(i as int).map_values(|c: char| env_key_char(c)),
        decreases v@.len() - i,
    {
        push_char(&mut out, env_key_char_of(v[i]));
        proof {
            assert(v@.take(i + 1).map_values(|c: char| env_key_char(c)) =~= v@.take(i as int).map_values(
                |c: char| env_key_char(c),
            ).push(env_key_char(v@[i as int])));
        }
        i += 1;
    }
    proof {
        assert(v@.take(v@.len() as int) =~= v@);
    }
    out.append("_ID");
    out
}

fn override_with(current: &mut String, value: &Option<String>)
    ensures
        final(current)@ == env_override(old(current)@, opt_string_view(*value)),
{
    if let Some(v) = value {
        if v.unicode_len() > 0 {
            *current = v.clone();
        }
    }
}

/// `new` is `old` with the environment `values` applied (see
/// [`FormsConfig::resolve_env`]).
pub open spec fn env_resolved(old: FormsConfig, new: FormsConfig, values: Seq<Option<String>>) -> bool {
    &&& new.endpoint@ == env_override(old.endpoint@, opt_string_view(values[0]))
    &&& new.ids.view_entries() == Seq::new(
        old.ids.view_entries().len(),
        |i: int| (old.ids.view_entries()[i].0, env_override(old.ids.view_entries()[i].1, opt_string_view(values[i + 1]))),
    )
    &&& new.enabled == old.enabled
    &&& new.provider == old.provider
    &&& new.endpoint_env == old.endpoint_env
}

impl FormsConfig {
    /// The variables that [`FormsConfig::resolve_env`] reads, in order:
    /// `endpoint_env`, then `FORMS_{KEY}_ID` for each form.
    pub fn env_keys(&self) -> (r: Vec<String>)
        ensures
            views(r@) == seq![self.endpoint_env@] + self.ids.view_entries().map_values(
                |e: (Seq<char>, Seq<char>)| form_id_env_key(e.0),
            ),
    {
        let ghost t = self.ids.view_entries();
        let mut out: Vec<String> = Vec::new();
        out.push(self.endpoint_env.clone());
        let mut i: usize = 0;
        while i < self.ids.entries.len()
            invariant
                i <= self.ids.entries@.len(),
                t == self.ids.view_entries(),
                t.len() == self.ids.entries@.len(),
                views(out@) == seq![self.endpoint_env@] + t.take(i as int).map_values(
                    |e: (Seq<char>, Seq<char>)| form_id_env_key(e.0),
                ),
            decreases self.ids.entries@.len() - i,
        {
            let ghost before = out@;
            out.push(form_id_env_key_of(self.ids.entries[i].0.as_str()));
            proof {
                assert(t[i as int].0 == self.ids.entries@[i as int].0@);
                assert(t.take(i + 1).map_values(|e: (Seq<char>, Seq<char>)| form_id_env_key(e.0))
                    =~= t.take(i as int).map_values(|e: (Seq<char>, Seq<char>)| form_id_env_key(e.0)).push(
                    form_id_env_key(t[i as int].0),
                ));
                assert(views(out@) =~= views(before).push(form_id_env_key(t[i as int].0)));
            }
            i += 1;
        }
        proof {
            assert(t.take(i as int) =~= t);
        }
        out
    }

    /// Apply environment overrides: `values[0]` is the value of
    /// `endpoint_env`, `values[1 + i]` that of the `i`-th form's
    /// `FORMS_{KEY}_ID` (see [`FormsConfig::env_keys`]); a set, non-empty
    /// value replaces the configured one.
    pub fn resolve_env(&mut self, values: &[Option<String>])
        requires
            values@.len() == old(self).ids.view_entries().len() + 1,
        ensures
            env_resolved(*old(self), *final(self), values@),
    {
        let ghost t = self.ids.view_entries();
        override_with(&mut self.endpoint, &values[0]);
        let mut i: usize = 0;
        while i < self.ids.entries.len()
            invariant
                i <= self.ids.entries@.len(),
                t.len() == self.ids.entries@.len(),
                t == old(self).ids.view_entries(),
                values@.len() == t.len() + 1,
                self.endpoint@ == env_override(old(self).endpoint@, opt_string_view(values@[0])),
                self.enabled == old(self).enabled,
                self.provider == old(self).provider,
                self.endpoint_env == old(self).endpoint_env,
                forall|j: int|
                    0 <= j < t.len() ==> #[trigger] self.ids.view_entries()[j] == if j < i {
                        (t[j].0, env_override(t[j].1, opt_string_view(values@[j + 1])))
                    } else {
                        t[j]
                    },
            decreases self.ids.entries@.len() - i,
        {
            let ghost before = self.ids.view_entries();
            let key = self.ids.entries[i].0.clone();
            let mut value = self.ids.entries[i].1.clone();
            proof {
                assert(before[i as int] == (key@, value@));
            }
            override_with(&mut value, &values[i + 1]);
            self.ids.entries.set(i, (key, value));
            proof {
                assert forall|j: int| 0 <= j < t.len() implies #[trigger] self.ids.view_entries()[j] == if j < i + 1 {
                    (t[j].0, env_override(t[j].1, opt_string_view(values@[j + 1])))
                } else {
                    t[j]
                } by {
                    if j != i {
                        assert(self.ids.view_entries()[j] == before[j]);
                    }
                }
            }
            i += 1;
        }
        proof {
            assert(self.ids.view_entries() =~= Seq::new(
                t.len(),
                |i: int| (t[i].0, env_override(t[i].1, opt_string_view(values@[i + 1]))),
            ));
        }
    }
}

// ---------------------------------------------------------------------------
// The whole file

/// End-user project settings. Missing file → [`StaticaConfig::default`].
#[derive(Debug, Clone, PartialEq, Eq)]
pub struct StaticaConfig {
    /// Site root relative to this config file (empty = this directory).
    pub project: String,
    pub out_dir: String,
    pub clean: bool,
    pub copy_assets: bool,
    pub asset_dirs: Vec<String>,
    pub ignore_dirs: Vec<String>,
    /// Absolute site origin for sitemap/RSS. Empty → feeds skipped.
    pub site_url: String,
    pub emit: EmitConfig,
    pub process: ProcessConfig,
    pub minify: MinifyConfig,
    pub sitemap: SitemapConfig,
    pub rss: RssConfig,
    pub pagination: Vec<PaginationConfig>,
    pub preview: PreviewConfig,
    pub aliases: AliasesConfig,
    pub forms: FormsConfig,
    pub env: EnvConfig,
    pub i18n: I18nConfig,
}

/// The settings that command-line flags can change, by value.
#[verifier::ext_equal]
pub struct ConfigView {
    pub project: Seq<char>,
    pub out_dir: Seq<char>,
    pub clean: bool,
    pub copy_assets: bool,
    pub asset_dirs: Seq<Seq<char>>,
    pub ignore_dirs: Seq<Seq<char>>,
    pub site_url: Seq<char>,
    pub emit: EmitConfig,
    pub process: ProcessConfig,
    pub minify: MinifyConfig,
    pub sitemap: SitemapView,
    pub rss: RssView,
    pub pagination: Seq<PaginationView>,
    pub preview: PreviewView,
    pub i18n: I18nView,
}

pub open spec fn pagination_views(v: Seq<PaginationConfig>) -> Seq<PaginationView> {
    v.map_values(|p: PaginationConfig| p@)
}

impl View for StaticaConfig {
    type V = ConfigView;

    open spec fn view(&self) -> ConfigView {
        ConfigView {
            project: self.project@,
            out_dir: self.out_dir@,
            clean: self.clean,
            copy_assets: self.copy_assets,
            asset_dirs: views(self.asset_dirs@),
            ignore_dirs: views(self.ignore_dirs@),
            site_url: self.site_url@,
            emit: self.emit,
            process: self.process,
            minify: self.minify,
            sitemap: self.sitemap@,
            rss: self.rss@,
            pagination: pagination_views(self.pagination@),
            preview: self.preview@,
            i18n: self.i18n@,
        }
    }
}

pub open spec fn config_default() -> ConfigView {
    ConfigView {
        project: Seq::empty(),
        out_dir: ".website"@,
        clean: true,
        copy_assets: true,
        asset_dirs: seq!["public"@, "assets"@, "static"@],
        ignore_dirs: seq![".website"@, "dist"@, "target"@, ".git"@],
        site_url: Seq::empty(),
        emit: emit_default(),
        process: process_default(),
        minify: minify_default(),
        sitemap: sitemap_default(),
        rss: rss_default(),
        pagination: Seq::empty(),
        preview: preview_default(),
        i18n: i18n_default(),
    }
}

/// The documented default `statica.toml`.
pub const DEFAULT_TOML: &'static str = r#"# statica.toml — all keys optional; defaults shown

# Site root relative to this file (empty = this directory).
# Monorepo example: keep statica.toml at the repo root and set:
# project = "apps/docs"
project = ""

out_dir = ".website"
clean = true
copy_assets = true
asset_dirs = ["public", "assets", "static"]
ignore_dirs = [".website", "dist", "target", ".git"]
site_url = ""                  # e.g. "https://example.com" — needed for sitemap/RSS

# Authoring aliases — @Name:tail in hrefs (symbol defaults to @)
[aliases]
symbol = "@"

[aliases.paths]
# fonts = "./assets/fonts"     # local: @fonts:outfit.css → ./assets/fonts/outfit.css

# HTML emit: strip authoring tags from .website
[emit]
strip_data = true              # <script type="statica/data">
strip_fragments = true         # <link rel="statica/fragment">
strip_html_data_bind = true    # data-bind on <html>
dedupe_helpers = true
dedupe_styles = true

# Final pass over emitted HTML, CSS and JS (also: statica --minify)
[minify]
enabled = false
html = true
css = true
js = true

# Asset optimize (also: statica --process)
[process]
enabled = false
css = true
js = true
images = true
fonts = false

# XML sitemap of every emitted page (needs site_url)
[sitemap]
enabled = false
filename = "sitemap.xml"
urls_per_file = 50000          # over this → sitemap-1.xml… + index at filename

# RSS 2.0 from collection pages (needs site_url)
[rss]
enabled = false
filename = "rss.xml"
title = ""
description = ""
language = "en"
limit = 50
title_field = "headline"
description_field = "summary"
date_field = "published_at"
collections = []               # empty = all collections; or ["posts"]

# Paginated listings — template at route with [page], data via <html data-bind>
# [[pagination]]
# route = "blog/[page]"        # → .website/blog/1/, blog/2/, …
# page_size = 10               # alias: per_page
# limit = 0                    # max items after offset (0 = all)
# offset = 0                   # skip first N items
# sort_by = "published_at"     # empty = keep JSON order
# sort_desc = true
# max_pages = 0                # cap page folders (0 = all)
# index = true                 # also write page 1 at blog/

# Local preview for `statica serve` / `statica watch`
[preview]
host = "0.0.0.0"
port = 4321
debounce_ms = 80
poll_interval_secs = 2

# Internationalization — locale from folder structure + content/i18n/{locale}.json
# [i18n]
# enabled = false
# default = "en"
# locales = ["en", "pt"]     # expanded for every [locale]/… template
# dir = "content/i18n"
# fallback = ""             # empty → default locale catalog
"#;

impl Default for StaticaConfig {
    /// Output in `.website`, cleaned; `public`/`assets`/`static` copied; feeds,
    /// minify and forms off.
    fn default() -> (r: Self)
        ensures
            r@ == config_default(),
            r.aliases.symbol@ == "@"@,
            r.aliases.paths.view_entries() == Seq::<(Seq<char>, Seq<char>)>::empty(),
            r.env.load_files,
            r.env.vars.view_entries() == Seq::<(Seq<char>, Seq<char>)>::empty(),
            !r.forms.enabled,
            r.forms.provider@ == "formspree"@,
            r.forms.endpoint@ == "https://formspree.io/f/{id}"@,
            r.forms.ids.view_entries() == Seq::<(Seq<char>, Seq<char>)>::empty(),
            r.forms.endpoint_env@ == "FORMS_ENDPOINT"@,
    {
        let mut asset_dirs: Vec<String> = Vec::new();
        asset_dirs.push(String::from_str("public"));
        asset_dirs.push(String::from_str("assets"));
        asset_dirs.push(String::from_str("static"));
        let mut ignore_dirs: Vec<String> = Vec::new();
        ignore_dirs.push(String::from_str(".website"));
        ignore_dirs.push(String::from_str("dist"));
        ignore_dirs.push(String::from_str("target"));
        ignore_dirs.push(String::from_str(".git"));
        let r = StaticaConfig {
            project: String::new(),
            out_dir: String::from_str(".website"),
            clean: true,
            copy_assets: true,
            asset_dirs,
            ignore_dirs,
            site_url: String::new(),
            emit: EmitConfig::default(),
            process: ProcessConfig::default(),
            minify: MinifyConfig::default(),
            sitemap: SitemapConfig::default(),
            rss: RssConfig::default(),
            pagination: Vec::new(),
            preview: PreviewConfig::default(),
            aliases: AliasesConfig::default(),
            forms: FormsConfig::default(),
            env: EnvConfig::default(),
            i18n: I18nConfig::default(),
        };
        proof {
            assert(views(r.asset_dirs@) =~= seq!["public"@, "assets"@, "static"@]);
            assert(views(r.ignore_dirs@) =~= seq![".website"@, "dist"@, "target"@, ".git"@]);
            assert(pagination_views(r.pagination@) =~= Seq::<PaginationView>::empty());
        }
        r
    }
}

/// What a build of the site at `root` is run with.
#[derive(Debug)]
pub struct BuildOptions {
    pub root: String,
    pub out_dir: String,
    pub copy_assets: bool,
    pub site_url: String,
    pub sitemap: SitemapConfig,
    pub rss: RssConfig,
    pub pagination: Vec<PaginationConfig>,
    pub process: ProcessConfig,
    pub minify: MinifyConfig,
    pub emit: EmitConfig,
    pub aliases: AliasesConfig,
    pub forms: FormsConfig,
    pub i18n: I18nConfig,
    pub clean: bool,
    pub asset_dirs: Vec<String>,
    /// Directories page discovery skips; the output directory's name is
    /// always among them.
    pub ignore_dirs: Vec<String>,
    pub verbose: bool,
}

/// The name of the output directory: its last component, else the setting.
pub open spec fn out_dir_name(out_dir: Seq<char>) -> Seq<char> {
    match file_name_spec(out_dir) {
        Some(n) => n,
        None => out_dir,
    }
}

/// `ignore_dirs` with the output directory's name added when missing.
pub open spec fn build_ignore_dirs(ignore_dirs: Seq<Seq<char>>, out_dir: Seq<char>) -> Seq<Seq<char>> {
    if ignore_dirs.contains(out_dir_name(out_dir)) {
        ignore_dirs
    } else {
        ignore_dirs.push(out_dir_name(out_dir))
    }
}

impl StaticaConfig {
    /// Output directory: `out_dir` as is when absolute, else under `root`.
    pub fn out_dir_path(&self, root: &str) -> (r: String)
        ensures
            r@ == path_join_spec(root@, self.out_dir@),
    {
        path_join(root, self.out_dir.as_str())
    }

    /// The build options of the site at `root`: every setting carried over,
    /// `out_dir` resolved against `root`, and the output directory's name
    /// added to `ignore_dirs` so a build never reads its own output.
    pub fn to_build_options(self, root: &str) -> (r: BuildOptions)
        ensures
            r.root@ == root@,
            r.out_dir@ == path_join_spec(root@, self.out_dir@),
            r.copy_assets == self.copy_assets,
            r.site_url == self.site_url,
            r.sitemap == self.sitemap,
            r.rss == self.rss,
            r.pagination == self.pagination,
            r.process == self.process,
            r.minify == self.minify,
            r.emit == self.emit,
            r.aliases == self.aliases,
            r.forms == self.forms,
            r.i18n == self.i18n,
            r.clean == self.clean,
            r.asset_dirs == self.asset_dirs,
            views(r.ignore_dirs@) == build_ignore_dirs(views(self.ignore_dirs@), self.out_dir@),
            !r.verbose,
    {
        let out_dir = self.out_dir_path(root);
        let out_name = match file_name(self.out_dir.as_str()) {
            Some(n) => n,
            None => self.out_dir.clone(),
        };
        let mut ignore_dirs = self.ignore_dirs;
        let ghost before = ignore_dirs@;
        if !contains_str(ignore_dirs.as_slice(), out_name.as_str()) {
            ignore_dirs.push(out_name);
            proof {
                assert(views(ignore_dirs@) =~= views(before).push(out_dir_name(self.out_dir@)));
            }
        }
        BuildOptions {
            root: String::from_str(root),
            out_dir,
            copy_assets: self.copy_assets,
            site_url: self.site_url,
            sitemap: self.sitemap,
            rss: self.rss,
            pagination: self.pagination,
            process: self.process,
            minify: self.minify,
            emit: self.emit,
            aliases: self.aliases,
            forms: self.forms,
            i18n: self.i18n,
            clean: self.clean,
            asset_dirs: self.asset_dirs,
            ignore_dirs,
            verbose: false,
        }
    }

    /// The documented default `statica.toml` text.
    pub fn default_toml() -> (r: String)
        ensures
            r@ == DEFAULT_TOML@,
    {
        String::from_str(DEFAULT_TOML)
    }
}

// ---------------------------------------------------------------------------
// Command-line overrides

/// `--x` sets, `--no-x` clears, neither keeps.
pub open spec fn flag(set: bool, unset: bool, cur: bool) -> bool {
    if set {
        true
    } else if unset {
        false
    } else {
        cur
    }
}

pub open spec fn opt_or(o: Option<String>, cur: Seq<char>) -> Seq<char> {
    match o {
        Some(v) => v@,
        None => cur,
    }
}

pub open spec fn opt_list_or(o: Option<Vec<String>>, cur: Seq<Seq<char>>) -> Seq<Seq<char>> {
    match o {
        Some(v) => views(v@),
        None => cur,
    }
}

/// Plain top-level flags.
pub open spec fn cli_top(c: ConfigView, cli: ConfigCli) -> ConfigView {
    ConfigView {
        project: opt_or(cli.project, c.project),
        out_dir: opt_or(cli.out_dir, c.out_dir),
        site_url: opt_or(cli.site_url, c.site_url),
        clean: flag(cli.clean, cli.no_clean, c.clean),
        copy_assets: flag(cli.copy_assets, cli.no_copy_assets, c.copy_assets),
        asset_dirs: opt_list_or(cli.asset_dirs, c.asset_dirs),
        ignore_dirs: opt_list_or(cli.ignore_dirs, c.ignore_dirs),
        ..c
    }
}

/// `--emit SPEC`.
pub open spec fn cli_emit(c: ConfigView, cli: ConfigCli) -> (ConfigView, Option<Seq<char>>) {
    match cli.emit {
        Some(spec) => {
            let r = kv_fold::<EmitConfig>(c.emit, kv_items(spec@));
            (ConfigView { emit: r.0, ..c }, r.1)
        },
        None => (c, None),
    }
}

/// `--no-process` / `--process [SPEC]`.
pub open spec fn cli_process(c: ConfigView, cli: ConfigCli) -> (ConfigView, Option<Seq<char>>) {
    if cli.no_process {
        (ConfigView { process: ProcessConfig { enabled: false, ..c.process }, ..c }, None)
    } else {
        match cli.process {
            Some(spec) => {
                let p1 = ProcessConfig { enabled: true, ..c.process };
                if spec@.len() == 0 {
                    (ConfigView { process: p1, ..c }, None)
                } else {
                    let r = kv_fold::<ProcessConfig>(p1, kv_items(spec@));
                    (ConfigView { process: r.0, ..c }, r.1)
                }
            },
            None => (c, None),
        }
    }
}

/// `--no-minify` / `--minify [SPEC]`.
pub open spec fn cli_minify(c: ConfigView, cli: ConfigCli) -> (ConfigView, Option<Seq<char>>) {
    if cli.no_minify {
        (ConfigView { minify: MinifyConfig { enabled: false, ..c.minify }, ..c }, None)
    } else {
        match cli.minify {
            Some(spec) => {
                let p1 = MinifyConfig { enabled: true, ..c.minify };
                if spec@.len() == 0 {
                    (ConfigView { minify: p1, ..c }, None)
                } else {
                    let r = kv_fold::<MinifyConfig>(p1, kv_items(spec@));
                    (ConfigView { minify: r.0, ..c }, r.1)
                }
            },
            None => (c, None),
        }
    }
}

/// `--no-sitemap` / `--sitemap [SPEC]`.
pub open spec fn cli_sitemap(c: ConfigView, cli: ConfigCli) -> (ConfigView, Option<Seq<char>>) {
    if cli.no_sitemap {
        (ConfigView { sitemap: SitemapView { enabled: false, ..c.sitemap }, ..c }, None)
    } else {
        match cli.sitemap {
            Some(spec) => {
                let p1 = SitemapView { enabled: true, ..c.sitemap };
                if spec@.len() == 0 {
                    (ConfigView { sitemap: p1, ..c }, None)
                } else {
                    let r = kv_fold::<SitemapConfig>(p1, kv_items(spec@));
                    (ConfigView { sitemap: r.0, ..c }, r.1)
                }
            },
            None => (c, None),
        }
    }
}

/// `--no-rss` / `--rss [SPEC]`.
pub open spec fn cli_rss(c: ConfigView, cli: ConfigCli) -> (ConfigView, Option<Seq<char>>) {
    if cli.no_rss {
        (ConfigView { rss: RssView { enabled: false, ..c.rss }, ..c }, None)
    } else {
        match cli.rss {
            Some(spec) => {
                let p1 = RssView { enabled: true, ..c.rss };
                if spec@.len() == 0 {
                    (ConfigView { rss: p1, ..c }, None)
                } else {
                    let r = kv_fold::<RssConfig>(p1, kv_items(spec@));
                    (ConfigView { rss: r.0, ..c }, r.1)
                }
            },
            None => (c, None),
        }
    }
}

/// One `--pagination SPEC`: a rule with a route, or the first message.
pub open spec fn pagination_spec(s: Seq<char>) -> Result<PaginationView, Seq<char>> {
    let r = kv_fold::<PaginationConfig>(pagination_start(), kv_items(s));
    match r.1 {
        Some(m) => Err(m),
        None => if r.0.route.len() == 0 {
            Err("pagination SPEC requires route=…"@)
        } else {
            Ok(r.0)
        },
    }
}

/// Every `--pagination SPEC`, or the message of the first that fails.
pub open spec fn pagination_all(specs: Seq<Seq<char>>) -> Result<Seq<PaginationView>, Seq<char>>
    decreases specs.len(),
{
    if specs.len() == 0 {
        Ok(Seq::empty())
    } else {
        match pagination_spec(specs[0]) {
            Err(m) => Err(m),
            Ok(p) => match pagination_all(specs.drop_first()) {
                Ok(ps) => Ok(seq![p] + ps),
                Err(m) => Err(m),
            },
        }
    }
}

/// `--pagination` (repeatable): replaces every rule, all or nothing.
pub open spec fn cli_pagination(c: ConfigView, cli: ConfigCli) -> (ConfigView, Option<Seq<char>>) {
    if cli.pagination@.len() == 0 {
        (c, None)
    } else {
        match pagination_all(views(cli.pagination@)) {
            Ok(ps) => (ConfigView { pagination: ps, ..c }, None),
            Err(m) => (c, Some(m)),
        }
    }
}

/// `--preview SPEC`, then `--host` and `--port`.
pub open spec fn cli_preview(c: ConfigView, cli: ConfigCli) -> (ConfigView, Option<Seq<char>>) {
    let r = match cli.preview {
        Some(spec) => kv_fold::<PreviewConfig>(c.preview, kv_items(spec@)),
        None => (c.preview, None),
    };
    if r.1 is Some {
        (ConfigView { preview: r.0, ..c }, r.1)
    } else {
        let p = PreviewView {
            host: opt_or(cli.host, r.0.host),
            port: match cli.port {
                Some(n) => n,
                None => r.0.port,
            },
            ..r.0
        };
        (ConfigView { preview: p, ..c }, None)
    }
}

/// `--no-i18n` / `--i18n [SPEC]`.
pub open spec fn cli_i18n(c: ConfigView, cli: ConfigCli) -> (ConfigView, Option<Seq<char>>) {
    if cli.no_i18n {
        (ConfigView { i18n: I18nView { enabled: false, ..c.i18n }, ..c }, None)
    } else {
        match cli.i18n {
            Some(spec) => {
                let p1 = I18nView { enabled: true, ..c.i18n };
                if spec@.len() == 0 {
                    (ConfigView { i18n: p1, ..c }, None)
                } else {
                    let r = kv_fold::<I18nConfig>(p1, kv_items(spec@));
                    (ConfigView { i18n: r.0, ..c }, r.1)
                }
            },
            None => (c, None),
        }
    }
}

/// Every override in order: top-level flags, emit, process, minify, sitemap, rss,
/// pagination, preview (+ host/port), i18n. The first failing stage stops the
/// walk; the stages before it stay applied.
pub open spec fn apply_cli_spec(c: ConfigView, cli: ConfigCli) -> (ConfigView, Option<Seq<char>>) {
    let c1 = cli_top(c, cli);
    let r2 = cli_emit(c1, cli);
    if r2.1 is Some {
        r2
    } else {
        let r3 = cli_process(r2.0, cli);
        if r3.1 is Some {
            r3
        } else {
            let r3m = cli_minify(r3.0, cli);
            if r3m.1 is Some {
                r3m
            } else {
            let r4 = cli_sitemap(r3m.0, cli);
            if r4.1 is Some {
                r4
            } else {
                let r5 = cli_rss(r4.0, cli);
                if r5.1 is Some {
                    r5
                } else {
                    let r6 = cli_pagination(r5.0, cli);
                    if r6.1 is Some {
                        r6
                    } else {
                        let r7 = cli_preview(r6.0, cli);
                        if r7.1 is Some {
                            r7
                        } else {
                            cli_i18n(r7.0, cli)
                        }
                    }
                }
            }
            }
        }
    }
}

fn copy_strings(v: &Vec<String>) -> (r: Vec<String>)
    ensures
        views(r@) == views(v@),
{
    let mut out: Vec<String> = Vec::new();
    let mut i: usize = 0;
    while i < v.len()
        invariant
            i <= v@.len(),
            views(out@) == views(v@).take(i as int),
        decreases v@.len() - i,
    {
        let ghost before = out@;
        out.push(String::from_str(v[i].as_str()));
        proof {
            assert(views(out@) =~= views(before).push(v@[i as int]@));
            assert(views(v@).take(i + 1) =~= views(v@).take(i as int).push(v@[i as int]@));
        }
        i += 1;
    }
    proof {
        assert(views(v@).take(v@.len() as int) =~= views(v@));
    }
    out
}

/// One pagination rule from `--pagination SPEC` (`route` is required).
pub fn parse_pagination_spec(spec: &str) -> (r: Result<PaginationConfig, String>)
    ensures
        match pagination_spec(spec@) {
            Ok(p) => r matches Ok(x) && x@ == p,
            Err(m) => r matches Err(e) && e@ == m,
        },
{
    let mut cfg = PaginationConfig {
        route: String::new(),
        page_size: 10,
        limit: 0,
        offset: 0,
        sort_by: String::new(),
        sort_desc: false,
        max_pages: 0,
        index: false,
    };
    proof {
        assert(cfg@ =~= pagination_start());
    }
    match apply_kv(&mut cfg, spec) {
        Ok(_) => {},
        Err(m) => {
            return Err(m);
        },
    }
    if cfg.route.unicode_len() == 0 {
        proof {
            reveal_strlit("pagination SPEC requires route=…");
        }
        return Err(String::from_str("pagination SPEC requires route=…"));
    }
    Ok(cfg)
}

pub open spec fn prefix_ok(p: Seq<PaginationView>, r: Result<Seq<PaginationView>, Seq<char>>) -> Result<Seq<PaginationView>, Seq<char>> {
    match r {
        Ok(ps) => Ok(p + ps),
        Err(m) => Err(m),
    }
}

/// Every `--pagination` rule, or the first failure.
fn parse_pagination_all(specs: &Vec<String>) -> (r: Result<Vec<PaginationConfig>, String>)
    ensures
        match pagination_all(views(specs@)) {
            Ok(ps) => r matches Ok(x) && pagination_views(x@) == ps,
            Err(m) => r matches Err(e) && e@ == m,
        },
{
    let ghost sv = views(specs@);
    let mut out: Vec<PaginationConfig> = Vec::new();
    let mut i: usize = 0;
    proof {
        assert(sv.skip(0) =~= sv);
        assert(pagination_views(out@) =~= Seq::<PaginationView>::empty());
        match pagination_all(sv) {
            Ok(ps) => {
                assert(Seq::<PaginationView>::empty() + ps =~= ps);
            },
            Err(_) => {},
        }
    }
    while i < specs.len()
        invariant
            i <= specs@.len(),
            sv == views(specs@),
            pagination_all(sv) == prefix_ok(pagination_views(out@), pagination_all(sv.skip(i as int))),
        decreases specs@.len() - i,
    {
        proof {
            assert(sv.skip(i as int).drop_first() =~= sv.skip(i + 1));
            assert(sv.skip(i as int)[0] == specs@[i as int]@);
        }
        match parse_pagination_spec(specs[i].as_str()) {
            Ok(p) => {
                let ghost before = pagination_views(out@);
                out.push(p);
                proof {
                    assert(pagination_views(out@) =~= before.push(p@));
                    match pagination_all(sv.skip(i + 1)) {
                        Ok(ps) => {
                            assert(before + (seq![p@] + ps) =~= before.push(p@) + ps);
                        },
                        Err(_) => {},
                    }
                }
            },
            Err(m) => {
                return Err(m);
            },
        }
        i += 1;
    }
    proof {
        assert(sv.skip(specs@.len() as int) =~= Seq::<Seq<char>>::empty());
        assert(pagination_views(out@) + Seq::<PaginationView>::empty() =~= pagination_views(out@));
    }
    Ok(out)
}

/// A stage's result agrees with the message it is meant to stop on.
pub open spec fn err_matches(r: Result<(), Error>, m: Option<Seq<char>>) -> bool {
    match r {
        Ok(_) => m is None,
        Err(e) => m is Some && e@ == ErrorView::Msg(m.unwrap()),
    }
}

impl StaticaConfig {
    #[verifier::rlimit(80)]
    fn apply_names(&mut self, cli: &ConfigCli)
        ensures
            final(self)@ == (ConfigView {
                project: opt_or(cli.project, old(self)@.project),
                out_dir: opt_or(cli.out_dir, old(self)@.out_dir),
                site_url: opt_or(cli.site_url, old(self)@.site_url),
                ..old(self)@
            }),
            final(self).aliases == old(self).aliases,
            final(self).forms == old(self).forms,
            final(self).env == old(self).env,
    {
        if let Some(v) = &cli.project {
            self.project = String::from_str(v.as_str());
        }
        if let Some(v) = &cli.out_dir {
            self.out_dir = String::from_str(v.as_str());
        }
        if let Some(v) = &cli.site_url {
            self.site_url = String::from_str(v.as_str());
        }
        proof {
            assert(self@ =~= (ConfigView {
                project: opt_or(cli.project, old(self)@.project),
                out_dir: opt_or(cli.out_dir, old(self)@.out_dir),
                site_url: opt_or(cli.site_url, old(self)@.site_url),
                ..old(self)@
            }));
        }
    }

    fn apply_flags(&mut self, cli: &ConfigCli)
        ensures
            final(self)@ == (ConfigView {
                clean: flag(cli.clean, cli.no_clean, old(self)@.clean),
                copy_assets: flag(cli.copy_assets, cli.no_copy_assets, old(self)@.copy_assets),
                ..old(self)@
            }),
            final(self).aliases == old(self).aliases,
            final(self).forms == old(self).forms,
            final(self).env == old(self).env,
    {
        if cli.clean {
            self.clean = true;
        } else if cli.no_clean {
            self.clean = false;
        }
        if cli.copy_assets {
            self.copy_assets = true;
        } else if cli.no_copy_assets {
            self.copy_assets = false;
        }
    }

    fn apply_dirs(&mut self, cli: &ConfigCli)
        ensures
            final(self)@ == (ConfigView {
                asset_dirs: opt_list_or(cli.asset_dirs, old(self)@.asset_dirs),
                ignore_dirs: opt_list_or(cli.ignore_dirs, old(self)@.ignore_dirs),
                ..old(self)@
            }),
            final(self).aliases == old(self).aliases,
            final(self).forms == old(self).forms,
            final(self).env == old(self).env,
    {
        if let Some(v) = &cli.asset_dirs {
            self.asset_dirs = copy_strings(v);
        }
        if let Some(v) = &cli.ignore_dirs {
            self.ignore_dirs = copy_strings(v);
        }
    }

    fn apply_top(&mut self, cli: &ConfigCli)
        ensures
            final(self)@ == cli_top(old(self)@, *cli),
            final(self).aliases == old(self).aliases,
            final(self).forms == old(self).forms,
            final(self).env == old(self).env,
    {
        self.apply_names(cli);
        self.apply_flags(cli);
        self.apply_dirs(cli);
        proof {
            assert(self@ =~= cli_top(old(self)@, *cli));
        }
    }

    fn apply_emit(&mut self, cli: &ConfigCli) -> (r: Result<(), Error>)
        ensures
            final(self)@ == cli_emit(old(self)@, *cli).0,
            err_matches(r, cli_emit(old(self)@, *cli).1),
            final(self).aliases == old(self).aliases,
            final(self).forms == old(self).forms,
            final(self).env == old(self).env,
    {
        let r = self.apply_emit_inner(cli);
        proof {
            assert(self@ =~= cli_emit(old(self)@, *cli).0);
        }
        r
    }

    fn apply_emit_inner(&mut self, cli: &ConfigCli) -> (r: Result<(), Error>)
        ensures
            final(self)@ =~= cli_emit(old(self)@, *cli).0,
            err_matches(r, cli_emit(old(self)@, *cli).1),
            final(self).aliases == old(self).aliases,
            final(self).forms == old(self).forms,
            final(self).env == old(self).env,
    {
        if let Some(spec) = &cli.emit {
            match apply_kv(&mut self.emit, spec.as_str()) {
                Ok(_) => {},
                Err(m) => {
                    return Err(Error::msg(m.as_str()));
                },
            }
        }
        Ok(())
    }

    fn apply_process(&mut self, cli: &ConfigCli) -> (r: Result<(), Error>)
        ensures
            final(self)@ == cli_process(old(self)@, *cli).0,
            err_matches(r, cli_process(old(self)@, *cli).1),
            final(self).aliases == old(self).aliases,
            final(self).forms == old(self).forms,
            final(self).env == old(self).env,
    {
        let r = self.apply_process_inner(cli);
        proof {
            assert(self@ =~= cli_process(old(self)@, *cli).0);
        }
        r
    }

    fn apply_process_inner(&mut self, cli: &ConfigCli) -> (r: Result<(), Error>)
        ensures
            final(self)@ =~= cli_process(old(self)@, *cli).0,
            err_matches(r, cli_process(old(self)@, *cli).1),
            final(self).aliases == old(self).aliases,
            final(self).forms == old(self).forms,
            final(self).env == old(self).env,
    {
        if cli.no_process {
            self.process.enabled = false;
        } else if let Some(spec) = &cli.process {
            self.process.enabled = true;
            if spec.unicode_len() > 0 {
                match apply_kv(&mut self.process, spec.as_str()) {
                    Ok(_) => {},
                    Err(m) => {
                        return Err(Error::msg(m.as_str()));
                    },
                }
            }
        }
        Ok(())
    }

    fn apply_minify(&mut self, cli: &ConfigCli) -> (r: Result<(), Error>)
        ensures
            final(self)@ == cli_minify(old(self)@, *cli).0,
            err_matches(r, cli_minify(old(self)@, *cli).1),
            final(self).aliases == old(self).aliases,
            final(self).forms == old(self).forms,
            final(self).env == old(self).env,
    {
        let r = self.apply_minify_inner(cli);
        proof {
            assert(self@ =~= cli_minify(old(self)@, *cli).0);
        }
        r
    }

    fn apply_minify_inner(&mut self, cli: &ConfigCli) -> (r: Result<(), Error>)
        ensures
            final(self)@ =~= cli_minify(old(self)@, *cli).0,
            err_matches(r, cli_minify(old(self)@, *cli).1),
            final(self).aliases == old(self).aliases,
            final(self).forms == old(self).forms,
            final(self).env == old(self).env,
    {
        if cli.no_minify {
            self.minify.enabled = false;
        } else if let Some(spec) = &cli.minify {
            self.minify.enabled = true;
            if spec.unicode_len() > 0 {
                match apply_kv(&mut self.minify, spec.as_str()) {
                    Ok(_) => {},
                    Err(m) => {
                        return Err(Error::msg(m.as_str()));
                    },
                }
            }
        }
        Ok(())
    }

    fn apply_sitemap(&mut self, cli: &ConfigCli) -> (r: Result<(), Error>)
        ensures
            final(self)@ == cli_sitemap(old(self)@, *cli).0,
            err_matches(r, cli_sitemap(old(self)@, *cli).1),
            final(self).aliases == old(self).aliases,
            final(self).forms == old(self).forms,
            final(self).env == old(self).env,
    {
        let r = self.apply_sitemap_inner(cli);
        proof {
            assert(self@ =~= cli_sitemap(old(self)@, *cli).0);
        }
        r
    }

    fn apply_sitemap_inner(&mut self, cli: &ConfigCli) -> (r: Result<(), Error>)
        ensures
            final(self)@ =~= cli_sitemap(old(self)@, *cli).0,
            err_matches(r, cli_sitemap(old(self)@, *cli).1),
            final(self).aliases == old(self).aliases,
            final(self).forms == old(self).forms,
            final(self).env == old(self).env,
    {
        if cli.no_sitemap {
            self.sitemap.enabled = false;
        } else if let Some(spec) = &cli.sitemap {
            self.sitemap.enabled = true;
            if spec.unicode_len() > 0 {
                match apply_kv(&mut self.sitemap, spec.as_str()) {
                    Ok(_) => {},
                    Err(m) => {
                        return Err(Error::msg(m.as_str()));
                    },
                }
            }
        }
        Ok(())
    }

    fn apply_rss(&mut self, cli: &ConfigCli) -> (r: Result<(), Error>)
        ensures
            final(self)@ == cli_rss(old(self)@, *cli).0,
            err_matches(r, cli_rss(old(self)@, *cli).1),
            final(self).aliases == old(self).aliases,
            final(self).forms == old(self).forms,
            final(self).env == old(self).env,
    {
        let r = self.apply_rss_inner(cli);
        proof {
            assert(self@ =~= cli_rss(old(self)@, *cli).0);
        }
        r
    }

    fn apply_rss_inner(&mut self, cli: &ConfigCli) -> (r: Result<(), Error>)
        ensures
            final(self)@ =~= cli_rss(old(self)@, *cli).0,
            err_matches(r, cli_rss(old(self)@, *cli).1),
            final(self).aliases == old(self).aliases,
            final(self).forms == old(self).forms,
            final(self).env == old(self).env,
    {
        if cli.no_rss {
            self.rss.enabled = false;
        } else if let Some(spec) = &cli.rss {
            self.rss.enabled = true;
            if spec.unicode_len() > 0 {
                match apply_kv(&mut self.rss, spec.as_str()) {
                    Ok(_) => {},
                    Err(m) => {
                        return Err(Error::msg(m.as_str()));
                    },
                }
            }
        }
        Ok(())
    }

    fn apply_pagination(&mut self, cli: &ConfigCli) -> (r: Result<(), Error>)
        ensures
            final(self)@ == cli_pagination(old(self)@, *cli).0,
            err_matches(r, cli_pagination(old(self)@, *cli).1),
            final(self).aliases == old(self).aliases,
            final(self).forms == old(self).forms,
            final(self).env == old(self).env,
    {
        let r = self.apply_pagination_inner(cli);
        proof {
            assert(self@ =~= cli_pagination(old(self)@, *cli).0);
        }
        r
    }

    fn apply_pagination_inner(&mut self, cli: &ConfigCli) -> (r: Result<(), Error>)
        ensures
            final(self)@ =~= cli_pagination(old(self)@, *cli).0,
            err_matches(r, cli_pagination(old(self)@, *cli).1),
            final(self).aliases == old(self).aliases,
            final(self).forms == old(self).forms,
            final(self).env == old(self).env,
    {
        if cli.pagination.len() > 0 {
            match parse_pagination_all(&cli.pagination) {
                Ok(ps) => {
                    self.pagination = ps;
                },
                Err(m) => {
                    return Err(Error::msg(m.as_str()));
                },
            }
        }
        Ok(())
    }

    fn apply_preview(&mut self, cli: &ConfigCli) -> (r: Result<(), Error>)
        ensures
            final(self)@ == cli_preview(old(self)@, *cli).0,
            err_matches(r, cli_preview(old(self)@, *cli).1),
            final(self).aliases == old(self).aliases,
            final(self).forms == old(self).forms,
            final(self).env == old(self).env,
    {
        let r = self.apply_preview_inner(cli);
        proof {
            assert(self@ =~= cli_preview(old(self)@, *cli).0);
        }
        r
    }

    fn apply_preview_inner(&mut self, cli: &ConfigCli) -> (r: Result<(), Error>)
        ensures
            final(self)@ =~= cli_preview(old(self)@, *cli).0,
            err_matches(r, cli_preview(old(self)@, *cli).1),
            final(self).aliases == old(self).aliases,
            final(self).forms == old(self).forms,
            final(self).env == old(self).env,
    {
        if let Some(spec) = &cli.preview {
            match apply_kv(&mut self.preview, spec.as_str()) {
                Ok(_) => {},
                Err(m) => {
                    return Err(Error::msg(m.as_str()));
                },
            }
        }
        if let Some(v) = &cli.host {
            self.preview.host = String::from_str(v.as_str());
        }
        if let Some(n) = cli.port {
            self.preview.port = n;
        }
        Ok(())
    }

    fn apply_i18n(&mut self, cli: &ConfigCli) -> (r: Result<(), Error>)
        ensures
            final(self)@ == cli_i18n(old(self)@, *cli).0,
            err_matches(r, cli_i18n(old(self)@, *cli).1),
            final(self).aliases == old(self).aliases,
            final(self).forms == old(self).forms,
            final(self).env == old(self).env,
    {
        let r = self.apply_i18n_inner(cli);
        proof {
            assert(self@ =~= cli_i18n(old(self)@, *cli).0);
        }
        r
    }

    fn apply_i18n_inner(&mut self, cli: &ConfigCli) -> (r: Result<(), Error>)
        ensures
            final(self)@ =~= cli_i18n(old(self)@, *cli).0,
            err_matches(r, cli_i18n(old(self)@, *cli).1),
            final(self).aliases == old(self).aliases,
            final(self).forms == old(self).forms,
            final(self).env == old(self).env,
    {
        if cli.no_i18n {
            self.i18n.enabled = false;
        } else if let Some(spec) = &cli.i18n {
            self.i18n.enabled = true;
            if spec.unicode_len() > 0 {
                match apply_kv(&mut self.i18n, spec.as_str()) {
                    Ok(_) => {},
                    Err(m) => {
                        return Err(Error::msg(m.as_str()));
                    },
                }
            }
        }
        Ok(())
    }

    /// Resolve the form placeholders from the environment once `[env]` is
    /// applied (see [`crate::env::apply`]): `values` holds the values of
    /// [`FormsConfig::env_keys`], in order.
    pub fn apply_env(&mut self, values: &[Option<String>])
        requires
            values@.len() == old(self).forms.ids.view_entries().len() + 1,
        ensures
            env_resolved(old(self).forms, final(self).forms, values@),
            final(self)@ == old(self)@,
            final(self).aliases == old(self).aliases,
            final(self).env == old(self).env,
    {
        self.forms.resolve_env(values);
    }

    /// Apply CLI flag / SPEC overrides (CLI wins over values loaded from disk).
    ///
    /// On failure the stages before the failing one stay applied and the
    /// error carries that stage's message.
    pub fn apply_cli(&mut self, cli: &ConfigCli) -> (r: Result<(), Error>)
        ensures
            final(self)@ == apply_cli_spec(old(self)@, *cli).0,
            err_matches(r, apply_cli_spec(old(self)@, *cli).1),
            final(self).aliases == old(self).aliases,
            final(self).forms == old(self).forms,
            final(self).env == old(self).env,
    {
        self.apply_top(cli);
        let r = self.apply_emit(cli);
        if r.is_err() {
            return r;
        }
        let r = self.apply_process(cli);
        if r.is_err() {
            return r;
        }
        let r = self.apply_minify(cli);
        if r.is_err() {
            return r;
        }
        let r = self.apply_sitemap(cli);
        if r.is_err() {
            return r;
        }
        let r = self.apply_rss(cli);
        if r.is_err() {
            return r;
        }
        let r = self.apply_pagination(cli);
        if r.is_err() {
            return r;
        }
        let r = self.apply_preview(cli);
        if r.is_err() {
            return r;
        }
        self.apply_i18n(cli)
    }
}

// ---------------------------------------------------------------------------
// Laws of the overrides

/// No flag given.
pub open spec fn no_flags(cli: ConfigCli) -> bool {
    &&& cli.project is None && cli.out_dir is None && cli.site_url is None
    &&& !cli.clean && !cli.no_clean && !cli.copy_assets && !cli.no_copy_assets
    &&& cli.asset_dirs is None && cli.ignore_dirs is None
    &&& cli.emit is None
    &&& cli.process is None && !cli.no_process
    &&& cli.minify is None && !cli.no_minify
    &&& cli.sitemap is None && !cli.no_sitemap
    &&& cli.rss is None && !cli.no_rss
    &&& cli.pagination@.len() == 0
    &&& cli.preview is None && cli.host is None && cli.port is None
    &&& cli.i18n is None && !cli.no_i18n
}

/// Without flags the settings stay as loaded from the file.
pub proof fn law_no_flags_change_nothing(c: ConfigView, cli: ConfigCli)
    requires
        no_flags(cli),
    ensures
        apply_cli_spec(c, cli) == (c, Option::<Seq<char>>::None),
{
    assert(cli_top(c, cli) =~= c);
    assert(cli_preview(c, cli).0.preview == c.preview);
    assert(cli_preview(c, cli).0 =~= c);
}

/// The top-level settings of two views agree.
pub open spec fn same_top(a: ConfigView, b: ConfigView) -> bool {
    &&& a.project == b.project && a.out_dir == b.out_dir && a.site_url == b.site_url
    &&& a.asset_dirs == b.asset_dirs && a.ignore_dirs == b.ignore_dirs
    &&& a.clean == b.clean && a.copy_assets == b.copy_assets
}

/// The table stages leave the top-level settings alone.
proof fn lemma_stages_keep_top(c: ConfigView, cli: ConfigCli)
    ensures
        same_top(c, cli_emit(c, cli).0),
        same_top(c, cli_process(c, cli).0),
        same_top(c, cli_minify(c, cli).0),
        same_top(c, cli_sitemap(c, cli).0),
        same_top(c, cli_rss(c, cli).0),
        same_top(c, cli_pagination(c, cli).0),
        same_top(c, cli_preview(c, cli).0),
        same_top(c, cli_i18n(c, cli).0),
{
}

#[verifier::rlimit(80)]
proof fn lemma_apply_keeps_top(c: ConfigView, cli: ConfigCli)
    ensures
        same_top(cli_top(c, cli), apply_cli_spec(c, cli).0),
{
    let c1 = cli_top(c, cli);
    lemma_stages_keep_top(c1, cli);
    let r2 = cli_emit(c1, cli);
    lemma_stages_keep_top(r2.0, cli);
    let r3 = cli_process(r2.0, cli);
    lemma_stages_keep_top(r3.0, cli);
    let r3m = cli_minify(r3.0, cli);
    lemma_stages_keep_top(r3m.0, cli);
    let r4 = cli_sitemap(r3m.0, cli);
    lemma_stages_keep_top(r4.0, cli);
    let r5 = cli_rss(r4.0, cli);
    lemma_stages_keep_top(r5.0, cli);
    let r6 = cli_pagination(r5.0, cli);
    lemma_stages_keep_top(r6.0, cli);
    let r7 = cli_preview(r6.0, cli);
    lemma_stages_keep_top(r7.0, cli);
}

/// Top-level values given on the command line replace the file's values.
pub proof fn law_cli_wins(c: ConfigView, cli: ConfigCli)
    ensures
        cli.project matches Some(v) ==> apply_cli_spec(c, cli).0.project == v@,
        cli.out_dir matches Some(v) ==> apply_cli_spec(c, cli).0.out_dir == v@,
        cli.site_url matches Some(v) ==> apply_cli_spec(c, cli).0.site_url == v@,
        cli.asset_dirs matches Some(v) ==> apply_cli_spec(c, cli).0.asset_dirs == views(v@),
        cli.ignore_dirs matches Some(v) ==> apply_cli_spec(c, cli).0.ignore_dirs == views(v@),
        cli.clean ==> apply_cli_spec(c, cli).0.clean,
        !cli.clean && cli.no_clean ==> !apply_cli_spec(c, cli).0.clean,
{
    lemma_apply_keeps_top(c, cli);
}

/// `--no-…` turns a feature off even when its SPEC flag is also given.
#[verifier::rlimit(80)]
pub proof fn law_disable_flags_win(c: ConfigView, cli: ConfigCli)
    requires
        apply_cli_spec(c, cli).1 is None,
    ensures
        cli.no_process ==> !apply_cli_spec(c, cli).0.process.enabled,
        cli.no_minify ==> !apply_cli_spec(c, cli).0.minify.enabled,
        cli.no_sitemap ==> !apply_cli_spec(c, cli).0.sitemap.enabled,
        cli.no_rss ==> !apply_cli_spec(c, cli).0.rss.enabled,
        cli.no_i18n ==> !apply_cli_spec(c, cli).0.i18n.enabled,
{
}

/// A bare `--process` / `--minify` / `--sitemap` / `--rss` / `--i18n` (empty SPEC) turns
/// the feature on.
#[verifier::rlimit(80)]
pub proof fn law_bare_flags_enable(c: ConfigView, cli: ConfigCli)
    requires
        apply_cli_spec(c, cli).1 is None,
    ensures
        (!cli.no_process && (cli.process matches Some(s) && s@.len() == 0)) ==> apply_cli_spec(c, cli).0.process.enabled,
        (!cli.no_minify && (cli.minify matches Some(s) && s@.len() == 0)) ==> apply_cli_spec(c, cli).0.minify.enabled,
        (!cli.no_sitemap && (cli.sitemap matches Some(s) && s@.len() == 0)) ==> apply_cli_spec(c, cli).0.sitemap.enabled,
        (!cli.no_rss && (cli.rss matches Some(s) && s@.len() == 0)) ==> apply_cli_spec(c, cli).0.rss.enabled,
        (!cli.no_i18n && (cli.i18n matches Some(s) && s@.len() == 0)) ==> apply_cli_spec(c, cli).0.i18n.enabled,
{
}

} // verus!
