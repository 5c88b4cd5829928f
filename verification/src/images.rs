//! Responsive raster images: width/format variants, the manifest that maps an
//! image `src` to them, and the choices made when planning variants.
//!
//! Decoding, resizing and encoding pixels is the application's job (it has the
//! image codecs); this module decides which widths and formats to produce,
//! how the results are looked up and listed, and how an `<img>` becomes a
//! `<picture>` with one `<source>` per format.

use vstd::prelude::*;

use crate::error::{Error, ErrorView};
use crate::loc::diag_at_file;

use crate::parse::attrs::insert_attr_spec;
use crate::parse::attrs::remove_attr_spec;
use crate::parse::ast::{nodes_view, tag_is, Document, Element, ElementView, Node, NodeView};
use crate::parse::attrs::{attr_entries, attr_index, attr_lookup, attrs_clone, attrs_insert, attrs_new, attrs_shift_remove};

use crate::text::{
    chars_of, decimal, has_prefix, join, join_strings, lower_seq, lower_string, push_char,
    str_eq, str_starts_with, string_of, string_range, trim, trim_range, usize_to_string, views,
};

verus! {

// ---------------------------------------------------------------------------
// Source and URL helpers

/// Raster formats that get responsive variants (lowercase extensions).
pub open spec fn is_responsive_source_spec(ext: Seq<char>) -> bool {
    ext == "png"@ || ext == "jpg"@ || ext == "jpeg"@ || ext == "webp"@
}

/// The sources the pipeline resizes are exactly the PNG, JPEG and WebP
/// rasters, by their lower-case extension.
pub proof fn law_responsive_sources(ext: Seq<char>)
    ensures
        is_responsive_source_spec(ext) <==> (ext == "png"@ || ext == "jpg"@ || ext == "jpeg"@ || ext == "webp"@),
{
}

pub fn is_responsive_source(ext: &str) -> (r: bool)
    ensures
        r == is_responsive_source_spec(ext@),
{
    str_eq(ext, "png") || str_eq(ext, "jpg") || str_eq(ext, "jpeg") || str_eq(ext, "webp")
}

/// A `src` served by this site: non-blank and not remote, protocol-relative,
/// `data:`, `mailto:` or `tel:` (prefixes compared in ASCII lowercase).
pub open spec fn is_local_src_spec(src: Seq<char>) -> bool {
    let s = trim(src);
    let l = lower_seq(s);
    s.len() > 0 && !(has_prefix(l, "http://"@) || has_prefix(l, "https://"@) || has_prefix(l, "//"@)
        || has_prefix(l, "data:"@) || has_prefix(l, "mailto:"@) || has_prefix(l, "tel:"@))
}

pub fn is_local_src(src: &str) -> (r: bool)
    ensures
        r == is_local_src_spec(src@),
{
    let t = crate::text::trim_str(src);
    if t.unicode_len() == 0 {
        return false;
    }
    let l = lower_string(t.as_str());
    let ls = l.as_str();
    !(str_starts_with(ls, "http://") || str_starts_with(ls, "https://") || str_starts_with(ls, "//")
        || str_starts_with(ls, "data:") || str_starts_with(ls, "mailto:") || str_starts_with(ls, "tel:"))
}

/// MIME type of an image extension (any ASCII case).
pub open spec fn mime_spec(ext: Seq<char>) -> Seq<char> {
    let e = lower_seq(ext);
    if e == "png"@ {
        "image/png"@
    } else if e == "jpg"@ || e == "jpeg"@ {
        "image/jpeg"@
    } else if e == "webp"@ {
        "image/webp"@
    } else if e == "gif"@ {
        "image/gif"@
    } else if e == "avif"@ {
        "image/avif"@
    } else {
        "application/octet-stream"@
    }
}

pub fn mime_for_ext(ext: &str) -> (r: String)
    ensures
        r@ == mime_spec(ext@),
{
    let l = lower_string(ext);
    let e = l.as_str();
    if str_eq(e, "png") {
        String::from_str("image/png")
    } else if str_eq(e, "jpg") || str_eq(e, "jpeg") {
        String::from_str("image/jpeg")
    } else if str_eq(e, "webp") {
        String::from_str("image/webp")
    } else if str_eq(e, "gif") {
        String::from_str("image/gif")
    } else if str_eq(e, "avif") {
        String::from_str("image/avif")
    } else {
        String::from_str("application/octet-stream")
    }
}

/// Index of the first `?` or `#`.
pub open spec fn query_start(s: Seq<char>) -> Option<int>
    decreases s.len(),
{
    if s.len() == 0 {
        None
    } else if s[0] == '?' || s[0] == '#' {
        Some(0)
    } else {
        match query_start(s.drop_first()) {
            Some(i) => Some(i + 1),
            None => None,
        }
    }
}

proof fn lemma_query_start(s: Seq<char>)
    ensures
        query_start(s) matches Some(i) ==> 0 <= i < s.len() && (s[i] == '?' || s[i] == '#') && forall|j: int|
            0 <= j < i ==> s[j] != '?' && s[j] != '#',
        query_start(s) is None ==> forall|j: int| 0 <= j < s.len() ==> s[j] != '?' && s[j] != '#',
    decreases s.len(),
{
    if s.len() > 0 && s[0] != '?' && s[0] != '#' {
        lemma_query_start(s.drop_first());
        assert forall|j: int| 1 <= j < s.len() implies s[j] == s.drop_first()[j - 1] by {}
    }
}

/// Manifest key of an image `src`: the part before `?`/`#`, trimmed, with a
/// leading `/`.
pub open spec fn normalize_src_spec(src: Seq<char>) -> Seq<char> {
    let cut = match query_start(src) {
        Some(i) => src.take(i),
        None => src,
    };
    let b = trim(cut);
    if b.len() > 0 && b[0] == '/' {
        b
    } else {
        "/"@ + b
    }
}

pub fn normalize_src(src: &str) -> (r: String)
    ensures
        r@ == normalize_src_spec(src@),
{
    let v = chars_of(src);
    proof {
        lemma_query_start(v@);
    }
    let mut i: usize = 0;
    while i < v.len() && !(v[i] == '?' || v[i] == '#')
        invariant
            i <= v@.len(),
            forall|j: int| 0 <= j < i ==> v@[j] != '?' && v@[j] != '#',
        decreases v@.len() - i,
    {
        i += 1;
    }
    let cut = i;
    proof {
        match query_start(v@) {
            Some(k) => {
                if k < cut {
                    assert(v@[k] == '?' || v@[k] == '#');
                }
                if cut < k {
                    assert(v@[cut as int] == '?' || v@[cut as int] == '#');
                }
                assert(v@.take(k) =~= v@.subrange(0, cut as int));
            },
            None => {
                if cut < v@.len() {
                    assert(v@[cut as int] == '?' || v@[cut as int] == '#');
                }
                assert(v@ =~= v@.subrange(0, cut as int));
            },
        }
    }
    let (a, b) = trim_range(v.as_slice(), 0, cut);
    if a < b && v[a] == '/' {
        string_range(v.as_slice(), a, b)
    } else {
        let mut out = String::from_str("/");
        out.append(string_range(v.as_slice(), a, b).as_str());
        out
    }
}

// ---------------------------------------------------------------------------
// Widths

/// `s` is in strictly increasing order.
pub open spec fn strictly_increasing(s: Seq<u32>) -> bool {
    forall|i: int, j: int| 0 <= i < j < s.len() ==> s[i] < s[j]
}

/// Widths to produce for an image `original` px wide: the configured widths
/// in `1..=original`, plus the original, ascending, each once.
pub open spec fn target_width_ok(original: u32, configured: Seq<u32>, w: u32) -> bool {
    w == original || (configured.contains(w) && 0 < w && w <= original)
}

/// Insert `w` into the ascending list `out`, keeping it strictly increasing.
#[verifier::spinoff_prover]
fn insert_width(out: &mut Vec<u32>, w: u32)
    requires
        strictly_increasing(old(out)@),
    ensures
        strictly_increasing(final(out)@),
        forall|x: u32| final(out)@.contains(x) <==> (old(out)@.contains(x) || x == w),
{
    let mut i: usize = 0;
    while i < out.len() && out[i] < w
        invariant
            i <= out@.len(),
            out@ == old(out)@,
            strictly_increasing(out@),
            forall|j: int| 0 <= j < i ==> out@[j] < w,
        decreases out@.len() - i,
    {
        i += 1;
    }
    if i < out.len() && out[i] == w {
        proof {
            assert(out@[i as int] == w);
        }
        return;
    }
    let ghost before = out@;
    assert(before == old(out)@);
    out.insert(i, w);
    proof {
        assert(out@ =~= before.take(i as int).push(w) + before.skip(i as int));
        assert forall|a: int, b: int| 0 <= a < b < out@.len() implies out@[a] < out@[b] by {
            if b < i {
            } else if a < i && b == i {
            } else if a < i {
                assert(out@[b] == before[b - 1]);
            } else if a == i {
                assert(out@[b] == before[b - 1]);
                assert(before[b - 1] >= before[i as int]);
            } else {
                assert(out@[a] == before[a - 1]);
                assert(out@[b] == before[b - 1]);
            }
        }
        assert forall|x: u32| out@.contains(x) <==> (old(out)@.contains(x) || x == w) by {
            if out@.contains(x) {
                let k = choose|k: int| 0 <= k < out@.len() && out@[k] == x;
                if k < i {
                    assert(before[k] == x);
                } else if k > i {
                    assert(before[k - 1] == x);
                }
            }
            if before.contains(x) {
                let k = choose|k: int| 0 <= k < before.len() && before[k] == x;
                if k < i {
                    assert(out@[k] == x);
                } else {
                    assert(out@[k + 1] == x);
                }
            }
            if x == w {
                assert(out@[i as int] == w);
            }
        }
    }
}

/// Widths for an image `original` px wide (see [`target_width_ok`]).
pub fn target_widths(original: u32, configured: &[u32]) -> (r: Vec<u32>)
    ensures
        strictly_increasing(r@),
        forall|w: u32| r@.contains(w) <==> target_width_ok(original, configured@, w),
{
    let mut out: Vec<u32> = Vec::new();
    let mut i: usize = 0;
    while i < configured.len()
        invariant
            i <= configured@.len(),
            strictly_increasing(out@),
            forall|w: u32| out@.contains(w) <==> (configured@.take(i as int).contains(w) && 0 < w && w <= original),
        decreases configured@.len() - i,
    {
        let w = configured[i];
        let ghost before = out@;
        if w > 0 && w <= original {
            insert_width(&mut out, w);
        }
        proof {
            assert(configured@.take(i + 1) =~= configured@.take(i as int).push(w));
            assert forall|x: u32| out@.contains(x) <==> (configured@.take(i + 1).contains(x) && 0 < x && x <= original) by {
                if configured@.take(i + 1).contains(x) {
                    let k = choose|k: int| 0 <= k < i + 1 && #[trigger] configured@.take(i + 1)[k] == x;
                    if k < i {
                        assert(configured@.take(i as int)[k] == x);
                    }
                }
                if configured@.take(i as int).contains(x) {
                    let k = choose|k: int| 0 <= k < i && #[trigger] configured@.take(i as int)[k] == x;
                    assert(configured@.take(i + 1)[k] == x);
                }
                if x == w {
                    assert(configured@.take(i + 1)[i as int] == x);
                }
            }
        }
        i += 1;
    }
    insert_width(&mut out, original);
    proof {
        assert(configured@.take(configured@.len() as int) =~= configured@);
    }
    out
}

/// Height of a `new_w` px wide copy, keeping the aspect ratio (rounded down,
/// capped at `u32::MAX`); a zero-width original keeps its height.
pub open spec fn scaled_height_spec(orig_w: u32, orig_h: u32, new_w: u32) -> u32 {
    if orig_w == 0 {
        orig_h
    } else {
        let h = (orig_h as nat * new_w as nat) / (orig_w as nat);
        if h > u32::MAX { u32::MAX } else { h as u32 }
    }
}

pub fn scaled_height(orig_w: u32, orig_h: u32, new_w: u32) -> (r: u32)
    ensures
        r == scaled_height_spec(orig_w, orig_h, new_w),
{
    if orig_w == 0 {
        return orig_h;
    }
    assert((orig_h as u64) * (new_w as u64) <= u64::MAX) by (nonlinear_arith)
        requires
            orig_h <= u32::MAX,
            new_w <= u32::MAX,
    ;
    let h: u64 = ((orig_h as u64) * (new_w as u64)) / (orig_w as u64);
    if h > u32::MAX as u64 {
        u32::MAX
    } else {
        h as u32
    }
}

// ---------------------------------------------------------------------------
// Options, variants and the manifest

/// Responsive image settings.
#[derive(Debug, Clone, PartialEq, Eq)]
pub struct ImageProcessOptions {
    /// Target widths (px). The original width is always included.
    pub widths: Vec<u32>,
    /// Extra output formats besides the source format (e.g. `"webp"`).
    pub formats: Vec<String>,
    /// Lossy encode quality (jpeg / webp).
    pub quality: u8,
    /// Default `sizes` when an `<img>` has none.
    pub default_sizes: String,
    /// Rewrite local `<img>` tags in emitted HTML into `<picture>`.
    pub responsive: bool,
}

impl Default for ImageProcessOptions {
    /// 480/768/1024/1366/1920 px, WebP, quality 85, `100vw`, responsive.
    fn default() -> (r: Self)
        ensures
            r.widths@ == seq![480u32, 768, 1024, 1366, 1920],
            views(r.formats@) == seq!["webp"@],
            r.quality == 85,
            r.default_sizes@ == "100vw"@,
            r.responsive,
    {
        let widths = vec![480u32, 768, 1024, 1366, 1920];
        let mut formats: Vec<String> = Vec::new();
        formats.push(String::from_str("webp"));
        proof {
            assert(widths@ =~= seq![480u32, 768, 1024, 1366, 1920]);
            assert(views(formats@) =~= seq!["webp"@]);
        }
        ImageProcessOptions { widths, formats, quality: 85, default_sizes: String::from_str("100vw"), responsive: true }
    }
}

/// Format names compare in ASCII lowercase.
pub open spec fn same_format(a: Seq<char>, b: Seq<char>) -> bool {
    lower_seq(a) == lower_seq(b)
}

fn eq_ignore_case(a: &str, b: &str) -> (r: bool)
    ensures
        r == same_format(a@, b@),
{
    let la = lower_string(a);
    let lb = lower_string(b);
    str_eq(la.as_str(), lb.as_str())
}

impl ImageProcessOptions {
    /// Whether `ext` is among the configured output formats (any ASCII case).
    pub fn wants_format(&self, ext: &str) -> (r: bool)
        ensures
            r == exists|j: int| 0 <= j < self.formats@.len() && same_format(#[trigger] self.formats@[j]@, ext@),
    {
        let mut i: usize = 0;
        while i < self.formats.len()
            invariant
                i <= self.formats@.len(),
                forall|j: int| 0 <= j < i ==> !same_format(#[trigger] self.formats@[j]@, ext@),
            decreases self.formats@.len() - i,
        {
            if eq_ignore_case(self.formats[i].as_str(), ext) {
                return true;
            }
            i += 1;
        }
        false
    }
}

/// One generated file for a width + format.
#[derive(Debug, Clone, PartialEq, Eq)]
pub struct ImageVariant {
    pub width: u32,
    pub height: u32,
    pub format: String,
    pub mime: String,
    /// Site-root URL path, e.g. `/assets/hero-768w.webp`.
    pub url: String,
}

pub struct VariantView {
    pub width: u32,
    pub height: u32,
    pub format: Seq<char>,
    pub mime: Seq<char>,
    pub url: Seq<char>,
}

impl View for ImageVariant {
    type V = VariantView;

    open spec fn view(&self) -> VariantView {
        VariantView { width: self.width, height: self.height, format: self.format@, mime: self.mime@, url: self.url@ }
    }
}

impl ImageVariant {
    /// A copy with the same contents.
    pub fn copy(&self) -> (r: Self)
        ensures
            r@ == self@,
    {
        ImageVariant {
            width: self.width,
            height: self.height,
            format: String::from_str(self.format.as_str()),
            mime: String::from_str(self.mime.as_str()),
            url: String::from_str(self.url.as_str()),
        }
    }
}

pub open spec fn variant_views(v: Seq<ImageVariant>) -> Seq<VariantView> {
    v.map_values(|x: ImageVariant| x@)
}

pub open spec fn ref_views(v: Seq<&ImageVariant>) -> Seq<VariantView> {
    v.map_values(|x: &ImageVariant| x@)
}

/// Metadata for a processed source image.
#[derive(Debug, Clone, PartialEq, Eq)]
pub struct ResponsiveImage {
    pub width: u32,
    pub height: u32,
    pub source_format: String,
    pub source_mime: String,
    /// Original optimized asset URL, e.g. `/assets/hero.jpg`.
    pub source_url: String,
    pub variants: Vec<ImageVariant>,
}

pub struct ResponsiveView {
    pub width: u32,
    pub height: u32,
    pub source_format: Seq<char>,
    pub source_mime: Seq<char>,
    pub source_url: Seq<char>,
    pub variants: Seq<VariantView>,
}

impl View for ResponsiveImage {
    type V = ResponsiveView;

    open spec fn view(&self) -> ResponsiveView {
        ResponsiveView {
            width: self.width,
            height: self.height,
            source_format: self.source_format@,
            source_mime: self.source_mime@,
            source_url: self.source_url@,
            variants: variant_views(self.variants@),
        }
    }
}

/// The variants of one format, in source order.
pub open spec fn of_format(vs: Seq<VariantView>, f: Seq<char>) -> Seq<VariantView>
    decreases vs.len(),
{
    if vs.len() == 0 {
        Seq::empty()
    } else {
        let rest = of_format(vs.drop_last(), f);
        if same_format(vs.last().format, f) {
            rest.push(vs.last())
        } else {
            rest
        }
    }
}

/// `x` placed after every leading entry no wider than it.
pub open spec fn insert_by_width(s: Seq<VariantView>, x: VariantView) -> Seq<VariantView>
    decreases s.len(),
{
    if s.len() == 0 {
        seq![x]
    } else if s[0].width <= x.width {
        seq![s[0]] + insert_by_width(s.drop_first(), x)
    } else {
        seq![x] + s
    }
}

/// Stable sort by width (equal widths keep their order).
pub open spec fn sort_by_width(s: Seq<VariantView>) -> Seq<VariantView>
    decreases s.len(),
{
    if s.len() == 0 {
        Seq::empty()
    } else {
        insert_by_width(sort_by_width(s.drop_last()), s.last())
    }
}

/// The variants of format `f`, narrowest first.
pub open spec fn variants_spec(vs: Seq<VariantView>, f: Seq<char>) -> Seq<VariantView> {
    sort_by_width(of_format(vs, f))
}

proof fn lemma_insert_at(s: Seq<VariantView>, x: VariantView, pos: int)
    requires
        0 <= pos <= s.len(),
        forall|j: int| 0 <= j < pos ==> s[j].width <= x.width,
        pos < s.len() ==> s[pos].width > x.width,
    ensures
        insert_by_width(s, x) == s.take(pos).push(x) + s.skip(pos),
    decreases s.len(),
{
    if s.len() == 0 {
        assert(s.take(pos).push(x) + s.skip(pos) =~= seq![x]);
    } else if pos == 0 {
        assert(s.take(0).push(x) + s.skip(0) =~= seq![x] + s);
    } else {
        lemma_insert_at(s.drop_first(), x, pos - 1);
        assert(seq![s[0]] + (s.drop_first().take(pos - 1).push(x) + s.drop_first().skip(pos - 1))
            =~= s.take(pos).push(x) + s.skip(pos));
    }
}

/// `srcset` text: `url widthw` entries joined by `, `.
pub open spec fn srcset_entry(v: VariantView) -> Seq<char> {
    v.url + " "@ + decimal(v.width as nat) + "w"@
}

pub open spec fn srcset_spec(vs: Seq<VariantView>, f: Seq<char>) -> Seq<char> {
    join(variants_spec(vs, f).map_values(|v: VariantView| srcset_entry(v)), ", "@)
}

impl ResponsiveImage {
    /// A copy with the same contents.
    pub fn copy(&self) -> (r: Self)
        ensures
            r@ == self@,
    {
        let mut vs: Vec<ImageVariant> = Vec::new();
        let mut i: usize = 0;
        while i < self.variants.len()
            invariant
                i <= self.variants@.len(),
                variant_views(vs@) == variant_views(self.variants@).take(i as int),
            decreases self.variants@.len() - i,
        {
            let ghost before = vs@;
            vs.push(self.variants[i].copy());
            proof {
                assert(variant_views(vs@) =~= variant_views(before).push(self.variants@[i as int]@));
                assert(variant_views(self.variants@).take(i + 1) =~= variant_views(self.variants@).take(i as int).push(self.variants@[i as int]@));
            }
            i += 1;
        }
        proof {
            assert(variant_views(self.variants@).take(self.variants@.len() as int) =~= variant_views(self.variants@));
        }
        ResponsiveImage {
            width: self.width,
            height: self.height,
            source_format: String::from_str(self.source_format.as_str()),
            source_mime: String::from_str(self.source_mime.as_str()),
            source_url: String::from_str(self.source_url.as_str()),
            variants: vs,
        }
    }

    /// Variants of `format` (any ASCII case), narrowest first; equal widths
    /// keep their order.
    pub fn variants_for_format(&self, format: &str) -> (r: Vec<&ImageVariant>)
        ensures
            ref_views(r@) == variants_spec(variant_views(self.variants@), format@),
    {
        let ghost vs = variant_views(self.variants@);
        let mut out: Vec<&ImageVariant> = Vec::new();
        let mut i: usize = 0;
        proof {
            assert(vs.take(0) =~= Seq::<VariantView>::empty());
            assert(ref_views(out@) =~= Seq::<VariantView>::empty());
        }
        while i < self.variants.len()
            invariant
                i <= self.variants@.len(),
                vs == variant_views(self.variants@),
                ref_views(out@) == sort_by_width(of_format(vs.take(i as int), format@)),
            decreases self.variants@.len() - i,
        {
            let v = &self.variants[i];
            proof {
                assert(vs.take(i + 1).drop_last() =~= vs.take(i as int));
                assert(vs.take(i + 1).last() == v@);
            }
            if eq_ignore_case(v.format.as_str(), format) {
                let ghost s = ref_views(out@);
                let mut pos: usize = 0;
                while pos < out.len() && out[pos].width <= v.width
                    invariant
                        pos <= out@.len(),
                        s == ref_views(out@),
                        forall|j: int| 0 <= j < pos ==> s[j].width <= v.width,
                    decreases out@.len() - pos,
                {
                    pos += 1;
                }
                proof {
                    lemma_insert_at(s, v@, pos as int);
                    assert(of_format(vs.take(i + 1), format@) =~= of_format(vs.take(i as int), format@).push(v@));
                    assert(of_format(vs.take(i + 1), format@).drop_last() =~= of_format(vs.take(i as int), format@));
                }
                out.insert(pos, v);
                proof {
                    assert(ref_views(out@) =~= s.take(pos as int).push(v@) + s.skip(pos as int));
                }
            }
            i += 1;
        }
        proof {
            assert(vs.take(self.variants@.len() as int) =~= vs);
        }
        out
    }

    /// `srcset` for `format`: `url widthw` entries, narrowest first.
    pub fn srcset_for_format(&self, format: &str) -> (r: String)
        ensures
            r@ == srcset_spec(variant_views(self.variants@), format@),
    {
        let list = self.variants_for_format(format);
        let mut parts: Vec<String> = Vec::new();
        let mut i: usize = 0;
        let ghost want = variants_spec(variant_views(self.variants@), format@).map_values(|v: VariantView| srcset_entry(v));
        while i < list.len()
            invariant
                i <= list@.len(),
                ref_views(list@) == variants_spec(variant_views(self.variants@), format@),
                want == ref_views(list@).map_values(|v: VariantView| srcset_entry(v)),
                views(parts@) == want.take(i as int),
            decreases list@.len() - i,
        {
            let v = list[i];
            let mut e = String::from_str(v.url.as_str());
            e.append(" ");
            e.append(usize_to_string(v.width as usize).as_str());
            e.append("w");
            let ghost before = parts@;
            parts.push(e);
            proof {
                assert(ref_views(list@)[i as int] == v@);
                assert(views(parts@) =~= views(before).push(srcset_entry(v@)));
                assert(want.take(i + 1) =~= want.take(i as int).push(want[i as int]));
            }
            i += 1;
        }
        proof {
            assert(want.take(list@.len() as int) =~= want);
        }
        join_strings(&parts, ", ")
    }

    /// The widest variant of `format`, if any.
    pub fn largest_for_format(&self, format: &str) -> (r: Option<&ImageVariant>)
        ensures
            match r {
                Some(v) => variants_spec(variant_views(self.variants@), format@).len() > 0 && v@
                    == variants_spec(variant_views(self.variants@), format@).last(),
                None => variants_spec(variant_views(self.variants@), format@).len() == 0,
            },
    {
        let list = self.variants_for_format(format);
        if list.len() == 0 {
            None
        } else {
            proof {
                assert(ref_views(list@)[list@.len() - 1] == list@[list@.len() - 1]@);
            }
            Some(list[list.len() - 1])
        }
    }

    /// MIME type of an image format.
    pub fn mime_for(&self, format: &str) -> (r: String)
        ensures
            r@ == mime_spec(format@),
    {
        mime_for_ext(format)
    }
}

/// Lookup table from normalized image `src` → responsive metadata.
#[derive(Debug)]
pub struct ImageManifest {
    entries: Vec<(String, ResponsiveImage)>,
}

pub open spec fn key_index(t: Seq<(Seq<char>, ResponsiveView)>, key: Seq<char>) -> Option<int>
    decreases t.len(),
{
    if t.len() == 0 {
        None
    } else if t[0].0 == key {
        Some(0)
    } else {
        match key_index(t.drop_first(), key) {
            Some(i) => Some(i + 1),
            None => None,
        }
    }
}

proof fn lemma_key_index(t: Seq<(Seq<char>, ResponsiveView)>, key: Seq<char>)
    ensures
        key_index(t, key) matches Some(i) ==> 0 <= i < t.len() && t[i].0 == key && forall|j: int|
            0 <= j < i ==> t[j].0 != key,
        key_index(t, key) is None ==> forall|j: int| 0 <= j < t.len() ==> t[j].0 != key,
    decreases t.len(),
{
    if t.len() > 0 && t[0].0 != key {
        lemma_key_index(t.drop_first(), key);
        assert forall|j: int| 1 <= j < t.len() implies t[j] == t.drop_first()[j - 1] by {}
    }
}

/// `HashMap::insert` on the manifest's entries.
pub open spec fn manifest_insert(t: Seq<(Seq<char>, ResponsiveView)>, key: Seq<char>, img: ResponsiveView) -> Seq<(Seq<char>, ResponsiveView)> {
    match key_index(t, key) {
        Some(i) => t.update(i, (key, img)),
        None => t.push((key, img)),
    }
}

/// Every entry of `other` inserted in order.
pub open spec fn manifest_merge(t: Seq<(Seq<char>, ResponsiveView)>, other: Seq<(Seq<char>, ResponsiveView)>) -> Seq<(Seq<char>, ResponsiveView)>
    decreases other.len(),
{
    if other.len() == 0 {
        t
    } else {
        manifest_insert(manifest_merge(t, other.drop_last()), other.last().0, other.last().1)
    }
}

pub open spec fn manifest_get(t: Seq<(Seq<char>, ResponsiveView)>, key: Seq<char>) -> Option<ResponsiveView> {
    match key_index(t, key) {
        Some(i) => Some(t[i].1),
        None => None,
    }
}

/// The entry for `src`: its normalized key, else that key without leading `/`.
pub open spec fn manifest_lookup(t: Seq<(Seq<char>, ResponsiveView)>, src: Seq<char>) -> Option<ResponsiveView> {
    let key = normalize_src_spec(src);
    match manifest_get(t, key) {
        Some(v) => Some(v),
        None => manifest_get(t, crate::text::trim_start_char(key, '/')),
    }
}

impl Default for ImageManifest {
    /// No images.
    fn default() -> (r: Self)
        ensures
            r@ == Seq::<(Seq<char>, ResponsiveView)>::empty(),
    {
        ImageManifest::new()
    }
}

impl View for ImageManifest {
    type V = Seq<(Seq<char>, ResponsiveView)>;

    closed spec fn view(&self) -> Seq<(Seq<char>, ResponsiveView)> {
        self.entries@.map_values(|e: (String, ResponsiveImage)| (e.0@, e.1@))
    }
}

impl ImageManifest {
    /// Each image key occurs once.
    #[verifier::type_invariant]
    spec fn keys_unique(&self) -> bool {
        forall|i: int, j: int|
            0 <= i < j < self.entries@.len() ==> (#[trigger] self.entries@[i]).0@ != (#[trigger] self.entries@[j]).0@
    }

    pub fn new() -> (r: Self)
        ensures
            r@ == Seq::<(Seq<char>, ResponsiveView)>::empty(),
    {
        let r = ImageManifest { entries: Vec::new() };
        proof {
            assert(r@ =~= Seq::<(Seq<char>, ResponsiveView)>::empty());
        }
        r
    }

    pub fn is_empty(&self) -> (r: bool)
        ensures
            r == (self@.len() == 0),
    {
        self.entries.len() == 0
    }

    pub fn len(&self) -> (r: usize)
        ensures
            r == self@.len(),
    {
        self.entries.len()
    }

    fn index_of(&self, key: &str) -> (r: Option<usize>)
        ensures
            match r {
                Some(i) => i < self@.len() && key_index(self@, key@) == Some(i as int),
                None => key_index(self@, key@) is None,
            },
    {
        let ghost t = self@;
        proof {
            lemma_key_index(t, key@);
        }
        let mut i: usize = 0;
        while i < self.entries.len()
            invariant
                i <= self.entries@.len(),
                t == self@,
                t.len() == self.entries@.len(),
                forall|j: int| 0 <= j < i ==> t[j].0 != key@,
                key_index(t, key@) matches Some(k) ==> 0 <= k < t.len() && t[k].0 == key@ && forall|j: int|
                    0 <= j < k ==> t[j].0 != key@,
                key_index(t, key@) is None ==> forall|j: int| 0 <= j < t.len() ==> t[j].0 != key@,
            decreases self.entries@.len() - i,
        {
            proof {
                assert(t[i as int].0 == self.entries@[i as int].0@);
            }
            if str_eq(self.entries[i].0.as_str(), key) {
                return Some(i);
            }
            i += 1;
        }
        None
    }

    /// Add or replace the entry for `key`.
    pub fn insert(&mut self, key: String, image: ResponsiveImage)
        ensures
            final(self)@ == manifest_insert(old(self)@, key@, image@),
    {
        let ghost kv = key@;
        let ghost iv = image@;
        let ghost old_v = self@;
        proof {
            use_type_invariant(&*self);
            lemma_key_index(old_v, kv);
        }
        let pos = self.index_of(key.as_str());
        let ghost tgt = manifest_insert(old_v, kv, iv);
        proof {
            assert forall|i: int, j: int| 0 <= i < j < old_v.len() implies old_v[i].0 != old_v[j].0 by {
                assert(old_v[i].0 == self.entries@[i].0@);
                assert(old_v[j].0 == self.entries@[j].0@);
            }
            assert forall|i: int, j: int| 0 <= i < j < tgt.len() implies tgt[i].0 != tgt[j].0 by {
                match key_index(old_v, kv) {
                    Some(k) => {
                        if i == k {
                            assert(old_v[j].0 != kv || j == k);
                        }
                    },
                    None => {},
                }
            }
        }
        let mut out: Vec<(String, ResponsiveImage)> = Vec::new();
        let mut j: usize = 0;
        let n = self.entries.len();
        while j < n
            invariant
                j <= n,
                n == self.entries@.len(),
                old_v == self@,
                old_v.len() == n,
                tgt == manifest_insert(old_v, kv, iv),
                kv == key@,
                iv == image@,
                match pos {
                    Some(p) => p < n && key_index(old_v, kv) == Some(p as int),
                    None => key_index(old_v, kv) is None,
                },
                out@.len() == j,
                forall|t: int| 0 <= t < j ==> (#[trigger] out@[t]).0@ == tgt[t].0 && out@[t].1@ == tgt[t].1,
            decreases n - j,
        {
            proof {
                assert(old_v[j as int] == (self.entries@[j as int].0@, self.entries@[j as int].1@));
            }
            if pos == Some(j) {
                out.push((String::from_str(key.as_str()), image.copy()));
            } else {
                out.push((String::from_str(self.entries[j].0.as_str()), self.entries[j].1.copy()));
            }
            j += 1;
        }
        if pos.is_none() {
            out.push((key, image));
        }
        proof {
            assert(out@.len() == tgt.len());
            assert forall|a: int, b: int| 0 <= a < b < out@.len() implies (#[trigger] out@[a]).0@ != (#[trigger] out@[b]).0@ by {
                assert(out@[a].0@ == tgt[a].0);
                assert(out@[b].0@ == tgt[b].0);
            }
        }
        *self = ImageManifest { entries: out };
        proof {
            assert(self@ =~= tgt);
        }
    }

    /// Insert every entry of `other` (its entries win).
    pub fn merge(&mut self, other: &ImageManifest)
        ensures
            final(self)@ == manifest_merge(old(self)@, other@),
    {
        let mut i: usize = 0;
        proof {
            assert(other@.take(0) =~= Seq::<(Seq<char>, ResponsiveView)>::empty());
        }
        while i < other.entries.len()
            invariant
                i <= other.entries@.len(),
                other@.len() == other.entries@.len(),
                self@ == manifest_merge(old(self)@, other@.take(i as int)),
            decreases other.entries@.len() - i,
        {
            let (k, v) = &other.entries[i];
            proof {
                assert(other@.take(i + 1).drop_last() =~= other@.take(i as int));
                assert(other@.take(i + 1).last() == other@[i as int]);
                assert(other@[i as int] == (k@, v@));
            }
            self.insert(String::from_str(k.as_str()), v.copy());
            i += 1;
        }
        proof {
            assert(other@.take(other@.len() as int) =~= other@);
        }
    }

    fn get_key(&self, key: &str) -> (r: Option<&ResponsiveImage>)
        ensures
            match r {
                Some(v) => manifest_get(self@, key@) == Some(v@),
                None => manifest_get(self@, key@) is None,
            },
    {
        match self.index_of(key) {
            Some(i) => {
                proof {
                    assert(self@[i as int].1 == self.entries@[i as int].1@);
                }
                Some(&self.entries[i].1)
            },
            None => None,
        }
    }

    /// The entry for an image `src` (see [`manifest_lookup`]).
    pub fn get(&self, src: &str) -> (r: Option<&ResponsiveImage>)
        ensures
            match r {
                Some(v) => manifest_lookup(self@, src@) == Some(v@),
                None => manifest_lookup(self@, src@) is None,
            },
    {
        let key = normalize_src(src);
        match self.get_key(key.as_str()) {
            Some(v) => Some(v),
            None => {
                let kv = chars_of(key.as_str());
                let t = crate::text::skip_char_run(kv.as_slice(), 0, kv.len(), '/');
                proof {
                    assert(kv@.subrange(0, kv@.len() as int) =~= kv@);
                }
                let rest = string_range(kv.as_slice(), t, kv.len());
                self.get_key(rest.as_str())
            },
        }
    }
}


/// Reading an image entry right after writing it gives the written entry.
pub proof fn law_manifest_get_after_insert(t: Seq<(Seq<char>, ResponsiveView)>, key: Seq<char>, img: ResponsiveView)
    ensures
        manifest_get(manifest_insert(t, key, img), key) == Some(img),
{
    lemma_key_index(t, key);
    let t2 = manifest_insert(t, key, img);
    lemma_key_index(t2, key);
    match key_index(t, key) {
        Some(i) => {
            match key_index(t2, key) {
                Some(k) => {
                    if k < i {
                        assert(t2[k] == t[k]);
                    } else if k > i {
                        assert(t2[i].0 == key);
                    }
                },
                None => {
                    assert(t2[i].0 == key);
                },
            }
        },
        None => {
            match key_index(t2, key) {
                Some(k) => {
                    if k < t.len() {
                        assert(t2[k] == t[k]);
                    }
                },
                None => {
                    assert(t2[t.len() as int].0 == key);
                },
            }
        },
    }
}

/// Every width produced for an image fits it: none is wider than the original.
pub proof fn law_target_widths_fit(original: u32, configured: Seq<u32>, w: u32)
    requires
        target_width_ok(original, configured, w),
    ensures
        w <= original,
{
}


/// Site URL of an output file: `/` plus its path under the output directory
/// (or its whole path when outside it), backslashes read as `/`.
pub open spec fn url_path_spec(out_dir: Seq<char>, path: Seq<char>) -> Seq<char> {
    match crate::paths::strip_prefix_spec(path, out_dir) {
        Some(rel) => "/"@ + crate::text::replace_all(crate::paths::render(rel), "\\"@, "/"@),
        None => "/"@ + crate::text::replace_all(path, "\\"@, "/"@),
    }
}

pub fn url_path_for_output(out_dir: &str, path: &str) -> (r: String)
    ensures
        r@ == url_path_spec(out_dir@, path@),
{
    proof {
        reveal_strlit("\\");
    }
    let mut s = String::from_str("/");
    if crate::paths::starts_with_path(path, out_dir) {
        let pc = crate::paths::components_of(path);
        let bc = crate::paths::components_of(out_dir);
        let ghost pv = views(pc@);
        let n = bc.len();
        let mut rel: Vec<String> = Vec::new();
        let mut i = n;
        proof {
            assert(pv.skip(n as int).take(0) =~= Seq::<Seq<char>>::empty());
        }
        while i < pc.len()
            invariant
                n <= i <= pc@.len(),
                pv == views(pc@),
                views(rel@) == pv.skip(n as int).take(i - n),
            decreases pc@.len() - i,
        {
            let ghost before = views(rel@);
            rel.push(String::from_str(pc[i].as_str()));
            proof {
                assert(views(rel@) =~= before.push(pv[i as int]));
                assert(pv.skip(n as int).take(i + 1 - n) =~= pv.skip(n as int).take(i - n).push(pv[i as int]));
            }
            i += 1;
        }
        proof {
            assert(pv.skip(n as int).take(pc@.len() - n) =~= pv.skip(n as int));
        }
        let text = crate::paths::render_components(&rel);
        s.append(crate::text::replace_str(text.as_str(), "\\", "/").as_str());
    } else {
        s.append(crate::text::replace_str(path, "\\", "/").as_str());
    }
    s
}

/// Output path of a variant: `{parent}/{stem}-{width}w.{format}` beside the
/// source (`image` when it has no stem, `.` when it has no parent).
pub open spec fn variant_path_spec(base: Seq<char>, width: u32, format: Seq<char>) -> Seq<char> {
    let stem = match crate::paths::file_stem_spec(base) {
        Some(s) => s,
        None => "image"@,
    };
    let parent = match crate::paths::parent_spec(base) {
        Some(p) => p,
        None => "."@,
    };
    crate::aliases::path_join_spec(parent, stem + "-"@ + decimal(width as nat) + "w."@ + format)
}

pub fn variant_output_path(base: &str, width: u32, format: &str) -> (r: String)
    ensures
        r@ == variant_path_spec(base@, width, format@),
{
    let stem = match crate::paths::file_stem(base) {
        Some(s) => s,
        None => String::from_str("image"),
    };
    let parent = match crate::paths::parent(base) {
        Some(p) => p,
        None => String::from_str("."),
    };
    let mut name = stem;
    name.append("-");
    name.append(usize_to_string(width as usize).as_str());
    name.append("w.");
    name.append(format);
    crate::aliases::path_join(parent.as_str(), name.as_str())
}

// ---------------------------------------------------------------------------
// `<img>` → `<picture>`

/// `data-statica-img="false|off|0"` opts an image out.
pub open spec fn opted_out(v: Option<Seq<char>>) -> bool {
    v == Some("false"@) || v == Some("off"@) || v == Some("0"@)
}

/// The formats a picture offers: the configured ones, plus the source
/// format when it is not among them.
pub open spec fn picture_formats(formats: Seq<Seq<char>>, source_format: Seq<char>) -> Seq<Seq<char>> {
    if exists|j: int| 0 <= j < formats.len() && same_format(#[trigger] formats[j], source_format) {
        formats
    } else {
        formats.push(source_format)
    }
}

/// A `<source type srcset sizes>` element.
pub open spec fn source_view(mime: Seq<char>, srcset: Seq<char>, sizes: Seq<char>) -> NodeView {
    NodeView::Element(ElementView {
        name: "source"@,
        attrs: seq![("type"@, mime), ("srcset"@, srcset), ("sizes"@, sizes)],
        children: Seq::empty(),
        void: true,
    })
}

/// One `<source>` per format that has variants, in format order.
pub open spec fn sources_spec(fmts: Seq<Seq<char>>, vs: Seq<VariantView>, sizes: Seq<char>) -> Seq<NodeView>
    decreases fmts.len(),
{
    if fmts.len() == 0 {
        Seq::empty()
    } else {
        let pre = sources_spec(fmts.drop_last(), vs, sizes);
        let ss = srcset_spec(vs, fmts.last());
        if ss.len() == 0 {
            pre
        } else {
            pre.push(source_view(mime_spec(fmts.last()), ss, sizes))
        }
    }
}

/// Set `key` only when the element does not have it.
pub open spec fn insert_missing(a: Seq<(Seq<char>, Seq<char>)>, key: Seq<char>, value: Seq<char>) -> Seq<(Seq<char>, Seq<char>)> {
    if attr_index(a, key) is Some {
        a
    } else {
        insert_attr_spec(a, key, value)
    }
}

/// The fallback `<img>` attributes: the opt-out and sizes hints removed;
/// `src` the widest variant of the source format (else the source URL),
/// `srcset` of the source format when it has variants, `sizes`; and
/// `width`, `height`, `loading="lazy"`, `decoding="async"` when missing.
pub open spec fn fallback_img_attrs(a: Seq<(Seq<char>, Seq<char>)>, resp: ResponsiveView, sizes: Seq<char>) -> Seq<(Seq<char>, Seq<char>)> {
    let widest = variants_spec(resp.variants, resp.source_format);
    let src = if widest.len() > 0 { widest.last().url } else { resp.source_url };
    let ss = srcset_spec(resp.variants, resp.source_format);
    let a1 = remove_attr_spec(remove_attr_spec(a, "data-statica-img"@), "data-statica-img-sizes"@);
    let a2 = insert_attr_spec(a1, "src"@, src);
    let a3 = if ss.len() > 0 { insert_attr_spec(a2, "srcset"@, ss) } else { a2 };
    let a4 = insert_attr_spec(a3, "sizes"@, sizes);
    let a5 = insert_missing(a4, "width"@, decimal(resp.width as nat));
    let a6 = insert_missing(a5, "height"@, decimal(resp.height as nat));
    insert_missing(insert_missing(a6, "loading"@, "lazy"@), "decoding"@, "async"@)
}

/// The `<picture>` an `<img>` becomes, when it is a local image the
/// manifest knows and has no `srcset` and no opt-out.
pub open spec fn picture_spec(
    e: ElementView,
    manifest: Seq<(Seq<char>, ResponsiveView)>,
    formats: Seq<Seq<char>>,
    default_sizes: Seq<char>,
) -> Option<NodeView> {
    if attr_lookup(e.attrs, "srcset"@) is Some || opted_out(attr_lookup(e.attrs, "data-statica-img"@)) {
        None
    } else {
        match attr_lookup(e.attrs, "src"@) {
            None => None,
            Some(src) => if !is_local_src_spec(src) {
                None
            } else {
                match manifest_lookup(manifest, src) {
                    None => None,
                    Some(resp) => {
                        let sizes = match attr_lookup(e.attrs, "data-statica-img-sizes"@) {
                            Some(x) => x,
                            None => match attr_lookup(e.attrs, "sizes"@) {
                                Some(x) => x,
                                None => default_sizes,
                            },
                        };
                        let fmts = picture_formats(formats, resp.source_format);
                        let img = NodeView::Element(ElementView { attrs: fallback_img_attrs(e.attrs, resp, sizes), ..e });
                        Some(NodeView::Element(ElementView {
                            name: "picture"@,
                            attrs: Seq::empty(),
                            children: sources_spec(fmts, resp.variants, sizes).push(img),
                            void: false,
                        }))
                    },
                }
            },
        }
    }
}

fn source_element(mime: String, srcset: String, sizes: &str) -> (r: Node)
    ensures
        r@ == source_view(mime@, srcset@, sizes@),
{
    let mut attrs = attrs_new();
    proof {
        reveal_strlit("type");
        reveal_strlit("srcset");
        reveal_strlit("sizes");
    }
    attrs_insert(&mut attrs, String::from_str("type"), mime);
    proof {
        assert(attr_entries(attrs)[0].0 == "type"@);
        assert(attr_index(attr_entries(attrs), "srcset"@) is None) by {
            assert("type"@ != "srcset"@) by {
                assert("type"@[0] != "srcset"@[0]);
            }
            crate::parse::attrs::lemma_attr_index_bounds(attr_entries(attrs), "srcset"@);
        }
    }
    attrs_insert(&mut attrs, String::from_str("srcset"), srcset);
    proof {
        let e = attr_entries(attrs);
        assert(e.len() == 2);
        assert("type"@ != "sizes"@) by {
            assert("type"@[0] != "sizes"@[0]);
        }
        assert("srcset"@ != "sizes"@) by {
            assert("srcset"@[1] != "sizes"@[1]);
        }
        crate::parse::attrs::lemma_attr_index_bounds(e, "sizes"@);
        assert(attr_index(e, "sizes"@) is None);
    }
    attrs_insert(&mut attrs, String::from_str("sizes"), String::from_str(sizes));
    let kids: Vec<Node> = Vec::new();
    proof {
        assert(nodes_view(kids@) =~= Seq::<NodeView>::empty());
    }
    let r = Node::Element(Element { name: String::from_str("source"), attrs, children: kids, void: true });
    proof {
        assert(attr_entries(attrs) =~= seq![("type"@, mime@), ("srcset"@, srcset@), ("sizes"@, sizes@)]);
    }
    r
}

fn formats_for(opts: &ImageProcessOptions, source_format: &str) -> (r: Vec<String>)
    ensures
        views(r@) == picture_formats(views(opts.formats@), source_format@),
{
    let mut formats: Vec<String> = Vec::new();
    let mut i: usize = 0;
    while i < opts.formats.len()
        invariant
            i <= opts.formats@.len(),
            formats@.len() == i,
            views(formats@) == views(opts.formats@).take(i as int),
        decreases opts.formats@.len() - i,
    {
        formats.push(opts.formats[i].clone());
        proof {
            assert(formats@[i as int]@ == opts.formats@[i as int]@);
            assert(views(formats@) =~= views(opts.formats@).take(i + 1));
        }
        i += 1;
    }
    proof {
        assert(views(opts.formats@).take(opts.formats@.len() as int) =~= views(opts.formats@));
    }
    let present = opts.wants_format(source_format);
    proof {
        let fs = views(opts.formats@);
        if present {
            let j = choose|j: int| 0 <= j < opts.formats@.len() && same_format(#[trigger] opts.formats@[j]@, source_format@);
            assert(same_format(fs[j], source_format@));
        } else {
            assert forall|j: int| 0 <= j < fs.len() implies !same_format(#[trigger] fs[j], source_format@) by {
                assert(fs[j] == opts.formats@[j]@);
            }
        }
    }
    if !present {
        let ghost before = formats@;
        formats.push(String::from_str(source_format));
        proof {
            assert(views(formats@) =~= views(before).push(source_format@));
        }
    }
    formats
}

fn set_if_missing(attrs: &mut crate::parse::attrs::AttrMap, key: &str, value: String)
    ensures
        attr_entries(*final(attrs)) == insert_missing(attr_entries(*old(attrs)), key@, value@),
{
    match crate::parse::attrs::attrs_get(attrs, key) {
        Some(_) => {
            proof {
                crate::parse::attrs::lemma_attr_index_bounds(attr_entries(*attrs), key@);
            }
        },
        None => {
            proof {
                crate::parse::attrs::lemma_attr_index_bounds(attr_entries(*attrs), key@);
            }
            attrs_insert(attrs, String::from_str(key), value);
        },
    }
}

/// Rewrite a local `<img>` into a `<picture>` of its responsive variants
/// (see [`picture_spec`]); nothing for any other node.
pub fn build_picture_from_img(node: &Node, manifest: &ImageManifest, opts: &ImageProcessOptions) -> (r: Option<Node>)
    ensures
        match node@ {
            NodeView::Element(e) => match picture_spec(e, manifest@, views(opts.formats@), opts.default_sizes@) {
                Some(p) => r matches Some(x) && x@ == p,
                None => r is None,
            },
            _ => r is None,
        },
{
    let img = match node {
        Node::Element(e) => e,
        _ => {
            return None;
        },
    };
    proof {
        reveal_strlit("false");
        reveal_strlit("off");
        reveal_strlit("0");
    }
    if img.attr("srcset").is_some() {
        return None;
    }
    match img.attr("data-statica-img") {
        Some(v) => {
            if str_eq(v, "false") || str_eq(v, "off") || str_eq(v, "0") {
                return None;
            }
        },
        None => {},
    }
    let src = match img.attr("src") {
        Some(s) => s,
        None => {
            return None;
        },
    };
    if !is_local_src(src) {
        return None;
    }
    let resp = match manifest.get(src) {
        Some(r) => r,
        None => {
            return None;
        },
    };
    let sizes: String = match img.attr("data-statica-img-sizes") {
        Some(x) => String::from_str(x),
        None => match img.attr("sizes") {
            Some(x) => String::from_str(x),
            None => opts.default_sizes.clone(),
        },
    };
    let formats = formats_for(opts, resp.source_format.as_str());
    let ghost fv = views(formats@);
    let mut children: Vec<Node> = Vec::new();
    let mut i: usize = 0;
    proof {
        assert(fv.take(0) =~= Seq::<Seq<char>>::empty());
        assert(nodes_view(children@) =~= Seq::<NodeView>::empty());
    }
    while i < formats.len()
        invariant
            i <= formats@.len(),
            fv == views(formats@),
            nodes_view(children@) == sources_spec(fv.take(i as int), resp@.variants, sizes@),
        decreases formats@.len() - i,
    {
        proof {
            assert(fv.take(i + 1).drop_last() =~= fv.take(i as int));
            assert(fv.take(i + 1).last() == formats@[i as int]@);
        }
        let srcset = resp.srcset_for_format(formats[i].as_str());
        if srcset.unicode_len() > 0 {
            let ghost before = nodes_view(children@);
            let mime = resp.mime_for(formats[i].as_str());
            let s = source_element(mime, srcset, sizes.as_str());
            let ghost sv = s@;
            children.push(s);
            proof {
                assert(nodes_view(children@) =~= before.push(sv));
            }
        }
        i += 1;
    }
    proof {
        assert(fv.take(formats@.len() as int) =~= fv);
    }
    let fallback: String = match resp.largest_for_format(resp.source_format.as_str()) {
        Some(v) => v.url.clone(),
        None => resp.source_url.clone(),
    };
    let fallback_srcset = resp.srcset_for_format(resp.source_format.as_str());
    let mut attrs = attrs_clone(&img.attrs);
    attrs_shift_remove(&mut attrs, "data-statica-img");
    attrs_shift_remove(&mut attrs, "data-statica-img-sizes");
    attrs_insert(&mut attrs, String::from_str("src"), fallback);
    if fallback_srcset.unicode_len() > 0 {
        attrs_insert(&mut attrs, String::from_str("srcset"), fallback_srcset);
    }
    attrs_insert(&mut attrs, String::from_str("sizes"), sizes.clone());
    set_if_missing(&mut attrs, "width", usize_to_string(resp.width as usize));
    set_if_missing(&mut attrs, "height", usize_to_string(resp.height as usize));
    set_if_missing(&mut attrs, "loading", String::from_str("lazy"));
    set_if_missing(&mut attrs, "decoding", String::from_str("async"));
    let img_children = crate::parse::ast::copy_nodes(img.children.as_slice());
    let img_el = Node::Element(Element { name: img.name.clone(), attrs, children: img_children, void: img.void });
    let ghost iv = img_el@;
    let ghost before = nodes_view(children@);
    children.push(img_el);
    proof {
        assert(nodes_view(children@) =~= before.push(iv));
    }
    let picture = Element { name: String::from_str("picture"), attrs: attrs_new(), children, void: false };
    Some(Node::Element(picture))
}

/// Nodes with each local `<img>` outside a `<picture>` rewritten into one,
/// and how many were rewritten.
pub open spec fn tx_nodes(
    s: Seq<NodeView>,
    m: Seq<(Seq<char>, ResponsiveView)>,
    fmts: Seq<Seq<char>>,
    ds: Seq<char>,
    inside: bool,
) -> (Seq<NodeView>, nat)
    decreases s,
{
    if s.len() == 0 {
        (Seq::empty(), 0)
    } else {
        proof {
            assert(decreases_to!(s => s[s.len() - 1]));
        }
        let (pre, k) = tx_nodes(s.drop_last(), m, fmts, ds, inside);
        let (n, c) = tx_node(s[s.len() - 1], m, fmts, ds, inside);
        (pre.push(n), k + c)
    }
}

pub open spec fn tx_node(
    n: NodeView,
    m: Seq<(Seq<char>, ResponsiveView)>,
    fmts: Seq<Seq<char>>,
    ds: Seq<char>,
    inside: bool,
) -> (NodeView, nat)
    decreases n,
{
    match n {
        NodeView::Element(e) => if tag_is(e.name, "picture"@) {
            let (c, k) = tx_nodes(e.children, m, fmts, ds, true);
            (NodeView::Element(ElementView { children: c, ..e }), k)
        } else if tag_is(e.name, "img"@) && !inside {
            match picture_spec(e, m, fmts, ds) {
                Some(p) => (p, 1),
                None => (n, 0),
            }
        } else {
            let (c, k) = tx_nodes(e.children, m, fmts, ds, inside);
            (NodeView::Element(ElementView { children: c, ..e }), k)
        },
        _ => (n, 0),
    }
}

/// A count of `k`, capped at `usize::MAX`.
pub open spec fn capped(k: nat) -> usize {
    if k <= usize::MAX { k as usize } else { usize::MAX }
}

fn tx_children(
    el: &Element,
    node: &Node,
    manifest: &ImageManifest,
    opts: &ImageProcessOptions,
    inside: bool,
) -> (r: (Vec<Node>, usize))
    requires
        *node == Node::Element(*el),
    ensures
        nodes_view(r.0@) == tx_nodes(nodes_view(el.children@), manifest@, views(opts.formats@), opts.default_sizes@, inside).0,
        r.1 == capped(tx_nodes(nodes_view(el.children@), manifest@, views(opts.formats@), opts.default_sizes@, inside).1),
    decreases node, 0nat,
{
    let ghost kids = nodes_view(el.children@);
    let ghost fv = views(opts.formats@);
    let mut out: Vec<Node> = Vec::new();
    let mut count: usize = 0;
    let mut i: usize = 0;
    proof {
        assert(kids.take(0) =~= Seq::<NodeView>::empty());
        assert(nodes_view(out@) =~= Seq::<NodeView>::empty());
    }
    while i < el.children.len()
        invariant
            i <= el.children@.len(),
            *node == Node::Element(*el),
            kids == nodes_view(el.children@),
            fv == views(opts.formats@),
            nodes_view(out@) == tx_nodes(kids.take(i as int), manifest@, fv, opts.default_sizes@, inside).0,
            count == capped(tx_nodes(kids.take(i as int), manifest@, fv, opts.default_sizes@, inside).1),
        decreases el.children@.len() - i,
    {
        proof {
            assert(decreases_to!(*node => (*node)->Element_0));
            assert(decreases_to!(el.children => el.children@));
            assert(decreases_to!(el.children@ => el.children@[i as int]));
            assert(kids.take(i + 1).drop_last() =~= kids.take(i as int));
            assert(kids.take(i + 1)[i as int] == el.children@[i as int]@);
        }
        let (n, c) = tx_node_exec(&el.children[i], manifest, opts, inside);
        let ghost nv = n@;
        let ghost before = nodes_view(out@);
        out.push(n);
        proof {
            assert(nodes_view(out@) =~= before.push(nv));
        }
        count = count.saturating_add(c);
        i += 1;
    }
    proof {
        assert(kids.take(el.children@.len() as int) =~= kids);
    }
    (out, count)
}

fn tx_node_exec(node: &Node, manifest: &ImageManifest, opts: &ImageProcessOptions, inside: bool) -> (r: (Node, usize))
    ensures
        r.0@ == tx_node(node@, manifest@, views(opts.formats@), opts.default_sizes@, inside).0,
        r.1 == capped(tx_node(node@, manifest@, views(opts.formats@), opts.default_sizes@, inside).1),
    decreases node, 1nat,
{
    match node {
        Node::Element(el) => {
            let is_picture = {
                let l = lower_string(el.name.as_str());
                str_eq(l.as_str(), "picture")
            };
            let is_img = {
                let l = lower_string(el.name.as_str());
                str_eq(l.as_str(), "img")
            };
            if is_picture {
                let (kids, k) = tx_children(el, node, manifest, opts, true);
                (Node::Element(Element { name: el.name.clone(), attrs: attrs_clone(&el.attrs), children: kids, void: el.void }), k)
            } else if is_img && !inside {
                match build_picture_from_img(node, manifest, opts) {
                    Some(p) => (p, 1),
                    None => (node.copy(), 0),
                }
            } else {
                let (kids, k) = tx_children(el, node, manifest, opts, inside);
                (Node::Element(Element { name: el.name.clone(), attrs: attrs_clone(&el.attrs), children: kids, void: el.void }), k)
            }
        },
        _ => (node.copy(), 0),
    }
}

/// Rewrite the local `<img>`s of a document into `<picture>`s (not those
/// already inside a `<picture>`); returns how many were rewritten.
pub fn transform_document_imgs(doc: &mut Document, manifest: &ImageManifest, opts: &ImageProcessOptions) -> (r: usize)
    ensures
        final(doc)@.doctype == old(doc)@.doctype,
        final(doc)@.children == tx_nodes(old(doc)@.children, manifest@, views(opts.formats@), opts.default_sizes@, false).0,
        r == capped(tx_nodes(old(doc)@.children, manifest@, views(opts.formats@), opts.default_sizes@, false).1),
{
    let ghost kids = nodes_view(doc.children@);
    let ghost fv = views(opts.formats@);
    let mut out: Vec<Node> = Vec::new();
    let mut count: usize = 0;
    let mut i: usize = 0;
    proof {
        assert(kids.take(0) =~= Seq::<NodeView>::empty());
        assert(nodes_view(out@) =~= Seq::<NodeView>::empty());
    }
    while i < doc.children.len()
        invariant
            i <= doc.children@.len(),
            kids == nodes_view(doc.children@),
            fv == views(opts.formats@),
            nodes_view(out@) == tx_nodes(kids.take(i as int), manifest@, fv, opts.default_sizes@, false).0,
            count == capped(tx_nodes(kids.take(i as int), manifest@, fv, opts.default_sizes@, false).1),
        decreases doc.children@.len() - i,
    {
        proof {
            assert(kids.take(i + 1).drop_last() =~= kids.take(i as int));
            assert(kids.take(i + 1)[i as int] == doc.children@[i as int]@);
        }
        let (n, c) = tx_node_exec(&doc.children[i], manifest, opts, false);
        let ghost nv = n@;
        let ghost before = nodes_view(out@);
        out.push(n);
        proof {
            assert(nodes_view(out@) =~= before.push(nv));
        }
        count = count.saturating_add(c);
        i += 1;
    }
    proof {
        assert(kids.take(doc.children@.len() as int) =~= kids);
    }
    doc.children = out;
    count
}

// ---------------------------------------------------------------------------
// The variants of one source image

/// The extension a source image is read as: its own (lower-case), else
/// `jpg`.
pub open spec fn source_ext_spec(from: Seq<char>) -> Seq<char> {
    match crate::paths::extension_spec(from) {
        Some(e) => lower_seq(e),
        None => "jpg"@,
    }
}

/// Whether the settings ask for WebP copies.
pub open spec fn wants_webp(formats: Seq<Seq<char>>) -> bool {
    exists|j: int| 0 <= j < formats.len() && same_format(#[trigger] formats[j], "webp"@)
}

/// The formats each width is written in, in the order the variants are
/// listed: WebP (when asked for and not the source's own) and the source
/// format, by name.
pub open spec fn output_formats_spec(src: Seq<char>, formats: Seq<Seq<char>>) -> Seq<Seq<char>> {
    if wants_webp(formats) && src != "webp"@ {
        if crate::text::lex_le("webp"@, src) {
            seq!["webp"@, src]
        } else {
            seq![src, "webp"@]
        }
    } else {
        seq![src]
    }
}

/// The variant of width `w` in format `f`.
pub open spec fn variant_spec(w: u32, f: Seq<char>, orig_w: u32, orig_h: u32, to: Seq<char>, out_dir: Seq<char>) -> VariantView {
    VariantView {
        width: w,
        height: scaled_height_spec(orig_w, orig_h, w),
        format: f,
        mime: mime_spec(f),
        url: url_path_spec(out_dir, variant_path_spec(to, w, f)),
    }
}

/// Every variant: format by format, widths ascending within a format (the
/// `(format, width)` order the variants are sorted in).
pub open spec fn variants_plan(
    fmts: Seq<Seq<char>>,
    widths: Seq<u32>,
    orig_w: u32,
    orig_h: u32,
    to: Seq<char>,
    out_dir: Seq<char>,
) -> Seq<VariantView>
    decreases fmts.len(),
{
    if fmts.len() == 0 {
        Seq::empty()
    } else {
        variants_plan(fmts.drop_last(), widths, orig_w, orig_h, to, out_dir) + widths.map_values(
            |w: u32| variant_spec(w, fmts.last(), orig_w, orig_h, to, out_dir),
        )
    }
}

/// One source image's variants and their output paths, in the same order.
#[derive(Debug)]
pub struct ResponsivePlan {
    pub image: ResponsiveImage,
    pub paths: Vec<String>,
    /// The target widths, ascending.
    pub widths: Vec<u32>,
}

fn push_format_variants(
    out: &mut Vec<ImageVariant>,
    paths: &mut Vec<String>,
    widths: &Vec<u32>,
    f: &str,
    orig_w: u32,
    orig_h: u32,
    to: &str,
    out_dir: &str,
)
    requires
        old(out)@.len() == old(paths)@.len(),
    ensures
        variant_views(final(out)@) == variant_views(old(out)@) + widths@.map_values(
            |w: u32| variant_spec(w, f@, orig_w, orig_h, to@, out_dir@),
        ),
        views(final(paths)@) == views(old(paths)@) + widths@.map_values(|w: u32| variant_path_spec(to@, w, f@)),
        final(out)@.len() == final(paths)@.len(),
{
    let ghost v0 = variant_views(out@);
    let ghost p0 = views(paths@);
    let mut i: usize = 0;
    proof {
        assert(v0 + widths@.take(0).map_values(|w: u32| variant_spec(w, f@, orig_w, orig_h, to@, out_dir@)) =~= v0);
        assert(p0 + widths@.take(0).map_values(|w: u32| variant_path_spec(to@, w, f@)) =~= p0);
    }
    while i < widths.len()
        invariant
            i <= widths@.len(),
            out@.len() == paths@.len(),
            variant_views(out@) == v0 + widths@.take(i as int).map_values(
                |w: u32| variant_spec(w, f@, orig_w, orig_h, to@, out_dir@),
            ),
            views(paths@) == p0 + widths@.take(i as int).map_values(|w: u32| variant_path_spec(to@, w, f@)),
        decreases widths@.len() - i,
    {
        let w = widths[i];
        let path = variant_output_path(to, w, f);
        let v = ImageVariant {
            width: w,
            height: scaled_height(orig_w, orig_h, w),
            format: String::from_str(f),
            mime: mime_for_ext(f),
            url: url_path_for_output(out_dir, path.as_str()),
        };
        let ghost vb = variant_views(out@);
        let ghost pb = views(paths@);
        let ghost vv = v@;
        let ghost pv = path@;
        out.push(v);
        paths.push(path);
        proof {
            assert(variant_views(out@) =~= vb.push(vv));
            assert(views(paths@) =~= pb.push(pv));
            assert(widths@.take(i + 1) =~= widths@.take(i as int).push(w));
            assert(v0 + widths@.take(i + 1).map_values(|w: u32| variant_spec(w, f@, orig_w, orig_h, to@, out_dir@))
                =~= vb.push(vv));
            assert(p0 + widths@.take(i + 1).map_values(|w: u32| variant_path_spec(to@, w, f@)) =~= pb.push(pv));
        }
        i += 1;
    }
    proof {
        assert(widths@.take(i as int) =~= widths@);
    }
}

/// The responsive variants of the source image `from` (`orig_w` × `orig_h`
/// px) written at `to` under `out_dir`: each target width in each output
/// format, in `(format, width)` order, with their output paths; an error
/// when the source is not a raster format statica resizes. Decoding,
/// resizing and encoding the files is the caller's part.
pub fn plan_responsive_image(
    from: &str,
    orig_w: u32,
    orig_h: u32,
    to: &str,
    out_dir: &str,
    opts: &ImageProcessOptions,
) -> (r: Result<ResponsivePlan, Error>)
    ensures
        !is_responsive_source_spec(source_ext_spec(from@)) ==> (r matches Err(e) && e@ == ErrorView::Diag(
            diag_at_file(from@, "not a responsive raster format"@),
        )),
        is_responsive_source_spec(source_ext_spec(from@)) ==> (r matches Ok(p) && ({
            let src = source_ext_spec(from@);
            let widths = p.widths@;
            let fmts = output_formats_spec(src, views(opts.formats@));
            &&& strictly_increasing(widths)
            &&& forall|w: u32| widths.contains(w) <==> target_width_ok(orig_w, opts.widths@, w)
            &&& p.image@.width == orig_w
            &&& p.image@.height == orig_h
            &&& p.image@.source_format == src
            &&& p.image@.source_mime == mime_spec(src)
            &&& p.image@.source_url == url_path_spec(out_dir@, to@)
            &&& p.image@.variants == variants_plan(fmts, widths, orig_w, orig_h, to@, out_dir@)
            &&& views(p.paths@) == variant_paths_plan(fmts, widths, to@)
        })),
{
    let src: String = match crate::paths::extension(from) {
        Some(e) => lower_string(e.as_str()),
        None => String::from_str("jpg"),
    };
    if !is_responsive_source(src.as_str()) {
        return Err(Error::at_file(from, "not a responsive raster format"));
    }
    let widths = target_widths(orig_w, opts.widths.as_slice());
    let mut fmts: Vec<&str> = Vec::new();
    proof {
        reveal_strlit("webp");
    }
    let want = opts.wants_format("webp");
    proof {
        let fs = views(opts.formats@);
        if want {
            let j = choose|j: int| 0 <= j < opts.formats@.len() && same_format(#[trigger] opts.formats@[j]@, "webp"@);
            assert(fs[j] == opts.formats@[j]@);
        } else {
            assert forall|j: int| 0 <= j < fs.len() implies !same_format(#[trigger] fs[j], "webp"@) by {
                assert(fs[j] == opts.formats@[j]@);
            }
        }
        assert(want == wants_webp(fs));
    }
    if want && !str_eq(src.as_str(), "webp") {
        if crate::text::str_le("webp", src.as_str()) {
            fmts.push("webp");
            fmts.push(src.as_str());
        } else {
            fmts.push(src.as_str());
            fmts.push("webp");
        }
    } else {
        fmts.push(src.as_str());
    }
    let ghost fv = fmts@.map_values(|f: &str| f@);
    proof {
        assert(fv =~= output_formats_spec(src@, views(opts.formats@)));
    }
    let mut variants: Vec<ImageVariant> = Vec::new();
    let mut paths: Vec<String> = Vec::new();
    let mut k: usize = 0;
    proof {
        assert(variant_views(variants@) =~= variants_plan(fv.take(0), widths@, orig_w, orig_h, to@, out_dir@));
        assert(views(paths@) =~= variant_paths_plan(fv.take(0), widths@, to@));
    }
    while k < fmts.len()
        invariant
            k <= fmts@.len(),
            fv == fmts@.map_values(|f: &str| f@),
            variants@.len() == paths@.len(),
            variant_views(variants@) == variants_plan(fv.take(k as int), widths@, orig_w, orig_h, to@, out_dir@),
            views(paths@) == variant_paths_plan(fv.take(k as int), widths@, to@),
        decreases fmts@.len() - k,
    {
        proof {
            assert(fv.take(k + 1).drop_last() =~= fv.take(k as int));
            assert(fv.take(k + 1).last() == fmts@[k as int]@);
        }
        push_format_variants(&mut variants, &mut paths, &widths, fmts[k], orig_w, orig_h, to, out_dir);
        k += 1;
    }
    proof {
        assert(fv.take(k as int) =~= fv);
    }
    let image = ResponsiveImage {
        width: orig_w,
        height: orig_h,
        source_mime: mime_for_ext(src.as_str()),
        source_format: src,
        source_url: url_path_for_output(out_dir, to),
        variants,
    };
    Ok(ResponsivePlan { image, paths, widths })
}

/// The output path of each variant, in the same order.
pub open spec fn variant_paths_plan(fmts: Seq<Seq<char>>, widths: Seq<u32>, to: Seq<char>) -> Seq<Seq<char>>
    decreases fmts.len(),
{
    if fmts.len() == 0 {
        Seq::empty()
    } else {
        variant_paths_plan(fmts.drop_last(), widths, to) + widths.map_values(|w: u32| variant_path_spec(to, w, fmts.last()))
    }
}

/// An image stored under its normalized source is found again from any
/// spelling of that source (a query string or fragment, surrounding
/// whitespace, a missing leading `/`).
pub proof fn law_manifest_lookup_finds_inserted(
    t: Seq<(Seq<char>, ResponsiveView)>,
    key: Seq<char>,
    img: ResponsiveView,
    src: Seq<char>,
)
    requires
        normalize_src_spec(src) == key,
    ensures
        manifest_lookup(manifest_insert(t, key, img), src) == Some(img),
{
    law_manifest_get_after_insert(t, key, img);
}

} // verus!
