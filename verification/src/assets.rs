//! Which asset files the optional pipeline (`--process` / `[process]`)
//! processes: per-kind toggles, and the kind of a file by its extension.
//! Copying and transforming the files is the application's part.

use vstd::prelude::*;

use crate::images::{ImageManifest, ImageProcessOptions};
use crate::loc::Diagnostic;
use crate::text::{str_eq, views};

verus! {

/// Which asset kinds to optimize when processing is on.
#[derive(Debug)]
pub struct AssetProcessOptions {
    pub enabled: bool,
    pub css: bool,
    pub js: bool,
    pub images: bool,
    pub fonts: bool,
    pub image: ImageProcessOptions,
}

/// The kind of an asset file.
#[derive(Debug, Clone, Copy, PartialEq, Eq)]
pub enum AssetKind {
    Css,
    Js,
    Image,
    Font,
    Other,
}

/// The kind a file extension names (exact, lower-case names).
pub open spec fn kind_of_ext(ext: Seq<char>) -> AssetKind {
    if ext == "css"@ {
        AssetKind::Css
    } else if ext == "js"@ || ext == "mjs"@ || ext == "cjs"@ {
        AssetKind::Js
    } else if ext == "png"@ || ext == "jpg"@ || ext == "jpeg"@ || ext == "webp"@ || ext == "gif"@ || ext == "svg"@
        || ext == "avif"@ || ext == "ico"@ {
        AssetKind::Image
    } else if ext == "woff"@ || ext == "woff2"@ || ext == "ttf"@ || ext == "otf"@ || ext == "eot"@ {
        AssetKind::Font
    } else {
        AssetKind::Other
    }
}

impl AssetKind {
    /// The kind of a file with extension `ext`.
    pub fn from_ext(ext: &str) -> (r: Self)
        ensures
            r == kind_of_ext(ext@),
    {
        if str_eq(ext, "css") {
            AssetKind::Css
        } else if str_eq(ext, "js") || str_eq(ext, "mjs") || str_eq(ext, "cjs") {
            AssetKind::Js
        } else if str_eq(ext, "png") || str_eq(ext, "jpg") || str_eq(ext, "jpeg") || str_eq(ext, "webp") || str_eq(
            ext,
            "gif",
        ) || str_eq(ext, "svg") || str_eq(ext, "avif") || str_eq(ext, "ico") {
            AssetKind::Image
        } else if str_eq(ext, "woff") || str_eq(ext, "woff2") || str_eq(ext, "ttf") || str_eq(ext, "otf") || str_eq(
            ext,
            "eot",
        ) {
            AssetKind::Font
        } else {
            AssetKind::Other
        }
    }
}

impl Default for AssetProcessOptions {
    /// Processing off; CSS, JS and images selected, fonts not; default
    /// image options.
    fn default() -> (r: Self)
        ensures
            !r.enabled && r.css && r.js && r.images && !r.fonts,
            r.image.widths@ == seq![480u32, 768, 1024, 1366, 1920],
            views(r.image.formats@) == seq!["webp"@],
            r.image.quality == 85,
            r.image.default_sizes@ == "100vw"@,
            r.image.responsive,
    {
        AssetProcessOptions { enabled: false, css: true, js: true, images: true, fonts: false, image: ImageProcessOptions::default() }
    }
}

impl AssetProcessOptions {
    /// The default options: processing off.
    pub fn off() -> (r: Self)
        ensures
            !r.enabled && r.css && r.js && r.images && !r.fonts,
            r.image.widths@ == seq![480u32, 768, 1024, 1366, 1920],
            views(r.image.formats@) == seq!["webp"@],
            r.image.quality == 85,
            r.image.default_sizes@ == "100vw"@,
            r.image.responsive,
    {
        AssetProcessOptions::default()
    }

    /// Whether files of `kind` are processed: never when processing is off,
    /// never for other files, else as the kind's toggle says.
    pub fn allows(&self, kind: AssetKind) -> (r: bool)
        ensures
            r == (self.enabled && match kind {
                AssetKind::Css => self.css,
                AssetKind::Js => self.js,
                AssetKind::Image => self.images,
                AssetKind::Font => self.fonts,
                AssetKind::Other => false,
            }),
    {
        if !self.enabled {
            return false;
        }
        match kind {
            AssetKind::Css => self.css,
            AssetKind::Js => self.js,
            AssetKind::Image => self.images,
            AssetKind::Font => self.fonts,
            AssetKind::Other => false,
        }
    }
}

/// What a copy of the asset directories did.
#[derive(Debug)]
pub struct ProcessReport {
    pub processed: usize,
    pub copied: usize,
    pub warnings: Vec<Diagnostic>,
    pub images: ImageManifest,
}

impl ProcessReport {
    /// Nothing processed or copied yet.
    pub fn new() -> (r: Self)
        ensures
            r.processed == 0,
            r.copied == 0,
            r.warnings@.len() == 0,
            r.images@.len() == 0,
    {
        ProcessReport { processed: 0, copied: 0, warnings: Vec::new(), images: ImageManifest::new() }
    }
}

} // verus!
