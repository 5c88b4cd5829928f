//! What a build reports: render mode, timed phases, and emitted routes.

use vstd::prelude::*;

use crate::discover::PageKind;
use crate::loc::Diagnostic;
use crate::text::{decimal, usize_to_string};

verus! {

/// How pages are rendered.
#[derive(Debug, Clone, Copy, PartialEq, Eq)]
pub enum RenderMode {
    Auto,
    Serial,
    Parallel,
}

pub open spec fn mode_name(m: RenderMode) -> Seq<char> {
    match m {
        RenderMode::Auto => "auto"@,
        RenderMode::Serial => "serial"@,
        RenderMode::Parallel => "parallel"@,
    }
}

impl RenderMode {
    pub fn as_str(self) -> (r: &'static str)
        ensures
            r@ == mode_name(self),
    {
        match self {
            RenderMode::Auto => "auto",
            RenderMode::Serial => "serial",
            RenderMode::Parallel => "parallel",
        }
    }

    /// Every mode but `Serial` renders in parallel.
    pub fn should_render_parallel(self) -> (r: bool)
        ensures
            r == (self != RenderMode::Serial),
    {
        match self {
            RenderMode::Serial => false,
            _ => true,
        }
    }
}

/// The render line of the build summary.
pub open spec fn render_detail_spec(mode: RenderMode, threads: usize) -> Seq<char> {
    match mode {
        RenderMode::Serial => "serial"@,
        RenderMode::Auto => if threads == 0 {
            "auto"@
        } else {
            "auto, "@ + decimal(threads as nat) + " threads"@
        },
        RenderMode::Parallel => if threads == 0 {
            "parallel auto-threads"@
        } else {
            "parallel, "@ + decimal(threads as nat) + " threads"@
        },
    }
}

pub fn render_detail(mode: RenderMode, threads: usize) -> (r: String)
    ensures
        r@ == render_detail_spec(mode, threads),
{
    match mode {
        RenderMode::Serial => String::from_str("serial"),
        RenderMode::Auto => {
            if threads == 0 {
                String::from_str("auto")
            } else {
                let mut s = String::from_str("auto, ");
                s.append(usize_to_string(threads).as_str());
                s.append(" threads");
                s
            }
        },
        RenderMode::Parallel => {
            if threads == 0 {
                String::from_str("parallel auto-threads")
            } else {
                let mut s = String::from_str("parallel, ");
                s.append(usize_to_string(threads).as_str());
                s.append(" threads");
                s
            }
        },
    }
}

/// One timed pipeline step (for the `--verbose` summary).
#[derive(Debug, Clone)]
pub struct BuildPhase {
    pub name: String,
    pub duration_ms: u128,
    pub detail: String,
}

/// Pages emitted for one discovered source route.
#[derive(Debug, Clone, Copy, PartialEq, Eq)]
pub enum BuildRouteKind {
    Static,
    Collection,
    Paginated,
}

impl BuildRouteKind {
    /// The report kind of a discovered page.
    pub fn from_page_kind(kind: PageKind) -> (r: Self)
        ensures
            r == (match kind {
                PageKind::Static => BuildRouteKind::Static,
                PageKind::Collection => BuildRouteKind::Collection,
            }),
    {
        match kind {
            PageKind::Static => BuildRouteKind::Static,
            PageKind::Collection => BuildRouteKind::Collection,
        }
    }
}

/// Pages emitted for one discovered source route.
#[derive(Debug, Clone)]
pub struct BuildRouteRow {
    pub route: String,
    pub kind: BuildRouteKind,
    pub pages: usize,
}

/// Summary of one build.
#[derive(Debug, Default)]
pub struct BuildReport {
    pub pages_written: usize,
    pub assets_processed: usize,
    pub warnings: Vec<Diagnostic>,
    pub duration_ms: u128,
    pub outputs: Vec<String>,
    pub phases: Vec<BuildPhase>,
    pub routes: Vec<BuildRouteRow>,
    pub sources: usize,
    pub fragments: usize,
    pub data_sources: usize,
}

} // verus!
