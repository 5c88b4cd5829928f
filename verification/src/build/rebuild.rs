//! Watch-mode rebuild planning.
//!
//! Changed paths inside the output directory or under a `target` directory
//! are ignored. Direct edits of page files re-emit just those pages when the
//! configuration allows it; anything else runs the full pipeline, cleaning the
//! output when a changed input no longer exists.
//!
//! Normalizing paths, checking that they exist and discovering pages is the
//! application's job; this module decides from those facts.

use vstd::prelude::*;

use crate::discover::PageFile;
use crate::paths::{components, components_of, file_name, file_name_spec, path_starts_with, starts_with_path};
use crate::text::{str_eq, usize_to_string, decimal};

verus! {

/// A changed path, normalized against the site root, and whether it exists.
#[derive(Debug, Clone)]
pub struct ChangedPath {
    pub path: String,
    pub exists: bool,
}

pub open spec fn changed_views(c: Seq<ChangedPath>) -> Seq<(Seq<char>, bool)> {
    c.map_values(|x: ChangedPath| (x.path@, x.exists))
}

/// Watch events from generated or build-output directories do not
/// invalidate source output.
#[derive(Debug, Clone, Copy, PartialEq, Eq, Structural)]
pub enum ChangedPathKind {
    Ignored,
    Meaningful,
}

pub open spec fn ignored_spec(out_dir: Seq<char>, path: Seq<char>) -> bool {
    path_starts_with(path, out_dir) || components(path).contains("target"@)
}

pub fn changed_path_kind(out_dir: &str, path: &str) -> (r: ChangedPathKind)
    ensures
        r == (if ignored_spec(out_dir@, path@) { ChangedPathKind::Ignored } else { ChangedPathKind::Meaningful }),
{
    if starts_with_path(path, out_dir) {
        return ChangedPathKind::Ignored;
    }
    let c = components_of(path);
    let ghost cv = crate::text::views(c@);
    let mut i: usize = 0;
    while i < c.len()
        invariant
            i <= c@.len(),
            cv == crate::text::views(c@),
            cv == components(path@),
            forall|j: int| 0 <= j < i ==> cv[j] != "target"@,
        decreases c@.len() - i,
    {
        if str_eq(c[i].as_str(), "target") {
            proof {
                assert(cv[i as int] == "target"@);
            }
            return ChangedPathKind::Ignored;
        }
        i += 1;
    }
    ChangedPathKind::Meaningful
}

/// The changed paths that matter, in order.
pub open spec fn meaningful_spec(out_dir: Seq<char>, c: Seq<(Seq<char>, bool)>) -> Seq<(Seq<char>, bool)>
    decreases c.len(),
{
    if c.len() == 0 {
        Seq::empty()
    } else {
        let rest = meaningful_spec(out_dir, c.drop_last());
        if ignored_spec(out_dir, c.last().0) {
            rest
        } else {
            rest.push(c.last())
        }
    }
}

pub fn meaningful_changed_paths(out_dir: &str, changed: &[ChangedPath]) -> (r: Vec<ChangedPath>)
    ensures
        changed_views(r@) == meaningful_spec(out_dir@, changed_views(changed@)),
{
    let ghost cv = changed_views(changed@);
    let mut out: Vec<ChangedPath> = Vec::new();
    let mut i: usize = 0;
    proof {
        assert(cv.take(0) =~= Seq::<(Seq<char>, bool)>::empty());
        assert(changed_views(out@) =~= Seq::<(Seq<char>, bool)>::empty());
    }
    while i < changed.len()
        invariant
            i <= changed@.len(),
            cv == changed_views(changed@),
            changed_views(out@) == meaningful_spec(out_dir@, cv.take(i as int)),
        decreases changed@.len() - i,
    {
        proof {
            assert(cv.take(i + 1).drop_last() =~= cv.take(i as int));
            assert(cv.take(i + 1).last() == cv[i as int]);
        }
        let c = &changed[i];
        if changed_path_kind(out_dir, c.path.as_str()) == ChangedPathKind::Meaningful {
            let ghost before = changed_views(out@);
            out.push(ChangedPath { path: String::from_str(c.path.as_str()), exists: c.exists });
            proof {
                assert(changed_views(out@) =~= before.push(cv[i as int]));
            }
        }
        i += 1;
    }
    proof {
        assert(cv.take(changed@.len() as int) =~= cv);
    }
    out
}

/// Whether page-only rebuilds can preserve output correctness.
#[derive(Debug, Clone, Copy, PartialEq, Eq, Structural)]
pub enum PageRebuildEligibility {
    Eligible,
    RequiresFullBuild,
}

/// Minified or processed output is rebuilt in full.
pub fn page_rebuild_eligibility(minify_enabled: bool, process_enabled: bool) -> (r: PageRebuildEligibility)
    ensures
        r == (if minify_enabled || process_enabled {
            PageRebuildEligibility::RequiresFullBuild
        } else {
            PageRebuildEligibility::Eligible
        }),
{
    if minify_enabled || process_enabled {
        PageRebuildEligibility::RequiresFullBuild
    } else {
        PageRebuildEligibility::Eligible
    }
}

proof fn lemma_push_to_set(s: Seq<Seq<char>>, x: Seq<char>)
    ensures
        s.push(x).to_set() == s.to_set().insert(x),
{
    assert forall|y: Seq<char>| s.push(x).to_set().contains(y) <==> s.to_set().insert(x).contains(y) by {
        if s.push(x).contains(y) {
            let k = choose|k: int| 0 <= k < s.push(x).len() && s.push(x)[k] == y;
            if k < s.len() {
                assert(s[k] == y);
                assert(s.contains(y));
            }
        }
        if s.contains(y) {
            let k = choose|k: int| 0 <= k < s.len() && s[k] == y;
            assert(s.push(x)[k] == y);
        }
        if y == x {
            assert(s.push(x)[s.len() as int] == x);
        }
    }
    assert(s.push(x).to_set() =~= s.to_set().insert(x));
}

/// Explicit set of source pages selected for a scoped rebuild.
#[derive(Debug, Clone)]
pub struct PageSelection {
    files: Vec<PageFile>,
}

impl View for PageSelection {
    type V = Set<Seq<char>>;

    closed spec fn view(&self) -> Set<Seq<char>> {
        self.files@.map_values(|f: PageFile| f@).to_set()
    }
}

impl PageSelection {
    pub closed spec fn wf(&self) -> bool {
        self.files@.map_values(|f: PageFile| f@).no_duplicates()
    }

    /// An empty selection.
    pub fn new() -> (r: Self)
        ensures
            r.wf(),
            r@ == Set::<Seq<char>>::empty(),
    {
        let r = PageSelection { files: Vec::new() };
        proof {
            assert(r.files@.map_values(|f: PageFile| f@) =~= Seq::<Seq<char>>::empty());
            assert(r@ =~= Set::<Seq<char>>::empty());
        }
        r
    }

    /// Number of selected pages.
    pub fn len(&self) -> (r: usize)
        requires
            self.wf(),
        ensures
            r == self@.len(),
    {
        proof {
            self.files@.map_values(|f: PageFile| f@).unique_seq_to_set();
        }
        self.files.len()
    }

    /// Whether a page file is selected.
    pub fn contains(&self, file: &PageFile) -> (r: bool)
        ensures
            r == self@.contains(file@),
    {
        let ghost fv = self.files@.map_values(|f: PageFile| f@);
        let mut i: usize = 0;
        while i < self.files.len()
            invariant
                i <= self.files@.len(),
                fv == self.files@.map_values(|f: PageFile| f@),
                forall|j: int| 0 <= j < i ==> fv[j] != file@,
            decreases self.files@.len() - i,
        {
            if str_eq(self.files[i].as_path(), file.as_path()) {
                proof {
                    assert(fv[i as int] == file@);
                }
                return true;
            }
            i += 1;
        }
        proof {
            if self@.contains(file@) {
                let k = choose|k: int| 0 <= k < fv.len() && fv[k] == file@;
            }
        }
        false
    }

    /// Add a page file (once).
    pub fn insert(&mut self, file: PageFile)
        requires
            old(self).wf(),
        ensures
            final(self).wf(),
            final(self)@ == old(self)@.insert(file@),
    {
        if self.contains(&file) {
            proof {
                assert(old(self)@.insert(file@) =~= old(self)@);
            }
            return;
        }
        let ghost fv = self.files@.map_values(|f: PageFile| f@);
        let ghost x = file@;
        self.files.push(file);
        proof {
            assert(self.files@.map_values(|f: PageFile| f@) =~= fv.push(x));
            lemma_push_to_set(fv, x);
            assert(!fv.contains(x));
        }
    }
}

/// Result of mapping changed source paths onto pages.
#[derive(Debug, Clone)]
pub enum PageRebuildSelection {
    Selected(PageSelection),
    RequiresFullBuild,
}

/// A changed path that a page-only rebuild can handle: it exists, it is an
/// `index.html`, and it is one of the discovered pages.
pub open spec fn page_edit(c: (Seq<char>, bool), pages: Seq<Seq<char>>) -> bool {
    c.1 && file_name_spec(c.0) == Some("index.html"@) && pages.contains(c.0)
}

/// The page files to re-emit, when every change is a page edit.
pub open spec fn selection_spec(c: Seq<(Seq<char>, bool)>, pages: Seq<Seq<char>>) -> Option<Set<Seq<char>>> {
    if c.len() > 0 && forall|i: int| 0 <= i < c.len() ==> page_edit(#[trigger] c[i], pages) {
        Some(c.map_values(|x: (Seq<char>, bool)| x.0).to_set())
    } else {
        None
    }
}

pub open spec fn page_views(p: Seq<PageFile>) -> Seq<Seq<char>> {
    p.map_values(|f: PageFile| f@)
}

/// Map changed paths onto pages (see [`selection_spec`]).
pub fn selected_changed_pages(changed: &[ChangedPath], pages: &[PageFile]) -> (r: PageRebuildSelection)
    ensures
        match r {
            PageRebuildSelection::Selected(s) => s.wf() && selection_spec(changed_views(changed@), page_views(pages@)) == Some(s@),
            PageRebuildSelection::RequiresFullBuild => selection_spec(changed_views(changed@), page_views(pages@)) is None,
        },
{
    let ghost cv = changed_views(changed@);
    let ghost pv = page_views(pages@);
    let mut selected = PageSelection::new();
    let mut i: usize = 0;
    proof {
        assert(cv.take(0).map_values(|x: (Seq<char>, bool)| x.0).to_set() =~= Set::<Seq<char>>::empty());
    }
    while i < changed.len()
        invariant
            i <= changed@.len(),
            cv == changed_views(changed@),
            pv == page_views(pages@),
            selected.wf(),
            selected@ == cv.take(i as int).map_values(|x: (Seq<char>, bool)| x.0).to_set(),
            forall|j: int| 0 <= j < i ==> page_edit(#[trigger] cv[j], pv),
        decreases changed@.len() - i,
    {
        let c = &changed[i];
        proof {
            assert(cv[i as int] == (c.path@, c.exists));
        }
        if !c.exists {
            return PageRebuildSelection::RequiresFullBuild;
        }
        let is_index = match file_name(c.path.as_str()) {
            Some(n) => str_eq(n.as_str(), "index.html"),
            None => false,
        };
        if !is_index {
            return PageRebuildSelection::RequiresFullBuild;
        }
        let mut k: usize = 0;
        let mut found: Option<usize> = None;
        while k < pages.len()
            invariant
                k <= pages@.len(),
                pv == page_views(pages@),
                found matches Some(m) ==> m < pages@.len() && pv[m as int] == c.path@,
                found is None ==> forall|j: int| 0 <= j < k ==> pv[j] != c.path@,
            decreases pages@.len() - k,
        {
            if found.is_none() && str_eq(pages[k].as_path(), c.path.as_str()) {
                found = Some(k);
            }
            k += 1;
        }
        match found {
            None => {
                proof {
                    if pv.contains(c.path@) {
                        let w = choose|w: int| 0 <= w < pv.len() && pv[w] == c.path@;
                    }
                }
                return PageRebuildSelection::RequiresFullBuild;
            },
            Some(m) => {
                proof {
                    assert(pv.contains(c.path@));
                    assert(page_edit(cv[i as int], pv));
                }
                selected.insert(PageFile::new(String::from_str(pages[m].as_path())));
                proof {
                    assert(cv.take(i + 1).map_values(|x: (Seq<char>, bool)| x.0) =~= cv.take(i as int).map_values(|x: (Seq<char>, bool)| x.0).push(c.path@));
                    lemma_push_to_set(cv.take(i as int).map_values(|x: (Seq<char>, bool)| x.0), c.path@);
                }
            },
        }
        i += 1;
    }
    proof {
        assert(cv.take(changed@.len() as int) =~= cv);
    }
    if changed.len() == 0 {
        PageRebuildSelection::RequiresFullBuild
    } else {
        PageRebuildSelection::Selected(selected)
    }
}

/// What a rebuild does.
#[derive(Debug, Clone)]
pub enum RebuildPlan {
    /// All watched changes were ignored; the existing output remains valid.
    Noop,
    /// Run the complete pipeline, cleaning first when `clean`.
    Full { clean: bool },
    /// Re-emit exactly these page source files.
    SelectedPages(PageSelection),
}

pub enum PlanView {
    Noop,
    Full(bool),
    Selected(Set<Seq<char>>),
}

impl View for RebuildPlan {
    type V = PlanView;

    open spec fn view(&self) -> PlanView {
        match self {
            RebuildPlan::Noop => PlanView::Noop,
            RebuildPlan::Full { clean } => PlanView::Full(*clean),
            RebuildPlan::SelectedPages(s) => PlanView::Selected(s@),
        }
    }
}

/// Some meaningful change no longer exists.
pub open spec fn any_missing(c: Seq<(Seq<char>, bool)>) -> bool {
    exists|i: int| 0 <= i < c.len() && !(#[trigger] c[i]).1
}

/// The rebuild for `changed_count` watched changes of which `meaningful`
/// matter: no changes at all → full clean build; only ignored changes → no
/// work; page edits (when eligible) → those pages; otherwise a full build
/// that cleans when an input disappeared.
pub open spec fn plan_spec(changed_count: nat, meaningful: Seq<(Seq<char>, bool)>, eligible: bool, pages: Seq<Seq<char>>) -> PlanView {
    if meaningful.len() == 0 {
        if changed_count == 0 {
            PlanView::Full(true)
        } else {
            PlanView::Noop
        }
    } else if eligible {
        match selection_spec(meaningful, pages) {
            Some(s) => PlanView::Selected(s),
            None => PlanView::Full(any_missing(meaningful)),
        }
    } else {
        PlanView::Full(any_missing(meaningful))
    }
}

/// Pages are discovered only when a page-only rebuild is possible.
pub fn needs_page_discovery(meaningful: &[ChangedPath], eligibility: PageRebuildEligibility) -> (r: bool)
    ensures
        r == (meaningful@.len() > 0 && eligibility == PageRebuildEligibility::Eligible),
{
    meaningful.len() > 0 && eligibility == PageRebuildEligibility::Eligible
}

fn any_missing_exec(c: &[ChangedPath]) -> (r: bool)
    ensures
        r == any_missing(changed_views(c@)),
{
    let ghost cv = changed_views(c@);
    let mut i: usize = 0;
    while i < c.len()
        invariant
            i <= c@.len(),
            cv == changed_views(c@),
            forall|j: int| 0 <= j < i ==> (#[trigger] cv[j]).1,
        decreases c@.len() - i,
    {
        if !c[i].exists {
            proof {
                assert(!cv[i as int].1);
            }
            return true;
        }
        i += 1;
    }
    false
}

/// Decide the rebuild (see [`plan_spec`]); `pages` is only read when
/// [`needs_page_discovery`] holds.
pub fn plan_rebuild(
    changed_count: usize,
    meaningful: &[ChangedPath],
    eligibility: PageRebuildEligibility,
    pages: &[PageFile],
) -> (r: RebuildPlan)
    ensures
        r@ == plan_spec(
            changed_count as nat,
            changed_views(meaningful@),
            eligibility == PageRebuildEligibility::Eligible,
            page_views(pages@),
        ),
{
    if meaningful.len() == 0 {
        if changed_count == 0 {
            return RebuildPlan::Full { clean: true };
        }
        return RebuildPlan::Noop;
    }
    match eligibility {
        PageRebuildEligibility::Eligible => match selected_changed_pages(meaningful, pages) {
            PageRebuildSelection::Selected(s) => RebuildPlan::SelectedPages(s),
            PageRebuildSelection::RequiresFullBuild => RebuildPlan::Full { clean: any_missing_exec(meaningful) },
        },
        PageRebuildEligibility::RequiresFullBuild => RebuildPlan::Full { clean: any_missing_exec(meaningful) },
    }
}

/// Which page sources a build pass emits.
#[derive(Debug, Clone)]
pub enum BuildScope {
    Full,
    SelectedPages(PageSelection),
}

impl BuildScope {
    pub fn is_full(&self) -> (r: bool)
        ensures
            r == (self is Full),
    {
        match self {
            BuildScope::Full => true,
            BuildScope::SelectedPages(_) => false,
        }
    }

    pub fn contains_page(&self, file: &PageFile) -> (r: bool)
        ensures
            r == match self {
                BuildScope::Full => true,
                BuildScope::SelectedPages(s) => s@.contains(file@),
            },
    {
        match self {
            BuildScope::Full => true,
            BuildScope::SelectedPages(s) => s.contains(file),
        }
    }

    /// `N sources`, plus `, M selected` for a page-only pass.
    pub fn discover_detail(&self, sources: usize) -> (r: String)
        requires
            self matches BuildScope::SelectedPages(s) ==> s.wf(),
        ensures
            r@ == match self {
                BuildScope::Full => decimal(sources as nat) + " sources"@,
                BuildScope::SelectedPages(s) => decimal(sources as nat) + " sources"@ + ", "@ + decimal(s@.len()) + " selected"@,
            },
    {
        let mut out = usize_to_string(sources);
        out.append(" sources");
        match self {
            BuildScope::Full => {},
            BuildScope::SelectedPages(s) => {
                let ghost before = out@;
                let n = usize_to_string(s.len());
                out.append(", ");
                out.append(n.as_str());
                out.append(" selected");
                proof {
                    assert(out@ =~= before + ", "@ + n@ + " selected"@);
                }
            },
        }
        out
    }
}


/// Changes that are all ignored need no work; no reported change at all
/// rebuilds everything from a clean output.
pub proof fn law_ignored_changes_are_noops(changed_count: nat, eligible: bool, pages: Seq<Seq<char>>)
    ensures
        changed_count > 0 ==> plan_spec(changed_count, Seq::empty(), eligible, pages) == PlanView::Noop,
        plan_spec(0, Seq::empty(), eligible, pages) == PlanView::Full(true),
{
}

/// Edits of existing page files re-emit exactly those pages when the
/// configuration allows page-only rebuilds.
pub proof fn law_page_edits_select_pages(changed_count: nat, meaningful: Seq<(Seq<char>, bool)>, pages: Seq<Seq<char>>)
    requires
        meaningful.len() > 0,
        forall|i: int| 0 <= i < meaningful.len() ==> page_edit(#[trigger] meaningful[i], pages),
    ensures
        plan_spec(changed_count, meaningful, true, pages) == PlanView::Selected(
            meaningful.map_values(|x: (Seq<char>, bool)| x.0).to_set(),
        ),
{
}

/// With minify or asset processing on, a meaningful change always rebuilds
/// the whole site, never a page-only rebuild, and cleans the output first
/// exactly when a changed input no longer exists.
pub proof fn law_global_processing_forces_full_rebuild(
    minify_enabled: bool,
    process_enabled: bool,
    changed_count: nat,
    meaningful: Seq<(Seq<char>, bool)>,
    pages: Seq<Seq<char>>,
)
    requires
        minify_enabled || process_enabled,
        meaningful.len() > 0,
    ensures
        plan_spec(
            changed_count,
            meaningful,
            (if minify_enabled || process_enabled {
                PageRebuildEligibility::RequiresFullBuild
            } else {
                PageRebuildEligibility::Eligible
            }) == PageRebuildEligibility::Eligible,
            pages,
        ) == PlanView::Full(any_missing(meaningful)),
{
}

} // verus!
