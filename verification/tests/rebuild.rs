use statica::build::rebuild::{
    changed_path_kind, meaningful_changed_paths, needs_page_discovery, page_rebuild_eligibility,
    plan_rebuild, selected_changed_pages, BuildScope, ChangedPath, ChangedPathKind,
    PageRebuildEligibility, PageRebuildSelection, PageSelection, RebuildPlan,
};
use statica::discover::PageFile;

fn changed(p: &str, exists: bool) -> ChangedPath {
    ChangedPath { path: p.into(), exists }
}

#[test]
fn output_and_target_changes_are_ignored() {
    assert_eq!(changed_path_kind("/site/.dist", "/site/.dist/index.html"), ChangedPathKind::Ignored);
    assert_eq!(changed_path_kind("/site/.dist", "/site/.distx/a.html"), ChangedPathKind::Meaningful);
    assert_eq!(changed_path_kind("/site/.dist", "/site/target/debug/x"), ChangedPathKind::Ignored);
    assert_eq!(changed_path_kind("/site/.dist", "/site/posts/index.html"), ChangedPathKind::Meaningful);
}

#[test]
fn plans_follow_the_changes() {
    let pages = vec![PageFile::new("/site/index.html".into()), PageFile::new("/site/posts/index.html".into())];
    let all = vec![changed("/site/.dist/x.html", true)];
    let m = meaningful_changed_paths("/site/.dist", &all);
    assert!(m.is_empty());
    assert!(matches!(plan_rebuild(all.len(), &m, PageRebuildEligibility::Eligible, &pages), RebuildPlan::Noop));
    assert!(matches!(plan_rebuild(0, &[], PageRebuildEligibility::Eligible, &pages), RebuildPlan::Full { clean: true }));

    let edit = vec![changed("/site/posts/index.html", true)];
    let m = meaningful_changed_paths("/site/.dist", &edit);
    assert!(needs_page_discovery(&m, PageRebuildEligibility::Eligible));
    match plan_rebuild(edit.len(), &m, PageRebuildEligibility::Eligible, &pages) {
        RebuildPlan::SelectedPages(s) => {
            assert_eq!(s.len(), 1);
            assert!(s.contains(&PageFile::new("/site/posts/index.html".into())));
            assert!(!s.contains(&PageFile::new("/site/index.html".into())));
        }
        _ => panic!("expected a page rebuild"),
    }

    let css = vec![changed("/site/app.css", true), changed("/site/old.css", false)];
    let m = meaningful_changed_paths("/site/.dist", &css);
    assert!(matches!(plan_rebuild(css.len(), &m, PageRebuildEligibility::Eligible, &pages), RebuildPlan::Full { clean: true }));
    let edit_full = page_rebuild_eligibility(true, false);
    assert_eq!(edit_full, PageRebuildEligibility::RequiresFullBuild);
    let m = meaningful_changed_paths("/site/.dist", &edit);
    assert!(!needs_page_discovery(&m, edit_full));
    assert!(matches!(plan_rebuild(edit.len(), &m, edit_full, &pages), RebuildPlan::Full { clean: false }));
}

#[test]
fn unknown_page_requires_full_build() {
    let pages = vec![PageFile::new("/site/index.html".into())];
    let edit = vec![changed("/site/new/index.html", true)];
    assert!(matches!(selected_changed_pages(&edit, &pages), PageRebuildSelection::RequiresFullBuild));
    assert!(matches!(selected_changed_pages(&[], &pages), PageRebuildSelection::RequiresFullBuild));
}

#[test]
fn build_scope_details() {
    let mut s = PageSelection::new();
    s.insert(PageFile::new("/a/index.html".into()));
    s.insert(PageFile::new("/a/index.html".into()));
    assert_eq!(s.len(), 1);
    let scope = BuildScope::SelectedPages(s);
    assert!(!scope.is_full());
    assert_eq!(scope.discover_detail(7), "7 sources, 1 selected");
    assert!(scope.contains_page(&PageFile::new("/a/index.html".into())));
    assert_eq!(BuildScope::Full.discover_detail(3), "3 sources");
    assert!(BuildScope::Full.contains_page(&PageFile::new("/x".into())));
}
