//! The registry of known projects: which root each project id stands for,
//! and when it was last seen.

use vstd::prelude::*;

use crate::text::str_eq;

verus! {

/// The mathematical content of a [`ProjectEntry`].
pub struct ProjectEntryView {
    pub project_id: Seq<char>,
    pub path: Seq<char>,
    pub last_seen: i64,
}

/// One project of the registry. `last_seen` is in seconds since the epoch.
#[derive(Debug)]
pub struct ProjectEntry {
    pub project_id: String,
    pub path: String,
    pub last_seen: i64,
}

impl View for ProjectEntry {
    type V = ProjectEntryView;

    open spec fn view(&self) -> ProjectEntryView {
        ProjectEntryView {
            project_id: self.project_id@,
            path: self.path@,
            last_seen: self.last_seen,
        }
    }
}

impl Clone for ProjectEntry {
    fn clone(&self) -> (r: ProjectEntry)
        ensures
            r@ == self@,
    {
        ProjectEntry {
            project_id: self.project_id.clone(),
            path: self.path.clone(),
            last_seen: self.last_seen,
        }
    }
}

/// The contents of a list of registry entries.
pub open spec fn entries_view(entries: Seq<ProjectEntry>) -> Seq<ProjectEntryView> {
    entries.map_values(|e: ProjectEntry| e@)
}

/// The registry after a project was seen: its earlier entries are gone, and
/// a fresh one stands at the end.
pub open spec fn registry_touched(
    entries: Seq<ProjectEntryView>,
    seen: ProjectEntryView,
) -> Seq<ProjectEntryView> {
    entries.filter(|e: ProjectEntryView| e.project_id != seen.project_id).push(seen)
}

/// The first entry of a project, if it has one.
pub open spec fn first_entry_of(entries: Seq<ProjectEntryView>, project_id: Seq<char>) -> Option<
    ProjectEntryView,
>
    decreases entries.len(),
{
    if entries.len() == 0 {
        None
    } else if entries[0].project_id == project_id {
        Some(entries[0])
    } else {
        first_entry_of(entries.drop_first(), project_id)
    }
}

/// Looks a project up in the registry.
pub fn find_project_entry(entries: &[ProjectEntry], project_id: &str) -> (r: Option<ProjectEntry>)
    ensures
        match r {
            Some(e) => first_entry_of(entries_view(entries@), project_id@) == Some(e@),
            None => first_entry_of(entries_view(entries@), project_id@) is None,
        },
{
    let ghost all = entries_view(entries@);
    let mut i: usize = 0;
    assert(all.skip(0) == all);
    while i < entries.len()
        invariant
            i <= entries.len(),
            all == entries_view(entries@),
            first_entry_of(all, project_id@) == first_entry_of(all.skip(i as int), project_id@),
        decreases entries.len() - i,
    {
        assert(all.skip(i as int)[0] == entries@[i as int]@);
        assert(all.skip(i as int).drop_first() == all.skip(i + 1));
        if str_eq(entries[i].project_id.as_str(), project_id) {
            return Some(entries[i].clone());
        }
        i = i + 1;
    }
    None
}

/// Records that a project was seen at `now`: any earlier entry of it is
/// dropped, and a fresh entry is appended.
pub fn touch_registry(entries: Vec<ProjectEntry>, project_id: &str, path: &str, now: i64) -> (r:
    Vec<ProjectEntry>)
    ensures
        entries_view(r@) == registry_touched(
            entries_view(entries@),
            ProjectEntryView { project_id: project_id@, path: path@, last_seen: now },
        ),
{
    let ghost all = entries_view(entries@);
    let ghost keep = |e: ProjectEntryView| e.project_id != project_id@;
    let mut out: Vec<ProjectEntry> = Vec::new();
    let mut i: usize = 0;
    while i < entries.len()
        invariant
            i <= entries.len(),
            all == entries_view(entries@),
            keep == |e: ProjectEntryView| e.project_id != project_id@,
            entries_view(out@) == all.take(i as int).filter(keep),
        decreases entries.len() - i,
    {
        let ghost before = entries_view(out@);
        proof {
            assert(all.take(i + 1).drop_last() == all.take(i as int));
            assert(all.take(i + 1).last() == entries@[i as int]@);
            reveal(Seq::filter);
        }
        if !str_eq(entries[i].project_id.as_str(), project_id) {
            out.push(entries[i].clone());
            assert(entries_view(out@) =~= before.push(entries@[i as int]@));
        }
        i = i + 1;
    }
    assert(all.take(entries.len() as int) == all);
    let ghost before = entries_view(out@);
    out.push(ProjectEntry { project_id: project_id.to_owned(), path: path.to_owned(), last_seen: now });
    assert(entries_view(out@) =~= before.push(
        ProjectEntryView { project_id: project_id@, path: path@, last_seen: now },
    ));
    out
}

} // verus!
