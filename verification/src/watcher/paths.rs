//! From the paths that a batch of file-system events names to the set of
//! project files to look at.

use vstd::prelude::*;

use crate::ignore::{judged, IgnoreMatcher};
use crate::text::{
    lemma_str_less_irreflexive, lemma_str_less_total, lemma_str_less_transitive, str_eq, str_less,
    str_lt,
};
use crate::util::{path_relative, relative_path};

verus! {

/// The mathematical content of an [`EventPath`].
pub struct EventPathView {
    pub path: Seq<char>,
    pub is_dir: bool,
}

/// A path named by a file-system event, and whether a directory was found
/// there when the event arrived.
#[derive(Debug)]
pub struct EventPath {
    pub path: String,
    pub is_dir: bool,
}

impl View for EventPath {
    type V = EventPathView;

    open spec fn view(&self) -> EventPathView {
        EventPathView { path: self.path@, is_dir: self.is_dir }
    }
}

/// One file-system event: the paths it names.
#[derive(Debug)]
pub struct FsEvent {
    pub paths: Vec<EventPath>,
}

/// The contents of the paths of an event.
pub open spec fn event_paths_view(paths: Seq<EventPath>) -> Seq<EventPathView> {
    paths.map_values(|p: EventPath| p@)
}

impl View for FsEvent {
    type V = Seq<EventPathView>;

    open spec fn view(&self) -> Seq<EventPathView> {
        event_paths_view(self.paths@)
    }
}

/// The contents of a list of events.
pub open spec fn events_view(events: Seq<FsEvent>) -> Seq<Seq<EventPathView>> {
    events.map_values(|e: FsEvent| e@)
}

/// The contents of a list of paths.
pub open spec fn paths_view(paths: Seq<String>) -> Seq<Seq<char>> {
    paths.map_values(|p: String| p@)
}

/// Whether a list of paths is in strictly ascending order, and so holds no
/// path twice.
pub open spec fn strictly_sorted(paths: Seq<Seq<char>>) -> bool {
    forall|i: int, j: int|
        0 <= i < j < paths.len() ==> str_less(#[trigger] paths[i], #[trigger] paths[j])
}

/// The project file that an event path stands for: its path relative to
/// the root, unless it lies outside the root or the rules ignore it.
pub open spec fn candidate(ignore: &IgnoreMatcher, path: EventPathView) -> Option<Seq<char>> {
    match path_relative(ignore.root_view(), path.path) {
        Some(relative) => if judged(relative) && ignore.ignores(relative, path.is_dir) {
            None
        } else {
            Some(relative)
        },
        None => None,
    }
}

/// The project files that the paths of one event stand for.
pub open spec fn candidates_of_paths(ignore: &IgnoreMatcher, paths: Seq<EventPathView>) -> Set<
    Seq<char>,
>
    decreases paths.len(),
{
    if paths.len() == 0 {
        Set::empty()
    } else {
        let earlier = candidates_of_paths(ignore, paths.drop_last());
        match candidate(ignore, paths.last()) {
            Some(relative) => earlier.insert(relative),
            None => earlier,
        }
    }
}

/// The project files that a batch of events stands for.
pub open spec fn candidates_of(ignore: &IgnoreMatcher, events: Seq<Seq<EventPathView>>) -> Set<
    Seq<char>,
>
    decreases events.len(),
{
    if events.len() == 0 {
        Set::empty()
    } else {
        candidates_of(ignore, events.drop_last()).union(
            candidates_of_paths(ignore, events.last()),
        )
    }
}

/// Puts a path into a sorted list of paths, unless it is there.
pub fn insert_sorted(paths: &mut Vec<String>, path: String)
    requires
        strictly_sorted(paths_view(old(paths)@)),
    ensures
        strictly_sorted(paths_view(final(paths)@)),
        paths_view(final(paths)@).to_set() == paths_view(old(paths)@).to_set().insert(path@),
{
    let ghost before = paths_view(paths@);
    let mut p: usize = 0;
    while p < paths.len() && str_lt(paths[p].as_str(), path.as_str())
        invariant
            p <= paths.len(),
            before == paths_view(paths@),
            forall|k: int| 0 <= k < p ==> str_less(#[trigger] before[k], path@),
        decreases paths.len() - p,
    {
        p = p + 1;
    }
    if p < paths.len() && str_eq(paths[p].as_str(), path.as_str()) {
        assert(before[p as int] == path@);
        assert(before.to_set() =~= before.to_set().insert(path@));
        return ;
    }
    proof {
        assert forall|k: int| p <= k < before.len() implies str_less(path@, #[trigger] before[k]) by {
            lemma_str_less_total(before[p as int], path@);
            if k > p {
                lemma_str_less_transitive(path@, before[p as int], before[k]);
            }
        }
        assert forall|k: int| 0 <= k < before.len() implies #[trigger] before[k] != path@ by {
            lemma_str_less_irreflexive(path@);
        }
    }
    paths.insert(p, path);
    proof {
        let after = paths_view(paths@);
        assert(after =~= before.insert(p as int, path@));
        assert forall|i: int, j: int| 0 <= i < j < after.len() implies str_less(
            #[trigger] after[i],
            #[trigger] after[j],
        ) by {
            let i0 = if i < p { i } else { i - 1 };
            let j0 = if j < p { j } else { j - 1 };
            if i != p && j != p {
                assert(str_less(before[i0], before[j0]));
            }
        }
        assert forall|x: Seq<char>| after.to_set().contains(x) <==> before.to_set().insert(
            path@,
        ).contains(x) by {
            if after.contains(x) {
                let k = choose|k: int| 0 <= k < after.len() && after[k] == x;
                if k < p {
                    assert(before[k] == x);
                } else if k > p {
                    assert(before[k - 1] == x);
                }
            }
            if before.contains(x) {
                let k = choose|k: int| 0 <= k < before.len() && before[k] == x;
                if k < p {
                    assert(after[k] == x);
                } else {
                    assert(after[k + 1] == x);
                }
            }
            if x == path@ {
                assert(after[p as int] == x);
            }
        }
        assert(after.to_set() =~= before.to_set().insert(path@));
    }
}

/// The project files to look at after a batch of events: the relative path
/// of every path an event names below the root, unless the rules ignore it,
/// each once and in ascending order.
pub fn collect_paths(events: &[FsEvent], ignore: &IgnoreMatcher) -> (r: Vec<String>)
    requires
        ignore.wf(),
    ensures
        strictly_sorted(paths_view(r@)),
        paths_view(r@).to_set() == candidates_of(ignore, events_view(events@)),
{
    let ghost all = events_view(events@);
    let mut out: Vec<String> = Vec::new();
    let mut i: usize = 0;
    assert(paths_view(out@).to_set() =~= Set::empty());
    while i < events.len()
        invariant
            i <= events.len(),
            ignore.wf(),
            all == events_view(events@),
            strictly_sorted(paths_view(out@)),
            paths_view(out@).to_set() == candidates_of(ignore, all.take(i as int)),
        decreases events.len() - i,
    {
        let event = &events[i];
        let ghost named = event@;
        let ghost earlier = candidates_of(ignore, all.take(i as int));
        let mut j: usize = 0;
        assert(paths_view(out@).to_set() =~= earlier.union(
            candidates_of_paths(ignore, named.take(0)),
        ));
        while j < event.paths.len()
            invariant
                j <= event.paths.len(),
                ignore.wf(),
                named == event@,
                strictly_sorted(paths_view(out@)),
                paths_view(out@).to_set() == earlier.union(
                    candidates_of_paths(ignore, named.take(j as int)),
                ),
            decreases event.paths.len() - j,
        {
            let named_path = &event.paths[j];
            proof {
                assert(named.take(j + 1).drop_last() == named.take(j as int));
                assert(named.take(j + 1).last() == named_path@);
            }
            match relative_path(ignore.root(), named_path.path.as_str()) {
                Some(relative) => {
                    if !ignore.is_ignored_below(relative.as_str(), named_path.is_dir) {
                        insert_sorted(&mut out, relative);
                    }
                },
                None => {},
            }
            assert(paths_view(out@).to_set() =~= earlier.union(
                candidates_of_paths(ignore, named.take(j + 1)),
            ));
            j = j + 1;
        }
        proof {
            assert(named.take(event.paths.len() as int) == named);
            assert(all.take(i + 1).drop_last() == all.take(i as int));
            assert(all.take(i + 1).last() == named);
        }
        i = i + 1;
    }
    assert(all.take(events.len() as int) == all);
    out
}

} // verus!
