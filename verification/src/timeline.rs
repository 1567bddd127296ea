//! The timeline of a store: summaries of its records, newest first.

use vstd::prelude::*;

use crate::models::{TimelineEntry, TimelineEntryView};

verus! {

/// Whether a timestamp lies within the bounds, both inclusive, where one is
/// given.
pub open spec fn in_range(ts: i64, from: Option<i64>, to: Option<i64>) -> bool {
    &&& from matches Some(f) ==> f <= ts
    &&& to matches Some(t) ==> ts <= t
}

/// Whether a timestamp lies within the bounds.
pub fn within(ts: i64, from: Option<i64>, to: Option<i64>) -> (r: bool)
    ensures
        r == in_range(ts, from, to),
{
    let after_start = match from {
        Some(f) => f <= ts,
        None => true,
    };
    let before_end = match to {
        Some(t) => ts <= t,
        None => true,
    };
    after_start && before_end
}

/// The contents of a list of timeline entries.
pub open spec fn timeline_view(entries: Seq<TimelineEntry>) -> Seq<TimelineEntryView> {
    entries.map_values(|e: TimelineEntry| e@)
}

/// A timeline with one more entry, which was committed after all that are
/// in it: it stands before the first entry that is not newer than it.
pub open spec fn placed(timeline: Seq<TimelineEntryView>, entry: TimelineEntryView) -> Seq<
    TimelineEntryView,
>
    decreases timeline.len(),
{
    if timeline.len() == 0 || timeline[0].timestamp <= entry.timestamp {
        seq![entry] + timeline
    } else {
        seq![timeline[0]] + placed(timeline.drop_first(), entry)
    }
}

/// Whether a timeline runs from the newest entry to the oldest.
pub open spec fn newest_first(timeline: Seq<TimelineEntryView>) -> bool {
    forall|i: int, j: int|
        0 <= i < j < timeline.len() ==> (#[trigger] timeline[i]).timestamp >= (
        #[trigger] timeline[j]).timestamp
}

/// Placing an entry puts it at the position before which every entry is
/// newer and at which none is.
pub proof fn lemma_placed_at(timeline: Seq<TimelineEntryView>, entry: TimelineEntryView, p: int)
    requires
        0 <= p <= timeline.len(),
        forall|k: int| 0 <= k < p ==> (#[trigger] timeline[k]).timestamp > entry.timestamp,
        p < timeline.len() ==> timeline[p].timestamp <= entry.timestamp,
    ensures
        placed(timeline, entry) == timeline.insert(p, entry),
    decreases p,
{
    if p == 0 {
        assert(seq![entry] + timeline =~= timeline.insert(0, entry));
    } else {
        assert(timeline[0].timestamp > entry.timestamp);
        let rest = timeline.drop_first();
        assert forall|k: int| 0 <= k < p - 1 implies (#[trigger] rest[k]).timestamp
            > entry.timestamp by {
            assert(rest[k] == timeline[k + 1]);
        }
        if p - 1 < rest.len() {
            assert(rest[p - 1] == timeline[p]);
        }
        lemma_placed_at(rest, entry, p - 1);
        assert(seq![timeline[0]] + rest.insert(p - 1, entry) =~= timeline.insert(p, entry));
    }
}

/// Placing an entry keeps a timeline in order, adds the entry and keeps all
/// the others.
pub proof fn lemma_placed(timeline: Seq<TimelineEntryView>, entry: TimelineEntryView)
    requires
        newest_first(timeline),
    ensures
        newest_first(placed(timeline, entry)),
        placed(timeline, entry).len() == timeline.len() + 1,
        placed(timeline, entry).contains(entry),
        forall|e: TimelineEntryView|
            timeline.contains(e) ==> #[trigger] placed(timeline, entry).contains(e),
        forall|e: TimelineEntryView| #[trigger]
            placed(timeline, entry).contains(e) ==> e == entry || timeline.contains(e),
    decreases timeline.len(),
{
    let out = placed(timeline, entry);
    if timeline.len() == 0 || timeline[0].timestamp <= entry.timestamp {
        assert(out[0] == entry);
        assert forall|i: int, j: int| 0 <= i < j < out.len() implies (#[trigger] out[i]).timestamp
            >= (#[trigger] out[j]).timestamp by {
            assert(out[j] == timeline[j - 1]);
            if i > 0 {
                assert(out[i] == timeline[i - 1]);
            } else {
                assert(timeline[0].timestamp >= timeline[j - 1].timestamp);
            }
        }
        assert forall|e: TimelineEntryView| timeline.contains(e) implies #[trigger] out.contains(
            e,
        ) by {
            let k = choose|k: int| 0 <= k < timeline.len() && timeline[k] == e;
            assert(out[k + 1] == e);
        }
        assert forall|e: TimelineEntryView| #[trigger] out.contains(e) implies e == entry
            || timeline.contains(e) by {
            let k = choose|k: int| 0 <= k < out.len() && out[k] == e;
            if k > 0 {
                assert(timeline[k - 1] == e);
            }
        }
    } else {
        let rest = timeline.drop_first();
        assert forall|i: int, j: int| 0 <= i < j < rest.len() implies (#[trigger] rest[i]).timestamp
            >= (#[trigger] rest[j]).timestamp by {
            assert(timeline[i + 1].timestamp >= timeline[j + 1].timestamp);
        }
        lemma_placed(rest, entry);
        let tail = placed(rest, entry);
        assert(out == seq![timeline[0]] + tail);
        assert forall|i: int, j: int| 0 <= i < j < out.len() implies (#[trigger] out[i]).timestamp
            >= (#[trigger] out[j]).timestamp by {
            assert(out[j] == tail[j - 1]);
            assert(tail.contains(tail[j - 1]));
            if i > 0 {
                assert(out[i] == tail[i - 1]);
            } else {
                if tail[j - 1] != entry {
                    assert(rest.contains(tail[j - 1]));
                    let k = choose|k: int| 0 <= k < rest.len() && rest[k] == tail[j - 1];
                    assert(timeline[0].timestamp >= timeline[k + 1].timestamp);
                }
            }
        }
        let k0 = choose|k: int| 0 <= k < tail.len() && tail[k] == entry;
        assert(out[k0 + 1] == entry);
        assert forall|e: TimelineEntryView| timeline.contains(e) implies #[trigger] out.contains(
            e,
        ) by {
            let k = choose|k: int| 0 <= k < timeline.len() && timeline[k] == e;
            if k == 0 {
                assert(out[0] == e);
            } else {
                assert(rest[k - 1] == e);
                assert(tail.contains(e));
                let m = choose|m: int| 0 <= m < tail.len() && tail[m] == e;
                assert(out[m + 1] == e);
            }
        }
        assert forall|e: TimelineEntryView| #[trigger] out.contains(e) implies e == entry
            || timeline.contains(e) by {
            let k = choose|k: int| 0 <= k < out.len() && out[k] == e;
            if k == 0 {
                assert(timeline[0] == e);
            } else {
                assert(tail[k - 1] == e);
                assert(tail.contains(e));
                if e != entry {
                    let m = choose|m: int| 0 <= m < rest.len() && rest[m] == e;
                    assert(timeline[m + 1] == e);
                }
            }
        }
    }
}

/// Puts an entry into a timeline that holds only entries committed before
/// it.
pub fn place(timeline: &mut Vec<TimelineEntry>, entry: TimelineEntry)
    ensures
        timeline_view(final(timeline)@) == placed(timeline_view(old(timeline)@), entry@),
{
    let ghost before = timeline_view(timeline@);
    let mut p: usize = 0;
    while p < timeline.len() && timeline[p].timestamp > entry.timestamp
        invariant
            p <= timeline.len(),
            before == timeline_view(timeline@),
            forall|k: int| 0 <= k < p ==> (#[trigger] before[k]).timestamp > entry.timestamp,
        decreases timeline.len() - p,
    {
        p = p + 1;
    }
    proof {
        lemma_placed_at(before, entry@, p as int);
    }
    timeline.insert(p, entry);
    assert(timeline_view(timeline@) =~= before.insert(p as int, entry@));
}

} // verus!
