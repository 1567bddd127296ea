//! Line diffs of two texts, and the line statistics read off them.

use vstd::prelude::*;
use vstd::string::StringSliceAdditionalSpecFns;
use vstd::utf8::encode_utf8;

verus! {

/// What a line of a diff says about the line it carries.
#[derive(Clone, Copy, Debug, PartialEq, Eq, Structural)]
pub enum ChangeTag {
    Equal,
    Delete,
    Insert,
}

/// One line of a diff.
#[derive(Debug)]
pub struct LineChange {
    pub tag: ChangeTag,
    pub text: String,
}

/// The mathematical content of a [`LineChange`].
pub struct LineChangeView {
    pub tag: ChangeTag,
    pub text: Seq<char>,
}

impl View for LineChange {
    type V = LineChangeView;

    open spec fn view(&self) -> LineChangeView {
        LineChangeView { tag: self.tag, text: self.text@ }
    }
}

/// The contents of a list of line changes.
pub open spec fn changes_view(changes: Seq<LineChange>) -> Seq<LineChangeView> {
    changes.map_values(|c: LineChange| c@)
}

/// A line diff of two texts: every line with its tag, the number of diff
/// operations, and the unified diff under a pair of file labels.
pub struct LineDiff {
    pub changes: Vec<LineChange>,
    pub ops: usize,
    pub patch: String,
}

/// The changes that `similar::TextDiff::from_lines(old, new)` yields from
/// `iter_all_changes`, in order.
pub uninterp spec fn diff_changes(old: Seq<char>, new: Seq<char>) -> Seq<LineChangeView>;

/// The number of operations that `similar::TextDiff::from_lines(old, new)`
/// holds in `ops`.
pub uninterp spec fn diff_op_count(old: Seq<char>, new: Seq<char>) -> nat;

/// The text that `similar::TextDiff::from_lines(old, new)` prints as its
/// unified diff under the header `from`, `to`.
pub uninterp spec fn diff_unified(
    old: Seq<char>,
    new: Seq<char>,
    from: Seq<char>,
    to: Seq<char>,
) -> Seq<char>;

/// `similar::TextDiff::from_lines`, read three ways: `iter_all_changes` with
/// each change's tag and value, the length of `ops`, and
/// `unified_diff().header(from, to)` printed. With the default configuration
/// the diff has no deadline, so each is a function of the texts (and labels)
/// alone.
/// Every change carries one line of one of the two texts, and each line is
/// carried once: the deleted lines are lines of the old text and the
/// inserted lines are lines of the new, so that together they are no longer
/// than the text they come from.
#[verifier::external_body]
pub(crate) fn diff_lines(old: &str, new: &str, from: &str, to: &str) -> (d: LineDiff)
    ensures
        changes_view(d.changes@) == diff_changes(old@, new@),
        d.ops == diff_op_count(old@, new@),
        d.patch@ == diff_unified(old@, new@, from@, to@),
        tagged_bytes(changes_view(d.changes@), ChangeTag::Delete) <= encode_utf8(old@).len(),
        tagged_bytes(changes_view(d.changes@), ChangeTag::Insert) <= encode_utf8(new@).len(),
{
    let diff = similar::TextDiff::from_lines(old, new);
    let mut changes = Vec::new();
    for change in diff.iter_all_changes() {
        let tag = match change.tag() {
            similar::ChangeTag::Equal => ChangeTag::Equal,
            similar::ChangeTag::Delete => ChangeTag::Delete,
            similar::ChangeTag::Insert => ChangeTag::Insert,
        };
        changes.push(LineChange { tag, text: change.value().to_string() });
    }
    let patch = diff.unified_diff().header(from, to).to_string();
    LineDiff { changes, ops: diff.ops().len(), patch }
}

/// The number of line feeds among `bytes`.
pub open spec fn newline_count(bytes: Seq<u8>) -> nat
    decreases bytes.len(),
{
    if bytes.len() == 0 {
        0
    } else {
        newline_count(bytes.drop_last()) + if bytes.last() == 10u8 { 1nat } else { 0nat }
    }
}

/// The number of lines in a text given by its UTF-8 bytes: one for each line
/// feed, and one more for a last line that no line feed ends.
pub open spec fn line_count(bytes: Seq<u8>) -> nat {
    newline_count(bytes) + if bytes.len() > 0 && bytes.last() != 10u8 { 1nat } else { 0nat }
}

/// The number of lines carried by the changes with the given tag.
pub open spec fn tagged_lines(changes: Seq<LineChangeView>, tag: ChangeTag) -> nat
    decreases changes.len(),
{
    if changes.len() == 0 {
        0
    } else {
        tagged_lines(changes.drop_last(), tag) + if changes.last().tag == tag {
            line_count(encode_utf8(changes.last().text))
        } else {
            0nat
        }
    }
}

/// The number of bytes of text carried by the changes with the given tag.
pub open spec fn tagged_bytes(changes: Seq<LineChangeView>, tag: ChangeTag) -> nat
    decreases changes.len(),
{
    if changes.len() == 0 {
        0
    } else {
        tagged_bytes(changes.drop_last(), tag) + if changes.last().tag == tag {
            encode_utf8(changes.last().text).len()
        } else {
            0nat
        }
    }
}

/// A text has no more lines than bytes.
pub proof fn lemma_line_count_bound(bytes: Seq<u8>)
    ensures
        line_count(bytes) <= bytes.len(),
{
    lemma_newline_count_bound(bytes);
    if bytes.len() > 0 {
        lemma_newline_count_bound(bytes.drop_last());
    }
}

/// The changes with a tag carry no more lines than bytes.
pub proof fn lemma_tagged_lines_bound(changes: Seq<LineChangeView>, tag: ChangeTag)
    ensures
        tagged_lines(changes, tag) <= tagged_bytes(changes, tag),
    decreases changes.len(),
{
    if changes.len() > 0 {
        lemma_tagged_lines_bound(changes.drop_last(), tag);
        lemma_line_count_bound(encode_utf8(changes.last().text));
    }
}

/// A count of line feeds never exceeds the number of bytes.
pub proof fn lemma_newline_count_bound(bytes: Seq<u8>)
    ensures
        newline_count(bytes) <= bytes.len(),
    decreases bytes.len(),
{
    if bytes.len() > 0 {
        lemma_newline_count_bound(bytes.drop_last());
    }
}

/// Counts the lines of a text.
pub fn count_lines(text: &str) -> (n: usize)
    ensures
        n == line_count(text.spec_bytes()),
{
    let bytes = text.as_bytes();
    let len = bytes.len();
    if len == 0 {
        return 0;
    }
    let mut feeds: usize = 0;
    let mut i: usize = 0;
    while i < len
        invariant
            len == bytes@.len(),
            i <= len,
            feeds == newline_count(bytes@.take(i as int)),
            feeds <= i,
        decreases len - i,
    {
        assert(bytes@.take(i + 1).drop_last() == bytes@.take(i as int));
        if bytes[i] == 10u8 {
            feeds = feeds + 1;
        }
        i = i + 1;
    }
    assert(bytes@.take(len as int) == bytes@);
    if bytes[len - 1] != 10u8 {
        if feeds == len {
            // every byte is a line feed, the last one too
            proof {
                lemma_all_feeds_last(bytes@);
            }
        }
        feeds + 1
    } else {
        feeds
    }
}

/// Where every byte is a line feed, so is the last.
proof fn lemma_all_feeds_last(bytes: Seq<u8>)
    requires
        bytes.len() > 0,
        newline_count(bytes) == bytes.len(),
    ensures
        bytes.last() == 10u8,
{
    lemma_newline_count_bound(bytes.drop_last());
}

/// A count that is exact where it fits in `usize`, and absent where it does
/// not.
pub open spec fn counts(count: Option<usize>, lines: nat) -> bool {
    match count {
        Some(n) => n == lines,
        None => lines > usize::MAX,
    }
}

/// Adds the lines of one more change to a running count.
fn add_lines(count: Option<usize>, lines: usize) -> (r: Option<usize>)
    ensures
        forall|total: nat|
            #![trigger counts(count, total)]
            counts(count, total) ==> counts(r, (total + lines) as nat),
{
    match count {
        Some(n) => n.checked_add(lines),
        None => None,
    }
}

/// Counts the inserted and the deleted lines of a diff, in that order. A
/// count that does not fit in `usize` is `None`.
pub fn count_line_changes(changes: &Vec<LineChange>) -> (r: (Option<usize>, Option<usize>))
    ensures
        counts(r.0, tagged_lines(changes_view(changes@), ChangeTag::Insert)),
        counts(r.1, tagged_lines(changes_view(changes@), ChangeTag::Delete)),
{
    let ghost all = changes_view(changes@);
    let mut added: Option<usize> = Some(0);
    let mut removed: Option<usize> = Some(0);
    let mut i: usize = 0;
    while i < changes.len()
        invariant
            i <= changes.len(),
            all == changes_view(changes@),
            counts(added, tagged_lines(all.take(i as int), ChangeTag::Insert)),
            counts(removed, tagged_lines(all.take(i as int), ChangeTag::Delete)),
        decreases changes.len() - i,
    {
        proof {
            assert(all.take(i + 1).drop_last() == all.take(i as int));
            assert(all.take(i + 1).last() == changes@[i as int]@);
        }
        let change = &changes[i];
        let lines = count_lines(change.text.as_str());
        match change.tag {
            ChangeTag::Insert => {
                added = add_lines(added, lines);
            },
            ChangeTag::Delete => {
                removed = add_lines(removed, lines);
            },
            ChangeTag::Equal => {},
        }
        i = i + 1;
    }
    assert(all.take(changes.len() as int) == all);
    (added, removed)
}

} // verus!
