//! What the commands decide, apart from what they read and print.

use vstd::prelude::*;
use vstd::string::StringExecFns;

use crate::models::{FileRecord, FileRecordView};
use crate::text::{
    contains_text, occurs_at, str_contains, str_split_once, str_strip_prefix, str_strip_suffix,
};

verus! {

/// The first position from `from` on at which `sep` stands in `s`.
pub open spec fn find_from(s: Seq<char>, sep: Seq<char>, from: int) -> Option<int>
    decreases s.len() - from,
{
    if from < 0 || from + sep.len() > s.len() {
        None
    } else if occurs_at(s, sep, from) {
        Some(from)
    } else if from >= s.len() {
        None
    } else {
        find_from(s, sep, from + 1)
    }
}

/// The parts of `s` between the places at which `sep` stands, found from
/// left to right.
pub open spec fn sections(s: Seq<char>, sep: Seq<char>) -> Seq<Seq<char>>
    decreases s.len(),
{
    match find_from(s, sep, 0) {
        Some(i) => if 0 <= i && i + sep.len() <= s.len() && sep.len() > 0 {
            seq![s.take(i)] + sections(s.skip(i + sep.len()), sep)
        } else {
            seq![s]
        },
        None => seq![s],
    }
}

/// The parts joined again, with `sep` between them.
pub open spec fn joined(parts: Seq<Seq<char>>, sep: Seq<char>) -> Seq<char>
    decreases parts.len(),
{
    if parts.len() == 0 {
        Seq::empty()
    } else if parts.len() == 1 {
        parts[0]
    } else {
        joined(parts.drop_last(), sep) + sep + parts.last()
    }
}

/// Whether a section of a patch is about a file: it names the file as its
/// old or its new side.
pub open spec fn mentions_file(section: Seq<char>, file: Seq<char>) -> bool {
    contains_text(section, "a/"@ + file) || contains_text(section, "b/"@ + file)
}

/// The sections of a record's patch that are about one file, joined by
/// empty lines as they were.
pub open spec fn patch_for_file(patch: Seq<char>, file: Seq<char>) -> Seq<char> {
    joined(
        sections(patch, "\n\n"@).filter(|section: Seq<char>| mentions_file(section, file)),
        "\n\n"@,
    )
}

/// Where `sep` stands at `i` and nowhere before, from the position `from`
/// on the first place found is `i`.
proof fn lemma_find_from(s: Seq<char>, sep: Seq<char>, from: int, i: int)
    requires
        0 <= from <= i,
        occurs_at(s, sep, i),
        forall|j: int| 0 <= j < i ==> !occurs_at(s, sep, j),
    ensures
        find_from(s, sep, from) == Some(i),
    decreases i - from,
{
    if from < i {
        lemma_find_from(s, sep, from + 1, i);
    }
}

/// Where `sep` stands nowhere, no place is found.
proof fn lemma_find_none(s: Seq<char>, sep: Seq<char>, from: int)
    requires
        !contains_text(s, sep),
    ensures
        find_from(s, sep, from) is None,
    decreases s.len() - from,
{
    if !(from < 0 || from + sep.len() > s.len()) {
        assert(!occurs_at(s, sep, from));
        if from < s.len() {
            lemma_find_none(s, sep, from + 1);
        }
    }
}

/// Keeps the sections of a record's patch that are about `file`.
pub fn filter_patch_for_file(patch: &str, file: &str) -> (r: String)
    ensures
        r@ == patch_for_file(patch@, file@),
{
    let old_side = "a/".to_owned().concat(file);
    let new_side = "b/".to_owned().concat(file);
    let sep = "\n\n";
    proof {
        reveal_strlit("\n\n");
    }
    let ghost keep = |section: Seq<char>| mentions_file(section, file@);
    let ghost mut done: Seq<Seq<char>> = Seq::empty();
    let mut out = String::new();
    let mut any = false;
    let mut rest = patch;
    let mut open = true;
    assert(done + sections(rest@, sep@) =~= sections(patch@, sep@));
    while open
        invariant
            sep@.len() == 2,
            sep@ == "\n\n"@,
            old_side@ == "a/"@ + file@,
            new_side@ == "b/"@ + file@,
            keep == |section: Seq<char>| mentions_file(section, file@),
            open ==> done + sections(rest@, sep@) == sections(patch@, sep@),
            !open ==> done == sections(patch@, sep@),
            out@ == joined(done.filter(keep), sep@),
            any == (done.filter(keep).len() > 0),
        decreases
            if open { 1 + rest@.len() } else { 0 },
    {
        let (section, tail) = match str_split_once(rest, sep) {
            Some((head, tail)) => {
                proof {
                    let i = head@.len() as int;
                    assert(rest@.subrange(i, i + 2) =~= sep@);
                    lemma_find_from(rest@, sep@, 0, i);
                    assert(rest@.take(i) =~= head@);
                    assert(rest@.skip(i + 2) =~= tail@);
                    assert(done.push(head@) + sections(tail@, sep@) =~= done + sections(
                        rest@,
                        sep@,
                    ));
                }
                (head, Some(tail))
            },
            None => {
                proof {
                    lemma_find_none(rest@, sep@, 0);
                    assert(done.push(rest@) =~= done + sections(rest@, sep@));
                }
                (rest, None)
            },
        };
        let ghost before = done.filter(keep);
        proof {
            reveal(Seq::filter);
            assert(done.push(section@).drop_last() =~= done);
            done = done.push(section@);
        }
        if str_contains(section, old_side.as_str()) || str_contains(section, new_side.as_str()) {
            assert(done.filter(keep) == before.push(section@));
            assert(before.push(section@).drop_last() =~= before);
            if any {
                out.append(sep);
            }
            out.append(section);
            any = true;
        } else {
            assert(done.filter(keep) == before);
        }
        match tail {
            Some(tail) => {
                rest = tail;
            },
            None => {
                open = false;
            },
        }
    }
    out
}

/// How a watcher is to be run.
#[derive(Clone, Copy, Debug, PartialEq, Eq, Structural)]
pub enum WatchMode {
    /// Start the watcher as a background process and return.
    Daemon,
    /// Watch in this process until interrupted.
    Foreground,
}

/// How `watch` is to run: in the background where a daemon is asked for,
/// unless this process is that daemon.
pub fn watch_mode(daemon: bool, foreground: bool) -> (mode: WatchMode)
    ensures
        mode == if daemon && !foreground {
            WatchMode::Daemon
        } else {
            WatchMode::Foreground
        },
{
    if daemon && !foreground {
        WatchMode::Daemon
    } else {
        WatchMode::Foreground
    }
}

/// What `stop` does about a project's lock.
#[derive(Clone, Copy, Debug, PartialEq, Eq, Structural)]
pub enum StopDecision {
    /// There is no lock: nothing to stop.
    NoWatcher,
    /// The owner runs: ask it to terminate, then remove the lock.
    Terminate(i32),
    /// The owner is gone and the lock is to stay.
    KeepStale(i32),
    /// The owner is gone: remove the lock.
    ClearStale(i32),
}

/// Decides what `stop` does: a running owner is asked to terminate; the
/// lock of a dead owner is removed only where that is forced.
pub fn decide_stop(owner: Option<i32>, owner_alive: bool, force: bool) -> (d: StopDecision)
    ensures
        d == match owner {
            None => StopDecision::NoWatcher,
            Some(pid) => if owner_alive {
                StopDecision::Terminate(pid)
            } else if force {
                StopDecision::ClearStale(pid)
            } else {
                StopDecision::KeepStale(pid)
            },
        },
{
    match owner {
        None => StopDecision::NoWatcher,
        Some(pid) => if owner_alive {
            StopDecision::Terminate(pid)
        } else if force {
            StopDecision::ClearStale(pid)
        } else {
            StopDecision::KeepStale(pid)
        },
    }
}

/// Whether a watcher counts as running: there is a lock and its owner is
/// alive.
pub fn is_watching(owner: Option<i32>, owner_alive: bool) -> (r: bool)
    ensures
        r == (owner is Some && owner_alive),
{
    owner.is_some() && owner_alive
}

/// The mathematical content of a [`RestoreAction`].
pub enum RestoreActionView {
    Write { path: Seq<char>, sha: Seq<char> },
    Remove { path: Seq<char> },
}

/// What restoring a record does to one of its files.
#[derive(Debug)]
pub enum RestoreAction {
    /// Write the blob with this hash to the path.
    Write { path: String, sha: String },
    /// Remove the file at the path, if there is one.
    Remove { path: String },
}

impl View for RestoreAction {
    type V = RestoreActionView;

    open spec fn view(&self) -> RestoreActionView {
        match self {
            RestoreAction::Write { path, sha } => RestoreActionView::Write {
                path: path@,
                sha: sha@,
            },
            RestoreAction::Remove { path } => RestoreActionView::Remove { path: path@ },
        }
    }
}

/// What restoring a record does to a file: it gets the content of its
/// after-hash, or is removed where it has none.
pub open spec fn restore_of(file: FileRecordView) -> RestoreActionView {
    match file.after_sha {
        Some(sha) => RestoreActionView::Write { path: file.path, sha },
        None => RestoreActionView::Remove { path: file.path },
    }
}

/// What restoring a record does to one of its files.
pub fn restore_action(file: &FileRecord) -> (action: RestoreAction)
    ensures
        action@ == restore_of(file@),
{
    match &file.after_sha {
        Some(sha) => RestoreAction::Write { path: file.path.clone(), sha: sha.clone() },
        None => RestoreAction::Remove { path: file.path.clone() },
    }
}

/// How a line of a patch is shown.
#[derive(Clone, Copy, Debug, PartialEq, Eq, Structural)]
pub enum LineKind {
    /// An added line.
    Added,
    /// A removed line.
    Removed,
    /// A header or a line of context.
    Plain,
}

/// Whether a text begins with another.
pub open spec fn begins_with(line: Seq<char>, prefix: Seq<char>) -> bool {
    prefix.is_prefix_of(line)
}

/// What a line of a patch is: added where it begins with one `+` but not
/// with the `+++` of a header, removed where it begins with one `-` but
/// not with `---`.
pub open spec fn kind_of_line(line: Seq<char>) -> LineKind {
    if begins_with(line, "+"@) && !begins_with(line, "+++"@) {
        LineKind::Added
    } else if begins_with(line, "-"@) && !begins_with(line, "---"@) {
        LineKind::Removed
    } else {
        LineKind::Plain
    }
}

/// Whether `line` begins with `prefix`.
fn starts_with(line: &str, prefix: &str) -> (r: bool)
    ensures
        r == begins_with(line@, prefix@),
{
    match str_strip_prefix(line, prefix) {
        Some(rest) => {
            assert(prefix@.is_prefix_of(line@));
            true
        },
        None => false,
    }
}

/// Tells the added and removed lines of a patch from its headers and its
/// context.
pub fn classify_patch_line(line: &str) -> (kind: LineKind)
    ensures
        kind == kind_of_line(line@),
{
    if starts_with(line, "+") && !starts_with(line, "+++") {
        LineKind::Added
    } else if starts_with(line, "-") && !starts_with(line, "---") {
        LineKind::Removed
    } else {
        LineKind::Plain
    }
}

/// `nu_ansi_term::Color::Green.paint`, printed: the line between the code
/// that switches to green and the code that resets the terminal.
#[verifier::external_body]
fn paint_green(line: &str) -> (s: String)
    ensures
        s@ == "\x1b[32m"@ + line@ + "\x1b[0m"@,
{
    nu_ansi_term::Color::Green.paint(line).to_string()
}

/// `nu_ansi_term::Color::Red.paint`, printed: the line between the code
/// that switches to red and the code that resets the terminal.
#[verifier::external_body]
fn paint_red(line: &str) -> (s: String)
    ensures
        s@ == "\x1b[31m"@ + line@ + "\x1b[0m"@,
{
    nu_ansi_term::Color::Red.paint(line).to_string()
}

/// A line of a patch as it is shown: added lines in green, removed lines in
/// red, all others as they are.
pub open spec fn shown(line: Seq<char>) -> Seq<char> {
    match kind_of_line(line) {
        LineKind::Added => "\x1b[32m"@ + line + "\x1b[0m"@,
        LineKind::Removed => "\x1b[31m"@ + line + "\x1b[0m"@,
        LineKind::Plain => line,
    }
}

/// A line without the carriage return that ends it, if one does.
pub open spec fn without_cr(line: Seq<char>) -> Seq<char> {
    if line.len() > 0 && line.last() == '\r' {
        line.drop_last()
    } else {
        line
    }
}

/// A patch as it is shown: each line that a line feed ends, without its
/// line ending, shown and ended by a line feed; and the rest, if the patch
/// does not end with a line feed, shown as it is.
pub open spec fn colorized(patch: Seq<char>) -> Seq<char>
    decreases patch.len(),
{
    match find_from(patch, "\n"@, 0) {
        Some(i) => if 0 <= i < patch.len() {
            shown(without_cr(patch.take(i))) + "\n"@ + colorized(patch.skip(i + 1))
        } else {
            shown(patch)
        },
        None => if patch.len() == 0 {
            Seq::empty()
        } else {
            shown(patch)
        },
    }
}

/// Shows one line of a patch.
fn show_line(line: &str) -> (s: String)
    ensures
        s@ == shown(line@),
{
    match classify_patch_line(line) {
        LineKind::Added => paint_green(line),
        LineKind::Removed => paint_red(line),
        LineKind::Plain => line.to_owned(),
    }
}

/// Takes the carriage return off the end of a line, if it ends with one.
fn strip_cr(line: &str) -> (r: &str)
    ensures
        r@ == without_cr(line@),
{
    proof {
        reveal_strlit("\r");
    }
    match str_strip_suffix(line, "\r") {
        Some(rest) => {
            assert(rest@ =~= line@.drop_last());
            rest
        },
        None => {
            proof {
                if line@.len() > 0 && line@.last() == '\r' {
                    assert(line@ =~= line@.drop_last() + "\r"@);
                }
            }
            line
        },
    }
}

/// Colors a patch for the terminal: added lines green, removed lines red.
pub fn colorize_patch(patch: &str) -> (r: String)
    ensures
        r@ == colorized(patch@),
{
    let feed = "\n";
    proof {
        reveal_strlit("\n");
    }
    let mut out = String::new();
    let mut rest = patch;
    let mut open = true;
    while open
        invariant
            feed@ == "\n"@,
            feed@.len() == 1,
            open ==> out@ + colorized(rest@) == colorized(patch@),
            !open ==> out@ == colorized(patch@),
        decreases
            if open { 1 + rest@.len() } else { 0 },
    {
        let ghost so_far = out@;
        match str_split_once(rest, feed) {
            Some((head, tail)) => {
                proof {
                    let i = head@.len() as int;
                    assert(rest@.subrange(i, i + 1) =~= feed@);
                    lemma_find_from(rest@, feed@, 0, i);
                    assert(rest@.take(i) =~= head@);
                    assert(rest@.skip(i + 1) =~= tail@);
                }
                let line = show_line(strip_cr(head));
                out.append(line.as_str());
                out.append(feed);
                assert(out@ + colorized(tail@) =~= so_far + colorized(rest@));
                rest = tail;
            },
            None => {
                proof {
                    lemma_find_none(rest@, feed@, 0);
                }
                if !rest.is_empty() {
                    let line = show_line(rest);
                    out.append(line.as_str());
                }
                assert(out@ =~= so_far + colorized(rest@));
                open = false;
            },
        }
    }
    out
}

} // verus!
