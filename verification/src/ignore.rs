//! Which paths of a project are left out of its history.
//!
//! The rules are gitignore patterns: a built-in list of common build and
//! version-control directories, and after them those of the project's own
//! ignore file.

use vstd::prelude::*;
use vstd::string::StringExecFns;

use crate::storage::{join, join_path};
use crate::text::str_strip_prefix;
use crate::util::{path_relative, relative_path};

verus! {

/// `ignore::gitignore::Gitignore`: a matcher built from gitignore globs.
/// Nothing is known of what is inside it.
#[verifier::external_type_specification]
#[verifier::external_body]
pub struct ExGitignore(::ignore::gitignore::Gitignore);

/// `ignore::gitignore::GitignoreBuilder`: collects globs for a matcher.
/// Nothing is known of what is inside it.
#[verifier::external_type_specification]
#[verifier::external_body]
pub struct ExGitignoreBuilder(::ignore::gitignore::GitignoreBuilder);

/// The root that a builder keeps: the field `root` of `GitignoreBuilder`.
pub uninterp spec fn builder_root(builder: ::ignore::gitignore::GitignoreBuilder) -> Seq<char>;

/// The lines that a builder holds: of each of its globs, in order, the line
/// it was made from, as the glob keeps it.
pub uninterp spec fn builder_lines(builder: ::ignore::gitignore::GitignoreBuilder) -> Seq<
    Seq<char>,
>;

/// The root that a matcher keeps: the field `root` of `Gitignore`.
pub uninterp spec fn matcher_root(matcher: ::ignore::gitignore::Gitignore) -> Seq<char>;

/// What a matcher ignores: the paths, each with whether it is a directory,
/// for which `matched_path_or_any_parents` finds that the path or one of
/// its parent directories up to the root is ignored.
pub uninterp spec fn ignored_paths(matcher: ::ignore::gitignore::Gitignore) -> Set<
    (Seq<char>, bool),
>;

/// Whether `GitignoreBuilder::add_line` makes a glob of a line that comes
/// from no file, with the builder's settings as `GitignoreBuilder::new`
/// leaves them.
pub uninterp spec fn glob_accepted(line: Seq<char>) -> bool;

/// Whether a line is a pattern as it stands: it is not empty, is no
/// comment, and ends with a visible ASCII character, so that nothing is
/// taken off it before it is read as a glob.
pub open spec fn plain_pattern(line: Seq<char>) -> bool {
    &&& line.len() > 0
    &&& line[0] != '#'
    &&& '!' <= line.last() <= '~'
}

/// Whether `GitignoreBuilder::build` makes a matcher of a builder whose
/// globs were made from these lines.
pub uninterp spec fn lines_build(lines: Seq<Seq<char>>) -> bool;

/// A path as a builder and a matcher keep and compare it: without one
/// `./` at its front.
pub open spec fn kept_path(path: Seq<char>) -> Seq<char> {
    if "./"@.is_prefix_of(path) {
        path.skip(2)
    } else {
        path
    }
}

/// Whether a path does not begin with a slash.
pub open spec fn no_leading_slash(path: Seq<char>) -> bool {
    !(path.len() > 0 && path[0] == '/')
}

/// Whether a matcher with the kept root `root` can be asked about a path:
/// as the matcher keeps it, the path is the root, a slash, and a path that
/// does not begin with another slash; or the root is `.` and the path does
/// not begin with a slash.
pub open spec fn matchable(root: Seq<char>, path: Seq<char>) -> bool {
    exists|rel: Seq<char>|
        no_leading_slash(rel) && (#[trigger] join_path(root, rel) == kept_path(path) || (root
            == "."@ && kept_path(path) == rel))
}

/// A path joined to a root can be asked of the matcher of that root, where
/// it does not begin with a slash.
pub proof fn lemma_joined_is_matchable(root: Seq<char>, rel: Seq<char>)
    requires
        no_leading_slash(rel),
    ensures
        matchable(kept_path(root), join_path(root, rel)),
{
    reveal_strlit("./");
    reveal_strlit("/");
    reveal_strlit(".");
    let path = join_path(root, rel);
    let dot_slash = "./"@;
    if dot_slash.is_prefix_of(root) {
        assert(dot_slash =~= path.subrange(0, 2)) by {
            assert(root.subrange(0, 2) =~= path.subrange(0, 2));
        }
        assert(dot_slash.is_prefix_of(path));
        assert(path.skip(2) =~= join_path(root.skip(2), rel));
        assert(join_path(kept_path(root), rel) == kept_path(path));
    } else if root == "."@ {
        assert(dot_slash =~= path.subrange(0, 2));
        assert(dot_slash.is_prefix_of(path));
        assert(path.skip(2) =~= rel);
        assert(kept_path(path) == rel);
        assert(join_path(kept_path(root), rel) == join_path(kept_path(root), rel));
    } else {
        if dot_slash.is_prefix_of(path) {
            assert(path.subrange(0, 2) =~= dot_slash);
            assert(dot_slash[0] == '.' && dot_slash[1] == '/');
            assert(path.subrange(0, 2)[0] == path[0] && path.subrange(0, 2)[1] == path[1]);
            if root.len() == 0 {
                assert(path[0] == '/');
            } else if root.len() == 1 {
                assert(root[0] == path[0]);
                assert(root =~= "."@);
            } else {
                assert(root[0] == path[0] && root[1] == path[1]);
                assert(dot_slash =~= root.subrange(0, 2));
            }
        }
        assert(join_path(kept_path(root), rel) == kept_path(path));
    }
}

/// `GitignoreBuilder::new`: a builder without globs. It keeps the given
/// root without one `./` at its front.
#[verifier::external_body]
fn builder_new(root: &str) -> (builder: ::ignore::gitignore::GitignoreBuilder)
    ensures
        builder_root(builder) == kept_path(root@),
        builder_lines(builder) == Seq::<Seq<char>>::empty(),
{
    ::ignore::gitignore::GitignoreBuilder::new(root)
}

/// `GitignoreBuilder::add_line` for a plain pattern that comes from no
/// file. Whether a glob is made of the line depends on the line alone; the
/// glob joins the builder's globs with the line as it was given, and a
/// refused line leaves the builder as it was. The error's message is kept.
/// (Comments and lines that end in blanks, which the outside function
/// skips or shortens, are left out.)
#[verifier::external_body]
fn builder_add_line(builder: &mut ::ignore::gitignore::GitignoreBuilder, line: &str) -> (r: Result<
    (),
    String,
>)
    requires
        plain_pattern(line@),
    ensures
        r is Ok <==> glob_accepted(line@),
        builder_root(*final(builder)) == builder_root(*old(builder)),
        builder_lines(*final(builder)) == if r is Ok {
            builder_lines(*old(builder)).push(line@)
        } else {
            builder_lines(*old(builder))
        },
{
    builder.add_line(None, line).map(|_| ()).map_err(|e| e.to_string())
}

/// `GitignoreBuilder::add`: reads the globs of a gitignore file. The builder
/// keeps its root; a message comes back where the file could not be read or
/// a line of it is no glob.
#[verifier::external_body]
fn builder_add_file(builder: &mut ::ignore::gitignore::GitignoreBuilder, path: &str) -> (r:
    Option<String>)
    ensures
        builder_root(*final(builder)) == builder_root(*old(builder)),
{
    builder.add(path).map(|e| e.to_string())
}

/// `GitignoreBuilder::build`: the matcher of the globs added so far, for the
/// builder's root. Whether one is made depends on the lines of the globs
/// alone.
#[verifier::external_body]
fn builder_build(builder: &::ignore::gitignore::GitignoreBuilder) -> (r: Result<
    ::ignore::gitignore::Gitignore,
    String,
>)
    ensures
        r is Ok <==> lines_build(builder_lines(*builder)),
        r matches Ok(matcher) ==> matcher_root(matcher) == builder_root(*builder),
{
    builder.build().map_err(|e| e.to_string())
}

/// `Gitignore::matched_path_or_any_parents`, telling `Match::Ignore` from
/// no match and a whitelist match. The outside function takes one `./`
/// off the front of the path, then its root and one slash where the root
/// is not `.`, and panics on a path that then begins with a slash; a path
/// that can be asked of the matcher does not.
#[verifier::external_body]
fn matcher_ignores(matcher: &::ignore::gitignore::Gitignore, path: &str, is_dir: bool) -> (r: bool)
    requires
        matchable(matcher_root(*matcher), path@),
    ensures
        r == ignored_paths(*matcher).contains((path@, is_dir)),
{
    match matcher.matched_path_or_any_parents(path, is_dir) {
        ::ignore::Match::None => false,
        ::ignore::Match::Whitelist(_) => false,
        ::ignore::Match::Ignore(_) => true,
    }
}

/// Why a matcher could not be made.
#[derive(Debug)]
pub enum IgnoreError {
    /// A built-in pattern was refused; the pattern and the message are kept.
    DefaultPattern(String, String),
    /// The project's ignore file could not be read or parsed.
    CustomFile(String, String),
    /// The matcher could not be built from its globs.
    Build(String),
}

impl IgnoreError {
    /// The sentence that tells the user of the error.
    pub open spec fn message_text(&self) -> Seq<char> {
        match self {
            IgnoreError::DefaultPattern(pattern, detail) => "invalid default ignore pattern: "@
                + pattern@ + ": "@ + detail@,
            IgnoreError::CustomFile(path, detail) => "failed to parse "@ + path@ + ": "@
                + detail@,
            IgnoreError::Build(detail) => "failed to build ignore matcher: "@ + detail@,
        }
    }

    /// A sentence for the user.
    pub fn message(&self) -> (s: String)
        ensures
            s@ == self.message_text(),
    {
        match self {
            IgnoreError::DefaultPattern(pattern, detail) => {
                let head = "invalid default ignore pattern: ".to_owned();
                head.concat(pattern.as_str()).concat(": ").concat(detail.as_str())
            },
            IgnoreError::CustomFile(path, detail) => "failed to parse ".to_owned().concat(
                path.as_str(),
            ).concat(": ").concat(detail.as_str()),
            IgnoreError::Build(detail) => "failed to build ignore matcher: ".to_owned().concat(
                detail.as_str(),
            ),
        }
    }
}

/// The name of a project's own ignore file, directly below its root.
pub const CUSTOM_IGNORE_FILE: &'static str = ".meowdiffignore";

/// The built-in patterns, in the order in which they are added.
pub open spec fn default_patterns() -> Seq<Seq<char>> {
    seq![
        ".git/"@,
        ".svn/"@,
        ".hg/"@,
        "node_modules/"@,
        "dist/"@,
        "build/"@,
        "coverage/"@,
        "__pycache__/"@,
        "venv/"@,
        ".venv/"@,
        ".idea/"@,
        ".vscode/"@,
        ".DS_Store"@,
        "target/"@,
    ]
}

/// Every built-in pattern is a pattern as it stands.
pub proof fn lemma_defaults_are_plain()
    ensures
        forall|i: int|
            0 <= i < default_patterns().len() ==> plain_pattern(#[trigger] default_patterns()[i]),
{
    reveal_strlit(".git/");
    reveal_strlit(".svn/");
    reveal_strlit(".hg/");
    reveal_strlit("node_modules/");
    reveal_strlit("dist/");
    reveal_strlit("build/");
    reveal_strlit("coverage/");
    reveal_strlit("__pycache__/");
    reveal_strlit("venv/");
    reveal_strlit(".venv/");
    reveal_strlit(".idea/");
    reveal_strlit(".vscode/");
    reveal_strlit(".DS_Store");
    reveal_strlit("target/");
    let all = default_patterns();
    assert(plain_pattern(all[0]));
    assert(plain_pattern(all[1]));
    assert(plain_pattern(all[2]));
    assert(plain_pattern(all[3]));
    assert(plain_pattern(all[4]));
    assert(plain_pattern(all[5]));
    assert(plain_pattern(all[6]));
    assert(plain_pattern(all[7]));
    assert(plain_pattern(all[8]));
    assert(plain_pattern(all[9]));
    assert(plain_pattern(all[10]));
    assert(plain_pattern(all[11]));
    assert(plain_pattern(all[12]));
    assert(plain_pattern(all[13]));
}

/// The built-in patterns.
pub fn default_pattern_list() -> (r: Vec<&'static str>)
    ensures
        r@.map_values(|p: &'static str| p@) == default_patterns(),
{
    let r = vec![
        ".git/",
        ".svn/",
        ".hg/",
        "node_modules/",
        "dist/",
        "build/",
        "coverage/",
        "__pycache__/",
        "venv/",
        ".venv/",
        ".idea/",
        ".vscode/",
        ".DS_Store",
        "target/",
    ];
    assert(r@.map_values(|p: &'static str| p@) =~= default_patterns());
    r
}

/// The entry that stands for the project's ignore file in the list of
/// rules.
pub open spec fn file_rule(path: Seq<char>) -> Seq<char> {
    "(file) "@ + path
}

/// The rules of a project: the built-in patterns, and after them the entry
/// of its ignore file where it has one.
pub open spec fn rules_of(custom_file: Option<Seq<char>>) -> Seq<Seq<char>> {
    match custom_file {
        Some(path) => default_patterns().push(file_rule(path)),
        None => default_patterns(),
    }
}

/// The contents of a list of rules.
pub open spec fn rules_view(rules: Seq<String>) -> Seq<Seq<char>> {
    rules.map_values(|r: String| r@)
}

/// Decides which paths of a project are ignored.
pub struct IgnoreMatcher {
    matcher: ::ignore::gitignore::Gitignore,
    rules: Vec<String>,
    root: String,
}

impl IgnoreMatcher {
    /// The project root that paths are matched below.
    pub closed spec fn root_view(&self) -> Seq<char> {
        self.root@
    }

    /// The rules, as they are listed.
    pub closed spec fn rules_listed(&self) -> Seq<Seq<char>> {
        rules_view(self.rules@)
    }

    /// Whether the matcher was built for its root.
    pub closed spec fn wf(&self) -> bool {
        matcher_root(self.matcher) == kept_path(self.root@)
    }

    /// Whether the rules ignore the path `relative` below the root, or one
    /// of its parent directories.
    pub closed spec fn ignores(&self, relative: Seq<char>, is_dir: bool) -> bool {
        ignored_paths(self.matcher).contains((join_path(self.root@, relative), is_dir))
    }

    /// Builds the matcher of a project: the built-in patterns, and then the
    /// globs of the project's ignore file, where `custom_file` names one.
    ///
    /// Without an ignore file the outcome is fixed by the glob parser's
    /// answers: the first built-in pattern that it refuses fails the
    /// matcher, and else the builder's refusal to build does. With an
    /// ignore file, what stands in the file decides as well.
    pub fn new(project_root: &str, custom_file: Option<&str>) -> (r: Result<
        IgnoreMatcher,
        IgnoreError,
    >)
        ensures
            match r {
                Ok(m) => {
                    &&& m.wf()
                    &&& m.root_view() == project_root@
                    &&& m.rules_listed() == rules_of(
                        match custom_file {
                            Some(p) => Some(p@),
                            None => None,
                        },
                    )
                    &&& first_refused(default_patterns()) is None
                    &&& custom_file is None ==> lines_build(default_patterns())
                },
                Err(IgnoreError::DefaultPattern(pattern, _)) => first_refused(default_patterns())
                    == Some(pattern@),
                Err(IgnoreError::CustomFile(path, _)) => {
                    &&& custom_file matches Some(p) && p@ == path@
                    &&& first_refused(default_patterns()) is None
                },
                Err(IgnoreError::Build(_)) => {
                    &&& first_refused(default_patterns()) is None
                    &&& custom_file is None ==> !lines_build(default_patterns())
                },
            },
    {
        let mut builder = builder_new(project_root);
        let patterns = default_pattern_list();
        let ghost listed = patterns@.map_values(|p: &'static str| p@);
        let mut rules: Vec<String> = Vec::new();
        let mut i: usize = 0;
        assert(rules_view(rules@) =~= listed.take(0));
        while i < patterns.len()
            invariant
                i <= patterns.len(),
                listed == patterns@.map_values(|p: &'static str| p@),
                listed == default_patterns(),
                builder_root(builder) == kept_path(project_root@),
                builder_lines(builder) == listed.take(i as int),
                rules_view(rules@) == listed.take(i as int),
                first_refused(listed.take(i as int)) is None,
            decreases patterns.len() - i,
        {
            let pattern = patterns[i];
            proof {
                assert(listed[i as int] == pattern@);
                lemma_defaults_are_plain();
                assert(plain_pattern(default_patterns()[i as int]));
                assert(listed.take(i + 1).drop_last() =~= listed.take(i as int));
                assert(listed.take(i + 1).last() == pattern@);
                lemma_first_refused_prefix(listed, i + 1);
            }
            match builder_add_line(&mut builder, pattern) {
                Ok(()) => {},
                Err(detail) => {
                    return Err(IgnoreError::DefaultPattern(pattern.to_owned(), detail));
                },
            }
            let ghost before = rules_view(rules@);
            rules.push(pattern.to_owned());
            assert(rules_view(rules@) =~= before.push(pattern@));
            assert(listed.take(i + 1) =~= before.push(pattern@));
            i = i + 1;
        }
        assert(listed.take(patterns.len() as int) == listed);
        match custom_file {
            Some(path) => {
                match builder_add_file(&mut builder, path) {
                    Some(detail) => {
                        return Err(IgnoreError::CustomFile(path.to_owned(), detail));
                    },
                    None => {},
                }
                let ghost before = rules_view(rules@);
                let rule = "(file) ".to_owned().concat(path);
                rules.push(rule);
                assert(rules_view(rules@) =~= before.push(file_rule(path@)));
            },
            None => {},
        }
        match builder_build(&builder) {
            Ok(matcher) => Ok(IgnoreMatcher { matcher, rules, root: project_root.to_owned() }),
            Err(detail) => Err(IgnoreError::Build(detail)),
        }
    }

    /// Whether the rules ignore a path that is given relative to the root.
    /// `is_dir` says whether it is a directory. The root itself, which is
    /// the empty path, and a path that begins with a slash are not the
    /// rules' to judge and are not ignored.
    pub fn is_ignored_below(&self, relative: &str, is_dir: bool) -> (r: bool)
        requires
            self.wf(),
        ensures
            r == (judged(relative@) && self.ignores(relative@, is_dir)),
    {
        proof {
            reveal_strlit("/");
        }
        if relative.is_empty() {
            return false;
        }
        match str_strip_prefix(relative, "/") {
            Some(rest) => {
                assert(relative@[0] == '/') by {
                    assert(relative@ == "/"@ + rest@);
                }
                false
            },
            None => {
                proof {
                    if relative@[0] == '/' {
                        assert("/"@ =~= relative@.subrange(0, 1));
                    }
                    lemma_joined_is_matchable(self.root@, relative@);
                }
                let full = join(self.root.as_str(), relative);
                matcher_ignores(&self.matcher, full.as_str(), is_dir)
            },
        }
    }

    /// Whether a path is ignored. `path` is the file's full path and
    /// `is_dir` says whether it is a directory.
    ///
    /// The rules judge paths below the root. The root itself and paths that
    /// do not lie below it are not ignored.
    pub fn is_ignored(&self, path: &str, is_dir: bool) -> (r: bool)
        requires
            self.wf(),
        ensures
            r == match path_relative(self.root_view(), path@) {
                Some(relative) => judged(relative) && self.ignores(relative, is_dir),
                None => false,
            },
    {
        match relative_path(self.root.as_str(), path) {
            Some(relative) => self.is_ignored_below(relative.as_str(), is_dir),
            None => false,
        }
    }

    /// The rules, as they are listed for the user.
    pub fn rules(&self) -> (r: &Vec<String>)
        ensures
            rules_view(r@) == self.rules_listed(),
    {
        &self.rules
    }

    /// The project root.
    pub fn root(&self) -> (r: &str)
        ensures
            r@ == self.root_view(),
    {
        self.root.as_str()
    }
}

/// Whether a relative path is one for the rules to judge: it is not empty
/// and does not begin with a slash.
pub open spec fn judged(relative: Seq<char>) -> bool {
    relative.len() > 0 && relative[0] != '/'
}

/// The first of some lines that the glob parser refuses, if it refuses one.
pub open spec fn first_refused(lines: Seq<Seq<char>>) -> Option<Seq<char>>
    decreases lines.len(),
{
    if lines.len() == 0 {
        None
    } else {
        match first_refused(lines.drop_last()) {
            Some(line) => Some(line),
            None => if glob_accepted(lines.last()) {
                None
            } else {
                Some(lines.last())
            },
        }
    }
}

/// Where none of the first lines is refused, the first refused line of all
/// of them is the first among the rest.
proof fn lemma_first_refused_prefix(lines: Seq<Seq<char>>, n: int)
    requires
        0 < n <= lines.len(),
        first_refused(lines.take(n - 1)) is None,
    ensures
        !glob_accepted(lines[n - 1]) ==> first_refused(lines) == Some(lines[n - 1]),
        glob_accepted(lines[n - 1]) ==> first_refused(lines.take(n)) is None,
{
    assert(lines.take(n).drop_last() =~= lines.take(n - 1));
    assert(lines.take(n).last() == lines[n - 1]);
    if !glob_accepted(lines[n - 1]) {
        lemma_first_refused_stays(lines, n);
    }
}

/// A line that is the first refused of a prefix is the first refused of
/// the whole.
proof fn lemma_first_refused_stays(lines: Seq<Seq<char>>, n: int)
    requires
        0 <= n <= lines.len(),
        first_refused(lines.take(n)) is Some,
    ensures
        first_refused(lines) == first_refused(lines.take(n)),
    decreases lines.len() - n,
{
    if n < lines.len() {
        assert(lines.take(n + 1).drop_last() =~= lines.take(n));
        lemma_first_refused_stays(lines, n + 1);
    } else {
        assert(lines.take(n) =~= lines);
    }
}

} // verus!
