//! The workspace's `.gitignore` rules and the walk that finds what they
//! ignore: hidden entries are skipped unless shown, an ignored entry is
//! recorded and not looked into, and other directories are walked into.
use vstd::prelude::*;

use ignore::gitignore::{Gitignore, GitignoreBuilder};

verus! {

#[verifier::external_type_specification]
#[verifier::external_body]
pub struct ExGitignore(ignore::gitignore::Gitignore);

/// The rules of a workspace: its root, the text of its `.gitignore`, and the
/// matcher built from them. Only `build_ignore_rules` makes one, so the matcher is
/// always the one built from the root and the text held beside it.
pub struct IgnoreRules {
    root: String,
    rules: String,
    matcher: Gitignore,
}

impl IgnoreRules {
    /// The rules of the `.gitignore` text `rules` of the workspace at `root`.
    pub fn new(root: &str, rules: &str) -> (res: IgnoreRules)
        ensures
            res.root_view() == root@,
            res.rules_view() == rules@,
    {
        build_ignore_rules(root, rules)
    }

    pub closed spec fn root_view(&self) -> Seq<char> {
        self.root@
    }

    pub closed spec fn rules_view(&self) -> Seq<char> {
        self.rules@
    }
}

/// Whether the `.gitignore` text `rules` of the workspace at `root` ignores
/// `path` (a directory where `is_dir`): what `Gitignore::matched` answers
/// with `is_ignore()` for the matcher built from them.
pub uninterp spec fn gitignore_match(root: Seq<char>, rules: Seq<char>, path: Seq<char>, is_dir: bool) -> bool;

/// Builds the matcher as the `ignore` crate reads a `.gitignore` file:
/// `GitignoreBuilder::new(root)`, then `add_line` for each line of `rules`
/// (lines that are not valid globs are left out, as `GitignoreBuilder::add`
/// leaves them out), then `build`, or the empty matcher where that fails.
/// Claimed: the result holds `root` and `rules`. A leading byte order mark
/// is for the caller to take off, as `GitignoreBuilder::add` does.
#[verifier::external_body]
fn build_ignore_rules(root: &str, rules: &str) -> (res: IgnoreRules)
    ensures
        res.root_view() == root@,
        res.rules_view() == rules@,
{
    let from = std::path::Path::new(root).join(".gitignore");
    let mut builder = GitignoreBuilder::new(root);
    for line in rules.lines() {
        let _ = builder.add_line(Some(from.clone()), line);
    }
    let matcher = builder.build().unwrap_or_else(|_| Gitignore::empty());
    IgnoreRules { root: root.to_string(), rules: rules.to_string(), matcher }
}

/// Calls `Gitignore::matched(path, is_dir).is_ignore()` on the matcher of
/// `r`. Claimed: the answer is `gitignore_match` of the rules' root and text,
/// the path and `is_dir`; the glob matching itself is not written out.
#[verifier::external_body]
fn rules_match(r: &IgnoreRules, path: &str, is_dir: bool) -> (res: bool)
    ensures
        res == gitignore_match(r.root_view(), r.rules_view(), path@, is_dir),
{
    r.matcher.matched(path, is_dir).is_ignore()
}

/// What the walk does with one entry of a directory.
#[derive(Clone, Copy, Debug, PartialEq, Eq, Structural)]
pub enum WalkStep {
    /// A hidden entry while hidden entries are not shown: passed over.
    Skip,
    /// The rules ignore it: it is recorded and not looked into.
    Ignored,
    /// A directory that is walked into.
    Descend,
    /// A file that is neither: nothing to do.
    Keep,
}

pub open spec fn walk_step_spec(
    root: Seq<char>,
    rules: Seq<char>,
    path: Seq<char>,
    name: Seq<char>,
    is_dir: bool,
    hidden_visible: bool,
) -> WalkStep {
    if !hidden_visible && name.len() > 0 && name[0] == '.' {
        WalkStep::Skip
    } else if gitignore_match(root, rules, path, is_dir) {
        WalkStep::Ignored
    } else if is_dir {
        WalkStep::Descend
    } else {
        WalkStep::Keep
    }
}

/// Decides what the walk for ignored paths does with the entry `path`
/// (named `name`, a directory where `is_dir`).
pub fn walk_step(rules: &IgnoreRules, path: &str, name: &str, is_dir: bool, hidden_visible: bool) -> (res: WalkStep)
    ensures
        res == walk_step_spec(rules.root_view(), rules.rules_view(), path@, name@, is_dir, hidden_visible),
{
    if !hidden_visible {
        let n = crate::text::chars_of(name);
        if n.len() > 0 && n[0] == '.' {
            return WalkStep::Skip;
        }
    }
    if rules_match(rules, path, is_dir) {
        WalkStep::Ignored
    } else if is_dir {
        WalkStep::Descend
    } else {
        WalkStep::Keep
    }
}

} // verus!
