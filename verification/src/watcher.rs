//! Noticing when the world changed underneath the index.
//!
//! # Why this watches almost nothing
//!
//! The obvious design watches the source tree. On a megarepo that is the
//! expensive, fragile thing: Linux needs one inotify watch per directory and
//! `max_user_watches` runs out, which is why Watchman exists.
//!
//! jabar can mostly avoid it, because three different things change and only
//! one of them needs the filesystem at all:
//!
//! | What changed | How jabar hears about it | Cost |
//! | --- | --- | --- |
//! | The agent edited a file | `didOpen` / `didChange` | free, already handled |
//! | The index was rebuilt | the `.scip` shards themselves | ~one file per target |
//! | The workspace moved | `.git/HEAD` and `.git/index` | two files |
//!
//! The middle row is the important inversion. A SCIP index is a *build output*,
//! so the question is not "did a source file change" but "did the aspect
//! re-run", and the shards state that directly.
//!
//! The last row is deliberately coarse. A branch switch or a checkout writes
//! both `.git/HEAD` and `.git/index`, so those two files catch it without
//! walking anything. It reports *that* a lot changed, never *what*, which is
//! the right granularity for "the index is stale, re-run the aspect".
use vstd::prelude::*;

use crate::paths::{below_of, component_of, extension_of, is_absolute, join_of, parent_of, AbsPath};
use crate::text::{
    begins_with, chars_of, finishes_with, same_text, slice_trim_space, string_of,
};

verus! {

/// Something happened that the index may need to react to.
#[derive(Copy, Clone, Debug, PartialEq, Eq, Structural)]
pub enum Change {
    /// SCIP shards were written. The index should be reloaded.
    Index,
    /// The workspace moved: a branch switch, a checkout, a rebase.
    ///
    /// Coarse by design: it means everything may be stale, not that any
    /// particular file changed.
    Workspace,
    /// The watcher may have dropped events, so existing state must be checked.
    /// This is uncertainty, not evidence that the workspace actually moved.
    WatcherError,
}

/// Whether a directory holds intermediate outputs: per-source shards, before
/// they are put together to that of their target.
pub open spec fn intermediate_name(name: Seq<char>) -> bool {
    ".scip-targetroot"@.is_suffix_of(name) || ".semanticdb"@.is_suffix_of(name)
}

/// The names of the directories above a path, nearest first.
pub open spec fn names_above(path: Seq<char>) -> Seq<Seq<char>>
    decreases path.len(),
{
    match crate::paths::parent_path(path) {
        Some(parent) => if parent.len() < path.len() {
            (match crate::paths::final_component(parent) {
                Some(name) => seq![name],
                None => Seq::empty(),
            }) + names_above(parent)
        } else {
            Seq::empty()
        },
        None => Seq::empty(),
    }
}

/// What stands in a path, as far as its meaning depends on it.
#[derive(Debug)]
pub struct PathParts {
    /// The final component.
    pub name: Option<String>,
    pub extension: Option<String>,
    /// The names of the directories above, nearest first.
    pub above: Vec<String>,
    /// The final component of the directory that it is in.
    pub parent_name: Option<String>,
    /// Whether the directory that it is in is the repository's.
    pub in_git_dir: bool,
}

/// The view of [`PathParts`].
#[verifier::ext_equal]
pub struct PartsView {
    pub name: Option<Seq<char>>,
    pub extension: Option<Seq<char>>,
    pub above: Seq<Seq<char>>,
    pub parent_name: Option<Seq<char>>,
    pub in_git_dir: bool,
}

impl View for PathParts {
    type V = PartsView;

    open spec fn view(&self) -> PartsView {
        PartsView {
            name: crate::config::text_of(self.name),
            extension: crate::config::text_of(self.extension),
            above: crate::text::texts(self.above@),
            parent_name: crate::config::text_of(self.parent_name),
            in_git_dir: self.in_git_dir,
        }
    }
}

/// What a changed path means, if anything.
///
/// A shard means that the index changed, unless it is an intermediate output:
/// the sibling target shard triggers the reload after aggregation finishes.
/// `HEAD` moves on checkout and branch switch; `index` moves on any staging
/// operation, which is the cheapest proxy for "the tree was rewritten". Both
/// mean that only directly in the repository's directory, or in one called
/// `.git`.
pub open spec fn meaning(parts: PartsView) -> Option<Change> {
    if parts.extension == Some("scip"@) {
        if exists|i: int| 0 <= i < parts.above.len() && intermediate_name(#[trigger] parts.above[i]) {
            None
        } else {
            Some(Change::Index)
        }
    } else if (parts.name == Some("HEAD"@) || parts.name == Some("index"@)) && (parts.in_git_dir
        || parts.parent_name == Some(".git"@)) {
        Some(Change::Workspace)
    } else {
        None
    }
}

/// The parts of a path that its meaning depends on.
pub open spec fn parts_of(path: Seq<char>, git_dir: Option<Seq<char>>) -> PartsView {
    let name = crate::paths::final_component(path);
    let parent = crate::paths::parent_path(path);
    PartsView {
        name,
        extension: match name {
            Some(name) => crate::paths::suffix_of(name),
            None => None,
        },
        above: names_above(path),
        parent_name: match parent {
            Some(parent) => crate::paths::final_component(parent),
            None => None,
        },
        in_git_dir: match (parent, git_dir) {
            (Some(parent), Some(dir)) => crate::paths::path_below(parent, dir) == Some(
                Seq::<char>::empty(),
            ),
            _ => false,
        },
    }
}

/// Whether an optional text is the given one.
fn is_text(text: &Option<String>, expected: &str) -> (yes: bool)
    ensures
        yes == (crate::config::text_of(*text) == Some(expected@)),
{
    match text {
        Some(text) => same_text(text, expected),
        None => false,
    }
}

/// Decides [`intermediate_name`].
fn is_intermediate(name: &str) -> (yes: bool)
    ensures
        yes == intermediate_name(name@),
{
    let chars = chars_of(name);
    let targetroot = chars_of(".scip-targetroot");
    let semanticdb = chars_of(".semanticdb");
    finishes_with(chars.as_slice(), targetroot.as_slice()) || finishes_with(
        chars.as_slice(),
        semanticdb.as_slice(),
    )
}

/// Computes [`meaning`].
pub fn classify_parts(parts: &PathParts) -> (change: Option<Change>)
    ensures
        change == meaning(parts@),
{
    if is_text(&parts.extension, "scip") {
        let mut i: usize = 0;
        while i < parts.above.len()
            invariant
                i <= parts.above@.len(),
                parts@.extension == Some("scip"@),
                forall|j: int| 0 <= j < i ==> !intermediate_name(#[trigger] parts@.above[j]),
            decreases parts.above@.len() - i,
        {
            assert(parts@.above[i as int] == parts.above@[i as int]@);
            if is_intermediate(&parts.above[i]) {
                return None;
            }
            i += 1;
        }
        return Some(Change::Index);
    }
    if (is_text(&parts.name, "HEAD") || is_text(&parts.name, "index")) && (parts.in_git_dir
        || is_text(&parts.parent_name, ".git")) {
        return Some(Change::Workspace);
    }
    None
}

/// A copy of an optional text.
fn own(text: Option<&str>) -> (out: Option<String>)
    ensures
        crate::config::text_of(out) == (match text {
            Some(text) => Some(text@),
            None => None,
        }),
{
    match text {
        Some(text) => Some(text.to_owned()),
        None => None,
    }
}

/// Takes a path apart.
fn parts(path: &str, git_dir: Option<&str>) -> (parts: PathParts)
    ensures
        parts@ == parts_of(
            path@,
            match git_dir {
                Some(dir) => Some(dir@),
                None => None,
            },
        ),
{
    let mut above: Vec<String> = Vec::new();
    let mut current = path.to_owned();
    assert(crate::text::texts(above@) + names_above(path@) =~= names_above(path@));
    loop
        invariant
            crate::text::texts(above@) + names_above(current@) == names_above(path@),
        ensures
            crate::text::texts(above@) == names_above(path@),
        decreases current@.len(),
    {
        let parent = match parent_of(&current) {
            Some(parent) => parent.to_owned(),
            None => {
                assert(crate::text::texts(above@) + names_above(current@) =~= crate::text::texts(
                    above@,
                ));
                break;
            },
        };
        let ghost before = crate::text::texts(above@);
        if let Some(name) = component_of(&parent) {
            above.push(name.to_owned());
            assert(crate::text::texts(above@) =~= before.push(name@));
        }
        assert(before + names_above(current@) =~= crate::text::texts(above@) + names_above(
            parent@,
        ));
        current = parent;
    }
    let parent = parent_of(path);
    let parent_name = match parent {
        Some(parent) => own(component_of(parent)),
        None => None,
    };
    let in_git_dir = match (parent, git_dir) {
        (Some(parent), Some(dir)) => match below_of(parent, dir) {
            Some(rest) => same_text(rest, ""),
            None => false,
        },
        _ => false,
    };
    proof {
        reveal_strlit("");
        assert(""@ =~= Seq::<char>::empty());
    }
    PathParts {
        name: own(component_of(path)),
        extension: own(extension_of(path)),
        above,
        parent_name,
        in_git_dir,
    }
}

/// What a changed path means, if anything.
pub fn classify(path: &str, git_dir: Option<&str>) -> (change: Option<Change>)
    ensures
        change == meaning(
            parts_of(
                path@,
                match git_dir {
                    Some(dir) => Some(dir@),
                    None => None,
                },
            ),
        ),
{
    let parts = parts(path, git_dir);
    classify_parts(&parts)
}

/// Whether some path means `change`.
pub open spec fn reported(
    paths: Seq<Seq<char>>,
    git_dir: Option<Seq<char>>,
    change: Change,
) -> bool {
    exists|i: int|
        0 <= i < paths.len() && meaning(parts_of(#[trigger] paths[i], git_dir)) == Some(change)
}

/// The changes that a burst of changed paths amounts to: at most one of each
/// kind. The workspace comes first: it is the broader signal, so a receiver that
/// acts on it has already invalidated whatever the other would have.
pub open spec fn changes_of(paths: Seq<Seq<char>>, git_dir: Option<Seq<char>>) -> Seq<Change> {
    (if reported(paths, git_dir, Change::Workspace) {
        seq![Change::Workspace]
    } else {
        Seq::empty()
    }) + (if reported(paths, git_dir, Change::Index) {
        seq![Change::Index]
    } else {
        Seq::empty()
    })
}

/// Classifies changed paths and reports at most one change of each kind.
///
/// Deduplicating here rather than at the receiver keeps a thousand-file checkout
/// from becoming a thousand reload requests.
pub fn dispatch(paths: &Vec<String>, git_dir: Option<&str>) -> (changes: Vec<Change>)
    ensures
        changes@ == changes_of(
            crate::text::texts(paths@),
            match git_dir {
                Some(dir) => Some(dir@),
                None => None,
            },
        ),
{
    let ghost all = crate::text::texts(paths@);
    let ghost dir = match git_dir {
        Some(dir) => Some(dir@),
        None => None,
    };
    let mut index = false;
    let mut workspace = false;
    let mut i: usize = 0;
    while i < paths.len()
        invariant
            all == crate::text::texts(paths@),
            dir == (match git_dir {
                Some(dir) => Some(dir@),
                None => None,
            }),
            i <= paths@.len(),
            index == exists|j: int|
                0 <= j < i && meaning(parts_of(#[trigger] all[j], dir)) == Some(Change::Index),
            workspace == exists|j: int|
                0 <= j < i && meaning(parts_of(#[trigger] all[j], dir)) == Some(Change::Workspace),
        decreases paths@.len() - i,
    {
        assert(all[i as int] == paths@[i as int]@);
        let ghost before = (index, workspace);
        match classify(&paths[i], git_dir) {
            Some(Change::Index) => {
                index = true;
            },
            Some(Change::Workspace) => {
                workspace = true;
            },
            _ => {},
        }
        proof {
            if before.0 {
                let j = choose|j: int|
                    0 <= j < i && meaning(parts_of(#[trigger] all[j], dir)) == Some(Change::Index);
                assert(0 <= j < i + 1);
            }
        }
        i += 1;
    }
    let mut changes: Vec<Change> = Vec::new();
    if workspace {
        changes.push(Change::Workspace);
    }
    if index {
        changes.push(Change::Index);
    }
    assert(changes@ =~= changes_of(all, dir));
    changes
}

/// A burst is reported by at most two changes, in which the workspace precedes
/// the index and none stands for lost events.
pub proof fn bursts_collapse(paths: Seq<Seq<char>>, git_dir: Option<Seq<char>>)
    ensures
        changes_of(paths, git_dir).len() <= 2,
        changes_of(paths, git_dir).no_duplicates(),
        !changes_of(paths, git_dir).contains(Change::WatcherError),
        forall|i: int, j: int|
            0 <= i < changes_of(paths, git_dir).len() && 0 <= j < changes_of(
                paths,
                git_dir,
            ).len() && #[trigger] changes_of(paths, git_dir)[i] == Change::Workspace
                && #[trigger] changes_of(paths, git_dir)[j] == Change::Index ==> i < j,
{
}

/// What a `.git` file of a linked worktree names: the text behind `gitdir:`,
/// without the white space around it.
pub open spec fn linked_text(contents: Seq<char>) -> Option<Seq<char>> {
    let line = crate::text::space_trimmed(contents);
    if "gitdir:"@.is_prefix_of(line) {
        Some(crate::text::space_trimmed(line.skip("gitdir:"@.len() as int)))
    } else {
        None
    }
}

/// The repository's directory that a `.git` file of a linked worktree names,
/// from the root of the checkout where it is relative.
pub fn linked_git_dir(contents: &str, root: &AbsPath) -> (dir: Option<String>)
    ensures
        match linked_text(contents@) {
            Some(text) => dir matches Some(dir) && dir@ == (if crate::paths::absolute(text) {
                text
            } else {
                crate::paths::joined_path(root@, text)
            }),
            None => dir is None,
        },
{
    let chars = chars_of(contents);
    let line = slice_trim_space(chars.as_slice());
    let marker = chars_of("gitdir:");
    if !begins_with(line, marker.as_slice()) {
        return None;
    }
    let rest = vstd::slice::slice_subrange(line, marker.len(), line.len());
    assert(rest@ =~= line@.skip("gitdir:"@.len() as int));
    let text = string_of(slice_trim_space(rest));
    if is_absolute(&text) {
        Some(text)
    } else {
        Some(join_of(root.as_str(), &text))
    }
}

/// A shard means that the index changed, unless it lies below a directory of
/// intermediate outputs. `HEAD` and `index` mean that the workspace moved,
/// directly in the repository's directory or in one called `.git`. Nothing else
/// means anything.
pub proof fn shards_and_git_files_have_a_meaning(parts: PartsView)
    ensures
        meaning(parts) == Some(Change::Index) <==> parts.extension == Some("scip"@) && forall|
            i: int,
        |
            0 <= i < parts.above.len() ==> !".scip-targetroot"@.is_suffix_of(
                #[trigger] parts.above[i],
            ) && !".semanticdb"@.is_suffix_of(parts.above[i]),
        meaning(parts) == Some(Change::Workspace) <==> parts.extension != Some("scip"@) && (
        parts.name == Some("HEAD"@) || parts.name == Some("index"@)) && (parts.in_git_dir
            || parts.parent_name == Some(".git"@)),
        meaning(parts) != Some(Change::WatcherError),
{
    if parts.extension == Some("scip"@) {
        if exists|i: int|
            0 <= i < parts.above.len() && intermediate_name(#[trigger] parts.above[i]) {
            let i = choose|i: int|
                0 <= i < parts.above.len() && intermediate_name(#[trigger] parts.above[i]);
            assert(".scip-targetroot"@.is_suffix_of(parts.above[i]) || ".semanticdb"@.is_suffix_of(
                parts.above[i],
            ));
        } else {
            assert forall|i: int| 0 <= i < parts.above.len() implies !".scip-targetroot"@.is_suffix_of(
                #[trigger] parts.above[i],
            ) && !".semanticdb"@.is_suffix_of(parts.above[i]) by {
                assert(!intermediate_name(parts.above[i]));
            }
        }
    }
}

/// A path is judged by its own name and ending, the names of the directories
/// above it, and whether its parent is the repository's directory.
pub proof fn paths_are_judged_by_their_names(
    path: Seq<char>,
    parent: Seq<char>,
    dir: Seq<char>,
    stem: Seq<char>,
    ending: Seq<char>,
)
    requires
        crate::paths::parent_path(path) == Some(parent),
        crate::paths::final_component(path) == Some(stem + "."@ + ending),
        stem.len() > 0,
        !ending.contains('.'),
    ensures
        parts_of(path, Some(dir)).name == Some(stem + "."@ + ending),
        parts_of(path, Some(dir)).extension == Some(ending),
        parts_of(path, Some(dir)).parent_name == crate::paths::final_component(parent),
        parts_of(path, Some(dir)).in_git_dir <==> crate::paths::path_below(parent, dir) == Some(
            Seq::<char>::empty(),
        ),
        !parts_of(path, None).in_git_dir,
        parent.len() < path.len() && crate::paths::final_component(parent) is Some
            ==> parts_of(path, None).above.len() > 0 && parts_of(path, None).above[0]
            == crate::paths::final_component(parent)->0,
{
    reveal_strlit(".");
    assert("."@ =~= seq!['.']);
    assert(seq!['.'][0] == '.');
    let name = stem + "."@ + ending;
    crate::text::laws::what_follows_the_last_is_after_it(stem, '.', ending, seq!['.']);
    assert(name[stem.len() as int] == '.');
    assert(name.skip(1)[stem.len() - 1] == '.');
}

/// A change is told of a burst where some path of it means that change.
pub proof fn every_meaning_is_told(paths: Seq<Seq<char>>, git_dir: Option<Seq<char>>, i: int)
    requires
        0 <= i < paths.len(),
    ensures
        meaning(parts_of(paths[i], git_dir)) matches Some(change) ==> changes_of(
            paths,
            git_dir,
        ).contains(change),
        forall|change: Change| #[trigger]
            changes_of(paths, git_dir).contains(change) ==> exists|k: int|
                0 <= k < paths.len() && meaning(parts_of(#[trigger] paths[k], git_dir)) == Some(
                    change,
                ),
{
    let changes = changes_of(paths, git_dir);
    shards_and_git_files_have_a_meaning(parts_of(paths[i], git_dir));
    if reported(paths, git_dir, Change::Workspace) {
        assert(changes[0] == Change::Workspace);
        if reported(paths, git_dir, Change::Index) {
            assert(changes[1] == Change::Index);
        }
    } else if reported(paths, git_dir, Change::Index) {
        assert(changes[0] == Change::Index);
    }
}

/// The directory behind `gitdir:` is found whatever white space is around it. An
/// absolute one is taken as it is, and any other from the root of the checkout.
/// A file that says no such thing names none.
pub proof fn worktrees_name_their_repository(
    contents: &str,
    root: &AbsPath,
    dir: Option<String>,
    path: Seq<char>,
    between: Seq<char>,
    after: Seq<char>,
)
    requires
        call_ensures(linked_git_dir, (contents, root), dir),
        forall|c: char| #[trigger] between.contains(c) ==> crate::text::white_space(c),
        forall|c: char| #[trigger] after.contains(c) ==> crate::text::white_space(c),
        path.len() > 0,
        !crate::text::white_space(path[0]),
        !crate::text::white_space(path.last()),
    ensures
        contents@ == "gitdir:"@ + between + path + after ==> dir is Some && dir->0@ == (
        if crate::paths::absolute(path) {
            path
        } else {
            crate::paths::joined_path(root@, path)
        }),
        contents@ == path && !"gitdir:"@.is_prefix_of(path) ==> dir is None,
{
    reveal_strlit("gitdir:");
    let word = "gitdir:"@;
    let nothing = Seq::<char>::empty();
    let line = word + between + path;
    crate::text::laws::separators_are_white_space('g');
    assert(line[0] == 'g');
    assert(line.last() == path.last());
    assert(nothing + line + after =~= word + between + path + after);
    crate::text::laws::white_space_is_trimmed(nothing, line, after);
    assert(word =~= line.subrange(0, word.len() as int));
    assert(line.skip(word.len() as int) =~= between + path + nothing);
    crate::text::laws::white_space_is_trimmed(between, path, nothing);
    assert(nothing + path + nothing =~= path);
    crate::text::laws::white_space_is_trimmed(nothing, path, nothing);
}

} // verus!
