//! Absolute, UTF-8 filesystem paths.
//!
//! Two invariants are enforced by construction, and everything downstream leans
//! on both:
//!
//! * **Absolute.** A relative path in a language server is always a bug waiting
//!   to happen, because the process' working directory has nothing to do with
//!   the workspace root.
//! * **UTF-8.** LSP speaks `file://` URIs and Bazel speaks label strings, both
//!   of which are text.
//!
//! Paths are *not* normalized beyond what the caller supplies. In particular a
//! path containing `..` is still absolute and still accepted: resolving those
//! requires touching the filesystem, which this module never does.
use camino::{Utf8Path, Utf8PathBuf};
use vstd::prelude::*;

use crate::text::{chars_of, same_text};

verus! {

/// Whether a path is absolute: it begins with the root, `/`.
pub open spec fn absolute(path: Seq<char>) -> bool {
    path.len() > 0 && path[0] == '/'
}

/// `Utf8Path::is_absolute`: on Unix, whether the path begins with the root.
#[verifier::external_body]
pub(crate) fn is_absolute(path: &str) -> (yes: bool)
    ensures
        yes == absolute(path@),
{
    Utf8Path::new(path).is_absolute()
}

/// The final component of a path, if it has one.
pub uninterp spec fn final_component(path: Seq<char>) -> Option<Seq<char>>;

/// `Utf8Path::file_name`: the final component of the path, if there is one.
#[verifier::external_body]
pub(crate) fn component_of(path: &str) -> (name: Option<&str>)
    ensures
        (match name {
            Some(name) => Some(name@),
            None => None,
        }) == final_component(path@),
{
    Utf8Path::new(path).file_name()
}

/// What follows the last `.` of a file name, unless the only one is its first
/// character.
pub open spec fn suffix_of(name: Seq<char>) -> Option<Seq<char>> {
    if name.contains('.') && name.skip(1).contains('.') {
        Some(crate::text::after_last(name, seq!['.']))
    } else {
        None
    }
}

/// `Utf8Path::extension`: nothing where there is no file name, no `.` in it or
/// only the one that it begins with; otherwise what follows its last `.`.
#[verifier::external_body]
pub(crate) fn extension_of(path: &str) -> (extension: Option<&str>)
    ensures
        (match extension {
            Some(extension) => Some(extension@),
            None => None,
        }) == (match final_component(path@) {
            Some(name) => suffix_of(name),
            None => None,
        }),
{
    Utf8Path::new(path).extension()
}

/// A path without its final component; nothing at the root.
pub uninterp spec fn parent_path(path: Seq<char>) -> Option<Seq<char>>;

/// `Utf8Path::parent`: the path without its final component, or nothing where it
/// ends in a root. What is left is shorter, and what is left of a path that
/// begins with the root begins with it too.
#[verifier::external_body]
pub(crate) fn parent_of(path: &str) -> (parent: Option<&str>)
    ensures
        (match parent {
            Some(parent) => Some(parent@),
            None => None,
        }) == parent_path(path@),
        parent matches Some(parent) ==> parent@.len() < path@.len(),
        absolute(path@) ==> (parent matches Some(parent) ==> absolute(parent@)),
{
    Utf8Path::new(path).parent().map(|parent| parent.as_str())
}

/// A path extended by another: an absolute one takes its place, and any other
/// goes behind it, with a separator between the two where the first is neither
/// empty nor ends in one.
pub open spec fn joined_path(base: Seq<char>, path: Seq<char>) -> Seq<char> {
    if absolute(path) {
        path
    } else if base.len() == 0 || base.last() == '/' {
        base + path
    } else {
        base + seq!['/'] + path
    }
}

/// Computes [`joined_path`].
pub(crate) fn join_of(base: &str, path: &str) -> (joined: String)
    ensures
        joined@ == joined_path(base@, path@),
{
    if is_absolute(path) {
        return path.to_owned();
    }
    let mut joined = base.to_owned();
    let chars = chars_of(base);
    if chars.len() > 0 && chars[chars.len() - 1] != '/' {
        joined.push('/');
    }
    joined.append(path);
    assert(joined@ =~= joined_path(base@, path@));
    joined
}

/// The components of a path, one behind the other: without repeated separators,
/// one at the end, and `.` anywhere but at the start.
pub uninterp spec fn component_path(path: Seq<char>) -> Seq<char>;

/// `Utf8Path::components`, collected into a path again, which has the same
/// components and so stays as it is when that is done once more. What begins with
/// the root still does.
#[verifier::external_body]
pub(crate) fn components_of(path: &str) -> (plain: String)
    ensures
        plain@ == component_path(path@),
        component_path(plain@) == plain@,
        absolute(path@) ==> absolute(plain@),
{
    Utf8Path::new(path).components().collect::<Utf8PathBuf>().into_string()
}

/// What is left of a path below `base`, where all components of `base` are its
/// first.
pub uninterp spec fn path_below(path: Seq<char>, base: Seq<char>) -> Option<Seq<char>>;

/// `Utf8Path::strip_prefix`: the path that joined onto `base` has the components
/// of `path`, or nothing where the components of `base` are not its first.
#[verifier::external_body]
pub(crate) fn below_of<'a>(path: &'a str, base: &str) -> (rest: Option<&'a str>)
    ensures
        (match rest {
            Some(rest) => Some(rest@),
            None => None,
        }) == path_below(path@, base@),
        rest matches Some(rest) ==> component_path(joined_path(base@, rest@)) == component_path(
            path@,
        ),
{
    Utf8Path::new(path).strip_prefix(base).ok().map(|rest| rest.as_str())
}

/// `Utf8Path::starts_with`: whether the components of `base` are the first of
/// `path`, which is when stripping it leaves something.
#[verifier::external_body]
pub(crate) fn is_below(path: &str, base: &str) -> (below: bool)
    ensures
        below == (path_below(path@, base@) is Some),
{
    Utf8Path::new(path).starts_with(base)
}

/// An owned absolute UTF-8 path.
#[derive(Debug)]
pub struct AbsPathBuf {
    text: String,
}

impl View for AbsPathBuf {
    type V = Seq<char>;

    closed spec fn view(&self) -> Seq<char> {
        self.text@
    }
}

impl Clone for AbsPathBuf {
    fn clone(&self) -> (out: AbsPathBuf)
        ensures
            out@ == self@,
    {
        self.copy()
    }
}

impl AbsPathBuf {
    /// Every path is absolute.
    #[verifier::type_invariant]
    spec fn is_rooted(self) -> bool {
        absolute(self.text@)
    }

    /// Wraps `path`, returning it unchanged in the `Err` case if it is relative.
    pub fn try_new(path: String) -> (wrapped: Result<AbsPathBuf, String>)
        ensures
            match wrapped {
                Ok(wrapped) => absolute(path@) && wrapped@ == path@,
                Err(unchanged) => !absolute(path@) && unchanged == path,
            },
    {
        if is_absolute(&path) {
            Ok(AbsPathBuf { text: path })
        } else {
            Err(path)
        }
    }

    /// The same path, borrowed.
    pub fn as_path(&self) -> (path: AbsPath<'_>)
        ensures
            path@ == self@,
    {
        proof {
            use_type_invariant(self);
        }
        AbsPath { text: self.text.as_str() }
    }

    /// The text of the path.
    pub fn as_str(&self) -> (text: &str)
        ensures
            text@ == self@,
            absolute(text@),
    {
        proof {
            use_type_invariant(self);
        }
        self.text.as_str()
    }

    /// The text of the path.
    pub fn into_string(self) -> (text: String)
        ensures
            text@ == self@,
            absolute(text@),
    {
        proof {
            use_type_invariant(&self);
        }
        self.text
    }

    /// A copy of the path.
    pub fn copy(&self) -> (out: AbsPathBuf)
        ensures
            out@ == self@,
    {
        proof {
            use_type_invariant(self);
        }
        AbsPathBuf { text: self.text.clone() }
    }

    /// The path that has the same components and nothing else between them.
    pub fn plain(&self) -> (out: AbsPathBuf)
        ensures
            out@ == component_path(self@),
            component_path(out@) == out@,
    {
        proof {
            use_type_invariant(self);
        }
        AbsPathBuf { text: components_of(&self.text) }
    }

    /// Whether two paths have the same components.
    pub fn same(&self, other: &AbsPathBuf) -> (same: bool)
        ensures
            same == (component_path(self@) == component_path(other@)),
    {
        same_text(&components_of(&self.text), &components_of(&other.text))
    }

    /// Appends `path`, which must be relative: an absolute one would silently
    /// discard `self`, and every caller here means "descend".
    pub fn push(&mut self, path: &str)
        requires
            !absolute(path@),
        ensures
            final(self)@ == joined_path(old(self)@, path@),
    {
        proof {
            use_type_invariant(&*self);
        }
        let joined = join_of(&self.text, path);
        *self = AbsPathBuf { text: joined };
    }

    /// Removes the last component, returning whether there was one to remove.
    /// The root is left intact.
    pub fn pop(&mut self) -> (removed: bool)
        ensures
            match parent_path(old(self)@) {
                Some(parent) => removed && final(self)@ == parent,
                None => !removed && final(self)@ == old(self)@,
            },
    {
        proof {
            use_type_invariant(&*self);
        }
        let parent = match parent_of(&self.text) {
            Some(parent) => parent.to_owned(),
            None => {
                return false;
            },
        };
        *self = AbsPathBuf { text: parent };
        true
    }
}

/// A borrowed absolute UTF-8 path. The counterpart of [`AbsPathBuf`].
#[derive(Copy, Clone, Debug)]
pub struct AbsPath<'a> {
    text: &'a str,
}

impl<'a> View for AbsPath<'a> {
    type V = Seq<char>;

    closed spec fn view(&self) -> Seq<char> {
        self.text@
    }
}

impl<'a> AbsPath<'a> {
    /// Every path is absolute.
    #[verifier::type_invariant]
    spec fn is_rooted(self) -> bool {
        absolute(self.text@)
    }

    /// Wraps `path`, which must be absolute. Prefer [`AbsPath::try_new`] at
    /// boundaries; this exists for the case where absoluteness is already
    /// established.
    pub fn new_unchecked(path: &'a str) -> (wrapped: AbsPath<'a>)
        requires
            absolute(path@),
        ensures
            wrapped@ == path@,
    {
        AbsPath { text: path }
    }

    /// Wraps `path` where it is absolute.
    pub fn try_new(path: &'a str) -> (wrapped: Option<AbsPath<'a>>)
        ensures
            match wrapped {
                Some(wrapped) => absolute(path@) && wrapped@ == path@,
                None => !absolute(path@),
            },
    {
        if is_absolute(path) {
            Some(AbsPath { text: path })
        } else {
            None
        }
    }

    /// The text of the path.
    pub fn as_str(&self) -> (text: &'a str)
        ensures
            text@ == self@,
            absolute(text@),
    {
        proof {
            use_type_invariant(self);
        }
        self.text
    }

    /// The path, owned.
    pub fn to_path_buf(&self) -> (path: AbsPathBuf)
        ensures
            path@ == self@,
    {
        proof {
            use_type_invariant(self);
        }
        AbsPathBuf { text: self.text.to_owned() }
    }

    /// The parent directory, or `None` at the filesystem root.
    pub fn parent(&self) -> (parent: Option<AbsPath<'a>>)
        ensures
            (match parent {
                Some(parent) => Some(parent@),
                None => None,
            }) == parent_path(self@),
    {
        proof {
            use_type_invariant(self);
        }
        match parent_of(self.text) {
            Some(parent) => Some(AbsPath { text: parent }),
            None => None,
        }
    }

    /// Appends a relative path, for the reason given on [`AbsPathBuf::push`].
    pub fn join(&self, path: &str) -> (joined: AbsPathBuf)
        requires
            !absolute(path@),
        ensures
            joined@ == joined_path(self@, path@),
    {
        let mut buf = self.to_path_buf();
        buf.push(path);
        buf
    }

    /// Final component, if any. `None` for the root and for paths ending in `..`.
    pub fn file_name(&self) -> (name: Option<&'a str>)
        ensures
            (match name {
                Some(name) => Some(name@),
                None => None,
            }) == final_component(self@),
    {
        component_of(self.text)
    }

    /// Extension without the leading dot.
    pub fn extension(&self) -> (extension: Option<&'a str>)
        ensures
            (match extension {
                Some(extension) => Some(extension@),
                None => None,
            }) == (match final_component(self@) {
                Some(name) => suffix_of(name),
                None => None,
            }),
    {
        extension_of(self.text)
    }

    /// Whether the components of `base` are the first of this path.
    pub fn starts_with(&self, base: &AbsPath) -> (below: bool)
        ensures
            below == (path_below(self@, base@) is Some),
    {
        is_below(self.text, base.text)
    }

    /// What is left of this path below `base`.
    pub fn strip_prefix(&self, base: &AbsPath) -> (rest: Option<&'a str>)
        ensures
            (match rest {
                Some(rest) => Some(rest@),
                None => None,
            }) == path_below(self@, base@),
    {
        below_of(self.text, base.text)
    }
}

/// A relative path that is joined on goes to the end, behind a separator wherever
/// anything stands before it, and what it is joined on stays in front. An
/// absolute one takes its place.
pub proof fn joined_paths_descend(base: Seq<char>, path: Seq<char>)
    ensures
        absolute(path) ==> joined_path(base, path) == path,
        !absolute(path) ==> base.is_prefix_of(joined_path(base, path)) && path.is_suffix_of(
            joined_path(base, path),
        ),
        !absolute(path) && base.len() > 0 ==> joined_path(base, path)[joined_path(base, path).len()
            - path.len() - 1] == '/',
        !absolute(path) ==> joined_path(base, path).len() <= base.len() + path.len() + 1,
        absolute(base) ==> absolute(joined_path(base, path)),
{
    if !absolute(path) {
        let joined = joined_path(base, path);
        assert(base =~= joined.subrange(0, base.len() as int));
        assert(path =~= joined.subrange(joined.len() - path.len(), joined.len() as int));
    }
}

/// A name with something before its last `.` has what follows that as its
/// extension, which holds no other. Any other name has none.
pub proof fn extensions_follow_the_last_dot(stem: Seq<char>, extension: Seq<char>)
    requires
        !extension.contains('.'),
    ensures
        stem.len() > 0 ==> suffix_of(stem + seq!['.'] + extension) == Some(extension),
        suffix_of(seq!['.'] + extension) is None,
        suffix_of(extension) is None,
{
    let name = stem + seq!['.'] + extension;
    assert(name[stem.len() as int] == '.');
    if stem.len() > 0 {
        assert(name.skip(1)[stem.len() - 1] == '.');
        assert(seq!['.'].contains('.')) by {
            assert(seq!['.'][0] == '.');
        }
        crate::text::laws::what_follows_the_last_is_after_it(stem, '.', extension, seq!['.']);
    }
    assert((seq!['.'] + extension).skip(1) =~= extension);
}

} // verus!
