//! Paths to things the server can read, which are not all files on disk.
//!
//! Most of a Bazel target's classpath arrives as jars, and the JDK's own types
//! are not in a jar at all: since Java 9 they live in `$JAVA_HOME/lib/modules`,
//! a jimage archive. Both hold things the server must be able to name, hash, and
//! hand back as a location.
//!
//! So a [`VfsPath`] is one of three things, and the distinction is kept because
//! the three have genuinely different storage behind them:
//!
//! | Variant | Backed by | Example |
//! | --- | --- | --- |
//! | [`VfsPath::Real`] | the filesystem | `/repo/java/com/acme/core/Clock.java` |
//! | [`VfsPath::Jar`] | a zip archive | `jar:/repo/libpolicy.jar!/com/acme/policy/P.class` |
//! | [`VfsPath::Jrt`] | the JDK's jimage | `jrt:/java.base/java/lang/String.class` |
//!
//! The textual forms above round-trip through [`VfsPath::to_text`] and
//! [`VfsPath::parse`], which is what lets a path survive the persisted index and
//! the LSP boundary. The `jar:` and `jrt:` spellings follow Java's own
//! conventions.
use vstd::prelude::*;

use crate::paths::AbsPathBuf;
use crate::text::{
    begins_with, chars_of, find, is_one_of, same_text, slice_after_last, slice_before_first,
    slice_trim_start, string_of, substring,
};

verus! {

/// `jar:`, which begins a path into a jar.
pub open spec fn jar_scheme() -> Seq<char> {
    seq!['j', 'a', 'r', ':']
}

/// `!/`, which separates the archive from the entry within it, as in Java's
/// `jar:` URLs.
pub open spec fn jar_separator() -> Seq<char> {
    seq!['!', '/']
}

/// `jrt:/`, which begins a path into the JDK's module image.
pub open spec fn jrt_scheme() -> Seq<char> {
    seq!['j', 'r', 't', ':', '/']
}

/// A path to something readable: a file on disk, or an entry inside an archive.
#[derive(Debug)]
pub enum VfsPath {
    /// A file on the real filesystem.
    Real(AbsPathBuf),
    /// An entry inside a jar. Both halves are needed: the same entry name
    /// appears in many jars, and the same jar is read many times.
    Jar(JarPath),
    /// An entry inside the JDK's module image.
    Jrt(JrtPath),
}

/// An entry inside a zip archive on disk.
#[derive(Debug)]
pub struct JarPath {
    jar: AbsPathBuf,
    /// Slash-separated, never leading-slashed, as zip entry names are stored.
    entry: String,
}

/// An entry inside the JDK's jimage archive, named by module.
#[derive(Debug)]
pub struct JrtPath {
    module: String,
    /// Slash-separated path within the module, never leading-slashed, e.g.
    /// `java/lang/String.class`.
    entry: String,
}

/// The view of a [`VfsPath`].
pub enum PathView {
    Real(Seq<char>),
    Jar(Seq<char>, Seq<char>),
    Jrt(Seq<char>, Seq<char>),
}

/// Why a string could not be read as a [`VfsPath`].
#[derive(Debug)]
pub enum PathParseError {
    /// A `jar:` path with no `!/` separating archive from entry.
    MissingJarSeparator(String),
    /// The entry half was empty, which would name the archive itself.
    EmptyEntry,
    /// A module name that was empty or contained a slash.
    BadModule(String),
    /// A real or jar path that was not absolute.
    NotAbsolute(String),
    /// A `jrt:` path with no `/` after the module name.
    MissingJrtEntry(String),
}

/// The view of a [`PathParseError`].
pub enum PathErrorView {
    MissingJarSeparator(Seq<char>),
    EmptyEntry,
    BadModule(Seq<char>),
    NotAbsolute(Seq<char>),
    MissingJrtEntry(Seq<char>),
}

impl View for PathParseError {
    type V = PathErrorView;

    open spec fn view(&self) -> PathErrorView {
        match *self {
            PathParseError::MissingJarSeparator(s) => PathErrorView::MissingJarSeparator(s@),
            PathParseError::EmptyEntry => PathErrorView::EmptyEntry,
            PathParseError::BadModule(s) => PathErrorView::BadModule(s@),
            PathParseError::NotAbsolute(s) => PathErrorView::NotAbsolute(s@),
            PathParseError::MissingJrtEntry(s) => PathErrorView::MissingJrtEntry(s@),
        }
    }
}

/// What an error says.
pub open spec fn error_text(error: PathErrorView) -> Seq<char> {
    match error {
        PathErrorView::MissingJarSeparator(s) => "jar path is missing the `!/` separator: `"@ + s
            + "`"@,
        PathErrorView::EmptyEntry => "archive entry is empty"@,
        PathErrorView::BadModule(m) => "not a module name: `"@ + m + "`"@,
        PathErrorView::NotAbsolute(p) => "path is not absolute: `"@ + p + "`"@,
        PathErrorView::MissingJrtEntry(s) => "jrt path has a module but no entry: `"@ + s + "`"@,
    }
}

impl PathParseError {
    /// Computes [`error_text`].
    pub fn describe(&self) -> (text: String)
        ensures
            text@ == error_text(self@),
    {
        let (start, rest) = match self {
            PathParseError::MissingJarSeparator(s) => (
                "jar path is missing the `!/` separator: `",
                s,
            ),
            PathParseError::EmptyEntry => {
                return "archive entry is empty".to_owned();
            },
            PathParseError::BadModule(m) => ("not a module name: `", m),
            PathParseError::NotAbsolute(p) => ("path is not absolute: `", p),
            PathParseError::MissingJrtEntry(s) => ("jrt path has a module but no entry: `", s),
        };
        let mut text = start.to_owned();
        text.append(rest.as_str());
        text.append("`");
        text
    }
}

impl View for JarPath {
    type V = (Seq<char>, Seq<char>);

    closed spec fn view(&self) -> (Seq<char>, Seq<char>) {
        (self.jar@, self.entry@)
    }
}

impl View for JrtPath {
    type V = (Seq<char>, Seq<char>);

    closed spec fn view(&self) -> (Seq<char>, Seq<char>) {
        (self.module@, self.entry@)
    }
}

impl View for VfsPath {
    type V = PathView;

    open spec fn view(&self) -> PathView {
        match *self {
            VfsPath::Real(path) => PathView::Real(path@),
            VfsPath::Jar(jar) => PathView::Jar(jar@.0, jar@.1),
            VfsPath::Jrt(jrt) => PathView::Jrt(jrt@.0, jrt@.1),
        }
    }
}

/// A path in its plain spelling. Two paths with one plain spelling are the same:
/// what tells paths apart are their components.
pub open spec fn plain_path(path: PathView) -> PathView {
    match path {
        PathView::Real(path) => PathView::Real(crate::paths::component_path(path)),
        PathView::Jar(jar, entry) => PathView::Jar(crate::paths::component_path(jar), entry),
        PathView::Jrt(module, entry) => PathView::Jrt(module, entry),
    }
}

/// An entry without the slashes it may begin with; an error where nothing is
/// left.
///
/// Zip stores entry names without a leading slash, but `jar:` URLs write one
/// after the `!`. Normalizing keeps the two spellings from naming the same bytes
/// twice.
pub open spec fn normalized_entry(entry: Seq<char>) -> Result<Seq<char>, PathErrorView> {
    let rest = crate::text::trim_start(entry, seq!['/']);
    if rest.len() == 0 {
        Err(PathErrorView::EmptyEntry)
    } else {
        Ok(rest)
    }
}

/// Whether an entry is stored as zip stores it: not empty, and without a leading
/// slash.
pub open spec fn stored_entry(entry: Seq<char>) -> bool {
    entry.len() > 0 && entry[0] != '/'
}

/// The path to an entry of a jar.
pub open spec fn jar_path(jar: Seq<char>, entry: Seq<char>) -> Result<PathView, PathErrorView> {
    match normalized_entry(entry) {
        Ok(entry) => Ok(PathView::Jar(jar, entry)),
        Err(error) => Err(error),
    }
}

/// The path to an entry of a module.
pub open spec fn jrt_path(
    module: Seq<char>,
    entry: Seq<char>,
) -> Result<PathView, PathErrorView> {
    if module.len() == 0 || module.contains('/') {
        Err(PathErrorView::BadModule(module))
    } else {
        match normalized_entry(entry) {
            Ok(entry) => Ok(PathView::Jrt(module, entry)),
            Err(error) => Err(error),
        }
    }
}

/// What a textual form stands for.
pub open spec fn parsed(s: Seq<char>) -> Result<PathView, PathErrorView> {
    if jar_scheme().is_prefix_of(s) {
        let rest = s.skip(4);
        if crate::text::occurs_in(rest, jar_separator()) {
            let at = crate::text::first_at(rest, jar_separator());
            let jar = rest.take(at);
            if crate::paths::absolute(jar) {
                jar_path(jar, rest.skip(at + 2))
            } else {
                Err(PathErrorView::NotAbsolute(jar))
            }
        } else {
            Err(PathErrorView::MissingJarSeparator(s))
        }
    } else if jrt_scheme().is_prefix_of(s) {
        let rest = s.skip(5);
        if rest.contains('/') {
            let module = crate::text::before_first(rest, seq!['/']);
            jrt_path(module, rest.skip(module.len() as int + 1))
        } else {
            Err(PathErrorView::MissingJrtEntry(s))
        }
    } else if crate::paths::absolute(s) {
        Ok(PathView::Real(s))
    } else {
        Err(PathErrorView::NotAbsolute(s))
    }
}

/// The textual form of a path.
pub open spec fn displayed(path: PathView) -> Seq<char> {
    match path {
        PathView::Real(path) => path,
        PathView::Jar(jar, entry) => jar_scheme() + jar + jar_separator() + entry,
        PathView::Jrt(module, entry) => jrt_scheme() + module + seq!['/'] + entry,
    }
}

/// What holds of every path: real paths and archives are absolute, module names
/// hold no slash, no half is empty, and no entry begins with a slash.
pub open spec fn valid_path(path: PathView) -> bool {
    match path {
        PathView::Real(path) => crate::paths::absolute(path),
        PathView::Jar(jar, entry) => crate::paths::absolute(jar) && stored_entry(entry),
        PathView::Jrt(module, entry) => module.len() > 0 && !module.contains('/') && stored_entry(
            entry,
        ),
    }
}

/// Whether the textual form of a path can be read back: an archive's path does
/// not hold the separator.
pub open spec fn readable_text(path: PathView) -> bool {
    match path {
        PathView::Jar(jar, _) => !crate::text::occurs_in(jar, jar_separator()),
        _ => true,
    }
}

proof fn lemma_before_first(head: Seq<char>, rest: Seq<char>)
    requires
        !head.contains('/'),
    ensures
        crate::text::before_first(head + seq!['/'] + rest, seq!['/']) == head,
    decreases head.len(),
{
    let s = head + seq!['/'] + rest;
    assert(seq!['/'].contains('/')) by {
        assert(seq!['/'][0] == '/');
    }
    if head.len() == 0 {
        assert(s[0] == '/');
        assert(head =~= Seq::<char>::empty());
    } else {
        assert(s[0] == head[0]);
        assert(head[0] != '/') by {
            assert(head.contains(head[0]));
        }
        let tail = head.drop_first();
        assert(!tail.contains('/')) by {
            if tail.contains('/') {
                let k = choose|k: int| 0 <= k < tail.len() && tail[k] == '/';
                assert(head[k + 1] == '/');
            }
        }
        assert(s.drop_first() =~= tail + seq!['/'] + rest);
        lemma_before_first(tail, rest);
        assert(seq![head[0]] + tail =~= head);
    }
}

proof fn lemma_real_round_trip(path: Seq<char>)
    requires
        crate::paths::absolute(path),
    ensures
        parsed(path) == Ok::<PathView, PathErrorView>(PathView::Real(path)),
{
    if jar_scheme().is_prefix_of(path) {
        assert(path[0] == jar_scheme()[0]);
    }
    if jrt_scheme().is_prefix_of(path) {
        assert(path[0] == jrt_scheme()[0]);
    }
}

/// The separator behind an archive that does not hold it is the first.
proof fn lemma_separator_first(jar: Seq<char>, entry: Seq<char>)
    requires
        !crate::text::occurs_in(jar, jar_separator()),
    ensures
        crate::text::occurs_in(jar + jar_separator() + entry, jar_separator()),
        crate::text::first_at(jar + jar_separator() + entry, jar_separator()) == jar.len(),
{
    let rest = jar + jar_separator() + entry;
    let at = jar.len() as int;
    assert(rest.subrange(at, at + 2) =~= jar_separator());
    assert(crate::text::occurs_at(rest, jar_separator(), at));
    assert forall|k: int| 0 <= k < at implies !#[trigger] crate::text::occurs_at(
        rest,
        jar_separator(),
        k,
    ) by {
        if crate::text::occurs_at(rest, jar_separator(), k) {
            let found = rest.subrange(k, k + 2);
            assert(found[1] == rest[k + 1]);
            assert(found[1] == '/');
            if k + 1 < at {
                assert(jar.subrange(k, k + 2) =~= found);
                assert(crate::text::occurs_at(jar, jar_separator(), k));
            } else {
                assert(rest[at] == '!');
            }
        }
    }
    crate::text::lemma_first_at(rest, jar_separator(), at);
}

proof fn lemma_jar_round_trip(jar: Seq<char>, entry: Seq<char>)
    requires
        crate::paths::absolute(jar),
        stored_entry(entry),
        crate::text::occurs_in(jar + jar_separator() + entry, jar_separator()),
        crate::text::first_at(jar + jar_separator() + entry, jar_separator()) == jar.len(),
    ensures
        parsed(jar_scheme() + jar + jar_separator() + entry) == Ok::<PathView, PathErrorView>(
            PathView::Jar(jar, entry),
        ),
{
    let s = jar_scheme() + jar + jar_separator() + entry;
    let rest = jar + jar_separator() + entry;
    let at = jar.len() as int;
    assert(s.take(4) =~= jar_scheme());
    assert(s.skip(4) =~= rest);
    assert(rest.take(at) =~= jar);
    assert(rest.skip(at + 2) =~= entry);
    assert(jar_scheme().is_prefix_of(s));
    lemma_stored(entry);
}

proof fn lemma_jrt_round_trip(module: Seq<char>, entry: Seq<char>)
    requires
        valid_path(PathView::Jrt(module, entry)),
    ensures
        parsed(displayed(PathView::Jrt(module, entry))) == Ok::<PathView, PathErrorView>(
            PathView::Jrt(module, entry),
        ),
{
    let s = displayed(PathView::Jrt(module, entry));
    let rest = module + seq!['/'] + entry;
    assert(!jar_scheme().is_prefix_of(s)) by {
        if jar_scheme().is_prefix_of(s) {
            assert(s[1] == jar_scheme()[1]);
            assert(s[1] == jrt_scheme()[1]);
        }
    }
    assert(jrt_scheme().is_prefix_of(s)) by {
        assert(s.take(5) =~= jrt_scheme());
    }
    assert(s.skip(5) =~= rest);
    assert(rest.contains('/')) by {
        assert(rest[module.len() as int] == '/');
    }
    lemma_before_first(module, entry);
    assert(rest.skip(module.len() as int + 1) =~= entry);
    lemma_stored(entry);
}

/// The textual form of a path reads back as the path.
pub proof fn paths_round_trip(path: PathView)
    requires
        valid_path(path),
        readable_text(path),
    ensures
        parsed(displayed(path)) == Ok::<PathView, PathErrorView>(path),
{
    match path {
        PathView::Real(path) => lemma_real_round_trip(path),
        PathView::Jar(jar, entry) => {
            lemma_separator_first(jar, entry);
            lemma_jar_round_trip(jar, entry);
        },
        PathView::Jrt(module, entry) => lemma_jrt_round_trip(module, entry),
    }
}

/// Slashes before an entry make no difference.
pub proof fn entry_slash_is_normalized_away(jar: Seq<char>, entry: Seq<char>)
    ensures
        jar_path(jar, seq!['/'] + entry) == jar_path(jar, entry),
{
    let slashed = seq!['/'] + entry;
    assert(seq!['/'].contains(slashed[0])) by {
        assert(seq!['/'][0] == '/');
    }
    assert(slashed.drop_first() =~= entry);
}

/// What is left of an entry begins with no slash.
proof fn lemma_trimmed(entry: Seq<char>)
    ensures
        crate::text::trim_start(entry, seq!['/']).len() > 0 ==> crate::text::trim_start(
            entry,
            seq!['/'],
        )[0] != '/',
    decreases entry.len(),
{
    if entry.len() > 0 {
        assert(seq!['/'][0] == '/');
        lemma_trimmed(entry.drop_first());
    }
}

/// An entry that has no leading slash stays as it is.
proof fn lemma_stored(entry: Seq<char>)
    requires
        stored_entry(entry),
    ensures
        normalized_entry(entry) == Ok::<Seq<char>, PathErrorView>(entry),
{
    assert(!seq!['/'].contains(entry[0]));
}

/// However an entry is spelt, it is stored without a leading slash, and nothing
/// else of a path changes.
pub proof fn entries_are_never_leading_slashed(half: Seq<char>, entry: Seq<char>)
    ensures
        jar_path(half, entry) matches Ok(path) ==> path matches PathView::Jar(jar, stored) && jar
            == half && stored_entry(stored),
        jrt_path(half, entry) matches Ok(path) ==> path matches PathView::Jrt(module, stored)
            && module == half && stored_entry(stored),
{
    lemma_trimmed(entry);
}

/// Strips leading slashes and rejects the empty entry.
pub fn normalize_entry(entry: &str) -> (normal: Result<String, PathParseError>)
    ensures
        match normal {
            Ok(normal) => normalized_entry(entry@) == Ok::<Seq<char>, PathErrorView>(normal@)
                && stored_entry(normal@),
            Err(error) => normalized_entry(entry@) == Err::<Seq<char>, PathErrorView>(error@),
        },
{
    let chars = chars_of(entry);
    let slash = ['/'];
    assert(slash@ =~= seq!['/']);
    let rest = slice_trim_start(chars.as_slice(), slash.as_slice());
    proof {
        lemma_trimmed(entry@);
    }
    if rest.len() == 0 {
        return Err(PathParseError::EmptyEntry);
    }
    Ok(string_of(rest))
}

impl JarPath {
    /// The entry is not empty, and begins with no slash.
    #[verifier::type_invariant]
    spec fn has_entry(self) -> bool {
        stored_entry(self.entry@)
    }

    /// The path to an entry of a jar.
    pub fn new(jar: AbsPathBuf, entry: &str) -> (path: Result<JarPath, PathParseError>)
        ensures
            match path {
                Ok(path) => jar_path(jar@, entry@) == Ok::<PathView, PathErrorView>(
                    PathView::Jar(path@.0, path@.1),
                ),
                Err(error) => jar_path(jar@, entry@) == Err::<PathView, PathErrorView>(error@),
            },
    {
        match normalize_entry(entry) {
            Ok(entry) => Ok(JarPath { jar, entry }),
            Err(error) => Err(error),
        }
    }

    /// The archive.
    pub fn jar(&self) -> (jar: &AbsPathBuf)
        ensures
            jar@ == self@.0,
    {
        &self.jar
    }

    /// The entry within the archive.
    pub fn entry(&self) -> (entry: &str)
        ensures
            entry@ == self@.1,
            stored_entry(entry@),
    {
        proof {
            use_type_invariant(self);
        }
        self.entry.as_str()
    }
}

impl JrtPath {
    /// Neither half is empty, the module name holds no slash, and the entry
    /// begins with none.
    #[verifier::type_invariant]
    spec fn is_named(self) -> bool {
        self.module@.len() > 0 && !self.module@.contains('/') && stored_entry(self.entry@)
    }

    /// The path to an entry of a module.
    pub fn new(module: &str, entry: &str) -> (path: Result<JrtPath, PathParseError>)
        ensures
            match path {
                Ok(path) => jrt_path(module@, entry@) == Ok::<PathView, PathErrorView>(
                    PathView::Jrt(path@.0, path@.1),
                ),
                Err(error) => jrt_path(module@, entry@) == Err::<PathView, PathErrorView>(error@),
            },
    {
        let chars = chars_of(module);
        if chars.len() == 0 || is_one_of('/', chars.as_slice()) {
            return Err(PathParseError::BadModule(module.to_owned()));
        }
        match normalize_entry(entry) {
            Ok(entry) => Ok(JrtPath { module: module.to_owned(), entry }),
            Err(error) => Err(error),
        }
    }

    /// The module.
    pub fn module(&self) -> (module: &str)
        ensures
            module@ == self@.0,
            module@.len() > 0,
            !module@.contains('/'),
    {
        proof {
            use_type_invariant(self);
        }
        self.module.as_str()
    }

    /// The entry within the module.
    pub fn entry(&self) -> (entry: &str)
        ensures
            entry@ == self@.1,
            stored_entry(entry@),
    {
        proof {
            use_type_invariant(self);
        }
        self.entry.as_str()
    }
}

/// The file name that an archive entry ends in, unless it ends in a slash.
pub open spec fn entry_file_name(entry: Seq<char>) -> Option<Seq<char>> {
    let name = crate::text::after_last(entry, seq!['/']);
    if name.len() > 0 {
        Some(name)
    } else {
        None
    }
}

/// The final component of a path.
pub open spec fn file_name_of(path: PathView) -> Option<Seq<char>> {
    match path {
        PathView::Real(path) => crate::paths::final_component(path),
        PathView::Jar(_, entry) => entry_file_name(entry),
        PathView::Jrt(_, entry) => entry_file_name(entry),
    }
}

/// What follows the last dot of a file name, where something stands before and
/// behind it.
pub open spec fn name_extension(name: Seq<char>) -> Option<Seq<char>> {
    let extension = crate::text::after_last(name, seq!['.']);
    if name.contains('.') && extension.len() > 0 && extension.len() + 1 < name.len() {
        Some(extension)
    } else {
        None
    }
}

/// The text of an optional string.
pub open spec fn optional_text(text: Option<String>) -> Option<Seq<char>> {
    match text {
        Some(text) => Some(text@),
        None => None,
    }
}

impl VfsPath {
    /// The path of a file on disk.
    pub fn from_real(path: AbsPathBuf) -> (out: VfsPath)
        ensures
            out@ == PathView::Real(path@),
    {
        VfsPath::Real(path)
    }

    /// Fails if `entry` is empty, since an archive with no entry names the
    /// archive itself and callers always mean a thing inside it.
    pub fn from_jar(jar: AbsPathBuf, entry: &str) -> (path: Result<VfsPath, PathParseError>)
        ensures
            match path {
                Ok(path) => jar_path(jar@, entry@) == Ok::<PathView, PathErrorView>(path@),
                Err(error) => jar_path(jar@, entry@) == Err::<PathView, PathErrorView>(error@),
            },
    {
        match JarPath::new(jar, entry) {
            Ok(path) => Ok(VfsPath::Jar(path)),
            Err(error) => Err(error),
        }
    }

    /// Fails if either half is empty.
    pub fn from_jrt(module: &str, entry: &str) -> (path: Result<VfsPath, PathParseError>)
        ensures
            match path {
                Ok(path) => jrt_path(module@, entry@) == Ok::<PathView, PathErrorView>(path@),
                Err(error) => jrt_path(module@, entry@) == Err::<PathView, PathErrorView>(error@),
            },
    {
        match JrtPath::new(module, entry) {
            Ok(path) => Ok(VfsPath::Jrt(path)),
            Err(error) => Err(error),
        }
    }

    /// The real filesystem path, for [`VfsPath::Real`] only.
    ///
    /// Archive entries return `None` rather than the containing archive's path:
    /// callers that want to open a file must not silently get a jar and read the
    /// wrong bytes.
    pub fn as_real(&self) -> (path: Option<&AbsPathBuf>)
        ensures
            match self@ {
                PathView::Real(text) => path matches Some(path) && path@ == text,
                _ => path is None,
            },
    {
        match self {
            VfsPath::Real(path) => Some(path),
            _ => None,
        }
    }

    /// The archive that has to be opened to read this path, if any. This is the
    /// file to watch for invalidation: an entry has no mtime of its own.
    pub fn backing_file(&self) -> (file: Option<&AbsPathBuf>)
        ensures
            match self@ {
                PathView::Real(text) => file matches Some(file) && file@ == text,
                PathView::Jar(jar, _) => file matches Some(file) && file@ == jar,
                PathView::Jrt(_, _) => file is None,
            },
    {
        match self {
            VfsPath::Real(path) => Some(path),
            VfsPath::Jar(jar) => Some(jar.jar()),
            VfsPath::Jrt(_) => None,
        }
    }

    /// True when reading this needs no archive to be opened.
    pub fn is_real(&self) -> (yes: bool)
        ensures
            yes == (self@ is Real),
    {
        match self {
            VfsPath::Real(_) => true,
            _ => false,
        }
    }

    /// Final path component: `Clock.java`, `String.class`.
    pub fn file_name(&self) -> (name: Option<String>)
        ensures
            optional_text(name) == file_name_of(self@),
    {
        match self {
            VfsPath::Real(path) => match path.as_path().file_name() {
                Some(name) => Some(name.to_owned()),
                None => None,
            },
            VfsPath::Jar(path) => last_part(path.entry()),
            VfsPath::Jrt(path) => last_part(path.entry()),
        }
    }

    /// Extension without the leading dot: `java`, `class`. A dotfile like
    /// `.gitignore` has none.
    pub fn extension(&self) -> (extension: Option<String>)
        ensures
            optional_text(extension) == (match file_name_of(self@) {
                Some(name) => name_extension(name),
                None => None,
            }),
    {
        let name = match self.file_name() {
            Some(name) => name,
            None => {
                return None;
            },
        };
        let chars = chars_of(&name);
        let dots = ['.'];
        assert(dots@ =~= seq!['.']);
        let extension = slice_after_last(chars.as_slice(), dots.as_slice());
        if is_one_of('.', chars.as_slice()) && extension.len() > 0 && extension.len() < chars.len()
            - 1 {
            Some(string_of(extension))
        } else {
            None
        }
    }

    /// The textual form of the path.
    pub fn to_text(&self) -> (text: String)
        ensures
            text@ == displayed(self@),
            valid_path(self@),
    {
        match self {
            VfsPath::Real(path) => path.as_str().to_owned(),
            VfsPath::Jar(path) => {
                proof {
                    reveal_strlit("jar:");
                    reveal_strlit("!/");
                    assert("jar:"@ =~= jar_scheme());
                    assert("!/"@ =~= jar_separator());
                }
                let mut text = "jar:".to_owned();
                text.append(path.jar().as_str());
                text.append("!/");
                text.append(path.entry());
                text
            },
            VfsPath::Jrt(path) => {
                proof {
                    reveal_strlit("jrt:/");
                    reveal_strlit("/");
                    assert("jrt:/"@ =~= jrt_scheme());
                    assert("/"@ =~= seq!['/']);
                }
                let mut text = "jrt:/".to_owned();
                text.append(path.module());
                text.append("/");
                text.append(path.entry());
                text
            },
        }
    }

    /// Reads a textual form.
    pub fn parse(s: &str) -> (path: Result<VfsPath, PathParseError>)
        ensures
            match path {
                Ok(path) => parsed(s@) == Ok::<PathView, PathErrorView>(path@),
                Err(error) => parsed(s@) == Err::<PathView, PathErrorView>(error@),
            },
    {
        let chars = chars_of(s);
        let n: usize = chars.len();
        let jar_prefix = ['j', 'a', 'r', ':'];
        let jrt_prefix = ['j', 'r', 't', ':', '/'];
        let separator = ['!', '/'];
        let slash = ['/'];
        proof {
            assert(jar_prefix@ =~= jar_scheme());
            assert(jrt_prefix@ =~= jrt_scheme());
            assert(separator@ =~= jar_separator());
            assert(slash@ =~= seq!['/']);
        }
        if begins_with(chars.as_slice(), jar_prefix.as_slice()) {
            let rest = vstd::slice::slice_subrange(chars.as_slice(), 4, n);
            assert(rest@ =~= s@.skip(4));
            let at: usize = match find(rest, separator.as_slice()) {
                Some(at) => at,
                None => {
                    return Err(PathParseError::MissingJarSeparator(s.to_owned()));
                },
            };
            proof {
                crate::text::lemma_first_at(rest@, jar_separator(), at as int);
            }
            let jar = substring(rest, 0, at);
            let entry = substring(rest, at + 2, rest.len());
            assert(jar@ =~= rest@.take(at as int));
            assert(entry@ =~= rest@.skip(at + 2));
            return match parse_abs(jar) {
                Ok(jar) => VfsPath::from_jar(jar, &entry),
                Err(error) => Err(error),
            };
        }
        if begins_with(chars.as_slice(), jrt_prefix.as_slice()) {
            let rest = vstd::slice::slice_subrange(chars.as_slice(), 5, n);
            assert(rest@ =~= s@.skip(5));
            if !is_one_of('/', rest) {
                return Err(PathParseError::MissingJrtEntry(s.to_owned()));
            }
            let module = slice_before_first(rest, slash.as_slice());
            proof {
                if module@.len() == rest@.len() {
                    assert(rest@.take(rest@.len() as int) =~= rest@);
                    lemma_no_slash_before(rest@);
                }
            }
            let entry = substring(rest, module.len() + 1, rest.len());
            assert(entry@ =~= rest@.skip(module@.len() as int + 1));
            return VfsPath::from_jrt(&string_of(module), &entry);
        }
        match parse_abs(s.to_owned()) {
            Ok(path) => Ok(VfsPath::Real(path)),
            Err(error) => Err(error),
        }
    }

    /// A copy of the path.
    pub fn copy(&self) -> (out: VfsPath)
        ensures
            out@ == self@,
    {
        match self {
            VfsPath::Real(path) => VfsPath::Real(path.copy()),
            VfsPath::Jar(path) => {
                proof {
                    use_type_invariant(path);
                }
                VfsPath::Jar(JarPath { jar: path.jar.copy(), entry: path.entry.clone() })
            },
            VfsPath::Jrt(path) => {
                proof {
                    use_type_invariant(path);
                }
                VfsPath::Jrt(JrtPath { module: path.module.clone(), entry: path.entry.clone() })
            },
        }
    }

    /// What the path is told from others by: its plain spelling.
    pub open spec fn key(&self) -> PathView {
        plain_path(self@)
    }

    /// The path in its plain spelling.
    pub fn plain(&self) -> (out: VfsPath)
        ensures
            out@ == self.key(),
            out.key() == out@,
    {
        match self {
            VfsPath::Real(path) => VfsPath::Real(path.plain()),
            VfsPath::Jar(path) => {
                proof {
                    use_type_invariant(path);
                }
                VfsPath::Jar(JarPath { jar: path.jar.plain(), entry: path.entry.clone() })
            },
            VfsPath::Jrt(_) => self.copy(),
        }
    }

    /// Whether two paths are the same. A real path and an archive entry never
    /// are, whatever their texts.
    pub fn same(&self, other: &VfsPath) -> (same: bool)
        ensures
            same == (self.key() == other.key()),
    {
        match (self, other) {
            (VfsPath::Real(a), VfsPath::Real(b)) => a.same(b),
            (VfsPath::Jar(a), VfsPath::Jar(b)) => a.jar.same(&b.jar) && same_text(
                &a.entry,
                &b.entry,
            ),
            (VfsPath::Jrt(a), VfsPath::Jrt(b)) => same_text(&a.module, &b.module) && same_text(
                &a.entry,
                &b.entry,
            ),
            _ => false,
        }
    }
}

impl Clone for VfsPath {
    fn clone(&self) -> (out: VfsPath)
        ensures
            out@ == self@,
    {
        self.copy()
    }
}

/// No slash stands before the first.
proof fn lemma_no_slash_before(s: Seq<char>)
    ensures
        crate::text::before_first(s, seq!['/']).len() == s.len() ==> !s.contains('/'),
        crate::text::before_first(s, seq!['/']).len() <= s.len(),
    decreases s.len(),
{
    if s.len() > 0 {
        let rest = s.drop_first();
        lemma_no_slash_before(rest);
        if s.contains('/') {
            let k = choose|k: int| 0 <= k < s.len() && s[k] == '/';
            if k == 0 {
                assert(seq!['/'][0] == '/');
                assert(seq!['/'].contains(s[0]));
            } else {
                assert(rest[k - 1] == '/');
            }
        }
    }
}

/// The part of an entry behind its last slash, where there is one.
fn last_part(entry: &str) -> (name: Option<String>)
    ensures
        optional_text(name) == entry_file_name(entry@),
{
    let chars = chars_of(entry);
    let slash = ['/'];
    assert(slash@ =~= seq!['/']);
    let name = slice_after_last(chars.as_slice(), slash.as_slice());
    if name.len() > 0 {
        Some(string_of(name))
    } else {
        None
    }
}

/// Wraps an absolute path.
fn parse_abs(s: String) -> (path: Result<AbsPathBuf, PathParseError>)
    ensures
        match path {
            Ok(path) => crate::paths::absolute(s@) && path@ == s@,
            Err(error) => !crate::paths::absolute(s@) && error@ == PathErrorView::NotAbsolute(s@),
        },
{
    match AbsPathBuf::try_new(s) {
        Ok(path) => Ok(path),
        Err(path) => Err(PathParseError::NotAbsolute(path)),
    }
}

/// How paths are spelt: a file as itself, an entry of a jar behind `jar:` with
/// `!/` before it, and one of a module behind `jrt:/` with a slash before it.
pub proof fn paths_are_spelt_by_their_kind(first: Seq<char>, entry: Seq<char>)
    ensures
        displayed(PathView::Real(first)) == first,
        displayed(PathView::Jar(first, entry)) == "jar:"@ + first + "!/"@ + entry,
        displayed(PathView::Jrt(first, entry)) == "jrt:/"@ + first + "/"@ + entry,
{
    reveal_strlit("jar:");
    reveal_strlit("!/");
    reveal_strlit("jrt:/");
    reveal_strlit("/");
    assert("jar:"@ =~= jar_scheme());
    assert("!/"@ =~= jar_separator());
    assert("jrt:/"@ =~= jrt_scheme());
    assert("/"@ =~= seq!['/']);
}

/// The name of an archive entry is what follows its last slash, and its ending
/// what follows the last dot of that.
pub proof fn entries_are_named_by_their_last_part(
    dir: Seq<char>,
    stem: Seq<char>,
    ending: Seq<char>,
)
    requires
        stem.len() > 0,
        ending.len() > 0,
        !stem.contains('/'),
        !ending.contains('/'),
        !ending.contains('.'),
    ensures
        entry_file_name(dir + "/"@ + stem + "."@ + ending) == Some(stem + "."@ + ending),
        name_extension(stem + "."@ + ending) == Some(ending),
        entry_file_name(dir + "/"@) is None,
        !stem.contains('.') ==> name_extension(stem) is None,
{
    reveal_strlit("/");
    reveal_strlit(".");
    assert("/"@ =~= seq!['/']);
    assert("."@ =~= seq!['.']);
    assert(seq!['/'][0] == '/');
    assert(seq!['.'][0] == '.');
    let name = stem + "."@ + ending;
    assert(!name.contains('/')) by {
        if name.contains('/') {
            let i = choose|i: int| 0 <= i < name.len() && name[i] == '/';
            if i < stem.len() {
                assert(stem[i] == '/');
            } else if i > stem.len() {
                assert(ending[i - stem.len() - 1] == '/');
            }
        }
    }
    crate::text::laws::what_follows_the_last_is_after_it(dir, '/', name, seq!['/']);
    assert(dir + "/"@ + stem + "."@ + ending =~= dir + seq!['/'] + name);
    crate::text::laws::what_follows_the_last_is_after_it(dir, '/', Seq::empty(), seq!['/']);
    assert(dir + seq!['/'] + Seq::<char>::empty() =~= dir + "/"@);
    crate::text::laws::what_follows_the_last_is_after_it(stem, '.', ending, seq!['.']);
    assert(name[stem.len() as int] == '.');
    assert(name.contains('.'));
}

} // verus!
