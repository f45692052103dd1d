//! Converting between LSP URIs and [`VfsPath`]s.
//!
//! Most of a Java classpath is not on the filesystem, so this boundary carries
//! more than `file:`. The three schemes match the [`VfsPath`] variants and use
//! Java's own spellings, which is what lets a location the server returns be
//! handed straight back to it later:
//!
//! ```text
//! file:///repo/java/com/acme/core/Clock.java
//! jar:/repo/libpolicy.jar!/com/acme/policy/DefaultRetryPolicy.class
//! jrt:/java.base/java/lang/String.class
//! ```
//!
//! A URI is held as its text.
use lsp_types::Url;
use vstd::prelude::*;

use crate::paths::AbsPathBuf;
use crate::text::{chars_of, same_text, slice_before_first, string_of};
use crate::vfs_path::{PathView, VfsPath};

verus! {

/// The path that a URL names, where it names one, and its text, where that is
/// UTF-8.
pub uninterp spec fn named_path(url: Seq<char>) -> Option<Option<Seq<char>>>;

/// `Url::to_file_path`, on the text of a URL: the path that it names, percent
/// signs decoded; nothing where the text is no URL or names no path. The inner
/// option is empty where the path is not UTF-8.
#[verifier::external_body]
fn path_of_url(url: &str) -> (path: Option<Option<String>>)
    ensures
        (match path {
            Some(Some(path)) => Some(Some(path@)),
            Some(None) => Some(None),
            None => None,
        }) == named_path(url@),
{
    Url::parse(url).ok().and_then(|url| url.to_file_path().ok()).map(
        |path| path.into_os_string().into_string().ok(),
    )
}

/// Whether a component of a path that begins behind the slash at `i` is one
/// that survives being put into a URL: it is not empty and does not stand for
/// this directory or the one above.
pub open spec fn plain_component(path: Seq<char>, i: int) -> bool {
    &&& i + 1 < path.len()
    &&& path[i + 1] != '/'
    &&& !(path[i + 1] == '.' && (i + 2 == path.len() || path[i + 2] == '/'))
    &&& !(path[i + 1] == '.' && i + 2 < path.len() && path[i + 2] == '.' && (i + 3 == path.len()
        || path[i + 3] == '/'))
}

/// Whether a path is written without detours, and in no part reads as the
/// letter of a drive.
pub open spec fn plain_path(path: Seq<char>) -> bool {
    &&& crate::paths::absolute(path)
    &&& path.len() == 1 || forall|i: int|
        0 <= i < path.len() && path[i] == '/' ==> #[trigger] plain_component(path, i)
    &&& path.last() != ':' && path.last() != '|'
    &&& !(path.len() > 3 && (path[2] == ':' || path[2] == '|') && path[3] == '/')
}

/// The `file:` URL of a path.
pub uninterp spec fn file_url(path: Seq<char>) -> Option<Seq<char>>;

/// `Url::from_file_path`: the URL of an absolute path, which begins with
/// `file:`. A path written without detours is named by its URL: reading the URL
/// gives the path back.
#[verifier::external_body]
pub(crate) fn url_of_path(path: &str) -> (url: Option<String>)
    ensures
        (match url {
            Some(url) => Some(url@),
            None => None,
        }) == file_url(path@),
        crate::paths::absolute(path@) ==> (url matches Some(url) && seq!['f', 'i', 'l', 'e', ':']
            .is_prefix_of(url@)),
        plain_path(path@) ==> (url matches Some(url) && named_path(url@) == Some(Some(path@))),
{
    Url::from_file_path(path).ok().map(|url| url.to_string())
}

/// The normal form of a URL, where a text is one.
pub uninterp spec fn normal_url(text: Seq<char>) -> Option<Seq<char>>;

/// `Url::parse`: the URL that a text stands for, in its normal form.
#[verifier::external_body]
fn parse_url(text: &str) -> (url: Option<String>)
    ensures
        (match url {
            Some(url) => Some(url@),
            None => None,
        }) == normal_url(text@),
{
    Url::parse(text).ok().map(|url| url.to_string())
}

/// Why a URI and a path do not correspond. Holds the URI.
#[derive(Debug, PartialEq, Eq)]
pub enum UriError {
    /// A `file:` URI that does not name a path: a UNC host, or `file://x/y`.
    NotAPath(String),
    NotAbsolute(String),
    /// A `jar:` or `jrt:` URI that does not parse as a [`VfsPath`].
    Malformed(String),
    /// A scheme the server does not handle, such as `untitled:` for a buffer
    /// that has never been saved.
    UnsupportedScheme(String),
    Unrenderable(String),
}

/// The kinds of a [`UriError`].
pub enum UriFault {
    NotAPath,
    NotAbsolute,
    Malformed,
    UnsupportedScheme,
    Unrenderable,
}

/// Whether an error reports a fault of a text.
pub open spec fn reports(error: UriError, fault: UriFault, text: Seq<char>) -> bool {
    match error {
        UriError::NotAPath(uri) => fault is NotAPath && uri@ == text,
        UriError::NotAbsolute(uri) => fault is NotAbsolute && uri@ == text,
        UriError::Malformed(uri) => fault is Malformed && uri@ == text,
        UriError::UnsupportedScheme(uri) => fault is UnsupportedScheme && uri@ == text,
        UriError::Unrenderable(path) => fault is Unrenderable && path@ == text,
    }
}

/// The scheme of a URI: what stands before its first colon.
pub open spec fn scheme_of(uri: Seq<char>) -> Seq<char> {
    crate::text::before_first(uri, seq![':'])
}

/// What an error says.
pub open spec fn error_text(error: UriError) -> Seq<char> {
    match error {
        UriError::NotAPath(uri) => "URI does not name a file path: `"@ + uri@ + "`"@,
        UriError::NotAbsolute(uri) => "URI is not an absolute path: `"@ + uri@ + "`"@,
        UriError::Malformed(uri) => "URI is not a valid archive path: `"@ + uri@ + "`"@,
        UriError::UnsupportedScheme(uri) => "unsupported URI scheme `"@ + scheme_of(uri@) + "`: `"@
            + uri@ + "`"@,
        UriError::Unrenderable(path) => "path cannot be rendered as a URI: `"@ + path@ + "`"@,
    }
}

/// The scheme of a URI.
fn scheme(uri: &str) -> (scheme: String)
    ensures
        scheme@ == scheme_of(uri@),
{
    let chars = chars_of(uri);
    let colon = [':'];
    assert(colon@ =~= seq![':']);
    string_of(slice_before_first(chars.as_slice(), colon.as_slice()))
}

impl UriError {
    /// Computes [`error_text`].
    pub fn describe(&self) -> (text: String)
        ensures
            text@ == error_text(*self),
    {
        let mut text = String::new();
        let held = match self {
            UriError::NotAPath(uri) => {
                text.append("URI does not name a file path: `");
                uri
            },
            UriError::NotAbsolute(uri) => {
                text.append("URI is not an absolute path: `");
                uri
            },
            UriError::Malformed(uri) => {
                text.append("URI is not a valid archive path: `");
                uri
            },
            UriError::UnsupportedScheme(uri) => {
                text.append("unsupported URI scheme `");
                let scheme = scheme(uri);
                text.append(scheme.as_str());
                text.append("`: `");
                uri
            },
            UriError::Unrenderable(path) => {
                text.append("path cannot be rendered as a URI: `");
                path
            },
        };
        text.append(held.as_str());
        text.append("`");
        assert(text@ =~= error_text(*self));
        text
    }
}

/// What a URI stands for, given the path that it names as a file.
pub open spec fn read_uri(
    uri: Seq<char>,
    named: Option<Option<Seq<char>>>,
) -> Result<PathView, UriFault> {
    if scheme_of(uri) == "file"@ {
        match named {
            None => Err(UriFault::NotAPath),
            Some(None) => Err(UriFault::NotAbsolute),
            Some(Some(path)) => if crate::paths::absolute(path) {
                Ok(PathView::Real(path))
            } else {
                Err(UriFault::NotAbsolute)
            },
        }
    } else if scheme_of(uri) == "jar"@ || scheme_of(uri) == "jrt"@ {
        // `jar:` and `jrt:` round-trip through the textual form of a path, which
        // is where their grammar is defined.
        match crate::vfs_path::parsed(uri) {
            Ok(path) => Ok(path),
            Err(_) => Err(UriFault::Malformed),
        }
    } else {
        Err(UriFault::UnsupportedScheme)
    }
}

/// Reads a client URI as a path the VFS understands.
pub fn vfs_path(uri: &str) -> (path: Result<VfsPath, UriError>)
    ensures
        match (path, read_uri(uri@, named_path(uri@))) {
            (Ok(path), Ok(view)) => path@ == view,
            (Err(error), Err(fault)) => reports(error, fault, uri@),
            _ => false,
        },
{
    let named = path_of_url(uri);
    vfs_path_named(uri, named)
}

/// What a URI stands for, given the path that it names as a file.
pub fn vfs_path_named(uri: &str, named: Option<Option<String>>) -> (path: Result<
    VfsPath,
    UriError,
>)
    ensures
        match (
            path,
            read_uri(
                uri@,
                match named {
                    Some(Some(path)) => Some(Some(path@)),
                    Some(None) => Some(None),
                    None => None,
                },
            ),
        ) {
            (Ok(path), Ok(view)) => path@ == view,
            (Err(error), Err(fault)) => reports(error, fault, uri@),
            _ => false,
        },
{
    let scheme = scheme(uri);
    if same_text(&scheme, "file") {
        let path = match named {
            None => {
                return Err(UriError::NotAPath(uri.to_owned()));
            },
            Some(None) => {
                return Err(UriError::NotAbsolute(uri.to_owned()));
            },
            Some(Some(path)) => path,
        };
        match AbsPathBuf::try_new(path) {
            Ok(path) => Ok(VfsPath::from_real(path)),
            Err(_) => Err(UriError::NotAbsolute(uri.to_owned())),
        }
    } else if same_text(&scheme, "jar") || same_text(&scheme, "jrt") {
        match VfsPath::parse(uri) {
            Ok(path) => Ok(path),
            Err(_) => Err(UriError::Malformed(uri.to_owned())),
        }
    } else {
        Err(UriError::UnsupportedScheme(uri.to_owned()))
    }
}

/// What stands before the first colon of a text that begins with `head` and a
/// colon.
proof fn lemma_scheme(head: Seq<char>, text: Seq<char>)
    requires
        !head.contains(':'),
        (head + seq![':']).is_prefix_of(text),
    ensures
        scheme_of(text) == head,
    decreases head.len(),
{
    assert(seq![':'].contains(':')) by {
        assert(seq![':'][0] == ':');
    }
    let start = head + seq![':'];
    assert(text[0] == start[0]);
    if head.len() == 0 {
        assert(head =~= Seq::<char>::empty());
    } else {
        assert(text[0] == head[0]);
        assert(head[0] != ':') by {
            assert(head.contains(head[0]));
        }
        let tail = head.drop_first();
        assert(!tail.contains(':')) by {
            if tail.contains(':') {
                let k = choose|k: int| 0 <= k < tail.len() && tail[k] == ':';
                assert(head[k + 1] == ':');
            }
        }
        assert((tail + seq![':']).is_prefix_of(text.drop_first())) by {
            assert forall|k: int| 0 <= k < tail.len() + 1 implies (tail + seq![':'])[k]
                == text.drop_first()[k] by {
                assert(start[k + 1] == text[k + 1]);
            }
            assert(text.drop_first().take(tail.len() as int + 1) =~= tail + seq![':']);
        }
        lemma_scheme(tail, text.drop_first());
        assert(seq![head[0]] + tail =~= head);
    }
}

/// Renders a path as a URI to hand back to the client.
///
/// What is handed back names the same path: always for a real path written
/// without detours, and for an entry of an archive wherever its textual form is
/// a URL in normal form.
pub fn to_uri(path: &VfsPath) -> (uri: Result<String, UriError>)
    ensures
        match path@ {
            PathView::Real(text) => uri matches Ok(uri) && Some(uri@) == file_url(text) && (
            plain_path(text) ==> read_uri(uri@, named_path(uri@)) == Ok::<PathView, UriFault>(
                path@,
            )),
            _ => match normal_url(crate::vfs_path::displayed(path@)) {
                Some(text) => uri matches Ok(uri) && uri@ == text && (text
                    == crate::vfs_path::displayed(path@) && crate::vfs_path::readable_text(path@)
                    ==> read_uri(uri@, named_path(uri@)) == Ok::<PathView, UriFault>(path@)),
                None => uri matches Err(error) && reports(
                    error,
                    UriFault::Unrenderable,
                    crate::vfs_path::displayed(path@),
                ),
            },
        },
{
    proof {
        reveal_strlit("file");
        reveal_strlit("jar");
        reveal_strlit("jrt");
        assert("file"@ =~= seq!['f', 'i', 'l', 'e']);
        assert("jar"@ =~= seq!['j', 'a', 'r']);
        assert("jrt"@ =~= seq!['j', 'r', 't']);
    }
    let text = path.to_text();
    match path {
        VfsPath::Real(_) => match url_of_path(&text) {
            Some(uri) => {
                proof {
                    assert("file"@ + seq![':'] =~= seq!['f', 'i', 'l', 'e', ':']);
                    lemma_scheme("file"@, uri@);
                }
                Ok(uri)
            },
            None => Err(UriError::NotAPath("file:///".to_owned())),
        },
        // Already in their canonical textual form.
        _ => match parse_url(&text) {
            Some(uri) => {
                proof {
                    if uri@ == text@ && crate::vfs_path::readable_text(path@) {
                        crate::vfs_path::paths_round_trip(path@);
                        match path@ {
                            PathView::Jar(jar, entry) => {
                                assert("jar"@ + seq![':'] =~= crate::vfs_path::jar_scheme());
                                assert(text@.take(4) =~= crate::vfs_path::jar_scheme());
                                lemma_scheme("jar"@, uri@);
                            },
                            PathView::Jrt(module, entry) => {
                                assert(text@.take(4) =~= "jrt"@ + seq![':']);
                                lemma_scheme("jrt"@, uri@);
                            },
                            PathView::Real(_) => {},
                        }
                    }
                }
                Ok(uri)
            },
            None => Err(UriError::Unrenderable(text)),
        },
    }
}

/// A URI is read by its scheme: a `file` one as the path that it names, which
/// must be absolute; one into an archive as the path that its text is; and no
/// other is read.
pub proof fn uris_are_read_by_their_scheme(
    scheme: Seq<char>,
    rest: Seq<char>,
    named: Option<Option<Seq<char>>>,
    path: Seq<char>,
)
    requires
        !scheme.contains(':'),
    ensures
        ({
            let uri = scheme + ":"@ + rest;
            &&& scheme == "file"@ && path.len() > 0 && path[0] == '/' ==> read_uri(
                uri,
                Some(Some(path)),
            ) == Ok::<PathView, UriFault>(PathView::Real(path))
            &&& scheme == "file"@ && (path.len() == 0 || path[0] != '/') ==> read_uri(
                uri,
                Some(Some(path)),
            ) == Err::<PathView, UriFault>(UriFault::NotAbsolute)
            &&& scheme == "file"@ ==> read_uri(uri, None) == Err::<PathView, UriFault>(
                UriFault::NotAPath,
            )
            &&& scheme == "jar"@ || scheme == "jrt"@ ==> match crate::vfs_path::parsed(uri) {
                Ok(path) => read_uri(uri, named) == Ok::<PathView, UriFault>(path),
                Err(_) => read_uri(uri, named) == Err::<PathView, UriFault>(UriFault::Malformed),
            }
            &&& scheme != "file"@ && scheme != "jar"@ && scheme != "jrt"@ ==> read_uri(uri, named)
                == Err::<PathView, UriFault>(UriFault::UnsupportedScheme)
        }),
{
    reveal_strlit(":");
    reveal_strlit("file");
    reveal_strlit("jar");
    reveal_strlit("jrt");
    assert(":"@ =~= seq![':']);
    assert(seq![':'][0] == ':');
    assert("file"@.len() == 4 && "jar"@.len() == 3 && "jrt"@.len() == 3);
    crate::text::laws::what_precedes_the_first_is_before_it(scheme, ':', rest, seq![':']);
}

/// What is wrong with a URI is told with the URI.
pub proof fn uri_errors_quote_the_uri(error: &UriError, text: String)
    requires
        call_ensures(UriError::describe, (error,), text),
    ensures
        ((match error {
            UriError::NotAPath(uri) => uri@,
            UriError::NotAbsolute(uri) => uri@,
            UriError::Malformed(uri) => uri@,
            UriError::UnsupportedScheme(uri) => uri@,
            UriError::Unrenderable(path) => path@,
        }) + "`"@).is_suffix_of(text@),
{
    let end = (match error {
        UriError::NotAPath(uri) => uri@,
        UriError::NotAbsolute(uri) => uri@,
        UriError::Malformed(uri) => uri@,
        UriError::UnsupportedScheme(uri) => uri@,
        UriError::Unrenderable(path) => path@,
    }) + "`"@;
    assert(end =~= text@.subrange(text@.len() - end.len(), text@.len() as int));
}

} // verus!
