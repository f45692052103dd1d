//! Whose text counts, and which files the index has not seen.
use vstd::prelude::*;

use crate::documents::ChangeView;
use crate::line_index::PositionEncoding;
use crate::sources::gather::Gathered;
use crate::sources::SourcesView;
use crate::vfs::VfsView;
use crate::vfs_path::PathView;

verus! {

/// Opening a document takes its text and version from the client, and makes it
/// stale unless the file on disk holds that very text. Nothing happens to any
/// other.
pub proof fn opening_compares_with_the_disk(
    s: SourcesView,
    path: PathView,
    version: i32,
    text: Seq<char>,
    disk: Option<Seq<char>>,
    other: PathView,
)
    requires
        other != path,
    ensures
        ({
            let after = crate::sources::opened(s, path, version, text, disk);
            &&& after.documents.contains_key(path)
            &&& after.documents[path].text == text
            &&& after.documents[path].version == version
            &&& path is Real && disk == Some(text) ==> (after.stale.contains(path)
                <==> s.stale.contains(path))
            &&& disk != Some(text) ==> after.stale.contains(path)
            &&& !(path is Real) ==> after.stale.contains(path)
            &&& after.documents.contains_key(other) <==> s.documents.contains_key(other)
            &&& s.documents.contains_key(other) ==> after.documents[other] == s.documents[other]
            &&& after.stale.contains(other) <==> s.stale.contains(other)
        }),
{
}

/// Editing a document gives it the edited text and the client's version, and
/// makes it stale where the text is no longer what its file held.
pub proof fn editing_makes_stale(
    s: SourcesView,
    path: PathView,
    version: i32,
    changes: Seq<ChangeView>,
    encoding: PositionEncoding,
    other: PathView,
)
    requires
        other != path,
        s.documents.contains_key(path),
        crate::vfs::contents_at(s.vfs, path) == Some(
            vstd::utf8::encode_utf8(s.documents[path].text),
        ),
    ensures
        ({
            let after = crate::sources::edited(s, path, version, changes, encoding);
            let text = crate::documents::edited_by(s.documents[path].text, changes, encoding);
            &&& after.documents.contains_key(path)
            &&& after.documents[path].text == text
            &&& after.documents[path].version == version
            &&& text != s.documents[path].text ==> after.stale.contains(path)
            &&& text == s.documents[path].text ==> (after.stale.contains(path)
                <==> s.stale.contains(path))
            &&& after.documents.contains_key(other) <==> s.documents.contains_key(other)
            &&& s.documents.contains_key(other) ==> after.documents[other] == s.documents[other]
            &&& after.stale.contains(other) <==> s.stale.contains(other)
        }),
{
    crate::sources::only_real_edits_count(s, path, version, changes, encoding);
}

/// Editing or closing what is not open does nothing.
pub proof fn only_open_documents_are_edited_or_closed(
    s: SourcesView,
    path: PathView,
    version: i32,
    changes: Seq<ChangeView>,
    encoding: PositionEncoding,
    disk: Option<Seq<u8>>,
)
    requires
        !s.documents.contains_key(path),
    ensures
        crate::sources::edited(s, path, version, changes, encoding) == s,
        crate::sources::shut(s, path, disk) == s,
{
}

/// Closing a document drops the client's copy, so that the file holds what is on
/// disk, and leaves it stale where it was.
pub proof fn closing_returns_to_the_disk(
    s: SourcesView,
    path: PathView,
    disk: Option<Seq<u8>>,
    other: PathView,
)
    requires
        other != path,
        s.documents.contains_key(path),
        crate::sources::is_sound(s.vfs),
    ensures
        ({
            let after = crate::sources::shut(s, path, disk);
            &&& !after.documents.contains_key(path)
            &&& after.stale.contains(path) <==> s.stale.contains(path)
            &&& after.stale.contains(other) <==> s.stale.contains(other)
            &&& path is Real ==> crate::vfs::contents_at(after.vfs, path) == disk
            &&& !(path is Real) ==> crate::vfs::contents_at(after.vfs, path) is None
            &&& after.documents.contains_key(other) <==> s.documents.contains_key(other)
            &&& s.documents.contains_key(other) ==> after.documents[other] == s.documents[other]
            &&& crate::vfs::contents_at(after.vfs, other) == crate::vfs::contents_at(s.vfs, other)
        }),
{
    recorded_contents_read_back(s.vfs, path, crate::sources::on_disk(path, disk), other);
}

/// What is recorded of a file is what it holds then. The revision advances where
/// that is something else than before, and only there.
pub proof fn recorded_contents_read_back(
    vfs: VfsView,
    path: PathView,
    contents: Option<Seq<u8>>,
    other: PathView,
)
    requires
        crate::sources::is_sound(vfs),
    ensures
        ({
            let after = crate::sources::recorded(vfs, path, contents);
            &&& crate::vfs::contents_at(after, path) == contents
            &&& other != path ==> crate::vfs::contents_at(after, other) == crate::vfs::contents_at(
                vfs,
                other,
            )
            &&& crate::vfs::contents_at(vfs, path) == contents ==> after.revision == vfs.revision
            &&& crate::vfs::contents_at(vfs, path) != contents && vfs.revision < u64::MAX
                ==> after.revision == vfs.revision + 1
            &&& forall|i: int|
                0 <= i < after.pending.len() ==> (#[trigger] after.pending[i]) is None
        }),
{
    crate::vfs::a_write_reads_back(vfs, path, contents, other);
}

/// A file inside the workspace is known there by what follows the root. Nothing
/// else is inside.
pub proof fn files_are_known_below_the_root(path: PathView, root: Seq<char>, file: Seq<char>)
    ensures
        !(path is Real) ==> crate::sources::gather::relative_to(path, root) is None,
        path == PathView::Real(file) && crate::paths::path_below(file, root) is None
            ==> crate::sources::gather::relative_to(path, root) is None,
        path == PathView::Real(file) && (crate::paths::path_below(file, root) matches Some(rest)
            && (rest.len() == 0 || rest[0] != '/')) ==> crate::sources::gather::relative_to(
            path,
            root,
        ) == crate::paths::path_below(file, root),
{
}

/// The sources of a search hold the client's copy of everything that is open
/// inside the workspace.
pub proof fn open_documents_are_searched<F: Fn(&str) -> Option<String>>(
    s: SourcesView,
    root: Seq<char>,
    read: F,
    found: Gathered,
    path: PathView,
    relative: Seq<char>,
)
    requires
        crate::sources::gather::is_gathered(s, root, read, found),
        s.documents.contains_key(path),
        crate::sources::gather::relative_to(path, root) == Some(relative),
    ensures
        found.sources.contains((relative, s.documents[path].text)),
        found.shadowed.contains(relative),
{
    crate::sources::gather::newer_files_are_shadowed(s, root, read, found, path, relative);
    let (documents, stale, disk) = lemma_gathered(s, root, read, found);
    let open = crate::sources::gather::open_sources(documents, root);
    lemma_open(documents, root);
    lemma_stale(open, stale, root, disk);
    let k = choose|k: int| 0 <= k < documents.len() && (#[trigger] documents[k]).0 == path;
    assert(open.sources.contains((relative, documents[k].1)));
    let j = choose|j: int|
        0 <= j < open.sources.len() && open.sources[j] == (relative, documents[k].1);
    assert(found.sources[j] == (relative, s.documents[path].text));
}

/// Every source of a search is the client's copy of an open document, or what
/// the disk gives for a stale file.
pub proof fn only_newer_files_are_searched<F: Fn(&str) -> Option<String>>(
    s: SourcesView,
    root: Seq<char>,
    read: F,
    found: Gathered,
    i: int,
)
    requires
        crate::sources::gather::is_gathered(s, root, read, found),
        0 <= i < found.sources.len(),
    ensures
        exists|path: PathView| #[trigger]
            crate::sources::gather::relative_to(path, root) == Some(found.sources[i].0) && {
                ||| s.documents.contains_key(path) && s.documents[path].text
                    == found.sources[i].1
                ||| s.stale.contains(path) && (path matches PathView::Real(file)
                    && crate::sources::gives(read, file, Some(found.sources[i].1)))
            },
{
    let (documents, stale, disk) = lemma_gathered(s, root, read, found);
    let open = crate::sources::gather::open_sources(documents, root);
    lemma_open(documents, root);
    lemma_stale(open, stale, root, disk);
    let source = found.sources[i];
    if i < open.sources.len() {
        assert(open.sources[i] == source);
        let k = choose|k: int|
            0 <= k < documents.len() && crate::sources::gather::relative_to(
                (#[trigger] documents[k]).0,
                root,
            ) == Some(source.0) && documents[k].1 == source.1;
        assert(s.documents.contains_key(documents[k].0));
    } else {
        assert(is_from_disk(open, stale, root, disk, source));
        let k = choose|k: int|
            0 <= k < stale.len() && #[trigger] crate::sources::gather::is_asked(
                open,
                stale,
                root,
                disk,
                k,
            ) && crate::sources::gather::relative_to(stale[k], root) == Some(source.0) && disk[k]
                == Some(source.1);
        let path = stale[k];
        assert(stale.to_set().contains(path)) by {
            assert(stale.contains(path));
        }
    }
}

/// Only what is open or stale is shadowed.
pub proof fn only_newer_files_are_shadowed<F: Fn(&str) -> Option<String>>(
    s: SourcesView,
    root: Seq<char>,
    read: F,
    found: Gathered,
    i: int,
)
    requires
        crate::sources::gather::is_gathered(s, root, read, found),
        0 <= i < found.shadowed.len(),
    ensures
        exists|path: PathView| #[trigger]
            crate::sources::gather::relative_to(path, root) == Some(found.shadowed[i]) && (
            s.documents.contains_key(path) || s.stale.contains(path)),
{
    let (documents, stale, disk) = lemma_gathered(s, root, read, found);
    let open = crate::sources::gather::open_sources(documents, root);
    lemma_open(documents, root);
    lemma_stale(open, stale, root, disk);
    let name = found.shadowed[i];
    if i < open.shadowed.len() {
        assert(open.shadowed[i] == name);
        let k = choose|k: int|
            0 <= k < documents.len() && crate::sources::gather::relative_to(
                (#[trigger] documents[k]).0,
                root,
            ) == Some(name);
        assert(s.documents.contains_key(documents[k].0));
    } else {
        assert(is_named_by(stale, root, name));
        let k = choose|k: int|
            0 <= k < stale.len() && crate::sources::gather::relative_to(
                #[trigger] stale[k],
                root,
            ) == Some(name);
        let path = stale[k];
        assert(stale.to_set().contains(path)) by {
            assert(stale.contains(path));
        }
    }
}

/// A stale file that is not open is searched as it is on disk. One that cannot
/// be read is not searched, and stays shadowed.
pub proof fn stale_files_are_searched_on_disk<F: Fn(&str) -> Option<String>>(
    s: SourcesView,
    root: Seq<char>,
    read: F,
    found: Gathered,
    file: Seq<char>,
    relative: Seq<char>,
    text: Option<Seq<char>>,
)
    requires
        crate::sources::gather::is_gathered(s, root, read, found),
        s.stale.contains(PathView::Real(file)),
        crate::sources::gather::relative_to(PathView::Real(file), root) == Some(relative),
        forall|path: PathView|
            (s.documents.contains_key(path) || s.stale.contains(path)) && path != PathView::Real(
                file,
            ) ==> #[trigger] crate::sources::gather::relative_to(path, root) != Some(relative),
        !s.documents.contains_key(PathView::Real(file)),
        forall|given: Option<Seq<char>>| #[trigger]
            crate::sources::gives(read, file, given) ==> given == text,
    ensures
        found.shadowed.contains(relative),
        text matches Some(text) ==> found.sources.contains((relative, text)),
        text is None ==> forall|i: int|
            0 <= i < found.sources.len() ==> (#[trigger] found.sources[i]).0 != relative,
{
    let path = PathView::Real(file);
    crate::sources::gather::newer_files_are_shadowed(s, root, read, found, path, relative);
    let (documents, stale, disk) = lemma_gathered(s, root, read, found);
    let open = crate::sources::gather::open_sources(documents, root);
    lemma_open(documents, root);
    lemma_stale(open, stale, root, disk);
    assert(stale.to_set().contains(path));
    let at = stale.index_of(path);
    assert(stale[at] == path);
    assert forall|j: int| 0 <= j < at implies crate::sources::gather::relative_to(
        #[trigger] stale[j],
        root,
    ) != Some(relative) by {
        assert(stale.to_set().contains(stale[j])) by {
            assert(stale.contains(stale[j]));
        }
        assert(stale[j] != stale[at]);
    }
    assert(!open.shadowed.contains(relative)) by {
        if open.shadowed.contains(relative) {
            let i = choose|i: int| 0 <= i < open.shadowed.len() && open.shadowed[i] == relative;
            let k = choose|k: int|
                0 <= k < documents.len() && crate::sources::gather::relative_to(
                    (#[trigger] documents[k]).0,
                    root,
                ) == Some(open.shadowed[i]);
            assert(s.documents.contains_key(documents[k].0));
        }
    }
    lemma_asked(open, stale, root, disk, at, relative);
    assert(crate::sources::gather::is_asked(open, stale, root, disk, at));
    assert(crate::sources::gives(read, file, disk[at]));
    if text is None {
        assert forall|i: int| 0 <= i < found.sources.len() implies (
        #[trigger] found.sources[i]).0 != relative by {
            if found.sources[i].0 == relative {
                only_newer_files_are_searched(s, root, read, found, i);
            }
        }
    }
}

proof fn lemma_gathered<F: Fn(&str) -> Option<String>>(
    s: SourcesView,
    root: Seq<char>,
    read: F,
    found: Gathered,
) -> (parts: (Seq<(PathView, Seq<char>)>, Seq<PathView>, Seq<Option<Seq<char>>>))
    requires
        crate::sources::gather::is_gathered(s, root, read, found),
    ensures
        crate::sources::gather::lists_documents(s, parts.0),
        parts.1.no_duplicates(),
        parts.1.to_set() == s.stale,
        crate::sources::gather::is_read(
            read,
            crate::sources::gather::open_sources(parts.0, root),
            parts.1,
            root,
            parts.2,
        ),
        found == crate::sources::gather::with_stale(
            crate::sources::gather::open_sources(parts.0, root),
            parts.1,
            root,
            parts.2,
        ),
{
    let (documents, stale, disk) = choose|
        documents: Seq<(PathView, Seq<char>)>,
        stale: Seq<PathView>,
        disk: Seq<Option<Seq<char>>>,
    |
        #![trigger crate::sources::gather::lists_documents(s, documents),
            crate::sources::gather::is_read(
                read,
                crate::sources::gather::open_sources(documents, root),
                stale,
                root,
                disk,
            )]
        {
            &&& crate::sources::gather::lists_documents(s, documents)
            &&& stale.no_duplicates()
            &&& stale.to_set() == s.stale
            &&& crate::sources::gather::is_read(
                read,
                crate::sources::gather::open_sources(documents, root),
                stale,
                root,
                disk,
            )
            &&& found == crate::sources::gather::with_stale(
                crate::sources::gather::open_sources(documents, root),
                stale,
                root,
                disk,
            )
        };
    (documents, stale, disk)
}

proof fn lemma_open(documents: Seq<(PathView, Seq<char>)>, root: Seq<char>)
    ensures
        ({
            let open = crate::sources::gather::open_sources(documents, root);
            &&& forall|k: int, relative: Seq<char>|
                #![trigger documents[k], open.sources.contains((relative, documents[k].1))]
                0 <= k < documents.len() && crate::sources::gather::relative_to(
                    documents[k].0,
                    root,
                ) == Some(relative) ==> open.sources.contains((relative, documents[k].1))
            &&& forall|i: int|
                0 <= i < open.sources.len() ==> exists|k: int|
                    0 <= k < documents.len() && crate::sources::gather::relative_to(
                        (#[trigger] documents[k]).0,
                        root,
                    ) == Some((#[trigger] open.sources[i]).0) && documents[k].1
                        == open.sources[i].1
            &&& forall|i: int|
                0 <= i < open.shadowed.len() ==> exists|k: int|
                    0 <= k < documents.len() && crate::sources::gather::relative_to(
                        (#[trigger] documents[k]).0,
                        root,
                    ) == Some(#[trigger] open.shadowed[i])
        }),
    decreases documents.len(),
{
    if documents.len() > 0 {
        let front = documents.drop_last();
        lemma_open(front, root);
        let rest = crate::sources::gather::open_sources(front, root);
        let open = crate::sources::gather::open_sources(documents, root);
        let n = documents.len() - 1;
        assert forall|k: int, relative: Seq<char>|
            #![trigger documents[k], open.sources.contains((relative, documents[k].1))]
            0 <= k < documents.len() && crate::sources::gather::relative_to(documents[k].0, root)
                == Some(relative) implies open.sources.contains((relative, documents[k].1)) by {
            if k < n {
                assert(front[k] == documents[k]);
                assert(rest.sources.contains((relative, front[k].1)));
                let j = choose|j: int|
                    0 <= j < rest.sources.len() && rest.sources[j] == (relative, front[k].1);
                assert(open.sources[j] == (relative, documents[k].1));
            } else {
                assert(open.sources[rest.sources.len() as int] == (relative, documents[k].1));
            }
        }
        assert forall|i: int| 0 <= i < open.sources.len() implies exists|k: int|
            0 <= k < documents.len() && crate::sources::gather::relative_to(
                (#[trigger] documents[k]).0,
                root,
            ) == Some((#[trigger] open.sources[i]).0) && documents[k].1 == open.sources[i].1 by {
            if i < rest.sources.len() {
                assert(open.sources[i] == rest.sources[i]);
                let k = choose|k: int|
                    0 <= k < front.len() && crate::sources::gather::relative_to(
                        (#[trigger] front[k]).0,
                        root,
                    ) == Some(rest.sources[i].0) && front[k].1 == rest.sources[i].1;
                assert(documents[k] == front[k]);
            } else {
                assert(documents[n].1 == open.sources[i].1);
            }
        }
        assert forall|i: int| 0 <= i < open.shadowed.len() implies exists|k: int|
            0 <= k < documents.len() && crate::sources::gather::relative_to(
                (#[trigger] documents[k]).0,
                root,
            ) == Some(#[trigger] open.shadowed[i]) by {
            if i < rest.shadowed.len() {
                assert(open.shadowed[i] == rest.shadowed[i]);
                let k = choose|k: int|
                    0 <= k < front.len() && crate::sources::gather::relative_to(
                        (#[trigger] front[k]).0,
                        root,
                    ) == Some(rest.shadowed[i]);
                assert(documents[k] == front[k]);
            } else {
                assert(crate::sources::gather::relative_to(documents[n].0, root) == Some(
                    open.shadowed[i],
                ));
            }
        }
    }
}

/// Whether a source is what the disk gave for a stale file that was asked for.
spec fn is_from_disk(
    open: Gathered,
    stale: Seq<PathView>,
    root: Seq<char>,
    disk: Seq<Option<Seq<char>>>,
    source: (Seq<char>, Seq<char>),
) -> bool {
    exists|k: int|
        0 <= k < stale.len() && #[trigger] crate::sources::gather::is_asked(
            open,
            stale,
            root,
            disk,
            k,
        ) && crate::sources::gather::relative_to(stale[k], root) == Some(source.0) && disk[k]
            == Some(source.1)
}

/// Whether a path inside the workspace is that of a stale file.
spec fn is_named_by(stale: Seq<PathView>, root: Seq<char>, name: Seq<char>) -> bool {
    exists|k: int|
        0 <= k < stale.len() && crate::sources::gather::relative_to(#[trigger] stale[k], root)
            == Some(name)
}

proof fn lemma_stale(
    open: Gathered,
    stale: Seq<PathView>,
    root: Seq<char>,
    disk: Seq<Option<Seq<char>>>,
)
    ensures
        ({
            let all = crate::sources::gather::with_stale(open, stale, root, disk);
            &&& open.sources.is_prefix_of(all.sources)
            &&& open.shadowed.is_prefix_of(all.shadowed)
            &&& forall|i: int|
                open.sources.len() <= i < all.sources.len() ==> is_from_disk(
                    open,
                    stale,
                    root,
                    disk,
                    #[trigger] all.sources[i],
                )
            &&& forall|i: int|
                open.shadowed.len() <= i < all.shadowed.len() ==> is_named_by(
                    stale,
                    root,
                    #[trigger] all.shadowed[i],
                )
            &&& forall|k: int|
                0 <= k < stale.len() && #[trigger] crate::sources::gather::is_asked(
                    open,
                    stale,
                    root,
                    disk,
                    k,
                ) && disk[k] is Some ==> all.sources.contains(
                    (crate::sources::gather::relative_to(stale[k], root)->0, disk[k]->0),
                )
        }),
    decreases stale.len(),
{
    if stale.len() > 0 {
        let front = stale.drop_last();
        lemma_stale(open, front, root, disk);
        let rest = crate::sources::gather::with_stale(open, front, root, disk);
        let all = crate::sources::gather::with_stale(open, stale, root, disk);
        let n = stale.len() - 1;
        assert(stale.take(n) =~= front);
        assert forall|k: int| 0 <= k < n implies #[trigger] crate::sources::gather::is_asked(
            open,
            stale,
            root,
            disk,
            k,
        ) == crate::sources::gather::is_asked(open, front, root, disk, k) by {
            assert(stale.take(k) =~= front.take(k));
            assert(stale[k] == front[k]);
        }
        assert forall|i: int|
            open.sources.len() <= i < all.sources.len() implies is_from_disk(
            open,
            stale,
            root,
            disk,
            #[trigger] all.sources[i],
        ) by {
            if i < rest.sources.len() {
                assert(all.sources[i] == rest.sources[i]);
                assert(is_from_disk(open, front, root, disk, rest.sources[i]));
                let k = choose|k: int|
                    0 <= k < front.len() && #[trigger] crate::sources::gather::is_asked(
                        open,
                        front,
                        root,
                        disk,
                        k,
                    ) && crate::sources::gather::relative_to(front[k], root) == Some(
                        rest.sources[i].0,
                    ) && disk[k] == Some(rest.sources[i].1);
                assert(crate::sources::gather::is_asked(open, stale, root, disk, k));
            } else {
                assert(crate::sources::gather::is_asked(open, stale, root, disk, n));
            }
        }
        assert forall|i: int|
            open.shadowed.len() <= i < all.shadowed.len() implies is_named_by(
            stale,
            root,
            #[trigger] all.shadowed[i],
        ) by {
            if i < rest.shadowed.len() {
                assert(all.shadowed[i] == rest.shadowed[i]);
                assert(is_named_by(front, root, rest.shadowed[i]));
                let k = choose|k: int|
                    0 <= k < front.len() && crate::sources::gather::relative_to(
                        #[trigger] front[k],
                        root,
                    ) == Some(rest.shadowed[i]);
                assert(stale[k] == front[k]);
            } else {
                assert(crate::sources::gather::relative_to(stale[n], root) == Some(
                    all.shadowed[i],
                ));
            }
        }
        assert forall|k: int|
            0 <= k < stale.len() && #[trigger] crate::sources::gather::is_asked(
                open,
                stale,
                root,
                disk,
                k,
            ) && disk[k] is Some implies all.sources.contains(
            (crate::sources::gather::relative_to(stale[k], root)->0, disk[k]->0),
        ) by {
            let wanted = (crate::sources::gather::relative_to(stale[k], root)->0, disk[k]->0);
            if k < n {
                assert(crate::sources::gather::is_asked(open, front, root, disk, k));
                assert(rest.sources.contains(wanted));
                let j = choose|j: int| 0 <= j < rest.sources.len() && rest.sources[j] == wanted;
                assert(all.sources[j] == wanted);
            } else {
                assert(all.sources[rest.sources.len() as int] == wanted);
            }
        }
    }
}

proof fn lemma_asked(
    open: Gathered,
    stale: Seq<PathView>,
    root: Seq<char>,
    disk: Seq<Option<Seq<char>>>,
    at: int,
    relative: Seq<char>,
)
    requires
        0 <= at < stale.len(),
        crate::sources::gather::relative_to(stale[at], root) == Some(relative),
        !open.shadowed.contains(relative),
        forall|j: int|
            0 <= j < at ==> crate::sources::gather::relative_to(#[trigger] stale[j], root) != Some(
                relative,
            ),
    ensures
        crate::sources::gather::is_asked(open, stale, root, disk, at),
{
    let before = stale.take(at);
    lemma_stale(open, before, root, disk);
    let all = crate::sources::gather::with_stale(open, before, root, disk);
    if all.shadowed.contains(relative) {
        let i = choose|i: int| 0 <= i < all.shadowed.len() && all.shadowed[i] == relative;
        if i < open.shadowed.len() {
            assert(open.shadowed[i] == relative);
        } else {
            assert(is_named_by(before, root, all.shadowed[i]));
            let k = choose|k: int|
                0 <= k < before.len() && crate::sources::gather::relative_to(
                    #[trigger] before[k],
                    root,
                ) == Some(all.shadowed[i]);
            assert(stale[k] == before[k]);
        }
    }
}

} // verus!
