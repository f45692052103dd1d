//! What becomes of the open documents when a client tells of one.
//!
//! Each of these speaks of a call and of the sources before and after it.
use vstd::prelude::*;

use crate::documents::{ContentChange, Document, Documents};
use crate::line_index::PositionEncoding;
use crate::paths::AbsPath;
use crate::sources::Sources;
use crate::vfs_path::{PathView, VfsPath};

verus! {

/// A document that is opened holds what the client sent. It is stale unless the
/// file on disk holds the same, and no other document is touched.
pub proof fn opened_documents_are_held(
    sources: &mut Sources,
    path: VfsPath,
    version: i32,
    text: String,
    disk: Option<String>,
    again: bool,
    other: PathView,
)
    requires
        call_ensures(Sources::did_open, (sources, path, version, text, disk), again),
        other != path.key(),
    ensures
        final(sources)@.documents.contains_key(path.key()),
        final(sources)@.documents[path.key()].text == text@,
        final(sources)@.documents[path.key()].version == version,
        disk is None || disk->0@ != text@ ==> final(sources)@.stale.contains(path.key()),
        again <==> old(sources)@.documents.contains_key(path.key()),
        final(sources)@.documents.contains_key(other) <==> old(sources)@.documents.contains_key(
            other,
        ),
        old(sources)@.documents.contains_key(other) ==> final(sources)@.documents[other]
            == old(sources)@.documents[other],
        final(sources)@.stale.contains(other) <==> old(sources)@.stale.contains(other),
{
    crate::sources::laws::opening_compares_with_the_disk(
        old(sources)@,
        path.key(),
        version,
        text@,
        crate::config::text_of(disk),
        other,
    );
}

/// A document that is not open is neither edited nor closed, and that is told.
pub proof fn closed_documents_stay_closed(
    edited: &mut Sources,
    shut: &mut Sources,
    path: &VfsPath,
    version: i32,
    changes: &Vec<ContentChange>,
    encoding: PositionEncoding,
    disk: Option<Vec<u8>>,
    was_edited: bool,
    was_shut: bool,
)
    requires
        call_ensures(Sources::did_change, (edited, path, version, changes, encoding), was_edited),
        call_ensures(Sources::did_close, (shut, path, disk), was_shut),
        !old(edited)@.documents.contains_key(path.key()),
        !old(shut)@.documents.contains_key(path.key()),
    ensures
        !was_edited,
        !was_shut,
        final(edited)@ == old(edited)@,
        final(shut)@ == old(shut)@,
{
    crate::sources::laws::only_open_documents_are_edited_or_closed(
        old(edited)@,
        path.key(),
        version,
        crate::documents::change_views(changes@),
        encoding,
        None,
    );
    crate::sources::laws::only_open_documents_are_edited_or_closed(
        old(shut)@,
        path.key(),
        version,
        crate::documents::change_views(changes@),
        encoding,
        crate::vfs::bytes_of(disk),
    );
}

/// A change without a range replaces the whole text of an open document, and
/// changes that come together apply one behind the other.
pub proof fn whole_changes_replace_the_text(
    sources: &mut Sources,
    path: &VfsPath,
    version: i32,
    changes: &Vec<ContentChange>,
    encoding: PositionEncoding,
    open: bool,
)
    requires
        call_ensures(Sources::did_change, (sources, path, version, changes, encoding), open),
        old(sources)@.documents.contains_key(path.key()),
        crate::vfs::contents_at(old(sources)@.vfs, path.key()) == Some(
            vstd::utf8::encode_utf8(old(sources)@.documents[path.key()].text),
        ),
        changes@.len() > 0,
        changes@.last()@.range is None,
    ensures
        open,
        final(sources)@.documents.contains_key(path.key()),
        final(sources)@.documents[path.key()].text == changes@.last()@.text,
        final(sources)@.documents[path.key()].version == version,
{
    let views = crate::documents::change_views(changes@);
    let text = old(sources)@.documents[path.key()].text;
    let other = if path.key() == PathView::Real(Seq::empty()) {
        PathView::Real(seq!['/'])
    } else {
        PathView::Real(Seq::empty())
    };
    assert(seq!['/'].len() == 1);
    crate::sources::laws::editing_makes_stale(
        old(sources)@,
        path.key(),
        version,
        views,
        encoding,
        other,
    );
    assert(views =~= views.drop_last().push(changes@.last()@));
    crate::documents::laws::edits_apply_in_turn(
        text,
        views.drop_last(),
        changes@.last()@,
        encoding,
    );
    crate::documents::laws::edits_without_a_range_replace_all(
        crate::documents::edited_by(text, views.drop_last(), encoding),
        changes@.last()@,
        encoding,
    );
}

/// A document that is closed is open no longer, and every other one stays as it
/// is.
pub proof fn closed_documents_are_let_go(
    sources: &mut Sources,
    path: &VfsPath,
    disk: Option<Vec<u8>>,
    open: bool,
    other: PathView,
)
    requires
        call_ensures(Sources::did_close, (sources, path, disk), open),
        old(sources)@.documents.contains_key(path.key()),
        crate::sources::is_sound(old(sources)@.vfs),
        other != path.key(),
    ensures
        open,
        !final(sources)@.documents.contains_key(path.key()),
        final(sources)@.documents.contains_key(other) <==> old(sources)@.documents.contains_key(
            other,
        ),
        old(sources)@.documents.contains_key(other) ==> final(sources)@.documents[other]
            == old(sources)@.documents[other],
        path.key() is Real ==> crate::vfs::contents_at(final(sources)@.vfs, path.key())
            == crate::vfs::bytes_of(disk),
{
    crate::sources::laws::closing_returns_to_the_disk(
        old(sources)@,
        path.key(),
        crate::vfs::bytes_of(disk),
        other,
    );
}

/// A document is read back as it was opened, and is no longer there once it is
/// closed.
pub proof fn documents_are_read_back(
    opened: &mut Documents,
    shut: &mut Documents,
    path: VfsPath,
    same: &VfsPath,
    version: i32,
    text: String,
    before: Option<Document>,
    after: Option<Document>,
    held: &Documents,
    let_go: &Documents,
    found: Option<&Document>,
    lost: Option<&Document>,
)
    requires
        same.key() == path.key(),
        call_ensures(Documents::open, (opened, path, version, text), before),
        *held == *final(opened),
        call_ensures(Documents::get, (held, same), found),
        *old(shut) == *held,
        call_ensures(Documents::close, (shut, same), after),
        *let_go == *final(shut),
        call_ensures(Documents::get, (let_go, same), lost),
    ensures
        found is Some,
        found->0@.text == text@,
        found->0@.version == version,
        after is Some,
        after->0@ == found->0@,
        lost is None,
{
}

/// The client's copy of a file is read before the one on disk. Nothing is read
/// by an absolute path.
pub proof fn open_copies_are_read_first<F: Fn(&str) -> Option<String>>(
    sources: &Sources,
    root: &AbsPath,
    relative: &str,
    disk: &F,
    text: Option<String>,
)
    requires
        call_ensures(Sources::read_file::<F>, (sources, root, relative, disk), text),
    ensures
        crate::paths::absolute(relative@) ==> text is None,
        ({
            let file = crate::sources::workspace_file(root@, relative@);
            !crate::paths::absolute(relative@) && sources@.documents.contains_key(file)
                && crate::handlers::fits(sources@.documents[file].text) ==> text is Some
                && text->0@ == sources@.documents[file].text
        }),
{
}

} // verus!
