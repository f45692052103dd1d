//! What is newer than the index, for a search.
//!
//! Every open file is parsed, and every saved file known to be newer than the
//! index, so that a symbol written seconds ago is findable. This stays bounded by
//! the files edited during the session rather than by the size of the repository.
use vstd::prelude::*;

use crate::definition::{Definition, DefinitionView};
use crate::documents::Document;
use crate::handlers::search::{workspace_symbol_with, SearchResults};
use crate::line_index::PositionEncoding;
use crate::overlay::Overlay;
use crate::paths::{is_absolute, AbsPath};
use crate::sources::{Sources, SourcesView};
use crate::symbol_index::SymbolIndex;
use crate::table::Interner;
use crate::vfs_path::{PathView, VfsPath};

verus! {

/// A file of the workspace, by its relative path, and its current text.
#[derive(Debug)]
pub struct CurrentSource {
    pub path: String,
    pub text: String,
}

/// The views of some sources.
pub open spec fn source_views(sources: Seq<CurrentSource>) -> Seq<(Seq<char>, Seq<char>)> {
    Seq::new(sources.len(), |i: int| (sources[i].path@, sources[i].text@))
}

/// The path of a file inside the workspace.
pub open spec fn relative_to(path: PathView, root: Seq<char>) -> Option<Seq<char>> {
    match path {
        PathView::Real(file) => match crate::paths::path_below(file, root) {
            Some(rest) => if crate::paths::absolute(rest) {
                None
            } else {
                Some(rest)
            },
            None => None,
        },
        _ => None,
    }
}

/// Computes [`relative_to`].
pub fn relative_path<'a>(path: &'a VfsPath, root: &AbsPath) -> (relative: Option<&'a str>)
    ensures
        (match relative {
            Some(relative) => Some(relative@),
            None => None,
        }) == relative_to(path@, root@),
        relative matches Some(relative) ==> crate::sources::workspace_file(root@, relative@)
            == path.key(),
{
    match path.as_real() {
        Some(file) => {
            let base = root.as_str();
            match crate::paths::below_of(file.as_str(), base) {
                Some(rest) => if is_absolute(rest) {
                    None
                } else {
                    Some(rest)
                },
                None => None,
            }
        },
        None => None,
    }
}

/// What is newer than the index: the files that it says nothing true of, and the
/// current texts of those that have one.
pub struct Gathered {
    pub shadowed: Seq<Seq<char>>,
    pub sources: Seq<(Seq<char>, Seq<char>)>,
}

/// What is newer than the index among the open documents: those inside the
/// workspace, with the text that the client holds.
pub open spec fn open_sources(
    documents: Seq<(PathView, Seq<char>)>,
    root: Seq<char>,
) -> Gathered
    decreases documents.len(),
{
    if documents.len() == 0 {
        Gathered { shadowed: Seq::empty(), sources: Seq::empty() }
    } else {
        let rest = open_sources(documents.drop_last(), root);
        match relative_to(documents.last().0, root) {
            Some(path) => Gathered {
                shadowed: crate::table::interned(rest.shadowed, path),
                sources: rest.sources.push((path, documents.last().1)),
            },
            None => rest,
        }
    }
}

/// What is newer than the index, with the stale files: those that are not open
/// have the text on disk. A file that cannot be read still shadows what the
/// index says of it, rather than reviving it.
pub open spec fn with_stale(
    open: Gathered,
    stale: Seq<PathView>,
    root: Seq<char>,
    disk: Seq<Option<Seq<char>>>,
) -> Gathered
    decreases stale.len(),
{
    if stale.len() == 0 {
        open
    } else {
        let at = stale.len() - 1;
        let rest = with_stale(open, stale.drop_last(), root, disk);
        match relative_to(stale[at], root) {
            Some(path) if !rest.shadowed.contains(path) => Gathered {
                shadowed: rest.shadowed.push(path),
                sources: match disk[at] {
                    Some(text) => rest.sources.push((path, text)),
                    None => rest.sources,
                },
            },
            _ => rest,
        }
    }
}

/// Whether the text of the `i`th stale file is asked for: it lies inside the
/// workspace, and nothing newer is known of it.
pub open spec fn is_asked(
    open: Gathered,
    stale: Seq<PathView>,
    root: Seq<char>,
    disk: Seq<Option<Seq<char>>>,
    i: int,
) -> bool {
    relative_to(stale[i], root) matches Some(path) && !with_stale(
        open,
        stale.take(i),
        root,
        disk,
    ).shadowed.contains(path)
}

/// Whether `disk` is what `read` gives for the stale files that are asked for.
pub open spec fn is_read<F: Fn(&str) -> Option<String>>(
    read: F,
    open: Gathered,
    stale: Seq<PathView>,
    root: Seq<char>,
    disk: Seq<Option<Seq<char>>>,
) -> bool {
    &&& disk.len() == stale.len()
    &&& forall|i: int|
        0 <= i < stale.len() && #[trigger] is_asked(open, stale, root, disk, i) ==> (
        stale[i] matches PathView::Real(file) && crate::sources::gives(read, file, disk[i]))
}

/// Whether `listed` are the open documents, each once.
pub open spec fn lists_documents(
    s: SourcesView,
    listed: Seq<(PathView, Seq<char>)>,
) -> bool {
    &&& forall|k: int|
        0 <= k < listed.len() ==> s.documents.contains_key((#[trigger] listed[k]).0)
            && s.documents[listed[k].0].text == listed[k].1
    &&& forall|path: PathView| #[trigger]
        s.documents.contains_key(path) ==> exists|k: int|
            0 <= k < listed.len() && (#[trigger] listed[k]).0 == path
    &&& forall|j: int, k: int|
        0 <= j < k < listed.len() ==> (#[trigger] listed[j]).0 != (#[trigger] listed[k]).0
}

/// Whether `found` is what is newer than the index, with the stale files as
/// `read` gives them.
pub open spec fn is_gathered<F: Fn(&str) -> Option<String>>(
    s: SourcesView,
    root: Seq<char>,
    read: F,
    found: Gathered,
) -> bool {
    exists|documents: Seq<(PathView, Seq<char>)>, stale: Seq<PathView>, disk: Seq<
        Option<Seq<char>>,
    >|
        #![trigger lists_documents(s, documents), is_read(
            read,
            open_sources(documents, root),
            stale,
            root,
            disk,
        )]
        {
            &&& lists_documents(s, documents)
            &&& stale.no_duplicates()
            &&& stale.to_set() == s.stale
            &&& is_read(read, open_sources(documents, root), stale, root, disk)
            &&& found == with_stale(open_sources(documents, root), stale, root, disk)
        }
}

/// What the current sources declare.
pub open spec fn declared(sources: Seq<(Seq<char>, Seq<char>)>) -> Seq<DefinitionView>
    decreases sources.len(),
{
    if sources.len() == 0 {
        Seq::empty()
    } else {
        declared(sources.drop_last()) + crate::overlay::parsed_declarations(
            sources.last().0,
            sources.last().1,
        )
    }
}

/// The reading of the stale files does not depend on what comes behind them.
proof fn lemma_stale_prefix(
    open: Gathered,
    stale: Seq<PathView>,
    root: Seq<char>,
    a: Seq<Option<Seq<char>>>,
    b: Seq<Option<Seq<char>>>,
)
    requires
        stale.len() <= a.len(),
        stale.len() <= b.len(),
        forall|i: int| 0 <= i < stale.len() ==> a[i] == b[i],
    ensures
        with_stale(open, stale, root, a) == with_stale(open, stale, root, b),
    decreases stale.len(),
{
    if stale.len() > 0 {
        lemma_stale_prefix(open, stale.drop_last(), root, a, b);
    }
}

/// The documents that `all` lists, with their texts.
spec fn listed(all: Seq<(&VfsPath, &Document)>) -> Seq<(PathView, Seq<char>)> {
    Seq::new(all.len(), |i: int| (all[i].0@, all[i].1@.text))
}

impl Sources {
    /// Computes [`open_sources`].
    fn open_documents(
        root: &AbsPath,
        all: &Vec<(&VfsPath, &Document)>,
        shadowed: &mut Interner,
        sources: &mut Vec<CurrentSource>,
    )
        requires
            old(shadowed).wf(),
            old(shadowed)@.len() == 0,
            old(sources)@.len() == 0,
        ensures
            final(shadowed).wf(),
            final(shadowed)@ == open_sources(listed(all@), root@).shadowed,
            source_views(final(sources)@) == open_sources(listed(all@), root@).sources,
    {
        let ghost documents = listed(all@);
        let mut i: usize = 0;
        proof {
            assert(documents.take(0) =~= Seq::<(PathView, Seq<char>)>::empty());
            assert(shadowed@ =~= open_sources(documents.take(0), root@).shadowed);
            assert(source_views(sources@) =~= open_sources(documents.take(0), root@).sources);
        }
        while i < all.len()
            invariant
                i <= all@.len(),
                documents == listed(all@),
                shadowed.wf(),
                shadowed@ == open_sources(documents.take(i as int), root@).shadowed,
                source_views(sources@) == open_sources(documents.take(i as int), root@).sources,
            decreases all@.len() - i,
        {
            let path: &VfsPath = all[i].0;
            let document: &Document = all[i].1;
            proof {
                assert(documents.take(i + 1).drop_last() =~= documents.take(i as int));
                assert(documents.take(i + 1).last() == documents[i as int]);
            }
            if let Some(relative) = relative_path(path, root) {
                let ghost before = sources@;
                let _ = shadowed.intern(relative);
                sources.push(
                    CurrentSource { path: relative.to_owned(), text: document.text.clone() },
                );
                assert(source_views(sources@) =~= source_views(before).push(
                    (relative@, document.text@),
                ));
            }
            i += 1;
        }
        assert(documents.take(i as int) =~= documents);
    }

    /// What is newer than the index: the files that it says nothing true of, and
    /// the current texts of those that have one.
    pub fn current_sources<F: Fn(&str) -> Option<String>>(&self, root: &AbsPath, read: &F) -> (found: (
        Vec<String>,
        Vec<CurrentSource>,
    ))
        requires
            self.wf(),
            crate::sources::reads_any(*read),
        ensures
            is_gathered(
                self@,
                root@,
                *read,
                (Gathered {
                    shadowed: crate::text::texts(found.0@),
                    sources: source_views(found.1@),
                }),
            ),
    {
        let all = self.documents.iter();
        let ghost documents = listed(all@);
        proof {
            assert(lists_documents(self@, documents)) by {
                assert forall|k: int| 0 <= k < documents.len() implies self@.documents.contains_key(
                    (#[trigger] documents[k]).0,
                ) && self@.documents[documents[k].0].text == documents[k].1 by {
                    assert(crate::documents::shows_open(
                        self.documents@,
                        all@[k].0@,
                        all@[k].1@,
                    ));
                }
                assert forall|path: PathView| #[trigger]
                    self@.documents.contains_key(path) implies exists|k: int|
                    0 <= k < documents.len() && (#[trigger] documents[k]).0 == path by {
                    let k = choose|k: int| 0 <= k < all@.len() && (#[trigger] all@[k]).0@ == path;
                    assert(documents[k].0 == path);
                }
                assert forall|j: int, k: int| 0 <= j < k < documents.len() implies (
                #[trigger] documents[j]).0 != (#[trigger] documents[k]).0 by {
                    assert(all@[j].0@ != all@[k].0@);
                }
            }
            self.stale.lemma_order();
        }
        let mut shadowed = Interner::new();
        let mut sources: Vec<CurrentSource> = Vec::new();
        Sources::open_documents(root, &all, &mut shadowed, &mut sources);
        let ghost open = open_sources(documents, root@);
        let ghost stale = self.stale.order();
        let ghost mut disk: Seq<Option<Seq<char>>> = Seq::empty();
        let n: usize = self.stale.len();
        proof {
            assert(stale.take(0) =~= Seq::<PathView>::empty());
        }
        let mut i: usize = 0;
        while i < n
            invariant
                i <= n,
                n == stale.len(),
                self.wf(),
                stale == self.stale.order(),
                crate::sources::reads_any(*read),
                shadowed.wf(),
                disk.len() == i,
                shadowed@ == with_stale(open, stale.take(i as int), root@, disk).shadowed,
                source_views(sources@) == with_stale(
                    open,
                    stale.take(i as int),
                    root@,
                    disk,
                ).sources,
                is_read(*read, open, stale.take(i as int), root@, disk),
            decreases n - i,
        {
            let path = self.stale.get(i);
            let ghost old_disk = disk;
            let ghost mut found: Option<Seq<char>> = None;
            let ghost next = stale.take(i + 1);
            proof {
                assert(next.drop_last() =~= stale.take(i as int));
                assert(next.last() == path@);
            }
            if let Some(relative) = relative_path(path, root) {
                let known: usize = shadowed.len();
                let ghost before = shadowed@;
                let slot: usize = shadowed.intern(relative);
                proof {
                    shadowed.lemma_distinct();
                    if before.contains(relative@) {
                        let j = before.index_of(relative@);
                        assert(shadowed@[j] == relative@);
                    }
                }
                if slot == known {
                    let text = match path.as_real() {
                        Some(file) => {
                            let text = read(file.as_str());
                            assert(crate::sources::gives(
                                *read,
                                file@,
                                crate::config::text_of(text),
                            ));
                            text
                        },
                        None => None,
                    };
                    proof {
                        found = crate::config::text_of(text);
                    }
                    if let Some(text) = text {
                        let ghost before = sources@;
                        let ghost view = text@;
                        sources.push(CurrentSource { path: relative.to_owned(), text });
                        assert(source_views(sources@) =~= source_views(before).push(
                            (relative@, view),
                        ));
                    }
                }
            }
            proof {
                disk = old_disk.push(found);
                lemma_stale_prefix(open, stale.take(i as int), root@, old_disk, disk);
                assert(disk[i as int] == found);
                assert forall|j: int|
                    0 <= j < next.len() && #[trigger] is_asked(
                        open,
                        next,
                        root@,
                        disk,
                        j,
                    ) implies (next[j] matches PathView::Real(file) && crate::sources::gives(
                    *read,
                    file,
                    disk[j],
                )) by {
                    assert(next.take(j) =~= stale.take(i as int).take(j));
                    lemma_stale_prefix(open, next.take(j), root@, old_disk, disk);
                    if j < i {
                        assert(is_asked(open, stale.take(i as int), root@, old_disk, j));
                    } else {
                        assert(next.take(j) =~= stale.take(i as int));
                    }
                }
            }
            i += 1;
        }
        assert(stale.take(n as int) =~= stale);
        let names = shadowed.names();
        proof {
            let found = Gathered {
                shadowed: crate::text::texts(names@),
                sources: source_views(sources@),
            };
            assert(found == with_stale(open, stale, root@, disk));
        }
        (names, sources)
    }

    /// Reads a file of the workspace, preferring the client's open copy: its
    /// buffer is authoritative and differs from disk from the first keystroke
    /// until a save. A text too large for its offsets is not read.
    pub fn read_file<F: Fn(&str) -> Option<String>>(
        &self,
        root: &AbsPath,
        relative: &str,
        disk: &F,
    ) -> (text: Option<String>)
        requires
            self.wf(),
            crate::sources::reads_any(*disk),
        ensures
            is_file_text(self@, root@, relative@, *disk, crate::config::text_of(text)),
    {
        if is_absolute(relative) {
            return None;
        }
        let path = VfsPath::from_real(root.join(relative));
        let text = match self.documents.get(&path) {
            Some(document) => Some(document.text.clone()),
            None => match path.as_real() {
                Some(file) => {
                    let text = disk(file.as_str());
                    assert(crate::sources::gives(*disk, file@, crate::config::text_of(text)));
                    text
                },
                None => None,
            },
        };
        match text {
            Some(text) => if text.as_str().as_bytes().len() < u32::MAX as usize {
                Some(text)
            } else {
                None
            },
            None => None,
        }
    }

    /// Answers `workspace/symbol` from the index and from every file that is
    /// newer. `disk` gives the text of a file, and `read` what is shown of one.
    pub fn workspace_symbol<F: Fn(&str) -> Option<String>, G: Fn(&str) -> Option<String>>(
        &self,
        index: &SymbolIndex,
        overlay: &Overlay,
        query: &str,
        root: &AbsPath,
        client: PositionEncoding,
        disk: &F,
        read: &G,
    ) -> (results: SearchResults)
        requires
            self.wf(),
            index.wf(),
            crate::handlers::names_workspace_files(index@),
            crate::sources::reads_any(*disk),
            crate::handlers::is_reader(*read),
        ensures
            exists|found: Gathered| #[trigger]
                is_gathered(self@, root@, *disk, found)
                    && crate::handlers::search::is_search_answer(
                    results,
                    index@,
                    declared(found.sources),
                    found.shadowed,
                    query@,
                    *read,
                    root@,
                    client,
                ),
    {
        let (shadowed, sources) = self.current_sources(root, disk);
        let ghost found = Gathered {
            shadowed: crate::text::texts(shadowed@),
            sources: source_views(sources@),
        };
        proof {
            lemma_gathered_inside(self@, root@, *disk, found);
        }
        let live = declarations_of(overlay, &sources);
        proof {
            assert forall|i: int| 0 <= i < live@.len() implies !crate::paths::absolute(
                (#[trigger] live@[i]).path@,
            ) by {
                lemma_declared_inside(found.sources);
                assert(crate::definition::definition_views(live@)[i] == live@[i]@);
            }
        }
        workspace_symbol_with(index, &live, &shadowed, query, root, client, read)
    }
}

/// Whether no path of some sources is absolute.
spec fn are_inside(sources: Seq<(Seq<char>, Seq<char>)>) -> bool {
    forall|i: int| 0 <= i < sources.len() ==> !crate::paths::absolute((#[trigger] sources[i]).0)
}

proof fn lemma_open_inside(documents: Seq<(PathView, Seq<char>)>, root: Seq<char>)
    ensures
        are_inside(open_sources(documents, root).sources),
    decreases documents.len(),
{
    if documents.len() > 0 {
        lemma_open_inside(documents.drop_last(), root);
    }
}

proof fn lemma_stale_inside(
    open: Gathered,
    stale: Seq<PathView>,
    root: Seq<char>,
    disk: Seq<Option<Seq<char>>>,
)
    requires
        are_inside(open.sources),
    ensures
        are_inside(with_stale(open, stale, root, disk).sources),
    decreases stale.len(),
{
    if stale.len() > 0 {
        lemma_stale_inside(open, stale.drop_last(), root, disk);
    }
}

proof fn lemma_gathered_inside<F: Fn(&str) -> Option<String>>(
    s: SourcesView,
    root: Seq<char>,
    read: F,
    found: Gathered,
)
    requires
        is_gathered(s, root, read, found),
    ensures
        are_inside(found.sources),
{
    let (documents, stale, disk) = choose|
        documents: Seq<(PathView, Seq<char>)>,
        stale: Seq<PathView>,
        disk: Seq<Option<Seq<char>>>,
    |
        #![trigger lists_documents(s, documents), is_read(
            read,
            open_sources(documents, root),
            stale,
            root,
            disk,
        )]
        {
            &&& lists_documents(s, documents)
            &&& stale.no_duplicates()
            &&& stale.to_set() == s.stale
            &&& is_read(read, open_sources(documents, root), stale, root, disk)
            &&& found == with_stale(open_sources(documents, root), stale, root, disk)
        };
    lemma_open_inside(documents, root);
    lemma_stale_inside(open_sources(documents, root), stale, root, disk);
}

proof fn lemma_declared_inside(sources: Seq<(Seq<char>, Seq<char>)>)
    requires
        are_inside(sources),
    ensures
        forall|i: int|
            0 <= i < declared(sources).len() ==> !crate::paths::absolute(
                (#[trigger] declared(sources)[i]).path,
            ),
    decreases sources.len(),
{
    if sources.len() > 0 {
        let (path, text) = sources.last();
        lemma_declared_inside(sources.drop_last());
        assert(!crate::paths::absolute(sources[sources.len() - 1].0));
        if let Some(nodes) = crate::overlay::parsed_source(text) {
            crate::overlay::nothing_is_invented(nodes, 0, nodes.len() as int, path, Seq::empty());
        }
        let own = crate::overlay::parsed_declarations(path, text);
        let front = declared(sources.drop_last());
        assert forall|i: int| 0 <= i < declared(sources).len() implies !crate::paths::absolute(
            (#[trigger] declared(sources)[i]).path,
        ) by {
            if i < front.len() {
                assert(declared(sources)[i] == front[i]);
            } else {
                assert(declared(sources)[i] == own[i - front.len()]);
                assert(crate::overlay::claims_only_syntax(own[i - front.len()], path));
            }
        }
    }
}

/// Computes [`declared`].
fn declarations_of(overlay: &Overlay, sources: &Vec<CurrentSource>) -> (live: Vec<Definition>)
    ensures
        crate::definition::definition_views(live@) == declared(source_views(sources@)),
{
    let ghost all = source_views(sources@);
    let mut live: Vec<Definition> = Vec::new();
    let mut i: usize = 0;
    proof {
        assert(all.take(0) =~= Seq::<(Seq<char>, Seq<char>)>::empty());
        assert(crate::definition::definition_views(live@) =~= declared(all.take(0)));
    }
    while i < sources.len()
        invariant
            i <= sources@.len(),
            all == source_views(sources@),
            crate::definition::definition_views(live@) == declared(all.take(i as int)),
        decreases sources@.len() - i,
    {
        let source = &sources[i];
        let mut own = overlay.parse(source.path.as_str(), source.text.as_str());
        proof {
            assert(all.take(i + 1).drop_last() =~= all.take(i as int));
            assert(all.take(i + 1).last() == all[i as int]);
        }
        let ghost before = live@;
        let ghost added = own@;
        live.append(&mut own);
        assert(crate::definition::definition_views(live@)
            =~= crate::definition::definition_views(before) + crate::definition::definition_views(
            added,
        ));
        i += 1;
    }
    assert(all.take(i as int) =~= all);
    live
}

/// Whether a text is that of a file of the workspace: of the client's copy, and
/// where it has none of what `disk` gives.
pub open spec fn is_file_text<F: Fn(&str) -> Option<String>>(
    s: SourcesView,
    root: Seq<char>,
    relative: Seq<char>,
    disk: F,
    text: Option<Seq<char>>,
) -> bool {
    let file = crate::paths::joined_path(root, relative);
    if crate::paths::absolute(relative) {
        text is None
    } else if s.documents.contains_key(crate::sources::workspace_file(root, relative)) {
        text == within_offsets(
            Some(s.documents[crate::sources::workspace_file(root, relative)].text),
        )
    } else {
        exists|found: Option<Seq<char>>| #[trigger]
            crate::sources::gives(disk, file, found) && text == within_offsets(found)
    }
}

/// A text whose offsets fit.
pub open spec fn within_offsets(text: Option<Seq<char>>) -> Option<Seq<char>> {
    match text {
        Some(text) => if crate::handlers::fits(text) {
            Some(text)
        } else {
            None
        },
        None => None,
    }
}

proof fn lemma_open_shadowed(documents: Seq<(PathView, Seq<char>)>, root: Seq<char>)
    ensures
        forall|k: int, path: Seq<char>|
            0 <= k < documents.len() && relative_to((#[trigger] documents[k]).0, root) == Some(path)
                ==> #[trigger] open_sources(documents, root).shadowed.contains(path),
    decreases documents.len(),
{
    if documents.len() > 0 {
        let front = documents.drop_last();
        let rest = open_sources(front, root).shadowed;
        lemma_open_shadowed(front, root);
        assert forall|k: int, path: Seq<char>|
            0 <= k < documents.len() && relative_to((#[trigger] documents[k]).0, root) == Some(
                path,
            ) implies #[trigger] open_sources(documents, root).shadowed.contains(path) by {
            let all = open_sources(documents, root).shadowed;
            if k < front.len() {
                assert(front[k] == documents[k]);
                assert(rest.contains(path));
                let j = rest.index_of(path);
                assert(all[j] == path);
            } else if !rest.contains(path) {
                assert(all[rest.len() as int] == path);
            }
        }
    }
}

proof fn lemma_stale_shadowed(
    open: Gathered,
    stale: Seq<PathView>,
    root: Seq<char>,
    disk: Seq<Option<Seq<char>>>,
)
    ensures
        open.shadowed.is_prefix_of(with_stale(open, stale, root, disk).shadowed),
        forall|k: int, path: Seq<char>|
            0 <= k < stale.len() && relative_to(#[trigger] stale[k], root) == Some(path)
                ==> #[trigger] with_stale(open, stale, root, disk).shadowed.contains(path),
    decreases stale.len(),
{
    if stale.len() > 0 {
        let front = stale.drop_last();
        let rest = with_stale(open, front, root, disk).shadowed;
        let all = with_stale(open, stale, root, disk).shadowed;
        lemma_stale_shadowed(open, front, root, disk);
        assert(rest.is_prefix_of(all));
        assert forall|k: int, path: Seq<char>|
            0 <= k < stale.len() && relative_to(#[trigger] stale[k], root) == Some(
                path,
            ) implies #[trigger] with_stale(open, stale, root, disk).shadowed.contains(path) by {
            if k < front.len() {
                assert(front[k] == stale[k]);
                assert(rest.contains(path));
                let j = rest.index_of(path);
                assert(all[j] == path);
            } else if rest.contains(path) {
                let j = rest.index_of(path);
                assert(all[j] == path);
            } else {
                assert(all[rest.len() as int] == path);
            }
        }
    }
}

/// Whatever is open or stale is shadowed: a search claims nothing of it from the
/// index.
pub proof fn newer_files_are_shadowed<F: Fn(&str) -> Option<String>>(
    s: SourcesView,
    root: Seq<char>,
    read: F,
    found: Gathered,
    path: PathView,
    relative: Seq<char>,
)
    requires
        is_gathered(s, root, read, found),
        s.documents.contains_key(path) || s.stale.contains(path),
        relative_to(path, root) == Some(relative),
    ensures
        found.shadowed.contains(relative),
{
    let (documents, stale, disk) = choose|
        documents: Seq<(PathView, Seq<char>)>,
        stale: Seq<PathView>,
        disk: Seq<Option<Seq<char>>>,
    |
        #![trigger lists_documents(s, documents), is_read(
            read,
            open_sources(documents, root),
            stale,
            root,
            disk,
        )]
        {
            &&& lists_documents(s, documents)
            &&& stale.no_duplicates()
            &&& stale.to_set() == s.stale
            &&& is_read(read, open_sources(documents, root), stale, root, disk)
            &&& found == with_stale(open_sources(documents, root), stale, root, disk)
        };
    let open = open_sources(documents, root);
    lemma_open_shadowed(documents, root);
    lemma_stale_shadowed(open, stale, root, disk);
    if s.documents.contains_key(path) {
        let k = choose|k: int| 0 <= k < documents.len() && (#[trigger] documents[k]).0 == path;
        assert(open.shadowed.contains(relative));
        let j = open.shadowed.index_of(relative);
        assert(found.shadowed[j] == relative);
    } else {
        assert(stale.to_set().contains(path));
        let k = stale.index_of(path);
        assert(stale[k] == path);
    }
}

} // verus!
