//! What the server tells the client it can do.
//!
//! Implemented operations are advertised consistently. While the index loads,
//! their handlers return an explicit retryable error rather than an empty
//! answer.
use vstd::prelude::*;

use crate::line_index::PositionEncoding;
use crate::text::same_text;

verus! {

/// Picks the position encoding to use for the session, from those that the
/// client offers, where it says anything about them.
///
/// LSP predates any concern for this and specifies UTF-16 as the only encoding,
/// so UTF-16 is the fallback whenever the client says nothing. A client that
/// advertises UTF-8 lets every offset in the server pass through untouched,
/// which removes a whole class of off-by-a-character bug rather than merely
/// handling it, so it is preferred whenever offered.
pub fn negotiate_encoding(offered: Option<&Vec<String>>) -> (encoding: PositionEncoding)
    ensures
        encoding == (match offered {
            Some(kinds) => if crate::text::texts(kinds@).contains("utf-8"@) {
                PositionEncoding::Utf8
            } else {
                PositionEncoding::Utf16
            },
            None => PositionEncoding::Utf16,
        }),
{
    let kinds = match offered {
        Some(kinds) => kinds,
        None => {
            return PositionEncoding::Utf16;
        },
    };
    let ghost all = crate::text::texts(kinds@);
    let mut i: usize = 0;
    while i < kinds.len()
        invariant
            offered == Some(kinds),
            all == crate::text::texts(kinds@),
            i <= kinds@.len(),
            forall|j: int| 0 <= j < i ==> all[j] != "utf-8"@,
        decreases kinds@.len() - i,
    {
        assert(all[i as int] == kinds@[i as int]@);
        if same_text(&kinds[i], "utf-8") {
            assert(all.contains("utf-8"@));
            return PositionEncoding::Utf8;
        }
        i += 1;
    }
    PositionEncoding::Utf16
}

/// What an encoding is called.
pub open spec fn encoding_name(encoding: PositionEncoding) -> Seq<char> {
    match encoding {
        PositionEncoding::Utf8 => "utf-8"@,
        PositionEncoding::Utf16 => "utf-16"@,
    }
}

impl PositionEncoding {
    /// What LSP calls the encoding.
    pub fn to_lsp(self) -> (name: &'static str)
        ensures
            name@ == encoding_name(self),
    {
        match self {
            PositionEncoding::Utf8 => "utf-8",
            PositionEncoding::Utf16 => "utf-16",
        }
    }
}

/// What the server advertises at `initialize`.
#[derive(Copy, Clone, Debug)]
pub struct Capabilities {
    pub position_encoding: PositionEncoding,
    pub workspace_symbol: bool,
    pub definition: bool,
    pub references: bool,
    pub document_symbol: bool,
    pub implementation: bool,
    pub hover: bool,
    pub call_hierarchy: bool,
    /// Deferred, not built.
    pub completion: bool,
    /// Out of scope.
    pub signature_help: bool,
    /// Out of scope.
    pub semantic_tokens: bool,
    /// Whether opening and closing documents is followed.
    pub open_close: bool,
    /// Whether edits are sent rather than whole documents. The alternative is
    /// resending whole files on every keystroke, and this server is meant for
    /// large ones.
    pub incremental_sync: bool,
    pub will_save: bool,
    pub will_save_wait_until: bool,
    /// Whether saves come with the text. They do not: the file is on disk by
    /// then, and shipping the contents again would double every write.
    pub save_includes_text: bool,
    pub workspace_folders: bool,
}

/// What the server advertises: every query that is implemented, whether or not
/// an index is loaded, and nothing else.
pub open spec fn advertised(encoding: PositionEncoding) -> Capabilities {
    Capabilities {
        position_encoding: encoding,
        workspace_symbol: true,
        definition: true,
        references: true,
        document_symbol: true,
        implementation: true,
        hover: true,
        call_hierarchy: true,
        completion: false,
        signature_help: false,
        semantic_tokens: false,
        open_close: true,
        incremental_sync: true,
        will_save: false,
        will_save_wait_until: false,
        save_includes_text: false,
        workspace_folders: true,
    }
}

/// What the server advertises at `initialize`.
///
/// Readiness is reported by `jabar/status`. Queries before readiness fail
/// explicitly, so clients can retry without treating an empty result as truth.
pub fn server_capabilities(encoding: PositionEncoding) -> (capabilities: Capabilities)
    ensures
        capabilities == advertised(encoding),
{
    Capabilities {
        position_encoding: encoding,
        workspace_symbol: true,
        definition: true,
        references: true,
        document_symbol: true,
        implementation: true,
        hover: true,
        call_hierarchy: true,
        completion: false,
        signature_help: false,
        semantic_tokens: false,
        open_close: true,
        incremental_sync: true,
        will_save: false,
        will_save_wait_until: false,
        save_includes_text: false,
        workspace_folders: true,
    }
}

/// The workspace root, taken from whichever of the several places the client
/// might have put it: the first of its folders, or the root that preceded them.
///
/// The latter is deprecated, but plenty of clients still send only that, so both
/// are read.
pub fn workspace_root(folders: Option<Vec<String>>, root_uri: Option<String>) -> (root: Option<
    String,
>)
    ensures
        match folders {
            Some(folders) => if folders@.len() > 0 {
                root matches Some(root) && root@ == folders@[0]@
            } else {
                root == root_uri
            },
            None => root == root_uri,
        },
{
    if let Some(folders) = &folders {
        if folders.len() > 0 {
            return Some(folders[0].clone());
        }
    }
    root_uri
}

/// A session counts bytes exactly where the client offers that, and code units
/// otherwise.
pub proof fn bytes_are_counted_where_offered(
    offered: Option<&Vec<String>>,
    encoding: PositionEncoding,
)
    requires
        call_ensures(negotiate_encoding, (offered,), encoding),
    ensures
        encoding is Utf8 <==> offered is Some && exists|i: int|
            0 <= i < offered->0@.len() && (#[trigger] offered->0@[i])@ == seq![
                'u',
                't',
                'f',
                '-',
                '8',
            ],
        offered is None ==> encoding is Utf16,
{
    reveal_strlit("utf-8");
    let name = seq!['u', 't', 'f', '-', '8'];
    assert("utf-8"@ =~= name);
    if let Some(kinds) = offered {
        let all = crate::text::texts(kinds@);
        assert(forall|i: int| 0 <= i < kinds@.len() ==> all[i] == (#[trigger] kinds@[i])@);
        if all.contains(name) {
            let i = choose|i: int| 0 <= i < all.len() && all[i] == name;
            assert(kinds@[i]@ == name);
        }
        if exists|i: int| 0 <= i < kinds@.len() && (#[trigger] kinds@[i])@ == name {
            let i = choose|i: int| 0 <= i < kinds@.len() && (#[trigger] kinds@[i])@ == name;
            assert(all[i] == name);
        }
    }
}

/// What an encoding is called says which one it is.
pub proof fn encodings_are_told_apart_by_name(
    a: PositionEncoding,
    b: PositionEncoding,
    called_a: &'static str,
    called_b: &'static str,
)
    requires
        call_ensures(PositionEncoding::to_lsp, (a,), called_a),
        call_ensures(PositionEncoding::to_lsp, (b,), called_b),
    ensures
        called_a@ == called_b@ <==> a == b,
        a is Utf8 ==> called_a@ == "utf-8"@,
        a is Utf16 ==> called_a@ == "utf-16"@,
{
    reveal_strlit("utf-8");
    reveal_strlit("utf-16");
    assert("utf-8"@.len() == 5);
    assert("utf-16"@.len() == 6);
}

/// Every query that is served is advertised, and so are edits and open documents.
/// What is not served is not.
pub proof fn queries_are_advertised(encoding: PositionEncoding, capabilities: Capabilities)
    requires
        call_ensures(server_capabilities, (encoding,), capabilities),
    ensures
        capabilities.position_encoding == encoding,
        capabilities.workspace_symbol && capabilities.definition && capabilities.references,
        capabilities.document_symbol && capabilities.implementation && capabilities.hover,
        capabilities.call_hierarchy && capabilities.open_close && capabilities.incremental_sync,
        capabilities.workspace_folders,
        !capabilities.completion && !capabilities.signature_help && !capabilities.semantic_tokens,
        !capabilities.will_save && !capabilities.will_save_wait_until,
        !capabilities.save_includes_text,
{
}

/// The root is the first folder where there is one, and only without any is it
/// what the client calls its root.
pub proof fn the_first_folder_is_the_root(
    folders: Option<Vec<String>>,
    root_uri: Option<String>,
    root: Option<String>,
)
    requires
        call_ensures(workspace_root, (folders, root_uri), root),
    ensures
        folders is Some && folders->0@.len() > 0 ==> root is Some && root->0@
            == folders->0@.first()@,
        folders is None || folders->0@.len() == 0 ==> root == root_uri,
{
}

} // verus!
