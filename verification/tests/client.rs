//! What is agreed with a client: URIs, capabilities and settings.
use jabar::capabilities::{negotiate_encoding, server_capabilities, workspace_root};
use jabar::config::{Config, IndexConfig};
use jabar::line_index::PositionEncoding;
use jabar::uri::{to_uri, vfs_path, UriError};
use jabar::vfs_path::VfsPath;
use lsp_types::Url;

fn url(s: &str) -> String {
    Url::parse(s).unwrap_or_else(|e| panic!("`{s}` should parse: {e}")).to_string()
}

#[test]
fn file_uris_round_trip() {
    let uri = url("file:///repo/java/com/acme/core/Clock.java");
    let path = vfs_path(&uri).expect("should convert");
    assert_eq!(path.to_text(), "/repo/java/com/acme/core/Clock.java");
    assert_eq!(to_uri(&path).unwrap(), uri);
}

#[test]
fn percent_encoding_is_decoded() {
    // Clients percent-encode spaces and non-ASCII. Failing to decode would
    // make the VFS intern a path that does not exist.
    let uri = url("file:///repo/My%20Project/Gr%C3%BC%C3%9Fe.java");
    let path = vfs_path(&uri).expect("should convert");
    assert_eq!(path.to_text(), "/repo/My Project/Grüße.java");
}

#[test]
fn uri_non_ascii_survives_the_round_trip() {
    let path = VfsPath::parse("/repo/java/com/acme/i18n/Grüße.java").unwrap();
    let uri = to_uri(&path).expect("should render");
    assert!(
        vfs_path(&uri).unwrap().same(&path),
        "re-reading our own URI must give the same path"
    );
}

#[test]
fn jar_uris_round_trip() {
    let uri = url("jar:/repo/libpolicy.jar!/com/acme/policy/DefaultRetryPolicy.class");
    let path = vfs_path(&uri).expect("should convert");
    assert!(matches!(path, VfsPath::Jar(_)));
    assert_eq!(path.file_name().as_deref(), Some("DefaultRetryPolicy.class"));
    assert_eq!(to_uri(&path).unwrap(), uri);
}

#[test]
fn jrt_uris_round_trip() {
    let uri = url("jrt:/java.base/java/lang/String.class");
    let path = vfs_path(&uri).expect("should convert");
    assert!(matches!(path, VfsPath::Jrt(_)));
    assert_eq!(to_uri(&path).unwrap(), uri);
}

#[test]
fn unsupported_schemes_are_refused_by_name() {
    // `untitled:` is what editors use for a buffer never written to disk.
    // Refusing it explicitly beats treating it as a path that happens not to
    // exist, which would look like a missing file.
    let err = vfs_path(&url("untitled:Untitled-1")).expect_err("should refuse");
    assert!(matches!(err, UriError::UnsupportedScheme(_)));
    assert!(err.describe().contains("untitled"));

    assert!(matches!(
        vfs_path(&url("https://example.com/A.java")),
        Err(UriError::UnsupportedScheme(_))
    ));
}

#[test]
fn malformed_archive_uris_are_refused() {
    // A `jar:` URI with no `!/` names an archive, not an entry in one.
    assert!(matches!(vfs_path(&url("jar:/repo/a.jar")), Err(UriError::Malformed(_))));
    assert!(matches!(vfs_path(&url("jrt:/java.base")), Err(UriError::Malformed(_))));
}

#[test]
fn file_uris_without_a_local_path_are_refused() {
    let error = vfs_path(&url("file://host/share/A.java")).unwrap_err();
    assert!(!error.describe().is_empty());
}

fn offering(kinds: &[&str]) -> Vec<String> {
    kinds.iter().map(|k| k.to_string()).collect()
}

#[test]
fn utf8_is_preferred_when_offered() {
    let offered = offering(&["utf-16", "utf-8"]);
    assert_eq!(negotiate_encoding(Some(&offered)), PositionEncoding::Utf8);
}

#[test]
fn utf16_is_the_fallback() {
    // Three ways a client can decline to choose. All must land on UTF-16,
    // because that is what the protocol means by default -- guessing UTF-8
    // here would skew every range on any file with a non-ASCII character.
    assert_eq!(negotiate_encoding(None), PositionEncoding::Utf16);
    assert_eq!(negotiate_encoding(Some(&offering(&[]))), PositionEncoding::Utf16);
    assert_eq!(negotiate_encoding(Some(&offering(&["utf-16"]))), PositionEncoding::Utf16);
}

#[test]
fn an_unknown_encoding_does_not_win() {
    assert_eq!(negotiate_encoding(Some(&offering(&["utf-32"]))), PositionEncoding::Utf16);
}

#[test]
fn the_negotiated_encoding_is_reported_back() {
    for encoding in [PositionEncoding::Utf8, PositionEncoding::Utf16] {
        let caps = server_capabilities(encoding);
        assert_eq!(caps.position_encoding, encoding);
    }
    assert_eq!(PositionEncoding::Utf8.to_lsp(), "utf-8");
    assert_eq!(PositionEncoding::Utf16.to_lsp(), "utf-16");
}

#[test]
fn implemented_queries_are_always_advertised() {
    let caps = server_capabilities(PositionEncoding::Utf8);
    assert!(caps.definition);
    assert!(caps.references);
    assert!(caps.hover);
    assert!(caps.implementation);
    assert!(caps.document_symbol);
    assert!(caps.workspace_symbol);
    assert!(caps.call_hierarchy);
}

#[test]
fn nothing_unimplemented_is_advertised() {
    // The point of this test is to fail loudly when a capability is switched
    // on before its handler exists. An advertised capability that returns
    // nothing tells the client "there are none", which is a lie it cannot
    // detect.
    let caps = server_capabilities(PositionEncoding::Utf8);
    assert!(!caps.completion, "completion is out of scope");
    assert!(!caps.signature_help, "signature help is out of scope");
    assert!(!caps.semantic_tokens, "semantic tokens are out of scope");
}

#[test]
fn text_sync_is_incremental_and_two_way() {
    let caps = server_capabilities(PositionEncoding::Utf8);
    assert!(caps.open_close);
    assert!(caps.incremental_sync);
}

#[test]
fn the_workspace_root_comes_from_folders_first() {
    let root = workspace_root(
        Some(vec!["file:///repo".to_owned()]),
        Some("file:///stale".to_owned()),
    );
    assert_eq!(root.unwrap(), "file:///repo");
}

#[test]
fn the_deprecated_root_uri_is_still_read() {
    // Deprecated in the spec, still the only thing some clients send.
    assert_eq!(workspace_root(None, Some("file:///repo".to_owned())).unwrap(), "file:///repo");
    assert_eq!(workspace_root(None, None), None);
}

#[test]
fn no_options_means_working_defaults() {
    let config = Config::from_initialization_options(None);
    assert_eq!(config.output_base, None, "share the workspace base");
    assert_eq!(config.bazel, None);
    assert!(!config.index.auto, "never build unbidden");
    assert_eq!(config.index.targets, ["//..."]);
}

#[test]
fn a_partial_config_keeps_the_other_defaults() {
    let sent = Config {
        index: IndexConfig { auto: true, ..IndexConfig::default() },
        ..Config::default()
    };
    let config = Config::from_initialization_options(Some(Some(sent)));
    assert!(config.index.auto);
    assert_eq!(config.index.targets, ["//..."], "untouched by the override");
    assert_eq!(config.output_base, None);
}

#[test]
fn malformed_options_do_not_stop_the_server() {
    // A bad setting should cost the setting, not the session.
    let config = Config::from_initialization_options(Some(None));
    assert_eq!(config.index.targets, ["//..."]);
    assert!(!config.index.auto);
}

#[test]
fn programs_are_configured_or_found() {
    let mut config = Config::default();
    assert_eq!(config.program(), "bazel");
    assert_eq!(config.resolve_scip_java(None), None);
    let found = Some("/usr/bin/scip-java".to_owned());
    assert_eq!(config.resolve_scip_java(found.clone()), found);
    config.bazel = Some("bazelisk".to_owned());
    config.index.scip_java = Some("/opt/scip-java".to_owned());
    assert_eq!(config.program(), "bazelisk");
    assert_eq!(config.resolve_scip_java(found).as_deref(), Some("/opt/scip-java"));
    assert_eq!(config.copy().program(), "bazelisk");
}
