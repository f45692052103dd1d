//! Bazel labels.
use jabar::label::{LabelError, TargetLabel};

fn parse(s: &str) -> TargetLabel {
    TargetLabel::parse(s).unwrap_or_else(|e| panic!("`{s}` should parse: {}", e.describe()))
}

#[test]
fn canonical_form_round_trips() {
    let l = parse("//java/com/acme/policy:policy");
    assert_eq!(l.repo(), "");
    assert_eq!(l.package(), "java/com/acme/policy");
    assert_eq!(l.name(), "policy");
    assert!(l.is_main_repo());
    assert_eq!(l.to_text(), "//java/com/acme/policy:policy");
}

#[test]
fn abbreviated_form_defaults_the_name() {
    // Bazel prints and accepts both; they must intern to one label or the
    // index gets two shards for one target.
    assert_eq!(parse("//java/com/acme/policy"), parse("//java/com/acme/policy:policy"));
    assert_eq!(parse("//java/com/acme/policy").to_text(), "//java/com/acme/policy:policy");
}

#[test]
fn every_abbreviated_form_is_named_by_its_package() {
    for (text, spelt) in [
        ("//java/core", "//java/core:core"),
        ("@repo//java/core", "@repo//java/core:core"),
        ("@@repo//core", "@@repo//core:core"),
        ("@@//core", "@@//core:core"),
    ] {
        assert_eq!(parse(text), parse(spelt));
        assert_eq!(parse(text).name(), "core");
    }
}

#[test]
fn bzlmod_double_sigil_is_the_main_repo() {
    // cquery prints main-repo labels as `@@//...`. Treating that as an
    // external repo would make every workspace target look like a
    // dependency, and nothing would ever be watched for edits.
    let l = parse("@@//java/com/acme/app:app");
    assert!(l.is_main_repo(), "@@// is the main repo");
    assert_eq!(l, parse("//java/com/acme/app:app"));
}

#[test]
fn external_repos_are_distinguished() {
    let l = parse("@rules_java//java:defs");
    assert_eq!(l.repo(), "rules_java");
    assert_eq!(l.package(), "java");
    assert_eq!(l.name(), "defs");
    assert!(!l.is_main_repo());
    assert_eq!(l.to_text(), "@rules_java//java:defs");

    // The bzlmod canonical spelling carries a `+` in the repo name.
    let canonical = parse("@@rules_java+//toolchains:current_java_toolchain");
    assert_eq!(canonical.repo(), "rules_java+");
    assert!(!canonical.is_main_repo());
}

#[test]
fn root_package_is_representable() {
    let l = parse("//:everything");
    assert_eq!(l.package(), "");
    assert_eq!(l.name(), "everything");
    assert_eq!(l.to_text(), "//:everything");
}

#[test]
fn source_files_are_labels_too() {
    // This is how a file maps back to its target: same package, file name.
    let target = parse("//java/com/acme/policy:policy");
    let src = target.sibling("DefaultRetryPolicy.java");
    assert_eq!(src.to_text(), "//java/com/acme/policy:DefaultRetryPolicy.java");
    assert_eq!(src.package(), target.package());
}

#[test]
fn malformed_labels_are_rejected() {
    assert!(matches!(TargetLabel::parse("java/com/acme"), Err(LabelError::MissingPackage(_))));
    assert!(matches!(TargetLabel::parse("@repo/no/slashes"), Err(LabelError::MissingPackage(_))));
    assert!(matches!(TargetLabel::parse("//pkg:"), Err(LabelError::MissingName(_))));
    assert!(matches!(TargetLabel::parse("//"), Err(LabelError::MissingName(_))));
    assert!(matches!(TargetLabel::parse(""), Err(LabelError::MissingPackage(_))));
}

#[test]
fn label_errors_name_the_label() {
    let error = TargetLabel::parse("java/com/acme").unwrap_err();
    assert!(error.describe().contains("java/com/acme"), "{}", error.describe());
    let error = TargetLabel::parse("//pkg:").unwrap_err();
    assert!(error.describe().contains("//pkg:"), "{}", error.describe());
}

#[test]
fn ordering_groups_by_package() {
    // The index is keyed by label; a stable order keeps shard files
    // byte-identical between runs.
    let mut labels = [
        parse("//java/com/acme/util:util"),
        parse("//java/com/acme/core:core"),
        parse("@ext//a:a"),
        parse("//java/com/acme/core:other"),
    ];
    labels.sort();
    let rendered: Vec<_> = labels.iter().map(|it| it.to_text()).collect();
    assert_eq!(
        rendered,
        [
            "//java/com/acme/core:core",
            "//java/com/acme/core:other",
            "//java/com/acme/util:util",
            "@ext//a:a",
        ]
    );
}

#[test]
fn parsed_labels_print_back_to_themselves() {
    for text in ["//a/b:c", "@r//:x", "@r+//p:q", "//:n"] {
        assert_eq!(parse(&parse(text).to_text()), parse(text));
    }
}
