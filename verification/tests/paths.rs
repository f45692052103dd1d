//! Paths, real and virtual.
use jabar::path_interner::{FileId, PathInterner};
use jabar::paths::{AbsPath, AbsPathBuf};
use jabar::text::is_space;
use jabar::vfs_path::{JarPath, JrtPath, PathParseError, VfsPath};

fn abs(s: &str) -> AbsPathBuf {
    AbsPathBuf::try_new(s.to_owned()).expect("test path should be absolute")
}

fn parse(s: &str) -> VfsPath {
    VfsPath::parse(s).unwrap_or_else(|e| panic!("`{s}` should parse: {}", e.describe()))
}

#[test]
fn relative_paths_are_rejected() {
    assert!(AbsPathBuf::try_new("java/com/acme".to_owned()).is_err());
    assert!(AbsPathBuf::try_new("./x".to_owned()).is_err());
    assert!(AbsPathBuf::try_new("".to_owned()).is_err());
    assert!(AbsPath::try_new("x").is_none());
}

#[test]
fn absolute_paths_round_trip() {
    let p = abs("/repo/java/com/acme/core/Clock.java");
    assert_eq!(p.as_path().file_name(), Some("Clock.java"));
    assert_eq!(p.as_path().extension(), Some("java"));
    assert_eq!(p.as_str(), "/repo/java/com/acme/core/Clock.java");
    assert!(p.as_path().to_path_buf().same(&p));
}

#[test]
fn join_descends() {
    let root = abs("/repo");
    assert_eq!(root.as_path().join("java/com").as_str(), "/repo/java/com");
}

#[test]
fn parent_terminates_at_root() {
    let mut p = abs("/a/b");
    assert_eq!(p.as_path().parent().map(|it| it.as_str()), Some("/a"));
    assert!(p.pop());
    assert!(p.pop());
    assert_eq!(p.as_str(), "/");
    assert!(!p.pop(), "root has no parent to pop");
    assert!(abs("/").as_path().parent().is_none());
}

#[test]
fn prefix_operations() {
    let root = abs("/repo");
    let file = abs("/repo/java/Main.java");
    assert!(file.as_path().starts_with(&root.as_path()));
    assert!(!root.as_path().starts_with(&file.as_path()));
    assert_eq!(file.as_path().strip_prefix(&root.as_path()), Some("java/Main.java"));
    assert_eq!(file.as_path().strip_prefix(&abs("/other").as_path()), None);
}

#[test]
fn non_ascii_paths_survive() {
    let p = abs("/repo/java/com/acme/i18n/Grüße.java");
    assert_eq!(p.as_path().file_name(), Some("Grüße.java"));
    assert_eq!(p.as_str().len(), "/repo/java/com/acme/i18n/Grüße.java".len());
}

#[test]
fn pushing_descends_in_place() {
    let mut p = abs("/repo");
    p.push("java");
    assert_eq!(p.as_str(), "/repo/java");
    assert_eq!(p.copy().into_string(), "/repo/java");
}

#[test]
fn real_paths_round_trip() {
    let p = parse("/repo/java/com/acme/core/Clock.java");
    assert!(p.is_real());
    assert_eq!(p.file_name().as_deref(), Some("Clock.java"));
    assert_eq!(p.extension().as_deref(), Some("java"));
    assert_eq!(p.to_text(), "/repo/java/com/acme/core/Clock.java");
    assert!(p.as_real().unwrap().same(&abs("/repo/java/com/acme/core/Clock.java")));
}

#[test]
fn jar_paths_round_trip() {
    let s = "jar:/repo/bazel-bin/policy/libpolicy.jar!/com/acme/policy/DefaultRetryPolicy.class";
    let p = parse(s);
    assert_eq!(p.to_text(), s);
    assert_eq!(p.file_name().as_deref(), Some("DefaultRetryPolicy.class"));
    assert_eq!(p.extension().as_deref(), Some("class"));
    let VfsPath::Jar(jar) = &p else { panic!("expected a jar path, got {p:?}") };
    assert!(jar.jar().same(&abs("/repo/bazel-bin/policy/libpolicy.jar")));
    assert_eq!(jar.entry(), "com/acme/policy/DefaultRetryPolicy.class");
}

#[test]
fn jrt_paths_round_trip() {
    let s = "jrt:/java.base/java/lang/String.class";
    let p = parse(s);
    assert_eq!(p.to_text(), s);
    assert_eq!(p.file_name().as_deref(), Some("String.class"));
    let VfsPath::Jrt(jrt) = &p else { panic!("expected a jrt path, got {p:?}") };
    assert_eq!(jrt.module(), "java.base");
    assert_eq!(jrt.entry(), "java/lang/String.class");
}

#[test]
fn paths_are_joined_as_the_file_system_does() {
    for base in ["/", "/repo", "/repo/", "/repo//", "/a/.."] {
        for below in ["", "a", "a/b", "./a", "../a", "a/", "a//b"] {
            let mut joined = abs(base);
            joined.push(below);
            assert_eq!(joined.as_str(), camino::Utf8Path::new(base).join(below).as_str());
        }
    }
}

#[test]
fn white_space_is_what_unicode_says() {
    for c in '\0'..=char::MAX {
        assert_eq!(is_space(c), c.is_whitespace(), "{c:?}");
    }
}

#[test]
fn an_entry_is_never_leading_slashed() {
    for (entry, stored) in [("//com/A.class", "com/A.class"), ("///a//b", "a//b")] {
        assert_eq!(JarPath::new(abs("/x/a.jar"), entry).unwrap().entry(), stored);
        assert_eq!(JrtPath::new("java.base", entry).unwrap().entry(), stored);
    }
    for entry in ["", "/", "//"] {
        assert!(matches!(JarPath::new(abs("/x/a.jar"), entry), Err(PathParseError::EmptyEntry)));
        assert!(matches!(JrtPath::new("java.base", entry), Err(PathParseError::EmptyEntry)));
    }
}

#[test]
fn jar_entry_slash_is_normalized_away() {
    // The two spellings must intern to one path, or the same classfile gets
    // two FileIds and the index answers the same query twice.
    let with = VfsPath::from_jar(abs("/x/a.jar"), "/com/A.class").unwrap();
    let without = VfsPath::from_jar(abs("/x/a.jar"), "com/A.class").unwrap();
    assert!(with.same(&without));
    assert_eq!(with.to_text(), "jar:/x/a.jar!/com/A.class");
}

#[test]
fn archive_entries_are_not_real_paths() {
    // Handing back the jar here would make a caller read the archive's
    // bytes and believe they were the classfile's.
    let p = parse("jar:/x/a.jar!/com/A.class");
    assert!(p.as_real().is_none());
    assert!(!p.is_real());
    assert!(p.backing_file().unwrap().same(&abs("/x/a.jar")));
}

#[test]
fn jrt_has_no_backing_file() {
    // The jimage lives inside the JDK, found via the toolchain rather than
    // by path, so there is nothing here for a file watcher to watch.
    assert!(parse("jrt:/java.base/java/lang/String.class").backing_file().is_none());
}

#[test]
fn malformed_paths_are_rejected() {
    assert!(matches!(
        VfsPath::parse("jar:/x/a.jar"),
        Err(PathParseError::MissingJarSeparator(_))
    ));
    assert!(matches!(VfsPath::parse("jar:/x/a.jar!/"), Err(PathParseError::EmptyEntry)));
    assert!(matches!(
        VfsPath::parse("jar:relative.jar!/A.class"),
        Err(PathParseError::NotAbsolute(_))
    ));
    assert!(matches!(VfsPath::parse("jrt:/java.base"), Err(PathParseError::MissingJrtEntry(_))));
    assert!(matches!(
        VfsPath::parse("jrt://java/lang/String.class"),
        Err(PathParseError::BadModule(_))
    ));
    assert!(matches!(VfsPath::parse("relative/path.java"), Err(PathParseError::NotAbsolute(_))));
}

#[test]
fn path_errors_say_what_is_wrong() {
    for text in ["jar:/x/a.jar", "jrt:/java.base", "relative/path.java"] {
        let error = VfsPath::parse(text).unwrap_err();
        assert!(error.describe().contains(text), "{}", error.describe());
    }
    assert!(!VfsPath::parse("jar:/x/a.jar!/").unwrap_err().describe().is_empty());
}

#[test]
fn extension_edge_cases() {
    assert_eq!(parse("/x/Foo.Bar.class").extension().as_deref(), Some("class"));
    assert_eq!(parse("/x/Makefile").extension(), None);
    assert_eq!(parse("/x/.gitignore").extension(), None, "a dotfile has no extension");
    assert_eq!(parse("/x/trailing.").extension(), None);
}

#[test]
fn vfs_path_non_ascii_survives_the_round_trip() {
    // The fixture has a `grüße` identifier; filenames get the same treatment.
    let p = parse("/repo/java/com/acme/i18n/Grüße.java");
    assert_eq!(p.file_name().as_deref(), Some("Grüße.java"));
    assert!(parse(&p.to_text()).same(&p));

    let j = parse("jar:/x/日本.jar!/com/acme/Grüße.class");
    assert_eq!(j.file_name().as_deref(), Some("Grüße.class"));
    assert!(parse(&j.to_text()).same(&j));
}

#[test]
fn variants_with_equal_text_are_distinct() {
    // Nothing should make a real path and an archive entry compare equal
    // just because their tails match.
    let real = parse("/com/A.class");
    let jarred = parse("jar:/x/a.jar!/com/A.class");
    assert!(!real.same(&jarred));
}

#[test]
fn paths_are_numbered_once() {
    let mut interner = PathInterner::new();
    let a = interner.intern(parse("/repo/A.java"));
    let b = interner.intern(parse("jar:/repo/a.jar!/A.class"));
    assert_eq!(interner.intern(parse("/repo/A.java")), a);
    assert_ne!(a, b);
    assert_eq!(interner.len(), 2);
    assert_eq!(interner.get(&parse("/repo/A.java")), Some(a));
    assert_eq!(interner.get(&parse("/repo/B.java")), None);
    assert_eq!(interner.lookup(b).to_text(), "jar:/repo/a.jar!/A.class");
    assert_eq!(FileId::from_raw(1), b);
}

#[test]
fn paths_are_compared_by_component() {
    assert!(abs("/repo//a/./b/").same(&abs("/repo/a/b")));
    assert!(!abs("/repo/a").same(&abs("/repo/a/b")));
    assert_eq!(abs("/repo//a").as_str(), "/repo//a", "but kept as they are spelt");
    assert!(parse("jar:/repo//a.jar!/X.class").same(&parse("jar:/repo/a.jar!/X.class")));
    assert!(!parse("jar:/repo/a.jar!/x//X.class").same(&parse("jar:/repo/a.jar!/x/X.class")));
}
