//! Reading compile inputs and asking Bazel.
use jabar::aquery::{
    collect_flag, params_file, parse_javac_actions, parse_output, Action, AqueryDocument, CompileInfo,
    ParseError, Target,
};
use jabar::aspect::{
    needs_install, AspectConfig, AspectError, AspectOutcome, AspectRunner, ASPECT_BUILD,
};
use jabar::bazel::{
    accepts_exit, check_query_safe, nearest_package, owner_from_output, run_result,
    strip_package_prefix, BazelCli, BazelError, EXIT_PARTIAL_SUCCESS,
};
use jabar::label::TargetLabel;
use jabar::paths::{AbsPath, AbsPathBuf};
use serde_json::Value;

fn strings(values: &[&str]) -> Vec<String> {
    values.iter().map(|s| s.to_string()).collect()
}

fn abs(s: &str) -> AbsPathBuf {
    AbsPathBuf::try_new(s.to_owned()).expect("test path should be absolute")
}

/// The document in aquery's JSON.
fn document(json: &str) -> AqueryDocument {
    let value: Value = serde_json::from_str(json).expect("test JSON");
    let list = |key: &str| value[key].as_array().cloned().unwrap_or_default();
    let text = |value: &Value| value.as_str().unwrap_or("").to_owned();
    AqueryDocument {
        actions: list("actions")
            .iter()
            .map(|a| Action {
                mnemonic: text(&a["mnemonic"]),
                target_id: a["targetId"].as_u64().unwrap_or(0) as u32,
                arguments: a["arguments"].as_array().unwrap().iter().map(text).collect(),
            })
            .collect(),
        targets: list("targets")
            .iter()
            .map(|t| Target { id: t["id"].as_u64().unwrap() as u32, label: text(&t["label"]) })
            .collect(),
    }
}

fn parse_one(json: &str) -> CompileInfo {
    let mut infos = parse_javac_actions(&document(json)).expect("should parse");
    assert_eq!(infos.len(), 1, "expected one Javac action");
    infos.pop().unwrap()
}

#[test]
fn flag_runs_stop_at_the_next_flag() {
    let args = strings(&[
        "--classpath", "a.jar", "b.jar", "--sources", "X.java", "--output", "out.jar",
    ]);
    assert_eq!(collect_flag(&args, "--classpath"), ["a.jar", "b.jar"]);
    assert_eq!(collect_flag(&args, "--sources"), ["X.java"]);
    assert_eq!(collect_flag(&args, "--output"), ["out.jar"]);
    assert!(collect_flag(&args, "--missing").is_empty());
}

#[test]
fn a_flag_with_no_values_yields_nothing() {
    let args = strings(&["--classpath", "--sources", "X.java"]);
    assert!(collect_flag(&args, "--classpath").is_empty());
    assert_eq!(collect_flag(&args, "--sources"), ["X.java"]);
}

#[test]
fn a_trailing_flag_yields_nothing() {
    let args = strings(&["--sources", "X.java", "--output"]);
    assert!(collect_flag(&args, "--output").is_empty());
}

#[test]
fn targets_without_sources_are_still_valid() {
    // A java_library with only exports has a Javac action and no --sources.
    let json = r#"{
      "actions": [{"mnemonic": "Javac", "targetId": 1,
                   "arguments": ["--output", "libx.jar"]}],
      "targets": [{"id": 1, "label": "//x:x"}]
    }"#;
    let info = parse_one(json);
    assert!(info.sources.is_empty());
    assert!(info.classpath.is_empty(), "a target with no deps has an empty classpath");
    assert_eq!(info.output_jar.as_deref(), Some("libx.jar"));
}

#[test]
fn non_javac_actions_are_ignored() {
    let json = r#"{
      "actions": [
        {"mnemonic": "JavaSourceJar", "targetId": 1, "arguments": ["--output", "src.jar"]},
        {"mnemonic": "Javac", "targetId": 1, "arguments": ["--output", "libx.jar"]}
      ],
      "targets": [{"id": 1, "label": "//x:x"}]
    }"#;
    assert_eq!(parse_one(json).output_jar.as_deref(), Some("libx.jar"));
}

#[test]
fn an_empty_document_is_not_an_error() {
    // A java_import has no Javac action at all. That is a fact about the
    // target, not a failure to report.
    let empty =
        parse_javac_actions(&document(r#"{}"#)).expect("empty aquery output is legitimate");
    assert!(empty.is_empty());
}

#[test]
fn actions_without_a_javac_one_are_an_error() {
    // Something matched, but not what was asked for. Silently returning
    // nothing here would look identical to "this target has no sources".
    let json = r#"{
      "actions": [{"mnemonic": "Turbine", "targetId": 1, "arguments": []}],
      "targets": [{"id": 1, "label": "//x:x"}]
    }"#;
    assert!(matches!(parse_javac_actions(&document(json)), Err(ParseError::NoJavacAction)));
}

#[test]
fn a_dangling_target_id_is_an_error() {
    let json = r#"{
      "actions": [{"mnemonic": "Javac", "targetId": 9, "arguments": []}],
      "targets": [{"id": 1, "label": "//x:x"}]
    }"#;
    assert!(matches!(
        parse_javac_actions(&document(json)),
        Err(ParseError::UnknownTarget { target_id: 9 })
    ));
}

#[test]
fn an_unparseable_label_is_an_error() {
    let json = r#"{
      "actions": [{"mnemonic": "Javac", "targetId": 1, "arguments": []}],
      "targets": [{"id": 1, "label": "not-a-label"}]
    }"#;
    assert!(matches!(parse_javac_actions(&document(json)), Err(ParseError::BadLabel { .. })));
}

#[test]
fn a_params_file_command_line_is_refused_not_read_as_empty() {
    // The scale break: past a size threshold, or under a persistent worker,
    // Bazel moves the flags into an @file. Returning an empty CompileInfo
    // would claim the target has no sources -- a confident wrong answer.
    let json = r#"{
      "actions": [{"mnemonic": "Javac", "targetId": 1,
                   "arguments": ["external/…/JavaBuilder", "@bazel-out/x/libfoo.jar-2.params"]}],
      "targets": [{"id": 1, "label": "//x:x"}]
    }"#;
    let err = parse_javac_actions(&document(json)).expect_err("should refuse");
    let ParseError::ParamsFile { label, params_file } = &err else {
        panic!("expected ParamsFile, got {err:?}");
    };
    assert_eq!(label, "//x:x");
    assert_eq!(params_file, "bazel-out/x/libfoo.jar-2.params");
    // The message has to name the file, or the failure is unactionable.
    assert!(err.describe().contains("libfoo.jar-2.params"), "{}", err.describe());
}

#[test]
fn a_bare_sigil_before_a_params_file_is_passed_over() {
    let file = |arguments: &[&str]| params_file(&strings(arguments));
    assert_eq!(file(&["@", "@a.params"]).as_deref(), Some("a.params"));
    assert_eq!(file(&["@a.params", "@b.params"]).as_deref(), Some("a.params"));
    assert_eq!(file(&["@", "--sources"]), None);
}

#[test]
fn an_inline_command_line_is_unaffected_by_the_guard() {
    // A target with a genuinely empty classpath and no @file is still fine.
    let json = r#"{
      "actions": [{"mnemonic": "Javac", "targetId": 1,
                   "arguments": ["--sources", "A.java"]}],
      "targets": [{"id": 1, "label": "//x:x"}]
    }"#;
    assert_eq!(parse_one(json).sources.len(), 1);
}

#[test]
fn a_params_file_is_never_taken_as_a_flag_value() {
    // A `.params` path landing in `sources` would put it on the compile
    // inputs. The value run stops at `@` as well as at the next `--flag`.
    let json = r#"{
      "actions": [{"mnemonic": "Javac", "targetId": 1,
                   "arguments": ["--sources", "A.java", "@bazel-out/extra.params"]}],
      "targets": [{"id": 1, "label": "//x:x"}]
    }"#;
    let info = parse_one(json);
    assert_eq!(info.sources.len(), 1);
}

#[test]
fn params_file_detection() {
    let args = |v: &[&str]| strings(v);
    assert_eq!(params_file(&args(&["javac", "@a.params"])).as_deref(), Some("a.params"));
    assert_eq!(params_file(&args(&["javac", "--sources", "A.java"])), None);
    assert_eq!(params_file(&args(&["@"])), None, "a bare @ is not a file");
}

#[test]
fn malformed_json_is_reported_not_panicked() {
    let malformed = serde_json::from_str::<Value>("{ this is not json").map(|_| document("{}"));
    let output = malformed.map_err(|err| err.to_string());
    let error = parse_output(&output).unwrap_err();
    assert!(matches!(error, ParseError::Malformed(_)));
    assert!(error.describe().starts_with("aquery output is not valid JSON: "));
}

#[test]
fn multiple_targets_are_kept_apart() {
    let json = r#"{
      "actions": [
        {"mnemonic": "Javac", "targetId": 1, "arguments": ["--sources", "A.java"]},
        {"mnemonic": "Javac", "targetId": 2, "arguments": ["--sources", "B.java"]}
      ],
      "targets": [{"id": 1, "label": "//a:a"}, {"id": 2, "label": "//b:b"}]
    }"#;
    let infos = parse_javac_actions(&document(json)).unwrap();
    assert_eq!(infos.len(), 2);
    assert_eq!(infos[0].label.to_text(), "//a:a");
    assert_eq!(infos[1].label.to_text(), "//b:b");
    assert_eq!(infos[1].sources[0].as_str(), "B.java");
}

#[test]
fn non_java_sources_are_filtered_by_java_sources() {
    let json = r#"{
      "actions": [{"mnemonic": "Javac", "targetId": 1,
                   "arguments": ["--sources", "A.java", "gen.srcjar", "R.txt"]}],
      "targets": [{"id": 1, "label": "//x:x"}]
    }"#;
    let info = parse_one(json);
    assert_eq!(info.sources.len(), 3, "everything passed to --sources is kept");
    let java = info.java_sources();
    assert_eq!(java, ["A.java"], "but only .java files are parseable source");
}

#[test]
fn the_last_javac_action_answers_for_a_target() {
    let json = r#"{
      "actions": [
        {"mnemonic": "Javac", "targetId": 1, "arguments": ["--sources", "A.java"]},
        {"mnemonic": "Javac", "targetId": 2, "arguments": ["--sources", "B.java"]}
      ],
      "targets": [{"id": 1, "label": "//a:a"}, {"id": 2, "label": "//b:b"}]
    }"#;
    let target = TargetLabel::parse("//b:b").unwrap();
    let info = BazelCli::compile_info(&target, &Ok(document(json))).unwrap().unwrap();
    assert_eq!(info.sources, ["B.java"]);
    assert!(BazelCli::compile_info(&target, &Ok(document("{}"))).unwrap().is_none());
    let broken = r#"{"actions": [{"mnemonic": "Turbine", "targetId": 1, "arguments": []}]}"#;
    let error = BazelCli::compile_info(&target, &Ok(document(broken))).unwrap_err();
    let BazelError::Aquery { target, .. } = &error else { panic!("{error:?}") };
    assert_eq!(target, "//b:b");
    assert!(error.describe().starts_with("could not read compile info for `//b:b`: "));
}

#[test]
fn package_prefix_stripping() {
    assert_eq!(
        strip_package_prefix("java/com/acme/policy/P.java", "java/com/acme/policy"),
        "P.java"
    );
    // Root package: the whole relative path is the target name.
    assert_eq!(strip_package_prefix("Top.java", ""), "Top.java");
    // A source nested below the package directory keeps its subpath.
    assert_eq!(strip_package_prefix("pkg/sub/dir/File.java", "pkg"), "sub/dir/File.java");
}

#[test]
fn query_injection_is_refused() {
    // A filename cannot reach a shell, but it can still end a query
    // expression early and turn a lookup into a different valid query.
    assert!(check_query_safe("//java/com/acme:Fine.java").is_ok());
    for hostile in
        ["//x:a).java", "//x:a(b.java", "//x:a\".java", "//x:a b.java", "//x:a\nunion //..."]
    {
        assert!(
            matches!(check_query_safe(hostile), Err(BazelError::UnsafeLabel { .. })),
            "should have refused `{hostile}`"
        );
    }
}

#[test]
fn an_unsafe_label_names_the_first_bad_character() {
    let Err(error) = check_query_safe("//x:a)b(") else { panic!("should have been refused") };
    assert_eq!(error.describe(), "refusing to query label containing `)`: `//x:a)b(`");
}

#[test]
fn a_missing_program_is_named() {
    // The message has to name the program, or a missing bazel looks like a
    // broken workspace.
    let error = BazelError::Spawn {
        program: "definitely-not-a-real-bazel-binary".to_owned(),
        reason: "No such file or directory".to_owned(),
    };
    assert_eq!(
        error.describe(),
        "could not run `definitely-not-a-real-bazel-binary`: No such file or directory"
    );
}

#[test]
fn startup_options_precede_the_command() {
    // bazel rejects `--output_base` after the command outright, so this is
    // correctness rather than tidiness.
    let cli = BazelCli::new(abs("/repo")).with_output_base(Some("/tmp/jabar-base".to_owned()));
    let argv = cli.argv(&strings(&["query", "//..."]));
    assert_eq!(argv, ["--output_base=/tmp/jabar-base", "query", "//..."]);
    assert_eq!(cli.output_base(), Some("/tmp/jabar-base"));
}

#[test]
fn sharing_the_default_base_adds_no_arguments() {
    // The default. Nothing is passed, so bazel behaves exactly as the user's
    // own invocations do -- same server, same cache, same lock.
    let cli = BazelCli::new(abs("/repo"));
    assert_eq!(cli.argv(&strings(&["query", "//..."])), ["query", "//..."]);
    assert_eq!(cli.output_base(), None);
}

#[test]
fn paths_outside_the_workspace_have_no_package() {
    let cli = BazelCli::new(abs("/repo"));
    assert_eq!(cli.package_places(&AbsPath::new_unchecked("/elsewhere/A.java")), None);
}

#[test]
fn a_file_outside_the_workspace_has_no_owner() {
    let cli = BazelCli::new(abs("/repo"));
    let query = cli.owner_query(&AbsPath::new_unchecked("/elsewhere/A.java"), "pkg").unwrap();
    assert_eq!(query, None);
}

#[test]
fn the_nearest_declared_package_owns_a_file() {
    let cli = BazelCli::new(abs("/repo"));
    let places = cli.package_places(&AbsPath::new_unchecked("/repo/a/b/C.java")).unwrap();
    assert_eq!(places, ["a/b", "a", ""]);
    assert_eq!(nearest_package(&places, &vec![false, true, true]).as_deref(), Some("a"));
    assert_eq!(nearest_package(&places, &vec![false, false, true]).as_deref(), Some(""));
    assert_eq!(nearest_package(&places, &vec![false, false, false]), None);
}

#[test]
fn an_owner_is_asked_for_by_its_label() {
    let cli = BazelCli::new(abs("/repo"));
    let file = AbsPath::new_unchecked("/repo/a/b/C.java");
    let query = cli.owner_query(&file, "a").unwrap().unwrap();
    assert_eq!(
        query,
        [
            "query",
            "same_pkg_direct_rdeps(//a:b/C.java)",
            "--output=label",
            "--keep_going",
            "--noshow_progress",
        ]
    );
    let hostile = AbsPath::new_unchecked("/repo/a/b).java");
    assert!(matches!(
        cli.owner_query(&hostile, "a"),
        Err(BazelError::UnsafeLabel { character: ')', .. })
    ));
    let target = TargetLabel::parse("//a:a").unwrap();
    assert_eq!(
        BazelCli::compile_query(&target).unwrap(),
        ["aquery", "mnemonic(\"Javac\", //a:a)", "--output=jsonproto", "--noshow_progress"]
    );
}

#[test]
fn the_first_line_of_an_answer_is_the_owner() {
    let owner = owner_from_output("\n  \n //a:lib \n//a:test\n").unwrap().unwrap();
    assert_eq!(owner.to_text(), "//a:lib");
    assert!(owner_from_output("\n \n").unwrap().is_none());
    assert!(matches!(owner_from_output("nonsense"), Err(BazelError::BadLabel { .. })));
}

#[test]
fn exit_codes_are_tolerated_where_asked() {
    assert!(accepts_exit(Some(0), &[]));
    assert!(!accepts_exit(Some(EXIT_PARTIAL_SUCCESS), &[]));
    assert!(accepts_exit(Some(EXIT_PARTIAL_SUCCESS), &[EXIT_PARTIAL_SUCCESS]));
    assert!(!accepts_exit(None, &[EXIT_PARTIAL_SUCCESS]));

    let args = strings(&["query", "//x"]);
    assert_eq!(run_result(&args, &[], Some(0), Some("out".to_owned()), "").unwrap(), "out");
    let error = run_result(&args, &[], Some(7), None, "  broken \n").unwrap_err();
    assert_eq!(error.describe(), "`bazel query //x` exited 7: broken");
    let error = run_result(&args, &[], None, None, "gone").unwrap_err();
    assert_eq!(error.describe(), "`bazel query //x` exited signal: gone");
    let error = run_result(&args, &[], Some(0), None, "").unwrap_err();
    assert_eq!(error.describe(), "bazel produced non-UTF-8 output");
}

fn aspect_config() -> AspectConfig {
    AspectConfig {
        targets: vec!["//...".to_owned()],
        scip_java: "/usr/local/bin/scip-java".to_owned(),
        java_home: "/usr/lib/jvm".to_owned(),
    }
}

#[test]
fn installing_twice_is_a_no_op() {
    let source = "scip_java_aspect";
    assert!(needs_install("", "", source));
    assert!(!needs_install(source, ASPECT_BUILD, source), "unchanged, so not rewritten");
}

#[test]
fn an_older_aspect_is_replaced() {
    assert!(needs_install("# an older version", ASPECT_BUILD, "scip_java_aspect"));
    assert!(needs_install("scip_java_aspect", "", "scip_java_aspect"));
}

#[test]
fn a_never_built_workspace_is_refused_with_a_reason() {
    // Bazel's own error here is "output '...scip' was not created", which
    // says nothing about the cause. This one does.
    let root = abs("/repo");
    let runner = AspectRunner::new(root.as_path(), "bazel", None);
    let err = runner.start(&aspect_config(), false, None).expect_err("no bazel-bin symlink");
    assert!(matches!(err, AspectError::NotBuilt));
    assert!(err.describe().contains("bazel build"), "names the fix: {}", err.describe());
}

#[test]
fn a_stale_link_is_worth_one_retry() {
    let root = abs("/repo");
    let runner = AspectRunner::new(root.as_path(), "bazel", Some("/bases/mine"));
    let run = runner.start(&aspect_config(), true, Some("/bases/other/bin")).unwrap();
    assert!(run.retry);
    assert_eq!(run.args[0], "--output_base=/bases/mine");
    assert_eq!(run.args[1], "build");
    assert_eq!(run.args[2], "//...");
    assert_eq!(run.args.last().unwrap(), "--define=scip_java_binary=/usr/local/bin/scip-java");
    let AspectOutcome::Again(run) = run.finished(Some(1), "missing output") else {
        panic!("the first failure is tried once more");
    };
    let AspectOutcome::Failed(AspectError::Bazel(error)) = run.finished(Some(1), "still") else {
        panic!("the second failure is one");
    };
    assert!(error.describe().ends_with("still"));

    let run = runner.start(&aspect_config(), true, Some("/bases/mine/bin")).unwrap();
    assert!(!run.retry, "a genuine failure fails once and fast");
    assert!(matches!(run.finished(Some(EXIT_PARTIAL_SUCCESS), ""), AspectOutcome::Built));
}
