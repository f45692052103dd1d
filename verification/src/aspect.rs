//! Running the SCIP aspect to produce an index.
//!
//! Bazel loads an aspect by label, so the `.bzl` file has to live inside the
//! workspace being indexed. It is written into `.jabar/aspects/` on demand: a
//! directory named for its owner, so it is obvious what wrote it and safe to
//! delete.
//!
//! # The build-first prerequisite
//!
//! The aspect writes its outputs relative to `sourceroot` and expects
//! `sourceroot/bazel-out` to already be the convenience symlink into the exec
//! root. On a workspace nothing has built, that symlink does not exist, the
//! aspect creates a real directory in its place, and every output lands
//! somewhere Bazel will not look. [`AspectRunner::start`] therefore asks for the
//! symlink and says so plainly rather than letting Bazel's error surface.
use vstd::prelude::*;

use crate::bazel::{BazelError, EXIT_PARTIAL_SUCCESS};
use crate::paths::{is_below, AbsPath};
use crate::text::{chars_of, copy_texts, same_text, slice_trim_space, string_of};

verus! {

/// Where the aspect is written inside the workspace, relative to its root.
pub const ASPECT_DIR: &'static str = ".jabar/aspects";

/// What the build file beside the aspect holds.
pub const ASPECT_BUILD: &'static str = "exports_files([\"scip_java.bzl\"])\n";

/// What to index and how.
#[derive(Debug)]
pub struct AspectConfig {
    /// Target patterns to index.
    ///
    /// Not `//...` by default, and deliberately so: on a real megarepo that
    /// pattern takes in targets broken at HEAD, targets needing credentials,
    /// and targets whose toolchains are not installed. Scoping is the normal
    /// case, not the exception.
    pub targets: Vec<String>,
    /// Absolute path to the `scip-java` binary.
    pub scip_java: String,
    /// `JAVA_HOME` for the indexer, which requires it explicitly.
    pub java_home: String,
}

/// Why the aspect did not run.
#[derive(Debug)]
pub enum AspectError {
    /// The workspace has never been built, so `bazel-bin` is not yet a symlink.
    NotBuilt,
    Install(String),
    Bazel(BazelError),
}

/// What an error says.
pub open spec fn error_text(error: AspectError) -> Seq<char> {
    match error {
        AspectError::NotBuilt =>
            "the workspace has no `bazel-bin` symlink yet, so aspect outputs would be written where Bazel cannot see them; run any `bazel build` once first"@,
        AspectError::Install(reason) => "could not write the aspect: "@ + reason@,
        AspectError::Bazel(error) => crate::bazel::error_text(error),
    }
}

impl AspectError {
    /// Computes [`error_text`].
    pub fn describe(&self) -> (text: String)
        ensures
            text@ == error_text(*self),
    {
        match self {
            AspectError::NotBuilt =>
                "the workspace has no `bazel-bin` symlink yet, so aspect outputs would be written where Bazel cannot see them; run any `bazel build` once first".to_owned(),
            AspectError::Install(reason) => {
                let mut text = "could not write the aspect: ".to_owned();
                text.append(reason.as_str());
                text
            },
            AspectError::Bazel(error) => error.describe(),
        }
    }
}

/// Whether the aspect has to be written, given what the two files hold now: it
/// is whenever either differs, so that a new version replaces an old one.
pub fn needs_install(aspect: &str, build: &str, source: &str) -> (needed: bool)
    ensures
        needed == !(aspect@ == source@ && build@ == ASPECT_BUILD@),
{
    !(same_text(aspect, source) && same_text(build, ASPECT_BUILD))
}

/// The arguments of the build that produces the SCIP output group.
pub open spec fn build_arguments(
    base: Option<Seq<char>>,
    targets: Seq<Seq<char>>,
    root: Seq<char>,
    java_home: Seq<char>,
    scip_java: Seq<char>,
) -> Seq<Seq<char>> {
    (match base {
        Some(base) => seq!["--output_base="@ + base],
        None => Seq::empty(),
    }) + seq!["build"@] + targets + seq![
        "--aspects=//.jabar/aspects:scip_java.bzl%scip_java_aspect"@,
        "--output_groups=scip"@,
        "--keep_going"@,
        "--noshow_progress"@,
        "--define=sourceroot="@ + root,
        "--define=java_home="@ + java_home,
        "--define=scip_java_binary="@ + scip_java,
    ]
}

/// Whether `bazel-bin` points outside the output base in use.
///
/// Switching output base leaves the symlink pointing into the *previous* one
/// until a command rewrites it, so the aspect writes where Bazel is no longer
/// looking and the run fails once.
pub open spec fn stale_link(base: Option<Seq<char>>, link: Option<Seq<char>>) -> bool {
    match (base, link) {
        (Some(base), Some(link)) => crate::paths::path_below(link, base) is None,
        _ => false,
    }
}

/// A text with `prefix` before it.
fn prefixed(prefix: &str, text: &str) -> (out: String)
    ensures
        out@ == prefix@ + text@,
{
    let mut out = prefix.to_owned();
    out.append(text);
    out
}

/// Installs and runs the aspect.
#[derive(Debug)]
pub struct AspectRunner<'a> {
    workspace_root: AbsPath<'a>,
    program: &'a str,
    output_base: Option<&'a str>,
}

/// A run of the aspect that has been started.
#[derive(Debug)]
pub struct AspectRun {
    /// The arguments, for the first attempt and for a retry.
    pub args: Vec<String>,
    /// Whether a failure is tried once more.
    pub retry: bool,
}

/// What a finished attempt leads to.
#[derive(Debug)]
pub enum AspectOutcome {
    /// Run the same arguments once more.
    Again(AspectRun),
    /// The shards are there. Some targets may not have built.
    Built,
    Failed(AspectError),
}

impl<'a> AspectRunner<'a> {
    /// The workspace.
    pub closed spec fn root(&self) -> Seq<char> {
        self.workspace_root@
    }

    /// The output base, where the workspace default is not shared.
    pub closed spec fn base(&self) -> Option<Seq<char>> {
        match self.output_base {
            Some(base) => Some(base@),
            None => None,
        }
    }

    /// The executable.
    pub closed spec fn executable(&self) -> Seq<char> {
        self.program@
    }

    /// A runner for the workspace at `workspace_root`.
    pub fn new(
        workspace_root: AbsPath<'a>,
        program: &'a str,
        output_base: Option<&'a str>,
    ) -> (runner: AspectRunner<'a>)
        ensures
            runner.root() == workspace_root@,
            runner.executable() == program@,
            runner.base() == (match output_base {
                Some(base) => Some(base@),
                None => None,
            }),
    {
        AspectRunner { workspace_root, program, output_base }
    }

    /// The executable.
    pub fn program(&self) -> (program: &'a str)
        ensures
            program@ == self.executable(),
    {
        self.program
    }

    /// Starts a run. `linked` says whether `bazel-bin` is a symlink, and `link`
    /// what it points to where that could be read.
    ///
    /// A stale symlink is repointed by the first command, so the retry succeeds.
    /// It is detected rather than always retried, so that a genuine failure
    /// still fails once and fast.
    pub fn start(&self, config: &AspectConfig, linked: bool, link: Option<&str>) -> (started: Result<
        AspectRun,
        AspectError,
    >)
        ensures
            if linked {
                started matches Ok(run) && crate::text::texts(run.args@) == build_arguments(
                    self.base(),
                    crate::text::texts(config.targets@),
                    self.root(),
                    config.java_home@,
                    config.scip_java@,
                ) && run.retry == stale_link(
                    self.base(),
                    match link {
                        Some(link) => Some(link@),
                        None => None,
                    },
                )
            } else {
                started matches Err(AspectError::NotBuilt)
            },
    {
        if !linked {
            return Err(AspectError::NotBuilt);
        }
        let retry = match (self.output_base, link) {
            (Some(base), Some(link)) => !is_below(link, base),
            _ => false,
        };
        let mut args: Vec<String> = Vec::new();
        if let Some(base) = self.output_base {
            // A startup option: bazel rejects it after the command.
            args.push(prefixed("--output_base=", base));
        }
        args.push("build".to_owned());
        let ghost start = crate::text::texts(args@);
        assert(start =~= (match self.base() {
            Some(base) => seq!["--output_base="@ + base],
            None => Seq::empty(),
        }) + seq!["build"@]);
        let mut targets = copy_texts(&config.targets);
        let ghost copied = targets@;
        args.append(&mut targets);
        assert(crate::text::texts(args@) =~= start + crate::text::texts(copied));
        let ghost middle = crate::text::texts(args@);
        args.push("--aspects=//.jabar/aspects:scip_java.bzl%scip_java_aspect".to_owned());
        args.push("--output_groups=scip".to_owned());
        // A repo of any size has targets that will not build here. Indexing the
        // ones that do beats indexing none.
        args.push("--keep_going".to_owned());
        args.push("--noshow_progress".to_owned());
        args.push(prefixed("--define=sourceroot=", self.workspace_root.as_str()));
        args.push(prefixed("--define=java_home=", config.java_home.as_str()));
        args.push(prefixed("--define=scip_java_binary=", config.scip_java.as_str()));
        assert(crate::text::texts(args@) =~= middle + seq![
            "--aspects=//.jabar/aspects:scip_java.bzl%scip_java_aspect"@,
            "--output_groups=scip"@,
            "--keep_going"@,
            "--noshow_progress"@,
            "--define=sourceroot="@ + self.root(),
            "--define=java_home="@ + config.java_home@,
            "--define=scip_java_binary="@ + config.scip_java@,
        ]);
        Ok(AspectRun { args, retry })
    }
}

/// Whether an attempt that ended with `code` produced an index: everything was
/// built, or all that could be.
pub open spec fn built(code: Option<i32>) -> bool {
    code == Some(0i32) || code == Some(EXIT_PARTIAL_SUCCESS)
}

impl AspectRun {
    /// Decides what a finished attempt leads to.
    ///
    /// A partial success is the expected outcome on a repo with targets that
    /// cannot be compiled. Anything else that failed is a real failure.
    pub fn finished(self, code: Option<i32>, stderr: &str) -> (outcome: AspectOutcome)
        ensures
            if code != Some(0i32) && self.retry {
                outcome matches AspectOutcome::Again(run) && run.args == self.args && !run.retry
            } else if built(code) {
                outcome is Built
            } else {
                outcome matches AspectOutcome::Failed(
                    AspectError::Bazel(BazelError::CommandFailed { args, code: c, stderr: said }),
                ) && args == self.args && c == code && said@ == crate::text::space_trimmed(
                    stderr@,
                )
            },
    {
        let clean = match code {
            Some(number) => number == 0,
            None => false,
        };
        if !clean && self.retry {
            return AspectOutcome::Again(AspectRun { args: self.args, retry: false });
        }
        let partial = match code {
            Some(number) => number == EXIT_PARTIAL_SUCCESS,
            None => false,
        };
        if clean || partial {
            return AspectOutcome::Built;
        }
        let said = chars_of(stderr);
        let stderr = string_of(slice_trim_space(said.as_slice()));
        AspectOutcome::Failed(
            AspectError::Bazel(BazelError::CommandFailed { args: self.args, code, stderr }),
        )
    }
}

/// A started run builds every target that is configured, behind the word `build`
/// and before any option. Only the output base comes earlier, where there is one.
/// What cannot be built does not end the run.
pub proof fn runs_build_what_is_configured(
    runner: &AspectRunner,
    config: &AspectConfig,
    link: Option<&str>,
    run: AspectRun,
    k: int,
)
    requires
        call_ensures(AspectRunner::start, (runner, config, true, link), Ok(run)),
        0 <= k < config.targets@.len(),
    ensures
        runner.base() is None ==> run.args@[0]@ == "build"@ && run.args@[k + 1]@
            == config.targets@[k]@,
        runner.base() matches Some(base) ==> run.args@[0]@ == "--output_base="@ + base
            && run.args@[1]@ == "build"@ && run.args@[k + 2]@ == config.targets@[k]@,
        crate::text::texts(run.args@).contains("--output_groups=scip"@),
        crate::text::texts(run.args@).contains("--keep_going"@),
        crate::text::texts(run.args@).contains("--define=sourceroot="@ + runner.root()),
        crate::text::texts(run.args@).contains("--define=java_home="@ + config.java_home@),
        crate::text::texts(run.args@).contains("--define=scip_java_binary="@ + config.scip_java@),
{
    let args = crate::text::texts(run.args@);
    let n = config.targets@.len() as int;
    let first: int = if runner.base() is Some {
        2
    } else {
        1
    };
    assert(args.len() == run.args@.len());
    assert(args[0] == run.args@[0]@);
    assert(args[1] == run.args@[1]@);
    assert(args[first + k] == run.args@[first + k]@);
    assert(args[first + k] == crate::text::texts(config.targets@)[k]);
    assert(args[first + n + 1] == "--output_groups=scip"@);
    assert(args[first + n + 2] == "--keep_going"@);
    assert(args[first + n + 4] == "--define=sourceroot="@ + runner.root());
    assert(args[first + n + 5] == "--define=java_home="@ + config.java_home@);
    assert(args[first + n + 6] == "--define=scip_java_binary="@ + config.scip_java@);
}

/// No run is started in a workspace without the symlink, and every run is in one
/// with it. A failure is tried again only where the symlink points outside the
/// output base that was asked for.
pub proof fn runs_are_started_beside_the_symlink(
    runner: &AspectRunner,
    config: &AspectConfig,
    linked: bool,
    link: Option<&str>,
    started: Result<AspectRun, AspectError>,
)
    requires
        call_ensures(AspectRunner::start, (runner, config, linked, link), started),
    ensures
        started is Ok <==> linked,
        started matches Err(error) ==> error is NotBuilt,
        started matches Ok(run) ==> (run.retry <==> runner.base() is Some && link is Some
            && crate::paths::path_below(link->0@, runner.base()->0) is None),
{
}

/// An attempt that ends well is done, and so is one in which some targets did not
/// build. What failed is tried again at most once, with the same arguments, and
/// then what was said is told.
pub proof fn runs_are_tried_at_most_twice(
    run: AspectRun,
    code: Option<i32>,
    stderr: &str,
    outcome: AspectOutcome,
)
    requires
        call_ensures(AspectRun::finished, (run, code, stderr), outcome),
    ensures
        code == Some(0i32) ==> outcome is Built,
        code == Some(3i32) && !run.retry ==> outcome is Built,
        outcome is Built ==> code == Some(0i32) || code == Some(3i32),
        outcome matches AspectOutcome::Again(again) ==> run.retry && !again.retry && again.args
            == run.args,
        run.retry && code != Some(0i32) ==> outcome is Again,
        outcome is Failed ==> !run.retry,
{
}

/// The aspect is written unless both of its files hold what they should.
pub proof fn current_aspects_are_left_alone(aspect: &str, build: &str, source: &str, needed: bool)
    requires
        call_ensures(needs_install, (aspect, build, source), needed),
    ensures
        aspect@ != source@ ==> needed,
        build@ != "exports_files([\"scip_java.bzl\"])\n"@ ==> needed,
        needed ==> aspect@ != source@ || build@ != "exports_files([\"scip_java.bzl\"])\n"@,
{
}

} // verus!
