//! Asking the `bazel` CLI about the workspace.
//!
//! # Finding the owning package without asking Bazel
//!
//! The obvious way to resolve a file to its target is to hand Bazel the path
//! and let it work out the package. That fails badly at the edge that matters: a
//! file in no package at all makes `bazel query` exit non-zero, and telling that
//! apart from a real failure means pattern-matching Bazel's error prose.
//!
//! A Bazel package is a directory holding a `BUILD` or `BUILD.bazel` file, and a
//! source belongs to the nearest such ancestor. So [`BazelCli::package_places`]
//! lists the ancestors, nearest first, and files in no package are an ordinary
//! absence rather than an error to be decoded.
use vstd::prelude::*;

use crate::aquery::{parse_output, AqueryDocument, CompileInfo, ParseError};
use crate::label::{LabelError, LabelFault, LabelView, TargetLabel};
use crate::paths::{below_of, parent_of, AbsPath, AbsPathBuf};
use crate::text::{
    begins_with, chars_of, copy_texts, is_one_of, join_texts, signed_decimal_text,
    slice_before_first, slice_trim_space, string_of, substring,
};

pub mod laws;

verus! {

/// Bazel's exit code for "finished, but something in the request did not
/// resolve": what `--keep_going` produces instead of failing outright.
pub const EXIT_PARTIAL_SUCCESS: i32 = 3;

/// Why `bazel` gave no answer.
#[derive(Debug)]
#[allow(inconsistent_fields)]
pub enum BazelError {
    /// `bazel` could not be started. Usually it is not installed.
    Spawn {
        program: String,
        reason: String,
    },
    CommandFailed {
        args: Vec<String>,
        code: Option<i32>,
        stderr: String,
    },
    /// Bazel printed something that was not UTF-8.
    NonUtf8Output,
    BadLabel {
        label: String,
        source: LabelError,
    },
    Aquery {
        target: String,
        source: ParseError,
    },
    /// A path held a character that could alter the query expression.
    UnsafeLabel {
        label: String,
        character: char,
    },
}

/// A path relative to the workspace without the package it is in: what follows
/// the package and a slash, and the whole where it does not begin with them or
/// the package is the root.
pub open spec fn within_package(relative: Seq<char>, package: Seq<char>) -> Seq<char> {
    if package.len() > 0 && (package + seq!['/']).is_prefix_of(relative) {
        relative.skip(package.len() as int + 1)
    } else {
        relative
    }
}

/// Removes the package prefix from a workspace-relative path.
pub fn strip_package_prefix(relative: &str, package: &str) -> (rest: String)
    ensures
        rest@ == within_package(relative@, package@),
{
    let chars = chars_of(relative);
    let mut prefix = chars_of(package);
    let n: usize = prefix.len();
    if n == 0 {
        return relative.to_owned();
    }
    prefix.push('/');
    assert(prefix@ =~= package@ + seq!['/']);
    if begins_with(chars.as_slice(), prefix.as_slice()) {
        let rest = substring(chars.as_slice(), prefix.len(), chars.len());
        assert(rest@ =~= relative@.skip(package@.len() as int + 1));
        rest
    } else {
        relative.to_owned()
    }
}

/// The characters that could change the shape of a query expression.
pub open spec fn forbidden_characters() -> Seq<char> {
    seq!['(', ')', '"', '\'', '\\', '\n', '\r', ' ']
}

/// Whether the first forbidden character of a text is `c`.
pub open spec fn first_forbidden(text: Seq<char>, c: char) -> bool {
    exists|i: int|
        0 <= i < text.len() && #[trigger] text[i] == c && forbidden_characters().contains(c)
            && forall|j: int| 0 <= j < i ==> !forbidden_characters().contains(#[trigger] text[j])
}

/// Whether a text holds no forbidden character.
pub open spec fn query_safe(text: Seq<char>) -> bool {
    forall|i: int| 0 <= i < text.len() ==> !forbidden_characters().contains(#[trigger] text[i])
}

/// Refuses label text that could change the shape of a query expression.
///
/// Arguments never reach a shell, so this is not about shell metacharacters. It
/// is about a filename containing `)` or `"` ending the query early and turning
/// a lookup into a different, valid, wrong query. Bazel labels have a restricted
/// character set anyway, so rejecting the rest costs nothing real.
pub fn check_query_safe(label: &str) -> (checked: Result<(), BazelError>)
    ensures
        match checked {
            Ok(()) => query_safe(label@),
            Err(BazelError::UnsafeLabel { label: text, character }) => text@ == label@
                && first_forbidden(label@, character),
            _ => false,
        },
{
    let forbidden = ['(', ')', '"', '\'', '\\', '\n', '\r', ' '];
    assert(forbidden@ =~= forbidden_characters());
    let chars = chars_of(label);
    let mut i: usize = 0;
    while i < chars.len()
        invariant
            chars@ == label@,
            forbidden@ == forbidden_characters(),
            i <= chars@.len(),
            forall|j: int| 0 <= j < i ==> !forbidden_characters().contains(#[trigger] label@[j]),
        decreases chars@.len() - i,
    {
        let c = chars[i];
        if is_one_of(c, forbidden.as_slice()) {
            assert(label@[i as int] == c);
            return Err(BazelError::UnsafeLabel { label: label.to_owned(), character: c });
        }
        i += 1;
    }
    Ok(())
}

/// The label of a source file in a package.
pub open spec fn source_label_text(package: Seq<char>, within: Seq<char>) -> Seq<char> {
    "//"@ + package + ":"@ + within
}

/// The directories that a file in the workspace could belong to as a package,
/// nearest first, the root last.
pub open spec fn places_above(relative: Seq<char>) -> Seq<Seq<char>>
    decreases relative.len(),
{
    match crate::paths::parent_path(relative) {
        Some(parent) => if parent.len() < relative.len() {
            seq![parent] + places_above(parent)
        } else {
            Seq::empty()
        },
        None => Seq::empty(),
    }
}

/// The first of `places` that is declared a package.
pub open spec fn first_declared(places: Seq<Seq<char>>, declared: Seq<bool>) -> Option<Seq<char>>
    decreases places.len(),
{
    if places.len() == 0 || declared.len() == 0 {
        None
    } else if declared[0] {
        Some(places[0])
    } else {
        first_declared(places.drop_first(), declared.drop_first())
    }
}

/// The nearest of `places` that holds a build file. That is Bazel's own rule,
/// and what makes a nested package like `service/order` beat `service`.
pub fn nearest_package(places: &Vec<String>, declared: &Vec<bool>) -> (package: Option<String>)
    ensures
        (match package {
            Some(package) => Some(package@),
            None => None,
        }) == first_declared(crate::text::texts(places@), declared@),
{
    let ghost all = crate::text::texts(places@);
    let mut i: usize = 0;
    assert(all.skip(0) =~= all);
    assert(declared@.skip(0) =~= declared@);
    while i < places.len() && i < declared.len()
        invariant
            all == crate::text::texts(places@),
            i <= places@.len(),
            i <= declared@.len(),
            first_declared(all, declared@) == first_declared(
                all.skip(i as int),
                declared@.skip(i as int),
            ),
        decreases places@.len() - i,
    {
        assert(all.skip(i as int)[0] == places@[i as int]@);
        if declared[i] {
            return Some(places[i].clone());
        }
        assert(all.skip(i as int).drop_first() =~= all.skip(i + 1));
        assert(declared@.skip(i as int).drop_first() =~= declared@.skip(i + 1));
        i += 1;
    }
    None
}

/// The first line of some output that holds more than white space, without the
/// white space around it.
pub open spec fn first_line(output: Seq<char>) -> Option<Seq<char>>
    decreases output.len(),
{
    let line = crate::text::before_first(output, seq!['\n']);
    let trimmed = crate::text::space_trimmed(line);
    if trimmed.len() > 0 {
        Some(trimmed)
    } else if line.len() < output.len() {
        first_line(output.skip(line.len() as int + 1))
    } else {
        None
    }
}

/// Finds [`first_line`].
fn find_first_line(output: &str) -> (line: Option<String>)
    ensures
        (match line {
            Some(line) => Some(line@),
            None => None,
        }) == first_line(output@),
{
    let chars = chars_of(output);
    let n: usize = chars.len();
    let newline = ['\n'];
    assert(newline@ =~= seq!['\n']);
    let mut from: usize = 0;
    assert(output@.skip(0) =~= output@);
    loop
        invariant
            chars@ == output@,
            n == chars@.len(),
            newline@ == seq!['\n'],
            from <= n,
            first_line(output@) == first_line(output@.skip(from as int)),
        decreases n - from,
    {
        let rest = vstd::slice::slice_subrange(chars.as_slice(), from, n);
        assert(rest@ =~= output@.skip(from as int));
        let line = slice_before_first(rest, newline.as_slice());
        let trimmed = slice_trim_space(line);
        if trimmed.len() > 0 {
            return Some(string_of(trimmed));
        }
        if line.len() == rest.len() {
            return None;
        }
        assert(rest@.skip(line@.len() as int + 1) =~= output@.skip(from + line@.len() + 1));
        from = from + line.len() + 1;
    }
}

/// What the output of an owner query says: the label on its first line, if
/// there is one.
///
/// A source can feed several targets, a library and its test. Taking the first
/// in Bazel's own ordering keeps the choice deterministic across runs.
pub open spec fn owner_in(output: Seq<char>) -> Result<Option<LabelView>, (Seq<char>, LabelFault)> {
    match first_line(output) {
        None => Ok(None),
        Some(line) => match crate::label::parsed_label(line) {
            Ok(label) => Ok(Some(label)),
            Err(fault) => Err((line, fault)),
        },
    }
}

/// Reads [`owner_in`].
pub fn owner_from_output(output: &str) -> (owner: Result<Option<TargetLabel>, BazelError>)
    ensures
        match (owner, owner_in(output@)) {
            (Ok(None), Ok(None)) => true,
            (Ok(Some(label)), Ok(Some(view))) => label@ == view,
            (Err(BazelError::BadLabel { label, source }), Err((line, fault))) => label@ == line
                && crate::label::reports(source, fault, line),
            _ => false,
        },
{
    let line = match find_first_line(output) {
        Some(line) => line,
        None => {
            return Ok(None);
        },
    };
    match TargetLabel::parse(&line) {
        Ok(label) => Ok(Some(label)),
        Err(source) => Err(BazelError::BadLabel { label: line, source }),
    }
}

/// Whether a run that ended with `code` counts as a success: it exited with
/// zero, or with a code that is tolerated.
pub open spec fn accepted_exit(code: Option<i32>, also_ok: Seq<i32>) -> bool {
    match code {
        Some(code) => code == 0 || also_ok.contains(code),
        None => false,
    }
}

/// Decides [`accepted_exit`].
pub fn accepts_exit(code: Option<i32>, also_ok: &[i32]) -> (accepted: bool)
    ensures
        accepted == accepted_exit(code, also_ok@),
{
    let number = match code {
        Some(number) => number,
        None => {
            return false;
        },
    };
    if number == 0 {
        return true;
    }
    let mut i: usize = 0;
    while i < also_ok.len()
        invariant
            code == Some(number),
            i <= also_ok@.len(),
            forall|j: int| 0 <= j < i ==> also_ok@[j] != number,
        decreases also_ok@.len() - i,
    {
        if also_ok[i] == number {
            assert(also_ok@.contains(number));
            return true;
        }
        i += 1;
    }
    false
}

/// What a finished run of `bazel` comes to: its output where the exit code is
/// accepted, and the command that failed, with what it complained of, where it
/// is not. `stdout` is missing where the output was not UTF-8.
pub fn run_result(
    args: &Vec<String>,
    also_ok: &[i32],
    code: Option<i32>,
    stdout: Option<String>,
    stderr: &str,
) -> (result: Result<String, BazelError>)
    ensures
        if accepted_exit(code, also_ok@) {
            match stdout {
                Some(text) => result == Ok::<String, BazelError>(text),
                None => result matches Err(BazelError::NonUtf8Output),
            }
        } else {
            result matches Err(BazelError::CommandFailed { args: failed, code: c, stderr: said })
                && crate::text::texts(failed@) == crate::text::texts(args@) && c == code && said@
                == crate::text::space_trimmed(stderr@)
        },
{
    if !accepts_exit(code, also_ok) {
        let said = chars_of(stderr);
        let stderr = string_of(slice_trim_space(said.as_slice()));
        return Err(BazelError::CommandFailed { args: copy_texts(args), code, stderr });
    }
    match stdout {
        Some(text) => Ok(text),
        None => Err(BazelError::NonUtf8Output),
    }
}

/// Runs `bazel` in a workspace.
#[derive(Debug)]
pub struct BazelCli {
    workspace_root: AbsPathBuf,
    program: String,
    output_base: Option<String>,
}

impl BazelCli {
    /// The workspace that `bazel` runs in.
    pub closed spec fn root(&self) -> Seq<char> {
        self.workspace_root@
    }

    /// The executable.
    pub closed spec fn executable(&self) -> Seq<char> {
        self.program@
    }

    /// The output base, where the workspace default is not shared.
    pub closed spec fn base(&self) -> Option<Seq<char>> {
        match self.output_base {
            Some(base) => Some(base@),
            None => None,
        }
    }

    /// `workspace_root` must be the directory holding `MODULE.bazel` or
    /// `WORKSPACE`; it is where `bazel` will be run and what paths are
    /// interpreted relative to.
    pub fn new(workspace_root: AbsPathBuf) -> (cli: BazelCli)
        ensures
            cli.root() == workspace_root@,
            cli.executable() == "bazel"@,
            cli.base() == None::<Seq<char>>,
    {
        BazelCli { workspace_root, program: "bazel".to_owned(), output_base: None }
    }

    /// Runs bazel against its own output base rather than the workspace default.
    ///
    /// Bazel takes an exclusive lock per output base, so sharing one means these
    /// invocations queue behind the user's builds *and* block them. A separate
    /// base removes that entirely. It is not free: a second base is a second
    /// analysis universe and a second set of outputs.
    pub fn with_output_base(self, output_base: Option<String>) -> (cli: BazelCli)
        ensures
            cli.root() == self.root(),
            cli.executable() == self.executable(),
            cli.base() == (match output_base {
                Some(base) => Some(base@),
                None => None,
            }),
    {
        BazelCli {
            workspace_root: self.workspace_root,
            program: self.program,
            output_base,
        }
    }

    /// The output base in use, or `None` when sharing the workspace default.
    pub fn output_base(&self) -> (base: Option<&str>)
        ensures
            (match base {
                Some(base) => Some(base@),
                None => None,
            }) == self.base(),
    {
        match &self.output_base {
            Some(base) => Some(base.as_str()),
            None => None,
        }
    }

    /// Overrides the executable, for `bazelisk` or an absolute path.
    pub fn with_program(self, program: String) -> (cli: BazelCli)
        ensures
            cli.root() == self.root(),
            cli.executable() == program@,
            cli.base() == self.base(),
    {
        BazelCli {
            workspace_root: self.workspace_root,
            program,
            output_base: self.output_base,
        }
    }

    /// The executable.
    pub fn program(&self) -> (program: &str)
        ensures
            program@ == self.executable(),
    {
        self.program.as_str()
    }

    /// The workspace that `bazel` runs in.
    pub fn workspace_root(&self) -> (root: AbsPath<'_>)
        ensures
            root@ == self.root(),
    {
        self.workspace_root.as_path()
    }

    /// The full argument list, with any startup options ahead of the command.
    ///
    /// `--output_base` is a *startup* option: bazel rejects it outright if it
    /// appears after the command, so position is correctness rather than style.
    pub fn argv(&self, args: &Vec<String>) -> (argv: Vec<String>)
        ensures
            crate::text::texts(argv@) == (match self.base() {
                Some(base) => seq!["--output_base="@ + base] + crate::text::texts(args@),
                None => crate::text::texts(args@),
            }),
    {
        let mut argv: Vec<String> = Vec::new();
        if let Some(base) = &self.output_base {
            let mut option = "--output_base=".to_owned();
            option.append(base.as_str());
            argv.push(option);
        }
        let ghost start = crate::text::texts(argv@);
        let mut rest = copy_texts(args);
        let ghost copied = rest@;
        argv.append(&mut rest);
        assert(crate::text::texts(argv@) =~= start + crate::text::texts(copied));
        assert(self.base() is Some ==> start =~= seq!["--output_base="@ + self.base()->0]);
        assert(self.base() is None ==> crate::text::texts(argv@) =~= crate::text::texts(args@));
        argv
    }

    /// The directories of the workspace that could be the package of `file`,
    /// nearest first; nothing for a file outside the workspace.
    pub fn package_places(&self, file: &AbsPath) -> (places: Option<Vec<String>>)
        ensures
            match crate::paths::path_below(file@, self.root()) {
                Some(relative) => places matches Some(places) && crate::text::texts(places@)
                    == places_above(relative),
                None => places is None,
            },
    {
        let relative = match below_of(file.as_str(), self.workspace_root.as_str()) {
            Some(relative) => relative,
            None => {
                return None;
            },
        };
        let mut places: Vec<String> = Vec::new();
        let mut current = relative.to_owned();
        assert(crate::text::texts(places@) =~= Seq::<Seq<char>>::empty());
        assert(crate::text::texts(places@) + places_above(relative@) =~= places_above(relative@));
        loop
            invariant
                crate::text::texts(places@) + places_above(current@) == places_above(relative@),
                crate::paths::path_below(file@, self.root()) == Some(relative@),
            decreases current@.len(),
        {
            let parent = match parent_of(&current) {
                Some(parent) => parent.to_owned(),
                None => {
                    assert(crate::text::texts(places@) + places_above(current@)
                        =~= crate::text::texts(places@));
                    return Some(places);
                },
            };
            let ghost before = places@;
            places.push(parent.clone());
            proof {
                assert(crate::text::texts(places@) =~= crate::text::texts(before).push(parent@));
                assert(crate::text::texts(before) + places_above(current@) =~= crate::text::texts(
                    places@,
                ) + places_above(parent@));
            }
            current = parent;
        }
    }

    /// The arguments that ask which target compiles `file`, which lies in
    /// `package`; nothing for a file outside the workspace, which has no owner.
    ///
    /// `--keep_going` turns "that source is not a declared target" from a hard
    /// failure into a tolerated exit with empty output, so an unowned file and a
    /// broken workspace are not the same error.
    pub fn owner_query(&self, file: &AbsPath, package: &str) -> (args: Result<
        Option<Vec<String>>,
        BazelError,
    >)
        ensures
            match crate::paths::path_below(file@, self.root()) {
                Some(relative) => {
                    let label = source_label_text(package@, within_package(relative, package@));
                    match args {
                        Ok(Some(args)) => query_safe(label) && crate::text::texts(args@) == seq![
                            "query"@,
                            "same_pkg_direct_rdeps("@ + label + ")"@,
                            "--output=label"@,
                            "--keep_going"@,
                            "--noshow_progress"@,
                        ],
                        Err(BazelError::UnsafeLabel { label: text, character }) => text@ == label
                            && first_forbidden(label, character),
                        _ => false,
                    }
                },
                None => args matches Ok(None),
            },
    {
        let relative = match below_of(file.as_str(), self.workspace_root.as_str()) {
            Some(relative) => relative,
            None => {
                return Ok(None);
            },
        };
        let within = strip_package_prefix(relative, package);
        let mut label = "//".to_owned();
        label.append(package);
        label.append(":");
        label.append(within.as_str());
        if let Err(error) = check_query_safe(&label) {
            return Err(error);
        }
        let mut query = "same_pkg_direct_rdeps(".to_owned();
        query.append(label.as_str());
        query.append(")");
        let mut args: Vec<String> = Vec::new();
        args.push("query".to_owned());
        args.push(query);
        args.push("--output=label".to_owned());
        args.push("--keep_going".to_owned());
        args.push("--noshow_progress".to_owned());
        assert(crate::text::texts(args@) =~= seq![
            "query"@,
            "same_pkg_direct_rdeps("@ + label@ + ")"@,
            "--output=label"@,
            "--keep_going"@,
            "--noshow_progress"@,
        ]);
        Ok(Some(args))
    }

    /// The arguments that ask for the compile inputs of `target`.
    ///
    /// No `--keep_going` here: a target that does not exist must surface as an
    /// error rather than as "no sources".
    pub fn compile_query(target: &TargetLabel) -> (args: Result<Vec<String>, BazelError>)
        ensures
            ({
                let label = crate::label::label_text(target@);
                match args {
                    Ok(args) => query_safe(label) && crate::text::texts(args@) == seq![
                        "aquery"@,
                        "mnemonic(\"Javac\", "@ + label + ")"@,
                        "--output=jsonproto"@,
                        "--noshow_progress"@,
                    ],
                    Err(BazelError::UnsafeLabel { label: text, character }) => text@ == label
                        && first_forbidden(label, character),
                    _ => false,
                }
            }),
    {
        let label = target.to_text();
        if let Err(error) = check_query_safe(&label) {
            return Err(error);
        }
        let mut query = "mnemonic(\"Javac\", ".to_owned();
        query.append(label.as_str());
        query.append(")");
        let mut args: Vec<String> = Vec::new();
        args.push("aquery".to_owned());
        args.push(query);
        args.push("--output=jsonproto".to_owned());
        args.push("--noshow_progress".to_owned());
        assert(crate::text::texts(args@) =~= seq![
            "aquery"@,
            "mnemonic(\"Javac\", "@ + label@ + ")"@,
            "--output=jsonproto"@,
            "--noshow_progress"@,
        ]);
        Ok(args)
    }

    /// The compile inputs of `target` in what Bazel answered to
    /// [`BazelCli::compile_query`]. A `java_import` has no Javac action; that is
    /// a fact about the target, not a failure.
    pub fn compile_info(target: &TargetLabel, output: &Result<AqueryDocument, String>) -> (info:
        Result<Option<CompileInfo>, BazelError>)
        ensures
            match crate::aquery::output_inputs(*output) {
                Ok(views) => info matches Ok(info) && (match info {
                    Some(info) => views.len() > 0 && info@ == views.last(),
                    None => views.len() == 0,
                }),
                Err(fault) => info matches Err(BazelError::Aquery { target: name, source })
                    && name@ == crate::label::label_text(target@) && source@ == fault,
            },
    {
        match parse_output(output) {
            Ok(infos) => {
                let mut infos = infos;
                let ghost all = infos@;
                let info = infos.pop();
                proof {
                    if all.len() > 0 {
                        assert(crate::aquery::compile_views(all).last() == all.last()@);
                    }
                }
                Ok(info)
            },
            Err(source) => Err(BazelError::Aquery { target: target.to_text(), source }),
        }
    }
}

/// What an error says.
pub open spec fn error_text(error: BazelError) -> Seq<char> {
    match error {
        BazelError::Spawn { program, reason } => "could not run `"@ + program@ + "`: "@ + reason@,
        BazelError::CommandFailed { args, code, stderr } => "`bazel "@ + crate::text::joined_by(
            crate::text::texts(args@),
            " "@,
        ) + "` exited "@ + (match code {
            Some(code) => crate::text::signed_decimal(code as int),
            None => "signal"@,
        }) + ": "@ + stderr@,
        BazelError::NonUtf8Output => "bazel produced non-UTF-8 output"@,
        BazelError::BadLabel { label, source } => "bazel returned an unparseable label `"@ + label@
            + "`: "@ + crate::label::error_text(source),
        BazelError::Aquery { target, source } => "could not read compile info for `"@ + target@
            + "`: "@ + crate::aquery::error_text(source),
        BazelError::UnsafeLabel { label, character } => "refusing to query label containing `"@
            + seq![character] + "`: `"@ + label@ + "`"@,
    }
}

impl BazelError {
    /// Computes [`error_text`].
    pub fn describe(&self) -> (text: String)
        ensures
            text@ == error_text(*self),
    {
        let mut text = String::new();
        match self {
            BazelError::Spawn { program, reason } => {
                text.append("could not run `");
                text.append(program.as_str());
                text.append("`: ");
                text.append(reason.as_str());
            },
            BazelError::CommandFailed { args, code, stderr } => {
                text.append("`bazel ");
                let joined = join_texts(args, " ");
                text.append(joined.as_str());
                text.append("` exited ");
                let code = match code {
                    Some(code) => signed_decimal_text(*code),
                    None => "signal".to_owned(),
                };
                text.append(code.as_str());
                text.append(": ");
                text.append(stderr.as_str());
            },
            BazelError::NonUtf8Output => {
                text.append("bazel produced non-UTF-8 output");
            },
            BazelError::BadLabel { label, source } => {
                text.append("bazel returned an unparseable label `");
                text.append(label.as_str());
                text.append("`: ");
                let why = source.describe();
                text.append(why.as_str());
            },
            BazelError::Aquery { target, source } => {
                text.append("could not read compile info for `");
                text.append(target.as_str());
                text.append("`: ");
                let why = source.describe();
                text.append(why.as_str());
            },
            BazelError::UnsafeLabel { label, character } => {
                text.append("refusing to query label containing `");
                text.push(*character);
                text.append("`: `");
                text.append(label.as_str());
                text.append("`");
            },
        }
        assert(text@ =~= error_text(*self));
        text
    }
}

} // verus!
