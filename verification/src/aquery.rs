//! Reading a target's compile inputs out of `bazel aquery --output=jsonproto`.
//!
//! `bazel aquery` reports the javac action that Bazel already planned. The
//! action's `arguments` array is the literal command line. The flags read here
//! belong to Bazel's JavaBuilder, not to javac itself:
//!
//! ```text
//! --sources    a.java b.java        the target's own sources
//! --classpath  libdep-hjar.jar ...  header jars of the direct dependencies
//! --output     libtarget.jar        the compiled output
//! ```
//!
//! Each takes a run of values terminated by the next `--flag`.
//!
//! Reading the command line is a real coupling to JavaBuilder's flag names, and
//! [`ParseError::NoJavacAction`] makes a break loud.
use vstd::prelude::*;

use crate::label::{LabelError, LabelFault, LabelView, TargetLabel};
use crate::paths::extension_of;
use crate::table::{no_numbers, position_of_number, set_number};
use crate::text::{begins_with, chars_of, decimal_text, same_text, substring};

pub mod laws;

verus! {

/// A target's compile inputs, exactly as Bazel planned them.
#[derive(Debug, PartialEq, Eq)]
pub struct CompileInfo {
    pub label: TargetLabel,
    /// The target's own sources, relative to the workspace root.
    pub sources: Vec<String>,
    /// Header jars of the direct dependencies, relative to the exec root.
    ///
    /// A header jar holds class names, supertypes and method signatures with the
    /// method bodies stripped. It does *not* carry any source position, so it
    /// answers "does this symbol exist and what shape is it" but never "where
    /// is it".
    pub classpath: Vec<String>,
    /// The compiled output jar, relative to the exec root.
    pub output_jar: Option<String>,
}

/// The view of a [`CompileInfo`].
#[verifier::ext_equal]
pub struct CompileView {
    pub label: LabelView,
    pub sources: Seq<Seq<char>>,
    pub classpath: Seq<Seq<char>>,
    pub output_jar: Option<Seq<char>>,
}

impl View for CompileInfo {
    type V = CompileView;

    open spec fn view(&self) -> CompileView {
        CompileView {
            label: self.label@,
            sources: crate::text::texts(self.sources@),
            classpath: crate::text::texts(self.classpath@),
            output_jar: match self.output_jar {
                Some(jar) => Some(jar@),
                None => None,
            },
        }
    }
}

/// Whether a path has the extension `java`.
pub open spec fn is_java(path: Seq<char>) -> bool {
    match crate::paths::final_component(path) {
        Some(name) => crate::paths::suffix_of(name) == Some(seq!['j', 'a', 'v', 'a']),
        None => false,
    }
}

/// The paths with the extension `java`, in order.
pub open spec fn java_only(paths: Seq<Seq<char>>) -> Seq<Seq<char>>
    decreases paths.len(),
{
    if paths.len() == 0 {
        Seq::empty()
    } else if is_java(paths.last()) {
        java_only(paths.drop_last()).push(paths.last())
    } else {
        java_only(paths.drop_last())
    }
}

impl CompileInfo {
    /// Sources ending in `.java`. Bazel targets can carry generated sources and
    /// resources through the same flag.
    pub fn java_sources(&self) -> (out: Vec<String>)
        ensures
            crate::text::texts(out@) == java_only(self@.sources),
    {
        let mut out: Vec<String> = Vec::new();
        let mut i: usize = 0;
        proof {
            reveal_strlit("java");
            assert("java"@ =~= seq!['j', 'a', 'v', 'a']);
        }
        while i < self.sources.len()
            invariant
                i <= self.sources@.len(),
                "java"@ == seq!['j', 'a', 'v', 'a'],
                crate::text::texts(out@) == java_only(self@.sources.take(i as int)),
            decreases self.sources@.len() - i,
        {
            let source = &self.sources[i];
            let ghost before = out@;
            proof {
                assert(self@.sources.take(i + 1).drop_last() =~= self@.sources.take(i as int));
                assert(self@.sources.take(i + 1).last() == source@);
            }
            let java = match extension_of(source) {
                Some(extension) => same_text(extension, "java"),
                None => false,
            };
            assert(java == is_java(source@));
            if java {
                out.push(source.clone());
                assert(crate::text::texts(out@) =~= crate::text::texts(before).push(source@));
            }
            i += 1;
        }
        assert(self@.sources.take(i as int) =~= self@.sources);
        out
    }
}

/// One action of an aquery document.
#[derive(Debug)]
pub struct Action {
    pub mnemonic: String,
    pub target_id: u32,
    pub arguments: Vec<String>,
}

/// One target of an aquery document.
#[derive(Debug)]
pub struct Target {
    pub id: u32,
    pub label: String,
}

/// The subset of an aquery document that this module reads.
#[derive(Debug)]
pub struct AqueryDocument {
    pub actions: Vec<Action>,
    pub targets: Vec<Target>,
}

/// The view of an [`Action`].
pub struct ActionView {
    pub mnemonic: Seq<char>,
    pub target_id: u32,
    pub arguments: Seq<Seq<char>>,
}

impl View for Action {
    type V = ActionView;

    open spec fn view(&self) -> ActionView {
        ActionView {
            mnemonic: self.mnemonic@,
            target_id: self.target_id,
            arguments: crate::text::texts(self.arguments@),
        }
    }
}

impl View for Target {
    type V = (u32, Seq<char>);

    open spec fn view(&self) -> (u32, Seq<char>) {
        (self.id, self.label@)
    }
}

/// The views of a sequence of actions.
pub open spec fn action_views(actions: Seq<Action>) -> Seq<ActionView> {
    Seq::new(actions.len(), |i: int| actions[i]@)
}

/// The views of a sequence of targets.
pub open spec fn target_views(targets: Seq<Target>) -> Seq<(u32, Seq<char>)> {
    Seq::new(targets.len(), |i: int| targets[i]@)
}

/// The label of the last target with this id.
pub open spec fn label_of_target(targets: Seq<(u32, Seq<char>)>, id: u32) -> Option<Seq<char>>
    decreases targets.len(),
{
    if targets.len() == 0 {
        None
    } else if targets.last().0 == id {
        Some(targets.last().1)
    } else {
        label_of_target(targets.drop_last(), id)
    }
}

/// Whether an argument ends the values of a flag: the next flag does, and so
/// does a params file, which is never a value.
pub open spec fn ends_values(argument: Seq<char>) -> bool {
    seq!['-', '-'].is_prefix_of(argument) || seq!['@'].is_prefix_of(argument)
}

/// The values that arguments begin with.
pub open spec fn leading_values(arguments: Seq<Seq<char>>) -> Seq<Seq<char>>
    decreases arguments.len(),
{
    if arguments.len() == 0 || ends_values(arguments[0]) {
        Seq::empty()
    } else {
        seq![arguments[0]] + leading_values(arguments.drop_first())
    }
}

/// The values that follow the first occurrence of `flag`.
///
/// Only the first is read: JavaBuilder passes each flag once, and silently
/// concatenating repeats would hide a command line that is not understood.
pub open spec fn flag_values(arguments: Seq<Seq<char>>, flag: Seq<char>) -> Seq<Seq<char>>
    decreases arguments.len(),
{
    if arguments.len() == 0 {
        Seq::empty()
    } else if arguments[0] == flag {
        leading_values(arguments.drop_first())
    } else {
        flag_values(arguments.drop_first(), flag)
    }
}

/// The params file that a command line names: what follows the `@` of the first
/// argument that is an `@` and something behind it. A bare `@` names no file.
///
/// Bazel moves a javac command line into a params file once it grows past a size
/// threshold, and persistent workers use one unconditionally. The flags then
/// live in the file.
pub open spec fn params_named(arguments: Seq<Seq<char>>) -> Option<Seq<char>>
    decreases arguments.len(),
{
    if arguments.len() == 0 {
        None
    } else if seq!['@'].is_prefix_of(arguments[0]) && arguments[0].len() > 1 {
        Some(arguments[0].skip(1))
    } else {
        params_named(arguments.drop_first())
    }
}

/// Why no compile inputs could be read.
#[derive(Debug)]
pub enum ParseError {
    /// The output is not JSON of the expected shape.
    Malformed(String),
    /// An action referenced a target id the document did not define.
    UnknownTarget {
        target_id: u32,
    },
    BadLabel {
        label: String,
        source: LabelError,
    },
    /// Actions were present but none was a Javac action, which usually means
    /// the query matched something unexpected rather than that the target has
    /// no sources.
    NoJavacAction,
    /// The command line is a params-file reference, so the flags this parser
    /// reads are not in it.
    ///
    /// Reported rather than tolerated: an empty [`CompileInfo`] here would say
    /// "this target has no sources and no classpath", which is a confident
    /// wrong answer.
    ParamsFile {
        label: String,
        params_file: String,
    },
}

/// The view of a [`ParseError`].
pub enum ParseFault {
    Malformed(Seq<char>),
    UnknownTarget(u32),
    BadLabel(Seq<char>, LabelFault),
    NoJavacAction,
    ParamsFile(Seq<char>, Seq<char>),
}

impl View for ParseError {
    type V = ParseFault;

    open spec fn view(&self) -> ParseFault {
        match *self {
            ParseError::Malformed(reason) => ParseFault::Malformed(reason@),
            ParseError::UnknownTarget { target_id } => ParseFault::UnknownTarget(target_id),
            ParseError::BadLabel { label, source } => ParseFault::BadLabel(
                label@,
                crate::label::fault_of(source),
            ),
            ParseError::NoJavacAction => ParseFault::NoJavacAction,
            ParseError::ParamsFile { label, params_file } => ParseFault::ParamsFile(
                label@,
                params_file@,
            ),
        }
    }
}

/// The compile inputs that a javac command line names for a label.
pub open spec fn inputs_of(label: LabelView, arguments: Seq<Seq<char>>) -> CompileView {
    let output = flag_values(arguments, "--output"@);
    CompileView {
        label,
        sources: flag_values(arguments, "--sources"@),
        classpath: flag_values(arguments, "--classpath"@),
        output_jar: if output.len() > 0 {
            Some(output[0])
        } else {
            None
        },
    }
}

/// Whether compile inputs name nothing.
pub open spec fn names_nothing(inputs: CompileView) -> bool {
    inputs.sources.len() == 0 && inputs.classpath.len() == 0 && inputs.output_jar is None
}

/// The compile inputs of one javac action.
///
/// Where the command line names nothing but a params file, the flags are in
/// that file and nothing was found, which would be indistinguishable from a
/// target that genuinely has no sources.
pub open spec fn action_inputs(
    action: ActionView,
    targets: Seq<(u32, Seq<char>)>,
) -> Result<CompileView, ParseFault> {
    match label_of_target(targets, action.target_id) {
        None => Err(ParseFault::UnknownTarget(action.target_id)),
        Some(text) => match crate::label::parsed_label(text) {
            Err(fault) => Err(ParseFault::BadLabel(text, fault)),
            Ok(label) => {
                let inputs = inputs_of(label, action.arguments);
                match params_named(action.arguments) {
                    Some(file) => if names_nothing(inputs) {
                        Err(ParseFault::ParamsFile(crate::label::label_text(label), file))
                    } else {
                        Ok(inputs)
                    },
                    None => Ok(inputs),
                }
            },
        },
    }
}

/// The compile inputs of the javac actions, in order, or the first error.
pub open spec fn javac_inputs(
    actions: Seq<ActionView>,
    targets: Seq<(u32, Seq<char>)>,
) -> Result<Seq<CompileView>, ParseFault>
    decreases actions.len(),
{
    if actions.len() == 0 {
        Ok(Seq::empty())
    } else {
        match javac_inputs(actions.drop_last(), targets) {
            Err(fault) => Err(fault),
            Ok(before) => if actions.last().mnemonic == "Javac"@ {
                match action_inputs(actions.last(), targets) {
                    Err(fault) => Err(fault),
                    Ok(inputs) => Ok(before.push(inputs)),
                }
            } else {
                Ok(before)
            },
        }
    }
}

/// The compile inputs of a document, where there is a javac action among its
/// actions or no action at all.
pub open spec fn document_inputs(
    actions: Seq<ActionView>,
    targets: Seq<(u32, Seq<char>)>,
) -> Result<Seq<CompileView>, ParseFault> {
    match javac_inputs(actions, targets) {
        Err(fault) => Err(fault),
        Ok(inputs) => if inputs.len() == 0 && actions.len() > 0 {
            Err(ParseFault::NoJavacAction)
        } else {
            Ok(inputs)
        },
    }
}

/// Whether an argument ends the values of a flag.
fn stops_values(argument: &str) -> (stops: bool)
    ensures
        stops == ends_values(argument@),
{
    let chars = chars_of(argument);
    let flag = ['-', '-'];
    let file = ['@'];
    assert(flag@ =~= seq!['-', '-']);
    assert(file@ =~= seq!['@']);
    begins_with(chars.as_slice(), flag.as_slice()) || begins_with(
        chars.as_slice(),
        file.as_slice(),
    )
}

/// Collects the run of values following `flag`, stopping at the next `--flag`
/// or at a params-file reference.
pub fn collect_flag(arguments: &Vec<String>, flag: &str) -> (values: Vec<String>)
    ensures
        crate::text::texts(values@) == flag_values(crate::text::texts(arguments@), flag@),
{
    let ghost all = crate::text::texts(arguments@);
    let n: usize = arguments.len();
    let mut values: Vec<String> = Vec::new();
    let mut i: usize = 0;
    assert(all.skip(0) =~= all);
    while i < n
        invariant_except_break
            n == arguments@.len(),
            all == crate::text::texts(arguments@),
            i <= n,
            flag_values(all, flag@) == flag_values(all.skip(i as int), flag@),
        ensures
            i <= n,
            i < n ==> flag_values(all, flag@) == leading_values(all.skip(i + 1)),
            i == n ==> flag_values(all, flag@) == Seq::<Seq<char>>::empty(),
        decreases n - i,
    {
        assert(all.skip(i as int)[0] == arguments@[i as int]@);
        assert(all.skip(i as int).drop_first() =~= all.skip(i + 1));
        if same_text(&arguments[i], flag) {
            break;
        }
        i += 1;
    }
    if i == n {
        assert(crate::text::texts(values@) =~= Seq::<Seq<char>>::empty());
        return values;
    }
    let mut k: usize = i + 1;
    let ghost rest = all.skip(i + 1);
    assert(crate::text::texts(values@) =~= Seq::<Seq<char>>::empty());
    assert(crate::text::texts(values@) + rest =~= rest);
    assert(crate::text::texts(values@) + leading_values(rest) =~= leading_values(rest));
    while k < n
        invariant_except_break
            n == arguments@.len(),
            all == crate::text::texts(arguments@),
            k <= n,
            flag_values(all, flag@) == crate::text::texts(values@) + leading_values(
                all.skip(k as int),
            ),
        ensures
            flag_values(all, flag@) == crate::text::texts(values@),
        decreases n - k,
    {
        let ghost tail = all.skip(k as int);
        let ghost before = values@;
        assert(tail[0] == arguments@[k as int]@);
        assert(tail.drop_first() =~= all.skip(k + 1));
        if stops_values(&arguments[k]) {
            assert(crate::text::texts(values@) + leading_values(tail) =~= crate::text::texts(
                values@,
            ));
            break;
        }
        values.push(arguments[k].clone());
        proof {
            assert(crate::text::texts(values@) =~= crate::text::texts(before).push(tail[0]));
            assert(crate::text::texts(before) + leading_values(tail) =~= crate::text::texts(
                values@,
            ) + leading_values(all.skip(k + 1)));
        }
        k += 1;
        if k == n {
            assert(all.skip(n as int).len() == 0);
            assert(crate::text::texts(values@) + leading_values(all.skip(n as int))
                =~= crate::text::texts(values@));
        }
    }
    values
}

/// The `@file` argument in a command line, if there is one.
pub fn params_file(arguments: &Vec<String>) -> (file: Option<String>)
    ensures
        (match file {
            Some(file) => Some(file@),
            None => None,
        }) == params_named(crate::text::texts(arguments@)),
{
    let ghost all = crate::text::texts(arguments@);
    let n: usize = arguments.len();
    let sigil = ['@'];
    assert(sigil@ =~= seq!['@']);
    let mut i: usize = 0;
    assert(all.skip(0) =~= all);
    while i < n
        invariant
            n == arguments@.len(),
            all == crate::text::texts(arguments@),
            sigil@ == seq!['@'],
            i <= n,
            params_named(all) == params_named(all.skip(i as int)),
        decreases n - i,
    {
        assert(all.skip(i as int)[0] == arguments@[i as int]@);
        assert(all.skip(i as int).drop_first() =~= all.skip(i + 1));
        let chars = chars_of(&arguments[i]);
        if begins_with(chars.as_slice(), sigil.as_slice()) && chars.len() > 1 {
            let file = substring(chars.as_slice(), 1, chars.len());
            assert(file@ =~= chars@.skip(1));
            return Some(file);
        }
        i += 1;
    }
    None
}

/// Parses every Javac action in an aquery document.
///
/// Targets with no Javac action, a `java_import` wrapping a prebuilt jar or a
/// target that was filtered out, simply do not appear in the result.
pub fn parse_javac_actions(document: &AqueryDocument) -> (infos: Result<
    Vec<CompileInfo>,
    ParseError,
>)
    ensures
        match (
            infos,
            document_inputs(
                action_views(document.actions@),
                target_views(document.targets@),
            ),
        ) {
            (Ok(infos), Ok(views)) => compile_views(infos@) == views,
            (Err(error), Err(fault)) => error@ == fault,
            _ => false,
        },
{
    let ghost targets = target_views(document.targets@);
    let ghost actions = action_views(document.actions@);
    let mut labels = no_numbers();
    let mut i: usize = 0;
    assert(targets.take(0) =~= Seq::<(u32, Seq<char>)>::empty());
    while i < document.targets.len()
        invariant
            targets == target_views(document.targets@),
            i <= document.targets@.len(),
            forall|id: u32| #[trigger]
                finds_label(crate::table::numbers_of(labels), targets.take(i as int), id),
        decreases document.targets@.len() - i,
    {
        let ghost before = crate::table::numbers_of(labels);
        set_number(&mut labels, document.targets[i].id, i);
        proof {
            let next = targets.take(i + 1);
            assert(next.drop_last() =~= targets.take(i as int));
            assert(next.last() == document.targets@[i as int]@);
            assert forall|id: u32| #[trigger] finds_label(
                crate::table::numbers_of(labels),
                next,
                id,
            ) by {
                assert(finds_label(before, targets.take(i as int), id));
            }
        }
        i += 1;
    }
    assert(targets.take(i as int) =~= targets);
    let mut infos: Vec<CompileInfo> = Vec::new();
    let mut k: usize = 0;
    assert(actions.take(0) =~= Seq::<ActionView>::empty());
    assert(compile_views(infos@) =~= Seq::<CompileView>::empty());
    while k < document.actions.len()
        invariant
            targets == target_views(document.targets@),
            actions == action_views(document.actions@),
            k <= document.actions@.len(),
            forall|id: u32| #[trigger]
                finds_label(crate::table::numbers_of(labels), targets, id),
            javac_inputs(actions.take(k as int), targets) == Ok::<Seq<CompileView>, ParseFault>(
                compile_views(infos@),
            ),
        decreases document.actions@.len() - k,
    {
        let action = &document.actions[k];
        let ghost next = actions.take(k + 1);
        proof {
            assert(next.drop_last() =~= actions.take(k as int));
            assert(next.last() == action@);
        }
        if same_text(&action.mnemonic, "Javac") {
            assert(finds_label(
                crate::table::numbers_of(labels),
                targets,
                action.target_id,
            ));
            let outcome = match position_of_number(&labels, action.target_id) {
                Some(at) => {
                    assert(targets[at as int] == document.targets@[at as int]@);
                    read_action(action, &document.targets[at].label)
                },
                None => Err(ParseError::UnknownTarget { target_id: action.target_id }),
            };
            match outcome {
                Ok(info) => {
                    let ghost before = infos@;
                    let ghost view = info@;
                    infos.push(info);
                    assert(compile_views(infos@) =~= compile_views(before).push(view));
                },
                Err(error) => {
                    proof {
                        lemma_first_fault(actions, targets, k + 1);
                    }
                    return Err(error);
                },
            }
        }
        k += 1;
    }
    assert(actions.take(k as int) =~= actions);
    if infos.len() == 0 && document.actions.len() > 0 {
        return Err(ParseError::NoJavacAction);
    }
    Ok(infos)
}

/// Parses every Javac action in what aquery put out: a document, or the reason
/// for which it is none.
pub fn parse_output(output: &Result<AqueryDocument, String>) -> (infos: Result<
    Vec<CompileInfo>,
    ParseError,
>)
    ensures
        match (infos, output_inputs(*output)) {
            (Ok(infos), Ok(views)) => compile_views(infos@) == views,
            (Err(error), Err(fault)) => error@ == fault,
            _ => false,
        },
{
    match output {
        Ok(document) => parse_javac_actions(document),
        Err(reason) => Err(ParseError::Malformed(reason.clone())),
    }
}

/// The compile inputs in what aquery put out.
pub open spec fn output_inputs(output: Result<AqueryDocument, String>) -> Result<
    Seq<CompileView>,
    ParseFault,
> {
    match output {
        Ok(document) => document_inputs(
            action_views(document.actions@),
            target_views(document.targets@),
        ),
        Err(reason) => Err(ParseFault::Malformed(reason@)),
    }
}

/// The views of a sequence of compile inputs.
pub open spec fn compile_views(infos: Seq<CompileInfo>) -> Seq<CompileView> {
    Seq::new(infos.len(), |i: int| infos[i]@)
}

/// Whether the map leads to the label of the target with this id.
spec fn finds_label(labels: Map<u32, usize>, targets: Seq<(u32, Seq<char>)>, id: u32) -> bool {
    match label_of_target(targets, id) {
        None => !labels.contains_key(id),
        Some(label) => {
            &&& labels.contains_key(id)
            &&& labels[id] < targets.len()
            &&& targets[labels[id] as int].1 == label
        },
    }
}

proof fn lemma_first_fault(
    actions: Seq<ActionView>,
    targets: Seq<(u32, Seq<char>)>,
    k: int,
)
    requires
        0 <= k <= actions.len(),
        javac_inputs(actions.take(k), targets) is Err,
    ensures
        javac_inputs(actions, targets) == javac_inputs(actions.take(k), targets),
    decreases actions.len(),
{
    if k == actions.len() {
        assert(actions.take(k) =~= actions);
    } else {
        assert(actions.drop_last().take(k) =~= actions.take(k));
        lemma_first_fault(actions.drop_last(), targets, k);
    }
}

/// The compile inputs of one javac action of the target labelled `text`.
fn read_action(action: &Action, text: &str) -> (info: Result<CompileInfo, ParseError>)
    ensures
        forall|targets: Seq<(u32, Seq<char>)>|
            label_of_target(targets, action.target_id) == Some(text@) ==> (match (
                info,
                #[trigger] action_inputs(action@, targets),
            ) {
                (Ok(info), Ok(view)) => info@ == view,
                (Err(error), Err(fault)) => error@ == fault,
                _ => false,
            }),
{
    let label = match TargetLabel::parse(text) {
        Ok(label) => label,
        Err(source) => {
            return Err(ParseError::BadLabel { label: text.to_owned(), source });
        },
    };
    let sources = collect_flag(&action.arguments, "--sources");
    let classpath = collect_flag(&action.arguments, "--classpath");
    let output = collect_flag(&action.arguments, "--output");
    let output_jar = if output.len() > 0 {
        assert(crate::text::texts(output@)[0] == output@[0]@);
        Some(output[0].clone())
    } else {
        None
    };
    assert(crate::text::texts(sources@).len() == sources@.len());
    assert(crate::text::texts(classpath@).len() == classpath@.len());
    assert(crate::text::texts(output@).len() == output@.len());
    let empty = sources.len() == 0 && classpath.len() == 0 && output_jar.is_none();
    let params = params_file(&action.arguments);
    if empty {
        if let Some(params_file) = params {
            return Err(ParseError::ParamsFile { label: label.to_text(), params_file });
        }
    }
    let info = CompileInfo { label, sources, classpath, output_jar };
    assert(info@ =~= inputs_of(label@, action@.arguments));
    Ok(info)
}

/// What an error says.
pub open spec fn error_text(error: ParseError) -> Seq<char> {
    match error {
        ParseError::Malformed(reason) => "aquery output is not valid JSON: "@ + reason@,
        ParseError::UnknownTarget { target_id } =>
            "action references undefined target id "@ + crate::text::decimal(
            target_id as nat,
        ),
        ParseError::BadLabel { label, source } =>
            "aquery returned an unparseable label `"@ + label@ + "`: "@
            + crate::label::error_text(source),
        ParseError::NoJavacAction =>
            "aquery returned actions but no Javac action among them"@,
        ParseError::ParamsFile { label, params_file } => "javac for `"@ + label@
            + "` reads its flags from the params file `"@ + params_file@
            + "`, which this parser does not yet read; refusing to report empty sources"@,
    }
}

impl ParseError {
    /// Computes [`error_text`].
    pub fn describe(&self) -> (text: String)
        ensures
            text@ == error_text(*self),
    {
        match self {
            ParseError::Malformed(reason) => {
                let mut text = "aquery output is not valid JSON: ".to_owned();
                text.append(reason.as_str());
                text
            },
            ParseError::UnknownTarget { target_id } => {
                let mut text = "action references undefined target id ".to_owned();
                let number = decimal_text(*target_id as u128);
                text.append(number.as_str());
                text
            },
            ParseError::BadLabel { label, source } => {
                let mut text = "aquery returned an unparseable label `".to_owned();
                text.append(label.as_str());
                text.append("`: ");
                let why = source.describe();
                text.append(why.as_str());
                text
            },
            ParseError::NoJavacAction => {
                "aquery returned actions but no Javac action among them".to_owned()
            },
            ParseError::ParamsFile { label, params_file } => {
                let mut text = "javac for `".to_owned();
                text.append(label.as_str());
                text.append("` reads its flags from the params file `");
                text.append(params_file.as_str());
                text.append(
                    "`, which this parser does not yet read; refusing to report empty sources",
                );
                text
            },
        }
    }
}

} // verus!
