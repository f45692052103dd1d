//! What is read from a javac command line.
use vstd::prelude::*;

use crate::aquery::{ActionView, ParseFault};
use crate::label::LabelView;

verus! {

/// The values of a flag are the arguments behind it, up to the next flag or
/// params file. A flag that is not there has none.
pub proof fn flags_have_the_values_behind_them(
    before: Seq<Seq<char>>,
    flag: Seq<char>,
    values: Seq<Seq<char>>,
    rest: Seq<Seq<char>>,
)
    requires
        !before.contains(flag),
        forall|i: int|
            0 <= i < values.len() ==> !"--"@.is_prefix_of(#[trigger] values[i])
                && !"@"@.is_prefix_of(values[i]),
        rest.len() > 0 ==> "--"@.is_prefix_of(rest[0]) || "@"@.is_prefix_of(rest[0]),
    ensures
        crate::aquery::flag_values(before + seq![flag] + values + rest, flag) == values,
        crate::aquery::flag_values(before, flag).len() == 0,
    decreases before.len(),
{
    let all = before + seq![flag] + values + rest;
    if before.len() == 0 {
        assert(all[0] == flag);
        assert(all.drop_first() =~= values + rest);
        lemma_leading(values, rest);
    } else {
        let front = before.drop_first();
        assert(before[0] != flag);
        assert(!front.contains(flag)) by {
            if front.contains(flag) {
                let i = choose|i: int| 0 <= i < front.len() && front[i] == flag;
                assert(before[i + 1] == flag);
            }
        }
        flags_have_the_values_behind_them(front, flag, values, rest);
        assert(all[0] == before[0]);
        assert(all.drop_first() =~= front + seq![flag] + values + rest);
    }
}

/// What a target compiles is named by three flags.
pub proof fn inputs_are_named_by_flags(label: LabelView, arguments: Seq<Seq<char>>)
    ensures
        ({
            let inputs = crate::aquery::inputs_of(label, arguments);
            let output = crate::aquery::flag_values(arguments, "--output"@);
            &&& inputs.label == label
            &&& inputs.sources == crate::aquery::flag_values(arguments, "--sources"@)
            &&& inputs.classpath == crate::aquery::flag_values(arguments, "--classpath"@)
            &&& output.len() > 0 ==> inputs.output_jar == Some(output[0])
            &&& output.len() == 0 ==> inputs.output_jar is None
        }),
{
}

/// A params file is named by an argument that is a sigil and something behind
/// it, and the first one counts.
pub proof fn params_files_are_named_behind_a_sigil(
    before: Seq<Seq<char>>,
    file: Seq<char>,
    rest: Seq<Seq<char>>,
)
    requires
        file.len() > 0,
        forall|i: int|
            0 <= i < before.len() ==> !"@"@.is_prefix_of(#[trigger] before[i]) || before[i]
                == "@"@,
    ensures
        crate::aquery::params_named(before + seq!["@"@ + file] + rest) == Some(file),
        crate::aquery::params_named(before) is None,
    decreases before.len(),
{
    reveal_strlit("@");
    assert("@"@ =~= seq!['@']);
    let all = before + seq!["@"@ + file] + rest;
    if before.len() == 0 {
        assert(all[0] == "@"@ + file);
        assert(("@"@ + file).skip(1) =~= file);
        assert(seq!['@'].is_prefix_of("@"@ + file));
    } else {
        let front = before.drop_first();
        assert forall|i: int| 0 <= i < front.len() implies !"@"@.is_prefix_of(#[trigger] front[i])
            || front[i] == "@"@ by {
            assert(front[i] == before[i + 1]);
        }
        params_files_are_named_behind_a_sigil(front, file, rest);
        assert(all[0] == before[0]);
        assert(all.drop_first() =~= front + seq!["@"@ + file] + rest);
        if seq!['@'].is_prefix_of(before[0]) && before[0].len() > 1 {
            assert("@"@.is_prefix_of(before[0]));
        }
    }
}

/// Of some paths those with the ending `.java` are kept, all of them and in
/// order.
pub proof fn java_files_are_kept(paths: Seq<Seq<char>>, path: Seq<char>)
    ensures
        crate::aquery::java_only(Seq::empty()).len() == 0,
        (crate::paths::final_component(path) matches Some(name) && crate::paths::suffix_of(name)
            == Some("java"@)) ==> crate::aquery::java_only(paths.push(path))
            == crate::aquery::java_only(paths).push(path),
        !(crate::paths::final_component(path) matches Some(name) && crate::paths::suffix_of(name)
            == Some("java"@)) ==> crate::aquery::java_only(paths.push(path))
            == crate::aquery::java_only(paths),
{
    reveal_strlit("java");
    assert("java"@ =~= seq!['j', 'a', 'v', 'a']);
    assert(paths.push(path).drop_last() =~= paths);
}

/// The inputs of a javac action are those that its command line names, under the
/// label of its target. It is refused where the target is unknown, its label is
/// none, or the command line is in a params file.
pub proof fn javac_actions_are_read(action: ActionView, targets: Seq<(u32, Seq<char>)>)
    ensures
        match crate::aquery::label_of_target(targets, action.target_id) {
            None => crate::aquery::action_inputs(action, targets) == Err::<
                crate::aquery::CompileView,
                ParseFault,
            >(ParseFault::UnknownTarget(action.target_id)),
            Some(text) => match crate::label::parsed_label(text) {
                Err(fault) => crate::aquery::action_inputs(action, targets) == Err::<
                    crate::aquery::CompileView,
                    ParseFault,
                >(ParseFault::BadLabel(text, fault)),
                Ok(label) => {
                    let inputs = crate::aquery::inputs_of(label, action.arguments);
                    let nothing = inputs.sources.len() == 0 && inputs.classpath.len() == 0
                        && inputs.output_jar is None;
                    &&& crate::aquery::params_named(action.arguments) is None || !nothing
                        ==> crate::aquery::action_inputs(action, targets) == Ok::<
                        crate::aquery::CompileView,
                        ParseFault,
                    >(inputs)
                    &&& nothing ==> (crate::aquery::params_named(action.arguments) matches Some(
                        file,
                    ) ==> crate::aquery::action_inputs(action, targets) == Err::<
                        crate::aquery::CompileView,
                        ParseFault,
                    >(ParseFault::ParamsFile(crate::label::label_text(label), file)))
                },
            },
        },
{
}

/// A target is known by the last label that its id was given.
pub proof fn targets_are_known_by_their_last_label(
    targets: Seq<(u32, Seq<char>)>,
    id: u32,
    label: Seq<char>,
    other: u32,
)
    ensures
        crate::aquery::label_of_target(Seq::empty(), id) is None,
        crate::aquery::label_of_target(targets.push((id, label)), id) == Some(label),
        other != id ==> crate::aquery::label_of_target(targets.push((id, label)), other)
            == crate::aquery::label_of_target(targets, other),
{
    assert(targets.push((id, label)).drop_last() =~= targets);
}

/// Only javac actions are read, each in turn, and the first fault ends it. A
/// document with actions but no javac action among them is refused.
pub proof fn only_javac_actions_are_read(
    actions: Seq<ActionView>,
    next: ActionView,
    targets: Seq<(u32, Seq<char>)>,
)
    ensures
        crate::aquery::javac_inputs(Seq::empty(), targets) matches Ok(inputs) && inputs.len() == 0,
        crate::aquery::javac_inputs(actions, targets) matches Err(fault)
            ==> crate::aquery::javac_inputs(actions.push(next), targets) == Err::<
            Seq<crate::aquery::CompileView>,
            ParseFault,
        >(fault),
        crate::aquery::javac_inputs(actions, targets) matches Ok(inputs) ==> {
            let after = crate::aquery::javac_inputs(actions.push(next), targets);
            &&& next.mnemonic != "Javac"@ ==> after == Ok::<
                Seq<crate::aquery::CompileView>,
                ParseFault,
            >(inputs)
            &&& next.mnemonic == "Javac"@ ==> match crate::aquery::action_inputs(next, targets) {
                Ok(own) => after == Ok::<Seq<crate::aquery::CompileView>, ParseFault>(
                    inputs.push(own),
                ),
                Err(fault) => after == Err::<Seq<crate::aquery::CompileView>, ParseFault>(fault),
            }
        },
        actions.len() > 0 && (crate::aquery::javac_inputs(actions, targets) matches Ok(inputs)
            && inputs.len() == 0) ==> crate::aquery::document_inputs(actions, targets) == Err::<
            Seq<crate::aquery::CompileView>,
            ParseFault,
        >(ParseFault::NoJavacAction),
        actions.len() == 0 || !(crate::aquery::javac_inputs(actions, targets) matches Ok(inputs)
            && inputs.len() == 0) ==> crate::aquery::document_inputs(actions, targets)
            == crate::aquery::javac_inputs(actions, targets),
{
    assert(actions.push(next).drop_last() =~= actions);
}

proof fn lemma_leading(values: Seq<Seq<char>>, rest: Seq<Seq<char>>)
    requires
        forall|i: int|
            0 <= i < values.len() ==> !"--"@.is_prefix_of(#[trigger] values[i])
                && !"@"@.is_prefix_of(values[i]),
        rest.len() > 0 ==> "--"@.is_prefix_of(rest[0]) || "@"@.is_prefix_of(rest[0]),
    ensures
        crate::aquery::leading_values(values + rest) == values,
    decreases values.len(),
{
    reveal_strlit("--");
    reveal_strlit("@");
    assert("--"@ =~= seq!['-', '-']);
    assert("@"@ =~= seq!['@']);
    let all = values + rest;
    if values.len() == 0 {
        assert(all =~= rest);
    } else {
        let front = values.drop_first();
        assert forall|i: int| 0 <= i < front.len() implies !"--"@.is_prefix_of(
            #[trigger] front[i],
        ) && !"@"@.is_prefix_of(front[i]) by {
            assert(front[i] == values[i + 1]);
        }
        lemma_leading(front, rest);
        assert(all[0] == values[0]);
        assert(all.drop_first() =~= front + rest);
        assert(seq![values[0]] + front =~= values);
    }
}

} // verus!
