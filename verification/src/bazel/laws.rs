//! Which package a file is in, and what an answer of Bazel says.
use vstd::prelude::*;

use crate::bazel::{check_query_safe, owner_from_output, BazelError};
use crate::label::TargetLabel;

verus! {

/// A path inside a package is what follows the package and a slash. One that is
/// not inside, and one in the root package, stays as it is.
pub proof fn paths_are_relative_to_their_package(
    package: Seq<char>,
    within: Seq<char>,
    other: Seq<char>,
)
    requires
        package.len() > 0,
    ensures
        crate::bazel::within_package(package + "/"@ + within, package) == within,
        crate::bazel::within_package(other, Seq::empty()) == other,
        !(package + "/"@).is_prefix_of(other) ==> crate::bazel::within_package(other, package)
            == other,
{
    reveal_strlit("/");
    assert("/"@ =~= seq!['/']);
    let whole = package + "/"@ + within;
    assert((package + seq!['/']).is_prefix_of(whole));
    assert(whole.skip(package.len() as int + 1) =~= within);
}

/// A text is safe to ask about where it holds neither brackets, quotes,
/// backslashes, line breaks nor spaces.
pub proof fn queries_hold_no_syntax(text: Seq<char>)
    ensures
        crate::bazel::query_safe(text) <==> !text.contains('(') && !text.contains(')')
            && !text.contains('"') && !text.contains('\'') && !text.contains('\\')
            && !text.contains('\n') && !text.contains('\r') && !text.contains(' '),
{
    let set = crate::bazel::forbidden_characters();
    assert(set[0] == '(' && set[1] == ')' && set[2] == '"' && set[3] == '\'' && set[4] == '\\'
        && set[5] == '\n' && set[6] == '\r' && set[7] == ' ');
    if crate::bazel::query_safe(text) {
        assert forall|c: char| #[trigger] set.contains(c) implies !text.contains(c) by {
            if text.contains(c) {
                let i = choose|i: int| 0 <= i < text.len() && text[i] == c;
                assert(!set.contains(text[i]));
            }
        }
        assert(set.contains('(') && set.contains(')') && set.contains('"') && set.contains('\''));
        assert(set.contains('\\') && set.contains('\n') && set.contains('\r') && set.contains(' '));
    } else {
        let i = choose|i: int| 0 <= i < text.len() && set.contains(#[trigger] text[i]);
        assert(text.contains(text[i]));
    }
}

/// The package of a file is the nearest directory above it that is declared one.
pub proof fn the_nearest_declared_place_is_the_package(
    above: Seq<Seq<char>>,
    package: Seq<char>,
    further: Seq<Seq<char>>,
    declared: Seq<bool>,
)
    requires
        declared.len() > above.len(),
        forall|i: int| 0 <= i < above.len() ==> !#[trigger] declared[i],
        declared[above.len() as int],
    ensures
        crate::bazel::first_declared(above + seq![package] + further, declared) == Some(package),
        crate::bazel::first_declared(above, declared) is None,
    decreases above.len(),
{
    let all = above + seq![package] + further;
    if above.len() == 0 {
        assert(all[0] == package);
    } else {
        let front = above.drop_first();
        let later = declared.drop_first();
        assert(!declared[0]);
        assert forall|i: int| 0 <= i < front.len() implies !#[trigger] later[i] by {
            assert(later[i] == declared[i + 1]);
        }
        assert(later[front.len() as int] == declared[above.len() as int]);
        the_nearest_declared_place_is_the_package(front, package, further, later);
        assert(all.drop_first() =~= front + seq![package] + further);
    }
}

/// An answer is read from its first line that is not blank, without the white
/// space around it.
pub proof fn answers_are_read_from_their_first_line(line: Seq<char>, rest: Seq<char>)
    requires
        !line.contains('\n'),
    ensures
        crate::text::space_trimmed(line).len() > 0 ==> crate::bazel::first_line(
            line + "\n"@ + rest,
        ) == Some(crate::text::space_trimmed(line)),
        crate::text::space_trimmed(line).len() == 0 ==> crate::bazel::first_line(
            line + "\n"@ + rest,
        ) == crate::bazel::first_line(rest),
        crate::text::space_trimmed(line).len() > 0 ==> crate::bazel::first_line(line) == Some(
            crate::text::space_trimmed(line),
        ),
        crate::bazel::first_line(Seq::empty()) is None,
{
    reveal_strlit("\n");
    assert("\n"@ =~= seq!['\n']);
    assert(seq!['\n'][0] == '\n');
    crate::text::laws::what_precedes_the_first_is_before_it(line, '\n', rest, seq!['\n']);
    let output = line + "\n"@ + rest;
    assert(output.skip(line.len() as int + 1) =~= rest);
}

/// A command succeeded where it exited with zero or with a code that is
/// tolerated, and never where a signal ended it.
pub proof fn commands_succeed_by_their_code(code: i32, also_ok: Seq<i32>)
    ensures
        crate::bazel::accepted_exit(Some(0), also_ok),
        also_ok.contains(code) ==> crate::bazel::accepted_exit(Some(code), also_ok),
        code != 0 && !also_ok.contains(code) ==> !crate::bazel::accepted_exit(Some(code), also_ok),
        !crate::bazel::accepted_exit(None, also_ok),
{
}

/// The label of a source file begins with the slashes, and has a colon between
/// its package and its path.
pub proof fn sources_are_labelled_in_their_package(package: Seq<char>, within: Seq<char>)
    requires
        within.len() > 0,
        !package.contains(':'),
    ensures
        crate::label::parsed_label(crate::bazel::source_label_text(package, within)) matches Ok(
            label,
        ) && label.repo.len() == 0 && label.package == package && label.name == within,
{
    reveal_strlit("//");
    reveal_strlit(":");
    assert("//"@ =~= crate::label::slashes());
    assert(":"@ =~= seq![':']);
    let label = crate::label::LabelView { repo: Seq::empty(), package, name: within };
    assert(!crate::text::occurs_in(label.repo, crate::label::slashes())) by {
        if crate::text::occurs_in(label.repo, crate::label::slashes()) {
            let at = choose|at: int| #[trigger]
                crate::text::occurs_at(label.repo, crate::label::slashes(), at);
        }
    }
    crate::label::labels_round_trip(label);
    assert(crate::bazel::source_label_text(package, within) =~= crate::label::label_text(label));
}

/// The owner of a file is the label on the first line of an answer, whatever
/// follows it. An answer that is empty names none.
pub proof fn owners_are_on_the_first_line(
    output: &str,
    owner: Result<Option<TargetLabel>, BazelError>,
    line: Seq<char>,
    rest: Seq<char>,
)
    requires
        call_ensures(owner_from_output, (output,), owner),
        !line.contains('\n'),
    ensures
        output@.len() == 0 ==> owner matches Ok(None),
        output@ == line + "\n"@ + rest && crate::text::space_trimmed(line).len() > 0 ==> (
        match crate::label::parsed_label(crate::text::space_trimmed(line)) {
            Ok(label) => owner matches Ok(Some(found)) && found@ == label,
            Err(_) => owner matches Err(BazelError::BadLabel { label, .. }) && label@
                == crate::text::space_trimmed(line),
        }),
{
    answers_are_read_from_their_first_line(line, rest);
    if output@.len() == 0 {
        assert(output@ =~= Seq::<char>::empty());
    }
}

/// A label with a bracket, a quote, a backslash, a line break or a space in it is
/// refused, and named. Every other one passes.
pub proof fn labels_with_syntax_are_refused(label: &str, checked: Result<(), BazelError>)
    requires
        call_ensures(check_query_safe, (label,), checked),
    ensures
        checked is Ok <==> !label@.contains('(') && !label@.contains(')') && !label@.contains('"')
            && !label@.contains('\'') && !label@.contains('\\') && !label@.contains('\n')
            && !label@.contains('\r') && !label@.contains(' '),
        checked is Err ==> (checked matches Err(BazelError::UnsafeLabel { label: text, character })
            && text@ == label@ && label@.contains(character)),
{
    queries_hold_no_syntax(label@);
    if let Err(BazelError::UnsafeLabel { label: text, character }) = checked {
        let set = crate::bazel::forbidden_characters();
        let i = choose|i: int|
            0 <= i < label@.len() && #[trigger] label@[i] == character && set.contains(character)
                && forall|j: int| 0 <= j < i ==> !set.contains(#[trigger] label@[j]);
        assert(label@.contains(label@[i]));
        assert(set.contains(label@[i]));
    }
}

/// The directories above a path, nearest first: the first is its parent, each of
/// the others is the parent of the one before it, and the last has none.
pub proof fn places_lead_upwards(relative: Seq<char>, k: int)
    ensures
        crate::paths::parent_path(relative) is None ==> crate::bazel::places_above(relative).len()
            == 0,
        crate::bazel::places_above(relative).len() > 0 ==> crate::paths::parent_path(relative)
            == Some(crate::bazel::places_above(relative)[0]),
        0 <= k < crate::bazel::places_above(relative).len() - 1 ==> crate::paths::parent_path(
            crate::bazel::places_above(relative)[k],
        ) == Some(crate::bazel::places_above(relative)[k + 1]),
    decreases relative.len(),
{
    let places = crate::bazel::places_above(relative);
    if let Some(parent) = crate::paths::parent_path(relative) {
        if parent.len() < relative.len() {
            let further = crate::bazel::places_above(parent);
            assert(places =~= seq![parent] + further);
            places_lead_upwards(parent, k - 1);
            if 0 <= k < places.len() - 1 {
                assert(places[k + 1] == further[k]);
                if k > 0 {
                    assert(places[k] == further[k - 1]);
                }
            }
        }
    }
}

/// What Bazel failed with is told: the arguments, the code and what it said.
pub proof fn failures_tell_what_happened(error: &BazelError, text: String)
    requires
        call_ensures(BazelError::describe, (error,), text),
    ensures
        error matches BazelError::Spawn { program, reason } ==> text@ == "could not run `"@
            + program@ + "`: "@ + reason@,
        error matches BazelError::CommandFailed { args, code, stderr } ==> (
        "`bazel "@ + crate::text::joined_by(crate::text::texts(args@), " "@)).is_prefix_of(text@)
            && stderr@.is_suffix_of(text@),
        error matches BazelError::BadLabel { label, .. } ==> (
        "bazel returned an unparseable label `"@ + label@ + "`: "@).is_prefix_of(text@),
        error matches BazelError::UnsafeLabel { label, character } ==> (seq![*character] + "`: `"@
            + label@ + "`"@).is_suffix_of(text@),
        error matches BazelError::Aquery { target, .. } ==> ("could not read compile info for `"@
            + target@ + "`: "@).is_prefix_of(text@),
{
    match error {
        BazelError::CommandFailed { args, code, stderr } => {
            let start = "`bazel "@ + crate::text::joined_by(crate::text::texts(args@), " "@);
            assert(start =~= text@.subrange(0, start.len() as int));
            assert(stderr@ =~= text@.subrange(text@.len() - stderr@.len(), text@.len() as int));
        },
        BazelError::UnsafeLabel { label, character } => {
            let end = seq![*character] + "`: `"@ + label@ + "`"@;
            assert(end =~= text@.subrange(text@.len() - end.len(), text@.len() as int));
        },
        BazelError::BadLabel { label, .. } => {
            let start = "bazel returned an unparseable label `"@ + label@ + "`: "@;
            assert(start =~= text@.subrange(0, start.len() as int));
        },
        BazelError::Aquery { target, .. } => {
            let start = "could not read compile info for `"@ + target@ + "`: "@;
            assert(start =~= text@.subrange(0, start.len() as int));
        },
        _ => {},
    }
}

} // verus!
