//! Bazel target labels.
//!
//! Labels are the identity of everything in this system: a file belongs to a
//! target, a target owns a classpath, an index shard is keyed by target. Parsing
//! them once into a real type, rather than passing strings around and splitting
//! them at each use, is what keeps that identity from quietly becoming "some
//! text that came out of bazel".
//!
//! The grammar accepted here is the one Bazel's own output uses:
//!
//! ```text
//! //java/com/acme/policy:policy      canonical
//! //java/com/acme/policy             abbreviated; name defaults to `policy`
//! @@//java/com/acme/app:app          main repo, bzlmod canonical spelling
//! @rules_java//java:defs             an external repo
//! @@rules_java+//toolchains:current  external repo, canonical spelling
//! ```
use vstd::prelude::*;

use crate::text::{
    begins_with, chars_of, find, is_one_of, same_text, slice_after_last, slice_before_first,
    string_of, substring,
};

verus! {

/// A parsed Bazel label.
#[derive(Debug, PartialEq, Eq, PartialOrd, Ord, Hash)]
pub struct TargetLabel {
    /// Repository, without the `@` or `@@` sigil. Empty for the main repo.
    repo: String,
    /// Package path, without the leading `//`. Empty for the root package.
    package: String,
    /// Target name after the `:`.
    name: String,
}

/// The view of a [`TargetLabel`].
#[verifier::ext_equal]
pub struct LabelView {
    pub repo: Seq<char>,
    pub package: Seq<char>,
    pub name: Seq<char>,
}

impl View for TargetLabel {
    type V = LabelView;

    closed spec fn view(&self) -> LabelView {
        LabelView { repo: self.repo@, package: self.package@, name: self.name@ }
    }
}

/// Why a text is no label.
#[derive(Debug, PartialEq, Eq)]
pub enum LabelError {
    /// No `//` separating repo from package.
    MissingPackage(String),
    /// Nothing after the `:`, and no package segment to default from.
    MissingName(String),
}

/// Why a text is no label, without the text.
pub enum LabelFault {
    MissingPackage,
    MissingName,
}

/// What an error reports.
pub open spec fn fault_of(error: LabelError) -> LabelFault {
    match error {
        LabelError::MissingPackage(_) => LabelFault::MissingPackage,
        LabelError::MissingName(_) => LabelFault::MissingName,
    }
}

/// Whether `error` reports `fault` of `text`.
pub open spec fn reports(error: LabelError, fault: LabelFault, text: Seq<char>) -> bool {
    match error {
        LabelError::MissingPackage(s) => fault is MissingPackage && s@ == text,
        LabelError::MissingName(s) => fault is MissingName && s@ == text,
    }
}

/// What an error says.
pub open spec fn error_text(error: LabelError) -> Seq<char> {
    match error {
        LabelError::MissingPackage(s) => "label has no `//`: `"@ + s@ + "`"@,
        LabelError::MissingName(s) => "label has no target name: `"@ + s@ + "`"@,
    }
}

impl LabelError {
    /// Computes [`error_text`].
    pub fn describe(&self) -> (text: String)
        ensures
            text@ == error_text(*self),
    {
        match self {
            LabelError::MissingPackage(s) => {
                let mut text = "label has no `//`: `".to_owned();
                text.append(s.as_str());
                text.append("`");
                text
            },
            LabelError::MissingName(s) => {
                let mut text = "label has no target name: `".to_owned();
                text.append(s.as_str());
                text.append("`");
                text
            },
        }
    }
}

/// `//`, which begins a package.
pub open spec fn slashes() -> Seq<char> {
    seq!['/', '/']
}

/// A text without the `@@` or `@` that it begins with.
pub open spec fn without_sigil(text: Seq<char>) -> Seq<char> {
    if seq!['@', '@'].is_prefix_of(text) {
        text.skip(2)
    } else if seq!['@'].is_prefix_of(text) {
        text.skip(1)
    } else {
        text
    }
}

/// The package and the name that follow the slashes: what stands before and
/// behind the first colon, or the whole and its last segment where there is no
/// colon.
pub open spec fn package_and_name(rest: Seq<char>) -> (Seq<char>, Seq<char>) {
    if rest.contains(':') {
        let package = crate::text::before_first(rest, seq![':']);
        (package, rest.skip(package.len() as int + 1))
    } else {
        (rest, crate::text::after_last(rest, seq!['/']))
    }
}

/// The label in a repo that a text behind its slashes stands for.
pub open spec fn label_in(repo: Seq<char>, rest: Seq<char>) -> Result<LabelView, LabelFault> {
    let (package, name) = package_and_name(rest);
    if name.len() == 0 {
        Err(LabelFault::MissingName)
    } else {
        Ok(LabelView { repo, package, name })
    }
}

/// The label that a text stands for.
///
/// Behind a sigil everything up to the first `//` names the repo. Without one
/// the text begins with `//`.
pub open spec fn parsed_label(text: Seq<char>) -> Result<LabelView, LabelFault> {
    let rest = without_sigil(text);
    if rest.len() < text.len() {
        if crate::text::occurs_in(rest, slashes()) {
            let at = crate::text::first_at(rest, slashes());
            label_in(rest.take(at), rest.skip(at + 2))
        } else {
            Err(LabelFault::MissingPackage)
        }
    } else if slashes().is_prefix_of(text) {
        label_in(Seq::empty(), text.skip(2))
    } else {
        Err(LabelFault::MissingPackage)
    }
}

/// The canonical text of a label.
pub open spec fn label_text(label: LabelView) -> Seq<char> {
    if label.repo.len() == 0 {
        slashes() + label.package + seq![':'] + label.name
    } else {
        seq!['@'] + label.repo + slashes() + label.package + seq![':'] + label.name
    }
}

/// Whether the canonical text of a label can be read back: it has a name, its
/// package holds no colon, and its repo neither holds nor runs into the slashes
/// and does not begin with a sigil.
pub open spec fn is_canonical(label: LabelView) -> bool {
    &&& label.name.len() > 0
    &&& !label.package.contains(':')
    &&& !crate::text::occurs_in(label.repo, slashes())
    &&& label.repo.len() > 0 ==> label.repo.last() != '/' && label.repo[0] != '@'
}

proof fn lemma_before_colon(head: Seq<char>, rest: Seq<char>)
    requires
        !head.contains(':'),
    ensures
        crate::text::before_first(head + seq![':'] + rest, seq![':']) == head,
    decreases head.len(),
{
    let s = head + seq![':'] + rest;
    assert(seq![':'].contains(':')) by {
        assert(seq![':'][0] == ':');
    }
    if head.len() == 0 {
        assert(s[0] == ':');
        assert(head =~= Seq::<char>::empty());
    } else {
        assert(s[0] == head[0]);
        assert(head[0] != ':') by {
            assert(head.contains(head[0]));
        }
        let tail = head.drop_first();
        assert(!tail.contains(':')) by {
            if tail.contains(':') {
                let k = choose|k: int| 0 <= k < tail.len() && tail[k] == ':';
                assert(head[k + 1] == ':');
            }
        }
        assert(s.drop_first() =~= tail + seq![':'] + rest);
        lemma_before_colon(tail, rest);
        assert(seq![head[0]] + tail =~= head);
    }
}

/// What a package, a colon and a name stand for.
proof fn lemma_label_in(repo: Seq<char>, package: Seq<char>, name: Seq<char>)
    requires
        !package.contains(':'),
        name.len() > 0,
    ensures
        label_in(repo, package + seq![':'] + name) == Ok::<LabelView, LabelFault>(
            LabelView { repo, package, name },
        ),
{
    let rest = package + seq![':'] + name;
    assert(rest.contains(':')) by {
        assert(rest[package.len() as int] == ':');
    }
    lemma_before_colon(package, name);
    assert(rest.skip(package.len() as int + 1) =~= name);
}

/// The slashes behind a repo that neither holds nor runs into them are the
/// first.
proof fn lemma_slashes_first(repo: Seq<char>, rest: Seq<char>)
    requires
        !crate::text::occurs_in(repo, slashes()),
        repo.len() > 0 ==> repo.last() != '/',
    ensures
        crate::text::occurs_in(repo + slashes() + rest, slashes()),
        crate::text::first_at(repo + slashes() + rest, slashes()) == repo.len(),
{
    let s = repo + slashes() + rest;
    let at = repo.len() as int;
    assert(s.subrange(at, at + 2) =~= slashes());
    assert(crate::text::occurs_at(s, slashes(), at));
    assert forall|k: int| 0 <= k < at implies !#[trigger] crate::text::occurs_at(
        s,
        slashes(),
        k,
    ) by {
        if crate::text::occurs_at(s, slashes(), k) {
            let found = s.subrange(k, k + 2);
            assert(found[0] == s[k]);
            assert(found[0] == '/');
            if k + 1 < at {
                assert(repo.subrange(k, k + 2) =~= found);
                assert(crate::text::occurs_at(repo, slashes(), k));
            } else {
                assert(repo.last() == s[k]);
            }
        }
    }
    crate::text::lemma_first_at(s, slashes(), at);
}

/// What a sigil, a repo and the slashes stand for.
proof fn lemma_repo_text(sigil: Seq<char>, repo: Seq<char>, rest: Seq<char>)
    requires
        sigil == seq!['@', '@'] || (sigil == seq!['@'] && (repo.len() > 0 ==> repo[0] != '@')),
        crate::text::occurs_in(repo + slashes() + rest, slashes()),
        crate::text::first_at(repo + slashes() + rest, slashes()) == repo.len(),
    ensures
        parsed_label(sigil + repo + slashes() + rest) == label_in(repo, rest),
{
    let text = sigil + repo + slashes() + rest;
    let body = repo + slashes() + rest;
    let n = sigil.len() as int;
    assert(text.take(n) =~= sigil);
    assert(text.skip(n) =~= body);
    assert(body.take(repo.len() as int) =~= repo);
    assert(body.skip(repo.len() as int + 2) =~= rest);
    assert(sigil.is_prefix_of(text));
    if sigil == seq!['@'] {
        assert(!seq!['@', '@'].is_prefix_of(text)) by {
            assert(text[1] == body[0]);
            assert(body[0] != '@');
            if seq!['@', '@'].is_prefix_of(text) {
                assert(text[1] == seq!['@', '@'][1]);
            }
        }
    }
}

/// A text that begins with the slashes is in the main repo.
proof fn lemma_main_text(rest: Seq<char>)
    ensures
        parsed_label(slashes() + rest) == label_in(Seq::empty(), rest),
{
    let text = slashes() + rest;
    assert(text[0] == '/');
    assert(!seq!['@', '@'].is_prefix_of(text)) by {
        if seq!['@', '@'].is_prefix_of(text) {
            assert(text[0] == seq!['@', '@'][0]);
        }
    }
    assert(!seq!['@'].is_prefix_of(text)) by {
        if seq!['@'].is_prefix_of(text) {
            assert(text[0] == seq!['@'][0]);
        }
    }
    assert(text.take(2) =~= slashes());
    assert(slashes().is_prefix_of(text));
    assert(text.skip(2) =~= rest);
}

/// The canonical text of a label reads back as the label.
pub proof fn labels_round_trip(label: LabelView)
    requires
        is_canonical(label),
    ensures
        parsed_label(label_text(label)) == Ok::<LabelView, LabelFault>(label),
{
    let rest = label.package + seq![':'] + label.name;
    lemma_label_in(label.repo, label.package, label.name);
    if label.repo.len() == 0 {
        assert(label.repo =~= Seq::<char>::empty());
        assert(label_text(label) =~= slashes() + rest);
        lemma_main_text(rest);
    } else {
        assert(label_text(label) =~= seq!['@'] + label.repo + slashes() + rest);
        lemma_slashes_first(label.repo, rest);
        lemma_repo_text(seq!['@'], label.repo, rest);
    }
}

/// An abbreviated text stands for the same label as with its name spelt out: a
/// text without a colon that is a label is named by the last segment of its
/// package, in whatever repo.
pub proof fn abbreviation_defaults_the_name(text: Seq<char>)
    requires
        !text.contains(':'),
        parsed_label(text) is Ok,
    ensures
        parsed_label(text)->Ok_0.name == crate::text::after_last(
            parsed_label(text)->Ok_0.package,
            seq!['/'],
        ),
        parsed_label(text + seq![':'] + parsed_label(text)->Ok_0.name) == parsed_label(text),
{
    let name = parsed_label(text)->Ok_0.name;
    let spelt = text + seq![':'] + name;
    if without_sigil(text).len() < text.len() {
        let (sigil, repo, package) = lemma_parts(text);
        lemma_label_in(repo, package, name);
        lemma_slashes_first(repo, package + seq![':'] + name);
        lemma_repo_text(sigil, repo, package + seq![':'] + name);
        assert(spelt =~= sigil + repo + slashes() + (package + seq![':'] + name));
    } else {
        let package = text.skip(2);
        lemma_no_colon(text, 2, package);
        lemma_label_in(Seq::empty(), package, name);
        lemma_main_text(package + seq![':'] + name);
        assert(text =~= slashes() + package) by {
            assert(text.take(2) =~= slashes());
        }
        assert(spelt =~= slashes() + (package + seq![':'] + name));
    }
}

/// The sigil, the repo and the package of a text without a colon.
proof fn lemma_parts(text: Seq<char>) -> (parts: (Seq<char>, Seq<char>, Seq<char>))
    requires
        !text.contains(':'),
        without_sigil(text).len() < text.len(),
        crate::text::occurs_in(without_sigil(text), slashes()),
    ensures
        text == parts.0 + parts.1 + slashes() + parts.2,
        parts.0 == seq!['@', '@'] || (parts.0 == seq!['@'] && (parts.1.len() > 0 ==> parts.1[0]
            != '@')),
        !crate::text::occurs_in(parts.1, slashes()),
        parts.1.len() > 0 ==> parts.1.last() != '/',
        !parts.2.contains(':'),
        parsed_label(text) == label_in(parts.1, parts.2),
{
    let rest = without_sigil(text);
    let n = text.len() - rest.len();
    let at = crate::text::lemma_first_exists(rest, slashes());
    let sigil = text.take(n);
    let repo = rest.take(at);
    let package = rest.skip(at + 2);
    lemma_repo_before_slashes(rest);
    assert(text.skip(n) =~= rest);
    assert(package =~= text.skip(n + at + 2));
    lemma_no_colon(text, n + at + 2, package);
    if seq!['@', '@'].is_prefix_of(text) {
        assert(sigil =~= seq!['@', '@']);
    } else {
        assert(sigil =~= seq!['@']);
        if repo.len() > 0 && repo[0] == '@' {
            assert(text[1] == rest[0]);
            assert(text[0] == sigil[0]);
            assert(text.take(2) =~= seq!['@', '@']);
        }
    }
    assert(rest =~= repo + slashes() + package) by {
        assert(rest =~= repo + rest.subrange(at, at + 2) + package);
    }
    assert(text =~= sigil + rest);
    assert(sigil + rest =~= sigil + repo + slashes() + package);
    (sigil, repo, package)
}

/// The end of a text without a colon has none.
proof fn lemma_no_colon(text: Seq<char>, at: int, tail: Seq<char>)
    requires
        0 <= at <= text.len(),
        tail == text.skip(at),
        !text.contains(':'),
    ensures
        !tail.contains(':'),
{
    if tail.contains(':') {
        let k = choose|k: int| 0 <= k < tail.len() && tail[k] == ':';
        assert(text[at + k] == ':');
    }
}

/// The double sigil in front of the slashes names the main repo.
pub proof fn double_sigil_is_the_main_repo(rest: Seq<char>)
    ensures
        parsed_label(seq!['@', '@'] + slashes() + rest) == parsed_label(slashes() + rest),
{
    let repo = Seq::<char>::empty();
    assert(!crate::text::occurs_in(repo, slashes())) by {
        assert forall|at: int| !#[trigger] crate::text::occurs_at(repo, slashes(), at) by {}
    }
    lemma_slashes_first(repo, rest);
    lemma_repo_text(seq!['@', '@'], repo, rest);
    lemma_main_text(rest);
    assert(seq!['@', '@'] + repo + slashes() + rest =~= seq!['@', '@'] + slashes() + rest);
}

/// The canonical text of a label that was read from some text reads back as the
/// label, unless its repo begins with another sigil.
pub proof fn parsed_labels_read_back(text: Seq<char>)
    requires
        parsed_label(text) matches Ok(label) && (label.repo.len() > 0 ==> label.repo[0] != '@'),
    ensures
        parsed_label(label_text(parsed_label(text)->Ok_0)) == parsed_label(text),
{
    let label = parsed_label(text)->Ok_0;
    let rest = without_sigil(text);
    let body = if rest.len() < text.len() {
        rest.skip(crate::text::first_at(rest, slashes()) + 2)
    } else {
        text.skip(2)
    };
    lemma_package_colon(body);
    if rest.len() < text.len() {
        lemma_repo_before_slashes(rest);
    } else {
        assert(!crate::text::occurs_in(label.repo, slashes())) by {
            assert forall|at: int| !#[trigger] crate::text::occurs_at(
                label.repo,
                slashes(),
                at,
            ) by {}
        }
    }
    labels_round_trip(label);
}

/// A package holds no colon.
proof fn lemma_package_colon(rest: Seq<char>)
    ensures
        !package_and_name(rest).0.contains(':'),
{
    if rest.contains(':') {
        lemma_no_colon_before(rest);
    }
}

proof fn lemma_no_colon_before(s: Seq<char>)
    ensures
        !crate::text::before_first(s, seq![':']).contains(':'),
    decreases s.len(),
{
    assert(seq![':'][0] == ':');
    if s.len() > 0 && !seq![':'].contains(s[0]) {
        let rest = crate::text::before_first(s.drop_first(), seq![':']);
        lemma_no_colon_before(s.drop_first());
        let all = crate::text::before_first(s, seq![':']);
        if all.contains(':') {
            let k = choose|k: int| 0 <= k < all.len() && all[k] == ':';
            if k == 0 {
                assert(seq![':'].contains(s[0]));
            } else {
                assert(rest[k - 1] == ':');
            }
        }
    }
}

/// What stands before the first slashes neither holds nor runs into them.
proof fn lemma_repo_before_slashes(rest: Seq<char>)
    requires
        crate::text::occurs_in(rest, slashes()),
    ensures
        ({
            let repo = rest.take(crate::text::first_at(rest, slashes()));
            &&& 0 <= crate::text::first_at(rest, slashes()) <= rest.len()
            &&& !crate::text::occurs_in(repo, slashes())
            &&& repo.len() > 0 ==> repo.last() != '/'
        }),
{
    let at = crate::text::lemma_first_exists(rest, slashes());
    let repo = rest.take(at);
    if crate::text::occurs_in(repo, slashes()) {
        let k = choose|k: int| #[trigger] crate::text::occurs_at(repo, slashes(), k);
        assert(rest.subrange(k, k + 2) =~= repo.subrange(k, k + 2));
        assert(crate::text::occurs_at(rest, slashes(), k));
    }
    if repo.len() > 0 && repo.last() == '/' {
        assert(rest.subrange(at, at + 2)[0] == rest[at]);
        assert(rest.subrange(at - 1, at + 1) =~= slashes());
        assert(crate::text::occurs_at(rest, slashes(), at - 1));
    }
}

impl TargetLabel {
    /// Parses a label, defaulting the name to the last package segment when the
    /// abbreviated form is used.
    pub fn parse(text: &str) -> (label: Result<TargetLabel, LabelError>)
        ensures
            match (label, parsed_label(text@)) {
                (Ok(label), Ok(view)) => label@ == view,
                (Err(error), Err(fault)) => reports(error, fault, text@),
                _ => false,
            },
    {
        let chars = chars_of(text);
        let n: usize = chars.len();
        let two = ['@', '@'];
        let one = ['@'];
        let separator = ['/', '/'];
        let colon = [':'];
        let slash = ['/'];
        proof {
            assert(two@ =~= seq!['@', '@']);
            assert(one@ =~= seq!['@']);
            assert(separator@ =~= slashes());
            assert(colon@ =~= seq![':']);
            assert(slash@ =~= seq!['/']);
        }
        let sigil: usize = if begins_with(chars.as_slice(), two.as_slice()) {
            2
        } else if begins_with(chars.as_slice(), one.as_slice()) {
            1
        } else {
            0
        };
        let rest = vstd::slice::slice_subrange(chars.as_slice(), sigil, n);
        assert(rest@ =~= without_sigil(text@));
        let repo_len: usize = if sigil > 0 {
            // A repo sigil was present, so everything up to `//` names the repo.
            match find(rest, separator.as_slice()) {
                Some(at) => at,
                None => {
                    return Err(LabelError::MissingPackage(text.to_owned()));
                },
            }
        } else {
            if !begins_with(rest, separator.as_slice()) {
                return Err(LabelError::MissingPackage(text.to_owned()));
            }
            0
        };
        let repo = substring(rest, 0, repo_len);
        let body = vstd::slice::slice_subrange(rest, repo_len + 2, rest.len());
        proof {
            assert(repo@ =~= rest@.take(repo_len as int));
            assert(body@ =~= rest@.skip(repo_len + 2));
            assert(sigil == 0 ==> repo@ =~= Seq::<char>::empty());
        }
        let (package, name) = if is_one_of(':', body) {
            let package = slice_before_first(body, colon.as_slice());
            proof {
                if package@.len() == body@.len() {
                    assert(body@.take(body@.len() as int) =~= body@);
                    lemma_no_colon_before(body@);
                }
            }
            let name = substring(body, package.len() + 1, body.len());
            assert(name@ =~= body@.skip(package@.len() as int + 1));
            (string_of(package), name)
        } else {
            // `//java/com/acme/policy` means `//java/com/acme/policy:policy`.
            (string_of(body), string_of(slice_after_last(body, slash.as_slice())))
        };
        if name.as_str().is_empty() {
            return Err(LabelError::MissingName(text.to_owned()));
        }
        let label = TargetLabel { repo, package, name };
        assert(label@ =~= parsed_label(text@)->Ok_0);
        Ok(label)
    }

    /// Repository name without sigils; empty for the main repo.
    pub fn repo(&self) -> (repo: &str)
        ensures
            repo@ == self@.repo,
    {
        self.repo.as_str()
    }

    /// Package path without the leading `//`.
    pub fn package(&self) -> (package: &str)
        ensures
            package@ == self@.package,
    {
        self.package.as_str()
    }

    /// Target name after the `:`.
    pub fn name(&self) -> (name: &str)
        ensures
            name@ == self@.name,
    {
        self.name.as_str()
    }

    /// Whether this target lives in the repo under analysis, as opposed to an
    /// external dependency. Only workspace targets are worth watching for edits.
    pub fn is_main_repo(&self) -> (main: bool)
        ensures
            main == (self@.repo.len() == 0),
    {
        self.repo.as_str().is_empty()
    }

    /// The label a source file in this target's package would carry.
    ///
    /// Bazel names a source file by its package plus its path within that
    /// package, which is how a file gets resolved back to its owning target.
    pub fn sibling(&self, name: &str) -> (label: TargetLabel)
        ensures
            label@ == (LabelView { name: name@, ..self@ }),
    {
        TargetLabel {
            repo: self.repo.clone(),
            package: self.package.clone(),
            name: name.to_owned(),
        }
    }

    /// The canonical text of the label.
    pub fn to_text(&self) -> (text: String)
        ensures
            text@ == label_text(self@),
    {
        proof {
            reveal_strlit("@");
            reveal_strlit("//");
            reveal_strlit(":");
            assert("@"@ =~= seq!['@']);
            assert("//"@ =~= slashes());
            assert(":"@ =~= seq![':']);
        }
        let mut text = String::new();
        if !self.repo.as_str().is_empty() {
            text.append("@");
            text.append(self.repo.as_str());
        }
        text.append("//");
        text.append(self.package.as_str());
        text.append(":");
        text.append(self.name.as_str());
        assert(text@ =~= label_text(self@));
        text
    }

    /// Whether two labels are the same.
    pub fn same(&self, other: &TargetLabel) -> (same: bool)
        ensures
            same == (self@ == other@),
    {
        same_text(&self.repo, &other.repo) && same_text(&self.package, &other.package)
            && same_text(&self.name, &other.name)
    }
}

/// A text without the slashes that begin a package is no label, and neither is
/// one without a name behind its colon.
pub proof fn labels_have_a_package_and_a_name(text: Seq<char>, package: Seq<char>)
    requires
        !package.contains(':'),
    ensures
        !crate::text::occurs_in(text, "//"@) ==> parsed_label(text) == Err::<LabelView, LabelFault>(
            LabelFault::MissingPackage,
        ),
        !"@"@.is_prefix_of(text) && !"//"@.is_prefix_of(text) ==> parsed_label(text) == Err::<
            LabelView,
            LabelFault,
        >(LabelFault::MissingPackage),
        parsed_label("//"@ + package + ":"@) == Err::<LabelView, LabelFault>(
            LabelFault::MissingName,
        ),
{
    reveal_strlit("//");
    reveal_strlit("@");
    reveal_strlit(":");
    assert("//"@ =~= slashes());
    assert("@"@ =~= seq!['@']);
    assert(":"@ =~= seq![':']);
    let rest = without_sigil(text);
    if !crate::text::occurs_in(text, "//"@) {
        if slashes().is_prefix_of(text) {
            assert(text.subrange(0, 2) =~= slashes());
            assert(crate::text::occurs_at(text, slashes(), 0));
        }
        if crate::text::occurs_in(rest, slashes()) {
            let at = choose|at: int| #[trigger] crate::text::occurs_at(rest, slashes(), at);
            let skipped = text.len() - rest.len();
            assert(text.subrange(at + skipped, at + skipped + 2) =~= rest.subrange(at, at + 2));
            assert(crate::text::occurs_at(text, slashes(), at + skipped));
        }
    }
    if !"@"@.is_prefix_of(text) {
        if seq!['@', '@'].is_prefix_of(text) {
            assert(text[0] == '@');
            assert(seq!['@'].is_prefix_of(text));
        }
    }
    let bare = "//"@ + package + ":"@;
    assert(bare[0] == '/');
    if seq!['@'].is_prefix_of(bare) || seq!['@', '@'].is_prefix_of(bare) {
        assert(seq!['@'][0] == '@' && seq!['@', '@'][0] == '@');
        assert(bare[0] == '@');
    }
    assert(slashes().is_prefix_of(bare));
    let behind = package + ":"@;
    assert(bare.skip(2) =~= behind);
    assert(behind[package.len() as int] == ':');
    assert(behind.contains(':'));
    assert(seq![':'][0] == ':');
    crate::text::laws::what_precedes_the_first_is_before_it(
        package,
        ':',
        Seq::empty(),
        seq![':'],
    );
    assert(package + seq![':'] + Seq::<char>::empty() =~= behind);
}

/// What is wrong with a label is told with the label.
pub proof fn label_errors_quote_the_label(error: &LabelError, text: String)
    requires
        call_ensures(LabelError::describe, (error,), text),
    ensures
        error matches LabelError::MissingPackage(label) ==> (label@ + "`"@).is_suffix_of(text@)
            && "label has no `//`"@.is_prefix_of(text@),
        error matches LabelError::MissingName(label) ==> (label@ + "`"@).is_suffix_of(text@)
            && "label has no target name"@.is_prefix_of(text@),
{
    reveal_strlit("label has no `//`");
    reveal_strlit("label has no target name");
    reveal_strlit("label has no `//`: `");
    reveal_strlit("label has no target name: `");
    match error {
        LabelError::MissingPackage(label) => {
            let end = label@ + "`"@;
            assert(end =~= text@.subrange(text@.len() - end.len(), text@.len() as int));
            assert("label has no `//`"@ =~= text@.subrange(0, 17));
        },
        LabelError::MissingName(label) => {
            let end = label@ + "`"@;
            assert(end =~= text@.subrange(text@.len() - end.len(), text@.len() as int));
            assert("label has no target name"@ =~= text@.subrange(0, 24));
        },
    }
}

/// A label that is written and read again is the same. Its sibling differs from it
/// in nothing but the name.
pub proof fn written_labels_are_read_back(
    label: &TargetLabel,
    text: String,
    written: &str,
    read: Result<TargetLabel, LabelError>,
    name: &str,
    sibling: TargetLabel,
)
    requires
        call_ensures(TargetLabel::to_text, (label,), text),
        call_ensures(TargetLabel::parse, (written,), read),
        written@ == text@,
        call_ensures(TargetLabel::sibling, (label, name), sibling),
        is_canonical(label@),
    ensures
        read is Ok,
        read->Ok_0@ == label@,
        sibling@.name == name@,
        sibling@.package == label@.package,
        sibling@.repo == label@.repo,
{
    labels_round_trip(label@);
}

} // verus!
