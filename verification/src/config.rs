//! What the client can tell jabar at startup.
//!
//! Arrives as LSP `initializationOptions`, which every client can set. Anything
//! absent takes a default that works without configuration, because a server
//! that needs a config file before it does anything is a server most people
//! never see working.
use vstd::prelude::*;

use crate::text::copy_texts;

verus! {

/// Client-supplied settings.
#[derive(Debug)]
pub struct Config {
    /// Where bazel should keep its state.
    ///
    /// Absent means share the workspace default, which is the right choice when
    /// nothing else is building: same server, same action cache, no duplicate
    /// analysis. Set it when jabar's builds would otherwise queue behind, and
    /// block, the user's own, since bazel takes an exclusive lock per output
    /// base.
    ///
    /// The cost of a separate base is a second analysis universe and a second
    /// set of outputs, which on a large repo is gigabytes and a cold analysis
    /// the first time.
    pub output_base: Option<String>,
    /// The `bazel` executable. `bazelisk` also works.
    pub bazel: Option<String>,
    /// Indexing behaviour.
    pub index: IndexConfig,
}

/// Settings of indexing.
#[derive(Debug)]
pub struct IndexConfig {
    /// Run the aspect at startup when no index is found.
    ///
    /// Off by default. Indexing runs a Bazel build, which can take minutes and
    /// which the user did not ask for by opening an editor; doing that unbidden
    /// is a poor first impression and, on a shared output base, will contend
    /// with whatever else they are running.
    pub auto: bool,
    /// What to index.
    ///
    /// Deliberately not `//...`: on a real megarepo that takes in targets broken
    /// at HEAD, targets needing credentials, and targets whose toolchains are
    /// not installed. Scoping is the normal case.
    pub targets: Vec<String>,
    /// Path to `scip-java`. Absent means look it up on `PATH`.
    pub scip_java: Option<String>,
}

/// The view of an optional text.
pub open spec fn text_of(text: Option<String>) -> Option<Seq<char>> {
    match text {
        Some(text) => Some(text@),
        None => None,
    }
}

/// A copy of an optional text.
pub fn copy_text(text: &Option<String>) -> (out: Option<String>)
    ensures
        text_of(out) == text_of(*text),
{
    match text {
        Some(text) => Some(text.clone()),
        None => None,
    }
}

/// The view of a [`Config`].
#[verifier::ext_equal]
pub struct ConfigView {
    pub output_base: Option<Seq<char>>,
    pub bazel: Option<Seq<char>>,
    pub auto: bool,
    pub targets: Seq<Seq<char>>,
    pub scip_java: Option<Seq<char>>,
}

impl View for Config {
    type V = ConfigView;

    open spec fn view(&self) -> ConfigView {
        ConfigView {
            output_base: text_of(self.output_base),
            bazel: text_of(self.bazel),
            auto: self.index.auto,
            targets: crate::text::texts(self.index.targets@),
            scip_java: text_of(self.index.scip_java),
        }
    }
}

/// The settings of a client that sends none: share the workspace's output base,
/// never build unbidden, and index everything when asked.
pub open spec fn default_config() -> ConfigView {
    ConfigView {
        output_base: None,
        bazel: None,
        auto: false,
        targets: seq!["//..."@],
        scip_java: None,
    }
}

impl Default for IndexConfig {
    fn default() -> (index: IndexConfig)
        ensures
            !index.auto,
            crate::text::texts(index.targets@) == seq!["//..."@],
            index.scip_java is None,
    {
        let mut targets: Vec<String> = Vec::new();
        targets.push("//...".to_owned());
        assert(crate::text::texts(targets@) =~= seq!["//..."@]);
        IndexConfig { auto: false, targets, scip_java: None }
    }
}

impl Default for Config {
    fn default() -> (config: Config)
        ensures
            config@ == default_config(),
    {
        Config { output_base: None, bazel: None, index: IndexConfig::default() }
    }
}

impl Config {
    /// Takes what was read from `initializationOptions`: nothing where the
    /// client sent none, and nothing inside where they could not be read.
    ///
    /// A malformed setting should not stop the server starting: the client can
    /// still use it, and a warning in the log beats a failed handshake with no
    /// features and no explanation.
    pub fn from_initialization_options(options: Option<Option<Config>>) -> (config: Config)
        ensures
            match options {
                Some(Some(sent)) => config == sent,
                _ => config@ == default_config(),
            },
    {
        match options {
            Some(Some(sent)) => sent,
            _ => Config::default(),
        }
    }

    /// The `scip-java` binary to use: the configured one, or what was found on
    /// `PATH`.
    pub fn resolve_scip_java(&self, on_path: Option<String>) -> (binary: Option<String>)
        ensures
            text_of(binary) == (match self@.scip_java {
                Some(configured) => Some(configured),
                None => text_of(on_path),
            }),
    {
        match &self.index.scip_java {
            Some(configured) => Some(configured.clone()),
            None => on_path,
        }
    }

    /// The `bazel` executable to run.
    pub fn program(&self) -> (program: String)
        ensures
            program@ == (match self@.bazel {
                Some(configured) => configured,
                None => "bazel"@,
            }),
    {
        match &self.bazel {
            Some(configured) => configured.clone(),
            None => "bazel".to_owned(),
        }
    }

    /// A copy of the settings.
    pub fn copy(&self) -> (out: Config)
        ensures
            out@ == self@,
    {
        Config {
            output_base: copy_text(&self.output_base),
            bazel: copy_text(&self.bazel),
            index: IndexConfig {
                auto: self.index.auto,
                targets: copy_texts(&self.index.targets),
                scip_java: copy_text(&self.index.scip_java),
            },
        }
    }
}

/// A client that sends no settings, or none that can be read, gets nothing
/// configured and nothing built unbidden. One that sends some gets those.
pub proof fn absent_settings_take_their_defaults(options: Option<Option<Config>>, config: Config)
    requires
        call_ensures(Config::from_initialization_options, (options,), config),
    ensures
        options is Some && options->0 is Some ==> config == options->0->0,
        options is None || options->0 is None ==> {
            &&& config.output_base is None
            &&& config.bazel is None
            &&& !config.index.auto
            &&& config.index.targets@.len() == 1
            &&& config.index.targets@[0]@ == "//..."@
            &&& config.index.scip_java is None
        },
{
    if options is None || options->0 is None {
        let targets = crate::text::texts(config.index.targets@);
        assert(config@ == default_config());
        assert(targets == seq!["//..."@]);
        assert(targets.len() == config.index.targets@.len());
        assert(targets.len() == 1);
        assert(targets[0] == config.index.targets@[0]@);
        assert(config@.output_base is None);
        assert(config@.bazel is None);
        assert(config@.scip_java is None);
    }
}

/// What is configured is run, and only without that what would be found.
pub proof fn configured_programs_are_run(
    config: &Config,
    program: String,
    on_path: Option<String>,
    binary: Option<String>,
)
    requires
        call_ensures(Config::program, (config,), program),
        call_ensures(Config::resolve_scip_java, (config, on_path), binary),
    ensures
        config.bazel matches Some(configured) ==> program@ == configured@,
        config.bazel is None ==> program@ == "bazel"@,
        config.index.scip_java matches Some(configured) ==> binary matches Some(binary) && binary@
            == configured@,
        config.index.scip_java is None ==> (binary is Some <==> on_path is Some),
        config.index.scip_java is None && on_path is Some ==> binary->0@ == on_path->0@,
{
    assert(text_of(binary) == (match config@.scip_java {
        Some(configured) => Some(configured),
        None => text_of(on_path),
    }));
}

} // verus!
