//! The runner: which paths a run is made of, with what settings, and how it
//! ends.

use vstd::prelude::*;
use vstd::string::*;
use crate::text::{opt_text, same_text};

verus! {

/// Which paths run.
#[derive(Debug, Clone, Copy, PartialEq, Eq)]
pub enum Mode {
    Producer,
    Consumer,
    Both,
}

/// How a path ended.
#[derive(Debug, Clone, Copy, PartialEq, Eq)]
pub enum Ending {
    Finished,
    Failed,
}

/// Why a set of options makes no configuration.
#[derive(Debug, Clone, Copy, PartialEq, Eq)]
pub enum ConfigError {
    /// The mode is none of `producer`, `consumer`, `both`.
    UnknownMode,
    /// No topic is given.
    MissingTopic,
    /// The producer path is to run and no key path is given.
    MissingKey,
}

/// The options of a run as they were given; `None` where one was left out.
#[derive(Debug, Clone, PartialEq, Eq)]
pub struct Options {
    pub server: Option<String>,
    pub mode: Option<String>,
    pub key: Option<String>,
    pub topic: Option<String>,
    pub tls_file: Option<String>,
}

/// The settings of a run.
#[derive(Debug, Clone, PartialEq, Eq)]
pub struct Config {
    pub server: String,
    pub mode: Mode,
    pub key: Option<String>,
    pub topic: String,
    pub tls_file: Option<String>,
}

/// The broker address of a run that names none.
pub open spec fn default_server() -> Seq<char> {
    "localhost:9092"@
}

/// The mode that `name` stands for.
pub open spec fn mode_named(name: Seq<char>) -> Option<Mode> {
    if name == "producer"@ {
        Some(Mode::Producer)
    } else if name == "consumer"@ {
        Some(Mode::Consumer)
    } else if name == "both"@ {
        Some(Mode::Both)
    } else {
        None
    }
}

/// The mode of a run whose options give `name` for it: the producer alone
/// where none is given.
pub open spec fn mode_chosen(name: Option<Seq<char>>) -> Option<Mode> {
    match name {
        Some(n) => mode_named(n),
        None => Some(Mode::Producer),
    }
}

impl Mode {
    /// Whether the producer path runs in this mode.
    pub open spec fn has_producer(self) -> bool {
        self is Producer || self is Both
    }

    /// Whether the consumer path runs in this mode.
    pub open spec fn has_consumer(self) -> bool {
        self is Consumer || self is Both
    }

    /// Reads a mode by its name: `producer`, `consumer` or `both`.
    pub fn parse(name: &str) -> (mode: Option<Mode>)
        ensures
            mode == mode_named(name@),
    {
        if same_text(name, "producer") {
            Some(Mode::Producer)
        } else if same_text(name, "consumer") {
            Some(Mode::Consumer)
        } else if same_text(name, "both") {
            Some(Mode::Both)
        } else {
            None
        }
    }

    /// Whether the producer path runs in this mode.
    pub fn runs_producer(&self) -> (runs: bool)
        ensures
            runs == self.has_producer(),
    {
        match self {
            Mode::Producer => true,
            Mode::Consumer => false,
            Mode::Both => true,
        }
    }

    /// Whether the consumer path runs in this mode.
    pub fn runs_consumer(&self) -> (runs: bool)
        ensures
            runs == self.has_consumer(),
    {
        match self {
            Mode::Producer => false,
            Mode::Consumer => true,
            Mode::Both => true,
        }
    }
}

/// Why the given options make no configuration, if they make none. An unknown
/// mode is found first, then a missing topic, then a missing key path.
pub open spec fn config_error(
    mode: Option<Seq<char>>,
    key: Option<Seq<char>>,
    topic: Option<Seq<char>>,
) -> Option<ConfigError> {
    match mode_chosen(mode) {
        None => Some(ConfigError::UnknownMode),
        Some(m) => if topic is None {
            Some(ConfigError::MissingTopic)
        } else if m.has_producer() && key is None {
            Some(ConfigError::MissingKey)
        } else {
            None
        },
    }
}

/// Checks the options of a run and fills in what they leave out.
///
/// The topic is always needed; the key path is needed where the producer path
/// runs. The broker address defaults to `localhost:9092`, the mode to the
/// producer alone.
pub fn configure(options: Options) -> (outcome: Result<Config, ConfigError>)
    ensures
        match outcome {
            Ok(config) => {
                &&& config_error(
                    opt_text(options.mode),
                    opt_text(options.key),
                    opt_text(options.topic),
                ) is None
                &&& Some(config.mode) == mode_chosen(opt_text(options.mode))
                &&& config.server@ == match options.server {
                    Some(s) => s@,
                    None => default_server(),
                }
                &&& Some(config.topic@) == opt_text(options.topic)
                &&& opt_text(config.key) == opt_text(options.key)
                &&& opt_text(config.tls_file) == opt_text(options.tls_file)
            },
            Err(e) => config_error(
                opt_text(options.mode),
                opt_text(options.key),
                opt_text(options.topic),
            ) == Some(e),
        },
{
    let mode = match &options.mode {
        Some(name) => match Mode::parse(name.as_str()) {
            Some(m) => m,
            None => {
                return Err(ConfigError::UnknownMode);
            },
        },
        None => Mode::Producer,
    };
    let topic = match options.topic {
        Some(t) => t,
        None => {
            return Err(ConfigError::MissingTopic);
        },
    };
    if mode.runs_producer() && options.key.is_none() {
        return Err(ConfigError::MissingKey);
    }
    let server = match options.server {
        Some(s) => s,
        None => String::from_str("localhost:9092"),
    };
    Ok(Config { server, mode, key: options.key, topic, tls_file: options.tls_file })
}

/// How a run in `mode` ends, given how its paths have ended so far (`None` for
/// a path that is still running): it has failed as soon as one of its paths
/// has, it has finished when all of them have, and until then it is open.
pub open spec fn joined(mode: Mode, producer: Option<Ending>, consumer: Option<Ending>) -> Option<
    Ending,
> {
    if (mode.has_producer() && producer == Some(Ending::Failed)) || (mode.has_consumer()
        && consumer == Some(Ending::Failed)) {
        Some(Ending::Failed)
    } else if (mode.has_producer() ==> producer == Some(Ending::Finished)) && (mode.has_consumer()
        ==> consumer == Some(Ending::Finished)) {
        Some(Ending::Finished)
    } else {
        None
    }
}

/// Joins the paths of a run, failing fast: see `joined`. A path that the mode
/// does not run is not looked at.
pub fn join(mode: Mode, producer: Option<Ending>, consumer: Option<Ending>) -> (overall: Option<
    Ending,
>)
    ensures
        overall == joined(mode, producer, consumer),
{
    let producer_failed = mode.runs_producer() && matches!(producer, Some(Ending::Failed));
    let consumer_failed = mode.runs_consumer() && matches!(consumer, Some(Ending::Failed));
    if producer_failed || consumer_failed {
        return Some(Ending::Failed);
    }
    let producer_done = !mode.runs_producer() || matches!(producer, Some(Ending::Finished));
    let consumer_done = !mode.runs_consumer() || matches!(consumer, Some(Ending::Finished));
    if producer_done && consumer_done {
        Some(Ending::Finished)
    } else {
        None
    }
}

} // verus!
