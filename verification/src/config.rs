//! Configuration values and their precedence. Paths are opaque here; the
//! program around the library reads the environment and the file system.
use crate::text::decimal;
use crate::text::push_decimal;
use vstd::prelude::*;
use vstd::string::StringExecFns;

verus! {

/// Artifact size limit without a configuration file: four GiB.
pub const DEFAULT_MAX_ARTIFACT_BYTES: u64 = 4_294_967_296;

/// Plugin size limit without a configuration file: 128 MiB.
pub const DEFAULT_MAX_PLUGIN_BYTES: u64 = 134_217_728;

#[derive(Debug, PartialEq, Eq)]
pub enum ConfigError {
    /// No root directory is given and there is no home directory.
    HomeUnavailable,
}

/// What a configuration file holds.
#[derive(Clone, Debug, PartialEq, Eq)]
pub struct FileConfig<P> {
    pub root: Option<P>,
    pub max_artifact_bytes: u64,
    pub max_plugin_bytes: u64,
}

/// The effective configuration.
#[derive(Clone, Debug, PartialEq, Eq)]
pub struct Config<P> {
    pub root: P,
    pub max_artifact_bytes: u64,
    pub max_plugin_bytes: u64,
}

/// The first candidate that is there.
pub open spec fn first_of<P>(first: Option<P>, second: Option<P>) -> Option<P> {
    match first {
        Some(path) => Some(path),
        None => second,
    }
}

impl<P> FileConfig<P> {
    /// What holds without a configuration file.
    pub fn built_in() -> (file: Self)
        ensures
            file == (FileConfig {
                root: None::<P>,
                max_artifact_bytes: DEFAULT_MAX_ARTIFACT_BYTES,
                max_plugin_bytes: DEFAULT_MAX_PLUGIN_BYTES,
            }),
    {
        FileConfig {
            root: None,
            max_artifact_bytes: DEFAULT_MAX_ARTIFACT_BYTES,
            max_plugin_bytes: DEFAULT_MAX_PLUGIN_BYTES,
        }
    }
}

/// The root directory under which the configuration file is looked for: the
/// command line's, else the environment's, else the one in the home directory.
pub fn default_root<P>(root_override: Option<P>, environment: Option<P>, home: Option<P>) -> (root:
    Result<P, ConfigError>)
    ensures
        match first_of(root_override, first_of(environment, home)) {
            Some(path) => root == Ok::<_, ConfigError>(path),
            None => root == Err::<P, _>(ConfigError::HomeUnavailable),
        },
{
    if let Some(path) = root_override {
        return Ok(path);
    }
    if let Some(path) = environment {
        return Ok(path);
    }
    match home {
        Some(path) => Ok(path),
        None => Err(ConfigError::HomeUnavailable),
    }
}

/// The configuration that the four sources come to.
pub open spec fn effective<P>(
    root_override: Option<P>,
    environment: Option<P>,
    home: Option<P>,
    file: Option<FileConfig<P>>,
) -> Result<Config<P>, ConfigError> {
    let (file_root, max_artifact_bytes, max_plugin_bytes) = match file {
        Some(file) => (file.root, file.max_artifact_bytes, file.max_plugin_bytes),
        None => (None, DEFAULT_MAX_ARTIFACT_BYTES, DEFAULT_MAX_PLUGIN_BYTES),
    };
    if first_of(root_override, first_of(environment, home)) is None {
        Err(ConfigError::HomeUnavailable)
    } else {
        match first_of(root_override, first_of(environment, first_of(file_root, home))) {
            Some(root) => Ok(Config { root, max_artifact_bytes, max_plugin_bytes }),
            None => Err(ConfigError::HomeUnavailable),
        }
    }
}

/// The file that records a configuration.
pub open spec fn recorded<P>(config: Config<P>) -> FileConfig<P> {
    FileConfig {
        root: Some(config.root),
        max_artifact_bytes: config.max_artifact_bytes,
        max_plugin_bytes: config.max_plugin_bytes,
    }
}

/// A configuration that was written to its file is the effective one again,
/// unless the environment or the command line says otherwise.
pub proof fn recorded_configurations_come_back<P>(config: Config<P>, home: P)
    ensures
        effective(None::<P>, None::<P>, Some(home), Some(recorded(config))) == Ok::<
            _,
            ConfigError,
        >(config),
{
}

impl<P> Config<P> {
    /// The effective configuration. Later sources win: built-in defaults, the
    /// configuration file, the environment, the command line.
    pub fn load(
        root_override: Option<P>,
        environment: Option<P>,
        home: Option<P>,
        file: Option<FileConfig<P>>,
    ) -> (result: Result<Self, ConfigError>)
        ensures
            result == effective(root_override, environment, home, file),
    {
        if root_override.is_none() && environment.is_none() && home.is_none() {
            return Err(ConfigError::HomeUnavailable);
        }
        let file: FileConfig<P> = match file {
            Some(file) => file,
            None => FileConfig::built_in(),
        };
        let max_artifact_bytes: u64 = file.max_artifact_bytes;
        let max_plugin_bytes: u64 = file.max_plugin_bytes;
        let fallback: Option<P> = match file.root {
            Some(path) => Some(path),
            None => home,
        };
        match default_root(root_override, environment, fallback) {
            Ok(root) => Ok(Config { root, max_artifact_bytes, max_plugin_bytes }),
            Err(error) => Err(error),
        }
    }

    /// The file that initialisation writes: one that records this
    /// configuration, unless a file is there already and is not to be replaced.
    pub fn init(self, force: bool, exists: bool) -> (file: Option<FileConfig<P>>)
        ensures
            force || !exists ==> file == Some(recorded(self)),
            !force && exists ==> file is None,
    {
        if force || !exists {
            Some(
                FileConfig {
                    root: Some(self.root),
                    max_artifact_bytes: self.max_artifact_bytes,
                    max_plugin_bytes: self.max_plugin_bytes,
                },
            )
        } else {
            None
        }
    }
}

/// What is shown of the effective configuration.
pub open spec fn effective_text(
    root: Seq<char>,
    max_artifact_bytes: u64,
    max_plugin_bytes: u64,
) -> Seq<char> {
    "root = "@ + root + "\nmax_artifact_bytes = "@ + decimal(max_artifact_bytes as nat)
        + "\nmax_plugin_bytes = "@ + decimal(max_plugin_bytes as nat)
}

/// What is shown of the effective configuration, with the root as it displays.
pub fn show_effective(root: &str, max_artifact_bytes: u64, max_plugin_bytes: u64) -> (text: String)
    ensures
        text@ == effective_text(root@, max_artifact_bytes, max_plugin_bytes),
{
    let mut text = String::from_str("root = ");
    text.append(root);
    text.append("\nmax_artifact_bytes = ");
    push_decimal(&mut text, max_artifact_bytes);
    text.append("\nmax_plugin_bytes = ");
    push_decimal(&mut text, max_plugin_bytes);
    text
}

} // verus!
