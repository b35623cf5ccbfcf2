//! Where the binaries of the two outside tools are looked for.  The places are
//! consulted in a fixed order, and the first that names a path wins: the command
//! line, the environment, the configuration file, and the current directory.

use vstd::prelude::*;
use vstd::string::*;

verus! {

/// A tool whose binary could not be found in any place.
#[derive(Clone, Copy, Debug, PartialEq, Eq, Structural)]
pub enum ResolveError {
    CharonNotFound,
    AeneasNotFound,
}

impl ResolveError {
    /// What to tell the user.
    pub fn message(&self) -> (text: String)
        ensures
            text@ == match self {
                ResolveError::CharonNotFound =>
                    "Could not find Charon binary. Please provide the path to the binary using the `--charon-path` flag or the `CHARON_PATH` environment variable."@,
                ResolveError::AeneasNotFound =>
                    "Could not find Aeneas binary. Please provide the path to the binary using the `--aeneas-path` flag or the `AENEAS_PATH` environment variable."@,
            },
    {
        match self {
            ResolveError::CharonNotFound => String::from_str(
                "Could not find Charon binary. Please provide the path to the binary using the `--charon-path` flag or the `CHARON_PATH` environment variable.",
            ),
            ResolveError::AeneasNotFound => String::from_str(
                "Could not find Aeneas binary. Please provide the path to the binary using the `--aeneas-path` flag or the `AENEAS_PATH` environment variable.",
            ),
        }
    }
}

/// The path that wins: the first of the four places that names one.
pub open spec fn first_named(
    cli: Option<Seq<char>>,
    environment: Option<Seq<char>>,
    configuration: Option<Seq<char>>,
    current_dir: Option<Seq<char>>,
) -> Option<Seq<char>> {
    if cli is Some {
        cli
    } else if environment is Some {
        environment
    } else if configuration is Some {
        configuration
    } else {
        current_dir
    }
}

/// The text of a path where there is one.
pub open spec fn named(place: Option<String>) -> Option<Seq<char>> {
    match place {
        Some(path) => Some(path@),
        None => None,
    }
}

/// Picks the first place that names a path.
fn resolve_path(
    cli: &Option<String>,
    environment: Option<String>,
    configuration: Option<String>,
    current_dir: Option<String>,
) -> (path: Option<String>)
    ensures
        named(path) == first_named(
            named(*cli),
            named(environment),
            named(configuration),
            named(current_dir),
        ),
{
    if let Some(path) = cli {
        return Some(path.clone());
    }
    if environment.is_some() {
        return environment;
    }
    if configuration.is_some() {
        return configuration;
    }
    current_dir
}

/// Resolves the path of the Charon binary.  `cli_charon_path` is what the command
/// line gave, `environment` the value of `CHARON_PATH`, `configuration` the path in
/// the configuration file, and `current_dir` the file `charon` in the current
/// directory where there is one.
pub fn resolve_charon_path(
    cli_charon_path: &Option<String>,
    environment: Option<String>,
    configuration: Option<String>,
    current_dir: Option<String>,
) -> (path: Result<String, ResolveError>)
    ensures
        match first_named(
            named(*cli_charon_path),
            named(environment),
            named(configuration),
            named(current_dir),
        ) {
            Some(found) => path matches Ok(chosen) && chosen@ == found,
            None => path == Err::<String, ResolveError>(ResolveError::CharonNotFound),
        },
{
    match resolve_path(cli_charon_path, environment, configuration, current_dir) {
        Some(path) => Ok(path),
        None => Err(ResolveError::CharonNotFound),
    }
}

/// Resolves the path of the Aeneas binary.  `cli_aeneas_path` is what the command
/// line gave, `environment` the value of `AENEAS_PATH`, `configuration` the path in
/// the configuration file, and `current_dir` the file `aeneas` in the current
/// directory where there is one.
pub fn resolve_aeneas_path(
    cli_aeneas_path: &Option<String>,
    environment: Option<String>,
    configuration: Option<String>,
    current_dir: Option<String>,
) -> (path: Result<String, ResolveError>)
    ensures
        match first_named(
            named(*cli_aeneas_path),
            named(environment),
            named(configuration),
            named(current_dir),
        ) {
            Some(found) => path matches Ok(chosen) && chosen@ == found,
            None => path == Err::<String, ResolveError>(ResolveError::AeneasNotFound),
        },
{
    match resolve_path(cli_aeneas_path, environment, configuration, current_dir) {
        Some(path) => Ok(path),
        None => Err(ResolveError::AeneasNotFound),
    }
}

} // verus!
