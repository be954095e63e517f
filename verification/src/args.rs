use vstd::prelude::*;

use crate::header::Header;

verus! {

// The command-line surface as plain data. The argument parsing itself is
// terminal I/O and lives with the binary; these are the values the
// commands consume.

/// Arguments every command shares.
pub struct CargoSideloadCommonArgs {
    /// Name of the registry as it is defined in the host manager's
    /// configuration.
    pub registry: String,
    /// Path to the manifest of the project the command runs on.
    pub path: String,
    /// The packages to restrict the command to, when given.
    pub packages: Option<Vec<String>>,
    /// Silence the host manager's own output.
    pub quiet: bool,
}

/// Arguments of the fetch command.
pub struct CargoSideloadFetchArgs {
    pub common: CargoSideloadCommonArgs,
    /// Headers to add to the download request, parsed from `Name: Value`.
    pub headers: Vec<Header>,
    /// Delete any existing archive before downloading its replacement.
    pub force: bool,
}

/// Arguments of the list command.
pub struct CargoSideloadListArgs {
    /// Name of the package whose published versions are listed.
    pub name: String,
    /// Name of the registry as it is defined in the host manager's
    /// configuration.
    pub registry: String,
    /// Only report the latest version of the package.
    pub latest: bool,
    /// Only report version numbers.
    pub version_only: bool,
    /// Silence the host manager's own output.
    pub quiet: bool,
}

/// Arguments of the outdated command.
pub struct CargoSideloadOutdatedArgs {
    pub common: CargoSideloadCommonArgs,
    /// Exit with an error when any dependency is out of date.
    pub error: bool,
}

/// One command invocation.
pub enum CargoSideloadArgs {
    /// Download every dependency pinned to the registry into the local
    /// cache.
    Fetch(CargoSideloadFetchArgs),
    /// List the published versions of one package.
    List(CargoSideloadListArgs),
    /// List the dependencies that have newer versions available.
    Outdated(CargoSideloadOutdatedArgs),
}

/// An earlier, single-command argument surface, kept for compatibility.
pub struct Opts {
    pub registry: String,
    pub path: String,
    pub access_token: Option<String>,
    pub packages: Option<Vec<String>>,
}

} // verus!
