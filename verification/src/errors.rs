use vstd::prelude::*;

verus! {

/// What went wrong inside configuration handling, before any network
/// activity.
#[derive(Clone, Copy, Debug, PartialEq, Eq, Structural)]
pub enum ConfigIssue {
    /// The requested registry alias is not present in the configuration.
    UnknownAlias,
    /// The alias is known but no index URL is configured for it.
    MissingIndex,
    /// The configured index URL could not be understood by the host
    /// package manager.
    BadIndexUrl,
    /// An authentication header string held no `name: value` separator.
    MalformedHeader,
}

/// The error kinds the library reports. Every internal failure is mapped
/// to one of these at the component boundary.
#[derive(Clone, Copy, Debug, PartialEq, Eq, Structural)]
pub enum SideloadError {
    /// Fatal before any network activity: bad alias, bad header, bad URL.
    Configuration(ConfigIssue),
    /// DNS/connect failure or a non-success HTTP status. The status is the
    /// HTTP code for a rejected request, and 0 when no response arrived.
    Transport(u16),
    /// The package (or its index record) is absent from the registry index.
    NotFound,
    /// The archive failed the host manager's unpack/checksum step after it
    /// was written; the bad archive has been deleted.
    Validation,
}

} // verus!
