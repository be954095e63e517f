use vstd::prelude::*;

use crate::config::{found_at, Config};
use crate::errors::{ConfigIssue, SideloadError};
use vstd::string::StrSliceExecFns;
use vstd::string::StringExecFns;

verus! {

/// Where a registry lives: its alias, its index URL, and the fingerprint
/// that names its cache directory.
pub struct RegistryIdentity {
    pub alias: String,
    pub index_url: String,
    pub fingerprint: String,
}

/// What `url::Url::parse` and `Url::host_str` make of a text: `None` when
/// the text is not a valid URL, otherwise the host it names, if any.
pub uninterp spec fn url_host_of(s: Seq<char>) -> Option<Option<Seq<char>>>;

/// Relies on `url::Url::parse` and `url::Url::host_str`: whether the text
/// is a valid URL and which host it names depend on the text alone.
#[verifier::external_body]
fn url_host(s: &str) -> (r: Option<Option<String>>)
    ensures
        r is None <==> url_host_of(s@) is None,
        r matches Some(None) ==> url_host_of(s@) == Some(None::<Seq<char>>),
        r matches Some(Some(hs)) ==> url_host_of(s@) == Some(Some(hs@)),
{
    let u = match url::Url::parse(s) {
        Ok(u) => u,
        Err(_) => return None,
    };
    Some(u.host_str().map(|h| h.to_string()))
}

/// The host part of a fingerprint: the URL's host, or empty when the URL
/// names none.
pub open spec fn host_or_empty(h: Option<Seq<char>>) -> Seq<char> {
    match h {
        Some(s) => s,
        None => Seq::empty(),
    }
}

/// The name of a registry's directory in the host manager's cache:
/// `<host>-<hash>`, where the hash is the host manager's own short hash
/// of the registry source.
pub open spec fn fingerprint_of(host: Option<Seq<char>>, hash: Seq<char>) -> Seq<char> {
    host_or_empty(host) + "-"@ + hash
}

/// The cache directory name for a registry index URL. The hash is the
/// host package manager's short hash of the registry source, supplied by
/// the integration, since only the host manager computes it. `None` when
/// the index URL does not parse.
pub fn registry_directory(index_url: &str, registry_hash: &str) -> (r: Option<String>)
    ensures
        (r is Some) <==> url_host_of(index_url@) is Some,
        r matches Some(d) ==> d@ == fingerprint_of(url_host_of(index_url@)->Some_0, registry_hash@),
{
    let host = match url_host(index_url) {
        Some(h) => h,
        None => {
            return None;
        },
    };
    let mut s: String = match host {
        Some(h) => h,
        None => String::new(),
    };
    s.append("-");
    s.append(registry_hash);
    Some(s)
}

/// Resolve a registry alias against the configuration: find the alias,
/// demand an index URL, and derive the cache fingerprint. Fails before
/// any network activity when the alias is unknown, no index URL is
/// configured for it, or the index URL does not parse.
pub fn locate(config: &Config, alias: &str, registry_hash: &str) -> (r: Result<
    RegistryIdentity,
    SideloadError,
>)
    ensures
        !(exists|i: int| found_at(config.registries@, alias@, i)) ==> r == Err::<
            RegistryIdentity,
            SideloadError,
        >(SideloadError::Configuration(ConfigIssue::UnknownAlias)),
        forall|i: int|
            found_at(config.registries@, alias@, i)
                && config.registries@[i].config.index is None ==> r == Err::<
                RegistryIdentity,
                SideloadError,
            >(SideloadError::Configuration(ConfigIssue::MissingIndex)),
        forall|i: int|
            #![trigger found_at(config.registries@, alias@, i)]
            found_at(config.registries@, alias@, i) ==> (config.registries@[i].config.index matches
            Some(u) && url_host_of(u@) is None ==> r == Err::<RegistryIdentity, SideloadError>(
                SideloadError::Configuration(ConfigIssue::BadIndexUrl),
            )),
        forall|i: int|
            #![trigger found_at(config.registries@, alias@, i)]
            found_at(config.registries@, alias@, i) ==> (config.registries@[i].config.index matches
            Some(u) ==> (url_host_of(u@) is Some ==> r is Ok && r->Ok_0.alias@ == alias@
                && r->Ok_0.index_url@ == u@ && r->Ok_0.fingerprint@ == fingerprint_of(
                url_host_of(u@)->Some_0,
                registry_hash@,
            ))),
{
    let reg = match config.registry(alias) {
        Some(reg) => reg,
        None => {
            return Err(SideloadError::Configuration(ConfigIssue::UnknownAlias));
        },
    };
    let index_url: &String = match &reg.index {
        Some(u) => u,
        None => {
            return Err(SideloadError::Configuration(ConfigIssue::MissingIndex));
        },
    };
    let fingerprint = match registry_directory(index_url.as_str(), registry_hash) {
        Some(d) => d,
        None => {
            return Err(SideloadError::Configuration(ConfigIssue::BadIndexUrl));
        },
    };
    Ok(RegistryIdentity { alias: alias.to_owned(), index_url: index_url.clone(), fingerprint })
}

/// The relative path of a package's record file in the registry index:
/// short names get a length directory, longer names are fanned out by
/// their first four characters, the layout the host manager's index uses.
pub open spec fn dep_path_of(name: Seq<char>) -> Seq<char> {
    if name.len() == 1 {
        "1/"@ + name
    } else if name.len() == 2 {
        "2/"@ + name
    } else if name.len() == 3 {
        "3/"@ + name.take(1) + "/"@ + name
    } else {
        name.take(2) + "/"@ + name.subrange(2, 4) + "/"@ + name
    }
}

/// The relative path of a package's record file in the registry index.
pub fn package_index_path(name: &str) -> (r: String)
    requires
        name@.len() >= 1,
    ensures
        r@ == dep_path_of(name@),
{
    let n = name.unicode_len();
    if n == 1 {
        let mut s = String::from_str("1/");
        s.append(name);
        s
    } else if n == 2 {
        let mut s = String::from_str("2/");
        s.append(name);
        s
    } else if n == 3 {
        let mut s = String::from_str("3/");
        s.append(name.substring_char(0, 1));
        s.append("/");
        s.append(name);
        s
    } else {
        let mut s = String::new();
        s.append(name.substring_char(0, 2));
        s.append("/");
        s.append(name.substring_char(2, 4));
        s.append("/");
        s.append(name);
        proof {
            assert(s@ =~= dep_path_of(name@));
        }
        s
    }
}

/// The archive file name the host manager's cache expects for one
/// package version: `<name>-<version>.crate`.
pub fn archive_file_name(name: &str, version: &str) -> (r: String)
    ensures
        r@ == name@ + "-"@ + version@ + ".crate"@,
{
    let mut s = name.to_owned();
    s.append("-");
    s.append(version);
    s.append(".crate");
    s
}

/// The absolute cache target path for an archive:
/// `<cache_root>/<fingerprint>/<file_name>`. The layout is the host
/// manager's; this client never invents its own.
pub fn cache_target_path(cache_root: &str, fingerprint: &str, file_name: &str) -> (r: String)
    ensures
        r@ == cache_root@ + "/"@ + fingerprint@ + "/"@ + file_name@,
{
    let mut s = cache_root.to_owned();
    s.append("/");
    s.append(fingerprint);
    s.append("/");
    s.append(file_name);
    s
}

} // verus!
