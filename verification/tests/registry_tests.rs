use cargo_sideload::config::{Config, NamedRegistry, RegistryConfig};
use cargo_sideload::errors::{ConfigIssue, SideloadError};
use cargo_sideload::registry::{
    archive_file_name, cache_target_path, locate, package_index_path, registry_directory,
};

fn config_with(alias: &str, index: Option<&str>) -> Config {
    Config {
        default_registry: None,
        registries: vec![NamedRegistry {
            alias: alias.to_string(),
            config: RegistryConfig {
                index: index.map(|u| u.to_string()),
                headers: Vec::new(),
            },
        }],
    }
}

#[test]
fn registry_directory_is_host_dash_hash() {
    let dir = registry_directory("https://git.example.com/index", "0123456789abcdef").unwrap();
    assert_eq!(dir, "git.example.com-0123456789abcdef");
}

#[test]
fn registry_directory_without_host_uses_empty_ident() {
    let dir = registry_directory("file:///tmp/index", "0123456789abcdef").unwrap();
    assert_eq!(dir, "-0123456789abcdef");
}

#[test]
fn registry_directory_rejects_bad_urls() {
    assert!(registry_directory("not a url", "0123456789abcdef").is_none());
}

#[test]
fn locate_builds_the_identity() {
    let config = config_with("private", Some("https://git.example.com/index"));
    let id = locate(&config, "private", "0123456789abcdef").unwrap();
    assert_eq!(id.alias, "private");
    assert_eq!(id.index_url, "https://git.example.com/index");
    assert_eq!(id.fingerprint, "git.example.com-0123456789abcdef");
}

#[test]
fn locate_rejects_unknown_alias() {
    let config = config_with("private", Some("https://git.example.com/index"));
    match locate(&config, "nonexistent", "0123456789abcdef") {
        Err(e) => assert_eq!(e, SideloadError::Configuration(ConfigIssue::UnknownAlias)),
        Ok(_) => panic!("expected a configuration error"),
    }
}

#[test]
fn locate_rejects_missing_index() {
    let config = config_with("private", None);
    match locate(&config, "private", "0123456789abcdef") {
        Err(e) => assert_eq!(e, SideloadError::Configuration(ConfigIssue::MissingIndex)),
        Ok(_) => panic!("expected a configuration error"),
    }
}

#[test]
fn locate_rejects_unparsable_index_url() {
    let config = config_with("private", Some("::::"));
    match locate(&config, "private", "0123456789abcdef") {
        Err(e) => assert_eq!(e, SideloadError::Configuration(ConfigIssue::BadIndexUrl)),
        Ok(_) => panic!("expected a configuration error"),
    }
}

#[test]
fn same_index_url_yields_the_same_fingerprint() {
    let a = registry_directory("https://git.example.com/index", "0123456789abcdef").unwrap();
    let b = registry_directory("https://git.example.com/index", "0123456789abcdef").unwrap();
    assert_eq!(a, b);
}

#[test]
fn package_index_path_follows_the_index_layout() {
    assert_eq!(package_index_path("a"), "1/a");
    assert_eq!(package_index_path("ab"), "2/ab");
    assert_eq!(package_index_path("abc"), "3/a/abc");
    assert_eq!(package_index_path("serde"), "se/rd/serde");
    assert_eq!(package_index_path("tokio-util"), "to/ki/tokio-util");
}

#[test]
fn archive_file_name_is_name_dash_version() {
    assert_eq!(archive_file_name("serde", "1.0.0"), "serde-1.0.0.crate");
}

#[test]
fn cache_target_path_is_root_fingerprint_file() {
    assert_eq!(
        cache_target_path(
            "/home/user/.cargo/registry/cache",
            "git.example.com-0123456789abcdef",
            "serde-1.0.0.crate",
        ),
        "/home/user/.cargo/registry/cache/git.example.com-0123456789abcdef/serde-1.0.0.crate",
    );
}
