use std::str::FromStr;

use cargo_sideload::config::{combined_headers, Config, NamedRegistry, RegistryConfig};
use cargo_sideload::header::Header;

#[test]
fn test_header() {
    let header = Header::from_str("Authorization: Bearer abcd1234").unwrap();
    assert_eq!(header.name, "Authorization");
    assert_eq!(header.value, "Bearer abcd1234");

    assert!(Header::from_str("Authorization").is_err());
    assert!(Header::from_str("").is_err());
}

#[test]
fn test_config() {
    // The original reads this configuration from a TOML file; the file
    // handling lives with the binary, so the same values are built here
    // directly and the same lookups are checked.
    let config = Config {
        default_registry: Some("test_registry".to_string()),
        registries: vec![
            NamedRegistry {
                alias: "test_registry".to_string(),
                config: RegistryConfig {
                    index: None,
                    headers: vec![Header::from_str("Authorization: Blah abcd1234").unwrap()],
                },
            },
            NamedRegistry {
                alias: "other_registry".to_string(),
                config: RegistryConfig {
                    index: None,
                    headers: vec![
                        Header::from_str("PRIVATE-KEY: abcdef").unwrap(),
                        Header::from_str("Some-Other-Header: And its value").unwrap(),
                    ],
                },
            },
        ],
    };

    assert_eq!(config.default_registry, Some("test_registry".to_string()));

    let test_registry_config = config.registry("test_registry").unwrap();

    let first_header = &test_registry_config.headers[0];
    assert_eq!(first_header.name, "Authorization");
    assert_eq!(first_header.value, "Blah abcd1234");

    let other_registry_config = config.registry("other_registry").unwrap();
    let header = &other_registry_config.headers[0];
    assert_eq!(header.name, "PRIVATE-KEY");
    assert_eq!(header.value, "abcdef");

    let second_header = &other_registry_config.headers[1];
    assert_eq!(second_header.name, "Some-Other-Header");
    assert_eq!(second_header.value, "And its value");

    assert!(config.registry("missing_registry").is_none());
}

#[test]
fn header_value_is_left_trimmed() {
    let header = Header::parse("X-Key:    padded value ").unwrap();
    assert_eq!(header.name, "X-Key");
    assert_eq!(header.value, "padded value ");
}

#[test]
fn header_splits_at_first_colon_only() {
    let header = Header::parse("Authorization: Basic dXNlcjpwYXNz").unwrap();
    assert_eq!(header.name, "Authorization");
    assert_eq!(header.value, "Basic dXNlcjpwYXNz");
}

#[test]
fn header_empty_name_and_value_are_allowed() {
    let header = Header::parse(":").unwrap();
    assert_eq!(header.name, "");
    assert_eq!(header.value, "");
}

#[test]
fn configured_headers_come_before_extra_headers() {
    let config_headers = vec![Header::parse("A: 1").unwrap(), Header::parse("B: 2").unwrap()];
    let extra = vec![Header::parse("A: 3").unwrap()];
    let all = combined_headers(&config_headers, &extra);
    assert_eq!(all.len(), 3);
    assert_eq!(all[0].name, "A");
    assert_eq!(all[0].value, "1");
    assert_eq!(all[1].name, "B");
    assert_eq!(all[2].name, "A");
    assert_eq!(all[2].value, "3");
}

#[test]
fn rendering_then_parsing_gives_the_header_back() {
    let header = Header::parse("X-Token: abc123").unwrap();
    let text = header.to_text();
    assert_eq!(text, "X-Token: abc123");
    let again = Header::parse(&text).unwrap();
    assert_eq!(again.name, header.name);
    assert_eq!(again.value, header.value);
}
