use cargo_sideload::version::Version;

fn ver(major: u64, minor: u64, patch: u64, pre: &str, build: &str) -> Version {
    Version {
        major,
        minor,
        patch,
        pre: pre.as_bytes().to_vec(),
        build: build.as_bytes().to_vec(),
    }
}

#[test]
fn numeric_triple_orders_versions() {
    assert_eq!(ver(1, 0, 0, "", "").compare(&ver(1, 1, 0, "", "")), -1);
    assert_eq!(ver(1, 1, 0, "", "").compare(&ver(1, 0, 0, "", "")), 1);
    assert_eq!(ver(2, 0, 0, "", "").compare(&ver(1, 9, 9, "", "")), 1);
    assert_eq!(ver(1, 0, 0, "", "").compare(&ver(1, 0, 0, "", "")), 0);
}

#[test]
fn pre_release_precedence_chain() {
    // 1.0.0-alpha < 1.0.0-alpha.1 < 1.0.0-alpha.beta < 1.0.0-beta
    // < 1.0.0-beta.2 < 1.0.0-beta.11 < 1.0.0-rc.1 < 1.0.0
    let chain = [
        ver(1, 0, 0, "alpha", ""),
        ver(1, 0, 0, "alpha.1", ""),
        ver(1, 0, 0, "alpha.beta", ""),
        ver(1, 0, 0, "beta", ""),
        ver(1, 0, 0, "beta.2", ""),
        ver(1, 0, 0, "beta.11", ""),
        ver(1, 0, 0, "rc.1", ""),
        ver(1, 0, 0, "", ""),
    ];
    for i in 0..chain.len() - 1 {
        assert_eq!(chain[i].compare(&chain[i + 1]), -1);
        assert_eq!(chain[i + 1].compare(&chain[i]), 1);
    }
}

#[test]
fn build_metadata_breaks_ties() {
    // no build metadata ranks below any build metadata, then lexically
    assert_eq!(ver(1, 20, 0, "", "").compare(&ver(1, 20, 0, "", "bc17664")), -1);
    assert_eq!(ver(1, 20, 0, "", "bc17664").compare(&ver(1, 20, 0, "", "c144a98")), -1);
    assert_eq!(ver(1, 20, 0, "", "bc17664").compare(&ver(1, 20, 0, "", "bc17664")), 0);
}

#[test]
fn numeric_build_identifiers_compare_by_value_then_raw_length() {
    // 0 < 00 < 1 < 01 < 001 < 2 < 10
    let chain = ["0", "00", "1", "01", "001", "2", "10"];
    for i in 0..chain.len() - 1 {
        assert_eq!(ver(1, 0, 0, "", chain[i]).compare(&ver(1, 0, 0, "", chain[i + 1])), -1);
    }
}

#[test]
fn pre_release_ranks_below_release() {
    assert!(ver(1, 0, 0, "alpha", "").precedes(&ver(1, 0, 0, "", "")));
    assert!(!ver(1, 0, 0, "", "").precedes(&ver(1, 0, 0, "alpha", "")));
}

#[test]
fn same_as_is_exact_equality() {
    assert!(ver(1, 2, 3, "rc.1", "abc").same_as(&ver(1, 2, 3, "rc.1", "abc")));
    assert!(!ver(1, 2, 3, "rc.1", "abc").same_as(&ver(1, 2, 3, "rc.1", "abd")));
    assert!(!ver(1, 2, 3, "rc.1", "").same_as(&ver(1, 2, 3, "rc.2", "")));
    assert!(!ver(1, 2, 3, "", "").same_as(&ver(1, 2, 4, "", "")));
}

#[test]
fn duplicate_keeps_every_field() {
    let v = ver(4, 5, 6, "beta.7", "build.8");
    let d = v.duplicate();
    assert_eq!(d.major, 4);
    assert_eq!(d.minor, 5);
    assert_eq!(d.patch, 6);
    assert_eq!(d.pre, b"beta.7".to_vec());
    assert_eq!(d.build, b"build.8".to_vec());
}

#[test]
fn version_text_renders_canonically() {
    assert_eq!(ver(1, 2, 3, "", "").version_text(), "1.2.3");
    assert_eq!(ver(10, 0, 250, "", "").version_text(), "10.0.250");
    assert_eq!(ver(1, 0, 0, "rc.1", "").version_text(), "1.0.0-rc.1");
    assert_eq!(ver(1, 0, 0, "alpha", "b42").version_text(), "1.0.0-alpha+b42");
    assert_eq!(ver(0, 0, 0, "", "x").version_text(), "0.0.0+x");
}
