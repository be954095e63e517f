use cargo_sideload::package_entry::PackageEntry;
use cargo_sideload::resolver::{all_published, all_yanked, latest, outdated, OutdatedStatus};
use cargo_sideload::version::Version;

fn entry(name: &str, major: u64, minor: u64, patch: u64, yanked: bool) -> PackageEntry {
    PackageEntry {
        name: name.to_string(),
        version: Version { major, minor, patch, pre: Vec::new(), build: Vec::new() },
        checksum: format!("{}-{}.{}.{}", name, major, minor, patch),
        yanked,
    }
}

#[test]
fn latest_is_none_exactly_when_all_yanked_or_empty() {
    assert!(latest(&Vec::new()).is_none());
    let all_yanked_entries = vec![entry("a", 1, 0, 0, true), entry("a", 1, 1, 0, true)];
    assert!(latest(&all_yanked_entries).is_none());
    let one_live = vec![entry("a", 1, 0, 0, true), entry("a", 0, 9, 0, false)];
    assert!(latest(&one_live).is_some());
}

#[test]
fn latest_is_the_maximum_non_yanked_version() {
    let entries = vec![
        entry("a", 1, 0, 0, false),
        entry("a", 2, 0, 0, true),
        entry("a", 1, 5, 3, false),
        entry("a", 1, 2, 0, false),
    ];
    let best = latest(&entries).unwrap();
    // the yanked 2.0.0 must not win
    assert_eq!(best.version.major, 1);
    assert_eq!(best.version.minor, 5);
    assert_eq!(best.version.patch, 3);
}

#[test]
fn latest_version_is_stable_under_reordering() {
    let a = vec![entry("a", 1, 0, 0, false), entry("a", 1, 5, 3, false), entry("a", 2, 0, 0, true)];
    let b = vec![entry("a", 2, 0, 0, true), entry("a", 1, 5, 3, false), entry("a", 1, 0, 0, false)];
    let la = latest(&a).unwrap();
    let lb = latest(&b).unwrap();
    assert!(la.version.same_as(&lb.version));
}

#[test]
fn yanked_and_published_partition_the_entries() {
    let entries = vec![
        entry("a", 1, 0, 0, false),
        entry("a", 1, 1, 0, true),
        entry("a", 1, 2, 0, false),
        entry("a", 1, 3, 0, true),
        entry("a", 1, 4, 0, true),
    ];
    let yanked = all_yanked(&entries);
    let published = all_published(&entries);
    assert_eq!(yanked.len() + published.len(), entries.len());
    // parse order is kept
    assert_eq!(yanked[0].version.minor, 1);
    assert_eq!(yanked[1].version.minor, 3);
    assert_eq!(yanked[2].version.minor, 4);
    assert_eq!(published[0].version.minor, 0);
    assert_eq!(published[1].version.minor, 2);
    for e in &yanked {
        assert!(e.yanked);
    }
    for e in &published {
        assert!(!e.yanked);
    }
}

#[test]
fn outdated_reports_update_available() {
    let entries = vec![entry("a", 1, 0, 0, false), entry("a", 1, 1, 0, false)];
    let resolved = Version { major: 1, minor: 0, patch: 0, pre: Vec::new(), build: Vec::new() };
    assert_eq!(outdated(&resolved, &entries), OutdatedStatus::UpdateAvailable);
}

#[test]
fn outdated_reports_up_to_date() {
    let entries = vec![entry("a", 1, 0, 0, false), entry("a", 1, 1, 0, false)];
    let resolved = Version { major: 1, minor: 1, patch: 0, pre: Vec::new(), build: Vec::new() };
    assert_eq!(outdated(&resolved, &entries), OutdatedStatus::UpToDate);
}

#[test]
fn outdated_reports_yanked_distinctly() {
    let entries = vec![entry("a", 1, 0, 0, true), entry("a", 1, 1, 0, false)];
    let resolved = Version { major: 1, minor: 0, patch: 0, pre: Vec::new(), build: Vec::new() };
    assert_eq!(outdated(&resolved, &entries), OutdatedStatus::YankedInIndex);
}

#[test]
fn outdated_reports_not_found_on_empty_index() {
    let resolved = Version { major: 1, minor: 0, patch: 0, pre: Vec::new(), build: Vec::new() };
    assert_eq!(outdated(&resolved, &Vec::new()), OutdatedStatus::NotFound);
}

#[test]
fn outdated_with_all_yanked_signals_update() {
    let entries = vec![entry("a", 1, 0, 0, true), entry("a", 1, 1, 0, true)];
    let resolved = Version { major: 0, minor: 9, patch: 0, pre: Vec::new(), build: Vec::new() };
    assert_eq!(outdated(&resolved, &entries), OutdatedStatus::UpdateAvailable);
}
