use cargo_sideload::errors::SideloadError;
use cargo_sideload::package_entry::{create_package_entries, entries_for, parse_record};
use cargo_sideload::resolver::latest;

fn blob_of(parts: &[&[u8]]) -> Vec<u8> {
    let mut blob: Vec<u8> = Vec::new();
    for (i, part) in parts.iter().enumerate() {
        if i > 0 {
            blob.push(0);
        }
        blob.extend_from_slice(part);
    }
    blob
}

#[test]
fn record_parsing_tolerates_filler() {
    let blob = blob_of(&[
        br#"{"name":"a","vers":"1.0.0","cksum":"x","yanked":false}"#,
        b"stray-filler-bytes",
        br#"{"name":"a","vers":"1.1.0","cksum":"y","yanked":false}"#,
    ]);
    let entries = create_package_entries(&blob);
    assert_eq!(entries.len(), 2);
    assert_eq!(entries[0].name, "a");
    assert_eq!(entries[0].checksum, "x");
    assert!(!entries[0].yanked);
    assert_eq!(entries[0].version.major, 1);
    assert_eq!(entries[0].version.minor, 0);
    assert_eq!(entries[0].version.patch, 0);

    let best = latest(&entries).unwrap();
    assert_eq!(best.version.major, 1);
    assert_eq!(best.version.minor, 1);
    assert_eq!(best.version.patch, 0);
    assert_eq!(best.checksum, "y");
}

#[test]
fn yanked_flag_is_read() {
    let blob = blob_of(&[br#"{"name":"pkg","vers":"0.3.1","cksum":"c","yanked":true}"#]);
    let entries = create_package_entries(&blob);
    assert_eq!(entries.len(), 1);
    assert!(entries[0].yanked);
}

#[test]
fn records_with_bad_versions_are_discarded() {
    let blob = blob_of(&[
        br#"{"name":"a","vers":"not-a-version","cksum":"x","yanked":false}"#,
        br#"{"name":"a","vers":"2.0.0","cksum":"y","yanked":false}"#,
    ]);
    let entries = create_package_entries(&blob);
    assert_eq!(entries.len(), 1);
    assert_eq!(entries[0].version.major, 2);
}

#[test]
fn records_with_missing_fields_are_discarded() {
    let blob = blob_of(&[
        br#"{"name":"a","vers":"1.0.0"}"#,
        br#"{"vers":"1.0.0","cksum":"x","yanked":false}"#,
        br#"{"name":"a","vers":"1.0.0","cksum":"x","yanked":"no"}"#,
    ]);
    let entries = create_package_entries(&blob);
    assert_eq!(entries.len(), 0);
}

#[test]
fn empty_blob_yields_no_entries() {
    let entries = create_package_entries(&Vec::new());
    assert_eq!(entries.len(), 0);
}

#[test]
fn pre_release_text_reaches_the_version() {
    let blob = br#"{"name":"a","vers":"1.0.0-alpha.1+b7","cksum":"x","yanked":false}"#.to_vec();
    let entries = create_package_entries(&blob);
    assert_eq!(entries.len(), 1);
    assert_eq!(entries[0].version.pre, b"alpha.1".to_vec());
    assert_eq!(entries[0].version.build, b"b7".to_vec());
}

#[test]
fn parse_record_accepts_one_record() {
    let rec = br#"{"name":"solo","vers":"0.1.0","cksum":"z","yanked":false}"#.to_vec();
    let entry = parse_record(&rec).unwrap();
    assert_eq!(entry.name, "solo");
    assert_eq!(entry.version.major, 0);
    assert_eq!(entry.version.minor, 1);
    assert!(parse_record(&b"not json".to_vec()).is_none());
}

#[test]
fn entries_for_distinguishes_missing_blob_from_empty_blob() {
    match entries_for(None) {
        Err(e) => assert_eq!(e, SideloadError::NotFound),
        Ok(_) => panic!("a missing blob file must be the not-found error"),
    }
    match entries_for(Some(b"filler only".to_vec())) {
        Ok(entries) => assert_eq!(entries.len(), 0),
        Err(_) => panic!("an existing blob of filler is not an error"),
    }
}
