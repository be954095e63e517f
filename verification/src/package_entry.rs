use vstd::prelude::*;

use crate::errors::SideloadError;
use crate::version::{
    byte_views, parse_version, sem_version_of, split_bytes, split_sep, Version, VersionView,
};

verus! {

/// The four fields a version record of the registry index carries, with
/// the version still as text.
pub struct RawRecord {
    pub name: String,
    pub vers: String,
    pub checksum: String,
    pub yanked: bool,
}

/// The mathematical shape of a raw record.
#[verifier::ext_equal]
pub ghost struct RawRecordView {
    pub name: Seq<char>,
    pub vers: Seq<char>,
    pub checksum: Seq<char>,
    pub yanked: bool,
}

impl View for RawRecord {
    type V = RawRecordView;

    open spec fn view(&self) -> RawRecordView {
        RawRecordView {
            name: self.name@,
            vers: self.vers@,
            checksum: self.checksum@,
            yanked: self.yanked,
        }
    }
}

/// What `serde_json` reads out of one candidate record: `None` when the
/// bytes are not a JSON object carrying the four record fields.
pub uninterp spec fn raw_record_of(s: Seq<u8>) -> Option<RawRecordView>;

/// Relies on `serde_json::from_slice` and the field accessors of
/// `serde_json::Value`: which record fields a candidate blob holds
/// depends on its bytes alone.
#[verifier::external_body]
fn decode_record(bytes: &Vec<u8>) -> (r: Option<RawRecord>)
    ensures
        r matches Some(rec) ==> raw_record_of(bytes@) == Some(rec@),
        r is None ==> raw_record_of(bytes@) is None,
{
    let v: serde_json::Value = match serde_json::from_slice(bytes.as_slice()) {
        Ok(v) => v,
        Err(_) => return None,
    };
    let name = v.get("name")?.as_str()?.to_string();
    let vers = v.get("vers")?.as_str()?.to_string();
    let checksum = v.get("cksum")?.as_str()?.to_string();
    let yanked = v.get("yanked")?.as_bool()?;
    Some(RawRecord { name, vers, checksum, yanked })
}

/// One published version of a package in a registry.
pub struct PackageEntry {
    pub name: String,
    pub version: Version,
    pub checksum: String,
    pub yanked: bool,
}

/// The mathematical shape of a package entry.
#[verifier::ext_equal]
pub ghost struct EntryView {
    pub name: Seq<char>,
    pub version: VersionView,
    pub checksum: Seq<char>,
    pub yanked: bool,
}

impl View for PackageEntry {
    type V = EntryView;

    open spec fn view(&self) -> EntryView {
        EntryView {
            name: self.name@,
            version: self.version@,
            checksum: self.checksum@,
            yanked: self.yanked,
        }
    }
}

/// The views of a sequence of entries.
pub open spec fn entry_views(s: Seq<PackageEntry>) -> Seq<EntryView> {
    s.map_values(|e: PackageEntry| e@)
}

/// The entry one candidate blob yields: its record fields with the
/// version parsed, or nothing when the record or its version text does
/// not decode.
pub open spec fn entry_of(s: Seq<u8>) -> Option<EntryView> {
    match raw_record_of(s) {
        Some(rec) => match sem_version_of(rec.vers) {
            Some(v) => Some(
                EntryView { name: rec.name, version: v, checksum: rec.checksum, yanked: rec.yanked },
            ),
            None => None,
        },
        None => None,
    }
}

/// The entries a list of candidate blobs yields, keeping those that
/// decode, in order.
pub open spec fn some_entries(cands: Seq<Seq<u8>>) -> Seq<EntryView>
    decreases cands.len(),
{
    if cands.len() == 0 {
        seq![]
    } else {
        let rest = some_entries(cands.drop_first());
        match entry_of(cands[0]) {
            Some(e) => seq![e] + rest,
            None => rest,
        }
    }
}

/// The entries a raw per-package index blob yields: one candidate
/// between each pair of separator bytes, keeping the records that decode.
pub open spec fn entries_of_blob(blob: Seq<u8>) -> Seq<EntryView> {
    some_entries(split_sep(blob, 0))
}

/// Decode one candidate record into a package entry.
pub fn parse_record(bytes: &Vec<u8>) -> (r: Option<PackageEntry>)
    ensures
        r matches Some(e) ==> entry_of(bytes@) == Some(e@),
        r is None ==> entry_of(bytes@) is None,
{
    let rec = match decode_record(bytes) {
        Some(rec) => rec,
        None => {
            return None;
        },
    };
    let version = match parse_version(rec.vers.as_str()) {
        Some(v) => v,
        None => {
            return None;
        },
    };
    Some(PackageEntry { name: rec.name, version, checksum: rec.checksum, yanked: rec.yanked })
}

/// Parse a raw per-package index blob. The blob is a concatenation of
/// individually serialized version records with embedded NUL separator
/// bytes and stray filler between them; candidates that do not decode are
/// discarded rather than failing the parse.
pub fn create_package_entries(blob: &Vec<u8>) -> (r: Vec<PackageEntry>)
    ensures
        entry_views(r@) == entries_of_blob(blob@),
{
    let cands = split_bytes(blob, 0);
    let mut out: Vec<PackageEntry> = Vec::new();
    let mut i: usize = 0;
    proof {
        assert(byte_views(cands@).skip(0) =~= byte_views(cands@));
        assert(entry_views(out@) + some_entries(byte_views(cands@)) =~~= entries_of_blob(blob@));
    }
    while i < cands.len()
        invariant
            0 <= i <= cands@.len(),
            byte_views(cands@) == split_sep(blob@, 0),
            entry_views(out@) + some_entries(byte_views(cands@).skip(i as int)) == entries_of_blob(
                blob@,
            ),
        decreases cands@.len() - i,
    {
        let ghost tail = byte_views(cands@).skip(i as int);
        proof {
            assert(tail[0] == cands@[i as int]@);
            assert(tail.drop_first() =~= byte_views(cands@).skip(i + 1));
        }
        match parse_record(&cands[i]) {
            Some(e) => {
                out.push(e);
                proof {
                    assert(entry_views(out@) =~= entry_views(out@.drop_last()) + seq![
                        out@.last()@,
                    ]);
                    assert(entry_views(out@) + some_entries(byte_views(cands@).skip(i + 1))
                        =~~= entries_of_blob(blob@));
                }
            },
            None => {},
        }
        i = i + 1;
    }
    proof {
        assert(some_entries(byte_views(cands@).skip(i as int)) =~= Seq::<EntryView>::empty());
        assert(entry_views(out@) =~~= entries_of_blob(blob@));
    }
    out
}

/// The Package Entry Store's answer, given the raw blob as the index
/// mirror holds it: a blob file that does not exist at all is the one
/// "not found" error; any blob that exists yields the entries that
/// decode, however much filler surrounds them.
pub fn entries_for(blob: Option<Vec<u8>>) -> (r: Result<Vec<PackageEntry>, SideloadError>)
    ensures
        blob matches Some(b) ==> (r matches Ok(es) && entry_views(es@) == entries_of_blob(b@)),
        blob is None ==> r == Err::<Vec<PackageEntry>, SideloadError>(SideloadError::NotFound),
{
    match blob {
        Some(b) => Ok(create_package_entries(&b)),
        None => Err(SideloadError::NotFound),
    }
}

impl PackageEntry {
    /// A copy of this entry with the same fields.
    pub fn duplicate(&self) -> (r: PackageEntry)
        ensures
            r@ == self@,
    {
        PackageEntry {
            name: self.name.clone(),
            version: self.version.duplicate(),
            checksum: self.checksum.clone(),
            yanked: self.yanked,
        }
    }
}

} // verus!
