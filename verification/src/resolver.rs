use vstd::prelude::*;

use crate::package_entry::{entry_views, EntryView, PackageEntry};
use crate::version::{
    lemma_version_order_total, lemma_version_order_trans, ver_le, VersionView,
};

verus! {

/// The non-yanked entry with the highest version, scanning left to right
/// and keeping the later entry on ties; `None` when every entry is yanked
/// or there are none.
pub open spec fn latest_spec(s: Seq<EntryView>) -> Option<EntryView>
    decreases s.len(),
{
    if s.len() == 0 {
        None
    } else {
        let prev = latest_spec(s.drop_last());
        let e = s.last();
        if e.yanked {
            prev
        } else {
            match prev {
                None => Some(e),
                Some(p) => if ver_le(p.version, e.version) {
                    Some(e)
                } else {
                    Some(p)
                },
            }
        }
    }
}

/// There is no latest entry exactly when every entry is yanked (which
/// holds trivially of no entries at all).
pub proof fn lemma_latest_none_iff_all_yanked(s: Seq<EntryView>)
    ensures
        latest_spec(s) is None <==> (forall|i: int| 0 <= i < s.len() ==> s[i].yanked),
    decreases s.len(),
{
    if s.len() > 0 {
        lemma_latest_none_iff_all_yanked(s.drop_last());
        assert forall|i: int| 0 <= i < s.len() - 1 implies s.drop_last()[i] == s[i] by {}
        if latest_spec(s) is None {
            assert forall|i: int| 0 <= i < s.len() implies s[i].yanked by {
                if i < s.len() - 1 {
                    assert(s.drop_last()[i] == s[i]);
                }
            }
        }
    }
}

/// The latest entry is one of the entries, is not yanked, and no
/// non-yanked entry has a higher version.
pub proof fn lemma_latest_max(s: Seq<EntryView>)
    ensures
        latest_spec(s) matches Some(m) ==> {
            &&& exists|i: int| 0 <= i < s.len() && s[i] == m
            &&& !m.yanked
            &&& forall|i: int|
                0 <= i < s.len() && !s[i].yanked ==> ver_le(#[trigger] s[i].version, m.version)
        },
    decreases s.len(),
{
    if s.len() > 0 {
        lemma_latest_max(s.drop_last());
        let e = s.last();
        if latest_spec(s) is Some {
            let m = latest_spec(s)->Some_0;
            match latest_spec(s.drop_last()) {
                None => {
                    lemma_latest_none_iff_all_yanked(s.drop_last());
                    assert(s[s.len() - 1] == m);
                    assert forall|i: int|
                        0 <= i < s.len() && !s[i].yanked implies ver_le(
                        #[trigger] s[i].version,
                        m.version,
                    ) by {
                        if i < s.len() - 1 {
                            assert(s.drop_last()[i] == s[i]);
                        } else {
                            lemma_version_order_total(m.version, m.version);
                        }
                    }
                },
                Some(p) => {
                    assert(exists|i: int| 0 <= i < s.len() - 1 && s.drop_last()[i] == p);
                    assert forall|i: int|
                        0 <= i < s.len() && !s[i].yanked implies ver_le(
                        #[trigger] s[i].version,
                        m.version,
                    ) by {
                        lemma_version_order_total(p.version, e.version);
                        if i < s.len() - 1 {
                            assert(s.drop_last()[i] == s[i]);
                            assert(ver_le(s[i].version, p.version));
                            if !e.yanked && ver_le(p.version, e.version) {
                                lemma_version_order_trans(s[i].version, p.version, e.version);
                            }
                        } else {
                            lemma_version_order_total(e.version, e.version);
                        }
                    }
                    if !e.yanked && ver_le(p.version, e.version) {
                        assert(s[s.len() - 1] == m);
                    } else {
                        let j = choose|i: int| 0 <= i < s.len() - 1 && s.drop_last()[i] == p;
                        assert(s[j] == p);
                    }
                },
            }
        }
    }
}

/// Which entries there are decides the latest version: two entry lists
/// with the same entries, in any order, agree on whether a latest entry
/// exists and on its version.
pub proof fn lemma_latest_reorder(s1: Seq<EntryView>, s2: Seq<EntryView>)
    requires
        s1.to_multiset() == s2.to_multiset(),
    ensures
        latest_spec(s1) is Some <==> latest_spec(s2) is Some,
        latest_spec(s1) is Some ==> latest_spec(s1)->Some_0.version == latest_spec(
            s2,
        )->Some_0.version,
{
    broadcast use vstd::seq_lib::group_to_multiset_ensures;

    assert forall|e: EntryView| s1.contains(e) implies s2.contains(e) by {
        assert(s1.to_multiset().count(e) > 0);
    }
    assert forall|e: EntryView| s2.contains(e) implies s1.contains(e) by {
        assert(s2.to_multiset().count(e) > 0);
    }
    lemma_latest_none_iff_all_yanked(s1);
    lemma_latest_none_iff_all_yanked(s2);
    lemma_latest_max(s1);
    lemma_latest_max(s2);
    match (latest_spec(s1), latest_spec(s2)) {
        (Some(a), Some(b)) => {
            assert(s1.contains(a));
            assert(s2.contains(b));
            assert(s2.contains(a));
            assert(s1.contains(b));
            let i = choose|i: int| 0 <= i < s1.len() && s1[i] == b;
            assert(ver_le(b.version, a.version));
            let j = choose|j: int| 0 <= j < s2.len() && s2[j] == a;
            assert(ver_le(a.version, b.version));
            lemma_version_order_total(a.version, b.version);
        },
        (None, None) => {},
        (Some(a), None) => {
            assert(s1.contains(a));
            assert(false);
        },
        (None, Some(b)) => {
            assert(s2.contains(b));
            assert(false);
        },
    }
}

/// The non-yanked entry with the highest version; ties go to the entry
/// later in the list. `None` when every entry is yanked or there are none.
pub fn latest(entries: &Vec<PackageEntry>) -> (r: Option<&PackageEntry>)
    ensures
        match r {
            Some(e) => latest_spec(entry_views(entries@)) == Some(e@),
            None => latest_spec(entry_views(entries@)) is None,
        },
{
    let ghost views = entry_views(entries@);
    let mut best: Option<usize> = None;
    let mut i: usize = 0;
    proof {
        assert(views.take(0) =~= Seq::<EntryView>::empty());
    }
    while i < entries.len()
        invariant
            0 <= i <= entries@.len(),
            views == entry_views(entries@),
            views.len() == entries@.len(),
            match best {
                None => latest_spec(views.take(i as int)) is None,
                Some(b) => b < i && latest_spec(views.take(i as int)) == Some(views[b as int]),
            },
        decreases entries@.len() - i,
    {
        proof {
            assert(views.take(i + 1).drop_last() =~= views.take(i as int));
            assert(views.take(i + 1).last() == entries@[i as int]@);
        }
        if !entries[i].yanked {
            match best {
                None => {
                    best = Some(i);
                },
                Some(b) => {
                    let c: i8 = entries[b].version.compare(&entries[i].version);
                    if c <= 0 {
                        best = Some(i);
                    }
                },
            }
        }
        i = i + 1;
    }
    proof {
        assert(views.take(entries@.len() as int) =~= views);
    }
    match best {
        None => None,
        Some(b) => Some(&entries[b]),
    }
}

/// Every yanked entry, in parse order.
pub fn all_yanked(entries: &Vec<PackageEntry>) -> (r: Vec<PackageEntry>)
    ensures
        entry_views(r@) == entry_views(entries@).filter(|e: EntryView| e.yanked),
{
    let ghost views = entry_views(entries@);
    let mut out: Vec<PackageEntry> = Vec::new();
    let mut i: usize = 0;
    proof {
        reveal(Seq::filter);
        assert(views.take(0) =~= Seq::<EntryView>::empty());
        assert(entry_views(out@) =~= views.take(0).filter(|e: EntryView| e.yanked));
    }
    while i < entries.len()
        invariant
            0 <= i <= entries@.len(),
            views == entry_views(entries@),
            views.len() == entries@.len(),
            entry_views(out@) == views.take(i as int).filter(|e: EntryView| e.yanked),
        decreases entries@.len() - i,
    {
        proof {
            reveal(Seq::filter);
            assert(views.take(i + 1).drop_last() =~= views.take(i as int));
            assert(views.take(i + 1).last() == entries@[i as int]@);
        }
        if entries[i].yanked {
            let ghost prev = out@;
            out.push(entries[i].duplicate());
            proof {
                assert(out@.drop_last() =~= prev);
                assert(entry_views(out@) =~= entry_views(prev).push(entries@[i as int]@));
            }
        }
        i = i + 1;
    }
    proof {
        assert(views.take(entries@.len() as int) =~= views);
    }
    out
}

/// Every non-yanked entry, in parse order (not sorted).
pub fn all_published(entries: &Vec<PackageEntry>) -> (r: Vec<PackageEntry>)
    ensures
        entry_views(r@) == entry_views(entries@).filter(|e: EntryView| !e.yanked),
{
    let ghost views = entry_views(entries@);
    let mut out: Vec<PackageEntry> = Vec::new();
    let mut i: usize = 0;
    proof {
        reveal(Seq::filter);
        assert(views.take(0) =~= Seq::<EntryView>::empty());
        assert(entry_views(out@) =~= views.take(0).filter(|e: EntryView| !e.yanked));
    }
    while i < entries.len()
        invariant
            0 <= i <= entries@.len(),
            views == entry_views(entries@),
            views.len() == entries@.len(),
            entry_views(out@) == views.take(i as int).filter(|e: EntryView| !e.yanked),
        decreases entries@.len() - i,
    {
        proof {
            reveal(Seq::filter);
            assert(views.take(i + 1).drop_last() =~= views.take(i as int));
            assert(views.take(i + 1).last() == entries@[i as int]@);
        }
        if !entries[i].yanked {
            let ghost prev = out@;
            out.push(entries[i].duplicate());
            proof {
                assert(out@.drop_last() =~= prev);
                assert(entry_views(out@) =~= entry_views(prev).push(entries@[i as int]@));
            }
        }
        i = i + 1;
    }
    proof {
        assert(views.take(entries@.len() as int) =~= views);
    }
    out
}

/// The yanked and the published entries partition the entries exactly:
/// every entry lands in exactly one of the two, with its multiplicity
/// kept.
pub proof fn lemma_partition(s: Seq<EntryView>)
    ensures
        s.filter(|e: EntryView| e.yanked).to_multiset().add(
            s.filter(|e: EntryView| !e.yanked).to_multiset(),
        ) =~= s.to_multiset(),
    decreases s.len(),
{
    broadcast use vstd::seq_lib::group_to_multiset_ensures;

    reveal(Seq::filter);
    if s.len() == 0 {
        assert(s.filter(|e: EntryView| e.yanked) =~= Seq::<EntryView>::empty());
        assert(s.filter(|e: EntryView| !e.yanked) =~= Seq::<EntryView>::empty());
        assert(s =~= Seq::<EntryView>::empty());
    } else {
        let t = s.drop_last();
        let e = s.last();
        lemma_partition(t);
        assert(t.push(e) =~= s);
        assert(t.push(e).to_multiset() =~= t.to_multiset().insert(e));
        if e.yanked {
            assert(s.filter(|e: EntryView| e.yanked) == t.filter(|e: EntryView| e.yanked).push(e));
            assert(s.filter(|e: EntryView| !e.yanked) == t.filter(|e: EntryView| !e.yanked));
            assert(t.filter(|e: EntryView| e.yanked).push(e).to_multiset() =~= t.filter(
                |e: EntryView| e.yanked,
            ).to_multiset().insert(e));
        } else {
            assert(s.filter(|e: EntryView| e.yanked) == t.filter(|e: EntryView| e.yanked));
            assert(s.filter(|e: EntryView| !e.yanked) == t.filter(|e: EntryView| !e.yanked).push(
                e,
            ));
            assert(t.filter(|e: EntryView| !e.yanked).push(e).to_multiset() =~= t.filter(
                |e: EntryView| !e.yanked,
            ).to_multiset().insert(e));
        }
    }
}

/// How a resolved package relates to the registry index.
#[derive(Clone, Copy, Debug, PartialEq, Eq, Structural)]
pub enum OutdatedStatus {
    /// The resolved version is the latest non-yanked version.
    UpToDate,
    /// A different (or no) latest version exists: an update is available.
    UpdateAvailable,
    /// The resolved version itself is flagged yanked in the index.
    YankedInIndex,
    /// The index holds no entries for the package at all.
    NotFound,
}

/// The resolved version appears in the entries flagged yanked.
pub open spec fn resolved_yanked_in(s: Seq<EntryView>, v: VersionView) -> bool {
    exists|i: int| 0 <= i < s.len() && s[i].yanked && s[i].version == v
}

/// The outdated answer for one package: with no entries at all it is
/// `NotFound`; a resolved version that the index marks yanked is reported
/// as `YankedInIndex`; otherwise the package is up to date exactly when
/// the resolved version equals the latest non-yanked version, under
/// strict version equality.
pub open spec fn outdated_spec(s: Seq<EntryView>, v: VersionView) -> OutdatedStatus {
    if s.len() == 0 {
        OutdatedStatus::NotFound
    } else if resolved_yanked_in(s, v) {
        OutdatedStatus::YankedInIndex
    } else {
        match latest_spec(s) {
            Some(m) => if m.version == v {
                OutdatedStatus::UpToDate
            } else {
                OutdatedStatus::UpdateAvailable
            },
            None => OutdatedStatus::UpdateAvailable,
        }
    }
}

/// Compare a resolved package's version against the index entries.
pub fn outdated(resolved: &crate::version::Version, entries: &Vec<PackageEntry>) -> (r:
    OutdatedStatus)
    ensures
        r == outdated_spec(entry_views(entries@), resolved@),
{
    let ghost views = entry_views(entries@);
    if entries.len() == 0 {
        return OutdatedStatus::NotFound;
    }
    let mut i: usize = 0;
    while i < entries.len()
        invariant
            0 <= i <= entries@.len(),
            views == entry_views(entries@),
            views.len() == entries@.len(),
            forall|j: int| 0 <= j < i ==> !(views[j].yanked && views[j].version == resolved@),
        decreases entries@.len() - i,
    {
        if entries[i].yanked && entries[i].version.same_as(resolved) {
            assert(views[i as int].yanked && views[i as int].version == resolved@);
            return OutdatedStatus::YankedInIndex;
        }
        i = i + 1;
    }
    assert(!resolved_yanked_in(views, resolved@));
    match latest(entries) {
        Some(m) => {
            if m.version.same_as(resolved) {
                OutdatedStatus::UpToDate
            } else {
                OutdatedStatus::UpdateAvailable
            }
        },
        None => OutdatedStatus::UpdateAvailable,
    }
}

} // verus!
