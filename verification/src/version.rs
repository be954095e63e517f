use vstd::prelude::*;

verus! {

// A version compares by its numeric triple, then by pre-release precedence,
// then by build metadata as a final tie-break, exactly as the `semver`
// crate orders `semver::Version` values. Identifiers are the dot-separated
// fields of the pre-release or build text, kept as raw bytes.

/// An ASCII decimal digit.
pub open spec fn is_digit(b: u8) -> bool {
    48 <= b && b <= 57
}

/// An identifier made only of digits; such identifiers compare numerically.
pub open spec fn is_numeric_id(s: Seq<u8>) -> bool {
    forall|i: int| 0 <= i < s.len() ==> is_digit(s[i])
}

/// Plain byte-wise lexicographic three-way comparison: -1, 0 or 1.
pub open spec fn cmp_lex(a: Seq<u8>, b: Seq<u8>) -> int
    decreases a.len(),
{
    if a.len() == 0 && b.len() == 0 {
        0
    } else if a.len() == 0 {
        -1
    } else if b.len() == 0 {
        1
    } else if a[0] < b[0] {
        -1
    } else if a[0] > b[0] {
        1
    } else {
        cmp_lex(a.drop_first(), b.drop_first())
    }
}

/// How many leading `0` bytes a sequence has.
pub open spec fn count_zeros(s: Seq<u8>) -> int
    decreases s.len(),
{
    if s.len() > 0 && s[0] == 48 {
        1 + count_zeros(s.drop_first())
    } else {
        0
    }
}

/// The sequence with its leading `0` bytes removed.
pub open spec fn trim_zeros(s: Seq<u8>) -> Seq<u8> {
    s.skip(count_zeros(s))
}

/// Three-way comparison of two pre-release identifiers: numeric identifiers
/// compare numerically (equal-length digit strings compare byte-wise),
/// numeric ranks below alphanumeric, alphanumeric compares byte-wise.
pub open spec fn cmp_pre_id(a: Seq<u8>, b: Seq<u8>) -> int {
    if is_numeric_id(a) && is_numeric_id(b) {
        if a.len() < b.len() {
            -1
        } else if a.len() > b.len() {
            1
        } else {
            cmp_lex(a, b)
        }
    } else if is_numeric_id(a) {
        -1
    } else if is_numeric_id(b) {
        1
    } else {
        cmp_lex(a, b)
    }
}

/// Three-way comparison of two build-metadata identifiers: numeric ones
/// compare by their value (leading zeros stripped), with the raw length as
/// a tie-break so that the order stays total, e.g. `0 < 00 < 1 < 01`.
pub open spec fn cmp_build_id(a: Seq<u8>, b: Seq<u8>) -> int {
    if is_numeric_id(a) && is_numeric_id(b) {
        let ta = trim_zeros(a);
        let tb = trim_zeros(b);
        if ta.len() < tb.len() {
            -1
        } else if ta.len() > tb.len() {
            1
        } else if cmp_lex(ta, tb) != 0 {
            cmp_lex(ta, tb)
        } else if a.len() < b.len() {
            -1
        } else if a.len() > b.len() {
            1
        } else {
            0
        }
    } else if is_numeric_id(a) {
        -1
    } else if is_numeric_id(b) {
        1
    } else {
        cmp_lex(a, b)
    }
}

/// Identifier lists compare field by field; a list that runs out first
/// ranks lower.
pub open spec fn cmp_pre_ids(a: Seq<Seq<u8>>, b: Seq<Seq<u8>>) -> int
    decreases a.len(),
{
    if a.len() == 0 && b.len() == 0 {
        0
    } else if a.len() == 0 {
        -1
    } else if b.len() == 0 {
        1
    } else if cmp_pre_id(a[0], b[0]) != 0 {
        cmp_pre_id(a[0], b[0])
    } else {
        cmp_pre_ids(a.drop_first(), b.drop_first())
    }
}

/// Build-metadata identifier lists, field by field.
pub open spec fn cmp_build_ids(a: Seq<Seq<u8>>, b: Seq<Seq<u8>>) -> int
    decreases a.len(),
{
    if a.len() == 0 && b.len() == 0 {
        0
    } else if a.len() == 0 {
        -1
    } else if b.len() == 0 {
        1
    } else if cmp_build_id(a[0], b[0]) != 0 {
        cmp_build_id(a[0], b[0])
    } else {
        cmp_build_ids(a.drop_first(), b.drop_first())
    }
}

/// Pre-release precedence: a version without pre-release identifiers ranks
/// above any version that has them.
pub open spec fn cmp_pre(a: Seq<Seq<u8>>, b: Seq<Seq<u8>>) -> int {
    if a.len() == 0 && b.len() == 0 {
        0
    } else if a.len() == 0 {
        1
    } else if b.len() == 0 {
        -1
    } else {
        cmp_pre_ids(a, b)
    }
}

/// The segments of `s` between occurrences of the separator byte, in
/// order; empty text has one empty segment, as `str::split` has it.
pub open spec fn split_sep(s: Seq<u8>, sep: u8) -> Seq<Seq<u8>>
    decreases s.len(),
{
    if s.len() == 0 {
        seq![Seq::<u8>::empty()]
    } else if s[0] == sep {
        seq![Seq::<u8>::empty()] + split_sep(s.drop_first(), sep)
    } else {
        let rest = split_sep(s.drop_first(), sep);
        seq![seq![s[0]] + rest[0]] + rest.drop_first()
    }
}

/// The identifier fields of a dot-separated text; empty text has none.
pub open spec fn split_ids(s: Seq<u8>) -> Seq<Seq<u8>> {
    if s.len() == 0 {
        seq![]
    } else {
        split_sep(s, 46)
    }
}

/// The byte sequences a vector of byte vectors holds.
pub open spec fn byte_views(vs: Seq<Vec<u8>>) -> Seq<Seq<u8>> {
    vs.map_values(|v: Vec<u8>| v@)
}

/// The mathematical shape of a version: the numeric triple and the two
/// identifier lists.
#[verifier::ext_equal]
pub ghost struct VersionView {
    pub major: int,
    pub minor: int,
    pub patch: int,
    pub pre: Seq<Seq<u8>>,
    pub build: Seq<Seq<u8>>,
}

/// Total three-way comparison of versions: numeric triple first, then
/// pre-release precedence, then build metadata as the final tie-break.
pub open spec fn cmp_version(a: VersionView, b: VersionView) -> int {
    if a.major != b.major {
        if a.major < b.major {
            -1
        } else {
            1
        }
    } else if a.minor != b.minor {
        if a.minor < b.minor {
            -1
        } else {
            1
        }
    } else if a.patch != b.patch {
        if a.patch < b.patch {
            -1
        } else {
            1
        }
    } else if cmp_pre(a.pre, b.pre) != 0 {
        cmp_pre(a.pre, b.pre)
    } else {
        cmp_build_ids(a.build, b.build)
    }
}

pub open spec fn ver_lt(a: VersionView, b: VersionView) -> bool {
    cmp_version(a, b) < 0
}

pub open spec fn ver_le(a: VersionView, b: VersionView) -> bool {
    cmp_version(a, b) <= 0
}

/// A semantic version: numeric triple, plus the raw dot-separated
/// pre-release and build-metadata text as bytes (empty when absent).
pub struct Version {
    pub major: u64,
    pub minor: u64,
    pub patch: u64,
    pub pre: Vec<u8>,
    pub build: Vec<u8>,
}

impl View for Version {
    type V = VersionView;

    open spec fn view(&self) -> VersionView {
        VersionView {
            major: self.major as int,
            minor: self.minor as int,
            patch: self.patch as int,
            pre: split_ids(self.pre@),
            build: split_ids(self.build@),
        }
    }
}

/// Lexicographic comparison is a total order: the result is a sign, it
/// flips when the arguments swap, and only equal sequences compare equal.
proof fn lemma_lex_laws(a: Seq<u8>, b: Seq<u8>)
    ensures
        -1 <= cmp_lex(a, b) <= 1,
        cmp_lex(a, b) == -cmp_lex(b, a),
        cmp_lex(a, b) == 0 <==> a == b,
    decreases a.len() + b.len(),
{
    if a.len() > 0 && b.len() > 0 && a[0] == b[0] {
        lemma_lex_laws(a.drop_first(), b.drop_first());
        if cmp_lex(a, b) == 0 {
            assert forall|i: int| 0 <= i < a.len() implies a[i] == b[i] by {
                if i > 0 {
                    assert(a[i] == a.drop_first()[i - 1]);
                    assert(b[i] == b.drop_first()[i - 1]);
                }
            }
            assert(a =~= b);
        }
        if a == b {
            assert(a.drop_first() =~= b.drop_first());
        }
    } else {
        if a == b && a.len() > 0 {
            assert(a[0] == b[0]);
        }
        if cmp_lex(a, b) == 0 {
            assert(a =~= b);
        }
    }
}

/// Lexicographic comparison is transitive.
proof fn lemma_lex_le_trans(a: Seq<u8>, b: Seq<u8>, c: Seq<u8>)
    requires
        cmp_lex(a, b) <= 0,
        cmp_lex(b, c) <= 0,
    ensures
        cmp_lex(a, c) <= 0,
    decreases a.len() + b.len() + c.len(),
{
    if a.len() > 0 && b.len() > 0 && c.len() > 0 && a[0] == b[0] && b[0] == c[0] {
        lemma_lex_le_trans(a.drop_first(), b.drop_first(), c.drop_first());
    }
}

/// Where the leading zeros of `s` end.
proof fn lemma_count_zeros(s: Seq<u8>)
    ensures
        0 <= count_zeros(s) <= s.len(),
        forall|j: int| 0 <= j < count_zeros(s) ==> s[j] == 48,
        count_zeros(s) < s.len() ==> s[count_zeros(s)] != 48,
    decreases s.len(),
{
    if s.len() > 0 && s[0] == 48 {
        lemma_count_zeros(s.drop_first());
        assert forall|j: int| 0 <= j < count_zeros(s) implies s[j] == 48 by {
            if j > 0 {
                assert(s.drop_first()[j - 1] == s[j]);
            }
        }
    }
}

/// Pre-release identifier comparison is a total order.
proof fn lemma_pre_id_laws(a: Seq<u8>, b: Seq<u8>)
    ensures
        -1 <= cmp_pre_id(a, b) <= 1,
        cmp_pre_id(a, b) == -cmp_pre_id(b, a),
        cmp_pre_id(a, b) == 0 <==> a == b,
{
    lemma_lex_laws(a, b);
    lemma_lex_laws(b, a);
}

/// Pre-release identifier comparison is transitive.
proof fn lemma_pre_id_le_trans(a: Seq<u8>, b: Seq<u8>, c: Seq<u8>)
    requires
        cmp_pre_id(a, b) <= 0,
        cmp_pre_id(b, c) <= 0,
    ensures
        cmp_pre_id(a, c) <= 0,
{
    lemma_lex_laws(a, b);
    lemma_lex_laws(b, c);
    lemma_lex_laws(a, c);
    if is_numeric_id(a) && is_numeric_id(b) && is_numeric_id(c) {
        if a.len() == b.len() && b.len() == c.len() {
            lemma_lex_le_trans(a, b, c);
        }
    } else if !is_numeric_id(a) && !is_numeric_id(b) && !is_numeric_id(c) {
        lemma_lex_le_trans(a, b, c);
    }
}

/// Build identifier comparison is a total order.
proof fn lemma_build_id_laws(a: Seq<u8>, b: Seq<u8>)
    ensures
        -1 <= cmp_build_id(a, b) <= 1,
        cmp_build_id(a, b) == -cmp_build_id(b, a),
        cmp_build_id(a, b) == 0 <==> a == b,
{
    lemma_lex_laws(trim_zeros(a), trim_zeros(b));
    lemma_lex_laws(trim_zeros(b), trim_zeros(a));
    lemma_lex_laws(a, b);
    lemma_lex_laws(b, a);
    lemma_count_zeros(a);
    lemma_count_zeros(b);
    if is_numeric_id(a) && is_numeric_id(b) && cmp_build_id(a, b) == 0 {
        // equal trimmed text and equal raw length force equal zero counts,
        // so the raw identifiers agree position by position
        assert(trim_zeros(a) == trim_zeros(b));
        assert(trim_zeros(a).len() == a.len() - count_zeros(a));
        assert(count_zeros(a) == count_zeros(b));
        assert forall|j: int| 0 <= j < a.len() implies a[j] == b[j] by {
            if j < count_zeros(a) {
            } else {
                assert(a[j] == trim_zeros(a)[j - count_zeros(a)]);
                assert(b[j] == trim_zeros(b)[j - count_zeros(b)]);
            }
        }
        assert(a =~= b);
    }
    if a == b {
        assert(cmp_build_id(a, b) == 0);
    }
}

/// Build identifier comparison is transitive.
proof fn lemma_build_id_le_trans(a: Seq<u8>, b: Seq<u8>, c: Seq<u8>)
    requires
        cmp_build_id(a, b) <= 0,
        cmp_build_id(b, c) <= 0,
    ensures
        cmp_build_id(a, c) <= 0,
{
    lemma_lex_laws(trim_zeros(a), trim_zeros(b));
    lemma_lex_laws(trim_zeros(b), trim_zeros(c));
    lemma_lex_laws(trim_zeros(a), trim_zeros(c));
    if is_numeric_id(a) && is_numeric_id(b) && is_numeric_id(c) {
        if trim_zeros(a).len() == trim_zeros(b).len() && trim_zeros(b).len() == trim_zeros(
            c,
        ).len() {
            lemma_lex_le_trans(trim_zeros(a), trim_zeros(b), trim_zeros(c));
        }
    } else if !is_numeric_id(a) && !is_numeric_id(b) && !is_numeric_id(c) {
        lemma_lex_le_trans(a, b, c);
    }
}

/// Pre-release identifier lists form a total order.
proof fn lemma_pre_ids_laws(a: Seq<Seq<u8>>, b: Seq<Seq<u8>>)
    ensures
        -1 <= cmp_pre_ids(a, b) <= 1,
        cmp_pre_ids(a, b) == -cmp_pre_ids(b, a),
        cmp_pre_ids(a, b) == 0 <==> a == b,
    decreases a.len() + b.len(),
{
    if a.len() > 0 && b.len() > 0 {
        lemma_pre_id_laws(a[0], b[0]);
        if cmp_pre_id(a[0], b[0]) == 0 {
            lemma_pre_ids_laws(a.drop_first(), b.drop_first());
            if cmp_pre_ids(a, b) == 0 {
                assert forall|i: int| 0 <= i < a.len() implies a[i] == b[i] by {
                    if i > 0 {
                        assert(a[i] == a.drop_first()[i - 1]);
                        assert(b[i] == b.drop_first()[i - 1]);
                    }
                }
                assert(a =~= b);
            }
            if a == b {
                assert(a.drop_first() =~= b.drop_first());
            }
        } else {
            if a == b {
                assert(a[0] == b[0]);
            }
        }
    } else {
        if cmp_pre_ids(a, b) == 0 {
            assert(a =~= b);
        }
    }
}

/// Pre-release identifier lists compare transitively.
proof fn lemma_pre_ids_le_trans(a: Seq<Seq<u8>>, b: Seq<Seq<u8>>, c: Seq<Seq<u8>>)
    requires
        cmp_pre_ids(a, b) <= 0,
        cmp_pre_ids(b, c) <= 0,
    ensures
        cmp_pre_ids(a, c) <= 0,
    decreases a.len() + b.len() + c.len(),
{
    if a.len() > 0 && b.len() > 0 && c.len() > 0 {
        lemma_pre_id_laws(a[0], b[0]);
        lemma_pre_id_laws(b[0], c[0]);
        lemma_pre_id_laws(a[0], c[0]);
        lemma_pre_id_le_trans(a[0], b[0], c[0]);
        if cmp_pre_id(a[0], b[0]) == 0 && cmp_pre_id(b[0], c[0]) == 0 {
            lemma_pre_ids_le_trans(a.drop_first(), b.drop_first(), c.drop_first());
        } else if cmp_pre_id(a[0], b[0]) == 0 {
            assert(a[0] == b[0]);
        } else if cmp_pre_id(b[0], c[0]) == 0 {
            assert(b[0] == c[0]);
        }
    }
}

/// Build identifier lists form a total order.
proof fn lemma_build_ids_laws(a: Seq<Seq<u8>>, b: Seq<Seq<u8>>)
    ensures
        -1 <= cmp_build_ids(a, b) <= 1,
        cmp_build_ids(a, b) == -cmp_build_ids(b, a),
        cmp_build_ids(a, b) == 0 <==> a == b,
    decreases a.len() + b.len(),
{
    if a.len() > 0 && b.len() > 0 {
        lemma_build_id_laws(a[0], b[0]);
        if cmp_build_id(a[0], b[0]) == 0 {
            lemma_build_ids_laws(a.drop_first(), b.drop_first());
            if cmp_build_ids(a, b) == 0 {
                assert forall|i: int| 0 <= i < a.len() implies a[i] == b[i] by {
                    if i > 0 {
                        assert(a[i] == a.drop_first()[i - 1]);
                        assert(b[i] == b.drop_first()[i - 1]);
                    }
                }
                assert(a =~= b);
            }
            if a == b {
                assert(a.drop_first() =~= b.drop_first());
            }
        } else {
            if a == b {
                assert(a[0] == b[0]);
            }
        }
    } else {
        if cmp_build_ids(a, b) == 0 {
            assert(a =~= b);
        }
    }
}

/// Build identifier lists compare transitively.
proof fn lemma_build_ids_le_trans(a: Seq<Seq<u8>>, b: Seq<Seq<u8>>, c: Seq<Seq<u8>>)
    requires
        cmp_build_ids(a, b) <= 0,
        cmp_build_ids(b, c) <= 0,
    ensures
        cmp_build_ids(a, c) <= 0,
    decreases a.len() + b.len() + c.len(),
{
    if a.len() > 0 && b.len() > 0 && c.len() > 0 {
        lemma_build_id_laws(a[0], b[0]);
        lemma_build_id_laws(b[0], c[0]);
        lemma_build_id_laws(a[0], c[0]);
        lemma_build_id_le_trans(a[0], b[0], c[0]);
        if cmp_build_id(a[0], b[0]) == 0 && cmp_build_id(b[0], c[0]) == 0 {
            lemma_build_ids_le_trans(a.drop_first(), b.drop_first(), c.drop_first());
        } else if cmp_build_id(a[0], b[0]) == 0 {
            assert(a[0] == b[0]);
        } else if cmp_build_id(b[0], c[0]) == 0 {
            assert(b[0] == c[0]);
        }
    }
}

/// Pre-release precedence is a total order.
proof fn lemma_cmp_pre_laws(a: Seq<Seq<u8>>, b: Seq<Seq<u8>>)
    ensures
        -1 <= cmp_pre(a, b) <= 1,
        cmp_pre(a, b) == -cmp_pre(b, a),
        cmp_pre(a, b) == 0 <==> a == b,
{
    lemma_pre_ids_laws(a, b);
    if a.len() == 0 && b.len() == 0 && cmp_pre(a, b) == 0 {
        assert(a =~= b);
    }
}

/// Pre-release precedence is transitive.
proof fn lemma_cmp_pre_le_trans(a: Seq<Seq<u8>>, b: Seq<Seq<u8>>, c: Seq<Seq<u8>>)
    requires
        cmp_pre(a, b) <= 0,
        cmp_pre(b, c) <= 0,
    ensures
        cmp_pre(a, c) <= 0,
{
    lemma_pre_ids_laws(a, b);
    lemma_pre_ids_laws(b, c);
    lemma_pre_ids_laws(a, c);
    if a.len() > 0 && b.len() > 0 && c.len() > 0 {
        lemma_pre_ids_le_trans(a, b, c);
    }
}

/// Version comparison is a total order: the result is a sign, it flips
/// when the arguments swap, and only equal versions compare equal.
pub proof fn lemma_version_order_total(a: VersionView, b: VersionView)
    ensures
        -1 <= cmp_version(a, b) <= 1,
        cmp_version(a, b) == -cmp_version(b, a),
        cmp_version(a, b) == 0 <==> a == b,
{
    lemma_cmp_pre_laws(a.pre, b.pre);
    lemma_build_ids_laws(a.build, b.build);
    if cmp_version(a, b) == 0 {
        assert(a =~= b);
    }
}

/// Version comparison is transitive.
pub proof fn lemma_version_order_trans(a: VersionView, b: VersionView, c: VersionView)
    requires
        ver_le(a, b),
        ver_le(b, c),
    ensures
        ver_le(a, c),
{
    if a.major == b.major && a.minor == b.minor && a.patch == b.patch && b.major == c.major
        && b.minor == c.minor && b.patch == c.patch {
        lemma_cmp_pre_laws(a.pre, b.pre);
        lemma_cmp_pre_laws(b.pre, c.pre);
        lemma_cmp_pre_laws(a.pre, c.pre);
        lemma_cmp_pre_le_trans(a.pre, b.pre, c.pre);
        if cmp_pre(a.pre, b.pre) == 0 && cmp_pre(b.pre, c.pre) == 0 {
            lemma_build_ids_le_trans(a.build, b.build, c.build);
        } else {
            // one pre-release step is strict, so the combined step is
            // strict too: equal endpoints would contradict it
            if cmp_pre(a.pre, c.pre) == 0 {
                assert(a.pre == c.pre);
            }
        }
    }
}

/// If `s[start..i)` holds no separator and position `i` is the end of the
/// text or a separator, the segments of the suffix at `start` are
/// `s[start..i)` followed by the segments of the suffix after position `i`.
proof fn lemma_split_segment(s: Seq<u8>, sep: u8, start: int, i: int)
    requires
        0 <= start <= i <= s.len(),
        forall|j: int| start <= j < i ==> s[j] != sep,
        i == s.len() || s[i] == sep,
    ensures
        i == s.len() ==> split_sep(s.skip(start), sep) == seq![s.subrange(start, i)],
        i < s.len() ==> split_sep(s.skip(start), sep) == seq![s.subrange(start, i)] + split_sep(
            s.skip(i + 1),
            sep,
        ),
    decreases i - start,
{
    let tail = s.skip(start);
    if start == i {
        if i == s.len() {
            assert(tail =~= Seq::<u8>::empty());
            assert(s.subrange(start, i) =~= Seq::<u8>::empty());
            assert(split_sep(tail, sep) =~~= seq![s.subrange(start, i)]);
        } else {
            assert(tail[0] == s[i]);
            assert(tail.drop_first() =~= s.skip(i + 1));
            assert(s.subrange(start, i) =~= Seq::<u8>::empty());
            assert(split_sep(tail, sep) =~~= seq![s.subrange(start, i)] + split_sep(
                s.skip(i + 1),
                sep,
            ));
        }
    } else {
        assert(tail.len() > 0 && tail[0] == s[start] && s[start] != sep);
        assert(tail.drop_first() =~= s.skip(start + 1));
        lemma_split_segment(s, sep, start + 1, i);
        let rest = split_sep(s.skip(start + 1), sep);
        assert(seq![tail[0]] + rest[0] =~= s.subrange(start, i));
        if i == s.len() {
            assert(split_sep(tail, sep) =~~= seq![s.subrange(start, i)]);
        } else {
            assert(rest.drop_first() =~= split_sep(s.skip(i + 1), sep));
            assert(split_sep(tail, sep) =~~= seq![s.subrange(start, i)] + split_sep(
                s.skip(i + 1),
                sep,
            ));
        }
    }
}

/// Split a byte vector at every occurrence of the separator.
pub(crate) fn split_bytes(v: &Vec<u8>, sep: u8) -> (r: Vec<Vec<u8>>)
    ensures
        byte_views(r@) == split_sep(v@, sep),
{
    let n: usize = v.len();
    let mut out: Vec<Vec<u8>> = Vec::new();
    let mut cur: Vec<u8> = Vec::new();
    let mut start: usize = 0;
    let mut i: usize = 0;
    proof {
        assert(v@.skip(0) =~= v@);
        assert(byte_views(out@) + split_sep(v@.skip(0), sep) =~~= split_sep(v@, sep));
    }
    while i < n
        invariant
            0 <= start <= i <= n,
            n == v@.len(),
            cur@ == v@.subrange(start as int, i as int),
            forall|j: int| start <= j < i ==> v@[j] != sep,
            byte_views(out@) + split_sep(v@.skip(start as int), sep) == split_sep(v@, sep),
        decreases n - i,
    {
        let b: u8 = v[i];
        if b == sep {
            proof {
                lemma_split_segment(v@, sep, start as int, i as int);
            }
            out.push(cur);
            cur = Vec::new();
            proof {
                assert(byte_views(out@) =~~= byte_views(out@.drop_last()) + seq![
                    v@.subrange(start as int, i as int),
                ]);
                assert(byte_views(out@) + split_sep(v@.skip(i + 1), sep) =~~= split_sep(v@, sep));
                assert(cur@ =~= v@.subrange(i + 1, i + 1));
            }
            start = i + 1;
        } else {
            cur.push(b);
            proof {
                assert(cur@ =~= v@.subrange(start as int, i + 1));
            }
        }
        i = i + 1;
    }
    proof {
        lemma_split_segment(v@, sep, start as int, n as int);
    }
    out.push(cur);
    proof {
        assert(byte_views(out@) =~~= byte_views(out@.drop_last()) + seq![
            v@.subrange(start as int, n as int),
        ]);
        assert(byte_views(out@) =~~= split_sep(v@, sep));
    }
    out
}

/// Split dot-separated identifier text; empty text has no identifiers.
pub(crate) fn split_ids_exec(v: &Vec<u8>) -> (r: Vec<Vec<u8>>)
    ensures
        byte_views(r@) == split_ids(v@),
{
    if v.len() == 0 {
        let r: Vec<Vec<u8>> = Vec::new();
        proof {
            assert(byte_views(r@) =~~= split_ids(v@));
        }
        r
    } else {
        split_bytes(v, 46)
    }
}

/// Lexicographic comparison of the suffixes of two byte vectors.
fn cmp_lex_from(a: &Vec<u8>, ai: usize, b: &Vec<u8>, bi: usize) -> (r: i8)
    requires
        ai <= a.len(),
        bi <= b.len(),
    ensures
        r as int == cmp_lex(a@.skip(ai as int), b@.skip(bi as int)),
{
    let mut i: usize = ai;
    let mut j: usize = bi;
    loop
        invariant
            ai <= i <= a@.len(),
            bi <= j <= b@.len(),
            cmp_lex(a@.skip(ai as int), b@.skip(bi as int)) == cmp_lex(
                a@.skip(i as int),
                b@.skip(j as int),
            ),
        decreases a@.len() - i,
    {
        if i == a.len() && j == b.len() {
            proof {
                assert(a@.skip(i as int) =~= Seq::<u8>::empty());
                assert(b@.skip(j as int) =~= Seq::<u8>::empty());
            }
            return 0;
        }
        if i == a.len() {
            proof {
                assert(a@.skip(i as int) =~= Seq::<u8>::empty());
                assert(b@.skip(j as int).len() > 0);
            }
            return -1;
        }
        if j == b.len() {
            proof {
                assert(b@.skip(j as int) =~= Seq::<u8>::empty());
                assert(a@.skip(i as int).len() > 0);
            }
            return 1;
        }
        let x: u8 = a[i];
        let y: u8 = b[j];
        proof {
            assert(a@.skip(i as int)[0] == a@[i as int]);
            assert(b@.skip(j as int)[0] == b@[j as int]);
        }
        if x < y {
            return -1;
        }
        if x > y {
            return 1;
        }
        proof {
            assert(a@.skip(i as int).drop_first() =~= a@.skip(i + 1));
            assert(b@.skip(j as int).drop_first() =~= b@.skip(j + 1));
        }
        i = i + 1;
        j = j + 1;
    }
}

/// Whether every byte of the vector is an ASCII digit.
fn is_numeric_bytes(v: &Vec<u8>) -> (r: bool)
    ensures
        r == is_numeric_id(v@),
{
    let mut i: usize = 0;
    while i < v.len()
        invariant
            0 <= i <= v@.len(),
            forall|j: int| 0 <= j < i ==> is_digit(v@[j]),
        decreases v@.len() - i,
    {
        let b: u8 = v[i];
        if b < 48 || b > 57 {
            assert(!is_digit(v@[i as int]));
            return false;
        }
        i = i + 1;
    }
    true
}

/// The zero count is where the scan for a non-zero byte stops.
proof fn lemma_count_zeros_at(s: Seq<u8>, k: int)
    requires
        0 <= k <= s.len(),
        forall|j: int| 0 <= j < k ==> s[j] == 48,
        k == s.len() || s[k] != 48,
    ensures
        count_zeros(s) == k,
    decreases k,
{
    if s.len() > 0 && s[0] == 48 {
        assert forall|j: int| 0 <= j < k - 1 implies s.drop_first()[j] == 48 by {
            assert(s.drop_first()[j] == s[j + 1]);
        }
        lemma_count_zeros_at(s.drop_first(), k - 1);
    }
}

/// Count the leading zero bytes.
fn count_zeros_exec(v: &Vec<u8>) -> (r: usize)
    ensures
        r as int == count_zeros(v@),
        r <= v.len(),
{
    let mut i: usize = 0;
    while i < v.len() && v[i] == 48
        invariant
            0 <= i <= v@.len(),
            forall|j: int| 0 <= j < i ==> v@[j] == 48,
        decreases v@.len() - i,
    {
        i = i + 1;
    }
    proof {
        lemma_count_zeros_at(v@, i as int);
    }
    i
}

/// Compare two pre-release identifiers.
fn cmp_pre_id_exec(a: &Vec<u8>, b: &Vec<u8>) -> (r: i8)
    ensures
        r as int == cmp_pre_id(a@, b@),
{
    let na = is_numeric_bytes(a);
    let nb = is_numeric_bytes(b);
    proof {
        assert(a@.skip(0) =~= a@);
        assert(b@.skip(0) =~= b@);
    }
    if na && nb {
        if a.len() < b.len() {
            -1
        } else if a.len() > b.len() {
            1
        } else {
            cmp_lex_from(a, 0, b, 0)
        }
    } else if na {
        -1
    } else if nb {
        1
    } else {
        cmp_lex_from(a, 0, b, 0)
    }
}

/// Compare two build-metadata identifiers.
fn cmp_build_id_exec(a: &Vec<u8>, b: &Vec<u8>) -> (r: i8)
    ensures
        r as int == cmp_build_id(a@, b@),
{
    let na = is_numeric_bytes(a);
    let nb = is_numeric_bytes(b);
    if na && nb {
        let ka = count_zeros_exec(a);
        let kb = count_zeros_exec(b);
        let ta_len: usize = a.len() - ka;
        let tb_len: usize = b.len() - kb;
        if ta_len < tb_len {
            -1
        } else if ta_len > tb_len {
            1
        } else {
            let c: i8 = cmp_lex_from(a, ka, b, kb);
            if c != 0 {
                c
            } else if a.len() < b.len() {
                -1
            } else if a.len() > b.len() {
                1
            } else {
                0
            }
        }
    } else if na {
        -1
    } else if nb {
        1
    } else {
        proof {
            assert(a@.skip(0) =~= a@);
            assert(b@.skip(0) =~= b@);
        }
        cmp_lex_from(a, 0, b, 0)
    }
}

/// Compare two pre-release identifier lists.
fn cmp_pre_ids_exec(a: &Vec<Vec<u8>>, b: &Vec<Vec<u8>>) -> (r: i8)
    ensures
        r as int == cmp_pre_ids(byte_views(a@), byte_views(b@)),
{
    let mut k: usize = 0;
    proof {
        assert(byte_views(a@).skip(0) =~= byte_views(a@));
        assert(byte_views(b@).skip(0) =~= byte_views(b@));
    }
    loop
        invariant
            k <= a@.len(),
            k <= b@.len(),
            cmp_pre_ids(byte_views(a@), byte_views(b@)) == cmp_pre_ids(
                byte_views(a@).skip(k as int),
                byte_views(b@).skip(k as int),
            ),
        decreases a@.len() - k,
    {
        if k == a.len() && k == b.len() {
            proof {
                assert(byte_views(a@).skip(k as int) =~= Seq::<Seq<u8>>::empty());
                assert(byte_views(b@).skip(k as int) =~= Seq::<Seq<u8>>::empty());
            }
            return 0;
        }
        if k == a.len() {
            proof {
                assert(byte_views(a@).skip(k as int) =~= Seq::<Seq<u8>>::empty());
                assert(byte_views(b@).skip(k as int).len() > 0);
            }
            return -1;
        }
        if k == b.len() {
            proof {
                assert(byte_views(b@).skip(k as int) =~= Seq::<Seq<u8>>::empty());
                assert(byte_views(a@).skip(k as int).len() > 0);
            }
            return 1;
        }
        let c: i8 = cmp_pre_id_exec(&a[k], &b[k]);
        proof {
            assert(byte_views(a@).skip(k as int)[0] == a@[k as int]@);
            assert(byte_views(b@).skip(k as int)[0] == b@[k as int]@);
        }
        if c != 0 {
            return c;
        }
        proof {
            assert(byte_views(a@).skip(k as int).drop_first() =~= byte_views(a@).skip(k + 1));
            assert(byte_views(b@).skip(k as int).drop_first() =~= byte_views(b@).skip(k + 1));
        }
        k = k + 1;
    }
}

/// Compare two build-metadata identifier lists.
fn cmp_build_ids_exec(a: &Vec<Vec<u8>>, b: &Vec<Vec<u8>>) -> (r: i8)
    ensures
        r as int == cmp_build_ids(byte_views(a@), byte_views(b@)),
{
    let mut k: usize = 0;
    proof {
        assert(byte_views(a@).skip(0) =~= byte_views(a@));
        assert(byte_views(b@).skip(0) =~= byte_views(b@));
    }
    loop
        invariant
            k <= a@.len(),
            k <= b@.len(),
            cmp_build_ids(byte_views(a@), byte_views(b@)) == cmp_build_ids(
                byte_views(a@).skip(k as int),
                byte_views(b@).skip(k as int),
            ),
        decreases a@.len() - k,
    {
        if k == a.len() && k == b.len() {
            proof {
                assert(byte_views(a@).skip(k as int) =~= Seq::<Seq<u8>>::empty());
                assert(byte_views(b@).skip(k as int) =~= Seq::<Seq<u8>>::empty());
            }
            return 0;
        }
        if k == a.len() {
            proof {
                assert(byte_views(a@).skip(k as int) =~= Seq::<Seq<u8>>::empty());
                assert(byte_views(b@).skip(k as int).len() > 0);
            }
            return -1;
        }
        if k == b.len() {
            proof {
                assert(byte_views(b@).skip(k as int) =~= Seq::<Seq<u8>>::empty());
                assert(byte_views(a@).skip(k as int).len() > 0);
            }
            return 1;
        }
        let c: i8 = cmp_build_id_exec(&a[k], &b[k]);
        proof {
            assert(byte_views(a@).skip(k as int)[0] == a@[k as int]@);
            assert(byte_views(b@).skip(k as int)[0] == b@[k as int]@);
        }
        if c != 0 {
            return c;
        }
        proof {
            assert(byte_views(a@).skip(k as int).drop_first() =~= byte_views(a@).skip(k + 1));
            assert(byte_views(b@).skip(k as int).drop_first() =~= byte_views(b@).skip(k + 1));
        }
        k = k + 1;
    }
}

/// A byte-for-byte copy of a vector.
pub(crate) fn copy_bytes(v: &Vec<u8>) -> (r: Vec<u8>)
    ensures
        r@ == v@,
{
    let mut r: Vec<u8> = Vec::new();
    let mut i: usize = 0;
    while i < v.len()
        invariant
            0 <= i <= v@.len(),
            r@ == v@.subrange(0, i as int),
        decreases v@.len() - i,
    {
        r.push(v[i]);
        proof {
            assert(r@ =~= v@.subrange(0, i + 1));
        }
        i = i + 1;
    }
    proof {
        assert(r@ =~= v@);
    }
    r
}

impl Version {
    /// Three-way comparison with another version, as [`cmp_version`] has
    /// it: -1 when this version ranks lower, 0 when they are the same
    /// version, 1 when it ranks higher.
    pub fn compare(&self, other: &Version) -> (r: i8)
        ensures
            r as int == cmp_version(self@, other@),
    {
        if self.major != other.major {
            return if self.major < other.major {
                -1
            } else {
                1
            };
        }
        if self.minor != other.minor {
            return if self.minor < other.minor {
                -1
            } else {
                1
            };
        }
        if self.patch != other.patch {
            return if self.patch < other.patch {
                -1
            } else {
                1
            };
        }
        let sp = split_ids_exec(&self.pre);
        let op = split_ids_exec(&other.pre);
        let pc: i8 = if sp.len() == 0 && op.len() == 0 {
            0
        } else if sp.len() == 0 {
            1
        } else if op.len() == 0 {
            -1
        } else {
            cmp_pre_ids_exec(&sp, &op)
        };
        assert(pc as int == cmp_pre(self@.pre, other@.pre));
        if pc != 0 {
            return pc;
        }
        let sb = split_ids_exec(&self.build);
        let ob = split_ids_exec(&other.build);
        cmp_build_ids_exec(&sb, &ob)
    }

    /// Whether this version ranks strictly below the other.
    pub fn precedes(&self, other: &Version) -> (r: bool)
        ensures
            r == ver_lt(self@, other@),
    {
        self.compare(other) < 0
    }

    /// Whether this is the same version: comparing equal is the same
    /// thing as having equal views.
    pub fn same_as(&self, other: &Version) -> (r: bool)
        ensures
            r == (self@ == other@),
    {
        let c: i8 = self.compare(other);
        proof {
            lemma_version_order_total(self@, other@);
        }
        c == 0
    }

    /// The canonical text of this version, as the index and the archive
    /// file names spell it. The identifiers of a semantic version are
    /// ASCII by the format's own grammar.
    pub fn version_text(&self) -> (r: String)
        requires
            forall|i: int| 0 <= i < self.pre@.len() ==> self.pre@[i] < 128,
            forall|i: int| 0 <= i < self.build@.len() ==> self.build@[i] < 128,
        ensures
            r@ == rendered_version(
                self.major as nat,
                self.minor as nat,
                self.patch as nat,
                self.pre@,
                self.build@,
            ),
    {
        let mut s = String::new();
        append_decimal(&mut s, self.major);
        s.append(".");
        append_decimal(&mut s, self.minor);
        s.append(".");
        append_decimal(&mut s, self.patch);
        if self.pre.len() > 0 {
            s.append("-");
            let pre_text = ascii_to_string(&self.pre);
            s.append(pre_text.as_str());
        }
        if self.build.len() > 0 {
            s.append("+");
            let build_text = ascii_to_string(&self.build);
            s.append(build_text.as_str());
        }
        proof {
            assert(s@ =~= rendered_version(
                self.major as nat,
                self.minor as nat,
                self.patch as nat,
                self.pre@,
                self.build@,
            ));
        }
        s
    }

    /// A copy of this version.
    pub fn duplicate(&self) -> (r: Version)
        ensures
            r@ == self@,
            r.pre@ == self.pre@,
            r.build@ == self.build@,
    {
        Version {
            major: self.major,
            minor: self.minor,
            patch: self.patch,
            pre: copy_bytes(&self.pre),
            build: copy_bytes(&self.build),
        }
    }
}

/// The character of one decimal digit.
pub open spec fn digit_text(d: int) -> Seq<char> {
    if d == 0 {
        "0"@
    } else if d == 1 {
        "1"@
    } else if d == 2 {
        "2"@
    } else if d == 3 {
        "3"@
    } else if d == 4 {
        "4"@
    } else if d == 5 {
        "5"@
    } else if d == 6 {
        "6"@
    } else if d == 7 {
        "7"@
    } else if d == 8 {
        "8"@
    } else {
        "9"@
    }
}

/// The decimal text of a number, most significant digit first.
pub open spec fn decimal_text(n: nat) -> Seq<char>
    decreases n,
{
    if n < 10 {
        digit_text(n as int)
    } else {
        decimal_text(n / 10) + digit_text((n % 10) as int)
    }
}

/// ASCII bytes as the characters they stand for.
pub open spec fn ascii_text(s: Seq<u8>) -> Seq<char> {
    s.map_values(|b: u8| b as char)
}

/// The canonical text of a version:
/// `<major>.<minor>.<patch>[-<pre>][+<build>]`.
pub open spec fn rendered_version(
    major: nat,
    minor: nat,
    patch: nat,
    pre: Seq<u8>,
    build: Seq<u8>,
) -> Seq<char> {
    let base = decimal_text(major) + "."@ + decimal_text(minor) + "."@ + decimal_text(patch);
    let with_pre = if pre.len() == 0 {
        base
    } else {
        base + "-"@ + ascii_text(pre)
    };
    if build.len() == 0 {
        with_pre
    } else {
        with_pre + "+"@ + ascii_text(build)
    }
}

/// Append one decimal digit to the text.
fn push_digit(s: &mut String, d: u64)
    requires
        d < 10,
    ensures
        final (s)@ == old(s)@ + digit_text(d as int),
{
    if d == 0 {
        s.append("0");
    } else if d == 1 {
        s.append("1");
    } else if d == 2 {
        s.append("2");
    } else if d == 3 {
        s.append("3");
    } else if d == 4 {
        s.append("4");
    } else if d == 5 {
        s.append("5");
    } else if d == 6 {
        s.append("6");
    } else if d == 7 {
        s.append("7");
    } else if d == 8 {
        s.append("8");
    } else {
        s.append("9");
    }
}

/// Append the decimal text of a number.
fn append_decimal(s: &mut String, n: u64)
    ensures
        final (s)@ == old(s)@ + decimal_text(n as nat),
    decreases n,
{
    if n < 10 {
        push_digit(s, n);
    } else {
        append_decimal(s, n / 10);
        push_digit(s, n % 10);
        proof {
            assert(old(s)@ + (decimal_text((n / 10) as nat) + digit_text((n % 10) as int)) =~= (
            old(s)@ + decimal_text((n / 10) as nat)) + digit_text((n % 10) as int));
        }
    }
}

/// Relies on `String::from_utf8_lossy`: bytes below 128 decode to exactly
/// the characters they stand for.
#[verifier::external_body]
fn ascii_to_string(v: &Vec<u8>) -> (r: String)
    requires
        forall|i: int| 0 <= i < v@.len() ==> v@[i] < 128,
    ensures
        r@ == ascii_text(v@),
{
    String::from_utf8_lossy(v.as_slice()).to_string()
}

/// What `semver::Version::parse` reads out of a version string; `None`
/// when the string is not a valid semantic version.
pub uninterp spec fn sem_version_of(s: Seq<char>) -> Option<VersionView>;

/// Relies on `semver::Version::parse`: the numeric triple and the raw
/// pre-release and build-metadata text are read from the string alone,
/// and the parser admits only ASCII alphanumerics, hyphens and dots in
/// the identifier text.
#[verifier::external_body]
pub(crate) fn parse_version(s: &str) -> (r: Option<Version>)
    ensures
        r matches Some(v) ==> sem_version_of(s@) == Some(v@),
        r is None ==> sem_version_of(s@) is None,
        r matches Some(v) ==> (forall|i: int| 0 <= i < v.pre@.len() ==> v.pre@[i] < 128) && (
        forall|i: int| 0 <= i < v.build@.len() ==> v.build@[i] < 128),
{
    let v = match semver::Version::parse(s) {
        Ok(v) => v,
        Err(_) => return None,
    };
    Some(Version {
        major: v.major,
        minor: v.minor,
        patch: v.patch,
        pre: v.pre.as_str().as_bytes().to_vec(),
        build: v.build.as_str().as_bytes().to_vec(),
    })
}

} // verus!
