use vstd::prelude::*;

use crate::errors::{ConfigIssue, SideloadError};

verus! {

/// The Unicode `White_Space` property, the set of characters that
/// `str::trim_start` removes.
pub open spec fn is_space(c: char) -> bool {
    let u = c as u32;
    (0x9 <= u && u <= 0xD) || u == 0x20 || u == 0x85 || u == 0xA0 || u == 0x1680 || (0x2000 <= u
        && u <= 0x200A) || u == 0x2028 || u == 0x2029 || u == 0x202F || u == 0x205F || u == 0x3000
}

/// Executable check for [`is_space`].
pub fn is_space_char(c: char) -> (r: bool)
    ensures
        r == is_space(c),
{
    let u = c as u32;
    (0x9 <= u && u <= 0xD) || u == 0x20 || u == 0x85 || u == 0xA0 || u == 0x1680 || (0x2000 <= u
        && u <= 0x200A) || u == 0x2028 || u == 0x2029 || u == 0x202F || u == 0x205F || u == 0x3000
}

/// `s` with every leading white-space character removed.
pub open spec fn trim_leading_space(s: Seq<char>) -> Seq<char>
    decreases s.len(),
{
    if s.len() > 0 && is_space(s[0]) {
        trim_leading_space(s.subrange(1, s.len() as int))
    } else {
        s
    }
}

/// `i` is the position of the first colon in `s`.
pub open spec fn is_first_colon(s: Seq<char>, i: int) -> bool {
    &&& 0 <= i < s.len()
    &&& s[i] == ':'
    &&& forall|j: int| 0 <= j < i ==> s[j] != ':'
}

/// One authentication header for a registry, in the textual form
/// `Name: Value`.
pub struct Header {
    pub name: String,
    pub value: String,
}

/// Dropping white space from the front of a sequence, one character at a
/// time, reaches the same suffix that [`trim_leading_space`] names: if
/// everything in `s[from..to)` is white space and `to` is the end or a
/// non-space position, the trimmed suffix starts at `to`.
proof fn lemma_trim_reaches(s: Seq<char>, from: int, to: int)
    requires
        0 <= from <= to <= s.len(),
        forall|k: int| from <= k < to ==> is_space(s[k]),
        to == s.len() || !is_space(s[to]),
    ensures
        trim_leading_space(s.subrange(from, s.len() as int)) == s.subrange(to, s.len() as int),
    decreases to - from,
{
    let tail = s.subrange(from, s.len() as int);
    if from == to {
        assert(tail.len() == 0 || !is_space(tail[0]));
    } else {
        assert(is_space(tail[0]));
        assert(tail.subrange(1, tail.len() as int) =~= s.subrange(from + 1, s.len() as int));
        lemma_trim_reaches(s, from + 1, to);
    }
}

impl Header {
    /// Parse a `Name: Value` string: the name is everything before the
    /// first colon, the value everything after it with leading white space
    /// removed. A string without a colon is a configuration error.
    pub fn parse(s: &str) -> (r: Result<Header, SideloadError>)
        ensures
            (r is Ok) <==> exists|i: int| is_first_colon(s@, i),
            forall|i: int|
                is_first_colon(s@, i) ==> (r matches Ok(h) && h.name@ == s@.subrange(0, i)
                    && h.value@ == trim_leading_space(s@.subrange(i + 1, s@.len() as int))),
            r matches Err(e) ==> e == SideloadError::Configuration(ConfigIssue::MalformedHeader),
    {
        let len = s.unicode_len();
        let mut i: usize = 0;
        while i < len && s.get_char(i) != ':'
            invariant
                0 <= i <= len,
                len == s@.len(),
                forall|j: int| 0 <= j < i ==> s@[j] != ':',
            decreases len - i,
        {
            i = i + 1;
        }
        if i == len {
            return Err(SideloadError::Configuration(ConfigIssue::MalformedHeader));
        }
        let name = s.substring_char(0, i).to_owned();
        let mut j: usize = i + 1;
        while j < len && is_space_char(s.get_char(j))
            invariant
                i + 1 <= j <= len,
                len == s@.len(),
                forall|k: int| i + 1 <= k < j ==> is_space(s@[k]),
            decreases len - j,
        {
            j = j + 1;
        }
        let value = s.substring_char(j, len).to_owned();
        proof {
            assert(is_first_colon(s@, i as int));
            lemma_trim_reaches(s@, i + 1, j as int);
        }
        Ok(Header { name, value })
    }

    /// The textual `Name: Value` form of the header.
    pub fn to_text(&self) -> (r: String)
        ensures
            r@ == self.name@ + ": "@ + self.value@,
    {
        let mut s = self.name.clone();
        s.append(": ");
        s.append(self.value.as_str());
        s
    }

    /// A copy of this header with the same name and value.
    pub fn duplicate(&self) -> (r: Header)
        ensures
            r.name@ == self.name@,
            r.value@ == self.value@,
    {
        Header { name: self.name.clone(), value: self.value.clone() }
    }
}

/// Rendering a header as text and parsing the text gives the header
/// back, for any name without a colon and any value that does not start
/// with white space: the first colon of the rendered text ends the name,
/// and trimming recovers exactly the value.
pub proof fn lemma_header_round_trip(name: Seq<char>, value: Seq<char>)
    requires
        forall|j: int| 0 <= j < name.len() ==> name[j] != ':',
        value.len() == 0 || !is_space(value[0]),
    ensures
        is_first_colon(name + ": "@ + value, name.len() as int),
        (name + ": "@ + value).subrange(0, name.len() as int) == name,
        trim_leading_space(
            (name + ": "@ + value).subrange(
                name.len() as int + 1,
                (name + ": "@ + value).len() as int,
            ),
        ) == value,
{
    reveal_strlit(": ");
    let s = name + ": "@ + value;
    assert(s.len() == name.len() + 2 + value.len());
    assert(s[name.len() as int] == ':');
    assert(s[name.len() as int + 1] == ' ');
    assert forall|j: int| 0 <= j < name.len() implies s[j] != ':' by {
        assert(s[j] == name[j]);
    }
    assert(s.subrange(0, name.len() as int) =~= name);
    let tail = s.subrange(name.len() as int + 1, s.len() as int);
    assert(tail[0] == ' ');
    assert(is_space(' '));
    assert(tail.subrange(1, tail.len() as int) =~= value);
    assert(trim_leading_space(tail) == trim_leading_space(value));
    assert(trim_leading_space(value) == value);
}

impl core::str::FromStr for Header {
    type Err = SideloadError;

    fn from_str(s: &str) -> Result<Header, SideloadError> {
        Header::parse(s)
    }
}

} // verus!
