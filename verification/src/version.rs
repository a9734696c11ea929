//! The version of a profile: `MAJOR[.MINOR[.PATCH]]`, each part a number that
//! fits a byte.
use vstd::prelude::*;

use crate::text::{decimal, digit_char, push_decimal};
use crate::transform::chars_of;
use core::cmp::Ordering;
use vstd::std_specs::cmp::PartialOrdSpecImpl;

verus! {

/// Why a text is no version.
#[derive(Debug, Clone, Copy, PartialEq, Eq, Structural)]
pub enum ParseVersionError {
    /// Characters follow the version.
    TrailingCharacters,
    /// A part is no number that fits a byte.
    InvalidNumber,
    /// The text is empty.
    Empty,
    /// Something other than `.` separates two parts.
    InvalidSeparator,
}

impl ParseVersionError {
    /// The message of the error.
    pub open spec fn spec_message(self) -> Seq<char> {
        match self {
            ParseVersionError::TrailingCharacters => "trailing characters"@,
            ParseVersionError::InvalidNumber => "invalid number"@,
            ParseVersionError::Empty => "empty"@,
            ParseVersionError::InvalidSeparator => "invalid separator"@,
        }
    }

    /// Returns the message of the error.
    pub fn message(&self) -> (r: &'static str)
        ensures
            r@ == self.spec_message(),
    {
        match self {
            ParseVersionError::TrailingCharacters => "trailing characters",
            ParseVersionError::InvalidNumber => "invalid number",
            ParseVersionError::Empty => "empty",
            ParseVersionError::InvalidSeparator => "invalid separator",
        }
    }
}

/// A version with a major, a minor and a patch number.
#[derive(Debug, Clone, Copy, PartialEq, Eq, Ord, Hash, Structural)]
pub struct Version {
    /// The major number.
    pub major: u8,
    /// The minor number.
    pub minor: u8,
    /// The patch number.
    pub patch: u8,
}

/// Whether `c` is an ASCII digit.
pub open spec fn is_digit(c: char) -> bool {
    '0' <= c <= '9'
}

/// The value of the ASCII digit `c`.
pub open spec fn digit_value(c: char) -> int {
    c as int - '0' as int
}

/// The number of leading digits of `s` that are read, at most three.
pub open spec fn digits_len(s: Seq<char>) -> int {
    if s.len() >= 1 && is_digit(s[0]) {
        if s.len() >= 2 && is_digit(s[1]) {
            if s.len() >= 3 && is_digit(s[2]) {
                3
            } else {
                2
            }
        } else {
            1
        }
    } else {
        0
    }
}

/// The number the first `n` characters of `s` write in decimal.
pub open spec fn digits_value(s: Seq<char>, n: int) -> int
    decreases n,
{
    if n <= 0 {
        0
    } else {
        digits_value(s, n - 1) * 10 + digit_value(s[n - 1])
    }
}

/// Reads a number from the start of `s`: nothing if `s` is empty, else the rest
/// of `s` and the number, or why there is none.
pub open spec fn sp_parse_u8(s: Seq<char>) -> Result<Option<(Seq<char>, u8)>, ParseVersionError> {
    if s.len() == 0 {
        Ok(None)
    } else {
        let n = digits_len(s);
        if n == 0 || digits_value(s, n) > 255 {
            Err(ParseVersionError::InvalidNumber)
        } else {
            Ok(Some((s.subrange(n, s.len() as int), digits_value(s, n) as u8)))
        }
    }
}

/// Reads a `.` from the start of `s`: nothing if `s` is empty, else the rest of
/// `s`, or why there is no `.`.
pub open spec fn sp_parse_dot(s: Seq<char>) -> Result<Option<Seq<char>>, ParseVersionError> {
    if s.len() == 0 {
        Ok(None)
    } else if s[0] == '.' {
        Ok(Some(s.subrange(1, s.len() as int)))
    } else {
        Err(ParseVersionError::InvalidSeparator)
    }
}

/// The version `s` writes, or why it writes none.
pub open spec fn sp_parse_version(s: Seq<char>) -> Result<Version, ParseVersionError> {
    match sp_parse_u8(s) {
        Err(e) => Err(e),
        Ok(None) => Err(ParseVersionError::Empty),
        Ok(Some((s1, major))) => match sp_parse_dot(s1) {
            Err(e) => Err(e),
            Ok(None) => Ok(Version { major, minor: 0, patch: 0 }),
            Ok(Some(s2)) => match sp_parse_u8(s2) {
                Err(e) => Err(e),
                Ok(None) => Err(ParseVersionError::TrailingCharacters),
                Ok(Some((s3, minor))) => match sp_parse_dot(s3) {
                    Err(e) => Err(e),
                    Ok(None) => Ok(Version { major, minor, patch: 0 }),
                    Ok(Some(s4)) => match sp_parse_u8(s4) {
                        Err(e) => Err(e),
                        Ok(None) => Err(ParseVersionError::TrailingCharacters),
                        Ok(Some((s5, patch))) => if s5.len() == 0 {
                            Ok(Version { major, minor, patch })
                        } else {
                            Err(ParseVersionError::TrailingCharacters)
                        },
                    },
                },
            },
        },
    }
}

/// Whether `c` is an ASCII digit.
fn check_digit(s: &[char], idx: usize) -> (r: bool)
    ensures
        r == (idx < s@.len() && is_digit(s@[idx as int])),
{
    idx < s.len() && '0' <= s[idx] && s[idx] <= '9'
}

/// Reads a number from `s[start..]`: nothing if that is empty, else the index
/// after the number and the number, or why there is none.
fn parse_u8(s: &[char], start: usize) -> (r: Result<Option<(usize, u8)>, ParseVersionError>)
    requires
        start <= s@.len(),
    ensures
        match sp_parse_u8(s@.subrange(start as int, s@.len() as int)) {
            Ok(None) => r == Ok::<Option<(usize, u8)>, ParseVersionError>(None),
            Ok(Some((rest, v))) => r matches Ok(Some((j, w))) && w == v && start <= j <= s@.len()
                && rest == s@.subrange(j as int, s@.len() as int),
            Err(e) => r == Err::<Option<(usize, u8)>, ParseVersionError>(e),
        },
{
    let ghost t = s@.subrange(start as int, s@.len() as int);
    if start == s.len() {
        return Ok(None);
    }
    let eat: usize = if check_digit(s, start) {
        if check_digit(s, start + 1) {
            if check_digit(s, start + 2) {
                3
            } else {
                2
            }
        } else {
            1
        }
    } else {
        return Err(ParseVersionError::InvalidNumber);
    };
    assert(eat == digits_len(t));
    let mut v: u32 = 0;
    let mut k: usize = 0;
    let n = s.len();
    while k < eat
        invariant
            k <= eat <= 3,
            n == s@.len(),
            start + eat <= s@.len(),
            t == s@.subrange(start as int, s@.len() as int),
            forall|m: int| 0 <= m < eat ==> is_digit(t[m]),
            v == digits_value(t, k as int),
            v < 1000,
        decreases eat - k,
    {
        assert(t[k as int] == s@[start + k]);
        let d = s[start + k] as u32 - '0' as u32;
        assert(digits_value(t, k as int) <= 99) by {
            assert(digits_value(t, 0) == 0);
            if k >= 1 {
                assert(digits_value(t, 1) <= 9);
            }
        }
        v = v * 10 + d;
        k = k + 1;
    }
    if v > 255 {
        return Err(ParseVersionError::InvalidNumber);
    }
    assert(t.subrange(eat as int, t.len() as int) =~= s@.subrange(start + eat, s@.len() as int));
    Ok(Some((start + eat, v as u8)))
}

/// Reads a `.` from `s[start..]`: nothing if that is empty, else the index after
/// the `.`, or why there is none.
fn parse_dot(s: &[char], start: usize) -> (r: Result<Option<usize>, ParseVersionError>)
    requires
        start <= s@.len(),
    ensures
        match sp_parse_dot(s@.subrange(start as int, s@.len() as int)) {
            Ok(None) => r == Ok::<Option<usize>, ParseVersionError>(None),
            Ok(Some(rest)) => r matches Ok(Some(j)) && start <= j <= s@.len() && rest == s@.subrange(j as int, s@.len() as int),
            Err(e) => r == Err::<Option<usize>, ParseVersionError>(e),
        },
{
    if start == s.len() {
        Ok(None)
    } else if s[start] == '.' {
        assert(s@.subrange(start as int, s@.len() as int).subrange(1, s@.len() - start) =~= s@.subrange(start + 1, s@.len() as int));
        Ok(Some(start + 1))
    } else {
        Err(ParseVersionError::InvalidSeparator)
    }
}

impl Version {
    /// The text of the version: `MAJOR.MINOR.PATCH`.
    pub open spec fn spec_text(self) -> Seq<char> {
        decimal(self.major as nat) + seq!['.'] + decimal(self.minor as nat) + seq!['.'] + decimal(self.patch as nat)
    }

    /// The version `0.0.0`.
    pub fn zero() -> (r: Self)
        ensures
            r == (Version { major: 0, minor: 0, patch: 0 }),
    {
        Version { major: 0, minor: 0, patch: 0 }
    }

    /// Creates a new version.
    pub fn new(major: u8, minor: u8, patch: u8) -> (r: Self)
        ensures
            r == (Version { major, minor, patch }),
    {
        Version { major, minor, patch }
    }

    /// Returns the version with `major` as major number.
    pub fn with_major(self, major: u8) -> (r: Self)
        ensures
            r == (Version { major, ..self }),
    {
        let mut v = self;
        v.major = major;
        v
    }

    /// Returns the version with `minor` as minor number.
    pub fn with_minor(self, minor: u8) -> (r: Self)
        ensures
            r == (Version { minor, ..self }),
    {
        let mut v = self;
        v.minor = minor;
        v
    }

    /// Returns the version with `patch` as patch number.
    pub fn with_patch(self, patch: u8) -> (r: Self)
        ensures
            r == (Version { patch, ..self }),
    {
        let mut v = self;
        v.patch = patch;
        v
    }

    /// Whether two versions are compatible: they have the same major number.
    pub fn compatible(self, other: Self) -> (r: bool)
        ensures
            r == (self.major == other.major),
    {
        self.major == other.major
    }

    /// Parses a version from `s`.
    pub fn parse(s: &str) -> (r: Result<Version, ParseVersionError>)
        ensures
            r == sp_parse_version(s@),
    {
        let c = chars_of(s);
        let n = c.len();
        let cs = c.as_slice();
        assert(cs@.subrange(0, n as int) =~= s@);
        let (i1, major) = match parse_u8(cs, 0) {
            Err(e) => {
                return Err(e);
            },
            Ok(None) => {
                return Err(ParseVersionError::Empty);
            },
            Ok(Some(x)) => x,
        };
        let i2 = match parse_dot(cs, i1) {
            Err(e) => {
                return Err(e);
            },
            Ok(None) => {
                return Ok(Version { major, minor: 0, patch: 0 });
            },
            Ok(Some(j)) => j,
        };
        let (i3, minor) = match parse_u8(cs, i2) {
            Err(e) => {
                return Err(e);
            },
            Ok(None) => {
                return Err(ParseVersionError::TrailingCharacters);
            },
            Ok(Some(x)) => x,
        };
        let i4 = match parse_dot(cs, i3) {
            Err(e) => {
                return Err(e);
            },
            Ok(None) => {
                return Ok(Version { major, minor, patch: 0 });
            },
            Ok(Some(j)) => j,
        };
        let (i5, patch) = match parse_u8(cs, i4) {
            Err(e) => {
                return Err(e);
            },
            Ok(None) => {
                return Err(ParseVersionError::TrailingCharacters);
            },
            Ok(Some(x)) => x,
        };
        if i5 == n {
            Ok(Version { major, minor, patch })
        } else {
            Err(ParseVersionError::TrailingCharacters)
        }
    }

    /// Returns the text of the version: `MAJOR.MINOR.PATCH`.
    pub fn to_text(&self) -> (r: String)
        ensures
            r@ == self.spec_text(),
    {
        let mut s = String::new();
        push_decimal(&mut s, self.major as usize);
        crate::text::push_char(&mut s, '.');
        push_decimal(&mut s, self.minor as usize);
        crate::text::push_char(&mut s, '.');
        push_decimal(&mut s, self.patch as usize);
        assert(s@ =~= self.spec_text());
        s
    }
}

/// Whether `a` comes before `b`: by the major number first, then the minor
/// number, then the patch number.
pub open spec fn precedes(a: Version, b: Version) -> bool {
    a.major < b.major
        || (a.major == b.major && a.minor < b.minor)
        || (a.major == b.major && a.minor == b.minor && a.patch < b.patch)
}

/// How `a` compares to `b` in the order of versions.
pub open spec fn version_order(a: Version, b: Version) -> Ordering {
    if precedes(a, b) {
        Ordering::Less
    } else if a == b {
        Ordering::Equal
    } else {
        Ordering::Greater
    }
}

impl PartialOrd for Version {
    fn partial_cmp(&self, other: &Version) -> (r: Option<Ordering>) {
        if self.major != other.major {
            if self.major < other.major { Some(Ordering::Less) } else { Some(Ordering::Greater) }
        } else if self.minor != other.minor {
            if self.minor < other.minor { Some(Ordering::Less) } else { Some(Ordering::Greater) }
        } else if self.patch != other.patch {
            if self.patch < other.patch { Some(Ordering::Less) } else { Some(Ordering::Greater) }
        } else {
            Some(Ordering::Equal)
        }
    }
}

impl PartialOrdSpecImpl for Version {
    open spec fn obeys_partial_cmp_spec() -> bool {
        true
    }

    open spec fn partial_cmp_spec(&self, other: &Version) -> Option<Ordering> {
        Some(version_order(*self, *other))
    }
}

/// Versions are totally ordered: of two versions exactly one comes first, or
/// they are equal; and the order is transitive.
pub proof fn law_version_order_total(a: Version, b: Version, c: Version)
    ensures
        precedes(a, b) || a == b || precedes(b, a),
        !(precedes(a, b) && precedes(b, a)),
        !precedes(a, a),
        precedes(a, b) && precedes(b, c) ==> precedes(a, c),
        version_order(a, b) == Ordering::Less <==> version_order(b, a) == Ordering::Greater,
{
}

impl Default for Version {
    fn default() -> (r: Self)
        ensures
            r == (Version { major: 0, minor: 0, patch: 0 }),
    {
        Version { major: 0, minor: 0, patch: 0 }
    }
}

impl core::str::FromStr for Version {
    type Err = ParseVersionError;

    fn from_str(s: &str) -> (r: Result<Self, Self::Err>)
        ensures
            r == sp_parse_version(s@),
    {
        Version::parse(s)
    }
}

/// The decimal text of a number that fits a byte: one to three digits whose
/// value is the number.
proof fn lemma_decimal_byte(n: nat)
    requires
        n < 256,
    ensures
        1 <= decimal(n).len() <= 3,
        forall|i: int| 0 <= i < decimal(n).len() ==> is_digit(#[trigger] decimal(n)[i]),
        digits_value(decimal(n), decimal(n).len() as int) == n,
{
    assert forall|d: int| 0 <= d <= 9 implies is_digit(#[trigger] digit_char(d)) && digit_value(digit_char(d)) == d by {}
    if n < 10 {
        assert(decimal(n) == seq![digit_char(n as int)]);
        assert(digits_value(decimal(n), 0) == 0);
    } else if n < 100 {
        assert(decimal(n / 10) == seq![digit_char((n / 10) as int)]);
        assert(decimal(n) =~= seq![digit_char((n / 10) as int), digit_char((n % 10) as int)]);
        let d = decimal(n);
        assert(digits_value(d, 0) == 0);
        assert(digits_value(d, 1) == n / 10);
    } else {
        let m = n / 10;
        assert(decimal(m / 10) == seq![digit_char((m / 10) as int)]);
        assert(decimal(m) =~= seq![digit_char((m / 10) as int), digit_char((m % 10) as int)]);
        assert(decimal(n) =~= seq![digit_char((m / 10) as int), digit_char((m % 10) as int), digit_char((n % 10) as int)]);
        let d = decimal(n);
        assert(digits_value(d, 0) == 0);
        assert(digits_value(d, 1) == m / 10);
        assert(digits_value(d, 2) == m);
    }
}

/// `digits_value` reads only the first `k` characters.
proof fn lemma_digits_value_prefix(a: Seq<char>, b: Seq<char>, k: int)
    requires
        0 <= k <= a.len(),
    ensures
        digits_value(a + b, k) == digits_value(a, k),
    decreases k,
{
    if k > 0 {
        lemma_digits_value_prefix(a, b, k - 1);
        assert((a + b)[k - 1] == a[k - 1]);
    }
}

/// Reading a number from the decimal text of a byte followed by nothing or a `.`
/// gives the byte and what follows.
proof fn lemma_parse_u8_decimal(n: u8, rest: Seq<char>)
    requires
        rest.len() == 0 || rest[0] == '.',
    ensures
        sp_parse_u8(decimal(n as nat) + rest) == Ok::<Option<(Seq<char>, u8)>, ParseVersionError>(Some((rest, n))),
{
    let d = decimal(n as nat);
    lemma_decimal_byte(n as nat);
    let s = d + rest;
    lemma_digits_value_prefix(d, rest, d.len() as int);
    assert(forall|i: int| 0 <= i < d.len() ==> s[i] == d[i]);
    if rest.len() > 0 {
        assert(s[d.len() as int] == '.');
    }
    assert(digits_len(s) == d.len());
    assert(s.subrange(d.len() as int, s.len() as int) =~= rest);
}

/// Parsing the text of a version gives the version back.
pub proof fn law_parse_text_roundtrip(v: Version)
    ensures
        sp_parse_version(v.spec_text()) == Ok::<Version, ParseVersionError>(v),
{
    let dot = seq!['.'];
    let p = decimal(v.patch as nat);
    let mi = decimal(v.minor as nat);
    let ma = decimal(v.major as nat);
    let r2 = dot + p;
    let r1 = dot + mi + r2;
    assert(v.spec_text() =~= ma + r1);
    lemma_parse_u8_decimal(v.major, r1);
    assert(r1.subrange(1, r1.len() as int) =~= mi + r2);
    lemma_parse_u8_decimal(v.minor, r2);
    assert(r2.subrange(1, r2.len() as int) =~= p + seq![]);
    lemma_parse_u8_decimal(v.patch, seq![]);
}


/// The version of a profile, read on its own before the rest of the profile so
/// that the profile can be read in the format of its version.
#[derive(Debug, Clone, Copy, PartialEq, Eq, Structural)]
pub struct ProfileVersion {
    /// The version of the profile.
    pub version: Version,
}

impl Default for ProfileVersion {
    /// A profile without a version has version `0.0.0`.
    fn default() -> (r: Self)
        ensures
            r.version == (Version { major: 0, minor: 0, patch: 0 }),
    {
        ProfileVersion { version: Version::zero() }
    }
}

impl From<ProfileVersion> for Version {
    fn from(value: ProfileVersion) -> (r: Version) {
        value.version
    }
}

impl vstd::std_specs::convert::FromSpecImpl<ProfileVersion> for Version {
    open spec fn obeys_from_spec() -> bool {
        true
    }

    open spec fn from_spec(v: ProfileVersion) -> Version {
        v.version
    }
}

} // verus!
