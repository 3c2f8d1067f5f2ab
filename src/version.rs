use vstd::prelude::*;
use crate::error::SpyError;

verus! {

/// A Python version as found in an interpreter's data: `major.minor.patch`
/// followed by optional release flags such as `rc1`.
#[derive(Debug, PartialEq, Eq)]
pub struct Version {
    pub major: u64,
    pub minor: u64,
    pub patch: u64,
    pub release_flags: String,
}

/// The mathematical value of a [`Version`].
pub struct VersionView {
    pub major: nat,
    pub minor: nat,
    pub patch: nat,
    pub release_flags: Seq<char>,
}

impl View for Version {
    type V = VersionView;

    open spec fn view(&self) -> VersionView {
        VersionView {
            major: self.major as nat,
            minor: self.minor as nat,
            patch: self.patch as nat,
            release_flags: self.release_flags@,
        }
    }
}

// The version pattern is read byte by byte: a digit is an ASCII digit, and
// every byte other than a newline may stand in the trailing text.
pub open spec fn is_digit(b: u8) -> bool {
    48 <= b && b <= 57
}

pub open spec fn digit_value(b: u8) -> nat {
    (b - 48) as nat
}

pub open spec fn digit_at(d: Seq<u8>, k: int) -> bool {
    0 <= k < d.len() && is_digit(d[k])
}

pub open spec fn byte_is(d: Seq<u8>, k: int, x: u8) -> bool {
    0 <= k < d.len() && d[k] == x
}

/// How many digits (at most two) stand at `k`.
pub open spec fn digits_upto2(d: Seq<u8>, k: int) -> int {
    if digit_at(d, k) {
        if digit_at(d, k + 1) {
            2
        } else {
            1
        }
    } else {
        0
    }
}

/// Length of the release tag (`a`, `b`, `c` or `rc`) at `q`, 0 when none.
pub open spec fn tag_len(d: Seq<u8>, q: int) -> int {
    if byte_is(d, q, 97) || byte_is(d, q, 98) || byte_is(d, q, 99) {
        1
    } else if byte_is(d, q, 114) && byte_is(d, q + 1, 99) {
        2
    } else {
        0
    }
}

/// Where the patch number that follows `major.minor.` at `i` ends.
pub open spec fn patch_end(d: Seq<u8>, i: int) -> int {
    i + 4 + digits_upto2(d, i + 4)
}

/// Where the release flags that start at `q` end (`q` when there are none).
pub open spec fn flags_end(d: Seq<u8>, q: int) -> int {
    if tag_len(d, q) == 0 {
        q
    } else {
        q + tag_len(d, q) + digits_upto2(d, q + tag_len(d, q))
    }
}

/// A tag must be followed by one or two digits.
pub open spec fn flags_ok(d: Seq<u8>, q: int) -> bool {
    tag_len(d, q) == 0 || digits_upto2(d, q + tag_len(d, q)) > 0
}

/// Whether a version string `D.D.D[D][(a|b|c|rc)D[D]] X` starts at `i`,
/// where the byte before it (if any) is no digit and `X` is no newline.
pub open spec fn version_at(d: Seq<u8>, i: int) -> bool {
    &&& 0 <= i < d.len()
    &&& (i == 0 || !is_digit(d[i - 1]))
    &&& digit_at(d, i)
    &&& byte_is(d, i + 1, 46)
    &&& digit_at(d, i + 2)
    &&& byte_is(d, i + 3, 46)
    &&& digit_at(d, i + 4)
    &&& flags_ok(d, patch_end(d, i))
    &&& byte_is(d, flags_end(d, patch_end(d, i)), 32)
    &&& flags_end(d, patch_end(d, i)) + 1 < d.len()
    &&& d[flags_end(d, patch_end(d, i)) + 1] != 10
}

pub open spec fn ascii_chars(b: Seq<u8>) -> Seq<char> {
    Seq::new(b.len(), |k: int| b[k] as char)
}

/// The version that the string starting at `i` denotes.
pub open spec fn version_of(d: Seq<u8>, i: int) -> VersionView {
    VersionView {
        major: digit_value(d[i]),
        minor: digit_value(d[i + 2]),
        patch: if digits_upto2(d, i + 4) == 2 {
            10 * digit_value(d[i + 4]) + digit_value(d[i + 5])
        } else {
            digit_value(d[i + 4])
        },
        release_flags: ascii_chars(d.subrange(patch_end(d, i), flags_end(d, patch_end(d, i)))),
    }
}

/// The first version string at or after `i`.
pub open spec fn scan_from(d: Seq<u8>, i: int) -> Option<VersionView>
    decreases d.len() - i,
{
    if !(0 <= i < d.len()) {
        None
    } else if version_at(d, i) {
        Some(version_of(d, i))
    } else {
        scan_from(d, i + 1)
    }
}

/// The first version string in `d`.
pub open spec fn scanned_version(d: Seq<u8>) -> Option<VersionView> {
    scan_from(d, 0)
}

fn is_digit_byte(b: u8) -> (r: bool)
    ensures
        r == is_digit(b),
{
    48 <= b && b <= 57
}

fn digits_upto2_exec(d: &[u8], k: usize) -> (r: usize)
    requires
        k <= d@.len(),
    ensures
        r as int == digits_upto2(d@, k as int),
        k + r <= d@.len(),
{
    if k < d.len() && is_digit_byte(d[k]) {
        if k + 1 < d.len() && is_digit_byte(d[k + 1]) {
            2
        } else {
            1
        }
    } else {
        0
    }
}

fn tag_len_exec(d: &[u8], q: usize) -> (r: usize)
    requires
        q <= d@.len(),
    ensures
        r as int == tag_len(d@, q as int),
        q + r <= d@.len(),
{
    if q < d.len() && (d[q] == 97 || d[q] == 98 || d[q] == 99) {
        1
    } else if q < d.len() && q + 1 < d.len() && d[q] == 114 && d[q + 1] == 99 {
        2
    } else {
        0
    }
}

/// Tests for a version string at `i`; on a match returns where its patch
/// number and its release flags end.
fn match_at(d: &[u8], i: usize) -> (r: Option<(usize, usize)>)
    requires
        i < d@.len(),
    ensures
        r.is_some() == version_at(d@, i as int),
        r matches Some((p, e)) ==> p == patch_end(d@, i as int) && e == flags_end(d@, p as int),
{
    if i > 0 && is_digit_byte(d[i - 1]) {
        return None;
    }
    if !is_digit_byte(d[i]) {
        return None;
    }
    if !(i + 1 < d.len() && d[i + 1] == 46) {
        return None;
    }
    if !(i + 2 < d.len() && is_digit_byte(d[i + 2])) {
        return None;
    }
    if !(i + 3 < d.len() && d[i + 3] == 46) {
        return None;
    }
    if !(i + 4 < d.len() && is_digit_byte(d[i + 4])) {
        return None;
    }
    let p = i + 4 + digits_upto2_exec(d, i + 4);
    let t = tag_len_exec(d, p);
    let e = if t == 0 {
        p
    } else {
        let n = digits_upto2_exec(d, p + t);
        if n == 0 {
            return None;
        }
        p + t + n
    };
    if !(e < d.len() && d[e] == 32) {
        return None;
    }
    if !(e + 1 < d.len() && d[e + 1] != 10) {
        return None;
    }
    Some((p, e))
}


/// A byte that may stand in release flags.
pub open spec fn flag_byte(b: u8) -> bool {
    is_digit(b) || b == 97 || b == 98 || b == 99 || b == 114
}

/// The one-character string of a flag byte.
fn flag_str(b: u8) -> (r: &'static str)
    requires
        flag_byte(b),
    ensures
        r@ == seq![b as char],
{
    proof {
        reveal_strlit("0");
        reveal_strlit("1");
        reveal_strlit("2");
        reveal_strlit("3");
        reveal_strlit("4");
        reveal_strlit("5");
        reveal_strlit("6");
        reveal_strlit("7");
        reveal_strlit("8");
        reveal_strlit("9");
        reveal_strlit("a");
        reveal_strlit("b");
        reveal_strlit("c");
        reveal_strlit("r");
    }
    if b == 48 {
        "0"
    } else if b == 49 {
        "1"
    } else if b == 50 {
        "2"
    } else if b == 51 {
        "3"
    } else if b == 52 {
        "4"
    } else if b == 53 {
        "5"
    } else if b == 54 {
        "6"
    } else if b == 55 {
        "7"
    } else if b == 56 {
        "8"
    } else if b == 57 {
        "9"
    } else if b == 97 {
        "a"
    } else if b == 98 {
        "b"
    } else if b == 99 {
        "c"
    } else {
        "r"
    }
}

/// Builds the version that a matched string at `i` denotes.
fn build_version(d: &[u8], i: usize, p: usize, e: usize) -> (v: Version)
    requires
        version_at(d@, i as int),
        p == patch_end(d@, i as int),
        e == flags_end(d@, p as int),
    ensures
        v@ == version_of(d@, i as int),
{
    let major = (d[i] - 48) as u64;
    let minor = (d[i + 2] - 48) as u64;
    let patch = if p == i + 6 {
        10 * ((d[i + 4] - 48) as u64) + ((d[i + 5] - 48) as u64)
    } else {
        (d[i + 4] - 48) as u64
    };
    assert forall|j: int| p <= j < e implies flag_byte(#[trigger] d@[j]) by {
        let t = tag_len(d@, p as int);
        if j < p + t {
            assert(j == p || j == p + 1);
        } else {
            assert(digit_at(d@, j));
        }
    }
    let mut flags = String::new();
    let mut k: usize = p;
    while k < e
        invariant
            p <= k <= e,
            e < d@.len(),
            forall|j: int| p <= j < e ==> flag_byte(#[trigger] d@[j]),
            flags@ == ascii_chars(d@.subrange(p as int, k as int)),
        decreases e - k,
    {
        flags.append(flag_str(d[k]));
        k = k + 1;
        assert(flags@ =~= ascii_chars(d@.subrange(p as int, k as int)));
    }
    Version { major, minor, patch, release_flags: flags }
}

impl Version {
    /// Finds the first version string in `data`: one digit, a dot, one
    /// digit, a dot, one or two digits, optional release flags (`a`, `b`,
    /// `c` or `rc` with one or two digits), a space and one more byte that
    /// is no newline. A digit right before the version string rules that
    /// place out, so `53.7.0` is not read as `3.7.0`.
    pub fn scan_bytes(data: &[u8]) -> (r: Result<Version, SpyError>)
        ensures
            match r {
                Ok(v) => scanned_version(data@) == Some(v@),
                Err(e) => scanned_version(data@) is None && e == SpyError::VersionNotFound,
            },
    {
        let mut i: usize = 0;
        while i < data.len()
            invariant
                i <= data@.len(),
                scan_from(data@, 0) == scan_from(data@, i as int),
            decreases data@.len() - i,
        {
            if let Some((p, e)) = match_at(data, i) {
                return Ok(build_version(data, i, p, e));
            }
            i = i + 1;
        }
        Err(SpyError::VersionNotFound)
    }
}


pub open spec fn digit_char(n: nat) -> char {
    ((n % 10 + 48) as u8) as char
}

/// The decimal digits of `n`, most significant first.
pub open spec fn decimal(n: nat) -> Seq<char>
    decreases n,
{
    if n < 10 {
        seq![digit_char(n)]
    } else {
        decimal(n / 10) + seq![digit_char(n)]
    }
}

/// How a version is printed: `major.minor.patch` then the release flags.
pub open spec fn display_chars(v: VersionView) -> Seq<char> {
    decimal(v.major) + seq!['.'] + decimal(v.minor) + seq!['.'] + decimal(v.patch)
        + v.release_flags
}

pub(crate) fn push_decimal(s: &mut String, n: u64)
    ensures
        final(s)@ == old(s)@ + decimal(n as nat),
    decreases n,
{
    if n >= 10 {
        push_decimal(s, n / 10);
    }
    s.append(flag_str((n % 10) as u8 + 48));
}

impl Version {
    /// The version as text, e.g. `3.7.0rc1`.
    pub fn to_string(&self) -> (r: String)
        ensures
            r@ == display_chars(self@),
    {
        proof {
            reveal_strlit(".");
        }
        let mut s = String::new();
        push_decimal(&mut s, self.major);
        s.append(".");
        push_decimal(&mut s, self.minor);
        s.append(".");
        push_decimal(&mut s, self.patch);
        s.append(self.release_flags.as_str());
        assert(s@ =~= display_chars(self@));
        s
    }
}


pub open spec fn is_digit_char(c: char) -> bool {
    '0' <= c && c <= '9'
}

/// Release flags as the version pattern admits them: empty, or `a`, `b`,
/// `c` or `rc` followed by one or two digits.
pub open spec fn flags_valid(f: Seq<char>) -> bool {
    ||| f.len() == 0
    ||| (2 <= f.len() <= 3 && (f[0] == 'a' || f[0] == 'b' || f[0] == 'c') && forall|k: int|
        1 <= k < f.len() ==> is_digit_char(#[trigger] f[k]))
    ||| (3 <= f.len() <= 4 && f[0] == 'r' && f[1] == 'c' && forall|k: int|
        2 <= k < f.len() ==> is_digit_char(#[trigger] f[k]))
}

/// A version that the pattern can express.
pub open spec fn version_valid(v: VersionView) -> bool {
    v.major < 10 && v.minor < 10 && v.patch < 100 && flags_valid(v.release_flags)
}

pub open spec fn ascii_bytes(s: Seq<char>) -> Seq<u8> {
    Seq::new(s.len(), |k: int| s[k] as u8)
}

/// Printing a version the pattern can express and scanning the result,
/// followed by a space and any byte but a newline, gives the version back.
pub proof fn lemma_version_round_trip(v: VersionView, rest: Seq<u8>)
    requires
        version_valid(v),
        rest.len() >= 2,
        rest[0] == 32,
        rest[1] != 10,
    ensures
        scanned_version(ascii_bytes(display_chars(v)) + rest) == Some(v),
{
    let d = ascii_bytes(display_chars(v)) + rest;
    let f = v.release_flags;
    let pl: int = if v.patch < 10 { 1 } else { 2 };
    assert(decimal(v.major) == seq![digit_char(v.major)]);
    assert(decimal(v.minor) == seq![digit_char(v.minor)]);
    if v.patch < 10 {
        assert(decimal(v.patch) == seq![digit_char(v.patch)]);
    } else {
        assert(decimal(v.patch / 10) == seq![digit_char(v.patch / 10)]);
        assert(decimal(v.patch) == seq![digit_char(v.patch / 10), digit_char(v.patch)]);
    }
    let head = ascii_bytes(display_chars(v));
    assert(head.len() == 4 + pl + f.len());
    assert(d[0] == v.major + 48);
    assert(d[1] == 46);
    assert(d[2] == v.minor + 48);
    assert(d[3] == 46);
    if v.patch < 10 {
        assert(d[4] == v.patch + 48);
    } else {
        assert(d[4] == v.patch / 10 + 48);
        assert(d[5] == v.patch % 10 + 48);
    }
    let p = 4 + pl;
    assert forall|k: int| 0 <= k < f.len() implies d[p + k] == f[k] as u8 by {
        assert(d[p + k] == head[p + k]);
    }
    assert(d[p + f.len()] == 32);
    assert(d[p + f.len() + 1] == rest[1]);
    assert(digits_upto2(d, 4) == pl);
    assert(patch_end(d, 0) == p);
    assert(flags_end(d, p) == p + f.len());
    assert(version_at(d, 0));
    assert(ascii_chars(d.subrange(p, p + f.len())) =~= f);
    assert(version_of(d, 0) == v);
}


/// A version is reported only where the whole pattern stands: no digit
/// right before it, a dot after the major and the minor digit, and after
/// the patch number only release flags, a space and one more byte; and no
/// such place comes earlier.
pub proof fn lemma_scanned_version_matches(d: Seq<u8>, i: int)
    requires
        0 <= i,
        scan_from(d, i) is Some,
    ensures
        exists|k: int|
            i <= k && version_at(d, k) && scan_from(d, i) == Some(version_of(d, k)) && forall|j: int|
                i <= j < k ==> !version_at(d, j),
    decreases d.len() - i,
{
    if version_at(d, i) {
        assert(i <= i && version_at(d, i) && scan_from(d, i) == Some(version_of(d, i)));
    } else {
        lemma_scanned_version_matches(d, i + 1);
        let k = choose|k: int|
            i + 1 <= k && version_at(d, k) && scan_from(d, i + 1) == Some(version_of(d, k)) && forall|j: int|
                i + 1 <= j < k ==> !version_at(d, j);
        assert(i <= k && version_at(d, k) && scan_from(d, i) == Some(version_of(d, k)) && forall|j: int|
            i <= j < k ==> !version_at(d, j));
    }
}

} // verus!
