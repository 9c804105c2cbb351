use vstd::prelude::*;

verus! {

/// Position `n` holds the terminating zero of the C string at the start of `s`.
pub open spec fn nul_at(s: Seq<u8>, n: int) -> bool {
    0 <= n < s.len() && s[n] == 0 && forall|i: int| 0 <= i < n ==> #[trigger] s[i] != 0
}

/// `s` holds a terminated C string.
pub open spec fn is_cstr(s: Seq<u8>) -> bool {
    exists|n: int| 0 <= n < s.len() && s[n] == 0
}

/// A byte as a C `int`.
pub fn byte_value(b: u8) -> (r: i32)
    ensures
        r == b,
{
    b as i32
}

/// An index as a mathematical integer.
pub open spec fn index_of(i: usize) -> int {
    i as int
}

/// ASCII upper case of byte `b`.
pub open spec fn upper_byte(b: u8) -> int {
    upper(b as int)
}

/// Length of the C string at the start of `s`.
pub fn strlen(s: &[u8]) -> (l: usize)
    requires
        is_cstr(s@),
    ensures
        nul_at(s@, l as int),
{
    let n = s.len();
    let mut l: usize = 0;
    while s[l] != 0
        invariant
            n == s@.len(),
            l < n,
            is_cstr(s@),
            forall|i: int| 0 <= i < l ==> #[trigger] s@[i] != 0,
        decreases n - l,
    {
        proof {
            let k = choose|k: int| 0 <= k < s@.len() && s@[k] == 0;
            assert(k > l);
        }
        l += 1;
    }
    l
}

/// What comparing two C strings from position `i` gives: the difference of the first bytes
/// that differ, zero once both end together.
pub open spec fn diff_from(a: Seq<u8>, b: Seq<u8>, i: int) -> int
    decreases a.len() - i,
{
    if i < 0 || i >= a.len() || i >= b.len() {
        0
    } else if a[i] != b[i] {
        a[i] - b[i]
    } else if a[i] == 0 {
        0
    } else {
        diff_from(a, b, i + 1)
    }
}

/// What comparing at most `n` bytes of two C strings from position `i` gives.
pub open spec fn ndiff_from(a: Seq<u8>, b: Seq<u8>, i: int, n: int) -> int
    decreases n - i,
{
    if i < 0 || i >= n || i >= a.len() || i >= b.len() {
        0
    } else if a[i] != b[i] {
        a[i] - b[i]
    } else if a[i] == 0 {
        0
    } else {
        ndiff_from(a, b, i + 1, n)
    }
}

/// Compares two C strings byte by byte.
fn str_diff(s1: &[u8], s2: &[u8]) -> (r: i32)
    requires
        is_cstr(s1@),
        is_cstr(s2@),
    ensures
        r == diff_from(s1@, s2@, 0),
{
    let n1 = s1.len();
    let n2 = s2.len();
    let mut i: usize = 0;
    loop
        invariant
            n1 == s1@.len(),
            n2 == s2@.len(),
            i < n1 && i < n2,
            is_cstr(s1@),
            is_cstr(s2@),
            forall|j: int| 0 <= j < i ==> #[trigger] s1@[j] == s2@[j] && s1@[j] != 0,
            diff_from(s1@, s2@, 0) == diff_from(s1@, s2@, i as int),
        decreases n1 - i,
    {
        let c1 = s1[i];
        let c2 = s2[i];
        if c1 != c2 {
            return byte_value(c1) - byte_value(c2);
        }
        if c1 == 0 {
            return 0;
        }
        proof {
            let k1 = choose|k: int| 0 <= k < s1@.len() && s1@[k] == 0;
            let k2 = choose|k: int| 0 <= k < s2@.len() && s2@[k] == 0;
            assert(k1 > i);
            if k2 < i {
                assert(s1@[k2] == s2@[k2]);
            }
            assert(k2 > i);
        }
        i += 1;
    }
}

/// Compares at most `n` bytes of two C strings.
fn strn_diff(s1: &[u8], s2: &[u8], n: usize) -> (r: i32)
    requires
        is_cstr(s1@) || n <= s1@.len(),
        is_cstr(s2@) || n <= s2@.len(),
    ensures
        r == ndiff_from(s1@, s2@, 0, n as int),
{
    let n1 = s1.len();
    let n2 = s2.len();
    let mut i: usize = 0;
    while i < n
        invariant
            n1 == s1@.len(),
            n2 == s2@.len(),
            is_cstr(s1@) || n <= s1@.len(),
            is_cstr(s2@) || n <= s2@.len(),
            i <= n,
            forall|j: int| 0 <= j < i ==> #[trigger] s1@[j] == s2@[j] && s1@[j] != 0,
            i < n ==> i < n1 && i < n2,
            ndiff_from(s1@, s2@, 0, n as int) == ndiff_from(s1@, s2@, i as int, n as int),
        decreases n - i,
    {
        let c1 = s1[i];
        let c2 = s2[i];
        if c1 != c2 {
            return byte_value(c1) - byte_value(c2);
        }
        if c1 == 0 {
            return 0;
        }
        proof {
            if i + 1 < n {
                if is_cstr(s1@) {
                    let k1 = choose|k: int| 0 <= k < s1@.len() && s1@[k] == 0;
                    assert(k1 > i);
                }
                if is_cstr(s2@) {
                    let k2 = choose|k: int| 0 <= k < s2@.len() && s2@[k] == 0;
                    if k2 < i {
                        assert(s1@[k2] == s2@[k2]);
                    }
                    assert(k2 > i);
                }
            }
        }
        i += 1;
    }
    0
}

/// ASCII upper case of `c`.
pub open spec fn upper(c: int) -> int {
    if 97 <= c <= 122 {
        c - 32
    } else {
        c
    }
}

/// Upper-cases an ASCII letter; anything else is returned as it is.
pub fn toupper(c: i32) -> (r: i32)
    ensures
        r == upper(c as int),
{
    if c >= 97 && c <= 122 {
        c - 32
    } else {
        c
    }
}

/// Lower-cases an ASCII letter; anything else is returned as it is.
pub fn tolower(c: i32) -> (r: i32)
    ensures
        r == if 65 <= c <= 90 {
            c + 32
        } else {
            c as int
        },
{
    if c >= 65 && c <= 90 {
        c + 32
    } else {
        c
    }
}

/// One for space, tab, newline, carriage return, vertical tab and form feed; zero
/// otherwise.
pub fn isspace(c: i32) -> (r: i32)
    ensures
        r == if c == 32 || c == 9 || c == 10 || c == 13 || c == 11 || c == 12 {
            1int
        } else {
            0int
        },
{
    if c == 32 || c == 9 || c == 10 || c == 13 || c == 0x0B || c == 0x0C {
        1
    } else {
        0
    }
}

/// One for an ASCII digit; zero otherwise.
pub fn isdigit(c: i32) -> (r: i32)
    ensures
        r == if 48 <= c <= 57 {
            1int
        } else {
            0int
        },
{
    if c >= 48 && c <= 57 {
        1
    } else {
        0
    }
}

/// Absolute value.
pub fn abs(j: i32) -> (r: i32)
    requires
        j != i32::MIN,
    ensures
        r == if j < 0 {
            -j
        } else {
            j as int
        },
{
    if j < 0 {
        -j
    } else {
        j
    }
}

/// Compares two C strings ignoring ASCII case, from position `i`.
pub open spec fn case_diff_from(a: Seq<u8>, b: Seq<u8>, i: int) -> int
    decreases a.len() - i,
{
    if i < 0 || i >= a.len() || i >= b.len() {
        0
    } else if upper_byte(a[i]) != upper_byte(b[i]) {
        upper_byte(a[i]) - upper_byte(b[i])
    } else if upper_byte(a[i]) == 0 {
        0
    } else {
        case_diff_from(a, b, i + 1)
    }
}

/// Compares two C strings ignoring ASCII case.
fn str_case_diff(s1: &[u8], s2: &[u8]) -> (r: i32)
    requires
        is_cstr(s1@),
        is_cstr(s2@),
    ensures
        r == case_diff_from(s1@, s2@, 0),
{
    let n1 = s1.len();
    let n2 = s2.len();
    let mut i: usize = 0;
    loop
        invariant
            n1 == s1@.len(),
            n2 == s2@.len(),
            i < n1 && i < n2,
            is_cstr(s1@),
            is_cstr(s2@),
            forall|j: int| 0 <= j < i ==> #[trigger] s1@[j] != 0,
            forall|j: int| 0 <= j < i ==> #[trigger] s2@[j] != 0,
            case_diff_from(s1@, s2@, 0) == case_diff_from(s1@, s2@, i as int),
        decreases n1 - i,
    {
        let c1 = toupper(byte_value(s1[i]));
        let c2 = toupper(byte_value(s2[i]));
        if c1 != c2 {
            return c1 - c2;
        }
        if c1 == 0 {
            return 0;
        }
        proof {
            assert(c1 == upper_byte(s1@[i as int]));
            assert(c2 == upper_byte(s2@[i as int]));
            assert(s1@[i as int] != 0 && s2@[i as int] != 0);
            let k1 = choose|k: int| 0 <= k < s1@.len() && s1@[k] == 0;
            let k2 = choose|k: int| 0 <= k < s2@.len() && s2@[k] == 0;
            assert(k1 > i);
            assert(k2 > i);
        }
        i += 1;
    }
}


/// Compares two C strings byte by byte: the difference of the first bytes that differ,
/// zero when both end together.
pub fn strcmp(s1: &[u8], s2: &[u8]) -> (r: i32)
    requires
        is_cstr(s1@),
        is_cstr(s2@),
    ensures
        r == diff_from(s1@, s2@, 0),
{
    str_diff(s1, s2)
}

/// Compares at most `n` bytes of two C strings.
pub fn strncmp(s1: &[u8], s2: &[u8], n: usize) -> (r: i32)
    requires
        is_cstr(s1@) || n <= s1@.len(),
        is_cstr(s2@) || n <= s2@.len(),
    ensures
        r == ndiff_from(s1@, s2@, 0, index_of(n)),
{
    strn_diff(s1, s2, n)
}

/// Compares two C strings ignoring ASCII case.
pub fn strcasecmp(s1: &[u8], s2: &[u8]) -> (r: i32)
    requires
        is_cstr(s1@),
        is_cstr(s2@),
    ensures
        r == case_diff_from(s1@, s2@, 0),
{
    str_case_diff(s1, s2)
}

/// The value of the decimal digits of `s` from position `i`, given `acc` for the digits
/// before, stopping at the first byte that is not a digit.
pub open spec fn atoi_from(s: Seq<u8>, i: int, acc: int) -> int
    decreases s.len() - i,
{
    if i < 0 || i >= s.len() || !(48 <= s[i] <= 57) {
        acc
    } else {
        atoi_from(s, i + 1, acc * 10 + (s[i] - 48))
    }
}

/// Every prefix of the digits from `i` keeps the running value within `i32`.
pub open spec fn atoi_fits(s: Seq<u8>, i: int, acc: int) -> bool
    decreases s.len() - i,
{
    if i < 0 || i >= s.len() || !(48 <= s[i] <= 57) {
        true
    } else {
        acc * 10 + (s[i] - 48) <= i32::MAX && atoi_fits(s, i + 1, acc * 10 + (s[i] - 48))
    }
}

/// The number the leading decimal digits of the C string `s` spell.
pub fn atoi(s: &[u8]) -> (r: i32)
    requires
        is_cstr(s@),
        atoi_fits(s@, 0, 0),
    ensures
        r == atoi_from(s@, 0, 0),
{
    let n = s.len();
    let mut res: i32 = 0;
    let mut p: usize = 0;
    while s[p] >= 48 && s[p] <= 57
        invariant
            n == s@.len(),
            p < n,
            is_cstr(s@),
            0 <= res,
            forall|j: int| 0 <= j < p ==> 48 <= #[trigger] s@[j] <= 57,
            atoi_fits(s@, p as int, res as int),
            atoi_from(s@, 0, 0) == atoi_from(s@, p as int, res as int),
        decreases n - p,
    {
        res = res * 10 + (s[p] - 48) as i32;
        proof {
            let k = choose|k: int| 0 <= k < s@.len() && s@[k] == 0;
            assert(k > p) by {
                if k <= p {
                    assert(48 <= s@[k] <= 57);
                }
            }
        }
        p += 1;
    }
    res
}

} // verus!
