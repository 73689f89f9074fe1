//! Verified text helpers: decimal rendering of integers, pod-name and
//! endpoint construction, lexicographic ordering of names, and
//! ASCII-case-insensitive matching. Everything is specified over `Seq<char>`
//! views, so the record types and the store can state exact contracts about
//! the strings they build and compare.

use vstd::prelude::*;

verus! {

/// The character for a single decimal digit.
pub open spec fn digit_char(d: int) -> char {
    if d == 0 {
        '0'
    } else if d == 1 {
        '1'
    } else if d == 2 {
        '2'
    } else if d == 3 {
        '3'
    } else if d == 4 {
        '4'
    } else if d == 5 {
        '5'
    } else if d == 6 {
        '6'
    } else if d == 7 {
        '7'
    } else if d == 8 {
        '8'
    } else {
        '9'
    }
}

/// The decimal rendering of a non-negative integer, most significant digit
/// first, with no leading zeros (`0` renders as `"0"`).
pub open spec fn spec_dec(n: int) -> Seq<char>
    decreases n,
{
    if n < 10 {
        seq![digit_char(n)]
    } else {
        spec_dec(n / 10).push(digit_char(n % 10))
    }
}

pub proof fn lemma_dec_len(n: int)
    requires
        n >= 0,
    ensures
        spec_dec(n).len() >= 1,
        n >= 10 ==> spec_dec(n).len() >= 2,
    decreases n,
{
    if n >= 10 {
        lemma_dec_len(n / 10);
    }
}

/// Distinct digits render as distinct characters.
proof fn lemma_digit_char_injective(a: int, b: int)
    requires
        0 <= a < 10,
        0 <= b < 10,
        digit_char(a) == digit_char(b),
    ensures
        a == b,
{
}

/// Decimal rendering is injective: distinct numbers have distinct renderings.
pub proof fn lemma_dec_injective(a: int, b: int)
    requires
        a >= 0,
        b >= 0,
        spec_dec(a) == spec_dec(b),
    ensures
        a == b,
    decreases a,
{
    lemma_dec_len(a);
    lemma_dec_len(b);
    if a < 10 && b < 10 {
        assert(spec_dec(a) == seq![digit_char(a)]);
        assert(spec_dec(b) == seq![digit_char(b)]);
        assert(seq![digit_char(a)][0] == digit_char(a));
        assert(seq![digit_char(b)][0] == digit_char(b));
        lemma_digit_char_injective(a, b);
    } else if a >= 10 && b >= 10 {
        let sa = spec_dec(a / 10);
        let sb = spec_dec(b / 10);
        assert(spec_dec(a).last() == digit_char(a % 10));
        assert(spec_dec(b).last() == digit_char(b % 10));
        lemma_digit_char_injective(a % 10, b % 10);
        assert(sa =~= sb) by {
            assert(sa == spec_dec(a).drop_last());
            assert(sb == spec_dec(b).drop_last());
        }
        lemma_dec_injective(a / 10, b / 10);
    } else {
        // One rendering has a single character, the other at least two.
        assert(spec_dec(a).len() != spec_dec(b).len());
    }
}

/// The one-character string for a decimal digit.
fn digit_str(d: u32) -> (s: &'static str)
    requires
        d < 10,
    ensures
        s@ == seq![digit_char(d as int)],
{
    proof {
        reveal_strlit("0");
        reveal_strlit("1");
        reveal_strlit("2");
        reveal_strlit("3");
        reveal_strlit("4");
        reveal_strlit("5");
        reveal_strlit("6");
        reveal_strlit("7");
        reveal_strlit("8");
        reveal_strlit("9");
    }
    if d == 0 {
        "0"
    } else if d == 1 {
        "1"
    } else if d == 2 {
        "2"
    } else if d == 3 {
        "3"
    } else if d == 4 {
        "4"
    } else if d == 5 {
        "5"
    } else if d == 6 {
        "6"
    } else if d == 7 {
        "7"
    } else if d == 8 {
        "8"
    } else {
        "9"
    }
}

/// Renders a number in decimal.
pub fn u32_dec_str(n: u32) -> (s: String)
    ensures
        s@ == spec_dec(n as int),
    decreases n,
{
    if n < 10 {
        String::from_str(digit_str(n))
    } else {
        let mut s = u32_dec_str(n / 10);
        s.append(digit_str(n % 10));
        s
    }
}

/// The name of a pod: the owning deployment's name, a dash, and the
/// pod's index in decimal.
pub open spec fn spec_pod_name(deployment: Seq<char>, index: int) -> Seq<char> {
    deployment + seq!['-'] + spec_dec(index)
}

/// Pod names of one deployment determine the index: equal names mean equal
/// indices.
pub proof fn lemma_pod_name_injective(deployment: Seq<char>, i: int, j: int)
    requires
        i >= 0,
        j >= 0,
        spec_pod_name(deployment, i) == spec_pod_name(deployment, j),
    ensures
        i == j,
{
    let d = deployment.len() as int;
    let ni = spec_pod_name(deployment, i);
    let nj = spec_pod_name(deployment, j);
    assert(spec_dec(i) =~= ni.subrange(d + 1, ni.len() as int));
    assert(spec_dec(j) =~= nj.subrange(d + 1, nj.len() as int));
    lemma_dec_injective(i, j);
}

/// Builds the name of a pod.
pub fn pod_name(deployment: &str, index: u32) -> (s: String)
    ensures
        s@ == spec_pod_name(deployment@, index as int),
{
    proof {
        reveal_strlit("-");
    }
    let mut s = String::from_str(deployment);
    s.append("-");
    let num = u32_dec_str(index);
    s.append(num.as_str());
    assert(s@ =~= spec_pod_name(deployment@, index as int));
    s
}

/// The HTTP base address of a node: `http://<address>:<port>`.
pub open spec fn spec_endpoint(address: Seq<char>, port: int) -> Seq<char> {
    "http://"@ + address + seq![':'] + spec_dec(port)
}

/// Builds the endpoint of a node.
pub fn endpoint_str(address: &str, port: u16) -> (s: String)
    ensures
        s@ == spec_endpoint(address@, port as int),
{
    proof {
        reveal_strlit("http://");
        reveal_strlit(":");
    }
    let mut s = String::from_str("http://");
    s.append(address);
    s.append(":");
    let num = u32_dec_str(port as u32);
    s.append(num.as_str());
    assert(s@ =~= spec_endpoint(address@, port as int));
    s
}

/// Lexicographic strictly-less-than on character sequences, comparing code
/// points, starting at position `i`.
pub open spec fn seq_char_lt_from(a: Seq<char>, b: Seq<char>, i: int) -> bool
    decreases b.len() - i,
{
    if i >= b.len() {
        false
    } else if i >= a.len() {
        true
    } else if (a[i] as u32) < (b[i] as u32) {
        true
    } else if (b[i] as u32) < (a[i] as u32) {
        false
    } else {
        seq_char_lt_from(a, b, i + 1)
    }
}

/// Lexicographic strictly-less-than on character sequences.
pub open spec fn seq_char_lt(a: Seq<char>, b: Seq<char>) -> bool {
    seq_char_lt_from(a, b, 0)
}

/// Compares two strings lexicographically by code point.
pub fn str_lt(a: &str, b: &str) -> (r: bool)
    ensures
        r == seq_char_lt(a@, b@),
{
    let a_len = a.unicode_len();
    let b_len = b.unicode_len();
    let mut i: usize = 0;
    loop
        invariant
            i <= a_len,
            i <= b_len,
            a_len == a@.len(),
            b_len == b@.len(),
            seq_char_lt(a@, b@) == seq_char_lt_from(a@, b@, i as int),
        decreases b_len - i,
    {
        if i >= b_len {
            return false;
        }
        if i >= a_len {
            return true;
        }
        let ca = a.get_char(i) as u32;
        let cb = b.get_char(i) as u32;
        if ca < cb {
            return true;
        }
        if cb < ca {
            return false;
        }
        i = i + 1;
    }
}

/// Compares two strings for equality of their character sequences.
pub fn str_eq(a: &str, b: &str) -> (r: bool)
    ensures
        r == (a@ == b@),
{
    let a_len = a.unicode_len();
    let b_len = b.unicode_len();
    if a_len != b_len {
        return false;
    }
    let mut i: usize = 0;
    while i < a_len
        invariant
            i <= a_len,
            a_len == a@.len(),
            b_len == b@.len(),
            a_len == b_len,
            forall|j: int| 0 <= j < i ==> a@[j] == b@[j],
        decreases a_len - i,
    {
        let ca = a.get_char(i);
        let cb = b.get_char(i);
        if ca != cb {
            return false;
        }
        i = i + 1;
    }
    proof {
        assert(a@ =~= b@);
    }
    true
}

/// The ASCII lower-case image of a code point: upper-case letters move to
/// lower case, every other code point stays.
pub open spec fn lower_code(c: int) -> int {
    if 65 <= c <= 90 {
        c + 32
    } else {
        c
    }
}

/// Equality of two character sequences up to ASCII case.
pub open spec fn eq_ignore_ascii_case(a: Seq<char>, b: Seq<char>) -> bool {
    a.len() == b.len() && forall|i: int|
        0 <= i < a.len() ==> lower_code(a[i] as int) == lower_code(b[i] as int)
}

/// Compares two strings up to ASCII case.
pub fn str_eq_ignore_case(a: &str, b: &str) -> (r: bool)
    ensures
        r == eq_ignore_ascii_case(a@, b@),
{
    let a_len = a.unicode_len();
    let b_len = b.unicode_len();
    if a_len != b_len {
        return false;
    }
    let mut i: usize = 0;
    while i < a_len
        invariant
            i <= a_len,
            a_len == a@.len(),
            b_len == b@.len(),
            a_len == b_len,
            forall|j: int| 0 <= j < i ==> lower_code(a@[j] as int) == lower_code(b@[j] as int),
        decreases a_len - i,
    {
        let mut ca = a.get_char(i) as u32;
        let mut cb = b.get_char(i) as u32;
        if 65 <= ca && ca <= 90 {
            ca = ca + 32;
        }
        if 65 <= cb && cb <= 90 {
            cb = cb + 32;
        }
        if ca != cb {
            return false;
        }
        i = i + 1;
    }
    true
}

} // verus!
