//! Deployment manifests: the structures a manifest file decodes into, their
//! validation, and the unit parsing that turns CPU and memory strings into
//! millicores and megabytes. Decoding bytes into these structures happens
//! outside the library; everything from there on is exact.

use vstd::prelude::*;

use crate::error::{CliError, CliResult};
use crate::models::{CreateDeploymentRequest, Resources, RollingUpdateConfig};

verus! {

// ---------------------------------------------------------------------------
// Trimming
// ---------------------------------------------------------------------------
/// ASCII whitespace, as manifests may carry it around values.
pub open spec fn is_ws(c: char) -> bool {
    c == ' ' || c == '\t' || c == '\n' || c == '\r' || c == '\u{000C}'
}

pub open spec fn trim_front(s: Seq<char>) -> Seq<char>
    decreases s.len(),
{
    if s.len() > 0 && is_ws(s[0]) {
        trim_front(s.drop_first())
    } else {
        s
    }
}

pub open spec fn trim_back(s: Seq<char>) -> Seq<char>
    decreases s.len(),
{
    if s.len() > 0 && is_ws(s.last()) {
        trim_back(s.drop_last())
    } else {
        s
    }
}

/// A sequence without its leading and trailing ASCII whitespace.
pub open spec fn spec_trim(s: Seq<char>) -> Seq<char> {
    trim_back(trim_front(s))
}

proof fn lemma_trim_front_at(s: Seq<char>, i: int)
    requires
        0 <= i <= s.len(),
        forall|j: int| 0 <= j < i ==> is_ws(s[j]),
        i < s.len() ==> !is_ws(s[i]),
    ensures
        trim_front(s) == s.skip(i),
    decreases i,
{
    if i == 0 {
        assert(trim_front(s) =~= s.skip(0));
    } else {
        let t = s.drop_first();
        assert(forall|j: int| 0 <= j < i - 1 ==> t[j] == s[j + 1]);
        assert(i - 1 < t.len() ==> t[i - 1] == s[i]);
        lemma_trim_front_at(t, i - 1);
        assert(trim_front(s) =~= s.skip(i));
    }
}

proof fn lemma_trim_back_at(s: Seq<char>, j: int)
    requires
        0 <= j <= s.len(),
        forall|k: int| j <= k < s.len() ==> is_ws(s[k]),
        j > 0 ==> !is_ws(s[j - 1]),
    ensures
        trim_back(s) == s.take(j),
    decreases s.len(),
{
    if j == s.len() {
        if s.len() == 0 {
            assert(trim_back(s) =~= s.take(j));
        } else {
            assert(!is_ws(s.last()));
            assert(trim_back(s) =~= s.take(j));
        }
    } else {
        let t = s.drop_last();
        assert(forall|k: int| 0 <= k < t.len() ==> t[k] == s[k]);
        lemma_trim_back_at(t, j);
        assert(trim_back(s) =~= s.take(j));
    }
}

/// Trims ASCII whitespace from both ends.
pub fn trim_str<'a>(s: &'a str) -> (r: &'a str)
    ensures
        r@ == spec_trim(s@),
{
    let len = s.unicode_len();
    let mut start: usize = 0;
    while start < len && is_ws_exec(s.get_char(start))
        invariant
            start <= len,
            len == s@.len(),
            forall|j: int| 0 <= j < start ==> is_ws(s@[j]),
        decreases len - start,
    {
        start = start + 1;
    }
    let mut end: usize = len;
    while end > start && is_ws_exec(s.get_char(end - 1))
        invariant
            start <= end <= len,
            len == s@.len(),
            forall|j: int| 0 <= j < start ==> is_ws(s@[j]),
            start < len ==> !is_ws(s@[start as int]),
            forall|k: int| end <= k < len ==> is_ws(s@[k]),
        decreases end,
    {
        end = end - 1;
    }
    proof {
        lemma_trim_front_at(s@, start as int);
        let t = s@.skip(start as int);
        assert(forall|k: int| end - start <= k < t.len() ==> is_ws(t[k]));
        lemma_trim_back_at(t, end - start);
        assert(t.take(end - start) =~= s@.subrange(start as int, end as int));
    }
    s.substring_char(start, end)
}

fn is_ws_exec(c: char) -> (r: bool)
    ensures
        r == is_ws(c),
{
    c == ' ' || c == '\t' || c == '\n' || c == '\r' || c == '\u{000C}'
}

// ---------------------------------------------------------------------------
// Decimal numbers
// ---------------------------------------------------------------------------
pub open spec fn is_digit(c: char) -> bool {
    48 <= c as int <= 57
}

pub open spec fn digit_val(c: char) -> int {
    c as int - 48
}

pub open spec fn all_digits(s: Seq<char>) -> bool {
    forall|i: int| 0 <= i < s.len() ==> is_digit(#[trigger] s[i])
}

/// The number a digit string denotes.
pub open spec fn digits_val(s: Seq<char>) -> int
    decreases s.len(),
{
    if s.len() == 0 {
        0
    } else {
        10 * digits_val(s.drop_last()) + digit_val(s.last())
    }
}

pub proof fn lemma_digits_val_nonneg(s: Seq<char>)
    requires
        all_digits(s),
    ensures
        digits_val(s) >= 0,
    decreases s.len(),
{
    if s.len() > 0 {
        let t = s.drop_last();
        assert(forall|i: int| 0 <= i < t.len() ==> t[i] == s[i]);
        lemma_digits_val_nonneg(t);
    }
}

/// A digit string's value only grows as digits are appended.
pub proof fn lemma_digits_val_monotone(s: Seq<char>, i: int)
    requires
        all_digits(s),
        0 <= i <= s.len(),
    ensures
        digits_val(s.take(i)) <= digits_val(s),
    decreases s.len(),
{
    if i == s.len() {
        assert(s.take(i) =~= s);
    } else {
        let t = s.drop_last();
        assert(forall|k: int| 0 <= k < t.len() ==> t[k] == s[k]);
        assert(s.take(i) =~= t.take(i));
        lemma_digits_val_monotone(t, i);
        lemma_digits_val_nonneg(t);
    }
}

/// What `u32` parsing accepts of a string: a nonempty run of digits whose
/// value fits.
pub open spec fn spec_parse_u32(s: Seq<char>) -> Option<int> {
    if s.len() > 0 && all_digits(s) && digits_val(s) <= u32::MAX {
        Some(digits_val(s))
    } else {
        None
    }
}

/// Parses a nonempty digit string into a `u32`; anything else, including
/// overflow, is `None`.
pub fn parse_u32_digits(s: &str) -> (r: Option<u32>)
    ensures
        match r {
            Some(v) => spec_parse_u32(s@) == Some(v as int),
            None => spec_parse_u32(s@) is None,
        },
{
    let len = s.unicode_len();
    if len == 0 {
        return None;
    }
    let mut acc: u64 = 0;
    let mut i: usize = 0;
    while i < len
        invariant
            i <= len,
            len == s@.len(),
            acc as int == digits_val(s@.take(i as int)),
            acc <= u32::MAX,
            forall|j: int| 0 <= j < i ==> is_digit(#[trigger] s@[j]),
        decreases len - i,
    {
        proof {
            assert(s@.take(i + 1).drop_last() =~= s@.take(i as int));
            assert(s@.take(i + 1).last() == s@[i as int]);
        }
        let c = s.get_char(i) as u32;
        if c < 48 || c > 57 {
            return None;
        }
        let next: u64 = acc * 10 + ((c - 48) as u64);
        if next > u32::MAX as u64 {
            proof {
                if all_digits(s@) {
                    lemma_digits_val_monotone(s@, i + 1);
                }
            }
            return None;
        }
        acc = next;
        i = i + 1;
    }
    proof {
        assert(s@.take(len as int) =~= s@);
    }
    Some(acc as u32)
}

// ---------------------------------------------------------------------------
// CPU quantities
// ---------------------------------------------------------------------------
/// Index of the first `.` in a sequence, `-1` if none.
pub open spec fn dot_pos(s: Seq<char>) -> int
    decreases s.len(),
{
    if s.len() == 0 {
        -1
    } else if s[0] == '.' {
        0
    } else {
        let rest = dot_pos(s.drop_first());
        if rest < 0 {
            -1
        } else {
            rest + 1
        }
    }
}

/// The first three fractional digits, padded with zeros: the thousandths a
/// fractional part contributes.
pub open spec fn frac3(f: Seq<char>) -> int {
    (if f.len() > 0 {
        digit_val(f[0])
    } else {
        0
    }) * 100 + (if f.len() > 1 {
        digit_val(f[1])
    } else {
        0
    }) * 10 + if f.len() > 2 {
        digit_val(f[2])
    } else {
        0
    }
}

/// Millicores denoted by a fractional-cores string (`"0.5"` is half a
/// core): the value times a thousand, rounded down and clamped into `u32`;
/// zero if the string is not a decimal number.
pub open spec fn spec_cores_millis(t: Seq<char>) -> int {
    let dp = dot_pos(t);
    if dp < 0 {
        if t.len() > 0 && all_digits(t) {
            crate::agent::clamp_u32(1000 * digits_val(t))
        } else {
            0
        }
    } else {
        let a = t.take(dp);
        let f = t.skip(dp + 1);
        if all_digits(a) && all_digits(f) && (a.len() > 0 || f.len() > 0) {
            crate::agent::clamp_u32(1000 * digits_val(a) + frac3(f))
        } else {
            0
        }
    }
}

/// Millicores denoted by a CPU string: `"<n>m"` is taken as millicores,
/// anything else as fractional cores.
pub open spec fn spec_to_millis_str(s: Seq<char>) -> int {
    let t = spec_trim(s);
    if t.len() > 0 && t.last() == 'm' {
        match spec_parse_u32(t.drop_last()) {
            Some(v) => v,
            None => 0,
        }
    } else {
        spec_cores_millis(t)
    }
}

proof fn lemma_dot_pos_at(s: Seq<char>, i: int)
    requires
        0 <= i <= s.len(),
        forall|j: int| 0 <= j < i ==> s[j] != '.',
        i < s.len() ==> s[i] == '.',
    ensures
        dot_pos(s) == if i == s.len() {
            -1int
        } else {
            i
        },
    decreases i,
{
    if s.len() == 0 {
    } else if i == 0 {
    } else {
        let t = s.drop_first();
        assert(forall|j: int| 0 <= j < i - 1 ==> t[j] == s[j + 1]);
        assert(i - 1 < t.len() ==> t[i - 1] == s[i]);
        lemma_dot_pos_at(t, i - 1);
    }
}

/// Parses a trimmed fractional-cores string into millicores, exactly as
/// `spec_cores_millis` says.
fn cores_to_millis(t: &str) -> (r: u32)
    ensures
        r as int == spec_cores_millis(t@),
{
    let len = t.unicode_len();
    // find the dot
    let mut dp: usize = 0;
    while dp < len && t.get_char(dp) != '.'
        invariant
            dp <= len,
            len == t@.len(),
            forall|j: int| 0 <= j < dp ==> t@[j] != '.',
        decreases len - dp,
    {
        dp = dp + 1;
    }
    proof {
        lemma_dot_pos_at(t@, dp as int);
        assert(t@.subrange(0, len as int) =~= t@);
        assert(t@.subrange(0, dp as int) =~= t@.take(dp as int));
        if dp < len {
            assert(t@.subrange(dp + 1, len as int) =~= t@.skip(dp + 1));
        }
    }
    if dp == len {
        // integer cores
        match parse_clamped(t, 0, len) {
            Some(v) => {
                if len == 0 {
                    0
                } else {
                    let m: u64 = 1000u64 * v;
                    if m > u32::MAX as u64 {
                        u32::MAX
                    } else {
                        m as u32
                    }
                }
            },
            None => 0,
        }
    } else {
        let a = parse_clamped(t, 0, dp);
        let f_ok = digits_only(t, dp + 1, len);
        match (a, f_ok) {
            (Some(av), true) => {
                if dp == 0 && dp + 1 == len {
                    // just a dot: no digits at all
                    0
                } else {
                    let f3 = frac3_of(t, dp + 1, len);
                    let m: u64 = 1000u64 * av + (f3 as u64);
                    if m > u32::MAX as u64 {
                        u32::MAX
                    } else {
                        m as u32
                    }
                }
            },
            _ => 0,
        }
    }
}

/// Whether the characters of `s` in `[from, to)` are all digits.
fn digits_only(s: &str, from: usize, to: usize) -> (r: bool)
    requires
        from <= to <= s@.len(),
    ensures
        r == all_digits(s@.subrange(from as int, to as int)),
{
    let mut i: usize = from;
    while i < to
        invariant
            from <= i <= to <= s@.len(),
            forall|j: int| from <= j < i ==> is_digit(#[trigger] s@[j]),
        decreases to - i,
    {
        let c = s.get_char(i) as u32;
        if c < 48 || c > 57 {
            proof {
                assert(s@.subrange(from as int, to as int)[i - from] == s@[i as int]);
            }
            return false;
        }
        i = i + 1;
    }
    proof {
        assert forall|j: int| 0 <= j < to - from implies is_digit(
            #[trigger] s@.subrange(from as int, to as int)[j],
        ) by {
            assert(s@.subrange(from as int, to as int)[j] == s@[from + j]);
        }
    }
    true
}

/// The value of the digits of `s` in `[from, to)`, clamped at `2^32`;
/// `None` if they are not all digits. The clamp keeps the arithmetic in
/// range: any clamped value already saturates the result.
fn parse_clamped(s: &str, from: usize, to: usize) -> (r: Option<u64>)
    requires
        from <= to <= s@.len(),
    ensures
        match r {
            Some(v) => all_digits(s@.subrange(from as int, to as int)) && v <= 0x100000000u64 && (
            v == 0x100000000u64 <==> digits_val(s@.subrange(from as int, to as int))
                >= 0x100000000) && (v < 0x100000000u64 ==> v as int == digits_val(
                s@.subrange(from as int, to as int),
            )),
            None => !all_digits(s@.subrange(from as int, to as int)),
        },
{
    let ghost whole = s@.subrange(from as int, to as int);
    let mut acc: u64 = 0;
    let mut i: usize = from;
    while i < to
        invariant
            from <= i <= to <= s@.len(),
            whole == s@.subrange(from as int, to as int),
            forall|j: int| from <= j < i ==> is_digit(#[trigger] s@[j]),
            acc <= 0x100000000u64,
            acc < 0x100000000u64 ==> acc as int == digits_val(
                s@.subrange(from as int, i as int),
            ),
            acc == 0x100000000u64 ==> digits_val(s@.subrange(from as int, i as int))
                >= 0x100000000,
        decreases to - i,
    {
        proof {
            assert(s@.subrange(from as int, i + 1).drop_last() =~= s@.subrange(
                from as int,
                i as int,
            ));
            assert(s@.subrange(from as int, i + 1).last() == s@[i as int]);
            assert forall|j: int| 0 <= j < i - from implies is_digit(
                #[trigger] s@.subrange(from as int, i as int)[j],
            ) by {
                assert(s@.subrange(from as int, i as int)[j] == s@[from + j]);
            }
            lemma_digits_val_nonneg(s@.subrange(from as int, i as int));
        }
        let c = s.get_char(i) as u32;
        if c < 48 || c > 57 {
            proof {
                assert(whole[i - from] == s@[i as int]);
            }
            return None;
        }
        let next: u64 = acc * 10 + ((c - 48) as u64);
        acc = if next > 0x100000000u64 {
            0x100000000u64
        } else {
            next
        };
        i = i + 1;
    }
    proof {
        assert(s@.subrange(from as int, to as int) =~= whole);
        assert forall|j: int| 0 <= j < whole.len() implies is_digit(#[trigger] whole[j]) by {
            assert(whole[j] == s@[from + j]);
        }
        lemma_digits_val_nonneg(whole);
    }
    Some(acc)
}

/// The thousandths contributed by the fractional digits of `s` in
/// `[from, to)`, which must all be digits.
fn frac3_of(s: &str, from: usize, to: usize) -> (r: u32)
    requires
        from <= to <= s@.len(),
        all_digits(s@.subrange(from as int, to as int)),
    ensures
        r as int == frac3(s@.subrange(from as int, to as int)),
        r <= 999,
{
    let ghost f = s@.subrange(from as int, to as int);
    let flen = to - from;
    let d0: u32 = if flen > 0 {
        proof {
            assert(f[0] == s@[from as int]);
        }
        (s.get_char(from) as u32) - 48
    } else {
        0
    };
    let d1: u32 = if flen > 1 {
        proof {
            assert(f[1] == s@[from + 1]);
        }
        (s.get_char(from + 1) as u32) - 48
    } else {
        0
    };
    let d2: u32 = if flen > 2 {
        proof {
            assert(f[2] == s@[from + 2]);
        }
        (s.get_char(from + 2) as u32) - 48
    } else {
        0
    };
    d0 * 100 + d1 * 10 + d2
}

// ---------------------------------------------------------------------------
// The manifest structures
// ---------------------------------------------------------------------------
/// The resource kinds a manifest may declare.
#[derive(Debug, Clone, Copy, PartialEq, Eq, Structural)]
pub enum Kind {
    Deployment,
}

/// A CPU request: either millicores outright, or a string with a unit.
#[derive(Debug)]
pub enum CpuValue {
    Millis(u32),
    String(String),
}

impl Clone for CpuValue {
    fn clone(&self) -> (r: CpuValue)
        ensures
            r == *self,
    {
        match self {
            CpuValue::Millis(m) => CpuValue::Millis(*m),
            CpuValue::String(s) => CpuValue::String(s.clone()),
        }
    }
}

/// The millicores a CPU request denotes.
pub open spec fn spec_cpu_millis(c: CpuValue) -> int {
    match c {
        CpuValue::Millis(m) => m as int,
        CpuValue::String(s) => spec_to_millis_str(s@),
    }
}

impl CpuValue {
    /// The request in millicores: `"<n>m"` is millicores, a bare or
    /// fractional number is cores; anything unparsable counts as zero.
    pub fn to_millis(&self) -> (r: u32)
        ensures
            r as int == spec_cpu_millis(*self),
    {
        match self {
            CpuValue::Millis(m) => *m,
            CpuValue::String(s) => {
                let t = trim_str(s.as_str());
                let len = t.unicode_len();
                if len > 0 && t.get_char(len - 1) == 'm' {
                    proof {
                        assert(t@.subrange(0, t@.len() - 1) =~= t@.drop_last());
                    }
                    match parse_u32_digits(t.substring_char(0, len - 1)) {
                        Some(v) => v,
                        None => 0,
                    }
                } else {
                    cores_to_millis(t)
                }
            },
        }
    }
}

/// A memory request: either megabytes outright, or a string with a unit.
#[derive(Debug)]
pub enum MemoryValue {
    Megabytes(u32),
    String(String),
}

impl Clone for MemoryValue {
    fn clone(&self) -> (r: MemoryValue)
        ensures
            r == *self,
    {
        match self {
            MemoryValue::Megabytes(m) => MemoryValue::Megabytes(*m),
            MemoryValue::String(s) => MemoryValue::String(s.clone()),
        }
    }
}

/// Whether a sequence ends with the given suffix.
pub open spec fn ends_with(s: Seq<char>, suffix: Seq<char>) -> bool {
    s.len() >= suffix.len() && s.skip(s.len() - suffix.len()) == suffix
}

/// The digits' value, or zero when they do not parse as a `u32`.
pub open spec fn parse_or_zero(s: Seq<char>) -> int {
    match spec_parse_u32(s) {
        Some(v) => v,
        None => 0,
    }
}

/// The megabytes a memory string denotes: `Mi`/`M` are megabytes,
/// `Gi`/`G` gibibytes (times 1024, saturating), a bare number megabytes.
pub open spec fn spec_to_megabytes_str(s: Seq<char>) -> int {
    let t = spec_trim(s);
    if ends_with(t, "Mi"@) {
        parse_or_zero(t.take(t.len() - 2))
    } else if ends_with(t, "Gi"@) {
        crate::agent::clamp_u32(1024 * parse_or_zero(t.take(t.len() - 2)))
    } else if ends_with(t, "M"@) {
        parse_or_zero(t.take(t.len() - 1))
    } else if ends_with(t, "G"@) {
        crate::agent::clamp_u32(1024 * parse_or_zero(t.take(t.len() - 1)))
    } else {
        parse_or_zero(t)
    }
}

/// The megabytes a memory request denotes.
pub open spec fn spec_memory_mb(m: MemoryValue) -> int {
    match m {
        MemoryValue::Megabytes(v) => v as int,
        MemoryValue::String(s) => spec_to_megabytes_str(s@),
    }
}

/// Strips a one- or two-character suffix if present; used for memory units.
fn strip_suffix_1or2<'a>(t: &'a str, c0: Option<char>, c1: char) -> (r: Option<&'a str>)
    ensures
        ({
            let suffix = match c0 {
                Some(c) => seq![c, c1],
                None => seq![c1],
            };
            match r {
                Some(stripped) => ends_with(t@, suffix) && stripped@ == t@.take(
                    t@.len() - suffix.len(),
                ),
                None => !ends_with(t@, suffix),
            }
        }),
{
    let len = t.unicode_len();
    match c0 {
        Some(c) => {
            if len >= 2 && t.get_char(len - 2) == c && t.get_char(len - 1) == c1 {
                proof {
                    assert(t@.skip(t@.len() - 2) =~= seq![c, c1]);
                }
                Some(t.substring_char(0, len - 2))
            } else {
                proof {
                    if t@.len() >= 2 && t@.skip(t@.len() - 2) == seq![c, c1] {
                        assert(t@.skip(t@.len() - 2)[0] == t@[t@.len() - 2]);
                        assert(t@.skip(t@.len() - 2)[1] == t@[t@.len() - 1]);
                    }
                }
                None
            }
        },
        None => {
            if len >= 1 && t.get_char(len - 1) == c1 {
                proof {
                    assert(t@.skip(t@.len() - 1) =~= seq![c1]);
                }
                Some(t.substring_char(0, len - 1))
            } else {
                proof {
                    if t@.len() >= 1 && t@.skip(t@.len() - 1) == seq![c1] {
                        assert(t@.skip(t@.len() - 1)[0] == t@[t@.len() - 1]);
                    }
                }
                None
            }
        },
    }
}

impl MemoryValue {
    /// The request in megabytes: `"<n>Mi"`/`"<n>M"` are megabytes,
    /// `"<n>Gi"`/`"<n>G"` gibibytes, a bare number megabytes; anything
    /// unparsable counts as zero.
    pub fn to_megabytes(&self) -> (r: u32)
        ensures
            r as int == spec_memory_mb(*self),
    {
        match self {
            MemoryValue::Megabytes(m) => *m,
            MemoryValue::String(s) => {
                proof {
                    reveal_strlit("Mi");
                    reveal_strlit("Gi");
                    reveal_strlit("M");
                    reveal_strlit("G");
                    assert("Mi"@ =~= seq!['M', 'i']);
                    assert("Gi"@ =~= seq!['G', 'i']);
                    assert("M"@ =~= seq!['M']);
                    assert("G"@ =~= seq!['G']);
                }
                let t = trim_str(s.as_str());
                if let Some(stripped) = strip_suffix_1or2(t, Some('M'), 'i') {
                    match parse_u32_digits(stripped) {
                        Some(v) => v,
                        None => 0,
                    }
                } else if let Some(stripped) = strip_suffix_1or2(t, Some('G'), 'i') {
                    match parse_u32_digits(stripped) {
                        Some(v) => {
                            let m: u64 = (v as u64) * 1024;
                            if m > u32::MAX as u64 {
                                u32::MAX
                            } else {
                                m as u32
                            }
                        },
                        None => 0,
                    }
                } else if let Some(stripped) = strip_suffix_1or2(t, None, 'M') {
                    match parse_u32_digits(stripped) {
                        Some(v) => v,
                        None => 0,
                    }
                } else if let Some(stripped) = strip_suffix_1or2(t, None, 'G') {
                    match parse_u32_digits(stripped) {
                        Some(v) => {
                            let m: u64 = (v as u64) * 1024;
                            if m > u32::MAX as u64 {
                                u32::MAX
                            } else {
                                m as u32
                            }
                        },
                        None => 0,
                    }
                } else {
                    match parse_u32_digits(t) {
                        Some(v) => v,
                        None => 0,
                    }
                }
            },
        }
    }
}

/// The resource requests a manifest declares; either may be absent.
#[derive(Debug)]
pub struct ResourceSpec {
    pub cpu: Option<CpuValue>,
    pub memory: Option<MemoryValue>,
}

impl Clone for ResourceSpec {
    fn clone(&self) -> (r: ResourceSpec)
        ensures
            r == *self,
    {
        ResourceSpec {
            cpu: match &self.cpu {
                Some(c) => Some(c.clone()),
                None => None,
            },
            memory: match &self.memory {
                Some(m) => Some(m.clone()),
                None => None,
            },
        }
    }
}

impl Default for ResourceSpec {
    /// No requests at all.
    fn default() -> (r: ResourceSpec)
        ensures
            r.cpu is None,
            r.memory is None,
    {
        ResourceSpec { cpu: None, memory: None }
    }
}

/// The desired state a manifest declares for one deployment.
#[derive(Debug)]
pub struct DeploymentSpec {
    pub name: String,
    pub image: String,
    pub replicas: u32,
    pub resources: ResourceSpec,
}

impl Clone for DeploymentSpec {
    fn clone(&self) -> (r: DeploymentSpec)
        ensures
            r == *self,
    {
        DeploymentSpec {
            name: self.name.clone(),
            image: self.image.clone(),
            replicas: self.replicas,
            resources: self.resources.clone(),
        }
    }
}

/// One manifest document: a kind and its spec.
#[derive(Debug)]
pub struct DeploymentManifest {
    pub kind: Kind,
    pub spec: DeploymentSpec,
}

impl Clone for DeploymentManifest {
    fn clone(&self) -> (r: DeploymentManifest)
        ensures
            r == *self,
    {
        DeploymentManifest { kind: self.kind, spec: self.spec.clone() }
    }
}

impl DeploymentManifest {
    /// A manifest is valid when it names a deployment and an image.
    pub fn validate(&self) -> (r: CliResult<()>)
        ensures
            self.spec.name@.len() == 0 ==> (r matches Err(CliError::InvalidManifest(m))
                && m@ == "name cannot be empty"@),
            self.spec.name@.len() > 0 && self.spec.image@.len() == 0 ==> (r matches Err(
                CliError::InvalidManifest(m),
            ) && m@ == "image cannot be empty"@),
            self.spec.name@.len() > 0 && self.spec.image@.len() > 0 ==> r is Ok,
    {
        if self.spec.name.as_str().unicode_len() == 0 {
            return Err(CliError::InvalidManifest(String::from_str("name cannot be empty")));
        }
        if self.spec.image.as_str().unicode_len() == 0 {
            return Err(CliError::InvalidManifest(String::from_str("image cannot be empty")));
        }
        Ok(())
    }

    /// The creation request a manifest turns into: units parsed, absent
    /// requests zero, and the default rolling-update bounds.
    pub fn to_create_request(&self) -> (r: CreateDeploymentRequest)
        ensures
            r.name == self.spec.name,
            r.image == self.spec.image,
            r.replicas == self.spec.replicas,
            r.resources.cpu_millis as int == match self.spec.resources.cpu {
                Some(c) => spec_cpu_millis(c),
                None => 0,
            },
            r.resources.memory_mb as int == match self.spec.resources.memory {
                Some(m) => spec_memory_mb(m),
                None => 0,
            },
            r.rolling_update.max_surge == 1,
            r.rolling_update.max_unavailable == 0,
    {
        CreateDeploymentRequest {
            name: self.spec.name.clone(),
            image: self.spec.image.clone(),
            replicas: self.spec.replicas,
            resources: Resources {
                cpu_millis: match &self.spec.resources.cpu {
                    Some(c) => c.to_millis(),
                    None => 0,
                },
                memory_mb: match &self.spec.resources.memory {
                    Some(m) => m.to_megabytes(),
                    None => 0,
                },
            },
            rolling_update: RollingUpdateConfig { max_surge: 1, max_unavailable: 0 },
        }
    }
}

} // verus!
