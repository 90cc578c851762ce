//! Spans of time and the duration-literal parser.
//!
//! A duration literal is a non-negative integer magnitude followed by a unit
//! among `ms`, `s`, `m` and `h`, with optional surrounding whitespace.
//! Invalid literals are rejected with a descriptive error, never silently
//! defaulted.

use vstd::prelude::*;
use vstd::string::StrSliceExecFns;
use vstd::string::StringExecFns;

verus! {

/// A span of time, stored as an exact count of milliseconds.
///
/// The count is kept wide enough that every magnitude a literal can carry
/// (up to `u64::MAX` hours) has an exact representation.
#[derive(Debug, Clone, Copy, PartialEq, Eq, Structural)]
pub struct Duration {
    /// The length of the span in milliseconds.
    pub millis: u128,
}

impl Duration {
    /// A span of `ms` milliseconds.
    pub fn from_millis(ms: u64) -> (d: Duration)
        ensures
            d.millis == ms as u128,
    {
        Duration { millis: ms as u128 }
    }

    /// A span of `secs` seconds.
    pub fn from_secs(secs: u64) -> (d: Duration)
        ensures
            d.millis == secs as u128 * 1000,
    {
        Duration { millis: secs as u128 * 1000 }
    }

    /// The length of the span in milliseconds.
    pub fn as_millis(&self) -> (r: u128)
        ensures
            r == self.millis,
    {
        self.millis
    }
}

/// Unicode `White_Space`, as ignored at either end of a duration literal:
/// the control whitespace, the space separators, and the two line
/// separators.
pub open spec fn is_space_char(c: char) -> bool {
    ||| ('\t' <= c && c <= '\r')
    ||| c == ' '
    ||| c == '\u{85}'
    ||| c == '\u{a0}'
    ||| c == '\u{1680}'
    ||| ('\u{2000}' <= c && c <= '\u{200a}')
    ||| c == '\u{2028}'
    ||| c == '\u{2029}'
    ||| c == '\u{202f}'
    ||| c == '\u{205f}'
    ||| c == '\u{3000}'
}

/// ASCII alphabetic characters; a literal's unit is its longest alphabetic
/// suffix.
pub open spec fn is_unit_char(c: char) -> bool {
    ('a' <= c && c <= 'z') || ('A' <= c && c <= 'Z')
}

/// ASCII decimal digits.
pub open spec fn is_digit_char(c: char) -> bool {
    '0' <= c && c <= '9'
}

/// The numeric value of a digit character.
pub open spec fn digit_val(c: char) -> int {
    c as int - '0' as int
}

/// `s` with its leading whitespace removed.
pub open spec fn trim_front(s: Seq<char>) -> Seq<char>
    decreases s.len(),
{
    if s.len() > 0 && is_space_char(s[0]) {
        trim_front(s.drop_first())
    } else {
        s
    }
}

/// `s` with its trailing whitespace removed.
pub open spec fn trim_back(s: Seq<char>) -> Seq<char>
    decreases s.len(),
{
    if s.len() > 0 && is_space_char(s.last()) {
        trim_back(s.drop_last())
    } else {
        s
    }
}

/// `s` with whitespace removed from both ends.
pub open spec fn trimmed(s: Seq<char>) -> Seq<char> {
    trim_back(trim_front(s))
}

/// The length of the longest alphabetic suffix of `s`: the unit part of a
/// literal.
pub open spec fn unit_len(s: Seq<char>) -> int
    decreases s.len(),
{
    if s.len() > 0 && is_unit_char(s.last()) {
        1 + unit_len(s.drop_last())
    } else {
        0
    }
}

/// The unit part of a trimmed literal: its longest alphabetic suffix.
pub open spec fn unit_part(s: Seq<char>) -> Seq<char> {
    s.subrange(s.len() - unit_len(s), s.len() as int)
}

/// The magnitude part of a trimmed literal: everything before the unit.
pub open spec fn magnitude_part(s: Seq<char>) -> Seq<char> {
    s.subrange(0, s.len() - unit_len(s))
}

/// Whether every character of `s` is a decimal digit.
pub open spec fn all_digits(s: Seq<char>) -> bool {
    forall|k: int| 0 <= k < s.len() ==> is_digit_char(s[k])
}

/// The value of a digit string, most significant digit first.
pub open spec fn digits_val(s: Seq<char>) -> int
    decreases s.len(),
{
    if s.len() == 0 {
        0
    } else {
        digits_val(s.drop_last()) * 10 + digit_val(s.last())
    }
}

/// The digits of a magnitude: a single leading `+` sign is permitted.
pub open spec fn magnitude_body(s: Seq<char>) -> Seq<char> {
    if s.len() > 0 && s[0] == '+' {
        s.drop_first()
    } else {
        s
    }
}

/// Whether `s` is a well-formed magnitude whose value fits in a `u64`.
pub open spec fn is_magnitude(s: Seq<char>) -> bool {
    let b = magnitude_body(s);
    b.len() > 0 && all_digits(b) && digits_val(b) <= u64::MAX
}

/// The value of a well-formed magnitude.
pub open spec fn magnitude_val(s: Seq<char>) -> int {
    digits_val(magnitude_body(s))
}

/// The number of milliseconds one unit stands for, or `None` for an unknown
/// unit.
pub open spec fn unit_multiplier(u: Seq<char>) -> Option<int> {
    if u.len() == 1 && u[0] == 's' {
        Some(1000)
    } else if u.len() == 1 && u[0] == 'm' {
        Some(60000)
    } else if u.len() == 1 && u[0] == 'h' {
        Some(3600000)
    } else if u.len() == 2 && u[0] == 'm' && u[1] == 's' {
        Some(1)
    } else {
        None
    }
}

/// Whether `s` is a valid duration literal: after trimming, a well-formed
/// magnitude followed by a known unit.
pub open spec fn valid_duration_literal(s: Seq<char>) -> bool {
    let t = trimmed(s);
    &&& t.len() > 0
    &&& unit_len(t) > 0
    &&& is_magnitude(magnitude_part(t))
    &&& unit_multiplier(unit_part(t)) is Some
}

/// The value, in milliseconds, of a valid duration literal.
pub open spec fn duration_literal_millis(s: Seq<char>) -> int {
    let t = trimmed(s);
    magnitude_val(magnitude_part(t)) * unit_multiplier(unit_part(t)).unwrap()
}

/// The message with which an invalid literal is rejected, by failure case:
/// empty input, no alphabetic unit suffix, a malformed or oversized
/// magnitude, or an unknown unit.
pub open spec fn parse_error_message(s: Seq<char>) -> Seq<char> {
    let t = trimmed(s);
    if t.len() == 0 {
        "Empty duration string"@
    } else if unit_len(t) == 0 {
        "No unit found in duration string: "@ + t
    } else if !is_magnitude(magnitude_part(t)) {
        "Invalid number in duration string: "@ + magnitude_part(t)
    } else {
        "Unknown duration unit: "@ + unit_part(t)
    }
}

proof fn lemma_trim_front_exact(s: Seq<char>, i: int)
    requires
        0 <= i <= s.len(),
        forall|k: int| 0 <= k < i ==> is_space_char(s[k]),
        i < s.len() ==> !is_space_char(s[i]),
    ensures
        trim_front(s) == s.subrange(i, s.len() as int),
    decreases i,
{
    if i == 0 {
        assert(s.subrange(0, s.len() as int) =~= s);
    } else {
        assert(is_space_char(s[0]));
        let d = s.drop_first();
        assert(forall|k: int| 0 <= k < i - 1 ==> is_space_char(d[k]));
        lemma_trim_front_exact(d, i - 1);
        assert(d.subrange(i - 1, d.len() as int) =~= s.subrange(i, s.len() as int));
    }
}

proof fn lemma_trim_back_exact(s: Seq<char>, j: int)
    requires
        0 <= j <= s.len(),
        forall|k: int| j <= k < s.len() ==> is_space_char(s[k]),
        j > 0 ==> !is_space_char(s[j - 1]),
    ensures
        trim_back(s) == s.subrange(0, j),
    decreases s.len() - j,
{
    if j == s.len() {
        if s.len() > 0 {
            assert(!is_space_char(s.last()));
        }
        assert(s.subrange(0, s.len() as int) =~= s);
    } else {
        assert(is_space_char(s.last()));
        let d = s.drop_last();
        lemma_trim_back_exact(d, j);
        assert(d.subrange(0, j) =~= s.subrange(0, j));
    }
}

proof fn lemma_unit_len_exact(s: Seq<char>, u: int)
    requires
        0 <= u <= s.len(),
        forall|k: int| u <= k < s.len() ==> is_unit_char(s[k]),
        u > 0 ==> !is_unit_char(s[u - 1]),
    ensures
        unit_len(s) == s.len() - u,
    decreases s.len() - u,
{
    if u == s.len() {
        if s.len() > 0 {
            assert(!is_unit_char(s.last()));
        }
    } else {
        assert(is_unit_char(s.last()));
        let d = s.drop_last();
        lemma_unit_len_exact(d, u);
    }
}

proof fn lemma_digits_val_nonneg(s: Seq<char>)
    requires
        all_digits(s),
    ensures
        digits_val(s) >= 0,
    decreases s.len(),
{
    if s.len() > 0 {
        let d = s.drop_last();
        assert(all_digits(d));
        lemma_digits_val_nonneg(d);
        assert(is_digit_char(s.last()));
    }
}

proof fn lemma_digits_val_prefix_le(s: Seq<char>, i: int)
    requires
        all_digits(s),
        0 <= i <= s.len(),
    ensures
        digits_val(s.take(i)) <= digits_val(s),
    decreases s.len() - i,
{
    if i == s.len() {
        assert(s.take(i) =~= s);
    } else {
        let t = s.take(i + 1);
        assert(t.drop_last() =~= s.take(i));
        assert(all_digits(s.take(i)));
        lemma_digits_val_nonneg(s.take(i));
        assert(is_digit_char(t.last()));
        assert(digits_val(t) == digits_val(s.take(i)) * 10 + digit_val(t.last()));
        lemma_digits_val_prefix_le(s, i + 1);
    }
}

/// Whether `c` is Unicode whitespace.
fn space_char(c: char) -> (b: bool)
    ensures
        b == is_space_char(c),
{
    ('\t' <= c && c <= '\r') || c == ' ' || c == '\u{85}' || c == '\u{a0}' || c == '\u{1680}' || (
    '\u{2000}' <= c && c <= '\u{200a}') || c == '\u{2028}' || c == '\u{2029}' || c == '\u{202f}'
        || c == '\u{205f}' || c == '\u{3000}'
}

/// Whether `c` is ASCII alphabetic.
fn unit_char(c: char) -> (b: bool)
    ensures
        b == is_unit_char(c),
{
    ('a' <= c && c <= 'z') || ('A' <= c && c <= 'Z')
}

/// Parse the magnitude `s[0..u]` as a `u64`, accepting a single leading `+`.
fn parse_magnitude(s: &str, u: usize) -> (r: Option<u64>)
    requires
        u <= s@.len(),
    ensures
        r is Some <==> is_magnitude(s@.subrange(0, u as int)),
        r matches Some(v) ==> v as int == magnitude_val(s@.subrange(0, u as int)),
{
    let ghost mag = s@.subrange(0, u as int);
    let start: usize = if u > 0 && s.get_char(0) == '+' {
        1
    } else {
        0
    };
    let ghost body = magnitude_body(mag);
    proof {
        assert(u > 0 ==> mag[0] == s@[0]);
        if start == 1 {
            assert(body =~= s@.subrange(1, u as int));
        } else {
            assert(body =~= mag);
        }
    }
    if start >= u {
        // No digits at all: an empty magnitude (or a bare sign) is invalid.
        assert(body.len() == 0);
        return None;
    }
    let mut acc: u64 = 0;
    let mut k: usize = start;
    while k < u
        invariant
            start <= k <= u <= s@.len(),
            start < u,
            start == 0 || start == 1,
            body == if start == 1 {
                s@.subrange(1, u as int)
            } else {
                s@.subrange(0, u as int)
            },
            mag == s@.subrange(0, u as int),
            body == magnitude_body(mag),
            body.len() == u - start,
            forall|kk: int| 0 <= kk < k - start ==> is_digit_char(body[kk]),
            acc as int == digits_val(body.take(k - start)),
        decreases u - k,
    {
        let c = s.get_char(k);
        proof {
            assert(body[k - start] == s@[k as int]);
        }
        let cv = c as u32;
        if cv < 48 || cv > 57 {
            // A non-digit in the magnitude: invalid however it continues.
            assert(!is_digit_char(body[k - start]));
            assert(!all_digits(body));
            return None;
        }
        assert(is_digit_char(c));
        let d = (cv - 48) as u64;
        assert(d as int == digit_val(c));
        if acc > (u64::MAX - d) / 10 {
            // The value would exceed `u64::MAX`; together with monotonicity
            // of the digit fold, the whole magnitude is oversized.
            proof {
                let t = body.take(k - start + 1);
                assert(t.drop_last() =~= body.take(k - start));
                assert(t.last() == body[k - start]);
                assert(digits_val(t) == acc as int * 10 + d);
                assert(acc as int * 10 + d > u64::MAX) by {
                    assert(acc > (u64::MAX - d) / 10);
                    assert(acc as int >= (u64::MAX - d) as int / 10 + 1);
                    assert(((u64::MAX - d) as int / 10 + 1) * 10 > (u64::MAX - d) as int) by (nonlinear_arith);
                    assert(acc as int * 10 >= ((u64::MAX - d) as int / 10 + 1) * 10) by (nonlinear_arith)
                        requires
                            acc as int >= (u64::MAX - d) as int / 10 + 1,
                    ;
                }
                if all_digits(body) {
                    lemma_digits_val_prefix_le(body, k - start + 1);
                    assert(digits_val(body) > u64::MAX);
                }
            }
            return None;
        }
        proof {
            assert(acc <= (u64::MAX - d) / 10);
            assert(acc as int * 10 <= ((u64::MAX - d) / 10) as int * 10) by (nonlinear_arith)
                requires
                    acc as int <= ((u64::MAX - d) / 10) as int,
            ;
            assert(((u64::MAX - d) / 10) as int * 10 <= (u64::MAX - d) as int) by (nonlinear_arith);
            let t = body.take(k - start + 1);
            assert(t.drop_last() =~= body.take(k - start));
            assert(t.last() == body[k - start]);
        }
        acc = acc * 10 + d;
        k = k + 1;
    }
    proof {
        assert(body.take(u - start) =~= body);
        lemma_digits_val_nonneg(body);
    }
    Some(acc)
}

/// Parses a duration literal like `"30s"`, `"5m"`, `"1h"` or `"500ms"`.
///
/// The literal is a non-negative integer magnitude followed by a unit among
/// `ms` (milliseconds), `s` (seconds), `m` (minutes) and `h` (hours);
/// surrounding whitespace is ignored. An invalid literal — empty input,
/// no unit, a malformed or oversized magnitude, or an unknown unit — is
/// rejected with a descriptive message.
pub fn parse_duration(s: &str) -> (r: Result<Duration, String>)
    ensures
        r is Ok <==> valid_duration_literal(s@),
        r matches Ok(d) ==> d.millis == duration_literal_millis(s@),
        r matches Err(m) ==> m@ == parse_error_message(s@),
{
    let n = s.unicode_len();
    // Trim whitespace from the front ...
    let mut i: usize = 0;
    while i < n && space_char(s.get_char(i))
        invariant
            0 <= i <= n == s@.len(),
            forall|k: int| 0 <= k < i ==> is_space_char(s@[k]),
        decreases n - i,
    {
        i = i + 1;
    }
    proof {
        lemma_trim_front_exact(s@, i as int);
    }
    // ... and from the back.
    let mut j: usize = n;
    while j > i && space_char(s.get_char(j - 1))
        invariant
            i <= j <= n == s@.len(),
            forall|k: int| j <= k < n ==> is_space_char(s@[k]),
        decreases j,
    {
        j = j - 1;
    }
    let core = s.substring_char(i, j);
    proof {
        let f = s@.subrange(i as int, n as int);
        assert(forall|k: int| j - i <= k < f.len() ==> is_space_char(#[trigger] f[k]));
        assert(j > i ==> !is_space_char(f[j - i - 1]));
        lemma_trim_back_exact(f, j - i);
        assert(f.subrange(0, j - i) =~= s@.subrange(i as int, j as int));
        assert(core@ == trimmed(s@));
    }
    let m = j - i;
    if m == 0 {
        return Err(String::from_str("Empty duration string"));
    }
    // The unit is the longest alphabetic suffix.
    let mut u: usize = m;
    while u > 0 && unit_char(core.get_char(u - 1))
        invariant
            0 <= u <= m == core@.len(),
            forall|k: int| u <= k < m ==> is_unit_char(core@[k]),
        decreases u,
    {
        u = u - 1;
    }
    proof {
        lemma_unit_len_exact(core@, u as int);
        assert(unit_part(core@) =~= core@.subrange(u as int, m as int));
        assert(magnitude_part(core@) =~= core@.subrange(0, u as int));
    }
    if u == m {
        return Err(String::from_str("No unit found in duration string: ").concat(core));
    }
    let num = match parse_magnitude(core, u) {
        Some(v) => v,
        None => {
            return Err(
                String::from_str("Invalid number in duration string: ").concat(
                    core.substring_char(0, u),
                ),
            );
        },
    };
    let unit_1 = core.get_char(u);
    let mult: u64 = if m - u == 1 {
        if unit_1 == 's' {
            1000
        } else if unit_1 == 'm' {
            60000
        } else if unit_1 == 'h' {
            3600000
        } else {
            return Err(
                String::from_str("Unknown duration unit: ").concat(core.substring_char(u, m)),
            );
        }
    } else if m - u == 2 && unit_1 == 'm' && core.get_char(u + 1) == 's' {
        1
    } else {
        return Err(String::from_str("Unknown duration unit: ").concat(core.substring_char(u, m)));
    };
    proof {
        assert(unit_part(core@)[0] == core@[u as int]);
        assert(unit_part(core@).len() == 2 ==> unit_part(core@)[1] == core@[u + 1]);
        assert(unit_multiplier(unit_part(core@)) == Some(mult as int));
    }
    proof {
        assert(num as int * mult as int <= u64::MAX as int * 3600000) by (nonlinear_arith)
            requires
                0 <= num as int <= u64::MAX as int,
                0 <= mult as int <= 3600000,
        ;
    }
    let millis: u128 = num as u128 * mult as u128;
    Ok(Duration { millis })
}

} // verus!
