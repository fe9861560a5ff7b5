//! Integer arithmetic, and integers out of texts.

use crate::lexer;
use crate::runtime::strings;
use crate::runtime::strings::trim;
use crate::text;
use crate::text::{Text, cat2, cat3, chars_of};
use vstd::prelude::*;

verus! {

/// The value that stands for a failed operation.
pub const NX_MATH_ERROR_I64: i64 = i64::MIN;

/// The line that reports a failed operation.
pub fn math_error_line(message: &str) -> (r: String)
    ensures
        r@ == "math error: "@ + message@,
{
    cat2("math error: ", message)
}

/// The absolute value.
pub fn abs_i64(val: i64) -> (r: i64)
    requires
        val != i64::MIN,
    ensures
        r == (if val < 0 {
            -val
        } else {
            val as int
        }),
{
    if val < 0 {
        -val
    } else {
        val
    }
}

/// The larger of two integers.
pub fn max_i64(a: i64, b: i64) -> (r: i64)
    ensures
        r == (if a > b {
            a
        } else {
            b
        }),
{
    if a > b {
        a
    } else {
        b
    }
}

/// The smaller of two integers.
pub fn min_i64(a: i64, b: i64) -> (r: i64)
    ensures
        r == (if a < b {
            a
        } else {
            b
        }),
{
    if a < b {
        a
    } else {
        b
    }
}

/// The magnitude of an integer.
pub open spec fn magnitude(n: int) -> int {
    if n < 0 {
        -n
    } else {
        n
    }
}

/// The remainder of a division that rounds towards zero: it has the sign of the dividend.
pub open spec fn remainder(a: int, b: int) -> int {
    if a >= 0 {
        a % magnitude(b)
    } else {
        -((-a) % magnitude(b))
    }
}

/// The remainder of a division; the value for a failed operation where the divisor is zero.
pub fn mod_i64(a: i64, b: i64) -> (r: i64)
    requires
        !(a == i64::MIN && b == -1),
    ensures
        r == (if b == 0 {
            NX_MATH_ERROR_I64 as int
        } else {
            remainder(a as int, b as int)
        }),
{
    if b == 0 {
        return NX_MATH_ERROR_I64;
    }
    let m: u64 = if a < 0 {
        (-(a as i128)) as u64
    } else {
        a as u64
    };
    let n: u64 = if b < 0 {
        (-(b as i128)) as u64
    } else {
        b as u64
    };
    let rest: u64 = m % n;
    assert(rest < n && rest <= m) by (nonlinear_arith)
        requires
            n > 0,
            rest == m % n,
    ;
    if a < 0 {
        (-(rest as i128)) as i64
    } else {
        rest as i64
    }
}

/// The remainder is smaller than the divisor, and what it leaves of the dividend is a multiple
/// of the divisor.
pub proof fn law_remainder_divides(a: int, b: int)
    requires
        b != 0,
    ensures
        magnitude(remainder(a, b)) < magnitude(b),
        (a - remainder(a, b)) % magnitude(b) == 0,
        remainder(a, b) == 0 || (remainder(a, b) < 0 <==> a < 0),
{
    let d = magnitude(b);
    let m = magnitude(a);
    let q = m / d;
    let r = m % d;
    assert(m == d * q + r && 0 <= r < d) by (nonlinear_arith)
        requires
            d > 0,
            q == m / d,
            r == m % d,
    ;
    if a >= 0 {
        assert((d * q) % d == 0) by (nonlinear_arith)
            requires
                d > 0,
        ;
        assert(a - remainder(a, b) == d * q);
    } else {
        assert((d * (-q)) % d == 0) by (nonlinear_arith)
            requires
                d > 0,
        ;
        assert(d * (-q) == -(d * q)) by (nonlinear_arith);
        assert(a - remainder(a, b) == d * (-q));
    }
}

// ---------------------------------------------------------------------------
// Integers out of texts
// ---------------------------------------------------------------------------

/// Whether all characters are decimal digits.
pub open spec fn all_digits(ds: Text) -> bool {
    forall|i: int| 0 <= i < ds.len() ==> lexer::is_digit(#[trigger] ds[i])
}

/// The number that the first `n` digits write.
pub open spec fn number_to(ds: Text, n: nat) -> int
    decreases n,
{
    if n == 0 {
        0
    } else {
        number_to(ds, (n - 1) as nat) * 10 + (ds[n - 1] as int - '0' as int)
    }
}

/// Whether a text begins with a sign.
pub open spec fn has_sign(s: Text) -> bool {
    s.len() > 0 && (s[0] == '-' || s[0] == '+')
}

/// The digits of a text behind its sign.
pub open spec fn unsigned_part(s: Text) -> Text {
    if has_sign(s) {
        s.skip(1)
    } else {
        s
    }
}

/// The integer that a text writes: a sign or none, then one digit or more.
pub open spec fn written_integer(s: Text) -> Option<int> {
    let ds = unsigned_part(s);
    if ds.len() == 0 || !all_digits(ds) {
        None
    } else if s[0] == '-' {
        Some(-number_to(ds, ds.len()))
    } else {
        Some(number_to(ds, ds.len()))
    }
}

/// The machine integer that a text writes.
pub open spec fn written_i64(s: Text) -> Option<i64> {
    match written_integer(s) {
        Some(n) => {
            if i64::MIN <= n <= i64::MAX {
                Some(n as i64)
            } else {
                None
            }
        },
        None => None,
    }
}

proof fn lemma_number_grows(ds: Text, m: nat, n: nat)
    requires
        m <= n <= ds.len(),
        all_digits(ds),
    ensures
        0 <= number_to(ds, m) <= number_to(ds, n),
    decreases n,
{
    if m < n {
        lemma_number_grows(ds, m, (n - 1) as nat);
        assert(lexer::is_digit(ds[n - 1]));
    } else if n > 0 {
        lemma_number_grows(ds, (n - 1) as nat, (n - 1) as nat);
        assert(lexer::is_digit(ds[n - 1]));
    }
}

/// Reads a machine integer from a text.
pub fn parse_i64(s: &str) -> (r: Option<i64>)
    ensures
        r == written_i64(s@),
{
    let cs = chars_of(s);
    let n = cs.len();
    let first: usize = if n > 0 && (cs[0] == '-' || cs[0] == '+') {
        1
    } else {
        0
    };
    let ghost ds = unsigned_part(s@);
    assert(ds =~= s@.skip(first as int));
    if first == n {
        return None;
    }
    let negative = cs[0] == '-';
    let mut i: usize = first;
    while i < n
        invariant
            first <= i <= n == cs.len(),
            cs@ == s@,
            ds == unsigned_part(s@),
            ds == s@.skip(first as int),
            forall|j: int| 0 <= j < i - first ==> lexer::is_digit(#[trigger] ds[j]),
        decreases n - i,
    {
        let c = cs[i];
        assert(ds[i - first] == c);
        if c < '0' || c > '9' {
            assert(!lexer::is_digit(ds[i - first]));
            return None;
        }
        i = i + 1;
    }
    assert(all_digits(ds));
    let limit: i128 = 0x8000_0000_0000_0000;
    let mut value: i128 = 0;
    let mut k: usize = first;
    while k < n
        invariant
            first <= k <= n == cs.len(),
            cs@ == s@,
            ds == unsigned_part(s@),
            ds == s@.skip(first as int),
            ds.len() > 0,
            all_digits(ds),
            limit == 0x8000_0000_0000_0000,
            0 <= value <= limit,
            value == number_to(ds, (k - first) as nat),
        decreases n - k,
    {
        let c = cs[k];
        assert(ds[k - first] == c);
        assert(lexer::is_digit(ds[k - first]));
        let d: i128 = (c as u32 - '0' as u32) as i128;
        value = value * 10 + d;
        k = k + 1;
        assert(value == number_to(ds, (k - first) as nat));
        if value > limit {
            proof {
                lemma_number_grows(ds, (k - first) as nat, ds.len());
            }
            return None;
        }
    }
    assert(value == number_to(ds, ds.len()));
    if negative {
        Some((-value) as i64)
    } else if value == limit {
        None
    } else {
        Some(value as i64)
    }
}

/// Reads a machine integer from a text with white space around it, or says that it is none.
pub fn parse_i64_or_error(input: &str) -> (r: Result<i64, String>)
    ensures
        match r {
            Ok(n) => written_i64(strings::trimmed(input@)) == Some(n),
            Err(e) => written_i64(strings::trimmed(input@)) is None && e@
                == "string_to_i64: invalid integer '"@ + input@ + "'"@,
        },
{
    let t = trim(input);
    match parse_i64(t.as_str()) {
        Some(n) => Ok(n),
        None => Err(cat3("string_to_i64: invalid integer '", input, "'")),
    }
}

/// Reads a machine integer from a text with white space around it; the value for a failed
/// operation where it is none.
pub fn string_to_i64(input: &str) -> (r: i64)
    ensures
        r == (match written_i64(strings::trimmed(input@)) {
            Some(n) => n,
            None => NX_MATH_ERROR_I64,
        }),
{
    match parse_i64_or_error(input) {
        Ok(n) => n,
        Err(_) => NX_MATH_ERROR_I64,
    }
}

proof fn lemma_decimal_digits(n: nat)
    ensures
        all_digits(text::decimal(n)),
        text::decimal(n).len() > 0,
        number_to(text::decimal(n), text::decimal(n).len()) == n,
        !has_sign(text::decimal(n)),
    decreases n,
{
    let ds = text::decimal(n);
    if n < 10 {
        reveal_with_fuel(number_to, 2);
    } else {
        let before = text::decimal(n / 10);
        lemma_decimal_digits(n / 10);
        assert(ds == before.push(text::digit_char(n % 10)));
        lemma_number_prefix(before, ds, before.len());
        assert forall|i: int| 0 <= i < ds.len() implies lexer::is_digit(#[trigger] ds[i]) by {
            if i < before.len() {
                assert(lexer::is_digit(before[i]));
            }
        }
        assert(ds[0] == before[0]);
    }
}

proof fn lemma_number_prefix(a: Text, b: Text, n: nat)
    requires
        n <= a.len() <= b.len(),
        forall|i: int| 0 <= i < n ==> a[i] == b[i],
    ensures
        number_to(a, n) == number_to(b, n),
    decreases n,
{
    if n > 0 {
        lemma_number_prefix(a, b, (n - 1) as nat);
    }
}

/// The decimal form of a machine integer reads back as that integer.
pub proof fn law_decimal_reads_back(n: i64)
    ensures
        written_i64(text::decimal_int(n as int)) == Some(n),
{
    if n < 0 {
        let m = (-(n as int)) as nat;
        lemma_decimal_digits(m);
        let s = text::decimal_int(n as int);
        assert(s.skip(1) =~= text::decimal(m));
        assert(s[0] == '-');
    } else {
        lemma_decimal_digits(n as nat);
        let s = text::decimal_int(n as int);
        assert(s[0] != '-') by {
            assert(!has_sign(s));
        }
    }
}

} // verus!
