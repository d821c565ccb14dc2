//! Natural numbers in positional notation, base ten or sixteen.

use vstd::prelude::*;
use vstd::slice::slice_subrange;

verus! {

/// The value of a digit, letters of either case counting on from ten;
/// nothing for other characters and for digits outside the base.
pub open spec fn digit_value(c: char, base: int) -> Option<int> {
    let v = if '0' <= c <= '9' {
        c as int - '0' as int
    } else if 'a' <= c <= 'z' {
        c as int - 'a' as int + 10
    } else if 'A' <= c <= 'Z' {
        c as int - 'A' as int + 10
    } else {
        base
    };
    if v < base {
        Some(v)
    } else {
        None
    }
}

/// The character of a digit, letters in lower case.
pub open spec fn digit_char(v: int) -> char {
    if v < 10 {
        (v + '0' as int) as char
    } else {
        (v - 10 + 'a' as int) as char
    }
}

/// Whether every character of `s` is a digit of the base.
pub open spec fn all_digits(s: Seq<char>, base: int) -> bool {
    forall|i: int| 0 <= i < s.len() ==> digit_value(#[trigger] s[i], base) is Some
}

/// The number that the digits of `s` spell, most significant first.
pub open spec fn value_of(s: Seq<char>, base: int) -> int
    decreases s.len(),
{
    if s.len() == 0 {
        0
    } else {
        value_of(s.drop_last(), base) * base + digit_value(s.last(), base).unwrap_or(0)
    }
}

/// The shortest spelling of `n`.
pub open spec fn digits_of(n: int, base: int) -> Seq<char>
    decreases n,
{
    if n < base || base < 2 {
        seq![digit_char(n)]
    } else {
        proof {
            assert(0 <= n / base < n) by (nonlinear_arith)
                requires
                    n >= base,
                    base >= 2,
            ;
        }
        digits_of(n / base, base).push(digit_char(n % base))
    }
}

/// The powers of the base that bound how long a spelling is.
pub open spec fn power(base: int, n: nat) -> int
    decreases n,
{
    if n == 0 {
        1
    } else {
        base * power(base, (n - 1) as nat)
    }
}

/// A digit character stands for the digit it was made from.
proof fn lemma_digit_char(v: int, base: int)
    requires
        0 <= v < base <= 16,
    ensures
        digit_value(digit_char(v), base) == Some(v),
        digit_char(v) == '0' <==> v == 0,
{
}

/// Reading a spelling gives the number back; it consists of digits, starts with
/// zero only for zero itself, and is as short as its size allows.
pub proof fn lemma_digits_of(n: int, base: int, max_len: nat)
    requires
        n >= 0,
        2 <= base <= 16,
        max_len >= 1,
        n < power(base, max_len),
    ensures
        all_digits(digits_of(n, base), base),
        value_of(digits_of(n, base), base) == n,
        1 <= digits_of(n, base).len() <= max_len,
        digits_of(n, base)[0] == '0' <==> n == 0,
        n == 0 ==> digits_of(n, base).len() == 1,
    decreases n,
{
    let s = digits_of(n, base);
    if n < base {
        lemma_digit_char(n, base);
        assert(s.drop_last() =~= Seq::<char>::empty());
        assert(value_of(s.drop_last(), base) == 0);
        assert(0 * base == 0);
    } else {
        let q = n / base;
        let d = n % base;
        assert(0 < q < n && n == q * base + d && 0 <= d < base) by (nonlinear_arith)
            requires
                n >= base,
                base >= 2,
                q == n / base,
                d == n % base,
        ;
        if max_len == 1 {
            assert(power(base, 0) == 1);
            assert(base * 1 == base);
            assert(false);
        }
        let shorter = (max_len - 1) as nat;
        let bound = power(base, shorter);
        assert(q < bound) by (nonlinear_arith)
            requires
                n == q * base + d,
                d >= 0,
                base >= 2,
                n < base * bound,
        ;
        lemma_digits_of(q, base, shorter);
        lemma_digit_char(d, base);
        assert(s.drop_last() =~= digits_of(q, base));
        assert(s[0] == digits_of(q, base)[0]);
    }
}

/// The value of digits is never negative.
pub proof fn lemma_value_nonneg(s: Seq<char>, base: int)
    requires
        2 <= base <= 16,
    ensures
        value_of(s, base) >= 0,
    decreases s.len(),
{
    if s.len() > 0 {
        lemma_value_nonneg(s.drop_last(), base);
        let v = value_of(s.drop_last(), base);
        assert(v * base >= 0) by (nonlinear_arith)
            requires
                v >= 0,
                base >= 2,
        ;
    }
}

/// A number of so many digits is below that power of the base.
pub proof fn lemma_value_bound(s: Seq<char>, base: int)
    requires
        2 <= base <= 16,
    ensures
        0 <= value_of(s, base) < power(base, s.len()),
    decreases s.len(),
{
    if s.len() > 0 {
        let t = s.drop_last();
        lemma_value_bound(t, base);
        let v = value_of(t, base);
        let p = power(base, t.len());
        assert(s.len() - 1 == t.len());
        assert(v * base >= 0 && v * base + base <= base * p) by (nonlinear_arith)
            requires
                0 <= v < p,
                base >= 2,
        ;
    }
}

/// Digits put in front never make a number smaller.
pub proof fn lemma_value_grows(s: Seq<char>, k: int, base: int)
    requires
        0 <= k <= s.len(),
        2 <= base <= 16,
    ensures
        value_of(s.take(k), base) <= value_of(s, base),
    decreases s.len(),
{
    if k == s.len() {
        assert(s.take(k) =~= s);
    } else {
        let t = s.drop_last();
        lemma_value_grows(t, k, base);
        assert(t.take(k) =~= s.take(k));
        lemma_value_nonneg(t, base);
        let v = value_of(t, base);
        assert(v <= v * base) by (nonlinear_arith)
            requires
                v >= 0,
                base >= 2,
        ;
    }
}

/// The value of one character as a digit.
fn digit(c: char, base: u64) -> (v: Option<u64>)
    requires
        2 <= base <= 16,
    ensures
        match v {
            Some(d) => digit_value(c, base as int) == Some(d as int),
            None => digit_value(c, base as int) is None,
        },
{
    let v: u64 = if '0' <= c && c <= '9' {
        c as u64 - '0' as u64
    } else if 'a' <= c && c <= 'z' {
        c as u64 - 'a' as u64 + 10
    } else if 'A' <= c && c <= 'Z' {
        c as u64 - 'A' as u64 + 10
    } else {
        base
    };
    if v < base {
        Some(v)
    } else {
        None
    }
}

/// Reads digits of the base; nothing if a character is no digit or the
/// number does not fit. No digits at all read as zero.
pub fn read_digits(s: &[char], base: u64) -> (n: Option<u64>)
    requires
        2 <= base <= 16,
    ensures
        match n {
            Some(v) => all_digits(s@, base as int) && v == value_of(s@, base as int),
            None => !all_digits(s@, base as int) || value_of(s@, base as int) > u64::MAX,
        },
{
    let mut n: u64 = 0;
    let mut i: usize = 0;
    while i < s.len()
        invariant
            2 <= base <= 16,
            i <= s.len(),
            all_digits(s@.take(i as int), base as int),
            n == value_of(s@.take(i as int), base as int),
        decreases s.len() - i,
    {
        let ghost shorter = s@.take(i as int);
        let ghost longer = s@.take(i + 1);
        assert(longer.drop_last() =~= shorter);
        assert(longer.last() == s@[i as int]);
        proof {
            lemma_value_grows(s@, i + 1, base as int);
        }
        let d = match digit(s[i], base) {
            Some(d) => d,
            None => {
                return None;
            },
        };
        assert(value_of(longer, base as int) == n * base + d);
        n = match n.checked_mul(base) {
            Some(m) => match m.checked_add(d) {
                Some(k) => k,
                None => {
                    return None;
                },
            },
            None => {
                return None;
            },
        };
        i += 1;
        assert forall|j: int| 0 <= j < longer.len() implies digit_value(
            #[trigger] longer[j],
            base as int,
        ) is Some by {
            if j < shorter.len() {
                assert(shorter[j] == longer[j]);
            }
        }
    }
    assert(s@.take(i as int) == s@);
    Some(n)
}

/// Whether `s` spells a `u64` in decimal: an optional plus sign, then digits only.
pub open spec fn is_decimal_u64(s: Seq<char>) -> bool {
    let digits = decimal_digits(s);
    digits.len() > 0 && all_digits(digits, 10) && value_of(digits, 10) <= u64::MAX
}

/// What follows the optional plus sign.
pub open spec fn decimal_digits(s: Seq<char>) -> Seq<char> {
    if s.len() > 0 && s[0] == '+' {
        s.drop_first()
    } else {
        s
    }
}

/// Reads a decimal `u64`.
pub fn parse_u64(s: &str) -> (n: Option<u64>)
    ensures
        match n {
            Some(v) => is_decimal_u64(s@) && v == value_of(decimal_digits(s@), 10),
            None => !is_decimal_u64(s@),
        },
{
    let chars = crate::text::to_chars(s);
    let start: usize = if chars.len() > 0 && chars[0] == '+' {
        1
    } else {
        0
    };
    let digits = slice_subrange(chars.as_slice(), start, chars.len());
    assert(digits@ == decimal_digits(s@));
    if digits.len() == 0 {
        return None;
    }
    read_digits(digits, 10)
}

/// Writes the shortest spelling of `n` at the end of `out`.
pub fn push_number(out: &mut String, n: u64, base: u64)
    requires
        2 <= base <= 16,
    ensures
        final(out)@ == old(out)@ + digits_of(n as int, base as int),
    decreases n,
{
    if n < base {
        push_digit(out, n);
    } else {
        assert(n / base < n) by (nonlinear_arith)
            requires
                n >= base,
                base >= 2,
        ;
        push_number(out, n / base, base);
        push_digit(out, n % base);
    }
}

/// Writes one digit at the end of `out`.
fn push_digit(out: &mut String, v: u64)
    requires
        v < 16,
    ensures
        final(out)@ == old(out)@.push(digit_char(v as int)),
{
    let code: u8 = if v < 10 {
        v as u8 + 48
    } else {
        v as u8 + 87
    };
    out.push(code as char);
}

/// The decimal digits are the ten characters from 0 to 9 in order.
pub proof fn law_decimal_digits(c: char)
    ensures
        digit_value(c, 10) == if '0' <= c <= '9' {
            Some(c as int - 48)
        } else {
            None
        },
{
}

/// The hexadecimal digits are the ten decimal ones and the letters from A to F in either
/// case, which count from ten to fifteen.
pub proof fn law_hexadecimal_digits(c: char)
    ensures
        digit_value(c, 16) == if '0' <= c <= '9' {
            Some(c as int - 48)
        } else if 'a' <= c <= 'f' {
            Some(c as int - 87)
        } else if 'A' <= c <= 'F' {
            Some(c as int - 55)
        } else {
            None
        },
{
}

/// Digits count by their position: of two numbers written one behind the other, the first
/// counts as many times the base as the second has digits.
pub proof fn law_value_is_positional(a: Seq<char>, b: Seq<char>, base: int)
    ensures
        value_of(Seq::<char>::empty(), base) == 0,
        value_of(a + b, base) == value_of(a, base) * power(base, b.len()) + value_of(b, base),
        forall|c: char|
            (#[trigger] digit_value(c, base)) is Some ==> value_of(seq![c], base) == digit_value(
                c,
                base,
            ).unwrap(),
    decreases b.len(),
{
    assert forall|c: char| (#[trigger] digit_value(c, base)) is Some implies value_of(
        seq![c],
        base,
    ) == digit_value(c, base).unwrap() by {
        assert(seq![c].drop_last() =~= Seq::<char>::empty());
        assert(value_of(seq![c].drop_last(), base) == 0);
        assert(0 * base == 0);
    }
    if b.len() == 0 {
        assert(a + b =~= a);
        assert(power(base, 0) == 1);
    } else {
        let t = b.drop_last();
        law_value_is_positional(a, t, base);
        assert((a + b).drop_last() =~= a + t);
        assert((a + b).last() == b.last());
        let va = value_of(a, base);
        let vt = value_of(t, base);
        let p = power(base, t.len());
        assert(power(base, b.len()) == base * p);
        assert((va * p + vt) * base == va * (base * p) + vt * base) by (nonlinear_arith);
    }
}

/// Each power is the base times the one before.
pub proof fn law_power(base: int, n: nat)
    ensures
        power(base, 0) == 1,
        power(base, n + 1) == base * power(base, n),
{
}

/// How a number is written: in digits of the base with letters in lower case, without a
/// zero in front of other digits, and so that it reads as the number.
pub proof fn law_spelling(n: int, base: int)
    requires
        n >= 0,
        2 <= base <= 16,
    ensures
        value_of(digits_of(n, base), base) == n,
        digits_of(n, base).len() >= 1,
        digits_of(n, base).len() > 1 ==> digits_of(n, base)[0] != '0',
        forall|i: int|
            0 <= i < digits_of(n, base).len() ==> {
                let c = #[trigger] digits_of(n, base)[i];
                ('0' <= c <= '9' || 'a' <= c <= 'f') && digit_value(c, base) is Some
            },
    decreases n,
{
    let s = digits_of(n, base);
    if n < base {
        lemma_digit_char(n, base);
        assert(s.drop_last() =~= Seq::<char>::empty());
        assert(value_of(s.drop_last(), base) == 0);
        assert(0 * base == 0);
    } else {
        let q = n / base;
        let d = n % base;
        assert(0 < q < n && n == q * base + d && 0 <= d < base) by (nonlinear_arith)
            requires
                n >= base,
                base >= 2,
                q == n / base,
                d == n % base,
        ;
        law_spelling(q, base);
        lemma_digit_char(d, base);
        let t = digits_of(q, base);
        assert(s.drop_last() =~= t);
        assert forall|i: int| 0 <= i < s.len() implies {
            let c = #[trigger] s[i];
            ('0' <= c <= '9' || 'a' <= c <= 'f') && digit_value(c, base) is Some
        } by {
            if i < t.len() {
                assert(s[i] == t[i]);
            }
        }
        assert(s[0] == t[0]);
        if t.len() == 1 {
            if t[0] == '0' {
                assert(t.drop_last() =~= Seq::<char>::empty());
                assert(value_of(t.drop_last(), base) == 0);
                assert(0 * base == 0);
                assert(digit_value('0', base) == Some(0int));
                assert(false);
            }
        }
    }
}

/// What is a decimal number that fits: digits from 0 to 9, at least one, possibly behind one
/// plus sign, and not too large. Its digits are what stands behind the plus sign.
pub proof fn law_decimal_u64(s: Seq<char>)
    requires
        s.len() > 0 ==> s[0] != '+',
    ensures
        decimal_digits(s) == s,
        decimal_digits(seq!['+'] + s) == s,
        is_decimal_u64(s) <==> s.len() > 0 && value_of(s, 10) <= 0xffff_ffff_ffff_ffff && forall|
            i: int,
        |
            0 <= i < s.len() ==> '0' <= #[trigger] s[i] <= '9',
        is_decimal_u64(seq!['+'] + s) <==> is_decimal_u64(s),
        !is_decimal_u64(seq!['+', '+'] + s),
{
    assert((seq!['+'] + s).drop_first() =~= s);
    let twice = seq!['+', '+'] + s;
    assert(twice.drop_first()[0] == '+');
    assert(digit_value('+', 10) is None);
    if is_decimal_u64(s) {
        assert forall|i: int| 0 <= i < s.len() implies '0' <= #[trigger] s[i] <= '9' by {
            assert(digit_value(s[i], 10) is Some);
        }
    }
}

} // verus!
