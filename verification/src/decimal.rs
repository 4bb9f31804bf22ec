//! Decimal numbers in text: whether one reads as a positive number.
//!
//! The texts are those of 64-bit floating-point numbers: an optional sign; then
//! `inf` or `infinity` in any case, or digits with an optional point and an
//! optional exponent. A number counts as positive where it does not round to
//! zero in that format, that is where it exceeds half of the least positive one.
use vstd::prelude::*;
use crate::text::{self, all_digits, digit_value, digits_value, is_digit};

verus! {

/// Two to the power of `n`.
pub open spec fn two_to(n: nat) -> nat
    decreases n,
{
    if n == 0 {
        1
    } else {
        2 * two_to((n - 1) as nat)
    }
}

/// Ten to the power of `n`.
pub open spec fn ten_to(n: nat) -> nat
    decreases n,
{
    if n == 0 {
        1
    } else {
        10 * ten_to((n - 1) as nat)
    }
}

/// Half of the least positive number of the format is two to the power of minus this.
pub const HALF_LEAST: u32 = 1075;

/// The number `d` times ten to the power of `e` does not round to zero.
pub open spec fn above_zero(d: nat, e: int) -> bool {
    if e >= 0 {
        d > 0
    } else {
        d * two_to(HALF_LEAST as nat) > ten_to((-e) as nat)
    }
}

/// How many characters stand before the first that is `a` or `b`.
pub open spec fn before_either(s: Seq<char>, a: char, b: char) -> nat
    decreases s.len(),
{
    if s.len() == 0 || s[0] == a || s[0] == b {
        0
    } else {
        1 + before_either(s.drop_first(), a, b)
    }
}

/// The exponent that a text of `e`, an optional sign and digits writes; no text
/// at all writes zero.
pub open spec fn exponent_of(s: Seq<char>) -> Option<int> {
    if s.len() == 0 {
        Some(0)
    } else {
        let rest = s.drop_first();
        let signed = rest.len() > 0 && (rest[0] == '+' || rest[0] == '-');
        let digits = if signed {
            rest.drop_first()
        } else {
            rest
        };
        if digits.len() > 0 && all_digits(digits) {
            Some(
                if signed && rest[0] == '-' {
                    -(digits_value(digits) as int)
                } else {
                    digits_value(digits) as int
                },
            )
        } else {
            None
        }
    }
}

/// The digits of a mantissa, without its point.
pub open spec fn mantissa_digits(s: Seq<char>) -> Seq<char> {
    let point = before_either(s, '.', '.') as int;
    if point < s.len() {
        s.take(point) + s.skip(point + 1)
    } else {
        s
    }
}

/// How many digits stand behind the point of a mantissa.
pub open spec fn fraction_len(s: Seq<char>) -> int {
    let point = before_either(s, '.', '.') as int;
    if point < s.len() {
        s.len() - point - 1
    } else {
        0
    }
}

/// A text without sign writes a positive number.
pub open spec fn positive_number(s: Seq<char>) -> bool {
    let at = before_either(s, 'e', 'E') as int;
    let mantissa = s.take(at);
    let digits = mantissa_digits(mantissa);
    let exponent = exponent_of(s.skip(at));
    digits.len() > 0 && all_digits(digits) && exponent is Some && above_zero(
        digits_value(digits),
        exponent->0 - fraction_len(mantissa),
    )
}

/// A text writes a positive number.
pub open spec fn is_positive(s: Seq<char>) -> bool {
    if s.len() > 0 && s[0] == '-' {
        false
    } else {
        let body = if s.len() > 0 && s[0] == '+' {
            s.drop_first()
        } else {
            s
        };
        text::lower(body) == "inf"@ || text::lower(body) == "infinity"@ || positive_number(body)
    }
}

proof fn two_to_adds(a: nat, b: nat)
    ensures
        two_to(a + b) == two_to(a) * two_to(b),
    decreases b,
{
    if b > 0 {
        two_to_adds(a, (b - 1) as nat);
        let x = two_to(a);
        let y = two_to((b - 1) as nat);
        assert(2 * (x * y) == x * (2 * y)) by (nonlinear_arith);
        assert((a + b - 1) as nat == a + (b - 1) as nat);
        assert(two_to(a + b) == 2 * two_to((a + b - 1) as nat));
    } else {
        assert(two_to(a) * 1 == two_to(a)) by (nonlinear_arith);
    }
}

proof fn ten_to_adds(a: nat, b: nat)
    ensures
        ten_to(a + b) == ten_to(a) * ten_to(b),
    decreases b,
{
    if b > 0 {
        ten_to_adds(a, (b - 1) as nat);
        let x = ten_to(a);
        let y = ten_to((b - 1) as nat);
        assert(10 * (x * y) == x * (10 * y)) by (nonlinear_arith);
        assert((a + b - 1) as nat == a + (b - 1) as nat);
        assert(ten_to(a + b) == 10 * ten_to((a + b - 1) as nat));
    } else {
        assert(ten_to(a) * 1 == ten_to(a)) by (nonlinear_arith);
    }
}

proof fn ten_to_grows(a: nat, b: nat)
    requires
        a <= b,
    ensures
        0 < ten_to(a) <= ten_to(b),
    decreases b,
{
    if a < b {
        ten_to_grows(a, (b - 1) as nat);
    } else if a > 0 {
        ten_to_grows((a - 1) as nat, (a - 1) as nat);
    }
}

/// Products of greater factors are greater.
proof fn products_grow(a: nat, b: nat, c: nat, d: nat)
    requires
        a < b,
        c < d,
    ensures
        a * c < b * d,
{
    assert(a * c < b * d) by (nonlinear_arith)
        requires
            a < b,
            c < d,
            a >= 0,
            c >= 0,
    ;
}

/// Two to the power of 1075 lies between ten to the power of 323 and of 324.
proof fn half_least_is_bounded()
    ensures
        ten_to(323) < two_to(1075) < ten_to(324),
{
    assert(two_to(43) == 8796093022208) by {
        reveal_with_fuel(two_to, 44);
    }
    two_to_adds(43, 43);
    two_to_adds(86, 86);
    two_to_adds(172, 43);
    two_to_adds(215, 215);
    two_to_adds(430, 430);
    two_to_adds(860, 215);
    assert(ten_to(16) == 1_0000_0000_0000_0000) by {
        reveal_with_fuel(ten_to, 17);
    }
    ten_to_adds(16, 16);
    ten_to_adds(32, 32);
    ten_to_adds(64, 64);
    ten_to_adds(128, 128);
    ten_to_adds(256, 64);
    let a = two_to(215);
    let p = ten_to(64);
    assert(5 * p < a < 6 * p) by {
        let x = two_to(43);
        let y = ten_to(16);
        assert(x * x == 77371252455336267181195264) by (nonlinear_arith)
            requires
                x == 8796093022208,
        ;
        let x2 = two_to(86);
        assert(x2 * x2 == 5986310706507378352962293074805895248510699696029696) by (nonlinear_arith)
            requires
                x2 == 77371252455336267181195264,
        ;
        let x4 = two_to(172);
        assert(x4 * x == 52656145834278593348959013841835216159447547700274555627155488768) by (nonlinear_arith)
            requires
                x4 == 5986310706507378352962293074805895248510699696029696,
                x == 8796093022208,
        ;
        assert(y * y == 1_0000_0000_0000_0000_0000_0000_0000_0000) by (nonlinear_arith)
            requires
                y == 1_0000_0000_0000_0000,
        ;
        let y2 = ten_to(32);
        assert(y2 * y2 == 10000000000000000000000000000000000000000000000000000000000000000) by (nonlinear_arith)
            requires
                y2 == 1_0000_0000_0000_0000_0000_0000_0000_0000,
        ;
    }
    let a2 = two_to(430);
    let p2 = ten_to(128);
    products_grow(5 * p, a, 5 * p, a);
    products_grow(a, 6 * p, a, 6 * p);
    assert((5 * p) * (5 * p) == 25 * (p * p)) by (nonlinear_arith);
    assert((6 * p) * (6 * p) == 36 * (p * p)) by (nonlinear_arith);
    assert(25 * p2 < a2 < 36 * p2);
    let a4 = two_to(860);
    let p4 = ten_to(256);
    products_grow(25 * p2, a2, 25 * p2, a2);
    products_grow(a2, 36 * p2, a2, 36 * p2);
    assert((25 * p2) * (25 * p2) == 625 * (p2 * p2)) by (nonlinear_arith);
    assert((36 * p2) * (36 * p2) == 1296 * (p2 * p2)) by (nonlinear_arith);
    assert(625 * p4 < a4 < 1296 * p4);
    let a5 = two_to(1075);
    let p5 = ten_to(320);
    products_grow(625 * p4, a4, 5 * p, a);
    products_grow(a4, 1296 * p4, a, 6 * p);
    assert((625 * p4) * (5 * p) == 3125 * (p4 * p)) by (nonlinear_arith);
    assert((1296 * p4) * (6 * p) == 7776 * (p4 * p)) by (nonlinear_arith);
    assert(3125 * p5 < a5 < 7776 * p5);
    assert(ten_to(324) == 10000 * p5 && ten_to(323) == 1000 * p5) by {
        reveal_with_fuel(ten_to, 5);
    }
}

/// The number that the first `n` digits of a list write, the least significant first.
spec fn value_upto(digits: Seq<u8>, n: nat) -> nat
    decreases n,
{
    if n == 0 {
        0
    } else {
        value_upto(digits, (n - 1) as nat) + (digits[n - 1] as nat) * ten_to((n - 1) as nat)
    }
}

/// The number that a list of digits writes, the least significant first.
spec fn value_of(digits: Seq<u8>) -> nat {
    value_upto(digits, digits.len())
}

/// A list of decimal digits, the last of which is not zero.
spec fn numeral(digits: Seq<u8>) -> bool {
    &&& digits.len() > 0
    &&& digits.last() > 0
    &&& forall|i: int| 0 <= i < digits.len() ==> #[trigger] digits[i] <= 9
}

proof fn value_is_local(a: Seq<u8>, b: Seq<u8>, n: nat)
    requires
        n <= a.len(),
        n <= b.len(),
        forall|i: int| 0 <= i < n ==> a[i] == b[i],
    ensures
        value_upto(a, n) == value_upto(b, n),
    decreases n,
{
    if n > 0 {
        value_is_local(a, b, (n - 1) as nat);
    }
}

proof fn value_is_small(digits: Seq<u8>, n: nat)
    requires
        n <= digits.len(),
        forall|i: int| 0 <= i < digits.len() ==> #[trigger] digits[i] <= 9,
    ensures
        value_upto(digits, n) < ten_to(n),
    decreases n,
{
    if n > 0 {
        value_is_small(digits, (n - 1) as nat);
        let p = ten_to((n - 1) as nat);
        let d = digits[n - 1] as nat;
        assert(d * p <= 9 * p) by (nonlinear_arith)
            requires
                d <= 9,
                p >= 0,
        ;
    }
}

proof fn numeral_bounds(digits: Seq<u8>)
    requires
        numeral(digits),
    ensures
        ten_to((digits.len() - 1) as nat) <= value_of(digits) < ten_to(digits.len()),
{
    let n = (digits.len() - 1) as nat;
    value_is_small(digits, digits.len());
    let p = ten_to(n);
    let d = digits[n as int] as nat;
    assert(d * p >= p) by (nonlinear_arith)
        requires
            d >= 1,
            p >= 0,
    ;
}

proof fn value_of_zeros(digits: Seq<u8>, n: nat)
    requires
        n <= digits.len(),
    ensures
        value_upto(digits, n) == 0 <==> forall|i: int| 0 <= i < n ==> digits[i] == 0,
    decreases n,
{
    if n > 0 {
        value_of_zeros(digits, (n - 1) as nat);
        let p = ten_to((n - 1) as nat);
        let d = digits[n - 1] as nat;
        ten_to_grows((n - 1) as nat, (n - 1) as nat);
        assert(d * p == 0 <==> d == 0) by (nonlinear_arith)
            requires
                p > 0,
        ;
    }
}

proof fn value_shift(head: u8, tail: Seq<u8>, n: nat)
    requires
        n <= tail.len(),
    ensures
        value_upto(seq![head] + tail, n + 1) == head + 10 * value_upto(tail, n),
    decreases n,
{
    let whole = seq![head] + tail;
    if n > 0 {
        value_shift(head, tail, (n - 1) as nat);
        assert(whole[n as int] == tail[n - 1]);
        let d = tail[n - 1] as nat;
        let p = ten_to((n - 1) as nat);
        assert(d * (10 * p) == 10 * (d * p)) by (nonlinear_arith);
        assert(ten_to(n) == 10 * p);
        assert(value_upto(whole, n + 1) == value_upto(whole, n) + (whole[n as int] as nat) * ten_to(n));
    } else {
        assert(whole[0] == head);
        assert(value_upto(whole, 0) == 0);
        assert(ten_to(0) == 1);
        assert(value_upto(whole, 1) == value_upto(whole, 0) + (whole[0] as nat) * ten_to(0));
    }
}

/// Doubles a numeral.
fn double(digits: &mut Vec<u8>)
    requires
        numeral(old(digits)@),
    ensures
        numeral(final(digits)@),
        value_of(final(digits)@) == 2 * value_of(old(digits)@),
{
    let ghost was = digits@;
    let mut carry: u8 = 0;
    let mut i: usize = 0;
    while i < digits.len()
        invariant
            i <= digits.len(),
            digits@.len() == was.len(),
            numeral(was),
            carry <= 1,
            forall|k: int| 0 <= k < digits@.len() ==> #[trigger] digits@[k] <= 9,
            forall|k: int| i <= k < was.len() ==> digits@[k] == was[k],
            i == was.len() && carry == 0 ==> digits@.last() > 0,
            value_upto(digits@, i as nat) + carry * ten_to(i as nat) == 2 * value_upto(
                was,
                i as nat,
            ),
        decreases digits.len() - i,
    {
        let ghost before = digits@;
        let ghost c = carry as nat;
        let old_digit: u8 = digits[i];
        let twice: u8 = 2 * old_digit + carry;
        let rest: u8 = twice % 10;
        carry = twice / 10;
        digits.set(i, rest);
        proof {
            assert(old_digit == was[i as int]);
            value_is_local(before, digits@, i as nat);
            let p = ten_to(i as nat);
            let o = old_digit as nat;
            let r = rest as nat;
            let k = carry as nat;
            assert(r + 10 * k == 2 * o + c);
            assert(r * p + k * (10 * p) == 2 * (o * p) + c * p) by (nonlinear_arith)
                requires
                    r + 10 * k == 2 * o + c,
            ;
        }
        i = i + 1;
    }
    if carry > 0 {
        let ghost before = digits@;
        digits.push(carry);
        proof {
            value_is_local(before, digits@, before.len());
        }
    }
}

/// Whether a numeral exceeds ten to the power of `k`.
fn exceeds_power(digits: &Vec<u8>, k: u128) -> (r: bool)
    requires
        numeral(digits@),
    ensures
        r == (value_of(digits@) > ten_to(k as nat)),
{
    let top: usize = digits.len() - 1;
    let place: u128 = top as u128;
    proof {
        numeral_bounds(digits@);
    }
    if place != k {
        proof {
            if place > k {
                ten_to_grows((k + 1) as nat, top as nat);
                ten_to_grows(k as nat, k as nat);
            } else {
                ten_to_grows(digits@.len(), k as nat);
            }
        }
        return place > k;
    }
    let ghost p = ten_to(k as nat);
    proof {
        ten_to_grows(k as nat, k as nat);
        let d = digits@[top as int] as nat;
        assert(d >= 2 ==> d * p >= 2 * p) by (nonlinear_arith)
            requires
                p > 0,
        ;
        assert(d == 1 ==> d * p == p) by (nonlinear_arith);
    }
    if digits[top] > 1 {
        return true;
    }
    let mut i: usize = 0;
    while i < top
        invariant
            i <= top < digits.len(),
            forall|j: int| 0 <= j < i ==> digits@[j] == 0,
            value_of(digits@) == value_upto(digits@, top as nat) + p,
            p == ten_to(k as nat),
        decreases top - i,
    {
        if digits[i] > 0 {
            proof {
                value_of_zeros(digits@, top as nat);
            }
            return true;
        }
        i = i + 1;
    }
    proof {
        value_of_zeros(digits@, top as nat);
    }
    false
}

/// The digits of a text, without zeros at its start, the least significant first.
fn numeral_of(digits: &Vec<char>) -> (r: Vec<u8>)
    requires
        all_digits(digits@),
    ensures
        value_of(r@) == digits_value(digits@),
        r@.len() <= digits@.len(),
        r@.len() > 0 ==> numeral(r@),
        r@.len() == 0 ==> digits_value(digits@) == 0,
{
    let mut from: usize = 0;
    proof {
        assert(digits@.take(0).len() == 0);
    }
    while from < digits.len() && digits[from] == '0'
        invariant
            from <= digits.len(),
            forall|j: int| 0 <= j < from ==> digits@[j] == '0',
            digits_value(digits@.take(from as int)) == 0,
        decreases digits.len() - from,
    {
        proof {
            assert(digits@.take(from + 1).drop_last() =~= digits@.take(from as int));
        }
        from = from + 1;
    }
    let mut out: Vec<u8> = Vec::new();
    let mut n: usize = from;
    while n < digits.len()
        invariant
            from <= n <= digits.len(),
            all_digits(digits@),
            digits_value(digits@.take(from as int)) == 0,
            from < digits@.len() ==> digits@[from as int] != '0',
            out@.len() == n - from,
            forall|i: int| 0 <= i < out@.len() ==> #[trigger] out@[i] <= 9,
            out@.len() > 0 ==> out@.last() > 0,
            value_of(out@) == digits_value(digits@.take(n as int)),
        decreases digits.len() - n,
    {
        let c = digits[n];
        proof {
            assert(is_digit(digits@[n as int]));
            assert(digits@.take(n + 1).drop_last() =~= digits@.take(n as int));
            assert(digits@.take(n + 1).last() == c);
        }
        let d: u8 = (c as u32 - 48) as u8;
        let ghost before = out@;
        out.insert(0, d);
        proof {
            assert(out@ =~= seq![d] + before);
            value_shift(d, before, before.len());
            assert(d == digit_value(c));
        }
        n = n + 1;
    }
    proof {
        assert(digits@.take(digits@.len() as int) =~= digits@);
    }
    out
}

/// Exponents are held within plus and minus this.
const EXPONENT_LIMIT: i128 = 1_000_000_000_000_000_000_000_000_000_000;

spec fn held_exponent(e: int) -> int {
    if e > EXPONENT_LIMIT {
        EXPONENT_LIMIT as int
    } else if e < -EXPONENT_LIMIT {
        -EXPONENT_LIMIT
    } else {
        e
    }
}

/// Reads an exponent, held within the limits.
fn read_exponent(s: &Vec<char>) -> (r: Option<i128>)
    ensures
        match exponent_of(s@) {
            Some(e) => r is Some && r->0 == held_exponent(e),
            None => r is None,
        },
{
    if s.len() == 0 {
        return Some(0);
    }
    let signed = s.len() > 1 && (s[1] == '+' || s[1] == '-');
    let negative = signed && s[1] == '-';
    let from: usize = if signed {
        2
    } else {
        1
    };
    let ghost digits = s@.skip(from as int);
    proof {
        let rest = s@.drop_first();
        if signed {
            assert(rest[0] == s@[1]);
            assert(digits =~= rest.drop_first());
        } else {
            assert(digits =~= rest);
            if rest.len() > 0 {
                assert(rest[0] == s@[1]);
            }
        }
    }
    if s.len() == from {
        return None;
    }
    let mut value: i128 = 0;
    let mut i: usize = from;
    proof {
        assert(digits.take(0).len() == 0);
    }
    while i < s.len()
        invariant
            1 <= from <= i <= s.len(),
            digits == s@.skip(from as int),
            forall|j: int| 0 <= j < i - from ==> is_digit(#[trigger] digits[j]),
            0 <= value <= EXPONENT_LIMIT,
            value == held_exponent(digits_value(digits.take(i - from)) as int),
            !all_digits(digits) ==> exponent_of(s@) is None,
        decreases s.len() - i,
    {
        let c = s[i];
        proof {
            assert(digits[i - from] == c);
            assert(digits.take(i - from + 1).drop_last() =~= digits.take(i - from));
            assert(digits.take(i - from + 1).last() == c);
        }
        if c < '0' || c > '9' {
            return None;
        }
        let d: i128 = (c as u32 - 48) as i128;
        let next: i128 = value * 10 + d;
        value = if next > EXPONENT_LIMIT {
            EXPONENT_LIMIT
        } else {
            next
        };
        i = i + 1;
    }
    proof {
        assert(digits.take(digits.len() as int) =~= digits);
    }
    if negative {
        Some(-value)
    } else {
        Some(value)
    }
}

/// Where the leading digit of a number lies well above, or well below, that of
/// half the least positive number, it decides.
proof fn leading_digit_decides(d: nat, n: nat, e: int)
    requires
        n > 0,
        ten_to((n - 1) as nat) <= d < ten_to(n),
    ensures
        n - 1 + e >= -323 ==> above_zero(d, e),
        n + e <= -324 ==> !above_zero(d, e),
{
    let t = two_to(1075);
    half_least_is_bounded();
    ten_to_grows((n - 1) as nat, (n - 1) as nat);
    if e < 0 {
        if n - 1 + e >= -323 {
            ten_to_adds((n - 1) as nat, 323);
            ten_to_grows((-e) as nat, (n - 1 + 323) as nat);
            let q = ten_to((n - 1) as nat);
            let p = ten_to(323);
            assert(d * t > q * p) by (nonlinear_arith)
                requires
                    d >= q,
                    t > p,
                    q > 0,
            ;
        }
        if n + e <= -324 {
            ten_to_adds(n, 324);
            ten_to_grows(n + 324, (-e) as nat);
            let q = ten_to(n);
            let p = ten_to(324);
            assert(d * t < q * p) by (nonlinear_arith)
                requires
                    d < q,
                    t < p,
                    d >= 0,
                    t >= 0,
            ;
        }
    }
}

/// Whether a numeral times ten to the power of `e` does not round to zero.
fn rounds_above_zero(digits: Vec<u8>, e: i128) -> (r: bool)
    requires
        numeral(digits@),
        -EXPONENT_LIMIT - u64::MAX <= e <= EXPONENT_LIMIT,
        digits@.len() <= u64::MAX,
    ensures
        r == above_zero(value_of(digits@), e as int),
{
    let n: i128 = digits.len() as i128;
    proof {
        numeral_bounds(digits@);
        leading_digit_decides(value_of(digits@), digits@.len(), e as int);
    }
    if n - 1 + e >= -323 {
        return true;
    }
    if n + e <= -324 {
        return false;
    }
    // The leading digits lie at the same place: both sides are scaled to whole
    // numbers and compared.
    let mut scaled = digits;
    let mut times: u32 = 0;
    proof {
        assert(value_of(scaled@) * 1 == value_of(scaled@)) by (nonlinear_arith);
    }
    while times < HALF_LEAST
        invariant
            times <= HALF_LEAST,
            numeral(scaled@),
            value_of(scaled@) == value_of(digits@) * two_to(times as nat),
        decreases HALF_LEAST - times,
    {
        double(&mut scaled);
        proof {
            let d = value_of(digits@);
            let t = two_to(times as nat);
            assert(2 * (d * t) == d * (2 * t)) by (nonlinear_arith);
        }
        times = times + 1;
    }
    exceeds_power(&scaled, (-e) as u128)
}

fn part_of(s: &Vec<char>, from: usize, to: usize) -> (r: Vec<char>)
    requires
        from <= to <= s@.len(),
    ensures
        r@ == s@.subrange(from as int, to as int),
{
    let mut out: Vec<char> = Vec::new();
    let mut i: usize = from;
    while i < to
        invariant
            from <= i <= to <= s@.len(),
            out@ == s@.subrange(from as int, i as int),
        decreases to - i,
    {
        out.push(s[i]);
        proof {
            assert(s@.subrange(from as int, i + 1) =~= s@.subrange(from as int, i as int).push(
                s@[i as int],
            ));
        }
        i = i + 1;
    }
    out
}

fn find_either(s: &Vec<char>, a: char, b: char) -> (r: usize)
    ensures
        r <= s@.len(),
        r == before_either(s@, a, b),
{
    let mut i: usize = 0;
    proof {
        assert(s@.skip(0) =~= s@);
    }
    while i < s.len() && s[i] != a && s[i] != b
        invariant
            i <= s@.len(),
            before_either(s@, a, b) == i + before_either(s@.skip(i as int), a, b),
        decreases s@.len() - i,
    {
        proof {
            assert(s@.skip(i as int).drop_first() =~= s@.skip(i + 1));
        }
        i = i + 1;
    }
    i
}

fn only_digits(s: &Vec<char>) -> (r: bool)
    ensures
        r == all_digits(s@),
{
    let mut i: usize = 0;
    while i < s.len()
        invariant
            i <= s@.len(),
            forall|j: int| 0 <= j < i ==> is_digit(#[trigger] s@[j]),
        decreases s@.len() - i,
    {
        if s[i] < '0' || s[i] > '9' {
            assert(!is_digit(s@[i as int]));
            return false;
        }
        i = i + 1;
    }
    true
}

fn number_is_positive(s: &Vec<char>) -> (r: bool)
    ensures
        r == positive_number(s@),
{
    let at: usize = find_either(s, 'e', 'E');
    let mantissa = part_of(s, 0, at);
    let exponent_text = part_of(s, at, s.len());
    proof {
        assert(mantissa@ =~= s@.take(at as int));
        assert(exponent_text@ =~= s@.skip(at as int));
    }
    let point: usize = find_either(&mantissa, '.', '.');
    let mut digits = part_of(&mantissa, 0, point);
    let mut fraction: usize = 0;
    if point < mantissa.len() {
        let mut tail = part_of(&mantissa, point + 1, mantissa.len());
        fraction = tail.len();
        proof {
            assert(mantissa_digits(mantissa@) =~= digits@ + tail@);
        }
        digits.append(&mut tail);
    } else {
        proof {
            assert(digits@ =~= mantissa@);
        }
    }
    if digits.len() == 0 || !only_digits(&digits) {
        return false;
    }
    let exponent: i128 = match read_exponent(&exponent_text) {
        Some(e) => e,
        None => {
            return false;
        },
    };
    let numeral = numeral_of(&digits);
    let ghost e = exponent_of(exponent_text@)->0;
    let ghost d = digits_value(digits@);
    if numeral.len() == 0 {
        proof {
            assert(0 * two_to(1075) == 0) by (nonlinear_arith);
        }
        return false;
    }
    proof {
        numeral_bounds(numeral@);
        leading_digit_decides(d, numeral@.len(), e - fraction);
        leading_digit_decides(d, numeral@.len(), exponent - fraction);
    }
    rounds_above_zero(numeral, exponent - fraction as i128)
}

/// Whether a text writes a positive number.
pub fn positive(s: &str) -> (r: bool)
    ensures
        r == is_positive(s@),
{
    let all = text::chars_of(s);
    if all.len() > 0 && all[0] == '-' {
        return false;
    }
    let from: usize = if all.len() > 0 && all[0] == '+' {
        1
    } else {
        0
    };
    let body = part_of(&all, from, all.len());
    proof {
        if from == 1 {
            assert(body@ =~= s@.drop_first());
        } else {
            assert(body@ =~= s@);
        }
    }
    let written = text::string_of(&body);
    let lower = text::to_lower(written.as_str());
    if text::str_eq(lower.as_str(), "inf") || text::str_eq(lower.as_str(), "infinity") {
        return true;
    }
    number_is_positive(&body)
}

proof fn nothing_before_either(s: Seq<char>, a: char, b: char)
    requires
        forall|i: int| 0 <= i < s.len() ==> #[trigger] s[i] != a && s[i] != b,
    ensures
        before_either(s, a, b) == s.len(),
    decreases s.len(),
{
    if s.len() > 0 {
        assert(s[0] != a && s[0] != b);
        let rest = s.drop_first();
        assert forall|i: int| 0 <= i < rest.len() implies #[trigger] rest[i] != a && rest[i] != b by {
            assert(rest[i] == s[i + 1]);
        }
        nothing_before_either(rest, a, b);
    }
}

proof fn point_is_found(head: Seq<char>, tail: Seq<char>)
    requires
        all_digits(head),
    ensures
        before_either(head + seq!['.'] + tail, '.', '.') == head.len(),
    decreases head.len(),
{
    let s = head + seq!['.'] + tail;
    if head.len() > 0 {
        assert(is_digit(head[0]));
        assert(s[0] == head[0]);
        let rest = head.drop_first();
        assert forall|i: int| 0 <= i < rest.len() implies is_digit(#[trigger] rest[i]) by {
            assert(rest[i] == head[i + 1]);
        }
        point_is_found(rest, tail);
        assert(s.drop_first() =~= rest + seq!['.'] + tail);
    } else {
        assert(s[0] == '.');
    }
}

/// A numeral is zero exactly where all its digits are.
proof fn zero_has_only_zeros(s: Seq<char>)
    requires
        all_digits(s),
    ensures
        digits_value(s) > 0 <==> exists|i: int| 0 <= i < s.len() && #[trigger] s[i] != '0',
    decreases s.len(),
{
    if s.len() > 0 {
        let rest = s.drop_last();
        let last = s.last();
        assert(s[s.len() - 1] == last);
        assert(is_digit(s[s.len() - 1]));
        assert forall|i: int| 0 <= i < rest.len() implies is_digit(#[trigger] rest[i]) by {
            assert(rest[i] == s[i]);
        }
        zero_has_only_zeros(rest);
        if exists|i: int| 0 <= i < rest.len() && #[trigger] rest[i] != '0' {
            let i = choose|i: int| 0 <= i < rest.len() && #[trigger] rest[i] != '0';
            assert(s[i] != '0');
        }
        if exists|i: int| 0 <= i < s.len() && #[trigger] s[i] != '0' {
            let i = choose|i: int| 0 <= i < s.len() && #[trigger] s[i] != '0';
            if i < rest.len() {
                assert(rest[i] != '0');
            } else {
                assert(last != '0');
                assert(digit_value(last) > 0);
            }
        }
        if digits_value(s) > 0 && digits_value(rest) == 0 {
            assert(s[s.len() - 1] != '0');
        }
    }
}

/// A number that is not zero does not round to zero within 323 places behind the
/// point.
proof fn small_fractions_stay_above_zero(d: nat, places: nat)
    requires
        places <= 323,
    ensures
        above_zero(d, -(places as int)) <==> d > 0,
{
    if places > 0 {
        half_least_is_bounded();
        ten_to_grows(places, 323);
        let p = two_to(1075);
        if d > 0 {
            assert(d * p >= p) by (nonlinear_arith)
                requires
                    d > 0,
            ;
        } else {
            assert(d * p == 0) by (nonlinear_arith)
                requires
                    d == 0,
            ;
        }
    }
}

proof fn digits_are_no_word(s: Seq<char>)
    requires
        s.len() > 0,
        is_digit(s[0]) || s[0] == '.',
    ensures
        text::lower(s) != "inf"@,
        text::lower(s) != "infinity"@,
{
    reveal_strlit("inf");
    reveal_strlit("infinity");
    assert("inf"@[0] == 'i' && "infinity"@[0] == 'i');
    assert(text::lower(s)[0] == s[0]);
}

/// A whole number is positive exactly where one of its digits is not zero.
pub proof fn whole_numbers_are_positive_by_their_digits(s: &str, r: bool)
    requires
        call_ensures(positive, (s,), r),
        s@.len() > 0,
        all_digits(s@),
    ensures
        r <==> exists|i: int| 0 <= i < s@.len() && #[trigger] s@[i] != '0',
{
    let t = s@;
    assert(is_digit(t[0]));
    assert forall|i: int| 0 <= i < t.len() implies #[trigger] t[i] != 'e' && t[i] != 'E' && t[i]
        != '.' by {
        assert(is_digit(t[i]));
    }
    nothing_before_either(t, 'e', 'E');
    nothing_before_either(t, '.', '.');
    assert(t.take(t.len() as int) =~= t);
    assert(t.skip(t.len() as int) =~= Seq::empty());
    zero_has_only_zeros(t);
    digits_are_no_word(t);
}

/// A number with a point is positive exactly where one of its digits, before or
/// behind the point, is not zero, up to 323 places.
pub proof fn decimal_numbers_are_positive_by_their_digits(
    s: &str,
    whole: Seq<char>,
    fraction: Seq<char>,
    r: bool,
)
    requires
        call_ensures(positive, (s,), r),
        s@ == whole + seq!['.'] + fraction,
        all_digits(whole),
        all_digits(fraction),
        whole.len() + fraction.len() > 0,
        fraction.len() <= 323,
    ensures
        r <==> (exists|i: int| 0 <= i < whole.len() && #[trigger] whole[i] != '0') || (exists|i: int|
            0 <= i < fraction.len() && #[trigger] fraction[i] != '0'),
{
    let t = s@;
    let n = whole.len() as int;
    assert(is_digit(t[0]) || t[0] == '.') by {
        if n > 0 {
            assert(t[0] == whole[0]);
            assert(is_digit(whole[0]));
        }
    }
    assert forall|i: int| 0 <= i < t.len() implies #[trigger] t[i] != 'e' && t[i] != 'E' by {
        if i < n {
            assert(t[i] == whole[i]);
            assert(is_digit(whole[i]));
        } else if i > n {
            assert(t[i] == fraction[i - n - 1]);
            assert(is_digit(fraction[i - n - 1]));
        }
    }
    nothing_before_either(t, 'e', 'E');
    point_is_found(whole, fraction);
    assert(t.take(t.len() as int) =~= t);
    assert(t.skip(t.len() as int) =~= Seq::empty());
    let digits = mantissa_digits(t);
    assert(digits =~= whole + fraction);
    assert forall|i: int| 0 <= i < digits.len() implies is_digit(#[trigger] digits[i]) by {
        if i < n {
            assert(digits[i] == whole[i]);
        } else {
            assert(digits[i] == fraction[i - n]);
        }
    }
    zero_has_only_zeros(digits);
    zero_has_only_zeros(whole);
    zero_has_only_zeros(fraction);
    small_fractions_stay_above_zero(digits_value(digits), fraction.len());
    digits_are_no_word(t);
    if exists|i: int| 0 <= i < digits.len() && #[trigger] digits[i] != '0' {
        let i = choose|i: int| 0 <= i < digits.len() && #[trigger] digits[i] != '0';
        if i < n {
            assert(whole[i] != '0');
        } else {
            assert(fraction[i - n] != '0');
        }
    }
    if exists|i: int| 0 <= i < whole.len() && #[trigger] whole[i] != '0' {
        let i = choose|i: int| 0 <= i < whole.len() && #[trigger] whole[i] != '0';
        assert(digits[i] != '0');
    }
    if exists|i: int| 0 <= i < fraction.len() && #[trigger] fraction[i] != '0' {
        let i = choose|i: int| 0 <= i < fraction.len() && #[trigger] fraction[i] != '0';
        assert(digits[n + i] != '0');
    }
}

/// A minus sign makes no number positive, a plus sign changes nothing, and no text at
/// all is no number.
pub proof fn signs_are_respected(s: &str, rest: &str, r: bool, unsigned: bool)
    requires
        call_ensures(positive, (s,), r),
        call_ensures(positive, (rest,), unsigned),
    ensures
        s@.len() == 0 ==> !r,
        s@.len() > 0 && s@[0] == '-' ==> !r,
        s@ == seq!['+'] + rest@ && !(rest@.len() > 0 && (rest@[0] == '+' || rest@[0] == '-')) ==> r
            == unsigned,
{
    assert((seq!['+'] + rest@).drop_first() =~= rest@);
    if s@.len() == 0 {
        reveal_strlit("inf");
        reveal_strlit("infinity");
        assert("inf"@.len() == 3 && "infinity"@.len() == 8);
        assert(text::lower(s@).len() == 0);
        assert(mantissa_digits(s@.take(0)).len() == 0);
    }
}

proof fn mark_is_found(head: Seq<char>, mark: char, tail: Seq<char>)
    requires
        all_digits(head),
        mark == 'e' || mark == 'E',
    ensures
        before_either(head + seq![mark] + tail, 'e', 'E') == head.len(),
    decreases head.len(),
{
    let s = head + seq![mark] + tail;
    if head.len() > 0 {
        assert(is_digit(head[0]));
        assert(s[0] == head[0]);
        let rest = head.drop_first();
        assert forall|i: int| 0 <= i < rest.len() implies is_digit(#[trigger] rest[i]) by {
            assert(rest[i] == head[i + 1]);
        }
        mark_is_found(rest, mark, tail);
        assert(s.drop_first() =~= rest + seq![mark] + tail);
    } else {
        assert(s[0] == mark);
    }
}

proof fn numerals_are_below_their_power(s: Seq<char>)
    requires
        all_digits(s),
    ensures
        digits_value(s) < ten_to(s.len()),
    decreases s.len(),
{
    if s.len() > 0 {
        let rest = s.drop_last();
        assert(is_digit(s[s.len() - 1]));
        assert forall|i: int| 0 <= i < rest.len() implies is_digit(#[trigger] rest[i]) by {
            assert(rest[i] == s[i]);
        }
        numerals_are_below_their_power(rest);
    }
}

/// An exponent, behind `e` or `E`, scales a number. A positive one makes no zero of it.
/// A negative one leaves it positive up to 323 places, and makes zero of it once it
/// moves every digit 324 places behind the point.
pub proof fn exponents_scale_numbers(
    s: &str,
    whole: Seq<char>,
    mark: char,
    minus: bool,
    digits: Seq<char>,
    r: bool,
)
    requires
        call_ensures(positive, (s,), r),
        mark == 'e' || mark == 'E',
        s@ == whole + seq![mark] + (if minus {
            seq!['-'] + digits
        } else {
            digits
        }),
        all_digits(whole),
        all_digits(digits),
        whole.len() > 0,
        digits.len() > 0,
    ensures
        !minus || digits_value(digits) <= 323 ==> (r <==> exists|i: int|
            0 <= i < whole.len() && #[trigger] whole[i] != '0'),
        minus && digits_value(digits) >= whole.len() + 324 ==> !r,
{
    let t = s@;
    let n = whole.len() as int;
    let tail = if minus {
        seq!['-'] + digits
    } else {
        digits
    };
    assert(is_digit(whole[0]) && t[0] == whole[0]);
    digits_are_no_word(t);
    mark_is_found(whole, mark, tail);
    assert(t.take(n) =~= whole);
    let written = t.skip(n);
    assert(written.drop_first() =~= tail);
    assert forall|i: int| 0 <= i < whole.len() implies #[trigger] whole[i] != '.' by {
        assert(is_digit(whole[i]));
    }
    nothing_before_either(whole, '.', '.');
    assert((seq!['-'] + digits).drop_first() =~= digits);
    assert(is_digit(digits[0]));
    zero_has_only_zeros(whole);
    let d = digits_value(whole);
    let e = digits_value(digits);
    if minus {
        assert(exponent_of(written) == Some(-(e as int)));
        if e <= 323 {
            small_fractions_stay_above_zero(d, e);
        }
        if e >= whole.len() + 324 {
            numerals_are_below_their_power(whole);
            half_least_is_bounded();
            ten_to_adds(whole.len(), 324);
            ten_to_grows(whole.len() + 324, e);
            products_grow(d, ten_to(whole.len()), two_to(1075), ten_to(324));
        }
    } else {
        assert(exponent_of(written) == Some(e as int));
    }
}

} // verus!
