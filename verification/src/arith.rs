//! Arithmetic on integers and texts, as the machine applies it.

use vstd::prelude::*;
use vstd::utf8::encode_utf8;

verus! {

/// The 64-bit signed integer that equals `v` modulo 2^64.
pub open spec fn wrap(v: int) -> i64 {
    let m = v % 0x1_0000_0000_0000_0000;
    if m > i64::MAX {
        (m - 0x1_0000_0000_0000_0000) as i64
    } else {
        m as i64
    }
}

/// The quotient rounded toward negative infinity; `b` is not zero.
pub open spec fn floor_div(a: int, b: int) -> int {
    if b > 0 {
        a / b
    } else {
        (-a) / (-b)
    }
}

/// The remainder of the division that rounds toward zero: it has the sign of
/// `a`; `b` is not zero.
pub open spec fn trunc_rem(a: int, b: int) -> int {
    let d = if b < 0 {
        -b
    } else {
        b
    };
    if a >= 0 {
        a % d
    } else {
        -((-a) % d)
    }
}

/// The text written `n` times in a row.
pub open spec fn repeated(s: Seq<char>, n: nat) -> Seq<char>
    decreases n,
{
    if n == 0 {
        Seq::empty()
    } else {
        repeated(s, (n - 1) as nat) + s
    }
}

/// The number of bytes that a text takes in UTF-8.
pub open spec fn byte_len(s: Seq<char>) -> nat {
    encode_utf8(s).len()
}

/// The sum, wrapped to 64 bits.
pub fn add_wrapping(a: i64, b: i64) -> (r: i64)
    ensures
        r == wrap(a + b),
{
    a.wrapping_add(b)
}

/// The difference, wrapped to 64 bits.
pub fn sub_wrapping(a: i64, b: i64) -> (r: i64)
    ensures
        r == wrap(a - b),
{
    a.wrapping_sub(b)
}

/// The product, wrapped to 64 bits.
pub fn mul_wrapping(a: i64, b: i64) -> (r: i64)
    ensures
        r == wrap(a * b),
{
    a.wrapping_mul(b)
}

/// The quotient of the division that rounds toward zero; `b` is not zero.
pub open spec fn trunc_div(a: int, b: int) -> int {
    let d = if b < 0 {
        -b
    } else {
        b
    };
    let q = if a >= 0 {
        a / d
    } else {
        -((-a) / d)
    };
    if b < 0 {
        -q
    } else {
        q
    }
}

/// Dividing the negative of a number rounds the other way.
proof fn lemma_negated_quotient(x: int, d: int)
    requires
        x > 0,
        d > 0,
    ensures
        (-x) / d == if x % d == 0 {
            -(x / d)
        } else {
            -(x / d) - 1
        },
{
    let q = x / d;
    let r = x % d;
    assert(x == d * q + r) by {
        vstd::arithmetic::div_mod::lemma_fundamental_div_mod(x, d);
    }
    assert(0 <= r < d) by {
        vstd::arithmetic::div_mod::lemma_mod_pos_bound(x, d);
    }
    if r == 0 {
        assert(-x == d * (-q) + 0) by (nonlinear_arith)
            requires
                x == d * q + r,
                r == 0,
        ;
        vstd::arithmetic::div_mod::lemma_fundamental_div_mod_converse(-x, d, -q, 0);
    } else {
        assert(-x == d * (-q - 1) + (d - r)) by (nonlinear_arith)
            requires
                x == d * q + r,
        ;
        assert(0 <= d - r < d);
        vstd::arithmetic::div_mod::lemma_fundamental_div_mod_converse(-x, d, -q - 1, d - r);
    }
}

/// The quotient of a number that is not negative by a positive one lies
/// between zero and the number, and is the number only where the divisor is
/// one or the number is zero.
proof fn lemma_quotient_bounds(x: int, d: int)
    requires
        x >= 0,
        d > 0,
    ensures
        0 <= x / d <= x,
        x / d == x && x > 0 ==> d == 1,
{
    assert(0 <= x / d <= x) by (nonlinear_arith)
        requires
            x >= 0,
            d > 0,
    ;
    assert(x / d == x && x > 0 ==> d == 1) by (nonlinear_arith)
        requires
            x >= 0,
            d > 0,
    ;
}

/// Rounding down is rounding toward zero, less one where the division
/// leaves a remainder whose sign is not that of the divisor.
pub proof fn lemma_floor_from_trunc(a: int, b: int)
    requires
        b != 0,
    ensures
        floor_div(a, b) == if trunc_rem(a, b) != 0 && ((trunc_rem(a, b) < 0) != (b < 0)) {
            trunc_div(a, b) - 1
        } else {
            trunc_div(a, b)
        },
{
    let d = if b < 0 {
        -b
    } else {
        b
    };
    if a > 0 && b < 0 {
        lemma_negated_quotient(a, d);
    }
    if a < 0 && b > 0 {
        lemma_negated_quotient(-a, d);
    }
    if a == 0 {
        assert(0int / d == 0) by (nonlinear_arith)
            requires
                d > 0,
        ;
        assert(0int % d == 0) by (nonlinear_arith)
            requires
                d > 0,
        ;
    }
}

/// What the standard checked division and remainder compute, in the terms
/// of this module.
proof fn lemma_checked_is_trunc(a: i64, b: i64)
    requires
        b != 0,
        !(a == i64::MIN && b == -1),
    ensures
        a.checked_div(b) == Some(trunc_div(a as int, b as int) as i64),
        a.checked_rem(b) == Some(trunc_rem(a as int, b as int) as i64),
        i64::MIN <= trunc_div(a as int, b as int) <= i64::MAX,
        trunc_div(a as int, b as int) == i64::MIN ==> trunc_rem(a as int, b as int) == 0,
{
    let x = a as int;
    let y = b as int;
    let d = if y < 0 {
        -y
    } else {
        y
    };
    let n = if x < 0 {
        -x
    } else {
        x
    };
    lemma_quotient_bounds(n, d);
    assert(0 <= n % d < d);
    assert(x * -1 == -x);
    assert(y * -1 == -y);
    if x == 0 {
        assert(0int / d == 0) by (nonlinear_arith)
            requires
                d > 0,
        ;
        assert(0int % d == 0) by (nonlinear_arith)
            requires
                d > 0,
        ;
    }
    if n / d == 0x8000_0000_0000_0000 {
        assert(n % d == 0) by {
            assert(d == 1);
        }
    }
}

/// The quotient rounded toward negative infinity, or `None` where it does
/// not fit: the least integer divided by minus one.
pub fn floor_div_i64(a: i64, b: i64) -> (r: Option<i64>)
    requires
        b != 0,
    ensures
        r == if a == i64::MIN && b == -1 {
            None
        } else {
            Some(floor_div(a as int, b as int) as i64)
        },
{
    if a == i64::MIN && b == -1 {
        return None;
    }
    proof {
        lemma_checked_is_trunc(a, b);
        lemma_floor_from_trunc(a as int, b as int);
    }
    match (a.checked_div(b), a.checked_rem(b)) {
        (Some(q), Some(m)) => {
            if m != 0 && ((m < 0) != (b < 0)) {
                Some(q - 1)
            } else {
                Some(q)
            }
        },
        _ => None,
    }
}

/// The remainder of the division that rounds toward zero.
pub fn trunc_rem_i64(a: i64, b: i64) -> (r: i64)
    requires
        b != 0,
    ensures
        r == trunc_rem(a as int, b as int),
{
    if a == i64::MIN && b == -1 {
        assert(0x8000_0000_0000_0000int % 1 == 0);
        return 0;
    }
    proof {
        lemma_checked_is_trunc(a, b);
    }
    match a.checked_rem(b) {
        Some(m) => m,
        None => 0,
    }
}

/// A text of no bytes has no chars, and however often it is repeated
/// nothing comes of it.
pub proof fn lemma_repeated_nothing(s: Seq<char>, n: nat)
    requires
        byte_len(s) == 0,
    ensures
        repeated(s, n) == s,
    decreases n,
{
    vstd::utf8::encode_utf8_decode_utf8(s);
    assert(s =~= Seq::<char>::empty()) by {
        if s.len() > 0 {
            vstd::utf8::encode_utf8_first_scalar(s);
        }
    }
    if n > 0 {
        lemma_repeated_nothing(s, (n - 1) as nat);
        assert(repeated(s, n) =~= s);
    }
}

/// A new text that holds the given one `n` times in a row.
pub fn repeat_text(s: &str, n: usize) -> (r: String)
    ensures
        r@ == repeated(s@, n as nat),
{
    let mut out = String::new();
    let mut i: usize = 0;
    while i < n
        invariant
            i <= n,
            out@ == repeated(s@, i as nat),
        decreases n - i,
    {
        out.append(s);
        i += 1;
    }
    out
}

} // verus!
