//! Decimal notation for integers: reading digits and writing them.

use vstd::prelude::*;

verus! {

/// `String::push`: appends the char to the end of the text.
pub assume_specification[ String::push ](s: &mut String, c: char)
    ensures
        final(s)@ == old(s)@.push(c),
;

/// An ASCII decimal digit.
pub open spec fn is_digit(c: char) -> bool {
    '0' <= c <= '9'
}

/// The number that a digit stands for.
pub open spec fn digit_value(c: char) -> nat {
    (c as int - '0' as int) as nat
}

/// The digit that stands for a number below ten.
pub open spec fn digit_char(d: nat) -> char {
    (d + '0' as nat) as char
}

/// Every char of the text is an ASCII decimal digit.
pub open spec fn all_digits(s: Seq<char>) -> bool {
    forall|i: int| 0 <= i < s.len() ==> is_digit(#[trigger] s[i])
}

/// The number that a text of digits denotes, most significant digit first.
pub open spec fn decimal_value(s: Seq<char>) -> nat
    decreases s.len(),
{
    if s.len() == 0 {
        0
    } else {
        10 * decimal_value(s.drop_last()) + digit_value(s.last())
    }
}

/// The decimal notation of a natural number, without leading zeros.
pub open spec fn render_nat(n: nat) -> Seq<char>
    decreases n,
{
    if n < 10 {
        seq![digit_char(n)]
    } else {
        render_nat(n / 10).push(digit_char(n % 10))
    }
}

/// The decimal notation of an integer, with a minus sign where it is negative.
pub open spec fn render_int(n: int) -> Seq<char> {
    if n < 0 {
        seq!['-'] + render_nat((-n) as nat)
    } else {
        render_nat(n as nat)
    }
}

/// What is written can be read back: the notation of a number consists of
/// digits and denotes that number.
pub proof fn lemma_render_then_read(n: nat)
    ensures
        all_digits(render_nat(n)),
        render_nat(n).len() >= 1,
        decimal_value(render_nat(n)) == n,
    decreases n,
{
    if n < 10 {
        let s = render_nat(n);
        assert(s.drop_last() =~= Seq::<char>::empty());
        assert(decimal_value(s.drop_last()) == 0);
    } else {
        lemma_render_then_read(n / 10);
        let s = render_nat(n);
        assert(s.drop_last() =~= render_nat(n / 10));
        assert(s.last() == digit_char(n % 10));
    }
}

/// A text of digits that does not start with a needless zero is the notation
/// of the number it denotes.
pub proof fn lemma_read_then_render(s: Seq<char>)
    requires
        all_digits(s),
        s.len() >= 1,
        s.len() > 1 ==> s[0] != '0',
    ensures
        render_nat(decimal_value(s)) == s,
    decreases s.len(),
{
    if s.len() == 1 {
        assert(s.drop_last() =~= Seq::<char>::empty());
        assert(decimal_value(s.drop_last()) == 0);
        assert(render_nat(decimal_value(s)) =~= s);
    } else {
        let p = s.drop_last();
        assert(all_digits(p));
        assert(p[0] == s[0]);
        lemma_read_then_render(p);
        lemma_leading_digit(p);
        let v = decimal_value(p);
        let d = digit_value(s.last());
        assert(is_digit(s.last()));
        assert((10 * v + d) / 10 == v);
        assert((10 * v + d) % 10 == d);
        assert(render_nat(decimal_value(s)) =~= s);
    }
}

/// A text of digits that starts with a digit other than zero denotes a
/// number that is not zero; one of two or more digits denotes ten or more.
pub proof fn lemma_leading_digit(s: Seq<char>)
    requires
        all_digits(s),
        s.len() >= 1,
        s[0] != '0',
    ensures
        decimal_value(s) >= 1,
        s.len() > 1 ==> decimal_value(s) >= 10,
    decreases s.len(),
{
    if s.len() == 1 {
        assert(s.drop_last() =~= Seq::<char>::empty());
        assert(decimal_value(s.drop_last()) == 0);
        assert(is_digit(s[0]));
    } else {
        let p = s.drop_last();
        assert(all_digits(p));
        assert(p[0] == s[0]);
        lemma_leading_digit(p);
    }
}

/// Reading a longer text never gives less than reading a prefix of it.
pub proof fn lemma_prefix_value(s: Seq<char>, k: int)
    requires
        0 <= k <= s.len(),
    ensures
        decimal_value(s.take(k)) <= decimal_value(s),
    decreases s.len(),
{
    if k < s.len() {
        lemma_prefix_value(s.drop_last(), k);
        assert(s.drop_last().take(k) =~= s.take(k));
    } else {
        assert(s.take(k) =~= s);
    }
}

fn digit_of(d: u8) -> (c: char)
    requires
        d < 10,
    ensures
        c == digit_char(d as nat),
{
    (d + 48) as char
}

/// Appends the decimal notation of `n` to `out`.
pub fn push_decimal(out: &mut String, n: u64)
    ensures
        final(out)@ == old(out)@ + render_nat(n as nat),
    decreases n,
{
    if n >= 10 {
        push_decimal(out, n / 10);
    }
    out.push(digit_of((n % 10) as u8));
    // Below ten the notation is the one digit; from ten on it is the
    // notation of the tenth with the last digit behind it.
    assert(final(out)@ =~= old(out)@ + render_nat(n as nat));
}

/// Appends the decimal notation of `n`, with its sign, to `out`.
pub fn push_signed(out: &mut String, n: i64)
    ensures
        final(out)@ == old(out)@ + render_int(n as int),
{
    if n < 0 {
        out.push('-');
        let magnitude: u64 = ((-(n + 1)) as u64) + 1;
        push_decimal(out, magnitude);
        assert(final(out)@ =~= old(out)@ + render_int(n as int));
    } else {
        push_decimal(out, n as u64);
    }
}

/// The decimal notation of `n`.
pub fn render_i64(n: i64) -> (r: String)
    ensures
        r@ == render_int(n as int),
{
    let mut out = String::new();
    push_signed(&mut out, n);
    assert(out@ =~= render_int(n as int));
    out
}

/// Reads a text of digits as a 64-bit signed integer.
///
/// The result is `None` where a char is no ASCII digit and where the number
/// does not fit.
pub fn read_i64(text: &[char]) -> (r: Option<i64>)
    ensures
        r == if all_digits(text@) && decimal_value(text@) <= i64::MAX {
            Some(decimal_value(text@) as i64)
        } else {
            None
        },
{
    let mut acc: i64 = 0;
    let mut i: usize = 0;
    while i < text.len()
        invariant
            i <= text.len(),
            all_digits(text@.take(i as int)),
            acc == decimal_value(text@.take(i as int)),
        decreases text.len() - i,
    {
        let c = text[i];
        proof {
            assert(text@.take(i + 1).drop_last() =~= text@.take(i as int));
            assert(text@.take(i + 1).last() == c);
            lemma_prefix_value(text@, i + 1);
        }
        if c < '0' || c > '9' {
            assert(!is_digit(text@[i as int]));
            return None;
        }
        let d: i64 = (c as u32 - 48) as i64;
        let next = match acc.checked_mul(10) {
            Some(m) => m.checked_add(d),
            None => None,
        };
        match next {
            Some(v) => {
                acc = v;
            },
            None => {
                return None;
            },
        }
        i += 1;
        proof {
            assert forall|j: int| 0 <= j < i implies is_digit(#[trigger] text@.take(i as int)[j]) by {
                if j < i - 1 {
                    assert(text@.take(i - 1)[j] == text@[j]);
                }
            }
        }
    }
    assert(text@.take(i as int) =~= text@);
    Some(acc)
}

} // verus!
