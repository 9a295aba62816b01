//! Writing integers in a base from 2 to 36, for `Number.prototype.toString`.
use vstd::prelude::*;
use crate::text::push_char;

verus! {

/// The digit for the value `v` (below 36): `0`-`9`, then `a`-`z`.
pub open spec fn digit_of(v: int) -> char {
    "0123456789abcdefghijklmnopqrstuvwxyz"@[v]
}

/// The digits of the positive number `n` in base `b`, most significant
/// first, without leading zeros.
pub open spec fn digits(n: nat, b: nat) -> Seq<char>
    decreases n,
{
    if n == 0 || b < 2 {
        Seq::empty()
    } else {
        proof {
            assert(n / b < n) by (nonlinear_arith)
                requires n > 0, b >= 2;
        }
        digits(n / b, b).push(digit_of((n % b) as int))
    }
}

/// The text of `n` in base `b`: `0` for zero, else a `-` for a negative
/// number and the digits of its magnitude.
pub open spec fn radix_text(n: int, b: nat) -> Seq<char> {
    if n == 0 {
        seq!['0']
    } else if n < 0 {
        seq!['-'] + digits((-n) as nat, b)
    } else {
        digits(n as nat, b)
    }
}

/// The value of the digit `c` in base 36, if it is one.
pub open spec fn digit_value(c: char) -> int {
    if '0' <= c && c <= '9' {
        c as int - '0' as int
    } else {
        c as int - 'a' as int + 10
    }
}

/// The number that the digits `s` stand for in base `b`.
pub open spec fn value_of_digits(s: Seq<char>, b: nat) -> nat
    decreases s.len(),
{
    if s.len() == 0 {
        0
    } else {
        (value_of_digits(s.drop_last(), b) * b + digit_value(s.last())) as nat
    }
}

/// Appends the digits of `m` in base `b`, most significant first.
fn push_digits(out: &mut String, m: u64, b: u64)
    requires 2 <= b <= 36,
    ensures final(out)@ == old(out)@ + digits(m as nat, b as nat),
{
    let table = "0123456789abcdefghijklmnopqrstuvwxyz";
    proof {
        reveal_strlit("0123456789abcdefghijklmnopqrstuvwxyz");
    }
    let mut m = m;
    let ghost magnitude: nat = m as nat;
    let mut rev: Vec<char> = Vec::new();
    while m > 0
        invariant
            2 <= b <= 36,
            table@.len() == 36,
            table@ == "0123456789abcdefghijklmnopqrstuvwxyz"@,
            digits(magnitude, b as nat) == digits(m as nat, b as nat) + rev@.reverse(),
        decreases m,
    {
        let d = (m % b) as usize;
        let c = table.get_char(d);
        assert(c == digit_of((m % b) as int));
        assert(digits(m as nat, b as nat) == digits((m / b) as nat, b as nat).push(c));
        rev.push(c);
        assert(digits(m as nat, b as nat) + rev@.drop_last().reverse()
            =~= digits((m / b) as nat, b as nat) + rev@.reverse());
        m = m / b;
    }
    assert(digits(magnitude, b as nat) =~= rev@.reverse());
    let ghost prefix = out@;
    let mut i = rev.len();
    while i > 0
        invariant
            i <= rev@.len(),
            out@ == prefix + rev@.reverse().subrange(0, (rev@.len() - i) as int),
        decreases i,
    {
        i = i - 1;
        push_char(out, rev[i]);
        assert(rev@.reverse().subrange(0, (rev@.len() - i) as int)
            =~= rev@.reverse().subrange(0, (rev@.len() - i - 1) as int).push(rev@[i as int]));
    }
    assert(rev@.reverse().subrange(0, rev@.len() as int) =~= rev@.reverse());
}

/// Writes `n` in base `base`, with lower-case letters for the digits past 9.
pub fn radix_fmt(n: i64, base: u32) -> (r: String)
    requires
        2 <= base <= 36,
        n > i64::MIN,
    ensures r@ == radix_text(n as int, base as nat),
{
    let mut result = String::new();
    if n == 0 {
        push_char(&mut result, '0');
        assert(result@ =~= seq!['0']);
        return result;
    }
    let m: u64 = if n < 0 { (-n) as u64 } else { n as u64 };
    if n < 0 {
        push_char(&mut result, '-');
    }
    let ghost prefix = result@;
    push_digits(&mut result, m, base as u64);
    assert(n < 0 ==> prefix =~= seq!['-']);
    assert(n > 0 ==> prefix =~= Seq::<char>::empty());
    result
}

/// Writes `n` in decimal.
pub fn decimal_text(n: u64) -> (r: String)
    ensures r@ == radix_text(n as int, 10),
{
    let mut result = String::new();
    if n == 0 {
        push_char(&mut result, '0');
        assert(result@ =~= seq!['0']);
        return result;
    }
    push_digits(&mut result, n, 10);
    assert(result@ =~= digits(n as nat, 10));
    result
}

/// Each digit reads back as its value.
proof fn lemma_digit_value(v: int)
    requires 0 <= v < 36,
    ensures digit_value(digit_of(v)) == v,
{
    reveal_strlit("0123456789abcdefghijklmnopqrstuvwxyz");
    assert(v == 0 || v == 1 || v == 2 || v == 3 || v == 4 || v == 5 || v == 6 || v == 7
        || v == 8 || v == 9 || v == 10 || v == 11 || v == 12 || v == 13 || v == 14 || v == 15
        || v == 16 || v == 17 || v == 18 || v == 19 || v == 20 || v == 21 || v == 22 || v == 23
        || v == 24 || v == 25 || v == 26 || v == 27 || v == 28 || v == 29 || v == 30 || v == 31
        || v == 32 || v == 33 || v == 34 || v == 35);
}

/// The digits that `radix_fmt` writes read back, in the same base, as the
/// magnitude of the number.
pub proof fn law_digits_read_back(n: nat, b: nat)
    requires 2 <= b <= 36,
    ensures value_of_digits(digits(n, b), b) == n,
    decreases n,
{
    if n > 0 {
        assert(n / b < n) by (nonlinear_arith)
            requires n > 0, b >= 2;
        law_digits_read_back(n / b, b);
        lemma_digit_value((n % b) as int);
        let s = digits(n, b);
        assert(s.drop_last() == digits(n / b, b));
        assert((n / b) * b + n % b == n) by (nonlinear_arith)
            requires b >= 2;
    }
}

/// Whether `c` is a digit of base `b`: one of the first `b` of `0`-`9`,
/// `a`-`z`.
pub open spec fn is_base_digit(c: char, b: nat) -> bool {
    0 <= digit_value(c) < b && digit_of(digit_value(c)) == c
}

/// The number that a text of `radix_fmt` stands for: a `-` in front
/// negates the digits after it.
pub open spec fn signed_value(t: Seq<char>, b: nat) -> int {
    if t.len() > 0 && t[0] == '-' {
        -(value_of_digits(t.drop_first(), b) as int)
    } else {
        value_of_digits(t, b) as int
    }
}

/// The digits of a positive number: at least one, each a digit of the
/// base, the first not `0`.
proof fn lemma_digits_shape(n: nat, b: nat)
    requires 2 <= b <= 36, n > 0,
    ensures
        digits(n, b).len() > 0,
        digits(n, b)[0] != '0',
        forall|i: int| 0 <= i < digits(n, b).len() ==> is_base_digit(#[trigger] digits(n, b)[i], b),
    decreases n,
{
    assert(n / b < n) by (nonlinear_arith)
        requires n > 0, b >= 2;
    let v = (n % b) as int;
    lemma_digit_value(v);
    let ds = digits(n, b);
    assert(ds == digits(n / b, b).push(digit_of(v)));
    if n / b > 0 {
        lemma_digits_shape(n / b, b);
        assert(ds[0] == digits(n / b, b)[0]);
        assert forall|i: int| 0 <= i < ds.len() implies is_base_digit(#[trigger] ds[i], b) by {
            if i < ds.len() - 1 {
                assert(ds[i] == digits(n / b, b)[i]);
            }
        }
    } else {
        assert(digits(n / b, b) =~= Seq::<char>::empty());
        assert(n % b == n) by (nonlinear_arith)
            requires n / b == 0, b >= 2, n > 0;
        assert(ds[0] == digit_of(v));
        assert(digit_value('0') == 0);
    }
}

/// The digits of what `radix_fmt` writes for `n`: the text without its
/// sign.
pub open spec fn digits_part(n: int, b: nat) -> Seq<char> {
    let t = radix_text(n, b);
    if n < 0 { t.drop_first() } else { t }
}

/// What `radix_fmt` writes reads back as the number, in the same base: the
/// text is `0` just for zero, begins with `-` just for a negative number,
/// and is otherwise made of digits of the base with no leading `0`.
pub proof fn law_radix_text_reads_back(n: int, b: nat)
    requires 2 <= b <= 36,
    ensures ({
        let t = radix_text(n, b);
        &&& signed_value(t, b) == n
        &&& (t == seq!['0']) <==> n == 0
        &&& (t.len() > 0 && t[0] == '-') <==> n < 0
        &&& digits_part(n, b).len() > 0
        &&& forall|i: int| 0 <= i < digits_part(n, b).len() ==> is_base_digit(#[trigger] digits_part(n, b)[i], b)
        &&& n != 0 ==> digits_part(n, b)[0] != '0'
    }),
{
    reveal_strlit("0123456789abcdefghijklmnopqrstuvwxyz");
    let t = radix_text(n, b);
    if n == 0 {
        lemma_digit_value(0);
        assert(digit_value('0') == 0);
        assert(t == seq!['0']);
        assert(digit_of(0) == '0');
        assert(is_base_digit(t[0], b));
        assert(t.drop_last() =~= Seq::<char>::empty());
        assert(value_of_digits(t.drop_last(), b) == 0);
        assert(value_of_digits(t.drop_last(), b) * b == 0) by (nonlinear_arith)
            requires value_of_digits(t.drop_last(), b) == 0;
        assert(t.last() == '0');
        assert(value_of_digits(t, b) == 0);
        assert(t[0] != '-');
        assert(signed_value(t, b) == 0);
    } else {
        let m: nat = if n < 0 { (-n) as nat } else { n as nat };
        lemma_digits_shape(m, b);
        law_digits_read_back(m, b);
        let ds = digits(m, b);
        assert(ds[0] != '-') by {
            assert(is_base_digit(ds[0], b));
            assert(digit_value('-') < 0);
        }
        if n < 0 {
            assert(t == seq!['-'] + ds);
            assert(t.drop_first() =~= ds);
            assert(t != seq!['0']) by { assert(t[0] != '0'); }
            assert(t.len() > 0 && t[0] == '-');
            assert(signed_value(t, b) == -(m as int));
        } else {
            assert(t == ds);
            assert(t != seq!['0']) by {
                if t == seq!['0'] {
                    assert(ds[0] == '0');
                }
            }
            assert(signed_value(t, b) == m as int);
        }
    }
}

} // verus!
