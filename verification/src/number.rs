//! Numbers as decimal text.

use vstd::prelude::*;
use crate::text::{digit, followed, less_at, tail, text_less};

verus! {

/// The character of a decimal digit.
pub open spec fn digit_char(d: int) -> char {
    (48 + d) as char
}

/// The value of a decimal digit.
pub open spec fn digit_value(c: char) -> int {
    (c as u32) - 48
}

/// The decimal digits of `n`, without leading zeros.
pub open spec fn decimal(n: nat) -> Seq<char>
    decreases n,
{
    if n < 10 {
        seq![digit_char(n as int)]
    } else {
        decimal(n / 10).push(digit_char((n % 10) as int))
    }
}

/// The decimal digits of `n`, with zeros in front up to the given width.
pub open spec fn padded(n: nat, width: nat) -> Seq<char> {
    if decimal(n).len() < width {
        Seq::new((width - decimal(n).len()) as nat, |i: int| '0') + decimal(n)
    } else {
        decimal(n)
    }
}

pub fn to_decimal(n: u64) -> (r: String)
    ensures
        r@ == decimal(n as nat),
    decreases n,
{
    let mut out = if n < 10 {
        String::new()
    } else {
        to_decimal(n / 10)
    };
    let d: u8 = (n % 10) as u8;
    out.push((48 + d) as char);
    out
}

pub fn to_padded(n: u64, width: usize) -> (r: String)
    ensures
        r@ == padded(n as nat, width as nat),
{
    let d = to_decimal(n);
    let have: usize = d.as_str().unicode_len();
    let mut out = String::new();
    if have < width {
        let mut i: usize = 0;
        while i < width - have
            invariant
                have < width,
                i <= width - have,
                out@ == Seq::new(i as nat, |i: int| '0'),
            decreases width - have - i,
        {
            out.push('0');
            i += 1;
            proof {
                assert(out@ =~= Seq::new(i as nat, |i: int| '0'));
            }
        }
    }
    out.append(d.as_str());
    out
}

/// Whether `s` is made of decimal digits only.
pub open spec fn all_digits(s: Seq<char>) -> bool {
    forall|i: int| 0 <= i < s.len() ==> digit(#[trigger] s[i])
}

/// The number that a row of decimal digits stands for.
pub open spec fn value(s: Seq<char>) -> nat
    decreases s.len(),
{
    if s.len() == 0 {
        0
    } else {
        (value(s.drop_last()) * 10 + digit_value(s.last())) as nat
    }
}

/// The number that `s` spells: decimal digits with an optional plus sign, at
/// most `max`.
pub open spec fn parsed(s: Seq<char>, max: nat) -> Option<nat> {
    let d = if s.len() > 0 && s[0] == '+' {
        s.skip(1)
    } else {
        s
    };
    if d.len() > 0 && all_digits(d) && value(d) <= max {
        Some(value(d))
    } else {
        None
    }
}

proof fn lemma_value_grows(s: Seq<char>, i: int)
    requires
        0 <= i <= s.len(),
        all_digits(s),
    ensures
        value(s.take(i)) <= value(s),
    decreases s.len() - i,
{
    if i < s.len() {
        let t = s.take(i + 1);
        assert(t.drop_last() =~= s.take(i));
        assert(digit(t.last()));
        lemma_value_grows(s, i + 1);
    } else {
        assert(s.take(i) =~= s);
    }
}

pub fn parse(s: &str, max: u64) -> (r: Option<u64>)
    ensures
        match r {
            Some(n) => parsed(s@, max as nat) == Some(n as nat),
            None => parsed(s@, max as nat) is None,
        },
{
    let n: usize = s.unicode_len();
    let d = if n > 0 && s.get_char(0) == '+' {
        tail(s, 1)
    } else {
        s
    };
    if d.unicode_len() == 0 {
        return None;
    }
    let cs = crate::text::chars_of(d);
    let mut total: u64 = 0;
    let mut i: usize = 0;
    while i < cs.len()
        invariant
            cs@ == d@,
            d@.len() > 0,
            d@ == (if s@.len() > 0 && s@[0] == '+' {
                s@.skip(1)
            } else {
                s@
            }),
            i <= cs@.len(),
            forall|j: int| 0 <= j < i ==> digit(#[trigger] cs@[j]),
            total == value(d@.take(i as int)),
            total <= max,
        decreases cs@.len() - i,
    {
        let c = cs[i];
        if !('0' <= c && c <= '9') {
            proof {
                assert(!digit(d@[i as int]));
            }
            return None;
        }
        let v: u64 = (c as u32 - 48) as u64;
        proof {
            assert(d@.take(i + 1).drop_last() =~= d@.take(i as int));
            if all_digits(d@) {
                lemma_value_grows(d@, i + 1);
            }
        }
        if total > (u64::MAX - v) / 10 {
            proof {
                assert(total * 10 + v > u64::MAX);
            }
            return None;
        }
        total = total * 10 + v;
        if total > max {
            return None;
        }
        i += 1;
    }
    proof {
        assert(d@.take(i as int) =~= d@);
    }
    Some(total)
}

/// Writing a number down and reading it back gives the number.
pub proof fn law_decimal_reads_back(n: nat, max: nat)
    requires
        n <= max,
    ensures
        parsed(decimal(n), max) == Some(n),
{
    lemma_decimal(n);
    let s = decimal(n);
    assert(digit(s[0]));
}

/// The decimal digits of a number are digits, and stand for the number.
pub proof fn lemma_decimal(n: nat)
    ensures
        decimal(n).len() > 0,
        all_digits(decimal(n)),
        value(decimal(n)) == n,
    decreases n,
{
    let s = decimal(n);
    if n < 10 {
        assert(s.drop_last() =~= seq![]);
        assert(value(s.drop_last()) == 0);
    } else {
        lemma_decimal(n / 10);
        assert(s.drop_last() =~= decimal(n / 10));
    }
}

/// A padded number is made of digits and stands for the number.
pub proof fn lemma_padded(n: nat, width: nat)
    ensures
        all_digits(padded(n, width)),
        value(padded(n, width)) == n,
        padded(n, width).len() >= width,
        decimal(n).len() <= width ==> padded(n, width).len() == width,
{
    lemma_decimal(n);
    if decimal(n).len() < width {
        let k = (width - decimal(n).len()) as nat;
        lemma_zeros(k, decimal(n));
        let p = padded(n, width);
        let d = decimal(n);
        assert forall|i: int| 0 <= i < p.len() implies digit(#[trigger] p[i]) by {
            if i >= k {
                assert(p[i] == d[i - k]);
            }
        }
    }
}

proof fn lemma_zeros(k: nat, d: Seq<char>)
    requires
        all_digits(d),
    ensures
        value(Seq::new(k, |i: int| '0') + d) == value(d),
    decreases d.len(), k,
{
    let s = Seq::new(k, |i: int| '0') + d;
    if d.len() > 0 {
        assert(s.drop_last() =~= Seq::new(k, |i: int| '0') + d.drop_last());
        assert(s.last() == d.last());
        assert forall|i: int| 0 <= i < d.drop_last().len() implies digit(
            #[trigger] d.drop_last()[i],
        ) by {
            assert(d.drop_last()[i] == d[i]);
        }
        lemma_zeros(k, d.drop_last());
    } else if k > 0 {
        assert(s.drop_last() =~= Seq::new((k - 1) as nat, |i: int| '0') + d);
        lemma_zeros((k - 1) as nat, d);
        assert(s.last() == '0');
        assert(digit_value('0') == 0);
    } else {
        assert(s =~= d);
    }
}

/// Numbers below a hundred have two digits at most.
pub proof fn lemma_two_digits(n: nat)
    requires
        n < 100,
    ensures
        decimal(n).len() <= 2,
        padded(n, 2).len() == 2,
{
    reveal_with_fuel(decimal, 3);
    lemma_padded(n, 2);
}

/// Numbers below ten thousand have four digits at most.
pub proof fn lemma_four_digits(n: nat)
    requires
        n < 10_000,
    ensures
        decimal(n).len() <= 4,
        padded(n, 4).len() == 4,
{
    reveal_with_fuel(decimal, 5);
    lemma_padded(n, 4);
}

proof fn lemma_digits_front(s: Seq<char>)
    requires
        all_digits(s),
        s.len() > 0,
    ensures
        all_digits(s.drop_last()),
        value(s) == value(s.drop_last()) * 10 + digit_value(s.last()),
        0 <= digit_value(s.last()) < 10,
{
    assert(digit(s[s.len() - 1]));
    assert forall|i: int| 0 <= i < s.drop_last().len() implies digit(#[trigger] s.drop_last()[i]) by {
        assert(s.drop_last()[i] == s[i]);
    }
}

proof fn lemma_same_digits(a: Seq<char>, b: Seq<char>)
    requires
        all_digits(a),
        all_digits(b),
        a.len() == b.len(),
        value(a) == value(b),
    ensures
        a == b,
    decreases a.len(),
{
    if a.len() > 0 {
        lemma_digits_front(a);
        lemma_digits_front(b);
        lemma_same_digits(a.drop_last(), b.drop_last());
        assert(a =~= a.drop_last().push(a.last()));
        assert(b =~= b.drop_last().push(b.last()));
    } else {
        assert(a =~= b);
    }
}

proof fn lemma_digits_less(a: Seq<char>, b: Seq<char>)
    requires
        all_digits(a),
        all_digits(b),
        a.len() == b.len(),
        value(a) < value(b),
    ensures
        text_less(a, b),
    decreases a.len(),
{
    if a.len() > 0 {
        let x = a.drop_last();
        let y = b.drop_last();
        lemma_digits_front(a);
        lemma_digits_front(b);
        if value(x) < value(y) {
            lemma_digits_less(x, y);
            let i = choose|i: int| less_at(x, y, i);
            assert(a.take(i) =~= x.take(i));
            assert(b.take(i) =~= y.take(i));
            assert(less_at(a, b, i));
        } else {
            lemma_same_digits(x, y);
            let i = a.len() - 1;
            assert(a.take(i) =~= x);
            assert(b.take(i) =~= y);
            assert(less_at(a, b, i));
        }
    }
}

/// Numbers of the same width stand in the order of their size.
pub proof fn lemma_padded_less(n: nat, m: nat, width: nat)
    requires
        n < m,
        padded(n, width).len() == padded(m, width).len(),
    ensures
        text_less(padded(n, width), padded(m, width)),
{
    lemma_padded(n, width);
    lemma_padded(m, width);
    lemma_digits_less(padded(n, width), padded(m, width));
}

/// Two rows of digits with something else behind them are the same where the
/// whole is.
pub proof fn lemma_same_front(m: Seq<char>, x: Seq<char>, n: Seq<char>, y: Seq<char>)
    requires
        all_digits(m),
        all_digits(n),
        x.len() > 0,
        y.len() > 0,
        !digit(x[0]),
        !digit(y[0]),
        m + x =~= n + y,
    ensures
        m == n,
{
    if m.len() < n.len() {
        assert((m + x)[m.len() as int] == x[0]);
        assert((n + y)[m.len() as int] == n[m.len() as int]);
    } else if n.len() < m.len() {
        assert((n + y)[n.len() as int] == y[0]);
        assert((m + x)[n.len() as int] == m[n.len() as int]);
    } else {
        assert((m + x).take(m.len() as int) =~= m);
        assert((n + y).take(n.len() as int) =~= n);
    }
}

/// The last digit of a number is what is left of it by tens, the digits before it are
/// those of the tens, and the digits are those from `0` to `9`.
pub proof fn law_digits_of_a_number(n: nat)
    ensures
        n < 10 ==> decimal(n).len() == 1 && decimal(n)[0] as u32 == '0' as u32 + n,
        n >= 10 ==> decimal(n) == decimal(n / 10) + decimal(n % 10),
        padded(n, 1) == decimal(n),
        n < 10 ==> padded(n, 2) == seq!['0'] + decimal(n),
{
    lemma_decimal(n);
    if n >= 10 {
        assert(decimal(n) =~= decimal(n / 10) + decimal(n % 10));
    } else {
        assert(padded(n, 2) =~= seq!['0'] + decimal(n));
    }
}

/// A number is read with a plus sign in front too, and not where anything else is
/// among its digits, nor beyond the limit.
pub proof fn law_numbers_are_read(n: nat, max: nat, s: Seq<char>, i: int)
    ensures
        n <= max ==> parsed(seq!['+'] + decimal(n), max) == Some(n),
        n > max ==> parsed(decimal(n), max) is None,
        0 < i < s.len() && !('0' <= s[i] <= '9') ==> parsed(s, max) is None,
        s.len() == 0 ==> parsed(s, max) is None,
{
    lemma_decimal(n);
    let d = decimal(n);
    assert((seq!['+'] + d).skip(1) =~= d);
    assert(digit(d[0]));
    if 0 < i < s.len() && !('0' <= s[i] <= '9') {
        assert(s.skip(1)[i - 1] == s[i]);
        assert(!digit(s[i]));
    }
}

} // verus!
