use vstd::prelude::*;

use crate::schedule::{quot, rem_of};

verus! {

/// An amount of United States dollars, held as a whole number of pennies.
#[derive(Clone, Copy, Debug, PartialEq, Eq, Structural, PartialOrd, Ord, Hash)]
pub struct USD {
    pub pennies: i64,
}

impl USD {
    /// The amount of the given number of pennies.
    pub fn from_pennies(pennies: i64) -> (r: USD)
        ensures
            r.pennies == pennies,
    {
        USD { pennies: pennies }
    }

    /// No money at all.
    pub fn zero() -> (r: USD)
        ensures
            r.pennies == 0,
    {
        USD { pennies: 0 }
    }

    /// The same amount with the opposite sign.
    pub fn inverse(&self) -> (r: USD)
        requires
            self.pennies != i64::MIN,
        ensures
            r.pennies == -self.pennies,
    {
        USD { pennies: -self.pennies }
    }

    /// Adds `rhs` to this amount.
    pub fn add_assign(&mut self, rhs: USD)
        requires
            i64::MIN <= old(self).pennies + rhs.pennies <= i64::MAX,
        ensures
            final(self).pennies == old(self).pennies + rhs.pennies,
    {
        *self = USD { pennies: self.pennies + rhs.pennies };
    }

    /// Takes `rhs` away from this amount.
    pub fn sub_assign(&mut self, rhs: USD)
        requires
            i64::MIN <= old(self).pennies - rhs.pennies <= i64::MAX,
        ensures
            final(self).pennies == old(self).pennies - rhs.pennies,
    {
        *self = USD { pennies: self.pennies - rhs.pennies };
    }
}


/// The decimal digit character of `d`.
pub open spec fn digit_char(d: int) -> char {
    if d == 0 {
        '0'
    } else if d == 1 {
        '1'
    } else if d == 2 {
        '2'
    } else if d == 3 {
        '3'
    } else if d == 4 {
        '4'
    } else if d == 5 {
        '5'
    } else if d == 6 {
        '6'
    } else if d == 7 {
        '7'
    } else if d == 8 {
        '8'
    } else {
        '9'
    }
}

/// The decimal numeral of `n`, without leading zeros.
pub open spec fn decimal(n: nat) -> Seq<char>
    decreases n,
{
    if n < 10 {
        seq![digit_char(n as int)]
    } else {
        decimal(n / 10) + seq![digit_char((n % 10) as int)]
    }
}

/// The decimal numeral of `x`, with a minus sign where negative.
pub open spec fn signed_decimal(x: int) -> Seq<char> {
    if x < 0 {
        seq!['-'] + decimal((-x) as nat)
    } else {
        decimal(x as nat)
    }
}

/// How an amount of `pennies` is written out: `$` for a positive amount and
/// `-$` otherwise, the whole dollars without sign, a point, then the pennies
/// left over as a plain (signed) number, not padded.
pub open spec fn usd_text(pennies: int) -> Seq<char> {
    let dollars = quot(pennies, 100);
    let cents = rem_of(pennies, 100);
    let sign = if pennies > 0 { seq!['$'] } else { seq!['-', '$'] };
    sign + decimal((if dollars < 0 { -dollars } else { dollars }) as nat) + seq!['.'] + signed_decimal(cents)
}

/// Whether `c` is one of the decimal digits '0' to '9'.
pub open spec fn is_decimal_digit(c: char) -> bool {
    48 <= (c as int) <= 57
}

/// The value of a decimal digit character.
pub open spec fn digit_value(c: char) -> int {
    (c as int) - 48
}

/// The number that a string of decimal digits denotes, most significant first.
pub open spec fn numeral_value(s: Seq<char>) -> int
    decreases s.len(),
{
    if s.len() == 0 {
        0
    } else {
        numeral_value(s.drop_last()) * 10 + digit_value(s.last())
    }
}

/// The numeral `decimal(n)` denotes `n`: it is a non-empty string of decimal
/// digits, without a leading zero unless it is the single digit of zero,
/// whose base-10 value is `n`.
pub proof fn lemma_decimal_denotes(n: nat)
    ensures
        decimal(n).len() >= 1,
        forall|i: int| 0 <= i < decimal(n).len() ==> is_decimal_digit(#[trigger] decimal(n)[i]),
        numeral_value(decimal(n)) == n,
        decimal(n).len() > 1 ==> decimal(n)[0] != '0',
        n > 0 ==> decimal(n)[0] != '0',
    decreases n,
{
    if n >= 10 {
        lemma_decimal_denotes(n / 10);
        let s = decimal(n);
        let head = decimal(n / 10);
        assert(s.drop_last() =~= head);
        assert(s.last() == digit_char((n % 10) as int));
        assert forall|i: int| 0 <= i < s.len() implies is_decimal_digit(#[trigger] s[i]) by {
            if i < head.len() {
                assert(s[i] == head[i]);
            }
        }
        assert(s[0] == head[0]);
        lemma_digit_value((n % 10) as int);
        assert(numeral_value(s) == numeral_value(head) * 10 + digit_value(s.last()));
        assert(n == (n / 10) * 10 + n % 10);
    } else {
        let s = decimal(n);
        assert(s == seq![digit_char(n as int)]);
        assert(s.drop_last() =~= Seq::<char>::empty());
        lemma_digit_value(n as int);
        assert(numeral_value(s) == numeral_value(s.drop_last()) * 10 + digit_value(s.last()));
    }
}

/// Each digit character is a decimal digit whose value is the digit itself.
proof fn lemma_digit_value(d: int)
    requires
        0 <= d < 10,
    ensures
        is_decimal_digit(digit_char(d)),
        digit_value(digit_char(d)) == d,
{
    assert(('0' as int) == 48);
    assert(('1' as int) == 49);
    assert(('2' as int) == 50);
    assert(('3' as int) == 51);
    assert(('4' as int) == 52);
    assert(('5' as int) == 53);
    assert(('6' as int) == 54);
    assert(('7' as int) == 55);
    assert(('8' as int) == 56);
    assert(('9' as int) == 57);
}

/// The written form of an amount shows its whole dollars exactly: after the
/// sign (`$`, or `-$` where the amount is not positive) comes a run of
/// decimal digits, without a leading zero, whose base-10 value is the
/// magnitude of `pennies / 100` (rounded toward zero), and then the point.
pub proof fn lemma_usd_text_dollars(pennies: int)
    ensures
        ({
            let t = usd_text(pennies);
            let start: int = if pennies > 0 { 1 } else { 2 };
            let dollars = quot(pennies, 100);
            let magnitude = if dollars < 0 { -dollars } else { dollars };
            let point = start + decimal(magnitude as nat).len();
            &&& start < point < t.len()
            &&& t[point] == '.'
            &&& t[start - 1] == '$'
            &&& (pennies <= 0 ==> t[0] == '-')
            &&& forall|i: int| start <= i < point ==> is_decimal_digit(#[trigger] t[i])
            &&& numeral_value(t.subrange(start, point)) == magnitude
            &&& (point - start > 1 ==> t[start] != '0')
        }),
{
    let t = usd_text(pennies);
    let start: int = if pennies > 0 { 1 } else { 2 };
    let dollars = quot(pennies, 100);
    let magnitude = if dollars < 0 { -dollars } else { dollars };
    let d = decimal(magnitude as nat);
    let sign = if pennies > 0 { seq!['$'] } else { seq!['-', '$'] };
    lemma_decimal_denotes(magnitude as nat);
    assert(t =~= sign + d + seq!['.'] + signed_decimal(rem_of(pennies, 100)));
    assert(t.subrange(start, start + d.len()) =~= d);
    assert forall|i: int| start <= i < start + d.len() implies is_decimal_digit(#[trigger] t[i]) by {
        assert(t[i] == d[i - start]);
    }
    assert(t[start + d.len()] == '.');
}

/// After the point, the written form of an amount shows its pennies left
/// over (`pennies % 100`, with the sign of `pennies`) exactly: a minus sign
/// where they are negative, then decimal digits, without a leading zero,
/// whose base-10 value is their magnitude, and nothing more.
pub proof fn lemma_usd_text_cents(pennies: int)
    ensures
        ({
            let t = usd_text(pennies);
            let start: int = if pennies > 0 { 1 } else { 2 };
            let dollars = quot(pennies, 100);
            let magnitude = if dollars < 0 { -dollars } else { dollars };
            let cents = rem_of(pennies, 100);
            let first: int = start + decimal(magnitude as nat).len() + 1 + (if cents < 0 { 1int } else { 0int });
            &&& first < t.len()
            &&& (cents < 0 ==> t[first - 1] == '-')
            &&& forall|i: int| first <= i < t.len() ==> is_decimal_digit(#[trigger] t[i])
            &&& numeral_value(t.subrange(first, t.len() as int)) == (if cents < 0 { -cents } else { cents })
            &&& (t.len() - first > 1 ==> t[first] != '0')
        }),
{
    let t = usd_text(pennies);
    let dollars = quot(pennies, 100);
    let magnitude = if dollars < 0 { -dollars } else { dollars };
    let cents = rem_of(pennies, 100);
    let c = decimal((if cents < 0 { -cents } else { cents }) as nat);
    let sign = if pennies > 0 { seq!['$'] } else { seq!['-', '$'] };
    let minus = if cents < 0 { seq!['-'] } else { Seq::<char>::empty() };
    let head = sign + decimal(magnitude as nat) + seq!['.'] + minus;
    lemma_decimal_denotes((if cents < 0 { -cents } else { cents }) as nat);
    assert(signed_decimal(cents) =~= minus + c);
    assert(t =~= head + c);
    let first = head.len() as int;
    assert(t.subrange(first, t.len() as int) =~= c);
    assert forall|i: int| first <= i < t.len() implies is_decimal_digit(#[trigger] t[i]) by {
        assert(t[i] == c[i - first]);
    }
}

fn digit_str(d: u64) -> (r: &'static str)
    requires
        d < 10,
    ensures
        r@ == seq![digit_char(d as int)],
{
    if d == 0 {
        proof { reveal_strlit("0"); }
        "0"
    } else if d == 1 {
        proof { reveal_strlit("1"); }
        "1"
    } else if d == 2 {
        proof { reveal_strlit("2"); }
        "2"
    } else if d == 3 {
        proof { reveal_strlit("3"); }
        "3"
    } else if d == 4 {
        proof { reveal_strlit("4"); }
        "4"
    } else if d == 5 {
        proof { reveal_strlit("5"); }
        "5"
    } else if d == 6 {
        proof { reveal_strlit("6"); }
        "6"
    } else if d == 7 {
        proof { reveal_strlit("7"); }
        "7"
    } else if d == 8 {
        proof { reveal_strlit("8"); }
        "8"
    } else {
        proof { reveal_strlit("9"); }
        "9"
    }
}

fn append_decimal(s: &mut String, n: u64)
    ensures
        final(s)@ == old(s)@ + decimal(n as nat),
    decreases n,
{
    if n >= 10 {
        append_decimal(s, n / 10);
    }
    s.append(digit_str(n % 10));
    proof {
        if n >= 10 {
            assert(final(s)@ =~= old(s)@ + decimal(n as nat));
        } else {
            assert(decimal(n as nat) == seq![digit_char(n as int)]);
        }
    }
}

impl USD {
    /// The amount written out as its debug form: `usd_text`.
    pub fn debug_string(&self) -> (r: String)
        ensures
            r@ == usd_text(self.pennies as int),
    {
        let dollars = self.pennies / 100;
        let cents = self.pennies % 100;
        let mut r = if self.pennies > 0 {
            proof { reveal_strlit("$"); }
            String::from_str("$")
        } else {
            proof { reveal_strlit("-$"); }
            String::from_str("-$")
        };
        let whole: u64 = if dollars < 0 { (-dollars) as u64 } else { dollars as u64 };
        append_decimal(&mut r, whole);
        proof { reveal_strlit("."); }
        r.append(".");
        if cents < 0 {
            proof { reveal_strlit("-"); }
            r.append("-");
            append_decimal(&mut r, (-cents) as u64);
        } else {
            append_decimal(&mut r, cents as u64);
        }
        assert(r@ =~= usd_text(self.pennies as int));
        r
    }
}

} // verus!
