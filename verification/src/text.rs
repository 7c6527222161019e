//! Decimal numerals and the string building that paths and messages share.

use vstd::prelude::*;

verus! {

/// `String::push` appends the given `char` to the end of the string.
pub assume_specification[ String::push ](s: &mut String, c: char)
    ensures
        final(s)@ == old(s)@.push(c),
;

/// The ASCII character for a digit below ten.
pub open spec fn digit(d: nat) -> char {
    (48 + d) as char
}

/// The number that a digit character stands for.
pub open spec fn digit_value(c: char) -> nat {
    (c as int - 48) as nat
}

/// `true` for `0` to `9`.
pub open spec fn is_digit(c: char) -> bool {
    48 <= c as int <= 57
}

/// The decimal numeral of `n`, without leading zeros.
pub open spec fn decimal(n: nat) -> Seq<char>
    decreases n,
{
    if n < 10 {
        seq![digit(n)]
    } else {
        decimal(n / 10).push(digit(n % 10))
    }
}

/// `count` zeros.
pub open spec fn zeros(count: nat) -> Seq<char> {
    Seq::new(count, |i: int| '0')
}

/// The decimal numeral of `n`, filled up with zeros on the left until it has at
/// least `width` characters.
pub open spec fn padded(n: nat, width: nat) -> Seq<char> {
    if decimal(n).len() < width {
        zeros((width - decimal(n).len()) as nat) + decimal(n)
    } else {
        decimal(n)
    }
}

/// The number that a sequence of digit characters stands for.
pub open spec fn numeral(s: Seq<char>) -> nat
    decreases s.len(),
{
    if s.len() == 0 {
        0
    } else {
        numeral(s.drop_last()) * 10 + digit_value(s.last())
    }
}

/// Every character of `s` is a digit.
pub open spec fn all_digits(s: Seq<char>) -> bool {
    forall|i: int| 0 <= i < s.len() ==> is_digit(#[trigger] s[i])
}

/// A decimal numeral consists of digits and reads back as the number.
pub proof fn lemma_decimal_reads_back(n: nat)
    ensures
        all_digits(decimal(n)),
        decimal(n).len() > 0,
        numeral(decimal(n)) == n,
    decreases n,
{
    if n < 10 {
        reveal_with_fuel(numeral, 2);
        assert(decimal(n).drop_last() =~= Seq::empty());
    } else {
        lemma_decimal_reads_back(n / 10);
        assert(decimal(n).drop_last() =~= decimal(n / 10));
    }
}

/// The characters of a decimal numeral are ASCII digits, the last one is the number's
/// last digit, and the others are the numeral of the rest. A numeral of more than one
/// digit does not begin with a zero.
pub proof fn lemma_decimal_by_digit(n: nat)
    ensures
        decimal(n).len() > 0,
        decimal(n).last() as int == '0' as int + n % 10,
        n < 10 <==> decimal(n).len() == 1,
        n >= 10 ==> decimal(n).drop_last() == decimal(n / 10),
        n > 0 ==> decimal(n)[0] != '0',
        forall|i: int| 0 <= i < decimal(n).len() ==> '0' <= #[trigger] decimal(n)[i] <= '9',
    decreases n,
{
    if n >= 10 {
        lemma_decimal_by_digit(n / 10);
        assert(decimal(n).drop_last() =~= decimal(n / 10));
        assert(decimal(n)[0] == decimal(n / 10)[0]);
        assert forall|i: int| 0 <= i < decimal(n).len() implies '0' <= #[trigger] decimal(n)[i]
            <= '9' by {
            if i < decimal(n / 10).len() {
                assert(decimal(n)[i] == decimal(n / 10)[i]);
            }
        }
    }
}

/// A padded numeral ends in the plain numeral, has nothing but zeros before it, and is
/// no longer than it has to be.
pub proof fn lemma_padded_shape(n: nat, width: nat)
    ensures
        ({
            let whole = padded(n, width);
            let plain = decimal(n);
            &&& whole.len() == (if plain.len() < width {
                width
            } else {
                plain.len()
            })
            &&& whole.skip(whole.len() - plain.len()) == plain
            &&& forall|i: int| 0 <= i < whole.len() - plain.len() ==> #[trigger] whole[i] == '0'
        }),
{
    let whole = padded(n, width);
    assert(whole.skip(whole.len() - decimal(n).len()) =~= decimal(n));
}

/// Zeros in front of a numeral do not change the number.
proof fn lemma_leading_zeros(count: nat, s: Seq<char>)
    ensures
        numeral(zeros(count) + s) == numeral(s),
    decreases count + s.len(),
{
    let whole = zeros(count) + s;
    if s.len() > 0 {
        assert(whole.drop_last() =~= zeros(count) + s.drop_last());
        lemma_leading_zeros(count, s.drop_last());
    } else if count > 0 {
        assert(whole.drop_last() =~= zeros((count - 1) as nat) + s);
        lemma_leading_zeros((count - 1) as nat, s);
    } else {
        assert(whole =~= s);
    }
}

/// A padded numeral consists of digits and reads back as the number.
pub proof fn lemma_padded_reads_back(n: nat, width: nat)
    ensures
        all_digits(padded(n, width)),
        padded(n, width).len() >= width,
        numeral(padded(n, width)) == n,
{
    lemma_decimal_reads_back(n);
    if decimal(n).len() < width {
        lemma_leading_zeros((width - decimal(n).len()) as nat, decimal(n));
    }
}

/// The decimal numeral of `n`.
pub fn decimal_text(n: u64) -> (text: String)
    ensures
        text@ == decimal(n as nat),
        text@.len() > 0,
        text@.last() as int == '0' as int + n % 10,
        n < 10 <==> text@.len() == 1,
        n >= 10 ==> text@.drop_last() == decimal(n as nat / 10),
        n > 0 ==> text@[0] != '0',
    decreases n,
{
    proof {
        lemma_decimal_by_digit(n as nat);
    }
    if n < 10 {
        let mut text = String::new();
        text.push((48 + n as u8) as char);
        assert(text@ =~= decimal(n as nat));
        text
    } else {
        let mut text = decimal_text(n / 10);
        text.push((48 + (n % 10) as u8) as char);
        text
    }
}

/// The decimal numeral of `n` in at least `width` characters, with zeros on the left.
pub fn padded_text(n: u64, width: usize) -> (text: String)
    ensures
        text@ == padded(n as nat, width as nat),
{
    let numeral_text = decimal_text(n);
    let len: usize = numeral_text.as_str().unicode_len();
    let mut text = String::new();
    if len < width {
        let count: usize = width - len;
        let mut i: usize = 0;
        while i < count
            invariant
                i <= count,
                text@ == zeros(i as nat),
            decreases count - i,
        {
            text.push('0');
            i += 1;
            assert(text@ =~= zeros(i as nat));
        }
    }
    text.append(numeral_text.as_str());
    assert(text@ =~= padded(n as nat, width as nat));
    text
}

/// `true` exactly when both strings hold the same characters.
pub fn same_text(a: &str, b: &str) -> (same: bool)
    ensures
        same == (a@ == b@),
{
    a.to_owned() == b.to_owned()
}

} // verus!
