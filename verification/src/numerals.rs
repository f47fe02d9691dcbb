//! Numbers written out in decimal.

use vstd::prelude::*;

verus! {

/// The decimal digit for `d`, which is less than ten.
pub open spec fn digit(d: nat) -> char {
    (48 + d) as char
}

/// `n` in decimal, without leading zeros.
pub open spec fn decimal(n: nat) -> Seq<char>
    decreases n,
{
    if n < 10 {
        seq![digit(n)]
    } else {
        decimal(n / 10).push(digit(n % 10))
    }
}

/// The number that a sequence of decimal digits stands for.
pub open spec fn decimal_value(s: Seq<char>) -> int
    decreases s.len(),
{
    if s.len() == 0 {
        0
    } else {
        decimal_value(s.drop_last()) * 10 + (s.last() as int - 48)
    }
}

/// `s` with spaces put before it until it is at least `width` long.
pub open spec fn right_aligned(s: Seq<char>, width: nat) -> Seq<char> {
    if s.len() < width {
        Seq::new((width - s.len()) as nat, |i: int| ' ') + s
    } else {
        s
    }
}

/// Appends `n` in decimal to `out`.
pub fn push_decimal(out: &mut String, n: usize)
    ensures
        final(out)@ == old(out)@ + decimal(n as nat),
    decreases n,
{
    let ghost before = out@;
    if n >= 10 {
        push_decimal(out, n / 10);
    }
    let d: u8 = (n % 10) as u8;
    out.push((48 + d) as char);
    assert(out@ == before + decimal(n as nat));
}

/// `n` in decimal.
pub fn decimal_string(n: usize) -> (r: String)
    ensures
        r@ == decimal(n as nat),
{
    let mut r = String::new();
    push_decimal(&mut r, n);
    assert(r@ == decimal(n as nat));
    r
}

/// Appends `n` in decimal to `out`, with spaces before it where it is shorter
/// than `width`.
pub fn push_right_aligned(out: &mut String, n: usize, width: usize)
    ensures
        final(out)@ == old(out)@ + right_aligned(decimal(n as nat), width as nat),
{
    let digits = decimal_string(n);
    let len = digits.as_str().unicode_len();
    let ghost before = out@;
    if len < width {
        for i in 0..width - len
            invariant
                out@ == before + Seq::new(i as nat, |j: int| ' '),
        {
            out.push(' ');
        }
    }
    out.append(digits.as_str());
    assert(out@ == before + right_aligned(decimal(n as nat), width as nat));
}

/// Reading a number back from its decimal form gives the number.
pub proof fn decimal_reads_back(n: nat)
    ensures
        decimal_value(decimal(n)) == n,
        decimal(n).len() > 0,
        forall|i: int| 0 <= i < decimal(n).len() ==> '0' <= #[trigger] decimal(n)[i] <= '9',
    decreases n,
{
    reveal_with_fuel(decimal_value, 2);
    if n < 10 {
        assert(decimal(n).drop_last() == Seq::<char>::empty());
    } else {
        decimal_reads_back(n / 10);
        assert(decimal(n).drop_last() == decimal(n / 10));
    }
}

/// A number is written in as few digits as it takes: zero as one digit, any
/// other number without a zero in front.
pub proof fn no_zero_in_front(n: nat)
    ensures
        n == 0 ==> decimal(n) == seq!['0'],
        n > 0 ==> decimal(n).len() > 0 && decimal(n)[0] != '0',
        n < 10 <==> decimal(n).len() == 1,
        decimal(n * 10).len() == decimal(n).len() + if n == 0 {
            0int
        } else {
            1int
        },
    decreases n,
{
    reveal_with_fuel(decimal, 2);
    if n >= 10 {
        no_zero_in_front(n / 10);
        decimal_reads_back(n / 10);
    }
    assert((n * 10) / 10 == n);
}

/// The value of digits, by which a number is read back: each digit is worth ten
/// times what the next is.
pub proof fn value_of_digits(a: Seq<char>, c: char)
    ensures
        decimal_value(a.push(c)) == 10 * decimal_value(a) + (c as int - '0' as int),
        decimal_value(Seq::empty()) == 0,
{
    assert(a.push(c).drop_last() == a);
}

/// A text that is set to the right stands at the end, with nothing but spaces
/// before it, and takes up the width unless it is longer.
pub proof fn spaces_are_put_in_front(s: Seq<char>, width: nat)
    ensures
        ({
            let r = right_aligned(s, width);
            let pad = r.len() - s.len();
            &&& r.len() == if s.len() < width {
                width
            } else {
                s.len()
            }
            &&& r.skip(pad) == s
            &&& forall|i: int| 0 <= i < pad ==> #[trigger] r[i] == ' '
        }),
{
    let r = right_aligned(s, width);
    assert(r.skip(r.len() - s.len()) =~= s);
}

} // verus!
