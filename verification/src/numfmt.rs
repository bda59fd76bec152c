//! Decimal and lower-case hexadecimal rendering of unsigned integers.

use vstd::prelude::*;
use vstd::string::*;

verus! {

/// The character of digit `d` in base 16 (lower case); also the decimal digits.
pub open spec fn digit_char(d: nat) -> char {
    if d == 0 { '0' }
    else if d == 1 { '1' }
    else if d == 2 { '2' }
    else if d == 3 { '3' }
    else if d == 4 { '4' }
    else if d == 5 { '5' }
    else if d == 6 { '6' }
    else if d == 7 { '7' }
    else if d == 8 { '8' }
    else if d == 9 { '9' }
    else if d == 10 { 'a' }
    else if d == 11 { 'b' }
    else if d == 12 { 'c' }
    else if d == 13 { 'd' }
    else if d == 14 { 'e' }
    else { 'f' }
}

/// Digits of `n` in base `radix`, most significant first, with no leading zeros
/// (a single `0` for zero).
pub open spec fn digits(n: nat, radix: nat) -> Seq<char>
    recommends 2 <= radix <= 16,
    decreases n,
{
    if radix < 2 || n < radix {
        seq![digit_char(n % 16)]
    } else {
        proof {
            lemma_div_shrinks(n, radix);
        }
        digits(n / radix, radix).push(digit_char(n % radix))
    }
}

/// `digits(n, 16)` padded with leading zeros to at least `width` digits.
pub open spec fn hex_padded(n: nat, width: nat) -> Seq<char> {
    let d = digits(n, 16);
    if d.len() < width { Seq::new((width - d.len()) as nat, |i: int| '0') + d } else { d }
}

/// Appends the hex digits of `n`, zero-padded to at least `width` digits.
pub fn push_hex_padded(s: &mut String, n: u64, width: usize)
    ensures
        final(s)@ == old(s)@ + hex_padded(n as nat, width as nat),
{
    let mut hex = String::new();
    push_digits(&mut hex, n, 16);
    let len = hex.as_str().unicode_len();
    let ghost start = s@;
    let mut i = len;
    while i < width
        invariant
            len <= i,
            i <= width || len > width,
            len >= width ==> i == len,
            hex@ == digits(n as nat, 16),
            len == hex@.len(),
            s@ == start + Seq::new((i - len) as nat, |k: int| '0'),
        decreases width - i,
    {
        s.append("0");
        proof {
            reveal_strlit("0");
            assert(s@ =~= start + Seq::new((i + 1 - len) as nat, |k: int| '0'));
        }
        i = i + 1;
    }
    s.append(hex.as_str());
    proof {
        if len < width {
            assert(i == width);
        } else {
            assert(i == len);
            assert(Seq::new((i - len) as nat, |k: int| '0') =~= Seq::<char>::empty());
        }
        assert(s@ =~= start + hex_padded(n as nat, width as nat));
    }
}

/// Dividing by a radix of at least two makes a nonzero number smaller.
pub proof fn lemma_div_shrinks(n: nat, radix: nat)
    requires
        2 <= radix,
        radix <= n,
    ensures
        n / radix < n,
{
    assert(n / radix < n) by (nonlinear_arith)
        requires
            2 <= radix,
            radix <= n,
    ;
}

/// The one-character string of a digit.
fn digit_str(d: u32) -> (s: &'static str)
    requires
        d < 16,
    ensures
        s@ == seq![digit_char(d as nat)],
{
    proof {
        reveal_strlit("0");
        reveal_strlit("1");
        reveal_strlit("2");
        reveal_strlit("3");
        reveal_strlit("4");
        reveal_strlit("5");
        reveal_strlit("6");
        reveal_strlit("7");
        reveal_strlit("8");
        reveal_strlit("9");
        reveal_strlit("a");
        reveal_strlit("b");
        reveal_strlit("c");
        reveal_strlit("d");
        reveal_strlit("e");
        reveal_strlit("f");
    }
    let s = match d {
        0 => "0",
        1 => "1",
        2 => "2",
        3 => "3",
        4 => "4",
        5 => "5",
        6 => "6",
        7 => "7",
        8 => "8",
        9 => "9",
        10 => "a",
        11 => "b",
        12 => "c",
        13 => "d",
        14 => "e",
        _ => "f",
    };
    assert(s@ =~= seq![digit_char(d as nat)]);
    s
}

/// Appends the digits of `n` in base `radix` to `s`.
pub fn push_digits(s: &mut String, n: u64, radix: u64)
    requires
        2 <= radix <= 16,
    ensures
        final(s)@ == old(s)@ + digits(n as nat, radix as nat),
    decreases n,
{
    if n >= radix {
        proof {
            lemma_div_shrinks(n as nat, radix as nat);
        }
        push_digits(s, n / radix, radix);
        s.append(digit_str((n % radix) as u32));
        assert(n % radix < 16);
    } else {
        s.append(digit_str(n as u32));
        assert(n as nat % 16 == n as nat);
    }
}

/// The value a numeral character stands for: `0`-`9` are 0 to 9 and `a`-`f`
/// are 10 to 15, read from the character codes; any other character has none.
pub open spec fn numeral_value(c: char) -> Option<int> {
    if '0' <= c && c <= '9' {
        Some(c as int - '0' as int)
    } else if 'a' <= c && c <= 'f' {
        Some(c as int - 'a' as int + 10)
    } else {
        None
    }
}

/// The number that the numeral characters `s` spell in base `radix`, most
/// significant first.
pub open spec fn numeral(s: Seq<char>, radix: nat) -> int
    decreases s.len(),
{
    if s.len() == 0 {
        0
    } else {
        numeral(s.drop_last(), radix) * radix + numeral_value(s.last())->0
    }
}

/// Each digit character stands for its own value.
proof fn lemma_digit_char_value(d: nat)
    requires
        d < 16,
    ensures
        numeral_value(digit_char(d)) == Some(d as int),
{
}

/// Rendering is faithful: the digits of `n` in base `radix` are numeral
/// characters each below `radix`, there is at least one, the first is `0`
/// only for zero itself, and read back in that base they give `n`.
pub proof fn lemma_digits_read_back(n: nat, radix: nat)
    requires
        2 <= radix <= 16,
    ensures
        digits(n, radix).len() >= 1,
        forall|i: int|
            0 <= i < digits(n, radix).len() ==> (#[trigger] numeral_value(digits(n, radix)[i]) is Some
                && numeral_value(digits(n, radix)[i])->0 < radix),
        n != 0 ==> digits(n, radix)[0] != '0',
        numeral(digits(n, radix), radix) == n,
    decreases n,
{
    if n < radix {
        lemma_digit_char_value(n);
        let d = digits(n, radix);
        assert(n % 16 == n);
        assert(d.drop_last() =~= Seq::<char>::empty());
        assert(numeral(d.drop_last(), radix) == 0);
        assert(numeral(d, radix) == 0 * radix + n);
    } else {
        lemma_div_shrinks(n, radix);
        lemma_digits_read_back(n / radix, radix);
        let prev = digits(n / radix, radix);
        let d = digits(n, radix);
        assert(d == prev.push(digit_char(n % radix)));
        lemma_digit_char_value(n % radix);
        assert(d.drop_last() =~= prev);
        assert(n == (n / radix) * radix + n % radix) by (nonlinear_arith)
            requires
                radix > 0,
        ;
        assert(n / radix != 0) by (nonlinear_arith)
            requires
                radix <= n,
                radix > 0,
        ;
        assert(numeral(d, radix) == numeral(prev, radix) * radix + n % radix);
        assert forall|i: int| 0 <= i < d.len() implies (#[trigger] numeral_value(d[i]) is Some && numeral_value(
            d[i],
        )->0 < radix) by {
            if i < prev.len() {
                assert(d[i] == prev[i]);
            }
        }
    }
}

/// Zero padding keeps the value: the padded hex digits are at least `width`
/// long, all numerals, and read back in base 16 they give `n`.
pub proof fn lemma_hex_padded_read_back(n: nat, width: nat)
    ensures
        hex_padded(n, width).len() >= width,
        forall|i: int| 0 <= i < hex_padded(n, width).len() ==> #[trigger] numeral_value(hex_padded(n, width)[i]) is Some,
        numeral(hex_padded(n, width), 16) == n,
{
    lemma_digits_read_back(n, 16);
    let d = digits(n, 16);
    if d.len() < width {
        let z = Seq::new((width - d.len()) as nat, |i: int| '0');
        lemma_numeral_zeros(z, d);
        assert forall|i: int| 0 <= i < hex_padded(n, width).len() implies #[trigger] numeral_value(
            hex_padded(n, width)[i],
        ) is Some by {
            if i >= z.len() {
                assert(hex_padded(n, width)[i] == d[i - z.len()]);
            }
        }
    }
}

/// Leading zeros do not change a base-16 numeral's value.
proof fn lemma_numeral_zeros(z: Seq<char>, d: Seq<char>)
    requires
        forall|i: int| 0 <= i < z.len() ==> z[i] == '0',
    ensures
        numeral(z + d, 16) == numeral(d, 16),
    decreases d.len(),
{
    if d.len() == 0 {
        assert(z + d =~= z);
        lemma_numeral_all_zero(z);
    } else {
        lemma_numeral_zeros(z, d.drop_last());
        assert((z + d).drop_last() =~= z + d.drop_last());
    }
}

/// A numeral of zeros is zero.
proof fn lemma_numeral_all_zero(z: Seq<char>)
    requires
        forall|i: int| 0 <= i < z.len() ==> z[i] == '0',
    ensures
        numeral(z, 16) == 0,
    decreases z.len(),
{
    if z.len() > 0 {
        lemma_numeral_all_zero(z.drop_last());
    }
}

} // verus!
