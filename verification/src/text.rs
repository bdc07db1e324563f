//! Character-level helpers: strings as character sequences, decimal
//! rendering, prefixes and joining.

use vstd::prelude::*;
use vstd::string::StringExecFns;

verus! {

/// `String::push`, believed without proof: it appends the character to the
/// end of the string and changes nothing else.
pub assume_specification[ String::push ](s: &mut String, c: char)
    ensures
        final(s)@ == old(s)@.push(c),
;

/// The characters of `s`, in order.
pub fn chars_of(s: &str) -> (out: Vec<char>)
    ensures
        out@ == s@,
{
    let mut out: Vec<char> = Vec::new();
    for c in it: s.chars()
        invariant
            out@ == it.seq().take(it.index()),
    {
        out.push(c);
    }
    out
}

/// The character for one decimal digit.
pub open spec fn digit(d: int) -> char {
    (d + 48) as u8 as char
}

/// The decimal digits of `n`, most significant first, without padding.
pub open spec fn decimal(n: nat) -> Seq<char>
    decreases n,
{
    if n < 10 {
        seq![digit(n as int)]
    } else {
        decimal(n / 10).push(digit((n % 10) as int))
    }
}

/// `n` in decimal, with zeros in front until it is `width` characters long.
pub open spec fn zero_padded(n: nat, width: nat) -> Seq<char> {
    let digits = decimal(n);
    if digits.len() >= width {
        digits
    } else {
        Seq::new((width - digits.len()) as nat, |i: int| '0') + digits
    }
}

/// A signed number in decimal, padded with zeros to `width` characters; the
/// minus sign of a negative number counts toward the width and stands first.
pub open spec fn signed_padded(n: int, width: nat) -> Seq<char> {
    if n >= 0 {
        zero_padded(n as nat, width)
    } else if width >= 1 {
        seq!['-'] + zero_padded((-n) as nat, (width - 1) as nat)
    } else {
        seq!['-'] + decimal((-n) as nat)
    }
}

/// Digits are ordered as their values are, and `digit(0)` is `'0'`.
pub proof fn digits_are_ordered(a: int, b: int)
    requires
        0 <= a < 10,
        0 <= b < 10,
    ensures
        (digit(a) < digit(b)) == (a < b),
        (digit(a) == digit(b)) == (a == b),
        digit(0) == '0',
{
}

/// How many digits `decimal(n)` has: more for no smaller number.
pub proof fn decimal_len_bounds(n: nat)
    ensures
        decimal(n).len() >= 1,
        n < 10 ==> decimal(n).len() == 1,
        10 <= n < 100 ==> decimal(n).len() == 2,
        100 <= n < 1000 ==> decimal(n).len() == 3,
        n >= 1000 ==> decimal(n).len() >= 4,
    decreases n,
{
    if n >= 10 {
        decimal_len_bounds(n / 10);
    }
}

/// A number below 1000, padded to three characters, is its hundreds, its
/// tens and its ones.
pub proof fn three_digits(n: nat)
    requires
        n < 1000,
    ensures
        zero_padded(n, 3) == seq![
            digit(n as int / 100),
            digit((n as int / 10) % 10),
            digit(n as int % 10),
        ],
{
    reveal_with_fuel(decimal, 3);
    digits_are_ordered(0, 0);
    assert(zero_padded(n, 3) =~= seq![
        digit(n as int / 100),
        digit((n as int / 10) % 10),
        digit(n as int % 10),
    ]);
}

/// Two numbers below 1000 that are padded to the same three characters are
/// the same number.
pub proof fn three_digits_name_one_number(a: nat, b: nat)
    requires
        a < 1000,
        b < 1000,
        zero_padded(a, 3) == zero_padded(b, 3),
    ensures
        a == b,
{
    three_digits(a);
    three_digits(b);
    let x = zero_padded(a, 3);
    let y = zero_padded(b, 3);
    assert(x[0] == y[0] && x[1] == y[1] && x[2] == y[2]);
    digits_are_ordered(a as int / 100, b as int / 100);
    digits_are_ordered((a as int / 10) % 10, (b as int / 10) % 10);
    digits_are_ordered(a as int % 10, b as int % 10);
}

/// The first digit of a number that is not 0 is not `'0'`.
pub proof fn first_digit_counts(n: nat)
    requires
        n >= 1,
    ensures
        '0' < decimal(n)[0],
    decreases n,
{
    if n >= 10 {
        first_digit_counts(n / 10);
    } else {
        digits_are_ordered(0, n as int);
    }
}

/// Whether `c` is one of the ten digits.
pub open spec fn is_digit(c: char) -> bool {
    '0' <= c <= '9'
}

/// A padded number consists of digits.
pub proof fn padded_is_digits(n: nat, width: nat)
    ensures
        forall|k: int| 0 <= k < zero_padded(n, width).len() ==> is_digit(
            #[trigger] zero_padded(n, width)[k],
        ),
{
    decimal_is_digits(n);
}

proof fn decimal_is_digits(n: nat)
    ensures
        forall|k: int| 0 <= k < decimal(n).len() ==> is_digit(#[trigger] decimal(n)[k]),
    decreases n,
{
    digits_are_ordered(0, (n % 10) as int);
    digits_are_ordered((n % 10) as int, 9);
    digits_are_ordered(9, 9);
    assert(digit(9) == '9');
    if n >= 10 {
        decimal_is_digits(n / 10);
        assert forall|k: int| 0 <= k < decimal(n).len() implies is_digit(
            #[trigger] decimal(n)[k],
        ) by {
            if k < decimal(n / 10).len() {
                assert(decimal(n)[k] == decimal(n / 10)[k]);
            }
        }
    }
}

/// Different numbers have different digits.
pub proof fn decimal_is_one_to_one(a: nat, b: nat)
    requires
        decimal(a) == decimal(b),
    ensures
        a == b,
    decreases a,
{
    decimal_len_bounds(a);
    decimal_len_bounds(b);
    digits_are_ordered((a % 10) as int, (b % 10) as int);
    if a >= 10 {
        assert(b >= 10);
        let x = decimal(a / 10).push(digit((a % 10) as int));
        let y = decimal(b / 10).push(digit((b % 10) as int));
        assert(decimal(a) == x && decimal(b) == y);
        assert(x.drop_last() =~= decimal(a / 10));
        assert(y.drop_last() =~= decimal(b / 10));
        assert(x.last() == digit((a % 10) as int));
        assert(y.last() == digit((b % 10) as int));
        decimal_is_one_to_one(a / 10, b / 10);
        assert(a % 10 == b % 10);
    } else {
        assert(b < 10);
        assert(decimal(a)[0] == digit(a as int));
        assert(decimal(b)[0] == digit(b as int));
    }
}

/// Different numbers stay different when they are padded to one width.
pub proof fn padding_is_one_to_one(a: nat, b: nat, width: nat)
    requires
        zero_padded(a, width) == zero_padded(b, width),
    ensures
        a == b,
{
    let x = decimal(a);
    let y = decimal(b);
    decimal_len_bounds(a);
    decimal_len_bounds(b);
    if x.len() == y.len() {
        if x.len() < width {
            let zeros = width - x.len();
            assert(x =~= zero_padded(a, width).skip(zeros));
            assert(y =~= zero_padded(b, width).skip(zeros));
        }
        decimal_is_one_to_one(a, b);
    } else if x.len() < y.len() {
        first_digit_counts(b);
        assert(zero_padded(a, width)[width - y.len()] == '0');
        assert(zero_padded(b, width)[width - y.len()] == y[0]);
    } else {
        first_digit_counts(a);
        assert(zero_padded(b, width)[width - x.len()] == '0');
        assert(zero_padded(a, width)[width - x.len()] == x[0]);
    }
}

fn digit_char(d: u8) -> (c: char)
    requires
        d < 10,
    ensures
        c == digit(d as int),
{
    (d + 48) as char
}

fn decimal_width(n: u64) -> (w: usize)
    ensures
        w == decimal(n as nat).len(),
        1 <= w <= 20,
    decreases n,
{
    if n < 10 {
        1
    } else {
        let w = decimal_width(n / 10);
        assert(w <= 19) by {
            decimal_width_limit(n as nat);
        }
        w + 1
    }
}

proof fn decimal_width_limit(n: nat)
    requires
        n <= u64::MAX,
    ensures
        decimal(n).len() <= 20,
{
    reveal_with_fuel(decimal, 21);
}

/// Appends the unpadded decimal digits of `n`.
pub fn push_decimal(out: &mut String, n: u64)
    ensures
        final(out)@ == old(out)@ + decimal(n as nat),
    decreases n,
{
    if n >= 10 {
        push_decimal(out, n / 10);
    }
    out.push(digit_char((n % 10) as u8));
    assert(out@ =~= old(out)@ + decimal(n as nat));
}

/// Appends `n` in decimal, padded with zeros to `width` characters.
pub fn push_padded(out: &mut String, n: u64, width: usize)
    ensures
        final(out)@ == old(out)@ + zero_padded(n as nat, width as nat),
{
    let digits = decimal_width(n);
    if digits < width {
        let zeros = width - digits;
        let mut i: usize = 0;
        while i < zeros
            invariant
                i <= zeros,
                out@ == old(out)@ + Seq::new(i as nat, |k: int| '0'),
            decreases zeros - i,
        {
            out.push('0');
            assert(Seq::new(i as nat, |k: int| '0').push('0') =~= Seq::new(
                (i + 1) as nat,
                |k: int| '0',
            ));
            i += 1;
        }
        push_decimal(out, n);
        assert(out@ =~= old(out)@ + zero_padded(n as nat, width as nat));
    } else {
        push_decimal(out, n);
    }
}

/// Appends a signed `n` in decimal, padded with zeros to `width` characters.
pub fn push_signed_padded(out: &mut String, n: i64, width: usize)
    ensures
        final(out)@ == old(out)@ + signed_padded(n as int, width as nat),
{
    if n >= 0 {
        push_padded(out, n as u64, width);
    } else {
        let magnitude: u64 = (-(n + 1)) as u64 + 1;
        out.push('-');
        if width >= 1 {
            push_padded(out, magnitude, width - 1);
        } else {
            push_decimal(out, magnitude);
        }
        assert(out@ =~= old(out)@ + signed_padded(n as int, width as nat));
    }
}

/// Whether `text` begins with `prefix`.
pub fn has_prefix(text: &Vec<char>, prefix: &Vec<char>) -> (r: bool)
    ensures
        r == prefix@.is_prefix_of(text@),
{
    if prefix.len() > text.len() {
        return false;
    }
    let mut i: usize = 0;
    while i < prefix.len()
        invariant
            i <= prefix.len() <= text.len(),
            prefix@.take(i as int) =~= text@.take(i as int),
        decreases prefix.len() - i,
    {
        if prefix[i] != text[i] {
            assert(prefix@[i as int] != text@.subrange(0, prefix@.len() as int)[i as int]);
            return false;
        }
        assert(prefix@.take(i + 1) =~= prefix@.take(i as int).push(prefix@[i as int]));
        assert(text@.take(i + 1) =~= text@.take(i as int).push(text@[i as int]));
        i += 1;
    }
    assert(prefix@.take(prefix@.len() as int) =~= prefix@);
    true
}

/// The `parts` in order, with `sep` between each two neighbours.
pub open spec fn joined(parts: Seq<Seq<char>>, sep: Seq<char>) -> Seq<char>
    decreases parts.len(),
{
    if parts.len() == 0 {
        Seq::empty()
    } else if parts.len() == 1 {
        parts[0]
    } else {
        joined(parts.drop_last(), sep) + sep + parts.last()
    }
}

/// The values of a sequence of strings.
pub open spec fn texts_of(parts: Seq<String>) -> Seq<Seq<char>> {
    parts.map_values(|p: String| p@)
}

/// Joins `parts` with `sep` between each two neighbours.
pub fn join(parts: &Vec<String>, sep: &str) -> (out: String)
    ensures
        out@ == joined(texts_of(parts@), sep@),
{
    let mut out = String::new();
    let mut i: usize = 0;
    assert(texts_of(parts@).take(0) =~= Seq::empty());
    while i < parts.len()
        invariant
            i <= parts.len(),
            out@ == joined(texts_of(parts@).take(i as int), sep@),
        decreases parts.len() - i,
    {
        let ghost upto = texts_of(parts@).take(i + 1);
        assert(upto.drop_last() =~= texts_of(parts@).take(i as int));
        assert(upto.last() == parts[i as int]@);
        if i > 0 {
            out.append(sep);
        }
        out.append(parts[i].as_str());
        assert(out@ =~= joined(upto, sep@));
        i += 1;
    }
    assert(texts_of(parts@).take(parts.len() as int) =~= texts_of(parts@));
    out
}

} // verus!
