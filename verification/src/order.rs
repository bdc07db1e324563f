//! Page order of file names: the order in which a stage's files are read.

use vstd::prelude::*;
use vstd::seq_lib::to_multiset_insert;
use crate::names::{card_file, page_file};
use crate::text::{
    chars_of, decimal, decimal_len_bounds, digit, digits_are_ordered, first_digit_counts,
    texts_of, zero_padded,
};

verus! {

/// Whether `a` is `b` or stands before it in the dictionary, character by
/// character.
pub open spec fn spelled_before(a: Seq<char>, b: Seq<char>) -> bool
    decreases a.len(),
{
    if a.len() == 0 {
        true
    } else if b.len() == 0 {
        false
    } else if a[0] == b[0] {
        spelled_before(a.drop_first(), b.drop_first())
    } else {
        a[0] < b[0]
    }
}

/// Whether the file `a` is read no later than the file `b`: a shorter name
/// first, names of one length in dictionary order. Among the names that a
/// stage writes, which differ in their numbers only, this is the order of
/// the numbers.
pub open spec fn comes_before(a: Seq<char>, b: Seq<char>) -> bool {
    a.len() < b.len() || (a.len() == b.len() && spelled_before(a, b))
}

/// Whether each of `names` comes before all that follow it.
pub open spec fn in_order(names: Seq<Seq<char>>) -> bool {
    forall|i: int, j: int| 0 <= i < j < names.len() ==> comes_before(names[i], names[j])
}

/// Of two names, one comes before the other.
pub proof fn order_is_total(a: Seq<char>, b: Seq<char>)
    ensures
        comes_before(a, b) || comes_before(b, a),
    decreases a.len(),
{
    if a.len() == b.len() && a.len() > 0 && a[0] == b[0] {
        order_is_total(a.drop_first(), b.drop_first());
    }
}

/// What comes before a name comes before all that the name comes before.
pub proof fn order_is_transitive(a: Seq<char>, b: Seq<char>, c: Seq<char>)
    requires
        comes_before(a, b),
        comes_before(b, c),
    ensures
        comes_before(a, c),
    decreases a.len(),
{
    if a.len() == b.len() && b.len() == c.len() && a.len() > 0 {
        if a[0] == b[0] && b[0] == c[0] {
            order_is_transitive(a.drop_first(), b.drop_first(), c.drop_first());
        }
    }
}

/// Two names that come before each other are one name.
pub proof fn order_is_antisymmetric(a: Seq<char>, b: Seq<char>)
    requires
        comes_before(a, b),
        comes_before(b, a),
    ensures
        a == b,
    decreases a.len(),
{
    if a.len() > 0 {
        order_is_antisymmetric(a.drop_first(), b.drop_first());
        assert(a =~= seq![a[0]] + a.drop_first());
        assert(b =~= seq![b[0]] + b.drop_first());
    } else {
        assert(a =~= b);
    }
}

/// Whether the file `a` is read no later than the file `b`.
pub fn reads_before(a: &str, b: &str) -> (r: bool)
    ensures
        r == comes_before(a@, b@),
{
    let left = chars_of(a);
    let right = chars_of(b);
    if left.len() != right.len() {
        return left.len() < right.len();
    }
    let mut i: usize = 0;
    assert(left@.skip(0) =~= left@ && right@.skip(0) =~= right@);
    while i < left.len()
        invariant
            i <= left.len(),
            left.len() == right.len(),
            left@ == a@,
            right@ == b@,
            spelled_before(a@, b@) == spelled_before(left@.skip(i as int), right@.skip(i as int)),
        decreases left.len() - i,
    {
        assert(left@.skip(i as int).drop_first() =~= left@.skip(i + 1));
        assert(right@.skip(i as int).drop_first() =~= right@.skip(i + 1));
        assert(left@.skip(i as int)[0] == left[i as int]);
        assert(right@.skip(i as int)[0] == right[i as int]);
        if left[i] != right[i] {
            return left[i] < right[i];
        }
        i += 1;
    }
    true
}

/// The same files in page order.
pub fn in_page_order(names: &Vec<String>) -> (out: Vec<String>)
    ensures
        in_order(texts_of(out@)),
        texts_of(out@).to_multiset() == texts_of(names@).to_multiset(),
{
    let mut out: Vec<String> = Vec::new();
    let mut i: usize = 0;
    assert(texts_of(names@).take(0) =~= texts_of(out@));
    while i < names.len()
        invariant
            i <= names.len(),
            in_order(texts_of(out@)),
            texts_of(out@).to_multiset() == texts_of(names@).take(i as int).to_multiset(),
        decreases names.len() - i,
    {
        let name = &names[i];
        let mut p: usize = 0;
        while p < out.len() && reads_before(out[p].as_str(), name.as_str())
            invariant
                p <= out.len(),
                forall|k: int| 0 <= k < p ==> comes_before(#[trigger] texts_of(out@)[k], name@),
            decreases out.len() - p,
        {
            p += 1;
        }
        let ghost before = texts_of(out@);
        out.insert(p, name.clone());
        proof {
            let after = texts_of(out@);
            assert(after =~= before.insert(p as int, name@));
            assert forall|a: int, b: int| 0 <= a < b < after.len() implies comes_before(
                after[a],
                after[b],
            ) by {
                if b == p {
                    assert(after[a] == before[a]);
                } else if a == p {
                    assert(after[b] == before[b - 1]);
                    order_is_total(before[p as int], name@);
                    if b - 1 > p {
                        order_is_transitive(name@, before[p as int], before[b - 1]);
                    }
                } else {
                    let a0 = if a < p {
                        a
                    } else {
                        a - 1
                    };
                    let b0 = if b < p {
                        b
                    } else {
                        b - 1
                    };
                    assert(after[a] == before[a0] && after[b] == before[b0]);
                }
            }
            to_multiset_insert(before, p as int, name@);
            let upto = texts_of(names@).take(i + 1);
            assert(upto =~= texts_of(names@).take(i as int).push(name@));
            vstd::seq_lib::to_multiset_build(texts_of(names@).take(i as int), name@);
        }
        i += 1;
    }
    assert(texts_of(names@).take(names.len() as int) =~= texts_of(names@));
    out
}

/// A name is spelled before itself.
proof fn spelling_is_reflexive(a: Seq<char>)
    ensures
        spelled_before(a, a),
    decreases a.len(),
{
    if a.len() > 0 {
        spelling_is_reflexive(a.drop_first());
    }
}

/// A common beginning decides nothing.
proof fn common_start(start: Seq<char>, a: Seq<char>, b: Seq<char>)
    ensures
        spelled_before(start + a, start + b) == spelled_before(a, b),
    decreases start.len(),
{
    if start.len() > 0 {
        common_start(start.drop_first(), a, b);
        assert((start + a).drop_first() =~= start.drop_first() + a);
        assert((start + b).drop_first() =~= start.drop_first() + b);
    } else {
        assert(start + a =~= a);
        assert(start + b =~= b);
    }
}

/// Of two names of one length, the one spelled first stays first when both
/// get the same ending.
proof fn common_end(a: Seq<char>, b: Seq<char>, end: Seq<char>)
    requires
        a.len() == b.len(),
        spelled_before(a, b),
    ensures
        spelled_before(a + end, b + end),
    decreases a.len(),
{
    if a.len() > 0 {
        if a[0] == b[0] {
            common_end(a.drop_first(), b.drop_first(), end);
            assert((a + end).drop_first() =~= a.drop_first() + end);
            assert((b + end).drop_first() =~= b.drop_first() + end);
        }
    } else {
        assert(a + end =~= end);
        assert(b + end =~= end);
        spelling_is_reflexive(end);
    }
}

/// Of two different names of one length, the one spelled first stays first,
/// and they stay different, whatever character each gets at its end.
proof fn settled_before_the_end(a: Seq<char>, b: Seq<char>, x: char, y: char)
    requires
        a.len() == b.len(),
        spelled_before(a, b),
        a != b,
    ensures
        spelled_before(a.push(x), b.push(y)),
        a.push(x) != b.push(y),
    decreases a.len(),
{
    if a.len() == 0 {
        assert(a =~= b);
    } else {
        assert(a.push(x)[0] == a[0] && b.push(y)[0] == b[0]);
        if a[0] == b[0] {
            assert(a.drop_first() != b.drop_first()) by {
                if a.drop_first() == b.drop_first() {
                    assert(a =~= seq![a[0]] + a.drop_first());
                    assert(b =~= seq![b[0]] + b.drop_first());
                }
            }
            settled_before_the_end(a.drop_first(), b.drop_first(), x, y);
            assert(a.push(x).drop_first() =~= a.drop_first().push(x));
            assert(b.push(y).drop_first() =~= b.drop_first().push(y));
            assert(a.push(x) != b.push(y)) by {
                if a.push(x) == b.push(y) {
                    assert(a.push(x).drop_first() == b.push(y).drop_first());
                }
            }
        }
    }
}

/// A greater number has no fewer digits.
proof fn more_is_no_shorter(i: nat, j: nat)
    requires
        i <= j,
    ensures
        decimal(i).len() <= decimal(j).len(),
    decreases j,
{
    if i >= 10 {
        more_is_no_shorter(i / 10, j / 10);
    }
}

/// Of two numbers with equally many digits, the smaller is spelled first,
/// and differently.
proof fn digits_order_numbers(i: nat, j: nat)
    requires
        i < j,
        decimal(i).len() == decimal(j).len(),
    ensures
        spelled_before(decimal(i), decimal(j)),
        decimal(i) != decimal(j),
    decreases j,
{
    if j < 10 {
        digits_are_ordered(i as int, j as int);
        assert(decimal(i)[0] != decimal(j)[0]);
    } else {
        decimal_len_bounds(i);
        decimal_len_bounds(j);
        let x = digit((i % 10) as int);
        let y = digit((j % 10) as int);
        if i / 10 < j / 10 {
            digits_order_numbers(i / 10, j / 10);
            settled_before_the_end(decimal(i / 10), decimal(j / 10), x, y);
        } else {
            assert(i / 10 == j / 10);
            let start = decimal(i / 10);
            digits_are_ordered((i % 10) as int, (j % 10) as int);
            common_start(start, seq![x], seq![y]);
            assert(start.push(x) =~= start + seq![x]);
            assert(start.push(y) =~= start + seq![y]);
            assert(start.push(x)[start.len() as int] != start.push(y)[start.len() as int]);
        }
    }
}

/// Padded to one width, a smaller number is no longer than a greater one,
/// and is spelled first where both are equally long.
proof fn padding_keeps_the_order(i: nat, j: nat, width: nat)
    requires
        i <= j,
    ensures
        zero_padded(i, width).len() <= zero_padded(j, width).len(),
        zero_padded(i, width).len() == zero_padded(j, width).len() ==> spelled_before(
            zero_padded(i, width),
            zero_padded(j, width),
        ),
{
    more_is_no_shorter(i, j);
    let a = decimal(i);
    let b = decimal(j);
    if i == j {
        spelling_is_reflexive(zero_padded(i, width));
    } else if a.len() == b.len() {
        digits_order_numbers(i, j);
        if a.len() < width {
            common_start(Seq::new((width - a.len()) as nat, |k: int| '0'), a, b);
        }
    } else if b.len() <= width {
        let shared = Seq::new((width - b.len()) as nat, |k: int| '0');
        let more = Seq::new((b.len() - a.len()) as nat, |k: int| '0');
        assert(zero_padded(i, width) =~= shared + (more + a));
        assert(zero_padded(j, width) =~= shared + b);
        common_start(shared, more + a, b);
        first_digit_counts(j);
        assert((more + a)[0] == '0');
    }
}

/// Names that differ in their number only are read in the order of their
/// numbers.
pub proof fn numbers_order_names(
    stem: Seq<char>,
    ending: Seq<char>,
    width: nat,
    i: nat,
    j: nat,
)
    requires
        i <= j,
    ensures
        comes_before(
            stem + zero_padded(i, width) + ending,
            stem + zero_padded(j, width) + ending,
        ),
{
    padding_keeps_the_order(i, j, width);
    let a = zero_padded(i, width);
    let b = zero_padded(j, width);
    if a.len() == b.len() {
        common_start(stem, a, b);
        common_end(stem + a, stem + b, ending);
    }
}

/// The page files of a document are read in the order of their pages, and
/// card images in the order of their positions.
pub proof fn files_are_read_in_number_order(i: nat, j: nat)
    requires
        i <= j,
    ensures
        comes_before(page_file(i), page_file(j)),
        comes_before(card_file(i as int), card_file(j as int)),
{
    numbers_order_names("x-"@, ".png"@, 3, i, j);
    numbers_order_names("c-"@, ".png"@, 3, i, j);
}

} // verus!
