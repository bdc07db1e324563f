//! Page retention: which rasterized pages of a product are kept.

use vstd::prelude::*;
use crate::names::{page_file, page_prefix, page_prefix_name};
use crate::product::Retention;
use crate::text::{
    chars_of, has_prefix, texts_of, three_digits, three_digits_name_one_number, zero_padded,
};

verus! {

/// Whether the page with index `index` is dropped: it is listed in
/// `excluded`, or it is an odd page from 1 to `alternating`.
pub open spec fn drops_index(excluded: Seq<u64>, alternating: u64, index: nat) -> bool {
    ||| exists|i: int| 0 <= i < excluded.len() && #[trigger] excluded[i] == index
    ||| (1 <= index <= alternating && index % 2 == 1)
}

/// Whether the page file `name` is dropped: its name begins with the name
/// of a page whose index is dropped.
pub open spec fn drops_name(excluded: Seq<u64>, alternating: u64, name: Seq<char>) -> bool {
    exists|index: nat|
        drops_index(excluded, alternating, index) && (#[trigger] page_prefix(index)).is_prefix_of(
            name,
        )
}

/// The page files that are kept, in the order in which `names` has them.
pub open spec fn retained(excluded: Seq<u64>, alternating: u64, names: Seq<Seq<char>>) -> Seq<
    Seq<char>,
>
    decreases names.len(),
{
    if names.len() == 0 {
        Seq::empty()
    } else {
        let before = retained(excluded, alternating, names.drop_last());
        if drops_name(excluded, alternating, names.last()) {
            before
        } else {
            before.push(names.last())
        }
    }
}

fn begins_with_page(name: &Vec<char>, index: u64) -> (r: bool)
    ensures
        r == page_prefix(index as nat).is_prefix_of(name@),
{
    let prefix = page_prefix_name(index);
    let prefix_chars = chars_of(prefix.as_str());
    has_prefix(name, &prefix_chars)
}

/// Whether `rule` drops the page file `name`.
pub fn is_dropped(rule: &Retention, name: &str) -> (r: bool)
    ensures
        r == drops_name(rule.excluded@, rule.alternating, name@),
{
    let chars = chars_of(name);
    let mut i: usize = 0;
    while i < rule.excluded.len()
        invariant
            i <= rule.excluded.len(),
            chars@ == name@,
            forall|j: int|
                0 <= j < i ==> !page_prefix((#[trigger] rule.excluded[j]) as nat).is_prefix_of(
                    name@,
                ),
        decreases rule.excluded.len() - i,
    {
        if begins_with_page(&chars, rule.excluded[i]) {
            assert(drops_index(rule.excluded@, rule.alternating, rule.excluded[i as int] as nat));
            return true;
        }
        i += 1;
    }
    let mut n: u64 = 0;
    while n < rule.alternating
        invariant
            n <= rule.alternating,
            chars@ == name@,
            forall|m: nat| 1 <= m <= n && m % 2 == 1 ==> !(#[trigger] page_prefix(m)).is_prefix_of(
                name@,
            ),
        decreases rule.alternating - n,
    {
        n += 1;
        if n % 2 == 1 && begins_with_page(&chars, n) {
            assert(drops_index(rule.excluded@, rule.alternating, n as nat));
            return true;
        }
    }
    assert forall|index: nat| drops_index(rule.excluded@, rule.alternating, index) implies !(
    #[trigger] page_prefix(index)).is_prefix_of(name@) by {
        if exists|i: int| 0 <= i < rule.excluded@.len() && #[trigger] rule.excluded@[i] == index {
            let i = choose|i: int|
                0 <= i < rule.excluded@.len() && #[trigger] rule.excluded@[i] == index;
            assert(!page_prefix(rule.excluded[i] as nat).is_prefix_of(name@));
        }
    }
    false
}

/// Keeps the page files that `rule` does not drop, in their order.
pub fn retain(rule: &Retention, names: &Vec<String>) -> (out: Vec<String>)
    ensures
        texts_of(out@) == retained(rule.excluded@, rule.alternating, texts_of(names@)),
{
    let mut out: Vec<String> = Vec::new();
    let mut i: usize = 0;
    assert(texts_of(names@).take(0) =~= Seq::empty());
    while i < names.len()
        invariant
            i <= names.len(),
            texts_of(out@) == retained(
                rule.excluded@,
                rule.alternating,
                texts_of(names@).take(i as int),
            ),
        decreases names.len() - i,
    {
        let ghost upto = texts_of(names@).take(i + 1);
        assert(upto.drop_last() =~= texts_of(names@).take(i as int));
        assert(upto.last() == names[i as int]@);
        if !is_dropped(rule, names[i].as_str()) {
            let ghost prior = out@;
            out.push(names[i].clone());
            assert(texts_of(out@) =~= texts_of(prior).push(names[i as int]@));
        }
        i += 1;
    }
    assert(texts_of(names@).take(names.len() as int) =~= texts_of(names@));
    out
}

/// Every kept page file is one of `names` and is not dropped.
pub proof fn retained_pages_are_kept_pages(
    excluded: Seq<u64>,
    alternating: u64,
    names: Seq<Seq<char>>,
    i: int,
)
    requires
        0 <= i < retained(excluded, alternating, names).len(),
    ensures
        !drops_name(excluded, alternating, retained(excluded, alternating, names)[i]),
        exists|p: int|
            0 <= p < names.len() && #[trigger] names[p] == retained(
                excluded,
                alternating,
                names,
            )[i],
    decreases names.len(),
{
    let before = retained(excluded, alternating, names.drop_last());
    if i < before.len() {
        retained_pages_are_kept_pages(excluded, alternating, names.drop_last(), i);
        let p = choose|p: int|
            0 <= p < names.drop_last().len() && #[trigger] names.drop_last()[p] == before[i];
        assert(names[p] == before[i]);
    } else {
        assert(names[names.len() - 1] == names.last());
    }
}

/// A page file that is not dropped is kept.
pub proof fn kept_pages_are_retained(
    excluded: Seq<u64>,
    alternating: u64,
    names: Seq<Seq<char>>,
    p: int,
)
    requires
        0 <= p < names.len(),
        !drops_name(excluded, alternating, names[p]),
    ensures
        retained(excluded, alternating, names).contains(names[p]),
    decreases names.len(),
{
    let before = retained(excluded, alternating, names.drop_last());
    let all = retained(excluded, alternating, names);
    if p == names.len() - 1 {
        assert(all[all.len() - 1] == names[p]);
    } else {
        kept_pages_are_retained(excluded, alternating, names.drop_last(), p);
        let j = choose|j: int| 0 <= j < before.len() && before[j] == names.drop_last()[p];
        assert(all[j] == names[p]);
    }
}

/// Retention keeps the order of the pages: of two kept page files, the one
/// that comes first among the kept comes first in `names` too.
pub proof fn retention_preserves_order(
    excluded: Seq<u64>,
    alternating: u64,
    names: Seq<Seq<char>>,
    i: int,
    j: int,
)
    requires
        0 <= i < j < retained(excluded, alternating, names).len(),
    ensures
        exists|p: int, q: int|
            0 <= p < q < names.len() && #[trigger] names[p] == retained(
                excluded,
                alternating,
                names,
            )[i] && #[trigger] names[q] == retained(excluded, alternating, names)[j],
    decreases names.len(),
{
    let before = retained(excluded, alternating, names.drop_last());
    let all = retained(excluded, alternating, names);
    if j < before.len() {
        retention_preserves_order(excluded, alternating, names.drop_last(), i, j);
        let (p, q) = choose|p: int, q: int|
            0 <= p < q < names.drop_last().len() && #[trigger] names.drop_last()[p] == before[i]
                && #[trigger] names.drop_last()[q] == before[j];
        assert(names[p] == all[i] && names[q] == all[j]);
    } else {
        retained_pages_are_kept_pages(excluded, alternating, names.drop_last(), i);
        let p = choose|p: int|
            0 <= p < names.drop_last().len() && #[trigger] names.drop_last()[p] == before[i];
        let q = names.len() - 1;
        assert(names[p] == all[i] && names[q] == all[j]);
    }
}

/// Retention is repeatable: applied to what it kept, it keeps all of it.
pub proof fn retention_is_idempotent(excluded: Seq<u64>, alternating: u64, names: Seq<Seq<char>>)
    ensures
        retained(excluded, alternating, retained(excluded, alternating, names)) == retained(
            excluded,
            alternating,
            names,
        ),
    decreases names.len(),
{
    if names.len() > 0 {
        retention_is_idempotent(excluded, alternating, names.drop_last());
        let before = retained(excluded, alternating, names.drop_last());
        if !drops_name(excluded, alternating, names.last()) {
            assert(before.push(names.last()).drop_last() =~= before);
        }
    }
}

/// Among the first thousand pages, a page file is dropped exactly where
/// the index of its page is: no other page's name begins like its own.
pub proof fn page_is_dropped_by_its_index(excluded: Seq<u64>, alternating: u64, index: nat)
    requires
        index < 1000,
        alternating < 1000,
        forall|i: int| 0 <= i < excluded.len() ==> #[trigger] excluded[i] < 1000,
    ensures
        drops_name(excluded, alternating, page_file(index)) == drops_index(
            excluded,
            alternating,
            index,
        ),
{
    reveal_strlit("x-");
    three_digits(index);
    let name = page_file(index);
    assert(page_prefix(index).is_prefix_of(name)) by {
        assert(name.subrange(0, page_prefix(index).len() as int) =~= page_prefix(index));
    }
    if drops_name(excluded, alternating, name) {
        let other = choose|other: nat|
            drops_index(excluded, alternating, other) && (#[trigger] page_prefix(
                other,
            )).is_prefix_of(name);
        assert(other < 1000);
        three_digits(other);
        let prefix = page_prefix(other);
        assert(prefix.len() == 5);
        assert(prefix =~= name.subrange(0, 5));
        assert(zero_padded(other, 3) =~= prefix.subrange(2, 5));
        assert(zero_padded(index, 3) =~= name.subrange(0, 5).subrange(2, 5));
        three_digits_name_one_number(other, index);
    }
}

} // verus!
