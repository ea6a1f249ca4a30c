//! Numbers for backends, by which equal ones are known.
use vstd::prelude::*;

verus! {

/// The first place at which `same` holds; its length where it holds nowhere.
pub open spec fn first_same(same: Seq<bool>) -> int
    decreases same.len(),
{
    if same.len() == 0 || same[0] {
        0
    } else {
        1 + first_same(same.drop_first())
    }
}

/// Where `first_same` points.
pub proof fn lemma_first_same(same: Seq<bool>)
    ensures
        0 <= first_same(same) <= same.len(),
        first_same(same) < same.len() ==> same[first_same(same)],
        forall|i: int| 0 <= i < first_same(same) ==> !#[trigger] same[i],
    decreases same.len(),
{
    if same.len() > 0 && !same[0] {
        let rest = same.drop_first();
        lemma_first_same(rest);
        assert forall|i: int| 0 <= i < first_same(same) implies !#[trigger] same[i] by {
            if i > 0 {
                assert(same[i] == rest[i - 1]);
            }
        }
    }
}

/// The number of a backend, where `same` says of each backend that has a number, in the order of
/// their numbers, whether it is the same as this one: the number of the one that is, or else the
/// next number.
pub fn identity_of(same: &Vec<bool>) -> (id: u64)
    ensures
        id == first_same(same@),
        id <= same@.len(),
        id < same@.len() ==> same@[id as int],
        forall|i: int| 0 <= i < id ==> !#[trigger] same@[i],
{
    proof {
        lemma_first_same(same@);
    }
    let mut i: usize = 0;
    while i < same.len()
        invariant
            i <= first_same(same@) <= same@.len(),
            first_same(same@) < same@.len() ==> same@[first_same(same@)],
            forall|j: int| 0 <= j < first_same(same@) ==> !#[trigger] same@[j],
        decreases same.len() - i,
    {
        if same[i] {
            assert(!(i < first_same(same@)));
            return i as u64;
        }
        i += 1;
    }
    i as u64
}

/// Whether each item is the same as `item`.
pub open spec fn compared<A>(
    seen: Seq<A>,
    item: A,
    same: spec_fn(A, A) -> bool,
) -> Seq<bool> {
    Seq::new(seen.len(), |i: int| same(seen[i], item))
}

/// The items that have a number of their own once `items` are numbered in order.
pub open spec fn numbered<A>(items: Seq<A>, same: spec_fn(A, A) -> bool) -> Seq<A>
    decreases items.len(),
{
    if items.len() == 0 {
        Seq::empty()
    } else {
        let seen = numbered(items.drop_last(), same);
        if first_same(compared(seen, items.last(), same)) < seen.len() {
            seen
        } else {
            seen.push(items.last())
        }
    }
}

/// The number that the item at `i` gets when `items` are numbered in order.
pub open spec fn number<A>(items: Seq<A>, i: int, same: spec_fn(A, A) -> bool) -> int {
    first_same(compared(numbered(items.take(i), same), items[i], same))
}

/// Whether `same` is an equality.
pub open spec fn is_equality<A>(same: spec_fn(A, A) -> bool) -> bool {
    &&& forall|a: A| #[trigger] same(a, a)
    &&& forall|a: A, b: A| #[trigger] same(a, b) ==> same(b, a)
    &&& forall|a: A, b: A, c: A| #[trigger] same(a, b) && #[trigger] same(b, c) ==> same(a, c)
}

/// Items that have a number keep it, and each differs from the others.
proof fn lemma_numbered<A>(items: Seq<A>, n: int, same: spec_fn(A, A) -> bool)
    requires
        is_equality(same),
        0 <= n <= items.len(),
    ensures
        numbered(items.take(n), same).len() <= numbered(items, same).len(),
        numbered(items, same).take(numbered(items.take(n), same).len() as int) == numbered(
            items.take(n),
            same,
        ),
        forall|i: int, j: int|
            0 <= i < numbered(items, same).len() && 0 <= j < numbered(items, same).len() && i != j
                ==> !same(#[trigger] numbered(items, same)[i], #[trigger] numbered(items, same)[j]),
    decreases items.len(),
{
    let now = numbered(items, same);
    if items.len() > 0 {
        let before = items.drop_last();
        let seen = numbered(before, same);
        let told = compared(seen, items.last(), same);
        lemma_first_same(told);
        if n < items.len() {
            lemma_numbered(before, n, same);
            assert(before.take(n) =~= items.take(n));
        } else {
            lemma_numbered(before, before.len() as int, same);
            assert(items.take(n) =~= items);
        }
        assert forall|i: int, j: int|
            0 <= i < now.len() && 0 <= j < now.len() && i != j implies !same(
            #[trigger] now[i],
            #[trigger] now[j],
        ) by {
            if i < seen.len() && j < seen.len() {
                assert(now[i] == seen[i] && now[j] == seen[j]);
            } else if i < seen.len() {
                assert(!told[i]);
            } else {
                assert(!told[j]);
                assert(!same(seen[j], items.last()));
            }
        }
    } else {
        assert(items.take(n) =~= items);
    }
    let short = numbered(items.take(n), same);
    assert(now.take(short.len() as int) =~= short);
}

/// The number of an item stands for it among all that have one.
proof fn lemma_number_stands_for_item<A>(items: Seq<A>, i: int, same: spec_fn(A, A) -> bool)
    requires
        is_equality(same),
        0 <= i < items.len(),
    ensures
        0 <= number(items, i, same) < numbered(items, same).len(),
        same(numbered(items, same)[number(items, i, same)], items[i]),
{
    let seen = numbered(items.take(i), same);
    let told = compared(seen, items[i], same);
    lemma_first_same(told);
    let next = items.take(i + 1);
    assert(next.drop_last() =~= items.take(i));
    lemma_numbered(items, i + 1, same);
    let then = numbered(next, same);
    let id = number(items, i, same);
    assert(numbered(items, same)[id] == numbered(items, same).take(then.len() as int)[id]);
    if id < seen.len() {
        assert(told[id]);
    }
}

/// Of items that are numbered in order, those that are the same, and no others, share a number.
pub proof fn law_same_items_share_a_number<A>(
    items: Seq<A>,
    i: int,
    j: int,
    same: spec_fn(A, A) -> bool,
)
    requires
        is_equality(same),
        0 <= i < items.len(),
        0 <= j < items.len(),
    ensures
        number(items, i, same) == number(items, j, same) <==> same(items[i], items[j]),
{
    let all = numbered(items, same);
    lemma_number_stands_for_item(items, i, same);
    lemma_number_stands_for_item(items, j, same);
    lemma_numbered(items, items.len() as int, same);
    let a = all[number(items, i, same)];
    let b = all[number(items, j, same)];
    assert(same(a, items[i]) && same(b, items[j]));
    if same(items[i], items[j]) {
        assert(same(a, items[j]));
        assert(same(items[j], b));
        assert(same(a, b));
    } else if a == b {
        assert(same(items[i], a));
        assert(same(items[i], items[j]));
    }
}

/// The numbers of the items at `places`.
pub open spec fn numbers<A>(
    items: Seq<A>,
    places: Seq<int>,
    same: spec_fn(A, A) -> bool,
) -> Seq<int> {
    Seq::new(places.len(), |k: int| number(items, places[k], same))
}

/// Two lists of numbered items have the same numbers exactly where they are as long as each other
/// and have the same items.
pub proof fn law_same_lists_have_the_same_numbers<A>(
    items: Seq<A>,
    a: Seq<int>,
    b: Seq<int>,
    same: spec_fn(A, A) -> bool,
)
    requires
        is_equality(same),
        forall|k: int| 0 <= k < a.len() ==> 0 <= #[trigger] a[k] < items.len(),
        forall|k: int| 0 <= k < b.len() ==> 0 <= #[trigger] b[k] < items.len(),
    ensures
        numbers(items, a, same) == numbers(items, b, same) <==> {
            &&& a.len() == b.len()
            &&& forall|k: int| 0 <= k < a.len() ==> same(items[#[trigger] a[k]], items[b[k]])
        },
{
    if a.len() == b.len() {
        assert forall|k: int| 0 <= k < a.len() implies (numbers(items, a, same)[k] == numbers(
            items,
            b,
            same,
        )[k] <==> same(items[#[trigger] a[k]], items[b[k]])) by {
            law_same_items_share_a_number(items, a[k], b[k], same);
        }
        if forall|k: int| 0 <= k < a.len() ==> same(items[#[trigger] a[k]], items[b[k]]) {
            assert(numbers(items, a, same) =~= numbers(items, b, same));
        }
        if numbers(items, a, same) == numbers(items, b, same) {
            assert forall|k: int| 0 <= k < a.len() implies same(
                items[#[trigger] a[k]],
                items[b[k]],
            ) by {
                assert(numbers(items, a, same)[k] == numbers(items, b, same)[k]);
            }
        }
    } else {
        assert(numbers(items, a, same).len() != numbers(items, b, same).len());
    }
}

} // verus!
