//! Sorted sequences: the order of texts, and the one ascending list of a set.

use vstd::prelude::*;

use crate::text::{characters, same_text, texts};

verus! {

// Ascending sequences in general.

/// Whether each item stands before all that follow it, by the order `less`.
pub open spec fn sorted_by_order<A>(items: Seq<A>, less: spec_fn(A, A) -> bool) -> bool {
    forall|i: int, j: int| 0 <= i < j < items.len() ==> #[trigger] less(items[i], items[j])
}

/// Whether no two items stand before each other.
pub open spec fn asymmetric<A>(less: spec_fn(A, A) -> bool) -> bool {
    forall|a: A, b: A| #[trigger] less(a, b) ==> !less(b, a)
}

/// A set has at most one ascending list.
pub proof fn lemma_one_order<A>(left: Seq<A>, right: Seq<A>, less: spec_fn(A, A) -> bool)
    requires
        asymmetric(less),
        sorted_by_order(left, less),
        sorted_by_order(right, less),
        left.to_set() == right.to_set(),
    ensures
        left == right,
    decreases left.len(),
{
    if left.len() == 0 {
        if right.len() > 0 {
            assert(right.to_set().contains(right[0]));
            assert(left.to_set().contains(right[0]));
        }
        assert(left =~= right);
    } else {
        assert(left.to_set().contains(left[0]));
        assert(right.to_set().contains(left[0]));
        let in_right = choose|i: int| 0 <= i < right.len() && right[i] == left[0];
        assert(right.to_set().contains(right[0]));
        assert(left.to_set().contains(right[0]));
        let in_left = choose|i: int| 0 <= i < left.len() && left[i] == right[0];
        if left[0] != right[0] {
            assert(less(left[0], left[in_left]));
            assert(less(right[0], right[in_right]));
        }
        let left_tail = left.skip(1);
        let right_tail = right.skip(1);
        assert forall|a: A| #[trigger] left_tail.to_set().contains(a) implies right_tail.to_set().contains(
            a,
        ) by {
            let i = choose|i: int| 0 <= i < left_tail.len() && left_tail[i] == a;
            assert(left[i + 1] == a);
            assert(less(left[0], left[i + 1]));
            assert(left.to_set().contains(a));
            assert(right.to_set().contains(a));
            let j = choose|j: int| 0 <= j < right.len() && right[j] == a;
            assert(j > 0);
            assert(right_tail[j - 1] == a);
        }
        assert forall|a: A| #[trigger] right_tail.to_set().contains(a) implies left_tail.to_set().contains(
            a,
        ) by {
            let i = choose|i: int| 0 <= i < right_tail.len() && right_tail[i] == a;
            assert(right[i + 1] == a);
            assert(less(right[0], right[i + 1]));
            assert(right.to_set().contains(a));
            assert(left.to_set().contains(a));
            let j = choose|j: int| 0 <= j < left.len() && left[j] == a;
            assert(j > 0);
            assert(left_tail[j - 1] == a);
        }
        assert(left_tail.to_set() =~= right_tail.to_set());
        assert(sorted_by_order(left_tail, less)) by {
            assert forall|i: int, j: int| 0 <= i < j < left_tail.len() implies #[trigger] less(
                left_tail[i],
                left_tail[j],
            ) by {
                assert(less(left[i + 1], left[j + 1]));
            }
        }
        assert(sorted_by_order(right_tail, less)) by {
            assert forall|i: int, j: int| 0 <= i < j < right_tail.len() implies #[trigger] less(
                right_tail[i],
                right_tail[j],
            ) by {
                assert(less(right[i + 1], right[j + 1]));
            }
        }
        lemma_one_order(left_tail, right_tail, less);
        assert(left =~= seq![left[0]] + left_tail);
        assert(right =~= seq![right[0]] + right_tail);
    }
}

// Numbers.

/// The order of numbers.
pub open spec fn number_less() -> spec_fn(u64, u64) -> bool {
    |a: u64, b: u64| a < b
}

/// Whether numbers stand in ascending order, each once.
pub open spec fn ascending(numbers: Seq<u64>) -> bool {
    sorted_by_order(numbers, number_less())
}

/// The numbers of a set in ascending order.
pub open spec fn in_order(set: Set<u64>) -> Seq<u64> {
    choose|numbers: Seq<u64>| ascending(numbers) && numbers.to_set() == set
}

/// An ascending list is the one ascending list of its set.
pub proof fn lemma_in_order(numbers: Seq<u64>)
    requires
        ascending(numbers),
    ensures
        in_order(numbers.to_set()) == numbers,
{
    lemma_one_order(in_order(numbers.to_set()), numbers, number_less());
}

proof fn lemma_insert_ascending(numbers: Seq<u64>, number: u64) -> (longer: Seq<u64>)
    requires
        ascending(numbers),
        !numbers.contains(number),
    ensures
        ascending(longer),
        longer.to_set() == numbers.to_set().insert(number),
    decreases numbers.len(),
{
    if numbers.len() == 0 || numbers.last() < number {
        let longer = numbers.push(number);
        assert forall|i: int, j: int| 0 <= i < j < longer.len() implies #[trigger] number_less()(
            longer[i],
            longer[j],
        ) by {
            if j < numbers.len() {
                assert(number_less()(numbers[i], numbers[j]));
            } else if i < numbers.len() - 1 {
                assert(number_less()(numbers[i], numbers[numbers.len() - 1]));
            }
        }
        crate::sets::lemma_push_to_set(numbers, number);
        longer
    } else {
        let shorter = numbers.drop_last();
        assert(numbers[numbers.len() - 1] == numbers.last());
        assert(ascending(shorter)) by {
            assert forall|i: int, j: int| 0 <= i < j < shorter.len() implies #[trigger] number_less()(
                shorter[i],
                shorter[j],
            ) by {
                assert(number_less()(numbers[i], numbers[j]));
            }
        }
        assert(!shorter.contains(number)) by {
            if shorter.contains(number) {
                let i = choose|i: int| 0 <= i < shorter.len() && shorter[i] == number;
                assert(numbers[i] == number);
            }
        }
        assert(numbers.last() != number) by {
            assert(numbers.contains(numbers[numbers.len() - 1]));
        }
        let before = lemma_insert_ascending(shorter, number);
        let longer = before.push(numbers.last());
        assert forall|i: int, j: int| 0 <= i < j < longer.len() implies #[trigger] number_less()(
            longer[i],
            longer[j],
        ) by {
            if j < before.len() {
                assert(number_less()(before[i], before[j]));
            } else {
                assert(before.to_set().contains(before[i]));
                if before[i] != number {
                    assert(shorter.to_set().contains(before[i]));
                    let k = choose|k: int| 0 <= k < shorter.len() && shorter[k] == before[i];
                    assert(number_less()(numbers[k], numbers[numbers.len() - 1]));
                }
            }
        }
        crate::sets::lemma_push_to_set(before, numbers.last());
        crate::sets::lemma_push_to_set(shorter, numbers.last());
        assert(shorter.push(numbers.last()) =~= numbers);
        assert(longer.to_set() =~= numbers.to_set().insert(number));
        longer
    }
}

proof fn lemma_ascending_exists(set: Set<u64>) -> (numbers: Seq<u64>)
    requires
        set.finite(),
    ensures
        ascending(numbers),
        numbers.to_set() == set,
    decreases set.len(),
{
    if set.len() == 0 {
        let numbers = Seq::<u64>::empty();
        assert(numbers.to_set() =~= set);
        numbers
    } else {
        let number = set.choose();
        let before = lemma_ascending_exists(set.remove(number));
        assert(!before.contains(number)) by {
            assert(!before.to_set().contains(number));
        }
        let numbers = lemma_insert_ascending(before, number);
        assert(numbers.to_set() =~= set);
        numbers
    }
}

/// Every finite set of numbers has an ascending list.
pub proof fn lemma_order_of_finite(set: Set<u64>)
    requires
        set.finite(),
    ensures
        ascending(in_order(set)),
        in_order(set).to_set() == set,
{
    let numbers = lemma_ascending_exists(set);
    lemma_in_order(numbers);
}

// Texts.

/// Whether one text stands before another: by the first character in which they differ,
/// a text before its own continuations.
pub open spec fn text_before(left: Seq<char>, right: Seq<char>) -> bool
    decreases left.len(),
{
    if right.len() == 0 {
        false
    } else if left.len() == 0 {
        true
    } else if left[0] != right[0] {
        left[0] < right[0]
    } else {
        text_before(left.skip(1), right.skip(1))
    }
}

/// The order of texts.
pub open spec fn text_less() -> spec_fn(Seq<char>, Seq<char>) -> bool {
    |left: Seq<char>, right: Seq<char>| text_before(left, right)
}

pub proof fn lemma_text_asymmetric(left: Seq<char>, right: Seq<char>)
    ensures
        text_before(left, right) ==> !text_before(right, left),
    decreases left.len(),
{
    if left.len() > 0 && right.len() > 0 && left[0] == right[0] {
        lemma_text_asymmetric(left.skip(1), right.skip(1));
    }
}

pub proof fn lemma_text_total(left: Seq<char>, right: Seq<char>)
    ensures
        text_before(left, right) || text_before(right, left) || left == right,
    decreases left.len(),
{
    if left.len() == 0 || right.len() == 0 {
        if left.len() == right.len() {
            assert(left =~= right);
        }
    } else if left[0] == right[0] {
        lemma_text_total(left.skip(1), right.skip(1));
        if left.skip(1) == right.skip(1) {
            assert(left =~= seq![left[0]] + left.skip(1));
            assert(right =~= seq![right[0]] + right.skip(1));
        }
    }
}

pub proof fn lemma_text_transitive(a: Seq<char>, b: Seq<char>, c: Seq<char>)
    ensures
        text_before(a, b) && text_before(b, c) ==> text_before(a, c),
    decreases a.len(),
{
    if a.len() > 0 && b.len() > 0 && c.len() > 0 && a[0] == b[0] && b[0] == c[0] {
        lemma_text_transitive(a.skip(1), b.skip(1), c.skip(1));
    }
}

/// Whether one text stands before another.
pub fn text_less_than(left: &str, right: &str) -> (result: bool)
    ensures
        result == text_before(left@, right@),
{
    let a: Vec<char> = characters(left);
    let b: Vec<char> = characters(right);
    let mut i: usize = 0;
    assert(left@.skip(0) =~= left@);
    assert(right@.skip(0) =~= right@);
    while i < a.len() && i < b.len() && a[i] == b[i]
        invariant
            0 <= i <= a.len(),
            i <= b.len(),
            a@ == left@,
            b@ == right@,
            text_before(left@, right@) == text_before(left@.skip(i as int), right@.skip(i as int)),
        decreases a.len() - i,
    {
        assert(left@.skip(i as int).skip(1) =~= left@.skip(i + 1));
        assert(right@.skip(i as int).skip(1) =~= right@.skip(i + 1));
        i = i + 1;
    }
    if i >= b.len() {
        false
    } else if i >= a.len() {
        true
    } else {
        a[i] < b[i]
    }
}

/// The texts of a set in order.
pub open spec fn texts_in_order(set: Set<Seq<char>>) -> Seq<Seq<char>> {
    choose|list: Seq<Seq<char>>| sorted_by_order(list, text_less()) && list.to_set() == set
}

/// An ascending list of texts is the one ascending list of its set.
pub proof fn lemma_texts_in_order(list: Seq<Seq<char>>)
    requires
        sorted_by_order(list, text_less()),
    ensures
        texts_in_order(list.to_set()) == list,
{
    assert(asymmetric(text_less())) by {
        assert forall|a: Seq<char>, b: Seq<char>| #[trigger]
            text_less()(a, b) implies !text_less()(b, a) by {
            lemma_text_asymmetric(a, b);
        }
    }
    lemma_one_order(texts_in_order(list.to_set()), list, text_less());
}

/// Adds a name to an ascending list of names, where it is not there yet.
pub fn insert_name(names: &mut Vec<String>, name: &str)
    requires
        sorted_by_order(texts(old(names)@), text_less()),
    ensures
        sorted_by_order(texts(final(names)@), text_less()),
        texts(final(names)@).to_set() == texts(old(names)@).to_set().insert(name@),
{
    let ghost before = texts(names@);
    let mut i: usize = 0;
    while i < names.len() && text_less_than(names[i].as_str(), name)
        invariant
            0 <= i <= names.len(),
            before == texts(names@),
            forall|k: int| 0 <= k < i ==> #[trigger] text_before(before[k], name@),
        decreases names.len() - i,
    {
        assert(before[i as int] == names@[i as int]@);
        i = i + 1;
    }
    if i < names.len() && same_text(names[i].as_str(), name) {
        assert(before[i as int] == name@);
        assert(before.to_set().insert(name@) =~= before.to_set());
        return ;
    }
    names.insert(i, name.to_owned());
    let ghost after = texts(names@);
    proof {
        assert(after =~= before.insert(i as int, name@));
        assert forall|a: int, b: int| 0 <= a < b < after.len() implies #[trigger] text_less()(
            after[a],
            after[b],
        ) by {
            if b < i {
                assert(text_less()(before[a], before[b]));
            } else if b == i {
                assert(text_before(before[a], name@));
            } else if a < i {
                assert(text_less()(before[a], before[b - 1]));
            } else if a > i {
                assert(text_less()(before[a - 1], before[b - 1]));
            } else {
                lemma_text_total(before[i as int], name@);
                assert(text_before(name@, before[i as int]));
                if b - 1 > i {
                    assert(text_less()(before[i as int], before[b - 1]));
                    lemma_text_transitive(name@, before[i as int], before[b - 1]);
                }
            }
        }
        assert forall|t: Seq<char>|
            after.to_set().contains(t) == before.to_set().insert(name@).contains(t) by {
            if after.contains(t) {
                let k = choose|k: int| 0 <= k < after.len() && after[k] == t;
                if k < i {
                    assert(before[k] == t);
                } else if k > i {
                    assert(before[k - 1] == t);
                }
            }
            if before.contains(t) {
                let k = choose|k: int| 0 <= k < before.len() && before[k] == t;
                if k < i {
                    assert(after[k] == t);
                } else {
                    assert(after[k + 1] == t);
                }
            }
            assert(after[i as int] == name@);
        }
        assert(after.to_set() =~= before.to_set().insert(name@));
    }
}

/// A text stands before another where, at the first place at which they differ, it has the
/// lower character or has ended.
pub proof fn texts_are_ordered_by_their_first_difference(
    left: Seq<char>,
    right: Seq<char>,
    at: int,
)
    requires
        0 <= at <= left.len(),
        at <= right.len(),
        left.take(at) == right.take(at),
    ensures
        at < left.len() && at < right.len() && left[at] != right[at] ==> text_before(left, right)
            == (left[at] < right[at]),
        at == left.len() ==> text_before(left, right) == (at < right.len()),
        at == right.len() ==> !text_before(left, right),
    decreases at,
{
    if at > 0 {
        assert(left.take(at)[0] == left[0]);
        assert(right.take(at)[0] == right[0]);
        assert(left.skip(1).take(at - 1) =~= left.take(at).skip(1));
        assert(right.skip(1).take(at - 1) =~= right.take(at).skip(1));
        texts_are_ordered_by_their_first_difference(left.skip(1), right.skip(1), at - 1);
    }
}

} // verus!
