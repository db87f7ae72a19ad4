//! Sets and maps of track numbers, in the order of the numbers.

use std::collections::{BTreeMap, BTreeSet};

use vstd::prelude::*;
use vstd::string::StringExecFns;

use crate::order::{ascending, in_order, lemma_in_order, number_less};
use crate::text::{decimal, join, joined, number_text, texts};

verus! {

broadcast use vstd::std_specs::btree::group_btree_axioms;

/// Adds a number to an ascending list, where it is not there yet; says whether it was new.
pub fn insert_number(numbers: &mut Vec<u64>, number: u64) -> (result: bool)
    requires
        ascending(old(numbers)@),
    ensures
        ascending(final(numbers)@),
        final(numbers)@.to_set() == old(numbers)@.to_set().insert(number),
        result == !old(numbers)@.contains(number),
{
    let ghost before = numbers@;
    let mut i: usize = 0;
    while i < numbers.len() && numbers[i] < number
        invariant
            0 <= i <= numbers.len(),
            before == numbers@,
            forall|k: int| 0 <= k < i ==> before[k] < number,
        decreases numbers.len() - i,
    {
        i = i + 1;
    }
    if i < numbers.len() && numbers[i] == number {
        assert(before[i as int] == number);
        assert(before.to_set().insert(number) =~= before.to_set());
        return false;
    }
    proof {
        assert forall|k: int| 0 <= k < before.len() implies before[k] != number by {
            if k > i {
                assert(number_less()(before[i as int], before[k]));
            }
        }
    }
    numbers.insert(i, number);
    let ghost after = numbers@;
    proof {
        assert(after =~= before.insert(i as int, number));
        assert forall|a: int, b: int| 0 <= a < b < after.len() implies #[trigger] number_less()(
            after[a],
            after[b],
        ) by {
            if b < i {
                assert(number_less()(before[a], before[b]));
            } else if b == i {
            } else if a < i {
                assert(number_less()(before[a], before[b - 1]));
            } else if a > i {
                assert(number_less()(before[a - 1], before[b - 1]));
            } else {
                if b - 1 > i {
                    assert(number_less()(before[i as int], before[b - 1]));
                }
            }
        }
        assert forall|n: u64|
            after.to_set().contains(n) == before.to_set().insert(number).contains(n) by {
            if after.contains(n) {
                let k = choose|k: int| 0 <= k < after.len() && after[k] == n;
                if k < i {
                    assert(before[k] == n);
                } else if k > i {
                    assert(before[k - 1] == n);
                }
            }
            if before.contains(n) {
                let k = choose|k: int| 0 <= k < before.len() && before[k] == n;
                if k < i {
                    assert(after[k] == n);
                } else {
                    assert(after[k + 1] == n);
                }
            }
            assert(after[i as int] == number);
        }
        assert(after.to_set() =~= before.to_set().insert(number));
    }
    true
}

/// The numbers of a set in ascending order.
pub fn numbers_in_order(set: &BTreeSet<u64>) -> (result: Vec<u64>)
    ensures
        result@ == in_order(set@),
        ascending(result@),
        result@.to_set() == set@,
{
    let mut result: Vec<u64> = Vec::new();
    assert(result@.to_set() =~= Set::<u64>::empty());
    for number in it: set.iter()
        invariant
            it.seq().unref().to_set() == set@,
            ascending(result@),
            result@.to_set() == it.seq().unref().take(it.index() as int).to_set(),
            it.index() == it.seq().len() ==> it.seq().unref().take(it.index() as int)
                =~= it.seq().unref(),
    {
        insert_number(&mut result, *number);
        proof {
            let all = it.seq().unref();
            let i = it.index() as int;
            assert(all[i] == *number);
            assert(all.take(i + 1) =~= all.take(i).push(*number));
            assert(all.take(i + 1).to_set() =~= all.take(i).to_set().insert(*number)) by {
                assert forall|n: u64|
                    all.take(i + 1).to_set().contains(n) == all.take(i).to_set().insert(
                        *number,
                    ).contains(n) by {
                    if all.take(i).contains(n) {
                        let k = choose|k: int| 0 <= k < i && all.take(i)[k] == n;
                        assert(all.take(i + 1)[k] == n);
                    }
                    assert(all.take(i + 1)[i] == *number);
                }
            }
        }
    }
    proof {
        lemma_in_order(result@);
    }
    result
}

/// The keys of a map in ascending order.
pub fn keys_in_order<V>(map: &BTreeMap<u64, V>) -> (result: Vec<u64>)
    ensures
        result@ == in_order(map@.dom()),
        ascending(result@),
        result@.to_set() == map@.dom(),
{
    let mut result: Vec<u64> = Vec::new();
    assert(result@.to_set() =~= Set::<u64>::empty());
    for key in it: map.keys()
        invariant
            it.seq().unref().to_set() == map@.dom(),
            ascending(result@),
            result@.to_set() == it.seq().unref().take(it.index() as int).to_set(),
            it.index() == it.seq().len() ==> it.seq().unref().take(it.index() as int)
                =~= it.seq().unref(),
    {
        insert_number(&mut result, *key);
        proof {
            let all = it.seq().unref();
            let i = it.index() as int;
            assert(all[i] == *key);
            assert(all.take(i + 1) =~= all.take(i).push(*key));
            assert(all.take(i + 1).to_set() =~= all.take(i).to_set().insert(*key)) by {
                assert forall|n: u64|
                    all.take(i + 1).to_set().contains(n) == all.take(i).to_set().insert(
                        *key,
                    ).contains(n) by {
                    if all.take(i).contains(n) {
                        let k = choose|k: int| 0 <= k < i && all.take(i)[k] == n;
                        assert(all.take(i + 1)[k] == n);
                    }
                    assert(all.take(i + 1)[i] == *key);
                }
            }
        }
    }
    proof {
        lemma_in_order(result@);
    }
    result
}

/// The numbers of a list as a set, and whether the list holds each only once.
pub fn number_set(numbers: &[u64]) -> (result: (BTreeSet<u64>, bool))
    ensures
        result.0@ == numbers@.to_set(),
        result.1 == numbers@.no_duplicates(),
{
    let mut set: BTreeSet<u64> = BTreeSet::new();
    let mut distinct: bool = true;
    let mut i: usize = 0;
    assert(numbers@.take(0).to_set() =~= Set::<u64>::empty());
    while i < numbers.len()
        invariant
            0 <= i <= numbers.len(),
            set@ == numbers@.take(i as int).to_set(),
            distinct == numbers@.take(i as int).no_duplicates(),
        decreases numbers.len() - i,
    {
        let number: u64 = numbers[i];
        let ghost shorter = numbers@.take(i as int);
        let ghost longer = numbers@.take(i + 1);
        let fresh: bool = set.insert(number);
        proof {
            assert(longer =~= shorter.push(number));
            lemma_push_to_set(shorter, number);
            if fresh && distinct {
                assert(longer.no_duplicates()) by {
                    assert forall|a: int, b: int|
                        0 <= a < longer.len() && 0 <= b < longer.len() && a != b implies longer[a]
                        != longer[b] by {
                        if a < i && b < i {
                            assert(shorter[a] != shorter[b]);
                        } else if a < i {
                            assert(shorter.contains(shorter[a]));
                        } else {
                            assert(shorter.contains(shorter[b]));
                        }
                    }
                }
            }
            if !fresh {
                let k = choose|k: int| 0 <= k < shorter.len() && shorter[k] == number;
                assert(longer[k] == longer[i as int]);
            }
            if !distinct {
                assert(!longer.no_duplicates()) by {
                    let (a, b) = choose|a: int, b: int|
                        0 <= a < shorter.len() && 0 <= b < shorter.len() && a != b && shorter[a]
                            == shorter[b];
                    assert(longer[a] == longer[b]);
                }
            }
        }
        distinct = distinct && fresh;
        i = i + 1;
    }
    assert(numbers@.take(numbers@.len() as int) =~= numbers@);
    (set, distinct)
}

pub proof fn lemma_push_to_set(numbers: Seq<u64>, number: u64)
    ensures
        numbers.push(number).to_set() == numbers.to_set().insert(number),
{
    let longer = numbers.push(number);
    assert forall|n: u64| longer.to_set().contains(n) == numbers.to_set().insert(number).contains(
        n,
    ) by {
        if numbers.contains(n) {
            let k = choose|k: int| 0 <= k < numbers.len() && numbers[k] == n;
            assert(longer[k] == n);
        }
        assert(longer[numbers.len() as int] == number);
        if longer.contains(n) && n != number {
            let k = choose|k: int| 0 <= k < longer.len() && longer[k] == n;
            assert(numbers[k] == n);
        }
    }
    assert(longer.to_set() =~= numbers.to_set().insert(number));
}

/// The numbers of a set that are (or, for `kept` false, are not) in another, in
/// ascending order.
fn filtered(set: &BTreeSet<u64>, other: &BTreeSet<u64>, kept: bool) -> (result: Vec<u64>)
    ensures
        ascending(result@),
        result@.to_set() == (if kept {
            set@.intersect(other@)
        } else {
            set@.difference(other@)
        }),
{
    let all = numbers_in_order(set);
    let mut result: Vec<u64> = Vec::new();
    let mut i: usize = 0;
    while i < all.len()
        invariant
            0 <= i <= all.len(),
            ascending(result@),
            forall|n: u64|
                #![trigger result@.contains(n)]
                result@.contains(n) <==> all@.take(i as int).contains(n) && other@.contains(n)
                    == kept,
        decreases all.len() - i,
    {
        let number: u64 = all[i];
        let ghost before = result@;
        if other.contains(&number) == kept {
            insert_number(&mut result, number);
        }
        proof {
            assert(all@.take(i + 1) =~= all@.take(i as int).push(number));
            assert forall|n: u64| #![trigger result@.contains(n)]
                result@.contains(n) <==> all@.take(i + 1).contains(n) && other@.contains(n)
                    == kept by {
                lemma_push_to_set(all@.take(i as int), number);
                assert(all@.take(i + 1).contains(n) <==> all@.take(i + 1).to_set().contains(n));
                assert(all@.take(i as int).contains(n) <==> all@.take(i as int).to_set().contains(n));
                assert(result@.contains(n) <==> result@.to_set().contains(n));
                assert(before.contains(n) <==> before.to_set().contains(n));
            }
        }
        i = i + 1;
    }
    proof {
        assert(all@.take(all@.len() as int) =~= all@);
        assert forall|n: u64| result@.to_set().contains(n) == (set@.contains(n) && other@.contains(n)
            == kept) by {
            assert(result@.contains(n) <==> result@.to_set().contains(n));
            assert(all@.contains(n) <==> all@.to_set().contains(n));
        }
        if kept {
            assert(result@.to_set() =~= set@.intersect(other@));
        } else {
            assert(result@.to_set() =~= set@.difference(other@));
        }
    }
    result
}

/// The numbers in both sets, in ascending order.
pub fn common_numbers(set: &BTreeSet<u64>, other: &BTreeSet<u64>) -> (result: Vec<u64>)
    ensures
        result@ == in_order(set@.intersect(other@)),
        result@.to_set() == set@.intersect(other@),
{
    let result = filtered(set, other, true);
    proof {
        lemma_in_order(result@);
    }
    result
}

/// The numbers of one set that the other lacks, in ascending order.
pub fn missing_numbers(set: &BTreeSet<u64>, other: &BTreeSet<u64>) -> (result: Vec<u64>)
    ensures
        result@ == in_order(set@.difference(other@)),
        result@.to_set() == set@.difference(other@),
{
    let result = filtered(set, other, false);
    proof {
        lemma_in_order(result@);
    }
    result
}

/// Whether every number of one set is in the other.
pub fn is_subset(set: &BTreeSet<u64>, other: &BTreeSet<u64>) -> (result: bool)
    ensures
        result == set@.subset_of(other@),
{
    let missing = missing_numbers(set, other);
    proof {
        if missing@.len() > 0 {
            assert(missing@.to_set().contains(missing@[0]));
            assert(set@.difference(other@).contains(missing@[0]));
        } else {
            assert forall|n: u64| set@.contains(n) implies other@.contains(n) by {
                if !other@.contains(n) {
                    assert(set@.difference(other@).contains(n));
                    assert(missing@.to_set().contains(n));
                }
            }
        }
    }
    missing.len() == 0
}

/// The numbers of two sets together.
pub fn union_of(set: &BTreeSet<u64>, other: &BTreeSet<u64>) -> (result: BTreeSet<u64>)
    ensures
        result@ == set@.union(other@),
{
    let left = numbers_in_order(set);
    let right = numbers_in_order(other);
    let mut result: BTreeSet<u64> = BTreeSet::new();
    let mut i: usize = 0;
    assert(left@.take(0).to_set() =~= Set::<u64>::empty());
    while i < left.len()
        invariant
            0 <= i <= left.len(),
            result@ == left@.take(i as int).to_set(),
        decreases left.len() - i,
    {
        result.insert(left[i]);
        proof {
            lemma_push_to_set(left@.take(i as int), left@[i as int]);
            assert(left@.take(i + 1) =~= left@.take(i as int).push(left@[i as int]));
        }
        i = i + 1;
    }
    assert(left@.take(left@.len() as int) =~= left@);
    i = 0;
    assert(set@.union(right@.take(0).to_set()) =~= set@);
    while i < right.len()
        invariant
            0 <= i <= right.len(),
            result@ == set@.union(right@.take(i as int).to_set()),
        decreases right.len() - i,
    {
        result.insert(right[i]);
        proof {
            lemma_push_to_set(right@.take(i as int), right@[i as int]);
            assert(right@.take(i + 1) =~= right@.take(i as int).push(right@[i as int]));
            assert(result@ =~= set@.union(right@.take(i + 1).to_set()));
        }
        i = i + 1;
    }
    assert(right@.take(right@.len() as int) =~= right@);
    result
}

/// Whether two sets hold the same numbers.
pub fn same_numbers(set: &BTreeSet<u64>, other: &BTreeSet<u64>) -> (result: bool)
    ensures
        result == (set@ == other@),
{
    let result = is_subset(set, other) && is_subset(other, set);
    proof {
        if result {
            assert(set@ =~= other@);
        }
    }
    result
}

/// Numbers written one after another, with commas between them.
pub open spec fn commas(numbers: Seq<u64>) -> Seq<char> {
    joined(numbers.map_values(|number: u64| decimal(number as nat)), ", "@)
}

pub fn comma_list(numbers: &[u64]) -> (result: String)
    ensures
        result@ == commas(numbers@),
{
    let mut parts: Vec<String> = Vec::new();
    let mut i: usize = 0;
    while i < numbers.len()
        invariant
            0 <= i <= numbers.len(),
            texts(parts@) =~= numbers@.map_values(|number: u64| decimal(number as nat)).take(
                i as int,
            ),
        decreases numbers.len() - i,
    {
        let ghost before = parts@;
        let part = number_text(numbers[i]);
        let ghost written = part@;
        parts.push(part);
        assert(texts(parts@) =~= texts(before).push(written));
        i = i + 1;
    }
    assert(texts(parts@) =~= numbers@.map_values(|number: u64| decimal(number as nat)));
    join(parts.as_slice(), ", ")
}

/// A list of numbers in square brackets.
pub open spec fn bracketed(numbers: Seq<u64>) -> Seq<char> {
    "["@ + commas(numbers) + "]"@
}

pub fn bracketed_list(numbers: &[u64]) -> (result: String)
    ensures
        result@ == bracketed(numbers@),
{
    let mut text = "[".to_owned();
    text.append(comma_list(numbers).as_str());
    text.append("]");
    text
}

/// A set of numbers in braces, in ascending order.
pub open spec fn braced(set: Set<u64>) -> Seq<char> {
    "{"@ + commas(in_order(set)) + "}"@
}

pub fn braced_set(set: &BTreeSet<u64>) -> (result: String)
    ensures
        result@ == braced(set@),
{
    let mut text = "{".to_owned();
    text.append(comma_list(numbers_in_order(set).as_slice()).as_str());
    text.append("}");
    text
}

/// Numbers are written one after the other with a comma and a space between them, a list in
/// square brackets and a set, lowest first, in braces.
pub proof fn numbers_are_listed_with_commas(numbers: Seq<u64>, number: u64)
    ensures
        bracketed(Seq::empty()) == "[]"@,
        bracketed(seq![number]) == "["@ + decimal(number as nat) + "]"@,
        numbers.len() > 0 ==> bracketed(numbers.push(number)) == bracketed(numbers).drop_last()
            + ", "@ + decimal(number as nat) + "]"@,
        ascending(numbers) ==> braced(numbers.to_set()) == "{"@ + bracketed(numbers).subrange(
            1,
            bracketed(numbers).len() - 1,
        ) + "}"@,
{
    reveal_strlit("[]");
    reveal_strlit("[");
    reveal_strlit("]");
    let written = |number: u64| decimal(number as nat);
    assert(Seq::<u64>::empty().map_values(written) =~= Seq::empty());
    assert(bracketed(Seq::empty()) =~= "[]"@);
    assert(seq![number].map_values(written) =~= seq![decimal(number as nat)]);
    if numbers.len() > 0 {
        assert(numbers.push(number).map_values(written) =~= numbers.map_values(written).push(
            decimal(number as nat),
        ));
        assert(numbers.map_values(written).push(decimal(number as nat)).drop_last()
            =~= numbers.map_values(written));
        assert(bracketed(numbers).drop_last() =~= "["@ + commas(numbers));
        assert(bracketed(numbers.push(number)) =~= bracketed(numbers).drop_last() + ", "@ + decimal(
            number as nat,
        ) + "]"@);
    }
    if ascending(numbers) {
        lemma_in_order(numbers);
        assert(bracketed(numbers).subrange(1, bracketed(numbers).len() - 1) =~= commas(numbers));
    }
}

} // verus!
