//! Ordered name/value lists in which no name occurs twice: the model
//! behind header maps and parameter maps.

use vstd::prelude::*;

verus! {

/// A list of names with their values, as text.
pub type Pairs = Seq<(Seq<char>, Seq<char>)>;

/// The position of the first pair named `name`, or the length of the list
/// if there is none.
pub open spec fn index_of(pairs: Pairs, name: Seq<char>) -> int
    decreases pairs.len(),
{
    if pairs.len() == 0 || pairs[0].0 == name {
        0
    } else {
        1 + index_of(pairs.drop_first(), name)
    }
}

/// The value listed under `name`, if any.
pub open spec fn value_of(pairs: Pairs, name: Seq<char>) -> Option<Seq<char>> {
    let i = index_of(pairs, name);
    if i < pairs.len() {
        Some(pairs[i].1)
    } else {
        None
    }
}

/// The list with `value` under `name`: in place of the value that `name` had,
/// or as a new last pair.
pub open spec fn put(pairs: Pairs, name: Seq<char>, value: Seq<char>) -> Pairs {
    let i = index_of(pairs, name);
    if i < pairs.len() {
        pairs.update(i, (name, value))
    } else {
        pairs.push((name, value))
    }
}

/// No name occurs twice.
pub open spec fn distinct(pairs: Pairs) -> bool {
    forall|i: int, j: int|
        0 <= i < j < pairs.len() ==> (#[trigger] pairs[i]).0 != (#[trigger] pairs[j]).0
}

/// `index_of` finds the first pair with the name, and only such a pair.
pub proof fn lemma_index_of(pairs: Pairs, name: Seq<char>)
    ensures
        0 <= index_of(pairs, name) <= pairs.len(),
        forall|k: int| 0 <= k < index_of(pairs, name) ==> (#[trigger] pairs[k]).0 != name,
        index_of(pairs, name) < pairs.len() ==> pairs[index_of(pairs, name)].0 == name,
    decreases pairs.len(),
{
    if pairs.len() == 0 || pairs[0].0 == name {
    } else {
        let rest = pairs.drop_first();
        lemma_index_of(rest, name);
        assert forall|k: int| 0 <= k < index_of(pairs, name) implies (#[trigger] pairs[k]).0
            != name by {
            if k > 0 {
                assert(pairs[k] == rest[k - 1]);
            }
        }
        if index_of(rest, name) < rest.len() {
            assert(pairs[index_of(pairs, name)] == rest[index_of(rest, name)]);
        }
    }
}

/// A position that holds the name, with no earlier one, is what `index_of`
/// returns; and a list without the name gives its length.
pub proof fn lemma_index_of_is(pairs: Pairs, name: Seq<char>, i: int)
    requires
        0 <= i <= pairs.len(),
        forall|k: int| 0 <= k < i ==> (#[trigger] pairs[k]).0 != name,
        i < pairs.len() ==> pairs[i].0 == name,
    ensures
        index_of(pairs, name) == i,
{
    lemma_index_of(pairs, name);
    let j = index_of(pairs, name);
    if j < i {
        assert(pairs[j].0 != name);
    }
}

/// After `put`, the name has the new value, every other name keeps its own,
/// and names stay distinct.
pub proof fn lemma_put(pairs: Pairs, name: Seq<char>, value: Seq<char>)
    ensures
        value_of(put(pairs, name, value), name) == Some(value),
        forall|other: Seq<char>|
            other != name ==> #[trigger] value_of(put(pairs, name, value), other) == value_of(
                pairs,
                other,
            ),
        distinct(pairs) ==> distinct(put(pairs, name, value)),
        put(pairs, name, value).len() == if value_of(pairs, name) is Some {
            pairs.len()
        } else {
            pairs.len() + 1
        },
{
    let i = index_of(pairs, name);
    let after = put(pairs, name, value);
    lemma_index_of(pairs, name);
    lemma_index_of_is(after, name, i);
    assert forall|other: Seq<char>| other != name implies #[trigger] value_of(after, other)
        == value_of(pairs, other) by {
        let j = index_of(pairs, other);
        lemma_index_of(pairs, other);
        assert forall|k: int| 0 <= k < j implies (#[trigger] after[k]).0 != other by {
            assert(pairs[k].0 != other);
        }
        if j < pairs.len() {
            assert(j != i);
            lemma_index_of_is(after, other, j);
        } else {
            lemma_index_of_is(after, other, after.len() as int);
        }
    }
    if distinct(pairs) {
        assert forall|a: int, b: int| 0 <= a < b < after.len() implies (#[trigger] after[a]).0 != (
        #[trigger] after[b]).0 by {
            if i < pairs.len() {
                assert(pairs[a].0 != pairs[b].0);
                if a == i {
                    assert(pairs[i].0 == name);
                } else if b == i {
                    assert(pairs[i].0 == name);
                }
            } else {
                if b == pairs.len() {
                    assert(pairs[a].0 != name);
                } else {
                    assert(pairs[a].0 != pairs[b].0);
                }
            }
        }
    }
}

} // verus!
