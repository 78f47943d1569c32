//! Count-prefixed runs of records, and the maps they fill.

use vstd::prelude::*;

use crate::error::Error;

verus! {

/// What reading `count` records one after another gives, the first at `pos`
/// and each further one where the one before it ended: the records in the
/// order read and the position after the last, or the error of the first
/// record that fails. `item` says what reading one record at a position
/// gives.
pub open spec fn spec_repeat<T>(
    item: spec_fn(int) -> Result<(T, int), Error>,
    pos: int,
    count: nat,
) -> Result<(Seq<T>, int), Error>
    decreases count,
{
    if count == 0 {
        Ok((Seq::empty(), pos))
    } else {
        match spec_repeat(item, pos, (count - 1) as nat) {
            Err(e) => Err(e),
            Ok((items, next)) => match item(next) {
                Err(e) => Err(e),
                Ok((last, end)) => Ok((items.push(last), end)),
            },
        }
    }
}

/// The map that inserting `pairs` in order into an empty map gives: of two
/// pairs with one key, the later one stays.
pub open spec fn spec_collect<V>(pairs: Seq<(Seq<char>, V)>) -> Map<Seq<char>, V>
    decreases pairs.len(),
{
    if pairs.len() == 0 {
        Map::empty()
    } else {
        spec_collect(pairs.drop_last()).insert(pairs.last().0, pairs.last().1)
    }
}

/// A run that fails after `done` records fails in the same way however many
/// more records are asked for.
pub proof fn lemma_repeat_error_stays<T>(
    item: spec_fn(int) -> Result<(T, int), Error>,
    pos: int,
    done: nat,
    count: nat,
)
    requires
        done <= count,
        spec_repeat(item, pos, done) is Err,
    ensures
        spec_repeat(item, pos, count) == spec_repeat(item, pos, done),
    decreases count,
{
    if done < count {
        lemma_repeat_error_stays(item, pos, done, (count - 1) as nat);
    }
}

/// Reading one record at `at` succeeds and gives `record`.
pub open spec fn yields<T>(
    item: spec_fn(int) -> Result<(T, int), Error>,
    at: int,
    record: T,
) -> bool {
    item(at) matches Ok((found, _)) && found == record
}

/// Reading one record gives `record` at some position.
pub open spec fn comes_from<T>(item: spec_fn(int) -> Result<(T, int), Error>, record: T) -> bool {
    exists|at: int| #[trigger] yields(item, at, record)
}

/// Every record of a run that succeeds is what `item` gives at some
/// position, and there are as many records as were asked for.
pub proof fn lemma_repeat_items<T>(
    item: spec_fn(int) -> Result<(T, int), Error>,
    pos: int,
    count: nat,
    items: Seq<T>,
    end: int,
)
    requires
        spec_repeat(item, pos, count) == Ok::<(Seq<T>, int), Error>((items, end)),
    ensures
        items.len() == count,
        forall|i: int| 0 <= i < items.len() ==> comes_from(item, #[trigger] items[i]),
    decreases count,
{
    if count > 0 {
        let before = spec_repeat(item, pos, (count - 1) as nat);
        let (head, at) = before->Ok_0;
        lemma_repeat_items(item, pos, (count - 1) as nat, head, at);
        assert forall|i: int| 0 <= i < items.len() implies comes_from(
            item,
            #[trigger] items[i],
        ) by {
            if i < head.len() {
                assert(items[i] == head[i]);
            } else {
                assert(yields(item, at, items[i]));
            }
        }
    }
}

/// Every value of the map that `pairs` fill came in as one of the pairs,
/// under its key.
pub proof fn lemma_collect_from_pairs<V>(pairs: Seq<(Seq<char>, V)>, key: Seq<char>)
    requires
        spec_collect(pairs).contains_key(key),
    ensures
        exists|i: int|
            0 <= i < pairs.len() && #[trigger] pairs[i] == (key, spec_collect(pairs)[key]),
    decreases pairs.len(),
{
    if pairs.len() > 0 {
        if pairs.last().0 == key {
            assert(pairs[pairs.len() - 1] == (key, spec_collect(pairs)[key]));
        } else {
            lemma_collect_from_pairs(pairs.drop_last(), key);
            let i = choose|i: int|
                0 <= i < pairs.drop_last().len() && #[trigger] pairs.drop_last()[i] == (
                    key,
                    spec_collect(pairs.drop_last())[key],
                );
            assert(pairs[i] == pairs.drop_last()[i]);
        }
    }
}

/// Adding a pair at the end of `pairs` inserts it into the map they fill.
pub proof fn lemma_collect_push<V>(pairs: Seq<(Seq<char>, V)>, key: Seq<char>, value: V)
    ensures
        spec_collect(pairs.push((key, value))) == spec_collect(pairs).insert(key, value),
{
    assert(pairs.push((key, value)).drop_last() =~= pairs);
}

/// Of the pairs with one key, the last decides what the map holds under
/// that key.
pub proof fn lemma_collect_last_wins<V>(pairs: Seq<(Seq<char>, V)>, last: int)
    requires
        0 <= last < pairs.len(),
        forall|i: int| last < i < pairs.len() ==> (#[trigger] pairs[i]).0 != pairs[last].0,
    ensures
        spec_collect(pairs).contains_key(pairs[last].0),
        spec_collect(pairs)[pairs[last].0] == pairs[last].1,
    decreases pairs.len(),
{
    if last < pairs.len() - 1 {
        let head = pairs.drop_last();
        assert(head[last] == pairs[last]);
        assert forall|i: int| last < i < head.len() implies (#[trigger] head[i]).0
            != head[last].0 by {
            assert(head[i] == pairs[i]);
        }
        lemma_collect_last_wins(head, last);
        assert(pairs[pairs.len() - 1].0 != pairs[last].0);
    }
}

} // verus!
