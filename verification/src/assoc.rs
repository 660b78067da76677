//! Association-list model shared by the lookup tables.
//!
//! A table is a sequence of key/value pairs read as a map in which a
//! later pair with the same key wins over an earlier one.

use vstd::prelude::*;

verus! {

/// Byte-wise equality of two byte strings.
pub fn bytes_eq(a: &[u8], b: &[u8]) -> (r: bool)
    ensures
        r == (a@ == b@),
{
    if a.len() != b.len() {
        return false;
    }
    for i in 0..a.len()
        invariant
            a@.len() == b@.len(),
            i <= a@.len(),
            forall|j: int| 0 <= j < i ==> a@[j] == b@[j],
    {
        if *vstd::slice::slice_index_get(a, i) != *vstd::slice::slice_index_get(b, i) {
            return false;
        }
    }
    proof {
        assert(a@ =~= b@);
    }
    true
}

/// The map that a pair sequence denotes: each pair is inserted in order,
/// so a later pair with the same key wins.
pub open spec fn map_of<V>(es: Seq<(Seq<u8>, V)>) -> Map<Seq<u8>, V>
    decreases es.len(),
{
    if es.len() == 0 {
        Map::empty()
    } else {
        map_of(es.drop_last()).insert(es.last().0, es.last().1)
    }
}

/// Reading one more pair of the sequence inserts exactly that pair.
pub proof fn lemma_map_of_take_step<V>(es: Seq<(Seq<u8>, V)>, i: int)
    requires
        0 <= i < es.len(),
    ensures
        map_of(es.take(i + 1)) == map_of(es.take(i)).insert(es[i].0, es[i].1),
{
    assert(es.take(i + 1).drop_last() =~= es.take(i));
    assert(es.take(i + 1).last() == es[i]);
}

/// A key is in the table's map exactly when some pair of the sequence
/// carries it: reading a pair sequence as a map adds no key of its own.
pub proof fn lemma_map_of_contains<V>(es: Seq<(Seq<u8>, V)>, k: Seq<u8>)
    ensures
        map_of(es).dom().contains(k) <==> exists|i: int|
            0 <= i < es.len() && (#[trigger] es[i]).0 == k,
    decreases es.len(),
{
    if es.len() > 0 {
        let front = es.drop_last();
        lemma_map_of_contains(front, k);
        if es.last().0 == k {
            assert(es[es.len() - 1].0 == k);
        } else {
            if exists|i: int| 0 <= i < es.len() && (#[trigger] es[i]).0 == k {
                let i = choose|i: int| 0 <= i < es.len() && (#[trigger] es[i]).0 == k;
                assert(front[i] == es[i]);
            }
            if exists|i: int| 0 <= i < front.len() && (#[trigger] front[i]).0 == k {
                let i = choose|i: int| 0 <= i < front.len() && (#[trigger] front[i]).0 == k;
                assert(es[i] == front[i]);
            }
        }
    }
}

} // verus!
