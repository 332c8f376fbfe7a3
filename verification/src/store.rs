//! The `world` table as the batch statement sees it. Nothing here runs: the
//! table is a map from id to value, and the statement is read as its text
//! says, every row whose id is listed takes the value listed beside it.

use vstd::prelude::*;
use crate::model::{ids_of, numbers_of, World};

verus! {

/// The table once the batch statement has run with `ids` and `numbers` for
/// its two arrays. A row whose id is not listed keeps its value, and an id
/// without a row writes nothing. Where an id is listed more than once the
/// text of the statement does not say which of its values the row takes;
/// this takes one of them.
pub open spec fn written(table: Map<i32, i32>, ids: Seq<i32>, numbers: Seq<i32>) -> Map<i32, i32> {
    Map::new(
        |id: i32| table.contains_key(id),
        |id: i32|
            if ids.contains(id) {
                numbers[ids.index_of(id)]
            } else {
                table[id]
            },
    )
}

/// The table once the batch statement has written `worlds`.
pub open spec fn holding(table: Map<i32, i32>, worlds: Seq<World>) -> Map<i32, i32> {
    written(table, ids_of(worlds), numbers_of(worlds))
}

/// Whether no row of `a` has the id of a row of `b`.
pub open spec fn disjoint(a: Seq<World>, b: Seq<World>) -> bool {
    forall|i: int, j: int| 0 <= i < a.len() && 0 <= j < b.len() ==> a[i].id != b[j].id
}

/// After a batch of rows with different ids, each row written reads back
/// with the value it was returned with, every other row reads as before, and
/// no row has appeared or gone.
pub proof fn lemma_batch_reads_back(table: Map<i32, i32>, worlds: Seq<World>)
    requires
        ids_of(worlds).no_duplicates(),
    ensures
        holding(table, worlds).dom() == table.dom(),
        forall|i: int|
            0 <= i < worlds.len() && table.contains_key(#[trigger] worlds[i].id) ==> holding(
                table,
                worlds,
            )[worlds[i].id] == worlds[i].randomnumber,
        forall|id: i32|
            table.contains_key(id) && !ids_of(worlds).contains(id) ==> #[trigger] holding(
                table,
                worlds,
            )[id] == table[id],
{
    let ids = ids_of(worlds);
    let after = holding(table, worlds);
    assert(after.dom() =~= table.dom());
    assert forall|i: int|
        0 <= i < worlds.len() && table.contains_key(#[trigger] worlds[i].id) implies after[worlds[i].id]
        == worlds[i].randomnumber by {
        let id = worlds[i].id;
        assert(ids[i] == id);
        let k = ids.index_of(id);
        assert(0 <= k < ids.len() && ids[k] == id);
    }
}

/// Two batches that share no id can be written in either order: the table
/// ends the same, and every row of either batch reads back with the value it
/// was returned with.
pub proof fn lemma_disjoint_batches_commute(table: Map<i32, i32>, a: Seq<World>, b: Seq<World>)
    requires
        ids_of(a).no_duplicates(),
        ids_of(b).no_duplicates(),
        disjoint(a, b),
    ensures
        holding(holding(table, a), b) == holding(holding(table, b), a),
        forall|i: int|
            0 <= i < a.len() && table.contains_key(#[trigger] a[i].id) ==> holding(
                holding(table, a),
                b,
            )[a[i].id] == a[i].randomnumber,
        forall|j: int|
            0 <= j < b.len() && table.contains_key(#[trigger] b[j].id) ==> holding(
                holding(table, a),
                b,
            )[b[j].id] == b[j].randomnumber,
{
    let ab = holding(holding(table, a), b);
    let ba = holding(holding(table, b), a);
    lemma_batch_reads_back(table, a);
    lemma_batch_reads_back(table, b);
    lemma_batch_reads_back(holding(table, a), b);
    lemma_batch_reads_back(holding(table, b), a);
    assert forall|i: int| 0 <= i < a.len() implies !ids_of(b).contains(#[trigger] a[i].id) by {
        if ids_of(b).contains(a[i].id) {
            let j = choose|j: int| 0 <= j < ids_of(b).len() && ids_of(b)[j] == a[i].id;
            assert(b[j].id == a[i].id);
        }
    }
    assert forall|j: int| 0 <= j < b.len() implies !ids_of(a).contains(#[trigger] b[j].id) by {
        if ids_of(a).contains(b[j].id) {
            let i = choose|i: int| 0 <= i < ids_of(a).len() && ids_of(a)[i] == b[j].id;
            assert(a[i].id == b[j].id);
        }
    }
    assert forall|id: i32| ab.contains_key(id) implies #[trigger] ab[id] == ba[id] by {
        if ids_of(a).contains(id) {
            let i = choose|i: int| 0 <= i < ids_of(a).len() && ids_of(a)[i] == id;
            assert(a[i].id == id);
        } else if ids_of(b).contains(id) {
            let j = choose|j: int| 0 <= j < ids_of(b).len() && ids_of(b)[j] == id;
            assert(b[j].id == id);
        }
    }
}

} // verus!
