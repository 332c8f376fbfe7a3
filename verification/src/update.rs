//! Assembling a batch update: the rows that were fetched take new values,
//! and one statement writes them all, handed the ids and the values as two
//! arrays of equal length.

use vstd::prelude::*;
use crate::model::{ids_of, in_domain, numbers_of, World};
use crate::sampling::Sampler;

verus! {

/// The rows `worlds` with `numbers` for their values, one for one.
pub open spec fn renumbered(worlds: Seq<World>, numbers: Seq<i32>) -> Seq<World> {
    Seq::new(worlds.len(), |i: int| World { id: worlds[i].id, randomnumber: numbers[i] })
}

/// A batch update ready to be sent: the rows as they will read once the
/// statement has run, and the two arrays the statement takes.
pub struct UpdateBatch {
    pub worlds: Vec<World>,
    pub ids: Vec<i32>,
    pub randomnumbers: Vec<i32>,
}

impl UpdateBatch {
    /// The arrays name each row's id and value at the row's own position, so
    /// no value can reach the row of another id.
    pub open spec fn paired(self) -> bool {
        &&& self.ids@ == ids_of(self.worlds@)
        &&& self.randomnumbers@ == numbers_of(self.worlds@)
    }

    /// Gives each of `worlds` the value at its position in `numbers`.
    pub fn assign(worlds: Vec<World>, numbers: Vec<i32>) -> (batch: UpdateBatch)
        requires
            worlds@.len() == numbers@.len(),
        ensures
            batch.worlds@ == renumbered(worlds@, numbers@),
            batch.ids@ == ids_of(worlds@),
            batch.randomnumbers@ == numbers@,
            batch.paired(),
    {
        let count: usize = worlds.len();
        let mut updated: Vec<World> = Vec::with_capacity(count);
        let mut ids: Vec<i32> = Vec::with_capacity(count);
        let mut i: usize = 0;
        while i < count
            invariant
                i <= count,
                count == worlds@.len(),
                count == numbers@.len(),
                updated@.len() == i,
                ids@.len() == i,
                forall|j: int|
                    0 <= j < i ==> #[trigger] updated@[j] == (World {
                        id: worlds@[j].id,
                        randomnumber: numbers@[j],
                    }),
                forall|j: int| 0 <= j < i ==> #[trigger] ids@[j] == worlds@[j].id,
            decreases count - i,
        {
            let world: World = worlds[i];
            updated.push(world.with_randomnumber(numbers[i]));
            ids.push(world.id);
            i = i + 1;
        }
        let batch = UpdateBatch { worlds: updated, ids, randomnumbers: numbers };
        proof {
            assert(batch.ids@ =~= ids_of(batch.worlds@));
            assert(batch.randomnumbers@ =~= numbers_of(batch.worlds@));
        }
        batch
    }

    /// Gives each of `worlds` a new value drawn from the domain.
    pub fn randomize(worlds: Vec<World>, sampler: &mut Sampler) -> (batch: UpdateBatch)
        ensures
            batch.worlds@ == renumbered(worlds@, batch.randomnumbers@),
            batch.ids@ == ids_of(worlds@),
            batch.randomnumbers@.len() == worlds@.len(),
            forall|i: int|
                0 <= i < worlds@.len() ==> in_domain(#[trigger] batch.randomnumbers@[i] as int),
            batch.paired(),
    {
        let numbers: Vec<i32> = sampler.ids(worlds.len());
        UpdateBatch::assign(worlds, numbers)
    }

    /// How many rows the batch writes.
    pub fn len(&self) -> (len: usize)
        ensures
            len == self.worlds@.len(),
    {
        self.worlds.len()
    }
}

} // verus!
