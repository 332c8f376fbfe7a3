//! The rows the store holds.

use vstd::prelude::*;

verus! {

/// Smallest id of a `World` row.
pub const MIN_ID: i32 = 1;

/// Largest id of a `World` row.
pub const MAX_ID: i32 = 10000;

/// Whether `id` lies in the fixed domain of `World` ids.
pub open spec fn in_domain(id: int) -> bool {
    MIN_ID <= id <= MAX_ID
}

/// One row of the `world` table.
#[derive(Clone, Copy, Debug, PartialEq, Eq, Structural)]
pub struct World {
    pub id: i32,
    pub randomnumber: i32,
}

impl World {
    /// A row whose id lies in the domain of the table.
    pub open spec fn stored(self) -> bool {
        in_domain(self.id as int)
    }

    /// The row a lookup hands back, as plain values.
    pub fn new(id: i32, randomnumber: i32) -> (world: World)
        ensures
            world.id == id,
            world.randomnumber == randomnumber,
    {
        World { id, randomnumber }
    }

    /// The same row carrying `randomnumber` instead of its own.
    pub fn with_randomnumber(self, randomnumber: i32) -> (world: World)
        ensures
            world.id == self.id,
            world.randomnumber == randomnumber,
    {
        World { id: self.id, randomnumber }
    }
}

/// The ids of `worlds`, in order.
pub open spec fn ids_of(worlds: Seq<World>) -> Seq<i32> {
    Seq::new(worlds.len(), |i: int| worlds[i].id)
}

/// The values of `worlds`, in order.
pub open spec fn numbers_of(worlds: Seq<World>) -> Seq<i32> {
    Seq::new(worlds.len(), |i: int| worlds[i].randomnumber)
}

/// One row of the `fortune` table.
#[derive(Debug, PartialEq, Eq)]
pub struct Fortune {
    pub id: i32,
    pub message: String,
}

impl Clone for Fortune {
    fn clone(&self) -> (copy: Fortune)
        ensures
            copy == *self,
    {
        Fortune { id: self.id, message: self.message.clone() }
    }
}

impl Fortune {
    /// The row a scan hands back, as plain values.
    pub fn new(id: i32, message: String) -> (fortune: Fortune)
        ensures
            fortune.id == id,
            fortune.message@ == message@,
    {
        Fortune { id, message }
    }
}

/// Checks that `id` lies in the domain of `World` ids.
pub fn is_world_id(id: i32) -> (yes: bool)
    ensures
        yes == in_domain(id as int),
{
    MIN_ID <= id && id <= MAX_ID
}

} // verus!
