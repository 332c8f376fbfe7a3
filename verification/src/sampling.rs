//! Drawing the ids and the new values of a request. Every call seeds a small
//! generator of its own, so calls share nothing.

use vstd::prelude::*;
use crate::error::DispatchError;
use crate::model::{in_domain, MAX_ID, MIN_ID};

verus! {

/// The generator of the `rand` crate. Nothing inside is read here.
#[verifier::external_type_specification]
#[verifier::external_body]
pub struct ExSmallRng(rand::rngs::SmallRng);

/// The error of the `rand` crate. Nothing inside is read here.
#[verifier::external_type_specification]
#[verifier::external_body]
pub struct ExRngError(rand::Error);

/// The handle of the `rand` crate to the generator of the calling thread.
/// Nothing inside is read here.
#[verifier::external_type_specification]
#[verifier::external_body]
pub struct ExThreadRng(rand::rngs::ThreadRng);

/// Calls `rand::thread_rng`: the handle to the generator of the calling
/// thread. That generator is seeded by the operating system on first use,
/// and `rand` panics there if the system has no seed to give. Nothing is
/// claimed of the handle.
#[verifier::external_body]
fn thread_generator() -> (parent: rand::rngs::ThreadRng) {
    rand::thread_rng()
}

/// Calls `SmallRng::from_rng`: a fresh generator seeded from `parent`, or
/// the error of the seeding. What comes back depends on what `parent` hands
/// out, so nothing is claimed of it.
#[verifier::external_body]
fn seed_from(parent: rand::rngs::ThreadRng) -> (seeded: Result<rand::rngs::SmallRng, rand::Error>) {
    <rand::rngs::SmallRng as rand::SeedableRng>::from_rng(parent)
}

/// Calls `Rng::gen_range` with the half-open range `low..high`, which the
/// crate rejects with a panic when it is empty. Which number comes back is
/// up to the generator; it lies in the range.
#[verifier::external_body]
fn draw_between(rng: &mut rand::rngs::SmallRng, low: i32, high: i32) -> (drawn: i32)
    requires
        low < high,
    ensures
        low <= drawn < high,
{
    rand::Rng::gen_range(rng, low..high)
}

/// A source of ids and values, uniform over the domain of `World` ids.
pub struct Sampler {
    rng: rand::rngs::SmallRng,
}

impl Sampler {
    /// The generator the sampler draws from.
    pub closed spec fn generator(self) -> rand::rngs::SmallRng {
        self.rng
    }

    /// The sampler around a freshly seeded generator, or the error when the
    /// seeding failed.
    pub fn from_seeding(seeded: Result<rand::rngs::SmallRng, rand::Error>) -> (sampler: Result<
        Sampler,
        DispatchError,
    >)
        ensures
            match seeded {
                Ok(rng) => sampler.is_ok() && sampler.unwrap().generator() == rng,
                Err(_) => sampler == Err::<Sampler, DispatchError>(DispatchError::Entropy),
            },
    {
        match seeded {
            Ok(rng) => Ok(Sampler { rng }),
            Err(_) => Err(DispatchError::Entropy),
        }
    }

    /// A sampler for one call.
    pub fn new() -> (sampler: Result<Sampler, DispatchError>)
        ensures
            sampler matches Err(e) ==> e == DispatchError::Entropy,
    {
        Sampler::from_seeding(seed_from(thread_generator()))
    }

    /// One id of the domain.
    pub fn id(&mut self) -> (id: i32)
        ensures
            in_domain(id as int),
    {
        draw_between(&mut self.rng, MIN_ID, MAX_ID + 1)
    }

    /// `count` ids of the domain, drawn one by one. The same id may come
    /// more than once.
    pub fn ids(&mut self, count: usize) -> (ids: Vec<i32>)
        ensures
            ids@.len() == count,
            forall|i: int| 0 <= i < count ==> in_domain(#[trigger] ids@[i] as int),
    {
        let mut ids: Vec<i32> = Vec::new();
        let mut drawn: usize = 0;
        while drawn < count
            invariant
                drawn <= count,
                ids@.len() == drawn,
                forall|i: int| 0 <= i < drawn ==> in_domain(#[trigger] ids@[i] as int),
            decreases count - drawn,
        {
            let id: i32 = self.id();
            ids.push(id);
            drawn = drawn + 1;
        }
        ids
    }
}

/// The id of a single fetch.
pub fn random_id() -> (id: Result<i32, DispatchError>)
    ensures
        id matches Ok(n) ==> in_domain(n as int),
        id matches Err(e) ==> e == DispatchError::Entropy,
{
    match Sampler::new() {
        Ok(mut sampler) => Ok(sampler.id()),
        Err(e) => Err(e),
    }
}

/// The ids of a fetch of `count` rows.
pub fn random_ids(count: usize) -> (ids: Result<Vec<i32>, DispatchError>)
    ensures
        ids matches Ok(v) ==> v@.len() == count && forall|i: int|
            0 <= i < count ==> in_domain(#[trigger] v@[i] as int),
        ids matches Err(e) ==> e == DispatchError::Entropy,
{
    match Sampler::new() {
        Ok(mut sampler) => Ok(sampler.ids(count)),
        Err(e) => Err(e),
    }
}

} // verus!
