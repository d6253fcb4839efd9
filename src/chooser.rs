use vstd::prelude::*;

use rand::rngs::StdRng;
use rand::seq::SliceRandom;
use rand::Rng;
use rand::SeedableRng;

use crate::catalog::catalog_wf;
use crate::tetrimino::TetriminoType;

verus! {

#[verifier::external_type_specification]
#[verifier::external_body]
pub struct ExStdRng(StdRng);

/// Relies on rand's `SeedableRng::from_seed` for `StdRng`: a generator whose output is
/// determined by the seed.
#[verifier::external_body]
fn rng_from_seed(seed: [u8; 32]) -> StdRng {
    StdRng::from_seed(seed)
}

/// Relies on rand's `SliceRandom::shuffle`, which only swaps entries: the result is a
/// permutation of the input.
#[verifier::external_body]
fn shuffle_with(v: &mut Vec<usize>, rng: &mut StdRng)
    ensures
        final(v)@.to_multiset() == old(v)@.to_multiset(),
        final(v)@.len() == old(v)@.len(),
{
    v.shuffle(rng)
}

/// Relies on rand's `Rng::gen::<usize>`: any value may come back.
#[verifier::external_body]
fn draw_usize(rng: &mut StdRng) -> usize {
    rng.gen::<usize>()
}

/// Largest number of piece types a catalog may hold.
pub const MAX_TYPES: usize = 1024;

/// The 32-byte seed made from `seed`: its first 32 bytes, padded with zeros.
pub open spec fn padded_seed_spec(seed: Seq<u8>) -> Seq<u8> {
    Seq::new(32, |i: int| if i < seed.len() { seed[i] } else { 0u8 })
}

/// The generator seed for `seed`: shorter seeds are padded with zeros, longer ones cut.
pub fn padded_seed(seed: &Vec<u8>) -> (r: [u8; 32])
    ensures
        r@ == padded_seed_spec(seed@),
{
    let mut a: [u8; 32] = [
        0u8, 0, 0, 0, 0, 0, 0, 0, 0, 0, 0, 0, 0, 0, 0, 0, 0, 0, 0, 0, 0, 0, 0, 0, 0, 0, 0, 0, 0, 0, 0, 0,
    ];
    let mut i: usize = 0;
    while i < 32
        invariant
            i <= 32,
            forall|k: int| 0 <= k < i ==> a@[k] == (if k < seed@.len() { seed@[k] } else { 0u8 }),
            forall|k: int| i <= k < 32 ==> a@[k] == 0u8,
        decreases 32 - i,
    {
        if i < seed.len() {
            a[i] = seed[i];
        }
        i += 1;
    }
    assert(a@ =~= padded_seed_spec(seed@));
    a
}

/// The indices `0..n`, in order.
pub open spec fn every_index(n: nat) -> Seq<usize> {
    Seq::new(n, |i: int| i as usize)
}

/// Picks piece types "bag" style: every type once, in a seeded random order, then again.
pub struct TetriminoChooser {
    current_bucket: Vec<usize>,
    tetrimino_types: Vec<TetriminoType>,
    seeded_rng: StdRng,
}

impl TetriminoChooser {
    pub open spec fn wf(&self) -> bool {
        &&& self.bucket_wf()
        &&& 1 <= self.types().len() <= MAX_TYPES
        &&& catalog_wf(self.types())
    }

    /// The pending bag holds only indices of known types.
    pub closed spec fn bucket_wf(&self) -> bool {
        forall|i: int| 0 <= i < self.current_bucket.len() ==> #[trigger] self.current_bucket@[i] < self.tetrimino_types.len()
    }

    pub closed spec fn types(&self) -> Seq<TetriminoType> {
        self.tetrimino_types@
    }

    /// The type indices left in the current bag; the next one handed out is the last.
    pub closed spec fn bucket(&self) -> Seq<usize> {
        self.current_bucket@
    }

    /// A chooser over `tetrimino_types`, seeded with zeros.
    pub fn new(tetrimino_types: Vec<TetriminoType>) -> (r: TetriminoChooser)
        requires
            1 <= tetrimino_types.len() <= MAX_TYPES,
            catalog_wf(tetrimino_types@),
        ensures
            r.wf(),
            r.types() == tetrimino_types@,
    {
        TetriminoChooser { current_bucket: Vec::new(), tetrimino_types, seeded_rng: rng_from_seed([0; 32]) }
    }

    /// Restarts the random order from `seed`, padded or cut to 32 bytes.
    pub fn set_seed(&mut self, seed: Vec<u8>)
        requires
            old(self).wf(),
        ensures
            final(self).wf(),
            final(self).types() == old(self).types(),
    {
        self.seeded_rng = rng_from_seed(padded_seed(&seed));
    }

    pub fn get_tetrimino_types(&self) -> (r: &Vec<TetriminoType>)
        ensures
            r@ == self.types(),
    {
        &self.tetrimino_types
    }

    /// The next type of the bag, with its index; a new shuffled bag starts when one runs out.
    pub fn choose_tetrimino_type(&mut self) -> (r: (usize, TetriminoType))
        requires
            old(self).wf(),
        ensures
            final(self).wf(),
            final(self).types() == old(self).types(),
            r.0 < old(self).types().len(),
            r.1@ == old(self).types()[r.0 as int]@,
            old(self).bucket().len() > 0 ==> r.0 == old(self).bucket().last() && final(self).bucket()
                == old(self).bucket().drop_last(),
            old(self).bucket().len() == 0 ==> final(self).bucket().push(r.0).to_multiset() == every_index(
                old(self).types().len() as nat,
            ).to_multiset(),
    {
        if self.current_bucket.len() == 0 {
            let mut bucket: Vec<usize> = Vec::new();
            let mut i: usize = 0;
            while i < self.tetrimino_types.len()
                invariant
                    i <= self.tetrimino_types.len(),
                    bucket.len() == i,
                    forall|k: int| 0 <= k < i ==> #[trigger] bucket@[k] == k,
                decreases self.tetrimino_types.len() - i,
            {
                bucket.push(i);
                i += 1;
            }
            let ghost before = bucket@;
            assert(before =~= every_index(self.tetrimino_types.len() as nat));
            shuffle_with(&mut bucket, &mut self.seeded_rng);
            proof {
                assert forall|k: int| 0 <= k < bucket.len() implies #[trigger] bucket@[k] < self.tetrimino_types.len() by {
                    vstd::seq_lib::to_multiset_contains(bucket@, bucket@[k]);
                    vstd::seq_lib::to_multiset_contains(before, bucket@[k]);
                    assert(bucket@.contains(bucket@[k]));
                }
            }
            self.current_bucket = bucket;
        }
        let ghost full = self.current_bucket@;
        let index = self.current_bucket.pop().unwrap();
        proof {
            assert(full =~= self.current_bucket@.push(index));
        }
        (index, self.tetrimino_types[index].copy())
    }

    /// A random number from the seeded generator.
    pub fn random_usize(&mut self) -> (r: usize)
        requires
            old(self).wf(),
        ensures
            final(self).wf(),
            final(self).types() == old(self).types(),
    {
        draw_usize(&mut self.seeded_rng)
    }
}

} // verus!
