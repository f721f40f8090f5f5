use vstd::prelude::*;

use rand::seq::SliceRandom;

use crate::image::{blank_image, block_of, BLOCK_COUNT, Image, ImageBlock};

verus! {

/// `perm` maps `[0, n)` one to one onto itself.
pub open spec fn is_permutation(perm: Seq<int>, n: nat) -> bool {
    &&& perm.len() == n
    &&& forall|i: int| 0 <= i < n ==> 0 <= #[trigger] perm[i] < n
    &&& forall|i: int, j: int| 0 <= i < n && 0 <= j < n && i != j ==> perm[i] != perm[j]
}

/// Puts `blocks` in a random order, with `SliceRandom::shuffle` of the
/// `rand` crate driven by the thread-local generator `rand::thread_rng`.
/// Claimed of it: the blocks afterwards are those of before, each once,
/// in some order. Which order comes out is not stated: it rests on chance.
#[verifier::external_body]
fn shuffle_blocks(blocks: &mut Vec<ImageBlock>)
    ensures
        final(blocks)@.len() == old(blocks)@.len(),
        exists|perm: Seq<int>|
            is_permutation(perm, old(blocks)@.len()) && forall|i: int|
                0 <= i < old(blocks)@.len() ==> #[trigger] final(blocks)@[i] == old(blocks)@[perm[i]],
{
    blocks.shuffle(&mut rand::thread_rng());
}

/// Sizes the image anew (creating it on first use), blacks it out, and
/// returns every block of its grid, each once, in a random order: the job
/// queue that the render workers take blocks from.
pub fn prepare_jobs(image: &mut Option<Image>, width: u16, height: u16) -> (jobs: Vec<ImageBlock>)
    ensures
        *final(image) is Some,
        (*final(image))->0@ == blank_image(width as nat, height as nat),
        jobs@.len() == BLOCK_COUNT,
        exists|perm: Seq<int>|
            is_permutation(perm, BLOCK_COUNT as nat) && forall|i: int|
                0 <= i < BLOCK_COUNT ==> (#[trigger] jobs@[i])@ == block_of(
                    (*final(image))->0@,
                    perm[i] as nat,
                ),
{
    let img = match image.take() {
        None => Image::new(width, height),
        Some(mut img) => {
            img.resize(width, height);
            img
        },
    };
    let mut jobs = img.make_blocks();
    let ghost ordered = jobs@;
    shuffle_blocks(&mut jobs);
    let ghost perm = choose|perm: Seq<int>|
        is_permutation(perm, ordered.len()) && forall|i: int|
            0 <= i < ordered.len() ==> #[trigger] jobs@[i] == ordered[perm[i]];
    assert forall|i: int| 0 <= i < BLOCK_COUNT implies (#[trigger] jobs@[i])@ == block_of(
        img@,
        perm[i] as nat,
    ) by {
        assert(jobs@[i] == ordered[perm[i]]);
    }
    *image = Some(img);
    jobs
}

/// The block a render worker should take next: the last one in the queue,
/// removed from it, while the blocks are valid (`slices_valid`); nothing,
/// and the queue left as it is, when they are not or the queue is empty.
pub fn next_job(slices_valid: bool, pool: &mut Vec<ImageBlock>) -> (job: Option<ImageBlock>)
    ensures
        slices_valid && old(pool)@.len() > 0 ==> job == Some(old(pool)@.last()) && final(pool)@
            == old(pool)@.drop_last(),
        !(slices_valid && old(pool)@.len() > 0) ==> job is None && final(pool)@ == old(pool)@,
{
    if slices_valid {
        pool.pop()
    } else {
        None
    }
}

} // verus!
