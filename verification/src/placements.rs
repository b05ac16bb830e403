//! How often the buckets of an allocator were used, as far as the names of its
//! allocations tell.
//!
//! The allocator counts in 16 bits, and says of each count only the low 12 bits.
//! What is kept here is never less than the allocator's own count, so that an
//! allocator can be left alone before it would count too far.
use etagere::BucketedAtlasAllocator;
use vstd::prelude::*;

use crate::allocator::{bucket_of, place_of, placed};
use crate::atlas_types::TileId;

verus! {

/// The count of a bucket. A bucket that was never seen has the count 0.
pub open spec fn count_of(counts: Seq<u16>, bucket: int) -> int {
    if 0 <= bucket < counts.len() {
        counts[bucket] as int
    } else {
        0
    }
}

/// True if no count is at its end.
pub open spec fn can_grow(counts: Seq<u16>) -> bool {
    forall|bucket: int| 0 <= bucket < counts.len() ==> #[trigger] counts[bucket] < u16::MAX
}

/// The count of a bucket once it has granted the allocation `id`: one more, or
/// 1 if the name shows that the bucket has started anew.
pub open spec fn next_count(counts: Seq<u16>, id: TileId) -> int {
    let next = count_of(counts, bucket_of(id) as int) + 1;
    if next % 4096 == place_of(id) {
        next
    } else {
        1
    }
}

/// True if the counts became `post` when the allocation `id` was noted.
pub open spec fn notes(counts: Seq<u16>, post: Seq<u16>, id: TileId) -> bool {
    &&& post.len() == (if bucket_of(id) < counts.len() {
        counts.len() as int
    } else {
        bucket_of(id) + 1
    })
    &&& post[bucket_of(id) as int] == next_count(counts, id)
    &&& forall|bucket: int|
        0 <= bucket < post.len() && bucket != bucket_of(id) ==> #[trigger] post[bucket] == count_of(
            counts,
            bucket,
        )
}

/// True if no count is less than the allocator's own, and the two agree in the
/// bits that names show, but for buckets that have started anew.
pub open spec fn bounds_placed(counts: Seq<u16>, allocator: BucketedAtlasAllocator) -> bool {
    forall|bucket: u32| #[trigger]
        placed(allocator).contains_key(bucket) ==> placed(allocator)[bucket] == 0 || (
        placed(allocator)[bucket] <= count_of(counts, bucket as int) && (count_of(
            counts,
            bucket as int,
        ) - placed(allocator)[bucket]) % 4096 == 0)
}

/// A count for every bucket that was seen.
pub struct Placements {
    counts: Vec<u16>,
}

impl View for Placements {
    type V = Seq<u16>;

    closed spec fn view(&self) -> Seq<u16> {
        self.counts@
    }
}

impl Placements {
    /// No bucket was seen.
    pub fn new() -> (placements: Self)
        ensures
            placements@ == Seq::<u16>::empty(),
    {
        Placements { counts: Vec::new() }
    }

    /// Tells whether no count is at its end.
    pub fn can_grow(&self) -> (grows: bool)
        ensures
            grows == can_grow(self@),
    {
        let mut i: usize = 0;
        while i < self.counts.len()
            invariant
                i <= self.counts@.len(),
                forall|j: int| 0 <= j < i ==> #[trigger] self.counts@[j] < u16::MAX,
            decreases self.counts@.len() - i,
        {
            if self.counts[i] == u16::MAX {
                return false;
            }
            i += 1;
        }
        true
    }

    /// Notes that an allocation was granted.
    pub fn note(&mut self, id: TileId)
        requires
            can_grow(old(self)@),
        ensures
            notes(old(self)@, final(self)@, id),
    {
        let ghost pre = self@;
        let bucket: usize = (id.0 % 4096) as usize;
        let place: u32 = (id.0 / 4096) % 4096;
        while self.counts.len() <= bucket
            invariant
                pre.len() <= self.counts@.len(),
                self.counts@.len() == pre.len() || self.counts@.len() <= bucket + 1,
                forall|j: int| 0 <= j < self.counts@.len() ==> #[trigger] self.counts@[j] == count_of(
                    pre,
                    j,
                ),
            decreases bucket + 1 - self.counts@.len(),
        {
            self.counts.push(0);
        }
        assert(self.counts@[bucket as int] < u16::MAX);
        let next: u16 = self.counts[bucket] + 1;
        self.counts[bucket] = if (next as u32) % 4096 == place {
            next
        } else {
            1
        };
    }
}

/// The counts stay right when an allocation is granted and noted.
pub(crate) proof fn lemma_noted_bounds(
    counts: Seq<u16>,
    post: Seq<u16>,
    before: BucketedAtlasAllocator,
    after: BucketedAtlasAllocator,
    id: TileId,
)
    requires
        bounds_placed(counts, before),
        notes(counts, post, id),
        placed(after).contains_key(bucket_of(id)),
        placed(after)[bucket_of(id)] == 1 || (placed(before).contains_key(bucket_of(id))
            && placed(after)[bucket_of(id)] == placed(before)[bucket_of(id)] + 1),
        placed(after)[bucket_of(id)] % 4096 == place_of(id),
        forall|bucket: u32| #[trigger]
            placed(after).contains_key(bucket) && bucket != bucket_of(id) ==> placed(
                after,
            )[bucket] == 0 || (placed(before).contains_key(bucket) && placed(after)[bucket]
                == placed(before)[bucket]),
    ensures
        bounds_placed(post, after),
{
    assert forall|bucket: u32| #[trigger] placed(after).contains_key(bucket) implies placed(
        after,
    )[bucket] == 0 || (placed(after)[bucket] <= count_of(post, bucket as int) && (count_of(
        post,
        bucket as int,
    ) - placed(after)[bucket]) % 4096 == 0) by {
        if bucket != bucket_of(id) && placed(after)[bucket] != 0 {
            assert(placed(before).contains_key(bucket));
            assert(count_of(post, bucket as int) == count_of(counts, bucket as int));
        }
    }
}

/// Counts that can grow belong to an allocator that can count on.
pub(crate) proof fn lemma_bounded_can_grow(counts: Seq<u16>, allocator: BucketedAtlasAllocator)
    requires
        bounds_placed(counts, allocator),
        can_grow(counts),
    ensures
        forall|bucket: u32| #[trigger]
            placed(allocator).contains_key(bucket) ==> placed(allocator)[bucket] < 65535,
{
    assert forall|bucket: u32| #[trigger] placed(allocator).contains_key(bucket) implies placed(
        allocator,
    )[bucket] < 65535 by {
        assert(count_of(counts, bucket as int) < 65535);
    }
}

} // verus!
