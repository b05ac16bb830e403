//! Packing of rectangles into a texture, done by `etagere`.
//!
//! The packing algorithm is `etagere`'s. This file says what the atlas relies
//! on: where rectangles may lie, and when one is found.
use etagere::BucketedAtlasAllocator;
use vstd::prelude::*;
use vstd::set_lib::set_int_range;

use crate::atlas_types::TileId;
use crate::geometry::{DevicePixels, Point, Size};

verus! {

/// `etagere`'s bucketed shelf allocator, opaque to the verifier.
#[verifier::external_type_specification]
#[verifier::external_body]
pub struct ExBucketedAtlasAllocator(BucketedAtlasAllocator);

/// The pixels from `min` up to, and without, `max`.
#[derive(Clone, Copy, Debug, PartialEq, Eq, Structural)]
pub struct Rectangle {
    pub min: Point,
    pub max: Point,
}

/// A rectangle and the name by which it is given back.
#[derive(Clone, Copy, Debug, PartialEq, Eq, Structural)]
pub struct Allocation {
    pub id: TileId,
    pub rectangle: Rectangle,
}

impl Rectangle {
    /// True of a rectangle of at least one pixel that lies within a surface of size `extent`.
    pub open spec fn lies_within(self, extent: Size) -> bool {
        &&& 0 <= self.min.x.0 < self.max.x.0 <= extent.width.0
        &&& 0 <= self.min.y.0 < self.max.y.0 <= extent.height.0
    }

    /// True of two rectangles that share no pixel.
    pub open spec fn disjoint(self, other: Rectangle) -> bool {
        ||| self.max.x.0 <= other.min.x.0
        ||| other.max.x.0 <= self.min.x.0
        ||| self.max.y.0 <= other.min.y.0
        ||| other.max.y.0 <= self.min.y.0
    }
}

/// The rectangles that an allocator has handed out and not taken back.
pub uninterp spec fn allocated(allocator: BucketedAtlasAllocator) -> Map<TileId, Rectangle>;

/// The size of the surface that an allocator was made for.
pub uninterp spec fn extent(allocator: BucketedAtlasAllocator) -> Size;

/// What an allocator answers when it is asked for a rectangle of a size.
pub uninterp spec fn answer(allocator: BucketedAtlasAllocator, size: Size) -> Option<Allocation>;

/// How many rectangles an allocator has placed in each bucket since the shelf of
/// the bucket was made.
pub uninterp spec fn placed(allocator: BucketedAtlasAllocator) -> Map<u32, nat>;

/// The bucket that a rectangle lies in: the low 12 bits of its name.
pub open spec fn bucket_of(id: TileId) -> u32 {
    id.0 % 4096
}

/// The low 12 bits of how many rectangles the bucket had seen with this one:
/// the next 12 bits of its name.
pub open spec fn place_of(id: TileId) -> u32 {
    (id.0 / 4096) % 4096
}

/// The widest and tallest surface for which `etagere`'s own arithmetic (16 bit
/// coordinates, a 32 bit area) stays in range.
pub open spec fn extent_in_range(extent: Size) -> bool {
    1 <= extent.width.0 <= 32768 && 1 <= extent.height.0 <= 32768
}

/// Calls `etagere::BucketedAtlasAllocator::new`.
///
/// Claimed: the allocator covers a surface of the given size, with nothing
/// allocated and no bucket yet, and grants a first request for any size of at
/// least one pixel that fits the surface. `etagere` stops on a side of 65535 or
/// more.
#[verifier::external_body]
pub(crate) fn new_allocator(size: Size) -> (allocator: BucketedAtlasAllocator)
    requires
        extent_in_range(size),
    ensures
        extent(allocator) == size,
        forall|id: TileId| !(#[trigger] allocated(allocator).contains_key(id)),
        forall|bucket: u32| !(#[trigger] placed(allocator).contains_key(bucket)),
        forall|request: Size|
            request.covers_pixels() && request.fits_in(size) ==> (#[trigger] answer(
                allocator,
                request,
            )) is Some,
{
    BucketedAtlasAllocator::new(etagere::Size::new(size.width.0, size.height.0))
}

/// Calls `etagere::BucketedAtlasAllocator::allocate`.
///
/// Claimed: the answer depends on the allocator and the size alone, and a
/// refusal changes nothing. A size of no pixels, or one that does not fit the
/// surface, is refused. What is granted has a name that no rectangle at hand
/// has, is as wide as asked and at least as tall, lies within the surface and
/// shares no pixel with a rectangle at hand.
///
/// The rectangle is the next of its bucket, or the first if the bucket was just
/// made for a new shelf; its name tells the bucket and the low bits of the count.
/// Every other bucket keeps its count or was just made. `etagere` keeps each
/// count in 16 bits and does not test it on every path, so no bucket may have
/// reached 65535.
///
/// Which of the remaining requests are granted is `etagere`'s choice and is not
/// stated.
#[verifier::external_body]
pub(crate) fn allocate_rectangle(
    allocator: &mut BucketedAtlasAllocator,
    size: Size,
) -> (allocation: Option<Allocation>)
    requires
        extent_in_range(extent(*old(allocator))),
        forall|bucket: u32| #[trigger]
            placed(*old(allocator)).contains_key(bucket) ==> placed(*old(allocator))[bucket]
                < 65535,
    ensures
        allocation == answer(*old(allocator), size),
        extent(*final(allocator)) == extent(*old(allocator)),
        !(size.covers_pixels() && size.fits_in(extent(*old(allocator)))) ==> allocation is None,
        allocation is None ==> *final(allocator) == *old(allocator),
        allocation matches Some(a) ==> {
            &&& !allocated(*old(allocator)).contains_key(a.id)
            &&& allocated(*final(allocator)) == allocated(*old(allocator)).insert(
                a.id,
                a.rectangle,
            )
            &&& a.rectangle.lies_within(extent(*old(allocator)))
            &&& a.rectangle.max.x.0 - a.rectangle.min.x.0 == size.width.0
            &&& a.rectangle.max.y.0 - a.rectangle.min.y.0 >= size.height.0
            &&& forall|id: TileId| #[trigger]
                allocated(*old(allocator)).contains_key(id) ==> a.rectangle.disjoint(
                    allocated(*old(allocator))[id],
                )
        },
        allocation matches Some(a) ==> {
            &&& placed(*final(allocator)).contains_key(bucket_of(a.id))
            &&& placed(*final(allocator))[bucket_of(a.id)] == 1 || (placed(
                *old(allocator),
            ).contains_key(bucket_of(a.id)) && placed(*final(allocator))[bucket_of(a.id)]
                == placed(*old(allocator))[bucket_of(a.id)] + 1)
            &&& placed(*final(allocator))[bucket_of(a.id)] % 4096 == place_of(a.id)
            &&& forall|bucket: u32| #[trigger]
                placed(*final(allocator)).contains_key(bucket) && bucket != bucket_of(a.id)
                    ==> placed(*final(allocator))[bucket] == 0 || (placed(
                    *old(allocator),
                ).contains_key(bucket) && placed(*final(allocator))[bucket] == placed(
                    *old(allocator),
                )[bucket])
        },
{
    let granted = allocator.allocate(etagere::Size::new(size.width.0, size.height.0))?;
    let (min, max) = (granted.rectangle.min, granted.rectangle.max);
    Some(
        Allocation {
            id: TileId(granted.id.serialize()),
            rectangle: Rectangle {
                min: Point { x: DevicePixels(min.x), y: DevicePixels(min.y) },
                max: Point { x: DevicePixels(max.x), y: DevicePixels(max.y) },
            },
        },
    )
}

/// Calls `etagere::BucketedAtlasAllocator::deallocate`.
///
/// Claimed: the rectangle of that name is taken back and the others stay. The
/// counts of the buckets do not go down.
/// `etagere` stops on a name that it has not handed out or has taken back.
#[verifier::external_body]
pub(crate) fn deallocate_rectangle(allocator: &mut BucketedAtlasAllocator, id: TileId)
    requires
        allocated(*old(allocator)).contains_key(id),
    ensures
        extent(*final(allocator)) == extent(*old(allocator)),
        allocated(*final(allocator)) == allocated(*old(allocator)).remove(id),
        placed(*final(allocator)) == placed(*old(allocator)),
{
    allocator.deallocate(etagere::AllocId::deserialize(id.0))
}

/// True of an allocator whose rectangles lie within its surface and share no pixel.
pub open spec fn well_packed(allocator: BucketedAtlasAllocator) -> bool {
    &&& extent_in_range(extent(allocator))
    &&& allocated(allocator).dom().finite()
    &&& forall|id: TileId| #[trigger]
        allocated(allocator).contains_key(id) ==> allocated(allocator)[id].lies_within(
            extent(allocator),
        )
    &&& forall|a: TileId, b: TileId|
        #![trigger allocated(allocator).contains_key(a), allocated(allocator).contains_key(b)]
        allocated(allocator).contains_key(a) && allocated(allocator).contains_key(b) && a != b
            ==> allocated(allocator)[a].disjoint(allocated(allocator)[b])
}

/// The position of a rectangle's top left pixel when the surface is read row by row.
spec fn corner_index(rectangle: Rectangle, width: int) -> int {
    rectangle.min.y.0 * width + rectangle.min.x.0
}

proof fn lemma_corner_in_range(rectangle: Rectangle, extent: Size)
    requires
        rectangle.lies_within(extent),
    ensures
        0 <= corner_index(rectangle, extent.width.0 as int) < extent.width.0 * extent.height.0,
{
    let x = rectangle.min.x.0 as int;
    let y = rectangle.min.y.0 as int;
    let w = extent.width.0 as int;
    let h = extent.height.0 as int;
    assert(0 <= y * w + x < w * h) by (nonlinear_arith)
        requires
            0 <= x < w,
            0 <= y < h,
    ;
}

proof fn lemma_corners_differ(a: Rectangle, b: Rectangle, extent: Size)
    requires
        a.lies_within(extent),
        b.lies_within(extent),
        a.disjoint(b),
    ensures
        corner_index(a, extent.width.0 as int) != corner_index(b, extent.width.0 as int),
{
    let w = extent.width.0 as int;
    let (ax, ay) = (a.min.x.0 as int, a.min.y.0 as int);
    let (bx, by) = (b.min.x.0 as int, b.min.y.0 as int);
    assert(ax != bx || ay != by);
    assert(ay * w + ax != by * w + bx) by (nonlinear_arith)
        requires
            0 <= ax < w,
            0 <= bx < w,
            ax != bx || ay != by,
    ;
}

/// No more rectangles are at hand than the surface has pixels.
pub proof fn rectangles_are_no_more_than_pixels(allocator: BucketedAtlasAllocator)
    requires
        well_packed(allocator),
    ensures
        allocated(allocator).len() <= extent(allocator).width.0 * extent(allocator).height.0,
{
    let rectangles = allocated(allocator);
    let w = extent(allocator).width.0 as int;
    let h = extent(allocator).height.0 as int;
    let corner = |id: TileId| corner_index(rectangles[id], w);
    let corners = rectangles.dom().map(corner);
    let pixels = set_int_range(0, w * h);
    assert(0 <= w * h) by (nonlinear_arith)
        requires
            0 <= w,
            0 <= h,
    ;
    vstd::set_lib::lemma_int_range(0, w * h);
    assert forall|c: int| corners.contains(c) implies pixels.contains(c) by {
        let id = choose|id: TileId| rectangles.dom().contains(id) && c == corner(id);
        assert(rectangles.contains_key(id));
        lemma_corner_in_range(rectangles[id], extent(allocator));
    }
    assert(vstd::relations::injective_on(corner, rectangles.dom())) by {
        assert forall|a: TileId, b: TileId|
            rectangles.dom().contains(a) && rectangles.dom().contains(b) && #[trigger] corner(a)
                == #[trigger] corner(b) implies a == b by {
            assert(rectangles.contains_key(a) && rectangles.contains_key(b));
            if a != b {
                lemma_corners_differ(rectangles[a], rectangles[b], extent(allocator));
            }
        }
    }
    vstd::set_lib::lemma_map_size(rectangles.dom(), corners, corner);
    vstd::set_lib::lemma_len_subset(corners, pixels);
}

} // verus!
