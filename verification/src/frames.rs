//! The frames that the GPU has not finished yet, by serial number.
use std::collections::BTreeSet;
use vstd::prelude::*;

verus! {

/// True if a frame that began no later than `serial` is still active. The
/// pixels that such a frame may sample cannot be overwritten yet.
pub open spec fn waits_for(active: Set<u64>, serial: u64) -> bool {
    exists|frame: u64| #[trigger] active.contains(frame) && frame <= serial
}

/// The oldest active frame, if any is active.
pub open spec fn oldest(active: Set<u64>) -> Option<u64> {
    if exists|frame: u64| active.contains(frame) {
        Some(choose|frame: u64| is_least(active, frame))
    } else {
        None
    }
}

/// The newest active frame, if any is active.
pub open spec fn newest(active: Set<u64>) -> Option<u64> {
    if exists|frame: u64| active.contains(frame) {
        Some(choose|frame: u64| is_greatest(active, frame))
    } else {
        None
    }
}

/// True of the least element of a set.
pub open spec fn is_least(set: Set<u64>, element: u64) -> bool {
    &&& set.contains(element)
    &&& forall|other: u64| #[trigger] set.contains(other) ==> element <= other
}

/// True of the greatest element of a set.
pub open spec fn is_greatest(set: Set<u64>, element: u64) -> bool {
    &&& set.contains(element)
    &&& forall|other: u64| #[trigger] set.contains(other) ==> other <= element
}

/// True if an allocation that was retired after frame `serial` has to wait
/// while `first_active` is the oldest active frame.
pub open spec fn must_wait(first_active: Option<u64>, serial: u64) -> bool {
    first_active matches Some(active) && active <= serial
}

/// Calls `BTreeSet::first`.
///
/// Claimed, as its documentation says: the least element, or nothing of an
/// empty set.
#[verifier::external_body]
pub(crate) fn first_frame(frames: &BTreeSet<u64>) -> (first: Option<u64>)
    ensures
        first is None <==> frames@.is_empty(),
        first matches Some(serial) ==> is_least(frames@, serial),
{
    frames.first().copied()
}

/// Calls `BTreeSet::last`.
///
/// Claimed, as its documentation says: the greatest element, or nothing of an
/// empty set.
#[verifier::external_body]
pub(crate) fn last_frame(frames: &BTreeSet<u64>) -> (last: Option<u64>)
    ensures
        last is None <==> frames@.is_empty(),
        last matches Some(serial) ==> is_greatest(frames@, serial),
{
    frames.last().copied()
}

/// The element that is found as the least one is the oldest frame.
pub(crate) proof fn lemma_oldest(active: Set<u64>, first: Option<u64>)
    requires
        first is None <==> active.is_empty(),
        first matches Some(serial) ==> is_least(active, serial),
    ensures
        first == oldest(active),
{
    match first {
        Some(serial) => {
            let least = choose|frame: u64| is_least(active, frame);
            assert(is_least(active, serial));
            assert(is_least(active, least));
        },
        None => {
            assert(forall|frame: u64| !active.contains(frame));
        },
    }
}

/// The element that is found as the greatest one is the newest frame.
pub(crate) proof fn lemma_newest(active: Set<u64>, last: Option<u64>)
    requires
        last is None <==> active.is_empty(),
        last matches Some(serial) ==> is_greatest(active, serial),
    ensures
        last == newest(active),
{
    match last {
        Some(serial) => {
            let greatest = choose|frame: u64| is_greatest(active, frame);
            assert(is_greatest(active, serial));
            assert(is_greatest(active, greatest));
        },
        None => {
            assert(forall|frame: u64| !active.contains(frame));
        },
    }
}

pub(crate) proof fn lemma_has_least(active: Set<u64>, frame: u64)
    requires
        active.contains(frame),
    ensures
        exists|least: u64| is_least(active, least),
    decreases frame,
{
    if !is_least(active, frame) {
        let smaller = choose|other: u64| #[trigger] active.contains(other) && other < frame;
        lemma_has_least(active, smaller);
    }
}

/// To wait for the oldest active frame is to wait for every active frame that
/// is old enough to matter.
pub proof fn waiting_for_the_oldest_is_enough(active: Set<u64>, serial: u64)
    ensures
        must_wait(oldest(active), serial) == waits_for(active, serial),
{
    if exists|frame: u64| active.contains(frame) {
        let frame = choose|frame: u64| active.contains(frame);
        lemma_has_least(active, frame);
        assert(is_least(active, oldest(active)->0));
    }
}

proof fn lemma_has_greatest(active: Set<u64>, frame: u64)
    requires
        active.contains(frame),
    ensures
        exists|greatest: u64| is_greatest(active, greatest),
    decreases u64::MAX - frame,
{
    if !is_greatest(active, frame) {
        let larger = choose|other: u64| #[trigger] active.contains(other) && other > frame;
        lemma_has_greatest(active, larger);
    }
}

/// The newest active frame is active, and no active frame is newer.
pub proof fn newest_is_not_older(active: Set<u64>, frame: u64)
    requires
        active.contains(frame),
    ensures
        newest(active) is Some,
        active.contains(newest(active)->0),
        frame <= newest(active)->0,
{
    lemma_has_greatest(active, frame);
    assert(is_greatest(active, newest(active)->0));
}

/// A frame that begins later delays nothing that was retired before it began.
pub proof fn newer_frames_do_not_delay(active: Set<u64>, serial: u64, newer: u64)
    requires
        serial < newer,
    ensures
        waits_for(active.insert(newer), serial) == waits_for(active, serial),
        waits_for(active.remove(newer), serial) == waits_for(active, serial),
{
    if waits_for(active, serial) {
        let frame = choose|frame: u64| #[trigger] active.contains(frame) && frame <= serial;
        assert(active.insert(newer).contains(frame));
        assert(active.remove(newer).contains(frame));
    }
}

/// What was retired waits for as long as any older frame is active.
pub proof fn older_frames_delay(active: Set<u64>, serial: u64, older: u64)
    requires
        active.contains(older),
        older <= serial,
    ensures
        waits_for(active, serial),
{
}

} // verus!
