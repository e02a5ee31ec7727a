//! A frames-per-second counter: it remembers when the frames of the last
//! second were drawn and reports how many there were.
//!
//! Frame times are kept as whole nanoseconds since the counter was made,
//! read from the monotonic clock.

use std::collections::VecDeque;
use std::time::Instant;
use vstd::prelude::*;

verus! {

/// `std::time::Instant`, a reading of the monotonic clock, carried opaquely.
#[verifier::external_type_specification]
#[verifier::external_body]
pub struct ExInstant(Instant);

/// Nanoseconds in one second: the width of the window the counter reports on.
pub const NANOS_PER_SECOND: u128 = 1_000_000_000;

/// Reads the monotonic clock through `std::time::Instant::now`. Nothing is
/// promised of the reading: it depends on the time of the call.
#[verifier::external_body]
fn clock_now() -> Instant {
    Instant::now()
}

/// Calls `std::time::Instant::elapsed` on `start` and converts the `Duration`
/// to whole nanoseconds with `Duration::as_nanos`. Nothing is promised of the
/// result: it depends on the time of the call.
#[verifier::external_body]
fn nanos_since(start: &Instant) -> u128 {
    start.elapsed().as_nanos()
}

/// A frame drawn at `t` is older than one second at time `now`.
pub open spec fn is_stale(t: u128, now: u128) -> bool {
    t + NANOS_PER_SECOND < now
}

/// Whether a frame time lies within the second that ends at `now`.
pub open spec fn in_last_second(now: u128) -> spec_fn(u128) -> bool {
    |t: u128| !is_stale(t, now)
}

/// `frames` with its leading run of frames older than one second (at `now`)
/// removed.
pub open spec fn drop_stale(frames: Seq<u128>, now: u128) -> Seq<u128>
    decreases frames.len(),
{
    if frames.len() > 0 && is_stale(frames[0], now) {
        drop_stale(frames.drop_first(), now)
    } else {
        frames
    }
}

/// The frame times never go back.
pub open spec fn is_chronological(frames: Seq<u128>) -> bool {
    forall|i: int, j: int| 0 <= i <= j < frames.len() ==> frames[i] <= frames[j]
}

/// A tick at `now` follows a chronological record and comes no earlier than
/// its last frame, as readings of a monotonic clock do.
pub open spec fn is_ordered_tick(frames: Seq<u128>, now: u128) -> bool {
    &&& is_chronological(frames)
    &&& frames.len() > 0 ==> frames.last() <= now
}

/// Measures Frames Per Second (FPS).
#[derive(Debug)]
pub struct FPSCounter {
    /// The moment the counter was made; frame times count from it.
    start: Instant,
    /// The last registered frames, oldest first.
    last_second_frames: VecDeque<u128>,
}

impl View for FPSCounter {
    type V = Seq<u128>;

    /// The recorded frame times, oldest first.
    closed spec fn view(&self) -> Seq<u128> {
        self.last_second_frames@
    }
}

impl FPSCounter {
    /// Creates a new FPSCounter with no frames recorded.
    pub fn new() -> (counter: FPSCounter)
        ensures
            counter@ == Seq::<u128>::empty(),
    {
        FPSCounter { start: clock_now(), last_second_frames: VecDeque::with_capacity(128) }
    }

    /// Records a frame drawn now and returns the number of frames drawn in
    /// the last second, this one included.
    pub fn tick(&mut self) -> (count: usize)
        ensures
            final(self)@.len() > 0,
            final(self)@ == drop_stale(old(self)@, final(self)@.last()).push(
                final(self)@.last(),
            ),
            count == final(self)@.len(),
            exists|k: int|
                0 <= k <= old(self)@.len() && final(self)@ == old(self)@.subrange(
                    k,
                    old(self)@.len() as int,
                ).push(final(self)@.last()) && (forall|i: int|
                    0 <= i < k ==> old(self)@[i] + 1_000_000_000 < final(self)@.last()) && (k
                    < old(self)@.len() ==> old(self)@[k] + 1_000_000_000 >= final(self)@.last()),
    {
        let ghost before = self@;
        let now = nanos_since(&self.start);
        let count = self.tick_at(now);
        proof {
            lemma_drop_stale_keeps_newest(before, now);
            lemma_drop_stale_splits_at_first_fresh(before, now);
            let k = before.len() - drop_stale(before, now).len();
            assert(self@ == before.subrange(k, before.len() as int).push(self@.last()));
        }
        count
    }

    /// Records a frame drawn at `now` (nanoseconds since the counter was
    /// made): forgets the leading frames older than one second, appends
    /// `now`, and returns how many frames are then recorded.
    pub fn tick_at(&mut self, now: u128) -> (count: usize)
        ensures
            final(self)@ == drop_stale(old(self)@, now).push(now),
            count == final(self)@.len(),
            1 <= count <= old(self)@.len() + 1,
            is_ordered_tick(old(self)@, now) ==> final(self)@ == old(self)@.push(now).filter(
                in_last_second(now),
            ),
            is_ordered_tick(old(self)@, now) ==> is_chronological(final(self)@),
            exists|k: int|
                0 <= k <= old(self)@.len() && final(self)@ == old(self)@.subrange(
                    k,
                    old(self)@.len() as int,
                ).push(now) && (forall|i: int|
                    0 <= i < k ==> old(self)@[i] + 1_000_000_000 < now) && (k < old(self)@.len()
                    ==> old(self)@[k] + 1_000_000_000 >= now),
            is_ordered_tick(old(self)@, now) ==> forall|i: int|
                0 <= i < final(self)@.len() ==> final(self)@[i] <= now && now <= final(self)@[i]
                    + 1_000_000_000,
    {
        let ghost before = self@;
        while self.last_second_frames.len() > 0 && now > NANOS_PER_SECOND
            && self.last_second_frames[0] < now - NANOS_PER_SECOND
            invariant
                drop_stale(self.last_second_frames@, now) == drop_stale(before, now),
            decreases self.last_second_frames@.len(),
        {
            let ghost cur = self.last_second_frames@;
            self.last_second_frames.pop_front();
            assert(self.last_second_frames@ =~= cur.drop_first());
        }
        self.last_second_frames.push_back(now);
        proof {
            lemma_drop_stale_keeps_newest(before, now);
            lemma_drop_stale_splits_at_first_fresh(before, now);
            let k = before.len() - drop_stale(before, now).len();
            assert(self.last_second_frames@ == before.subrange(k, before.len() as int).push(now));
            if is_ordered_tick(before, now) {
                assert forall|i: int| 0 <= i < self.last_second_frames@.len() implies self.last_second_frames@[i]
                    <= now && now <= self.last_second_frames@[i] + 1_000_000_000 by {
                    if i < self.last_second_frames@.len() - 1 {
                        assert(self.last_second_frames@[i] == before[k + i]);
                        assert(before[k] <= before[k + i]);
                        assert(before[k + i] <= before.last());
                    }
                }

                lemma_drop_stale_is_window(before, now);
                lemma_drop_stale_keeps_order(before, now);
                before.lemma_filter_push(now, in_last_second(now));
            }
        }
        self.last_second_frames.len()
    }
}

impl Default for FPSCounter {
    fn default() -> (counter: Self)
        ensures
            counter@ == Seq::<u128>::empty(),
    {
        FPSCounter::new()
    }
}

/// On a chronological record whose frames are no later than `now`, dropping
/// the leading stale frames leaves exactly the frames of the last second.
pub proof fn lemma_drop_stale_is_window(frames: Seq<u128>, now: u128)
    requires
        is_ordered_tick(frames, now),
    ensures
        drop_stale(frames, now) == frames.filter(in_last_second(now)),
    decreases frames.len(),
{
    let p = in_last_second(now);
    if frames.len() > 0 {
        let tail = frames.drop_first();
        assert(frames =~= seq![frames[0]] + tail);
        tail.lemma_filter_prepend(frames[0], p);
        assert(is_ordered_tick(tail, now)) by {
            if tail.len() > 0 {
                assert(tail.last() == frames.last());
            }
        }
        lemma_drop_stale_is_window(tail, now);
        if !is_stale(frames[0], now) {
            if tail.len() > 0 {
                assert(frames[0] <= frames[1]);
                assert(!is_stale(tail[0], now));
            }
        }
    } else {
        assert(frames.filter(p) =~= Seq::<u128>::empty()) by {
            reveal(Seq::filter);
        }
    }
}

/// Dropping the leading stale frames of a chronological record leaves a
/// chronological record that ends, if anything is left, with the same frame.
pub proof fn lemma_drop_stale_keeps_order(frames: Seq<u128>, now: u128)
    requires
        is_chronological(frames),
    ensures
        is_chronological(drop_stale(frames, now)),
        drop_stale(frames, now).len() > 0 ==> drop_stale(frames, now).last() == frames.last(),
    decreases frames.len(),
{
    if frames.len() > 0 && is_stale(frames[0], now) {
        let tail = frames.drop_first();
        assert(is_chronological(tail)) by {
            assert forall|i: int, j: int| 0 <= i <= j < tail.len() implies tail[i] <= tail[j] by {
                assert(tail[i] == frames[i + 1] && tail[j] == frames[j + 1]);
            }
        }
        lemma_drop_stale_keeps_order(tail, now);
    }
}

/// Dropping stale frames removes exactly the leading frames that are more
/// than one second older than `now`: every removed frame is, and the first
/// frame kept (if any) is not.
pub proof fn lemma_drop_stale_splits_at_first_fresh(frames: Seq<u128>, now: u128)
    ensures
        ({
            let k = frames.len() - drop_stale(frames, now).len();
            &&& forall|i: int| 0 <= i < k ==> frames[i] + 1_000_000_000 < now
            &&& k < frames.len() ==> frames[k] + 1_000_000_000 >= now
        }),
    decreases frames.len(),
{
    lemma_drop_stale_keeps_newest(frames, now);
    if frames.len() > 0 && is_stale(frames[0], now) {
        let tail = frames.drop_first();
        lemma_drop_stale_splits_at_first_fresh(tail, now);
        assert(drop_stale(frames, now) == drop_stale(tail, now));
        lemma_drop_stale_keeps_newest(tail, now);
        let k = frames.len() - drop_stale(frames, now).len();
        assert forall|i: int| 0 <= i < k implies frames[i] + 1_000_000_000 < now by {
            if i > 0 {
                assert(frames[i] == tail[i - 1]);
            }
        }
        if k < frames.len() {
            assert(frames[k] == tail[k - 1]);
        }
    }
}

/// What is left after dropping the stale frames is the newest part of the
/// record, in order.
pub proof fn lemma_drop_stale_keeps_newest(frames: Seq<u128>, now: u128)
    ensures
        drop_stale(frames, now).len() <= frames.len(),
        drop_stale(frames, now) == frames.subrange(
            frames.len() - drop_stale(frames, now).len(),
            frames.len() as int,
        ),
    decreases frames.len(),
{
    if frames.len() > 0 && is_stale(frames[0], now) {
        let tail = frames.drop_first();
        lemma_drop_stale_keeps_newest(tail, now);
        assert(tail.subrange(tail.len() - drop_stale(tail, now).len(), tail.len() as int)
            =~= frames.subrange(frames.len() - drop_stale(tail, now).len(), frames.len() as int));
    } else {
        assert(frames.subrange(0, frames.len() as int) =~= frames);
    }
}

} // verus!
