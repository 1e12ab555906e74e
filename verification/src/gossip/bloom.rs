//! Duplicate suppression for gossip with Bloom filters.

use vstd::prelude::*;

use bloomfilter::Bloom;

verus! {

#[verifier::external_type_specification]
#[verifier::external_body]
#[verifier::reject_recursive_types(T)]
pub struct ExBloom<T: ?Sized>(Bloom<T>);

/// The message ids a filter currently answers as present: every id recorded in it,
/// plus whatever false positives its bits produce.
pub uninterp spec fn bloom_reported(filter: Bloom<[u8; 32]>) -> Set<Seq<u8>>;

/// Creates a filter with `bitmap_size` bytes of bitmap sized for `items_count` items,
/// by `bloomfilter::Bloom::new` (which seeds its hash keys randomly). Claimed: its bits
/// all start clear, so it answers no id as present. The crate asserts both sizes are
/// positive and multiplies the size by 8 with a checked multiplication, hence the
/// `requires`.
#[verifier::external_body]
fn bloom_new(bitmap_size: usize, items_count: usize) -> (r: Bloom<[u8; 32]>)
    requires
        bitmap_size > 0,
        items_count > 0,
        bitmap_size * 8 <= usize::MAX,
    ensures
        bloom_reported(r) == Set::<Seq<u8>>::empty(),
{
    Bloom::new(bitmap_size, items_count)
}

/// `bloomfilter::Bloom::check`. Claimed: the answer is whether the filter currently
/// answers `item` as present (it reads the filter's bits only).
#[verifier::external_body]
fn bloom_check(filter: &Bloom<[u8; 32]>, item: &[u8; 32]) -> (r: bool)
    ensures
        r == bloom_reported(*filter).contains(item@),
{
    filter.check(item)
}

/// `bloomfilter::Bloom::set`. Claimed: it only sets bits, so every id answered as
/// present before still is, and `item` now is.
#[verifier::external_body]
fn bloom_set(filter: &mut Bloom<[u8; 32]>, item: &[u8; 32])
    ensures
        bloom_reported(*final(filter)).contains(item@),
        bloom_reported(*old(filter)).subset_of(bloom_reported(*final(filter))),
{
    filter.set(item)
}

/// A single Bloom filter of seen message ids.
pub struct MessageFilter {
    filter: Bloom<[u8; 32]>,
}

impl MessageFilter {
    /// The ids the filter answers as already seen.
    pub closed spec fn reported(&self) -> Set<Seq<u8>> {
        bloom_reported(self.filter)
    }

    /// Create a new empty filter with a bitmap of `bitmap_size` bytes sized for
    /// `capacity` items (the size for a false-positive rate is what
    /// `bloomfilter::Bloom::compute_bitmap_size` computes).
    pub fn with_bitmap_size(capacity: usize, bitmap_size: usize) -> (r: Self)
        requires
            capacity > 0,
            bitmap_size > 0,
            bitmap_size * 8 <= usize::MAX,
        ensures
            r.reported() == Set::<Seq<u8>>::empty(),
    {
        MessageFilter { filter: bloom_new(bitmap_size, capacity) }
    }

    /// Returns true if the message is PROBABLY already seen (the filter is unchanged).
    /// Returns false if the message is DEFINITELY new, and then records it.
    pub fn check_and_add(&mut self, message_id: &[u8; 32]) -> (r: bool)
        ensures
            r == old(self).reported().contains(message_id@),
            r ==> final(self).reported() == old(self).reported(),
            final(self).reported().contains(message_id@),
            old(self).reported().subset_of(final(self).reported()),
    {
        if bloom_check(&self.filter, message_id) {
            true
        } else {
            bloom_set(&mut self.filter, message_id);
            false
        }
    }
}

/// A filter made of two windows: ids go into the current window; once it holds
/// `capacity` ids it becomes the previous window and a fresh one replaces it, so
/// ids are remembered for between one and two windows.
pub struct SlidingBloomFilter {
    current: Bloom<[u8; 32]>,
    previous: Bloom<[u8; 32]>,
    capacity: usize,
    bitmap_size: usize,
    insert_count: usize,
}

impl SlidingBloomFilter {
    /// Ids the current window answers as seen.
    pub closed spec fn current_reported(&self) -> Set<Seq<u8>> {
        bloom_reported(self.current)
    }

    /// Ids the previous window answers as seen.
    pub closed spec fn previous_reported(&self) -> Set<Seq<u8>> {
        bloom_reported(self.previous)
    }

    /// How many ids a window takes before it is rotated out.
    pub closed spec fn window_capacity(&self) -> usize {
        self.capacity
    }

    /// How many ids went into the current window.
    pub closed spec fn count(&self) -> usize {
        self.insert_count
    }

    /// The windows can always be rebuilt and the count never exceeds the capacity.
    pub closed spec fn wf(&self) -> bool {
        &&& self.capacity > 0
        &&& self.bitmap_size > 0
        &&& self.bitmap_size * 8 <= usize::MAX
        &&& self.insert_count <= self.capacity
    }

    /// Two empty windows of `capacity_per_window` ids with `bitmap_size`-byte bitmaps
    /// (the size for a false-positive rate is what
    /// `bloomfilter::Bloom::compute_bitmap_size` computes).
    pub fn with_bitmap_size(capacity_per_window: usize, bitmap_size: usize) -> (r: Self)
        requires
            capacity_per_window > 0,
            bitmap_size > 0,
            bitmap_size * 8 <= usize::MAX,
        ensures
            r.wf(),
            r.current_reported() == Set::<Seq<u8>>::empty(),
            r.previous_reported() == Set::<Seq<u8>>::empty(),
            r.window_capacity() == capacity_per_window,
            r.count() == 0,
    {
        SlidingBloomFilter {
            current: bloom_new(bitmap_size, capacity_per_window),
            previous: bloom_new(bitmap_size, capacity_per_window),
            capacity: capacity_per_window,
            bitmap_size,
            insert_count: 0,
        }
    }

    /// How many ids went into the current window.
    pub fn insert_count(&self) -> (r: usize)
        ensures
            r == self.count(),
    {
        self.insert_count
    }

    /// Returns true if either window answers the id as seen; nothing changes then.
    /// Otherwise the current window is first rotated out if it is full, the id is
    /// recorded in the (possibly fresh) current window, and false is returned; see
    /// `sliding_check_step`.
    pub fn check_and_add(&mut self, message_id: &[u8; 32]) -> (r: bool)
        requires
            old(self).wf(),
        ensures
            final(self).wf(),
            sliding_check_step(*old(self), *final(self), message_id@, r),
    {
        if bloom_check(&self.current, message_id) || bloom_check(&self.previous, message_id) {
            true
        } else {
            self.rotate_if_full();
            bloom_set(&mut self.current, message_id);
            self.insert_count = self.insert_count + 1;
            false
        }
    }

    fn rotate_if_full(&mut self)
        requires
            old(self).wf(),
        ensures
            final(self).wf(),
            final(self).capacity == old(self).capacity,
            final(self).insert_count < final(self).capacity,
            old(self).insert_count >= old(self).capacity ==> {
                &&& bloom_reported(final(self).previous) == bloom_reported(old(self).current)
                &&& bloom_reported(final(self).current) == Set::<Seq<u8>>::empty()
                &&& final(self).insert_count == 0
            },
            old(self).insert_count < old(self).capacity ==> *final(self) == *old(self),
    {
        if self.insert_count >= self.capacity {
            let mut fresh = bloom_new(self.bitmap_size, self.capacity);
            std::mem::swap(&mut self.current, &mut fresh);
            self.previous = fresh;
            self.insert_count = 0;
        }
    }
}

/// One `check_and_add` of `id` on a sliding filter, from `before` to `after`, answering
/// `r`: the answer is whether either window reported the id; a positive answer changes
/// nothing; otherwise a full current window becomes the previous one and a fresh window
/// takes the id, or else the current window takes it, keeping what it had.
pub open spec fn sliding_check_step(
    before: SlidingBloomFilter,
    after: SlidingBloomFilter,
    id: Seq<u8>,
    r: bool,
) -> bool {
    &&& after.window_capacity() == before.window_capacity()
    &&& r == (before.current_reported().contains(id) || before.previous_reported().contains(id))
    &&& before.current_reported().subset_of(
        after.current_reported().union(after.previous_reported()),
    )
    &&& r ==> {
        &&& after.current_reported() == before.current_reported()
        &&& after.previous_reported() == before.previous_reported()
        &&& after.count() == before.count()
    }
    &&& !r && before.count() >= before.window_capacity() ==> {
        &&& after.previous_reported() == before.current_reported()
        &&& after.current_reported().contains(id)
        &&& after.count() == 1
    }
    &&& !r && before.count() < before.window_capacity() ==> {
        &&& after.previous_reported() == before.previous_reported()
        &&& after.current_reported().contains(id)
        &&& before.current_reported().subset_of(after.current_reported())
        &&& after.count() == before.count() + 1
    }
}

/// A sliding filter remembers an id for at least a window. When `filters[0]`'s current
/// window reports `id` and the filter then goes through `checks.len()` calls of
/// `check_and_add`, no more than its window capacity, every state along the way still
/// reports `id` in one of its windows.
pub proof fn lemma_seen_id_survives_a_window(
    filters: Seq<SlidingBloomFilter>,
    checks: Seq<Seq<u8>>,
    answers: Seq<bool>,
    id: Seq<u8>,
)
    requires
        filters.len() == checks.len() + 1,
        answers.len() == checks.len(),
        forall|i: int|
            0 <= i < checks.len() ==> #[trigger] sliding_check_step(
                filters[i],
                filters[i + 1],
                checks[i],
                answers[i],
            ),
        filters[0].current_reported().contains(id),
        checks.len() <= filters[0].window_capacity(),
    ensures
        forall|i: int|
            0 <= i < filters.len() ==> #[trigger] filters[i].current_reported().contains(id)
                || filters[i].previous_reported().contains(id),
{
    lemma_window_prefix(filters, checks, answers, id, checks.len() as int);
}

/// The first `i` checks keep `id` reported, in the current window or, since at most
/// `i` new ids arrived after it moved there, in the previous one.
proof fn lemma_window_prefix(
    filters: Seq<SlidingBloomFilter>,
    checks: Seq<Seq<u8>>,
    answers: Seq<bool>,
    id: Seq<u8>,
    i: int,
)
    requires
        filters.len() == checks.len() + 1,
        answers.len() == checks.len(),
        forall|j: int|
            0 <= j < checks.len() ==> #[trigger] sliding_check_step(
                filters[j],
                filters[j + 1],
                checks[j],
                answers[j],
            ),
        filters[0].current_reported().contains(id),
        checks.len() <= filters[0].window_capacity(),
        0 <= i <= checks.len(),
    ensures
        filters[i].window_capacity() == filters[0].window_capacity(),
        filters[i].current_reported().contains(id) || (filters[i].previous_reported().contains(id)
            && filters[i].count() <= i),
        forall|j: int|
            0 <= j <= i ==> #[trigger] filters[j].current_reported().contains(id)
                || filters[j].previous_reported().contains(id),
    decreases i,
{
    if i > 0 {
        let p = i - 1;
        lemma_window_prefix(filters, checks, answers, id, p);
        assert(sliding_check_step(filters[p], filters[p + 1], checks[p], answers[p]));
        let a = filters[p];
        let b = filters[i];
        if a.current_reported().contains(id) {
            assert(b.current_reported().union(b.previous_reported()).contains(id));
            if !answers[p] && a.count() >= a.window_capacity() {
                assert(b.previous_reported().contains(id));
            }
        }
    }
}

} // verus!
