//! The recording ring: per channel, a bounded deque of recent chunks with
//! drop-oldest overflow. Every channel's deque holds the same number of
//! chunks at all times.

use vstd::prelude::*;

verus! {

#[verifier::external_type_specification]
#[verifier::external_body]
#[verifier::reject_recursive_types(T)]
pub struct ExSliceDeque<T>(slice_deque::SliceDeque<T>);

/// The chunks a recording deque holds, oldest first.
pub uninterp spec fn deque_chunks(d: slice_deque::SliceDeque<Vec<i32>>) -> Seq<Seq<i32>>;

/// Relies on slice_deque::SliceDeque::with_capacity: a freshly created
/// deque holds no elements.
#[verifier::external_body]
pub fn deque_with_capacity(n: usize) -> (d: slice_deque::SliceDeque<Vec<i32>>)
    ensures
        deque_chunks(d) == Seq::<Seq<i32>>::empty(),
{
    slice_deque::SliceDeque::with_capacity(n)
}

/// Relies on slice_deque::SliceDeque::len: the number of elements held.
#[verifier::external_body]
pub fn deque_len(d: &slice_deque::SliceDeque<Vec<i32>>) -> (n: usize)
    ensures
        n == deque_chunks(*d).len(),
{
    d.len()
}

/// Relies on slice_deque::SliceDeque::push_back: appends one element at
/// the back, after every element already held.
#[verifier::external_body]
pub fn deque_push_back(d: slice_deque::SliceDeque<Vec<i32>>, chunk: Vec<i32>) -> (r:
    slice_deque::SliceDeque<Vec<i32>>)
    ensures
        deque_chunks(r) == deque_chunks(d).push(chunk@),
{
    let mut d = d;
    d.push_back(chunk);
    d
}

/// Relies on slice_deque::SliceDeque::truncate_front: keeps the last
/// `keep` elements and drops the rest from the front; a `keep` at or above
/// the current length changes nothing.
#[verifier::external_body]
pub fn deque_truncate_front(d: slice_deque::SliceDeque<Vec<i32>>, keep: usize) -> (r:
    slice_deque::SliceDeque<Vec<i32>>)
    ensures
        keep >= deque_chunks(d).len() ==> deque_chunks(r) == deque_chunks(d),
        keep < deque_chunks(d).len() ==> deque_chunks(r) == deque_chunks(d).subrange(
            deque_chunks(d).len() - keep,
            deque_chunks(d).len() as int,
        ),
{
    let mut d = d;
    d.truncate_front(keep);
    d
}

/// Relies on slice_deque::SliceDeque::back: a reference to the newest
/// element, the one pushed last.
#[verifier::external_body]
pub fn deque_back(d: &slice_deque::SliceDeque<Vec<i32>>) -> (r: &Vec<i32>)
    requires
        deque_chunks(*d).len() > 0,
    ensures
        r@ == deque_chunks(*d).last(),
{
    d.back().unwrap()
}

/// Relies on slice_deque's slice indexing (through Deref): the element at
/// position `i`, counting from the oldest.
#[verifier::external_body]
pub fn deque_get(d: &slice_deque::SliceDeque<Vec<i32>>, i: usize) -> (r: &Vec<i32>)
    requires
        i < deque_chunks(*d).len(),
    ensures
        r@ == deque_chunks(*d)[i as int],
{
    &d[i]
}

/// A bounded per-channel history of recently recorded chunks. On overflow
/// the oldest chunk of every channel is dropped before the new one is
/// pushed, so all channels always hold equally many chunks.
pub struct RecordingRing {
    pub channels: Vec<slice_deque::SliceDeque<Vec<i32>>>,
    pub capacity: usize,
}

impl RecordingRing {
    pub open spec fn channel_count(self) -> nat {
        self.channels@.len()
    }

    /// The chunks held for channel `c`, oldest first.
    pub open spec fn chunks_of(self, c: int) -> Seq<Seq<i32>> {
        deque_chunks(self.channels@[c])
    }

    /// The number of chunks every channel holds.
    pub open spec fn chunk_count(self) -> nat {
        if self.channels@.len() == 0 {
            0
        } else {
            deque_chunks(self.channels@[0]).len()
        }
    }

    pub open spec fn cap(self) -> nat {
        self.capacity as nat
    }

    /// Channel deques exist, hold equally many chunks, and never exceed the
    /// capacity.
    pub open spec fn wf(self) -> bool {
        &&& self.capacity >= 2
        &&& self.channels@.len() >= 1
        &&& forall|c: int|
            0 <= c < self.channels@.len() ==> deque_chunks(#[trigger] self.channels@[c]).len()
                == self.chunk_count()
        &&& self.chunk_count() <= self.cap()
    }

    pub fn new(channel_count: usize, capacity: usize) -> (r: RecordingRing)
        requires
            channel_count >= 1,
            capacity >= 2,
        ensures
            r.wf(),
            r.channel_count() == channel_count,
            r.cap() == capacity,
            r.chunk_count() == 0,
            forall|c: int| 0 <= c < channel_count ==> r.chunks_of(c) == Seq::<Seq<i32>>::empty(),
    {
        let mut channels: Vec<slice_deque::SliceDeque<Vec<i32>>> = Vec::new();
        let mut c: usize = 0;
        while c < channel_count
            invariant
                c <= channel_count,
                channels@.len() == c as int,
                forall|k: int|
                    0 <= k < c as int ==> deque_chunks(#[trigger] channels@[k]) == Seq::<
                        Seq<i32>,
                    >::empty(),
            decreases channel_count - c as int,
        {
            channels.push(deque_with_capacity(capacity));
            c += 1;
        }
        RecordingRing { channels, capacity }
    }

    pub fn len(&self) -> (n: usize)
        requires
            self.wf(),
        ensures
            n == self.chunk_count(),
    {
        deque_len(&self.channels[0])
    }

    pub fn channel_total(&self) -> (n: usize)
        ensures
            n == self.channel_count(),
    {
        self.channels.len()
    }

    pub fn capacity(&self) -> (n: usize)
        ensures
            n == self.cap(),
    {
        self.capacity
    }

    /// A borrow of the newest chunk of channel `c`.
    pub fn last_chunk(&self, c: usize) -> (r: &Vec<i32>)
        requires
            self.wf(),
            c < self.channel_count(),
            self.chunk_count() > 0,
        ensures
            r@ == self.chunks_of(c as int).last(),
    {
        deque_back(&self.channels[c])
    }

    /// A borrow of chunk `i` of channel `c`, oldest first.
    pub fn chunk_at(&self, c: usize, i: usize) -> (r: &Vec<i32>)
        requires
            self.wf(),
            c < self.channel_count(),
            i < self.chunk_count(),
        ensures
            r@ == self.chunks_of(c as int)[i as int],
    {
        deque_get(&self.channels[c], i)
    }

    /// Ingest one chunk per channel. When the ring is full, the oldest
    /// chunk of every channel is dropped first; the return value says
    /// whether that happened.
    pub fn push_chunks(&mut self, chunks: Vec<Vec<i32>>) -> (truncated: bool)
        requires
            old(self).wf(),
            chunks@.len() == old(self).channel_count(),
        ensures
            final(self).wf(),
            final(self).channel_count() == old(self).channel_count(),
            final(self).cap() == old(self).cap(),
            truncated == (old(self).chunk_count() == old(self).cap()),
            !truncated ==> final(self).chunk_count() == old(self).chunk_count() + 1,
            truncated ==> final(self).chunk_count() == old(self).cap(),
            forall|c: int|
                0 <= c < old(self).channel_count() ==> #[trigger] final(self).chunks_of(c) == (
                if truncated {
                    old(self).chunks_of(c).subrange(1, old(self).chunk_count() as int).push(
                        chunks@[c]@,
                    )
                } else {
                    old(self).chunks_of(c).push(chunks@[c]@)
                }),
    {
        let n = self.channels.len();
        let truncated = deque_len(&self.channels[0]) == self.capacity;
        let ghost all_chunks = chunks@;
        let mut chunks = chunks;
        let mut c: usize = n;
        while c > 0
            invariant
                old(self).wf(),
                c <= n,
                n == old(self).channel_count(),
                chunks@.len() == c as int,
                chunks@ == all_chunks.subrange(0, c as int),
                all_chunks.len() == n as int,
                truncated == (old(self).chunk_count() == old(self).cap()),
                self.capacity == old(self).capacity,
                self.channels@.len() == n as int,
                forall|k: int| 0 <= k < c as int ==> self.channels@[k] == old(self).channels@[k],
                forall|k: int|
                    c as int <= k < n as int ==> deque_chunks(#[trigger] self.channels@[k]) == (
                    if truncated {
                        old(self).chunks_of(k).subrange(1, old(self).chunk_count() as int).push(
                            all_chunks[k]@,
                        )
                    } else {
                        old(self).chunks_of(k).push(all_chunks[k]@)
                    }),
            decreases c as int,
        {
            c -= 1;
            let chunk = chunks.pop().unwrap();
            let mut d = self.channels.remove(c);
            if truncated {
                d = deque_truncate_front(d, self.capacity - 1);
            }
            d = deque_push_back(d, chunk);
            self.channels.insert(c, d);
            proof {
                assert(chunks@ =~= all_chunks.subrange(0, c as int));
            }
        }
        truncated
    }
}

/// After a drop-oldest truncation, the surviving prefix of a suffix that
/// began at `start` is exactly the suffix that now begins at `start - 1`:
/// the suffix still denotes the same recorded samples.
pub proof fn lemma_truncated_suffix(
    pre: Seq<Seq<i32>>,
    post: Seq<Seq<i32>>,
    new_chunk: Seq<i32>,
    start: int,
)
    requires
        pre.len() >= 1,
        post == pre.subrange(1, pre.len() as int).push(new_chunk),
        1 <= start <= pre.len(),
    ensures
        post.subrange(start - 1, post.len() - 1) == pre.subrange(start, pre.len() as int),
{
    assert(post.subrange(start - 1, post.len() - 1) =~= pre.subrange(start, pre.len() as int));
}

} // verus!
