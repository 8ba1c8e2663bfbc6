//! A pool of buffers that are used again and again.

use crossbeam_queue::ArrayQueue;
use vstd::prelude::*;

verus! {

/// The bounded queue of the crate `crossbeam-queue`.
#[verifier::external_type_specification]
#[verifier::external_body]
#[verifier::reject_recursive_types(T)]
pub struct ExArrayQueue<T>(crossbeam_queue::ArrayQueue<T>);

/// What the buffers in a queue hold, the oldest first.
pub uninterp spec fn queued(q: ArrayQueue<Vec<u8>>) -> Seq<Seq<u8>>;

/// How many buffers a queue can hold.
pub uninterp spec fn room(q: ArrayQueue<Vec<u8>>) -> nat;

/// `ArrayQueue::new`: an empty queue of the given capacity. It panics where the
/// capacity is zero, or so large that the slots cannot be allocated.
#[verifier::external_body]
fn new_queue(capacity: usize) -> (r: ArrayQueue<Vec<u8>>)
    requires
        0 < capacity <= isize::MAX / 64,
    ensures
        queued(r) == Seq::<Seq<u8>>::empty(),
        room(r) == capacity,
{
    ArrayQueue::new(capacity)
}

/// `ArrayQueue::push`: puts a buffer at the end of a queue, unless the queue is
/// full; says whether it did.
#[verifier::external_body]
fn push(q: &mut ArrayQueue<Vec<u8>>, buf: Vec<u8>) -> (r: bool)
    ensures
        r == (queued(*old(q)).len() < room(*old(q))),
        queued(*final(q)) == if r {
            queued(*old(q)).push(buf@)
        } else {
            queued(*old(q))
        },
        room(*final(q)) == room(*old(q)),
{
    q.push(buf).is_ok()
}

/// `ArrayQueue::pop`: takes the oldest buffer from a queue, if there is one.
#[verifier::external_body]
fn pop(q: &mut ArrayQueue<Vec<u8>>) -> (r: Option<Vec<u8>>)
    ensures
        match r {
            Some(buf) => queued(*old(q)).len() > 0 && buf@ == queued(*old(q))[0] && queued(*final(q))
                == queued(*old(q)).skip(1),
            None => queued(*old(q)).len() == 0 && queued(*final(q)) == queued(*old(q)),
        },
        room(*final(q)) == room(*old(q)),
{
    q.pop()
}

/// `ArrayQueue::len`: how many buffers are in a queue.
#[verifier::external_body]
fn len(q: &ArrayQueue<Vec<u8>>) -> (r: usize)
    ensures
        r == queued(*q).len(),
{
    q.len()
}

/// `Vec::capacity`: how many bytes a buffer can hold before it has to grow. How
/// many that are is the allocator's to say.
#[verifier::external_body]
fn capacity_of(buf: &Vec<u8>) -> (r: usize)
    ensures
        r >= buf@.len(),
{
    buf.capacity()
}

/// What a pool holds.
#[verifier::ext_equal]
pub struct PoolModel {
    /// How many buffers are at hand.
    pub available: nat,
    /// How large the buffers are.
    pub buffer_size: nat,
    /// How many buffers are kept.
    pub capacity: nat,
}

/// A pool of buffers.
pub struct MessagePool {
    pool: ArrayQueue<Vec<u8>>,
    buffer_size: usize,
    capacity: usize,
}

impl View for MessagePool {
    type V = PoolModel;

    closed spec fn view(&self) -> PoolModel {
        PoolModel {
            available: queued(self.pool).len(),
            buffer_size: self.buffer_size as nat,
            capacity: self.capacity as nat,
        }
    }
}

/// The pool after a buffer of the given capacity came back. One that has grown to
/// more than twice the size is not kept, nor is one for which there is no place.
pub open spec fn released(m: PoolModel, buffer_capacity: nat) -> PoolModel {
    if buffer_capacity <= m.buffer_size * 2 && m.available < m.capacity {
        PoolModel { available: m.available + 1, ..m }
    } else {
        m
    }
}

/// The pool after a buffer was taken.
pub open spec fn acquired(m: PoolModel) -> PoolModel {
    if m.available > 0 {
        PoolModel { available: (m.available - 1) as nat, ..m }
    } else {
        m
    }
}

impl MessagePool {
    /// The buffers in the pool are empty, and there are no more than are kept.
    pub closed spec fn wf(&self) -> bool {
        &&& room(self.pool) == self.capacity
        &&& self.capacity > 0
        &&& self.buffer_size <= isize::MAX
        &&& queued(self.pool).len() <= self.capacity
        &&& forall|i: int|
            0 <= i < queued(self.pool).len() ==> (#[trigger] queued(self.pool)[i]).len() == 0
    }

    /// A pool with so many buffers of the given size.
    pub fn new(capacity: usize, buffer_size: usize) -> (r: Self)
        requires
            0 < capacity <= isize::MAX / 64,
            buffer_size <= isize::MAX,
        ensures
            r.wf(),
            r@ == (PoolModel {
                available: capacity as nat,
                buffer_size: buffer_size as nat,
                capacity: capacity as nat,
            }),
    {
        let mut pool = new_queue(capacity);
        let mut i: usize = 0;
        while i < capacity
            invariant
                i <= capacity,
                room(pool) == capacity,
                queued(pool).len() == i,
                forall|j: int| 0 <= j < i ==> (#[trigger] queued(pool)[j]).len() == 0,
            decreases capacity - i,
        {
            push(&mut pool, Vec::with_capacity(buffer_size));
            i = i + 1;
        }
        MessagePool { pool, buffer_size, capacity }
    }

    /// An empty buffer: one from the pool if one is at hand, and otherwise a new
    /// one.
    pub fn acquire(&mut self) -> (r: Vec<u8>)
        requires
            old(self).wf(),
        ensures
            final(self).wf(),
            r@.len() == 0,
            final(self)@ == acquired(old(self)@),
    {
        let ghost before = queued(self.pool);
        match pop(&mut self.pool) {
            Some(buf) => {
                assert forall|i: int| 0 <= i < queued(self.pool).len() implies (
                #[trigger] queued(self.pool)[i]).len() == 0 by {
                    assert(queued(self.pool)[i] == before[i + 1]);
                }
                let mut empty = buf;
                empty.clear();
                empty
            },
            None => Vec::with_capacity(self.buffer_size),
        }
    }

    /// Brings a buffer back. Whether it is kept depends on how far it has grown.
    pub fn release(&mut self, buf: Vec<u8>)
        requires
            old(self).wf(),
        ensures
            final(self).wf(),
            exists|c: nat|
                c >= buf@.len() && #[trigger] released(old(self)@, c) == final(self)@,
    {
        let capacity: usize = capacity_of(&buf);
        self.release_measured(buf, capacity);
    }

    /// Brings a buffer of the given capacity back.
    pub fn release_measured(&mut self, buf: Vec<u8>, buffer_capacity: usize)
        requires
            old(self).wf(),
        ensures
            final(self).wf(),
            final(self)@ == released(old(self)@, buffer_capacity as nat),
    {
        if buffer_capacity > self.buffer_size * 2 {
            return;
        }
        let mut empty = buf;
        empty.clear();
        let ghost before = queued(self.pool);
        push(&mut self.pool, empty);
        assert forall|i: int| 0 <= i < queued(self.pool).len() implies (
        #[trigger] queued(self.pool)[i]).len() == 0 by {
            if i < before.len() {
                assert(queued(self.pool)[i] == before[i]);
            }
        }
    }

    /// How many buffers are in use, of how many.
    pub fn usage(&self) -> (r: (usize, usize))
        requires
            self.wf(),
        ensures
            r.0 == self@.capacity - self@.available,
            r.1 == self@.capacity,
    {
        (self.capacity - len(&self.pool), self.capacity)
    }

    /// How many buffers are kept.
    pub fn capacity(&self) -> (r: usize)
        ensures
            r == self@.capacity,
    {
        self.capacity
    }

    /// How many buffers are at hand.
    pub fn available(&self) -> (r: usize)
        ensures
            r == self@.available,
    {
        len(&self.pool)
    }
}

/// A buffer on loan.
pub struct BufferGuard {
    buf: Vec<u8>,
}

impl View for BufferGuard {
    type V = Seq<u8>;

    closed spec fn view(&self) -> Seq<u8> {
        self.buf@
    }
}

impl BufferGuard {
    /// Takes a buffer from a pool.
    pub fn new(pool: &mut MessagePool) -> (r: Self)
        requires
            old(pool).wf(),
        ensures
            final(pool).wf(),
            r@.len() == 0,
            final(pool)@ == acquired(old(pool)@),
    {
        BufferGuard { buf: pool.acquire() }
    }

    /// The buffer.
    pub fn as_mut(&mut self) -> (r: &mut Vec<u8>)
        ensures
            r@ == old(self)@,
            final(self)@ == final(r)@,
    {
        &mut self.buf
    }

    /// The buffer.
    pub fn as_ref(&self) -> (r: &Vec<u8>)
        ensures
            r@ == self@,
    {
        &self.buf
    }

    /// Brings the buffer back to the pool.
    pub fn finish(self, pool: &mut MessagePool)
        requires
            old(pool).wf(),
        ensures
            final(pool).wf(),
            exists|c: nat|
                c >= self@.len() && #[trigger] released(old(pool)@, c) == final(pool)@,
    {
        pool.release(self.buf);
    }

    /// Writes frames into the buffer one after the other, and gives a copy of
    /// each.
    pub fn copy_frames(&mut self, frames: &Vec<Vec<u8>>) -> (r: Vec<Vec<u8>>)
        ensures
            frame_bytes(r@) == frame_bytes(frames@),
            final(self)@ == old(self)@ + joined(frame_bytes(frames@), frames@.len()),
    {
        let ghost start = self@;
        let ghost all = frame_bytes(frames@);
        let mut out: Vec<Vec<u8>> = Vec::new();
        assert(frame_bytes(out@) =~= all.take(0));
        assert(start + joined(all, 0) =~= start);
        let mut i: usize = 0;
        while i < frames.len()
            invariant
                i <= frames@.len(),
                all == frame_bytes(frames@),
                self@ == start + joined(all, i as nat),
                frame_bytes(out@) == all.take(i as int),
            decreases frames@.len() - i,
        {
            let from: usize = self.buf.len();
            let ghost before = self.buf@;
            self.buf.extend_from_slice(frames[i].as_slice());
            assert(self.buf@ =~= before + frames@[i as int]@);
            let to: usize = self.buf.len();
            let mut copy: Vec<u8> = Vec::new();
            let mut k: usize = from;
            while k < to
                invariant
                    from <= k <= to,
                    to == self.buf@.len(),
                    copy@ == self.buf@.subrange(from as int, k as int),
                decreases to - k,
            {
                copy.push(self.buf[k]);
                assert(self.buf@.subrange(from as int, k + 1) =~= self.buf@.subrange(
                    from as int,
                    k as int,
                ).push(self.buf@[k as int]));
                k = k + 1;
            }
            assert(copy@ =~= frames@[i as int]@);
            let ghost shown = copy@;
            let ghost earlier = out@;
            assert(all[i as int] == shown);
            out.push(copy);
            assert(frame_bytes(out@) =~= frame_bytes(earlier).push(shown));
            assert(all.take(i + 1) =~= all.take(i as int).push(shown));
            assert(start + joined(all, (i + 1) as nat) =~= (start + joined(all, i as nat)) + shown);
            i = i + 1;
        }
        assert(all.take(all.len() as int) =~= all);
        out
    }
}

/// The bytes of some frames.
pub open spec fn frame_bytes(v: Seq<Vec<u8>>) -> Seq<Seq<u8>> {
    v.map_values(|f: Vec<u8>| f@)
}

/// The first `n` frames, one after the other.
pub open spec fn joined(v: Seq<Seq<u8>>, n: nat) -> Seq<u8>
    decreases n,
{
    if n == 0 {
        Seq::empty()
    } else {
        joined(v, (n - 1) as nat) + v[n - 1]
    }
}

/// A buffer that has not grown too far comes back to the pool it was taken from.
pub proof fn law_buffer_comes_back(m: PoolModel, buffer_capacity: nat)
    requires
        0 < m.available <= m.capacity,
        buffer_capacity <= m.buffer_size * 2,
    ensures
        released(acquired(m), buffer_capacity) == m,
{
}

/// A pool never keeps more buffers than it may.
pub proof fn law_pool_is_bounded(m: PoolModel, buffer_capacity: nat)
    requires
        m.available <= m.capacity,
    ensures
        released(m, buffer_capacity).available <= m.capacity,
        acquired(m).available <= m.capacity,
{
}

/// A buffer is taken from those that are there, as long as there are any, and taken back
/// where it has not grown to more than twice its size and there is a place for it.
pub proof fn law_buffers_are_taken_and_given(m: PoolModel, buffer_capacity: nat)
    ensures
        m.available > 0 ==> acquired(m).available == m.available - 1,
        m.available == 0 ==> acquired(m) == m,
        buffer_capacity <= 2 * m.buffer_size && m.available < m.capacity ==> released(
            m,
            buffer_capacity,
        ).available == m.available + 1,
        buffer_capacity > 2 * m.buffer_size || m.available >= m.capacity ==> released(
            m,
            buffer_capacity,
        ) == m,
        acquired(m).capacity == m.capacity && released(m, buffer_capacity).capacity == m.capacity,
{
}

/// Frames are laid one after the other.
pub proof fn law_frames_follow_each_other(v: Seq<Seq<u8>>, n: nat)
    requires
        0 < n <= v.len(),
    ensures
        joined(v, 0).len() == 0,
        joined(v, n) == joined(v, (n - 1) as nat) + v[n - 1],
        joined(v, n).len() == joined(v, (n - 1) as nat).len() + v[n - 1].len(),
{
}

} // verus!
