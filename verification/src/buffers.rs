//! Buffers that are kept for reuse.

use crate::fields::texts;
use vstd::prelude::*;

verus! {

/// How many buffers a pool keeps.
pub const POOL_LIMIT: usize = 10;

/// A stack of buffers.
pub struct BufferPool {
    buffers: Vec<Vec<u8>>,
}

impl View for BufferPool {
    type V = Seq<Seq<u8>>;

    closed spec fn view(&self) -> Seq<Seq<u8>> {
        texts(self.buffers@)
    }
}

impl BufferPool {
    /// Whether the pool keeps no more than its limit.
    pub open spec fn wf(&self) -> bool {
        self@.len() <= POOL_LIMIT
    }

    /// A pool without buffers.
    pub fn new() -> (r: BufferPool)
        ensures
            r.wf(),
            r@ == Seq::<Seq<u8>>::empty(),
    {
        let r = BufferPool { buffers: Vec::new() };
        assert(r@ =~= Seq::<Seq<u8>>::empty());
        r
    }
}

/// The pool after a buffer was asked for: without the one on top.
pub open spec fn popped(pool: Seq<Seq<u8>>) -> Seq<Seq<u8>> {
    if pool.len() == 0 {
        pool
    } else {
        pool.drop_last()
    }
}

/// A buffer of a given size: the one on top where it has that size, else a
/// fresh one of zeros.
pub open spec fn served(pool: Seq<Seq<u8>>, size: nat) -> Seq<u8> {
    if pool.len() > 0 && pool.last().len() == size {
        pool.last()
    } else {
        Seq::new(size, |i: int| 0u8)
    }
}

/// The pool after a buffer came back: a full pool drops it.
pub open spec fn pushed(pool: Seq<Seq<u8>>, buffer: Seq<u8>) -> Seq<Seq<u8>> {
    if pool.len() < POOL_LIMIT {
        pool.push(buffer)
    } else {
        pool
    }
}

/// Takes a buffer of a given size. The buffer on top leaves the pool even where
/// its size is another.
pub fn get_buffer(pool: &mut BufferPool, size: usize) -> (r: Vec<u8>)
    ensures
        final(pool)@ == popped(old(pool)@),
        old(pool).wf() ==> final(pool).wf(),
        r@ == served(old(pool)@, size as nat),
{
    let ghost before = pool.buffers@;
    assert(texts(before).len() == before.len());
    let top = pool.buffers.pop();
    assert(before.len() > 0 ==> texts(pool.buffers@) =~= texts(before).drop_last());
    match top {
        Some(buffer) => {
            assert(texts(before).last() == buffer@);
            if buffer.len() == size {
                return buffer;
            }
        },
        None => {},
    }
    let fresh: Vec<u8> = vec![0u8; size];
    assert(fresh@ =~= Seq::new(size as nat, |i: int| 0u8));
    fresh
}

/// Gives a buffer back.
pub fn return_buffer(pool: &mut BufferPool, buffer: Vec<u8>)
    ensures
        final(pool)@ == pushed(old(pool)@, buffer@),
        old(pool).wf() ==> final(pool).wf(),
{
    let ghost before = pool.buffers@;
    assert(texts(before).len() == before.len());
    if pool.buffers.len() < POOL_LIMIT {
        pool.buffers.push(buffer);
        assert(texts(pool.buffers@) =~= texts(before).push(buffer@));
    }
}

/// A buffer that came back is what the next request for its size gets, as long
/// as the pool was not full, and the pool is then as it was.
pub proof fn lemma_buffer_comes_back(pool: Seq<Seq<u8>>, buffer: Seq<u8>)
    requires
        pool.len() < POOL_LIMIT,
    ensures
        served(pushed(pool, buffer), buffer.len()) == buffer,
        popped(pushed(pool, buffer)) == pool,
{
    assert(pool.push(buffer).drop_last() =~= pool);
}

/// No use of a pool fills it beyond its limit.
pub proof fn lemma_pool_bounded(pool: Seq<Seq<u8>>, buffer: Seq<u8>)
    requires
        pool.len() <= POOL_LIMIT,
    ensures
        pushed(pool, buffer).len() <= POOL_LIMIT,
        popped(pool).len() <= POOL_LIMIT,
{
}

/// A buffer has the size that was asked for, always; it is the one on top exactly
/// where that has the size, and else fresh and all zeros. The one on top leaves the
/// pool either way, and no other does.
pub proof fn lemma_buffer_served(pool: Seq<Seq<u8>>, size: nat)
    ensures
        served(pool, size).len() == size,
        pool.len() > 0 && pool.last().len() == size ==> served(pool, size) == pool.last(),
        !(pool.len() > 0 && pool.last().len() == size) ==> forall|i: int|
            0 <= i < size ==> #[trigger] served(pool, size)[i] == 0,
        pool.len() > 0 ==> pool == popped(pool).push(pool.last()),
        pool.len() == 0 ==> popped(pool).len() == 0,
{
    if pool.len() > 0 {
        assert(pool =~= pool.drop_last().push(pool.last()));
    }
}

/// A pool of fewer than ten buffers keeps one that comes back, on top of the others;
/// a full one stays as it is.
pub proof fn lemma_buffer_kept(pool: Seq<Seq<u8>>, buffer: Seq<u8>)
    ensures
        pool.len() < 10 ==> pushed(pool, buffer) == pool.push(buffer),
        pool.len() >= 10 ==> pushed(pool, buffer) == pool,
{
}

} // verus!
