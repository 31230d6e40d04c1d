//! Single-producer/single-consumer byte ring buffer.
//!
//! A fixed-capacity byte queue with grant/commit on the write side and
//! read/release on the read side. At most one write grant and one read grant
//! are outstanding at a time; a grant is a contiguous region, so a write
//! grant that does not fit before the end of the storage wraps to the front
//! when enough released room is there. No byte is ever duplicated,
//! reordered, or read twice: commits append to the queue, reads see its
//! oldest bytes, releases drop exactly what was read.

use vstd::prelude::*;

verus! {

/// Why a grant could not be given.
#[derive(Clone, Copy, Debug, PartialEq, Eq, Structural)]
pub enum RingError {
    /// A grant on the same side is already outstanding
    GrantInProgress,
    /// The free room is too fragmented or too small for the request
    InsufficientSize,
}

/// The ring buffer. The queue's contents live between the read position and
/// the write position, wrapping at the watermark when the writer has turned
/// around before the reader.
pub struct RingBuffer {
    storage: Vec<u8>,
    read: usize,
    write: usize,
    watermark: usize,
    write_grant: Option<(usize, usize)>,
    read_grant: Option<usize>,
    committed: Ghost<nat>,
    released: Ghost<nat>,
}

impl RingBuffer {
    /// The committed bytes not yet released, oldest first.
    pub closed spec fn view(&self) -> Seq<u8> {
        if self.write >= self.read {
            self.storage@.subrange(self.read as int, self.write as int)
        } else {
            self.storage@.subrange(self.read as int, self.watermark as int) + self.storage@.subrange(
                0,
                self.write as int,
            )
        }
    }

    /// Total bytes ever committed.
    pub closed spec fn committed_total(&self) -> nat {
        self.committed@
    }

    /// Total bytes ever released.
    pub closed spec fn released_total(&self) -> nat {
        self.released@
    }

    /// Whether a write grant is outstanding.
    pub closed spec fn write_granted(&self) -> Option<nat> {
        match self.write_grant {
            Option::Some((_, size)) => Option::Some(size as nat),
            Option::None => Option::None,
        }
    }

    /// Whether a read grant is outstanding, and over how many bytes.
    pub closed spec fn read_granted(&self) -> Option<nat> {
        match self.read_grant {
            Option::Some(len) => Option::Some(len as nat),
            Option::None => Option::None,
        }
    }

    /// The fixed capacity.
    pub closed spec fn spec_capacity(&self) -> nat {
        self.storage@.len()
    }

    /// The length of the contiguous front of the queue: what one `read`
    /// hands out. It falls short of the whole queue only when the writer has
    /// wrapped, in which case a second read after the release returns the
    /// rest.
    pub closed spec fn spec_front_len(&self) -> nat {
        if self.write >= self.read {
            (self.write - self.read) as nat
        } else if self.read == self.watermark {
            self.write as nat
        } else {
            (self.watermark - self.read) as nat
        }
    }

    /// Whether a contiguous free region of `size` bytes exists right now:
    /// room at the end of the storage, or — for a writer that has to wrap —
    /// room in front of the reader.
    pub closed spec fn spec_room(&self, size: nat) -> bool {
        if self.write >= self.read {
            size <= self.storage@.len() - self.write || size < self.read
        } else {
            size < self.read - self.write
        }
    }

    /// The internal invariant: positions within bounds, the wrapped shape
    /// only with the watermark behind the reader, grants over free or
    /// readable regions, and the byte conservation between the counters and
    /// the queue.
    pub closed spec fn wf(&self) -> bool {
        &&& self.storage@.len() > 0
        &&& self.storage@.len() <= 0xffff_ffff
        &&& self.watermark <= self.storage@.len()
        &&& if self.write >= self.read {
            self.write <= self.storage@.len() && self.watermark == self.storage@.len()
        } else {
            self.read <= self.watermark
        }
        &&& match self.write_grant {
            Option::Some((start, size)) => {
                if self.write >= self.read {
                    (start == self.write && self.write + size <= self.storage@.len()) || (start == 0
                        && size < self.read)
                } else {
                    start == self.write && self.write + size < self.read
                }
            },
            Option::None => true,
        }
        &&& match self.read_grant {
            Option::Some(len) => if self.write >= self.read {
                len <= self.write - self.read
            } else {
                len <= self.watermark - self.read
            },
            Option::None => true,
        }
        &&& self.committed@ == self.released@ + self.view().len()
    }

    /// A fresh, empty ring of the given capacity.
    pub fn new(capacity: usize) -> (r: RingBuffer)
        requires
            0 < capacity <= 0xffff_ffff,
        ensures
            r.wf(),
            r@ == Seq::<u8>::empty(),
            r.spec_capacity() == capacity,
            r.committed_total() == 0,
            r.released_total() == 0,
            r.write_granted() is None,
            r.read_granted() is None,
            forall|size: nat| r.spec_room(size) <==> size <= capacity,
    {
        let mut storage: Vec<u8> = Vec::new();
        let mut i: usize = 0;
        while i < capacity
            invariant
                i <= capacity,
                storage@.len() == i,
            decreases capacity - i,
        {
            storage.push(0u8);
            i += 1;
        }
        let r = RingBuffer {
            storage,
            read: 0,
            write: 0,
            watermark: capacity,
            write_grant: Option::None,
            read_grant: Option::None,
            committed: Ghost(0),
            released: Ghost(0),
        };
        proof {
            assert(r@ =~= Seq::<u8>::empty());
        }
        r
    }

    /// Ask for room to write `size` contiguous bytes.
    ///
    /// Fails with `GrantInProgress` while a write grant is outstanding, and
    /// with `InsufficientSize` when no contiguous free region of that size
    /// exists; it never blocks. The queue itself is unchanged.
    pub fn grant(&mut self, size: usize) -> (r: Result<(), RingError>)
        requires
            old(self).wf(),
        ensures
            final(self).wf(),
            final(self)@ == old(self)@,
            final(self).committed_total() == old(self).committed_total(),
            final(self).released_total() == old(self).released_total(),
            final(self).read_granted() == old(self).read_granted(),
            final(self).spec_capacity() == old(self).spec_capacity(),
            old(self).write_granted() is Some ==> r == Err::<(), RingError>(
                RingError::GrantInProgress,
            ) && final(self).write_granted() == old(self).write_granted(),
            old(self).write_granted() is None ==> (r is Ok <==> old(self).spec_room(size as nat)),
            old(self).write_granted() is None && !old(self).spec_room(size as nat) ==> r == Err::<
                (),
                RingError,
            >(RingError::InsufficientSize) && final(self).write_granted() is None,
            r is Ok ==> final(self).write_granted() == Option::Some(size as nat),
            r == Err::<(), RingError>(RingError::InsufficientSize) ==> final(self).write_granted()
                is None,
            forall|n: nat| final(self).spec_room(n) <==> old(self).spec_room(n),
    {
        if self.write_grant.is_some() {
            return Err(RingError::GrantInProgress);
        }
        if self.write >= self.read {
            if size <= self.storage.len() - self.write {
                self.write_grant = Option::Some((self.write, size));
                Ok(())
            } else if size < self.read {
                self.write_grant = Option::Some((0, size));
                Ok(())
            } else {
                Err(RingError::InsufficientSize)
            }
        } else {
            if self.read - self.write > size {
                self.write_grant = Option::Some((self.write, size));
                Ok(())
            } else {
                Err(RingError::InsufficientSize)
            }
        }
    }

    /// Commit bytes into the outstanding write grant: the first `data.len()`
    /// bytes of the granted region are filled and appended to the queue, and
    /// the grant is consumed. A commit may be shorter than the grant, never
    /// longer.
    pub fn commit(&mut self, data: &[u8])
        requires
            old(self).wf(),
            old(self).write_granted() matches Option::Some(size) && data@.len() <= size,
        ensures
            final(self).wf(),
            final(self)@ == old(self)@ + data@,
            final(self).committed_total() == old(self).committed_total() + data@.len(),
            final(self).released_total() == old(self).released_total(),
            final(self).read_granted() == old(self).read_granted(),
            final(self).spec_capacity() == old(self).spec_capacity(),
            final(self).write_granted() is None,
    {
        let (start, size) = match self.write_grant {
            Option::Some(g) => g,
            Option::None => {
                proof {
                    assert(false);
                }
                (0, 0)
            },
        };
        proof {
            assert(start + size <= self.storage@.len());
            assert(start + data@.len() <= self.storage@.len());
        }
        let ghost pre = self.storage@;
        let mut i: usize = 0;
        while i < data.len()
            invariant
                i <= data@.len(),
                start + data@.len() <= self.storage@.len(),
                self.storage@.len() <= 0xffff_ffff,
                self.storage@.len() == pre.len(),
                self.read == old(self).read,
                self.write == old(self).write,
                self.watermark == old(self).watermark,
                self.write_grant == old(self).write_grant,
                self.read_grant == old(self).read_grant,
                self.committed == old(self).committed,
                self.released == old(self).released,
                self.storage@ == pre.map(
                    |j: int, b: u8|
                        if start <= j < start + i {
                            data@[j - start]
                        } else {
                            b
                        },
                ),
            decreases data@.len() - i,
        {
            self.storage.set(start + i, data[i]);
            proof {
                assert(self.storage@ =~= pre.map(
                    |j: int, b: u8|
                        if start <= j < start + i + 1 {
                            data@[j - start]
                        } else {
                            b
                        },
                ));
            }
            i += 1;
        }
        let ghost filled = self.storage@;
        if start == self.write {
            self.write = self.write + data.len();
            proof {
                assert(self.write == old(self).write + data@.len());
            }
        } else {
            self.watermark = self.write;
            self.write = data.len();
            proof {
                assert(self.watermark == old(self).write && self.write == data@.len());
            }
        }
        self.write_grant = Option::None;
        proof {
            self.committed@ = (self.committed@ + data@.len()) as nat;
        }
        proof {
            let n = data@.len() as int;
            let r0 = old(self).read as int;
            let w0 = old(self).write as int;
            let m0 = old(self).watermark as int;
            assert(filled.subrange(start as int, start + n) =~= data@);
            if start == w0 {
                if w0 >= r0 {
                    assert(self.storage@ == filled);
                    assert(self.read == r0 && self.write == w0 + n);
                    assert(self@ == filled.subrange(r0, w0 + n));
                    assert(old(self)@ == pre.subrange(r0, w0));
                    assert(filled.subrange(r0, w0) =~= pre.subrange(r0, w0));
                    assert(self@ =~= filled.subrange(r0, w0) + filled.subrange(w0, w0 + n));
                    assert(self@ =~= old(self)@ + data@);
                } else {
                    assert(filled.subrange(r0, m0) =~= pre.subrange(r0, m0));
                    assert(filled.subrange(0, w0) =~= pre.subrange(0, w0));
                    assert(filled.subrange(0, w0 + n) =~= filled.subrange(0, w0)
                        + filled.subrange(w0, w0 + n));
                    assert(self@ =~= old(self)@ + data@);
                }
            } else {
                assert(start == 0 && w0 >= r0);
                assert(filled.subrange(r0, w0) =~= pre.subrange(r0, w0));
                assert(self@ =~= filled.subrange(r0, w0) + filled.subrange(0, n));
                assert(self@ =~= old(self)@ + data@);
            }
        }
    }

    /// Read the oldest committed bytes: a copy of the longest contiguous
    /// region at the front of the queue, leaving a read grant over it.
    ///
    /// Fails with `GrantInProgress` while a read grant is outstanding and
    /// with `InsufficientSize` when the queue front is empty.
    pub fn read(&mut self) -> (r: Result<Vec<u8>, RingError>)
        requires
            old(self).wf(),
        ensures
            final(self).wf(),
            final(self)@ == old(self)@,
            final(self).committed_total() == old(self).committed_total(),
            final(self).released_total() == old(self).released_total(),
            final(self).write_granted() == old(self).write_granted(),
            final(self).spec_capacity() == old(self).spec_capacity(),
            old(self).read_granted() is Some ==> r == Err::<Vec<u8>, RingError>(
                RingError::GrantInProgress,
            ) && final(self).read_granted() == old(self).read_granted(),
            r matches Ok(bytes) ==> bytes@.len() == old(self).spec_front_len() && bytes@.len() > 0
                && bytes@ == old(self)@.take(bytes@.len() as int) && final(self).read_granted()
                == Option::Some(bytes@.len() as nat),
            old(self).read_granted() is None && old(self)@.len() > 0 ==> r is Ok,
            r == Err::<Vec<u8>, RingError>(RingError::InsufficientSize)
                ==> final(self).read_granted() is None,
    {
        if self.read_grant.is_some() {
            return Err(RingError::GrantInProgress);
        }
        if self.write < self.read && self.read == self.watermark {
            let ghost before = self@;
            let ghost st = self.storage@;
            let ghost r0 = self.read as int;
            let ghost m0 = self.watermark as int;
            self.read = 0;
            self.watermark = self.storage.len();
            proof {
                assert(st.subrange(r0, m0) =~= Seq::<u8>::empty());
                assert(self@ =~= before);
            }
        }
        let end = if self.write >= self.read {
            self.write
        } else {
            self.watermark
        };
        if end == self.read {
            proof {
                assert(self@.len() > 0 ==> false);
            }
            return Err(RingError::InsufficientSize);
        }
        let mut bytes: Vec<u8> = Vec::new();
        let mut k: usize = self.read;
        while k < end
            invariant
                self.read <= k <= end,
                end <= self.storage@.len(),
                bytes@ == self.storage@.subrange(self.read as int, k as int),
            decreases end - k,
        {
            bytes.push(self.storage[k]);
            proof {
                assert(bytes@ =~= self.storage@.subrange(self.read as int, k + 1));
            }
            k += 1;
        }
        self.read_grant = Option::Some(bytes.len());
        proof {
            assert(bytes@ =~= self@.take(bytes@.len() as int));
        }
        Ok(bytes)
    }

    /// Release bytes back to the writer: the oldest `used` bytes leave the
    /// queue and the read grant is consumed. A release may be shorter than
    /// what was read, never longer.
    pub fn release(&mut self, used: usize)
        requires
            old(self).wf(),
            old(self).read_granted() matches Option::Some(len) && used <= len,
        ensures
            final(self).wf(),
            final(self)@ == old(self)@.skip(used as int),
            final(self).committed_total() == old(self).committed_total(),
            final(self).released_total() == old(self).released_total() + used,
            final(self).write_granted() == old(self).write_granted(),
            final(self).spec_capacity() == old(self).spec_capacity(),
            final(self).read_granted() is None,
    {
        self.read = self.read + used;
        if self.write < self.read && self.read == self.watermark {
            self.read = 0;
            self.watermark = self.storage.len();
        }
        self.read_grant = Option::None;
        proof {
            self.released@ = (self.released@ + used) as nat;
        }
        proof {
            assert(final(self)@ =~= old(self)@.skip(used as int));
        }
    }

    /// The number of committed bytes not yet released.
    pub fn len(&self) -> (r: usize)
        requires
            self.wf(),
        ensures
            r == self@.len(),
    {
        if self.write >= self.read {
            self.write - self.read
        } else {
            (self.watermark - self.read) + self.write
        }
    }

    /// The fixed capacity.
    pub fn capacity(&self) -> (r: usize)
        ensures
            r == self.spec_capacity(),
    {
        self.storage.len()
    }
}

/// Byte conservation: at every state that the ring's operations can reach,
/// everything ever committed is either already released or still pending in
/// the queue — so every committed byte is eventually released exactly once
/// when the queue is drained.
pub proof fn lemma_byte_conservation(ring: RingBuffer)
    requires
        ring.wf(),
    ensures
        ring.committed_total() == ring.released_total() + ring@.len(),
        ring@.len() == 0 ==> ring.committed_total() == ring.released_total(),
{
}

} // verus!
