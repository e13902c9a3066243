//! The queue between the keyboard interrupt and the shell: scancodes wait
//! here, oldest first, until the shell takes them.

use vstd::prelude::*;

verus! {

/// How many scancodes can wait.
pub const SCANCODE_QUEUE_CAPACITY: usize = 256;

/// A bounded queue of scancodes.
pub struct ScancodeQueue {
    buffer: [u8; 256],
    tail: usize,
    len: usize,
}

impl View for ScancodeQueue {
    type V = Seq<u8>;

    closed spec fn view(&self) -> Seq<u8> {
        Seq::new(self.len as nat, |i: int| self.buffer[(self.tail + i) % 256])
    }
}

impl ScancodeQueue {
    #[verifier::type_invariant]
    closed spec fn ring_in_bounds(&self) -> bool {
        self.tail < SCANCODE_QUEUE_CAPACITY && self.len <= SCANCODE_QUEUE_CAPACITY
    }

    /// An empty queue.
    pub fn new() -> (queue: Self)
        ensures
            queue@ == Seq::<u8>::empty(),
    {
        let queue = ScancodeQueue { buffer: [0; 256], tail: 0, len: 0 };
        assert(queue@ =~= Seq::<u8>::empty());
        queue
    }

    /// Appends a scancode; a full queue drops it.
    pub fn push(&mut self, scancode: u8)
        ensures
            final(self)@ == (if old(self)@.len() < SCANCODE_QUEUE_CAPACITY {
                old(self)@.push(scancode)
            } else {
                old(self)@
            }),
    {
        proof {
            use_type_invariant(&*self);
        }
        if self.len == SCANCODE_QUEUE_CAPACITY {
            return ;
        }
        let head = (self.tail + self.len) % SCANCODE_QUEUE_CAPACITY;
        self.buffer[head] = scancode;
        self.len += 1;
        proof {
            let before = old(self)@;
            assert forall|i: int| 0 <= i < self@.len() implies self@[i] == before.push(scancode)[i] by {
                if i < before.len() {
                    assert((self.tail + i) % 256 != (self.tail + before.len()) % 256);
                }
            }
            assert(self@ =~= before.push(scancode));
        }
    }

    /// Takes the oldest scancode, if one waits.
    pub fn pop(&mut self) -> (scancode: Option<u8>)
        ensures
            old(self)@.len() == 0 ==> scancode is None && final(self)@ == old(self)@,
            old(self)@.len() > 0 ==> scancode == Some(old(self)@[0]) && final(self)@ == old(self)@.skip(
                1,
            ),
    {
        proof {
            use_type_invariant(&*self);
        }
        if self.len == 0 {
            return None;
        }
        let byte = self.buffer[self.tail];
        let ghost before = self@;
        assert(before[0] == byte);
        self.tail = (self.tail + 1) % SCANCODE_QUEUE_CAPACITY;
        self.len -= 1;
        proof {
            assert forall|i: int| 0 <= i < self@.len() implies self@[i] == before.skip(1)[i] by {
                assert((self.tail + i) % 256 == (old(self).tail + (i + 1)) % 256);
            }
            assert(self@ =~= before.skip(1));
        }
        Some(byte)
    }
}

/// Called for the keyboard interrupt: queues the scancode just read.
pub fn push_scancode(queue: &mut ScancodeQueue, scancode: u8)
    ensures
        final(queue)@ == (if old(queue)@.len() < SCANCODE_QUEUE_CAPACITY {
            old(queue)@.push(scancode)
        } else {
            old(queue)@
        }),
{
    queue.push(scancode);
}

/// Takes the next scancode that waits, if any.
pub fn pop_scancode(queue: &mut ScancodeQueue) -> (scancode: Option<u8>)
    ensures
        old(queue)@.len() == 0 ==> scancode is None && final(queue)@ == old(queue)@,
        old(queue)@.len() > 0 ==> scancode == Some(old(queue)@[0]) && final(queue)@ == old(queue)@.skip(
            1,
        ),
{
    queue.pop()
}

} // verus!
