//! Keyboard input buffering: a fixed ring buffer of bytes fed from the
//! serial line. Reading the hardware register is outside this crate;
//! the buffer receives already-read bytes and hands them out in order.

use vstd::prelude::*;

verus! {

/// Capacity of the input ring.
pub const BUF_SIZE: usize = 256;

/// Carriage returns arrive from the serial line and are normalized to
/// newlines before buffering.
pub open spec fn map_cr(b: u8) -> u8 {
    if b == 13 {
        10
    } else {
        b
    }
}

/// Fixed-capacity FIFO ring of bytes.
pub struct RingBuffer {
    buf: Vec<u8>,
    head: usize,
    tail: usize,
    len: usize,
}

impl RingBuffer {
    pub closed spec fn view(&self) -> Seq<u8> {
        Seq::new(self.len as nat, |k: int| self.buf@[(self.head + k) % 256])
    }

    pub closed spec fn wf(&self) -> bool {
        self.buf@.len() == 256 && self.head < 256 && self.tail < 256 && self.len <= 256
            && self.tail == (self.head + self.len) % 256
    }

    /// An empty ring.
    pub fn new() -> (r: RingBuffer)
        ensures
            r.wf(),
            r@ =~= Seq::<u8>::empty(),
    {
        RingBuffer { buf: vec![0u8; 256], head: 0, tail: 0, len: 0 }
    }

    /// Appends a byte; returns false (and changes nothing) when full.
    pub fn push(&mut self, b: u8) -> (r: bool)
        requires
            old(self).wf(),
        ensures
            final(self).wf(),
            r == (old(self)@.len() < 256),
            r ==> final(self)@ == old(self)@.push(b),
            !r ==> final(self)@ == old(self)@,
    {
        if self.len == BUF_SIZE {
            return false;
        }
        let ghost pre = *self;
        self.buf[self.tail] = b;
        self.tail = (self.tail + 1) % BUF_SIZE;
        self.len = self.len + 1;
        proof {
            assert forall|k: int| 0 <= k < self@.len() implies #[trigger] self@[k] == pre@.push(
                b,
            )[k] by {
                vstd::arithmetic::div_mod::lemma_mod_bound(pre.head + k, 256);
                if k < pre.len {
                    assert((pre.head + k) % 256 != (pre.head + pre.len) % 256) by {
                        lemma_mod_ne(pre.head as int, k, pre.len as int);
                    }
                } else {
                    assert((pre.head + k) % 256 == pre.tail);
                }
            }
            assert(self@ =~= pre@.push(b));
        }
        true
    }

    /// Removes and returns the oldest byte, or `None` when empty.
    pub fn pop(&mut self) -> (r: Option<u8>)
        requires
            old(self).wf(),
        ensures
            final(self).wf(),
            old(self)@.len() == 0 ==> r is None && final(self)@ == old(self)@,
            old(self)@.len() > 0 ==> r == Some(old(self)@[0]) && final(self)@ == old(
                self,
            )@.subrange(1, old(self)@.len() as int),
    {
        if self.len == 0 {
            return None;
        }
        let ghost pre = *self;
        let b = self.buf[self.head];
        self.head = (self.head + 1) % BUF_SIZE;
        self.len = self.len - 1;
        proof {
            assert((pre.head + 0) % 256 == pre.head) by {
                vstd::arithmetic::div_mod::lemma_small_mod(pre.head as nat, 256);
            }
            assert forall|k: int| 0 <= k < self@.len() implies #[trigger] self@[k] == pre@.subrange(
                1,
                pre@.len() as int,
            )[k] by {
                assert((self.head + k) % 256 == (pre.head + (k + 1)) % 256) by {
                    lemma_mod_shift(pre.head as int, k);
                }
            }
            assert(self@ =~= pre@.subrange(1, pre@.len() as int));
            assert((pre.head + pre.len) % 256 == (self.head + self.len) % 256) by {
                lemma_mod_shift(pre.head as int, self.len as int);
            }
        }
        Some(b)
    }
}

/// Offsets below the capacity stay distinct modulo the capacity.
proof fn lemma_mod_ne(h: int, a: int, b: int)
    requires
        0 <= h,
        0 <= a < b,
        b < 256,
    ensures
        (h + a) % 256 != (h + b) % 256,
{
    vstd::arithmetic::div_mod::lemma_fundamental_div_mod(h + a, 256);
    vstd::arithmetic::div_mod::lemma_fundamental_div_mod(h + b, 256);
    vstd::arithmetic::div_mod::lemma_mod_bound(h + a, 256);
    vstd::arithmetic::div_mod::lemma_mod_bound(h + b, 256);
    if (h + a) % 256 == (h + b) % 256 {
        let qa = (h + a) / 256;
        let qb = (h + b) / 256;
        assert(b - a == 256 * (qb - qa));
        assert(qb - qa >= 1 ==> 256 * (qb - qa) >= 256) by (nonlinear_arith);
        assert(qb - qa <= 0 ==> 256 * (qb - qa) <= 0) by (nonlinear_arith);
        assert(false);
    }
}

/// Advancing the head commutes with advancing the offset.
proof fn lemma_mod_shift(h: int, k: int)
    requires
        0 <= h,
        0 <= k,
    ensures
        ((h + 1) % 256 + k) % 256 == (h + (k + 1)) % 256,
{
    vstd::arithmetic::div_mod::lemma_add_mod_noop((h + 1) % 256, k, 256);
    vstd::arithmetic::div_mod::lemma_mod_twice(h + 1, 256);
    vstd::arithmetic::div_mod::lemma_add_mod_noop(h + 1, k, 256);
}

/// Buffered serial input.
pub struct Keyboard {
    buf: RingBuffer,
}

impl Keyboard {
    pub closed spec fn view(&self) -> Seq<u8> {
        self.buf@
    }

    pub closed spec fn wf(&self) -> bool {
        self.buf.wf()
    }

    /// An empty input buffer.
    pub fn new() -> (r: Keyboard)
        ensures
            r.wf(),
            r@ =~= Seq::<u8>::empty(),
    {
        Keyboard { buf: RingBuffer::new() }
    }

    /// Feeds bytes read off the serial line into the buffer, mapping
    /// carriage returns to newlines, until the buffer is full.
    pub fn poll(&mut self, input: &[u8]) -> (n: usize)
        requires
            old(self).wf(),
        ensures
            final(self).wf(),
            n == vstd::math::min(input@.len() as int, 256 - old(self)@.len()),
            final(self)@ == old(self)@ + input@.take(n as int).map_values(|b: u8| map_cr(b)),
    {
        let mut i: usize = 0;
        proof {
            assert(old(self)@ + input@.take(0).map_values(|b: u8| map_cr(b)) =~= old(self)@);
        }
        while i < input.len()
            invariant
                self.wf(),
                i <= input@.len(),
                self@.len() == old(self)@.len() + i,
                self@.len() <= 256,
                i <= 256 - old(self)@.len(),
                self@ == old(self)@ + input@.take(i as int).map_values(|b: u8| map_cr(b)),
            decreases input@.len() - i,
        {
            let mut byte = input[i];
            if byte == 13 {
                byte = 10;
            }
            let ghost pre = self@;
            if !self.buf.push(byte) {
                proof {
                    assert(self@.len() == 256);
                }
                return i;
            }
            proof {
                assert(input@.take(i + 1) =~= input@.take(i as int).push(input@[i as int]));
                assert(self@ =~= old(self)@ + input@.take(i + 1).map_values(
                    |b: u8| map_cr(b),
                )) by {
                    assert(input@.take(i as int).push(input@[i as int]).map_values(
                        |b: u8| map_cr(b),
                    ) =~= input@.take(i as int).map_values(|b: u8| map_cr(b)).push(
                        map_cr(input@[i as int]),
                    ));
                }
            }
            i += 1;
        }
        i
    }

    /// Drains buffered bytes into `out`, filling it from the front;
    /// returns how many bytes were written.
    pub fn read(&mut self, out: &mut Vec<u8>) -> (n: usize)
        requires
            old(self).wf(),
        ensures
            final(self).wf(),
            n == vstd::math::min(old(out)@.len() as int, old(self)@.len() as int),
            final(self)@ == old(self)@.skip(n as int),
            final(out)@.len() == old(out)@.len(),
            forall|k: int|
                0 <= k < old(out)@.len() ==> final(out)@[k] == if k < n {
                    old(self)@[k]
                } else {
                    old(out)@[k]
                },
    {
        let mut count: usize = 0;
        proof {
            assert(self@.skip(0) =~= self@);
        }
        while count < out.len()
            invariant
                self.wf(),
                count <= out@.len(),
                out@.len() == old(out)@.len(),
                count <= old(self)@.len(),
                self@ == old(self)@.skip(count as int),
                forall|k: int|
                    0 <= k < old(out)@.len() ==> out@[k] == if k < count {
                        old(self)@[k]
                    } else {
                        old(out)@[k]
                    },
            decreases out@.len() - count,
        {
            let ghost pre = self@;
            match self.buf.pop() {
                Some(b) => {
                    out[count] = b;
                    proof {
                        assert(pre[0] == old(self)@[count as int]);
                        assert(self@ =~= old(self)@.skip(count + 1));
                    }
                    count += 1;
                },
                None => {
                    return count;
                },
            }
        }
        count
    }
}

} // verus!
