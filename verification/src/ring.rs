//! A ring of bytes: what is written first is read first. One slot always stays free, so
//! that an empty ring can be told from a full one.
use vstd::prelude::*;
use vstd::arithmetic::div_mod::*;

verus! {

/// Largest capacity; keeps all index arithmetic in range.
pub const RING_MAX: usize = 0x10000000;

/// A position `i` steps behind `from` in a ring of `cap` slots.
pub open spec fn at(cap: int, from: int, i: int) -> int {
    if from + i < cap {
        from + i
    } else {
        from + i - cap
    }
}

/// The ring.
pub struct Ring {
    slots: Vec<u8>,
    head: usize,
    tail: usize,
}

proof fn lemma_wrap(x: int, cap: int)
    requires
        0 < cap,
        0 <= x < 2 * cap,
    ensures
        x % cap == (if x < cap {
            x
        } else {
            x - cap
        }),
{
    if x < cap {
        lemma_small_mod(x as nat, cap as nat);
    } else {
        lemma_fundamental_div_mod_converse(x, cap, 1, x - cap);
    }
}

impl Ring {
    pub closed spec fn wf(&self) -> bool {
        &&& self.slots@.len() <= RING_MAX
        &&& self.slots@.len() > 0 ==> self.head < self.slots@.len() && self.tail
            < self.slots@.len()
        &&& self.slots@.len() == 0 ==> self.head == 0 && self.tail == 0
    }

    /// Number of slots.
    pub closed spec fn cap(&self) -> nat {
        self.slots@.len()
    }

    spec fn used(&self) -> int {
        if self.head >= self.tail {
            self.head - self.tail
        } else {
            self.head + self.slots@.len() - self.tail
        }
    }

    /// The bytes in the ring, the oldest first.
    pub closed spec fn data(&self) -> Seq<u8> {
        Seq::new(
            self.used() as nat,
            |i: int| self.slots@[at(self.slots@.len() as int, self.tail as int, i)],
        )
    }

    /// One slot stays free.
    pub proof fn lemma_bounded(&self)
        requires
            self.wf(),
        ensures
            self.cap() <= RING_MAX,
            self.cap() > 0 ==> self.data().len() < self.cap(),
            self.cap() == 0 ==> self.data().len() == 0,
    {
    }

    /// A ring over the given slots.
    pub fn new(slots: Vec<u8>) -> (r: Self)
        requires
            slots@.len() <= RING_MAX,
        ensures
            r.wf(),
            r.cap() == slots@.len(),
            r.data() == Seq::<u8>::empty(),
    {
        let r = Ring { slots, head: 0, tail: 0 };
        assert(r.data() =~= Seq::<u8>::empty());
        r
    }

    pub fn capacity(&self) -> (n: usize)
        ensures
            n == self.cap(),
    {
        self.slots.len()
    }

    /// Bytes that can be read.
    pub fn buffered(&self) -> (n: usize)
        requires
            self.wf(),
            self.cap() > 0,
        ensures
            n == self.data().len(),
    {
        let cap = self.slots.len();
        proof {
            lemma_wrap(self.head + cap - self.tail, cap as int);
        }
        (self.head + cap - self.tail) % cap
    }

    /// Bytes that can be written.
    pub fn space(&self) -> (n: usize)
        requires
            self.wf(),
            self.cap() > 0,
        ensures
            n == self.cap() - 1 - self.data().len(),
    {
        let cap = self.slots.len();
        proof {
            let x = self.tail + 2 * cap - self.head - 1;
            if x >= 2 * cap {
                lemma_fundamental_div_mod_converse(x, cap as int, 2, x - 2 * cap);
            } else {
                lemma_wrap(x, cap as int);
            }
        }
        (self.tail + 2 * cap - self.head - 1) % cap
    }

    pub fn clear(&mut self)
        requires
            old(self).wf(),
        ensures
            final(self).wf(),
            final(self).cap() == old(self).cap(),
            final(self).data() == Seq::<u8>::empty(),
    {
        self.head = 0;
        self.tail = 0;
        assert(self.data() =~= Seq::<u8>::empty());
    }

    /// Writes one byte.
    pub fn push(&mut self, b: u8)
        requires
            old(self).wf(),
            old(self).data().len() + 1 < old(self).cap(),
        ensures
            final(self).wf(),
            final(self).cap() == old(self).cap(),
            final(self).data() == old(self).data().push(b),
    {
        let cap = self.slots.len();
        let h = self.head;
        proof {
            lemma_wrap(h + 1, cap as int);
        }
        self.slots.set(h, b);
        self.head = (h + 1) % cap;
        assert(self.data() =~= old(self).data().push(b));
    }

    /// Reads one byte.
    pub fn pop(&mut self) -> (b: u8)
        requires
            old(self).wf(),
            old(self).data().len() > 0,
        ensures
            final(self).wf(),
            final(self).cap() == old(self).cap(),
            b == old(self).data()[0],
            final(self).data() == old(self).data().skip(1),
    {
        let cap = self.slots.len();
        let t = self.tail;
        proof {
            lemma_wrap(t + 1, cap as int);
        }
        let b = self.slots[t];
        self.tail = (t + 1) % cap;
        assert(self.data() =~= old(self).data().skip(1));
        b
    }
}

} // verus!
