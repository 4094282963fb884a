//! The write-side transport contract and its three sinks: a growable owned
//! buffer, a fixed-capacity buffer, and a counting sink that only measures.

use vstd::prelude::*;

use crate::error::{EndOfBuff, NoRWError};

verus! {

/// A byte sink.
///
/// A sink is modelled by the bytes it has accepted so far ([`Write::sink`])
/// and by which further writes it will take ([`Write::accepts`]).  A write
/// that the sink accepts succeeds and appends exactly the given bytes;
/// acceptance composes, so a caller that secures room for a whole message
/// may spend it over several writes.
pub trait Write: Sized {
    /// The sink's own failure value.
    type Error;

    /// The bytes accepted so far.
    spec fn sink(&self) -> Seq<u8>;

    /// True when a write of `n` more bytes is guaranteed to succeed.
    spec fn accepts(&self, n: nat) -> bool;

    /// A sink that takes `n` bytes takes any smaller amount.
    proof fn accepts_mono(&self, m: nat, n: nat)
        requires
            m <= n,
            self.accepts(n),
        ensures
            self.accepts(m),
    ;

    /// Writes all of `bytes`, returning how many bytes were written —
    /// always their full length on success.
    fn write_bytes(&mut self, bytes: &[u8]) -> (r: Result<usize, Self::Error>)
        ensures
            match r {
                Ok(n) => {
                    &&& n == bytes@.len()
                    &&& final(self).sink() == old(self).sink() + bytes@
                    &&& final(self).sink().len() <= usize::MAX
                    &&& forall|k: nat|
                        old(self).accepts(bytes@.len() + k) ==> final(self).accepts(k)
                },
                Err(_) => *final(self) == *old(self),
            },
            old(self).accepts(bytes@.len()) ==> r is Ok,
    ;

    /// Writes one byte; a convenience with the same contract at length one.
    fn write_byte(&mut self, byte: u8) -> (r: Result<usize, Self::Error>)
        ensures
            match r {
                Ok(n) => {
                    &&& n == 1
                    &&& final(self).sink() == old(self).sink() + seq![byte]
                    &&& final(self).sink().len() <= usize::MAX
                    &&& forall|k: nat| old(self).accepts(1 + k) ==> final(self).accepts(k)
                },
                Err(_) => *final(self) == *old(self),
            },
            old(self).accepts(1) ==> r is Ok,
    ;
}

/// A growable owned buffer.  It never rejects a write.
pub struct VecWriter {
    out: Vec<u8>,
}

impl VecWriter {
    /// An empty buffer.
    pub fn new() -> (r: VecWriter)
        ensures
            r.sink() == Seq::<u8>::empty(),
            forall|n: nat| r.accepts(n) <==> n <= usize::MAX,
    {
        VecWriter { out: Vec::new() }
    }

    /// Hands the accumulated bytes out.
    pub fn into_inner(self) -> (r: Vec<u8>)
        ensures
            r@ == self.sink(),
    {
        self.out
    }
}

impl Write for VecWriter {
    type Error = NoRWError;

    closed spec fn sink(&self) -> Seq<u8> {
        self.out@
    }

    closed spec fn accepts(&self, n: nat) -> bool {
        self.out@.len() + n <= usize::MAX
    }

    proof fn accepts_mono(&self, m: nat, n: nat) {
    }

    fn write_bytes(&mut self, bytes: &[u8]) -> (r: Result<usize, NoRWError>) {
        let n = bytes.len();
        let mut i: usize = 0;
        while i < n
            invariant
                i <= n,
                n == bytes@.len(),
                self.out@ == old(self).out@ + bytes@.take(i as int),
            decreases n - i,
        {
            self.out.push(bytes[i]);
            i = i + 1;
            proof {
                assert(self.out@ =~= old(self).out@ + bytes@.take(i as int));
            }
        }
        proof {
            assert(self.out@ =~= old(self).out@ + bytes@);
            assert(vstd::std_specs::vec::spec_vec_len(&self.out) == self.out@.len());
        }
        Ok(n)
    }

    fn write_byte(&mut self, byte: u8) -> (r: Result<usize, NoRWError>) {
        self.out.push(byte);
        proof {
            assert(vstd::std_specs::vec::spec_vec_len(&self.out) == self.out@.len());
        }
        Ok(1)
    }
}

/// A fixed-capacity buffer.  It owns its storage; writes fill it from the
/// front and fail with [`EndOfBuff`] once the capacity would be exceeded.
pub struct BuffWriter {
    buff: Vec<u8>,
    head: usize,
}

impl BuffWriter {
    /// Internal soundness of the cursor: the filled prefix never exceeds
    /// the buffer's capacity.
    #[verifier::type_invariant]
    spec fn wf(&self) -> bool {
        self.head <= self.buff@.len()
    }

    /// How much of the buffer has been filled so far.
    pub closed spec fn spec_head(&self) -> nat {
        self.head as nat
    }

    /// The buffer's fixed capacity.
    pub closed spec fn capacity(&self) -> nat {
        self.buff@.len()
    }

    /// Wraps a buffer; its current contents beyond the head are kept as
    /// scratch space and overwritten as writes arrive.
    pub fn new(buff: Vec<u8>) -> (r: BuffWriter)
        ensures
            r.sink() == Seq::<u8>::empty(),
            r.capacity() == buff@.len(),
            forall|n: nat| r.accepts(n) <==> n <= buff@.len(),
    {
        BuffWriter { buff, head: 0 }
    }

    /// Gives back the filled length together with the whole buffer.
    pub fn unwrap(self) -> (r: (usize, Vec<u8>))
        ensures
            r.0 == self.spec_head(),
            r.1@.len() == self.capacity(),
            r.0 <= r.1@.len(),
            r.1@.take(r.0 as int) == self.sink(),
    {
        proof {
            use_type_invariant(&self);
        }
        (self.head, self.buff)
    }

    /// The number of bytes written so far.
    pub fn len(&self) -> (r: usize)
        ensures
            r == self.spec_head(),
    {
        self.head
    }

    /// True when nothing has been written yet.
    pub fn is_empty(&self) -> (r: bool)
        ensures
            r == (self.spec_head() == 0),
    {
        self.head == 0
    }

    /// A copy of the filled prefix.
    pub fn get(&self) -> (r: Vec<u8>)
        ensures
            r@ == self.sink(),
    {
        proof {
            use_type_invariant(self);
        }
        let end: usize = self.head;
        let mut out: Vec<u8> = Vec::new();
        let mut i: usize = 0;
        while i < end
            invariant
                i <= end,
                end <= self.buff@.len(),
                end == vstd::math::min(self.head as int, self.buff@.len() as int),
                out@ == self.buff@.take(end as int).take(i as int),
            decreases end - i,
        {
            out.push(self.buff[i]);
            i = i + 1;
            proof {
                assert(out@ =~= self.buff@.take(end as int).take(i as int));
            }
        }
        proof {
            assert(out@ =~= self.buff@.take(end as int));
        }
        out
    }
}

impl Write for BuffWriter {
    type Error = EndOfBuff;

    closed spec fn sink(&self) -> Seq<u8> {
        self.buff@.take(vstd::math::min(self.head as int, self.buff@.len() as int))
    }

    closed spec fn accepts(&self, n: nat) -> bool {
        self.head + n <= self.buff@.len()
    }

    proof fn accepts_mono(&self, m: nat, n: nat) {
    }

    fn write_bytes(&mut self, bytes: &[u8]) -> (r: Result<usize, EndOfBuff>)
        ensures
            old(self).spec_head() + bytes@.len() > old(self).capacity() ==> r == Err::<
                usize,
                EndOfBuff,
            >(EndOfBuff),
            r is Ok ==> final(self).spec_head() == old(self).spec_head() + bytes@.len()
                && final(self).capacity() == old(self).capacity(),
    {
        proof {
            use_type_invariant(&*self);
        }
        let n = bytes.len();
        if n <= self.buff.len() - self.head {
            let head = self.head;
            self.head = 0;
            let mut buff: Vec<u8> = Vec::new();
            core::mem::swap(&mut buff, &mut self.buff);
            let mut i: usize = 0;
            while i < n
                invariant
                    i <= n,
                    n == bytes@.len(),
                    head + n <= buff@.len(),
                    buff@.len() <= usize::MAX,
                    buff@.len() == old(self).buff@.len(),
                    buff@.take(head as int) == old(self).buff@.take(head as int),
                    buff@.subrange(head as int, head + i) == bytes@.take(i as int),
                decreases n - i,
            {
                buff.set(head + i, bytes[i]);
                i = i + 1;
                proof {
                    assert(buff@.take(head as int) =~= old(self).buff@.take(head as int));
                    assert(buff@.subrange(head as int, head + i) =~= bytes@.take(i as int));
                }
            }
            self.buff = buff;
            self.head = head + n;
            proof {
                assert(bytes@.take(n as int) =~= bytes@);
                assert(self.sink() =~= old(self).sink() + bytes@);
            }
            Ok(n)
        } else {
            Err(EndOfBuff)
        }
    }

    fn write_byte(&mut self, byte: u8) -> (r: Result<usize, EndOfBuff>)
        ensures
            old(self).spec_head() + 1 > old(self).capacity() ==> r == Err::<usize, EndOfBuff>(
                EndOfBuff,
            ),
            r is Ok ==> final(self).spec_head() == old(self).spec_head() + 1
                && final(self).capacity() == old(self).capacity(),
    {
        proof {
            use_type_invariant(&*self);
        }
        if self.head < self.buff.len() {
            let head = self.head;
            self.head = 0;
            let mut buff: Vec<u8> = Vec::new();
            core::mem::swap(&mut buff, &mut self.buff);
            buff.set(head, byte);
            self.buff = buff;
            self.head = head + 1;
            proof {
                assert(self.sink() =~= old(self).sink() + seq![byte]);
            }
            Ok(1)
        } else {
            Err(EndOfBuff)
        }
    }
}

/// A sink that stores nothing and only counts, used to measure an encoding
/// without allocating.  It rejects a write only at the point where the
/// count itself would overflow.
pub struct DummyWriter {
    count: usize,
    written: Ghost<Seq<u8>>,
}

impl DummyWriter {
    /// Internal soundness of the counter: it always equals the length of
    /// the bytes accepted so far.
    #[verifier::type_invariant]
    spec fn wf(&self) -> bool {
        self.count == self.written@.len()
    }

    /// A fresh counter at zero.
    pub fn new() -> (r: DummyWriter)
        ensures
            r.sink() == Seq::<u8>::empty(),
            forall|n: nat| r.accepts(n) <==> n <= usize::MAX,
    {
        DummyWriter { count: 0, written: Ghost(Seq::empty()) }
    }

    /// The number of bytes accepted so far.
    pub fn count(&self) -> (r: usize)
        ensures
            r == self.sink().len(),
    {
        proof {
            use_type_invariant(self);
        }
        self.count
    }
}

impl Write for DummyWriter {
    type Error = EndOfBuff;

    closed spec fn sink(&self) -> Seq<u8> {
        self.written@
    }

    closed spec fn accepts(&self, n: nat) -> bool {
        self.written@.len() + n <= usize::MAX
    }

    proof fn accepts_mono(&self, m: nat, n: nat) {
    }

    fn write_bytes(&mut self, bytes: &[u8]) -> (r: Result<usize, EndOfBuff>) {
        proof {
            use_type_invariant(&*self);
        }
        let n = bytes.len();
        if n <= usize::MAX - self.count {
            let ghost appended = self.written@ + bytes@;
            *self = DummyWriter { count: self.count + n, written: Ghost(appended) };
            Ok(n)
        } else {
            Err(EndOfBuff)
        }
    }

    fn write_byte(&mut self, byte: u8) -> (r: Result<usize, EndOfBuff>) {
        proof {
            use_type_invariant(&*self);
        }
        if self.count < usize::MAX {
            let ghost appended = self.written@ + seq![byte];
            *self = DummyWriter { count: self.count + 1, written: Ghost(appended) };
            Ok(1)
        } else {
            Err(EndOfBuff)
        }
    }
}

} // verus!
