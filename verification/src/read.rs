//! The read-side transport contract and its two sources: a zero-copy
//! in-memory reader over a borrowed slice, and an owning reader that hands
//! out copies.

use vstd::prelude::*;

use crate::error::EndOfBuff;
use crate::tag::{STR_END_MARKER_0, STR_END_MARKER_1};

verus! {

/// The position of the first two-byte marker-terminated-string end marker
/// in `s`, or nothing when no window of two adjacent bytes matches it.
pub open spec fn find_marker(s: Seq<u8>) -> Option<nat>
    decreases s.len(),
{
    if s.len() < 2 {
        None
    } else if s[0] == STR_END_MARKER_0 && s[1] == STR_END_MARKER_1 {
        Some(0)
    } else {
        match find_marker(s.skip(1)) {
            Some(i) => Some(i + 1),
            None => None,
        }
    }
}

/// The found marker really stands at its reported position, nothing before
/// it matches, and it lies within the sequence.
pub proof fn lemma_find_marker(s: Seq<u8>)
    ensures
        find_marker(s) matches Some(i) ==> {
            &&& i + 2 <= s.len()
            &&& s[i as int] == STR_END_MARKER_0
            &&& s[i as int + 1] == STR_END_MARKER_1
            &&& forall|j: int|
                0 <= j < i ==> !(#[trigger] s[j] == STR_END_MARKER_0 && s[j + 1]
                    == STR_END_MARKER_1)
        },
        find_marker(s) is None ==> forall|j: int|
            0 <= j && j + 1 < s.len() ==> !(#[trigger] s[j] == STR_END_MARKER_0 && s[j + 1]
                == STR_END_MARKER_1),
    decreases s.len(),
{
    if s.len() < 2 {
    } else if s[0] == STR_END_MARKER_0 && s[1] == STR_END_MARKER_1 {
    } else {
        lemma_find_marker(s.skip(1));
        match find_marker(s.skip(1)) {
            Some(i) => {
                assert forall|j: int|
                    0 <= j < i + 1 implies !(#[trigger] s[j] == STR_END_MARKER_0 && s[j + 1]
                    == STR_END_MARKER_1) by {
                    if j > 0 {
                        assert(s.skip(1)[j - 1] == s[j]);
                        assert(s.skip(1)[j] == s[j + 1]);
                    }
                }
            },
            None => {
                assert forall|j: int|
                    0 <= j && j + 1 < s.len() implies !(#[trigger] s[j] == STR_END_MARKER_0 && s[j
                    + 1] == STR_END_MARKER_1) by {
                    if j > 0 {
                        assert(s.skip(1)[j - 1] == s[j]);
                        assert(s.skip(1)[j] == s[j + 1]);
                    }
                }
            },
        }
    }
}

/// A byte source.
///
/// A source is modelled by the bytes it has yet to deliver
/// ([`Read::remaining`]).  Reads that stay within those bytes succeed and
/// consume exactly what they return; a read past their end fails.  After a
/// failed read the source's position is unspecified.
pub trait Read: Sized {
    /// The source's own failure value.
    type Error;

    /// The bytes not yet delivered.
    spec fn remaining(&self) -> Seq<u8>;

    /// Reads the next byte.
    fn read_byte(&mut self) -> (r: Result<u8, Self::Error>)
        ensures
            old(self).remaining().len() >= 1 ==> r is Ok,
            r matches Ok(b) ==> {
                &&& old(self).remaining().len() >= 1
                &&& b == old(self).remaining()[0]
                &&& final(self).remaining() == old(self).remaining().skip(1)
            },
    ;

    /// Reads exactly `n` bytes into an owned buffer.
    fn read_exact(&mut self, n: usize) -> (r: Result<Vec<u8>, Self::Error>)
        ensures
            old(self).remaining().len() >= n ==> r is Ok,
            r matches Ok(v) ==> {
                &&& old(self).remaining().len() >= n
                &&& v@ == old(self).remaining().take(n as int)
                &&& final(self).remaining() == old(self).remaining().skip(n as int)
            },
    ;

    /// Reads forward until the two-byte marker-terminated-string end marker
    /// and returns everything up to and including it.  Fails when the
    /// source ends before a marker appears.
    fn read_until_marker(&mut self) -> (r: Result<Vec<u8>, Self::Error>)
        ensures
            find_marker(old(self).remaining()) is Some ==> r is Ok,
            r matches Ok(v) ==> {
                &&& find_marker(old(self).remaining()) matches Some(i)
                &&& v@ == old(self).remaining().take(i as int + 2)
                &&& final(self).remaining() == old(self).remaining().skip(i as int + 2)
            },
    ;
}

/// A zero-copy source over a borrowed byte slice.  The borrowed operations
/// hand out views into the original input rather than copies.
pub struct BuffReader<'a> {
    buff: &'a [u8],
}

impl<'a> BuffReader<'a> {
    /// Wraps a slice.
    pub fn new(buff: &'a [u8]) -> (r: BuffReader<'a>)
        ensures
            r.remaining() == buff@,
    {
        BuffReader { buff }
    }

    /// Takes the next `len` bytes as a view borrowing directly from the
    /// input, with no copy.
    pub fn pop_slice(&mut self, len: usize) -> (r: Result<&'a [u8], EndOfBuff>)
        ensures
            old(self).remaining().len() >= len <==> r is Ok,
            r matches Ok(v) ==> {
                &&& v@ == old(self).remaining().take(len as int)
                &&& final(self).remaining() == old(self).remaining().skip(len as int)
            },
            r is Err ==> *final(self) == *old(self),
    {
        if len <= self.buff.len() {
            let popped = vstd::slice::slice_subrange(self.buff, 0, len);
            self.buff = vstd::slice::slice_subrange(self.buff, len, self.buff.len());
            Ok(popped)
        } else {
            Err(EndOfBuff)
        }
    }

    /// Scans forward for the two-byte end marker and takes everything up to
    /// and including it, borrowing directly from the input.
    pub fn read_until(&mut self) -> (r: Result<&'a [u8], EndOfBuff>)
        ensures
            find_marker(old(self).remaining()) is Some <==> r is Ok,
            r matches Ok(v) ==> {
                &&& find_marker(old(self).remaining()) matches Some(i)
                &&& v@ == old(self).remaining().take(i as int + 2)
                &&& final(self).remaining() == old(self).remaining().skip(i as int + 2)
            },
            r is Err ==> *final(self) == *old(self),
    {
        proof {
            lemma_find_marker(self.buff@);
        }
        let n = self.buff.len();
        if n < 2 {
            return Err(EndOfBuff);
        }
        let mut j: usize = 0;
        while j <= n - 2 && !(*vstd::slice::slice_index_get(self.buff, j) == STR_END_MARKER_0
            && *vstd::slice::slice_index_get(self.buff, j + 1) == STR_END_MARKER_1)
            invariant
                n == self.buff@.len(),
                2 <= n <= usize::MAX,
                j <= n - 1,
                forall|k: int|
                    0 <= k < j ==> !(#[trigger] self.buff@[k] == STR_END_MARKER_0 && self.buff@[k
                        + 1] == STR_END_MARKER_1),
            decreases n - j,
        {
            j = j + 1;
        }
        proof {
            lemma_find_marker(self.buff@);
        }
        if j <= n - 2 {
            proof {
                assert(find_marker(self.buff@) == Some(j as nat)) by {
                    match find_marker(self.buff@) {
                        Some(i) => {
                            if i < j {
                                assert(self.buff@[i as int] == STR_END_MARKER_0);
                            }
                        },
                        None => {
                            assert(!(self.buff@[j as int] == STR_END_MARKER_0 && self.buff@[j + 1]
                                == STR_END_MARKER_1));
                        },
                    }
                }
            }
            self.pop_slice(j + 2)
        } else {
            proof {
                assert(find_marker(self.buff@) is None) by {
                    match find_marker(self.buff@) {
                        Some(i) => {
                            assert(self.buff@[i as int] == STR_END_MARKER_0);
                        },
                        None => {},
                    }
                }
            }
            Err(EndOfBuff)
        }
    }
}

impl<'a> Read for BuffReader<'a> {
    type Error = EndOfBuff;

    closed spec fn remaining(&self) -> Seq<u8> {
        self.buff@
    }

    fn read_byte(&mut self) -> (r: Result<u8, EndOfBuff>) {
        match self.pop_slice(1) {
            Ok(v) => Ok(*vstd::slice::slice_index_get(v, 0)),
            Err(e) => Err(e),
        }
    }

    fn read_exact(&mut self, n: usize) -> (r: Result<Vec<u8>, EndOfBuff>) {
        match self.pop_slice(n) {
            Ok(v) => Ok(vstd::slice::slice_to_vec(v)),
            Err(e) => Err(e),
        }
    }

    fn read_until_marker(&mut self) -> (r: Result<Vec<u8>, EndOfBuff>) {
        match self.read_until() {
            Ok(v) => Ok(vstd::slice::slice_to_vec(v)),
            Err(e) => Err(e),
        }
    }
}

/// An owning source: it holds its bytes and delivers copies, standing in
/// for sources that cannot hand out borrowed views.
pub struct VecReader {
    data: Vec<u8>,
    pos: usize,
}

impl VecReader {
    /// Wraps an owned byte buffer; reading starts at its front.
    pub fn new(data: Vec<u8>) -> (r: VecReader)
        ensures
            r.remaining() == data@,
    {
        VecReader { data, pos: 0 }
    }
}

impl Read for VecReader {
    type Error = EndOfBuff;

    closed spec fn remaining(&self) -> Seq<u8> {
        if self.pos <= self.data@.len() {
            self.data@.skip(self.pos as int)
        } else {
            Seq::empty()
        }
    }

    fn read_byte(&mut self) -> (r: Result<u8, EndOfBuff>) {
        if self.pos < self.data.len() {
            let b = self.data[self.pos];
            self.pos = self.pos + 1;
            proof {
                assert(final(self).remaining() =~= old(self).remaining().skip(1));
            }
            Ok(b)
        } else {
            Err(EndOfBuff)
        }
    }

    fn read_exact(&mut self, n: usize) -> (r: Result<Vec<u8>, EndOfBuff>) {
        if n == 0 {
            let out: Vec<u8> = Vec::new();
            proof {
                assert(out@ =~= old(self).remaining().take(0));
                assert(final(self).remaining() =~= old(self).remaining().skip(0));
            }
            return Ok(out);
        }
        if self.pos <= self.data.len() && n <= self.data.len() - self.pos {
            let mut out: Vec<u8> = Vec::new();
            let mut i: usize = 0;
            while i < n
                invariant
                    i <= n,
                    self.pos + n <= self.data@.len() <= usize::MAX,
                    out@ == self.data@.subrange(self.pos as int, self.pos + i),
                decreases n - i,
            {
                out.push(self.data[self.pos + i]);
                i = i + 1;
                proof {
                    assert(out@ =~= self.data@.subrange(self.pos as int, self.pos + i));
                }
            }
            self.pos = self.pos + n;
            proof {
                assert(out@ =~= old(self).remaining().take(n as int));
                assert(final(self).remaining() =~= old(self).remaining().skip(n as int));
            }
            Ok(out)
        } else {
            Err(EndOfBuff)
        }
    }

    fn read_until_marker(&mut self) -> (r: Result<Vec<u8>, EndOfBuff>) {
        proof {
            lemma_find_marker(self.remaining());
        }
        let n = self.data.len();
        if self.pos > n || n - self.pos < 2 {
            return Err(EndOfBuff);
        }
        let mut j: usize = self.pos;
        while j <= n - 2 && !(self.data[j] == STR_END_MARKER_0 && self.data[j + 1]
            == STR_END_MARKER_1)
            invariant
                n == self.data@.len(),
                2 <= n <= usize::MAX,
                self.pos <= j,
                j <= n - 1,
                self.pos <= self.data@.len(),
                forall|k: int|
                    self.pos <= k < j ==> !(#[trigger] self.data@[k] == STR_END_MARKER_0
                        && self.data@[k + 1] == STR_END_MARKER_1),
            decreases n - j,
        {
            j = j + 1;
        }
        proof {
            lemma_find_marker(self.remaining());
        }
        let ghost rem = self.remaining();
        if j <= n - 2 {
            proof {
                assert forall|k: int|
                    self.pos <= k < j implies !(#[trigger] rem[k - self.pos] == STR_END_MARKER_0
                    && rem[k + 1 - self.pos] == STR_END_MARKER_1) by {
                    assert(rem[k - self.pos] == self.data@[k]);
                    assert(rem[k + 1 - self.pos] == self.data@[k + 1]);
                }
                assert(find_marker(rem) == Some((j - self.pos) as nat)) by {
                    assert(rem[j - self.pos] == self.data@[j as int]);
                    assert(rem[j + 1 - self.pos] == self.data@[j + 1]);
                    match find_marker(rem) {
                        Some(i) => {
                            if i < j - self.pos {
                                assert(rem[i as int] == STR_END_MARKER_0);
                            }
                        },
                        None => {},
                    }
                }
            }
            let take_len = j + 2 - self.pos;
            self.read_exact(take_len)
        } else {
            proof {
                assert(find_marker(rem) is None) by {
                    match find_marker(rem) {
                        Some(i) => {
                            assert(rem[i as int] == STR_END_MARKER_0);
                            assert(rem[i as int] == self.data@[i + self.pos]);
                            assert(rem[i as int + 1] == self.data@[i + self.pos + 1]);
                        },
                        None => {},
                    }
                }
            }
            Err(EndOfBuff)
        }
    }
}

} // verus!
