//! The deserializer engine: tag-directed decoding from any [`Read`]
//! source, with a one-token lookahead.

use vstd::prelude::*;
use vstd::string::StrSliceExecFns;

use crate::error::{DeError, TagParsingError, UnexpectedTag};
use crate::tag::Tag;
use crate::wire::{dec_sint, dec_uint, from_be, pow256, to_signed, uint_width};
use crate::value::{dec_any, Value, ValueM};
use crate::read::Read;

verus! {

broadcast use {
    vstd::std_specs::vec::axiom_vec_index_decreases,
    vstd::std_specs::vec::axiom_vec_decreases_to_view,
    vstd::seq::axiom_seq_index_decreases,
    vstd::seq::axiom_seq_subrange_decreases,
};

/// The unsigned numeric tags a decode of declared payload width `n`
/// accepts: the exact width and every narrower one, narrowest first.
pub open spec fn accepted_uint_tags(n: nat) -> Seq<Tag> {
    if n >= 16 {
        seq![Tag::U8, Tag::U16, Tag::U32, Tag::U64, Tag::U128]
    } else if n >= 8 {
        seq![Tag::U8, Tag::U16, Tag::U32, Tag::U64]
    } else if n >= 4 {
        seq![Tag::U8, Tag::U16, Tag::U32]
    } else if n >= 2 {
        seq![Tag::U8, Tag::U16]
    } else {
        seq![Tag::U8]
    }
}

/// The signed numeric tags a decode of declared payload width `n`
/// accepts: the exact width and every narrower one, narrowest first.
pub open spec fn accepted_sint_tags(n: nat) -> Seq<Tag> {
    if n >= 16 {
        seq![Tag::I8, Tag::I16, Tag::I32, Tag::I64, Tag::I128]
    } else if n >= 8 {
        seq![Tag::I8, Tag::I16, Tag::I32, Tag::I64]
    } else if n >= 4 {
        seq![Tag::I8, Tag::I16, Tag::I32]
    } else if n >= 2 {
        seq![Tag::I8, Tag::I16]
    } else {
        seq![Tag::I8]
    }
}

/// Holds when a decode whose input opens with a valid tag outside its
/// accepted set reports the shape-mismatch error naming exactly that tag
/// and that set, with `k` bytes consumed and no payload read.
pub open spec fn reports_unexpected_tag<T, E>(
    s: Seq<u8>,
    accepted: Seq<Tag>,
    k: int,
    sfin: Seq<u8>,
    r: Result<T, DeError<E>>,
) -> bool {
    (Tag::spec_from_byte(s[0]) matches Some(t) && s.len() >= 1 && !accepted.contains(t)) ==> {
        &&& r matches Err(e)
        &&& e matches DeError::UnexpectedTag(u)
        &&& Some(u.got) == Tag::spec_from_byte(s[0])
        &&& u.expected@ == accepted
        &&& sfin == s.skip(k)
    }
}

/// A deserializer: a byte source together with a one-slot tag lookahead.
/// At most one token is ever held back, and it is always consumed before
/// the source is read again.
pub struct Deserializer<R> {
    reader: R,
    peeked_tag: Option<Tag>,
}

impl<R: Read> Deserializer<R> {
    /// The bytes not yet decoded: a held-back tag byte, if any, followed
    /// by what the source has not yet delivered.
    pub closed spec fn remaining(&self) -> Seq<u8> {
        match self.peeked_tag {
            Some(t) => seq![t.spec_byte()] + self.reader.remaining(),
            None => self.reader.remaining(),
        }
    }

    /// True when no tag is held back in the lookahead slot.
    pub closed spec fn no_peek(&self) -> bool {
        self.peeked_tag is None
    }

    /// Wraps a source; the lookahead starts empty.
    pub fn new(reader: R) -> (r: Deserializer<R>)
        ensures
            r.remaining() == reader.remaining(),
    {
        Deserializer { reader, peeked_tag: None }
    }

    /// Consumes the next tag: from the lookahead slot when one is held
    /// back, else one byte from the source.  A byte outside the tag table
    /// is consumed and reported as the invalid-tag error; so exactly one
    /// byte is consumed whether or not the byte was a tag.
    pub fn pop_tag(&mut self) -> (r: Result<Tag, DeError<<R as Read>::Error>>)
        ensures
            match r {
                Ok(t) => {
                    &&& old(self).remaining().len() >= 1
                    &&& Tag::spec_from_byte(old(self).remaining()[0]) == Some(t)
                    &&& final(self).remaining() == old(self).remaining().skip(1)
                },
                Err(e) => match e {
                    DeError::TagParsingError(TagParsingError::InvalidTag(b)) => {
                        &&& old(self).remaining().len() >= 1
                        &&& b == old(self).remaining()[0]
                        &&& Tag::spec_from_byte(b) is None
                        &&& final(self).remaining() == old(self).remaining().skip(1)
                    },
                    DeError::ReaderError(_) => old(self).remaining().len() == 0,
                    _ => false,
                },
            },
            old(self).remaining().len() >= 1 && Tag::spec_from_byte(old(self).remaining()[0])
                is Some ==> r is Ok,
            final(self).no_peek(),
    {
        match self.peeked_tag {
            Some(t) => {
                self.peeked_tag = None;
                proof {
                    crate::tag::lemma_tag_byte_round_trip(t);
                    assert(final(self).remaining() =~= old(self).remaining().skip(1));
                }
                Ok(t)
            },
            None => {
                match self.reader.read_byte() {
                    Ok(b) => match Tag::from_byte(b) {
                        Some(t) => Ok(t),
                        None => Err(
                            DeError::TagParsingError(TagParsingError::InvalidTag(b)),
                        ),
                    },
                    Err(e) => Err(DeError::ReaderError(e)),
                }
            },
        }
    }

    /// Reads the next tag but keeps it: the lookahead slot retains it, so
    /// the stream position does not move.
    pub fn peek_tag(&mut self) -> (r: Result<Tag, DeError<<R as Read>::Error>>)
        ensures
            match r {
                Ok(t) => {
                    &&& old(self).remaining().len() >= 1
                    &&& Tag::spec_from_byte(old(self).remaining()[0]) == Some(t)
                    &&& final(self).remaining() == old(self).remaining()
                },
                Err(e) => match e {
                    DeError::TagParsingError(TagParsingError::InvalidTag(b)) => {
                        &&& old(self).remaining().len() >= 1
                        &&& b == old(self).remaining()[0]
                        &&& Tag::spec_from_byte(b) is None
                        &&& final(self).remaining() == old(self).remaining().skip(1)
                    },
                    DeError::ReaderError(_) => old(self).remaining().len() == 0,
                    _ => false,
                },
            },
            old(self).remaining().len() >= 1 && Tag::spec_from_byte(old(self).remaining()[0])
                is Some ==> r is Ok,
    {
        match self.peeked_tag {
            Some(t) => {
                proof {
                    crate::tag::lemma_tag_byte_round_trip(t);
                }
                Ok(t)
            },
            None => {
                match self.pop_tag() {
                    Ok(t) => {
                        self.peeked_tag = Some(t);
                        proof {
                            crate::tag::lemma_tag_byte_round_trip(t);
                            assert(final(self).remaining() =~= old(self).remaining());
                        }
                        Ok(t)
                    },
                    Err(e) => Err(e),
                }
            },
        }
    }

    /// Puts an enum case tag back into the lookahead slot, so that the
    /// case-specific decode call that follows can re-check it.
    fn push_tag(&mut self, t: Tag)
        requires
            old(self).no_peek(),
        ensures
            final(self).remaining() == seq![t.spec_byte()] + old(self).remaining(),
    {
        self.peeked_tag = Some(t);
    }

    /// Reads exactly `n` raw payload bytes.
    fn pop_n(&mut self, n: usize) -> (r: Result<Vec<u8>, DeError<<R as Read>::Error>>)
        requires
            old(self).no_peek(),
        ensures
            match r {
                Ok(v) => {
                    &&& old(self).remaining().len() >= n
                    &&& v@ == old(self).remaining().take(n as int)
                    &&& final(self).remaining() == old(self).remaining().skip(n as int)
                    &&& final(self).no_peek()
                },
                Err(e) => e is ReaderError,
            },
            old(self).remaining().len() >= n ==> r is Ok,
    {
        match self.reader.read_exact(n) {
            Ok(v) => Ok(v),
            Err(e) => Err(DeError::ReaderError(e)),
        }
    }

    /// Reads a big-endian unsigned payload of `w` bytes.
    fn read_be(&mut self, w: usize) -> (r: Result<u128, DeError<<R as Read>::Error>>)
        requires
            old(self).no_peek(),
            w <= 16,
        ensures
            match r {
                Ok(v) => {
                    &&& old(self).remaining().len() >= w
                    &&& v as nat == from_be(old(self).remaining().take(w as int))
                    &&& final(self).remaining() == old(self).remaining().skip(w as int)
                    &&& final(self).no_peek()
                },
                Err(e) => e is ReaderError,
            },
            old(self).remaining().len() >= w ==> r is Ok,
    {
        let bytes = match self.pop_n(w) {
            Ok(v) => v,
            Err(e) => {
                return Err(e);
            },
        };
        proof {
            reveal_with_fuel(pow256, 17);
            assert(bytes@.take(0) =~= Seq::<u8>::empty());
        }
        let mut acc: u128 = 0;
        let mut i: usize = 0;
        while i < w
            invariant
                i <= w,
                w <= 16,
                bytes@.len() == w,
                acc as nat == from_be(bytes@.take(i as int)),
                (acc as nat) < pow256(i as nat),
                pow256(16) == 0x1_0000_0000_0000_0000_0000_0000_0000_0000,
            decreases w - i,
        {
            let b = bytes[i];
            proof {
                assert(bytes@.take(i + 1).drop_last() =~= bytes@.take(i as int));
                assert(bytes@.take(i + 1).last() == bytes@[i as int]);
                assert((acc * 256 + b) < pow256((i + 1) as nat)) by (nonlinear_arith)
                    requires
                        (acc as nat) < pow256(i as nat),
                        b < 256,
                        pow256((i + 1) as nat) == 256 * pow256(i as nat),
                ;
                crate::wire::lemma_pow256_mono((i + 1) as nat, 16);
            }
            acc = acc * 256 + (b as u128);
            i = i + 1;
        }
        proof {
            assert(bytes@.take(w as int) =~= bytes@);
        }
        Ok(acc)
    }

    /// Reads an unsigned integer whose declared width is `n` payload
    /// bytes, accepting the exact tag or any narrower unsigned tag and
    /// zero-extending, exactly as the wire model says.
    fn parse_uint(&mut self, n: usize) -> (r: Result<u128, DeError<<R as Read>::Error>>)
        requires
            n == 1 || n == 2 || n == 4 || n == 8 || n == 16,
        ensures
            match dec_uint(old(self).remaining(), n as nat) {
                Some((v, used)) => {
                    &&& r matches Ok(x) && x as nat == v
                    &&& final(self).remaining() == old(self).remaining().skip(used as int)
                    &&& final(self).no_peek()
                },
                None => r is Err,
            },
            r matches Ok(x) ==> (x as nat) < pow256(n as nat),
            reports_unexpected_tag(
                old(self).remaining(),
                accepted_uint_tags(n as nat),
                0,
                final(self).remaining(),
                r,
            ),
    {
        let ghost s = old(self).remaining();
        let t = match self.peek_tag() {
            Ok(t) => t,
            Err(e) => {
                return Err(e);
            },
        };
        let w: usize = match t {
            Tag::U8 => 1,
            Tag::U16 => 2,
            Tag::U32 => 4,
            Tag::U64 => 8,
            Tag::U128 => 16,
            _ => 0,
        };
        if w == 0 || w > n {
            let mut expected: Vec<Tag> = Vec::new();
            expected.push(Tag::U8);
            if n >= 2 {
                expected.push(Tag::U16);
            }
            if n >= 4 {
                expected.push(Tag::U32);
            }
            if n >= 8 {
                expected.push(Tag::U64);
            }
            if n >= 16 {
                expected.push(Tag::U128);
            }
            proof {
                let acc = accepted_uint_tags(n as nat);
                assert(expected@ =~= acc);
                assert(!acc.contains(t)) by {
                    assert forall|j: int| 0 <= j < acc.len() implies acc[j] != t by {}
                }
                assert(s.skip(0) =~= s);
            }
            return Err(DeError::UnexpectedTag(UnexpectedTag::unexpected(expected, t)));
        }
        proof {
            assert(accepted_uint_tags(n as nat).contains(t)) by {
                let acc = accepted_uint_tags(n as nat);
                if w == 1 {
                    assert(acc[0] == t);
                } else if w == 2 {
                    assert(acc[1] == t);
                } else if w == 4 {
                    assert(acc[2] == t);
                } else if w == 8 {
                    assert(acc[3] == t);
                } else {
                    assert(acc[4] == t);
                }
            }
        }
        proof {
            assert(w as nat == uint_width(t));
            assert(t == crate::wire::uint_tag(w as nat));
        }
        let _ = match self.pop_tag() {
            Ok(t2) => t2,
            Err(e) => {
                return Err(e);
            },
        };
        let raw = match self.read_be(w) {
            Ok(v) => v,
            Err(e) => {
                proof {
                    assert(dec_uint(s, n as nat) is None);
                }
                return Err(e);
            },
        };
        proof {
            assert(s.skip(1).take(w as int) =~= s.subrange(1, 1 + w as int));
            assert(s.skip(1).skip(w as int) =~= s.skip(1 + w as int));
            crate::wire::lemma_from_be_bound(s.subrange(1, 1 + w as int));
            crate::wire::lemma_pow256_mono(w as nat, n as nat);
        }
        Ok(raw)
    }

    /// Reads a signed integer whose declared width is `n` payload bytes,
    /// accepting the exact tag or any narrower signed tag and
    /// sign-extending, exactly as the wire model says.
    fn parse_sint(&mut self, n: usize) -> (r: Result<i128, DeError<<R as Read>::Error>>)
        requires
            n == 1 || n == 2 || n == 4 || n == 8 || n == 16,
        ensures
            match dec_sint(old(self).remaining(), n as nat) {
                Some((v, used)) => {
                    &&& r matches Ok(x) && x as int == v
                    &&& final(self).remaining() == old(self).remaining().skip(used as int)
                    &&& final(self).no_peek()
                },
                None => r is Err,
            },
            r matches Ok(x) ==> -pow256(n as nat) <= 2 * x < pow256(n as nat),
            reports_unexpected_tag(
                old(self).remaining(),
                accepted_sint_tags(n as nat),
                0,
                final(self).remaining(),
                r,
            ),
    {
        let ghost s = old(self).remaining();
        let t = match self.peek_tag() {
            Ok(t) => t,
            Err(e) => {
                return Err(e);
            },
        };
        let w: usize = match t {
            Tag::I8 => 1,
            Tag::I16 => 2,
            Tag::I32 => 4,
            Tag::I64 => 8,
            Tag::I128 => 16,
            _ => 0,
        };
        if w == 0 || w > n {
            let mut expected: Vec<Tag> = Vec::new();
            expected.push(Tag::I8);
            if n >= 2 {
                expected.push(Tag::I16);
            }
            if n >= 4 {
                expected.push(Tag::I32);
            }
            if n >= 8 {
                expected.push(Tag::I64);
            }
            if n >= 16 {
                expected.push(Tag::I128);
            }
            proof {
                let acc = accepted_sint_tags(n as nat);
                assert(expected@ =~= acc);
                assert(!acc.contains(t)) by {
                    assert forall|j: int| 0 <= j < acc.len() implies acc[j] != t by {}
                }
                assert(s.skip(0) =~= s);
            }
            return Err(DeError::UnexpectedTag(UnexpectedTag::unexpected(expected, t)));
        }
        proof {
            assert(accepted_sint_tags(n as nat).contains(t)) by {
                let acc = accepted_sint_tags(n as nat);
                if w == 1 {
                    assert(acc[0] == t);
                } else if w == 2 {
                    assert(acc[1] == t);
                } else if w == 4 {
                    assert(acc[2] == t);
                } else if w == 8 {
                    assert(acc[3] == t);
                } else {
                    assert(acc[4] == t);
                }
            }
        }
        proof {
            assert(w as nat == uint_width(t));
            assert(t == crate::wire::sint_tag(w as nat));
        }
        let _ = match self.pop_tag() {
            Ok(t2) => t2,
            Err(e) => {
                return Err(e);
            },
        };
        let raw = match self.read_be(w) {
            Ok(v) => v,
            Err(e) => {
                proof {
                    assert(dec_sint(s, n as nat) is None);
                }
                return Err(e);
            },
        };
        proof {
            assert(s.skip(1).take(w as int) =~= s.subrange(1, 1 + w as int));
            assert(s.skip(1).skip(w as int) =~= s.skip(1 + w as int));
            crate::wire::lemma_from_be_bound(s.subrange(1, 1 + w as int));
            reveal_with_fuel(pow256, 17);
        }
        let signed: i128 = if w == 16 {
            if raw < 0x8000_0000_0000_0000_0000_0000_0000_0000u128 {
                raw as i128
            } else {
                -((u128::MAX - raw) as i128) - 1
            }
        } else {
            let pow: u128 = if w == 1 {
                0x100
            } else if w == 2 {
                0x1_0000
            } else if w == 4 {
                0x1_0000_0000
            } else {
                0x1_0000_0000_0000_0000
            };
            if raw < pow / 2 {
                raw as i128
            } else {
                (raw as i128) - (pow as i128)
            }
        };
        proof {
            assert(signed as int == to_signed(raw as nat, w as nat));
            crate::wire::lemma_pow256_mono(w as nat, n as nat);
        }
        Ok(signed)
    }
}

/// Names the byte sequence a&str exposes.  Relies on `core::str::from_utf8`:
/// it succeeds exactly on valid UTF-8 and views the same bytes as text.
#[verifier::external_body]
fn str_from_utf8(bytes: &[u8]) -> (r: Option<&str>)
    ensures
        r is Some <==> vstd::utf8::valid_utf8(bytes@),
        r matches Some(s) ==> s@ == vstd::utf8::decode_utf8(bytes@),
{
    match core::str::from_utf8(bytes) {
        Ok(s) => Some(s),
        Err(_) => None,
    }
}

/// Relies on `char::from_u32`: it yields the character of every Unicode
/// scalar value and nothing for a surrogate or out-of-range code point.
#[verifier::external_body]
fn char_from_u32(v: u32) -> (r: Option<char>)
    ensures
        r is Some <==> vstd::utf8::is_scalar(v),
        r matches Some(c) ==> c as u32 == v,
{
    char::from_u32(v)
}

impl<R: Read> Deserializer<R> {
    /// Reads an unsigned 8-bit integer; only its exact tag is accepted.
    pub fn parse_u8(&mut self) -> (r: Result<u8, DeError<<R as Read>::Error>>)
        ensures
            match dec_uint(old(self).remaining(), 1) {
                Some((v, used)) => r matches Ok(x) && x as nat == v && final(self).remaining()
                    == old(self).remaining().skip(used as int) && final(self).no_peek(),
                None => r is Err,
            },
            reports_unexpected_tag(
                old(self).remaining(),
                accepted_uint_tags(1),
                0,
                final(self).remaining(),
                r,
            ),
    {
        proof {
            reveal_with_fuel(pow256, 17);
        }
        match self.parse_uint(1) {
            Ok(v) => Ok(v as u8),
            Err(e) => Err(e),
        }
    }

    /// Reads an unsigned 16-bit integer, accepting a value written at 16
    /// or 8 bits.
    pub fn parse_u16(&mut self) -> (r: Result<u16, DeError<<R as Read>::Error>>)
        ensures
            match dec_uint(old(self).remaining(), 2) {
                Some((v, used)) => r matches Ok(x) && x as nat == v && final(self).remaining()
                    == old(self).remaining().skip(used as int) && final(self).no_peek(),
                None => r is Err,
            },
            reports_unexpected_tag(
                old(self).remaining(),
                accepted_uint_tags(2),
                0,
                final(self).remaining(),
                r,
            ),
    {
        proof {
            reveal_with_fuel(pow256, 17);
        }
        match self.parse_uint(2) {
            Ok(v) => Ok(v as u16),
            Err(e) => Err(e),
        }
    }

    /// Reads an unsigned 32-bit integer, accepting any narrower unsigned
    /// width.
    pub fn parse_u32(&mut self) -> (r: Result<u32, DeError<<R as Read>::Error>>)
        ensures
            match dec_uint(old(self).remaining(), 4) {
                Some((v, used)) => r matches Ok(x) && x as nat == v && final(self).remaining()
                    == old(self).remaining().skip(used as int) && final(self).no_peek(),
                None => r is Err,
            },
            reports_unexpected_tag(
                old(self).remaining(),
                accepted_uint_tags(4),
                0,
                final(self).remaining(),
                r,
            ),
    {
        proof {
            reveal_with_fuel(pow256, 17);
        }
        match self.parse_uint(4) {
            Ok(v) => Ok(v as u32),
            Err(e) => Err(e),
        }
    }

    /// Reads an unsigned 64-bit integer, accepting any narrower unsigned
    /// width.
    pub fn parse_u64(&mut self) -> (r: Result<u64, DeError<<R as Read>::Error>>)
        ensures
            match dec_uint(old(self).remaining(), 8) {
                Some((v, used)) => r matches Ok(x) && x as nat == v && final(self).remaining()
                    == old(self).remaining().skip(used as int) && final(self).no_peek(),
                None => r is Err,
            },
            reports_unexpected_tag(
                old(self).remaining(),
                accepted_uint_tags(8),
                0,
                final(self).remaining(),
                r,
            ),
    {
        proof {
            reveal_with_fuel(pow256, 17);
        }
        match self.parse_uint(8) {
            Ok(v) => Ok(v as u64),
            Err(e) => Err(e),
        }
    }

    /// Reads an unsigned 128-bit integer, accepting any narrower unsigned
    /// width.
    pub fn parse_u128(&mut self) -> (r: Result<u128, DeError<<R as Read>::Error>>)
        ensures
            match dec_uint(old(self).remaining(), 16) {
                Some((v, used)) => r matches Ok(x) && x as nat == v && final(self).remaining()
                    == old(self).remaining().skip(used as int) && final(self).no_peek(),
                None => r is Err,
            },
            reports_unexpected_tag(
                old(self).remaining(),
                accepted_uint_tags(16),
                0,
                final(self).remaining(),
                r,
            ),
    {
        self.parse_uint(16)
    }

    /// Reads a signed 8-bit integer; only its exact tag is accepted.
    pub fn parse_i8(&mut self) -> (r: Result<i8, DeError<<R as Read>::Error>>)
        ensures
            match dec_sint(old(self).remaining(), 1) {
                Some((v, used)) => r matches Ok(x) && x as int == v && final(self).remaining()
                    == old(self).remaining().skip(used as int) && final(self).no_peek(),
                None => r is Err,
            },
            reports_unexpected_tag(
                old(self).remaining(),
                accepted_sint_tags(1),
                0,
                final(self).remaining(),
                r,
            ),
    {
        proof {
            reveal_with_fuel(pow256, 17);
        }
        match self.parse_sint(1) {
            Ok(v) => Ok(v as i8),
            Err(e) => Err(e),
        }
    }

    /// Reads a signed 16-bit integer, accepting a value written at 16 or
    /// 8 bits and sign-extending.
    pub fn parse_i16(&mut self) -> (r: Result<i16, DeError<<R as Read>::Error>>)
        ensures
            match dec_sint(old(self).remaining(), 2) {
                Some((v, used)) => r matches Ok(x) && x as int == v && final(self).remaining()
                    == old(self).remaining().skip(used as int) && final(self).no_peek(),
                None => r is Err,
            },
            reports_unexpected_tag(
                old(self).remaining(),
                accepted_sint_tags(2),
                0,
                final(self).remaining(),
                r,
            ),
    {
        proof {
            reveal_with_fuel(pow256, 17);
        }
        match self.parse_sint(2) {
            Ok(v) => Ok(v as i16),
            Err(e) => Err(e),
        }
    }

    /// Reads a signed 32-bit integer, accepting any narrower signed width
    /// and sign-extending.
    pub fn parse_i32(&mut self) -> (r: Result<i32, DeError<<R as Read>::Error>>)
        ensures
            match dec_sint(old(self).remaining(), 4) {
                Some((v, used)) => r matches Ok(x) && x as int == v && final(self).remaining()
                    == old(self).remaining().skip(used as int) && final(self).no_peek(),
                None => r is Err,
            },
            reports_unexpected_tag(
                old(self).remaining(),
                accepted_sint_tags(4),
                0,
                final(self).remaining(),
                r,
            ),
    {
        proof {
            reveal_with_fuel(pow256, 17);
        }
        match self.parse_sint(4) {
            Ok(v) => Ok(v as i32),
            Err(e) => Err(e),
        }
    }

    /// Reads a signed 64-bit integer, accepting any narrower signed width
    /// and sign-extending.
    pub fn parse_i64(&mut self) -> (r: Result<i64, DeError<<R as Read>::Error>>)
        ensures
            match dec_sint(old(self).remaining(), 8) {
                Some((v, used)) => r matches Ok(x) && x as int == v && final(self).remaining()
                    == old(self).remaining().skip(used as int) && final(self).no_peek(),
                None => r is Err,
            },
            reports_unexpected_tag(
                old(self).remaining(),
                accepted_sint_tags(8),
                0,
                final(self).remaining(),
                r,
            ),
    {
        proof {
            reveal_with_fuel(pow256, 17);
        }
        match self.parse_sint(8) {
            Ok(v) => Ok(v as i64),
            Err(e) => Err(e),
        }
    }

    /// Reads a signed 128-bit integer, accepting any narrower signed
    /// width and sign-extending.
    pub fn parse_i128(&mut self) -> (r: Result<i128, DeError<<R as Read>::Error>>)
        ensures
            match dec_sint(old(self).remaining(), 16) {
                Some((v, used)) => r matches Ok(x) && x as int == v && final(self).remaining()
                    == old(self).remaining().skip(used as int) && final(self).no_peek(),
                None => r is Err,
            },
            reports_unexpected_tag(
                old(self).remaining(),
                accepted_sint_tags(16),
                0,
                final(self).remaining(),
                r,
            ),
    {
        self.parse_sint(16)
    }

    /// Reads the bit pattern of a 32-bit float; only the float tag is
    /// accepted and no width conversion is applied.
    pub fn parse_f32_bits(&mut self) -> (r: Result<u32, DeError<<R as Read>::Error>>)
        ensures
            match r {
                Ok(v) => {
                    &&& old(self).remaining().len() >= 5
                    &&& Tag::spec_from_byte(old(self).remaining()[0]) == Some(Tag::F32)
                    &&& v as nat == from_be(old(self).remaining().subrange(1, 5))
                    &&& final(self).remaining() == old(self).remaining().skip(5)
                },
                Err(_) => true,
            },
            old(self).remaining().len() >= 5 && Tag::spec_from_byte(old(self).remaining()[0])
                == Some(Tag::F32) ==> r is Ok,
    {
        let ghost s = old(self).remaining();
        let t = match self.peek_tag() {
            Ok(t) => t,
            Err(e) => {
                return Err(e);
            },
        };
        if !(t == Tag::F32) {
            let mut expected: Vec<Tag> = Vec::new();
            expected.push(Tag::F32);
            return Err(DeError::UnexpectedTag(UnexpectedTag::unexpected(expected, t)));
        }
        let _ = match self.pop_tag() {
            Ok(t2) => t2,
            Err(e) => {
                return Err(e);
            },
        };
        let raw = match self.read_be(4) {
            Ok(v) => v,
            Err(e) => {
                return Err(e);
            },
        };
        proof {
            assert(s.skip(1).take(4) =~= s.subrange(1, 5));
            assert(s.skip(1).skip(4) =~= s.skip(5));
            crate::wire::lemma_from_be_bound(s.subrange(1, 5));
            reveal_with_fuel(pow256, 17);
        }
        Ok(raw as u32)
    }

    /// Reads the bit pattern of a 64-bit float; only the float tag is
    /// accepted and no width conversion is applied.
    pub fn parse_f64_bits(&mut self) -> (r: Result<u64, DeError<<R as Read>::Error>>)
        ensures
            match r {
                Ok(v) => {
                    &&& old(self).remaining().len() >= 9
                    &&& Tag::spec_from_byte(old(self).remaining()[0]) == Some(Tag::F64)
                    &&& v as nat == from_be(old(self).remaining().subrange(1, 9))
                    &&& final(self).remaining() == old(self).remaining().skip(9)
                },
                Err(_) => true,
            },
            old(self).remaining().len() >= 9 && Tag::spec_from_byte(old(self).remaining()[0])
                == Some(Tag::F64) ==> r is Ok,
    {
        let ghost s = old(self).remaining();
        let t = match self.peek_tag() {
            Ok(t) => t,
            Err(e) => {
                return Err(e);
            },
        };
        if !(t == Tag::F64) {
            let mut expected: Vec<Tag> = Vec::new();
            expected.push(Tag::F64);
            return Err(DeError::UnexpectedTag(UnexpectedTag::unexpected(expected, t)));
        }
        let _ = match self.pop_tag() {
            Ok(t2) => t2,
            Err(e) => {
                return Err(e);
            },
        };
        let raw = match self.read_be(8) {
            Ok(v) => v,
            Err(e) => {
                return Err(e);
            },
        };
        proof {
            assert(s.skip(1).take(8) =~= s.subrange(1, 9));
            assert(s.skip(1).skip(8) =~= s.skip(9));
            crate::wire::lemma_from_be_bound(s.subrange(1, 9));
            reveal_with_fuel(pow256, 17);
        }
        Ok(raw as u64)
    }

    /// Reads a wire length and checks it against the host's size type:
    /// a length that does not fit yields the oversized-length error, never
    /// a wrapped or truncated value.
    pub fn pop_len(&mut self) -> (r: Result<usize, DeError<<R as Read>::Error>>)
        ensures
            match dec_uint(old(self).remaining(), 8) {
                Some((v, used)) => {
                    &&& v <= usize::MAX ==> (r matches Ok(x) && x as nat == v)
                    &&& v > usize::MAX ==> (r matches Err(e) && e matches DeError::InvalidLen(l)
                        && l as nat == v)
                    &&& final(self).remaining() == old(self).remaining().skip(used as int)
                    &&& final(self).no_peek()
                },
                None => r is Err,
            },
            reports_unexpected_tag(
                old(self).remaining(),
                accepted_uint_tags(8),
                0,
                final(self).remaining(),
                r,
            ),
    {
        let v = match self.parse_u64() {
            Ok(v) => v,
            Err(e) => {
                return Err(e);
            },
        };
        if v <= usize::MAX as u64 {
            Ok(v as usize)
        } else {
            Err(DeError::InvalidLen(v))
        }
    }

    /// Reads a variant index as a compacted unsigned 32-bit integer.
    pub fn pop_variant(&mut self) -> (r: Result<u32, DeError<<R as Read>::Error>>)
        ensures
            match dec_uint(old(self).remaining(), 4) {
                Some((v, used)) => r matches Ok(x) && x as nat == v && final(self).remaining()
                    == old(self).remaining().skip(used as int) && final(self).no_peek(),
                None => r is Err,
            },
            reports_unexpected_tag(
                old(self).remaining(),
                accepted_uint_tags(4),
                0,
                final(self).remaining(),
                r,
            ),
    {
        self.parse_u32()
    }

    /// Reads a boolean from its two tags.
    pub fn decode_bool(&mut self) -> (r: Result<bool, DeError<<R as Read>::Error>>)
        ensures
            match r {
                Ok(b) => {
                    &&& old(self).remaining().len() >= 1
                    &&& Tag::spec_from_byte(old(self).remaining()[0]) == Some(
                        if b {
                            Tag::BoolTrue
                        } else {
                            Tag::BoolFalse
                        },
                    )
                    &&& final(self).remaining() == old(self).remaining().skip(1)
                },
                Err(_) => true,
            },
            old(self).remaining().len() >= 1 && (Tag::spec_from_byte(old(self).remaining()[0])
                == Some(Tag::BoolTrue) || Tag::spec_from_byte(old(self).remaining()[0]) == Some(
                Tag::BoolFalse,
            )) ==> r is Ok,
            reports_unexpected_tag(
                old(self).remaining(),
                seq![Tag::BoolFalse, Tag::BoolTrue],
                1,
                final(self).remaining(),
                r,
            ),
    {
        let t = match self.pop_tag() {
            Ok(t) => t,
            Err(e) => {
                return Err(e);
            },
        };
        proof {
            let acc = seq![Tag::BoolFalse, Tag::BoolTrue];
            assert(acc[0] == Tag::BoolFalse);
            assert(acc[1] == Tag::BoolTrue);
        }
        match t {
            Tag::BoolFalse => Ok(false),
            Tag::BoolTrue => Ok(true),
            got => {
                let mut expected: Vec<Tag> = Vec::new();
                expected.push(Tag::BoolFalse);
                expected.push(Tag::BoolTrue);
                proof {
                    assert(expected@ =~= seq![Tag::BoolFalse, Tag::BoolTrue]);
                }
                Err(DeError::UnexpectedTag(UnexpectedTag::unexpected(expected, got)))
            },
        }
    }
}

impl<R: Read> Deserializer<R> {
    /// Reads a single code point: one of the four char tags, then exactly
    /// that many bytes holding one UTF-8 scalar.
    pub fn decode_char(&mut self) -> (r: Result<char, DeError<<R as Read>::Error>>)
        ensures
            r matches Ok(c) ==> (dec_any(old(self).remaining()) matches Some((m, n)) && m
                == ValueM::Char(c) && final(self).remaining() == old(self).remaining().skip(
                n as int,
            )),
            dec_any(old(self).remaining()) matches Some((m, n)) && m is Char ==> r is Ok,
            reports_unexpected_tag(
                old(self).remaining(),
                seq![Tag::Char1, Tag::Char2, Tag::Char3, Tag::Char4],
                1,
                final(self).remaining(),
                r,
            ),
    {
        let ghost s = old(self).remaining();
        let t = match self.pop_tag() {
            Ok(t) => t,
            Err(e) => {
                return Err(e);
            },
        };
        proof {
            let acc = seq![Tag::Char1, Tag::Char2, Tag::Char3, Tag::Char4];
            assert(acc[0] == Tag::Char1);
            assert(acc[1] == Tag::Char2);
            assert(acc[2] == Tag::Char3);
            assert(acc[3] == Tag::Char4);
        }
        let w: usize = match t {
            Tag::Char1 => 1,
            Tag::Char2 => 2,
            Tag::Char3 => 3,
            Tag::Char4 => 4,
            got => {
                let mut expected: Vec<Tag> = Vec::new();
                expected.push(Tag::Char1);
                expected.push(Tag::Char2);
                expected.push(Tag::Char3);
                expected.push(Tag::Char4);
                proof {
                    assert(expected@ =~= seq![Tag::Char1, Tag::Char2, Tag::Char3, Tag::Char4]);
                }
                return Err(DeError::UnexpectedTag(UnexpectedTag::unexpected(expected, got)));
            },
        };
        let bytes = match self.pop_n(w) {
            Ok(v) => v,
            Err(e) => {
                return Err(e);
            },
        };
        proof {
            assert(s.skip(1).take(w as int) =~= s.subrange(1, 1 + w as int));
            assert(s.skip(1).skip(w as int) =~= s.skip(1 + w as int));
            assert(bytes@.len() == w);
            if vstd::utf8::valid_first_scalar(bytes@) && vstd::utf8::length_of_first_scalar(
                bytes@,
            ) == w as int {
                assert(vstd::utf8::pop_first_scalar(bytes@) == bytes@.subrange(
                    w as int,
                    w as int,
                ));
                assert(vstd::utf8::pop_first_scalar(bytes@) =~= Seq::<u8>::empty());
                assert(vstd::utf8::valid_utf8(vstd::utf8::pop_first_scalar(bytes@)));
                assert(vstd::utf8::valid_utf8(bytes@));
                assert(vstd::utf8::decode_utf8(vstd::utf8::pop_first_scalar(bytes@))
                    =~= Seq::<char>::empty());
                assert(vstd::utf8::decode_utf8(bytes@) == seq![
                    vstd::utf8::decode_first_scalar(bytes@) as char,
                ] + vstd::utf8::decode_utf8(vstd::utf8::pop_first_scalar(bytes@)));
                assert(vstd::utf8::decode_utf8(bytes@).len() == 1);
            }
        }
        let text = match str_from_utf8(bytes.as_slice()) {
            Some(text) => text,
            None => {
                return Err(DeError::Utf8Error);
            },
        };
        proof {
            if vstd::utf8::length_of_first_scalar(bytes@) < w as int {
                let popped = vstd::utf8::pop_first_scalar(bytes@);
                assert(popped.len() > 0);
                assert(vstd::utf8::valid_utf8(popped));
                assert(vstd::utf8::decode_utf8(popped).len() >= 1);
                assert(vstd::utf8::decode_utf8(bytes@) == seq![
                    vstd::utf8::decode_first_scalar(bytes@) as char,
                ] + vstd::utf8::decode_utf8(popped));
                assert(vstd::utf8::decode_utf8(bytes@).len() != 1);
            }
        }
        if !(text.unicode_len() == 1) {
            return Err(DeError::Utf8Error);
        }
        proof {
            assert(text@.len() == 1);
        }
        let c = text.get_char(0);
        proof {
            assert(vstd::utf8::length_of_first_scalar(bytes@) == w as int);
            assert(c == vstd::utf8::decode_first_scalar(bytes@) as char);
        }
        Ok(c)
    }

    /// Reads text in either representation: length-prefixed, or streamed
    /// up to the two-byte end marker (which is consumed and stripped).
    /// String bytes that are not valid UTF-8 yield the distinct text error,
    /// never a silently mangled string; a streamed text whose marker never
    /// arrives fails as the exhausted source reports it.
    pub fn decode_str(&mut self) -> (r: Result<String, DeError<<R as Read>::Error>>)
        ensures
            r matches Ok(out) ==> (dec_any(old(self).remaining()) matches Some((m, n)) && m
                == ValueM::Text(out@) && final(self).remaining() == old(self).remaining().skip(
                n as int,
            )),
            dec_any(old(self).remaining()) matches Some((m, n)) && m is Text ==> r is Ok,
            reports_unexpected_tag(
                old(self).remaining(),
                seq![Tag::Str, Tag::MarkerTerminatedStr],
                1,
                final(self).remaining(),
                r,
            ),
            (dec_uint(old(self).remaining().skip(1), 8) matches Some((len, used))
                && old(self).remaining().len() >= 1 && Tag::spec_from_byte(
                old(self).remaining()[0],
            ) == Some(Tag::Str) && len <= usize::MAX && old(self).remaining().len() >= 1 + used
                + len && !vstd::utf8::valid_utf8(
                old(self).remaining().subrange(1 + used as int, 1 + used + len as int),
            )) ==> (r matches Err(e) && e is Utf8Error),
            (crate::read::find_marker(old(self).remaining().skip(1)) matches Some(i) && old(
                self,
            ).remaining().len() >= 1 && Tag::spec_from_byte(old(self).remaining()[0]) == Some(
                Tag::MarkerTerminatedStr,
            ) && !vstd::utf8::valid_utf8(old(self).remaining().subrange(1, 1 + i as int))) ==> (r matches
                Err(e) && e is Utf8Error),
            (old(self).remaining().len() >= 1 && Tag::spec_from_byte(old(self).remaining()[0])
                == Some(Tag::MarkerTerminatedStr) && crate::read::find_marker(
                old(self).remaining().skip(1),
            ) is None) ==> (r matches Err(e) && e is ReaderError),
    {
        let ghost s = old(self).remaining();
        let t = match self.pop_tag() {
            Ok(t) => t,
            Err(e) => {
                return Err(e);
            },
        };
        proof {
            let acc = seq![Tag::Str, Tag::MarkerTerminatedStr];
            assert(acc[0] == Tag::Str);
            assert(acc[1] == Tag::MarkerTerminatedStr);
        }
        match t {
            Tag::Str => {
                let len = match self.pop_len() {
                    Ok(len) => len,
                    Err(e) => {
                        return Err(e);
                    },
                };
                let ghost used = (s.len() - 1 - self.remaining().len()) as nat;
                let bytes = match self.pop_n(len) {
                    Ok(v) => v,
                    Err(e) => {
                        return Err(e);
                    },
                };
                proof {
                    crate::value::lemma_dec_uint_bounds(s.skip(1), 8);
                    assert(s.skip(1).skip(used as int) =~= s.skip(1 + used as int));
                    assert(s.skip(1 + used as int).take(len as int) =~= s.subrange(
                        1 + used as int,
                        1 + used as int + len as int,
                    ));
                    assert(s.skip(1 + used as int).skip(len as int) =~= s.skip(
                        1 + used as int + len as int,
                    ));
                }
                match str_from_utf8(bytes.as_slice()) {
                    Some(text) => Ok(text.to_owned()),
                    None => Err(DeError::Utf8Error),
                }
            },
            Tag::MarkerTerminatedStr => {
                let raw = match self.read_until_trailer() {
                    Ok(v) => v,
                    Err(e) => {
                        return Err(e);
                    },
                };
                let mut content = raw;
                let keep = content.len() - 2;
                content.truncate(keep);
                proof {
                    crate::read::lemma_find_marker(s.skip(1));
                    let i = crate::read::find_marker(s.skip(1))->Some_0;
                    assert(content@ =~= s.subrange(1, 1 + i as int));
                    assert(s.skip(1).skip(i as int + 2) =~= s.skip(1 + i as int + 2));
                }
                match str_from_utf8(content.as_slice()) {
                    Some(text) => Ok(text.to_owned()),
                    None => Err(DeError::Utf8Error),
                }
            },
            got => {
                let mut expected: Vec<Tag> = Vec::new();
                expected.push(Tag::Str);
                expected.push(Tag::MarkerTerminatedStr);
                proof {
                    assert(expected@ =~= seq![Tag::Str, Tag::MarkerTerminatedStr]);
                }
                Err(DeError::UnexpectedTag(UnexpectedTag::unexpected(expected, got)))
            },
        }
    }

    /// Reads through the source until the two-byte end marker, keeping it.
    fn read_until_trailer(&mut self) -> (r: Result<Vec<u8>, DeError<<R as Read>::Error>>)
        requires
            old(self).no_peek(),
        ensures
            crate::read::find_marker(old(self).remaining()) is Some ==> r is Ok,
            r matches Ok(v) ==> {
                &&& crate::read::find_marker(old(self).remaining()) matches Some(i)
                &&& v@ == old(self).remaining().take(i as int + 2)
                &&& v@.len() >= 2
                &&& final(self).remaining() == old(self).remaining().skip(i as int + 2)
                &&& final(self).no_peek()
            },
            r matches Err(e) ==> e is ReaderError,
    {
        proof {
            crate::read::lemma_find_marker(self.reader.remaining());
        }
        match self.reader.read_until_marker() {
            Ok(v) => Ok(v),
            Err(e) => Err(DeError::ReaderError(e)),
        }
    }

    /// Reads a byte string: the bytes tag, a length, then that many raw
    /// bytes.
    pub fn decode_bytes(&mut self) -> (r: Result<Vec<u8>, DeError<<R as Read>::Error>>)
        ensures
            r matches Ok(out) ==> (dec_any(old(self).remaining()) matches Some((m, n)) && m
                == ValueM::Bytes(out@) && final(self).remaining() == old(self).remaining().skip(
                n as int,
            )),
            dec_any(old(self).remaining()) matches Some((m, n)) && m is Bytes ==> r is Ok,
            reports_unexpected_tag(
                old(self).remaining(),
                seq![Tag::Bytes],
                1,
                final(self).remaining(),
                r,
            ),
    {
        let ghost s = old(self).remaining();
        let t = match self.pop_tag() {
            Ok(t) => t,
            Err(e) => {
                return Err(e);
            },
        };
        proof {
            assert(seq![Tag::Bytes][0] == Tag::Bytes);
        }
        match t {
            Tag::Bytes => {
                let len = match self.pop_len() {
                    Ok(len) => len,
                    Err(e) => {
                        return Err(e);
                    },
                };
                let ghost used = (s.len() - 1 - self.remaining().len()) as nat;
                let bytes = match self.pop_n(len) {
                    Ok(v) => v,
                    Err(e) => {
                        return Err(e);
                    },
                };
                proof {
                    crate::value::lemma_dec_uint_bounds(s.skip(1), 8);
                    assert(s.skip(1).skip(used as int) =~= s.skip(1 + used as int));
                    assert(s.skip(1 + used as int).take(len as int) =~= s.subrange(
                        1 + used as int,
                        1 + used as int + len as int,
                    ));
                    assert(s.skip(1 + used as int).skip(len as int) =~= s.skip(
                        1 + used as int + len as int,
                    ));
                }
                Ok(bytes)
            },
            got => {
                let mut expected: Vec<Tag> = Vec::new();
                expected.push(Tag::Bytes);
                proof {
                    assert(expected@ =~= seq![Tag::Bytes]);
                }
                Err(DeError::UnexpectedTag(UnexpectedTag::unexpected(expected, got)))
            },
        }
    }
}

impl<R: Read> Deserializer<R> {
    /// Reads an option marker: `false` for an absent value, `true` when a
    /// present value follows.
    pub fn decode_option_header(&mut self) -> (r: Result<bool, DeError<<R as Read>::Error>>)
        ensures
            match r {
                Ok(b) => {
                    &&& old(self).remaining().len() >= 1
                    &&& Tag::spec_from_byte(old(self).remaining()[0]) == Some(
                        if b {
                            Tag::Present
                        } else {
                            Tag::Absent
                        },
                    )
                    &&& final(self).remaining() == old(self).remaining().skip(1)
                },
                Err(_) => true,
            },
            old(self).remaining().len() >= 1 && (Tag::spec_from_byte(old(self).remaining()[0])
                == Some(Tag::Absent) || Tag::spec_from_byte(old(self).remaining()[0]) == Some(
                Tag::Present,
            )) ==> r is Ok,
            reports_unexpected_tag(
                old(self).remaining(),
                seq![Tag::Absent, Tag::Present],
                1,
                final(self).remaining(),
                r,
            ),
    {
        let t = match self.pop_tag() {
            Ok(t) => t,
            Err(e) => {
                return Err(e);
            },
        };
        proof {
            let acc = seq![Tag::Absent, Tag::Present];
            assert(acc[0] == Tag::Absent);
            assert(acc[1] == Tag::Present);
        }
        match t {
            Tag::Absent => Ok(false),
            Tag::Present => Ok(true),
            got => {
                let mut expected: Vec<Tag> = Vec::new();
                expected.push(Tag::Absent);
                expected.push(Tag::Present);
                proof {
                    assert(expected@ =~= seq![Tag::Absent, Tag::Present]);
                }
                Err(DeError::UnexpectedTag(UnexpectedTag::unexpected(expected, got)))
            },
        }
    }

    /// Reads one specific payloadless tag.
    fn expect_tag(&mut self, want: Tag) -> (r: Result<(), DeError<<R as Read>::Error>>)
        ensures
            match r {
                Ok(_) => {
                    &&& old(self).remaining().len() >= 1
                    &&& Tag::spec_from_byte(old(self).remaining()[0]) == Some(want)
                    &&& final(self).remaining() == old(self).remaining().skip(1)
                    &&& final(self).no_peek()
                },
                Err(_) => true,
            },
            old(self).remaining().len() >= 1 && Tag::spec_from_byte(old(self).remaining()[0])
                == Some(want) ==> r is Ok,
            reports_unexpected_tag(
                old(self).remaining(),
                seq![want],
                1,
                final(self).remaining(),
                r,
            ),
    {
        let t = match self.pop_tag() {
            Ok(t) => t,
            Err(e) => {
                return Err(e);
            },
        };
        proof {
            assert(seq![want][0] == want);
        }
        if t == want {
            Ok(())
        } else {
            let mut expected: Vec<Tag> = Vec::new();
            expected.push(want);
            proof {
                assert(expected@ =~= seq![want]);
            }
            Err(DeError::UnexpectedTag(UnexpectedTag::unexpected(expected, t)))
        }
    }

    /// Reads the unit value's tag.
    pub fn decode_unit(&mut self) -> (r: Result<(), DeError<<R as Read>::Error>>)
        ensures
            r is Ok ==> old(self).remaining().len() >= 1 && Tag::spec_from_byte(
                old(self).remaining()[0],
            ) == Some(Tag::Unit) && final(self).remaining() == old(self).remaining().skip(1),
            old(self).remaining().len() >= 1 && Tag::spec_from_byte(old(self).remaining()[0])
                == Some(Tag::Unit) ==> r is Ok,
            reports_unexpected_tag(
                old(self).remaining(),
                seq![Tag::Unit],
                1,
                final(self).remaining(),
                r,
            ),
    {
        self.expect_tag(Tag::Unit)
    }

    /// Reads a unit struct's tag.
    pub fn decode_unit_struct(&mut self) -> (r: Result<(), DeError<<R as Read>::Error>>)
        ensures
            r is Ok ==> old(self).remaining().len() >= 1 && Tag::spec_from_byte(
                old(self).remaining()[0],
            ) == Some(Tag::UnitStruct) && final(self).remaining() == old(self).remaining().skip(1),
            old(self).remaining().len() >= 1 && Tag::spec_from_byte(old(self).remaining()[0])
                == Some(Tag::UnitStruct) ==> r is Ok,
            reports_unexpected_tag(
                old(self).remaining(),
                seq![Tag::UnitStruct],
                1,
                final(self).remaining(),
                r,
            ),
    {
        self.expect_tag(Tag::UnitStruct)
    }

    /// Reads a single-field wrapper's tag; the caller decodes the wrapped
    /// value next.
    pub fn decode_newtype_struct(&mut self) -> (r: Result<(), DeError<<R as Read>::Error>>)
        ensures
            r is Ok ==> old(self).remaining().len() >= 1 && Tag::spec_from_byte(
                old(self).remaining()[0],
            ) == Some(Tag::NewTypeStruct) && final(self).remaining() == old(self).remaining().skip(
                1,
            ),
            old(self).remaining().len() >= 1 && Tag::spec_from_byte(old(self).remaining()[0])
                == Some(Tag::NewTypeStruct) ==> r is Ok,
            reports_unexpected_tag(
                old(self).remaining(),
                seq![Tag::NewTypeStruct],
                1,
                final(self).remaining(),
                r,
            ),
    {
        self.expect_tag(Tag::NewTypeStruct)
    }

    /// Reads a sequence opener: a known length for the sized framings, or
    /// nothing for the streaming one, whose elements then run to the end
    /// marker.  A well-formed opener always succeeds; a length that does
    /// not fit the host's size type yields the oversized-length error.
    pub fn decode_seq_header(&mut self) -> (r: Result<
        Option<usize>,
        DeError<<R as Read>::Error>,
    >)
        ensures
            r matches Ok(h) && h is None ==> old(self).remaining().len() >= 1
                && Tag::spec_from_byte(old(self).remaining()[0]) == Some(Tag::UnsizedSeq)
                && final(self).remaining() == old(self).remaining().skip(1)
                && final(self).no_peek(),
            r matches Ok(h) ==> h is Some ==> {
                &&& old(self).remaining().len() >= 1
                &&& (Tag::spec_from_byte(old(self).remaining()[0]) == Some(Tag::SizedSeq)
                    || Tag::spec_from_byte(old(self).remaining()[0]) == Some(Tag::Tuple)
                    || Tag::spec_from_byte(old(self).remaining()[0]) == Some(Tag::TupleStruct))
                &&& dec_uint(old(self).remaining().skip(1), 8) matches Some((v, used))
                    && h->Some_0 as nat == v && final(self).remaining() == old(
                    self,
                ).remaining().skip(1 + used as int)
                &&& final(self).no_peek()
            },
            old(self).remaining().len() >= 1 && Tag::spec_from_byte(old(self).remaining()[0])
                == Some(Tag::UnsizedSeq) ==> r == Ok::<Option<usize>, DeError<<R as Read>::Error>>(
                None,
            ),
            (old(self).remaining().len() >= 1 && (Tag::spec_from_byte(old(self).remaining()[0])
                == Some(Tag::SizedSeq) || Tag::spec_from_byte(old(self).remaining()[0]) == Some(
                Tag::Tuple,
            ) || Tag::spec_from_byte(old(self).remaining()[0]) == Some(Tag::TupleStruct))
                && dec_uint(old(self).remaining().skip(1), 8) is Some) ==> ({
                let vu = dec_uint(old(self).remaining().skip(1), 8)->Some_0;
                &&& vu.0 <= usize::MAX ==> (r matches Ok(h) && h == Some(vu.0 as usize))
                &&& vu.0 > usize::MAX ==> (r matches Err(e) && e matches DeError::InvalidLen(l)
                    && l as nat == vu.0)
            }),
            reports_unexpected_tag(
                old(self).remaining(),
                seq![Tag::SizedSeq, Tag::Tuple, Tag::TupleStruct, Tag::UnsizedSeq],
                1,
                final(self).remaining(),
                r,
            ),
    {
        let ghost s = old(self).remaining();
        let t = match self.pop_tag() {
            Ok(t) => t,
            Err(e) => {
                return Err(e);
            },
        };
        proof {
            let acc = seq![Tag::SizedSeq, Tag::Tuple, Tag::TupleStruct, Tag::UnsizedSeq];
            assert(acc[0] == Tag::SizedSeq);
            assert(acc[1] == Tag::Tuple);
            assert(acc[2] == Tag::TupleStruct);
            assert(acc[3] == Tag::UnsizedSeq);
        }
        match t {
            Tag::SizedSeq | Tag::Tuple | Tag::TupleStruct => {
                let header = match self.pop_len() {
                    Ok(n) => Ok(Some(n)),
                    Err(e) => Err(e),
                };
                proof {
                    let p = dec_uint(s.skip(1), 8);
                    if p is Some {
                        let used = p->Some_0.1;
                        crate::value::lemma_dec_uint_bounds(s.skip(1), 8);
                        assert(s.skip(1).skip(used as int) =~= s.skip(1 + used as int));
                    }
                }
                header
            },
            Tag::UnsizedSeq => Ok(None),
            got => {
                let mut expected: Vec<Tag> = Vec::new();
                expected.push(Tag::SizedSeq);
                expected.push(Tag::Tuple);
                expected.push(Tag::TupleStruct);
                expected.push(Tag::UnsizedSeq);
                proof {
                    assert(expected@ =~= seq![
                        Tag::SizedSeq,
                        Tag::Tuple,
                        Tag::TupleStruct,
                        Tag::UnsizedSeq,
                    ]);
                }
                Err(DeError::UnexpectedTag(UnexpectedTag::unexpected(expected, got)))
            },
        }
    }

    /// Reads a map opener: a known entry count for the sized framings, or
    /// nothing for the streaming one.  A well-formed opener always
    /// succeeds; a count that does not fit the host's size type yields the
    /// oversized-length error.
    pub fn decode_map_header(&mut self) -> (r: Result<
        Option<usize>,
        DeError<<R as Read>::Error>,
    >)
        ensures
            r matches Ok(h) && h is None ==> old(self).remaining().len() >= 1
                && Tag::spec_from_byte(old(self).remaining()[0]) == Some(Tag::UnsizedMap)
                && final(self).remaining() == old(self).remaining().skip(1)
                && final(self).no_peek(),
            r matches Ok(h) ==> h is Some ==> {
                &&& old(self).remaining().len() >= 1
                &&& (Tag::spec_from_byte(old(self).remaining()[0]) == Some(Tag::SizedMap)
                    || Tag::spec_from_byte(old(self).remaining()[0]) == Some(Tag::Struct))
                &&& dec_uint(old(self).remaining().skip(1), 8) matches Some((v, used))
                    && h->Some_0 as nat == v && final(self).remaining() == old(
                    self,
                ).remaining().skip(1 + used as int)
                &&& final(self).no_peek()
            },
            old(self).remaining().len() >= 1 && Tag::spec_from_byte(old(self).remaining()[0])
                == Some(Tag::UnsizedMap) ==> r == Ok::<Option<usize>, DeError<<R as Read>::Error>>(
                None,
            ),
            (old(self).remaining().len() >= 1 && (Tag::spec_from_byte(old(self).remaining()[0])
                == Some(Tag::SizedMap) || Tag::spec_from_byte(old(self).remaining()[0]) == Some(
                Tag::Struct,
            )) && dec_uint(old(self).remaining().skip(1), 8) is Some) ==> ({
                let vu = dec_uint(old(self).remaining().skip(1), 8)->Some_0;
                &&& vu.0 <= usize::MAX ==> (r matches Ok(h) && h == Some(vu.0 as usize))
                &&& vu.0 > usize::MAX ==> (r matches Err(e) && e matches DeError::InvalidLen(l)
                    && l as nat == vu.0)
            }),
            reports_unexpected_tag(
                old(self).remaining(),
                seq![Tag::SizedMap, Tag::Struct, Tag::UnsizedMap],
                1,
                final(self).remaining(),
                r,
            ),
    {
        let ghost s = old(self).remaining();
        let t = match self.pop_tag() {
            Ok(t) => t,
            Err(e) => {
                return Err(e);
            },
        };
        proof {
            let acc = seq![Tag::SizedMap, Tag::Struct, Tag::UnsizedMap];
            assert(acc[0] == Tag::SizedMap);
            assert(acc[1] == Tag::Struct);
            assert(acc[2] == Tag::UnsizedMap);
        }
        match t {
            Tag::SizedMap | Tag::Struct => {
                let header = match self.pop_len() {
                    Ok(n) => Ok(Some(n)),
                    Err(e) => Err(e),
                };
                proof {
                    let p = dec_uint(s.skip(1), 8);
                    if p is Some {
                        let used = p->Some_0.1;
                        crate::value::lemma_dec_uint_bounds(s.skip(1), 8);
                        assert(s.skip(1).skip(used as int) =~= s.skip(1 + used as int));
                    }
                }
                header
            },
            Tag::UnsizedMap => Ok(None),
            got => {
                let mut expected: Vec<Tag> = Vec::new();
                expected.push(Tag::SizedMap);
                expected.push(Tag::Struct);
                expected.push(Tag::UnsizedMap);
                proof {
                    assert(expected@ =~= seq![Tag::SizedMap, Tag::Struct, Tag::UnsizedMap]);
                }
                Err(DeError::UnexpectedTag(UnexpectedTag::unexpected(expected, got)))
            },
        }
    }

    /// Reads an enum identifier: the case tag and the variant index.  The
    /// case tag goes back into the lookahead slot, so the case-specific
    /// decode call that follows re-checks it against the expected shape.
    pub fn decode_enum_header(&mut self) -> (r: Result<
        (Tag, u32),
        DeError<<R as Read>::Error>,
    >)
        ensures
            r matches Ok((t, idx)) ==> {
                &&& (t == Tag::UnitVariant || t == Tag::NewTypeVariant || t == Tag::TupleVariant
                    || t == Tag::StructVariant)
                &&& Tag::spec_from_byte(old(self).remaining()[0]) == Some(t)
                &&& dec_uint(old(self).remaining().skip(1), 4) matches Some((v, used)) && idx
                    as nat == v && final(self).remaining() == seq![t.spec_byte()] + old(self).remaining().skip(1 + used as int)
            },
            (Tag::spec_from_byte(old(self).remaining()[0]) matches Some(t) && old(
                self,
            ).remaining().len() >= 1 && (t == Tag::UnitVariant || t == Tag::NewTypeVariant
                || t == Tag::TupleVariant || t == Tag::StructVariant) && dec_uint(
                old(self).remaining().skip(1),
                4,
            ) is Some) ==> r is Ok,
            reports_unexpected_tag(
                old(self).remaining(),
                seq![Tag::UnitVariant, Tag::NewTypeVariant, Tag::TupleVariant, Tag::StructVariant],
                1,
                final(self).remaining(),
                r,
            ),
    {
        let t = match self.pop_tag() {
            Ok(t) => t,
            Err(e) => {
                return Err(e);
            },
        };
        proof {
            let acc = seq![
                Tag::UnitVariant,
                Tag::NewTypeVariant,
                Tag::TupleVariant,
                Tag::StructVariant,
            ];
            assert(acc[0] == Tag::UnitVariant);
            assert(acc[1] == Tag::NewTypeVariant);
            assert(acc[2] == Tag::TupleVariant);
            assert(acc[3] == Tag::StructVariant);
        }
        match t {
            Tag::UnitVariant | Tag::NewTypeVariant | Tag::TupleVariant | Tag::StructVariant => {
                let idx = match self.pop_variant() {
                    Ok(idx) => idx,
                    Err(e) => {
                        return Err(e);
                    },
                };
                self.push_tag(t);
                Ok((t, idx))
            },
            got => {
                let mut expected: Vec<Tag> = Vec::new();
                expected.push(Tag::UnitVariant);
                expected.push(Tag::NewTypeVariant);
                expected.push(Tag::TupleVariant);
                expected.push(Tag::StructVariant);
                proof {
                    assert(expected@ =~= seq![
                        Tag::UnitVariant,
                        Tag::NewTypeVariant,
                        Tag::TupleVariant,
                        Tag::StructVariant,
                    ]);
                }
                Err(DeError::UnexpectedTag(UnexpectedTag::unexpected(expected, got)))
            },
        }
    }

    /// Re-checks a unit enum case's tag after [`Self::decode_enum_header`].
    pub fn decode_unit_variant(&mut self) -> (r: Result<(), DeError<<R as Read>::Error>>)
        ensures
            r is Ok ==> old(self).remaining().len() >= 1 && Tag::spec_from_byte(
                old(self).remaining()[0],
            ) == Some(Tag::UnitVariant) && final(self).remaining() == old(self).remaining().skip(
                1,
            ),
            old(self).remaining().len() >= 1 && Tag::spec_from_byte(old(self).remaining()[0])
                == Some(Tag::UnitVariant) ==> r is Ok,
            reports_unexpected_tag(
                old(self).remaining(),
                seq![Tag::UnitVariant],
                1,
                final(self).remaining(),
                r,
            ),
    {
        self.expect_tag(Tag::UnitVariant)
    }

    /// Re-checks a single-field enum case's tag; the caller decodes the
    /// wrapped value next.
    pub fn decode_newtype_variant(&mut self) -> (r: Result<(), DeError<<R as Read>::Error>>)
        ensures
            r is Ok ==> old(self).remaining().len() >= 1 && Tag::spec_from_byte(
                old(self).remaining()[0],
            ) == Some(Tag::NewTypeVariant) && final(self).remaining() == old(self).remaining().skip(1),
            old(self).remaining().len() >= 1 && Tag::spec_from_byte(old(self).remaining()[0])
                == Some(Tag::NewTypeVariant) ==> r is Ok,
            reports_unexpected_tag(
                old(self).remaining(),
                seq![Tag::NewTypeVariant],
                1,
                final(self).remaining(),
                r,
            ),
    {
        self.expect_tag(Tag::NewTypeVariant)
    }

    /// Re-checks a tuple enum case's tag; the caller then decodes the
    /// fields, whose arity travels out of band and is never read from the
    /// wire.
    pub fn decode_tuple_variant(&mut self) -> (r: Result<(), DeError<<R as Read>::Error>>)
        ensures
            r is Ok ==> old(self).remaining().len() >= 1 && Tag::spec_from_byte(
                old(self).remaining()[0],
            ) == Some(Tag::TupleVariant) && final(self).remaining() == old(self).remaining().skip(
                1,
            ),
            old(self).remaining().len() >= 1 && Tag::spec_from_byte(old(self).remaining()[0])
                == Some(Tag::TupleVariant) ==> r is Ok,
            reports_unexpected_tag(
                old(self).remaining(),
                seq![Tag::TupleVariant],
                1,
                final(self).remaining(),
                r,
            ),
    {
        self.expect_tag(Tag::TupleVariant)
    }

    /// Re-checks a struct enum case's tag; the caller then decodes the
    /// named fields, whose arity travels out of band.
    pub fn decode_struct_variant(&mut self) -> (r: Result<(), DeError<<R as Read>::Error>>)
        ensures
            r is Ok ==> old(self).remaining().len() >= 1 && Tag::spec_from_byte(
                old(self).remaining()[0],
            ) == Some(Tag::StructVariant) && final(self).remaining() == old(self).remaining().skip(
                1,
            ),
            old(self).remaining().len() >= 1 && Tag::spec_from_byte(old(self).remaining()[0])
                == Some(Tag::StructVariant) ==> r is Ok,
            reports_unexpected_tag(
                old(self).remaining(),
                seq![Tag::StructVariant],
                1,
                final(self).remaining(),
                r,
            ),
    {
        self.expect_tag(Tag::StructVariant)
    }
}

/// The uniform element cursor of a collection being decoded: it counts
/// down a known length, or watches for the end-marker tag when the length
/// is unknown.
pub struct SeqDeserializer {
    remaining_count: Option<usize>,
}

impl SeqDeserializer {
    /// The count of elements still owed, when the length was known.
    pub closed spec fn spec_remaining(&self) -> Option<usize> {
        self.remaining_count
    }

    /// A cursor for a collection with the given known length, or none.
    pub fn new(len: Option<usize>) -> (r: SeqDeserializer)
        ensures
            r.spec_remaining() == len,
    {
        SeqDeserializer { remaining_count: len }
    }

    /// How many elements are still owed, when the length was known up
    /// front.
    pub fn size_hint(&self) -> (r: Option<usize>)
        ensures
            r == self.spec_remaining(),
    {
        self.remaining_count
    }

    /// True when another element follows: a sized cursor counts down and
    /// then refuses further calls; an unsized cursor peeks for the end
    /// marker and consumes it when found.  The caller decodes the element
    /// itself after a `true` answer.
    pub fn parse_next<R: Read>(&mut self, de: &mut Deserializer<R>) -> (r: Result<
        bool,
        DeError<<R as Read>::Error>,
    >)
        ensures
            match old(self).spec_remaining() {
                Some(n) => {
                    &&& r is Ok
                    &&& *final(de) == *old(de)
                    &&& (n > 0 ==> r == Ok::<bool, DeError<<R as Read>::Error>>(true)
                        && final(self).spec_remaining() == Some((n - 1) as usize))
                    &&& (n == 0 ==> r == Ok::<bool, DeError<<R as Read>::Error>>(false)
                        && final(self).spec_remaining() == Some(0usize))
                },
                None => {
                    &&& final(self).spec_remaining() is None
                    &&& (r == Ok::<bool, DeError<<R as Read>::Error>>(false) ==> old(de).remaining().len() >= 1 && old(de).remaining()[0]
                        == Tag::UnsizedSeqEnd.spec_byte() && final(de).remaining() == old(de).remaining().skip(1) && final(de).no_peek())
                    &&& (r == Ok::<bool, DeError<<R as Read>::Error>>(true) ==> old(de).remaining().len() >= 1 && Tag::spec_from_byte(old(de).remaining()[0])
                        is Some && old(de).remaining()[0] != Tag::UnsizedSeqEnd.spec_byte()
                        && final(de).remaining() == old(de).remaining())
                    &&& (old(de).remaining().len() >= 1 && Tag::spec_from_byte(
                        old(de).remaining()[0],
                    ) is Some ==> r is Ok)
                },
            },
    {
        match self.remaining_count {
            Some(n) => {
                if n == 0 {
                    Ok(false)
                } else {
                    self.remaining_count = Some(n - 1);
                    Ok(true)
                }
            },
            None => {
                let t = match de.peek_tag() {
                    Ok(t) => t,
                    Err(e) => {
                        return Err(e);
                    },
                };
                if t == Tag::UnsizedSeqEnd {
                    let popped = match de.pop_tag() {
                        Ok(p) => p,
                        Err(e) => {
                            return Err(e);
                        },
                    };
                    Ok(false)
                } else {
                    proof {
                        crate::tag::lemma_tag_byte_round_trip(t);
                    }
                    Ok(true)
                }
            },
        }
    }
}

impl<R: Read> Deserializer<R> {
    /// Schema-free decode: reads whatever value comes next, guided only by
    /// its tags, exactly as the wire model [`dec_any`] describes.  Tuple
    /// and struct enum cases need their arity from outside the wire, so
    /// this mode rejects their tags.
    pub fn decode_any(&mut self) -> (r: Result<Value, DeError<<R as Read>::Error>>)
        ensures
            match dec_any(old(self).remaining()) {
                Some((m, n)) => r matches Ok(v) && v@ == m && final(self).remaining() == old(
                    self,
                ).remaining().skip(n as int),
                None => r is Err,
            },
            (Tag::spec_from_byte(old(self).remaining()[0]) matches Some(t) && old(
                self,
            ).remaining().len() >= 1 && (t == Tag::UnsizedSeqEnd || t == Tag::TupleVariant
                || t == Tag::StructVariant)) ==> {
                &&& r matches Err(e)
                &&& e matches DeError::UnexpectedTag(u)
                &&& Some(u.got) == Tag::spec_from_byte(old(self).remaining()[0])
                &&& u.expected@ == Seq::<Tag>::empty()
                &&& final(self).remaining() == old(self).remaining()
            },
        decreases self.remaining().len(), 2nat,
    {
        let ghost s = self.remaining();
        let t = match self.peek_tag() {
            Ok(t) => t,
            Err(e) => {
                return Err(e);
            },
        };
        proof {
            crate::tag::lemma_tag_byte_round_trip(t);
        }
        match t {
            Tag::Absent | Tag::BoolFalse | Tag::BoolTrue | Tag::Unit | Tag::UnitStruct
                | Tag::UnitVariant => self.decode_any_leaf(),
            Tag::I8 | Tag::I16 | Tag::I32 | Tag::I64 | Tag::I128 | Tag::U8 | Tag::U16 | Tag::U32
                | Tag::U64 | Tag::U128 | Tag::F32 | Tag::F64 => self.decode_any_number(),
            Tag::Char1 | Tag::Char2 | Tag::Char3 | Tag::Char4 => match self.decode_char() {
                Ok(c) => Ok(Value::Char(c)),
                Err(e) => Err(e),
            },
            Tag::Str | Tag::MarkerTerminatedStr => match self.decode_str() {
                Ok(text) => Ok(Value::Text(text)),
                Err(e) => Err(e),
            },
            Tag::Bytes => match self.decode_bytes() {
                Ok(bs) => Ok(Value::Bytes(bs)),
                Err(e) => Err(e),
            },
            Tag::Present | Tag::NewTypeStruct | Tag::NewTypeVariant => self.decode_any_nested(),
            Tag::SizedSeq | Tag::Tuple | Tag::TupleStruct | Tag::SizedMap | Tag::Struct => self
                .decode_any_sized_collection(),
            Tag::UnsizedSeq | Tag::UnsizedMap => self.decode_any_unsized_collection(),
            got => {
                let expected: Vec<Tag> = Vec::new();
                proof {
                    assert(expected@ =~= Seq::<Tag>::empty());
                }
                Err(DeError::UnexpectedTag(UnexpectedTag::unexpected(expected, got)))
            },
        }
    }

    /// Schema-free decode of the shapes without a payload beyond an
    /// optional variant index.
    fn decode_any_leaf(&mut self) -> (r: Result<Value, DeError<<R as Read>::Error>>)
        requires
            old(self).remaining().len() >= 1,
            Tag::spec_from_byte(old(self).remaining()[0]) matches Some(t) && (t == Tag::Absent
                || t == Tag::BoolFalse || t == Tag::BoolTrue || t == Tag::Unit
                || t == Tag::UnitStruct || t == Tag::UnitVariant),
        ensures
            match dec_any(old(self).remaining()) {
                Some((m, n)) => r matches Ok(v) && v@ == m && final(self).remaining() == old(
                    self,
                ).remaining().skip(n as int),
                None => r is Err,
            },
        decreases self.remaining().len(), 1nat,
    {
        let t = match self.pop_tag() {
            Ok(t) => t,
            Err(e) => {
                return Err(e);
            },
        };
        match t {
            Tag::Absent => Ok(Value::Absent),
            Tag::BoolFalse => Ok(Value::Bool(false)),
            Tag::BoolTrue => Ok(Value::Bool(true)),
            Tag::Unit => Ok(Value::Unit),
            Tag::UnitStruct => Ok(Value::Unit),
            _ => {
                let idx = match self.pop_variant() {
                    Ok(idx) => idx,
                    Err(e) => {
                        return Err(e);
                    },
                };
                Ok(Value::UnitVariant(idx))
            },
        }
    }

    /// Schema-free decode of a number at the width its tag names.
    fn decode_any_number(&mut self) -> (r: Result<Value, DeError<<R as Read>::Error>>)
        requires
            old(self).remaining().len() >= 1,
            Tag::spec_from_byte(old(self).remaining()[0]) matches Some(t) && (
            crate::value::is_sint_tag(t) || crate::value::is_uint_tag(t) || t == Tag::F32
                || t == Tag::F64),
        ensures
            match dec_any(old(self).remaining()) {
                Some((m, n)) => r matches Ok(v) && v@ == m && final(self).remaining() == old(
                    self,
                ).remaining().skip(n as int),
                None => r is Err,
            },
        decreases self.remaining().len(), 1nat,
    {
        let ghost s = self.remaining();
        let t = match self.peek_tag() {
            Ok(t) => t,
            Err(e) => {
                return Err(e);
            },
        };
        match t {
            Tag::I8 => match self.parse_i8() {
                Ok(v) => Ok(Value::I8(v)),
                Err(e) => Err(e),
            },
            Tag::I16 => match self.parse_i16() {
                Ok(v) => Ok(Value::I16(v)),
                Err(e) => Err(e),
            },
            Tag::I32 => match self.parse_i32() {
                Ok(v) => Ok(Value::I32(v)),
                Err(e) => Err(e),
            },
            Tag::I64 => match self.parse_i64() {
                Ok(v) => Ok(Value::I64(v)),
                Err(e) => Err(e),
            },
            Tag::I128 => match self.parse_i128() {
                Ok(v) => Ok(Value::I128(v)),
                Err(e) => Err(e),
            },
            Tag::U8 => match self.parse_u8() {
                Ok(v) => Ok(Value::U8(v)),
                Err(e) => Err(e),
            },
            Tag::U16 => match self.parse_u16() {
                Ok(v) => Ok(Value::U16(v)),
                Err(e) => Err(e),
            },
            Tag::U32 => match self.parse_u32() {
                Ok(v) => Ok(Value::U32(v)),
                Err(e) => Err(e),
            },
            Tag::U64 => match self.parse_u64() {
                Ok(v) => Ok(Value::U64(v)),
                Err(e) => Err(e),
            },
            Tag::U128 => match self.parse_u128() {
                Ok(v) => Ok(Value::U128(v)),
                Err(e) => Err(e),
            },
            Tag::F32 => match self.parse_f32_bits() {
                Ok(v) => {
                    proof {
                        crate::wire::lemma_from_be_bound(s.subrange(1, 5));
                        reveal_with_fuel(pow256, 17);
                    }
                    Ok(Value::F32Bits(v))
                },
                Err(e) => Err(e),
            },
            _ => match self.parse_f64_bits() {
                Ok(v) => {
                    proof {
                        crate::wire::lemma_from_be_bound(s.subrange(1, 9));
                        reveal_with_fuel(pow256, 17);
                    }
                    Ok(Value::F64Bits(v))
                },
                Err(e) => Err(e),
            },
        }
    }

    /// Schema-free decode of the one-child wrappers: a present option, a
    /// single-field wrapper, and a single-field enum case.
    fn decode_any_nested(&mut self) -> (r: Result<Value, DeError<<R as Read>::Error>>)
        requires
            old(self).remaining().len() >= 1,
            Tag::spec_from_byte(old(self).remaining()[0]) matches Some(t) && (t == Tag::Present
                || t == Tag::NewTypeStruct || t == Tag::NewTypeVariant),
        ensures
            match dec_any(old(self).remaining()) {
                Some((m, n)) => r matches Ok(v) && v@ == m && final(self).remaining() == old(
                    self,
                ).remaining().skip(n as int),
                None => r is Err,
            },
        decreases self.remaining().len(), 1nat,
    {
        let ghost s = self.remaining();
        let t = match self.pop_tag() {
            Ok(t) => t,
            Err(e) => {
                return Err(e);
            },
        };
        match t {
            Tag::Present => {
                let inner = match self.decode_any() {
                    Ok(v) => v,
                    Err(e) => {
                        return Err(e);
                    },
                };
                proof {
                    crate::value::lemma_dec_any_bounds(s.skip(1));
                }
                Ok(Value::Present(Box::new(inner)))
            },
            Tag::NewTypeStruct => {
                let inner = match self.decode_any() {
                    Ok(v) => v,
                    Err(e) => {
                        return Err(e);
                    },
                };
                proof {
                    crate::value::lemma_dec_any_bounds(s.skip(1));
                }
                Ok(Value::NewTypeStruct(Box::new(inner)))
            },
            _ => {
                let idx = match self.pop_variant() {
                    Ok(idx) => idx,
                    Err(e) => {
                        return Err(e);
                    },
                };
                let ghost used = (s.len() - 1 - self.remaining().len()) as nat;
                proof {
                    crate::value::lemma_dec_uint_bounds(s.skip(1), 4);
                    assert(s.skip(1).skip(used as int) =~= s.skip(1 + used as int));
                }
                let inner = match self.decode_any() {
                    Ok(v) => v,
                    Err(e) => {
                        return Err(e);
                    },
                };
                proof {
                    crate::value::lemma_dec_any_bounds(s.skip(1 + used as int));
                }
                Ok(Value::NewTypeVariant(idx, Box::new(inner)))
            },
        }
    }

    /// Schema-free decode of the length-prefixed collections.
    fn decode_any_sized_collection(&mut self) -> (r: Result<
        Value,
        DeError<<R as Read>::Error>,
    >)
        requires
            old(self).remaining().len() >= 1,
            Tag::spec_from_byte(old(self).remaining()[0]) matches Some(t) && (t == Tag::SizedSeq
                || t == Tag::Tuple || t == Tag::TupleStruct || t == Tag::SizedMap
                || t == Tag::Struct),
        ensures
            match dec_any(old(self).remaining()) {
                Some((m, n)) => r matches Ok(v) && v@ == m && final(self).remaining() == old(
                    self,
                ).remaining().skip(n as int),
                None => r is Err,
            },
        decreases self.remaining().len(), 1nat,
    {
        let ghost s = self.remaining();
        let t = match self.pop_tag() {
            Ok(t) => t,
            Err(e) => {
                return Err(e);
            },
        };
        let len = match self.pop_len() {
            Ok(len) => len,
            Err(e) => {
                return Err(e);
            },
        };
        let ghost used = (s.len() - 1 - self.remaining().len()) as nat;
        proof {
            crate::value::lemma_dec_uint_bounds(s.skip(1), 8);
            assert(s.skip(1).skip(used as int) =~= s.skip(1 + used as int));
        }
        match t {
            Tag::SizedSeq | Tag::Tuple | Tag::TupleStruct => {
                let es = match self.decode_list_elems(len) {
                    Ok(es) => es,
                    Err(e) => {
                        return Err(e);
                    },
                };
                proof {
                    crate::value::lemma_dec_list_sized_bounds(s.skip(1 + used as int), len as nat);
                }
                Ok(Value::SizedSeq(es))
            },
            _ => {
                let ps = match self.decode_pairs_elems(len) {
                    Ok(ps) => ps,
                    Err(e) => {
                        return Err(e);
                    },
                };
                proof {
                    crate::value::lemma_dec_pairs_sized_bounds(s.skip(1 + used as int), len as nat);
                }
                Ok(Value::SizedMap(ps))
            },
        }
    }

    /// Schema-free decode of the streaming collections, which run to the
    /// end-marker tag.
    fn decode_any_unsized_collection(&mut self) -> (r: Result<
        Value,
        DeError<<R as Read>::Error>,
    >)
        requires
            old(self).remaining().len() >= 1,
            Tag::spec_from_byte(old(self).remaining()[0]) matches Some(t) && (t == Tag::UnsizedSeq
                || t == Tag::UnsizedMap),
        ensures
            match dec_any(old(self).remaining()) {
                Some((m, n)) => r matches Ok(v) && v@ == m && final(self).remaining() == old(
                    self,
                ).remaining().skip(n as int),
                None => r is Err,
            },
        decreases self.remaining().len(), 1nat,
    {
        let ghost s = self.remaining();
        let t = match self.pop_tag() {
            Ok(t) => t,
            Err(e) => {
                return Err(e);
            },
        };
        match t {
            Tag::UnsizedSeq => {
                let es = match self.decode_list_unsized_elems() {
                    Ok(es) => es,
                    Err(e) => {
                        return Err(e);
                    },
                };
                proof {
                    crate::value::lemma_dec_list_unsized_bounds(s.skip(1));
                }
                Ok(Value::UnsizedSeq(es))
            },
            _ => {
                let ps = match self.decode_pairs_unsized_elems() {
                    Ok(ps) => ps,
                    Err(e) => {
                        return Err(e);
                    },
                };
                proof {
                    crate::value::lemma_dec_pairs_unsized_bounds(s.skip(1));
                }
                Ok(Value::UnsizedMap(ps))
            },
        }
    }

    /// Reads exactly `n` values in a row.
    fn decode_list_elems(&mut self, n: usize) -> (r: Result<
        Vec<Value>,
        DeError<<R as Read>::Error>,
    >)
        ensures
            match crate::value::dec_list_sized(old(self).remaining(), n as nat) {
                Some((vs, m)) => r matches Ok(es) && Value::view_list(es@) == vs && final(self).remaining() == old(self).remaining().skip(m as int),
                None => r is Err,
            },
        decreases self.remaining().len(), 3nat,
    {
        let ghost s0 = self.remaining();
        let mut out: Vec<Value> = Vec::new();
        let ghost mut used: nat = 0nat;
        let mut i: usize = 0;
        proof {
            assert(s0.skip(0) =~= s0);
            assert(Value::view_list(out@) =~= Seq::<ValueM>::empty());
        }
        while i < n
            invariant
                s0 == old(self).remaining(),
                i <= n,
                used <= s0.len(),
                self.remaining() == s0.skip(used as int),
                out@.len() == i,
                crate::value::dec_list_sized(s0, n as nat) == (match crate::value::dec_list_sized(
                    self.remaining(),
                    (n - i) as nat,
                ) {
                    Some((vs, m)) => Some::<(Seq<ValueM>, nat)>(
                        (Value::view_list(out@) + vs, (used + m) as nat),
                    ),
                    None => None::<(Seq<ValueM>, nat)>,
                }),
            decreases n - i,
        {
            let ghost cur = self.remaining();
            let ghost pref = Value::view_list(out@);
            let v = match self.decode_any() {
                Ok(v) => v,
                Err(e) => {
                    return Err(e);
                },
            };
            proof {
                crate::value::lemma_dec_any_bounds(cur);
                let (mv, k) = crate::value::dec_any(cur)->Some_0;
                crate::value::lemma_view_list_push(out@, v);
                assert(s0.skip(used as int).skip(k as int) =~= s0.skip((used + k) as int));
            }
            out.push(v);
            proof {
                let k = crate::value::dec_any(cur)->Some_0.1;
                used = (used + k) as nat;
                match crate::value::dec_list_sized(self.remaining(), (n - i - 1) as nat) {
                    Some((vs, m)) => {
                        assert(pref + (seq![v@] + vs) =~= (pref + seq![v@]) + vs);
                    },
                    None => {},
                }
            }
            i = i + 1;
        }
        proof {
            assert(Value::view_list(out@) + Seq::<ValueM>::empty() =~= Value::view_list(out@));
        }
        Ok(out)
    }

    /// Reads values until the end-marker tag, which it consumes.
    fn decode_list_unsized_elems(&mut self) -> (r: Result<
        Vec<Value>,
        DeError<<R as Read>::Error>,
    >)
        ensures
            match crate::value::dec_list_unsized(old(self).remaining()) {
                Some((vs, m)) => r matches Ok(es) && Value::view_list(es@) == vs && final(self).remaining() == old(self).remaining().skip(m as int),
                None => r is Err,
            },
        decreases self.remaining().len(), 3nat,
    {
        let ghost s0 = self.remaining();
        let mut out: Vec<Value> = Vec::new();
        let ghost mut used: nat = 0nat;
        proof {
            assert(s0.skip(0) =~= s0);
            assert(Value::view_list(out@) =~= Seq::<ValueM>::empty());
        }
        loop
            invariant_except_break
                self.remaining() == s0.skip(used as int),
                crate::value::dec_list_unsized(s0) == (
                match crate::value::dec_list_unsized(self.remaining()) {
                    Some((vs, m)) => Some::<(Seq<ValueM>, nat)>(
                        (Value::view_list(out@) + vs, (used + m) as nat),
                    ),
                    None => None::<(Seq<ValueM>, nat)>,
                }),
            invariant
                s0 == old(self).remaining(),
                used <= s0.len(),
            ensures
                crate::value::dec_list_unsized(s0) matches Some((vs, m)) && Value::view_list(out@)
                    == vs && self.remaining() == s0.skip(m as int),
            decreases self.remaining().len(),
        {
            let ghost cur = self.remaining();
            let t = match self.peek_tag() {
                Ok(t) => t,
                Err(e) => {
                    return Err(e);
                },
            };
            proof {
                crate::tag::lemma_tag_byte_round_trip(t);
            }
            if t == Tag::UnsizedSeqEnd {
                let _ = match self.pop_tag() {
                    Ok(p) => p,
                    Err(e) => {
                        return Err(e);
                    },
                };
                proof {
                    assert(s0.skip(used as int).skip(1) =~= s0.skip((used + 1) as int));
                    assert(Value::view_list(out@) + Seq::<ValueM>::empty() =~= Value::view_list(
                        out@,
                    ));
                }
                break ;
            }
            let ghost pref = Value::view_list(out@);
            let v = match self.decode_any() {
                Ok(v) => v,
                Err(e) => {
                    return Err(e);
                },
            };
            proof {
                crate::value::lemma_dec_any_bounds(cur);
                let k = crate::value::dec_any(cur)->Some_0.1;
                crate::value::lemma_view_list_push(out@, v);
                assert(s0.skip(used as int).skip(k as int) =~= s0.skip((used + k) as int));
            }
            out.push(v);
            proof {
                let k = crate::value::dec_any(cur)->Some_0.1;
                used = (used + k) as nat;
                match crate::value::dec_list_unsized(self.remaining()) {
                    Some((vs, m)) => {
                        assert(pref + (seq![v@] + vs) =~= (pref + seq![v@]) + vs);
                    },
                    None => {},
                }
            }
        }
        Ok(out)
    }

    /// Reads exactly `n` key/value entries in a row.
    fn decode_pairs_elems(&mut self, n: usize) -> (r: Result<
        Vec<(Value, Value)>,
        DeError<<R as Read>::Error>,
    >)
        ensures
            match crate::value::dec_pairs_sized(old(self).remaining(), n as nat) {
                Some((ps, m)) => r matches Ok(es) && Value::view_pairs(es@) == ps && final(self).remaining() == old(self).remaining().skip(m as int),
                None => r is Err,
            },
        decreases self.remaining().len(), 3nat,
    {
        let ghost s0 = self.remaining();
        let mut out: Vec<(Value, Value)> = Vec::new();
        let ghost mut used: nat = 0nat;
        let mut i: usize = 0;
        proof {
            assert(s0.skip(0) =~= s0);
            assert(Value::view_pairs(out@) =~= Seq::<(ValueM, ValueM)>::empty());
        }
        while i < n
            invariant
                s0 == old(self).remaining(),
                i <= n,
                used <= s0.len(),
                self.remaining() == s0.skip(used as int),
                out@.len() == i,
                crate::value::dec_pairs_sized(s0, n as nat) == (
                match crate::value::dec_pairs_sized(self.remaining(), (n - i) as nat) {
                    Some((ps, m)) => Some::<(Seq<(ValueM, ValueM)>, nat)>(
                        (Value::view_pairs(out@) + ps, (used + m) as nat),
                    ),
                    None => None::<(Seq<(ValueM, ValueM)>, nat)>,
                }),
            decreases n - i,
        {
            let ghost cur = self.remaining();
            let kv = match self.decode_any() {
                Ok(v) => v,
                Err(e) => {
                    return Err(e);
                },
            };
            proof {
                crate::value::lemma_dec_any_bounds(cur);
            }
            let ghost cur2 = self.remaining();
            let vv = match self.decode_any() {
                Ok(v) => v,
                Err(e) => {
                    return Err(e);
                },
            };
            proof {
                crate::value::lemma_dec_any_bounds(cur2);
                let ku = crate::value::dec_any(cur)->Some_0.1;
                let vu = crate::value::dec_any(cur2)->Some_0.1;
                assert(1 <= ku <= cur.len());
                assert(1 <= vu <= cur2.len());
                assert(ku + vu <= cur.len());
                crate::value::lemma_view_pairs_push(out@, kv, vv);
                assert(s0.skip(used as int).skip(ku as int) =~= s0.skip((used + ku) as int));
                assert(s0.skip((used + ku) as int).skip(vu as int) =~= s0.skip(
                    (used + ku + vu) as int,
                ));
            }
            let ghost pref = Value::view_pairs(out@);
            out.push((kv, vv));
            proof {
                let ku = crate::value::dec_any(cur)->Some_0.1;
                let vu = crate::value::dec_any(cur2)->Some_0.1;
                used = (used + ku + vu) as nat;
                assert(cur2 == cur.skip(ku as int));
                assert(cur.skip(ku as int).skip(vu as int) =~= cur.skip((ku + vu) as int));
                assert(self.remaining() == cur.skip((ku + vu) as int));
                assert(crate::value::dec_pairs_sized(cur, (n - i) as nat) == (
                match crate::value::dec_pairs_sized(self.remaining(), (n - i - 1) as nat) {
                    Some((ps, m)) => Some::<(Seq<(ValueM, ValueM)>, nat)>(
                        (seq![(kv@, vv@)] + ps, (ku + vu + m) as nat),
                    ),
                    None => None::<(Seq<(ValueM, ValueM)>, nat)>,
                }));
                match crate::value::dec_pairs_sized(self.remaining(), (n - i - 1) as nat) {
                    Some((ps, m)) => {
                        assert(pref + (seq![(kv@, vv@)] + ps) =~= (pref + seq![(kv@, vv@)]) + ps);
                    },
                    None => {},
                }
            }
            i = i + 1;
        }
        proof {
            assert(Value::view_pairs(out@) + Seq::<(ValueM, ValueM)>::empty() =~= Value::view_pairs(
                out@,
            ));
        }
        Ok(out)
    }

    /// Reads key/value entries until the end-marker tag, which it
    /// consumes.
    fn decode_pairs_unsized_elems(&mut self) -> (r: Result<
        Vec<(Value, Value)>,
        DeError<<R as Read>::Error>,
    >)
        ensures
            match crate::value::dec_pairs_unsized(old(self).remaining()) {
                Some((ps, m)) => r matches Ok(es) && Value::view_pairs(es@) == ps && final(self).remaining() == old(self).remaining().skip(m as int),
                None => r is Err,
            },
        decreases self.remaining().len(), 3nat,
    {
        let ghost s0 = self.remaining();
        let mut out: Vec<(Value, Value)> = Vec::new();
        let ghost mut used: nat = 0nat;
        proof {
            assert(s0.skip(0) =~= s0);
            assert(Value::view_pairs(out@) =~= Seq::<(ValueM, ValueM)>::empty());
        }
        loop
            invariant_except_break
                self.remaining() == s0.skip(used as int),
                crate::value::dec_pairs_unsized(s0) == (
                match crate::value::dec_pairs_unsized(self.remaining()) {
                    Some((ps, m)) => Some::<(Seq<(ValueM, ValueM)>, nat)>(
                        (Value::view_pairs(out@) + ps, (used + m) as nat),
                    ),
                    None => None::<(Seq<(ValueM, ValueM)>, nat)>,
                }),
            invariant
                s0 == old(self).remaining(),
                used <= s0.len(),
            ensures
                crate::value::dec_pairs_unsized(s0) matches Some((ps, m)) && Value::view_pairs(
                    out@,
                ) == ps && self.remaining() == s0.skip(m as int),
            decreases self.remaining().len(),
        {
            let ghost cur = self.remaining();
            let t = match self.peek_tag() {
                Ok(t) => t,
                Err(e) => {
                    return Err(e);
                },
            };
            proof {
                crate::tag::lemma_tag_byte_round_trip(t);
            }
            if t == Tag::UnsizedSeqEnd {
                let _ = match self.pop_tag() {
                    Ok(p) => p,
                    Err(e) => {
                        return Err(e);
                    },
                };
                proof {
                    assert(s0.skip(used as int).skip(1) =~= s0.skip((used + 1) as int));
                    assert(Value::view_pairs(out@) + Seq::<(ValueM, ValueM)>::empty()
                        =~= Value::view_pairs(out@));
                }
                break ;
            }
            let kv = match self.decode_any() {
                Ok(v) => v,
                Err(e) => {
                    return Err(e);
                },
            };
            proof {
                crate::value::lemma_dec_any_bounds(cur);
            }
            let ghost cur2 = self.remaining();
            let vv = match self.decode_any() {
                Ok(v) => v,
                Err(e) => {
                    return Err(e);
                },
            };
            proof {
                crate::value::lemma_dec_any_bounds(cur2);
                let ku = crate::value::dec_any(cur)->Some_0.1;
                let vu = crate::value::dec_any(cur2)->Some_0.1;
                assert(1 <= ku <= cur.len());
                assert(1 <= vu <= cur2.len());
                assert(ku + vu <= cur.len());
                crate::value::lemma_view_pairs_push(out@, kv, vv);
                assert(s0.skip(used as int).skip(ku as int) =~= s0.skip((used + ku) as int));
                assert(s0.skip((used + ku) as int).skip(vu as int) =~= s0.skip(
                    (used + ku + vu) as int,
                ));
            }
            let ghost pref = Value::view_pairs(out@);
            out.push((kv, vv));
            proof {
                let ku = crate::value::dec_any(cur)->Some_0.1;
                let vu = crate::value::dec_any(cur2)->Some_0.1;
                used = (used + ku + vu) as nat;
                assert(cur2 == cur.skip(ku as int));
                assert(cur.skip(ku as int).skip(vu as int) =~= cur.skip((ku + vu) as int));
                assert(self.remaining() == cur.skip((ku + vu) as int));
                assert(cur[0] != Tag::UnsizedSeqEnd.spec_byte());
                assert(crate::value::dec_pairs_unsized(cur) == (
                match crate::value::dec_pairs_unsized(self.remaining()) {
                    Some((ps, m)) => Some::<(Seq<(ValueM, ValueM)>, nat)>(
                        (seq![(kv@, vv@)] + ps, (ku + vu + m) as nat),
                    ),
                    None => None::<(Seq<(ValueM, ValueM)>, nat)>,
                }));
                match crate::value::dec_pairs_unsized(self.remaining()) {
                    Some((ps, m)) => {
                        assert(pref + (seq![(kv@, vv@)] + ps) =~= (pref + seq![(kv@, vv@)]) + ps);
                    },
                    None => {},
                }
            }
        }
        Ok(out)
    }
}

/// Decodes one self-described value from the front of a byte slice,
/// exactly as the wire model [`dec_any`] describes.
pub fn from_bytes(bytes: &[u8]) -> (r: Result<
    Value,
    DeError<crate::error::EndOfBuff>,
>)
    ensures
        match dec_any(bytes@) {
            Some((m, n)) => r matches Ok(v) && v@ == m,
            None => r is Err,
        },
{
    let reader = crate::read::BuffReader::new(bytes);
    let mut de = Deserializer::new(reader);
    de.decode_any()
}

/// Decodes one self-described value from an arbitrary source, always
/// copying.
pub fn from_reader<R: Read>(reader: R) -> (r: Result<Value, DeError<<R as Read>::Error>>)
    ensures
        match dec_any(reader.remaining()) {
            Some((m, n)) => r matches Ok(v) && v@ == m,
            None => r is Err,
        },
{
    let mut de = Deserializer::new(reader);
    de.decode_any()
}

} // verus!
