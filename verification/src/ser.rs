//! The serializer engine: walks an abstract value tree and emits tagged
//! bytes into any [`Write`] sink.

use vstd::prelude::*;

use crate::error::{EndOfBuff, NoRWError, SerError};
use crate::tag::{Tag, STR_END_MARKER_0, STR_END_MARKER_1};
use crate::value::{enc_text, enc_value, Value, ValueM};
use crate::wire::{
    be_bytes, compact_swidth, compact_width, enc_len, enc_sint, enc_sint_at, enc_uint,
    enc_uint_at, enc_variant_index, pow256, sint_tag, to_unsigned, uint_tag,
};
use crate::write::{BuffWriter, DummyWriter, VecWriter, Write};
use vstd::utf8::encode_utf8;

verus! {

broadcast use {
    vstd::std_specs::vec::axiom_vec_index_decreases,
    vstd::std_specs::vec::axiom_vec_decreases_to_view,
    vstd::seq::axiom_seq_index_decreases,
    vstd::seq::axiom_seq_subrange_decreases,
};

/// A serializer: a sink together with the numeric compaction mode chosen
/// at construction.
pub struct Serializer<W> {
    writer: W,
    compact: bool,
}

impl<W: Write> Serializer<W> {
    /// The bytes emitted into the sink so far.
    pub closed spec fn sink(&self) -> Seq<u8> {
        self.writer.sink()
    }

    /// True when the sink will take `n` more bytes.
    pub closed spec fn accepts(&self, n: nat) -> bool {
        self.writer.accepts(n)
    }

    /// True when numeric compaction is switched on.
    pub closed spec fn compact_mode(&self) -> bool {
        self.compact
    }

    /// A sink with room for `n` bytes has room for any smaller amount.
    pub proof fn accepts_mono(&self, m: nat, n: nat)
        requires
            m <= n,
            self.accepts(n),
        ensures
            self.accepts(m),
    {
        self.writer.accepts_mono(m, n);
    }
}

/// What every emitting operation promises: on success it appended exactly
/// `bytes` to the sink and returned their count, a sink with room for
/// `bytes` makes it succeed, room left over is kept, the compaction mode
/// never changes, and every failure carries the sink's own error.
pub open spec fn emits<W: Write>(
    pre: Serializer<W>,
    post: Serializer<W>,
    r: Result<usize, SerError<<W as Write>::Error>>,
    bytes: Seq<u8>,
) -> bool {
    &&& match r {
        Ok(n) => {
            &&& n == bytes.len()
            &&& post.sink() == pre.sink() + bytes
            &&& post.sink().len() <= usize::MAX
            &&& forall|k: nat| pre.accepts(bytes.len() + k) ==> post.accepts(k)
        },
        Err(e) => e is WriteError,
    }
    &&& post.compact_mode() == pre.compact_mode()
    &&& (pre.accepts(bytes.len()) ==> r is Ok)
}

/// Builds the big-endian byte string of `v` at exactly `n` bytes.
fn be_bytes_out(v: u128, n: usize) -> (r: Vec<u8>)
    requires
        n <= 16,
        (v as nat) < pow256(n as nat),
    ensures
        r@ == be_bytes(v as nat, n as nat),
        r@.len() == n,
{
    proof {
        crate::wire::lemma_be_bytes_len(v as nat, n as nat);
        assert(be_bytes(v as nat, n as nat) =~= be_bytes(v as nat, n as nat) + Seq::empty());
    }
    let mut out: Vec<u8> = Vec::new();
    let mut x = v;
    let mut i: usize = 0;
    while i < n
        invariant
            i <= n,
            n <= 16,
            out@.len() == i,
            be_bytes(v as nat, n as nat) == be_bytes(x as nat, (n - i) as nat) + out@,
        decreases n - i,
    {
        let b: u8 = (x % 256) as u8;
        out.insert(0, b);
        x = x / 256;
        i = i + 1;
        proof {
            assert(be_bytes((x * 256 + b) as nat, (n - i + 1) as nat) == be_bytes(
                x as nat,
                (n - i) as nat,
            ) + seq![b]);
            assert(be_bytes(x as nat, (n - i) as nat) + (seq![b] + out@.skip(1)) =~= (be_bytes(
                x as nat,
                (n - i) as nat,
            ) + seq![b]) + out@.skip(1));
            assert(out@ =~= seq![b] + out@.skip(1));
        }
    }
    proof {
        assert(be_bytes(v as nat, n as nat) =~= out@);
    }
    out
}

impl<W: Write> Serializer<W> {
    /// Wraps a sink; compaction is off, numbers keep their declared width.
    pub fn new(writer: W) -> (r: Serializer<W>)
        ensures
            r.sink() == writer.sink(),
            r.accepts_eq(writer),
            !r.compact_mode(),
    {
        Serializer { writer, compact: false }
    }

    /// Wraps a sink with numeric compaction switched on: integers are
    /// written at the narrowest width that holds their value.
    pub fn new_compact(writer: W) -> (r: Serializer<W>)
        ensures
            r.sink() == writer.sink(),
            r.accepts_eq(writer),
            r.compact_mode(),
    {
        Serializer { writer, compact: true }
    }

    /// True when this serializer's sink has exactly the acceptance of the
    /// given writer.
    pub closed spec fn accepts_eq(&self, w: W) -> bool {
        forall|n: nat| self.accepts(n) <==> w.accepts(n)
    }

    /// Hands the sink back.
    pub fn into_writer(self) -> (r: W)
        ensures
            r.sink() == self.sink(),
    {
        self.writer
    }

    /// Writes one raw byte.
    fn write_byte(&mut self, byte: u8) -> (r: Result<usize, SerError<W::Error>>)
        ensures
            emits(*old(self), *final(self), r, seq![byte]),
    {
        match self.writer.write_byte(byte) {
            Ok(n) => Ok(n),
            Err(e) => Err(SerError::WriteError(e)),
        }
    }

    /// Writes raw bytes.
    fn write_bytes(&mut self, bytes: &[u8]) -> (r: Result<usize, SerError<W::Error>>)
        ensures
            emits(*old(self), *final(self), r, bytes@),
    {
        match self.writer.write_bytes(bytes) {
            Ok(n) => Ok(n),
            Err(e) => Err(SerError::WriteError(e)),
        }
    }

    /// Writes one tag byte.
    fn write_tag(&mut self, tag: Tag) -> (r: Result<usize, SerError<W::Error>>)
        ensures
            emits(*old(self), *final(self), r, seq![tag.spec_byte()]),
    {
        self.write_byte(tag.to_byte())
    }

    /// Writes a tag byte followed by raw payload bytes.
    fn write_tag_then_bytes(&mut self, tag: Tag, bytes: &[u8]) -> (r: Result<
        usize,
        SerError<W::Error>,
    >)
        ensures
            emits(*old(self), *final(self), r, seq![tag.spec_byte()] + bytes@),
    {
        let ghost whole = seq![tag.spec_byte()] + bytes@;
        proof {
            if old(self).accepts(whole.len()) {
                old(self).accepts_mono(1, whole.len());
            }
        }
        let mut wb = match self.write_tag(tag) {
            Ok(n) => n,
            Err(e) => {
                return Err(e);
            },
        };
        proof {
            assert(old(self).accepts(whole.len()) ==> self.accepts(bytes@.len()));
        }
        let n2 = match self.write_bytes(bytes) {
            Ok(n) => n,
            Err(e) => {
                return Err(e);
            },
        };
        proof {
            assert(self.sink() =~= old(self).sink() + whole);
        }
        wb = wb + n2;
        Ok(wb)
    }

    /// Writes an unsigned integer of declared payload width `n`, compacted
    /// when `c` asks for it.
    #[verifier::rlimit(60)]
    #[verifier::spinoff_prover]
    fn write_uint_c(&mut self, v: u128, n: usize, c: bool) -> (r: Result<
        usize,
        SerError<W::Error>,
    >)
        requires
            n == 1 || n == 2 || n == 4 || n == 8 || n == 16,
            (v as nat) < pow256(n as nat),
        ensures
            emits(*old(self), *final(self), r, enc_uint(v as nat, n as nat, c)),
    {
        let w: usize = if !c {
            n
        } else if v <= 0xff && n > 1 {
            1
        } else if v <= 0xffff && n > 2 {
            2
        } else if v <= 0xffff_ffff && n > 4 {
            4
        } else if v <= 0xffff_ffff_ffff_ffff && n > 8 {
            8
        } else {
            n
        };
        proof {
            reveal_with_fuel(pow256, 17);
            if c {
                if compact_width(v as nat) < n {
                    assert(w == compact_width(v as nat));
                    assert(enc_uint(v as nat, n as nat, c) == enc_uint_at(v as nat, w as nat));
                } else {
                    assert(w == n);
                    assert(enc_uint(v as nat, n as nat, c) == enc_uint_at(v as nat, w as nat));
                }
            } else {
                assert(enc_uint(v as nat, n as nat, c) == enc_uint_at(v as nat, n as nat));
            }
        }
        let tag = if w == 1 {
            Tag::U8
        } else if w == 2 {
            Tag::U16
        } else if w == 4 {
            Tag::U32
        } else if w == 8 {
            Tag::U64
        } else {
            Tag::U128
        };
        proof {
            assert(tag == uint_tag(w as nat));
        }
        let payload = be_bytes_out(v, w);
        self.write_tag_then_bytes(tag, payload.as_slice())
    }

    /// Writes a signed integer of declared payload width `n` as its
    /// two's complement, compacted when `c` asks for it.
    #[verifier::rlimit(60)]
    #[verifier::spinoff_prover]
    fn write_sint_c(&mut self, v: i128, n: usize, c: bool) -> (r: Result<
        usize,
        SerError<W::Error>,
    >)
        requires
            n == 1 || n == 2 || n == 4 || n == 8 || n == 16,
            -pow256(n as nat) <= 2 * v < pow256(n as nat),
        ensures
            emits(
                *old(self),
                *final(self),
                r,
                if c {
                    enc_sint(v as int, n as nat, true)
                } else {
                    enc_sint_at(v as int, n as nat)
                },
            ),
    {
        let w: usize = if !c {
            n
        } else if -0x80 <= v && v <= 0x7f && n > 1 {
            1
        } else if -0x8000 <= v && v <= 0x7fff && n > 2 {
            2
        } else if -0x8000_0000 <= v && v <= 0x7fff_ffff && n > 4 {
            4
        } else if -0x8000_0000_0000_0000 <= v && v <= 0x7fff_ffff_ffff_ffff && n > 8 {
            8
        } else {
            n
        };
        proof {
            reveal_with_fuel(pow256, 17);
            if c {
                if compact_swidth(v as int) < n {
                    assert(w == compact_swidth(v as int));
                    assert(enc_sint(v as int, n as nat, true) == enc_sint_at(v as int, w as nat));
                } else {
                    assert(w == n);
                    assert(enc_sint(v as int, n as nat, true) == enc_sint_at(v as int, w as nat));
                }
            }
        }
        let tag = if w == 1 {
            Tag::I8
        } else if w == 2 {
            Tag::I16
        } else if w == 4 {
            Tag::I32
        } else if w == 8 {
            Tag::I64
        } else {
            Tag::I128
        };
        proof {
            assert(tag == sint_tag(w as nat));
        }
        let raw: u128 = if v >= 0 {
            v as u128
        } else if w == 16 {
            u128::MAX - ((-(v + 1)) as u128)
        } else {
            let pow: i128 = if w == 1 {
                0x100
            } else if w == 2 {
                0x1_0000
            } else if w == 4 {
                0x1_0000_0000
            } else {
                0x1_0000_0000_0000_0000
            };
            (v + pow) as u128
        };
        proof {
            reveal_with_fuel(pow256, 17);
            assert(raw as nat == to_unsigned(v as int, w as nat));
            crate::wire::lemma_signed_round_trip(v as int, w as nat);
        }
        let payload = be_bytes_out(raw, w);
        self.write_tag_then_bytes(tag, payload.as_slice())
    }

    /// Writes a wire length: the compacted unsigned encoding, whatever the
    /// mode.
    fn write_len(&mut self, v: u64) -> (r: Result<usize, SerError<W::Error>>)
        ensures
            emits(*old(self), *final(self), r, enc_len(v as nat)),
    {
        proof {
            assert(pow256(8) == 0x1_0000_0000_0000_0000) by {
                reveal_with_fuel(pow256, 9);
            }
        }
        self.write_uint_c(v as u128, 8, true)
    }

    /// Writes a variant index: the compacted unsigned encoding, whatever
    /// the mode.
    fn write_variant(&mut self, idx: u32) -> (r: Result<usize, SerError<W::Error>>)
        ensures
            emits(*old(self), *final(self), r, enc_variant_index(idx as nat)),
    {
        proof {
            assert(pow256(4) == 0x1_0000_0000) by {
                reveal_with_fuel(pow256, 5);
            }
        }
        self.write_uint_c(idx as u128, 4, true)
    }

    /// Writes a tag followed by a compacted length: the opener of a
    /// length-prefixed composite.
    fn write_tag_then_len(&mut self, tag: Tag, len: usize) -> (r: Result<
        usize,
        SerError<W::Error>,
    >)
        ensures
            emits(
                *old(self),
                *final(self),
                r,
                seq![tag.spec_byte()] + enc_len(len as nat),
            ),
    {
        let ghost whole = seq![tag.spec_byte()] + enc_len(len as nat);
        proof {
            if old(self).accepts(whole.len()) {
                old(self).accepts_mono(1, whole.len());
            }
        }
        let mut wb = match self.write_tag(tag) {
            Ok(n) => n,
            Err(e) => {
                return Err(e);
            },
        };
        proof {
            assert(old(self).accepts(whole.len()) ==> self.accepts(enc_len(len as nat).len()));
        }
        let n2 = match self.write_len(len as u64) {
            Ok(n) => n,
            Err(e) => {
                return Err(e);
            },
        };
        proof {
            assert(self.sink() =~= old(self).sink() + whole);
        }
        wb = wb + n2;
        Ok(wb)
    }

    /// Writes a tag, a compacted length, and the payload bytes: the whole
    /// of a length-prefixed string or byte string.
    fn write_tag_then_seq(&mut self, tag: Tag, bytes: &[u8]) -> (r: Result<
        usize,
        SerError<W::Error>,
    >)
        ensures
            emits(
                *old(self),
                *final(self),
                r,
                seq![tag.spec_byte()] + enc_len(bytes@.len()) + bytes@,
            ),
    {
        let ghost whole = seq![tag.spec_byte()] + enc_len(bytes@.len()) + bytes@;
        let ghost head_part = seq![tag.spec_byte()] + enc_len(bytes@.len());
        proof {
            if old(self).accepts(whole.len()) {
                old(self).accepts_mono(head_part.len(), whole.len());
            }
        }
        let mut wb = match self.write_tag_then_len(tag, bytes.len()) {
            Ok(n) => n,
            Err(e) => {
                return Err(e);
            },
        };
        proof {
            assert(old(self).accepts(whole.len()) ==> self.accepts(bytes@.len()));
        }
        let n2 = match self.write_bytes(bytes) {
            Ok(n) => n,
            Err(e) => {
                return Err(e);
            },
        };
        proof {
            assert(self.sink() =~= old(self).sink() + whole);
        }
        wb = wb + n2;
        Ok(wb)
    }

    /// Writes a tag followed by a compacted variant index: the opener of
    /// every enum case.
    fn write_tag_then_variant(&mut self, tag: Tag, variant_index: u32) -> (r: Result<
        usize,
        SerError<W::Error>,
    >)
        ensures
            emits(
                *old(self),
                *final(self),
                r,
                seq![tag.spec_byte()] + enc_variant_index(variant_index as nat),
            ),
    {
        let ghost whole = seq![tag.spec_byte()] + enc_variant_index(variant_index as nat);
        proof {
            if old(self).accepts(whole.len()) {
                old(self).accepts_mono(1, whole.len());
            }
        }
        let mut wb = match self.write_tag(tag) {
            Ok(n) => n,
            Err(e) => {
                return Err(e);
            },
        };
        proof {
            assert(old(self).accepts(whole.len()) ==> self.accepts(
                enc_variant_index(variant_index as nat).len(),
            ));
        }
        let n2 = match self.write_variant(variant_index) {
            Ok(n) => n,
            Err(e) => {
                return Err(e);
            },
        };
        proof {
            assert(self.sink() =~= old(self).sink() + whole);
        }
        wb = wb + n2;
        Ok(wb)
    }
}

impl<W: Write> Serializer<W> {
    /// Writes a boolean as its tag alone.
    pub fn serialize_bool(&mut self, v: bool) -> (r: Result<usize, SerError<W::Error>>)
        ensures
            emits(*old(self), *final(self), r, enc_value(ValueM::Bool(v), old(self).compact_mode())),
    {
        if v {
            self.write_tag(Tag::BoolTrue)
        } else {
            self.write_tag(Tag::BoolFalse)
        }
    }

    /// Writes a signed 8-bit integer.
    pub fn serialize_i8(&mut self, v: i8) -> (r: Result<usize, SerError<W::Error>>)
        ensures
            emits(*old(self), *final(self), r, enc_value(ValueM::I8(v), old(self).compact_mode())),
    {
        proof {
            reveal_with_fuel(pow256, 17);
            assert(enc_value(ValueM::I8(v), self.compact_mode()) == enc_sint_at(v as int, 1));
        }
        let c = self.compact;
        self.write_sint_c(v as i128, 1, c)
    }

    /// Writes a signed 16-bit integer, compacted to 8 bits when the mode
    /// is on and the value fits.
    pub fn serialize_i16(&mut self, v: i16) -> (r: Result<usize, SerError<W::Error>>)
        ensures
            emits(*old(self), *final(self), r, enc_value(ValueM::I16(v), old(self).compact_mode())),
    {
        proof {
            reveal_with_fuel(pow256, 17);
        }
        let c = self.compact;
        self.write_sint_c(v as i128, 2, c)
    }

    /// Writes a signed 32-bit integer, compacted to the narrowest width
    /// that holds it when the mode is on.
    pub fn serialize_i32(&mut self, v: i32) -> (r: Result<usize, SerError<W::Error>>)
        ensures
            emits(*old(self), *final(self), r, enc_value(ValueM::I32(v), old(self).compact_mode())),
    {
        proof {
            reveal_with_fuel(pow256, 17);
        }
        let c = self.compact;
        self.write_sint_c(v as i128, 4, c)
    }

    /// Writes a signed 64-bit integer, compacted to the narrowest width
    /// that holds it when the mode is on.
    pub fn serialize_i64(&mut self, v: i64) -> (r: Result<usize, SerError<W::Error>>)
        ensures
            emits(*old(self), *final(self), r, enc_value(ValueM::I64(v), old(self).compact_mode())),
    {
        proof {
            reveal_with_fuel(pow256, 17);
        }
        let c = self.compact;
        self.write_sint_c(v as i128, 8, c)
    }

    /// Writes a signed 128-bit integer, compacted to the narrowest width
    /// that holds it when the mode is on.
    pub fn serialize_i128(&mut self, v: i128) -> (r: Result<usize, SerError<W::Error>>)
        ensures
            emits(
                *old(self),
                *final(self),
                r,
                enc_value(ValueM::I128(v), old(self).compact_mode()),
            ),
    {
        proof {
            reveal_with_fuel(pow256, 17);
        }
        let c = self.compact;
        self.write_sint_c(v, 16, c)
    }

    /// Writes an unsigned 8-bit integer.
    pub fn serialize_u8(&mut self, v: u8) -> (r: Result<usize, SerError<W::Error>>)
        ensures
            emits(*old(self), *final(self), r, enc_value(ValueM::U8(v), old(self).compact_mode())),
    {
        proof {
            reveal_with_fuel(pow256, 17);
            assert(enc_value(ValueM::U8(v), self.compact_mode()) == enc_uint(
                v as nat,
                1,
                self.compact_mode(),
            ));
        }
        let c = self.compact;
        self.write_uint_c(v as u128, 1, c)
    }

    /// Writes an unsigned 16-bit integer, compacted to 8 bits when the
    /// mode is on and the value fits.
    pub fn serialize_u16(&mut self, v: u16) -> (r: Result<usize, SerError<W::Error>>)
        ensures
            emits(*old(self), *final(self), r, enc_value(ValueM::U16(v), old(self).compact_mode())),
    {
        proof {
            reveal_with_fuel(pow256, 17);
        }
        let c = self.compact;
        self.write_uint_c(v as u128, 2, c)
    }

    /// Writes an unsigned 32-bit integer, compacted to the narrowest width
    /// that holds it when the mode is on.
    pub fn serialize_u32(&mut self, v: u32) -> (r: Result<usize, SerError<W::Error>>)
        ensures
            emits(*old(self), *final(self), r, enc_value(ValueM::U32(v), old(self).compact_mode())),
    {
        proof {
            reveal_with_fuel(pow256, 17);
        }
        let c = self.compact;
        self.write_uint_c(v as u128, 4, c)
    }

    /// Writes an unsigned 64-bit integer, compacted to the narrowest width
    /// that holds it when the mode is on.
    pub fn serialize_u64(&mut self, v: u64) -> (r: Result<usize, SerError<W::Error>>)
        ensures
            emits(*old(self), *final(self), r, enc_value(ValueM::U64(v), old(self).compact_mode())),
    {
        proof {
            reveal_with_fuel(pow256, 17);
        }
        let c = self.compact;
        self.write_uint_c(v as u128, 8, c)
    }

    /// Writes an unsigned 128-bit integer, compacted to the narrowest
    /// width that holds it when the mode is on.
    pub fn serialize_u128(&mut self, v: u128) -> (r: Result<usize, SerError<W::Error>>)
        ensures
            emits(
                *old(self),
                *final(self),
                r,
                enc_value(ValueM::U128(v), old(self).compact_mode()),
            ),
    {
        proof {
            reveal_with_fuel(pow256, 17);
        }
        let c = self.compact;
        self.write_uint_c(v, 16, c)
    }

    /// Writes a 32-bit float given as its bit pattern: the float tag, then
    /// the four bytes big-endian.  Floats are never compacted.
    pub fn serialize_f32_bits(&mut self, bits: u32) -> (r: Result<usize, SerError<W::Error>>)
        ensures
            emits(
                *old(self),
                *final(self),
                r,
                enc_value(ValueM::F32Bits(bits), old(self).compact_mode()),
            ),
    {
        proof {
            reveal_with_fuel(pow256, 17);
        }
        let payload = be_bytes_out(bits as u128, 4);
        self.write_tag_then_bytes(Tag::F32, payload.as_slice())
    }

    /// Writes a 64-bit float given as its bit pattern: the float tag, then
    /// the eight bytes big-endian.  Floats are never compacted.
    pub fn serialize_f64_bits(&mut self, bits: u64) -> (r: Result<usize, SerError<W::Error>>)
        ensures
            emits(
                *old(self),
                *final(self),
                r,
                enc_value(ValueM::F64Bits(bits), old(self).compact_mode()),
            ),
    {
        proof {
            reveal_with_fuel(pow256, 17);
        }
        let payload = be_bytes_out(bits as u128, 8);
        self.write_tag_then_bytes(Tag::F64, payload.as_slice())
    }

    /// Writes a single code point: a char tag recording the UTF-8 width,
    /// then the code point's UTF-8 bytes.
    pub fn serialize_char(&mut self, v: char) -> (r: Result<usize, SerError<W::Error>>)
        ensures
            emits(*old(self), *final(self), r, enc_value(ValueM::Char(v), old(self).compact_mode())),
    {
        let (tag, bytes) = Tag::encode_char(v);
        self.write_tag_then_bytes(tag, bytes.as_slice())
    }

    /// Writes length-prefixed text: the string tag, the compacted byte
    /// length, then the UTF-8 bytes.
    pub fn serialize_str(&mut self, v: &str) -> (r: Result<usize, SerError<W::Error>>)
        ensures
            emits(*old(self), *final(self), r, enc_text(v@)),
    {
        self.write_tag_then_seq(Tag::Str, v.as_bytes())
    }

    /// Writes marker-terminated text: the marker-string tag, the UTF-8
    /// bytes as they are, then the two-byte end marker.  A marker that
    /// occurs inside the text itself is not escaped; a decoder will stop
    /// at its first occurrence.
    pub fn serialize_unsized_str(&mut self, v: &str) -> (r: Result<usize, SerError<W::Error>>)
        ensures
            emits(
                *old(self),
                *final(self),
                r,
                seq![Tag::MarkerTerminatedStr.spec_byte()] + encode_utf8(v@) + seq![
                    STR_END_MARKER_0,
                    STR_END_MARKER_1,
                ],
            ),
    {
        let ghost whole = seq![Tag::MarkerTerminatedStr.spec_byte()] + encode_utf8(v@) + seq![
            STR_END_MARKER_0,
            STR_END_MARKER_1,
        ];
        let ghost head_part = seq![Tag::MarkerTerminatedStr.spec_byte()] + encode_utf8(v@);
        proof {
            if old(self).accepts(whole.len()) {
                old(self).accepts_mono(head_part.len(), whole.len());
            }
        }
        let mut wb = match self.write_tag_then_bytes(Tag::MarkerTerminatedStr, v.as_bytes()) {
            Ok(n) => n,
            Err(e) => {
                return Err(e);
            },
        };
        proof {
            assert(old(self).accepts(whole.len()) ==> self.accepts(2));
        }
        let marker: [u8; 2] = [STR_END_MARKER_0, STR_END_MARKER_1];
        let n2 = match self.write_bytes(marker.as_slice()) {
            Ok(n) => n,
            Err(e) => {
                return Err(e);
            },
        };
        proof {
            assert(marker@ =~= seq![STR_END_MARKER_0, STR_END_MARKER_1]);
            assert(self.sink() =~= old(self).sink() + whole);
        }
        wb = wb + n2;
        Ok(wb)
    }

    /// Writes a byte string: the bytes tag, the compacted length, then the
    /// raw bytes.
    pub fn serialize_bytes(&mut self, v: &[u8]) -> (r: Result<usize, SerError<W::Error>>)
        ensures
            emits(
                *old(self),
                *final(self),
                r,
                enc_value(ValueM::Bytes(v@), old(self).compact_mode()),
            ),
    {
        self.write_tag_then_seq(Tag::Bytes, v)
    }

    /// Writes an absent option as its tag alone.
    pub fn serialize_none(&mut self) -> (r: Result<usize, SerError<W::Error>>)
        ensures
            emits(*old(self), *final(self), r, enc_value(ValueM::Absent, old(self).compact_mode())),
    {
        self.write_tag(Tag::Absent)
    }

    /// Opens a present option: the tag alone; the caller serializes the
    /// held value next.
    pub fn serialize_some(&mut self) -> (r: Result<usize, SerError<W::Error>>)
        ensures
            emits(*old(self), *final(self), r, seq![Tag::Present.spec_byte()]),
    {
        self.write_tag(Tag::Present)
    }

    /// Writes the unit value as its tag alone.
    pub fn serialize_unit(&mut self) -> (r: Result<usize, SerError<W::Error>>)
        ensures
            emits(*old(self), *final(self), r, enc_value(ValueM::Unit, old(self).compact_mode())),
    {
        self.write_tag(Tag::Unit)
    }

    /// Writes a unit struct as its tag alone.
    pub fn serialize_unit_struct(&mut self) -> (r: Result<usize, SerError<W::Error>>)
        ensures
            emits(
                *old(self),
                *final(self),
                r,
                enc_value(ValueM::UnitStruct, old(self).compact_mode()),
            ),
    {
        self.write_tag(Tag::UnitStruct)
    }

    /// Writes a unit enum case: its tag, then the compacted variant index.
    pub fn serialize_unit_variant(&mut self, variant_index: u32) -> (r: Result<
        usize,
        SerError<W::Error>,
    >)
        ensures
            emits(
                *old(self),
                *final(self),
                r,
                enc_value(ValueM::UnitVariant(variant_index), old(self).compact_mode()),
            ),
    {
        self.write_tag_then_variant(Tag::UnitVariant, variant_index)
    }

    /// Opens a single-field wrapper: the tag alone; the caller serializes
    /// the wrapped value next.
    pub fn serialize_newtype_struct(&mut self) -> (r: Result<usize, SerError<W::Error>>)
        ensures
            emits(*old(self), *final(self), r, seq![Tag::NewTypeStruct.spec_byte()]),
    {
        self.write_tag(Tag::NewTypeStruct)
    }

    /// Opens a single-field enum case: the tag and the compacted variant
    /// index; the caller serializes the wrapped value next.
    pub fn serialize_newtype_variant(&mut self, variant_index: u32) -> (r: Result<
        usize,
        SerError<W::Error>,
    >)
        ensures
            emits(
                *old(self),
                *final(self),
                r,
                seq![Tag::NewTypeVariant.spec_byte()] + enc_variant_index(variant_index as nat),
            ),
    {
        self.write_tag_then_variant(Tag::NewTypeVariant, variant_index)
    }
}

/// The cursor of an open composite: it counts the bytes written since the
/// composite's opener and remembers whether the length was known up
/// front (in which case no end marker is owed).
pub struct SeqSerializer {
    written_bytes_count: usize,
    known_size: bool,
}

impl SeqSerializer {
    /// The bytes counted so far, the opener included.
    pub closed spec fn spec_written(&self) -> nat {
        self.written_bytes_count as nat
    }

    /// True when the composite was opened with a known length and no end
    /// marker is owed.
    pub closed spec fn spec_known(&self) -> bool {
        self.known_size
    }

    /// A cursor that has seen `written_bytes` bytes of a composite whose
    /// length was known up front exactly when `known_size` holds.
    pub fn new(written_bytes: usize, known_size: bool) -> (r: SeqSerializer)
        ensures
            r.spec_written() == written_bytes,
            r.spec_known() == known_size,
    {
        SeqSerializer { written_bytes_count: written_bytes, known_size }
    }

    /// Serializes one child value through the cursor, adding its bytes to
    /// the count.
    pub fn ser_value<W: Write>(
        &mut self,
        serializer: &mut Serializer<W>,
        value: &Value,
    ) -> (r: Result<(), SerError<<W as Write>::Error>>)
        requires
            old(self).spec_written() <= old(serializer).sink().len(),
        ensures
            final(self).spec_known() == old(self).spec_known(),
            match r {
                Ok(_) => {
                    &&& final(serializer).sink() == old(serializer).sink() + enc_value(
                        value@,
                        old(serializer).compact_mode(),
                    )
                    &&& final(serializer).sink().len() <= usize::MAX
                    &&& final(self).spec_written() == old(self).spec_written() + enc_value(
                        value@,
                        old(serializer).compact_mode(),
                    ).len()
                    &&& forall|k: nat|
                        old(serializer).accepts(
                            enc_value(value@, old(serializer).compact_mode()).len() + k,
                        ) ==> final(serializer).accepts(k)
                },
                Err(e) => e is WriteError,
            },
            final(serializer).compact_mode() == old(serializer).compact_mode(),
            old(serializer).accepts(enc_value(value@, old(serializer).compact_mode()).len())
                ==> r is Ok,
    {
        match serializer.encode_value(value) {
            Ok(n) => {
                self.written_bytes_count = self.written_bytes_count + n;
                Ok(())
            },
            Err(e) => Err(e),
        }
    }

    /// Closes the composite: writes the end-marker tag when the length was
    /// not known up front, and returns the total byte count.
    pub fn finish<W: Write>(self, serializer: &mut Serializer<W>) -> (r: Result<
        usize,
        SerError<<W as Write>::Error>,
    >)
        requires
            self.spec_written() <= old(serializer).sink().len(),
        ensures
            final(serializer).compact_mode() == old(serializer).compact_mode(),
            self.spec_known() ==> r == Ok::<usize, SerError<<W as Write>::Error>>(
                self.spec_written() as usize,
            ) && *final(serializer) == *old(serializer),
            !self.spec_known() ==> {
                &&& match r {
                    Ok(n) => {
                        &&& n == self.spec_written() + 1
                        &&& final(serializer).sink() == old(serializer).sink() + seq![
                            Tag::UnsizedSeqEnd.spec_byte(),
                        ]
                        &&& final(serializer).sink().len() <= usize::MAX
                        &&& forall|k: nat|
                            old(serializer).accepts(1 + k) ==> final(serializer).accepts(k)
                    },
                    Err(e) => e is WriteError,
                }
                &&& (old(serializer).accepts(1) ==> r is Ok)
            },
    {
        if self.known_size {
            Ok(self.written_bytes_count)
        } else {
            match serializer.write_tag(Tag::UnsizedSeqEnd) {
                Ok(n) => Ok(self.written_bytes_count + n),
                Err(e) => Err(e),
            }
        }
    }
}

impl<W: Write> Serializer<W> {
    /// Opens a sequence.  With a known length it writes the sized tag and
    /// the compacted length; without one it writes the unsized tag, and
    /// [`SeqSerializer::finish`] will owe the end marker.
    pub fn serialize_seq(&mut self, len: Option<usize>) -> (r: Result<
        SeqSerializer,
        SerError<<W as Write>::Error>,
    >)
        ensures
            opened(
                *old(self),
                *final(self),
                r,
                match len {
                    Some(n) => seq![Tag::SizedSeq.spec_byte()] + enc_len(n as nat),
                    None => seq![Tag::UnsizedSeq.spec_byte()],
                },
                len is Some,
            ),
    {
        match len {
            Some(n) => {
                let wb = match self.write_tag_then_len(Tag::SizedSeq, n) {
                    Ok(wb) => wb,
                    Err(e) => {
                        return Err(e);
                    },
                };
                Ok(SeqSerializer::new(wb, true))
            },
            None => {
                let wb = match self.write_tag(Tag::UnsizedSeq) {
                    Ok(wb) => wb,
                    Err(e) => {
                        return Err(e);
                    },
                };
                Ok(SeqSerializer::new(wb, false))
            },
        }
    }

    /// Opens a fixed tuple: the tuple tag and its compacted arity.
    pub fn serialize_tuple(&mut self, len: usize) -> (r: Result<
        SeqSerializer,
        SerError<<W as Write>::Error>,
    >)
        ensures
            opened(
                *old(self),
                *final(self),
                r,
                seq![Tag::Tuple.spec_byte()] + enc_len(len as nat),
                true,
            ),
    {
        let wb = match self.write_tag_then_len(Tag::Tuple, len) {
            Ok(wb) => wb,
            Err(e) => {
                return Err(e);
            },
        };
        Ok(SeqSerializer::new(wb, true))
    }

    /// Opens a named tuple: the tuple-struct tag and its compacted arity.
    pub fn serialize_tuple_struct(&mut self, len: usize) -> (r: Result<
        SeqSerializer,
        SerError<<W as Write>::Error>,
    >)
        ensures
            opened(
                *old(self),
                *final(self),
                r,
                seq![Tag::TupleStruct.spec_byte()] + enc_len(len as nat),
                true,
            ),
    {
        let wb = match self.write_tag_then_len(Tag::TupleStruct, len) {
            Ok(wb) => wb,
            Err(e) => {
                return Err(e);
            },
        };
        Ok(SeqSerializer::new(wb, true))
    }

    /// Opens a tuple enum case: the tag and the compacted variant index.
    /// The fields follow with no length prefix; their arity travels out of
    /// band.
    pub fn serialize_tuple_variant(&mut self, variant_index: u32) -> (r: Result<
        SeqSerializer,
        SerError<<W as Write>::Error>,
    >)
        ensures
            opened(
                *old(self),
                *final(self),
                r,
                seq![Tag::TupleVariant.spec_byte()] + enc_variant_index(variant_index as nat),
                true,
            ),
    {
        let wb = match self.write_tag_then_variant(Tag::TupleVariant, variant_index) {
            Ok(wb) => wb,
            Err(e) => {
                return Err(e);
            },
        };
        Ok(SeqSerializer::new(wb, true))
    }

    /// Opens a map.  With a known entry count it writes the sized tag and
    /// the compacted count; without one it writes the unsized tag, and
    /// [`SeqSerializer::finish`] will owe the end marker.
    pub fn serialize_map(&mut self, len: Option<usize>) -> (r: Result<
        SeqSerializer,
        SerError<<W as Write>::Error>,
    >)
        ensures
            opened(
                *old(self),
                *final(self),
                r,
                match len {
                    Some(n) => seq![Tag::SizedMap.spec_byte()] + enc_len(n as nat),
                    None => seq![Tag::UnsizedMap.spec_byte()],
                },
                len is Some,
            ),
    {
        match len {
            Some(n) => {
                let wb = match self.write_tag_then_len(Tag::SizedMap, n) {
                    Ok(wb) => wb,
                    Err(e) => {
                        return Err(e);
                    },
                };
                Ok(SeqSerializer::new(wb, true))
            },
            None => {
                let wb = match self.write_tag(Tag::UnsizedMap) {
                    Ok(wb) => wb,
                    Err(e) => {
                        return Err(e);
                    },
                };
                Ok(SeqSerializer::new(wb, false))
            },
        }
    }

    /// Opens a named aggregate: the struct tag and its compacted field
    /// count.
    pub fn serialize_struct(&mut self, len: usize) -> (r: Result<
        SeqSerializer,
        SerError<<W as Write>::Error>,
    >)
        ensures
            opened(
                *old(self),
                *final(self),
                r,
                seq![Tag::Struct.spec_byte()] + enc_len(len as nat),
                true,
            ),
    {
        let wb = match self.write_tag_then_len(Tag::Struct, len) {
            Ok(wb) => wb,
            Err(e) => {
                return Err(e);
            },
        };
        Ok(SeqSerializer::new(wb, true))
    }

    /// Opens a struct enum case: the tag and the compacted variant index.
    /// The fields follow with no count prefix; their arity travels out of
    /// band.
    pub fn serialize_struct_variant(&mut self, variant_index: u32) -> (r: Result<
        SeqSerializer,
        SerError<<W as Write>::Error>,
    >)
        ensures
            opened(
                *old(self),
                *final(self),
                r,
                seq![Tag::StructVariant.spec_byte()] + enc_variant_index(variant_index as nat),
                true,
            ),
    {
        let wb = match self.write_tag_then_variant(Tag::StructVariant, variant_index) {
            Ok(wb) => wb,
            Err(e) => {
                return Err(e);
            },
        };
        Ok(SeqSerializer::new(wb, true))
    }
}

/// What opening a composite promises: on success the opener bytes were
/// appended and the cursor counts exactly them.
pub open spec fn opened<W: Write>(
    pre: Serializer<W>,
    post: Serializer<W>,
    r: Result<SeqSerializer, SerError<<W as Write>::Error>>,
    header: Seq<u8>,
    known: bool,
) -> bool {
    &&& match r {
        Ok(cur) => {
            &&& post.sink() == pre.sink() + header
            &&& post.sink().len() <= usize::MAX
            &&& cur.spec_written() == header.len()
            &&& cur.spec_known() == known
            &&& forall|k: nat| pre.accepts(header.len() + k) ==> post.accepts(k)
        },
        Err(e) => e is WriteError,
    }
    &&& post.compact_mode() == pre.compact_mode()
    &&& (pre.accepts(header.len()) ==> r is Ok)
}

impl<W: Write> Serializer<W> {
    /// Serializes a whole value tree: its tag, then its payload, children
    /// included, exactly as [`enc_value`] describes.
    pub fn encode_value(&mut self, value: &Value) -> (r: Result<
        usize,
        SerError<<W as Write>::Error>,
    >)
        ensures
            emits(*old(self), *final(self), r, enc_value(value@, old(self).compact_mode())),
        decreases value, 3nat,
    {
        match value {
            Value::Absent => self.serialize_none(),
            Value::Present(b) => self.encode_wrapped(Tag::Present, &**b),
            Value::Bool(v) => self.serialize_bool(*v),
            Value::I8(v) => self.serialize_i8(*v),
            Value::I16(v) => self.serialize_i16(*v),
            Value::I32(v) => self.serialize_i32(*v),
            Value::I64(v) => self.serialize_i64(*v),
            Value::I128(v) => self.serialize_i128(*v),
            Value::U8(v) => self.serialize_u8(*v),
            Value::U16(v) => self.serialize_u16(*v),
            Value::U32(v) => self.serialize_u32(*v),
            Value::U64(v) => self.serialize_u64(*v),
            Value::U128(v) => self.serialize_u128(*v),
            Value::F32Bits(v) => self.serialize_f32_bits(*v),
            Value::F64Bits(v) => self.serialize_f64_bits(*v),
            Value::Char(v) => self.serialize_char(*v),
            Value::Text(t) => self.serialize_str(t.as_str()),
            Value::Bytes(bs) => self.serialize_bytes(bs.as_slice()),
            Value::Unit => self.serialize_unit(),
            Value::UnitStruct => self.serialize_unit_struct(),
            Value::NewTypeStruct(b) => self.encode_wrapped(Tag::NewTypeStruct, &**b),
            Value::SizedSeq(es) => {
                proof {
                    crate::value::lemma_view_list(es@);
                }
                self.encode_seq_like(Tag::SizedSeq, es)
            },
            Value::UnsizedSeq(es) => self.encode_unsized_seq(es),
            Value::Tuple(es) => {
                proof {
                    crate::value::lemma_view_list(es@);
                }
                self.encode_seq_like(Tag::Tuple, es)
            },
            Value::TupleStruct(es) => {
                proof {
                    crate::value::lemma_view_list(es@);
                }
                self.encode_seq_like(Tag::TupleStruct, es)
            },
            Value::SizedMap(ps) => {
                proof {
                    crate::value::lemma_view_pairs(ps@);
                }
                self.encode_sized_map(ps)
            },
            Value::UnsizedMap(ps) => self.encode_unsized_map(ps),
            Value::Struct(fs) => {
                proof {
                    crate::value::lemma_view_fields(fs@);
                }
                self.encode_struct(fs)
            },
            Value::UnitVariant(i) => self.serialize_unit_variant(*i),
            Value::NewTypeVariant(i, b) => self.encode_newtype_variant_value(*i, &**b),
            Value::TupleVariant(i, es) => self.encode_tuple_variant_value(*i, es),
            Value::StructVariant(i, fs) => {
                proof {
                    crate::value::lemma_fields_pairs_enc(fs@, self.compact_mode());
                }
                self.encode_struct_variant_value(*i, fs)
            },
        }
    }

    /// Writes a one-tag wrapper — a present option or a single-field
    /// wrapper — followed by the wrapped value.
    fn encode_wrapped(&mut self, tag: Tag, inner: &Value) -> (r: Result<
        usize,
        SerError<<W as Write>::Error>,
    >)
        requires
            tag == Tag::Present || tag == Tag::NewTypeStruct,
        ensures
            emits(
                *old(self),
                *final(self),
                r,
                seq![tag.spec_byte()] + enc_value(inner@, old(self).compact_mode()),
            ),
        decreases inner, 4nat,
    {
        let ghost c = self.compact_mode();
        let ghost whole = seq![tag.spec_byte()] + enc_value(inner@, c);
        proof {
            if old(self).accepts(whole.len()) {
                old(self).accepts_mono(1, whole.len());
            }
        }
        let mut wb = match self.write_tag(tag) {
            Ok(n) => n,
            Err(e) => {
                return Err(e);
            },
        };
        let n2 = match self.encode_value(inner) {
            Ok(n) => n,
            Err(e) => {
                return Err(e);
            },
        };
        proof {
            assert(self.sink() =~= old(self).sink() + whole);
        }
        wb = wb + n2;
        Ok(wb)
    }

    /// Writes an unsized sequence: its tag, its elements, then the end
    /// marker.
    fn encode_unsized_seq(&mut self, es: &Vec<Value>) -> (r: Result<
        usize,
        SerError<<W as Write>::Error>,
    >)
        ensures
            emits(
                *old(self),
                *final(self),
                r,
                seq![Tag::UnsizedSeq.spec_byte()] + crate::value::enc_list(
                    Value::view_list(es@),
                    old(self).compact_mode(),
                ) + seq![Tag::UnsizedSeqEnd.spec_byte()],
            ),
        decreases es, 2nat,
    {
        let ghost c = self.compact_mode();
        let ghost body = crate::value::enc_list(Value::view_list(es@), c);
        let ghost whole = seq![Tag::UnsizedSeq.spec_byte()] + body + seq![
            Tag::UnsizedSeqEnd.spec_byte(),
        ];
        proof {
            if old(self).accepts(whole.len()) {
                old(self).accepts_mono(1, whole.len());
            }
        }
        let mut wb = match self.write_tag(Tag::UnsizedSeq) {
            Ok(n) => n,
            Err(e) => {
                return Err(e);
            },
        };
        proof {
            if old(self).accepts(whole.len()) {
                assert(self.accepts((body.len() + 1) as nat));
                self.accepts_mono(body.len(), (body.len() + 1) as nat);
            }
        }
        let n2 = match self.encode_list(es) {
            Ok(n) => n,
            Err(e) => {
                return Err(e);
            },
        };
        proof {
            if old(self).accepts(whole.len()) {
                assert(self.accepts(1));
            }
        }
        let n3 = match self.write_tag(Tag::UnsizedSeqEnd) {
            Ok(n) => n,
            Err(e) => {
                return Err(e);
            },
        };
        proof {
            assert(self.sink() =~= old(self).sink() + whole);
        }
        wb = wb + n2;
        wb = wb + n3;
        Ok(wb)
    }

    /// Writes a sized map: its tag, the compacted entry count, then the
    /// entries.
    fn encode_sized_map(&mut self, ps: &Vec<(Value, Value)>) -> (r: Result<
        usize,
        SerError<<W as Write>::Error>,
    >)
        ensures
            emits(
                *old(self),
                *final(self),
                r,
                seq![Tag::SizedMap.spec_byte()] + enc_len(ps@.len()) + crate::value::enc_pairs(
                    Value::view_pairs(ps@),
                    old(self).compact_mode(),
                ),
            ),
        decreases ps, 2nat,
    {
        let ghost c = self.compact_mode();
        let ghost body = crate::value::enc_pairs(Value::view_pairs(ps@), c);
        let ghost header = seq![Tag::SizedMap.spec_byte()] + enc_len(ps@.len());
        let ghost whole = header + body;
        proof {
            if old(self).accepts(whole.len()) {
                old(self).accepts_mono(header.len(), whole.len());
            }
        }
        let mut wb = match self.write_tag_then_len(Tag::SizedMap, ps.len()) {
            Ok(n) => n,
            Err(e) => {
                return Err(e);
            },
        };
        let n2 = match self.encode_pairs(ps) {
            Ok(n) => n,
            Err(e) => {
                return Err(e);
            },
        };
        proof {
            assert(self.sink() =~= old(self).sink() + whole);
        }
        wb = wb + n2;
        Ok(wb)
    }

    /// Writes an unsized map: its tag, its entries, then the end marker.
    fn encode_unsized_map(&mut self, ps: &Vec<(Value, Value)>) -> (r: Result<
        usize,
        SerError<<W as Write>::Error>,
    >)
        ensures
            emits(
                *old(self),
                *final(self),
                r,
                seq![Tag::UnsizedMap.spec_byte()] + crate::value::enc_pairs(
                    Value::view_pairs(ps@),
                    old(self).compact_mode(),
                ) + seq![Tag::UnsizedSeqEnd.spec_byte()],
            ),
        decreases ps, 2nat,
    {
        let ghost c = self.compact_mode();
        let ghost body = crate::value::enc_pairs(Value::view_pairs(ps@), c);
        let ghost whole = seq![Tag::UnsizedMap.spec_byte()] + body + seq![
            Tag::UnsizedSeqEnd.spec_byte(),
        ];
        proof {
            if old(self).accepts(whole.len()) {
                old(self).accepts_mono(1, whole.len());
            }
        }
        let mut wb = match self.write_tag(Tag::UnsizedMap) {
            Ok(n) => n,
            Err(e) => {
                return Err(e);
            },
        };
        proof {
            if old(self).accepts(whole.len()) {
                assert(self.accepts((body.len() + 1) as nat));
                self.accepts_mono(body.len(), (body.len() + 1) as nat);
            }
        }
        let n2 = match self.encode_pairs(ps) {
            Ok(n) => n,
            Err(e) => {
                return Err(e);
            },
        };
        proof {
            if old(self).accepts(whole.len()) {
                assert(self.accepts(1));
            }
        }
        let n3 = match self.write_tag(Tag::UnsizedSeqEnd) {
            Ok(n) => n,
            Err(e) => {
                return Err(e);
            },
        };
        proof {
            assert(self.sink() =~= old(self).sink() + whole);
        }
        wb = wb + n2;
        wb = wb + n3;
        Ok(wb)
    }

    /// Writes a named aggregate: its tag, the compacted field count, then
    /// the named fields.
    fn encode_struct(&mut self, fs: &Vec<(String, Value)>) -> (r: Result<
        usize,
        SerError<<W as Write>::Error>,
    >)
        ensures
            emits(
                *old(self),
                *final(self),
                r,
                seq![Tag::Struct.spec_byte()] + enc_len(fs@.len()) + crate::value::enc_fields(
                    Value::view_fields(fs@),
                    old(self).compact_mode(),
                ),
            ),
        decreases fs, 2nat,
    {
        let ghost c = self.compact_mode();
        let ghost body = crate::value::enc_fields(Value::view_fields(fs@), c);
        let ghost header = seq![Tag::Struct.spec_byte()] + enc_len(fs@.len());
        let ghost whole = header + body;
        proof {
            if old(self).accepts(whole.len()) {
                old(self).accepts_mono(header.len(), whole.len());
            }
        }
        let mut wb = match self.write_tag_then_len(Tag::Struct, fs.len()) {
            Ok(n) => n,
            Err(e) => {
                return Err(e);
            },
        };
        let n2 = match self.encode_fields(fs) {
            Ok(n) => n,
            Err(e) => {
                return Err(e);
            },
        };
        proof {
            assert(self.sink() =~= old(self).sink() + whole);
        }
        wb = wb + n2;
        Ok(wb)
    }

    /// Writes a single-field enum case: its tag, the compacted variant
    /// index, then the wrapped value.
    fn encode_newtype_variant_value(&mut self, i: u32, inner: &Value) -> (r: Result<
        usize,
        SerError<<W as Write>::Error>,
    >)
        ensures
            emits(
                *old(self),
                *final(self),
                r,
                seq![Tag::NewTypeVariant.spec_byte()] + enc_variant_index(i as nat) + enc_value(
                    inner@,
                    old(self).compact_mode(),
                ),
            ),
        decreases inner, 4nat,
    {
        let ghost c = self.compact_mode();
        let ghost header = seq![Tag::NewTypeVariant.spec_byte()] + enc_variant_index(i as nat);
        let ghost whole = header + enc_value(inner@, c);
        proof {
            if old(self).accepts(whole.len()) {
                old(self).accepts_mono(header.len(), whole.len());
            }
        }
        let mut wb = match self.serialize_newtype_variant(i) {
            Ok(n) => n,
            Err(e) => {
                return Err(e);
            },
        };
        let n2 = match self.encode_value(inner) {
            Ok(n) => n,
            Err(e) => {
                return Err(e);
            },
        };
        proof {
            assert(self.sink() =~= old(self).sink() + whole);
        }
        wb = wb + n2;
        Ok(wb)
    }

    /// Writes a tuple enum case: its tag, the compacted variant index,
    /// then the fields with no length prefix.
    fn encode_tuple_variant_value(&mut self, i: u32, es: &Vec<Value>) -> (r: Result<
        usize,
        SerError<<W as Write>::Error>,
    >)
        ensures
            emits(
                *old(self),
                *final(self),
                r,
                seq![Tag::TupleVariant.spec_byte()] + enc_variant_index(i as nat)
                    + crate::value::enc_list(Value::view_list(es@), old(self).compact_mode()),
            ),
        decreases es, 2nat,
    {
        let ghost c = self.compact_mode();
        let ghost header = seq![Tag::TupleVariant.spec_byte()] + enc_variant_index(i as nat);
        let ghost body = crate::value::enc_list(Value::view_list(es@), c);
        let ghost whole = header + body;
        proof {
            if old(self).accepts(whole.len()) {
                old(self).accepts_mono(header.len(), whole.len());
            }
        }
        let mut wb = match self.write_tag_then_variant(Tag::TupleVariant, i) {
            Ok(n) => n,
            Err(e) => {
                return Err(e);
            },
        };
        let n2 = match self.encode_list(es) {
            Ok(n) => n,
            Err(e) => {
                return Err(e);
            },
        };
        proof {
            assert(self.sink() =~= old(self).sink() + whole);
        }
        wb = wb + n2;
        Ok(wb)
    }

    /// Writes a struct enum case: its tag, the compacted variant index,
    /// then the named fields with no count prefix.
    fn encode_struct_variant_value(&mut self, i: u32, fs: &Vec<(String, Value)>) -> (r: Result<
        usize,
        SerError<<W as Write>::Error>,
    >)
        ensures
            emits(
                *old(self),
                *final(self),
                r,
                seq![Tag::StructVariant.spec_byte()] + enc_variant_index(i as nat)
                    + crate::value::enc_fields(Value::view_fields(fs@), old(self).compact_mode()),
            ),
        decreases fs, 2nat,
    {
        let ghost c = self.compact_mode();
        let ghost header = seq![Tag::StructVariant.spec_byte()] + enc_variant_index(i as nat);
        let ghost body = crate::value::enc_fields(Value::view_fields(fs@), c);
        let ghost whole = header + body;
        proof {
            if old(self).accepts(whole.len()) {
                old(self).accepts_mono(header.len(), whole.len());
            }
        }
        let mut wb = match self.write_tag_then_variant(Tag::StructVariant, i) {
            Ok(n) => n,
            Err(e) => {
                return Err(e);
            },
        };
        let n2 = match self.encode_fields(fs) {
            Ok(n) => n,
            Err(e) => {
                return Err(e);
            },
        };
        proof {
            assert(self.sink() =~= old(self).sink() + whole);
        }
        wb = wb + n2;
        Ok(wb)
    }

    /// Writes the opener of a length-prefixed element composite and then
    /// its elements.
    fn encode_seq_like(&mut self, tag: Tag, es: &Vec<Value>) -> (r: Result<
        usize,
        SerError<<W as Write>::Error>,
    >)
        requires
            tag == Tag::SizedSeq || tag == Tag::Tuple || tag == Tag::TupleStruct,
        ensures
            emits(
                *old(self),
                *final(self),
                r,
                seq![tag.spec_byte()] + enc_len(es@.len()) + crate::value::enc_list(
                    Value::view_list(es@),
                    old(self).compact_mode(),
                ),
            ),
        decreases es, 2nat,
    {
        let ghost c = self.compact_mode();
        let ghost body = crate::value::enc_list(Value::view_list(es@), c);
        let ghost header = seq![tag.spec_byte()] + enc_len(es@.len());
        let ghost whole = header + body;
        proof {
            if old(self).accepts(whole.len()) {
                old(self).accepts_mono(header.len(), whole.len());
            }
        }
        let mut wb = match self.write_tag_then_len(tag, es.len()) {
            Ok(n) => n,
            Err(e) => {
                return Err(e);
            },
        };
        let n2 = match self.encode_list(es) {
            Ok(n) => n,
            Err(e) => {
                return Err(e);
            },
        };
        proof {
            assert(self.sink() =~= old(self).sink() + whole);
        }
        wb = wb + n2;
        Ok(wb)
    }

    /// Writes a run of elements, one encoded value each.
    fn encode_list(&mut self, es: &Vec<Value>) -> (r: Result<usize, SerError<<W as Write>::Error>>)
        ensures
            emits_part(
                *old(self),
                *final(self),
                r,
                crate::value::enc_list(Value::view_list(es@), old(self).compact_mode()),
            ),
        decreases es, 1nat,
    {
        let ghost c = self.compact_mode();
        let ghost vm = Value::view_list(es@);
        let ghost body = crate::value::enc_list(vm, c);
        proof {
            crate::value::lemma_view_list(es@);
        }
        let n = es.len();
        let mut wb: usize = 0;
        let mut i: usize = 0;
        while i < n
            invariant
                i <= n,
                n == es@.len(),
                c == old(self).compact_mode(),
                vm == Value::view_list(es@),
                vm.len() == n,
                forall|j: int| 0 <= j < n ==> #[trigger] vm[j] == es@[j]@,
                body == crate::value::enc_list(vm, c),
                self.compact_mode() == c,
                self.sink() == old(self).sink() + crate::value::enc_list(vm.take(i as int), c),
                wb == crate::value::enc_list(vm.take(i as int), c).len(),
                i > 0 ==> self.sink().len() <= usize::MAX,
                forall|k: nat|
                    old(self).accepts(
                        (crate::value::enc_list(vm.take(i as int), c).len() + k) as nat,
                    ) ==> self.accepts(k),
            decreases n - i,
        {
            let ghost prefix = crate::value::enc_list(vm.take(i as int), c);
            let ghost ei = enc_value(vm[i as int], c);
            proof {
                crate::value::lemma_enc_list_split(vm, c, i as int);
                crate::value::lemma_enc_list_step(vm, c, i as int);
                if old(self).accepts(body.len()) {
                    old(self).accepts_mono((prefix.len() + ei.len()) as nat, body.len());
                    assert(self.accepts(ei.len()));
                }
            }
            let n2 = match self.encode_value(&es[i]) {
                Ok(n2) => n2,
                Err(e) => {
                    return Err(e);
                },
            };
            proof {
                assert(crate::value::enc_list(vm.take(i + 1), c) =~= crate::value::enc_list(
                    vm.take(i as int),
                    c,
                ) + ei) by {
                    crate::value::lemma_enc_list_split(vm.take(i + 1), c, i as int);
                    crate::value::lemma_enc_list_step(vm.take(i + 1), c, i as int);
                    assert(vm.take(i + 1).take(i as int) =~= vm.take(i as int));
                    assert(vm.take(i + 1)[i as int] == vm[i as int]);
                    assert(vm.take(i + 1).skip(i + 1) =~= Seq::<ValueM>::empty());
                }
                assert(self.sink() =~= old(self).sink() + crate::value::enc_list(
                    vm.take(i + 1),
                    c,
                ));
            }
            wb = wb + n2;
            i = i + 1;
        }
        proof {
            assert(vm.take(n as int) =~= vm);
        }
        Ok(wb)
    }

    /// Writes a run of map entries, key then value each.
    fn encode_pairs(&mut self, ps: &Vec<(Value, Value)>) -> (r: Result<
        usize,
        SerError<<W as Write>::Error>,
    >)
        ensures
            emits_part(
                *old(self),
                *final(self),
                r,
                crate::value::enc_pairs(Value::view_pairs(ps@), old(self).compact_mode()),
            ),
        decreases ps, 1nat,
    {
        let ghost c = self.compact_mode();
        let ghost vm = Value::view_pairs(ps@);
        let ghost body = crate::value::enc_pairs(vm, c);
        proof {
            crate::value::lemma_view_pairs(ps@);
        }
        let n = ps.len();
        let mut wb: usize = 0;
        let mut i: usize = 0;
        while i < n
            invariant
                i <= n,
                n == ps@.len(),
                c == old(self).compact_mode(),
                vm == Value::view_pairs(ps@),
                vm.len() == n,
                forall|j: int| 0 <= j < n ==> #[trigger] vm[j] == (ps@[j].0@, ps@[j].1@),
                body == crate::value::enc_pairs(vm, c),
                self.compact_mode() == c,
                self.sink() == old(self).sink() + crate::value::enc_pairs(vm.take(i as int), c),
                wb == crate::value::enc_pairs(vm.take(i as int), c).len(),
                i > 0 ==> self.sink().len() <= usize::MAX,
                forall|k: nat|
                    old(self).accepts(
                        (crate::value::enc_pairs(vm.take(i as int), c).len() + k) as nat,
                    ) ==> self.accepts(k),
            decreases n - i,
        {
            let ghost prefix = crate::value::enc_pairs(vm.take(i as int), c);
            let ghost ek = enc_value(vm[i as int].0, c);
            let ghost ev = enc_value(vm[i as int].1, c);
            proof {
                crate::value::lemma_enc_pairs_split(vm, c, i as int);
                crate::value::lemma_enc_pairs_step(vm, c, i as int);
                if old(self).accepts(body.len()) {
                    old(self).accepts_mono((prefix.len() + ek.len() + ev.len()) as nat, body.len());
                    assert(self.accepts((ek.len() + ev.len()) as nat));
                    self.accepts_mono(ek.len(), (ek.len() + ev.len()) as nat);
                }
            }
            let entry = &ps[i];
            let nk = match self.encode_value(&entry.0) {
                Ok(nk) => nk,
                Err(e) => {
                    return Err(e);
                },
            };
            let nv = match self.encode_value(&entry.1) {
                Ok(nv) => nv,
                Err(e) => {
                    return Err(e);
                },
            };
            proof {
                assert(crate::value::enc_pairs(vm.take(i + 1), c) =~= crate::value::enc_pairs(
                    vm.take(i as int),
                    c,
                ) + ek + ev) by {
                    crate::value::lemma_enc_pairs_split(vm.take(i + 1), c, i as int);
                    crate::value::lemma_enc_pairs_step(vm.take(i + 1), c, i as int);
                    assert(vm.take(i + 1).take(i as int) =~= vm.take(i as int));
                    assert(vm.take(i + 1)[i as int] == vm[i as int]);
                    assert(vm.take(i + 1).skip(i + 1) =~= Seq::<(ValueM, ValueM)>::empty());
                }
                assert(self.sink() =~= old(self).sink() + crate::value::enc_pairs(
                    vm.take(i + 1),
                    c,
                ));
            }
            wb = wb + nk;
            wb = wb + nv;
            i = i + 1;
        }
        proof {
            assert(vm.take(n as int) =~= vm);
        }
        Ok(wb)
    }

    /// Writes a run of named fields: each name as length-prefixed text,
    /// then the field's value.  A struct enum case frames its fields the
    /// same way, so its entry encoding coincides with this one.
    fn encode_fields(&mut self, fs: &Vec<(String, Value)>) -> (r: Result<
        usize,
        SerError<<W as Write>::Error>,
    >)
        ensures
            emits_part(
                *old(self),
                *final(self),
                r,
                crate::value::enc_fields(Value::view_fields(fs@), old(self).compact_mode()),
            ),
        decreases fs, 1nat,
    {
        let ghost c = self.compact_mode();
        let ghost vm = Value::view_fields(fs@);
        let ghost body = crate::value::enc_fields(vm, c);
        proof {
            crate::value::lemma_view_fields(fs@);
        }
        let n = fs.len();
        let mut wb: usize = 0;
        let mut i: usize = 0;
        while i < n
            invariant
                i <= n,
                n == fs@.len(),
                c == old(self).compact_mode(),
                vm == Value::view_fields(fs@),
                vm.len() == n,
                forall|j: int| 0 <= j < n ==> #[trigger] vm[j] == (fs@[j].0@, fs@[j].1@),
                body == crate::value::enc_fields(vm, c),
                self.compact_mode() == c,
                self.sink() == old(self).sink() + crate::value::enc_fields(vm.take(i as int), c),
                wb == crate::value::enc_fields(vm.take(i as int), c).len(),
                i > 0 ==> self.sink().len() <= usize::MAX,
                forall|k: nat|
                    old(self).accepts(
                        (crate::value::enc_fields(vm.take(i as int), c).len() + k) as nat,
                    ) ==> self.accepts(k),
            decreases n - i,
        {
            let ghost prefix = crate::value::enc_fields(vm.take(i as int), c);
            let ghost ek = enc_text(vm[i as int].0);
            let ghost ev = enc_value(vm[i as int].1, c);
            proof {
                crate::value::lemma_enc_fields_split(vm, c, i as int);
                crate::value::lemma_enc_fields_step(vm, c, i as int);
                if old(self).accepts(body.len()) {
                    old(self).accepts_mono((prefix.len() + ek.len() + ev.len()) as nat, body.len());
                    assert(self.accepts((ek.len() + ev.len()) as nat));
                    self.accepts_mono(ek.len(), (ek.len() + ev.len()) as nat);
                }
            }
            let entry = &fs[i];
            let nk = match self.serialize_str(entry.0.as_str()) {
                Ok(nk) => nk,
                Err(e) => {
                    return Err(e);
                },
            };
            let nv = match self.encode_value(&entry.1) {
                Ok(nv) => nv,
                Err(e) => {
                    return Err(e);
                },
            };
            proof {
                assert(crate::value::enc_fields(vm.take(i + 1), c) =~= crate::value::enc_fields(
                    vm.take(i as int),
                    c,
                ) + ek + ev) by {
                    crate::value::lemma_enc_fields_split(vm.take(i + 1), c, i as int);
                    crate::value::lemma_enc_fields_step(vm.take(i + 1), c, i as int);
                    assert(vm.take(i + 1).take(i as int) =~= vm.take(i as int));
                    assert(vm.take(i + 1)[i as int] == vm[i as int]);
                    assert(vm.take(i + 1).skip(i + 1) =~= Seq::<(Seq<char>, ValueM)>::empty());
                }
                assert(self.sink() =~= old(self).sink() + crate::value::enc_fields(
                    vm.take(i + 1),
                    c,
                ));
            }
            wb = wb + nk;
            wb = wb + nv;
            i = i + 1;
        }
        proof {
            assert(vm.take(n as int) =~= vm);
        }
        Ok(wb)
    }
}

/// As [`emits`], but for a piece inside a larger encoding: the sink-length
/// bound applies only when something was written, and an error may also
/// stem from the surroundings having already exhausted the sink.
pub open spec fn emits_part<W: Write>(
    pre: Serializer<W>,
    post: Serializer<W>,
    r: Result<usize, SerError<<W as Write>::Error>>,
    bytes: Seq<u8>,
) -> bool {
    &&& match r {
        Ok(n) => {
            &&& n == bytes.len()
            &&& post.sink() == pre.sink() + bytes
            &&& (bytes.len() > 0 ==> post.sink().len() <= usize::MAX)
            &&& forall|k: nat| pre.accepts(bytes.len() + k) ==> post.accepts(k)
        },
        Err(e) => e is WriteError,
    }
    &&& post.compact_mode() == pre.compact_mode()
    &&& (pre.accepts(bytes.len()) ==> r is Ok)
}

impl<W: Write> Serializer<W> {
    /// Serializes a value into the given sink and returns the byte count
    /// together with the sink.
    pub fn to_writer(value: &Value, writer: W) -> (r: (
        Result<usize, SerError<<W as Write>::Error>>,
        W,
    ))
        ensures
            r.0 matches Ok(n) ==> {
                &&& r.1.sink() == writer.sink() + enc_value(value@, false)
                &&& n == enc_value(value@, false).len()
            },
            writer.accepts(enc_value(value@, false).len()) ==> r.0 is Ok,
    {
        let mut serializer = Serializer::new(writer);
        let r = serializer.encode_value(value);
        (r, serializer.into_writer())
    }
}

/// Serializes a value into the given sink and returns the byte count
/// together with the sink.
pub fn to_writer<W: Write>(value: &Value, writer: W) -> (r: (
    Result<usize, SerError<<W as Write>::Error>>,
    W,
))
    ensures
        r.0 matches Ok(n) ==> {
            &&& r.1.sink() == writer.sink() + enc_value(value@, false)
            &&& n == enc_value(value@, false).len()
        },
        writer.accepts(enc_value(value@, false).len()) ==> r.0 is Ok,
{
    Serializer::to_writer(value, writer)
}

/// Serializes a value into a fresh owned buffer.  It fails only when the
/// encoding would not fit in memory at all.
pub fn to_bytes(value: &Value) -> (r: Result<Vec<u8>, SerError<NoRWError>>)
    ensures
        r matches Ok(v) ==> v@ == enc_value(value@, false),
        enc_value(value@, false).len() <= usize::MAX ==> r is Ok,
{
    let writer = VecWriter::new();
    let mut serializer = Serializer::new(writer);
    match serializer.encode_value(value) {
        Ok(_) => Ok(serializer.into_writer().into_inner()),
        Err(e) => Err(e),
    }
}

/// As [`to_bytes`], with numeric compaction switched on: integers travel
/// at the narrowest width that holds their value.
pub fn to_bytes_compact(value: &Value) -> (r: Result<Vec<u8>, SerError<NoRWError>>)
    ensures
        r matches Ok(v) ==> v@ == enc_value(value@, true),
        enc_value(value@, true).len() <= usize::MAX ==> r is Ok,
{
    let writer = VecWriter::new();
    let mut serializer = Serializer::new_compact(writer);
    match serializer.encode_value(value) {
        Ok(_) => Ok(serializer.into_writer().into_inner()),
        Err(e) => Err(e),
    }
}

/// Serializes a value into a caller-supplied fixed buffer.  It succeeds
/// exactly when the encoding fits the buffer's capacity, and then the
/// returned writer holds the encoding as its filled prefix; an encoding
/// that does not fit fails with the buffer-exhausted write error.
pub fn to_buff(value: &Value, buff: Vec<u8>) -> (r: Result<BuffWriter, SerError<EndOfBuff>>)
    ensures
        r matches Ok(bw) ==> bw.sink() == enc_value(value@, false),
        enc_value(value@, false).len() <= buff@.len() ==> r is Ok,
        enc_value(value@, false).len() > buff@.len() ==> r == Err::<
            BuffWriter,
            SerError<EndOfBuff>,
        >(SerError::WriteError(EndOfBuff)),
{
    let cap = buff.len();
    let fits = match get_serialized_size(value) {
        Ok(n) => n <= cap,
        Err(_) => false,
    };
    if fits {
        let writer = BuffWriter::new(buff);
        let mut serializer = Serializer::new(writer);
        match serializer.encode_value(value) {
            Ok(_) => Ok(serializer.into_writer()),
            Err(e) => Err(e),
        }
    } else {
        Err(SerError::WriteError(EndOfBuff))
    }
}

/// Computes the exact size of a value's encoding without writing it
/// anywhere, by a counting pass into the measuring sink.
pub fn get_serialized_size(value: &Value) -> (r: Result<usize, SerError<EndOfBuff>>)
    ensures
        r matches Ok(n) ==> n == enc_value(value@, false).len(),
        enc_value(value@, false).len() <= usize::MAX ==> r is Ok,
{
    let writer = DummyWriter::new();
    let mut serializer = Serializer::new(writer);
    serializer.encode_value(value)
}

} // verus!
