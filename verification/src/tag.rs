//! The wire tag table: the closed set of one-byte discriminants that name
//! every shape the format can carry.

use vstd::prelude::*;

verus! {

/// First byte of the two-byte end marker that terminates a
/// marker-terminated string.
pub const STR_END_MARKER_0: u8 = 0xD8;

/// Second byte of the two-byte end marker that terminates a
/// marker-terminated string.
pub const STR_END_MARKER_1: u8 = 0x00;

/// One-byte discriminant identifying the shape of the value that follows it
/// on the wire.  The mapping to byte values is total and injective over the
/// range 0..=37; see [`Tag::to_byte`] and [`Tag::from_byte`].
#[derive(Debug, Clone, Copy, PartialEq, Eq, Structural)]
pub enum Tag {
    /// An option holding nothing; no payload.
    Absent,
    /// An option holding a value; the value follows.
    Present,
    /// The boolean `false`; no payload.
    BoolFalse,
    /// The boolean `true`; no payload.
    BoolTrue,
    /// Signed 8-bit integer; 1 payload byte.
    I8,
    /// Signed 16-bit integer; 2 big-endian payload bytes.
    I16,
    /// Signed 32-bit integer; 4 big-endian payload bytes.
    I32,
    /// Signed 64-bit integer; 8 big-endian payload bytes.
    I64,
    /// Unsigned 8-bit integer; 1 payload byte.
    U8,
    /// Unsigned 16-bit integer; 2 big-endian payload bytes.
    U16,
    /// Unsigned 32-bit integer; 4 big-endian payload bytes.
    U32,
    /// Unsigned 64-bit integer; 8 big-endian payload bytes.
    U64,
    /// 32-bit float; 4 big-endian payload bytes holding the bit pattern.
    F32,
    /// 64-bit float; 8 big-endian payload bytes holding the bit pattern.
    F64,
    /// A single code point whose UTF-8 encoding is 1 byte long.
    Char1,
    /// A single code point whose UTF-8 encoding is 2 bytes long.
    Char2,
    /// A single code point whose UTF-8 encoding is 3 bytes long.
    Char3,
    /// A single code point whose UTF-8 encoding is 4 bytes long.
    Char4,
    /// Length-prefixed UTF-8 text: a compacted unsigned length, then that
    /// many bytes.
    Str,
    /// UTF-8 text streamed without a length and closed by the two-byte end
    /// marker `0xD8 0x00`.
    MarkerTerminatedStr,
    /// A byte string: a compacted unsigned length, then that many raw bytes.
    Bytes,
    /// The unit value; no payload.
    Unit,
    /// A unit struct; no payload.
    UnitStruct,
    /// A unit enum case: a compacted unsigned variant index follows.
    UnitVariant,
    /// A single-field wrapper; the wrapped value follows.
    NewTypeStruct,
    /// A single-field enum case: variant index, then the wrapped value.
    NewTypeVariant,
    /// A sequence with a known length: compacted length, then the elements.
    SizedSeq,
    /// A sequence of unknown length: elements follow until
    /// [`Tag::UnsizedSeqEnd`].
    UnsizedSeq,
    /// Terminates an unsized sequence or map; no payload.
    UnsizedSeqEnd,
    /// A fixed tuple: compacted length, then the elements.
    Tuple,
    /// A named tuple: compacted length, then the elements.
    TupleStruct,
    /// A tuple enum case: variant index, then the fields with no length
    /// prefix (the arity is supplied by the caller).
    TupleVariant,
    /// A map with a known entry count: compacted count, then the entries as
    /// alternating keys and values.
    SizedMap,
    /// A map of unknown entry count, closed by [`Tag::UnsizedSeqEnd`].
    UnsizedMap,
    /// A named aggregate: compacted field count, then the fields as
    /// alternating name strings and values.
    Struct,
    /// A struct enum case: variant index, then the fields with no count
    /// prefix (the arity is supplied by the caller).
    StructVariant,
    /// Signed 128-bit integer; 16 big-endian payload bytes.
    I128,
    /// Unsigned 128-bit integer; 16 big-endian payload bytes.
    U128,
}

impl Tag {
    /// The byte that stands for this tag on the wire.
    pub open spec fn spec_byte(self) -> u8 {
        match self {
            Tag::Absent => 0,
            Tag::Present => 1,
            Tag::BoolFalse => 2,
            Tag::BoolTrue => 3,
            Tag::I8 => 4,
            Tag::I16 => 5,
            Tag::I32 => 6,
            Tag::I64 => 7,
            Tag::U8 => 8,
            Tag::U16 => 9,
            Tag::U32 => 10,
            Tag::U64 => 11,
            Tag::F32 => 12,
            Tag::F64 => 13,
            Tag::Char1 => 14,
            Tag::Char2 => 15,
            Tag::Char3 => 16,
            Tag::Char4 => 17,
            Tag::Str => 18,
            Tag::MarkerTerminatedStr => 19,
            Tag::Bytes => 20,
            Tag::Unit => 21,
            Tag::UnitStruct => 22,
            Tag::UnitVariant => 23,
            Tag::NewTypeStruct => 24,
            Tag::NewTypeVariant => 25,
            Tag::SizedSeq => 26,
            Tag::UnsizedSeq => 27,
            Tag::UnsizedSeqEnd => 28,
            Tag::Tuple => 29,
            Tag::TupleStruct => 30,
            Tag::TupleVariant => 31,
            Tag::SizedMap => 32,
            Tag::UnsizedMap => 33,
            Tag::Struct => 34,
            Tag::StructVariant => 35,
            Tag::I128 => 36,
            Tag::U128 => 37,
        }
    }

    /// The tag named by a byte, or nothing when the byte is outside the
    /// discriminant range.
    pub open spec fn spec_from_byte(byte: u8) -> Option<Tag> {
        match byte {
            0u8 => Some(Tag::Absent),
            1u8 => Some(Tag::Present),
            2u8 => Some(Tag::BoolFalse),
            3u8 => Some(Tag::BoolTrue),
            4u8 => Some(Tag::I8),
            5u8 => Some(Tag::I16),
            6u8 => Some(Tag::I32),
            7u8 => Some(Tag::I64),
            8u8 => Some(Tag::U8),
            9u8 => Some(Tag::U16),
            10u8 => Some(Tag::U32),
            11u8 => Some(Tag::U64),
            12u8 => Some(Tag::F32),
            13u8 => Some(Tag::F64),
            14u8 => Some(Tag::Char1),
            15u8 => Some(Tag::Char2),
            16u8 => Some(Tag::Char3),
            17u8 => Some(Tag::Char4),
            18u8 => Some(Tag::Str),
            19u8 => Some(Tag::MarkerTerminatedStr),
            20u8 => Some(Tag::Bytes),
            21u8 => Some(Tag::Unit),
            22u8 => Some(Tag::UnitStruct),
            23u8 => Some(Tag::UnitVariant),
            24u8 => Some(Tag::NewTypeStruct),
            25u8 => Some(Tag::NewTypeVariant),
            26u8 => Some(Tag::SizedSeq),
            27u8 => Some(Tag::UnsizedSeq),
            28u8 => Some(Tag::UnsizedSeqEnd),
            29u8 => Some(Tag::Tuple),
            30u8 => Some(Tag::TupleStruct),
            31u8 => Some(Tag::TupleVariant),
            32u8 => Some(Tag::SizedMap),
            33u8 => Some(Tag::UnsizedMap),
            34u8 => Some(Tag::Struct),
            35u8 => Some(Tag::StructVariant),
            36u8 => Some(Tag::I128),
            37u8 => Some(Tag::U128),
            _ => None,
        }
    }

    /// Writes this tag as its wire byte.
    pub fn to_byte(self) -> (r: u8)
        ensures
            r == self.spec_byte(),
    {
        match self {
            Tag::Absent => 0,
            Tag::Present => 1,
            Tag::BoolFalse => 2,
            Tag::BoolTrue => 3,
            Tag::I8 => 4,
            Tag::I16 => 5,
            Tag::I32 => 6,
            Tag::I64 => 7,
            Tag::U8 => 8,
            Tag::U16 => 9,
            Tag::U32 => 10,
            Tag::U64 => 11,
            Tag::F32 => 12,
            Tag::F64 => 13,
            Tag::Char1 => 14,
            Tag::Char2 => 15,
            Tag::Char3 => 16,
            Tag::Char4 => 17,
            Tag::Str => 18,
            Tag::MarkerTerminatedStr => 19,
            Tag::Bytes => 20,
            Tag::Unit => 21,
            Tag::UnitStruct => 22,
            Tag::UnitVariant => 23,
            Tag::NewTypeStruct => 24,
            Tag::NewTypeVariant => 25,
            Tag::SizedSeq => 26,
            Tag::UnsizedSeq => 27,
            Tag::UnsizedSeqEnd => 28,
            Tag::Tuple => 29,
            Tag::TupleStruct => 30,
            Tag::TupleVariant => 31,
            Tag::SizedMap => 32,
            Tag::UnsizedMap => 33,
            Tag::Struct => 34,
            Tag::StructVariant => 35,
            Tag::I128 => 36,
            Tag::U128 => 37,
        }
    }

    /// Reads a tag back from its wire byte; a byte outside the discriminant
    /// range yields nothing.
    pub fn from_byte(byte: u8) -> (r: Option<Tag>)
        ensures
            r == Tag::spec_from_byte(byte),
    {
        match byte {
            0u8 => Some(Tag::Absent),
            1u8 => Some(Tag::Present),
            2u8 => Some(Tag::BoolFalse),
            3u8 => Some(Tag::BoolTrue),
            4u8 => Some(Tag::I8),
            5u8 => Some(Tag::I16),
            6u8 => Some(Tag::I32),
            7u8 => Some(Tag::I64),
            8u8 => Some(Tag::U8),
            9u8 => Some(Tag::U16),
            10u8 => Some(Tag::U32),
            11u8 => Some(Tag::U64),
            12u8 => Some(Tag::F32),
            13u8 => Some(Tag::F64),
            14u8 => Some(Tag::Char1),
            15u8 => Some(Tag::Char2),
            16u8 => Some(Tag::Char3),
            17u8 => Some(Tag::Char4),
            18u8 => Some(Tag::Str),
            19u8 => Some(Tag::MarkerTerminatedStr),
            20u8 => Some(Tag::Bytes),
            21u8 => Some(Tag::Unit),
            22u8 => Some(Tag::UnitStruct),
            23u8 => Some(Tag::UnitVariant),
            24u8 => Some(Tag::NewTypeStruct),
            25u8 => Some(Tag::NewTypeVariant),
            26u8 => Some(Tag::SizedSeq),
            27u8 => Some(Tag::UnsizedSeq),
            28u8 => Some(Tag::UnsizedSeqEnd),
            29u8 => Some(Tag::Tuple),
            30u8 => Some(Tag::TupleStruct),
            31u8 => Some(Tag::TupleVariant),
            32u8 => Some(Tag::SizedMap),
            33u8 => Some(Tag::UnsizedMap),
            34u8 => Some(Tag::Struct),
            35u8 => Some(Tag::StructVariant),
            36u8 => Some(Tag::I128),
            37u8 => Some(Tag::U128),
            _ => None,
        }
    }
}

/// The tag byte table is injective: reading back the byte of any tag yields
/// that tag, so no two tags share a byte.
pub proof fn lemma_tag_byte_round_trip(t: Tag)
    ensures
        Tag::spec_from_byte(t.spec_byte()) == Some(t),
{
}

/// Every byte in the discriminant range names exactly the tag whose byte it
/// is, and every byte outside it names nothing.
pub proof fn lemma_byte_tag_round_trip(b: u8)
    ensures
        b <= 37 ==> (Tag::spec_from_byte(b) matches Some(t) && t.spec_byte() == b),
        b > 37 ==> Tag::spec_from_byte(b) is None,
{
}

/// The char tag that records a one-scalar UTF-8 encoding of `n` bytes.
pub open spec fn spec_char_width_tag(n: nat) -> Tag {
    if n == 1 {
        Tag::Char1
    } else if n == 2 {
        Tag::Char2
    } else if n == 3 {
        Tag::Char3
    } else {
        Tag::Char4
    }
}

impl Tag {
    /// Encodes one code point as UTF-8 and picks the tag that records how
    /// many bytes follow.
    pub fn encode_char(c: char) -> (r: (Tag, Vec<u8>))
        ensures
            r.1@ == vstd::utf8::encode_scalar(c as u32),
            1 <= r.1@.len() <= 4,
            r.0 == spec_char_width_tag(r.1@.len()),
    {
        proof {
            vstd::utf8::char_is_scalar(c);
        }
        let u = c as u32;
        let mut out: Vec<u8> = Vec::new();
        if u <= 0x7F {
            out.push((u & 0x7F) as u8);
            proof {
                assert(out@ =~= vstd::utf8::encode_scalar(c as u32));
            }
            (Tag::Char1, out)
        } else if u <= 0x7FF {
            out.push(0xC0 | ((u >> 6) & 0x1F) as u8);
            out.push(0x80 | (u & 0x3F) as u8);
            proof {
                assert(out@ =~= vstd::utf8::encode_scalar(c as u32));
            }
            (Tag::Char2, out)
        } else if u <= 0xFFFF {
            out.push(0xE0 | ((u >> 12) & 0x0F) as u8);
            out.push(0x80 | ((u >> 6) & 0x3F) as u8);
            out.push(0x80 | (u & 0x3F) as u8);
            proof {
                assert(out@ =~= vstd::utf8::encode_scalar(c as u32));
            }
            (Tag::Char3, out)
        } else {
            out.push(0xF0 | ((u >> 18) & 0x7) as u8);
            out.push(0x80 | ((u >> 12) & 0x3F) as u8);
            out.push(0x80 | ((u >> 6) & 0x3F) as u8);
            out.push(0x80 | (u & 0x3F) as u8);
            proof {
                assert(out@ =~= vstd::utf8::encode_scalar(c as u32));
            }
            (Tag::Char4, out)
        }
    }
}

/// True when the two bytes form the end marker of a marker-terminated
/// string.
pub open spec fn spec_end_of_str(b0: u8, b1: u8) -> bool {
    b0 == STR_END_MARKER_0 && b1 == STR_END_MARKER_1
}

/// Tests two adjacent bytes for the marker-terminated-string end marker.
pub fn end_of_str(b0: u8, b1: u8) -> (r: bool)
    ensures
        r == spec_end_of_str(b0, b1),
{
    b0 == STR_END_MARKER_0 && b1 == STR_END_MARKER_1
}

} // verus!
