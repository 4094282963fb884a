//! The abstract value tree that the engine serializes and deserializes,
//! together with its mathematical mirror and the specification of its
//! encoding.

use vstd::prelude::*;

use crate::tag::{spec_char_width_tag, Tag};
use crate::wire::{dec_uint, enc_len, enc_sint, enc_uint, enc_variant_index, be_bytes, from_be, to_signed, uint_width};
use vstd::utf8::{decode_first_scalar, decode_utf8, encode_scalar, encode_utf8, length_of_first_scalar, valid_first_scalar, valid_utf8};

verus! {

broadcast use {
    vstd::std_specs::vec::axiom_vec_index_decreases,
    vstd::std_specs::vec::axiom_vec_decreases_to_view,
    vstd::seq::axiom_seq_index_decreases,
    vstd::seq::axiom_seq_subrange_decreases,
};

/// A self-describing value: one constructor for every shape the wire
/// format can carry.  Floats travel as their bit patterns, so the tree
/// itself stays free of floating point.
#[derive(Debug, PartialEq, Eq)]
pub enum Value {
    /// An option holding nothing.
    Absent,
    /// An option holding a value.
    Present(Box<Value>),
    /// A boolean.
    Bool(bool),
    /// A signed 8-bit integer.
    I8(i8),
    /// A signed 16-bit integer.
    I16(i16),
    /// A signed 32-bit integer.
    I32(i32),
    /// A signed 64-bit integer.
    I64(i64),
    /// A signed 128-bit integer.
    I128(i128),
    /// An unsigned 8-bit integer.
    U8(u8),
    /// An unsigned 16-bit integer.
    U16(u16),
    /// An unsigned 32-bit integer.
    U32(u32),
    /// An unsigned 64-bit integer.
    U64(u64),
    /// An unsigned 128-bit integer.
    U128(u128),
    /// The bit pattern of a 32-bit float.
    F32Bits(u32),
    /// The bit pattern of a 64-bit float.
    F64Bits(u64),
    /// A single code point.
    Char(char),
    /// Length-prefixed UTF-8 text.
    Text(String),
    /// A byte string.
    Bytes(Vec<u8>),
    /// The unit value.
    Unit,
    /// A unit struct.
    UnitStruct,
    /// A single-field wrapper.
    NewTypeStruct(Box<Value>),
    /// A sequence whose length is known up front.
    SizedSeq(Vec<Value>),
    /// A sequence streamed without a length and closed by the end marker.
    UnsizedSeq(Vec<Value>),
    /// A fixed tuple.
    Tuple(Vec<Value>),
    /// A named tuple.
    TupleStruct(Vec<Value>),
    /// A map whose entry count is known up front; entries keep their
    /// order.
    SizedMap(Vec<(Value, Value)>),
    /// A map streamed without a count and closed by the end marker.
    UnsizedMap(Vec<(Value, Value)>),
    /// A named aggregate: fields as name/value pairs in order.
    Struct(Vec<(String, Value)>),
    /// A unit enum case, carrying its variant index.
    UnitVariant(u32),
    /// A single-field enum case: variant index and the wrapped value.
    NewTypeVariant(u32, Box<Value>),
    /// A tuple enum case: variant index and the fields.
    TupleVariant(u32, Vec<Value>),
    /// A struct enum case: variant index and the named fields.
    StructVariant(u32, Vec<(String, Value)>),
}

/// The mathematical mirror of [`Value`]: text as character sequences, byte
/// strings and children as sequences.  Contracts and laws speak of this
/// type.
pub enum ValueM {
    /// An option holding nothing.
    Absent,
    /// An option holding a value.
    Present(Box<ValueM>),
    /// A boolean.
    Bool(bool),
    /// A signed 8-bit integer.
    I8(i8),
    /// A signed 16-bit integer.
    I16(i16),
    /// A signed 32-bit integer.
    I32(i32),
    /// A signed 64-bit integer.
    I64(i64),
    /// A signed 128-bit integer.
    I128(i128),
    /// An unsigned 8-bit integer.
    U8(u8),
    /// An unsigned 16-bit integer.
    U16(u16),
    /// An unsigned 32-bit integer.
    U32(u32),
    /// An unsigned 64-bit integer.
    U64(u64),
    /// An unsigned 128-bit integer.
    U128(u128),
    /// The bit pattern of a 32-bit float.
    F32Bits(u32),
    /// The bit pattern of a 64-bit float.
    F64Bits(u64),
    /// A single code point.
    Char(char),
    /// Length-prefixed UTF-8 text.
    Text(Seq<char>),
    /// A byte string.
    Bytes(Seq<u8>),
    /// The unit value.
    Unit,
    /// A unit struct.
    UnitStruct,
    /// A single-field wrapper.
    NewTypeStruct(Box<ValueM>),
    /// A sequence whose length is known up front.
    SizedSeq(Seq<ValueM>),
    /// A sequence streamed without a length.
    UnsizedSeq(Seq<ValueM>),
    /// A fixed tuple.
    Tuple(Seq<ValueM>),
    /// A named tuple.
    TupleStruct(Seq<ValueM>),
    /// A map whose entry count is known up front.
    SizedMap(Seq<(ValueM, ValueM)>),
    /// A map streamed without a count.
    UnsizedMap(Seq<(ValueM, ValueM)>),
    /// A named aggregate.
    Struct(Seq<(Seq<char>, ValueM)>),
    /// A unit enum case.
    UnitVariant(u32),
    /// A single-field enum case.
    NewTypeVariant(u32, Box<ValueM>),
    /// A tuple enum case.
    TupleVariant(u32, Seq<ValueM>),
    /// A struct enum case.
    StructVariant(u32, Seq<(ValueM, ValueM)>),
}

impl Value {
    /// The mathematical mirror of this value.
    pub open spec fn view_list(vs: Seq<Value>) -> Seq<ValueM>
        decreases vs,
    {
        if vs.len() == 0 {
            Seq::empty()
        } else {
            seq![vs[0]@] + Value::view_list(vs.skip(1))
        }
    }

    /// The mirror of a run of map entries.
    pub open spec fn view_pairs(ps: Seq<(Value, Value)>) -> Seq<(ValueM, ValueM)>
        decreases ps,
    {
        if ps.len() == 0 {
            Seq::empty()
        } else {
            seq![(ps[0].0@, ps[0].1@)] + Value::view_pairs(ps.skip(1))
        }
    }

    /// The mirror of a run of named fields.
    pub open spec fn view_fields(fs: Seq<(String, Value)>) -> Seq<(Seq<char>, ValueM)>
        decreases fs,
    {
        if fs.len() == 0 {
            Seq::empty()
        } else {
            seq![(fs[0].0@, fs[0].1@)] + Value::view_fields(fs.skip(1))
        }
    }

    /// The mirror of a struct's fields as generic map entries.
    pub open spec fn view_fields_pairs(fs: Seq<(String, Value)>) -> Seq<(ValueM, ValueM)>
        decreases fs,
    {
        if fs.len() == 0 {
            Seq::empty()
        } else {
            seq![(ValueM::Text(fs[0].0@), fs[0].1@)] + Value::view_fields_pairs(fs.skip(1))
        }
    }
}

impl View for Value {
    type V = ValueM;

    open spec fn view(&self) -> ValueM
        decreases self,
    {
        match self {
            Value::Absent => ValueM::Absent,
            Value::Present(b) => ValueM::Present(Box::new((**b)@)),
            Value::Bool(v) => ValueM::Bool(*v),
            Value::I8(v) => ValueM::I8(*v),
            Value::I16(v) => ValueM::I16(*v),
            Value::I32(v) => ValueM::I32(*v),
            Value::I64(v) => ValueM::I64(*v),
            Value::I128(v) => ValueM::I128(*v),
            Value::U8(v) => ValueM::U8(*v),
            Value::U16(v) => ValueM::U16(*v),
            Value::U32(v) => ValueM::U32(*v),
            Value::U64(v) => ValueM::U64(*v),
            Value::U128(v) => ValueM::U128(*v),
            Value::F32Bits(v) => ValueM::F32Bits(*v),
            Value::F64Bits(v) => ValueM::F64Bits(*v),
            Value::Char(v) => ValueM::Char(*v),
            Value::Text(t) => ValueM::Text(t@),
            Value::Bytes(bs) => ValueM::Bytes(bs@),
            Value::Unit => ValueM::Unit,
            Value::UnitStruct => ValueM::UnitStruct,
            Value::NewTypeStruct(b) => ValueM::NewTypeStruct(Box::new((**b)@)),
            Value::SizedSeq(es) => ValueM::SizedSeq(Value::view_list(es@)),
            Value::UnsizedSeq(es) => ValueM::UnsizedSeq(Value::view_list(es@)),
            Value::Tuple(es) => ValueM::Tuple(Value::view_list(es@)),
            Value::TupleStruct(es) => ValueM::TupleStruct(Value::view_list(es@)),
            Value::SizedMap(ps) => ValueM::SizedMap(Value::view_pairs(ps@)),
            Value::UnsizedMap(ps) => ValueM::UnsizedMap(Value::view_pairs(ps@)),
            Value::Struct(fs) => ValueM::Struct(Value::view_fields(fs@)),
            Value::UnitVariant(i) => ValueM::UnitVariant(*i),
            Value::NewTypeVariant(i, b) => ValueM::NewTypeVariant(*i, Box::new((**b)@)),
            Value::TupleVariant(i, es) => ValueM::TupleVariant(*i, Value::view_list(es@)),
            Value::StructVariant(i, fs) => ValueM::StructVariant(
                *i,
                Value::view_fields_pairs(fs@),
            ),
        }
    }
}

/// The length and the elements of a mirrored element list agree with the
/// originals.
pub proof fn lemma_view_list(vs: Seq<Value>)
    ensures
        Value::view_list(vs).len() == vs.len(),
        forall|i: int| 0 <= i < vs.len() ==> #[trigger] Value::view_list(vs)[i] == vs[i]@,
    decreases vs.len(),
{
    if vs.len() > 0 {
        lemma_view_list(vs.skip(1));
        assert(Value::view_list(vs) == seq![vs[0]@] + Value::view_list(vs.skip(1)));
        assert(Value::view_list(vs).len() == vs.len());
        assert forall|i: int| 0 <= i < vs.len() implies #[trigger] Value::view_list(vs)[i]
            == vs[i]@ by {
            if i > 0 {
                assert(vs.skip(1)[i - 1] == vs[i]);
            }
        }
    }
}

/// The length and the entries of a mirrored entry list agree with the
/// originals.
pub proof fn lemma_view_pairs(ps: Seq<(Value, Value)>)
    ensures
        Value::view_pairs(ps).len() == ps.len(),
        forall|i: int|
            0 <= i < ps.len() ==> #[trigger] Value::view_pairs(ps)[i] == (ps[i].0@, ps[i].1@),
    decreases ps.len(),
{
    if ps.len() > 0 {
        lemma_view_pairs(ps.skip(1));
        assert(Value::view_pairs(ps) == seq![(ps[0].0@, ps[0].1@)] + Value::view_pairs(
            ps.skip(1),
        ));
        assert(Value::view_pairs(ps).len() == ps.len());
        assert forall|i: int| 0 <= i < ps.len() implies #[trigger] Value::view_pairs(ps)[i] == (
        ps[i].0@,
        ps[i].1@,
        ) by {
            if i > 0 {
                assert(ps.skip(1)[i - 1] == ps[i]);
            }
        }
    }
}

/// The length and the fields of a mirrored field list agree with the
/// originals.
pub proof fn lemma_view_fields(fs: Seq<(String, Value)>)
    ensures
        Value::view_fields(fs).len() == fs.len(),
        forall|i: int|
            0 <= i < fs.len() ==> #[trigger] Value::view_fields(fs)[i] == (fs[i].0@, fs[i].1@),
        Value::view_fields_pairs(fs).len() == fs.len(),
        forall|i: int|
            0 <= i < fs.len() ==> #[trigger] Value::view_fields_pairs(fs)[i] == (
                ValueM::Text(fs[i].0@),
                fs[i].1@,
            ),
    decreases fs.len(),
{
    if fs.len() > 0 {
        lemma_view_fields(fs.skip(1));
        assert(Value::view_fields(fs) == seq![(fs[0].0@, fs[0].1@)] + Value::view_fields(
            fs.skip(1),
        ));
        assert(Value::view_fields(fs).len() == fs.len());
        assert(Value::view_fields_pairs(fs) == seq![(ValueM::Text(fs[0].0@), fs[0].1@)]
            + Value::view_fields_pairs(fs.skip(1)));
        assert(Value::view_fields_pairs(fs).len() == fs.len());
        assert forall|i: int| 0 <= i < fs.len() implies #[trigger] Value::view_fields(fs)[i] == (
        fs[i].0@,
        fs[i].1@,
        ) by {
            if i > 0 {
                assert(fs.skip(1)[i - 1] == fs[i]);
            }
        }
        assert forall|i: int| 0 <= i < fs.len() implies #[trigger] Value::view_fields_pairs(fs)[i]
            == (ValueM::Text(fs[i].0@), fs[i].1@) by {
            if i > 0 {
                assert(fs.skip(1)[i - 1] == fs[i]);
            }
        }
    }
}

/// The encoding of length-prefixed text: the string tag, the compacted
/// byte length, then the UTF-8 bytes.
pub open spec fn enc_text(t: Seq<char>) -> Seq<u8> {
    seq![Tag::Str.spec_byte()] + enc_len(encode_utf8(t).len()) + encode_utf8(t)
}

/// The encoding of a value under the given compaction mode: one tag byte,
/// then the payload that the tag announces.
pub open spec fn enc_value(m: ValueM, c: bool) -> Seq<u8>
    decreases m, 0nat, 0nat,
{
    match m {
        ValueM::Absent => seq![Tag::Absent.spec_byte()],
        ValueM::Present(b) => seq![Tag::Present.spec_byte()] + enc_value(*b, c),
        ValueM::Bool(v) => if v {
            seq![Tag::BoolTrue.spec_byte()]
        } else {
            seq![Tag::BoolFalse.spec_byte()]
        },
        ValueM::I8(v) => enc_sint(v as int, 1, c),
        ValueM::I16(v) => enc_sint(v as int, 2, c),
        ValueM::I32(v) => enc_sint(v as int, 4, c),
        ValueM::I64(v) => enc_sint(v as int, 8, c),
        ValueM::I128(v) => enc_sint(v as int, 16, c),
        ValueM::U8(v) => enc_uint(v as nat, 1, c),
        ValueM::U16(v) => enc_uint(v as nat, 2, c),
        ValueM::U32(v) => enc_uint(v as nat, 4, c),
        ValueM::U64(v) => enc_uint(v as nat, 8, c),
        ValueM::U128(v) => enc_uint(v as nat, 16, c),
        ValueM::F32Bits(v) => seq![Tag::F32.spec_byte()] + be_bytes(v as nat, 4),
        ValueM::F64Bits(v) => seq![Tag::F64.spec_byte()] + be_bytes(v as nat, 8),
        ValueM::Char(ch) => seq![spec_char_width_tag(encode_scalar(ch as u32).len()).spec_byte()]
            + encode_scalar(ch as u32),
        ValueM::Text(t) => enc_text(t),
        ValueM::Bytes(bs) => seq![Tag::Bytes.spec_byte()] + enc_len(bs.len()) + bs,
        ValueM::Unit => seq![Tag::Unit.spec_byte()],
        ValueM::UnitStruct => seq![Tag::UnitStruct.spec_byte()],
        ValueM::NewTypeStruct(b) => seq![Tag::NewTypeStruct.spec_byte()] + enc_value(*b, c),
        ValueM::SizedSeq(es) => seq![Tag::SizedSeq.spec_byte()] + enc_len(es.len()) + enc_list(
            es,
            c,
        ),
        ValueM::UnsizedSeq(es) => seq![Tag::UnsizedSeq.spec_byte()] + enc_list(es, c) + seq![
            Tag::UnsizedSeqEnd.spec_byte(),
        ],
        ValueM::Tuple(es) => seq![Tag::Tuple.spec_byte()] + enc_len(es.len()) + enc_list(es, c),
        ValueM::TupleStruct(es) => seq![Tag::TupleStruct.spec_byte()] + enc_len(es.len())
            + enc_list(es, c),
        ValueM::SizedMap(ps) => seq![Tag::SizedMap.spec_byte()] + enc_len(ps.len()) + enc_pairs(
            ps,
            c,
        ),
        ValueM::UnsizedMap(ps) => seq![Tag::UnsizedMap.spec_byte()] + enc_pairs(ps, c) + seq![
            Tag::UnsizedSeqEnd.spec_byte(),
        ],
        ValueM::Struct(fs) => seq![Tag::Struct.spec_byte()] + enc_len(fs.len()) + enc_fields(
            fs,
            c,
        ),
        ValueM::UnitVariant(i) => seq![Tag::UnitVariant.spec_byte()] + enc_variant_index(i as nat),
        ValueM::NewTypeVariant(i, b) => seq![Tag::NewTypeVariant.spec_byte()] + enc_variant_index(
            i as nat,
        ) + enc_value(*b, c),
        ValueM::TupleVariant(i, es) => seq![Tag::TupleVariant.spec_byte()] + enc_variant_index(
            i as nat,
        ) + enc_list(es, c),
        ValueM::StructVariant(i, fs) => seq![Tag::StructVariant.spec_byte()] + enc_variant_index(
            i as nat,
        ) + enc_pairs(fs, c),
    }
}

/// The concatenated encodings of a run of elements.
pub open spec fn enc_list(es: Seq<ValueM>, c: bool) -> Seq<u8>
    decreases es, 1nat, es.len(),
{
    if es.len() == 0 {
        Seq::empty()
    } else {
        enc_value(es[0], c) + enc_list(es.skip(1), c)
    }
}

/// The concatenated encodings of a run of map entries, each a key followed
/// by its value.
pub open spec fn enc_pairs(ps: Seq<(ValueM, ValueM)>, c: bool) -> Seq<u8>
    decreases ps, 1nat, ps.len(),
{
    if ps.len() == 0 {
        Seq::empty()
    } else {
        enc_value(ps[0].0, c) + enc_value(ps[0].1, c) + enc_pairs(ps.skip(1), c)
    }
}

/// The concatenated encodings of a run of named fields, each a
/// length-prefixed name followed by the field's value.
pub open spec fn enc_fields(fs: Seq<(Seq<char>, ValueM)>, c: bool) -> Seq<u8>
    decreases fs, 1nat, fs.len(),
{
    if fs.len() == 0 {
        Seq::empty()
    } else {
        enc_text(fs[0].0) + enc_value(fs[0].1, c) + enc_fields(fs.skip(1), c)
    }
}

/// An element list's encoding splits at any point into the encoding of the
/// elements before it and the encoding of those after it.
pub proof fn lemma_enc_list_split(es: Seq<ValueM>, c: bool, i: int)
    requires
        0 <= i <= es.len(),
    ensures
        enc_list(es, c) == enc_list(es.take(i), c) + enc_list(es.skip(i), c),
    decreases i,
{
    if i == 0 {
        assert(es.take(0) =~= Seq::<ValueM>::empty());
        assert(es.skip(0) =~= es);
        assert(enc_list(es, c) =~= enc_list(es.take(0), c) + enc_list(es.skip(0), c));
    } else {
        assert(enc_list(es, c) == enc_value(es[0], c) + enc_list(es.skip(1), c));
        lemma_enc_list_split(es.skip(1), c, i - 1);
        assert(es.skip(1).take(i - 1) =~= es.take(i).skip(1));
        assert(es.skip(1).skip(i - 1) =~= es.skip(i));
        assert(es.take(i)[0] == es[0]);
        assert(enc_list(es.take(i), c) == enc_value(es[0], c) + enc_list(es.take(i).skip(1), c));
        assert(enc_list(es, c) =~= enc_list(es.take(i), c) + enc_list(es.skip(i), c));
    }
}

/// Dropping the elements before position `i` leaves the encoding of the
/// element at `i` followed by the rest.
pub proof fn lemma_enc_list_step(es: Seq<ValueM>, c: bool, i: int)
    requires
        0 <= i < es.len(),
    ensures
        enc_list(es.skip(i), c) == enc_value(es[i], c) + enc_list(es.skip(i + 1), c),
{
    assert(es.skip(i)[0] == es[i]);
    assert(es.skip(i).skip(1) =~= es.skip(i + 1));
}

/// An entry list's encoding splits at any point.
pub proof fn lemma_enc_pairs_split(ps: Seq<(ValueM, ValueM)>, c: bool, i: int)
    requires
        0 <= i <= ps.len(),
    ensures
        enc_pairs(ps, c) == enc_pairs(ps.take(i), c) + enc_pairs(ps.skip(i), c),
    decreases i,
{
    if i == 0 {
        assert(ps.take(0) =~= Seq::<(ValueM, ValueM)>::empty());
        assert(ps.skip(0) =~= ps);
        assert(enc_pairs(ps, c) =~= enc_pairs(ps.take(0), c) + enc_pairs(ps.skip(0), c));
    } else {
        lemma_enc_pairs_split(ps.skip(1), c, i - 1);
        assert(ps.skip(1).take(i - 1) =~= ps.take(i).skip(1));
        assert(ps.skip(1).skip(i - 1) =~= ps.skip(i));
        assert(ps.take(i)[0] == ps[0]);
        assert(enc_pairs(ps.take(i), c) == enc_value(ps[0].0, c) + enc_value(ps[0].1, c)
            + enc_pairs(ps.take(i).skip(1), c));
        assert(enc_pairs(ps, c) =~= enc_pairs(ps.take(i), c) + enc_pairs(ps.skip(i), c));
    }
}

/// Dropping the entries before position `i` leaves the key and value at
/// `i` followed by the rest.
pub proof fn lemma_enc_pairs_step(ps: Seq<(ValueM, ValueM)>, c: bool, i: int)
    requires
        0 <= i < ps.len(),
    ensures
        enc_pairs(ps.skip(i), c) == enc_value(ps[i].0, c) + enc_value(ps[i].1, c) + enc_pairs(
            ps.skip(i + 1),
            c,
        ),
{
    assert(ps.skip(i)[0] == ps[i]);
    assert(ps.skip(i).skip(1) =~= ps.skip(i + 1));
}

/// A field list's encoding splits at any point.
pub proof fn lemma_enc_fields_split(fs: Seq<(Seq<char>, ValueM)>, c: bool, i: int)
    requires
        0 <= i <= fs.len(),
    ensures
        enc_fields(fs, c) == enc_fields(fs.take(i), c) + enc_fields(fs.skip(i), c),
    decreases i,
{
    if i == 0 {
        assert(fs.take(0) =~= Seq::<(Seq<char>, ValueM)>::empty());
        assert(fs.skip(0) =~= fs);
        assert(enc_fields(fs, c) =~= enc_fields(fs.take(0), c) + enc_fields(fs.skip(0), c));
    } else {
        lemma_enc_fields_split(fs.skip(1), c, i - 1);
        assert(fs.skip(1).take(i - 1) =~= fs.take(i).skip(1));
        assert(fs.skip(1).skip(i - 1) =~= fs.skip(i));
        assert(fs.take(i)[0] == fs[0]);
        assert(enc_fields(fs.take(i), c) == enc_text(fs[0].0) + enc_value(fs[0].1, c) + enc_fields(
            fs.take(i).skip(1),
            c,
        ));
        assert(enc_fields(fs, c) =~= enc_fields(fs.take(i), c) + enc_fields(fs.skip(i), c));
    }
}

/// Dropping the fields before position `i` leaves the name and value at
/// `i` followed by the rest.
pub proof fn lemma_enc_fields_step(fs: Seq<(Seq<char>, ValueM)>, c: bool, i: int)
    requires
        0 <= i < fs.len(),
    ensures
        enc_fields(fs.skip(i), c) == enc_text(fs[i].0) + enc_value(fs[i].1, c) + enc_fields(
            fs.skip(i + 1),
            c,
        ),
{
    assert(fs.skip(i)[0] == fs[i]);
    assert(fs.skip(i).skip(1) =~= fs.skip(i + 1));
}

} // verus!


verus! {

/// A struct's fields, framed as generic map entries, encode to exactly the
/// bytes of its named-field framing: each name is itself length-prefixed
/// text.
pub proof fn lemma_fields_pairs_enc(fs: Seq<(String, Value)>, c: bool)
    ensures
        enc_pairs(Value::view_fields_pairs(fs), c) == enc_fields(Value::view_fields(fs), c),
    decreases fs.len(),
{
    if fs.len() == 0 {
    } else {
        lemma_fields_pairs_enc(fs.skip(1), c);
        let pv = Value::view_fields_pairs(fs);
        let fv = Value::view_fields(fs);
        assert(pv[0] == (ValueM::Text(fs[0].0@), fs[0].1@));
        assert(pv.skip(1) =~= Value::view_fields_pairs(fs.skip(1)));
        assert(fv[0] == (fs[0].0@, fs[0].1@));
        assert(fv.skip(1) =~= Value::view_fields(fs.skip(1)));
        assert(enc_value(ValueM::Text(fs[0].0@), c) == enc_text(fs[0].0@));
        assert(enc_pairs(pv, c) =~= enc_fields(fv, c));
    }
}

} // verus!

verus! {

/// True when a tag names a signed integer shape.
pub open spec fn is_sint_tag(t: Tag) -> bool {
    t == Tag::I8 || t == Tag::I16 || t == Tag::I32 || t == Tag::I64 || t == Tag::I128
}

/// True when a tag names an unsigned integer shape.
pub open spec fn is_uint_tag(t: Tag) -> bool {
    t == Tag::U8 || t == Tag::U16 || t == Tag::U32 || t == Tag::U64 || t == Tag::U128
}

/// The signed value carried by a signed-integer shape, widened into the
/// mirror at the width the tag names.
pub open spec fn sint_value(t: Tag, v: int) -> ValueM {
    if t == Tag::I8 {
        ValueM::I8(v as i8)
    } else if t == Tag::I16 {
        ValueM::I16(v as i16)
    } else if t == Tag::I32 {
        ValueM::I32(v as i32)
    } else if t == Tag::I64 {
        ValueM::I64(v as i64)
    } else {
        ValueM::I128(v as i128)
    }
}

/// The unsigned value carried by an unsigned-integer shape at the width
/// the tag names.
pub open spec fn uint_value(t: Tag, v: nat) -> ValueM {
    if t == Tag::U8 {
        ValueM::U8(v as u8)
    } else if t == Tag::U16 {
        ValueM::U16(v as u16)
    } else if t == Tag::U32 {
        ValueM::U32(v as u32)
    } else if t == Tag::U64 {
        ValueM::U64(v as u64)
    } else {
        ValueM::U128(v as u128)
    }
}

/// The schema-free decoder: reads one self-described value from the front
/// of the input and yields it with the number of bytes consumed, or
/// nothing when the input does not start with a well-formed value.
///
/// The shapes that carry no self-contained length — the tuple and struct
/// enum cases, whose arity travels out of band — cannot be read without a
/// schema and always yield nothing here.
pub open spec fn dec_any(s: Seq<u8>) -> Option<(ValueM, nat)>
    decreases s.len(), 3nat, 0nat,
{
    if s.len() == 0 {
        None
    } else {
        match Tag::spec_from_byte(s[0]) {
            None => None,
            Some(t) => {
                if t == Tag::Absent {
                    Some((ValueM::Absent, 1))
                } else if t == Tag::Present {
                    match dec_any(s.skip(1)) {
                        Some((v, n)) => Some((ValueM::Present(Box::new(v)), 1 + n)),
                        None => None,
                    }
                } else if t == Tag::BoolFalse {
                    Some((ValueM::Bool(false), 1))
                } else if t == Tag::BoolTrue {
                    Some((ValueM::Bool(true), 1))
                } else if is_sint_tag(t) {
                    let w = uint_width(t);
                    if s.len() >= 1 + w {
                        Some(
                            (
                                sint_value(t, to_signed(from_be(s.subrange(1, 1 + w as int)), w)),
                                (1 + w) as nat,
                            ),
                        )
                    } else {
                        None
                    }
                } else if is_uint_tag(t) {
                    let w = uint_width(t);
                    if s.len() >= 1 + w {
                        Some((uint_value(t, from_be(s.subrange(1, 1 + w as int))), (1 + w) as nat))
                    } else {
                        None
                    }
                } else if t == Tag::F32 {
                    if s.len() >= 5 {
                        Some((ValueM::F32Bits(from_be(s.subrange(1, 5)) as u32), 5))
                    } else {
                        None
                    }
                } else if t == Tag::F64 {
                    if s.len() >= 9 {
                        Some((ValueM::F64Bits(from_be(s.subrange(1, 9)) as u64), 9))
                    } else {
                        None
                    }
                } else if t == Tag::Char1 || t == Tag::Char2 || t == Tag::Char3 || t == Tag::Char4 {
                    let w: nat = if t == Tag::Char1 {
                        1
                    } else if t == Tag::Char2 {
                        2
                    } else if t == Tag::Char3 {
                        3
                    } else {
                        4
                    };
                    if s.len() >= 1 + w {
                        let bytes = s.subrange(1, 1 + w as int);
                        if valid_first_scalar(bytes) && length_of_first_scalar(bytes) == w {
                            Some((ValueM::Char(decode_first_scalar(bytes) as char), (1 + w) as nat))
                        } else {
                            None
                        }
                    } else {
                        None
                    }
                } else if t == Tag::Str {
                    match dec_uint(s.skip(1), 8) {
                        Some((len, used)) => {
                            if len <= usize::MAX && 1 + used + len <= s.len() {
                                let bytes = s.subrange(1 + used as int, 1 + used as int + len as int);
                                if valid_utf8(bytes) {
                                    Some((ValueM::Text(decode_utf8(bytes)), (1 + used + len) as nat))
                                } else {
                                    None
                                }
                            } else {
                                None
                            }
                        },
                        None => None,
                    }
                } else if t == Tag::MarkerTerminatedStr {
                    match crate::read::find_marker(s.skip(1)) {
                        Some(i) => {
                            let bytes = s.subrange(1, 1 + i as int);
                            if valid_utf8(bytes) {
                                Some((ValueM::Text(decode_utf8(bytes)), (1 + i + 2) as nat))
                            } else {
                                None
                            }
                        },
                        None => None,
                    }
                } else if t == Tag::Bytes {
                    match dec_uint(s.skip(1), 8) {
                        Some((len, used)) => {
                            if len <= usize::MAX && 1 + used + len <= s.len() {
                                Some(
                                    (
                                        ValueM::Bytes(s.subrange(1 + used as int, 1 + used as int + len as int)),
                                        (1 + used + len) as nat,
                                    ),
                                )
                            } else {
                                None
                            }
                        },
                        None => None,
                    }
                } else if t == Tag::Unit || t == Tag::UnitStruct {
                    Some((ValueM::Unit, 1))
                } else if t == Tag::NewTypeStruct {
                    match dec_any(s.skip(1)) {
                        Some((v, n)) => Some((ValueM::NewTypeStruct(Box::new(v)), 1 + n)),
                        None => None,
                    }
                } else if t == Tag::SizedSeq || t == Tag::Tuple || t == Tag::TupleStruct {
                    match dec_uint(s.skip(1), 8) {
                        Some((len, used)) => {
                            if len <= usize::MAX && used >= 1 && 1 + used <= s.len() {
                                match dec_list_sized(s.skip(1 + used as int), len) {
                                    Some((vs, m)) => Some((ValueM::SizedSeq(vs), 1 + used + m)),
                                    None => None,
                                }
                            } else {
                                None
                            }
                        },
                        None => None,
                    }
                } else if t == Tag::UnsizedSeq {
                    match dec_list_unsized(s.skip(1)) {
                        Some((vs, m)) => Some((ValueM::UnsizedSeq(vs), 1 + m)),
                        None => None,
                    }
                } else if t == Tag::SizedMap || t == Tag::Struct {
                    match dec_uint(s.skip(1), 8) {
                        Some((len, used)) => {
                            if len <= usize::MAX && used >= 1 && 1 + used <= s.len() {
                                match dec_pairs_sized(s.skip(1 + used as int), len) {
                                    Some((ps, m)) => Some((ValueM::SizedMap(ps), 1 + used + m)),
                                    None => None,
                                }
                            } else {
                                None
                            }
                        },
                        None => None,
                    }
                } else if t == Tag::UnsizedMap {
                    match dec_pairs_unsized(s.skip(1)) {
                        Some((ps, m)) => Some((ValueM::UnsizedMap(ps), 1 + m)),
                        None => None,
                    }
                } else if t == Tag::UnitVariant {
                    match dec_uint(s.skip(1), 4) {
                        Some((idx, used)) => Some((ValueM::UnitVariant(idx as u32), 1 + used)),
                        None => None,
                    }
                } else if t == Tag::NewTypeVariant {
                    match dec_uint(s.skip(1), 4) {
                        Some((idx, used)) => {
                            if used >= 1 && 1 + used <= s.len() {
                                match dec_any(s.skip(1 + used as int)) {
                                    Some((v, n)) => Some(
                                        (
                                            ValueM::NewTypeVariant(idx as u32, Box::new(v)),
                                            1 + used + n,
                                        ),
                                    ),
                                    None => None,
                                }
                            } else {
                                None
                            }
                        },
                        None => None,
                    }
                } else {
                    None
                }
            },
        }
    }
}

/// Reads exactly `n` self-described values in a row.
pub open spec fn dec_list_sized(s: Seq<u8>, n: nat) -> Option<(Seq<ValueM>, nat)>
    decreases s.len(), 4nat, n,
{
    if n == 0 {
        Some((Seq::empty(), 0))
    } else {
        match dec_any(s) {
            Some((v, k)) => {
                if 1 <= k <= s.len() {
                    match dec_list_sized(s.skip(k as int), (n - 1) as nat) {
                        Some((vs, m)) => Some((seq![v] + vs, k + m)),
                        None => None,
                    }
                } else {
                    None
                }
            },
            None => None,
        }
    }
}

/// Reads self-described values until the end-marker tag, which it
/// consumes.
pub open spec fn dec_list_unsized(s: Seq<u8>) -> Option<(Seq<ValueM>, nat)>
    decreases s.len(), 4nat, 0nat,
{
    if s.len() == 0 {
        None
    } else if s[0] == Tag::UnsizedSeqEnd.spec_byte() {
        Some((Seq::empty(), 1))
    } else {
        match dec_any(s) {
            Some((v, k)) => {
                if 1 <= k <= s.len() {
                    match dec_list_unsized(s.skip(k as int)) {
                        Some((vs, m)) => Some((seq![v] + vs, k + m)),
                        None => None,
                    }
                } else {
                    None
                }
            },
            None => None,
        }
    }
}

/// Reads exactly `n` key/value entry pairs in a row.
pub open spec fn dec_pairs_sized(s: Seq<u8>, n: nat) -> Option<(Seq<(ValueM, ValueM)>, nat)>
    decreases s.len(), 4nat, n,
{
    if n == 0 {
        Some((Seq::empty(), 0))
    } else {
        match dec_any(s) {
            Some((kv, ku)) => {
                if 1 <= ku <= s.len() {
                    match dec_any(s.skip(ku as int)) {
                        Some((vv, vu)) => {
                            if 1 <= vu && ku + vu <= s.len() {
                                match dec_pairs_sized(s.skip((ku + vu) as int), (n - 1) as nat) {
                                    Some((ps, m)) => Some((seq![(kv, vv)] + ps, ku + vu + m)),
                                    None => None,
                                }
                            } else {
                                None
                            }
                        },
                        None => None,
                    }
                } else {
                    None
                }
            },
            None => None,
        }
    }
}

/// Reads key/value entry pairs until the end-marker tag, which it
/// consumes.
pub open spec fn dec_pairs_unsized(s: Seq<u8>) -> Option<(Seq<(ValueM, ValueM)>, nat)>
    decreases s.len(), 4nat, 0nat,
{
    if s.len() == 0 {
        None
    } else if s[0] == Tag::UnsizedSeqEnd.spec_byte() {
        Some((Seq::empty(), 1))
    } else {
        match dec_any(s) {
            Some((kv, ku)) => {
                if 1 <= ku <= s.len() {
                    match dec_any(s.skip(ku as int)) {
                        Some((vv, vu)) => {
                            if 1 <= vu && ku + vu <= s.len() {
                                match dec_pairs_unsized(s.skip((ku + vu) as int)) {
                                    Some((ps, m)) => Some((seq![(kv, vv)] + ps, ku + vu + m)),
                                    None => None,
                                }
                            } else {
                                None
                            }
                        },
                        None => None,
                    }
                } else {
                    None
                }
            },
            None => None,
        }
    }
}

} // verus!

verus! {

/// The shape that the schema-free decoder reports for an encoded value:
/// tuples and named tuples come back as sized sequences, a unit struct as
/// plain unit, and a named aggregate as a sized map whose keys are the
/// field names as text.  Everything else keeps its shape.
pub open spec fn norm(m: ValueM) -> ValueM
    decreases m, 0nat, 0nat,
{
    match m {
        ValueM::Present(b) => ValueM::Present(Box::new(norm(*b))),
        ValueM::NewTypeStruct(b) => ValueM::NewTypeStruct(Box::new(norm(*b))),
        ValueM::UnitStruct => ValueM::Unit,
        ValueM::SizedSeq(es) => ValueM::SizedSeq(norm_list(es)),
        ValueM::UnsizedSeq(es) => ValueM::UnsizedSeq(norm_list(es)),
        ValueM::Tuple(es) => ValueM::SizedSeq(norm_list(es)),
        ValueM::TupleStruct(es) => ValueM::SizedSeq(norm_list(es)),
        ValueM::SizedMap(ps) => ValueM::SizedMap(norm_pairs(ps)),
        ValueM::UnsizedMap(ps) => ValueM::UnsizedMap(norm_pairs(ps)),
        ValueM::Struct(fs) => ValueM::SizedMap(norm_fields(fs)),
        ValueM::NewTypeVariant(i, b) => ValueM::NewTypeVariant(i, Box::new(norm(*b))),
        ValueM::TupleVariant(i, es) => ValueM::TupleVariant(i, norm_list(es)),
        ValueM::StructVariant(i, ps) => ValueM::StructVariant(i, norm_pairs(ps)),
        other => other,
    }
}

/// The decoder's shape for each element of a run.
pub open spec fn norm_list(es: Seq<ValueM>) -> Seq<ValueM>
    decreases es, 1nat, es.len(),
{
    if es.len() == 0 {
        Seq::empty()
    } else {
        seq![norm(es[0])] + norm_list(es.skip(1))
    }
}

/// The decoder's shape for each entry of a run.
pub open spec fn norm_pairs(ps: Seq<(ValueM, ValueM)>) -> Seq<(ValueM, ValueM)>
    decreases ps, 1nat, ps.len(),
{
    if ps.len() == 0 {
        Seq::empty()
    } else {
        seq![(norm(ps[0].0), norm(ps[0].1))] + norm_pairs(ps.skip(1))
    }
}

/// The decoder's shape for named fields: each name becomes a text key.
pub open spec fn norm_fields(fs: Seq<(Seq<char>, ValueM)>) -> Seq<(ValueM, ValueM)>
    decreases fs, 1nat, fs.len(),
{
    if fs.len() == 0 {
        Seq::empty()
    } else {
        seq![(ValueM::Text(fs[0].0), norm(fs[0].1))] + norm_fields(fs.skip(1))
    }
}

/// Well-formedness of a mirror value: every piece of text, byte string
/// and collection is small enough to carry its length on the wire and to
/// exist on the host.
pub open spec fn wf(m: ValueM) -> bool
    decreases m, 0nat, 0nat,
{
    match m {
        ValueM::Present(b) => wf(*b),
        ValueM::NewTypeStruct(b) => wf(*b),
        ValueM::NewTypeVariant(_, b) => wf(*b),
        ValueM::Text(t) => encode_utf8(t).len() <= usize::MAX,
        ValueM::Bytes(bs) => bs.len() <= usize::MAX,
        ValueM::SizedSeq(es) => es.len() <= usize::MAX && wf_list(es),
        ValueM::UnsizedSeq(es) => wf_list(es),
        ValueM::Tuple(es) => es.len() <= usize::MAX && wf_list(es),
        ValueM::TupleStruct(es) => es.len() <= usize::MAX && wf_list(es),
        ValueM::TupleVariant(_, es) => wf_list(es),
        ValueM::SizedMap(ps) => ps.len() <= usize::MAX && wf_pairs(ps),
        ValueM::UnsizedMap(ps) => wf_pairs(ps),
        ValueM::StructVariant(_, ps) => wf_pairs(ps),
        ValueM::Struct(fs) => fs.len() <= usize::MAX && wf_fields(fs),
        _ => true,
    }
}

/// Well-formedness of every element of a run.
pub open spec fn wf_list(es: Seq<ValueM>) -> bool
    decreases es, 1nat, es.len(),
{
    if es.len() == 0 {
        true
    } else {
        wf(es[0]) && wf_list(es.skip(1))
    }
}

/// Well-formedness of every entry of a run.
pub open spec fn wf_pairs(ps: Seq<(ValueM, ValueM)>) -> bool
    decreases ps, 1nat, ps.len(),
{
    if ps.len() == 0 {
        true
    } else {
        wf(ps[0].0) && wf(ps[0].1) && wf_pairs(ps.skip(1))
    }
}

/// Well-formedness of every named field of a run.
pub open spec fn wf_fields(fs: Seq<(Seq<char>, ValueM)>) -> bool
    decreases fs, 1nat, fs.len(),
{
    if fs.len() == 0 {
        true
    } else {
        encode_utf8(fs[0].0).len() <= usize::MAX && wf(fs[0].1) && wf_fields(fs.skip(1))
    }
}

/// True when no tuple or struct enum case occurs anywhere in the value:
/// those two shapes need their arity from outside the wire, so only a
/// value free of them can be read back without a schema.
pub open spec fn schema_free(m: ValueM) -> bool
    decreases m, 0nat, 0nat,
{
    match m {
        ValueM::Present(b) => schema_free(*b),
        ValueM::NewTypeStruct(b) => schema_free(*b),
        ValueM::NewTypeVariant(_, b) => schema_free(*b),
        ValueM::SizedSeq(es) => schema_free_list(es),
        ValueM::UnsizedSeq(es) => schema_free_list(es),
        ValueM::Tuple(es) => schema_free_list(es),
        ValueM::TupleStruct(es) => schema_free_list(es),
        ValueM::SizedMap(ps) => schema_free_pairs(ps),
        ValueM::UnsizedMap(ps) => schema_free_pairs(ps),
        ValueM::Struct(fs) => schema_free_fields(fs),
        ValueM::TupleVariant(_, _) => false,
        ValueM::StructVariant(_, _) => false,
        _ => true,
    }
}

/// No tuple or struct enum case among a run of elements.
pub open spec fn schema_free_list(es: Seq<ValueM>) -> bool
    decreases es, 1nat, es.len(),
{
    if es.len() == 0 {
        true
    } else {
        schema_free(es[0]) && schema_free_list(es.skip(1))
    }
}

/// No tuple or struct enum case among a run of entries.
pub open spec fn schema_free_pairs(ps: Seq<(ValueM, ValueM)>) -> bool
    decreases ps, 1nat, ps.len(),
{
    if ps.len() == 0 {
        true
    } else {
        schema_free(ps[0].0) && schema_free(ps[0].1) && schema_free_pairs(ps.skip(1))
    }
}

/// No tuple or struct enum case among a run of named fields.
pub open spec fn schema_free_fields(fs: Seq<(Seq<char>, ValueM)>) -> bool
    decreases fs, 1nat, fs.len(),
{
    if fs.len() == 0 {
        true
    } else {
        schema_free(fs[0].1) && schema_free_fields(fs.skip(1))
    }
}

} // verus!

verus! {

/// Whatever the schema-free decoder reads consumes at least the tag byte
/// and never more than the input.
pub proof fn lemma_dec_any_bounds(s: Seq<u8>)
    ensures
        dec_any(s) matches Some((v, n)) ==> 1 <= n <= s.len(),
    decreases s.len(), 3nat, 0nat,
{
    if s.len() == 0 {
    } else {
        match Tag::spec_from_byte(s[0]) {
            None => {},
            Some(t) => {
                if t == Tag::Present || t == Tag::NewTypeStruct {
                    lemma_dec_any_bounds(s.skip(1));
                } else if t == Tag::SizedSeq || t == Tag::Tuple || t == Tag::TupleStruct {
                    match dec_uint(s.skip(1), 8) {
                        Some((len, used)) => {
                            if len <= usize::MAX && used >= 1 && 1 + used <= s.len() {
                                lemma_dec_list_sized_bounds(s.skip(1 + used as int), len);
                            }
                        },
                        None => {},
                    }
                } else if t == Tag::UnsizedSeq {
                    lemma_dec_list_unsized_bounds(s.skip(1));
                } else if t == Tag::SizedMap || t == Tag::Struct {
                    match dec_uint(s.skip(1), 8) {
                        Some((len, used)) => {
                            if len <= usize::MAX && used >= 1 && 1 + used <= s.len() {
                                lemma_dec_pairs_sized_bounds(s.skip(1 + used as int), len);
                            }
                        },
                        None => {},
                    }
                } else if t == Tag::UnsizedMap {
                    lemma_dec_pairs_unsized_bounds(s.skip(1));
                } else if t == Tag::NewTypeVariant {
                    match dec_uint(s.skip(1), 4) {
                        Some((idx, used)) => {
                            if used >= 1 && 1 + used <= s.len() {
                                lemma_dec_any_bounds(s.skip(1 + used as int));
                            }
                        },
                        None => {},
                    }
                } else if t == Tag::Str || t == Tag::Bytes {
                    lemma_dec_uint_bounds(s.skip(1), 8);
                } else if t == Tag::UnitVariant {
                    lemma_dec_uint_bounds(s.skip(1), 4);
                } else if t == Tag::MarkerTerminatedStr {
                    crate::read::lemma_find_marker(s.skip(1));
                }
            },
        }
    }
}

/// The integer decoder consumes at least two bytes and never more than
/// the input.
pub proof fn lemma_dec_uint_bounds(s: Seq<u8>, n: nat)
    ensures
        dec_uint(s, n) matches Some((v, used)) ==> 2 <= used <= s.len(),
{
}

/// Reading a known number of values consumes no more than the input.
pub proof fn lemma_dec_list_sized_bounds(s: Seq<u8>, n: nat)
    ensures
        dec_list_sized(s, n) matches Some((vs, m)) ==> m <= s.len() && vs.len() == n,
    decreases s.len(), 4nat, n,
{
    if n == 0 {
    } else {
        match dec_any(s) {
            Some((v, k)) => {
                if 1 <= k <= s.len() {
                    lemma_dec_list_sized_bounds(s.skip(k as int), (n - 1) as nat);
                }
            },
            None => {},
        }
    }
}

/// Reading values up to the end marker consumes at least the marker and
/// never more than the input.
pub proof fn lemma_dec_list_unsized_bounds(s: Seq<u8>)
    ensures
        dec_list_unsized(s) matches Some((vs, m)) ==> 1 <= m <= s.len(),
    decreases s.len(), 4nat, 0nat,
{
    if s.len() == 0 {
    } else if s[0] == Tag::UnsizedSeqEnd.spec_byte() {
    } else {
        match dec_any(s) {
            Some((v, k)) => {
                if 1 <= k <= s.len() {
                    lemma_dec_list_unsized_bounds(s.skip(k as int));
                }
            },
            None => {},
        }
    }
}

/// Reading a known number of entries consumes no more than the input.
pub proof fn lemma_dec_pairs_sized_bounds(s: Seq<u8>, n: nat)
    ensures
        dec_pairs_sized(s, n) matches Some((ps, m)) ==> m <= s.len() && ps.len() == n,
    decreases s.len(), 4nat, n,
{
    if n == 0 {
    } else {
        match dec_any(s) {
            Some((kv, ku)) => {
                if 1 <= ku <= s.len() {
                    match dec_any(s.skip(ku as int)) {
                        Some((vv, vu)) => {
                            if 1 <= vu && ku + vu <= s.len() {
                                lemma_dec_pairs_sized_bounds(
                                    s.skip((ku + vu) as int),
                                    (n - 1) as nat,
                                );
                            }
                        },
                        None => {},
                    }
                }
            },
            None => {},
        }
    }
}

/// Reading entries up to the end marker consumes at least the marker and
/// never more than the input.
pub proof fn lemma_dec_pairs_unsized_bounds(s: Seq<u8>)
    ensures
        dec_pairs_unsized(s) matches Some((ps, m)) ==> 1 <= m <= s.len(),
    decreases s.len(), 4nat, 0nat,
{
    if s.len() == 0 {
    } else if s[0] == Tag::UnsizedSeqEnd.spec_byte() {
    } else {
        match dec_any(s) {
            Some((kv, ku)) => {
                if 1 <= ku <= s.len() {
                    match dec_any(s.skip(ku as int)) {
                        Some((vv, vu)) => {
                            if 1 <= vu && ku + vu <= s.len() {
                                lemma_dec_pairs_unsized_bounds(s.skip((ku + vu) as int));
                            }
                        },
                        None => {},
                    }
                }
            },
            None => {},
        }
    }
}

/// Appending one element to a run extends its mirror by that element's
/// mirror.
pub proof fn lemma_view_list_push(es: Seq<Value>, e: Value)
    ensures
        Value::view_list(es.push(e)) == Value::view_list(es) + seq![e@],
{
    lemma_view_list(es);
    lemma_view_list(es.push(e));
    assert(Value::view_list(es.push(e)) =~= Value::view_list(es) + seq![e@]);
}

/// Appending one entry to a run extends its mirror by that entry's
/// mirror.
pub proof fn lemma_view_pairs_push(ps: Seq<(Value, Value)>, k: Value, v: Value)
    ensures
        Value::view_pairs(ps.push((k, v))) == Value::view_pairs(ps) + seq![(k@, v@)],
{
    lemma_view_pairs(ps);
    lemma_view_pairs(ps.push((k, v)));
    assert(Value::view_pairs(ps.push((k, v))) =~= Value::view_pairs(ps) + seq![(k@, v@)]);
}

} // verus!

verus! {

/// The mathematical signed value carried by a signed-integer shape.
pub open spec fn sint_val(m: ValueM) -> Option<int> {
    match m {
        ValueM::I8(v) => Some(v as int),
        ValueM::I16(v) => Some(v as int),
        ValueM::I32(v) => Some(v as int),
        ValueM::I64(v) => Some(v as int),
        ValueM::I128(v) => Some(v as int),
        _ => None,
    }
}

/// The mathematical unsigned value carried by an unsigned-integer shape.
pub open spec fn uint_val(m: ValueM) -> Option<nat> {
    match m {
        ValueM::U8(v) => Some(v as nat),
        ValueM::U16(v) => Some(v as nat),
        ValueM::U32(v) => Some(v as nat),
        ValueM::U64(v) => Some(v as nat),
        ValueM::U128(v) => Some(v as nat),
        _ => None,
    }
}

/// Equality of values as the codec understands them: integers of one
/// signedness compare by their mathematical value whatever their width,
/// unit and unit struct are one, the tuple shapes equal a sized sequence
/// of the same elements, and a named aggregate equals the sized map that
/// carries its field names as text keys in order.  Everything else
/// compares structurally, children under this same relation.
pub open spec fn val_eq(a: ValueM, b: ValueM) -> bool
    decreases a, 0nat, 0nat,
{
    if sint_val(a) is Some || sint_val(b) is Some {
        sint_val(a) is Some && sint_val(a) == sint_val(b)
    } else if uint_val(a) is Some || uint_val(b) is Some {
        uint_val(a) is Some && uint_val(a) == uint_val(b)
    } else {
        match a {
            ValueM::Absent => b is Absent,
            ValueM::Present(x) => b matches ValueM::Present(y) && val_eq(*x, *y),
            ValueM::Bool(x) => b matches ValueM::Bool(y) && x == y,
            ValueM::F32Bits(x) => b matches ValueM::F32Bits(y) && x == y,
            ValueM::F64Bits(x) => b matches ValueM::F64Bits(y) && x == y,
            ValueM::Char(x) => b matches ValueM::Char(y) && x == y,
            ValueM::Text(x) => b matches ValueM::Text(y) && x == y,
            ValueM::Bytes(x) => b matches ValueM::Bytes(y) && x == y,
            ValueM::Unit => b is Unit || b is UnitStruct,
            ValueM::UnitStruct => b is Unit || b is UnitStruct,
            ValueM::NewTypeStruct(x) => b matches ValueM::NewTypeStruct(y) && val_eq(*x, *y),
            ValueM::SizedSeq(xs) => match b {
                ValueM::SizedSeq(ys) => val_eq_list(xs, ys),
                ValueM::Tuple(ys) => val_eq_list(xs, ys),
                ValueM::TupleStruct(ys) => val_eq_list(xs, ys),
                _ => false,
            },
            ValueM::UnsizedSeq(xs) => b matches ValueM::UnsizedSeq(ys) && val_eq_list(xs, ys),
            ValueM::Tuple(xs) => match b {
                ValueM::Tuple(ys) => val_eq_list(xs, ys),
                ValueM::SizedSeq(ys) => val_eq_list(xs, ys),
                _ => false,
            },
            ValueM::TupleStruct(xs) => match b {
                ValueM::TupleStruct(ys) => val_eq_list(xs, ys),
                ValueM::SizedSeq(ys) => val_eq_list(xs, ys),
                _ => false,
            },
            ValueM::SizedMap(xs) => match b {
                ValueM::SizedMap(ys) => val_eq_pairs(xs, ys),
                ValueM::Struct(ys) => val_eq_map_fields(xs, ys),
                _ => false,
            },
            ValueM::UnsizedMap(xs) => b matches ValueM::UnsizedMap(ys) && val_eq_pairs(xs, ys),
            ValueM::Struct(xs) => match b {
                ValueM::Struct(ys) => val_eq_fields(xs, ys),
                ValueM::SizedMap(ys) => val_eq_fields_map(xs, ys),
                _ => false,
            },
            ValueM::UnitVariant(i) => b matches ValueM::UnitVariant(j) && i == j,
            ValueM::NewTypeVariant(i, x) => b matches ValueM::NewTypeVariant(j, y) && i == j
                && val_eq(*x, *y),
            ValueM::TupleVariant(i, xs) => b matches ValueM::TupleVariant(j, ys) && i == j
                && val_eq_list(xs, ys),
            ValueM::StructVariant(i, xs) => b matches ValueM::StructVariant(j, ys) && i == j
                && val_eq_pairs(xs, ys),
            _ => false,
        }
    }
}

/// Elementwise [`val_eq`] over two runs of the same length.
pub open spec fn val_eq_list(xs: Seq<ValueM>, ys: Seq<ValueM>) -> bool
    decreases xs, 1nat, xs.len(),
{
    if xs.len() != ys.len() {
        false
    } else if xs.len() == 0 {
        true
    } else {
        val_eq(xs[0], ys[0]) && val_eq_list(xs.skip(1), ys.skip(1))
    }
}

/// Entrywise [`val_eq`] over two runs of entries of the same length.
pub open spec fn val_eq_pairs(xs: Seq<(ValueM, ValueM)>, ys: Seq<(ValueM, ValueM)>) -> bool
    decreases xs, 1nat, xs.len(),
{
    if xs.len() != ys.len() {
        false
    } else if xs.len() == 0 {
        true
    } else {
        val_eq(xs[0].0, ys[0].0) && val_eq(xs[0].1, ys[0].1) && val_eq_pairs(
            xs.skip(1),
            ys.skip(1),
        )
    }
}

/// Fieldwise [`val_eq`] over two runs of named fields of the same length.
pub open spec fn val_eq_fields(
    xs: Seq<(Seq<char>, ValueM)>,
    ys: Seq<(Seq<char>, ValueM)>,
) -> bool
    decreases xs, 1nat, xs.len(),
{
    if xs.len() != ys.len() {
        false
    } else if xs.len() == 0 {
        true
    } else {
        xs[0].0 == ys[0].0 && val_eq(xs[0].1, ys[0].1) && val_eq_fields(xs.skip(1), ys.skip(1))
    }
}

/// A run of map entries against a run of named fields: each key must be
/// the field's name as text, each value equal under [`val_eq`], in order.
pub open spec fn val_eq_map_fields(
    xs: Seq<(ValueM, ValueM)>,
    ys: Seq<(Seq<char>, ValueM)>,
) -> bool
    decreases xs, 1nat, xs.len(),
{
    if xs.len() != ys.len() {
        false
    } else if xs.len() == 0 {
        true
    } else {
        xs[0].0 == ValueM::Text(ys[0].0) && val_eq(xs[0].1, ys[0].1) && val_eq_map_fields(
            xs.skip(1),
            ys.skip(1),
        )
    }
}

/// A run of named fields against a run of map entries: each key must be
/// the field's name as text, each value equal under [`val_eq`], in order.
pub open spec fn val_eq_fields_map(
    xs: Seq<(Seq<char>, ValueM)>,
    ys: Seq<(ValueM, ValueM)>,
) -> bool
    decreases xs, 1nat, xs.len(),
{
    if xs.len() != ys.len() {
        false
    } else if xs.len() == 0 {
        true
    } else {
        ys[0].0 == ValueM::Text(xs[0].0) && val_eq(xs[0].1, ys[0].1) && val_eq_fields_map(
            xs.skip(1),
            ys.skip(1),
        )
    }
}

} // verus!

verus! {

impl Value {
    /// The mathematical value of a signed integer shape, if this is one.
    fn as_sint(&self) -> (r: Option<i128>)
        ensures
            match r {
                Some(v) => sint_val(self@) == Some(v as int),
                None => sint_val(self@) is None,
            },
    {
        match self {
            Value::I8(v) => Some(*v as i128),
            Value::I16(v) => Some(*v as i128),
            Value::I32(v) => Some(*v as i128),
            Value::I64(v) => Some(*v as i128),
            Value::I128(v) => Some(*v),
            _ => None,
        }
    }

    /// The mathematical value of an unsigned integer shape, if this is
    /// one.
    fn as_uint(&self) -> (r: Option<u128>)
        ensures
            match r {
                Some(v) => uint_val(self@) == Some(v as nat),
                None => uint_val(self@) is None,
            },
    {
        match self {
            Value::U8(v) => Some(*v as u128),
            Value::U16(v) => Some(*v as u128),
            Value::U32(v) => Some(*v as u128),
            Value::U64(v) => Some(*v as u128),
            Value::U128(v) => Some(*v),
            _ => None,
        }
    }

    /// Equality as the codec understands it: integers of one signedness
    /// by mathematical value whatever their width, unit and unit struct
    /// as one, tuple shapes against a sized sequence of the same
    /// elements, and a named aggregate against the sized map that carries
    /// its field names as text keys.
    pub fn loose_eq(&self, other: &Value) -> (r: bool)
        ensures
            r == val_eq(self@, other@),
        decreases self, 1nat,
    {
        let my_sint = self.as_sint();
        let other_sint = other.as_sint();
        if my_sint.is_some() || other_sint.is_some() {
            return match (my_sint, other_sint) {
                (Some(a), Some(b)) => a == b,
                _ => false,
            };
        }
        let my_uint = self.as_uint();
        let other_uint = other.as_uint();
        if my_uint.is_some() || other_uint.is_some() {
            return match (my_uint, other_uint) {
                (Some(a), Some(b)) => a == b,
                _ => false,
            };
        }
        match self {
            Value::Absent | Value::Bool(_) | Value::F32Bits(_) | Value::F64Bits(_)
                | Value::Char(_) | Value::Text(_) | Value::Bytes(_) | Value::Unit
                | Value::UnitStruct | Value::UnitVariant(_) => self.loose_eq_atom(other),
            Value::Present(_) | Value::NewTypeStruct(_) | Value::NewTypeVariant(_, _) => self
                .loose_eq_wrap(other),
            _ => self.loose_eq_container(other),
        }
    }

    /// Loose equality of the shapes without children.
    #[verifier::rlimit(100)]
    #[verifier::spinoff_prover]
    fn loose_eq_atom(&self, other: &Value) -> (r: bool)
        requires
            self is Absent || self is Bool || self is F32Bits || self is F64Bits || self is Char
                || self is Text || self is Bytes || self is Unit || self is UnitStruct
                || self is UnitVariant,
            uint_val(other@) is None,
            sint_val(other@) is None,
        ensures
            r == val_eq(self@, other@),
        decreases self, 0nat,
    {
        match (self, other) {
            (Value::Absent, Value::Absent) => true,
            (Value::Bool(x), Value::Bool(y)) => x == y,
            (Value::F32Bits(x), Value::F32Bits(y)) => x == y,
            (Value::F64Bits(x), Value::F64Bits(y)) => x == y,
            (Value::Char(x), Value::Char(y)) => x == y,
            (Value::Text(x), Value::Text(y)) => *x == *y,
            (Value::Bytes(x), Value::Bytes(y)) => bytes_eq(x, y),
            (Value::Unit, Value::Unit) => true,
            (Value::Unit, Value::UnitStruct) => true,
            (Value::UnitStruct, Value::Unit) => true,
            (Value::UnitStruct, Value::UnitStruct) => true,
            (Value::UnitVariant(i), Value::UnitVariant(j)) => i == j,
            _ => false,
        }
    }

    /// Loose equality of the one-child wrappers.
    fn loose_eq_wrap(&self, other: &Value) -> (r: bool)
        requires
            self is Present || self is NewTypeStruct || self is NewTypeVariant,
        ensures
            r == val_eq(self@, other@),
        decreases self, 0nat,
    {
        match (self, other) {
            (Value::Present(x), Value::Present(y)) => x.loose_eq(&**y),
            (Value::NewTypeStruct(x), Value::NewTypeStruct(y)) => x.loose_eq(&**y),
            (Value::NewTypeVariant(i, x), Value::NewTypeVariant(j, y)) => i == j && x.loose_eq(
                &**y,
            ),
            _ => false,
        }
    }

    /// Loose equality of the collection shapes and the arity-bearing enum
    /// cases.
    fn loose_eq_container(&self, other: &Value) -> (r: bool)
        requires
            self is SizedSeq || self is UnsizedSeq || self is Tuple || self is TupleStruct
                || self is SizedMap || self is UnsizedMap || self is Struct
                || self is TupleVariant || self is StructVariant,
            uint_val(other@) is None,
            sint_val(other@) is None,
        ensures
            r == val_eq(self@, other@),
        decreases self, 0nat,
    {
        match (self, other) {
            (Value::SizedSeq(xs), Value::SizedSeq(ys)) => loose_eq_list(xs, ys),
            (Value::SizedSeq(xs), Value::Tuple(ys)) => loose_eq_list(xs, ys),
            (Value::SizedSeq(xs), Value::TupleStruct(ys)) => loose_eq_list(xs, ys),
            (Value::UnsizedSeq(xs), Value::UnsizedSeq(ys)) => loose_eq_list(xs, ys),
            (Value::Tuple(xs), Value::Tuple(ys)) => loose_eq_list(xs, ys),
            (Value::Tuple(xs), Value::SizedSeq(ys)) => loose_eq_list(xs, ys),
            (Value::TupleStruct(xs), Value::TupleStruct(ys)) => loose_eq_list(xs, ys),
            (Value::TupleStruct(xs), Value::SizedSeq(ys)) => loose_eq_list(xs, ys),
            (Value::SizedMap(xs), Value::SizedMap(ys)) => loose_eq_pairs(xs, ys),
            (Value::SizedMap(xs), Value::Struct(ys)) => loose_eq_map_fields(xs, ys),
            (Value::UnsizedMap(xs), Value::UnsizedMap(ys)) => loose_eq_pairs(xs, ys),
            (Value::Struct(xs), Value::Struct(ys)) => loose_eq_fields(xs, ys),
            (Value::Struct(xs), Value::SizedMap(ys)) => loose_eq_fields_map(xs, ys),
            (Value::TupleVariant(i, xs), Value::TupleVariant(j, ys)) => i == j && loose_eq_list(
                xs,
                ys,
            ),
            (Value::StructVariant(i, xs), Value::StructVariant(j, ys)) => i == j
                && loose_eq_named(xs, ys),
            _ => false,
        }
    }
}

/// Byte strings compare by contents.
fn bytes_eq(xs: &Vec<u8>, ys: &Vec<u8>) -> (r: bool)
    ensures
        r == (xs@ == ys@),
{
    if xs.len() != ys.len() {
        proof {
            assert(xs@ != ys@);
        }
        return false;
    }
    let n = xs.len();
    let mut i: usize = 0;
    while i < n
        invariant
            i <= n,
            n == xs@.len() == ys@.len(),
            forall|j: int| 0 <= j < i ==> xs@[j] == ys@[j],
        decreases n - i,
    {
        if xs[i] != ys[i] {
            return false;
        }
        i = i + 1;
    }
    proof {
        assert(xs@ =~= ys@);
    }
    true
}

/// Elementwise [`Value::loose_eq`] over two element runs.
fn loose_eq_list(xs: &Vec<Value>, ys: &Vec<Value>) -> (r: bool)
    ensures
        r == val_eq_list(Value::view_list(xs@), Value::view_list(ys@)),
    decreases xs, 2nat,
{
    let ghost vx = Value::view_list(xs@);
    let ghost vy = Value::view_list(ys@);
    proof {
        lemma_view_list(xs@);
        lemma_view_list(ys@);
    }
    if xs.len() != ys.len() {
        return false;
    }
    let n = xs.len();
    let mut i: usize = 0;
    proof {
        assert(vx.skip(0) =~= vx);
        assert(vy.skip(0) =~= vy);
    }
    while i < n
        invariant
            i <= n,
            n == xs@.len() == ys@.len(),
            vx == Value::view_list(xs@),
            vy == Value::view_list(ys@),
            vx.len() == n && vy.len() == n,
            forall|j: int| 0 <= j < n ==> #[trigger] vx[j] == xs@[j]@,
            forall|j: int| 0 <= j < n ==> #[trigger] vy[j] == ys@[j]@,
            val_eq_list(vx, vy) == val_eq_list(vx.skip(i as int), vy.skip(i as int)),
        decreases n - i,
    {
        if !xs[i].loose_eq(&ys[i]) {
            proof {
                assert(vx.skip(i as int)[0] == vx[i as int]);
                assert(vy.skip(i as int)[0] == vy[i as int]);
            }
            return false;
        }
        proof {
            assert(vx.skip(i as int)[0] == vx[i as int]);
            assert(vy.skip(i as int)[0] == vy[i as int]);
            assert(vx.skip(i as int).skip(1) =~= vx.skip(i + 1));
            assert(vy.skip(i as int).skip(1) =~= vy.skip(i + 1));
        }
        i = i + 1;
    }
    proof {
        assert(vx.skip(n as int) =~= Seq::<ValueM>::empty());
        assert(vy.skip(n as int) =~= Seq::<ValueM>::empty());
    }
    true
}

/// Entrywise [`Value::loose_eq`] over two entry runs.
fn loose_eq_pairs(xs: &Vec<(Value, Value)>, ys: &Vec<(Value, Value)>) -> (r: bool)
    ensures
        r == val_eq_pairs(Value::view_pairs(xs@), Value::view_pairs(ys@)),
    decreases xs, 2nat,
{
    let ghost vx = Value::view_pairs(xs@);
    let ghost vy = Value::view_pairs(ys@);
    proof {
        lemma_view_pairs(xs@);
        lemma_view_pairs(ys@);
    }
    if xs.len() != ys.len() {
        return false;
    }
    let n = xs.len();
    let mut i: usize = 0;
    proof {
        assert(vx.skip(0) =~= vx);
        assert(vy.skip(0) =~= vy);
    }
    while i < n
        invariant
            i <= n,
            n == xs@.len() == ys@.len(),
            vx == Value::view_pairs(xs@),
            vy == Value::view_pairs(ys@),
            vx.len() == n && vy.len() == n,
            forall|j: int| 0 <= j < n ==> #[trigger] vx[j] == (xs@[j].0@, xs@[j].1@),
            forall|j: int| 0 <= j < n ==> #[trigger] vy[j] == (ys@[j].0@, ys@[j].1@),
            val_eq_pairs(vx, vy) == val_eq_pairs(vx.skip(i as int), vy.skip(i as int)),
        decreases n - i,
    {
        let a = &xs[i];
        let b = &ys[i];
        if !(a.0.loose_eq(&b.0) && a.1.loose_eq(&b.1)) {
            proof {
                assert(vx.skip(i as int)[0] == vx[i as int]);
                assert(vy.skip(i as int)[0] == vy[i as int]);
            }
            return false;
        }
        proof {
            assert(vx.skip(i as int)[0] == vx[i as int]);
            assert(vy.skip(i as int)[0] == vy[i as int]);
            assert(vx.skip(i as int).skip(1) =~= vx.skip(i + 1));
            assert(vy.skip(i as int).skip(1) =~= vy.skip(i + 1));
        }
        i = i + 1;
    }
    proof {
        assert(vx.skip(n as int) =~= Seq::<(ValueM, ValueM)>::empty());
        assert(vy.skip(n as int) =~= Seq::<(ValueM, ValueM)>::empty());
    }
    true
}

/// Fieldwise [`Value::loose_eq`] over two named-field runs.
fn loose_eq_fields(xs: &Vec<(String, Value)>, ys: &Vec<(String, Value)>) -> (r: bool)
    ensures
        r == val_eq_fields(Value::view_fields(xs@), Value::view_fields(ys@)),
    decreases xs, 2nat,
{
    let ghost vx = Value::view_fields(xs@);
    let ghost vy = Value::view_fields(ys@);
    proof {
        lemma_view_fields(xs@);
        lemma_view_fields(ys@);
    }
    if xs.len() != ys.len() {
        return false;
    }
    let n = xs.len();
    let mut i: usize = 0;
    proof {
        assert(vx.skip(0) =~= vx);
        assert(vy.skip(0) =~= vy);
    }
    while i < n
        invariant
            i <= n,
            n == xs@.len() == ys@.len(),
            vx == Value::view_fields(xs@),
            vy == Value::view_fields(ys@),
            vx.len() == n && vy.len() == n,
            forall|j: int| 0 <= j < n ==> #[trigger] vx[j] == (xs@[j].0@, xs@[j].1@),
            forall|j: int| 0 <= j < n ==> #[trigger] vy[j] == (ys@[j].0@, ys@[j].1@),
            val_eq_fields(vx, vy) == val_eq_fields(vx.skip(i as int), vy.skip(i as int)),
        decreases n - i,
    {
        let a = &xs[i];
        let b = &ys[i];
        if !(a.0 == b.0 && a.1.loose_eq(&b.1)) {
            proof {
                assert(vx.skip(i as int)[0] == vx[i as int]);
                assert(vy.skip(i as int)[0] == vy[i as int]);
            }
            return false;
        }
        proof {
            assert(vx.skip(i as int)[0] == vx[i as int]);
            assert(vy.skip(i as int)[0] == vy[i as int]);
            assert(vx.skip(i as int).skip(1) =~= vx.skip(i + 1));
            assert(vy.skip(i as int).skip(1) =~= vy.skip(i + 1));
        }
        i = i + 1;
    }
    proof {
        assert(vx.skip(n as int) =~= Seq::<(Seq<char>, ValueM)>::empty());
        assert(vy.skip(n as int) =~= Seq::<(Seq<char>, ValueM)>::empty());
    }
    true
}

/// A run of map entries against a run of named fields, keys as text.
fn loose_eq_map_fields(xs: &Vec<(Value, Value)>, ys: &Vec<(String, Value)>) -> (r: bool)
    ensures
        r == val_eq_map_fields(Value::view_pairs(xs@), Value::view_fields(ys@)),
    decreases xs, 2nat,
{
    let ghost vx = Value::view_pairs(xs@);
    let ghost vy = Value::view_fields(ys@);
    proof {
        lemma_view_pairs(xs@);
        lemma_view_fields(ys@);
    }
    if xs.len() != ys.len() {
        return false;
    }
    let n = xs.len();
    let mut i: usize = 0;
    proof {
        assert(vx.skip(0) =~= vx);
        assert(vy.skip(0) =~= vy);
    }
    while i < n
        invariant
            i <= n,
            n == xs@.len() == ys@.len(),
            vx == Value::view_pairs(xs@),
            vy == Value::view_fields(ys@),
            vx.len() == n && vy.len() == n,
            forall|j: int| 0 <= j < n ==> #[trigger] vx[j] == (xs@[j].0@, xs@[j].1@),
            forall|j: int| 0 <= j < n ==> #[trigger] vy[j] == (ys@[j].0@, ys@[j].1@),
            val_eq_map_fields(vx, vy) == val_eq_map_fields(vx.skip(i as int), vy.skip(i as int)),
        decreases n - i,
    {
        let a = &xs[i];
        let b = &ys[i];
        let key_matches = match &a.0 {
            Value::Text(k) => *k == b.0,
            _ => false,
        };
        if !(key_matches && a.1.loose_eq(&b.1)) {
            proof {
                assert(vx.skip(i as int)[0] == vx[i as int]);
                assert(vy.skip(i as int)[0] == vy[i as int]);
            }
            return false;
        }
        proof {
            assert(vx.skip(i as int)[0] == vx[i as int]);
            assert(vy.skip(i as int)[0] == vy[i as int]);
            assert(vx.skip(i as int).skip(1) =~= vx.skip(i + 1));
            assert(vy.skip(i as int).skip(1) =~= vy.skip(i + 1));
        }
        i = i + 1;
    }
    proof {
        assert(vx.skip(n as int) =~= Seq::<(ValueM, ValueM)>::empty());
        assert(vy.skip(n as int) =~= Seq::<(Seq<char>, ValueM)>::empty());
    }
    true
}

/// Two named-field runs as generic entries: names as text keys, values
/// under [`Value::loose_eq`].
fn loose_eq_named(xs: &Vec<(String, Value)>, ys: &Vec<(String, Value)>) -> (r: bool)
    ensures
        r == val_eq_pairs(Value::view_fields_pairs(xs@), Value::view_fields_pairs(ys@)),
    decreases xs, 2nat,
{
    let ghost vx = Value::view_fields_pairs(xs@);
    let ghost vy = Value::view_fields_pairs(ys@);
    proof {
        lemma_view_fields(xs@);
        lemma_view_fields(ys@);
    }
    if xs.len() != ys.len() {
        return false;
    }
    let n = xs.len();
    let mut i: usize = 0;
    proof {
        assert(vx.skip(0) =~= vx);
        assert(vy.skip(0) =~= vy);
    }
    while i < n
        invariant
            i <= n,
            n == xs@.len() == ys@.len(),
            vx == Value::view_fields_pairs(xs@),
            vy == Value::view_fields_pairs(ys@),
            vx.len() == n && vy.len() == n,
            forall|j: int|
                0 <= j < n ==> #[trigger] vx[j] == (ValueM::Text(xs@[j].0@), xs@[j].1@),
            forall|j: int|
                0 <= j < n ==> #[trigger] vy[j] == (ValueM::Text(ys@[j].0@), ys@[j].1@),
            val_eq_pairs(vx, vy) == val_eq_pairs(vx.skip(i as int), vy.skip(i as int)),
        decreases n - i,
    {
        let a = &xs[i];
        let b = &ys[i];
        proof {
            assert(val_eq(ValueM::Text(a.0@), ValueM::Text(b.0@)) == (a.0@ == b.0@));
        }
        if !(a.0 == b.0 && a.1.loose_eq(&b.1)) {
            proof {
                assert(vx.skip(i as int)[0] == vx[i as int]);
                assert(vy.skip(i as int)[0] == vy[i as int]);
            }
            return false;
        }
        proof {
            assert(vx.skip(i as int)[0] == vx[i as int]);
            assert(vy.skip(i as int)[0] == vy[i as int]);
            assert(vx.skip(i as int).skip(1) =~= vx.skip(i + 1));
            assert(vy.skip(i as int).skip(1) =~= vy.skip(i + 1));
        }
        i = i + 1;
    }
    proof {
        assert(vx.skip(n as int) =~= Seq::<(ValueM, ValueM)>::empty());
        assert(vy.skip(n as int) =~= Seq::<(ValueM, ValueM)>::empty());
    }
    true
}

/// As [`loose_eq_map_fields`], fields on the left.
fn loose_eq_fields_map(xs: &Vec<(String, Value)>, ys: &Vec<(Value, Value)>) -> (r: bool)
    ensures
        r == val_eq_fields_map(Value::view_fields(xs@), Value::view_pairs(ys@)),
    decreases xs, 2nat,
{
    let ghost vx = Value::view_fields(xs@);
    let ghost vy = Value::view_pairs(ys@);
    proof {
        lemma_view_fields(xs@);
        lemma_view_pairs(ys@);
    }
    if xs.len() != ys.len() {
        return false;
    }
    let n = xs.len();
    let mut i: usize = 0;
    proof {
        assert(vx.skip(0) =~= vx);
        assert(vy.skip(0) =~= vy);
    }
    while i < n
        invariant
            i <= n,
            n == xs@.len() == ys@.len(),
            vx == Value::view_fields(xs@),
            vy == Value::view_pairs(ys@),
            vx.len() == n && vy.len() == n,
            forall|j: int| 0 <= j < n ==> #[trigger] vx[j] == (xs@[j].0@, xs@[j].1@),
            forall|j: int| 0 <= j < n ==> #[trigger] vy[j] == (ys@[j].0@, ys@[j].1@),
            val_eq_fields_map(vx, vy) == val_eq_fields_map(vx.skip(i as int), vy.skip(i as int)),
        decreases n - i,
    {
        let a = &xs[i];
        let b = &ys[i];
        let key_matches = match &b.0 {
            Value::Text(k) => a.0 == *k,
            _ => false,
        };
        if !(key_matches && a.1.loose_eq(&b.1)) {
            proof {
                assert(vx.skip(i as int)[0] == vx[i as int]);
                assert(vy.skip(i as int)[0] == vy[i as int]);
            }
            return false;
        }
        proof {
            assert(vx.skip(i as int)[0] == vx[i as int]);
            assert(vy.skip(i as int)[0] == vy[i as int]);
            assert(vx.skip(i as int).skip(1) =~= vx.skip(i + 1));
            assert(vy.skip(i as int).skip(1) =~= vy.skip(i + 1));
        }
        i = i + 1;
    }
    proof {
        assert(vx.skip(n as int) =~= Seq::<(Seq<char>, ValueM)>::empty());
        assert(vy.skip(n as int) =~= Seq::<(ValueM, ValueM)>::empty());
    }
    true
}

} // verus!


