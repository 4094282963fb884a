//! Round trips, byte-exact scenarios and error cases of the codec.

use tagwire::de::{Deserializer, SeqDeserializer};
use tagwire::error::{DeError, SerError, TagParsingError};
use tagwire::read::{BuffReader, VecReader};
use tagwire::ser::Serializer;
use tagwire::tag::Tag;
use tagwire::value::Value;
use tagwire::write::{BuffWriter, DummyWriter, VecWriter};
use tagwire::{from_bytes, get_serialized_size, to_buff, to_bytes, to_bytes_compact};

fn round_trip(v: Value) -> Value {
    let bytes = to_bytes(&v).expect("encode");
    from_bytes(&bytes).expect("decode")
}

#[test]
fn round_trip_primitives() {
    assert_eq!(round_trip(Value::Absent), Value::Absent);
    assert_eq!(
        round_trip(Value::Present(Box::new(Value::U8(9)))),
        Value::Present(Box::new(Value::U8(9)))
    );
    assert_eq!(round_trip(Value::Bool(true)), Value::Bool(true));
    assert_eq!(round_trip(Value::Bool(false)), Value::Bool(false));
    assert_eq!(round_trip(Value::I8(-5)), Value::I8(-5));
    assert_eq!(round_trip(Value::I16(-3000)), Value::I16(-3000));
    assert_eq!(round_trip(Value::I32(-42)), Value::I32(-42));
    assert_eq!(round_trip(Value::I64(-1 << 40)), Value::I64(-1 << 40));
    assert_eq!(round_trip(Value::I128(-1 << 100)), Value::I128(-1 << 100));
    assert_eq!(round_trip(Value::U8(200)), Value::U8(200));
    assert_eq!(round_trip(Value::U16(65535)), Value::U16(65535));
    assert_eq!(round_trip(Value::U32(1 << 30)), Value::U32(1 << 30));
    assert_eq!(round_trip(Value::U64(1 << 60)), Value::U64(1 << 60));
    assert_eq!(round_trip(Value::U128(1 << 100)), Value::U128(1 << 100));
    assert_eq!(round_trip(Value::Unit), Value::Unit);
    assert_eq!(round_trip(Value::Char('a')), Value::Char('a'));
    assert_eq!(round_trip(Value::Char('\u{e9}')), Value::Char('\u{e9}'));
    assert_eq!(round_trip(Value::Char('\u{20ac}')), Value::Char('\u{20ac}'));
    assert_eq!(round_trip(Value::Char('\u{1f600}')), Value::Char('\u{1f600}'));
    assert_eq!(
        round_trip(Value::Text(String::from("hello"))),
        Value::Text(String::from("hello"))
    );
    assert_eq!(
        round_trip(Value::Bytes(vec![0, 1, 2, 0xD8, 0x00])),
        Value::Bytes(vec![0, 1, 2, 0xD8, 0x00])
    );
}

#[test]
fn round_trip_floats_as_bits() {
    let f = 1.5f32.to_bits();
    assert_eq!(round_trip(Value::F32Bits(f)), Value::F32Bits(f));
    let d = (-2.25f64).to_bits();
    assert_eq!(round_trip(Value::F64Bits(d)), Value::F64Bits(d));
}

#[test]
fn round_trip_composites() {
    let seq = Value::SizedSeq(vec![Value::U8(1), Value::Bool(false), Value::Unit]);
    assert_eq!(
        round_trip(seq),
        Value::SizedSeq(vec![Value::U8(1), Value::Bool(false), Value::Unit])
    );

    let useq = Value::UnsizedSeq(vec![Value::I16(-1), Value::I16(2)]);
    assert_eq!(
        round_trip(useq),
        Value::UnsizedSeq(vec![Value::I16(-1), Value::I16(2)])
    );

    let map = Value::SizedMap(vec![(Value::U8(1), Value::Bool(true))]);
    assert_eq!(
        round_trip(map),
        Value::SizedMap(vec![(Value::U8(1), Value::Bool(true))])
    );

    let umap = Value::UnsizedMap(vec![(Value::U8(1), Value::U8(2))]);
    assert_eq!(
        round_trip(umap),
        Value::UnsizedMap(vec![(Value::U8(1), Value::U8(2))])
    );

    let nts = Value::NewTypeStruct(Box::new(Value::U32(77)));
    assert_eq!(round_trip(nts), Value::NewTypeStruct(Box::new(Value::U32(77))));

    assert_eq!(round_trip(Value::UnitVariant(4)), Value::UnitVariant(4));
    assert_eq!(
        round_trip(Value::NewTypeVariant(1, Box::new(Value::U8(56)))),
        Value::NewTypeVariant(1, Box::new(Value::U8(56)))
    );
}

#[test]
fn decoder_reports_tuples_as_sequences() {
    // A tuple's wire framing matches a sized sequence's, so the
    // schema-free decoder reports its elements as one.
    let tup = Value::Tuple(vec![Value::U8(1), Value::U8(2)]);
    assert_eq!(
        round_trip(tup),
        Value::SizedSeq(vec![Value::U8(1), Value::U8(2)])
    );
    let ts = Value::TupleStruct(vec![Value::Bool(true)]);
    assert_eq!(round_trip(ts), Value::SizedSeq(vec![Value::Bool(true)]));
    assert_eq!(round_trip(Value::UnitStruct), Value::Unit);
}

#[test]
fn struct_decodes_as_named_map() {
    let v = Value::Struct(vec![
        (String::from("a"), Value::U8(1)),
        (String::from("b"), Value::Bool(false)),
    ]);
    assert_eq!(
        round_trip(v),
        Value::SizedMap(vec![
            (Value::Text(String::from("a")), Value::U8(1)),
            (Value::Text(String::from("b")), Value::Bool(false)),
        ])
    );
}

#[test]
fn compaction_narrows_integers() {
    // A large-typed value holding a small number travels at the
    // narrowest width under compaction.
    let bytes = to_bytes_compact(&Value::U64(5)).expect("encode");
    assert_eq!(bytes, vec![Tag::U8.to_byte(), 5]);
    let bytes = to_bytes_compact(&Value::U32(1000)).expect("encode");
    assert_eq!(bytes, vec![Tag::U16.to_byte(), 0x03, 0xE8]);
    let bytes = to_bytes_compact(&Value::I32(-42)).expect("encode");
    assert_eq!(bytes, vec![Tag::I8.to_byte(), 0xD6]);
    // Falls back to the declared width only when no smaller width fits.
    let bytes = to_bytes_compact(&Value::U16(4660)).expect("encode");
    assert_eq!(bytes, vec![Tag::U16.to_byte(), 0x12, 0x34]);
}

#[test]
fn wide_reader_accepts_narrow_widths() {
    // A value encoded at any width no wider than the target decodes at
    // the target width.
    let bytes = vec![Tag::U8.to_byte(), 200];
    let mut de = Deserializer::new(BuffReader::new(&bytes));
    assert_eq!(de.parse_u64().expect("decode"), 200);

    let bytes = vec![Tag::U16.to_byte(), 0x03, 0xE8];
    let mut de = Deserializer::new(BuffReader::new(&bytes));
    assert_eq!(de.parse_u32().expect("decode"), 1000);

    let bytes = vec![Tag::I8.to_byte(), 0xD6];
    let mut de = Deserializer::new(BuffReader::new(&bytes));
    assert_eq!(de.parse_i64().expect("decode"), -42);

    // The opposite direction is refused: a wide encoding does not fit a
    // narrow reader.
    let bytes = vec![Tag::U64.to_byte(), 0, 0, 0, 0, 0, 0, 0, 1];
    let mut de = Deserializer::new(BuffReader::new(&bytes));
    assert!(matches!(de.parse_u8(), Err(DeError::UnexpectedTag(_))));
}

#[test]
fn streaming_sequence_stops_at_marker() {
    // An unsized sequence of three elements decodes to exactly three and
    // leaves the stream right after the marker: the value appended behind
    // it is read next, untouched.
    let mut bytes =
        to_bytes(&Value::UnsizedSeq(vec![Value::U16(1000), Value::U16(2000), Value::U16(3000)]))
            .expect("encode");
    bytes.extend_from_slice(&to_bytes(&Value::U8(7)).expect("encode"));
    let mut de = Deserializer::new(BuffReader::new(&bytes));
    let seq = de.decode_any().expect("decode");
    assert_eq!(
        seq,
        Value::UnsizedSeq(vec![Value::U16(1000), Value::U16(2000), Value::U16(3000)])
    );
    assert_eq!(de.decode_any().expect("trailing"), Value::U8(7));
}

fn sample_elems() -> Vec<Value> {
    vec![Value::U8(1), Value::Text(String::from("x")), Value::Bool(true)]
}

#[test]
fn sized_and_streaming_framings_agree() {
    let sized = round_trip(Value::SizedSeq(sample_elems()));
    let streaming = round_trip(Value::UnsizedSeq(sample_elems()));
    let sized_elems = match sized {
        Value::SizedSeq(es) => es,
        other => panic!("expected a sized sequence, got {:?}", other),
    };
    let streaming_elems = match streaming {
        Value::UnsizedSeq(es) => es,
        other => panic!("expected a streaming sequence, got {:?}", other),
    };
    assert_eq!(sized_elems, streaming_elems);
}

#[test]
fn invalid_tag_fails_and_consumes_one_byte() {
    // A byte outside the tag table is an invalid-tag error; exactly one
    // byte is consumed, so the next value decodes cleanly.
    assert!(matches!(
        from_bytes(&[200]),
        Err(DeError::TagParsingError(TagParsingError::InvalidTag(200)))
    ));
    let bytes = vec![99, Tag::U8.to_byte(), 7];
    let mut de = Deserializer::new(BuffReader::new(&bytes));
    assert!(matches!(
        de.pop_tag(),
        Err(DeError::TagParsingError(TagParsingError::InvalidTag(99)))
    ));
    assert_eq!(de.parse_u8().expect("next value"), 7);
}

#[test]
fn struct_scenario_bytes_and_back() {
    // {foo: -42 as 32-bit signed, bar: present(7 as 8-bit unsigned),
    //  baz: false}: tagged struct header, then the three named fields in
    // order.
    let v = Value::Struct(vec![
        (String::from("foo"), Value::I32(-42)),
        (String::from("bar"), Value::Present(Box::new(Value::U8(7)))),
        (String::from("baz"), Value::Bool(false)),
    ]);
    let bytes = to_bytes(&v).expect("encode");
    let mut expected = vec![Tag::Struct.to_byte(), Tag::U8.to_byte(), 3];
    expected.extend_from_slice(&[Tag::Str.to_byte(), Tag::U8.to_byte(), 3]);
    expected.extend_from_slice(b"foo");
    expected.extend_from_slice(&[Tag::I32.to_byte(), 0xFF, 0xFF, 0xFF, 0xD6]);
    expected.extend_from_slice(&[Tag::Str.to_byte(), Tag::U8.to_byte(), 3]);
    expected.extend_from_slice(b"bar");
    expected.extend_from_slice(&[Tag::Present.to_byte(), Tag::U8.to_byte(), 7]);
    expected.extend_from_slice(&[Tag::Str.to_byte(), Tag::U8.to_byte(), 3]);
    expected.extend_from_slice(b"baz");
    expected.push(Tag::BoolFalse.to_byte());
    assert_eq!(bytes, expected);

    let decoded = from_bytes(&bytes).expect("decode");
    assert_eq!(
        decoded,
        Value::SizedMap(vec![
            (Value::Text(String::from("foo")), Value::I32(-42)),
            (
                Value::Text(String::from("bar")),
                Value::Present(Box::new(Value::U8(7)))
            ),
            (Value::Text(String::from("baz")), Value::Bool(false)),
        ])
    );
}

#[test]
fn streaming_sequence_scenario_bytes() {
    let v = Value::UnsizedSeq(vec![Value::U16(1000), Value::U16(2000), Value::U16(3000)]);
    let bytes = to_bytes(&v).expect("encode");
    let expected = vec![
        Tag::UnsizedSeq.to_byte(),
        Tag::U16.to_byte(),
        0x03,
        0xE8,
        Tag::U16.to_byte(),
        0x07,
        0xD0,
        Tag::U16.to_byte(),
        0x0B,
        0xB8,
        Tag::UnsizedSeqEnd.to_byte(),
    ];
    assert_eq!(bytes, expected);
    assert_eq!(from_bytes(&bytes).expect("decode"), v);
}

#[test]
fn enum_cases_use_two_step_decode() {
    // Tuple and struct cases carry no length on the wire; the caller
    // supplies the arity after reading the identifier.
    let v = Value::TupleVariant(3, vec![Value::U8(1), Value::U8(2)]);
    let bytes = to_bytes(&v).expect("encode");
    assert_eq!(
        bytes,
        vec![
            Tag::TupleVariant.to_byte(),
            Tag::U8.to_byte(),
            3,
            Tag::U8.to_byte(),
            1,
            Tag::U8.to_byte(),
            2
        ]
    );
    let mut de = Deserializer::new(BuffReader::new(&bytes));
    let (case, idx) = de.decode_enum_header().expect("identifier");
    assert_eq!(case, Tag::TupleVariant);
    assert_eq!(idx, 3);
    de.decode_tuple_variant().expect("case tag");
    assert_eq!(de.parse_u8().expect("field"), 1);
    assert_eq!(de.parse_u8().expect("field"), 2);

    // Schema-free decode cannot know the arity and refuses the tag.
    assert!(matches!(
        from_bytes(&bytes),
        Err(DeError::UnexpectedTag(_))
    ));
}

#[test]
fn marker_terminated_text_round_trip() {
    let mut ser = Serializer::new(VecWriter::new());
    ser.serialize_unsized_str("formatted text").expect("encode");
    let bytes = ser.into_writer().into_inner();
    assert_eq!(bytes[0], Tag::MarkerTerminatedStr.to_byte());
    assert_eq!(&bytes[bytes.len() - 2..], &[0xD8, 0x00]);
    assert_eq!(
        from_bytes(&bytes).expect("decode"),
        Value::Text(String::from("formatted text"))
    );
}

#[test]
fn invalid_text_bytes_are_reported() {
    let bytes = vec![Tag::Str.to_byte(), Tag::U8.to_byte(), 1, 0xFF];
    assert!(matches!(from_bytes(&bytes), Err(DeError::Utf8Error)));
}

#[test]
fn truncated_input_is_a_transport_error() {
    let bytes = vec![Tag::U64.to_byte(), 1, 2];
    assert!(matches!(from_bytes(&bytes), Err(DeError::ReaderError(_))));
    assert!(matches!(from_bytes(&[]), Err(DeError::ReaderError(_))));
}

#[test]
fn wrong_tag_is_reported_with_expectations() {
    let bytes = vec![Tag::U8.to_byte(), 7];
    let mut de = Deserializer::new(BuffReader::new(&bytes));
    match de.decode_bool() {
        Err(DeError::UnexpectedTag(err)) => {
            assert_eq!(err.got, Tag::U8);
            assert_eq!(err.expected, vec![Tag::BoolFalse, Tag::BoolTrue]);
        },
        other => panic!("expected a tag mismatch, got {:?}", other),
    }
}

#[test]
fn serialized_size_matches_encoding() {
    let v = Value::Struct(vec![
        (String::from("k"), Value::Text(String::from("v"))),
        (String::from("n"), Value::I64(-1)),
    ]);
    let bytes = to_bytes(&v).expect("encode");
    assert_eq!(get_serialized_size(&v).expect("measure"), bytes.len());
    // The counting pass writes nothing anywhere.
    let counter = DummyWriter::new();
    assert_eq!(counter.count(), 0);
}

#[test]
fn fixed_buffer_holds_or_rejects() {
    let v = Value::U32(7);
    let encoded = to_bytes(&v).expect("encode");
    let writer = to_buff(&v, vec![0; 16]).expect("fits");
    assert_eq!(writer.len(), encoded.len());
    assert!(!writer.is_empty());
    assert_eq!(writer.get(), encoded);
    let (filled, buff) = writer.unwrap();
    assert_eq!(&buff[..filled], &encoded[..]);

    match to_buff(&v, vec![0; 2]) {
        Err(SerError::WriteError(_)) => {},
        Err(other) => panic!("expected the buffer error, got {:?}", other),
        Ok(_) => panic!("a two-byte buffer cannot hold this encoding"),
    }
    let small = BuffWriter::new(vec![0; 1]);
    let mut ser = Serializer::new(small);
    assert!(ser.serialize_u32(7).is_err());
}

#[test]
fn owned_reader_decodes_like_borrowed() {
    let v = Value::SizedSeq(vec![Value::Text(String::from("abc")), Value::U8(1)]);
    let bytes = to_bytes(&v).expect("encode");
    let from_slice = from_bytes(&bytes).expect("borrowed");
    let from_owned = tagwire::from_reader(VecReader::new(bytes)).expect("owned");
    assert_eq!(from_slice, from_owned);
}

#[test]
fn loose_equality_crosses_widths_and_shapes() {
    // Integers of one signedness compare by value whatever their width.
    assert!(Value::U8(56).loose_eq(&Value::U64(56)));
    assert!(Value::I32(-42).loose_eq(&Value::I8(-42)));
    assert!(!Value::U8(56).loose_eq(&Value::U64(57)));
    assert!(!Value::U8(56).loose_eq(&Value::I64(56)));

    // Unit and unit struct are one value; tuple shapes equal a sized
    // sequence of the same elements.
    assert!(Value::Unit.loose_eq(&Value::UnitStruct));
    assert!(
        Value::Tuple(vec![Value::U8(1), Value::U8(2)])
            .loose_eq(&Value::SizedSeq(vec![Value::U16(1), Value::U8(2)]))
    );
    assert!(
        !Value::Tuple(vec![Value::U8(1)]).loose_eq(&Value::SizedSeq(vec![Value::U8(2)]))
    );

    // A named aggregate equals the map carrying its names as text keys.
    let as_struct = Value::Struct(vec![(String::from("foo"), Value::I32(12))]);
    let as_map = Value::SizedMap(vec![(Value::Text(String::from("foo")), Value::I16(12))]);
    assert!(as_struct.loose_eq(&as_map));
    assert!(as_map.loose_eq(&as_struct));

    // Distinct shapes stay distinct.
    assert!(!Value::SizedSeq(vec![]).loose_eq(&Value::UnsizedSeq(vec![])));
    assert!(!Value::Bool(true).loose_eq(&Value::U8(1)));
}

#[test]
fn decoded_value_is_loosely_equal_to_the_original() {
    // Shapes that normalization renames still compare equal to what was
    // written.
    let original = Value::Struct(vec![
        (String::from("foo"), Value::I32(12)),
        (String::from("bar"), Value::Present(Box::new(Value::U8(56)))),
        (String::from("foobar"), Value::Bool(false)),
    ]);
    let bytes = to_bytes(&original).expect("encode");
    let decoded = from_bytes(&bytes).expect("decode");
    assert!(original.loose_eq(&decoded));
    assert!(decoded.loose_eq(&original));
}

#[test]
fn compact_round_trip_is_loosely_equal() {
    // Under compaction integers come back at a narrower width; the
    // decoded tree still equals the one written under the codec's own
    // equality.
    let original = Value::SizedSeq(vec![
        Value::U64(5),
        Value::I32(-42),
        Value::Struct(vec![(String::from("n"), Value::U32(1000))]),
    ]);
    let bytes = to_bytes_compact(&original).expect("encode");
    let decoded = from_bytes(&bytes).expect("decode");
    assert!(original.loose_eq(&decoded));
    // The narrowing really happened.
    assert_eq!(
        match &decoded {
            Value::SizedSeq(es) => es[0].loose_eq(&Value::U8(5)) && matches!(es[0], Value::U8(_)),
            _ => false,
        },
        true
    );
}

#[test]
fn tag_table_is_total_and_injective() {
    for b in 0u8..=37 {
        let t = Tag::from_byte(b).expect("in range");
        assert_eq!(t.to_byte(), b);
    }
    assert!(Tag::from_byte(38).is_none());
    assert!(Tag::from_byte(255).is_none());
    assert!(tagwire::tag::end_of_str(0xD8, 0x00));
    assert!(!tagwire::tag::end_of_str(0xD8, 0x01));
    assert!(!tagwire::tag::end_of_str(0x00, 0xD8));
}

#[test]
fn element_cursor_drives_typed_decode() {
    // A sized sequence through the header-and-cursor protocol.
    let bytes = to_bytes(&Value::SizedSeq(vec![Value::U16(10), Value::U16(20)])).expect("encode");
    let mut de = Deserializer::new(BuffReader::new(&bytes));
    let header = de.decode_seq_header().expect("header");
    assert_eq!(header, Some(2));
    let mut cursor = SeqDeserializer::new(header);
    assert_eq!(cursor.size_hint(), Some(2));
    assert!(cursor.parse_next(&mut de).expect("first"));
    assert_eq!(de.parse_u16().expect("element"), 10);
    assert!(cursor.parse_next(&mut de).expect("second"));
    assert_eq!(de.parse_u16().expect("element"), 20);
    assert!(!cursor.parse_next(&mut de).expect("exhausted"));

    // A streaming sequence: the cursor watches for the end marker.
    let bytes = to_bytes(&Value::UnsizedSeq(vec![Value::U16(7)])).expect("encode");
    let mut de = Deserializer::new(BuffReader::new(&bytes));
    let header = de.decode_seq_header().expect("header");
    assert_eq!(header, None);
    let mut cursor = SeqDeserializer::new(header);
    assert_eq!(cursor.size_hint(), None);
    assert!(cursor.parse_next(&mut de).expect("first"));
    assert_eq!(de.parse_u16().expect("element"), 7);
    assert!(!cursor.parse_next(&mut de).expect("marker"));
}
