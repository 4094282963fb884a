//! The laws of the codec, proved once and for all: decoding an encoding
//! yields the value back, at whatever width a compacted number was
//! written, and streaming collections stop exactly at their end marker.

use vstd::prelude::*;

use crate::tag::Tag;
use crate::value::{
    dec_any, dec_list_sized, dec_list_unsized, dec_pairs_sized, dec_pairs_unsized, enc_fields,
    enc_list, enc_pairs, enc_text, enc_value, norm, norm_fields, norm_list, norm_pairs,
    schema_free, schema_free_fields, schema_free_list, schema_free_pairs, wf, wf_fields, wf_list,
    wf_pairs, ValueM,
};
use crate::wire::{
    enc_len, enc_sint, enc_sint_at, enc_uint, enc_uint_at, enc_variant_index, lemma_be_bytes_len,
    lemma_be_bytes_round_trip, lemma_dec_uint_compact, lemma_signed_round_trip, pow256,
    to_unsigned,
};
use vstd::utf8::{
    char_is_scalar, char_u32_cast, encode_scalar, encode_utf8, encode_utf8_decode_utf8,
    encode_utf8_first_scalar, encode_utf8_valid_utf8,
};

verus! {

/// Every encoding is at least one byte long and starts with a tag byte
/// other than the end marker.
proof fn lemma_enc_head(m: ValueM, c: bool)
    ensures
        enc_value(m, c).len() >= 1,
        enc_value(m, c)[0] != Tag::UnsizedSeqEnd.spec_byte(),
{
    match m {
        ValueM::I8(v) => {
            lemma_be_bytes_len(to_unsigned(v as int, 1), 1);
        },
        ValueM::I16(v) => {
            lemma_sint_head(v as int, 2, c);
        },
        ValueM::I32(v) => {
            lemma_sint_head(v as int, 4, c);
        },
        ValueM::I64(v) => {
            lemma_sint_head(v as int, 8, c);
        },
        ValueM::I128(v) => {
            lemma_sint_head(v as int, 16, c);
        },
        ValueM::U8(v) => {
            lemma_be_bytes_len(v as nat, 1);
        },
        ValueM::U16(v) => {
            lemma_uint_head(v as nat, 2, c);
        },
        ValueM::U32(v) => {
            lemma_uint_head(v as nat, 4, c);
        },
        ValueM::U64(v) => {
            lemma_uint_head(v as nat, 8, c);
        },
        ValueM::U128(v) => {
            lemma_uint_head(v as nat, 16, c);
        },
        _ => {},
    }
}

/// The leading byte of any signed encoding is a signed-integer tag.
proof fn lemma_sint_head(v: int, n: nat, c: bool)
    ensures
        enc_sint(v, n, c).len() >= 1,
        enc_sint(v, n, c)[0] != Tag::UnsizedSeqEnd.spec_byte(),
{
}

/// The leading byte of any unsigned encoding is an unsigned-integer tag.
proof fn lemma_uint_head(v: nat, n: nat, c: bool)
    ensures
        enc_uint(v, n, c).len() >= 1,
        enc_uint(v, n, c)[0] != Tag::UnsizedSeqEnd.spec_byte(),
{
}

/// A length or variant index below the host's size bound fits its wire
/// range.
proof fn lemma_len_range()
    ensures
        usize::MAX < pow256(8),
        u32::MAX < pow256(4),
        pow256(1) == 0x100,
        pow256(2) == 0x1_0000,
        pow256(4) == 0x1_0000_0000,
        pow256(8) == 0x1_0000_0000_0000_0000,
        pow256(16) == 0x1_0000_0000_0000_0000_0000_0000_0000_0000,
{
    reveal_with_fuel(pow256, 17);
}

/// Round trip of the schema-free decoder, one value at a time: decoding
/// the non-compacted encoding of any well-formed value that carries no
/// out-of-band arity yields the decoder's shape of that value and
/// consumes exactly the encoding, whatever follows it.
pub proof fn lemma_dec_enc(m: ValueM, rest: Seq<u8>)
    requires
        wf(m),
        schema_free(m),
    ensures
        dec_any(enc_value(m, false) + rest) == Some(
            (norm(m), enc_value(m, false).len() as nat),
        ),
    decreases m, 1nat, 0nat,
{
    match m {
        ValueM::Present(_) => lemma_dec_enc_nested(m, rest),
        ValueM::NewTypeStruct(_) => lemma_dec_enc_nested(m, rest),
        ValueM::NewTypeVariant(_, _) => lemma_dec_enc_nested(m, rest),
        ValueM::SizedSeq(_) => lemma_dec_enc_composite(m, rest),
        ValueM::UnsizedSeq(_) => lemma_dec_enc_composite(m, rest),
        ValueM::Tuple(_) => lemma_dec_enc_composite(m, rest),
        ValueM::TupleStruct(_) => lemma_dec_enc_composite(m, rest),
        ValueM::SizedMap(_) => lemma_dec_enc_composite(m, rest),
        ValueM::UnsizedMap(_) => lemma_dec_enc_composite(m, rest),
        ValueM::Struct(_) => lemma_dec_enc_composite(m, rest),
        ValueM::TupleVariant(_, _) => {
            assert(false);
        },
        ValueM::StructVariant(_, _) => {
            assert(false);
        },
        _ => lemma_dec_enc_leaf(m, rest),
    }
}

/// The round trip for every shape without children.
#[verifier::rlimit(60)]
#[verifier::spinoff_prover]
proof fn lemma_dec_enc_leaf(m: ValueM, rest: Seq<u8>)
    requires
        wf(m),
        schema_free(m),
        !(m is Present),
        !(m is NewTypeStruct),
        !(m is NewTypeVariant),
        !(m is SizedSeq),
        !(m is UnsizedSeq),
        !(m is Tuple),
        !(m is TupleStruct),
        !(m is SizedMap),
        !(m is UnsizedMap),
        !(m is Struct),
        !(m is TupleVariant),
        !(m is StructVariant),
    ensures
        dec_any(enc_value(m, false) + rest) == Some(
            (norm(m), enc_value(m, false).len() as nat),
        ),
{
    let e = enc_value(m, false);
    let s = e + rest;
    lemma_len_range();
    match m {
        ValueM::Absent => {
            assert(s[0] == Tag::Absent.spec_byte());
        },
        ValueM::Bool(v) => {
            if v {
                assert(s[0] == Tag::BoolTrue.spec_byte());
            } else {
                assert(s[0] == Tag::BoolFalse.spec_byte());
            }
        },
        ValueM::I8(v) => {
            lemma_dec_enc_sint(v as int, 1, rest);
        },
        ValueM::I16(v) => {
            lemma_dec_enc_sint(v as int, 2, rest);
        },
        ValueM::I32(v) => {
            lemma_dec_enc_sint(v as int, 4, rest);
        },
        ValueM::I64(v) => {
            lemma_dec_enc_sint(v as int, 8, rest);
        },
        ValueM::I128(v) => {
            lemma_dec_enc_sint(v as int, 16, rest);
        },
        ValueM::U8(v) => {
            lemma_dec_enc_uint(v as nat, 1, rest);
        },
        ValueM::U16(v) => {
            lemma_dec_enc_uint(v as nat, 2, rest);
        },
        ValueM::U32(v) => {
            lemma_dec_enc_uint(v as nat, 4, rest);
        },
        ValueM::U64(v) => {
            lemma_dec_enc_uint(v as nat, 8, rest);
        },
        ValueM::U128(v) => {
            lemma_dec_enc_uint(v as nat, 16, rest);
        },
        ValueM::F32Bits(v) => {
            assert(s[0] == Tag::F32.spec_byte());
            lemma_be_bytes_len(v as nat, 4);
            assert(s.subrange(1, 5) =~= crate::wire::be_bytes(v as nat, 4));
            lemma_be_bytes_round_trip(v as nat, 4);
        },
        ValueM::F64Bits(v) => {
            assert(s[0] == Tag::F64.spec_byte());
            lemma_be_bytes_len(v as nat, 8);
            assert(s.subrange(1, 9) =~= crate::wire::be_bytes(v as nat, 8));
            lemma_be_bytes_round_trip(v as nat, 8);
        },
        ValueM::Char(ch) => {
            lemma_dec_enc_char(ch, rest);
        },
        ValueM::Text(t) => {
            lemma_dec_enc_text(t, rest);
        },
        ValueM::Bytes(bs) => {
            let lenc = enc_len(bs.len());
            assert(s[0] == Tag::Bytes.spec_byte());
            assert(s.skip(1) =~= lenc + (bs + rest));
            lemma_dec_uint_compact(bs.len(), 8, bs + rest);
            let used = lenc.len();
            assert(s.subrange(1 + used as int, 1 + used as int + bs.len() as int) =~= bs);
        },
        ValueM::Unit => {
            assert(s[0] == Tag::Unit.spec_byte());
        },
        ValueM::UnitStruct => {
            assert(s[0] == Tag::UnitStruct.spec_byte());
        },
        ValueM::UnitVariant(i) => {
            assert(s[0] == Tag::UnitVariant.spec_byte());
            assert(s.skip(1) =~= enc_variant_index(i as nat) + rest);
            lemma_dec_uint_compact(i as nat, 4, rest);
        },
        _ => {},
    }
}

/// The round trip for the one-child wrappers: a present option, a
/// single-field wrapper and a single-field enum case.
#[verifier::rlimit(60)]
#[verifier::spinoff_prover]
proof fn lemma_dec_enc_nested(m: ValueM, rest: Seq<u8>)
    requires
        wf(m),
        schema_free(m),
        m is Present || m is NewTypeStruct || m is NewTypeVariant,
    ensures
        dec_any(enc_value(m, false) + rest) == Some(
            (norm(m), enc_value(m, false).len() as nat),
        ),
    decreases m, 0nat, 1nat,
{
    let e = enc_value(m, false);
    let s = e + rest;
    lemma_len_range();
    match m {
        ValueM::Present(b) => {
            assert(s[0] == Tag::Present.spec_byte());
            assert(s.skip(1) =~= enc_value(*b, false) + rest);
            lemma_dec_enc(*b, rest);
        },
        ValueM::NewTypeStruct(b) => {
            assert(s[0] == Tag::NewTypeStruct.spec_byte());
            assert(s.skip(1) =~= enc_value(*b, false) + rest);
            lemma_dec_enc(*b, rest);
        },
        ValueM::NewTypeVariant(i, b) => {
            let idx = enc_variant_index(i as nat);
            assert(s[0] == Tag::NewTypeVariant.spec_byte());
            assert(s.skip(1) =~= idx + (enc_value(*b, false) + rest));
            lemma_dec_uint_compact(i as nat, 4, enc_value(*b, false) + rest);
            let used = idx.len();
            assert(s.skip(1 + used as int) =~= enc_value(*b, false) + rest);
            lemma_dec_enc(*b, rest);
        },
        _ => {},
    }
}

/// The round trip for collection shapes, sized and streaming.
#[verifier::rlimit(60)]
#[verifier::spinoff_prover]
proof fn lemma_dec_enc_composite(m: ValueM, rest: Seq<u8>)
    requires
        wf(m),
        schema_free(m),
        m is SizedSeq || m is UnsizedSeq || m is Tuple || m is TupleStruct || m is SizedMap
            || m is UnsizedMap || m is Struct,
    ensures
        dec_any(enc_value(m, false) + rest) == Some(
            (norm(m), enc_value(m, false).len() as nat),
        ),
    decreases m, 0nat, 1nat,
{
    let e = enc_value(m, false);
    let s = e + rest;
    lemma_len_range();
    match m {
        ValueM::SizedSeq(es) => {
            lemma_dec_enc_sized_list(Tag::SizedSeq, es, rest);
        },
        ValueM::UnsizedSeq(es) => {
            assert(s[0] == Tag::UnsizedSeq.spec_byte());
            assert(s.skip(1) =~= enc_list(es, false) + seq![Tag::UnsizedSeqEnd.spec_byte()]
                + rest);
            lemma_dec_enc_list_unsized(es, rest);
        },
        ValueM::Tuple(es) => {
            lemma_dec_enc_sized_list(Tag::Tuple, es, rest);
        },
        ValueM::TupleStruct(es) => {
            lemma_dec_enc_sized_list(Tag::TupleStruct, es, rest);
        },
        ValueM::SizedMap(ps) => {
            lemma_dec_enc_sized_pairs(Tag::SizedMap, ps, rest);
        },
        ValueM::UnsizedMap(ps) => {
            assert(s[0] == Tag::UnsizedMap.spec_byte());
            assert(s.skip(1) =~= enc_pairs(ps, false) + seq![Tag::UnsizedSeqEnd.spec_byte()]
                + rest);
            lemma_dec_enc_pairs_unsized(ps, rest);
        },
        ValueM::Struct(fs) => {
            lemma_dec_enc_struct(fs, rest);
        },
        _ => {},
    }
}

/// Round trip for a signed integer written at its declared width.
proof fn lemma_dec_enc_sint(v: int, n: nat, rest: Seq<u8>)
    requires
        n == 1 || n == 2 || n == 4 || n == 8 || n == 16,
        -pow256(n) <= 2 * v < pow256(n),
    ensures
        dec_any(enc_sint_at(v, n) + rest) == Some(
            (crate::value::sint_value(crate::wire::sint_tag(n), v), (1 + n) as nat),
        ),
        enc_sint_at(v, n).len() == 1 + n,
{
    let s = enc_sint_at(v, n) + rest;
    lemma_signed_round_trip(v, n);
    lemma_be_bytes_len(to_unsigned(v, n), n);
    assert(s[0] == crate::wire::sint_tag(n).spec_byte());
    assert(s.subrange(1, 1 + n as int) =~= crate::wire::be_bytes(to_unsigned(v, n), n));
    lemma_be_bytes_round_trip(to_unsigned(v, n), n);
}

/// Round trip for an unsigned integer written at its declared width.
proof fn lemma_dec_enc_uint(v: nat, n: nat, rest: Seq<u8>)
    requires
        n == 1 || n == 2 || n == 4 || n == 8 || n == 16,
        v < pow256(n),
    ensures
        dec_any(enc_uint_at(v, n) + rest) == Some(
            (crate::value::uint_value(crate::wire::uint_tag(n), v), (1 + n) as nat),
        ),
        enc_uint_at(v, n).len() == 1 + n,
{
    let s = enc_uint_at(v, n) + rest;
    lemma_be_bytes_len(v, n);
    assert(s[0] == crate::wire::uint_tag(n).spec_byte());
    assert(s.subrange(1, 1 + n as int) =~= crate::wire::be_bytes(v, n));
    lemma_be_bytes_round_trip(v, n);
}

/// Round trip for a single code point.
proof fn lemma_dec_enc_char(ch: char, rest: Seq<u8>)
    ensures
        dec_any(enc_value(ValueM::Char(ch), false) + rest) == Some(
            (ValueM::Char(ch), enc_value(ValueM::Char(ch), false).len() as nat),
        ),
{
    let eb = encode_scalar(ch as u32);
    let e = enc_value(ValueM::Char(ch), false);
    let s = e + rest;
    char_is_scalar(ch);
    assert(encode_utf8(seq![ch]) =~= eb) by {
        assert(seq![ch].drop_first() =~= Seq::<char>::empty());
        assert(encode_utf8(seq![ch].drop_first()) =~= Seq::<u8>::empty());
        assert(eb + Seq::<u8>::empty() =~= eb);
    }
    encode_utf8_first_scalar(seq![ch]);
    let w = eb.len();
    assert(1 <= w <= 4);
    assert(s[0] == crate::tag::spec_char_width_tag(w).spec_byte());
    assert(s.subrange(1, 1 + w as int) =~= eb);
    char_u32_cast(ch, vstd::utf8::decode_first_scalar(eb));
}

/// Round trip for length-prefixed text.
proof fn lemma_dec_enc_text(t: Seq<char>, rest: Seq<u8>)
    requires
        encode_utf8(t).len() <= usize::MAX,
    ensures
        dec_any(enc_text(t) + rest) == Some((ValueM::Text(t), enc_text(t).len() as nat)),
{
    let bytes = encode_utf8(t);
    let lenc = enc_len(bytes.len());
    let s = enc_text(t) + rest;
    lemma_len_range();
    assert(s[0] == Tag::Str.spec_byte());
    assert(s.skip(1) =~= lenc + (bytes + rest));
    lemma_dec_uint_compact(bytes.len(), 8, bytes + rest);
    let used = lenc.len();
    assert(s.subrange(1 + used as int, 1 + used as int + bytes.len() as int) =~= bytes);
    encode_utf8_valid_utf8(t);
    encode_utf8_decode_utf8(t);
}

/// Round trip for a length-prefixed element composite.
proof fn lemma_dec_enc_sized_list(tag: Tag, es: Seq<ValueM>, rest: Seq<u8>)
    requires
        tag == Tag::SizedSeq || tag == Tag::Tuple || tag == Tag::TupleStruct,
        es.len() <= usize::MAX,
        wf_list(es),
        schema_free_list(es),
    ensures
        dec_any(seq![tag.spec_byte()] + enc_len(es.len()) + enc_list(es, false) + rest) == Some(
            (
                ValueM::SizedSeq(norm_list(es)),
                (seq![tag.spec_byte()] + enc_len(es.len()) + enc_list(es, false)).len() as nat,
            ),
        ),
    decreases es, 2nat, 0nat,
{
    let lenc = enc_len(es.len());
    let body = enc_list(es, false);
    let s = seq![tag.spec_byte()] + lenc + body + rest;
    lemma_len_range();
    assert(s[0] == tag.spec_byte());
    assert(s.skip(1) =~= lenc + (body + rest));
    lemma_dec_uint_compact(es.len(), 8, body + rest);
    let used = lenc.len();
    assert(s.skip(1 + used as int) =~= body + rest);
    lemma_dec_enc_list(es, rest);
}

/// Round trip for a run of elements read with a known count.
proof fn lemma_dec_enc_list(es: Seq<ValueM>, rest: Seq<u8>)
    requires
        wf_list(es),
        schema_free_list(es),
    ensures
        dec_list_sized(enc_list(es, false) + rest, es.len()) == Some(
            (norm_list(es), enc_list(es, false).len() as nat),
        ),
    decreases es, 1nat, 0nat,
{
    if es.len() == 0 {
        assert(enc_list(es, false) =~= Seq::<u8>::empty());
    } else {
        let e0 = enc_value(es[0], false);
        let tail = enc_list(es.skip(1), false);
        let s = enc_list(es, false) + rest;
        assert(s =~= e0 + (tail + rest));
        lemma_dec_enc(es[0], tail + rest);
        lemma_enc_head(es[0], false);
        assert(s.skip(e0.len() as int) =~= tail + rest);
        lemma_dec_enc_list(es.skip(1), rest);
        assert(seq![norm(es[0])] + norm_list(es.skip(1)) =~= norm_list(es));
    }
}

/// Round trip for a run of elements read up to the end marker: exactly the
/// elements written come back, and the marker is consumed.
pub proof fn lemma_dec_enc_list_unsized(es: Seq<ValueM>, rest: Seq<u8>)
    requires
        wf_list(es),
        schema_free_list(es),
    ensures
        dec_list_unsized(enc_list(es, false) + seq![Tag::UnsizedSeqEnd.spec_byte()] + rest)
            == Some((norm_list(es), (enc_list(es, false).len() + 1) as nat)),
    decreases es, 1nat, 0nat,
{
    let marker = seq![Tag::UnsizedSeqEnd.spec_byte()];
    let s = enc_list(es, false) + marker + rest;
    if es.len() == 0 {
        assert(enc_list(es, false) =~= Seq::<u8>::empty());
        assert(s[0] == Tag::UnsizedSeqEnd.spec_byte());
    } else {
        let e0 = enc_value(es[0], false);
        let tail = enc_list(es.skip(1), false);
        lemma_enc_head(es[0], false);
        assert(s =~= e0 + (tail + marker + rest));
        assert(s[0] == e0[0]);
        lemma_dec_enc(es[0], tail + marker + rest);
        assert(s.skip(e0.len() as int) =~= tail + marker + rest);
        lemma_dec_enc_list_unsized(es.skip(1), rest);
        assert(seq![norm(es[0])] + norm_list(es.skip(1)) =~= norm_list(es));
    }
}

/// Round trip for a length-prefixed entry composite.
proof fn lemma_dec_enc_sized_pairs(tag: Tag, ps: Seq<(ValueM, ValueM)>, rest: Seq<u8>)
    requires
        tag == Tag::SizedMap,
        ps.len() <= usize::MAX,
        wf_pairs(ps),
        schema_free_pairs(ps),
    ensures
        dec_any(seq![tag.spec_byte()] + enc_len(ps.len()) + enc_pairs(ps, false) + rest) == Some(
            (
                ValueM::SizedMap(norm_pairs(ps)),
                (seq![tag.spec_byte()] + enc_len(ps.len()) + enc_pairs(ps, false)).len() as nat,
            ),
        ),
    decreases ps, 2nat, 0nat,
{
    let lenc = enc_len(ps.len());
    let body = enc_pairs(ps, false);
    let s = seq![tag.spec_byte()] + lenc + body + rest;
    lemma_len_range();
    assert(s[0] == tag.spec_byte());
    assert(s.skip(1) =~= lenc + (body + rest));
    lemma_dec_uint_compact(ps.len(), 8, body + rest);
    let used = lenc.len();
    assert(s.skip(1 + used as int) =~= body + rest);
    lemma_dec_enc_pairs(ps, rest);
}

/// Round trip for a run of entries read with a known count.
proof fn lemma_dec_enc_pairs(ps: Seq<(ValueM, ValueM)>, rest: Seq<u8>)
    requires
        wf_pairs(ps),
        schema_free_pairs(ps),
    ensures
        dec_pairs_sized(enc_pairs(ps, false) + rest, ps.len()) == Some(
            (norm_pairs(ps), enc_pairs(ps, false).len() as nat),
        ),
    decreases ps, 1nat, 0nat,
{
    if ps.len() == 0 {
        assert(enc_pairs(ps, false) =~= Seq::<u8>::empty());
    } else {
        let ek = enc_value(ps[0].0, false);
        let ev = enc_value(ps[0].1, false);
        let tail = enc_pairs(ps.skip(1), false);
        let s = enc_pairs(ps, false) + rest;
        assert(s =~= ek + (ev + (tail + rest)));
        lemma_dec_enc(ps[0].0, ev + (tail + rest));
        lemma_enc_head(ps[0].0, false);
        assert(s.skip(ek.len() as int) =~= ev + (tail + rest));
        lemma_dec_enc(ps[0].1, tail + rest);
        lemma_enc_head(ps[0].1, false);
        assert(s.skip(ek.len() as int + ev.len() as int) =~= tail + rest);
        lemma_dec_enc_pairs(ps.skip(1), rest);
        assert(seq![(norm(ps[0].0), norm(ps[0].1))] + norm_pairs(ps.skip(1)) =~= norm_pairs(ps));
    }
}

/// Round trip for a run of entries read up to the end marker.
pub proof fn lemma_dec_enc_pairs_unsized(ps: Seq<(ValueM, ValueM)>, rest: Seq<u8>)
    requires
        wf_pairs(ps),
        schema_free_pairs(ps),
    ensures
        dec_pairs_unsized(enc_pairs(ps, false) + seq![Tag::UnsizedSeqEnd.spec_byte()] + rest)
            == Some((norm_pairs(ps), (enc_pairs(ps, false).len() + 1) as nat)),
    decreases ps, 1nat, 0nat,
{
    let marker = seq![Tag::UnsizedSeqEnd.spec_byte()];
    let s = enc_pairs(ps, false) + marker + rest;
    if ps.len() == 0 {
        assert(enc_pairs(ps, false) =~= Seq::<u8>::empty());
        assert(s[0] == Tag::UnsizedSeqEnd.spec_byte());
    } else {
        let ek = enc_value(ps[0].0, false);
        let ev = enc_value(ps[0].1, false);
        let tail = enc_pairs(ps.skip(1), false);
        lemma_enc_head(ps[0].0, false);
        lemma_enc_head(ps[0].1, false);
        assert(s =~= ek + (ev + (tail + marker + rest)));
        assert(s[0] == ek[0]);
        lemma_dec_enc(ps[0].0, ev + (tail + marker + rest));
        assert(s.skip(ek.len() as int) =~= ev + (tail + marker + rest));
        lemma_dec_enc(ps[0].1, tail + marker + rest);
        assert(s.skip(ek.len() as int + ev.len() as int) =~= tail + marker + rest);
        lemma_dec_enc_pairs_unsized(ps.skip(1), rest);
        assert(seq![(norm(ps[0].0), norm(ps[0].1))] + norm_pairs(ps.skip(1)) =~= norm_pairs(ps));
    }
}

/// Round trip for a named aggregate: its fields come back as a sized map
/// keyed by the field names as text.
proof fn lemma_dec_enc_struct(fs: Seq<(Seq<char>, ValueM)>, rest: Seq<u8>)
    requires
        fs.len() <= usize::MAX,
        wf_fields(fs),
        schema_free_fields(fs),
    ensures
        dec_any(seq![Tag::Struct.spec_byte()] + enc_len(fs.len()) + enc_fields(fs, false) + rest)
            == Some(
            (
                ValueM::SizedMap(norm_fields(fs)),
                (seq![Tag::Struct.spec_byte()] + enc_len(fs.len()) + enc_fields(fs, false)).len()
                    as nat,
            ),
        ),
    decreases fs, 2nat, 0nat,
{
    let lenc = enc_len(fs.len());
    let body = enc_fields(fs, false);
    let s = seq![Tag::Struct.spec_byte()] + lenc + body + rest;
    lemma_len_range();
    assert(s[0] == Tag::Struct.spec_byte());
    assert(s.skip(1) =~= lenc + (body + rest));
    lemma_dec_uint_compact(fs.len(), 8, body + rest);
    let used = lenc.len();
    assert(s.skip(1 + used as int) =~= body + rest);
    lemma_dec_enc_fields(fs, rest);
}

/// Round trip for a run of named fields read with a known count: each
/// name decodes as text, each value as itself.
proof fn lemma_dec_enc_fields(fs: Seq<(Seq<char>, ValueM)>, rest: Seq<u8>)
    requires
        wf_fields(fs),
        schema_free_fields(fs),
    ensures
        dec_pairs_sized(enc_fields(fs, false) + rest, fs.len()) == Some(
            (norm_fields(fs), enc_fields(fs, false).len() as nat),
        ),
    decreases fs, 1nat, 0nat,
{
    if fs.len() == 0 {
        assert(enc_fields(fs, false) =~= Seq::<u8>::empty());
    } else {
        let ek = enc_text(fs[0].0);
        let ev = enc_value(fs[0].1, false);
        let tail = enc_fields(fs.skip(1), false);
        let s = enc_fields(fs, false) + rest;
        assert(s =~= ek + (ev + (tail + rest)));
        lemma_dec_enc_text(fs[0].0, ev + (tail + rest));
        assert(s.skip(ek.len() as int) =~= ev + (tail + rest));
        lemma_dec_enc(fs[0].1, tail + rest);
        lemma_enc_head(fs[0].1, false);
        assert(ek.len() >= 1);
        assert(s.skip(ek.len() as int + ev.len() as int) =~= tail + rest);
        lemma_dec_enc_fields(fs.skip(1), rest);
        assert(seq![(ValueM::Text(fs[0].0), norm(fs[0].1))] + norm_fields(fs.skip(1))
            =~= norm_fields(fs));
    }
}

/// Length-prefixed and streaming framings of the same elements decode to
/// the same element list: only the collection's own marker differs.
pub proof fn lemma_sized_streaming_equivalence(es: Seq<ValueM>, rest1: Seq<u8>, rest2: Seq<u8>)
    requires
        es.len() <= usize::MAX,
        wf_list(es),
        schema_free_list(es),
    ensures
        dec_any(enc_value(ValueM::SizedSeq(es), false) + rest1) matches Some((v1, _))
            && v1 == ValueM::SizedSeq(norm_list(es)),
        dec_any(enc_value(ValueM::UnsizedSeq(es), false) + rest2) matches Some((v2, _))
            && v2 == ValueM::UnsizedSeq(norm_list(es)),
{
    lemma_dec_enc(ValueM::SizedSeq(es), rest1);
    lemma_dec_enc(ValueM::UnsizedSeq(es), rest2);
}

} // verus!


verus! {

/// Every value is loosely equal to its decoder's shape: normalization
/// only renames shapes that the loose equality already identifies.
pub proof fn lemma_norm_loose_eq(m: ValueM)
    ensures
        crate::value::val_eq(m, crate::value::norm(m)),
    decreases m, 2nat, 0nat,
{
    match m {
        ValueM::Present(b) => {
            lemma_norm_loose_eq(*b);
        },
        ValueM::NewTypeStruct(b) => {
            lemma_norm_loose_eq(*b);
        },
        ValueM::NewTypeVariant(_, b) => {
            lemma_norm_loose_eq(*b);
        },
        ValueM::SizedSeq(es) => {
            lemma_norm_loose_eq_list(es);
        },
        ValueM::UnsizedSeq(es) => {
            lemma_norm_loose_eq_list(es);
        },
        ValueM::Tuple(es) => {
            lemma_norm_loose_eq_list(es);
        },
        ValueM::TupleStruct(es) => {
            lemma_norm_loose_eq_list(es);
        },
        ValueM::TupleVariant(_, es) => {
            lemma_norm_loose_eq_list(es);
        },
        ValueM::SizedMap(ps) => {
            lemma_norm_loose_eq_pairs(ps);
        },
        ValueM::UnsizedMap(ps) => {
            lemma_norm_loose_eq_pairs(ps);
        },
        ValueM::StructVariant(_, ps) => {
            lemma_norm_loose_eq_pairs(ps);
        },
        ValueM::Struct(fs) => {
            lemma_norm_loose_eq_fields(fs);
        },
        _ => {},
    }
}

/// Elementwise form of [`lemma_norm_loose_eq`].
proof fn lemma_norm_loose_eq_list(es: Seq<ValueM>)
    ensures
        crate::value::val_eq_list(es, crate::value::norm_list(es)),
    decreases es, 1nat, 0nat,
{
    if es.len() > 0 {
        lemma_norm_loose_eq(es[0]);
        lemma_norm_loose_eq_list(es.skip(1));
        assert(crate::value::norm_list(es).skip(1) =~= crate::value::norm_list(es.skip(1)));
    }
}

/// Entrywise form of [`lemma_norm_loose_eq`].
proof fn lemma_norm_loose_eq_pairs(ps: Seq<(ValueM, ValueM)>)
    ensures
        crate::value::val_eq_pairs(ps, crate::value::norm_pairs(ps)),
    decreases ps, 1nat, 0nat,
{
    if ps.len() > 0 {
        lemma_norm_loose_eq(ps[0].0);
        lemma_norm_loose_eq(ps[0].1);
        lemma_norm_loose_eq_pairs(ps.skip(1));
        assert(crate::value::norm_pairs(ps).skip(1) =~= crate::value::norm_pairs(ps.skip(1)));
    }
}

/// Fieldwise form of [`lemma_norm_loose_eq`]: a named aggregate is
/// loosely equal to the map that carries its names as text keys.
proof fn lemma_norm_loose_eq_fields(fs: Seq<(Seq<char>, ValueM)>)
    ensures
        crate::value::val_eq_fields_map(fs, crate::value::norm_fields(fs)),
    decreases fs, 1nat, 0nat,
{
    if fs.len() > 0 {
        lemma_norm_loose_eq(fs[0].1);
        lemma_norm_loose_eq_fields(fs.skip(1));
        assert(crate::value::norm_fields(fs).skip(1) =~= crate::value::norm_fields(fs.skip(1)));
    }
}

/// The round trip in one sentence: decoding the encoding of any
/// well-formed value that carries no out-of-band arity succeeds, consumes
/// exactly the encoding, and yields a value equal to the one written
/// under the codec's own equality.
pub proof fn lemma_round_trip(m: ValueM, rest: Seq<u8>)
    requires
        wf(m),
        schema_free(m),
    ensures
        dec_any(enc_value(m, false) + rest) matches Some((w, n)) && n == enc_value(
            m,
            false,
        ).len() && crate::value::val_eq(m, w),
{
    lemma_dec_enc(m, rest);
    lemma_norm_loose_eq(m);
}

} // verus!

verus! {

/// Compacted round trip for a signed integer: whatever narrower width the
/// writer picked, the decoder reads a signed shape carrying the same
/// mathematical value.
proof fn lemma_dec_enc_sint_compact(v: int, n: nat, rest: Seq<u8>)
    requires
        n == 1 || n == 2 || n == 4 || n == 8 || n == 16,
        -pow256(n) <= 2 * v < pow256(n),
    ensures
        dec_any(enc_sint(v, n, true) + rest) matches Some((w, used)) && used == enc_sint(
            v,
            n,
            true,
        ).len() && crate::value::sint_val(w) == Some(v),
{
    let w = if crate::wire::compact_swidth(v) < n {
        crate::wire::compact_swidth(v)
    } else {
        n
    };
    lemma_len_range();
    lemma_dec_enc_sint(v, w, rest);
    assert(enc_sint(v, n, true) == enc_sint_at(v, w));
}

/// Compacted round trip for an unsigned integer.
proof fn lemma_dec_enc_uint_compact(v: nat, n: nat, rest: Seq<u8>)
    requires
        n == 1 || n == 2 || n == 4 || n == 8 || n == 16,
        v < pow256(n),
    ensures
        dec_any(enc_uint(v, n, true) + rest) matches Some((w, used)) && used == enc_uint(
            v,
            n,
            true,
        ).len() && crate::value::uint_val(w) == Some(v),
{
    let w = if crate::wire::compact_width(v) < n {
        crate::wire::compact_width(v)
    } else {
        n
    };
    lemma_len_range();
    lemma_dec_enc_uint(v, w, rest);
    assert(enc_uint(v, n, true) == enc_uint_at(v, w));
}

/// Round trip under numeric compaction: decoding the compacted encoding
/// of any well-formed value that carries no out-of-band arity succeeds,
/// consumes exactly the encoding, and yields a value equal to the one
/// written under the codec's own equality — integers come back at the
/// narrower width the writer picked, with their value intact.
pub proof fn lemma_round_trip_compact(m: ValueM, rest: Seq<u8>)
    requires
        wf(m),
        schema_free(m),
    ensures
        dec_any(enc_value(m, true) + rest) matches Some((w, n)) && n == enc_value(
            m,
            true,
        ).len() && crate::value::val_eq(m, w),
    decreases m, 1nat, 0nat,
{
    match m {
        ValueM::Present(_) => lemma_dec_enc_compact_nested(m, rest),
        ValueM::NewTypeStruct(_) => lemma_dec_enc_compact_nested(m, rest),
        ValueM::NewTypeVariant(_, _) => lemma_dec_enc_compact_nested(m, rest),
        ValueM::SizedSeq(_) => lemma_dec_enc_compact_composite(m, rest),
        ValueM::UnsizedSeq(_) => lemma_dec_enc_compact_composite(m, rest),
        ValueM::Tuple(_) => lemma_dec_enc_compact_composite(m, rest),
        ValueM::TupleStruct(_) => lemma_dec_enc_compact_composite(m, rest),
        ValueM::SizedMap(_) => lemma_dec_enc_compact_composite(m, rest),
        ValueM::UnsizedMap(_) => lemma_dec_enc_compact_composite(m, rest),
        ValueM::Struct(_) => lemma_dec_enc_compact_composite(m, rest),
        ValueM::TupleVariant(_, _) => {
            assert(false);
        },
        ValueM::StructVariant(_, _) => {
            assert(false);
        },
        _ => lemma_dec_enc_compact_leaf(m, rest),
    }
}

/// The compacted round trip for every shape without children.
#[verifier::rlimit(60)]
#[verifier::spinoff_prover]
proof fn lemma_dec_enc_compact_leaf(m: ValueM, rest: Seq<u8>)
    requires
        wf(m),
        schema_free(m),
        !(m is Present),
        !(m is NewTypeStruct),
        !(m is NewTypeVariant),
        !(m is SizedSeq),
        !(m is UnsizedSeq),
        !(m is Tuple),
        !(m is TupleStruct),
        !(m is SizedMap),
        !(m is UnsizedMap),
        !(m is Struct),
        !(m is TupleVariant),
        !(m is StructVariant),
    ensures
        dec_any(enc_value(m, true) + rest) matches Some((w, n)) && n == enc_value(
            m,
            true,
        ).len() && crate::value::val_eq(m, w),
{
    let e = enc_value(m, true);
    let s = e + rest;
    lemma_len_range();
    match m {
        ValueM::Absent => {
            assert(s[0] == Tag::Absent.spec_byte());
        },
        ValueM::Bool(v) => {
            if v {
                assert(s[0] == Tag::BoolTrue.spec_byte());
            } else {
                assert(s[0] == Tag::BoolFalse.spec_byte());
            }
        },
        ValueM::I8(v) => {
            lemma_dec_enc_sint_compact(v as int, 1, rest);
        },
        ValueM::I16(v) => {
            lemma_dec_enc_sint_compact(v as int, 2, rest);
        },
        ValueM::I32(v) => {
            lemma_dec_enc_sint_compact(v as int, 4, rest);
        },
        ValueM::I64(v) => {
            lemma_dec_enc_sint_compact(v as int, 8, rest);
        },
        ValueM::I128(v) => {
            lemma_dec_enc_sint_compact(v as int, 16, rest);
        },
        ValueM::U8(v) => {
            lemma_dec_enc_uint_compact(v as nat, 1, rest);
        },
        ValueM::U16(v) => {
            lemma_dec_enc_uint_compact(v as nat, 2, rest);
        },
        ValueM::U32(v) => {
            lemma_dec_enc_uint_compact(v as nat, 4, rest);
        },
        ValueM::U64(v) => {
            lemma_dec_enc_uint_compact(v as nat, 8, rest);
        },
        ValueM::U128(v) => {
            lemma_dec_enc_uint_compact(v as nat, 16, rest);
        },
        ValueM::F32Bits(v) => {
            assert(s[0] == Tag::F32.spec_byte());
            lemma_be_bytes_len(v as nat, 4);
            assert(s.subrange(1, 5) =~= crate::wire::be_bytes(v as nat, 4));
            lemma_be_bytes_round_trip(v as nat, 4);
        },
        ValueM::F64Bits(v) => {
            assert(s[0] == Tag::F64.spec_byte());
            lemma_be_bytes_len(v as nat, 8);
            assert(s.subrange(1, 9) =~= crate::wire::be_bytes(v as nat, 8));
            lemma_be_bytes_round_trip(v as nat, 8);
        },
        ValueM::Char(ch) => {
            assert(enc_value(ValueM::Char(ch), true) == enc_value(ValueM::Char(ch), false));
            lemma_dec_enc_char(ch, rest);
        },
        ValueM::Text(t) => {
            assert(enc_value(ValueM::Text(t), true) == enc_text(t));
            lemma_dec_enc_text(t, rest);
        },
        ValueM::Bytes(bs) => {
            let lenc = enc_len(bs.len());
            assert(s[0] == Tag::Bytes.spec_byte());
            assert(s.skip(1) =~= lenc + (bs + rest));
            lemma_dec_uint_compact(bs.len(), 8, bs + rest);
            let used = lenc.len();
            assert(s.subrange(1 + used as int, 1 + used as int + bs.len() as int) =~= bs);
        },
        ValueM::Unit => {
            assert(s[0] == Tag::Unit.spec_byte());
        },
        ValueM::UnitStruct => {
            assert(s[0] == Tag::UnitStruct.spec_byte());
        },
        ValueM::UnitVariant(i) => {
            assert(s[0] == Tag::UnitVariant.spec_byte());
            assert(s.skip(1) =~= enc_variant_index(i as nat) + rest);
            lemma_dec_uint_compact(i as nat, 4, rest);
        },
        _ => {},
    }
}

/// The compacted round trip for the one-child wrappers.
#[verifier::rlimit(60)]
#[verifier::spinoff_prover]
proof fn lemma_dec_enc_compact_nested(m: ValueM, rest: Seq<u8>)
    requires
        wf(m),
        schema_free(m),
        m is Present || m is NewTypeStruct || m is NewTypeVariant,
    ensures
        dec_any(enc_value(m, true) + rest) matches Some((w, n)) && n == enc_value(
            m,
            true,
        ).len() && crate::value::val_eq(m, w),
    decreases m, 0nat, 1nat,
{
    let e = enc_value(m, true);
    let s = e + rest;
    lemma_len_range();
    match m {
        ValueM::Present(b) => {
            assert(s[0] == Tag::Present.spec_byte());
            assert(s.skip(1) =~= enc_value(*b, true) + rest);
            lemma_round_trip_compact(*b, rest);
        },
        ValueM::NewTypeStruct(b) => {
            assert(s[0] == Tag::NewTypeStruct.spec_byte());
            assert(s.skip(1) =~= enc_value(*b, true) + rest);
            lemma_round_trip_compact(*b, rest);
        },
        ValueM::NewTypeVariant(i, b) => {
            let idx = enc_variant_index(i as nat);
            assert(s[0] == Tag::NewTypeVariant.spec_byte());
            assert(s.skip(1) =~= idx + (enc_value(*b, true) + rest));
            lemma_dec_uint_compact(i as nat, 4, enc_value(*b, true) + rest);
            let used = idx.len();
            assert(s.skip(1 + used as int) =~= enc_value(*b, true) + rest);
            lemma_round_trip_compact(*b, rest);
        },
        _ => {},
    }
}

/// The compacted round trip for collection shapes.
#[verifier::rlimit(100)]
#[verifier::spinoff_prover]
proof fn lemma_dec_enc_compact_composite(m: ValueM, rest: Seq<u8>)
    requires
        wf(m),
        schema_free(m),
        m is SizedSeq || m is UnsizedSeq || m is Tuple || m is TupleStruct || m is SizedMap
            || m is UnsizedMap || m is Struct,
    ensures
        dec_any(enc_value(m, true) + rest) matches Some((w, n)) && n == enc_value(
            m,
            true,
        ).len() && crate::value::val_eq(m, w),
    decreases m, 0nat, 1nat,
{
    let e = enc_value(m, true);
    let s = e + rest;
    lemma_len_range();
    match m {
        ValueM::SizedSeq(es) => {
            lemma_dec_enc_compact_sized_list(Tag::SizedSeq, es, rest);
        },
        ValueM::Tuple(es) => {
            lemma_dec_enc_compact_sized_list(Tag::Tuple, es, rest);
        },
        ValueM::TupleStruct(es) => {
            lemma_dec_enc_compact_sized_list(Tag::TupleStruct, es, rest);
        },
        ValueM::UnsizedSeq(es) => {
            assert(s[0] == Tag::UnsizedSeq.spec_byte());
            assert(s.skip(1) =~= enc_list(es, true) + seq![Tag::UnsizedSeqEnd.spec_byte()]
                + rest);
            lemma_dec_enc_compact_list_unsized(es, rest);
        },
        ValueM::SizedMap(ps) => {
            let lenc = enc_len(ps.len());
            let body = enc_pairs(ps, true);
            assert(s[0] == Tag::SizedMap.spec_byte());
            assert(s.skip(1) =~= lenc + (body + rest));
            lemma_dec_uint_compact(ps.len(), 8, body + rest);
            let used = lenc.len();
            assert(s.skip(1 + used as int) =~= body + rest);
            lemma_dec_enc_compact_pairs(ps, rest);
        },
        ValueM::UnsizedMap(ps) => {
            assert(s[0] == Tag::UnsizedMap.spec_byte());
            assert(s.skip(1) =~= enc_pairs(ps, true) + seq![Tag::UnsizedSeqEnd.spec_byte()]
                + rest);
            lemma_dec_enc_compact_pairs_unsized(ps, rest);
        },
        ValueM::Struct(fs) => {
            let lenc = enc_len(fs.len());
            let body = enc_fields(fs, true);
            assert(s[0] == Tag::Struct.spec_byte());
            assert(s.skip(1) =~= lenc + (body + rest));
            lemma_dec_uint_compact(fs.len(), 8, body + rest);
            let used = lenc.len();
            assert(s.skip(1 + used as int) =~= body + rest);
            lemma_dec_enc_compact_fields(fs, rest);
        },
        _ => {},
    }
}

/// The compacted round trip for a length-prefixed element composite.
proof fn lemma_dec_enc_compact_sized_list(tag: Tag, es: Seq<ValueM>, rest: Seq<u8>)
    requires
        tag == Tag::SizedSeq || tag == Tag::Tuple || tag == Tag::TupleStruct,
        es.len() <= usize::MAX,
        wf_list(es),
        schema_free_list(es),
    ensures
        dec_any(seq![tag.spec_byte()] + enc_len(es.len()) + enc_list(es, true) + rest) matches Some(
            (w, n),
        ) && n == (seq![tag.spec_byte()] + enc_len(es.len()) + enc_list(es, true)).len() && (
        w matches ValueM::SizedSeq(ws) && crate::value::val_eq_list(es, ws)),
    decreases es, 2nat, 0nat,
{
    let lenc = enc_len(es.len());
    let body = enc_list(es, true);
    let s = seq![tag.spec_byte()] + lenc + body + rest;
    lemma_len_range();
    assert(s[0] == tag.spec_byte());
    assert(s.skip(1) =~= lenc + (body + rest));
    lemma_dec_uint_compact(es.len(), 8, body + rest);
    let used = lenc.len();
    assert(s.skip(1 + used as int) =~= body + rest);
    lemma_dec_enc_compact_list(es, rest);
}

/// Compacted elements read back with a known count, pairwise equal.
proof fn lemma_dec_enc_compact_list(es: Seq<ValueM>, rest: Seq<u8>)
    requires
        wf_list(es),
        schema_free_list(es),
    ensures
        dec_list_sized(enc_list(es, true) + rest, es.len()) matches Some((ws, n)) && n == enc_list(
            es,
            true,
        ).len() && crate::value::val_eq_list(es, ws),
    decreases es, 1nat, 0nat,
{
    if es.len() == 0 {
        assert(enc_list(es, true) =~= Seq::<u8>::empty());
    } else {
        let e0 = enc_value(es[0], true);
        let tail = enc_list(es.skip(1), true);
        let s = enc_list(es, true) + rest;
        assert(s =~= e0 + (tail + rest));
        lemma_round_trip_compact(es[0], tail + rest);
        lemma_enc_head(es[0], true);
        assert(s.skip(e0.len() as int) =~= tail + rest);
        lemma_dec_enc_compact_list(es.skip(1), rest);
        let w0 = dec_any(s)->Some_0.0;
        let ws1 = dec_list_sized(tail + rest, es.skip(1).len())->Some_0.0;
        assert((seq![w0] + ws1).skip(1) =~= ws1);
    }
}

/// Compacted elements read back up to the end marker, pairwise equal.
proof fn lemma_dec_enc_compact_list_unsized(es: Seq<ValueM>, rest: Seq<u8>)
    requires
        wf_list(es),
        schema_free_list(es),
    ensures
        dec_list_unsized(enc_list(es, true) + seq![Tag::UnsizedSeqEnd.spec_byte()] + rest)
            matches Some((ws, n)) && n == enc_list(es, true).len() + 1 && crate::value::val_eq_list(
            es,
            ws,
        ),
    decreases es, 1nat, 0nat,
{
    let marker = seq![Tag::UnsizedSeqEnd.spec_byte()];
    let s = enc_list(es, true) + marker + rest;
    if es.len() == 0 {
        assert(enc_list(es, true) =~= Seq::<u8>::empty());
        assert(s[0] == Tag::UnsizedSeqEnd.spec_byte());
    } else {
        let e0 = enc_value(es[0], true);
        let tail = enc_list(es.skip(1), true);
        lemma_enc_head(es[0], true);
        assert(s =~= e0 + (tail + marker + rest));
        assert(s[0] == e0[0]);
        lemma_round_trip_compact(es[0], tail + marker + rest);
        assert(s.skip(e0.len() as int) =~= tail + marker + rest);
        lemma_dec_enc_compact_list_unsized(es.skip(1), rest);
        let w0 = dec_any(s)->Some_0.0;
        let ws1 = dec_list_unsized(tail + marker + rest)->Some_0.0;
        assert((seq![w0] + ws1).skip(1) =~= ws1);
    }
}

/// Compacted entries read back with a known count, pairwise equal.
#[verifier::rlimit(100)]
#[verifier::spinoff_prover]
proof fn lemma_dec_enc_compact_pairs(ps: Seq<(ValueM, ValueM)>, rest: Seq<u8>)
    requires
        wf_pairs(ps),
        schema_free_pairs(ps),
    ensures
        dec_pairs_sized(enc_pairs(ps, true) + rest, ps.len()) matches Some((ws, n)) && n
            == enc_pairs(ps, true).len() && crate::value::val_eq_pairs(ps, ws),
    decreases ps, 1nat, 0nat,
{
    if ps.len() == 0 {
        assert(enc_pairs(ps, true) =~= Seq::<u8>::empty());
    } else {
        let ek = enc_value(ps[0].0, true);
        let ev = enc_value(ps[0].1, true);
        let tail = enc_pairs(ps.skip(1), true);
        let s = enc_pairs(ps, true) + rest;
        assert(s =~= ek + (ev + (tail + rest)));
        lemma_round_trip_compact(ps[0].0, ev + (tail + rest));
        lemma_enc_head(ps[0].0, true);
        assert(s.skip(ek.len() as int) =~= ev + (tail + rest));
        lemma_round_trip_compact(ps[0].1, tail + rest);
        lemma_enc_head(ps[0].1, true);
        assert(s.skip(ek.len() as int + ev.len() as int) =~= tail + rest);
        lemma_dec_enc_compact_pairs(ps.skip(1), rest);
        let wk = dec_any(s)->Some_0.0;
        let wv = dec_any(ev + (tail + rest))->Some_0.0;
        let ws1 = dec_pairs_sized(tail + rest, ps.skip(1).len())->Some_0.0;
        assert((seq![(wk, wv)] + ws1).skip(1) =~= ws1);
    }
}

/// Compacted entries read back up to the end marker, pairwise equal.
#[verifier::rlimit(100)]
#[verifier::spinoff_prover]
proof fn lemma_dec_enc_compact_pairs_unsized(ps: Seq<(ValueM, ValueM)>, rest: Seq<u8>)
    requires
        wf_pairs(ps),
        schema_free_pairs(ps),
    ensures
        dec_pairs_unsized(enc_pairs(ps, true) + seq![Tag::UnsizedSeqEnd.spec_byte()] + rest)
            matches Some((ws, n)) && n == enc_pairs(ps, true).len() + 1
            && crate::value::val_eq_pairs(ps, ws),
    decreases ps, 1nat, 0nat,
{
    let marker = seq![Tag::UnsizedSeqEnd.spec_byte()];
    let s = enc_pairs(ps, true) + marker + rest;
    if ps.len() == 0 {
        assert(enc_pairs(ps, true) =~= Seq::<u8>::empty());
        assert(s[0] == Tag::UnsizedSeqEnd.spec_byte());
    } else {
        let ek = enc_value(ps[0].0, true);
        let ev = enc_value(ps[0].1, true);
        let tail = enc_pairs(ps.skip(1), true);
        lemma_enc_head(ps[0].0, true);
        lemma_enc_head(ps[0].1, true);
        assert(s =~= ek + (ev + (tail + marker + rest)));
        assert(s[0] == ek[0]);
        lemma_round_trip_compact(ps[0].0, ev + (tail + marker + rest));
        assert(s.skip(ek.len() as int) =~= ev + (tail + marker + rest));
        lemma_round_trip_compact(ps[0].1, tail + marker + rest);
        assert(s.skip(ek.len() as int + ev.len() as int) =~= tail + marker + rest);
        lemma_dec_enc_compact_pairs_unsized(ps.skip(1), rest);
        let wk = dec_any(s)->Some_0.0;
        let wv = dec_any(ev + (tail + marker + rest))->Some_0.0;
        let ws1 = dec_pairs_unsized(tail + marker + rest)->Some_0.0;
        assert((seq![(wk, wv)] + ws1).skip(1) =~= ws1);
    }
}

/// Compacted named fields read back as entries: each key exactly the
/// field's name as text, each value equal under the codec's equality.
#[verifier::rlimit(100)]
#[verifier::spinoff_prover]
proof fn lemma_dec_enc_compact_fields(fs: Seq<(Seq<char>, ValueM)>, rest: Seq<u8>)
    requires
        wf_fields(fs),
        schema_free_fields(fs),
    ensures
        dec_pairs_sized(enc_fields(fs, true) + rest, fs.len()) matches Some((ws, n)) && n
            == enc_fields(fs, true).len() && crate::value::val_eq_fields_map(fs, ws),
    decreases fs, 1nat, 0nat,
{
    if fs.len() == 0 {
        assert(enc_fields(fs, true) =~= Seq::<u8>::empty());
    } else {
        let ek = enc_text(fs[0].0);
        let ev = enc_value(fs[0].1, true);
        let tail = enc_fields(fs.skip(1), true);
        let s = enc_fields(fs, true) + rest;
        assert(s =~= ek + (ev + (tail + rest)));
        lemma_dec_enc_text(fs[0].0, ev + (tail + rest));
        assert(s.skip(ek.len() as int) =~= ev + (tail + rest));
        lemma_round_trip_compact(fs[0].1, tail + rest);
        lemma_enc_head(fs[0].1, true);
        assert(ek.len() >= 1);
        assert(s.skip(ek.len() as int + ev.len() as int) =~= tail + rest);
        lemma_dec_enc_compact_fields(fs.skip(1), rest);
        let wv = dec_any(ev + (tail + rest))->Some_0.0;
        let ws1 = dec_pairs_sized(tail + rest, fs.skip(1).len())->Some_0.0;
        assert((seq![(ValueM::Text(fs[0].0), wv)] + ws1).skip(1) =~= ws1);
    }
}

} // verus!
