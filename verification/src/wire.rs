//! The mathematical model of the wire format: big-endian byte strings,
//! compacted integer encodings, and the decoders that read them back.
//!
//! Everything here is specification; the executable engine in `ser` and `de`
//! is proved against these functions.

use vstd::prelude::*;

use crate::tag::Tag;

verus! {

/// 256 raised to the given power: the number of values that fit in `n`
/// bytes.
pub open spec fn pow256(n: nat) -> nat
    decreases n,
{
    if n == 0 {
        1
    } else {
        256 * pow256((n - 1) as nat)
    }
}

/// The big-endian byte string of `v` written in exactly `n` bytes.
pub open spec fn be_bytes(v: nat, n: nat) -> Seq<u8>
    recommends
        v < pow256(n),
    decreases n,
{
    if n == 0 {
        Seq::empty()
    } else {
        be_bytes(v / 256, (n - 1) as nat) + seq![(v % 256) as u8]
    }
}

/// The value of a big-endian byte string.
pub open spec fn from_be(s: Seq<u8>) -> nat
    decreases s.len(),
{
    if s.len() == 0 {
        0
    } else {
        from_be(s.drop_last()) * 256 + s.last() as nat
    }
}

/// A big-endian byte string has exactly the requested length.
pub proof fn lemma_be_bytes_len(v: nat, n: nat)
    ensures
        be_bytes(v, n).len() == n,
    decreases n,
{
    if n > 0 {
        lemma_be_bytes_len(v / 256, (n - 1) as nat);
    }
}

/// Reading back the big-endian bytes of a value below `256^n` yields the
/// value.
pub proof fn lemma_be_bytes_round_trip(v: nat, n: nat)
    requires
        v < pow256(n),
    ensures
        from_be(be_bytes(v, n)) == v,
    decreases n,
{
    if n == 0 {
    } else {
        let s = be_bytes(v, n);
        lemma_be_bytes_len(v / 256, (n - 1) as nat);
        assert(s.drop_last() =~= be_bytes(v / 256, (n - 1) as nat));
        assert(v / 256 < pow256((n - 1) as nat)) by {
            assert(pow256(n) == 256 * pow256((n - 1) as nat));
            assert(v / 256 * 256 <= v) by (nonlinear_arith);
            assert(v / 256 < pow256((n - 1) as nat)) by (nonlinear_arith)
                requires
                    v < 256 * pow256((n - 1) as nat),
                    v / 256 * 256 <= v,
            ;
        }
        lemma_be_bytes_round_trip(v / 256, (n - 1) as nat);
        assert(from_be(s) == (v / 256) * 256 + v % 256);
        assert((v / 256) * 256 + v % 256 == v) by (nonlinear_arith);
    }
}

/// Larger widths admit more values.
pub proof fn lemma_pow256_mono(a: nat, b: nat)
    requires
        a <= b,
    ensures
        pow256(a) <= pow256(b),
    decreases b,
{
    if a < b {
        lemma_pow256_mono(a, (b - 1) as nat);
        assert(pow256(b) == 256 * pow256((b - 1) as nat));
    }
}

/// The value of a big-endian byte string is below `256^len`.
pub proof fn lemma_from_be_bound(s: Seq<u8>)
    ensures
        from_be(s) < pow256(s.len()),
    decreases s.len(),
{
    if s.len() > 0 {
        lemma_from_be_bound(s.drop_last());
        assert(from_be(s.drop_last()) * 256 + 255 < pow256(s.len())) by (nonlinear_arith)
            requires
                from_be(s.drop_last()) < pow256((s.len() - 1) as nat),
                pow256(s.len()) == 256 * pow256((s.len() - 1) as nat),
        ;
    }
}

/// The number of payload bytes behind a numeric tag, counted without its
/// tag byte.
pub open spec fn uint_width(tag: Tag) -> nat {
    match tag {
        Tag::U8 | Tag::I8 => 1,
        Tag::U16 | Tag::I16 => 2,
        Tag::U32 | Tag::I32 => 4,
        Tag::U64 | Tag::I64 => 8,
        Tag::U128 | Tag::I128 => 16,
        _ => 0,
    }
}

/// The tag of an unsigned integer of `n` payload bytes.
pub open spec fn uint_tag(n: nat) -> Tag {
    if n == 1 {
        Tag::U8
    } else if n == 2 {
        Tag::U16
    } else if n == 4 {
        Tag::U32
    } else if n == 8 {
        Tag::U64
    } else {
        Tag::U128
    }
}

/// The tag of a signed integer of `n` payload bytes.
pub open spec fn sint_tag(n: nat) -> Tag {
    if n == 1 {
        Tag::I8
    } else if n == 2 {
        Tag::I16
    } else if n == 4 {
        Tag::I32
    } else if n == 8 {
        Tag::I64
    } else {
        Tag::I128
    }
}

/// An unsigned integer written at exactly `n` payload bytes: its tag byte,
/// then `n` big-endian bytes.
pub open spec fn enc_uint_at(v: nat, n: nat) -> Seq<u8>
    recommends
        v < pow256(n),
{
    seq![uint_tag(n).spec_byte()] + be_bytes(v, n)
}

/// The number of payload bytes the compacted encoding picks for an unsigned
/// value: the narrowest of 1, 2, 4, 8 or 16 that holds it.
pub open spec fn compact_width(v: nat) -> nat {
    if v < pow256(1) {
        1
    } else if v < pow256(2) {
        2
    } else if v < pow256(4) {
        4
    } else if v < pow256(8) {
        8
    } else {
        16
    }
}

/// An unsigned integer in compacted form: written at the narrowest width
/// that holds it, capped at `n` payload bytes.
pub open spec fn enc_uint_compact(v: nat, n: nat) -> Seq<u8>
    recommends
        v < pow256(n),
{
    if compact_width(v) < n {
        enc_uint_at(v, compact_width(v))
    } else {
        enc_uint_at(v, n)
    }
}

/// An unsigned integer of declared width `n`, compacted only when the mode
/// asks for it.
pub open spec fn enc_uint(v: nat, n: nat, compact: bool) -> Seq<u8>
    recommends
        v < pow256(n),
{
    if compact {
        enc_uint_compact(v, n)
    } else {
        enc_uint_at(v, n)
    }
}

/// The two's-complement representation of a signed value in `n` bytes.
pub open spec fn to_unsigned(v: int, n: nat) -> nat
    recommends
        -pow256(n) <= 2 * v < pow256(n),
{
    if v >= 0 {
        v as nat
    } else {
        (v + pow256(n)) as nat
    }
}

/// The signed value of an `n`-byte two's-complement representation.
pub open spec fn to_signed(raw: nat, n: nat) -> int
    recommends
        raw < pow256(n),
{
    if 2 * raw < pow256(n) {
        raw as int
    } else {
        raw - pow256(n)
    }
}

/// Two's complement at a fixed width is invertible.
pub proof fn lemma_signed_round_trip(v: int, n: nat)
    requires
        n > 0,
        -pow256(n) <= 2 * v < pow256(n),
    ensures
        to_unsigned(v, n) < pow256(n),
        to_signed(to_unsigned(v, n), n) == v,
{
}

/// A signed integer written at exactly `n` payload bytes: its tag byte,
/// then the two's complement of the value, big-endian.
pub open spec fn enc_sint_at(v: int, n: nat) -> Seq<u8>
    recommends
        -pow256(n) <= 2 * v < pow256(n),
{
    seq![sint_tag(n).spec_byte()] + be_bytes(to_unsigned(v, n), n)
}

/// The number of payload bytes the compacted encoding picks for a signed
/// value: the narrowest of 1, 2, 4, 8 or 16 whose two's-complement range
/// holds it.
pub open spec fn compact_swidth(v: int) -> nat {
    if -pow256(1) <= 2 * v < pow256(1) {
        1
    } else if -pow256(2) <= 2 * v < pow256(2) {
        2
    } else if -pow256(4) <= 2 * v < pow256(4) {
        4
    } else if -pow256(8) <= 2 * v < pow256(8) {
        8
    } else {
        16
    }
}

/// A signed integer of declared width `n`, compacted only when the mode
/// asks for it.
pub open spec fn enc_sint(v: int, n: nat, compact: bool) -> Seq<u8>
    recommends
        -pow256(n) <= 2 * v < pow256(n),
{
    if compact && compact_swidth(v) < n {
        enc_sint_at(v, compact_swidth(v))
    } else {
        enc_sint_at(v, n)
    }
}

/// Reads an unsigned integer whose declared width is `n` payload bytes.
/// The first byte must be the unsigned tag of `n` bytes or of any narrower
/// width; the value is zero-extended.  Yields the value and the number of
/// bytes consumed, or nothing when the input does not start with such an
/// encoding.
pub open spec fn dec_uint(s: Seq<u8>, n: nat) -> Option<(nat, nat)> {
    if s.len() >= 1 {
        match Tag::spec_from_byte(s[0]) {
            Some(t) => {
                let w = uint_width(t);
                if t == uint_tag(w) && 0 < w <= n && s.len() >= 1 + w {
                    Some((from_be(s.subrange(1, 1 + w as int)), (1 + w) as nat))
                } else {
                    None
                }
            },
            None => None,
        }
    } else {
        None
    }
}

/// Reads a signed integer whose declared width is `n` payload bytes.  The
/// first byte must be the signed tag of `n` bytes or of any narrower width;
/// the value is sign-extended.
pub open spec fn dec_sint(s: Seq<u8>, n: nat) -> Option<(int, nat)> {
    if s.len() >= 1 {
        match Tag::spec_from_byte(s[0]) {
            Some(t) => {
                let w = uint_width(t);
                if t == sint_tag(w) && 0 < w <= n && s.len() >= 1 + w {
                    Some((to_signed(from_be(s.subrange(1, 1 + w as int)), w), (1 + w) as nat))
                } else {
                    None
                }
            },
            None => None,
        }
    } else {
        None
    }
}

/// A length or a variant index on the wire: always the compacted unsigned
/// encoding at up to 8 payload bytes, whatever the surrounding mode.
pub open spec fn enc_len(v: nat) -> Seq<u8>
    recommends
        v < pow256(8),
{
    enc_uint_compact(v, 8)
}

/// A variant index on the wire: the compacted unsigned encoding at up to 4
/// payload bytes.
pub open spec fn enc_variant_index(v: nat) -> Seq<u8>
    recommends
        v < pow256(4),
{
    enc_uint_compact(v, 4)
}

/// Decoding an unsigned encoding written at any admissible width yields the
/// value written: the reader accepts every width no wider than its target.
pub proof fn lemma_dec_uint_at(v: nat, w: nat, n: nat, rest: Seq<u8>)
    requires
        0 < w <= n,
        w == 1 || w == 2 || w == 4 || w == 8 || w == 16,
        v < pow256(w),
    ensures
        dec_uint(enc_uint_at(v, w) + rest, n) == Some((v, (1 + w) as nat)),
{
    let s = enc_uint_at(v, w) + rest;
    lemma_be_bytes_len(v, w);
    assert(s[0] == uint_tag(w).spec_byte());
    assert(Tag::spec_from_byte(s[0]) == Some(uint_tag(w)));
    assert(uint_width(uint_tag(w)) == w);
    assert(s.subrange(1, 1 + w as int) =~= be_bytes(v, w));
    lemma_be_bytes_round_trip(v, w);
}

/// Decoding a compacted unsigned encoding yields the value written.
pub proof fn lemma_dec_uint_compact(v: nat, n: nat, rest: Seq<u8>)
    requires
        n == 1 || n == 2 || n == 4 || n == 8 || n == 16,
        v < pow256(n),
    ensures
        dec_uint(enc_uint_compact(v, n) + rest, n) == Some(
            (v, enc_uint_compact(v, n).len() as nat),
        ),
        2 <= enc_uint_compact(v, n).len() <= 1 + n,
{
    if compact_width(v) < n {
        lemma_dec_uint_at(v, compact_width(v), n, rest);
        lemma_be_bytes_len(v, compact_width(v));
    } else {
        lemma_dec_uint_at(v, n, n, rest);
        lemma_be_bytes_len(v, n);
    }
}

/// Decoding a signed encoding written at any admissible width yields the
/// value written.
pub proof fn lemma_dec_sint_at(v: int, w: nat, n: nat, rest: Seq<u8>)
    requires
        0 < w <= n,
        w == 1 || w == 2 || w == 4 || w == 8 || w == 16,
        -pow256(w) <= 2 * v < pow256(w),
    ensures
        dec_sint(enc_sint_at(v, w) + rest, n) == Some((v, (1 + w) as nat)),
{
    let s = enc_sint_at(v, w) + rest;
    lemma_signed_round_trip(v, w);
    lemma_be_bytes_len(to_unsigned(v, w), w);
    assert(s[0] == sint_tag(w).spec_byte());
    assert(Tag::spec_from_byte(s[0]) == Some(sint_tag(w)));
    assert(uint_width(sint_tag(w)) == w);
    assert(s.subrange(1, 1 + w as int) =~= be_bytes(to_unsigned(v, w), w));
    lemma_be_bytes_round_trip(to_unsigned(v, w), w);
}

/// Decoding a compacted signed encoding yields the value written.
pub proof fn lemma_dec_sint_compact(v: int, n: nat, rest: Seq<u8>)
    requires
        n == 1 || n == 2 || n == 4 || n == 8 || n == 16,
        -pow256(n) <= 2 * v < pow256(n),
    ensures
        dec_sint(enc_sint(v, n, true) + rest, n) matches Some((got, used)) && got == v,
{
    if compact_swidth(v) < n {
        lemma_dec_sint_at(v, compact_swidth(v), n, rest);
    } else {
        lemma_dec_sint_at(v, n, n, rest);
    }
}

} // verus!
