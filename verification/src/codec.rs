//! Serialization of the surface's painted content into a storable byte
//! string, and its inverse. Every numeric field of a segment is written as
//! eight lowercase hexadecimal ASCII digits, so a snapshot is printable and
//! fits a textual key-value store. Decoding accepts uppercase digits too.
//!
//! Coordinates are signed; they are stored with a fixed bias of `2^31` so
//! that the stored field is an unsigned number.

use vstd::prelude::*;

use crate::surface::Point;
use crate::surface::Segment;

verus! {

/// Bytes one segment occupies in the encoding: six fields of eight digits.
pub const SEGMENT_BYTES: usize = 48;

/// The hexadecimal ASCII digit for a value below sixteen.
pub open spec fn spec_hex_digit(d: u32) -> u8
    recommends
        d < 16,
{
    if d < 10 {
        (d + 48) as u8
    } else {
        (d + 87) as u8
    }
}

/// The value of a hexadecimal ASCII digit, lowercase or uppercase;
/// `None` for any other byte.
pub open spec fn spec_hex_val(b: u8) -> Option<u32> {
    if 48 <= b && b <= 57 {
        Some((b - 48) as u32)
    } else if 97 <= b && b <= 102 {
        Some((b - 87) as u32)
    } else if 65 <= b && b <= 70 {
        Some((b - 55) as u32)
    } else {
        None
    }
}

/// Reading back an emitted digit yields the value it was made from.
pub proof fn lemma_hex_digit_roundtrip(d: u32)
    requires
        d < 16,
    ensures
        spec_hex_val(spec_hex_digit(d)) == Some(d),
{
}

/// A coordinate shifted by the fixed bias, making it non-negative.
pub open spec fn spec_coord_enc(x: i32) -> u32 {
    (x + 0x8000_0000) as u32
}

/// The inverse shift, back to a signed coordinate.
pub open spec fn spec_coord_dec(v: u32) -> i32 {
    (v - 0x8000_0000) as i32
}

/// Biasing then unbiasing a coordinate returns it unchanged.
pub proof fn lemma_coord_roundtrip(x: i32)
    ensures
        spec_coord_dec(spec_coord_enc(x)) == x,
{
}

/// The eight hexadecimal digits of a 32-bit value, most significant first.
pub open spec fn spec_encode_u32(n: u32) -> Seq<u8> {
    seq![
        spec_hex_digit((n >> 28) & 0xF),
        spec_hex_digit((n >> 24) & 0xF),
        spec_hex_digit((n >> 20) & 0xF),
        spec_hex_digit((n >> 16) & 0xF),
        spec_hex_digit((n >> 12) & 0xF),
        spec_hex_digit((n >> 8) & 0xF),
        spec_hex_digit((n >> 4) & 0xF),
        spec_hex_digit(n & 0xF),
    ]
}

/// The 32-bit value assembled from eight digit values, most significant
/// first.
pub open spec fn spec_combine(
    v0: u32,
    v1: u32,
    v2: u32,
    v3: u32,
    v4: u32,
    v5: u32,
    v6: u32,
    v7: u32,
) -> u32
    recommends
        v0 < 16,
        v1 < 16,
        v2 < 16,
        v3 < 16,
        v4 < 16,
        v5 < 16,
        v6 < 16,
        v7 < 16,
{
    (v0 << 28) | (v1 << 24) | (v2 << 20) | (v3 << 16) | (v4 << 12) | (v5 << 8) | (v6 << 4) | v7
}

/// The 32-bit value read from eight bytes, if all eight are hexadecimal
/// digits; `None` otherwise.
pub open spec fn spec_decode_u32(s: Seq<u8>) -> Option<u32>
    recommends
        s.len() == 8,
{
    if s.len() == 8 && (forall|i: int| 0 <= i < 8 ==> spec_hex_val(s[i]) is Some) {
        Some(
            spec_combine(
                spec_hex_val(s[0])->0,
                spec_hex_val(s[1])->0,
                spec_hex_val(s[2])->0,
                spec_hex_val(s[3])->0,
                spec_hex_val(s[4])->0,
                spec_hex_val(s[5])->0,
                spec_hex_val(s[6])->0,
                spec_hex_val(s[7])->0,
            ),
        )
    } else {
        None
    }
}

/// Decoding the eight digits of a value yields that value.
pub proof fn lemma_u32_roundtrip(n: u32)
    ensures
        spec_decode_u32(spec_encode_u32(n)) == Some(n),
{
    let s = spec_encode_u32(n);
    assert((n >> 28) & 0xF < 16) by (bit_vector);
    assert((n >> 24) & 0xF < 16) by (bit_vector);
    assert((n >> 20) & 0xF < 16) by (bit_vector);
    assert((n >> 16) & 0xF < 16) by (bit_vector);
    assert((n >> 12) & 0xF < 16) by (bit_vector);
    assert((n >> 8) & 0xF < 16) by (bit_vector);
    assert((n >> 4) & 0xF < 16) by (bit_vector);
    assert(n & 0xF < 16) by (bit_vector);
    lemma_hex_digit_roundtrip((n >> 28) & 0xF);
    lemma_hex_digit_roundtrip((n >> 24) & 0xF);
    lemma_hex_digit_roundtrip((n >> 20) & 0xF);
    lemma_hex_digit_roundtrip((n >> 16) & 0xF);
    lemma_hex_digit_roundtrip((n >> 12) & 0xF);
    lemma_hex_digit_roundtrip((n >> 8) & 0xF);
    lemma_hex_digit_roundtrip((n >> 4) & 0xF);
    lemma_hex_digit_roundtrip(n & 0xF);
    assert(((n >> 28) & 0xF) << 28 | ((n >> 24) & 0xF) << 24 | ((n >> 20) & 0xF) << 20 | ((n
        >> 16) & 0xF) << 16 | ((n >> 12) & 0xF) << 12 | ((n >> 8) & 0xF) << 8 | ((n >> 4) & 0xF)
        << 4 | (n & 0xF) == n) by (bit_vector);
}

/// The forty-eight bytes of one segment: both endpoints (biased), then the
/// color, then the width.
pub open spec fn spec_encode_segment(seg: Segment) -> Seq<u8> {
    spec_encode_u32(spec_coord_enc(seg.from.x)) + spec_encode_u32(spec_coord_enc(seg.from.y))
        + spec_encode_u32(spec_coord_enc(seg.to.x)) + spec_encode_u32(spec_coord_enc(seg.to.y))
        + spec_encode_u32(seg.color) + spec_encode_u32(seg.width)
}

/// The segment read from forty-eight bytes, if every field decodes;
/// `None` otherwise.
pub open spec fn spec_decode_segment(s: Seq<u8>) -> Option<Segment>
    recommends
        s.len() == SEGMENT_BYTES,
{
    let f0 = spec_decode_u32(s.subrange(0, 8));
    let f1 = spec_decode_u32(s.subrange(8, 16));
    let f2 = spec_decode_u32(s.subrange(16, 24));
    let f3 = spec_decode_u32(s.subrange(24, 32));
    let f4 = spec_decode_u32(s.subrange(32, 40));
    let f5 = spec_decode_u32(s.subrange(40, 48));
    if f0 is Some && f1 is Some && f2 is Some && f3 is Some && f4 is Some && f5 is Some {
        Some(
            Segment {
                from: Point { x: spec_coord_dec(f0->0), y: spec_coord_dec(f1->0) },
                to: Point { x: spec_coord_dec(f2->0), y: spec_coord_dec(f3->0) },
                color: f4->0,
                width: f5->0,
            },
        )
    } else {
        None
    }
}

/// Decoding an encoded segment yields that segment.
pub proof fn lemma_segment_roundtrip(seg: Segment)
    ensures
        spec_decode_segment(spec_encode_segment(seg)) == Some(seg),
{
    let s = spec_encode_segment(seg);
    assert(s.subrange(0, 8) =~= spec_encode_u32(spec_coord_enc(seg.from.x)));
    assert(s.subrange(8, 16) =~= spec_encode_u32(spec_coord_enc(seg.from.y)));
    assert(s.subrange(16, 24) =~= spec_encode_u32(spec_coord_enc(seg.to.x)));
    assert(s.subrange(24, 32) =~= spec_encode_u32(spec_coord_enc(seg.to.y)));
    assert(s.subrange(32, 40) =~= spec_encode_u32(seg.color));
    assert(s.subrange(40, 48) =~= spec_encode_u32(seg.width));
    lemma_u32_roundtrip(spec_coord_enc(seg.from.x));
    lemma_u32_roundtrip(spec_coord_enc(seg.from.y));
    lemma_u32_roundtrip(spec_coord_enc(seg.to.x));
    lemma_u32_roundtrip(spec_coord_enc(seg.to.y));
    lemma_u32_roundtrip(seg.color);
    lemma_u32_roundtrip(seg.width);
    lemma_coord_roundtrip(seg.from.x);
    lemma_coord_roundtrip(seg.from.y);
    lemma_coord_roundtrip(seg.to.x);
    lemma_coord_roundtrip(seg.to.y);
}

/// The whole image: the encodings of its segments, in paint order.
pub open spec fn spec_encode_image(segs: Seq<Segment>) -> Seq<u8>
    decreases segs.len(),
{
    if segs.len() == 0 {
        Seq::<u8>::empty()
    } else {
        spec_encode_segment(segs[0]) + spec_encode_image(segs.drop_first())
    }
}

/// The segments read back from an encoded image: `None` unless the bytes
/// are a whole number of well-formed segment records.
pub open spec fn spec_decode_image(s: Seq<u8>) -> Option<Seq<Segment>>
    decreases s.len(),
{
    if s.len() == 0 {
        Some(Seq::<Segment>::empty())
    } else if s.len() < SEGMENT_BYTES {
        None
    } else {
        let seg = spec_decode_segment(s.subrange(0, SEGMENT_BYTES as int));
        let rest = spec_decode_image(s.subrange(SEGMENT_BYTES as int, s.len() as int));
        if seg is Some && rest is Some {
            Some(seq![seg->0] + rest->0)
        } else {
            None
        }
    }
}

/// An encoded image's length: one record of bytes per segment.
pub proof fn lemma_encode_image_len(segs: Seq<Segment>)
    ensures
        spec_encode_image(segs).len() == SEGMENT_BYTES * segs.len(),
    decreases segs.len(),
{
    if segs.len() > 0 {
        lemma_encode_image_len(segs.drop_first());
    }
}

/// Round-trip fidelity: decoding an encoded image yields exactly the
/// segments that were encoded, whatever they are.
#[verifier::rlimit(60)]
pub proof fn lemma_image_roundtrip(segs: Seq<Segment>)
    ensures
        spec_decode_image(spec_encode_image(segs)) == Some(segs),
    decreases segs.len(),
{
    if segs.len() == 0 {
    } else {
        let e = spec_encode_image(segs);
        lemma_encode_image_len(segs);
        lemma_image_roundtrip(segs.drop_first());
        lemma_segment_roundtrip(segs[0]);
        assert(e.subrange(0, SEGMENT_BYTES as int) =~= spec_encode_segment(segs[0]));
        assert(e.subrange(SEGMENT_BYTES as int, e.len() as int) =~= spec_encode_image(
            segs.drop_first(),
        ));
        assert(seq![segs[0]] + segs.drop_first() =~= segs);
    }
}

/// The hexadecimal ASCII digit for a value below sixteen.
fn hex_digit(d: u32) -> (r: u8)
    requires
        d < 16,
    ensures
        r == spec_hex_digit(d),
{
    if d < 10 {
        (d + 48) as u8
    } else {
        (d + 87) as u8
    }
}

/// The value of a hexadecimal ASCII digit, or `None`.
fn hex_val(b: u8) -> (r: Option<u32>)
    ensures
        r == spec_hex_val(b),
{
    if 48 <= b && b <= 57 {
        Some((b - 48) as u32)
    } else if 97 <= b && b <= 102 {
        Some((b - 87) as u32)
    } else if 65 <= b && b <= 70 {
        Some((b - 55) as u32)
    } else {
        None
    }
}

/// Appends the eight digits of `n` to `out`.
fn encode_u32(out: &mut Vec<u8>, n: u32)
    ensures
        final(out)@ == old(out)@ + spec_encode_u32(n),
{
    proof {
        assert((n >> 28) & 0xF < 16) by (bit_vector);
        assert((n >> 24) & 0xF < 16) by (bit_vector);
        assert((n >> 20) & 0xF < 16) by (bit_vector);
        assert((n >> 16) & 0xF < 16) by (bit_vector);
        assert((n >> 12) & 0xF < 16) by (bit_vector);
        assert((n >> 8) & 0xF < 16) by (bit_vector);
        assert((n >> 4) & 0xF < 16) by (bit_vector);
        assert(n & 0xF < 16) by (bit_vector);
    }
    out.push(hex_digit((n >> 28) & 0xF));
    out.push(hex_digit((n >> 24) & 0xF));
    out.push(hex_digit((n >> 20) & 0xF));
    out.push(hex_digit((n >> 16) & 0xF));
    out.push(hex_digit((n >> 12) & 0xF));
    out.push(hex_digit((n >> 8) & 0xF));
    out.push(hex_digit((n >> 4) & 0xF));
    out.push(hex_digit(n & 0xF));
    proof {
        assert(final(out)@ =~= old(out)@ + spec_encode_u32(n));
    }
}

/// The biased form of a coordinate.
fn coord_enc(x: i32) -> (v: u32)
    ensures
        v == spec_coord_enc(x),
{
    ((x as i64) + 0x8000_0000i64) as u32
}

/// The signed coordinate a biased field stands for.
fn coord_dec(v: u32) -> (x: i32)
    ensures
        x == spec_coord_dec(v),
{
    ((v as i64) - 0x8000_0000i64) as i32
}

/// Appends the record of one segment to `out`.
fn encode_segment(out: &mut Vec<u8>, seg: &Segment)
    ensures
        final(out)@ == old(out)@ + spec_encode_segment(*seg),
{
    encode_u32(out, coord_enc(seg.from.x));
    encode_u32(out, coord_enc(seg.from.y));
    encode_u32(out, coord_enc(seg.to.x));
    encode_u32(out, coord_enc(seg.to.y));
    encode_u32(out, seg.color);
    encode_u32(out, seg.width);
    proof {
        assert(final(out)@ =~= old(out)@ + spec_encode_segment(*seg));
    }
}

/// Serializes a painted image into its storable byte string.
pub fn encode_image(segs: &Vec<Segment>) -> (r: Vec<u8>)
    ensures
        r@ == spec_encode_image(segs@),
{
    let mut out: Vec<u8> = Vec::new();
    let mut i: usize = 0;
    while i < segs.len()
        invariant
            i <= segs.len(),
            out@ == spec_encode_image(segs@.take(i as int)),
        decreases segs.len() - i,
    {
        proof {
            lemma_encode_image_take(segs@, i as int);
        }
        encode_segment(&mut out, &segs[i]);
        i = i + 1;
    }
    proof {
        assert(segs@.take(segs@.len() as int) =~= segs@);
    }
    out
}

/// Extending the encoded prefix by one segment appends that segment's
/// record.
proof fn lemma_encode_image_take(s: Seq<Segment>, i: int)
    requires
        0 <= i < s.len(),
    ensures
        spec_encode_image(s.take(i + 1)) == spec_encode_image(s.take(i)) + spec_encode_segment(
            s[i],
        ),
    decreases i,
{
    if i == 0 {
        assert(s.take(0) =~= Seq::<Segment>::empty());
        assert(s.take(1).drop_first() =~= Seq::<Segment>::empty());
        assert(spec_encode_image(s.take(1)) =~= spec_encode_image(s.take(0)) + spec_encode_segment(
            s[0],
        ));
    } else {
        lemma_encode_image_take(s.drop_first(), i - 1);
        assert(s.take(i + 1).drop_first() =~= s.drop_first().take(i));
        assert(s.take(i).drop_first() =~= s.drop_first().take(i - 1));
        assert(s.take(i + 1)[0] == s[0]);
        assert(s.take(i)[0] == s[0]);
        assert(s.drop_first()[i - 1] == s[i]);
        assert(spec_encode_image(s.take(i + 1)) =~= spec_encode_image(s.take(i))
            + spec_encode_segment(s[i]));
    }
}

/// Reads the field whose record starts at `i`.
fn decode_u32(s: &Vec<u8>, i: usize) -> (r: Option<u32>)
    requires
        i + 8 <= s@.len(),
    ensures
        r == spec_decode_u32(s@.subrange(i as int, i as int + 8)),
{
    let ghost sub = s@.subrange(i as int, i as int + 8);
    let n = s.len();
    proof {
        assert(i + 8 <= n);
    }
    let v0 = hex_val(s[i]);
    let v1 = hex_val(s[i + 1]);
    let v2 = hex_val(s[i + 2]);
    let v3 = hex_val(s[i + 3]);
    let v4 = hex_val(s[i + 4]);
    let v5 = hex_val(s[i + 5]);
    let v6 = hex_val(s[i + 6]);
    let v7 = hex_val(s[i + 7]);
    proof {
        assert(forall|k: int| 0 <= k < 8 ==> sub[k] == s@[i + k]);
    }
    match (v0, v1, v2, v3, v4, v5, v6, v7) {
        (
            Some(d0),
            Some(d1),
            Some(d2),
            Some(d3),
            Some(d4),
            Some(d5),
            Some(d6),
            Some(d7),
        ) => Some(
            d0 << 28 | d1 << 24 | d2 << 20 | d3 << 16 | d4 << 12 | d5 << 8 | d6 << 4 | d7,
        ),
        _ => None,
    }
}

/// Reads the segment whose record starts at `i`.
#[verifier::rlimit(60)]
fn decode_segment(s: &Vec<u8>, i: usize) -> (r: Option<Segment>)
    requires
        i + SEGMENT_BYTES <= s@.len(),
    ensures
        r == spec_decode_segment(s@.subrange(i as int, i as int + SEGMENT_BYTES as int)),
{
    let ghost sub = s@.subrange(i as int, i as int + SEGMENT_BYTES as int);
    let n = s.len();
    proof {
        assert(i + SEGMENT_BYTES <= n);
    }
    let f0 = decode_u32(s, i);
    let f1 = decode_u32(s, i + 8);
    let f2 = decode_u32(s, i + 16);
    let f3 = decode_u32(s, i + 24);
    let f4 = decode_u32(s, i + 32);
    let f5 = decode_u32(s, i + 40);
    proof {
        assert(sub.subrange(0, 8) =~= s@.subrange(i as int, i as int + 8));
        assert(sub.subrange(8, 16) =~= s@.subrange(i as int + 8, i as int + 16));
        assert(sub.subrange(16, 24) =~= s@.subrange(i as int + 16, i as int + 24));
        assert(sub.subrange(24, 32) =~= s@.subrange(i as int + 24, i as int + 32));
        assert(sub.subrange(32, 40) =~= s@.subrange(i as int + 32, i as int + 40));
        assert(sub.subrange(40, 48) =~= s@.subrange(i as int + 40, i as int + 48));
    }
    match (f0, f1, f2, f3, f4, f5) {
        (Some(a), Some(b), Some(c), Some(d), Some(e), Some(f)) => Some(
            Segment {
                from: Point { x: coord_dec(a), y: coord_dec(b) },
                to: Point { x: coord_dec(c), y: coord_dec(d) },
                color: e,
                width: f,
            },
        ),
        _ => None,
    }
}

/// Deserializes a stored byte string back into the painted image it
/// encodes; `None` for any malformed input.
#[verifier::rlimit(100)]
pub fn decode_image(s: &Vec<u8>) -> (r: Option<Vec<Segment>>)
    ensures
        match r {
            Some(v) => spec_decode_image(s@) == Some(v@),
            None => spec_decode_image(s@) is None,
        },
{
    let mut out: Vec<Segment> = Vec::new();
    let mut i: usize = 0;
    proof {
        assert(s@.subrange(0, s@.len() as int) =~= s@);
        if spec_decode_image(s@) is Some {
            assert(out@ + spec_decode_image(s@)->0 =~= spec_decode_image(s@)->0);
        }
    }
    while i < s.len()
        invariant
            0 <= i <= s@.len(),
            spec_decode_image(s@) == match spec_decode_image(
                s@.subrange(i as int, s@.len() as int),
            ) {
                Some(rest) => Some(out@ + rest),
                None => None,
            },
        decreases s@.len() - i,
    {
        let ghost suffix = s@.subrange(i as int, s@.len() as int);
        if s.len() - i < SEGMENT_BYTES {
            return None;
        }
        let seg = decode_segment(s, i);
        proof {
            assert(suffix.subrange(0, SEGMENT_BYTES as int) =~= s@.subrange(
                i as int,
                i as int + SEGMENT_BYTES as int,
            ));
            assert(suffix.subrange(SEGMENT_BYTES as int, suffix.len() as int) =~= s@.subrange(
                i as int + SEGMENT_BYTES as int,
                s@.len() as int,
            ));
        }
        match seg {
            None => {
                return None;
            },
            Some(seg) => {
                out.push(seg);
                proof {
                    assert(forall|rest: Seq<Segment>|
                        out@ + rest =~= out@.drop_last() + (seq![seg] + rest));
                }
                i = i + SEGMENT_BYTES;
            },
        }
    }
    proof {
        assert(s@.subrange(i as int, s@.len() as int) =~= Seq::<u8>::empty());
        assert(out@ + Seq::<Segment>::empty() =~= out@);
    }
    Some(out)
}

} // verus!
