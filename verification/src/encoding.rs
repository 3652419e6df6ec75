use crate::output_buffer::{trunc_append, OutputBuffer};
use vstd::prelude::*;
use vstd::string::StringSliceAdditionalSpecFns;

verus! {

/// Error type representing a failed read.
#[derive(Clone, Copy, Debug, PartialEq, Eq, Structural)]
pub struct ReadError;

/// Value carried by the first byte of a variable-length quantity: the low
/// seven bits, sign-extended when bits five and six are both set.
pub open spec fn vlq_first_value(c: u8) -> u32 {
    if c & 0x60 == 0x60 {
        ((c & 0x7F) as u32) | 0xFFFF_FFE0u32
    } else {
        (c & 0x7F) as u32
    }
}

/// Continue decoding a variable-length quantity at position `i`, with `v`
/// accumulated so far; `more` says whether the previous byte had its
/// continuation bit set.  Returns the value and the position one past the
/// last byte of the encoding, or `None` if the bytes end mid-sequence.
pub open spec fn vlq_decode_rec(s: Seq<u8>, i: int, v: u32, more: bool) -> Option<(u32, int)>
    decreases s.len() - i,
{
    if !more {
        Some((v, i))
    } else if i < 0 || i >= s.len() {
        None
    } else {
        vlq_decode_rec(s, i + 1, (v << 7u32) | ((s[i] & 0x7F) as u32), (s[i] & 0x80) != 0)
    }
}

/// Decode one variable-length quantity from the front of `s`: the 32-bit
/// value and the number of bytes it occupies, or `None` when `s` ends
/// mid-sequence.
pub open spec fn vlq_decode(s: Seq<u8>) -> Option<(u32, int)> {
    if s.len() == 0 {
        None
    } else {
        vlq_decode_rec(s, 1, vlq_first_value(s[0]), (s[0] & 0x80) != 0)
    }
}

/// Whether the signed value `v` lies outside the range that the remaining
/// groups can carry; `half` and `full` are `1 << (shift - 2)` and
/// `1 << shift` for the group's shift amount.  Written over the unsigned
/// representation: `v` is outside `[-half, 3 * half)` exactly when adding
/// `half` with wraparound lands at or above `full`.
pub open spec fn vlq_outside(v: u32, half: u32, full: u32) -> bool {
    if v + half > u32::MAX {
        v + half - 0x1_0000_0000 >= full
    } else {
        v + half >= full
    }
}

/// The continuation byte emitted for group `shift`.
pub open spec fn vlq_group(v: u32, shift: u32) -> u8 {
    (((v >> shift) & 0x7F) | 0x80) as u8
}

/// The byte string encoding the 32-bit value `v`: between zero and four
/// continuation groups of seven bits, high bit set, followed by the final
/// seven bits with the high bit clear.
pub open spec fn vlq_encode(v: u32) -> Seq<u8> {
    (if vlq_outside(v, 0x0400_0000, 0x1000_0000) {
        seq![vlq_group(v, 28)]
    } else {
        Seq::<u8>::empty()
    }) + (if vlq_outside(v, 0x0008_0000, 0x0020_0000) {
        seq![vlq_group(v, 21)]
    } else {
        Seq::<u8>::empty()
    }) + (if vlq_outside(v, 0x1000, 0x4000) {
        seq![vlq_group(v, 14)]
    } else {
        Seq::<u8>::empty()
    }) + (if vlq_outside(v, 0x20, 0x80) {
        seq![vlq_group(v, 7)]
    } else {
        Seq::<u8>::empty()
    }) + seq![(v & 0x7F) as u8]
}

proof fn lemma_vlq_decode_rec_bounds(s: Seq<u8>, i: int, v: u32, more: bool)
    requires
        0 <= i <= s.len(),
    ensures
        match vlq_decode_rec(s, i, v, more) {
            Some(decoded) => i <= decoded.1 <= s.len(),
            None => true,
        },
    decreases s.len() - i,
{
    if more && 0 <= i < s.len() {
        lemma_vlq_decode_rec_bounds(
            s,
            i + 1,
            (v << 7u32) | ((s[i] & 0x7F) as u32),
            (s[i] & 0x80) != 0,
        );
    }
}

/// A successful decode consumes between one byte and the whole buffer.
pub proof fn lemma_vlq_decode_bounds(s: Seq<u8>)
    ensures
        match vlq_decode(s) {
            Some(decoded) => 1 <= decoded.1 <= s.len(),
            None => true,
        },
{
    if s.len() > 0 {
        lemma_vlq_decode_rec_bounds(s, 1, vlq_first_value(s[0]), (s[0] & 0x80) != 0);
    }
}

proof fn lemma_vlq_decode_rec_prefix(a: Seq<u8>, b: Seq<u8>, i: int, v: u32, more: bool)
    requires
        0 <= i,
        vlq_decode_rec(a, i, v, more) is Some,
    ensures
        vlq_decode_rec(a + b, i, v, more) == vlq_decode_rec(a, i, v, more),
    decreases a.len() - i,
{
    if more && i < a.len() {
        assert((a + b)[i] == a[i]);
        lemma_vlq_decode_rec_prefix(a, b, i + 1, (v << 7u32) | ((a[i] & 0x7F) as u32), (a[i]
            & 0x80) != 0);
    }
}

/// Law: a buffer holding one whole encoded value decodes the same with
/// anything appended after it — consuming the first value leaves exactly
/// the rest.
pub proof fn lemma_vlq_decode_prefix(a: Seq<u8>, b: Seq<u8>)
    requires
        vlq_decode(a) is Some,
    ensures
        vlq_decode(a + b) == vlq_decode(a),
{
    assert((a + b)[0] == a[0]);
    lemma_vlq_decode_rec_prefix(a, b, 1, vlq_first_value(a[0]), (a[0] & 0x80) != 0);
}

/// Law: encoding any 32-bit value and decoding it back yields the same
/// value, consumes exactly the bytes the encoder produced, and leaves any
/// following bytes untouched.
pub proof fn lemma_vlq_round_trip(v: u32, rest: Seq<u8>)
    ensures
        vlq_decode(vlq_encode(v) + rest) == Some((v, vlq_encode(v).len() as int)),
{
    let e = vlq_encode(v);
    let s = e + rest;
    let c28 = vlq_outside(v, 0x0400_0000, 0x1000_0000);
    let c21 = vlq_outside(v, 0x0008_0000, 0x0020_0000);
    let c14 = vlq_outside(v, 0x1000, 0x4000);
    let c7 = vlq_outside(v, 0x20, 0x80);
    assert(c28 <==> 0x0C00_0000 <= v < 0xFC00_0000);
    assert(c21 <==> 0x0018_0000 <= v < 0xFFF8_0000);
    assert(c14 <==> 0x3000 <= v < 0xFFFF_F000);
    assert(c7 <==> 0x60 <= v < 0xFFFF_FFE0);
    let b28 = vlq_group(v, 28);
    let b21 = vlq_group(v, 21);
    let b14 = vlq_group(v, 14);
    let b7 = vlq_group(v, 7);
    let bl = (v & 0x7F) as u8;
    assert(b28 & 0x80 != 0 && b21 & 0x80 != 0 && b14 & 0x80 != 0 && b7 & 0x80 != 0 && bl & 0x80
        == 0) by (bit_vector)
        requires
            b28 == (((v >> 28u32) & 0x7F) | 0x80) as u8,
            b21 == (((v >> 21u32) & 0x7F) | 0x80) as u8,
            b14 == (((v >> 14u32) & 0x7F) | 0x80) as u8,
            b7 == (((v >> 7u32) & 0x7F) | 0x80) as u8,
            bl == (v & 0x7F) as u8,
    ;
    if c28 {
        let v0 = vlq_first_value(b28);
        let v1 = (v0 << 7u32) | ((b21 & 0x7F) as u32);
        let v2 = (v1 << 7u32) | ((b14 & 0x7F) as u32);
        let v3 = (v2 << 7u32) | ((b7 & 0x7F) as u32);
        let v4 = (v3 << 7u32) | ((bl & 0x7F) as u32);
        assert(v4 == v) by (bit_vector)
            requires
                b28 == (((v >> 28u32) & 0x7F) | 0x80) as u8,
                b21 == (((v >> 21u32) & 0x7F) | 0x80) as u8,
                b14 == (((v >> 14u32) & 0x7F) | 0x80) as u8,
                b7 == (((v >> 7u32) & 0x7F) | 0x80) as u8,
                bl == (v & 0x7F) as u8,
                v0 == (if b28 & 0x60 == 0x60 {
                    ((b28 & 0x7F) as u32) | 0xFFFF_FFE0u32
                } else {
                    (b28 & 0x7F) as u32
                }),
                v1 == (v0 << 7u32) | ((b21 & 0x7F) as u32),
                v2 == (v1 << 7u32) | ((b14 & 0x7F) as u32),
                v3 == (v2 << 7u32) | ((b7 & 0x7F) as u32),
                v4 == (v3 << 7u32) | ((bl & 0x7F) as u32),
        ;
        assert(e =~= seq![b28, b21, b14, b7, bl]);
        assert(s[0] == b28 && s[1] == b21 && s[2] == b14 && s[3] == b7 && s[4] == bl);
        assert(vlq_decode(s) == vlq_decode_rec(s, 1, v0, true));
        assert(vlq_decode_rec(s, 1, v0, true) == vlq_decode_rec(s, 2, v1, true));
        assert(vlq_decode_rec(s, 2, v1, true) == vlq_decode_rec(s, 3, v2, true));
        assert(vlq_decode_rec(s, 3, v2, true) == vlq_decode_rec(s, 4, v3, true));
        assert(vlq_decode_rec(s, 4, v3, true) == vlq_decode_rec(s, 5, v4, false));
    } else if c21 {
        let v0 = vlq_first_value(b21);
        let v1 = (v0 << 7u32) | ((b14 & 0x7F) as u32);
        let v2 = (v1 << 7u32) | ((b7 & 0x7F) as u32);
        let v3 = (v2 << 7u32) | ((bl & 0x7F) as u32);
        assert(v3 == v) by (bit_vector)
            requires
                !(v >= 0x0C00_0000 && v < 0xFC00_0000),
                b21 == (((v >> 21u32) & 0x7F) | 0x80) as u8,
                b14 == (((v >> 14u32) & 0x7F) | 0x80) as u8,
                b7 == (((v >> 7u32) & 0x7F) | 0x80) as u8,
                bl == (v & 0x7F) as u8,
                v0 == (if b21 & 0x60 == 0x60 {
                    ((b21 & 0x7F) as u32) | 0xFFFF_FFE0u32
                } else {
                    (b21 & 0x7F) as u32
                }),
                v1 == (v0 << 7u32) | ((b14 & 0x7F) as u32),
                v2 == (v1 << 7u32) | ((b7 & 0x7F) as u32),
                v3 == (v2 << 7u32) | ((bl & 0x7F) as u32),
        ;
        assert(e =~= seq![b21, b14, b7, bl]);
        assert(s[0] == b21 && s[1] == b14 && s[2] == b7 && s[3] == bl);
        assert(vlq_decode(s) == vlq_decode_rec(s, 1, v0, true));
        assert(vlq_decode_rec(s, 1, v0, true) == vlq_decode_rec(s, 2, v1, true));
        assert(vlq_decode_rec(s, 2, v1, true) == vlq_decode_rec(s, 3, v2, true));
        assert(vlq_decode_rec(s, 3, v2, true) == vlq_decode_rec(s, 4, v3, false));
    } else if c14 {
        let v0 = vlq_first_value(b14);
        let v1 = (v0 << 7u32) | ((b7 & 0x7F) as u32);
        let v2 = (v1 << 7u32) | ((bl & 0x7F) as u32);
        assert(v2 == v) by (bit_vector)
            requires
                !(v >= 0x0018_0000 && v < 0xFFF8_0000),
                b14 == (((v >> 14u32) & 0x7F) | 0x80) as u8,
                b7 == (((v >> 7u32) & 0x7F) | 0x80) as u8,
                bl == (v & 0x7F) as u8,
                v0 == (if b14 & 0x60 == 0x60 {
                    ((b14 & 0x7F) as u32) | 0xFFFF_FFE0u32
                } else {
                    (b14 & 0x7F) as u32
                }),
                v1 == (v0 << 7u32) | ((b7 & 0x7F) as u32),
                v2 == (v1 << 7u32) | ((bl & 0x7F) as u32),
        ;
        assert(e =~= seq![b14, b7, bl]);
        assert(s[0] == b14 && s[1] == b7 && s[2] == bl);
        assert(vlq_decode(s) == vlq_decode_rec(s, 1, v0, true));
        assert(vlq_decode_rec(s, 1, v0, true) == vlq_decode_rec(s, 2, v1, true));
        assert(vlq_decode_rec(s, 2, v1, true) == vlq_decode_rec(s, 3, v2, false));
    } else if c7 {
        let v0 = vlq_first_value(b7);
        let v1 = (v0 << 7u32) | ((bl & 0x7F) as u32);
        assert(v1 == v) by (bit_vector)
            requires
                !(v >= 0x3000 && v < 0xFFFF_F000),
                b7 == (((v >> 7u32) & 0x7F) | 0x80) as u8,
                bl == (v & 0x7F) as u8,
                v0 == (if b7 & 0x60 == 0x60 {
                    ((b7 & 0x7F) as u32) | 0xFFFF_FFE0u32
                } else {
                    (b7 & 0x7F) as u32
                }),
                v1 == (v0 << 7u32) | ((bl & 0x7F) as u32),
        ;
        assert(e =~= seq![b7, bl]);
        assert(s[0] == b7 && s[1] == bl);
        assert(vlq_decode(s) == vlq_decode_rec(s, 1, v0, true));
        assert(vlq_decode_rec(s, 1, v0, true) == vlq_decode_rec(s, 2, v1, false));
    } else {
        let v0 = vlq_first_value(bl);
        assert(v0 == v) by (bit_vector)
            requires
                !(v >= 0x60 && v < 0xFFFF_FFE0),
                bl == (v & 0x7F) as u8,
                v0 == (if bl & 0x60 == 0x60 {
                    ((bl & 0x7F) as u32) | 0xFFFF_FFE0u32
                } else {
                    (bl & 0x7F) as u32
                }),
        ;
        assert(e =~= seq![bl]);
        assert(s[0] == bl);
        assert(vlq_decode(s) == vlq_decode_rec(s, 1, v0, false));
    }
}

/// Read one byte from the front of `data`, advancing it on success.
pub(crate) fn next_byte(data: &mut &[u8]) -> (r: Result<u8, ReadError>)
    ensures
        old(data)@.len() == 0 ==> r is Err && final(data)@ == old(data)@,
        old(data)@.len() > 0 ==> r == Ok::<u8, ReadError>(old(data)@[0]) && final(data)@ == old(
            data,
        )@.skip(1),
{
    let cur: &[u8] = *data;
    if cur.len() == 0 {
        Err(ReadError)
    } else {
        let v = *vstd::slice::slice_index_get(cur, 0);
        *data = vstd::slice::slice_subrange(cur, 1, cur.len());
        Ok(v)
    }
}

/// Parse one variable-length quantity from the front of `data`.
///
/// On success the parsed bytes are consumed; when the buffer ends
/// mid-sequence every byte has been consumed and an error is returned.
pub fn parse_vlq_int(data: &mut &[u8]) -> (r: Result<u32, ReadError>)
    ensures
        match vlq_decode(old(data)@) {
            Some(decoded) => r == Ok::<u32, ReadError>(decoded.0) && final(data)@ == old(
                data,
            )@.skip(decoded.1),
            None => r is Err && final(data)@.len() == 0,
        },
{
    let ghost s = data@;
    let first = match next_byte(data) {
        Ok(b) => b,
        Err(e) => {
            assert(vlq_decode(s) is None);
            return Err(e);
        },
    };
    let mut v: u32 = (first & 0x7F) as u32;
    if first & 0x60 == 0x60 {
        v = v | 0xFFFF_FFE0;
    }
    let mut c: u8 = first;
    let ghost mut i: int = 1;
    while c & 0x80 != 0
        invariant
            s == old(data)@,
            1 <= i <= s.len(),
            data@ == s.skip(i),
            vlq_decode(s) == vlq_decode_rec(s, i, v, (c & 0x80) != 0),
        decreases s.len() - i,
    {
        let b = match next_byte(data) {
            Ok(b) => b,
            Err(e) => {
                assert(vlq_decode(old(data)@) is None);
                return Err(e);
            },
        };
        proof {
            assert(b == s[i]);
            i = i + 1;
            assert(data@ =~= s.skip(i));
        }
        v = (v << 7u32) | ((b & 0x7F) as u32);
        c = b;
    }
    assert(vlq_decode(s) == Some((v, i)));
    Ok(v)
}

/// Append one byte to an output buffer.
fn output_one<O: OutputBuffer>(output: &mut O, b: u8)
    ensures
        final(output).capacity() == old(output).capacity(),
        final(output).contents() == trunc_append(
            old(output).contents(),
            seq![b],
            old(output).capacity(),
        ),
{
    let arr: [u8; 1] = [b];
    let s = arr.as_slice();
    proof {
        assert(s@ =~= seq![b]);
    }
    output.output(s);
}

/// Encode the 32-bit value `v` as a variable-length quantity, appending
/// between one and five bytes to `output`.
pub fn encode_vlq_int<O: OutputBuffer>(output: &mut O, v: u32)
    ensures
        final(output).capacity() == old(output).capacity(),
        final(output).contents() == trunc_append(
            old(output).contents(),
            vlq_encode(v),
            old(output).capacity(),
        ),
{
    let ghost cap = old(output).capacity();
    let ghost pre = old(output).contents();
    let ghost mut emitted: Seq<u8> = Seq::<u8>::empty();
    proof {
        assert(trunc_append(pre, emitted, cap) =~= pre);
    }
    if v.wrapping_add(0x0400_0000) >= 0x1000_0000 {
        output_one(output, (((v >> 28u32) & 0x7F) | 0x80) as u8);
        proof {
            crate::output_buffer::lemma_trunc_append_assoc(pre, emitted, seq![vlq_group(v, 28)], cap);
            emitted = emitted + seq![vlq_group(v, 28)];
        }
    }
    if v.wrapping_add(0x0008_0000) >= 0x0020_0000 {
        output_one(output, (((v >> 21u32) & 0x7F) | 0x80) as u8);
        proof {
            crate::output_buffer::lemma_trunc_append_assoc(pre, emitted, seq![vlq_group(v, 21)], cap);
            emitted = emitted + seq![vlq_group(v, 21)];
        }
    }
    if v.wrapping_add(0x1000) >= 0x4000 {
        output_one(output, (((v >> 14u32) & 0x7F) | 0x80) as u8);
        proof {
            crate::output_buffer::lemma_trunc_append_assoc(pre, emitted, seq![vlq_group(v, 14)], cap);
            emitted = emitted + seq![vlq_group(v, 14)];
        }
    }
    if v.wrapping_add(0x20) >= 0x80 {
        output_one(output, (((v >> 7u32) & 0x7F) | 0x80) as u8);
        proof {
            crate::output_buffer::lemma_trunc_append_assoc(pre, emitted, seq![vlq_group(v, 7)], cap);
            emitted = emitted + seq![vlq_group(v, 7)];
        }
    }
    output_one(output, (v & 0x7F) as u8);
    proof {
        crate::output_buffer::lemma_trunc_append_assoc(pre, emitted, seq![(v & 0x7F) as u8], cap);
        emitted = emitted + seq![(v & 0x7F) as u8];
        assert(emitted =~= vlq_encode(v));
    }
}

/// Trait for types that can be read from an input message.
///
/// The `'de` lifetime allows an implementation to return references into the
/// original data buffer, permitting zero-copy reads of byte arrays.
pub trait Readable<'de>: Sized {
    /// How many bytes a successful read consumes from the front of `s`,
    /// `None` when the read fails.
    spec fn read_len(s: Seq<u8>) -> Option<int>;

    /// Whether `v` is the value that a read from the front of `s` yields.
    spec fn read_value_ok(s: Seq<u8>, v: Self) -> bool;

    /// Read a `Self` from the front of `data`, consuming the bytes it
    /// occupies on success.
    fn read(data: &mut &'de [u8]) -> (r: Result<Self, ReadError>)
        ensures
            match Self::read_len(old(data)@) {
                Some(n) => r is Ok && Self::read_value_ok(old(data)@, r->Ok_0) && 0 <= n <= old(
                    data,
                )@.len() && final(data)@ == old(data)@.skip(n),
                None => r is Err,
            },
    ;
}

/// Trait for types that can be written to an `OutputBuffer`.
pub trait Writable {
    /// The exact bytes that writing `self` appends.
    spec fn spec_write(&self) -> Seq<u8>;

    /// Append the encoding of `self` to `output`.
    ///
    /// The operation cannot fail; if the buffer runs out of capacity the
    /// message is truncated and the peer discards it on a checksum error.
    fn write<O: OutputBuffer>(&self, output: &mut O)
        ensures
            final(output).capacity() == old(output).capacity(),
            final(output).contents() == trunc_append(
                old(output).contents(),
                self.spec_write(),
                old(output).capacity(),
            ),
    ;
}

impl Readable<'_> for u32 {
    open spec fn read_len(s: Seq<u8>) -> Option<int> {
        match vlq_decode(s) {
            Some(decoded) => Some(decoded.1),
            None => None,
        }
    }

    open spec fn read_value_ok(s: Seq<u8>, v: u32) -> bool {
        match vlq_decode(s) {
            Some(decoded) => v == decoded.0,
            None => false,
        }
    }

    fn read(data: &mut &[u8]) -> (r: Result<Self, ReadError>) {
        proof {
            lemma_vlq_decode_bounds(data@);
        }
        parse_vlq_int(data)
    }
}

impl Readable<'_> for i32 {
    open spec fn read_len(s: Seq<u8>) -> Option<int> {
        match vlq_decode(s) {
            Some(decoded) => Some(decoded.1),
            None => None,
        }
    }

    open spec fn read_value_ok(s: Seq<u8>, v: i32) -> bool {
        match vlq_decode(s) {
            Some(decoded) => v == decoded.0 as i32,
            None => false,
        }
    }

    fn read(data: &mut &[u8]) -> (r: Result<Self, ReadError>) {
        proof {
            lemma_vlq_decode_bounds(data@);
        }
        match parse_vlq_int(data) {
            Ok(v) => Ok(v as i32),
            Err(e) => Err(e),
        }
    }
}

impl Readable<'_> for u16 {
    open spec fn read_len(s: Seq<u8>) -> Option<int> {
        match vlq_decode(s) {
            Some(decoded) => Some(decoded.1),
            None => None,
        }
    }

    open spec fn read_value_ok(s: Seq<u8>, v: u16) -> bool {
        match vlq_decode(s) {
            Some(decoded) => v == decoded.0 as u16,
            None => false,
        }
    }

    fn read(data: &mut &[u8]) -> (r: Result<Self, ReadError>) {
        proof {
            lemma_vlq_decode_bounds(data@);
        }
        match parse_vlq_int(data) {
            Ok(v) => Ok(v as u16),
            Err(e) => Err(e),
        }
    }
}

impl Readable<'_> for i16 {
    open spec fn read_len(s: Seq<u8>) -> Option<int> {
        match vlq_decode(s) {
            Some(decoded) => Some(decoded.1),
            None => None,
        }
    }

    open spec fn read_value_ok(s: Seq<u8>, v: i16) -> bool {
        match vlq_decode(s) {
            Some(decoded) => v == decoded.0 as i16,
            None => false,
        }
    }

    fn read(data: &mut &[u8]) -> (r: Result<Self, ReadError>) {
        proof {
            lemma_vlq_decode_bounds(data@);
        }
        match parse_vlq_int(data) {
            Ok(v) => Ok(v as i16),
            Err(e) => Err(e),
        }
    }
}

impl Readable<'_> for u8 {
    open spec fn read_len(s: Seq<u8>) -> Option<int> {
        match vlq_decode(s) {
            Some(decoded) => Some(decoded.1),
            None => None,
        }
    }

    open spec fn read_value_ok(s: Seq<u8>, v: u8) -> bool {
        match vlq_decode(s) {
            Some(decoded) => v == decoded.0 as u8,
            None => false,
        }
    }

    fn read(data: &mut &[u8]) -> (r: Result<Self, ReadError>) {
        proof {
            lemma_vlq_decode_bounds(data@);
        }
        match parse_vlq_int(data) {
            Ok(v) => Ok(v as u8),
            Err(e) => Err(e),
        }
    }
}

impl Readable<'_> for bool {
    open spec fn read_len(s: Seq<u8>) -> Option<int> {
        match vlq_decode(s) {
            Some(decoded) => Some(decoded.1),
            None => None,
        }
    }

    open spec fn read_value_ok(s: Seq<u8>, v: bool) -> bool {
        match vlq_decode(s) {
            Some(decoded) => v == (decoded.0 != 0),
            None => false,
        }
    }

    fn read(data: &mut &[u8]) -> (r: Result<Self, ReadError>) {
        proof {
            lemma_vlq_decode_bounds(data@);
        }
        match parse_vlq_int(data) {
            Ok(v) => Ok(v != 0),
            Err(e) => Err(e),
        }
    }
}

impl<'de> Readable<'de> for &'de [u8] {
    open spec fn read_len(s: Seq<u8>) -> Option<int> {
        match vlq_decode(s) {
            Some(decoded) => {
                if decoded.1 + (decoded.0 as int) <= s.len() {
                    Some(decoded.1 + (decoded.0 as int))
                } else {
                    None
                }
            },
            None => None,
        }
    }

    open spec fn read_value_ok(s: Seq<u8>, v: &'de [u8]) -> bool {
        match vlq_decode(s) {
            Some(decoded) => v@ == s.subrange(decoded.1, decoded.1 + (decoded.0 as int)),
            None => false,
        }
    }

    fn read(data: &mut &'de [u8]) -> (r: Result<Self, ReadError>) {
        proof {
            lemma_vlq_decode_bounds(data@);
        }
        let len_value = match parse_vlq_int(data) {
            Ok(v) => v,
            Err(e) => {
                return Err(e);
            },
        };
        let cur: &'de [u8] = *data;
        if (cur.len() as u64) < (len_value as u64) {
            Err(ReadError)
        } else {
            let n = len_value as usize;
            let ret = vstd::slice::slice_subrange(cur, 0, n);
            *data = vstd::slice::slice_subrange(cur, n, cur.len());
            proof {
                let decoded = vlq_decode(old(data)@)->Some_0;
                assert(ret@ =~= old(data)@.subrange(decoded.1, decoded.1 + (decoded.0 as int)));
                assert(final(data)@ =~= old(data)@.skip(decoded.1 + (decoded.0 as int)));
            }
            Ok(ret)
        }
    }
}

impl Writable for u32 {
    open spec fn spec_write(&self) -> Seq<u8> {
        vlq_encode(*self)
    }

    fn write<O: OutputBuffer>(&self, output: &mut O) {
        encode_vlq_int(output, *self);
    }
}

impl Writable for i32 {
    open spec fn spec_write(&self) -> Seq<u8> {
        vlq_encode(*self as u32)
    }

    fn write<O: OutputBuffer>(&self, output: &mut O) {
        encode_vlq_int(output, *self as u32);
    }
}

impl Writable for u16 {
    open spec fn spec_write(&self) -> Seq<u8> {
        vlq_encode(*self as u32)
    }

    fn write<O: OutputBuffer>(&self, output: &mut O) {
        encode_vlq_int(output, *self as u32);
    }
}

impl Writable for i16 {
    open spec fn spec_write(&self) -> Seq<u8> {
        vlq_encode(*self as u32)
    }

    fn write<O: OutputBuffer>(&self, output: &mut O) {
        encode_vlq_int(output, *self as u32);
    }
}

impl Writable for u8 {
    open spec fn spec_write(&self) -> Seq<u8> {
        vlq_encode(*self as u32)
    }

    fn write<O: OutputBuffer>(&self, output: &mut O) {
        encode_vlq_int(output, *self as u32);
    }
}

impl Writable for bool {
    open spec fn spec_write(&self) -> Seq<u8> {
        vlq_encode(
            if *self {
                1
            } else {
                0
            },
        )
    }

    fn write<O: OutputBuffer>(&self, output: &mut O) {
        if *self {
            encode_vlq_int(output, 1);
        } else {
            encode_vlq_int(output, 0);
        }
    }
}

impl Writable for &str {
    open spec fn spec_write(&self) -> Seq<u8> {
        vlq_encode(self.spec_bytes().len() as u32) + self.spec_bytes()
    }

    fn write<O: OutputBuffer>(&self, output: &mut O) {
        let ghost cap = old(output).capacity();
        let ghost pre = old(output).contents();
        let bytes = self.as_bytes();
        #[verifier::truncate]
        let n: u32 = bytes.len() as u32;
        encode_vlq_int(output, n);
        output.output(bytes);
        proof {
            crate::output_buffer::lemma_trunc_append_assoc(pre, vlq_encode(n), bytes@, cap);
        }
    }
}

impl Writable for &[u8] {
    open spec fn spec_write(&self) -> Seq<u8> {
        vlq_encode(self@.len() as u32) + self@
    }

    fn write<O: OutputBuffer>(&self, output: &mut O) {
        let ghost cap = old(output).capacity();
        let ghost pre = old(output).contents();
        #[verifier::truncate]
        let n: u32 = self.len() as u32;
        encode_vlq_int(output, n);
        output.output(self);
        proof {
            crate::output_buffer::lemma_trunc_append_assoc(pre, vlq_encode(n), self@, cap);
        }
    }
}

} // verus!
