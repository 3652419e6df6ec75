use vstd::prelude::*;
use vstd::string::StringSliceAdditionalSpecFns;

verus! {

/// The decimal digits of a non-negative number, most significant first.
pub open spec fn spec_dec(n: int) -> Seq<u8>
    decreases n,
{
    if n < 10 {
        seq![(48 + (if n < 0 {
            0int
        } else {
            n
        })) as u8]
    } else {
        spec_dec(n / 10) + seq![(48 + (n % 10)) as u8]
    }
}

/// Render a number in decimal.
pub fn u64_dec(n: u64) -> (r: Vec<u8>)
    ensures
        r@ == spec_dec(n as int),
    decreases n,
{
    if n < 10 {
        let mut v: Vec<u8> = Vec::new();
        v.push(48 + (n as u8));
        proof {
            assert(v@ =~= spec_dec(n as int));
        }
        v
    } else {
        let mut v = u64_dec(n / 10);
        v.push(48 + ((n % 10) as u8));
        proof {
            assert(v@ =~= spec_dec(n as int));
        }
        v
    }
}

/// The lower-case hex digit for a nibble.
pub open spec fn spec_hex_digit(d: u8) -> u8 {
    if d < 10 {
        (48 + d) as u8
    } else {
        (87 + d) as u8
    }
}

/// The JSON escape of one byte inside a string: quote and backslash are
/// escaped, control bytes get their short escapes or a `\u00..` escape,
/// and everything else stands for itself.
pub open spec fn spec_json_escape_byte(b: u8) -> Seq<u8> {
    if b == 0x22 {
        "\\\"".spec_bytes()
    } else if b == 0x5C {
        "\\\\".spec_bytes()
    } else if b == 0x08 {
        "\\b".spec_bytes()
    } else if b == 0x09 {
        "\\t".spec_bytes()
    } else if b == 0x0A {
        "\\n".spec_bytes()
    } else if b == 0x0C {
        "\\f".spec_bytes()
    } else if b == 0x0D {
        "\\r".spec_bytes()
    } else if b < 0x20 {
        "\\u00".spec_bytes() + seq![spec_hex_digit(b >> 4u8), spec_hex_digit(b & 0x0F)]
    } else {
        seq![b]
    }
}

/// The body of a JSON string: every byte escaped.
pub open spec fn spec_json_escaped(s: Seq<u8>) -> Seq<u8>
    decreases s.len(),
{
    if s.len() == 0 {
        Seq::empty()
    } else {
        spec_json_escaped(s.drop_last()) + spec_json_escape_byte(s.last())
    }
}

/// A JSON string: quoted and escaped.
pub open spec fn spec_json_string(s: Seq<u8>) -> Seq<u8> {
    "\"".spec_bytes() + spec_json_escaped(s) + "\"".spec_bytes()
}

/// Append a JSON string for `s` — quoted and escaped — to `out`.
pub fn push_json_string(out: &mut Vec<u8>, s: &[u8])
    ensures
        final(out)@ == old(out)@ + spec_json_string(s@),
{
    let ghost base = old(out)@;
    out.extend_from_slice("\"".as_bytes());
    let mut i: usize = 0;
    proof {
        assert(s@.take(0) =~= Seq::<u8>::empty());
        assert(out@ =~= base + "\"".spec_bytes() + spec_json_escaped(s@.take(0)));
    }
    while i < s.len()
        invariant
            0 <= i <= s@.len(),
            base == old(out)@,
            out@ == base + "\"".spec_bytes() + spec_json_escaped(s@.take(i as int)),
        decreases s@.len() - i,
    {
        let b = *vstd::slice::slice_index_get(s, i);
        if b == 0x22 {
            out.extend_from_slice("\\\"".as_bytes());
        } else if b == 0x5C {
            out.extend_from_slice("\\\\".as_bytes());
        } else if b == 0x08 {
            out.extend_from_slice("\\b".as_bytes());
        } else if b == 0x09 {
            out.extend_from_slice("\\t".as_bytes());
        } else if b == 0x0A {
            out.extend_from_slice("\\n".as_bytes());
        } else if b == 0x0C {
            out.extend_from_slice("\\f".as_bytes());
        } else if b == 0x0D {
            out.extend_from_slice("\\r".as_bytes());
        } else if b < 0x20 {
            out.extend_from_slice("\\u00".as_bytes());
            proof {
                assert((b >> 4u8) < 16 && (b & 0x0F) < 16) by (bit_vector);
            }
            let hi = b >> 4;
            let lo = b & 0x0F;
            out.push(
                if hi < 10 {
                    48 + hi
                } else {
                    87 + hi
                },
            );
            out.push(
                if lo < 10 {
                    48 + lo
                } else {
                    87 + lo
                },
            );
        } else {
            out.push(b);
        }
        proof {
            assert(s@.take(i + 1).drop_last() =~= s@.take(i as int));
            assert(s@.take(i + 1).last() == s@[i as int]);
            assert(out@ =~= base + "\"".spec_bytes() + spec_json_escaped(s@.take(i + 1)));
        }
        i = i + 1;
    }
    out.extend_from_slice("\"".as_bytes());
    proof {
        assert(s@.take(s@.len() as int) =~= s@);
        assert(out@ =~= base + spec_json_string(s@));
    }
}

} // verus!
