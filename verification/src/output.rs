use crate::msg_desc::FieldType;
use crate::static_string::{hex_name, spec_hex_name};
use vstd::prelude::*;
use vstd::string::StringSliceAdditionalSpecFns;

verus! {

/// An outgoing formatted output message: the format string is the
/// message's key and descriptor, and its `%` specifiers define the
/// argument types.
#[derive(Debug)]
pub struct Output {
    pub id: Option<u8>,
    pub format: Vec<u8>,
    pub args: Vec<FieldType>,
}

/// The argument type introduced by the bytes following a `%`, if any:
/// the specifiers are tried in the fixed order `.*s`, `*s`, `c`, `hi`,
/// `hu`, `i`, `u`.
pub open spec fn spec_output_kind(rest: Seq<u8>) -> Option<FieldType> {
    if rest.len() >= 3 && rest[0] == 0x2E && rest[1] == 0x2A && rest[2] == 0x73 {
        Some(FieldType::ByteArray)  // ".*s"
    } else if rest.len() >= 2 && rest[0] == 0x2A && rest[1] == 0x73 {
        Some(FieldType::Str)  // "*s"
    } else if rest.len() >= 1 && rest[0] == 0x63 {
        Some(FieldType::U8)  // "c"
    } else if rest.len() >= 2 && rest[0] == 0x68 && rest[1] == 0x69 {
        Some(FieldType::I16)  // "hi"
    } else if rest.len() >= 2 && rest[0] == 0x68 && rest[1] == 0x75 {
        Some(FieldType::U16)  // "hu"
    } else if rest.len() >= 1 && rest[0] == 0x69 {
        Some(FieldType::I32)  // "i"
    } else if rest.len() >= 1 && rest[0] == 0x75 {
        Some(FieldType::U32)  // "u"
    } else {
        None
    }
}

/// The argument types of a format string: one per `%` whose following
/// bytes name a specifier, in order of appearance.
pub open spec fn spec_output_args(s: Seq<u8>) -> Seq<FieldType>
    decreases s.len(),
{
    if s.len() == 0 {
        Seq::empty()
    } else if s[0] == 0x25 {  // '%'
        (match spec_output_kind(s.skip(1)) {
            Some(t) => seq![t],
            None => Seq::empty(),
        }) + spec_output_args(s.skip(1))
    } else {
        spec_output_args(s.skip(1))
    }
}

/// Parse the argument types out of an output format string.
pub fn parse_args(fmt: &[u8]) -> (r: Vec<FieldType>)
    ensures
        r@ == spec_output_args(fmt@),
{
    let mut args: Vec<FieldType> = Vec::new();
    let len = fmt.len();
    let mut i: usize = 0;
    proof {
        assert(fmt@.skip(0) =~= fmt@);
        assert(args@ + spec_output_args(fmt@) =~= spec_output_args(fmt@));
    }
    while i < len
        invariant
            0 <= i <= len,
            len == fmt@.len(),
            spec_output_args(fmt@) == args@ + spec_output_args(fmt@.skip(i as int)),
        decreases len - i,
    {
        let b = *vstd::slice::slice_index_get(fmt, i);
        if b == 0x25 {
            let rest_len = len - i - 1;
            let r0 = if rest_len >= 1 {
                *vstd::slice::slice_index_get(fmt, i + 1)
            } else {
                0
            };
            let r1 = if rest_len >= 2 {
                *vstd::slice::slice_index_get(fmt, i + 2)
            } else {
                0
            };
            let r2 = if rest_len >= 3 {
                *vstd::slice::slice_index_get(fmt, i + 3)
            } else {
                0
            };
            let kind: Option<FieldType> = if rest_len >= 3 && r0 == 0x2E && r1 == 0x2A && r2
                == 0x73 {
                Some(FieldType::ByteArray)
            } else if rest_len >= 2 && r0 == 0x2A && r1 == 0x73 {
                Some(FieldType::Str)
            } else if rest_len >= 1 && r0 == 0x63 {
                Some(FieldType::U8)
            } else if rest_len >= 2 && r0 == 0x68 && r1 == 0x69 {
                Some(FieldType::I16)
            } else if rest_len >= 2 && r0 == 0x68 && r1 == 0x75 {
                Some(FieldType::U16)
            } else if rest_len >= 1 && r0 == 0x69 {
                Some(FieldType::I32)
            } else if rest_len >= 1 && r0 == 0x75 {
                Some(FieldType::U32)
            } else {
                None
            };
            proof {
                let tail = fmt@.skip(i as int);
                assert(tail[0] == fmt@[i as int]);
                assert(tail.skip(1) =~= fmt@.skip(i + 1));
                if tail.skip(1).len() >= 1 {
                    assert(tail.skip(1)[0] == fmt@[i + 1]);
                }
                if tail.skip(1).len() >= 2 {
                    assert(tail.skip(1)[1] == fmt@[i + 2]);
                }
                if tail.skip(1).len() >= 3 {
                    assert(tail.skip(1)[2] == fmt@[i + 3]);
                }
                assert(kind == spec_output_kind(fmt@.skip(i + 1)));
            }
            match kind {
                Some(t) => {
                    args.push(t);
                    proof {
                        assert(args@ =~= args@.drop_last().push(args@.last()));
                        assert(args@.drop_last() + (seq![args@.last()] + spec_output_args(
                            fmt@.skip(i + 1),
                        )) =~= args@ + spec_output_args(fmt@.skip(i + 1)));
                    }
                },
                None => {
                    proof {
                        assert((Seq::<FieldType>::empty() + spec_output_args(fmt@.skip(i + 1)))
                            =~= spec_output_args(fmt@.skip(i + 1)));
                    }
                },
            }
        } else {
            proof {
                assert(fmt@.skip(i as int).skip(1) =~= fmt@.skip(i + 1));
            }
        }
        i = i + 1;
    }
    proof {
        assert(spec_output_args(fmt@.skip(len as int)) =~= Seq::<FieldType>::empty());
        assert(args@ + spec_output_args(fmt@.skip(len as int)) =~= args@);
    }
    args
}

/// The name of an output's generated sender function: a fixed prefix
/// followed by the hex-letter encoding of the format string.
pub open spec fn spec_output_sender_fn_name(format: Seq<u8>) -> Seq<u8> {
    "send_output_".spec_bytes() + spec_hex_name(format, 97)
}

impl Output {
    /// The name of this output's generated sender function.
    pub fn sender_fn_name(&self) -> (r: Vec<u8>)
        ensures
            r@ == spec_output_sender_fn_name(self.format@),
    {
        let mut out: Vec<u8> = Vec::new();
        out.extend_from_slice("send_output_".as_bytes());
        let hex = hex_name(self.format.as_slice(), false);
        out.extend_from_slice(hex.as_slice());
        proof {
            assert(out@ =~= spec_output_sender_fn_name(self.format@));
        }
        out
    }
}

} // verus!
