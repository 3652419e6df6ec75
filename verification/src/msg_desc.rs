use vstd::prelude::*;
use vstd::string::StringSliceAdditionalSpecFns;

verus! {

/// The wire types that command and reply arguments can have, each paired
/// with the printf-style code used in descriptor strings.
#[derive(Clone, Copy, Debug, PartialEq, Eq, Structural)]
pub enum FieldType {
    U32,
    I32,
    U16,
    I16,
    U8,
    Bool,
    ByteArray,
    Str,
}

/// The printf-style descriptor code for a field type.
pub open spec fn spec_desc_code(t: FieldType) -> Seq<u8> {
    match t {
        FieldType::U32 => "%u".spec_bytes(),
        FieldType::I32 => "%i".spec_bytes(),
        FieldType::U16 => "%hu".spec_bytes(),
        FieldType::I16 => "%hi".spec_bytes(),
        FieldType::U8 => "%c".spec_bytes(),
        FieldType::Bool => "%c".spec_bytes(),
        FieldType::ByteArray => "%*s".spec_bytes(),
        FieldType::Str => "%*s".spec_bytes(),
    }
}

/// The printf-style descriptor code for a field type.
pub fn desc_code(t: &FieldType) -> (r: &'static str)
    ensures
        r.spec_bytes() == spec_desc_code(*t),
{
    match t {
        FieldType::U32 => "%u",
        FieldType::I32 => "%i",
        FieldType::U16 => "%hu",
        FieldType::I16 => "%hi",
        FieldType::U8 => "%c",
        FieldType::Bool => "%c",
        FieldType::ByteArray => "%*s",
        FieldType::Str => "%*s",
    }
}

/// The Rust source text of a field type, as it appears in generated
/// handler and sender signatures.
pub open spec fn spec_type_text(t: FieldType) -> Seq<u8> {
    match t {
        FieldType::U32 => "u32".spec_bytes(),
        FieldType::I32 => "i32".spec_bytes(),
        FieldType::U16 => "u16".spec_bytes(),
        FieldType::I16 => "i16".spec_bytes(),
        FieldType::U8 => "u8".spec_bytes(),
        FieldType::Bool => "bool".spec_bytes(),
        FieldType::ByteArray => "&[u8]".spec_bytes(),
        FieldType::Str => "&str".spec_bytes(),
    }
}

/// The Rust source text of a field type.
pub fn type_text(t: &FieldType) -> (r: &'static str)
    ensures
        r.spec_bytes() == spec_type_text(*t),
{
    match t {
        FieldType::U32 => "u32",
        FieldType::I32 => "i32",
        FieldType::U16 => "u16",
        FieldType::I16 => "i16",
        FieldType::U8 => "u8",
        FieldType::Bool => "bool",
        FieldType::ByteArray => "&[u8]",
        FieldType::Str => "&str",
    }
}

/// The field type a command or reply argument gets from its Rust type
/// name, with spaces removed: `None` for types that have no wire mapping.
pub open spec fn spec_field_type_of(name: Seq<u8>) -> Option<FieldType> {
    if name == "u32".spec_bytes() {
        Some(FieldType::U32)
    } else if name == "i32".spec_bytes() {
        Some(FieldType::I32)
    } else if name == "u16".spec_bytes() {
        Some(FieldType::U16)
    } else if name == "i16".spec_bytes() {
        Some(FieldType::I16)
    } else if name == "u8".spec_bytes() {
        Some(FieldType::U8)
    } else if name == "bool".spec_bytes() {
        Some(FieldType::Bool)
    } else if name == "&[u8]".spec_bytes() {
        Some(FieldType::ByteArray)
    } else {
        None
    }
}

/// Map a Rust type name to its wire field type.
pub fn field_type_of(name: &[u8]) -> (r: Option<FieldType>)
    ensures
        r == spec_field_type_of(name@),
{
    if crate::bytemap::bytes_cmp(name, "u32".as_bytes()) == 0 {
        Some(FieldType::U32)
    } else if crate::bytemap::bytes_cmp(name, "i32".as_bytes()) == 0 {
        Some(FieldType::I32)
    } else if crate::bytemap::bytes_cmp(name, "u16".as_bytes()) == 0 {
        Some(FieldType::U16)
    } else if crate::bytemap::bytes_cmp(name, "i16".as_bytes()) == 0 {
        Some(FieldType::I16)
    } else if crate::bytemap::bytes_cmp(name, "u8".as_bytes()) == 0 {
        Some(FieldType::U8)
    } else if crate::bytemap::bytes_cmp(name, "bool".as_bytes()) == 0 {
        Some(FieldType::Bool)
    } else if crate::bytemap::bytes_cmp(name, "&[u8]".as_bytes()) == 0 {
        Some(FieldType::ByteArray)
    } else {
        None
    }
}

/// One named argument of a command or reply.
#[derive(Debug)]
pub struct Arg {
    /// The argument's name, without any leading underscore.
    pub name: Vec<u8>,
    /// The argument's wire type.
    pub ty: FieldType,
}

/// The view of an argument list: name and type pairs.
pub open spec fn args_view(args: Seq<Arg>) -> Seq<(Seq<u8>, FieldType)> {
    args.map_values(|a: Arg| (a.name@, a.ty))
}

/// The descriptor tokens for an argument list: ` name=%code` for each
/// argument, in order.
pub open spec fn spec_desc_args(args: Seq<(Seq<u8>, FieldType)>) -> Seq<u8>
    decreases args.len(),
{
    if args.len() == 0 {
        Seq::empty()
    } else {
        spec_desc_args(args.drop_last()) + " ".spec_bytes() + args.last().0 + "=".spec_bytes()
            + spec_desc_code(args.last().1)
    }
}

/// A message's descriptor string: its name followed by one ` name=%code`
/// token per argument.
pub open spec fn spec_descriptor(name: Seq<u8>, args: Seq<(Seq<u8>, FieldType)>) -> Seq<u8> {
    name + spec_desc_args(args)
}

/// Build the descriptor string for a message.
pub fn build_message_descriptor(name: &[u8], args: &Vec<Arg>) -> (r: Vec<u8>)
    ensures
        r@ == spec_descriptor(name@, args_view(args@)),
{
    let mut out: Vec<u8> = Vec::new();
    out.extend_from_slice(name);
    let mut i: usize = 0;
    proof {
        assert(args_view(args@).take(0) =~= Seq::<(Seq<u8>, FieldType)>::empty());
        assert(out@ =~= name@ + spec_desc_args(args_view(args@).take(0)));
    }
    while i < args.len()
        invariant
            0 <= i <= args@.len(),
            out@ == name@ + spec_desc_args(args_view(args@).take(i as int)),
        decreases args@.len() - i,
    {
        out.extend_from_slice(" ".as_bytes());
        out.extend_from_slice(args[i].name.as_slice());
        out.extend_from_slice("=".as_bytes());
        out.extend_from_slice(desc_code(&args[i].ty).as_bytes());
        proof {
            let av = args_view(args@);
            assert(av.take(i + 1).drop_last() =~= av.take(i as int));
            assert(av.take(i + 1).last() == av[i as int]);
            assert(out@ =~= name@ + spec_desc_args(av.take(i + 1)));
        }
        i = i + 1;
    }
    proof {
        assert(args_view(args@).take(args@.len() as int) =~= args_view(args@));
    }
    out
}

} // verus!
