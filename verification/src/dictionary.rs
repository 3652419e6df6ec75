use crate::bytemap::ByteMap;
use crate::enumeration::{DictionaryEnumeration, DictionaryEnumerationItem};
use crate::json::{push_json_string, spec_dec, spec_json_string, u64_dec};
use vstd::prelude::*;
use vstd::string::StringSliceAdditionalSpecFns;

verus! {

/// A value of a build-time constant: the dictionary's `config` map holds
/// numbers and strings.
#[derive(Debug)]
pub enum JsonValue {
    UInt(u32),
    Str(Vec<u8>),
}

/// The JSON text of a constant's value.
pub open spec fn spec_json_value(v: JsonValue) -> Seq<u8> {
    match v {
        JsonValue::UInt(n) => spec_dec(n as int),
        JsonValue::Str(s) => spec_json_string(s@),
    }
}

/// The JSON text of an enumeration entry: a number, or a
/// `[start, count]` pair.
pub open spec fn spec_enum_item(it: DictionaryEnumerationItem) -> Seq<u8> {
    match it {
        DictionaryEnumerationItem::Number(n) => spec_dec(n as int),
        DictionaryEnumerationItem::Range(start, count) => "[".spec_bytes() + spec_dec(start as int)
            + ",".spec_bytes() + spec_dec(count as int) + "]".spec_bytes(),
    }
}

/// The members of a JSON object mapping keys to message IDs.
pub open spec fn spec_obj_items_u8(s: Seq<(Seq<u8>, u8)>) -> Seq<u8>
    decreases s.len(),
{
    if s.len() == 0 {
        Seq::empty()
    } else if s.len() == 1 {
        spec_json_string(s[0].0) + ":".spec_bytes() + spec_dec(s[0].1 as int)
    } else {
        spec_obj_items_u8(s.drop_last()) + ",".spec_bytes() + spec_json_string(s.last().0)
            + ":".spec_bytes() + spec_dec(s.last().1 as int)
    }
}

/// The members of the `config` JSON object.
pub open spec fn spec_obj_items_json(s: Seq<(Seq<u8>, JsonValue)>) -> Seq<u8>
    decreases s.len(),
{
    if s.len() == 0 {
        Seq::empty()
    } else if s.len() == 1 {
        spec_json_string(s[0].0) + ":".spec_bytes() + spec_json_value(s[0].1)
    } else {
        spec_obj_items_json(s.drop_last()) + ",".spec_bytes() + spec_json_string(s.last().0)
            + ":".spec_bytes() + spec_json_value(s.last().1)
    }
}

/// The members of one enumeration's JSON object.
pub open spec fn spec_obj_items_enum(s: Seq<(Seq<u8>, DictionaryEnumerationItem)>) -> Seq<u8>
    decreases s.len(),
{
    if s.len() == 0 {
        Seq::empty()
    } else if s.len() == 1 {
        spec_json_string(s[0].0) + ":".spec_bytes() + spec_enum_item(s[0].1)
    } else {
        spec_obj_items_enum(s.drop_last()) + ",".spec_bytes() + spec_json_string(s.last().0)
            + ":".spec_bytes() + spec_enum_item(s.last().1)
    }
}

/// The members of the `enumerations` JSON object.
pub open spec fn spec_obj_items_enums(s: Seq<(Seq<u8>, DictionaryEnumeration)>) -> Seq<u8>
    decreases s.len(),
{
    if s.len() == 0 {
        Seq::empty()
    } else if s.len() == 1 {
        spec_json_string(s[0].0) + ":{".spec_bytes() + spec_obj_items_enum(s[0].1.0@)
            + "}".spec_bytes()
    } else {
        spec_obj_items_enums(s.drop_last()) + ",".spec_bytes() + spec_json_string(s.last().0)
            + ":{".spec_bytes() + spec_obj_items_enum(s.last().1.0@) + "}".spec_bytes()
    }
}

/// Append the members of an ID-valued JSON object.
pub fn push_obj_items_u8(out: &mut Vec<u8>, m: &ByteMap<u8>)
    ensures
        final(out)@ == old(out)@ + spec_obj_items_u8(m@),
{
    let ghost base = old(out)@;
    let mut i: usize = 0;
    proof {
        assert(m@.take(0) =~= Seq::<(Seq<u8>, u8)>::empty());
        assert(out@ =~= base + spec_obj_items_u8(m@.take(0)));
    }
    while i < m.len()
        invariant
            0 <= i <= m@.len(),
            base == old(out)@,
            out@ == base + spec_obj_items_u8(m@.take(i as int)),
        decreases m@.len() - i,
    {
        if i > 0 {
            out.extend_from_slice(",".as_bytes());
        }
        push_json_string(out, m.key_at(i));
        out.extend_from_slice(":".as_bytes());
        let d = u64_dec(*m.value_at(i) as u64);
        out.extend_from_slice(d.as_slice());
        proof {
            assert(m@.take(i + 1).drop_last() =~= m@.take(i as int));
            assert(m@.take(i + 1).last() == m@[i as int]);
            assert(out@ =~= base + spec_obj_items_u8(m@.take(i + 1)));
        }
        i = i + 1;
    }
    proof {
        assert(m@.take(m@.len() as int) =~= m@);
    }
}

/// Append the members of the `config` JSON object.
pub fn push_obj_items_json(out: &mut Vec<u8>, m: &ByteMap<JsonValue>)
    ensures
        final(out)@ == old(out)@ + spec_obj_items_json(m@),
{
    let ghost base = old(out)@;
    let mut i: usize = 0;
    proof {
        assert(m@.take(0) =~= Seq::<(Seq<u8>, JsonValue)>::empty());
        assert(out@ =~= base + spec_obj_items_json(m@.take(0)));
    }
    while i < m.len()
        invariant
            0 <= i <= m@.len(),
            base == old(out)@,
            out@ == base + spec_obj_items_json(m@.take(i as int)),
        decreases m@.len() - i,
    {
        if i > 0 {
            out.extend_from_slice(",".as_bytes());
        }
        push_json_string(out, m.key_at(i));
        out.extend_from_slice(":".as_bytes());
        match m.value_at(i) {
            JsonValue::UInt(n) => {
                let d = u64_dec(*n as u64);
                out.extend_from_slice(d.as_slice());
            },
            JsonValue::Str(s) => {
                push_json_string(out, s.as_slice());
            },
        }
        proof {
            assert(m@.take(i + 1).drop_last() =~= m@.take(i as int));
            assert(m@.take(i + 1).last() == m@[i as int]);
            assert(out@ =~= base + spec_obj_items_json(m@.take(i + 1)));
        }
        i = i + 1;
    }
    proof {
        assert(m@.take(m@.len() as int) =~= m@);
    }
}

/// Append the members of one enumeration's JSON object.
#[verifier::rlimit(60)]
pub fn push_obj_items_enum(out: &mut Vec<u8>, m: &ByteMap<DictionaryEnumerationItem>)
    ensures
        final(out)@ == old(out)@ + spec_obj_items_enum(m@),
{
    let ghost base = old(out)@;
    let mut i: usize = 0;
    proof {
        assert(m@.take(0) =~= Seq::<(Seq<u8>, DictionaryEnumerationItem)>::empty());
        assert(out@ =~= base + spec_obj_items_enum(m@.take(0)));
    }
    while i < m.len()
        invariant
            0 <= i <= m@.len(),
            base == old(out)@,
            out@ == base + spec_obj_items_enum(m@.take(i as int)),
        decreases m@.len() - i,
    {
        if i > 0 {
            out.extend_from_slice(",".as_bytes());
        }
        push_json_string(out, m.key_at(i));
        out.extend_from_slice(":".as_bytes());
        match m.value_at(i) {
            DictionaryEnumerationItem::Number(n) => {
                let d = u64_dec(*n);
                out.extend_from_slice(d.as_slice());
            },
            DictionaryEnumerationItem::Range(start, count) => {
                out.extend_from_slice("[".as_bytes());
                let d = u64_dec(*start);
                out.extend_from_slice(d.as_slice());
                out.extend_from_slice(",".as_bytes());
                let d2 = u64_dec(*count);
                out.extend_from_slice(d2.as_slice());
                out.extend_from_slice("]".as_bytes());
            },
        }
        proof {
            assert(m@.take(i + 1).drop_last() =~= m@.take(i as int));
            assert(m@.take(i + 1).last() == m@[i as int]);
            assert(out@ =~= base + spec_obj_items_enum(m@.take(i + 1)));
        }
        i = i + 1;
    }
    proof {
        assert(m@.take(m@.len() as int) =~= m@);
    }
}

/// Append the members of the `enumerations` JSON object.
pub fn push_obj_items_enums(out: &mut Vec<u8>, m: &ByteMap<DictionaryEnumeration>)
    ensures
        final(out)@ == old(out)@ + spec_obj_items_enums(m@),
{
    let ghost base = old(out)@;
    let mut i: usize = 0;
    proof {
        assert(m@.take(0) =~= Seq::<(Seq<u8>, DictionaryEnumeration)>::empty());
        assert(out@ =~= base + spec_obj_items_enums(m@.take(0)));
    }
    while i < m.len()
        invariant
            0 <= i <= m@.len(),
            base == old(out)@,
            out@ == base + spec_obj_items_enums(m@.take(i as int)),
        decreases m@.len() - i,
    {
        if i > 0 {
            out.extend_from_slice(",".as_bytes());
        }
        push_json_string(out, m.key_at(i));
        out.extend_from_slice(":{".as_bytes());
        push_obj_items_enum(out, &m.value_at(i).0);
        out.extend_from_slice("}".as_bytes());
        proof {
            assert(m@.take(i + 1).drop_last() =~= m@.take(i as int));
            assert(m@.take(i + 1).last() == m@[i as int]);
            assert(out@ =~= base + spec_obj_items_enums(m@.take(i + 1)));
        }
        i = i + 1;
    }
    proof {
        assert(m@.take(m@.len() as int) =~= m@);
    }
}

/// The data dictionary: the protocol's self-description, queried by the
/// host through the built-in `identify` command.
pub struct Dictionary {
    pub version: Vec<u8>,
    pub build_versions: Vec<u8>,
    pub config: ByteMap<JsonValue>,
    pub commands: ByteMap<u8>,
    pub responses: ByteMap<u8>,
    pub output: ByteMap<u8>,
    pub enumerations: ByteMap<DictionaryEnumeration>,
}

/// The JSON text of the dictionary, fields in the defined order, the
/// `enumerations` member only when it is non-empty.
pub open spec fn spec_dictionary_json(d: Dictionary) -> Seq<u8> {
    "{\"version\":".spec_bytes() + spec_json_string(d.version@)
        + ",\"build_versions\":".spec_bytes() + spec_json_string(d.build_versions@)
        + ",\"config\":{".spec_bytes() + spec_obj_items_json(d.config@)
        + "},\"commands\":{".spec_bytes() + spec_obj_items_u8(d.commands@)
        + "},\"responses\":{".spec_bytes() + spec_obj_items_u8(d.responses@)
        + "},\"output\":{".spec_bytes() + spec_obj_items_u8(d.output@) + "}".spec_bytes() + (
    if d.enumerations@.len() > 0 {
        ",\"enumerations\":{".spec_bytes() + spec_obj_items_enums(d.enumerations@)
            + "}".spec_bytes()
    } else {
        Seq::<u8>::empty()
    }) + "}".spec_bytes()
}

/// What the zlib encoder produces for an input, at the default level: a
/// function of the input bytes alone.
pub uninterp spec fn zlib_deflate_of(s: Seq<u8>) -> Seq<u8>;

/// Relies on flate2's `ZlibEncoder` over a `Vec<u8>` sink at the default
/// compression level: writing all input and finishing yields a
/// zlib-framed deflate stream that depends on the input bytes alone.
#[verifier::external_body]
fn zlib_compress(data: &[u8]) -> (r: Vec<u8>)
    ensures
        r@ == zlib_deflate_of(data@),
{
    let mut encoder = flate2::write::ZlibEncoder::new(Vec::new(), flate2::Compression::default());
    std::io::Write::write_all(&mut encoder, data).expect("could not compress data dictionary");
    encoder.finish().expect("could not compress data dictionary")
}

impl Dictionary {
    /// An empty dictionary with empty version strings.
    pub fn new() -> (r: Dictionary)
        ensures
            r.build_versions@ == Seq::<u8>::empty(),
            r.version@ == Seq::<u8>::empty(),
            r.config@ == Seq::<(Seq<u8>, JsonValue)>::empty(),
            r.commands@ == Seq::<(Seq<u8>, u8)>::empty(),
            r.responses@ == Seq::<(Seq<u8>, u8)>::empty(),
            r.output@ == Seq::<(Seq<u8>, u8)>::empty(),
            r.enumerations@ == Seq::<(Seq<u8>, DictionaryEnumeration)>::empty(),
            r.config.wf() && r.commands.wf() && r.responses.wf() && r.output.wf()
                && r.enumerations.wf(),
    {
        Dictionary {
            version: Vec::new(),
            build_versions: Vec::new(),
            config: ByteMap::new(),
            commands: ByteMap::new(),
            responses: ByteMap::new(),
            output: ByteMap::new(),
            enumerations: ByteMap::new(),
        }
    }

    /// The dictionary as JSON text.
    pub fn to_json(&self) -> (r: Vec<u8>)
        ensures
            r@ == spec_dictionary_json(*self),
    {
        let mut out: Vec<u8> = Vec::new();
        out.extend_from_slice("{\"version\":".as_bytes());
        push_json_string(&mut out, self.version.as_slice());
        out.extend_from_slice(",\"build_versions\":".as_bytes());
        push_json_string(&mut out, self.build_versions.as_slice());
        out.extend_from_slice(",\"config\":{".as_bytes());
        push_obj_items_json(&mut out, &self.config);
        out.extend_from_slice("},\"commands\":{".as_bytes());
        push_obj_items_u8(&mut out, &self.commands);
        out.extend_from_slice("},\"responses\":{".as_bytes());
        push_obj_items_u8(&mut out, &self.responses);
        out.extend_from_slice("},\"output\":{".as_bytes());
        push_obj_items_u8(&mut out, &self.output);
        out.extend_from_slice("}".as_bytes());
        if self.enumerations.len() > 0 {
            out.extend_from_slice(",\"enumerations\":{".as_bytes());
            push_obj_items_enums(&mut out, &self.enumerations);
            out.extend_from_slice("}".as_bytes());
        }
        out.extend_from_slice("}".as_bytes());
        proof {
            assert(out@ =~= spec_dictionary_json(*self));
        }
        out
    }

    /// The dictionary as zlib-compressed JSON, the form embedded in the
    /// generated module and served through `identify`.
    pub fn to_compressed(&self) -> (r: Vec<u8>)
        ensures
            r@ == zlib_deflate_of(spec_dictionary_json(*self)),
    {
        let json = self.to_json();
        zlib_compress(json.as_slice())
    }
}

} // verus!
