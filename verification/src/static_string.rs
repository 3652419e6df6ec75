use crate::bytemap::{spec_find, spec_insert, ByteMap};
use crate::errors::BuildError;
use vstd::prelude::*;
use vstd::string::StringSliceAdditionalSpecFns;

verus! {

/// The hex-letter encoding of a byte string: each byte becomes two
/// letters, `base` plus the high nibble and `base` plus the low nibble,
/// with `base` 97 for lower case and 65 for upper case.  This turns an
/// arbitrary string into a valid identifier fragment.
pub open spec fn spec_hex_name(s: Seq<u8>, base: u8) -> Seq<u8>
    decreases s.len(),
{
    if s.len() == 0 {
        Seq::empty()
    } else {
        spec_hex_name(s.drop_last(), base) + seq![
            ((base + ((s.last() >> 4u8) & 0x0F)) as u8),
            ((base + (s.last() & 0x0F)) as u8),
        ]
    }
}

/// Encode a byte string as hex letters, upper case or lower case.
pub fn hex_name(s: &[u8], upper: bool) -> (r: Vec<u8>)
    ensures
        r@ == spec_hex_name(s@, if upper {
            65u8
        } else {
            97u8
        }),
{
    let base: u8 = if upper {
        65
    } else {
        97
    };
    let mut out: Vec<u8> = Vec::new();
    let mut i: usize = 0;
    proof {
        assert(s@.take(0) =~= Seq::<u8>::empty());
        assert(out@ =~= spec_hex_name(s@.take(0), base));
    }
    while i < s.len()
        invariant
            0 <= i <= s@.len(),
            base == if upper {
                65u8
            } else {
                97u8
            },
            out@ == spec_hex_name(s@.take(i as int), base),
        decreases s@.len() - i,
    {
        let b = *vstd::slice::slice_index_get(s, i);
        proof {
            assert((b >> 4u8) < 16 && (b & 0x0F) < 16 && ((b >> 4u8) & 0x0F) == (b >> 4u8))
                by (bit_vector);
        }
        out.push(base + ((b >> 4) & 0x0F));
        out.push(base + (b & 0x0F));
        proof {
            assert(s@.take(i + 1).drop_last() =~= s@.take(i as int));
            assert(s@.take(i + 1).last() == s@[i as int]);
            assert(out@ =~= spec_hex_name(s@.take(i + 1), base));
        }
        i = i + 1;
    }
    proof {
        assert(s@.take(s@.len() as int) =~= s@);
    }
    out
}

/// A string literal collected for the static string table.
#[derive(Debug)]
pub struct StaticString(pub Vec<u8>);

/// The name of the generated constant holding a static string's ID.
pub open spec fn spec_compile_name(s: Seq<u8>) -> Seq<u8> {
    "STATIC_STRING_".spec_bytes() + spec_hex_name(s, 65)
}

impl StaticString {
    /// The name of the generated constant holding this string's ID.
    pub fn compile_name(&self) -> (r: Vec<u8>)
        ensures
            r@ == spec_compile_name(self.0@),
    {
        let mut out: Vec<u8> = Vec::new();
        out.extend_from_slice("STATIC_STRING_".as_bytes());
        let hex = hex_name(self.0.as_slice(), true);
        out.extend_from_slice(hex.as_slice());
        proof {
            assert(out@ =~= spec_compile_name(self.0@));
        }
        out
    }
}

/// The build-time table of static strings: each distinct string gets a
/// 16-bit ID, assigned in order of first insertion, starting at 2.
pub struct StaticStringsTracker {
    strings: ByteMap<u16>,
    next_id: u16,
}

impl StaticStringsTracker {
    /// The collected strings with their IDs, sorted by string.
    pub closed spec fn strings_view(&self) -> Seq<(Seq<u8>, u16)> {
        self.strings@
    }

    /// The ID the next new string would get.
    pub closed spec fn next_id_spec(&self) -> u16 {
        self.next_id
    }

    /// IDs start at 2 and advance by one per distinct string.
    pub closed spec fn wf(&self) -> bool {
        self.next_id == 2 + self.strings_view().len() && self.strings.wf()
    }

    /// An empty table; the first string will get ID 2.
    pub fn new() -> (r: StaticStringsTracker)
        ensures
            r.strings_view() == Seq::<(Seq<u8>, u16)>::empty(),
            r.next_id_spec() == 2,
            r.wf(),
    {
        StaticStringsTracker { strings: ByteMap::new(), next_id: 2 }
    }

    /// Record a string: a string already present keeps its ID, a new
    /// one gets the next ID.
    pub fn insert(&mut self, ss: StaticString) -> (r: Result<(), BuildError>)
        requires
            old(self).wf(),
        ensures
            final(self).wf(),
            spec_find(old(self).strings_view(), ss.0@) is Some ==> r is Ok && final(self).strings_view() == old(self).strings_view(),
            spec_find(old(self).strings_view(), ss.0@) is None && old(self).strings_view().len()
                < 65533 ==> r is Ok && final(self).strings_view() == spec_insert(
                old(self).strings_view(),
                ss.0@,
                old(self).next_id_spec(),
            ),
            r is Err <==> spec_find(old(self).strings_view(), ss.0@) is None && old(
                self,
            ).strings_view().len() >= 65533,
            r is Err ==> r == Err::<(), BuildError>(BuildError::TooManyStaticStrings) && final(self).strings_view() == old(self).strings_view() && final(self).next_id_spec() == old(
                self,
            ).next_id_spec(),
            spec_find(old(self).strings_view(), ss.0@) is None && old(self).strings_view().len()
                < 65533 ==> final(self).next_id_spec() == old(self).next_id_spec() + 1,
    {
        if self.strings.get(ss.0.as_slice()).is_some() {
            return Ok(());
        }
        if self.strings.len() >= 65533 {
            return Err(BuildError::TooManyStaticStrings);
        }
        let id = self.next_id;
        let ghost pre = self.strings@;
        self.strings.insert(ss.0, id);
        proof {
            crate::bytemap::lemma_spec_insert_len(pre, ss.0@, id);
        }
        self.next_id = self.next_id + 1;
        Ok(())
    }

    /// The collected strings, for building the dictionary enumeration.
    pub fn strings(&self) -> (r: &ByteMap<u16>)
        ensures
            r@ == self.strings_view(),
    {
        &self.strings
    }
}

} // verus!
