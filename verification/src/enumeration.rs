use crate::bytemap::{spec_insert, ByteMap};
use crate::json::spec_dec;
use vstd::prelude::*;
use vstd::string::StringSliceAdditionalSpecFns;

verus! {

/// How variant names are rewritten for the dictionary.
#[derive(Clone, Copy, Debug, PartialEq, Eq, Structural)]
pub enum RenameFormat {
    Identity,
    LowerCase,
    UpperCase,
    SnakeCase,
}

/// One byte mapped to lower case, for the ASCII letters.
pub open spec fn spec_lower_byte(b: u8) -> u8 {
    if 65 <= b && b <= 90 {
        (b + 32) as u8
    } else {
        b
    }
}

/// One byte mapped to upper case, for the ASCII letters.
pub open spec fn spec_upper_byte(b: u8) -> u8 {
    if 97 <= b && b <= 122 {
        (b - 32) as u8
    } else {
        b
    }
}

/// A name in snake case: an upper-case letter after the first position
/// gets an underscore before it, and every letter is lowered.
pub open spec fn spec_snake(s: Seq<u8>) -> Seq<u8>
    decreases s.len(),
{
    if s.len() == 0 {
        Seq::empty()
    } else if s.len() > 1 && 65 <= s.last() && s.last() <= 90 {
        spec_snake(s.drop_last()) + seq![0x5Fu8, spec_lower_byte(s.last())]
    } else {
        spec_snake(s.drop_last()) + seq![spec_lower_byte(s.last())]
    }
}

/// A name under a rename policy.
pub open spec fn spec_apply_rename(f: RenameFormat, s: Seq<u8>) -> Seq<u8> {
    match f {
        RenameFormat::Identity => s,
        RenameFormat::LowerCase => s.map_values(|b: u8| spec_lower_byte(b)),
        RenameFormat::UpperCase => s.map_values(|b: u8| spec_upper_byte(b)),
        RenameFormat::SnakeCase => spec_snake(s),
    }
}

impl RenameFormat {
    /// Apply this rename policy to a name, using the ASCII case
    /// mapping.
    pub fn apply(&self, s: &[u8]) -> (r: Vec<u8>)
        ensures
            r@ == spec_apply_rename(*self, s@),
    {
        let mut out: Vec<u8> = Vec::new();
        match self {
            RenameFormat::Identity => {
                out.extend_from_slice(s);
                proof {
                    assert(out@ =~= spec_apply_rename(*self, s@));
                }
            },
            RenameFormat::LowerCase => {
                let mut i: usize = 0;
                proof {
                    assert(out@ =~= s@.take(0).map_values(|b: u8| spec_lower_byte(b)));
                }
                while i < s.len()
                    invariant
                        0 <= i <= s@.len(),
                        out@ == s@.take(i as int).map_values(|b: u8| spec_lower_byte(b)),
                    decreases s@.len() - i,
                {
                    let b = *vstd::slice::slice_index_get(s, i);
                    if 65 <= b && b <= 90 {
                        out.push(b + 32);
                    } else {
                        out.push(b);
                    }
                    proof {
                        assert(out@ =~= s@.take(i + 1).map_values(|b: u8| spec_lower_byte(b)));
                    }
                    i = i + 1;
                }
                proof {
                    assert(s@.take(s@.len() as int) =~= s@);
                }
            },
            RenameFormat::UpperCase => {
                let mut i: usize = 0;
                proof {
                    assert(out@ =~= s@.take(0).map_values(|b: u8| spec_upper_byte(b)));
                }
                while i < s.len()
                    invariant
                        0 <= i <= s@.len(),
                        out@ == s@.take(i as int).map_values(|b: u8| spec_upper_byte(b)),
                    decreases s@.len() - i,
                {
                    let b = *vstd::slice::slice_index_get(s, i);
                    if 97 <= b && b <= 122 {
                        out.push(b - 32);
                    } else {
                        out.push(b);
                    }
                    proof {
                        assert(out@ =~= s@.take(i + 1).map_values(|b: u8| spec_upper_byte(b)));
                    }
                    i = i + 1;
                }
                proof {
                    assert(s@.take(s@.len() as int) =~= s@);
                }
            },
            RenameFormat::SnakeCase => {
                let mut i: usize = 0;
                proof {
                    assert(out@ =~= spec_snake(s@.take(0)));
                }
                while i < s.len()
                    invariant
                        0 <= i <= s@.len(),
                        out@ == spec_snake(s@.take(i as int)),
                    decreases s@.len() - i,
                {
                    let b = *vstd::slice::slice_index_get(s, i);
                    if i > 0 && 65 <= b && b <= 90 {
                        out.push(0x5F);
                    }
                    if 65 <= b && b <= 90 {
                        out.push(b + 32);
                    } else {
                        out.push(b);
                    }
                    proof {
                        assert(s@.take(i + 1).drop_last() =~= s@.take(i as int));
                        assert(s@.take(i + 1).last() == s@[i as int]);
                        assert(out@ =~= spec_snake(s@.take(i + 1)));
                    }
                    i = i + 1;
                }
                proof {
                    assert(s@.take(s@.len() as int) =~= s@);
                }
            },
        }
        out
    }
}

/// The rename policy named by a `rename_all` option value.
pub open spec fn spec_rename_from_name(s: Seq<u8>) -> Result<RenameFormat, ()> {
    if s == "lowercase".spec_bytes() {
        Ok(RenameFormat::LowerCase)
    } else if s == "UPPERCASE".spec_bytes() {
        Ok(RenameFormat::UpperCase)
    } else if s == "snake_case".spec_bytes() {
        Ok(RenameFormat::SnakeCase)
    } else {
        Err(())
    }
}

/// Parse a `rename_all` option value.
pub fn rename_from_name(s: &[u8]) -> (r: Result<RenameFormat, ()>)
    ensures
        r == spec_rename_from_name(s@),
{
    if crate::bytemap::bytes_cmp(s, "lowercase".as_bytes()) == 0 {
        Ok(RenameFormat::LowerCase)
    } else if crate::bytemap::bytes_cmp(s, "UPPERCASE".as_bytes()) == 0 {
        Ok(RenameFormat::UpperCase)
    } else if crate::bytemap::bytes_cmp(s, "snake_case".as_bytes()) == 0 {
        Ok(RenameFormat::SnakeCase)
    } else {
        Err(())
    }
}

/// One attribute collected from the user's enumeration, kept as source
/// text for re-emission.
#[derive(Debug)]
pub struct VariantAttr {
    /// Whether this is a `cfg` attribute, re-emitted on generated match
    /// arms as well as declarations.
    pub is_cfg: bool,
    /// The attribute's source text, including `#[...]`.
    pub text: Vec<u8>,
}

/// The options of one enumeration variant.
#[derive(Debug)]
pub struct EnumVariantOpts {
    /// Whether the build configuration excludes this variant.
    pub disabled: bool,
    /// A fixed dictionary name for the variant.
    pub rename: Option<Vec<u8>>,
    /// Attributes to re-emit with the variant.
    pub attrs: Vec<VariantAttr>,
}

/// One variant of an enumeration: a single named value, or a compact
/// range expanding to `count` variants named `prefix<start>` onward.
#[derive(Debug)]
pub enum EnumVariant {
    Single(EnumVariantOpts, Vec<u8>),
    Range(EnumVariantOpts, Vec<u8>, u64, u64),
}

/// The options of an enumeration.
#[derive(Debug)]
pub struct EnumerationOptions {
    /// The host-visible name; the enum's own identifier when unset.
    pub name: Option<Vec<u8>>,
    /// The rename policy for variant names.
    pub rename_all: RenameFormat,
}

/// A `klipper_enumeration` declaration.
#[derive(Debug)]
pub struct Enumeration {
    pub opts: EnumerationOptions,
    /// Attributes to re-emit on the generated enum.
    pub attrs: Vec<VariantAttr>,
    /// The visibility text to re-emit, empty or ending in a space.
    pub vis: Vec<u8>,
    pub ident: Vec<u8>,
    pub variants: Vec<EnumVariant>,
}

/// How many numbered values a variant occupies.
pub open spec fn spec_variant_count(v: EnumVariant) -> int {
    match v {
        EnumVariant::Single(_, _) => 1,
        EnumVariant::Range(_, _, _, count) => count as int,
    }
}

/// The options of a variant.
pub open spec fn spec_variant_opts(v: EnumVariant) -> EnumVariantOpts {
    match v {
        EnumVariant::Single(o, _) => o,
        EnumVariant::Range(o, _, _, _) => o,
    }
}

/// The identifier of a variant: its name, or a range's prefix.
pub open spec fn spec_variant_ident(v: EnumVariant) -> Seq<u8> {
    match v {
        EnumVariant::Single(_, ident) => ident@,
        EnumVariant::Range(_, prefix, _, _) => prefix@,
    }
}

/// The dictionary name of a variant: its fixed rename if given, else
/// its identifier under the enumeration's rename policy.
pub open spec fn spec_variant_name(v: EnumVariant, f: RenameFormat) -> Seq<u8> {
    match spec_variant_opts(v).rename {
        Some(n) => n@,
        None => spec_apply_rename(f, spec_variant_ident(v)),
    }
}

/// The total count of numbered values of a variant list.
pub open spec fn spec_total_count(vs: Seq<EnumVariant>) -> int
    decreases vs.len(),
{
    if vs.len() == 0 {
        0
    } else {
        spec_total_count(vs.drop_last()) + spec_variant_count(vs.last())
    }
}

impl EnumVariant {
    /// The options of this variant.
    pub fn opts(&self) -> (r: &EnumVariantOpts)
        ensures
            *r == spec_variant_opts(*self),
    {
        match self {
            EnumVariant::Single(o, _) => o,
            EnumVariant::Range(o, _, _, _) => o,
        }
    }

    /// How many numbered values this variant occupies.
    pub fn count(&self) -> (r: u64)
        ensures
            r == spec_variant_count(*self),
    {
        match self {
            EnumVariant::Single(_, _) => 1,
            EnumVariant::Range(_, _, _, count) => *count,
        }
    }

    /// The identifier of this variant.
    pub fn ident(&self) -> (r: &Vec<u8>)
        ensures
            r@ == spec_variant_ident(*self),
    {
        match self {
            EnumVariant::Single(_, ident) => ident,
            EnumVariant::Range(_, prefix, _, _) => prefix,
        }
    }

    /// The dictionary name of this variant under a rename policy.
    pub fn name(&self, rename_format: &RenameFormat) -> (r: Vec<u8>)
        ensures
            r@ == spec_variant_name(*self, *rename_format),
    {
        match self.opts().rename.as_ref() {
            Some(n) => {
                let mut out: Vec<u8> = Vec::new();
                out.extend_from_slice(n.as_slice());
                proof {
                    assert(out@ =~= spec_variant_name(*self, *rename_format));
                }
                out
            },
            None => rename_format.apply(self.ident().as_slice()),
        }
    }
}

/// One entry of an enumeration as the dictionary shows it: a single
/// number, or a `[start, count]` range.
#[derive(Clone, Copy, Debug, PartialEq, Eq, Structural)]
pub enum DictionaryEnumerationItem {
    Number(u64),
    Range(u64, u64),
}

/// An enumeration as the dictionary shows it: variant names mapped to
/// their numbers or ranges, in name order.
pub struct DictionaryEnumeration(pub ByteMap<DictionaryEnumerationItem>);

/// The dictionary entries of a variant list: each enabled variant is
/// inserted under its dictionary name with its number or range, walking
/// the variants in declaration order with a running start value.
pub open spec fn spec_to_dict(
    vs: Seq<EnumVariant>,
    f: RenameFormat,
    start: int,
    acc: Seq<(Seq<u8>, DictionaryEnumerationItem)>,
) -> Seq<(Seq<u8>, DictionaryEnumerationItem)>
    decreases vs.len(),
{
    if vs.len() == 0 {
        acc
    } else {
        let v = vs[0];
        let acc2 = if spec_variant_opts(v).disabled {
            acc
        } else {
            spec_insert(
                acc,
                spec_variant_name(v, f),
                match v {
                    EnumVariant::Single(_, _) => DictionaryEnumerationItem::Number(start as u64),
                    EnumVariant::Range(_, _, _, count) => DictionaryEnumerationItem::Range(
                        start as u64,
                        count,
                    ),
                },
            )
        };
        spec_to_dict(vs.skip(1), f, start + spec_variant_count(v), acc2)
    }
}

impl Enumeration {
    /// The greatest numbered value of this enumeration, zero when it
    /// has no variants.
    pub open spec fn spec_max_variant(&self) -> int {
        if self.variants@.len() == 0 {
            0
        } else {
            spec_total_count(self.variants@) - 1
        }
    }

    /// The name under which this enumeration appears in the dictionary.
    pub fn dictionary_name(&self) -> (r: Vec<u8>)
        ensures
            r@ == match self.opts.name {
                Some(n) => n@,
                None => self.ident@,
            },
    {
        let mut out: Vec<u8> = Vec::new();
        match self.opts.name.as_ref() {
            Some(n) => {
                out.extend_from_slice(n.as_slice());
                proof {
                    assert(out@ =~= self.opts.name->Some_0@);
                }
            },
            None => {
                out.extend_from_slice(self.ident.as_slice());
                proof {
                    assert(out@ =~= self.ident@);
                }
            },
        }
        out
    }

    /// The total count of numbered values.
    pub fn total_count(&self) -> (r: u64)
        requires
            spec_total_count(self.variants@) <= u64::MAX,
        ensures
            r == spec_total_count(self.variants@),
    {
        let mut total: u64 = 0;
        let mut i: usize = 0;
        proof {
            assert(self.variants@.take(0) =~= Seq::<EnumVariant>::empty());
        }
        while i < self.variants.len()
            invariant
                0 <= i <= self.variants@.len(),
                total == spec_total_count(self.variants@.take(i as int)),
                spec_total_count(self.variants@) <= u64::MAX,
            decreases self.variants@.len() - i,
        {
            proof {
                assert(self.variants@.take(i + 1).drop_last() =~= self.variants@.take(i as int));
                assert(self.variants@.take(i + 1).last() == self.variants@[i as int]);
                lemma_total_count_mono(self.variants@, i + 1);
                lemma_total_count_nonneg(self.variants@.take(i as int));
            }
            total = total + self.variants[i].count();
            i = i + 1;
        }
        proof {
            assert(self.variants@.take(self.variants@.len() as int) =~= self.variants@);
        }
        total
    }

    /// The greatest numbered value of this enumeration.
    pub fn max_variant(&self) -> (r: u64)
        requires
            spec_total_count(self.variants@) <= u64::MAX,
            self.variants@.len() == 0 || spec_total_count(self.variants@) >= 1,
        ensures
            r == self.spec_max_variant(),
    {
        if self.variants.len() == 0 {
            0
        } else {
            let t = self.total_count();
            t - 1
        }
    }

    /// The dictionary entries of this enumeration.
    pub fn to_dictionary(&self) -> (r: DictionaryEnumeration)
        requires
            spec_total_count(self.variants@) <= u64::MAX,
        ensures
            r.0@ == spec_to_dict(
                self.variants@,
                self.opts.rename_all,
                0,
                Seq::<(Seq<u8>, DictionaryEnumerationItem)>::empty(),
            ),
            r.0.wf(),
    {
        let mut map: ByteMap<DictionaryEnumerationItem> = ByteMap::new();
        let mut start: u64 = 0;
        let mut i: usize = 0;
        let ghost vs = self.variants@;
        proof {
            assert(vs.skip(0) =~= vs);
            assert(vs.take(0) =~= Seq::<EnumVariant>::empty());
        }
        while i < self.variants.len()
            invariant
                0 <= i <= vs.len(),
                vs == self.variants@,
                start == spec_total_count(vs.take(i as int)),
                spec_total_count(vs) <= u64::MAX,
                map.wf(),
                spec_to_dict(
                    vs,
                    self.opts.rename_all,
                    0,
                    Seq::<(Seq<u8>, DictionaryEnumerationItem)>::empty(),
                ) == spec_to_dict(vs.skip(i as int), self.opts.rename_all, start as int, map@),
            decreases vs.len() - i,
        {
            proof {
                assert(vs.take(i + 1).drop_last() =~= vs.take(i as int));
                assert(vs.take(i + 1).last() == vs[i as int]);
                lemma_total_count_mono(vs, i + 1);
                lemma_total_count_nonneg(vs.take(i as int));
                assert(vs.skip(i as int)[0] == vs[i as int]);
                assert(vs.skip(i as int).skip(1) =~= vs.skip(i + 1));
            }
            let v = &self.variants[i];
            if !v.opts().disabled {
                let name = v.name(&self.opts.rename_all);
                let item = match v {
                    EnumVariant::Single(_, _) => DictionaryEnumerationItem::Number(start),
                    EnumVariant::Range(_, _, _, count) => DictionaryEnumerationItem::Range(
                        start,
                        *count,
                    ),
                };
                map.insert(name, item);
            }
            start = start + self.variants[i].count();
            i = i + 1;
        }
        proof {
            assert(vs.skip(vs.len() as int) =~= Seq::<EnumVariant>::empty());
        }
        DictionaryEnumeration(map)
    }
}

/// The re-emitted lines for a list of attributes: each chosen attribute
/// indented on its own line.  With `only_cfg` set, only `cfg` attributes
/// are kept, as on generated match arms.
pub open spec fn spec_attr_lines(attrs: Seq<VariantAttr>, only_cfg: bool, indent: Seq<u8>) -> Seq<
    u8,
>
    decreases attrs.len(),
{
    if attrs.len() == 0 {
        Seq::empty()
    } else {
        spec_attr_lines(attrs.drop_last(), only_cfg, indent) + (if !only_cfg
            || attrs.last().is_cfg {
            indent + attrs.last().text@ + "\n".spec_bytes()
        } else {
            Seq::empty()
        })
    }
}

/// Append attribute lines to `out`.
pub fn push_attr_lines(out: &mut Vec<u8>, attrs: &Vec<VariantAttr>, only_cfg: bool, indent: &str)
    ensures
        final(out)@ == old(out)@ + spec_attr_lines(attrs@, only_cfg, indent.spec_bytes()),
{
    let ghost base = old(out)@;
    let mut i: usize = 0;
    proof {
        assert(attrs@.take(0) =~= Seq::<VariantAttr>::empty());
        assert(out@ =~= base + spec_attr_lines(attrs@.take(0), only_cfg, indent.spec_bytes()));
    }
    while i < attrs.len()
        invariant
            0 <= i <= attrs@.len(),
            base == old(out)@,
            out@ == base + spec_attr_lines(attrs@.take(i as int), only_cfg, indent.spec_bytes()),
        decreases attrs@.len() - i,
    {
        if !only_cfg || attrs[i].is_cfg {
            out.extend_from_slice(indent.as_bytes());
            out.extend_from_slice(attrs[i].text.as_slice());
            out.extend_from_slice("\n".as_bytes());
        }
        proof {
            assert(attrs@.take(i + 1).drop_last() =~= attrs@.take(i as int));
            assert(attrs@.take(i + 1).last() == attrs@[i as int]);
            assert(out@ =~= base + spec_attr_lines(
                attrs@.take(i + 1),
                only_cfg,
                indent.spec_bytes(),
            ));
        }
        i = i + 1;
    }
    proof {
        assert(attrs@.take(attrs@.len() as int) =~= attrs@);
    }
}

/// Every range variant's identifier numbering stays within bounds.
pub open spec fn spec_ranges_ok(vs: Seq<EnumVariant>) -> bool {
    forall|i: int|
        0 <= i < vs.len() ==> match #[trigger] vs[i] {
            EnumVariant::Range(_, _, start, count) => start + count <= u64::MAX,
            EnumVariant::Single(_, _) => true,
        }
}

/// The declaration lines a range variant expands to: its first `k`
/// identifiers, each with the variant's attributes.
pub open spec fn spec_range_decl(
    attrs: Seq<VariantAttr>,
    prefix: Seq<u8>,
    istart: int,
    k: int,
) -> Seq<u8>
    decreases k,
{
    if k <= 0 {
        Seq::empty()
    } else {
        spec_range_decl(attrs, prefix, istart, k - 1) + spec_attr_lines(
            attrs,
            false,
            "    ".spec_bytes(),
        ) + "    ".spec_bytes() + prefix + spec_dec(istart + k - 1) + ",\n".spec_bytes()
    }
}

/// The declaration lines of one variant.
pub open spec fn spec_variant_decl(v: EnumVariant) -> Seq<u8> {
    match v {
        EnumVariant::Single(o, ident) => spec_attr_lines(o.attrs@, false, "    ".spec_bytes())
            + "    ".spec_bytes() + ident@ + ",\n".spec_bytes(),
        EnumVariant::Range(o, prefix, istart, count) => spec_range_decl(
            o.attrs@,
            prefix@,
            istart as int,
            count as int,
        ),
    }
}

/// The declaration lines of a variant list.
pub open spec fn spec_variant_decls(vs: Seq<EnumVariant>) -> Seq<u8>
    decreases vs.len(),
{
    if vs.len() == 0 {
        Seq::empty()
    } else {
        spec_variant_decls(vs.drop_last()) + spec_variant_decl(vs.last())
    }
}

/// Append the declaration lines of one variant to `out`.
pub fn push_variant_decl(out: &mut Vec<u8>, v: &EnumVariant)
    requires
        v matches EnumVariant::Range(_, _, istart, count) ==> *istart + *count <= u64::MAX,
    ensures
        final(out)@ == old(out)@ + spec_variant_decl(*v),
{
    let ghost base = old(out)@;
    match v {
        EnumVariant::Single(o, ident) => {
            push_attr_lines(out, &o.attrs, false, "    ");
            out.extend_from_slice("    ".as_bytes());
            out.extend_from_slice(ident.as_slice());
            out.extend_from_slice(",\n".as_bytes());
            proof {
                assert(out@ =~= base + spec_variant_decl(*v));
            }
        },
        EnumVariant::Range(o, prefix, istart, count) => {
            let mut k: u64 = 0;
            proof {
                assert(out@ =~= base + spec_range_decl(o.attrs@, prefix@, *istart as int, 0));
            }
            while k < *count
                invariant
                    0 <= k <= *count,
                    *istart + *count <= u64::MAX,
                    base == old(out)@,
                    out@ == base + spec_range_decl(o.attrs@, prefix@, *istart as int, k as int),
                decreases *count - k,
            {
                push_attr_lines(out, &o.attrs, false, "    ");
                out.extend_from_slice("    ".as_bytes());
                out.extend_from_slice(prefix.as_slice());
                let d = crate::json::u64_dec(*istart + k);
                out.extend_from_slice(d.as_slice());
                out.extend_from_slice(",\n".as_bytes());
                proof {
                    assert(out@ =~= base + spec_range_decl(
                        o.attrs@,
                        prefix@,
                        *istart as int,
                        k + 1,
                    ));
                }
                k = k + 1;
            }
        },
    }
}

/// The wire-to-variant match arms a range variant expands to: its first
/// `k` values.
pub open spec fn spec_range_matches(
    attrs: Seq<VariantAttr>,
    prefix: Seq<u8>,
    wstart: int,
    istart: int,
    k: int,
) -> Seq<u8>
    decreases k,
{
    if k <= 0 {
        Seq::empty()
    } else {
        spec_range_matches(attrs, prefix, wstart, istart, k - 1) + spec_attr_lines(
            attrs,
            true,
            "            ".spec_bytes(),
        ) + "            ".spec_bytes() + spec_dec(wstart + k - 1) + " => Ok(Self::".spec_bytes()
            + prefix + spec_dec(istart + k - 1) + "),\n".spec_bytes()
    }
}

/// The wire-to-variant match arms of one variant starting at `start`.
pub open spec fn spec_variant_matches_one(v: EnumVariant, start: int) -> Seq<u8> {
    match v {
        EnumVariant::Single(o, ident) => spec_attr_lines(
            o.attrs@,
            true,
            "            ".spec_bytes(),
        ) + "            ".spec_bytes() + spec_dec(start) + " => Ok(Self::".spec_bytes() + ident@
            + "),\n".spec_bytes(),
        EnumVariant::Range(o, prefix, istart, count) => spec_range_matches(
            o.attrs@,
            prefix@,
            start,
            istart as int,
            count as int,
        ),
    }
}

/// The wire-to-variant match arms of a variant list, with a running
/// start value.
pub open spec fn spec_matches_from(vs: Seq<EnumVariant>, start: int) -> Seq<u8>
    decreases vs.len(),
{
    if vs.len() == 0 {
        Seq::empty()
    } else {
        spec_variant_matches_one(vs[0], start) + spec_matches_from(
            vs.skip(1),
            start + spec_variant_count(vs[0]),
        )
    }
}

/// The variant-to-wire match arms a range variant expands to.
pub open spec fn spec_range_to_matches(
    attrs: Seq<VariantAttr>,
    enum_ident: Seq<u8>,
    prefix: Seq<u8>,
    wstart: int,
    istart: int,
    k: int,
) -> Seq<u8>
    decreases k,
{
    if k <= 0 {
        Seq::empty()
    } else {
        spec_range_to_matches(attrs, enum_ident, prefix, wstart, istart, k - 1) + spec_attr_lines(
            attrs,
            true,
            "            ".spec_bytes(),
        ) + "            ".spec_bytes() + enum_ident + "::".spec_bytes() + prefix + spec_dec(
            istart + k - 1,
        ) + " => ".spec_bytes() + spec_dec(wstart + k - 1) + ",\n".spec_bytes()
    }
}

/// The variant-to-wire match arms of one variant starting at `start`.
pub open spec fn spec_variant_to_matches_one(v: EnumVariant, enum_ident: Seq<u8>, start: int) -> Seq<
    u8,
> {
    match v {
        EnumVariant::Single(o, ident) => spec_attr_lines(
            o.attrs@,
            true,
            "            ".spec_bytes(),
        ) + "            ".spec_bytes() + enum_ident + "::".spec_bytes() + ident@
            + " => ".spec_bytes() + spec_dec(start) + ",\n".spec_bytes(),
        EnumVariant::Range(o, prefix, istart, count) => spec_range_to_matches(
            o.attrs@,
            enum_ident,
            prefix@,
            start,
            istart as int,
            count as int,
        ),
    }
}

/// The variant-to-wire match arms of a variant list.
pub open spec fn spec_to_matches_from(vs: Seq<EnumVariant>, enum_ident: Seq<u8>, start: int) -> Seq<
    u8,
>
    decreases vs.len(),
{
    if vs.len() == 0 {
        Seq::empty()
    } else {
        spec_variant_to_matches_one(vs[0], enum_ident, start) + spec_to_matches_from(
            vs.skip(1),
            enum_ident,
            start + spec_variant_count(vs[0]),
        )
    }
}

/// The names of the integer types an enumeration of this size converts
/// from and to.
pub open spec fn spec_valid_input_types(max: int) -> Seq<Seq<u8>> {
    if max <= 255 {
        seq![
            "u8".spec_bytes(),
            "u16".spec_bytes(),
            "u32".spec_bytes(),
            "u64".spec_bytes(),
            "usize".spec_bytes(),
        ]
    } else if max <= 65535 {
        seq!["u16".spec_bytes(), "u32".spec_bytes(), "u64".spec_bytes(), "usize".spec_bytes()]
    } else {
        seq!["u32".spec_bytes(), "u64".spec_bytes(), "usize".spec_bytes()]
    }
}

/// The `TryFrom` conversion impl for one input type.
pub open spec fn spec_try_from_impl(ty: Seq<u8>, enum_ident: Seq<u8>, arms: Seq<u8>) -> Seq<u8> {
    "impl core::convert::TryFrom<".spec_bytes() + ty + "> for ".spec_bytes() + enum_ident
        + " {\n    type Error = ();\n\n    fn try_from(value: ".spec_bytes() + ty
        + ") -> Result<Self, Self::Error> {\n        match value {\n".spec_bytes() + arms
        + "            _ => Err(()),\n        }\n    }\n}\n".spec_bytes()
}

/// The `TryFrom` conversion impls for a list of input types.
pub open spec fn spec_try_from_impls(tys: Seq<Seq<u8>>, enum_ident: Seq<u8>, arms: Seq<u8>) -> Seq<
    u8,
>
    decreases tys.len(),
{
    if tys.len() == 0 {
        Seq::empty()
    } else {
        spec_try_from_impls(tys.drop_last(), enum_ident, arms) + spec_try_from_impl(
            tys.last(),
            enum_ident,
            arms,
        )
    }
}

/// The `From` conversion impl for one output type.
pub open spec fn spec_from_impl(ty: Seq<u8>, enum_ident: Seq<u8>, arms: Seq<u8>) -> Seq<u8> {
    "impl From<".spec_bytes() + enum_ident + "> for ".spec_bytes() + ty
        + " {\n    fn from(value: ".spec_bytes() + enum_ident + ") -> ".spec_bytes() + ty
        + " {\n        match value {\n".spec_bytes() + arms
        + "        }\n    }\n}\n".spec_bytes()
}

/// The `From` conversion impls for a list of output types.
pub open spec fn spec_from_impls(tys: Seq<Seq<u8>>, enum_ident: Seq<u8>, arms: Seq<u8>) -> Seq<u8>
    decreases tys.len(),
{
    if tys.len() == 0 {
        Seq::empty()
    } else {
        spec_from_impls(tys.drop_last(), enum_ident, arms) + spec_from_impl(
            tys.last(),
            enum_ident,
            arms,
        )
    }
}

/// The generated enum declaration and its `max_variant` helper: the
/// re-emitted attributes, the enum with its expanded variants, and the
/// size of the numbering.
pub open spec fn spec_enum_header(e: Enumeration) -> Seq<u8> {
    spec_attr_lines(e.attrs@, false, "".spec_bytes()) + e.vis@ + "enum ".spec_bytes() + e.ident@
        + " {\n".spec_bytes() + spec_variant_decls(e.variants@) + "}\n\nimpl ".spec_bytes()
        + e.ident@ + " {\n    fn max_variant() -> usize {\n        ".spec_bytes() + spec_dec(
        e.spec_max_variant(),
    ) + "\n    }\n}\n".spec_bytes()
}

/// The full generated source text of an enumeration: the header followed
/// by the conversion impls in both directions.
pub open spec fn spec_enum_source(e: Enumeration) -> Seq<u8> {
    let tys = spec_valid_input_types(e.spec_max_variant());
    spec_enum_header(e) + spec_try_from_impls(tys, e.ident@, spec_matches_from(e.variants@, 0))
        + spec_from_impls(tys, e.ident@, spec_to_matches_from(e.variants@, e.ident@, 0))
}

impl Enumeration {
    /// The wire-to-variant match arms of this enumeration.
    #[verifier::rlimit(100)]
    pub fn variant_matches(&self) -> (r: Vec<u8>)
        requires
            spec_total_count(self.variants@) <= u64::MAX,
            spec_ranges_ok(self.variants@),
        ensures
            r@ == spec_matches_from(self.variants@, 0),
    {
        let ghost vs = self.variants@;
        let mut out: Vec<u8> = Vec::new();
        let mut start: u64 = 0;
        let mut i: usize = 0;
        proof {
            assert(vs.skip(0) =~= vs);
            assert(vs.take(0) =~= Seq::<EnumVariant>::empty());
            assert(out@ + spec_matches_from(vs, 0) =~= spec_matches_from(vs, 0));
        }
        while i < self.variants.len()
            invariant
                0 <= i <= vs.len(),
                vs == self.variants@,
                spec_total_count(vs) <= u64::MAX,
                spec_ranges_ok(vs),
                start == spec_total_count(vs.take(i as int)),
                spec_matches_from(vs, 0) == out@ + spec_matches_from(
                    vs.skip(i as int),
                    start as int,
                ),
            decreases vs.len() - i,
        {
            proof {
                assert(vs.take(i + 1).drop_last() =~= vs.take(i as int));
                assert(vs.take(i + 1).last() == vs[i as int]);
                lemma_total_count_mono(vs, i + 1);
                lemma_total_count_nonneg(vs.take(i as int));
                assert(vs.skip(i as int)[0] == vs[i as int]);
                assert(vs.skip(i as int).skip(1) =~= vs.skip(i + 1));
            }
            let ghost out0 = out@;
            match &self.variants[i] {
                EnumVariant::Single(o, ident) => {
                    push_attr_lines(&mut out, &o.attrs, true, "            ");
                    out.extend_from_slice("            ".as_bytes());
                    let d = crate::json::u64_dec(start);
                    out.extend_from_slice(d.as_slice());
                    out.extend_from_slice(" => Ok(Self::".as_bytes());
                    out.extend_from_slice(ident.as_slice());
                    out.extend_from_slice("),\n".as_bytes());
                    proof {
                        assert(out@ =~= out0 + spec_variant_matches_one(
                            vs[i as int],
                            start as int,
                        ));
                    }
                },
                EnumVariant::Range(o, prefix, istart, count) => {
                    let mut k: u64 = 0;
                    proof {
                        assert(out@ =~= out0 + spec_range_matches(
                            o.attrs@,
                            prefix@,
                            start as int,
                            *istart as int,
                            0,
                        ));
                    }
                    while k < *count
                        invariant
                            0 <= k <= *count,
                            *istart + *count <= u64::MAX,
                            start + *count <= u64::MAX,
                            out@ == out0 + spec_range_matches(
                                o.attrs@,
                                prefix@,
                                start as int,
                                *istart as int,
                                k as int,
                            ),
                        decreases *count - k,
                    {
                        push_attr_lines(&mut out, &o.attrs, true, "            ");
                        out.extend_from_slice("            ".as_bytes());
                        let d = crate::json::u64_dec(start + k);
                        out.extend_from_slice(d.as_slice());
                        out.extend_from_slice(" => Ok(Self::".as_bytes());
                        out.extend_from_slice(prefix.as_slice());
                        let d2 = crate::json::u64_dec(*istart + k);
                        out.extend_from_slice(d2.as_slice());
                        out.extend_from_slice("),\n".as_bytes());
                        proof {
                            assert(out@ =~= out0 + spec_range_matches(
                                o.attrs@,
                                prefix@,
                                start as int,
                                *istart as int,
                                k + 1,
                            ));
                        }
                        k = k + 1;
                    }
                },
            }
            proof {
                assert(out@ =~= out0 + spec_variant_matches_one(vs[i as int], start as int));
                assert((out0 + spec_variant_matches_one(vs[i as int], start as int))
                    + spec_matches_from(vs.skip(i + 1), start + spec_variant_count(vs[i as int]))
                    =~= out0 + (spec_variant_matches_one(vs[i as int], start as int)
                    + spec_matches_from(
                    vs.skip(i + 1),
                    start + spec_variant_count(vs[i as int]),
                )));
            }
            start = start + self.variants[i].count();
            i = i + 1;
        }
        proof {
            assert(vs.skip(vs.len() as int) =~= Seq::<EnumVariant>::empty());
            assert(out@ + spec_matches_from(vs.skip(vs.len() as int), start as int) =~= out@);
        }
        out
    }

    /// The variant-to-wire match arms of this enumeration.
    #[verifier::rlimit(100)]
    pub fn variant_to_matches(&self) -> (r: Vec<u8>)
        requires
            spec_total_count(self.variants@) <= u64::MAX,
            spec_ranges_ok(self.variants@),
        ensures
            r@ == spec_to_matches_from(self.variants@, self.ident@, 0),
    {
        let ghost vs = self.variants@;
        let ghost eid = self.ident@;
        let mut out: Vec<u8> = Vec::new();
        let mut start: u64 = 0;
        let mut i: usize = 0;
        proof {
            assert(vs.skip(0) =~= vs);
            assert(vs.take(0) =~= Seq::<EnumVariant>::empty());
            assert(out@ + spec_to_matches_from(vs, eid, 0) =~= spec_to_matches_from(vs, eid, 0));
        }
        while i < self.variants.len()
            invariant
                0 <= i <= vs.len(),
                vs == self.variants@,
                eid == self.ident@,
                spec_total_count(vs) <= u64::MAX,
                spec_ranges_ok(vs),
                start == spec_total_count(vs.take(i as int)),
                spec_to_matches_from(vs, eid, 0) == out@ + spec_to_matches_from(
                    vs.skip(i as int),
                    eid,
                    start as int,
                ),
            decreases vs.len() - i,
        {
            proof {
                assert(vs.take(i + 1).drop_last() =~= vs.take(i as int));
                assert(vs.take(i + 1).last() == vs[i as int]);
                lemma_total_count_mono(vs, i + 1);
                lemma_total_count_nonneg(vs.take(i as int));
                assert(vs.skip(i as int)[0] == vs[i as int]);
                assert(vs.skip(i as int).skip(1) =~= vs.skip(i + 1));
            }
            let ghost out0 = out@;
            match &self.variants[i] {
                EnumVariant::Single(o, ident) => {
                    push_attr_lines(&mut out, &o.attrs, true, "            ");
                    out.extend_from_slice("            ".as_bytes());
                    out.extend_from_slice(self.ident.as_slice());
                    out.extend_from_slice("::".as_bytes());
                    out.extend_from_slice(ident.as_slice());
                    out.extend_from_slice(" => ".as_bytes());
                    let d = crate::json::u64_dec(start);
                    out.extend_from_slice(d.as_slice());
                    out.extend_from_slice(",\n".as_bytes());
                    proof {
                        assert(out@ =~= out0 + spec_variant_to_matches_one(
                            vs[i as int],
                            eid,
                            start as int,
                        ));
                    }
                },
                EnumVariant::Range(o, prefix, istart, count) => {
                    let mut k: u64 = 0;
                    proof {
                        assert(out@ =~= out0 + spec_range_to_matches(
                            o.attrs@,
                            eid,
                            prefix@,
                            start as int,
                            *istart as int,
                            0,
                        ));
                    }
                    while k < *count
                        invariant
                            0 <= k <= *count,
                            *istart + *count <= u64::MAX,
                            start + *count <= u64::MAX,
                            eid == self.ident@,
                            out@ == out0 + spec_range_to_matches(
                                o.attrs@,
                                eid,
                                prefix@,
                                start as int,
                                *istart as int,
                                k as int,
                            ),
                        decreases *count - k,
                    {
                        push_attr_lines(&mut out, &o.attrs, true, "            ");
                        out.extend_from_slice("            ".as_bytes());
                        out.extend_from_slice(self.ident.as_slice());
                        out.extend_from_slice("::".as_bytes());
                        out.extend_from_slice(prefix.as_slice());
                        let d2 = crate::json::u64_dec(*istart + k);
                        out.extend_from_slice(d2.as_slice());
                        out.extend_from_slice(" => ".as_bytes());
                        let d = crate::json::u64_dec(start + k);
                        out.extend_from_slice(d.as_slice());
                        out.extend_from_slice(",\n".as_bytes());
                        proof {
                            assert(out@ =~= out0 + spec_range_to_matches(
                                o.attrs@,
                                eid,
                                prefix@,
                                start as int,
                                *istart as int,
                                k + 1,
                            ));
                        }
                        k = k + 1;
                    }
                },
            }
            proof {
                assert(out@ =~= out0 + spec_variant_to_matches_one(
                    vs[i as int],
                    eid,
                    start as int,
                ));
                assert((out0 + spec_variant_to_matches_one(vs[i as int], eid, start as int))
                    + spec_to_matches_from(
                    vs.skip(i + 1),
                    eid,
                    start + spec_variant_count(vs[i as int]),
                ) =~= out0 + (spec_variant_to_matches_one(vs[i as int], eid, start as int)
                    + spec_to_matches_from(
                    vs.skip(i + 1),
                    eid,
                    start + spec_variant_count(vs[i as int]),
                )));
            }
            start = start + self.variants[i].count();
            i = i + 1;
        }
        proof {
            assert(vs.skip(vs.len() as int) =~= Seq::<EnumVariant>::empty());
            assert(out@ + spec_to_matches_from(vs.skip(vs.len() as int), eid, start as int)
                =~= out@);
        }
        out
    }

    /// The names of the integer types this enumeration converts from
    /// and to.
    pub fn valid_input_types(&self) -> (r: Vec<&'static str>)
        requires
            spec_total_count(self.variants@) <= u64::MAX,
            self.variants@.len() == 0 || spec_total_count(self.variants@) >= 1,
        ensures
            r@.map_values(|t: &'static str| t.spec_bytes()) == spec_valid_input_types(
                self.spec_max_variant(),
            ),
    {
        let max = self.max_variant();
        let mut r: Vec<&'static str> = Vec::new();
        if max <= 255 {
            r.push("u8");
            r.push("u16");
            r.push("u32");
            r.push("u64");
            r.push("usize");
        } else if max <= 65535 {
            r.push("u16");
            r.push("u32");
            r.push("u64");
            r.push("usize");
        } else {
            r.push("u32");
            r.push("u64");
            r.push("usize");
        }
        proof {
            assert(r@.map_values(|t: &'static str| t.spec_bytes()) =~= spec_valid_input_types(
                self.spec_max_variant(),
            ));
        }
        r
    }

    /// The full generated source text of this enumeration.
    #[verifier::rlimit(100)]
    pub fn to_token_stream(&self) -> (r: Vec<u8>)
        requires
            spec_total_count(self.variants@) <= u64::MAX,
            self.variants@.len() == 0 || spec_total_count(self.variants@) >= 1,
            spec_ranges_ok(self.variants@),
        ensures
            r@ == spec_enum_source(*self),
    {
        let mut out: Vec<u8> = Vec::new();
        push_attr_lines(&mut out, &self.attrs, false, "");
        out.extend_from_slice(self.vis.as_slice());
        out.extend_from_slice("enum ".as_bytes());
        out.extend_from_slice(self.ident.as_slice());
        out.extend_from_slice(" {\n".as_bytes());
        let ghost vs = self.variants@;
        let ghost mark = out@;
        let mut i: usize = 0;
        proof {
            assert(vs.take(0) =~= Seq::<EnumVariant>::empty());
            assert(out@ =~= mark + spec_variant_decls(vs.take(0)));
        }
        while i < self.variants.len()
            invariant
                0 <= i <= vs.len(),
                vs == self.variants@,
                spec_ranges_ok(vs),
                out@ == mark + spec_variant_decls(vs.take(i as int)),
            decreases vs.len() - i,
        {
            push_variant_decl(&mut out, &self.variants[i]);
            proof {
                assert(vs.take(i + 1).drop_last() =~= vs.take(i as int));
                assert(vs.take(i + 1).last() == vs[i as int]);
                assert(out@ =~= mark + spec_variant_decls(vs.take(i + 1)));
            }
            i = i + 1;
        }
        proof {
            assert(vs.take(vs.len() as int) =~= vs);
        }
        out.extend_from_slice("}\n\nimpl ".as_bytes());
        out.extend_from_slice(self.ident.as_slice());
        out.extend_from_slice(" {\n    fn max_variant() -> usize {\n        ".as_bytes());
        let max = self.max_variant();
        let d = crate::json::u64_dec(max);
        out.extend_from_slice(d.as_slice());
        out.extend_from_slice("\n    }\n}\n".as_bytes());
        let arms = self.variant_matches();
        let to_arms = self.variant_to_matches();
        let tys = self.valid_input_types();
        let ghost tysv = tys@.map_values(|t: &'static str| t.spec_bytes());
        let ghost eid = self.ident@;
        let ghost mark2 = out@;
        proof {
            assert(mark2 =~= spec_enum_header(*self));
            assert(tysv =~= spec_valid_input_types(self.spec_max_variant()));
        }
        let mut t: usize = 0;
        proof {
            assert(tysv.take(0) =~= Seq::<Seq<u8>>::empty());
            assert(out@ =~= mark2 + spec_try_from_impls(tysv.take(0), eid, arms@));
        }
        while t < tys.len()
            invariant
                0 <= t <= tys@.len(),
                eid == self.ident@,
                tysv == tys@.map_values(|ty: &'static str| ty.spec_bytes()),
                out@ == mark2 + spec_try_from_impls(tysv.take(t as int), eid, arms@),
            decreases tys@.len() - t,
        {
            out.extend_from_slice("impl core::convert::TryFrom<".as_bytes());
            out.extend_from_slice(tys[t].as_bytes());
            out.extend_from_slice("> for ".as_bytes());
            out.extend_from_slice(self.ident.as_slice());
            out.extend_from_slice(
                " {\n    type Error = ();\n\n    fn try_from(value: ".as_bytes(),
            );
            out.extend_from_slice(tys[t].as_bytes());
            out.extend_from_slice(
                ") -> Result<Self, Self::Error> {\n        match value {\n".as_bytes(),
            );
            out.extend_from_slice(arms.as_slice());
            out.extend_from_slice("            _ => Err(()),\n        }\n    }\n}\n".as_bytes());
            proof {
                assert(tysv.take(t + 1).drop_last() =~= tysv.take(t as int));
                assert(tysv.take(t + 1).last() == tysv[t as int]);
                assert(out@ =~= mark2 + spec_try_from_impls(tysv.take(t + 1), eid, arms@));
            }
            t = t + 1;
        }
        proof {
            assert(tysv.take(tys@.len() as int) =~= tysv);
        }
        let ghost mark3 = out@;
        let mut t2: usize = 0;
        proof {
            assert(tysv.take(0) =~= Seq::<Seq<u8>>::empty());
            assert(out@ =~= mark3 + spec_from_impls(tysv.take(0), eid, to_arms@));
        }
        while t2 < tys.len()
            invariant
                0 <= t2 <= tys@.len(),
                eid == self.ident@,
                tysv == tys@.map_values(|ty: &'static str| ty.spec_bytes()),
                out@ == mark3 + spec_from_impls(tysv.take(t2 as int), eid, to_arms@),
            decreases tys@.len() - t2,
        {
            out.extend_from_slice("impl From<".as_bytes());
            out.extend_from_slice(self.ident.as_slice());
            out.extend_from_slice("> for ".as_bytes());
            out.extend_from_slice(tys[t2].as_bytes());
            out.extend_from_slice(" {\n    fn from(value: ".as_bytes());
            out.extend_from_slice(self.ident.as_slice());
            out.extend_from_slice(") -> ".as_bytes());
            out.extend_from_slice(tys[t2].as_bytes());
            out.extend_from_slice(" {\n        match value {\n".as_bytes());
            out.extend_from_slice(to_arms.as_slice());
            out.extend_from_slice("        }\n    }\n}\n".as_bytes());
            proof {
                assert(tysv.take(t2 + 1).drop_last() =~= tysv.take(t2 as int));
                assert(tysv.take(t2 + 1).last() == tysv[t2 as int]);
                assert(out@ =~= mark3 + spec_from_impls(tysv.take(t2 + 1), eid, to_arms@));
            }
            t2 = t2 + 1;
        }
        proof {
            assert(tysv.take(tys@.len() as int) =~= tysv);
            assert(out@ == spec_enum_source(*self));
        }
        out
    }
}

/// Prefixes of a variant list never count more values than the whole.
pub proof fn lemma_total_count_mono(vs: Seq<EnumVariant>, i: int)
    requires
        0 <= i <= vs.len(),
    ensures
        spec_total_count(vs.take(i)) <= spec_total_count(vs),
    decreases vs.len() - i,
{
    if i < vs.len() {
        assert(vs.take(i + 1).drop_last() =~= vs.take(i));
        assert(vs.take(i + 1).last() == vs[i]);
        lemma_total_count_mono(vs, i + 1);
        lemma_variant_count_nonneg(vs[i]);
    } else {
        assert(vs.take(i) =~= vs);
    }
}

/// A variant occupies at least zero values.
pub proof fn lemma_variant_count_nonneg(v: EnumVariant)
    ensures
        spec_variant_count(v) >= 0,
{
}

/// A variant list occupies at least zero values.
pub proof fn lemma_total_count_nonneg(vs: Seq<EnumVariant>)
    ensures
        spec_total_count(vs) >= 0,
    decreases vs.len(),
{
    if vs.len() > 0 {
        lemma_total_count_nonneg(vs.drop_last());
    }
}

} // verus!
