use anchor::enumeration::{
    rename_from_name, DictionaryEnumerationItem, EnumVariant, EnumVariantOpts, Enumeration,
    EnumerationOptions, RenameFormat,
};
use anchor::static_string::{hex_name, StaticString};

fn b(s: &str) -> Vec<u8> {
    s.as_bytes().to_vec()
}

fn plain_opts() -> EnumVariantOpts {
    EnumVariantOpts { disabled: false, rename: None, attrs: Vec::new() }
}

#[test]
fn rename_formats() {
    assert_eq!(RenameFormat::Identity.apply(b"SpiBus"), b("SpiBus"));
    assert_eq!(RenameFormat::LowerCase.apply(b"SpiBus"), b("spibus"));
    assert_eq!(RenameFormat::UpperCase.apply(b"SpiBus"), b("SPIBUS"));
    assert_eq!(RenameFormat::SnakeCase.apply(b"SpiBus"), b("spi_bus"));
    assert_eq!(RenameFormat::SnakeCase.apply(b"Abc"), b("abc"));
}

#[test]
fn rename_parsing() {
    assert_eq!(rename_from_name(b"lowercase"), Ok(RenameFormat::LowerCase));
    assert_eq!(rename_from_name(b"UPPERCASE"), Ok(RenameFormat::UpperCase));
    assert_eq!(rename_from_name(b"snake_case"), Ok(RenameFormat::SnakeCase));
    assert_eq!(rename_from_name(b"other"), Err(()));
}

#[test]
fn hex_names() {
    // 'a' is 0x61: high nibble 6, low nibble 1.
    assert_eq!(hex_name(b"a", false), b("gb"));
    assert_eq!(hex_name(b"a", true), b("GB"));
    assert_eq!(hex_name(b"", false), b(""));
    let ss = StaticString(b("bang"));
    assert_eq!(ss.compile_name(), b("STATIC_STRING_GCGBGOGH"));
}

fn pins_enum() -> Enumeration {
    Enumeration {
        opts: EnumerationOptions { name: Some(b("pin")), rename_all: RenameFormat::UpperCase },
        attrs: Vec::new(),
        vis: b("pub "),
        ident: b("Pins"),
        variants: vec![
            EnumVariant::Range(plain_opts(), b("PA"), 0, 16),
            EnumVariant::Range(plain_opts(), b("PB"), 0, 16),
            EnumVariant::Single(plain_opts(), b("AdcTemperature")),
        ],
    }
}

#[test]
fn numbering_and_dictionary() {
    let e = pins_enum();
    assert_eq!(e.total_count(), 33);
    assert_eq!(e.max_variant(), 32);
    let d = e.to_dictionary();
    // Sorted by name: ADCTEMPERATURE, PA, PB.
    assert_eq!(d.0.len(), 3);
    assert_eq!(d.0.key_at(0), b"ADCTEMPERATURE");
    assert_eq!(*d.0.value_at(0), DictionaryEnumerationItem::Number(32));
    assert_eq!(d.0.key_at(1), b"PA");
    assert_eq!(*d.0.value_at(1), DictionaryEnumerationItem::Range(0, 16));
    assert_eq!(d.0.key_at(2), b"PB");
    assert_eq!(*d.0.value_at(2), DictionaryEnumerationItem::Range(16, 16));
}

#[test]
fn disabled_variants_are_skipped_in_dictionary() {
    let disabled = EnumVariantOpts { disabled: true, rename: None, attrs: Vec::new() };
    let e = Enumeration {
        opts: EnumerationOptions { name: None, rename_all: RenameFormat::SnakeCase },
        attrs: Vec::new(),
        vis: b(""),
        ident: b("SpiBus"),
        variants: vec![
            EnumVariant::Single(plain_opts(), b("Spi0A")),
            EnumVariant::Single(disabled, b("Spi0B")),
            EnumVariant::Single(plain_opts(), b("Spi0C")),
        ],
    };
    assert_eq!(e.dictionary_name(), b("SpiBus"));
    let d = e.to_dictionary();
    // The disabled variant is skipped, but it still occupies its number.
    assert_eq!(d.0.len(), 2);
    assert_eq!(d.0.key_at(0), b"spi0_a");
    assert_eq!(*d.0.value_at(0), DictionaryEnumerationItem::Number(0));
    assert_eq!(d.0.key_at(1), b"spi0_c");
    assert_eq!(*d.0.value_at(1), DictionaryEnumerationItem::Number(2));
}

#[test]
fn variant_rename_overrides_policy() {
    let renamed = EnumVariantOpts { disabled: false, rename: Some(b("spi0a")), attrs: Vec::new() };
    let v = EnumVariant::Single(renamed, b("Spi0A"));
    assert_eq!(v.name(&RenameFormat::UpperCase), b("spi0a"));
    let plain = EnumVariant::Single(plain_opts(), b("Spi0A"));
    assert_eq!(plain.name(&RenameFormat::UpperCase), b("SPI0A"));
}

#[test]
fn generated_enum_source() {
    let e = pins_enum();
    let src = String::from_utf8(e.to_token_stream()).unwrap();
    assert!(src.contains("pub enum Pins {"));
    assert!(src.contains("    PA0,\n"));
    assert!(src.contains("    PA15,\n"));
    assert!(src.contains("    PB0,\n"));
    assert!(src.contains("    AdcTemperature,\n"));
    assert!(src.contains("fn max_variant() -> usize {\n        32\n    }"));
    assert!(src.contains("impl core::convert::TryFrom<u8> for Pins {"));
    assert!(src.contains("            0 => Ok(Self::PA0),\n"));
    assert!(src.contains("            16 => Ok(Self::PB0),\n"));
    assert!(src.contains("            32 => Ok(Self::AdcTemperature),\n"));
    assert!(src.contains("impl From<Pins> for u8 {"));
    assert!(src.contains("            Pins::PB15 => 31,\n"));
    assert!(src.contains("            Pins::AdcTemperature => 32,\n"));
    // The enum fits a byte, so every unsigned input type is offered.
    assert!(src.contains("impl core::convert::TryFrom<usize> for Pins {"));
}

#[test]
fn larger_enums_drop_narrow_input_types() {
    let e = Enumeration {
        opts: EnumerationOptions { name: None, rename_all: RenameFormat::Identity },
        attrs: Vec::new(),
        vis: b(""),
        ident: b("Wide"),
        variants: vec![EnumVariant::Range(plain_opts(), b("W"), 0, 300)],
    };
    let tys = e.valid_input_types();
    assert_eq!(tys, vec!["u16", "u32", "u64", "usize"]);
}
