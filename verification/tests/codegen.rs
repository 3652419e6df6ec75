use anchor::command::command_from_signature;
use anchor::dictionary::JsonValue;
use anchor::enumeration::{
    EnumVariant, EnumVariantOpts, Enumeration, EnumerationOptions, RenameFormat,
};
use anchor::errors::BuildError;
use anchor::generate::GenerateConfig;
use anchor::msg_desc::{Arg, FieldType};
use anchor::output::{parse_args, Output};
use anchor::processor::{Message, Processor};
use anchor::reply::Reply;
use anchor::static_string::StaticString;
use std::io::Read;

fn b(s: &str) -> Vec<u8> {
    s.as_bytes().to_vec()
}

fn plain_opts() -> EnumVariantOpts {
    EnumVariantOpts { disabled: false, rename: None, attrs: Vec::new() }
}

fn build_processor() -> Processor {
    let mut p = Processor::new();
    p.dictionary.version = b("unit 1");
    p.dictionary.build_versions = b("rustc test");
    p.add_identify().unwrap();

    let raw_args: Vec<(Vec<u8>, Vec<u8>)> = vec![(b("ctx"), b("()")), (b("_pos"), b("u16"))];
    let cmd = command_from_signature(b("get_value"), &raw_args).unwrap();
    assert!(cmd.has_context);
    p.add_message(b("get_value"), Message::Command(cmd)).unwrap();

    let reply = Reply {
        name: b("value"),
        id: None,
        args: vec![Arg { name: b("value"), ty: FieldType::U32 }],
    };
    p.add_message(b("value"), Message::Reply(reply)).unwrap();

    let fmt = b("stat %u");
    let args = parse_args(&fmt);
    assert_eq!(args, vec![FieldType::U32]);
    let output = Output { id: None, format: fmt.clone(), args };
    p.add_message(fmt, Message::Output(output)).unwrap();

    p.process_constant(b("CLOCK_FREQ"), JsonValue::UInt(1_000_000)).unwrap();
    p.process_constant(b("MCU"), JsonValue::Str(b("demo"))).unwrap();
    p.process_static_string(StaticString(b("oops"))).unwrap();
    p.process_klipper_shutdown(StaticString(b("bang"))).unwrap();

    let e = Enumeration {
        opts: EnumerationOptions { name: Some(b("pin")), rename_all: RenameFormat::UpperCase },
        attrs: Vec::new(),
        vis: b("pub "),
        ident: b("Pin"),
        variants: vec![
            EnumVariant::Range(plain_opts(), b("PA"), 0, 2),
            EnumVariant::Single(plain_opts(), b("Led")),
        ],
    };
    let de = e.to_dictionary();
    p.add_enum(b("pin"), de).unwrap();

    p.assign_command_ids().unwrap();
    p.finalize_dictionary();
    p
}

#[test]
fn ids_are_assigned_around_builtins() {
    let p = build_processor();
    // Catalog order is name order; identify and identify_response keep
    // their pre-assigned IDs 1 and 0, the rest fill the gaps upward.
    let get = p.messages.get(b"get_value").unwrap();
    assert_eq!(get.id(), Some(2));
    assert_eq!(p.messages.get(b"identify").unwrap().id(), Some(1));
    assert_eq!(p.messages.get(b"identify_response").unwrap().id(), Some(0));
    assert_eq!(p.messages.get(b"shutdown").unwrap().id(), Some(3));
    assert_eq!(p.messages.get(b"stat %u").unwrap().id(), Some(4));
    assert_eq!(p.messages.get(b"value").unwrap().id(), Some(5));
}

#[test]
fn dictionary_json_is_exact() {
    let p = build_processor();
    let json = p.dictionary.to_json();
    let mut expected = String::new();
    expected.push_str("{\"version\":\"unit 1\",\"build_versions\":\"rustc test\",");
    expected.push_str("\"config\":{\"CLOCK_FREQ\":1000000,\"MCU\":\"demo\"},");
    expected.push_str("\"commands\":{\"get_value pos=%hu\":2,\"identify offset=%u count=%u\":1},");
    expected.push_str("\"responses\":{\"identify_response offset=%u data=%*s\":0,");
    expected.push_str("\"shutdown clock=%u static_string_id=%hu\":3,\"value value=%u\":5},");
    expected.push_str("\"output\":{\"stat %u\":4},");
    expected.push_str("\"enumerations\":{\"pin\":{\"LED\":2,\"PA\":[0,2]},");
    expected.push_str("\"static_string_id\":{\"bang\":3,\"oops\":2}}}");
    assert_eq!(String::from_utf8(json).unwrap(), expected);
}

#[test]
fn compressed_dictionary_inflates_back() {
    let p = build_processor();
    let json = p.dictionary.to_json();
    let compressed = p.dictionary.to_compressed();
    // The encoder really ran: the result is not the input handed back.
    assert_ne!(compressed, json);
    let mut inflated: Vec<u8> = Vec::new();
    let mut decoder = flate2::read::ZlibDecoder::new(&compressed[..]);
    decoder.read_to_end(&mut inflated).expect("not a zlib stream");
    assert_eq!(inflated, json);
}

#[test]
fn json_string_escaping() {
    let mut p = Processor::new();
    p.process_constant(b("NAME"), JsonValue::Str(b("a\"b\\c\nd"))).unwrap();
    let json = p.dictionary.to_json();
    let text = String::from_utf8(json).unwrap();
    assert!(text.contains("\"NAME\":\"a\\\"b\\\\c\\nd\""));
}

#[test]
fn generated_module_contains_handlers_and_dictionary() {
    let mut p = build_processor();
    p.process_config_generate(GenerateConfig {
        transport: Some((b("crate::usb::TRANSPORT"), b("crate::usb::UsbSink"))),
        context: b("crate::State"),
    })
    .unwrap();
    let module = String::from_utf8(p.write().unwrap()).unwrap();
    assert!(module.contains("pub mod message_handlers {"));
    assert!(module.contains(
        "pub fn _anchor_get_value_handler(data: &mut &[u8], replies: &mut ReplyQueue, context: &mut Context)"
    ));
    assert!(module.contains("let pos = <u16 as ::anchor::encoding::Readable>::read(data)?;"));
    assert!(module.contains("get_value(context, pos);"));
    assert!(module.contains("2 => message_handlers::_anchor_get_value_handler(frame, replies, context),"));
    assert!(module.contains(
        "pub fn send_reply_value(replies: &mut ReplyQueue, value: u32)"
    ));
    assert!(module.contains("pub fn send_output_hdhegbhecacfhf(replies: &mut ReplyQueue, arg_0: u32)"));
    assert!(module.contains("pub const STATIC_STRING_GCGBGOGH: u16 = 3;"));
    assert!(module.contains("use crate::usb::TRANSPORT;"));
    assert!(module.contains("type Output = crate::usb::UsbSink;"));
    assert!(module.contains("type Context = crate::State;"));
    assert!(module.contains("const DATA: [u8; "));
    assert!(module.contains(
        "pub fn handle_identify(replies: &mut ReplyQueue, offset: u32, count: u32)"
    ));
    // The identify wrapper hands the reply queue to the built-in handler.
    assert!(module.contains("handle_identify(replies, offset, count);"));
    assert!(module.contains("replies.push_body(body.result());"));
}

#[test]
fn duplicate_message_with_different_signature_is_rejected() {
    let mut p = Processor::new();
    let r1 = Reply { name: b("value"), id: None, args: Vec::new() };
    p.add_message(b("value"), Message::Reply(r1)).unwrap();
    // Same name, same signature: harmless.
    let r2 = Reply { name: b("value"), id: None, args: Vec::new() };
    p.add_message(b("value"), Message::Reply(r2)).unwrap();
    // Same name, different signature: a build error.
    let r3 = Reply {
        name: b("value"),
        id: None,
        args: vec![Arg { name: b("x"), ty: FieldType::U8 }],
    };
    assert_eq!(
        p.add_message(b("value"), Message::Reply(r3)),
        Err(BuildError::DuplicateMessage)
    );
}

#[test]
fn duplicate_constant_is_rejected() {
    let mut p = Processor::new();
    p.process_constant(b("K"), JsonValue::UInt(1)).unwrap();
    assert_eq!(
        p.process_constant(b("K"), JsonValue::UInt(2)),
        Err(BuildError::DuplicateConstant)
    );
}

#[test]
fn second_transport_directive_is_rejected() {
    let mut p = Processor::new();
    let mk = || GenerateConfig { transport: Some((b("a::T"), b("a::S"))), context: b("()") };
    p.process_config_generate(mk()).unwrap();
    assert_eq!(p.process_config_generate(mk()), Err(BuildError::MultipleTransports));
}

#[test]
fn missing_transport_fails_validation() {
    let cfg = GenerateConfig { transport: None, context: b("()") };
    assert_eq!(cfg.validate(), Err(BuildError::MissingTransport));
    let ok = GenerateConfig { transport: Some((b("a::T"), b("a::S"))), context: b("()") };
    assert!(ok.validate().is_ok());
}

#[test]
fn skip_command_removes_catalog_entry() {
    let mut p = Processor::new();
    let raw: Vec<(Vec<u8>, Vec<u8>)> = Vec::new();
    let cmd = command_from_signature(b("must_skip"), &raw).unwrap();
    p.add_message(b("must_skip"), Message::Command(cmd)).unwrap();
    assert!(p.messages.get(b"must_skip").is_some());
    p.skip_command(b"must_skip");
    assert!(p.messages.get(b"must_skip").is_none());
}

#[test]
fn unknown_argument_type_is_rejected() {
    let raw: Vec<(Vec<u8>, Vec<u8>)> = vec![(b("x"), b("f32"))];
    assert_eq!(
        command_from_signature(b("bad"), &raw).err(),
        Some(BuildError::UnknownType)
    );
}

#[test]
fn id_space_exhaustion_is_an_error() {
    let mut p = Processor::new();
    // Fill all 256 IDs with pre-assigned replies.
    for i in 0..=255u32 {
        let name = format!("m{:03}", i).into_bytes();
        let r = Reply { name: name.clone(), id: Some(i as u8), args: Vec::new() };
        p.add_message(name, Message::Reply(r)).unwrap();
    }
    let extra = Reply { name: b("zzz"), id: None, args: Vec::new() };
    p.add_message(b("zzz"), Message::Reply(extra)).unwrap();
    assert_eq!(p.assign_command_ids(), Err(BuildError::TooManyMessages));
}

#[test]
fn descriptor_strings() {
    let raw: Vec<(Vec<u8>, Vec<u8>)> = vec![
        (b("oid"), b("u8")),
        (b("data"), b("&[u8]")),
        (b("on"), b("bool")),
    ];
    let cmd = command_from_signature(b("send_bytes"), &raw).unwrap();
    assert!(!cmd.has_context);
    let desc = cmd.get_desc_string();
    assert_eq!(String::from_utf8(desc).unwrap(), "send_bytes oid=%c data=%*s on=%c");
}

#[test]
fn output_format_parsing() {
    assert_eq!(
        parse_args(b"val %u %i %hu %hi %c"),
        vec![FieldType::U32, FieldType::I32, FieldType::U16, FieldType::I16, FieldType::U8]
    );
    assert_eq!(parse_args(b"buf %.*s name %*s"), vec![FieldType::ByteArray, FieldType::Str]);
    // A percent sign with no specifier introduces no argument.
    assert_eq!(parse_args(b"100%% done"), Vec::<FieldType>::new());
    assert_eq!(parse_args(b"plain"), Vec::<FieldType>::new());
}

#[test]
fn duplicate_ids_fail_module_generation() {
    let mut p = Processor::new();
    let r1 = Reply { name: b("alpha"), id: Some(7), args: Vec::new() };
    p.add_message(b("alpha"), Message::Reply(r1)).unwrap();
    let r2 = Reply { name: b("beta"), id: Some(7), args: Vec::new() };
    p.add_message(b("beta"), Message::Reply(r2)).unwrap();
    p.finalize_dictionary();
    assert_eq!(p.write().err(), Some(BuildError::DuplicateMessageId));
}

#[test]
fn builtins_are_seeded_exactly() {
    let mut p = Processor::new();
    p.add_identify().unwrap();
    match p.messages.get(b"identify").unwrap() {
        Message::Command(c) => {
            assert_eq!(c.id, Some(1));
            assert_eq!(c.handler_name, b("handle_identify"));
            assert!(!c.has_context);
            let names: Vec<&[u8]> = c.args.iter().map(|a| a.name.as_slice()).collect();
            assert_eq!(names, vec![b"offset" as &[u8], b"count"]);
            assert_eq!(c.args[0].ty, FieldType::U32);
            assert_eq!(c.args[1].ty, FieldType::U32);
        },
        _ => panic!("identify is not a command"),
    }
    match p.messages.get(b"identify_response").unwrap() {
        Message::Reply(r) => {
            assert_eq!(r.id, Some(0));
            let names: Vec<&[u8]> = r.args.iter().map(|a| a.name.as_slice()).collect();
            assert_eq!(names, vec![b"offset" as &[u8], b"data"]);
            assert_eq!(r.args[1].ty, FieldType::ByteArray);
        },
        _ => panic!("identify_response is not a reply"),
    }
    // Seeding again over identical entries is harmless; a conflicting
    // entry under either name is rejected.
    p.add_identify().unwrap();
    let mut q = Processor::new();
    let clash = Reply { name: b("identify"), id: None, args: Vec::new() };
    q.add_message(b("identify"), Message::Reply(clash)).unwrap();
    assert_eq!(q.add_identify(), Err(BuildError::DuplicateMessage));
}

#[test]
fn shutdown_reply_is_synthesized_once() {
    let mut p = Processor::new();
    p.process_klipper_shutdown(StaticString(b("first"))).unwrap();
    match p.messages.get(b"shutdown").unwrap() {
        Message::Reply(r) => {
            assert_eq!(r.id, None);
            let names: Vec<&[u8]> = r.args.iter().map(|a| a.name.as_slice()).collect();
            assert_eq!(names, vec![b"clock" as &[u8], b"static_string_id"]);
            assert_eq!(r.args[0].ty, FieldType::U32);
            assert_eq!(r.args[1].ty, FieldType::U16);
        },
        _ => panic!("shutdown is not a reply"),
    }
    p.process_klipper_shutdown(StaticString(b("second"))).unwrap();
    assert_eq!(p.messages.len(), 1);
}
