use crate::command::{spec_handler_fn_name, spec_target};
use crate::errors::BuildError;
use crate::json::{spec_dec, u64_dec};
use crate::msg_desc::{args_view, spec_type_text, type_text, FieldType};
use crate::output::spec_output_sender_fn_name;
use crate::processor::{spec_id_or_zero, Message, Processor};
use crate::reply::spec_sender_fn_name;
use crate::static_string::spec_compile_name;
use vstd::prelude::*;
use vstd::string::StringSliceAdditionalSpecFns;

verus! {

/// The argument-decoding lines of a generated command handler.
pub open spec fn spec_handler_reads(args: Seq<(Seq<u8>, FieldType)>) -> Seq<u8>
    decreases args.len(),
{
    if args.len() == 0 {
        Seq::empty()
    } else {
        spec_handler_reads(args.drop_last()) + "    let ".spec_bytes() + args.last().0
            + " = <".spec_bytes() + spec_type_text(args.last().1)
            + " as ::anchor::encoding::Readable>::read(data)?;\n".spec_bytes()
    }
}

/// A comma-separated list of the argument names.
pub open spec fn spec_call_args(args: Seq<(Seq<u8>, FieldType)>) -> Seq<u8>
    decreases args.len(),
{
    if args.len() == 0 {
        Seq::empty()
    } else if args.len() == 1 {
        args[0].0
    } else {
        spec_call_args(args.drop_last()) + ", ".spec_bytes() + args.last().0
    }
}

/// The leading arguments of a generated handler call: the reply queue
/// when the handler takes it, the context when the handler declares it,
/// each followed by a separator when more arguments follow.
pub open spec fn spec_call_prefix(
    takes_reply_queue: bool,
    has_context: bool,
    n_args: int,
) -> Seq<u8> {
    (if takes_reply_queue {
        if has_context || n_args > 0 {
            "replies, ".spec_bytes()
        } else {
            "replies".spec_bytes()
        }
    } else {
        Seq::<u8>::empty()
    }) + (if has_context {
        if n_args > 0 {
            "context, ".spec_bytes()
        } else {
            "context".spec_bytes()
        }
    } else {
        Seq::<u8>::empty()
    })
}

/// The generated wrapper of one command, up to the opening parenthesis
/// of the handler call.
pub open spec fn spec_handler_head(c: crate::command::Command) -> Seq<u8> {
    "pub fn ".spec_bytes() + spec_handler_fn_name(c.name@)
        + "(data: &mut &[u8], replies: &mut ReplyQueue, context: &mut Context) -> Result<(), ::anchor::encoding::ReadError> {\n".spec_bytes()
        + spec_handler_reads(args_view(c.args@)) + "    ".spec_bytes() + spec_target(
        crate::command::module_view(c.module),
        c.handler_name@,
    ) + "(".spec_bytes()
}

/// The generated wrapper for one command: it decodes the declared
/// arguments from the body and calls the user handler, forwarding the
/// reply queue and the context when the handler takes them.
pub open spec fn spec_handler_text(c: crate::command::Command) -> Seq<u8> {
    let args = args_view(c.args@);
    spec_handler_head(c) + spec_call_prefix(c.takes_reply_queue, c.has_context, args.len() as int)
        + spec_call_args(args) + ");\n    Ok(())\n}\n\n".spec_bytes()
}

proof fn lemma_rebase_concat4(base: Seq<u8>, a: Seq<u8>, b: Seq<u8>, c: Seq<u8>, d: Seq<u8>)
    ensures
        (((base + a) + b) + c) + d == base + (((a + b) + c) + d),
{
    assert((((base + a) + b) + c) + d =~= base + (((a + b) + c) + d));
}

/// The parameter list of a generated sender, after the reply queue.
pub open spec fn spec_sender_params(args: Seq<(Seq<u8>, FieldType)>) -> Seq<u8>
    decreases args.len(),
{
    if args.len() == 0 {
        Seq::empty()
    } else {
        spec_sender_params(args.drop_last()) + ", ".spec_bytes() + args.last().0
            + ": ".spec_bytes() + spec_type_text(args.last().1)
    }
}

/// The body-encoding lines of a generated sender.
pub open spec fn spec_sender_writes(args: Seq<(Seq<u8>, FieldType)>) -> Seq<u8>
    decreases args.len(),
{
    if args.len() == 0 {
        Seq::empty()
    } else {
        spec_sender_writes(args.drop_last()) + "    ".spec_bytes() + args.last().0
            + ".write(&mut body);\n".spec_bytes()
    }
}

/// The generated sender for a message: it writes the message ID and the
/// arguments into a scratch body and queues it for transmission.
pub open spec fn spec_sender_text(name: Seq<u8>, id: u8, args: Seq<(Seq<u8>, FieldType)>) -> Seq<
    u8,
> {
    "pub fn ".spec_bytes() + name + "(replies: &mut ReplyQueue".spec_bytes()
        + spec_sender_params(args)
        + ") {\n    let mut body: ScratchOutput<64> = ScratchOutput::new();\n    body.output(&[".spec_bytes()
        + spec_dec(id as int) + "u8]);\n".spec_bytes() + spec_sender_writes(args)
        + "    replies.push_body(body.result());\n}\n\n".spec_bytes()
}

/// The names `arg_0` onward given to output sender parameters.
pub open spec fn spec_output_arg_names(tys: Seq<FieldType>) -> Seq<(Seq<u8>, FieldType)>
    decreases tys.len(),
{
    if tys.len() == 0 {
        Seq::empty()
    } else {
        spec_output_arg_names(tys.drop_last()).push(
            ("arg_".spec_bytes() + spec_dec(tys.len() - 1), tys.last()),
        )
    }
}

/// The generated handler or sender of one catalog entry.
pub open spec fn spec_message_fn_text(m: Message) -> Seq<u8> {
    match m {
        Message::Command(c) => spec_handler_text(c),
        Message::Reply(r) => spec_sender_text(
            spec_sender_fn_name(r.name@),
            spec_id_or_zero(m),
            args_view(r.args@),
        ),
        Message::Output(o) => spec_sender_text(
            spec_output_sender_fn_name(o.format@),
            spec_id_or_zero(m),
            spec_output_arg_names(o.args@),
        ),
    }
}

/// The generated handlers and senders of the whole catalog, in name
/// order.
pub open spec fn spec_message_handlers(msgs: Seq<(Seq<u8>, Message)>) -> Seq<u8>
    decreases msgs.len(),
{
    if msgs.len() == 0 {
        Seq::empty()
    } else {
        spec_message_handlers(msgs.drop_last()) + spec_message_fn_text(msgs.last().1)
    }
}

/// The dispatch arms: one per command, selecting its generated wrapper
/// by ID.
pub open spec fn spec_dispatch_arms(msgs: Seq<(Seq<u8>, Message)>) -> Seq<u8>
    decreases msgs.len(),
{
    if msgs.len() == 0 {
        Seq::empty()
    } else {
        spec_dispatch_arms(msgs.drop_last()) + (match msgs.last().1 {
            Message::Command(c) => "            ".spec_bytes() + spec_dec(
                spec_id_or_zero(msgs.last().1) as int,
            ) + " => message_handlers::".spec_bytes() + spec_handler_fn_name(c.name@)
                + "(frame, replies, context),\n".spec_bytes(),
            _ => Seq::<u8>::empty(),
        })
    }
}

/// Whether every message carries a distinct ID, unassigned ones read as
/// zero — the dense-table condition the dispatcher demands.
pub open spec fn spec_ids_unique(msgs: Seq<(Seq<u8>, Message)>) -> bool {
    forall|i: int, j: int|
        0 <= i < j < msgs.len() ==> spec_id_or_zero((#[trigger] msgs[i]).1) != spec_id_or_zero(
            (#[trigger] msgs[j]).1,
        )
}

/// The generated dispatch function: a dense selection over the command
/// ID, unknown IDs failing the decode.
pub open spec fn spec_dispatcher_text(msgs: Seq<(Seq<u8>, Message)>) -> Seq<u8> {
    "    fn dispatch(cmd: u16, frame: &mut &[u8], replies: &mut ReplyQueue, context: &mut Context) -> Result<(), ::anchor::encoding::ReadError> {\n        match cmd {\n".spec_bytes()
        + spec_dispatch_arms(msgs)
        + "            _ => Err(::anchor::encoding::ReadError),\n        }\n    }\n".spec_bytes()
}

/// The generated constants naming each static string's ID.
pub open spec fn spec_static_string_ids(strings: Seq<(Seq<u8>, u16)>) -> Seq<u8>
    decreases strings.len(),
{
    if strings.len() == 0 {
        Seq::empty()
    } else {
        spec_static_string_ids(strings.drop_last()) + "    pub const ".spec_bytes()
            + spec_compile_name(strings.last().0) + ": u16 = ".spec_bytes() + spec_dec(
            strings.last().1 as int,
        ) + ";\n".spec_bytes()
    }
}

/// The elements of the embedded dictionary byte array.
pub open spec fn spec_byte_items(s: Seq<u8>) -> Seq<u8>
    decreases s.len(),
{
    if s.len() == 0 {
        Seq::empty()
    } else {
        spec_byte_items(s.drop_last()) + spec_dec(s.last() as int) + ",".spec_bytes()
    }
}

/// The embedded compressed dictionary and the built-in `identify`
/// handler serving windows of it.
pub open spec fn spec_data_dictionary_text(data: Seq<u8>) -> Seq<u8> {
    "const DATA: [u8; ".spec_bytes() + spec_dec(data.len() as int) + "] = [".spec_bytes()
        + spec_byte_items(data)
        + "];\n\npub fn handle_identify(replies: &mut ReplyQueue, offset: u32, count: u32) {\n    let (off, data) = ::anchor::identify::identify_window(&DATA, offset, count);\n    message_handlers::send_reply_identify_response(replies, off, data);\n}\n".spec_bytes()
}

/// Append the argument-decoding lines of a command handler.
fn push_handler_reads(out: &mut Vec<u8>, args: &Vec<crate::msg_desc::Arg>)
    ensures
        final(out)@ == old(out)@ + spec_handler_reads(args_view(args@)),
{
    let ghost base = old(out)@;
    let ghost av = args_view(args@);
    let mut i: usize = 0;
    proof {
        assert(av.take(0) =~= Seq::<(Seq<u8>, FieldType)>::empty());
        assert(out@ =~= base + spec_handler_reads(av.take(0)));
    }
    while i < args.len()
        invariant
            0 <= i <= args@.len(),
            base == old(out)@,
            av == args_view(args@),
            out@ == base + spec_handler_reads(av.take(i as int)),
        decreases args@.len() - i,
    {
        out.extend_from_slice("    let ".as_bytes());
        out.extend_from_slice(args[i].name.as_slice());
        out.extend_from_slice(" = <".as_bytes());
        out.extend_from_slice(type_text(&args[i].ty).as_bytes());
        out.extend_from_slice(" as ::anchor::encoding::Readable>::read(data)?;\n".as_bytes());
        proof {
            assert(av.take(i + 1).drop_last() =~= av.take(i as int));
            assert(av.take(i + 1).last() == av[i as int]);
            assert(out@ =~= base + spec_handler_reads(av.take(i + 1)));
        }
        i = i + 1;
    }
    proof {
        assert(av.take(args@.len() as int) =~= av);
    }
}

/// Append the comma-separated argument names of a handler call.
fn push_call_args(out: &mut Vec<u8>, args: &Vec<crate::msg_desc::Arg>)
    ensures
        final(out)@ == old(out)@ + spec_call_args(args_view(args@)),
{
    let ghost base = old(out)@;
    let ghost av = args_view(args@);
    let mut i: usize = 0;
    proof {
        assert(av.take(0) =~= Seq::<(Seq<u8>, FieldType)>::empty());
        assert(out@ =~= base + spec_call_args(av.take(0)));
    }
    while i < args.len()
        invariant
            0 <= i <= args@.len(),
            base == old(out)@,
            av == args_view(args@),
            out@ == base + spec_call_args(av.take(i as int)),
        decreases args@.len() - i,
    {
        if i > 0 {
            out.extend_from_slice(", ".as_bytes());
        }
        out.extend_from_slice(args[i].name.as_slice());
        proof {
            assert(av.take(i + 1).drop_last() =~= av.take(i as int));
            assert(av.take(i + 1).last() == av[i as int]);
            assert(out@ =~= base + spec_call_args(av.take(i + 1)));
        }
        i = i + 1;
    }
    proof {
        assert(av.take(args@.len() as int) =~= av);
    }
}

/// Append one generated sender, given its name, ID and arguments.
#[verifier::rlimit(100)]
fn push_sender(out: &mut Vec<u8>, name: &[u8], id: u8, args: &Vec<(Vec<u8>, FieldType)>)
    ensures
        final(out)@ == old(out)@ + spec_sender_text(
            name@,
            id,
            args@.map_values(|a: (Vec<u8>, FieldType)| (a.0@, a.1)),
        ),
{
    let ghost base = old(out)@;
    let ghost av = args@.map_values(|a: (Vec<u8>, FieldType)| (a.0@, a.1));
    out.extend_from_slice("pub fn ".as_bytes());
    out.extend_from_slice(name);
    out.extend_from_slice("(replies: &mut ReplyQueue".as_bytes());
    let ghost mark1 = out@;
    let mut i: usize = 0;
    proof {
        assert(av.take(0) =~= Seq::<(Seq<u8>, FieldType)>::empty());
        assert(out@ =~= mark1 + spec_sender_params(av.take(0)));
    }
    while i < args.len()
        invariant
            0 <= i <= args@.len(),
            av == args@.map_values(|a: (Vec<u8>, FieldType)| (a.0@, a.1)),
            out@ == mark1 + spec_sender_params(av.take(i as int)),
        decreases args@.len() - i,
    {
        out.extend_from_slice(", ".as_bytes());
        out.extend_from_slice(args[i].0.as_slice());
        out.extend_from_slice(": ".as_bytes());
        out.extend_from_slice(type_text(&args[i].1).as_bytes());
        proof {
            assert(av.take(i + 1).drop_last() =~= av.take(i as int));
            assert(av.take(i + 1).last() == av[i as int]);
            assert(out@ =~= mark1 + spec_sender_params(av.take(i + 1)));
        }
        i = i + 1;
    }
    proof {
        assert(av.take(args@.len() as int) =~= av);
    }
    out.extend_from_slice(
        ") {\n    let mut body: ScratchOutput<64> = ScratchOutput::new();\n    body.output(&[".as_bytes(),
    );
    let d = u64_dec(id as u64);
    out.extend_from_slice(d.as_slice());
    out.extend_from_slice("u8]);\n".as_bytes());
    let ghost mark2 = out@;
    let mut j: usize = 0;
    proof {
        assert(av.take(0) =~= Seq::<(Seq<u8>, FieldType)>::empty());
        assert(out@ =~= mark2 + spec_sender_writes(av.take(0)));
    }
    while j < args.len()
        invariant
            0 <= j <= args@.len(),
            av == args@.map_values(|a: (Vec<u8>, FieldType)| (a.0@, a.1)),
            out@ == mark2 + spec_sender_writes(av.take(j as int)),
        decreases args@.len() - j,
    {
        out.extend_from_slice("    ".as_bytes());
        out.extend_from_slice(args[j].0.as_slice());
        out.extend_from_slice(".write(&mut body);\n".as_bytes());
        proof {
            assert(av.take(j + 1).drop_last() =~= av.take(j as int));
            assert(av.take(j + 1).last() == av[j as int]);
            assert(out@ =~= mark2 + spec_sender_writes(av.take(j + 1)));
        }
        j = j + 1;
    }
    proof {
        assert(av.take(args@.len() as int) =~= av);
    }
    out.extend_from_slice("    replies.push_body(body.result());\n}\n\n".as_bytes());
    proof {
        assert(out@ =~= base + spec_sender_text(name@, id, av));
    }
}

/// Append the generated wrapper of one command.
#[verifier::rlimit(100)]
fn push_command_fn(out: &mut Vec<u8>, c: &crate::command::Command)
    ensures
        final(out)@ == old(out)@ + spec_handler_text(*c),
{
    let ghost out0 = old(out)@;
    out.extend_from_slice("pub fn ".as_bytes());
    let hname = c.handler_fn_name();
    out.extend_from_slice(hname.as_slice());
    out.extend_from_slice(
        "(data: &mut &[u8], replies: &mut ReplyQueue, context: &mut Context) -> Result<(), ::anchor::encoding::ReadError> {\n".as_bytes(),
    );
    push_handler_reads(out, &c.args);
    out.extend_from_slice("    ".as_bytes());
    let target = c.target();
    out.extend_from_slice(target.as_slice());
    out.extend_from_slice("(".as_bytes());
    proof {
        assert(out@ =~= out0 + spec_handler_head(*c));
    }
    if c.takes_reply_queue {
        if c.has_context || c.args.len() > 0 {
            out.extend_from_slice("replies, ".as_bytes());
        } else {
            out.extend_from_slice("replies".as_bytes());
        }
    }
    if c.has_context {
        if c.args.len() > 0 {
            out.extend_from_slice("context, ".as_bytes());
        } else {
            out.extend_from_slice("context".as_bytes());
        }
    }
    proof {
        assert(out@ =~= (out0 + spec_handler_head(*c)) + spec_call_prefix(
            c.takes_reply_queue,
            c.has_context,
            args_view(c.args@).len() as int,
        ));
    }
    push_call_args(out, &c.args);
    out.extend_from_slice(");\n    Ok(())\n}\n\n".as_bytes());
    proof {
        lemma_rebase_concat4(
            out0,
            spec_handler_head(*c),
            spec_call_prefix(
                c.takes_reply_queue,
                c.has_context,
                args_view(c.args@).len() as int,
            ),
            spec_call_args(args_view(c.args@)),
            ");\n    Ok(())\n}\n\n".spec_bytes(),
        );
        assert(out@ == out0 + spec_handler_text(*c));
    }
}

/// Append the generated handler or sender of one catalog entry.
#[verifier::rlimit(100)]
fn push_message_fn(out: &mut Vec<u8>, m: &Message)
    ensures
        final(out)@ == old(out)@ + spec_message_fn_text(*m),
{
    let ghost out0 = old(out)@;
    match m {
        Message::Command(c) => {
            push_command_fn(out, c);
        },
        Message::Reply(rp) => {
            let name = rp.sender_fn_name();
            let id = match rp.id {
                Some(v) => v,
                None => 0,
            };
            let mut sargs: Vec<(Vec<u8>, FieldType)> = Vec::new();
            let mut k: usize = 0;
            proof {
                assert(sargs@.map_values(|a: (Vec<u8>, FieldType)| (a.0@, a.1)) =~= args_view(
                    rp.args@,
                ).take(0));
            }
            while k < rp.args.len()
                invariant
                    0 <= k <= rp.args@.len(),
                    *m matches Message::Reply(rr) && rr == *rp,
                    sargs@.map_values(|a: (Vec<u8>, FieldType)| (a.0@, a.1)) == args_view(
                        rp.args@,
                    ).take(k as int),
                decreases rp.args@.len() - k,
            {
                let mut nm: Vec<u8> = Vec::new();
                nm.extend_from_slice(rp.args[k].name.as_slice());
                proof {
                    assert(nm@ =~= rp.args@[k as int].name@);
                }
                sargs.push((nm, rp.args[k].ty));
                proof {
                    let av2 = args_view(rp.args@);
                    let sv = sargs@.map_values(|a: (Vec<u8>, FieldType)| (a.0@, a.1));
                    assert(av2.len() == rp.args@.len());
                    assert(av2.take(k as int).len() == k);
                    assert(sargs@.drop_last().map_values(
                        |a: (Vec<u8>, FieldType)| (a.0@, a.1),
                    ).len() == sargs@.drop_last().len());
                    assert(sargs@.drop_last().map_values(|a: (Vec<u8>, FieldType)| (a.0@, a.1))
                        == av2.take(k as int));
                    assert(sv.len() == sargs@.len());
                    assert(sargs@.len() == k + 1);
                    assert(av2[k as int] == (rp.args@[k as int].name@, rp.args@[k as int].ty));
                    assert(sargs@[k as int] == sargs@.last());
                    assert(sv[k as int] == (sargs@[k as int].0@, sargs@[k as int].1));
                    assert forall|j: int| 0 <= j < k + 1 implies #[trigger] sv[j] == av2.take(
                        k + 1,
                    )[j] by {
                        if j < k {
                            assert(sargs@[j] == sargs@.drop_last()[j]);
                            assert(sargs@.drop_last().map_values(
                                |a: (Vec<u8>, FieldType)| (a.0@, a.1),
                            )[j] == (sargs@.drop_last()[j].0@, sargs@.drop_last()[j].1));
                        }
                    }
                    assert(sv =~= av2.take(k + 1));
                }
                k = k + 1;
            }
            proof {
                assert(args_view(rp.args@).take(rp.args@.len() as int) =~= args_view(rp.args@));
            }
            push_sender(out, name.as_slice(), id, &sargs);
            proof {
                assert(out@ =~= out0 + spec_message_fn_text(*m));
            }
        },
        Message::Output(o) => {
            let name = o.sender_fn_name();
            let id = match o.id {
                Some(v) => v,
                None => 0,
            };
            let mut sargs: Vec<(Vec<u8>, FieldType)> = Vec::new();
            let mut k: usize = 0;
            proof {
                assert(sargs@.map_values(|a: (Vec<u8>, FieldType)| (a.0@, a.1))
                    =~= spec_output_arg_names(o.args@.take(0)));
            }
            while k < o.args.len()
                invariant
                    0 <= k <= o.args@.len(),
                    *m matches Message::Output(oo) && oo == *o,
                    sargs@.map_values(|a: (Vec<u8>, FieldType)| (a.0@, a.1))
                        == spec_output_arg_names(o.args@.take(k as int)),
                decreases o.args@.len() - k,
            {
                let mut nm: Vec<u8> = Vec::new();
                nm.extend_from_slice("arg_".as_bytes());
                let d = u64_dec(k as u64);
                nm.extend_from_slice(d.as_slice());
                proof {
                    assert(nm@ =~= "arg_".spec_bytes() + spec_dec(k as int));
                }
                sargs.push((nm, o.args[k]));
                proof {
                    assert(o.args@.take(k + 1).drop_last() =~= o.args@.take(k as int));
                    assert(o.args@.take(k + 1).last() == o.args@[k as int]);
                    assert(sargs@.map_values(|a: (Vec<u8>, FieldType)| (a.0@, a.1))
                        =~= spec_output_arg_names(o.args@.take(k + 1)));
                }
                k = k + 1;
            }
            proof {
                assert(o.args@.take(o.args@.len() as int) =~= o.args@);
            }
            push_sender(out, name.as_slice(), id, &sargs);
            proof {
                assert(out@ =~= out0 + spec_message_fn_text(*m));
            }
        },
    }
}

impl Processor {
    /// The generated handlers and senders, one per catalog entry.
    pub fn write_message_handlers(&self) -> (r: Vec<u8>)
        ensures
            r@ == spec_message_handlers(self.messages@),
    {
        let ghost msgs = self.messages@;
        let mut out: Vec<u8> = Vec::new();
        let n = self.messages.len();
        let mut i: usize = 0;
        proof {
            assert(msgs.take(0) =~= Seq::<(Seq<u8>, Message)>::empty());
            assert(out@ =~= spec_message_handlers(msgs.take(0)));
        }
        while i < n
            invariant
                0 <= i <= n,
                n == msgs.len(),
                msgs == self.messages@,
                out@ == spec_message_handlers(msgs.take(i as int)),
            decreases n - i,
        {
            push_message_fn(&mut out, self.messages.value_at(i));
            proof {
                assert(msgs.take(i + 1).drop_last() =~= msgs.take(i as int));
                assert(msgs.take(i + 1).last() == msgs[i as int]);
                assert(out@ =~= spec_message_handlers(msgs.take(i + 1)));
            }
            i = i + 1;
        }
        proof {
            assert(msgs.take(msgs.len() as int) =~= msgs);
        }
        out
    }

    /// The generated dispatch function.
    ///
    /// Fails exactly when two messages carry the same ID: the dense
    /// dispatch table has one slot per ID.
    pub fn write_message_dispatcher(&self) -> (r: Result<Vec<u8>, BuildError>)
        ensures
            match r {
                Ok(text) => spec_ids_unique(self.messages@) && text@ == spec_dispatcher_text(
                    self.messages@,
                ),
                Err(e) => e == BuildError::DuplicateMessageId && !spec_ids_unique(self.messages@),
            },
    {
        let ghost msgs = self.messages@;
        let n0 = self.messages.len();
        let mut seen: Vec<bool> = Vec::new();
        let mut k: usize = 0;
        while k < 256
            invariant
                seen@.len() == k,
                0 <= k <= 256,
                forall|t: int| 0 <= t < k ==> !(#[trigger] seen@[t]),
            decreases 256 - k,
        {
            seen.push(false);
            k = k + 1;
        }
        let mut t: usize = 0;
        while t < n0
            invariant
                0 <= t <= n0,
                n0 == msgs.len(),
                msgs == self.messages@,
                seen@.len() == 256,
                forall|b: u8|
                    (#[trigger] seen@[b as int]) == exists|u: int|
                        0 <= u < t && spec_id_or_zero(msgs[u].1) == b,
                forall|u: int, v: int|
                    0 <= u < v < t ==> spec_id_or_zero((#[trigger] msgs[u]).1) != spec_id_or_zero(
                        (#[trigger] msgs[v]).1,
                    ),
            decreases n0 - t,
        {
            let id = match self.messages.value_at(t).id() {
                Some(v) => v,
                None => 0,
            };
            proof {
                assert(spec_id_or_zero(msgs[t as int].1) == id);
            }
            if seen[id as usize] {
                proof {
                    let u = choose|u: int| 0 <= u < t && spec_id_or_zero(msgs[u].1) == id;
                    assert(spec_id_or_zero(msgs[u].1) == spec_id_or_zero(msgs[t as int].1));
                    assert(!spec_ids_unique(msgs));
                }
                return Err(BuildError::DuplicateMessageId);
            }
            seen[id as usize] = true;
            proof {
                assert forall|b: u8| (#[trigger] seen@[b as int]) implies exists|u: int|
                    0 <= u < t + 1 && spec_id_or_zero(msgs[u].1) == b by {
                    if b == id {
                        assert(spec_id_or_zero(msgs[t as int].1) == b);
                    } else {
                        let u = choose|u: int| 0 <= u < t && spec_id_or_zero(msgs[u].1) == b;
                        assert(0 <= u < t + 1 && spec_id_or_zero(msgs[u].1) == b);
                    }
                }
                assert forall|b: u8|
                    (exists|u: int| 0 <= u < t + 1 && spec_id_or_zero(msgs[u].1) == b) implies (
                #[trigger] seen@[b as int]) by {
                    let u = choose|u: int| 0 <= u < t + 1 && spec_id_or_zero(msgs[u].1) == b;
                    if u < t {
                        assert(exists|w: int| 0 <= w < t && spec_id_or_zero(msgs[w].1) == b);
                    }
                }
            }
            t = t + 1;
        }
        let mut out: Vec<u8> = Vec::new();
        out.extend_from_slice(
            "    fn dispatch(cmd: u16, frame: &mut &[u8], replies: &mut ReplyQueue, context: &mut Context) -> Result<(), ::anchor::encoding::ReadError> {\n        match cmd {\n".as_bytes(),
        );
        let ghost mark = out@;
        let n = self.messages.len();
        let mut i: usize = 0;
        proof {
            assert(msgs.take(0) =~= Seq::<(Seq<u8>, Message)>::empty());
            assert(out@ =~= mark + spec_dispatch_arms(msgs.take(0)));
        }
        while i < n
            invariant
                0 <= i <= n,
                n == msgs.len(),
                msgs == self.messages@,
                out@ == mark + spec_dispatch_arms(msgs.take(i as int)),
            decreases n - i,
        {
            match self.messages.value_at(i) {
                Message::Command(c) => {
                    out.extend_from_slice("            ".as_bytes());
                    let id = match c.id {
                        Some(v) => v,
                        None => 0,
                    };
                    let d = u64_dec(id as u64);
                    out.extend_from_slice(d.as_slice());
                    out.extend_from_slice(" => message_handlers::".as_bytes());
                    let hname = c.handler_fn_name();
                    out.extend_from_slice(hname.as_slice());
                    out.extend_from_slice("(frame, replies, context),\n".as_bytes());
                },
                _ => {},
            }
            proof {
                assert(msgs.take(i + 1).drop_last() =~= msgs.take(i as int));
                assert(msgs.take(i + 1).last() == msgs[i as int]);
                assert(out@ =~= mark + spec_dispatch_arms(msgs.take(i + 1)));
            }
            i = i + 1;
        }
        proof {
            assert(msgs.take(msgs.len() as int) =~= msgs);
        }
        out.extend_from_slice(
            "            _ => Err(::anchor::encoding::ReadError),\n        }\n    }\n".as_bytes(),
        );
        proof {
            assert(out@ =~= spec_dispatcher_text(msgs));
        }
        Ok(out)
    }

    /// The generated constants naming each static string's ID.
    pub fn write_static_string_ids(&self) -> (r: Vec<u8>)
        ensures
            r@ == spec_static_string_ids(self.static_strings.strings_view()),
    {
        let ghost strings = self.static_strings.strings_view();
        let mut out: Vec<u8> = Vec::new();
        let n = self.static_strings.strings().len();
        let mut i: usize = 0;
        proof {
            assert(strings.take(0) =~= Seq::<(Seq<u8>, u16)>::empty());
            assert(out@ =~= spec_static_string_ids(strings.take(0)));
        }
        while i < n
            invariant
                0 <= i <= n,
                n == strings.len(),
                strings == self.static_strings.strings_view(),
                out@ == spec_static_string_ids(strings.take(i as int)),
            decreases n - i,
        {
            out.extend_from_slice("    pub const ".as_bytes());
            let ss = crate::static_string::hex_name(
                self.static_strings.strings().key_at(i),
                true,
            );
            out.extend_from_slice("STATIC_STRING_".as_bytes());
            out.extend_from_slice(ss.as_slice());
            out.extend_from_slice(": u16 = ".as_bytes());
            let d = u64_dec(*self.static_strings.strings().value_at(i) as u64);
            out.extend_from_slice(d.as_slice());
            out.extend_from_slice(";\n".as_bytes());
            proof {
                assert(strings.take(i + 1).drop_last() =~= strings.take(i as int));
                assert(strings.take(i + 1).last() == strings[i as int]);
                assert(out@ =~= spec_static_string_ids(strings.take(i + 1)));
            }
            i = i + 1;
        }
        proof {
            assert(strings.take(strings.len() as int) =~= strings);
        }
        out
    }

    /// The embedded compressed dictionary and the built-in `identify`
    /// handler.
    #[verifier::rlimit(100)]
    pub fn write_data_dictionary(&self) -> (r: Vec<u8>)
        ensures
            r@ == spec_data_dictionary_text(
                crate::dictionary::zlib_deflate_of(
                    crate::dictionary::spec_dictionary_json(self.dictionary),
                ),
            ),
    {
        let data = self.dictionary.to_compressed();
        let mut out: Vec<u8> = Vec::new();
        out.extend_from_slice("const DATA: [u8; ".as_bytes());
        let d = u64_dec(data.len() as u64);
        out.extend_from_slice(d.as_slice());
        out.extend_from_slice("] = [".as_bytes());
        let ghost mark = out@;
        let mut i: usize = 0;
        proof {
            assert(data@.take(0) =~= Seq::<u8>::empty());
            assert(out@ =~= mark + spec_byte_items(data@.take(0)));
        }
        while i < data.len()
            invariant
                0 <= i <= data@.len(),
                out@ == mark + spec_byte_items(data@.take(i as int)),
            decreases data@.len() - i,
        {
            let b = data[i];
            let bd = u64_dec(b as u64);
            out.extend_from_slice(bd.as_slice());
            out.extend_from_slice(",".as_bytes());
            proof {
                assert(data@.take(i + 1).drop_last() =~= data@.take(i as int));
                assert(data@.take(i + 1).last() == data@[i as int]);
                assert(out@ =~= mark + spec_byte_items(data@.take(i + 1)));
            }
            i = i + 1;
        }
        proof {
            assert(data@.take(data@.len() as int) =~= data@);
        }
        out.extend_from_slice(
            "];\n\npub fn handle_identify(replies: &mut ReplyQueue, offset: u32, count: u32) {\n    let (off, data) = ::anchor::identify::identify_window(&DATA, offset, count);\n    message_handlers::send_reply_identify_response(replies, off, data);\n}\n".as_bytes(),
        );
        proof {
            assert(out@ =~= spec_data_dictionary_text(data@));
        }
        out
    }
}

/// The binding lines emitted from the transport directive.
pub open spec fn spec_cfg_lines(cfg: Option<crate::generate::GenerateConfig>) -> Seq<u8> {
    match cfg {
        Some(c) => match c.transport {
            Some(t) => "use ".spec_bytes() + t.0@ + ";\ntype Output = ".spec_bytes() + t.1@
                + ";\ntype Context = ".spec_bytes() + c.context@ + ";\n\n".spec_bytes(),
            None => Seq::<u8>::empty(),
        },
        None => Seq::<u8>::empty(),
    }
}

/// The generated module up to the transport binding: the heading, the
/// handlers and senders, and the static string IDs.
pub open spec fn spec_module_prefix(p: Processor) -> Seq<u8> {
    "#![allow(dead_code)]\n#![allow(unused_variables)]\n\nuse ::anchor::encoding::Writable;\nuse ::anchor::output_buffer::{OutputBuffer, ScratchOutput};\nuse ::anchor::transport::ReplyQueue;\n\npub mod message_handlers {\n    use super::*;\n\n".spec_bytes()
        + spec_message_handlers(p.messages@)
        + "}\n\npub mod static_strings {\n".spec_bytes() + spec_static_string_ids(
        p.static_strings.strings_view(),
    ) + "}\n\n".spec_bytes() + spec_cfg_lines(p.generate_cfg)
}

/// The full generated module.
pub open spec fn spec_module_text(p: Processor, data: Seq<u8>) -> Seq<u8> {
    spec_module_prefix(p)
        + "pub struct Config;\n\nimpl ::anchor::transport::Config for Config {\n    type TransportOutput = Output;\n    type Context = Context;\n\n".spec_bytes()
        + spec_dispatcher_text(p.messages@) + "}\n\n".spec_bytes() + spec_data_dictionary_text(
        data,
    )
}

impl Processor {
    /// Append the binding lines emitted from the transport directive.
    fn push_cfg_lines(out: &mut Vec<u8>, cfg: &Option<crate::generate::GenerateConfig>)
        ensures
            final(out)@ == old(out)@ + spec_cfg_lines(*cfg),
    {
        match cfg {
            Some(c) => {
                match &c.transport {
                    Some(t) => {
                        out.extend_from_slice("use ".as_bytes());
                        out.extend_from_slice(t.0.as_slice());
                        out.extend_from_slice(";\ntype Output = ".as_bytes());
                        out.extend_from_slice(t.1.as_slice());
                        out.extend_from_slice(";\ntype Context = ".as_bytes());
                        out.extend_from_slice(c.context.as_slice());
                        out.extend_from_slice(";\n\n".as_bytes());
                    },
                    None => {
                        proof {
                            assert(old(out)@ + spec_cfg_lines(*cfg) =~= old(out)@);
                        }
                    },
                }
            },
            None => {
                proof {
                    assert(old(out)@ + spec_cfg_lines(*cfg) =~= old(out)@);
                }
            },
        }
    }

    /// The generated module up to the transport binding.
    #[verifier::rlimit(100)]
    fn write_prefix(&self) -> (r: Vec<u8>)
        ensures
            r@ == spec_module_prefix(*self),
    {
        let mut out: Vec<u8> = Vec::new();
        out.extend_from_slice(
            "#![allow(dead_code)]\n#![allow(unused_variables)]\n\nuse ::anchor::encoding::Writable;\nuse ::anchor::output_buffer::{OutputBuffer, ScratchOutput};\nuse ::anchor::transport::ReplyQueue;\n\npub mod message_handlers {\n    use super::*;\n\n".as_bytes(),
        );
        let handlers = self.write_message_handlers();
        out.extend_from_slice(handlers.as_slice());
        out.extend_from_slice("}\n\npub mod static_strings {\n".as_bytes());
        let ids = self.write_static_string_ids();
        out.extend_from_slice(ids.as_slice());
        out.extend_from_slice("}\n\n".as_bytes());
        Self::push_cfg_lines(&mut out, &self.generate_cfg);
        proof {
            assert(out@ == spec_module_prefix(*self));
        }
        out
    }

    /// The source text of the whole generated module: the handlers and
    /// senders, the static string IDs, the transport binding, the
    /// dispatch table, and the embedded dictionary.
    pub fn write(&self) -> (r: Result<Vec<u8>, BuildError>)
        ensures
            match r {
                Ok(text) => spec_ids_unique(self.messages@) && text@ == spec_module_text(
                    *self,
                    crate::dictionary::zlib_deflate_of(
                        crate::dictionary::spec_dictionary_json(self.dictionary),
                    ),
                ),
                Err(e) => e == BuildError::DuplicateMessageId && !spec_ids_unique(self.messages@),
            },
    {
        let dispatcher = match self.write_message_dispatcher() {
            Ok(d) => d,
            Err(e) => {
                return Err(e);
            },
        };
        let mut out: Vec<u8> = self.write_prefix();
        out.extend_from_slice(
            "pub struct Config;\n\nimpl ::anchor::transport::Config for Config {\n    type TransportOutput = Output;\n    type Context = Context;\n\n".as_bytes(),
        );
        out.extend_from_slice(dispatcher.as_slice());
        out.extend_from_slice("}\n\n".as_bytes());
        let dict = self.write_data_dictionary();
        out.extend_from_slice(dict.as_slice());
        proof {
            assert(out@ == spec_module_text(
                *self,
                crate::dictionary::zlib_deflate_of(
                    crate::dictionary::spec_dictionary_json(self.dictionary),
                ),
            ));
        }
        Ok(out)
    }
}

} // verus!
