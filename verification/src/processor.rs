use crate::bytemap::{spec_find, spec_insert, spec_remove, ByteMap};
use crate::command::{module_view, Command};
use crate::dictionary::{Dictionary, JsonValue};
use crate::enumeration::{DictionaryEnumeration, DictionaryEnumerationItem};
use crate::errors::BuildError;
use crate::generate::GenerateConfig;
use crate::msg_desc::{args_view, spec_descriptor, Arg, FieldType};
use crate::output::Output;
use crate::reply::Reply;
use crate::static_string::{StaticString, StaticStringsTracker};
use vstd::prelude::*;
use vstd::string::StringSliceAdditionalSpecFns;

verus! {

/// One entry of the message catalog: an incoming command, an outgoing
/// structured reply, or an outgoing formatted output.
#[derive(Debug)]
pub enum Message {
    Command(Command),
    Reply(Reply),
    Output(Output),
}

/// The assigned or pre-assigned ID of a message.
pub open spec fn spec_msg_id(m: Message) -> Option<u8> {
    match m {
        Message::Command(c) => c.id,
        Message::Reply(r) => r.id,
        Message::Output(o) => o.id,
    }
}

/// The assigned ID of a message, zero while unassigned.
pub open spec fn spec_id_or_zero(m: Message) -> u8 {
    match spec_msg_id(m) {
        Some(id) => id,
        None => 0,
    }
}

/// Whether two messages have the same kind and signature, IDs included.
pub open spec fn spec_msg_matches(a: Message, b: Message) -> bool {
    match (a, b) {
        (Message::Command(x), Message::Command(y)) => x.name@ == y.name@ && x.id == y.id
            && x.handler_name@ == y.handler_name@ && module_view(x.module) == module_view(y.module)
            && x.takes_reply_queue == y.takes_reply_queue && x.has_context == y.has_context
            && args_view(x.args@) == args_view(y.args@),
        (Message::Reply(x), Message::Reply(y)) => x.name@ == y.name@ && x.id == y.id && args_view(
            x.args@,
        ) == args_view(y.args@),
        (Message::Output(x), Message::Output(y)) => x.id == y.id && x.format@ == y.format@
            && x.args@ == y.args@,
        _ => false,
    }
}

/// Whether two messages agree on everything but their ID.
pub open spec fn spec_msg_same_except_id(a: Message, b: Message) -> bool {
    match (a, b) {
        (Message::Command(x), Message::Command(y)) => x.name@ == y.name@ && x.handler_name@
            == y.handler_name@ && module_view(x.module) == module_view(y.module)
            && x.takes_reply_queue == y.takes_reply_queue && x.has_context == y.has_context
            && args_view(x.args@) == args_view(y.args@),
        (Message::Reply(x), Message::Reply(y)) => x.name@ == y.name@ && args_view(x.args@)
            == args_view(y.args@),
        (Message::Output(x), Message::Output(y)) => x.format@ == y.format@ && x.args@ == y.args@,
        _ => false,
    }
}

/// The shape of the built-in `identify` command: ID 1, arguments
/// `offset: u32` and `count: u32`, handled by `handle_identify` in the
/// entry module, without a context parameter.
pub open spec fn spec_is_identify_command(m: Message) -> bool {
    &&& m matches Message::Command(c)
    &&& m->Command_0.name@ == "identify".spec_bytes()
    &&& m->Command_0.id == Some(1u8)
    &&& m->Command_0.handler_name@ == "handle_identify".spec_bytes()
    &&& m->Command_0.module is None
    &&& m->Command_0.takes_reply_queue
    &&& !m->Command_0.has_context
    &&& args_view(m->Command_0.args@) == seq![
        ("offset".spec_bytes(), FieldType::U32),
        ("count".spec_bytes(), FieldType::U32),
    ]
}

/// The shape of the built-in `identify_response` reply: ID 0, arguments
/// `offset: u32` and `data` as a byte array.
pub open spec fn spec_is_identify_response(m: Message) -> bool {
    &&& m matches Message::Reply(rp)
    &&& m->Reply_0.name@ == "identify_response".spec_bytes()
    &&& m->Reply_0.id == Some(0u8)
    &&& args_view(m->Reply_0.args@) == seq![
        ("offset".spec_bytes(), FieldType::U32),
        ("data".spec_bytes(), FieldType::ByteArray),
    ]
}

/// The shape of the synthesized `shutdown` reply: no pre-assigned ID,
/// arguments `clock: u32` and `static_string_id: u16`.
pub open spec fn spec_is_shutdown_reply(m: Message) -> bool {
    &&& m matches Message::Reply(rp)
    &&& m->Reply_0.name@ == "shutdown".spec_bytes()
    &&& m->Reply_0.id is None
    &&& args_view(m->Reply_0.args@) == seq![
        ("clock".spec_bytes(), FieldType::U32),
        ("static_string_id".spec_bytes(), FieldType::U16),
    ]
}

fn bytes_eq(a: &[u8], b: &[u8]) -> (r: bool)
    ensures
        r == (a@ == b@),
{
    crate::bytemap::bytes_cmp(a, b) == 0
}

fn option_u8_eq(a: &Option<u8>, b: &Option<u8>) -> (r: bool)
    ensures
        r == (*a == *b),
{
    match (a, b) {
        (Some(x), Some(y)) => *x == *y,
        (None, None) => true,
        _ => false,
    }
}

fn args_eq(a: &Vec<Arg>, b: &Vec<Arg>) -> (r: bool)
    ensures
        r == (args_view(a@) == args_view(b@)),
{
    if a.len() != b.len() {
        proof {
            assert(args_view(a@).len() != args_view(b@).len());
        }
        return false;
    }
    let mut i: usize = 0;
    while i < a.len()
        invariant
            0 <= i <= a@.len(),
            a@.len() == b@.len(),
            forall|j: int| 0 <= j < i ==> args_view(a@)[j] == args_view(b@)[j],
        decreases a@.len() - i,
    {
        if !bytes_eq(a[i].name.as_slice(), b[i].name.as_slice()) {
            proof {
                assert(args_view(a@)[i as int].0 != args_view(b@)[i as int].0);
            }
            return false;
        }
        if !(a[i].ty == b[i].ty) {
            proof {
                assert(args_view(a@)[i as int].1 != args_view(b@)[i as int].1);
            }
            return false;
        }
        proof {
            assert(args_view(a@)[i as int] == args_view(b@)[i as int]);
        }
        i = i + 1;
    }
    proof {
        assert(args_view(a@) =~= args_view(b@));
    }
    true
}

fn types_eq(a: &Vec<FieldType>, b: &Vec<FieldType>) -> (r: bool)
    ensures
        r == (a@ == b@),
{
    if a.len() != b.len() {
        return false;
    }
    let mut i: usize = 0;
    while i < a.len()
        invariant
            0 <= i <= a@.len(),
            a@.len() == b@.len(),
            forall|j: int| 0 <= j < i ==> a@[j] == b@[j],
        decreases a@.len() - i,
    {
        if !(a[i] == b[i]) {
            return false;
        }
        i = i + 1;
    }
    proof {
        assert(a@ =~= b@);
    }
    true
}

fn module_eq(a: &Option<Vec<Vec<u8>>>, b: &Option<Vec<Vec<u8>>>) -> (r: bool)
    ensures
        r == (module_view(*a) == module_view(*b)),
{
    match (a, b) {
        (None, None) => true,
        (Some(x), Some(y)) => {
            if x.len() != y.len() {
                proof {
                    assert(module_view(*a)->Some_0.len() != module_view(*b)->Some_0.len());
                }
                return false;
            }
            let mut i: usize = 0;
            while i < x.len()
                invariant
                    0 <= i <= x@.len(),
                    x@.len() == y@.len(),
                    *a matches Some(xx) && xx == *x,
                    *b matches Some(yy) && yy == *y,
                    forall|j: int|
                        0 <= j < i ==> #[trigger] x@[j]@ == y@[j]@,
                decreases x@.len() - i,
            {
                if !bytes_eq(x[i].as_slice(), y[i].as_slice()) {
                    proof {
                        assert(x@.map_values(|v: Vec<u8>| v@)[i as int] != y@.map_values(
                            |v: Vec<u8>| v@,
                        )[i as int]);
                    }
                    return false;
                }
                i = i + 1;
            }
            proof {
                let mx = x@.map_values(|v: Vec<u8>| v@);
                let my = y@.map_values(|v: Vec<u8>| v@);
                assert forall|j: int| 0 <= j < mx.len() implies #[trigger] mx[j] == my[j] by {
                    assert(x@[j]@ == y@[j]@);
                }
                assert(mx =~= my);
            }
            true
        },
        _ => false,
    }
}

/// Whether two messages have the same kind and signature.
pub fn message_matches(a: &Message, b: &Message) -> (r: bool)
    ensures
        r == spec_msg_matches(*a, *b),
{
    match (a, b) {
        (Message::Command(x), Message::Command(y)) => bytes_eq(
            x.name.as_slice(),
            y.name.as_slice(),
        ) && option_u8_eq(&x.id, &y.id) && bytes_eq(
            x.handler_name.as_slice(),
            y.handler_name.as_slice(),
        ) && module_eq(&x.module, &y.module) && x.takes_reply_queue == y.takes_reply_queue
            && x.has_context == y.has_context && args_eq(&x.args, &y.args),
        (Message::Reply(x), Message::Reply(y)) => bytes_eq(x.name.as_slice(), y.name.as_slice())
            && option_u8_eq(&x.id, &y.id) && args_eq(&x.args, &y.args),
        (Message::Output(x), Message::Output(y)) => option_u8_eq(&x.id, &y.id) && bytes_eq(
            x.format.as_slice(),
            y.format.as_slice(),
        ) && types_eq(&x.args, &y.args),
        _ => false,
    }
}

impl Message {
    /// This message's ID, if one is assigned.
    pub fn id(&self) -> (r: Option<u8>)
        ensures
            r == spec_msg_id(*self),
    {
        match self {
            Message::Command(c) => c.id,
            Message::Reply(r) => r.id,
            Message::Output(o) => o.id,
        }
    }

    /// Set this message's ID.
    pub fn set_id(&mut self, id: Option<u8>)
        ensures
            spec_msg_id(*final(self)) == id,
            spec_msg_same_except_id(*old(self), *final(self)),
    {
        match self {
            Message::Command(c) => {
                c.id = id;
            },
            Message::Reply(r) => {
                r.id = id;
            },
            Message::Output(o) => {
                o.id = id;
            },
        }
    }
}

/// The pre-assigned IDs of a message list.
pub open spec fn spec_ids_of(msgs: Seq<(Seq<u8>, Message)>) -> Seq<Option<u8>> {
    msgs.map_values(|e: (Seq<u8>, Message)| spec_msg_id(e.1))
}

/// The set of IDs already taken by pre-assigned messages.
pub open spec fn spec_pre_used(ids: Seq<Option<u8>>) -> Set<u8> {
    Set::new(|id: u8| exists|i: int| 0 <= i < ids.len() && ids[i] == Some(id))
}

/// The smallest ID at or after `from`, up to 254, not yet taken.
pub open spec fn spec_next_free(used: Set<u8>, from: int) -> Option<u8>
    decreases 255 - from,
{
    if from < 0 || from > 254 {
        None
    } else if !used.contains(from as u8) {
        Some(from as u8)
    } else {
        spec_next_free(used, from + 1)
    }
}

/// The IDs the catalog walk assigns from position `i` on: pre-assigned
/// IDs are kept, the rest get the smallest unused ID at or after the
/// rolling cursor; `None` when the 8-bit ID space runs out.
pub open spec fn spec_assign_rec(ids: Seq<Option<u8>>, i: int, used: Set<u8>, cursor: int) -> Option<
    Seq<u8>,
>
    decreases ids.len() - i,
{
    if i < 0 || i >= ids.len() {
        Some(Seq::empty())
    } else {
        match ids[i] {
            Some(id) => match spec_assign_rec(ids, i + 1, used, cursor) {
                Some(rest) => Some(seq![id] + rest),
                None => None,
            },
            None => match spec_next_free(used, cursor) {
                None => None,
                Some(id) => match spec_assign_rec(ids, i + 1, used.insert(id), id as int + 1) {
                    Some(rest) => Some(seq![id] + rest),
                    None => None,
                },
            },
        }
    }
}

/// The IDs the catalog walk assigns to a message list.
pub open spec fn spec_assign_ids(ids: Seq<Option<u8>>) -> Option<Seq<u8>> {
    spec_assign_rec(ids, 0, spec_pre_used(ids), 0)
}

/// The build-time collector: the message catalog, the static string
/// table, the data dictionary under construction, and the transport
/// directive.
pub struct Processor {
    pub messages: ByteMap<Message>,
    pub static_strings: StaticStringsTracker,
    pub dictionary: Dictionary,
    pub generate_cfg: Option<GenerateConfig>,
}

impl Processor {
    /// All keyed collections are sorted and the string table's IDs are
    /// consistent.
    pub open spec fn wf(&self) -> bool {
        &&& self.messages.wf()
        &&& self.static_strings.wf()
        &&& self.dictionary.config.wf()
        &&& self.dictionary.commands.wf()
        &&& self.dictionary.responses.wf()
        &&& self.dictionary.output.wf()
        &&& self.dictionary.enumerations.wf()
    }

    /// An empty collector.
    pub fn new() -> (r: Processor)
        ensures
            r.wf(),
            r.messages@ == Seq::<(Seq<u8>, Message)>::empty(),
            r.static_strings.strings_view() == Seq::<(Seq<u8>, u16)>::empty(),
            r.dictionary.config@ == Seq::<(Seq<u8>, JsonValue)>::empty(),
            r.dictionary.commands@ == Seq::<(Seq<u8>, u8)>::empty(),
            r.dictionary.responses@ == Seq::<(Seq<u8>, u8)>::empty(),
            r.dictionary.output@ == Seq::<(Seq<u8>, u8)>::empty(),
            r.dictionary.enumerations@ == Seq::<(Seq<u8>, DictionaryEnumeration)>::empty(),
            r.dictionary.version@ == Seq::<u8>::empty(),
            r.dictionary.build_versions@ == Seq::<u8>::empty(),
            r.generate_cfg is None,
    {
        Processor {
            messages: ByteMap::new(),
            static_strings: StaticStringsTracker::new(),
            dictionary: Dictionary::new(),
            generate_cfg: None,
        }
    }

    /// Add a message to the catalog.
    ///
    /// A name already holding a message of a different kind or signature
    /// is a build error; re-adding an identical message is harmless.
    pub fn add_message(&mut self, name: Vec<u8>, message: Message) -> (r: Result<(), BuildError>)
        requires
            old(self).wf(),
        ensures
            final(self).wf(),
            final(self).static_strings == old(self).static_strings,
            final(self).dictionary == old(self).dictionary,
            final(self).generate_cfg == old(self).generate_cfg,
            match spec_find(old(self).messages@, name@) {
                Some(cur) => {
                    if spec_msg_matches(cur, message) {
                        r is Ok && final(self).messages@ == spec_insert(
                            old(self).messages@,
                            name@,
                            message,
                        )
                    } else {
                        r == Err::<(), BuildError>(BuildError::DuplicateMessage) && final(self).messages@ == old(self).messages@
                    }
                },
                None => r is Ok && final(self).messages@ == spec_insert(
                    old(self).messages@,
                    name@,
                    message,
                ),
            },
    {
        match self.messages.get(name.as_slice()) {
            Some(cur) => {
                if !message_matches(cur, &message) {
                    return Err(BuildError::DuplicateMessage);
                }
            },
            None => {},
        }
        self.messages.insert(name, message);
        Ok(())
    }

    /// Record an enumeration in the dictionary.
    ///
    /// A name already taken by a message is a build error.
    pub fn add_enum(&mut self, name: Vec<u8>, enumeration: DictionaryEnumeration) -> (r: Result<
        (),
        BuildError,
    >)
        requires
            old(self).wf(),
        ensures
            final(self).wf(),
            final(self).static_strings == old(self).static_strings,
            final(self).generate_cfg == old(self).generate_cfg,
            final(self).messages@ == old(self).messages@,
            spec_find(old(self).messages@, name@) is Some ==> r == Err::<(), BuildError>(
                BuildError::DuplicateEnumeration,
            ) && final(self).dictionary == old(self).dictionary,
            spec_find(old(self).messages@, name@) is None ==> r is Ok && final(self).dictionary.enumerations@ == spec_insert(
                old(self).dictionary.enumerations@,
                name@,
                enumeration,
            ) && final(self).dictionary.config@ == old(self).dictionary.config@ && final(self).dictionary.commands@ == old(self).dictionary.commands@ && final(self).dictionary.responses@ == old(self).dictionary.responses@ && final(self).dictionary.output@ == old(self).dictionary.output@ && final(self).dictionary.version@ == old(self).dictionary.version@ && final(self).dictionary.build_versions@ == old(self).dictionary.build_versions@,
    {
        if self.messages.get(name.as_slice()).is_some() {
            return Err(BuildError::DuplicateEnumeration);
        }
        self.dictionary.enumerations.insert(name, enumeration);
        Ok(())
    }

    /// Record a build-time constant for the dictionary's `config` map.
    ///
    /// A second definition of the same constant is a build error.
    pub fn process_constant(&mut self, name: Vec<u8>, value: JsonValue) -> (r: Result<
        (),
        BuildError,
    >)
        requires
            old(self).wf(),
        ensures
            final(self).wf(),
            final(self).static_strings == old(self).static_strings,
            final(self).generate_cfg == old(self).generate_cfg,
            final(self).messages@ == old(self).messages@,
            spec_find(old(self).dictionary.config@, name@) is Some ==> r == Err::<(), BuildError>(
                BuildError::DuplicateConstant,
            ) && final(self).dictionary == old(self).dictionary,
            spec_find(old(self).dictionary.config@, name@) is None ==> r is Ok && final(self).dictionary.config@ == spec_insert(old(self).dictionary.config@, name@, value),
    {
        if self.dictionary.config.get(name.as_slice()).is_some() {
            return Err(BuildError::DuplicateConstant);
        }
        self.dictionary.config.insert(name, value);
        Ok(())
    }

    /// Record a static string.
    pub fn process_static_string(&mut self, ss: StaticString) -> (r: Result<(), BuildError>)
        requires
            old(self).wf(),
        ensures
            final(self).wf(),
            final(self).messages@ == old(self).messages@,
            final(self).dictionary == old(self).dictionary,
            final(self).generate_cfg == old(self).generate_cfg,
            spec_find(old(self).static_strings.strings_view(), ss.0@) is Some ==> r is Ok && final(self).static_strings.strings_view() == old(self).static_strings.strings_view(),
            spec_find(old(self).static_strings.strings_view(), ss.0@) is None && old(self).static_strings.strings_view().len() < 65533 ==> r is Ok && final(self).static_strings.strings_view() == spec_insert(
                old(self).static_strings.strings_view(),
                ss.0@,
                old(self).static_strings.next_id_spec(),
            ),
            r is Err ==> r == Err::<(), BuildError>(BuildError::TooManyStaticStrings),
    {
        self.static_strings.insert(ss)
    }

    /// Record a shutdown call: collect its message as a static string
    /// and make sure the built-in `shutdown` reply is in the catalog.
    ///
    /// Fails exactly when the message is new and the string table is
    /// full; a name clash on `shutdown` cannot arise, since an existing
    /// entry under that name is left untouched whatever its shape.
    pub fn process_klipper_shutdown(&mut self, msg: StaticString) -> (r: Result<(), BuildError>)
        requires
            old(self).wf(),
        ensures
            final(self).wf(),
            final(self).dictionary == old(self).dictionary,
            final(self).generate_cfg == old(self).generate_cfg,
            spec_find(old(self).static_strings.strings_view(), msg.0@) is Some ==> final(self).static_strings.strings_view() == old(self).static_strings.strings_view(),
            spec_find(old(self).static_strings.strings_view(), msg.0@) is None && old(self).static_strings.strings_view().len() < 65533 ==> final(self).static_strings.strings_view() == spec_insert(
                old(self).static_strings.strings_view(),
                msg.0@,
                old(self).static_strings.next_id_spec(),
            ),
            r is Err <==> spec_find(old(self).static_strings.strings_view(), msg.0@) is None && old(self).static_strings.strings_view().len() >= 65533,
            r is Err ==> r == Err::<(), BuildError>(BuildError::TooManyStaticStrings) && final(self).messages@ == old(self).messages@ && final(self).static_strings.strings_view() == old(self).static_strings.strings_view(),
            r is Ok ==> match spec_find(old(self).messages@, "shutdown".spec_bytes()) {
                Some(m) => final(self).messages@ == old(self).messages@,
                None => exists|rep: Message|
                    spec_is_shutdown_reply(rep) && final(self).messages@ == #[trigger] spec_insert(
                        old(self).messages@,
                        "shutdown".spec_bytes(),
                        rep,
                    ),
            },
            r is Ok ==> match spec_find(final(self).messages@, "shutdown".spec_bytes()) {
                Some(m) => spec_find(old(self).messages@, "shutdown".spec_bytes()) is Some
                    || spec_is_shutdown_reply(m),
                None => false,
            },
    {
        let result = self.static_strings.insert(msg);
        match result {
            Ok(u) => u,
            Err(e) => {
                return Err(e);
            },
        };
        if self.messages.get("shutdown".as_bytes()).is_none() {
            let mut args: Vec<Arg> = Vec::new();
            args.push(Arg { name: crate::bytemap::owned_bytes("clock"), ty: FieldType::U32 });
            args.push(
                Arg { name: crate::bytemap::owned_bytes("static_string_id"), ty: FieldType::U16 },
            );
            let key = crate::bytemap::owned_bytes("shutdown");
            let reply = Message::Reply(
                Reply { name: crate::bytemap::owned_bytes("shutdown"), id: None, args },
            );
            let ghost repw = reply;
            proof {
                assert(args_view(repw->Reply_0.args@) =~= seq![
                    ("clock".spec_bytes(), FieldType::U32),
                    ("static_string_id".spec_bytes(), FieldType::U16),
                ]);
                assert(spec_is_shutdown_reply(repw));
            }
            let ghost mid = self.messages@;
            let add = self.add_message(key, reply);
            match add {
                Ok(u) => u,
                Err(e) => {
                    return Err(e);
                },
            };
            proof {
                lemma_find_value_after_insert(mid, "shutdown".spec_bytes(), repw);
            }
        }
        Ok(())
    }

    /// Record the transport-generation directive; a second one is a
    /// build error.
    pub fn process_config_generate(&mut self, cfg: GenerateConfig) -> (r: Result<(), BuildError>)
        requires
            old(self).wf(),
        ensures
            final(self).wf(),
            final(self).messages@ == old(self).messages@,
            final(self).dictionary == old(self).dictionary,
            final(self).static_strings == old(self).static_strings,
            old(self).generate_cfg is Some ==> r == Err::<(), BuildError>(
                BuildError::MultipleTransports,
            ) && final(self).generate_cfg == old(self).generate_cfg,
            old(self).generate_cfg is None ==> r is Ok && final(self).generate_cfg == Some(cfg),
    {
        if self.generate_cfg.is_some() {
            return Err(BuildError::MultipleTransports);
        }
        self.generate_cfg = Some(cfg);
        Ok(())
    }

    /// Remove a command named on the build's skip list.
    pub fn skip_command(&mut self, name: &[u8])
        requires
            old(self).wf(),
        ensures
            final(self).wf(),
            final(self).messages@ == spec_remove(old(self).messages@, name@),
            final(self).dictionary == old(self).dictionary,
            final(self).static_strings == old(self).static_strings,
            final(self).generate_cfg == old(self).generate_cfg,
    {
        self.messages.remove(name);
    }

    /// Add the two built-in messages: the `identify_response` reply with
    /// ID 0 and the `identify` command with ID 1.
    ///
    /// Succeeds exactly when neither name is already taken by an entry
    /// of a different shape; on success the catalog holds both built-ins
    /// under their names and nothing else changes.
    pub fn add_identify(&mut self) -> (r: Result<(), BuildError>)
        requires
            old(self).wf(),
        ensures
            final(self).wf(),
            final(self).static_strings == old(self).static_strings,
            final(self).dictionary == old(self).dictionary,
            final(self).generate_cfg == old(self).generate_cfg,
            ({
                let resp_ok = match spec_find(
                    old(self).messages@,
                    "identify_response".spec_bytes(),
                ) {
                    Some(m) => spec_is_identify_response(m),
                    None => true,
                };
                let cmd_ok = match spec_find(old(self).messages@, "identify".spec_bytes()) {
                    Some(m) => spec_is_identify_command(m),
                    None => true,
                };
                &&& (r is Ok <==> resp_ok && cmd_ok)
                &&& (r is Err ==> r == Err::<(), BuildError>(BuildError::DuplicateMessage)
                    && final(self).messages@ == old(self).messages@)
                &&& (r is Ok ==> exists|cmd: Message, resp: Message|
                    spec_is_identify_command(cmd) && spec_is_identify_response(resp) && final(self).messages@ == #[trigger] spec_insert(
                        spec_insert(
                            old(self).messages@,
                            "identify_response".spec_bytes(),
                            resp,
                        ),
                        "identify".spec_bytes(),
                        cmd,
                    ))
                &&& (r is Ok ==> match spec_find(
                    final(self).messages@,
                    "identify".spec_bytes(),
                ) {
                    Some(m) => spec_is_identify_command(m),
                    None => false,
                })
            }),
    {
        let mut resp_args: Vec<Arg> = Vec::new();
        resp_args.push(Arg { name: crate::bytemap::owned_bytes("offset"), ty: FieldType::U32 });
        resp_args.push(Arg { name: crate::bytemap::owned_bytes("data"), ty: FieldType::ByteArray });
        let resp = Message::Reply(
            Reply {
                name: crate::bytemap::owned_bytes("identify_response"),
                id: Some(0),
                args: resp_args,
            },
        );
        let ghost respw = resp;
        proof {
            assert(args_view(respw->Reply_0.args@) =~= seq![
                ("offset".spec_bytes(), FieldType::U32),
                ("data".spec_bytes(), FieldType::ByteArray),
            ]);
            assert(spec_is_identify_response(respw));
        }
        let mut cmd_args: Vec<Arg> = Vec::new();
        cmd_args.push(Arg { name: crate::bytemap::owned_bytes("offset"), ty: FieldType::U32 });
        cmd_args.push(Arg { name: crate::bytemap::owned_bytes("count"), ty: FieldType::U32 });
        let cmd = Message::Command(
            Command {
                name: crate::bytemap::owned_bytes("identify"),
                id: Some(1),
                handler_name: crate::bytemap::owned_bytes("handle_identify"),
                module: None,
                takes_reply_queue: true,
                has_context: false,
                args: cmd_args,
            },
        );
        let ghost cmdw = cmd;
        proof {
            assert(args_view(cmdw->Command_0.args@) =~= seq![
                ("offset".spec_bytes(), FieldType::U32),
                ("count".spec_bytes(), FieldType::U32),
            ]);
            assert(spec_is_identify_command(cmdw));
        }
        match self.messages.get("identify_response".as_bytes()) {
            Some(cur) => {
                let same = message_matches(cur, &resp);
                proof {
                    assert(spec_msg_matches(*cur, respw) <==> spec_is_identify_response(*cur));
                }
                if !same {
                    return Err(BuildError::DuplicateMessage);
                }
            },
            None => {},
        }
        match self.messages.get("identify".as_bytes()) {
            Some(cur) => {
                let same = message_matches(cur, &cmd);
                proof {
                    assert(spec_msg_matches(*cur, cmdw) <==> spec_is_identify_command(*cur));
                }
                if !same {
                    return Err(BuildError::DuplicateMessage);
                }
            },
            None => {},
        }
        self.messages.insert(crate::bytemap::owned_bytes("identify_response"), resp);
        let ghost mid = self.messages@;
        self.messages.insert(crate::bytemap::owned_bytes("identify"), cmd);
        proof {
            lemma_find_value_after_insert(mid, "identify".spec_bytes(), cmdw);
        }
        Ok(())
    }
}

impl Processor {
    /// Assign an ID to every message that has none: walking the catalog
    /// in name order, each one gets the smallest unused ID at or after a
    /// rolling cursor.  Fails when the 8-bit ID space runs out.
    #[verifier::rlimit(100)]
    pub fn assign_command_ids(&mut self) -> (r: Result<(), BuildError>)
        requires
            old(self).wf(),
        ensures
            final(self).wf(),
            final(self).dictionary == old(self).dictionary,
            final(self).static_strings == old(self).static_strings,
            final(self).generate_cfg == old(self).generate_cfg,
            final(self).messages@.len() == old(self).messages@.len(),
            forall|j: int|
                0 <= j < old(self).messages@.len() ==> (#[trigger] final(self).messages@[j]).0
                    == old(self).messages@[j].0 && spec_msg_same_except_id(
                    old(self).messages@[j].1,
                    final(self).messages@[j].1,
                ),
            match spec_assign_ids(spec_ids_of(old(self).messages@)) {
                Some(ids) => r is Ok && forall|j: int|
                    0 <= j < ids.len() ==> spec_msg_id(
                        (#[trigger] final(self).messages@[j]).1,
                    ) == Some(ids[j]),
                None => r == Err::<(), BuildError>(BuildError::TooManyMessages),
            },
    {
        let n = self.messages.len();
        let ghost msgs0 = self.messages@;
        let ghost ids0 = spec_ids_of(msgs0);
        let mut used: Vec<bool> = Vec::new();
        let mut k: usize = 0;
        while k < 256
            invariant
                used@.len() == k,
                0 <= k <= 256,
                forall|t: int| 0 <= t < k ==> !(#[trigger] used@[t]),
            decreases 256 - k,
        {
            used.push(false);
            k = k + 1;
        }
        let mut i: usize = 0;
        while i < n
            invariant
                0 <= i <= n,
                n == msgs0.len(),
                self.messages@ == msgs0,
                ids0 == spec_ids_of(msgs0),
                used@.len() == 256,
                forall|b: u8|
                    (#[trigger] used@[b as int]) == exists|t: int|
                        0 <= t < i && ids0[t] == Some(b),
            decreases n - i,
        {
            let cur = self.messages.value_at(i).id();
            match cur {
                Some(id) => {
                    proof {
                        assert(ids0[i as int] == Some(id));
                    }
                    used[id as usize] = true;
                    proof {
                        assert forall|b: u8| (#[trigger] used@[b as int]) implies exists|t: int|
                            0 <= t < i + 1 && ids0[t] == Some(b) by {
                            if b == id {
                                assert(ids0[i as int] == Some(b));
                            } else {
                                let t = choose|t: int| 0 <= t < i && ids0[t] == Some(b);
                                assert(0 <= t < i + 1 && ids0[t] == Some(b));
                            }
                        }
                        assert forall|b: u8|
                            (exists|t: int| 0 <= t < i + 1 && ids0[t] == Some(b)) implies (
                        #[trigger] used@[b as int]) by {
                            let t = choose|t: int| 0 <= t < i + 1 && ids0[t] == Some(b);
                            if t < i {
                                assert(exists|u: int| 0 <= u < i && ids0[u] == Some(b));
                            }
                        }
                    }
                },
                None => {
                    proof {
                        assert(ids0[i as int] is None);
                        assert forall|b: u8|
                            (exists|t: int| 0 <= t < i + 1 && ids0[t] == Some(b)) implies (
                        #[trigger] used@[b as int]) by {
                            let t = choose|t: int| 0 <= t < i + 1 && ids0[t] == Some(b);
                            assert(t < i);
                            assert(exists|u: int| 0 <= u < i && ids0[u] == Some(b));
                        }
                    }
                },
            }
            i = i + 1;
        }
        let ghost mut used_set = spec_pre_used(ids0);
        proof {
            assert forall|b: u8| (#[trigger] used@[b as int]) == used_set.contains(b) by {
                assert(used_set.contains(b) == exists|t: int|
                    0 <= t < ids0.len() && ids0[t] == Some(b));
            }
        }
        let mut cursor: usize = 0;
        let ghost mut assigned: Seq<u8> = Seq::empty();
        let mut i2: usize = 0;
        proof {
            assert(spec_assign_ids(ids0) == spec_assign_rec(ids0, 0, used_set, 0));
            if spec_assign_rec(ids0, 0, used_set, 0) is Some {
                assert(assigned + spec_assign_rec(ids0, 0, used_set, 0)->Some_0
                    =~= spec_assign_rec(ids0, 0, used_set, 0)->Some_0);
            }
        }
        while i2 < n
            invariant
                0 <= i2 <= n,
                n == msgs0.len(),
                self.messages@.len() == n,
                ids0 == spec_ids_of(msgs0),
                old(self).messages@ == msgs0,
                old(self).wf(),
                self.messages.wf(),
                self.static_strings == old(self).static_strings,
                self.dictionary == old(self).dictionary,
                self.generate_cfg == old(self).generate_cfg,
                used@.len() == 256,
                0 <= cursor <= 255,
                assigned.len() == i2,
                forall|b: u8| (#[trigger] used@[b as int]) == used_set.contains(b),
                forall|j: int|
                    0 <= j < i2 ==> (#[trigger] self.messages@[j]).0 == msgs0[j].0
                        && spec_msg_same_except_id(msgs0[j].1, self.messages@[j].1) && spec_msg_id(
                        self.messages@[j].1,
                    ) == Some(assigned[j]),
                forall|j: int| i2 <= j < n ==> (#[trigger] self.messages@[j]) == msgs0[j],
                match spec_assign_rec(ids0, i2 as int, used_set, cursor as int) {
                    Some(rest) => spec_assign_ids(ids0) == Some(assigned + rest),
                    None => spec_assign_ids(ids0) is None,
                },
            decreases n - i2,
        {
            let cur = self.messages.value_at(i2).id();
            match cur {
                Some(id) => {
                    proof {
                        assert(self.messages@[i2 as int] == msgs0[i2 as int]);
                        assert(ids0[i2 as int] == Some(id));
                        match spec_assign_rec(ids0, i2 as int, used_set, cursor as int) {
                            Some(rest) => {
                                let rest2 = spec_assign_rec(
                                    ids0,
                                    i2 + 1,
                                    used_set,
                                    cursor as int,
                                )->Some_0;
                                assert(rest == seq![id] + rest2);
                                assert(assigned + rest =~= (assigned + seq![id]) + rest2);
                            },
                            None => {},
                        }
                        assigned = assigned + seq![id];
                    }
                },
                None => {
                    proof {
                        assert(self.messages@[i2 as int] == msgs0[i2 as int]);
                        assert(ids0[i2 as int] is None);
                    }
                    let mut id: usize = cursor;
                    let mut found: bool = false;
                    loop
                        invariant_except_break
                            !found,
                        invariant
                            cursor <= id <= 255,
                            used@.len() == 256,
                            forall|b: u8| (#[trigger] used@[b as int]) == used_set.contains(b),
                            spec_next_free(used_set, cursor as int) == spec_next_free(
                                used_set,
                                id as int,
                            ),
                        ensures
                            cursor <= id <= 255,
                            found ==> id <= 254 && spec_next_free(used_set, cursor as int)
                                == Some(id as u8),
                            !found ==> spec_next_free(used_set, cursor as int) is None,
                        decreases 255 - id,
                    {
                        if id >= 255 {
                            proof {
                                assert(spec_next_free(used_set, id as int) is None);
                            }
                            break ;
                        }
                        if !used[id] {
                            found = true;
                            proof {
                                assert(!used_set.contains(id as u8));
                                assert(spec_next_free(used_set, id as int) == Some(id as u8));
                            }
                            break ;
                        }
                        proof {
                            assert(used_set.contains(id as u8));
                            assert(spec_next_free(used_set, id as int) == spec_next_free(
                                used_set,
                                id + 1,
                            ));
                        }
                        id = id + 1;
                    }
                    if !found {
                        proof {
                            assert(spec_assign_rec(ids0, i2 as int, used_set, cursor as int)
                                is None);
                            assert(spec_assign_ids(ids0) is None);
                            assert forall|j: int|
                                0 <= j < n implies (#[trigger] self.messages@[j]).0 == msgs0[j].0
                                && spec_msg_same_except_id(msgs0[j].1, self.messages@[j].1) by {}
                        }
                        return Err(BuildError::TooManyMessages);
                    }
                    let idb = id as u8;
                    proof {
                        assert(spec_next_free(used_set, cursor as int) == Some(idb));
                    }
                    let m = self.messages.value_at_mut(i2);
                    m.set_id(Some(idb));
                    used[id] = true;
                    proof {
                        match spec_assign_rec(ids0, i2 as int, used_set, cursor as int) {
                            Some(rest) => {
                                let rest2 = spec_assign_rec(
                                    ids0,
                                    i2 + 1,
                                    used_set.insert(idb),
                                    idb as int + 1,
                                )->Some_0;
                                assert(rest == seq![idb] + rest2);
                                assert(assigned + rest =~= (assigned + seq![idb]) + rest2);
                            },
                            None => {},
                        }
                        assigned = assigned + seq![idb];
                        used_set = used_set.insert(idb);
                        assert forall|b: u8| (#[trigger] used@[b as int]) == used_set.contains(
                            b,
                        ) by {}
                        assert forall|a: int, b: int|
                            0 <= a < b < self.messages@.len() implies crate::bytemap::lex_lt(
                            (#[trigger] self.messages@[a]).0,
                            (#[trigger] self.messages@[b]).0,
                        ) by {
                            assert(self.messages@[a].0 == msgs0[a].0);
                            assert(self.messages@[b].0 == msgs0[b].0);
                        }
                    }
                    cursor = id + 1;
                },
            }
            i2 = i2 + 1;
        }
        proof {
            assert(spec_assign_rec(ids0, n as int, used_set, cursor as int) == Some(
                Seq::<u8>::empty(),
            ));
            assert(assigned + Seq::<u8>::empty() =~= assigned);
        }
        Ok(())
    }
}

/// The `commands` dictionary entries collected from a message list:
/// each command's descriptor mapped to its ID.
pub open spec fn spec_fold_cmds(msgs: Seq<(Seq<u8>, Message)>, acc: Seq<(Seq<u8>, u8)>) -> Seq<
    (Seq<u8>, u8),
>
    decreases msgs.len(),
{
    if msgs.len() == 0 {
        acc
    } else {
        let acc2 = match msgs[0].1 {
            Message::Command(c) => spec_insert(
                acc,
                spec_descriptor(c.name@, args_view(c.args@)),
                spec_id_or_zero(msgs[0].1),
            ),
            _ => acc,
        };
        spec_fold_cmds(msgs.skip(1), acc2)
    }
}

/// The `responses` dictionary entries collected from a message list.
pub open spec fn spec_fold_resps(msgs: Seq<(Seq<u8>, Message)>, acc: Seq<(Seq<u8>, u8)>) -> Seq<
    (Seq<u8>, u8),
>
    decreases msgs.len(),
{
    if msgs.len() == 0 {
        acc
    } else {
        let acc2 = match msgs[0].1 {
            Message::Reply(rp) => spec_insert(
                acc,
                spec_descriptor(rp.name@, args_view(rp.args@)),
                spec_id_or_zero(msgs[0].1),
            ),
            _ => acc,
        };
        spec_fold_resps(msgs.skip(1), acc2)
    }
}

/// The `output` dictionary entries collected from a message list: each
/// format string mapped to its ID.
pub open spec fn spec_fold_outs(msgs: Seq<(Seq<u8>, Message)>, acc: Seq<(Seq<u8>, u8)>) -> Seq<
    (Seq<u8>, u8),
>
    decreases msgs.len(),
{
    if msgs.len() == 0 {
        acc
    } else {
        let acc2 = match msgs[0].1 {
            Message::Output(o) => spec_insert(acc, o.format@, spec_id_or_zero(msgs[0].1)),
            _ => acc,
        };
        spec_fold_outs(msgs.skip(1), acc2)
    }
}

/// The `static_string_id` enumeration entries: each collected string
/// mapped to its 16-bit ID.
pub open spec fn spec_fold_ss(
    strings: Seq<(Seq<u8>, u16)>,
    acc: Seq<(Seq<u8>, DictionaryEnumerationItem)>,
) -> Seq<(Seq<u8>, DictionaryEnumerationItem)>
    decreases strings.len(),
{
    if strings.len() == 0 {
        acc
    } else {
        spec_fold_ss(
            strings.skip(1),
            spec_insert(
                acc,
                strings[0].0,
                DictionaryEnumerationItem::Number(strings[0].1 as u64),
            ),
        )
    }
}

impl Processor {
    /// Fill the dictionary from the catalog: every command and reply
    /// under its descriptor string, every output under its format
    /// string, each with its ID, and the `static_string_id` enumeration
    /// synthesized from the static string table.
    pub fn finalize_dictionary(&mut self)
        requires
            old(self).wf(),
        ensures
            final(self).wf(),
            final(self).messages@ == old(self).messages@,
            final(self).static_strings == old(self).static_strings,
            final(self).generate_cfg == old(self).generate_cfg,
            final(self).dictionary.config@ == old(self).dictionary.config@,
            final(self).dictionary.version@ == old(self).dictionary.version@,
            final(self).dictionary.build_versions@ == old(self).dictionary.build_versions@,
            final(self).dictionary.commands@ == spec_fold_cmds(
                old(self).messages@,
                old(self).dictionary.commands@,
            ),
            final(self).dictionary.responses@ == spec_fold_resps(
                old(self).messages@,
                old(self).dictionary.responses@,
            ),
            final(self).dictionary.output@ == spec_fold_outs(
                old(self).messages@,
                old(self).dictionary.output@,
            ),
            exists|e: DictionaryEnumeration|
                (#[trigger] e.0)@ == spec_fold_ss(
                    old(self).static_strings.strings_view(),
                    Seq::<(Seq<u8>, DictionaryEnumerationItem)>::empty(),
                ) && final(self).dictionary.enumerations@ == spec_insert(
                    old(self).dictionary.enumerations@,
                    "static_string_id".spec_bytes(),
                    e,
                ),
    {
        let ghost msgs = self.messages@;
        let n = self.messages.len();
        let mut i: usize = 0;
        proof {
            assert(msgs.skip(0) =~= msgs);
        }
        while i < n
            invariant
                0 <= i <= n,
                n == msgs.len(),
                old(self).wf(),
                self.messages@ == msgs,
                msgs == old(self).messages@,
                self.static_strings == old(self).static_strings,
                self.generate_cfg == old(self).generate_cfg,
                self.dictionary.config@ == old(self).dictionary.config@,
                self.dictionary.version@ == old(self).dictionary.version@,
                self.dictionary.build_versions@ == old(self).dictionary.build_versions@,
                self.dictionary.enumerations@ == old(self).dictionary.enumerations@,
                self.dictionary.commands.wf(),
                self.dictionary.responses.wf(),
                self.dictionary.output.wf(),
                spec_fold_cmds(msgs, old(self).dictionary.commands@) == spec_fold_cmds(
                    msgs.skip(i as int),
                    self.dictionary.commands@,
                ),
                spec_fold_resps(msgs, old(self).dictionary.responses@) == spec_fold_resps(
                    msgs.skip(i as int),
                    self.dictionary.responses@,
                ),
                spec_fold_outs(msgs, old(self).dictionary.output@) == spec_fold_outs(
                    msgs.skip(i as int),
                    self.dictionary.output@,
                ),
            decreases n - i,
        {
            proof {
                assert(msgs.skip(i as int)[0] == msgs[i as int]);
                assert(msgs.skip(i as int).skip(1) =~= msgs.skip(i + 1));
            }
            let m = self.messages.value_at(i);
            let id = match m.id() {
                Some(v) => v,
                None => 0,
            };
            match m {
                Message::Command(c) => {
                    let desc = c.get_desc_string();
                    self.dictionary.commands.insert(desc, id);
                },
                Message::Reply(rp) => {
                    let desc = rp.get_desc_string();
                    self.dictionary.responses.insert(desc, id);
                },
                Message::Output(o) => {
                    let mut key: Vec<u8> = Vec::new();
                    key.extend_from_slice(o.format.as_slice());
                    proof {
                        assert(key@ =~= o.format@);
                    }
                    self.dictionary.output.insert(key, id);
                },
            }
            i = i + 1;
        }
        proof {
            assert(msgs.skip(n as int) =~= Seq::<(Seq<u8>, Message)>::empty());
        }
        let mut ssmap: ByteMap<DictionaryEnumerationItem> = ByteMap::new();
        let ghost strings = self.static_strings.strings_view();
        let sn = self.static_strings.strings().len();
        let mut j: usize = 0;
        proof {
            assert(strings.skip(0) =~= strings);
        }
        while j < sn
            invariant
                0 <= j <= sn,
                sn == strings.len(),
                strings == self.static_strings.strings_view(),
                ssmap.wf(),
                spec_fold_ss(strings, Seq::<(Seq<u8>, DictionaryEnumerationItem)>::empty())
                    == spec_fold_ss(strings.skip(j as int), ssmap@),
            decreases sn - j,
        {
            proof {
                assert(strings.skip(j as int)[0] == strings[j as int]);
                assert(strings.skip(j as int).skip(1) =~= strings.skip(j + 1));
            }
            let mut key: Vec<u8> = Vec::new();
            key.extend_from_slice(self.static_strings.strings().key_at(j));
            proof {
                assert(key@ =~= strings[j as int].0);
            }
            let id = *self.static_strings.strings().value_at(j);
            ssmap.insert(key, DictionaryEnumerationItem::Number(id as u64));
            j = j + 1;
        }
        proof {
            assert(strings.skip(sn as int) =~= Seq::<(Seq<u8>, u16)>::empty());
        }
        let e = DictionaryEnumeration(ssmap);
        let ghost ewit = e;
        self.dictionary.enumerations.insert(
            crate::bytemap::owned_bytes("static_string_id"),
            e,
        );
        proof {
            assert((ewit.0)@ == spec_fold_ss(
                old(self).static_strings.strings_view(),
                Seq::<(Seq<u8>, DictionaryEnumerationItem)>::empty(),
            ));
            assert(self.dictionary.enumerations@ == spec_insert(
                old(self).dictionary.enumerations@,
                "static_string_id".spec_bytes(),
                ewit,
            ));
        }
    }
}

/// After inserting a value under a key, the key holds that value.
pub proof fn lemma_find_value_after_insert<V>(s: Seq<(Seq<u8>, V)>, k: Seq<u8>, v: V)
    ensures
        spec_find(spec_insert(s, k, v), k) == Some(v),
    decreases s.len(),
{
    if s.len() == 0 {
        assert(spec_insert(s, k, v)[0] == (k, v));
    } else if crate::bytemap::lex_lt(k, s[0].0) {
        assert(spec_insert(s, k, v)[0] == (k, v));
    } else if k == s[0].0 {
        assert(spec_insert(s, k, v)[0] == (k, v));
    } else {
        lemma_find_value_after_insert(s.skip(1), k, v);
        let out = spec_insert(s, k, v);
        assert(out[0] == s[0]);
        assert(out.skip(1) =~= spec_insert(s.skip(1), k, v));
    }
}

} // verus!
