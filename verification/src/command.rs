use crate::errors::BuildError;
use crate::msg_desc::{
    args_view, build_message_descriptor, field_type_of, spec_descriptor, spec_field_type_of, Arg,
};
use vstd::prelude::*;
use vstd::string::StringSliceAdditionalSpecFns;

verus! {

/// An incoming command: its name, optional pre-assigned ID, the handler
/// function it dispatches to, the module path of that handler, whether
/// the handler takes the reply queue and the context parameter, and its
/// declared arguments.
///
/// Only the built-in `identify` handler takes the reply queue: user
/// handlers reply through whatever their context carries.
#[derive(Debug)]
pub struct Command {
    pub name: Vec<u8>,
    pub id: Option<u8>,
    pub handler_name: Vec<u8>,
    pub module: Option<Vec<Vec<u8>>>,
    pub takes_reply_queue: bool,
    pub has_context: bool,
    pub args: Vec<Arg>,
}

/// The view of an optional module path.
pub open spec fn module_view(m: Option<Vec<Vec<u8>>>) -> Option<Seq<Seq<u8>>> {
    match m {
        None => None,
        Some(mp) => Some(mp@.map_values(|x: Vec<u8>| x@)),
    }
}

/// `name` with one leading underscore removed.
pub open spec fn spec_strip_underscore(s: Seq<u8>) -> Seq<u8> {
    if s.len() > 0 && s[0] == 0x5F {
        s.skip(1)
    } else {
        s
    }
}

/// `name` with one leading underscore removed.
pub fn strip_underscore(name: &[u8]) -> (r: &[u8])
    ensures
        r@ == spec_strip_underscore(name@),
{
    // 0x5F is '_'
    if name.len() > 0 && *vstd::slice::slice_index_get(name, 0) == 0x5F {
        vstd::slice::slice_subrange(name, 1, name.len())
    } else {
        name
    }
}

/// Whether a parameter name marks the handler's context parameter:
/// `context` or `ctx`, with an optional leading underscore.
pub open spec fn spec_is_context_name(s: Seq<u8>) -> bool {
    spec_strip_underscore(s) == "context".spec_bytes() || spec_strip_underscore(s)
        == "ctx".spec_bytes()
}

/// Whether a parameter name marks the handler's context parameter.
pub fn is_context_name(name: &[u8]) -> (r: bool)
    ensures
        r == spec_is_context_name(name@),
{
    let stripped = strip_underscore(name);
    crate::bytemap::bytes_cmp(stripped, "context".as_bytes()) == 0 || crate::bytemap::bytes_cmp(
        stripped,
        "ctx".as_bytes(),
    ) == 0
}

/// The raw arguments of a handler signature once a leading context
/// parameter is set aside.
pub open spec fn spec_sig_args(raw: Seq<(Seq<u8>, Seq<u8>)>) -> Seq<(Seq<u8>, Seq<u8>)> {
    if raw.len() > 0 && spec_is_context_name(raw[0].0) {
        raw.skip(1)
    } else {
        raw
    }
}

/// Map raw `(name, type text)` arguments to wire arguments: underscores
/// stripped from names, types mapped to field types; `None` when any
/// type has no wire mapping.
pub open spec fn spec_map_args(raw: Seq<(Seq<u8>, Seq<u8>)>) -> Option<Seq<(Seq<u8>, crate::msg_desc::FieldType)>>
    decreases raw.len(),
{
    if raw.len() == 0 {
        Some(Seq::empty())
    } else {
        match (spec_map_args(raw.drop_last()), spec_field_type_of(raw.last().1)) {
            (Some(a), Some(t)) => Some(a.push((spec_strip_underscore(raw.last().0), t))),
            _ => None,
        }
    }
}

proof fn lemma_map_args_none_extends(raw: Seq<(Seq<u8>, Seq<u8>)>, j: int)
    requires
        0 <= j <= raw.len(),
        spec_map_args(raw.take(j)) is None,
    ensures
        spec_map_args(raw) is None,
    decreases raw.len() - j,
{
    if j < raw.len() {
        assert(raw.take(j + 1).drop_last() =~= raw.take(j));
        lemma_map_args_none_extends(raw, j + 1);
    } else {
        assert(raw.take(j) =~= raw);
    }
}

/// The view of a raw signature argument list.
pub open spec fn raw_args_view(raw: Seq<(Vec<u8>, Vec<u8>)>) -> Seq<(Seq<u8>, Seq<u8>)> {
    raw.map_values(|p: (Vec<u8>, Vec<u8>)| (p.0@, p.1@))
}

/// Build a command from a handler's name and its raw signature
/// arguments, each a parameter name and the text of its type.
///
/// A first parameter named `context` or `ctx` is set aside and flagged
/// rather than treated as a wire argument; leading underscores are
/// stripped from argument names.  Fails exactly when some remaining
/// argument's type has no wire mapping.
pub fn command_from_signature(name: Vec<u8>, raw_args: &Vec<(Vec<u8>, Vec<u8>)>) -> (r: Result<
    Command,
    BuildError,
>)
    ensures
        r is Ok <==> spec_map_args(spec_sig_args(raw_args_view(raw_args@))) is Some,
        r matches Ok(c) ==> {
            &&& c.name@ == name@
            &&& c.handler_name@ == name@
            &&& c.id is None
            &&& c.module is None
            &&& c.takes_reply_queue == false
            &&& c.has_context == (raw_args@.len() > 0 && spec_is_context_name(raw_args@[0].0@))
            &&& Some(args_view(c.args@)) == spec_map_args(spec_sig_args(raw_args_view(raw_args@)))
        },
        r matches Err(e) ==> e == BuildError::UnknownType,
{
    let ghost rawv = raw_args_view(raw_args@);
    let ghost sig = spec_sig_args(rawv);
    let mut start: usize = 0;
    let has_context = if raw_args.len() > 0 && is_context_name(raw_args[0].0.as_slice()) {
        start = 1;
        true
    } else {
        false
    };
    proof {
        if has_context {
            assert(sig =~= rawv.skip(1));
        } else {
            assert(sig =~= rawv);
        }
        assert(sig.take(0) =~= Seq::<(Seq<u8>, Seq<u8>)>::empty());
    }
    let mut args: Vec<Arg> = Vec::new();
    let mut i: usize = start;
    while i < raw_args.len()
        invariant
            start <= i <= raw_args@.len(),
            start == 0 || start == 1,
            start == 1 ==> raw_args@.len() >= 1,
            rawv == raw_args_view(raw_args@),
            sig == spec_sig_args(raw_args_view(raw_args@)),
            sig =~= raw_args_view(raw_args@).skip(start as int),
            spec_map_args(sig.take(i - start)) == Some(args_view(args@)),
        decreases raw_args@.len() - i,
    {
        let ty = match field_type_of(raw_args[i].1.as_slice()) {
            Some(t) => t,
            None => {
                proof {
                    assert(sig.take(i - start + 1).drop_last() =~= sig.take(i - start));
                    assert(sig.take(i - start + 1).last() == sig[i - start]);
                    assert(sig[i - start] == rawv[i as int]);
                    assert(spec_map_args(sig.take(i - start + 1)) is None);
                    lemma_map_args_none_extends(sig, i - start + 1);
                }
                return Err(BuildError::UnknownType);
            },
        };
        let stripped = strip_underscore(raw_args[i].0.as_slice());
        let mut arg_name: Vec<u8> = Vec::new();
        arg_name.extend_from_slice(stripped);
        proof {
            assert(arg_name@ =~= spec_strip_underscore(rawv[i as int].0));
        }
        args.push(Arg { name: arg_name, ty });
        proof {
            assert(sig.take(i - start + 1).drop_last() =~= sig.take(i - start));
            assert(sig.take(i - start + 1).last() == sig[i - start]);
            assert(sig[i - start] == rawv[i as int]);
            assert(args@.drop_last() =~= args@.take(args@.len() - 1));
            assert(args_view(args@) =~= args_view(args@.drop_last()).push(
                (args@.last().name@, args@.last().ty),
            ));
            assert(args@.last().name@ == spec_strip_underscore(sig[i - start].0));
            assert(spec_field_type_of(sig[i - start].1) == Some(args@.last().ty));
        }
        i = i + 1;
    }
    proof {
        assert(sig.take(raw_args@.len() - start) =~= sig);
    }
    let mut handler_name: Vec<u8> = Vec::new();
    handler_name.extend_from_slice(name.as_slice());
    proof {
        assert(handler_name@ =~= name@);
    }
    Ok(
        Command {
            name,
            id: None,
            handler_name,
            module: None,
            takes_reply_queue: false,
            has_context,
            args,
        },
    )
}

impl Command {
    /// The name of the generated wrapper that decodes this command's
    /// arguments and calls the handler.
    pub fn handler_fn_name(&self) -> (r: Vec<u8>)
        ensures
            r@ == spec_handler_fn_name(self.name@),
    {
        let mut out: Vec<u8> = Vec::new();
        out.extend_from_slice("_anchor_".as_bytes());
        out.extend_from_slice(self.name.as_slice());
        out.extend_from_slice("_handler".as_bytes());
        proof {
            assert(out@ =~= spec_handler_fn_name(self.name@));
        }
        out
    }

    /// The full path text of the user handler this command calls.
    pub fn target(&self) -> (r: Vec<u8>)
        ensures
            r@ == spec_target(module_view(self.module), self.handler_name@),
    {
        let mut out: Vec<u8> = Vec::new();
        match &self.module {
            None => {},
            Some(mp) => {
                out.extend_from_slice("crate::".as_bytes());
                let ghost mpv = mp@.map_values(|x: Vec<u8>| x@);
                proof {
                    assert(mpv.take(0) =~= Seq::<Seq<u8>>::empty());
                    assert(out@ =~= "crate::".spec_bytes() + spec_mod_path(mpv.take(0)));
                }
                let mut i: usize = 0;
                while i < mp.len()
                    invariant
                        0 <= i <= mp@.len(),
                        mpv == mp@.map_values(|x: Vec<u8>| x@),
                        out@ == "crate::".spec_bytes() + spec_mod_path(mpv.take(i as int)),
                    decreases mp@.len() - i,
                {
                    out.extend_from_slice(mp[i].as_slice());
                    out.extend_from_slice("::".as_bytes());
                    proof {
                        assert(mpv.take(i + 1).drop_last() =~= mpv.take(i as int));
                        assert(mpv.take(i + 1).last() == mpv[i as int]);
                        assert(out@ =~= "crate::".spec_bytes() + spec_mod_path(mpv.take(i + 1)));
                    }
                    i = i + 1;
                }
                proof {
                    assert(mpv.take(mp@.len() as int) =~= mpv);
                }
            },
        }
        out.extend_from_slice(self.handler_name.as_slice());
        proof {
            assert(out@ =~= spec_target(module_view(self.module), self.handler_name@));
        }
        out
    }

    /// This command's descriptor string.
    pub fn get_desc_string(&self) -> (r: Vec<u8>)
        ensures
            r@ == spec_descriptor(self.name@, args_view(self.args@)),
    {
        build_message_descriptor(self.name.as_slice(), &self.args)
    }
}

/// The name of a command's generated wrapper function.
pub open spec fn spec_handler_fn_name(name: Seq<u8>) -> Seq<u8> {
    "_anchor_".spec_bytes() + name + "_handler".spec_bytes()
}

/// The `mod::` segments of a module path, concatenated.
pub open spec fn spec_mod_path(mp: Seq<Seq<u8>>) -> Seq<u8>
    decreases mp.len(),
{
    if mp.len() == 0 {
        Seq::empty()
    } else {
        spec_mod_path(mp.drop_last()) + mp.last() + "::".spec_bytes()
    }
}

/// The full path text of a handler: the bare name for the entry module,
/// otherwise `crate::` followed by each module segment.
pub open spec fn spec_target(module: Option<Seq<Seq<u8>>>, handler: Seq<u8>) -> Seq<u8> {
    match module {
        None => handler,
        Some(mp) => "crate::".spec_bytes() + spec_mod_path(mp) + handler,
    }
}

} // verus!
