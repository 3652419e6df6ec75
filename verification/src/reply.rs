use crate::msg_desc::{args_view, build_message_descriptor, spec_descriptor, Arg};
use vstd::prelude::*;
use vstd::string::StringSliceAdditionalSpecFns;

verus! {

/// An outgoing structured reply: its name, optional pre-assigned ID and
/// declared arguments.
#[derive(Debug)]
pub struct Reply {
    pub name: Vec<u8>,
    pub id: Option<u8>,
    pub args: Vec<Arg>,
}

/// The name of a reply's generated sender function.
pub open spec fn spec_sender_fn_name(name: Seq<u8>) -> Seq<u8> {
    "send_reply_".spec_bytes() + name
}

impl Reply {
    /// The name of this reply's generated sender function.
    pub fn sender_fn_name(&self) -> (r: Vec<u8>)
        ensures
            r@ == spec_sender_fn_name(self.name@),
    {
        let mut out: Vec<u8> = Vec::new();
        out.extend_from_slice("send_reply_".as_bytes());
        out.extend_from_slice(self.name.as_slice());
        proof {
            assert(out@ =~= spec_sender_fn_name(self.name@));
        }
        out
    }

    /// This reply's descriptor string.
    pub fn get_desc_string(&self) -> (r: Vec<u8>)
        ensures
            r@ == spec_descriptor(self.name@, args_view(self.args@)),
    {
        build_message_descriptor(self.name.as_slice(), &self.args)
    }
}

} // verus!
