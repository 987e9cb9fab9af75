//! Replies and their bytes on the wire.

use crate::bytes::append_bytes;
use crate::bytes::delimiter;
use vstd::prelude::*;

verus! {

/// What the session answers to one command.
#[derive(Debug, PartialEq, Eq)]
pub enum Reply {
    /// A positive reply that carries a text.
    SimpleString(Vec<u8>),
    /// There is no value.
    NilReply,
    /// The command was not understood.
    ErrorReply(Vec<u8>),
}

/// A reply as a mathematical value.
pub enum ReplyModel {
    SimpleString(Seq<u8>),
    NilReply,
    ErrorReply(Seq<u8>),
}

impl View for Reply {
    type V = ReplyModel;

    open spec fn view(&self) -> ReplyModel {
        match *self {
            Reply::SimpleString(t) => ReplyModel::SimpleString(t@),
            Reply::NilReply => ReplyModel::NilReply,
            Reply::ErrorReply(t) => ReplyModel::ErrorReply(t@),
        }
    }
}

/// The bytes of a reply: a plus sign before a positive text, a minus sign
/// before an error text, a dollar sign and minus one for no value, and the
/// delimiter at the end of each.
pub open spec fn encoded(r: ReplyModel) -> Seq<u8> {
    match r {
        ReplyModel::SimpleString(t) => seq![43u8] + t + delimiter(),
        ReplyModel::NilReply => seq![36u8, 45u8, 49u8] + delimiter(),
        ReplyModel::ErrorReply(t) => seq![45u8] + t + delimiter(),
    }
}

impl Reply {
    /// Writes the reply out.
    pub fn encode(&self) -> (out: Vec<u8>)
        ensures
            out@ == encoded(self@),
    {
        let mut out: Vec<u8> = Vec::new();
        match self {
            Reply::SimpleString(t) => {
                out.push(43);
                append_bytes(&mut out, t.as_slice());
            },
            Reply::NilReply => {
                out.push(36);
                out.push(45);
                out.push(49);
            },
            Reply::ErrorReply(t) => {
                out.push(45);
                append_bytes(&mut out, t.as_slice());
            },
        }
        let ghost body = out@;
        out.push(13);
        out.push(10);
        proof {
            assert(out@ =~= body + delimiter());
            match self {
                Reply::SimpleString(t) => {
                    assert(body =~= seq![43u8] + t@);
                },
                Reply::NilReply => {
                    assert(body =~= seq![36u8, 45u8, 49u8]);
                },
                Reply::ErrorReply(t) => {
                    assert(body =~= seq![45u8] + t@);
                },
            }
        }
        out
    }
}

/// Two replies with the same bytes are the same reply: the first byte tells
/// the three forms apart, and what follows it is the text.
pub proof fn encoding_tells_replies_apart(a: ReplyModel, b: ReplyModel)
    requires
        encoded(a) == encoded(b),
    ensures
        a == b,
{
    let x = encoded(a);
    let y = encoded(b);
    assert(x[0] == y[0]);
    assert(x.len() == y.len());
    match (a, b) {
        (ReplyModel::SimpleString(s), ReplyModel::SimpleString(t)) => {
            assert forall|i: int| 0 <= i < s.len() implies s[i] == t[i] by {
                assert(x[i + 1] == s[i]);
                assert(y[i + 1] == t[i]);
            }
            assert(s =~= t);
        },
        (ReplyModel::ErrorReply(s), ReplyModel::ErrorReply(t)) => {
            assert forall|i: int| 0 <= i < s.len() implies s[i] == t[i] by {
                assert(x[i + 1] == s[i]);
                assert(y[i + 1] == t[i]);
            }
            assert(s =~= t);
        },
        _ => {},
    }
}

} // verus!
