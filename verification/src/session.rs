//! The session: one connection's store, and what it answers to each read.
//!
//! The session does no input or output of its own. Its caller reads from the
//! transport and writes to it, and tells the session what came of each; the
//! session says what to do next.

use crate::bytes::delimiter;
use crate::command::decode;
use crate::command::decoded;
use crate::command::Command;
use crate::command::Request;
use crate::model::after_get;
use crate::model::after_set;
use crate::model::after_set_ex;
use crate::model::lookup;
use crate::model::Contents;
use crate::model::Slot;
use crate::reply::encoded;
use crate::reply::Reply;
use crate::reply::ReplyModel;
use crate::store::Storage;
use vstd::prelude::*;

verus! {

/// The text `PONG`.
pub open spec fn text_pong() -> Seq<u8> {
    seq![80u8, 79u8, 78u8, 71u8]
}

/// The text `OK`.
pub open spec fn text_ok() -> Seq<u8> {
    seq![79u8, 75u8]
}

/// The text `ERR`.
pub open spec fn text_err() -> Seq<u8> {
    seq![69u8, 82u8, 82u8]
}

/// The one reply that a command gets, from a store that holds `m`, at `now`.
pub open spec fn reply_to(c: Request, m: Contents, now: int) -> ReplyModel {
    match c {
        Request::Ping => ReplyModel::SimpleString(text_pong()),
        Request::Echo(t) => ReplyModel::SimpleString(t),
        Request::SetValue(_, _) => ReplyModel::SimpleString(text_ok()),
        Request::SetWithTTL(_, _, _) => ReplyModel::SimpleString(text_ok()),
        Request::Get(k) => match lookup(m, k, now) {
            Some(v) => ReplyModel::SimpleString(v),
            None => ReplyModel::NilReply,
        },
        Request::Unrecognized => ReplyModel::ErrorReply(text_err()),
    }
}

/// What the store holds after a command at `now`.
pub open spec fn store_after(c: Request, m: Contents, now: int) -> Contents {
    match c {
        Request::SetValue(k, v) => after_set(m, k, v),
        Request::SetWithTTL(k, v, ms) => after_set_ex(m, k, v, now, ms as int),
        Request::Get(k) => after_get(m, k, now),
        _ => m,
    }
}

/// An echo answers with its text, byte for byte, whatever the store holds,
/// and leaves the store alone.
pub proof fn echo_replies_its_text(text: Seq<u8>, m: Contents, now: int)
    ensures
        reply_to(Request::Echo(text), m, now) == ReplyModel::SimpleString(text),
        store_after(Request::Echo(text), m, now) == m,
        encoded(reply_to(Request::Echo(text), m, now)) == seq![43u8] + text + delimiter(),
{
}

/// What is not understood gets the error reply and changes nothing, so the
/// commands that follow are answered as if it had not come.
pub proof fn unrecognized_changes_nothing(m: Contents, now: int)
    ensures
        reply_to(Request::Unrecognized, m, now) == ReplyModel::ErrorReply(text_err()),
        store_after(Request::Unrecognized, m, now) == m,
{
}

/// A value written by a plain `set` is what a `get` of the key answers, at
/// whatever times the two come.
pub proof fn get_after_set_replies_value(
    m: Contents,
    key: Seq<u8>,
    value: Seq<u8>,
    at: int,
    later: int,
)
    ensures
        reply_to(
            Request::Get(key),
            store_after(Request::SetValue(key, value), m, at),
            later,
        ) == ReplyModel::SimpleString(value),
{
}

fn pong_bytes() -> (v: Vec<u8>)
    ensures
        v@ == text_pong(),
{
    let mut v: Vec<u8> = Vec::new();
    v.push(80);
    v.push(79);
    v.push(78);
    v.push(71);
    proof {
        assert(v@ =~= text_pong());
    }
    v
}

fn ok_bytes() -> (v: Vec<u8>)
    ensures
        v@ == text_ok(),
{
    let mut v: Vec<u8> = Vec::new();
    v.push(79);
    v.push(75);
    proof {
        assert(v@ =~= text_ok());
    }
    v
}

fn err_bytes() -> (v: Vec<u8>)
    ensures
        v@ == text_err(),
{
    let mut v: Vec<u8> = Vec::new();
    v.push(69);
    v.push(82);
    v.push(82);
    proof {
        assert(v@ =~= text_err());
    }
    v
}

/// Carries out a command at the time `now` and gives its reply.
pub fn dispatch_at(store: &mut Storage, cmd: Command, now: u128) -> (r: Reply)
    requires
        old(store).wf(),
    ensures
        final(store).wf(),
        r@ == reply_to(cmd@, old(store)@, now as int),
        final(store)@ == store_after(cmd@, old(store)@, now as int),
        final(store).time() == old(store).time(),
{
    match cmd {
        Command::Ping => Reply::SimpleString(pong_bytes()),
        Command::Echo(t) => Reply::SimpleString(t),
        Command::SetValue(k, v) => {
            store.set(k, v);
            Reply::SimpleString(ok_bytes())
        },
        Command::SetWithTTL(k, v, ms) => {
            store.set_ex_at(k, v, ms, now);
            Reply::SimpleString(ok_bytes())
        },
        Command::Get(k) => match store.get_at(k.as_slice(), now) {
            Some(v) => Reply::SimpleString(v),
            None => Reply::NilReply,
        },
        Command::Unrecognized => Reply::ErrorReply(err_bytes()),
    }
}

/// Carries out a command at the time that the store reads off its clock.
pub fn dispatch(store: &mut Storage, cmd: Command) -> (r: Reply)
    requires
        old(store).wf(),
    ensures
        final(store).wf(),
        final(store).time() >= old(store).time(),
        r@ == reply_to(cmd@, old(store)@, final(store).time()),
        final(store)@ == store_after(cmd@, old(store)@, final(store).time()),
{
    let now: u128 = store.now();
    dispatch_at(store, cmd, now)
}

/// Answers the bytes of one read at the time `now`: decodes them, carries
/// the command out, and writes the reply.
pub fn respond_at(store: &mut Storage, input: &[u8], now: u128) -> (out: Vec<u8>)
    requires
        old(store).wf(),
    ensures
        final(store).wf(),
        out@ == encoded(reply_to(decoded(input@), old(store)@, now as int)),
        final(store)@ == store_after(decoded(input@), old(store)@, now as int),
        final(store).time() == old(store).time(),
{
    let cmd: Command = decode(input);
    let reply: Reply = dispatch_at(store, cmd, now);
    reply.encode()
}

/// Answers the bytes of one read at the time that the store reads off its
/// clock.
pub fn respond(store: &mut Storage, input: &[u8]) -> (out: Vec<u8>)
    requires
        old(store).wf(),
    ensures
        final(store).wf(),
        final(store).time() >= old(store).time(),
        out@ == encoded(reply_to(decoded(input@), old(store)@, final(store).time())),
        final(store)@ == store_after(decoded(input@), old(store)@, final(store).time()),
{
    let now: u128 = store.now();
    respond_at(store, input, now)
}

/// Where a session stands.
#[derive(Debug, Clone, Copy, PartialEq, Eq, Structural)]
pub enum Phase {
    /// Waiting for the next read.
    Reading,
    /// A reply was handed out and is being written.
    Replying,
    /// The session is over.
    Closed,
}

/// What the transport did.
pub enum Event {
    /// A read gave these bytes; none means that the peer closed.
    Received(Vec<u8>),
    /// The reply was written.
    Sent,
    /// A read or a write failed.
    Failed,
}

/// What the caller is to do next.
#[derive(Debug, PartialEq, Eq)]
pub enum Action {
    /// Read from the transport.
    Read,
    /// Write these bytes to the transport.
    Send(Vec<u8>),
    /// Give the transport up.
    Close,
}

/// The phase that follows an event. Bytes arrive while reading and are
/// answered; a reply that was written leads back to reading. A read of no
/// bytes, a failure, and an event that the phase does not wait for close
/// the session, and a closed session stays closed.
pub open spec fn next_phase(p: Phase, e: Event) -> Phase {
    match (p, e) {
        (Phase::Reading, Event::Received(b)) => if b@.len() > 0 {
            Phase::Replying
        } else {
            Phase::Closed
        },
        (Phase::Replying, Event::Sent) => Phase::Reading,
        _ => Phase::Closed,
    }
}

/// Nothing that a read brings closes a session: bytes, whatever they say,
/// get a reply, and once the reply is written the session reads again.
pub proof fn bytes_never_close_a_session(bytes: Vec<u8>)
    requires
        bytes@.len() > 0,
    ensures
        next_phase(Phase::Reading, Event::Received(bytes)) == Phase::Replying,
        next_phase(Phase::Replying, Event::Sent) == Phase::Reading,
{
}

/// A failure closes the session from every phase, and a closed session
/// stays closed whatever comes.
pub proof fn closed_is_final(p: Phase, e: Event)
    ensures
        next_phase(p, Event::Failed) == Phase::Closed,
        next_phase(Phase::Closed, e) == Phase::Closed,
{
}

/// One connection's state: its store and its phase.
pub struct Session {
    pub store: Storage,
    pub phase: Phase,
}

impl Session {
    /// The store holds no key twice.
    pub open spec fn wf(&self) -> bool {
        self.store.wf()
    }

    /// A session with an empty store, waiting for its first read.
    pub fn new() -> (s: Session)
        ensures
            s.wf(),
            s.phase == Phase::Reading,
            s.store@ == Map::<Seq<u8>, Slot>::empty(),
            s.store.time() == 0,
    {
        Session { store: Storage::new(), phase: Phase::Reading }
    }

    /// Takes an event at the time `now` and says what to do next. Bytes
    /// that arrive while reading get exactly one reply; nothing else
    /// touches the store.
    pub fn step_at(&mut self, event: Event, now: u128) -> (a: Action)
        requires
            old(self).wf(),
        ensures
            final(self).wf(),
            final(self).phase == next_phase(old(self).phase, event),
            final(self).store.time() == old(self).store.time(),
            match final(self).phase {
                Phase::Replying => event matches Event::Received(b) && a matches Action::Send(out)
                    && out@ == encoded(reply_to(decoded(b@), old(self).store@, now as int))
                    && final(self).store@ == store_after(
                    decoded(b@),
                    old(self).store@,
                    now as int,
                ),
                Phase::Reading => a == Action::Read && final(self).store@ == old(self).store@,
                Phase::Closed => a == Action::Close && final(self).store@ == old(self).store@,
            },
    {
        match self.phase {
            Phase::Reading => match event {
                Event::Received(b) => {
                    if b.len() > 0 {
                        let out: Vec<u8> = respond_at(&mut self.store, b.as_slice(), now);
                        self.phase = Phase::Replying;
                        Action::Send(out)
                    } else {
                        self.phase = Phase::Closed;
                        Action::Close
                    }
                },
                _ => {
                    self.phase = Phase::Closed;
                    Action::Close
                },
            },
            Phase::Replying => match event {
                Event::Sent => {
                    self.phase = Phase::Reading;
                    Action::Read
                },
                _ => {
                    self.phase = Phase::Closed;
                    Action::Close
                },
            },
            Phase::Closed => Action::Close,
        }
    }

    /// Takes an event at the time that the store reads off its clock.
    pub fn step(&mut self, event: Event) -> (a: Action)
        requires
            old(self).wf(),
        ensures
            final(self).wf(),
            final(self).phase == next_phase(old(self).phase, event),
            final(self).store.time() >= old(self).store.time(),
            match final(self).phase {
                Phase::Replying => event matches Event::Received(b) && a matches Action::Send(out)
                    && out@ == encoded(
                    reply_to(decoded(b@), old(self).store@, final(self).store.time()),
                ) && final(self).store@ == store_after(
                    decoded(b@),
                    old(self).store@,
                    final(self).store.time(),
                ),
                Phase::Reading => a == Action::Read && final(self).store@ == old(self).store@,
                Phase::Closed => a == Action::Close && final(self).store@ == old(self).store@,
            },
    {
        let now: u128 = self.store.now();
        self.step_at(event, now)
    }
}

} // verus!
