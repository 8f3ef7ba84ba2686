//! One step of the per-connection session loop: parse a request, dispatch it
//! against the store, queue the reply.
//!
//! The loop itself — blocking reads from the socket, writes back to it, and
//! the clock — lives with the caller.  Within one connection requests are
//! processed strictly in arrival order, and exactly one reply is queued per
//! request, except for the acknowledged-but-unimplemented verb, which
//! intentionally queues none.

use vstd::prelude::*;

use crate::proto::resp2::{
    spec_read_message, spec_serialize, ClientMessage, ClientMessageV, ProtocolError, Resp2,
    ServerMessage, ServerMessageV,
};
use crate::store::{get_post, keys_unique, set_post, spec_get_result, Entry, Store};

verus! {

/// The text of the reply to `ping`.
pub open spec fn pong_lit() -> Seq<u8> {
    seq![80u8, 79u8, 78u8, 71u8]
}

/// The text of the reply to a successful `set`.
pub open spec fn ok_lit() -> Seq<u8> {
    seq![79u8, 75u8]
}

fn pong_vec() -> (r: Vec<u8>)
    ensures
        r@ == pong_lit(),
{
    let mut v: Vec<u8> = Vec::new();
    v.push(80);
    v.push(79);
    v.push(78);
    v.push(71);
    proof {
        assert(v@ =~= pong_lit());
    }
    v
}

fn ok_vec() -> (r: Vec<u8>)
    ensures
        r@ == ok_lit(),
{
    let mut v: Vec<u8> = Vec::new();
    v.push(79);
    v.push(75);
    proof {
        assert(v@ =~= ok_lit());
    }
    v
}

/// The reply owed to a request, as a function of the store contents: `PONG`
/// for a ping, the text back for an echo, none for the unimplemented verb,
/// `OK` for a set, and the stored bytes or the null string for a get.
pub open spec fn spec_reply(m: ClientMessageV, s0: Seq<Entry>, now: u64) -> Option<
    ServerMessageV,
> {
    match m {
        ClientMessageV::Ping => Some(ServerMessageV::SimpleString(pong_lit())),
        ClientMessageV::Echo(e) => Some(ServerMessageV::BulkString(e)),
        ClientMessageV::Command(_) => None,
        ClientMessageV::SetCmd(_, _, _) => Some(ServerMessageV::SimpleString(ok_lit())),
        ClientMessageV::Get(k) => match spec_get_result(s0, k, now) {
            Some(v) => Some(ServerMessageV::BulkString(v)),
            None => Some(ServerMessageV::NullString),
        },
    }
}

/// How a request changes the store: `set` and `get` act on it as the store's
/// own contracts say; everything else leaves it untouched.
pub open spec fn store_post(m: ClientMessageV, s0: Seq<Entry>, s1: Seq<Entry>, now: u64) -> bool {
    match m {
        ClientMessageV::SetCmd(k, v, o) => set_post(s0, s1, k, v, o.px, now),
        ClientMessageV::Get(k) => get_post(s0, s1, k, now),
        _ => s1 == s0,
    }
}

/// The view of an optional reply.
pub open spec fn reply_view(r: Option<ServerMessage>) -> Option<ServerMessageV> {
    match r {
        Some(m) => Some(m@),
        None => None,
    }
}

/// Performs one request against the store at time `now` and returns the
/// reply owed for it, or none for the intentionally ignored verb.
pub fn dispatch(store: &mut Store, msg: ClientMessage, now: u64) -> (r: Option<ServerMessage>)
    ensures
        reply_view(r) == spec_reply(msg@, old(store)@, now),
        store_post(msg@, old(store)@, final(store)@, now),
        keys_unique(old(store)@) ==> keys_unique(final(store)@),
{
    match msg {
        ClientMessage::Ping => Some(ServerMessage::SimpleString(pong_vec())),
        ClientMessage::Echo(e) => Some(ServerMessage::BulkString(e)),
        ClientMessage::Command(_) => None,
        ClientMessage::SetCmd(k, v, o) => {
            store.set(k, v, o.px, now);
            Some(ServerMessage::SimpleString(ok_vec()))
        },
        ClientMessage::Get(k) => match store.get(&k, now) {
            Some(v) => Some(ServerMessage::BulkString(v)),
            None => Some(ServerMessage::NullString),
        },
    }
}

/// Runs one step of the session loop: parses one request from the codec's
/// buffered bytes, dispatches it against the store at time `now`, and queues
/// the reply's wire bytes (none for the ignored verb).  On any parse error
/// nothing changes; the caller then feeds more bytes (`Incomplete`), ends the
/// session cleanly (`ClientConnectionClosed`), or fails the connection.
pub fn session_step(protocol: &mut Resp2, store: &mut Store, now: u64) -> (r: Result<
    (),
    ProtocolError,
>)
    ensures
        final(protocol)@.input == old(protocol)@.input,
        keys_unique(old(store)@) ==> keys_unique(final(store)@),
        match spec_read_message(old(protocol)@.input, old(protocol)@.pos) {
            Err(e) => r == Err::<(), ProtocolError>(e) && final(protocol)@ == old(protocol)@
                && final(store)@ == old(store)@,
            Ok(p) => {
                &&& r is Ok
                &&& final(protocol)@.pos == p.1
                &&& store_post(p.0, old(store)@, final(store)@, now)
                &&& final(protocol)@.output == old(protocol)@.output + (match spec_reply(
                    p.0,
                    old(store)@,
                    now,
                ) {
                    None => Seq::<u8>::empty(),
                    Some(sm) => spec_serialize(sm),
                })
            },
        },
{
    let msg = match protocol.read_message() {
        Ok(m) => m,
        Err(e) => {
            return Err(e);
        },
    };
    let reply = dispatch(store, msg, now);
    match reply {
        None => {
            proof {
                assert(old(protocol)@.output + Seq::<u8>::empty() =~= old(protocol)@.output);
            }
            Ok(())
        },
        Some(sm) => match protocol.write_message(&sm) {
            Ok(_) => Ok(()),
            Err(e) => Err(e),
        },
    }
}

} // verus!
