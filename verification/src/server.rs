//! One frame from the wire to the reply: decoding, dispatch, the store and
//! encoding put together.

use crate::codec::{decode, decoded, encode, encode_spec, utf8_lossy, DecodeError};
use crate::codec::{law_decoded_is_unbroken, RequestView};
use crate::dispatch::{dispatch, dispatched, reply_of, reply_text};
use crate::dispatch::{Action, ActionView, DispatchError};
use crate::store::{next_store, outcome_of, Store, StoreView};
use crate::text::unbroken;
use vstd::prelude::*;
use vstd::string::*;
use vstd::utf8::{decode_utf8, valid_utf8};

verus! {

/// Why a frame was turned away.
#[derive(Debug, Clone, Copy, PartialEq, Eq, Structural)]
pub enum Rejected {
    /// The frame was not decoded.
    Frame(DecodeError),
    /// The request was decoded and not carried out.
    Request(DispatchError),
}

/// What is done with the frame that reads `text`.
pub open spec fn handled(text: Seq<char>) -> Result<ActionView, Rejected> {
    match decoded(text) {
        Ok(request) => match dispatched(request) {
            Ok(action) => Ok(action),
            Err(e) => Err(Rejected::Request(e)),
        },
        Err(e) => Err(Rejected::Frame(e)),
    }
}

/// The text of the reply that `action` leads to, with the store as it is
/// when the action is taken at `now`.
pub open spec fn reply_to(store: StoreView, action: ActionView, now: u128) -> Seq<char> {
    match action {
        ActionView::Reply(message) => message,
        ActionView::Post(_, message) => message,
        ActionView::Ask(command) => reply_of(outcome_of(store, command, now)),
    }
}

/// The store after `action` has been taken at `now`.
pub open spec fn store_after(store: StoreView, action: ActionView, now: u128) -> StoreView {
    match action {
        ActionView::Reply(_) => store,
        ActionView::Post(command, _) => next_store(store, command, now),
        ActionView::Ask(command) => next_store(store, command, now),
    }
}

/// Whether the result of handling a frame is what `expected` says.
pub open spec fn handling_is(
    action: Result<Action, Rejected>,
    expected: Result<ActionView, Rejected>,
) -> bool {
    match action {
        Ok(a) => expected == Ok::<ActionView, Rejected>(a@),
        Err(e) => expected == Err::<ActionView, Rejected>(e),
    }
}

/// Whether `frame` and the store that `after` stands for are what serving a
/// frame gives, at `now` and with the store that `before` stands for, where
/// handling the frame gives `expected`.
pub open spec fn serving_is(
    frame: Result<Vec<u8>, Rejected>,
    before: StoreView,
    after: StoreView,
    now: u128,
    expected: Result<ActionView, Rejected>,
) -> bool {
    match expected {
        Ok(action) => {
            &&& frame is Ok
            &&& frame->Ok_0@ == encode_spec(reply_to(before, action, now))
            &&& after == store_after(before, action, now)
        },
        Err(e) => frame == Err::<Vec<u8>, Rejected>(e) && after == before,
    }
}

/// Decodes one inbound frame and decides what is done with it.
pub fn handle_frame(data: &[u8]) -> (action: Result<Action, Rejected>)
    ensures
        handling_is(action, handled(utf8_lossy(data@))),
        valid_utf8(data@) ==> handling_is(action, handled(decode_utf8(data@))),
{
    match decode(data) {
        Ok(request) => match dispatch(&request) {
            Ok(action) => Ok(action),
            Err(e) => Err(Rejected::Request(e)),
        },
        Err(e) => Err(Rejected::Frame(e)),
    }
}

/// Takes `action` on `store` at `now` and gives the frame that answers it.
pub fn perform(store: &mut Store, action: Action, now: u128) -> (frame: Vec<u8>)
    ensures
        frame@ == encode_spec(reply_to(old(store)@, action@, now)),
        final(store)@ == store_after(old(store)@, action@, now),
{
    match action {
        Action::Reply(message) => encode(message.as_str()),
        Action::Post(command, message) => {
            store.apply(command, now);
            encode(message.as_str())
        },
        Action::Ask(command) => {
            let outcome = store.apply(command, now);
            let message = reply_text(&outcome);
            encode(message.as_str())
        },
    }
}

/// Serves one inbound frame at `now`: the frame is decoded, the request is
/// carried out on `store`, and the reply comes back encoded. A frame that is
/// turned away leaves the store as it was.
pub fn serve(store: &mut Store, data: &[u8], now: u128) -> (frame: Result<Vec<u8>, Rejected>)
    ensures
        serving_is(frame, old(store)@, final(store)@, now, handled(utf8_lossy(data@))),
        valid_utf8(data@) ==> serving_is(
            frame,
            old(store)@,
            final(store)@,
            now,
            handled(decode_utf8(data@)),
        ),
{
    match handle_frame(data) {
        Ok(action) => Ok(perform(store, action, now)),
        Err(e) => Err(e),
    }
}

// ---------------------------------------------------------------------------
// Laws
// ---------------------------------------------------------------------------

/// Whether no value that `store` holds has a line break in it.
pub open spec fn values_unbroken(store: StoreView) -> bool {
    forall|key: Seq<char>| store.contains_key(key) ==> unbroken(#[trigger] store[key].value)
}

/// Framing is kept. Where no value in the store holds a line break, the
/// reply to any frame holds none, so that it goes out as one line, and no
/// value in the store holds one afterwards. A store that began empty and was
/// written over the wire alone therefore never breaks a reply in two.
pub proof fn law_replies_are_unbroken(store: StoreView, text: Seq<char>, now: u128)
    requires
        values_unbroken(store),
    ensures
        handled(text) matches Ok(action) ==> {
            &&& unbroken(reply_to(store, action, now))
            &&& values_unbroken(store_after(store, action, now))
        },
{
    reveal_strlit("PONG");
    reveal_strlit("OK");
    reveal_strlit("$-1");
    law_decoded_is_unbroken(text);
    match decoded(text) {
        Ok(RequestView::Array(items)) => {
            if items.len() > 2 {
                assert(unbroken(items[2]));
            }
            if items.len() > 4 {
                assert(unbroken(items[4]));
            }
        },
        _ => {},
    }
}

} // verus!
