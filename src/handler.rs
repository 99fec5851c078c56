//! What the bridge does with each inbound message, by the message's name.
use vstd::prelude::*;
use vstd::utf8::encode_utf8;
use crate::codec::{Message, MessageV, lookup};
use crate::event::{Event, bytes_of, classified, classified_in};
use crate::hooks::{HookStorage, HooksV, acted, apply_all, audience, reactions};
use crate::queue::MessageQueue;
use crate::wordwar::{WallTime, local_time};
use crate::text::{latin1, name_is};

verus! {

/// What became of an inbound message.
#[derive(Clone, Copy, Debug, PartialEq, Eq, Structural)]
pub enum Inbound {
    /// A fixed answer was queued.
    Answered,
    /// The server refused the login.
    LoginFailed,
    /// An event was read from it and handed to the registry.
    Dispatched,
    /// A `recv` of an event without a chatroom: the server broke the protocol.
    NoChatroom,
    /// Nothing is done with it.
    Ignored,
}

/// The chatroom that the bridge joins once logged in.
pub open spec fn home_room() -> Seq<u8> {
    encode_utf8("chat:devintesting"@)
}

/// The answer to a server message that has a fixed one: `pong` to `ping`, a login
/// (as `own`, with token `pk`) to the server's greeting, and a join of the home
/// chatroom to a successful login.
pub open spec fn fixed_answer(m: MessageV, own: Seq<char>, pk: Seq<char>) -> Option<MessageV> {
    if latin1(m.name) == "ping"@ {
        Some(MessageV { name: encode_utf8("pong"@), argument: None, attrs: Seq::empty(), body: None })
    } else if latin1(m.name) == "dAmnServer"@ {
        Some(
            MessageV {
                name: encode_utf8("login"@),
                argument: Some(encode_utf8(own)),
                attrs: seq![(encode_utf8("pk"@), pk)],
                body: None,
            },
        )
    } else if latin1(m.name) == "login"@ && lookup(m.attrs, encode_utf8("e"@)) == Some("ok"@) {
        Some(
            MessageV {
                name: encode_utf8("join"@),
                argument: Some(home_room()),
                attrs: Seq::empty(),
                body: None,
            },
        )
    } else {
        None
    }
}

/// Answers an inbound message: fixed answers are queued now; a `recv` is read as an
/// event and dispatched to the registry; anything else changes nothing.
pub fn respond(
    msg: &Message,
    mq: &mut MessageQueue,
    hooks: &mut HookStorage,
    now: u64,
    wall: WallTime,
    own: &str,
    pk: &str,
) -> (r: Inbound)
    requires
        old(mq).wf(),
        wall.wf(),
    ensures
        final(mq).wf(),
        fixed_answer(msg@, own@, pk@) matches Some(a) ==> r == Inbound::Answered
            && final(mq).msgs() == old(mq).msgs().insert(now, a) && final(hooks)@ == old(hooks)@,
        fixed_answer(msg@, own@, pk@) is None && latin1(msg@.name) == "recv"@
            && msg@.argument is None ==> r == (if classified_in(
            msg@,
            encode_utf8(own@),
            Seq::empty(),
        ) is Some {
            Inbound::NoChatroom
        } else {
            Inbound::Ignored
        }),
        fixed_answer(msg@, own@, pk@) is None && latin1(msg@.name) == "recv"@
            && msg@.argument is Some ==> (match classified(msg@, encode_utf8(own@)) {
            None => r == Inbound::Ignored,
            Some(ev) => {
                let x = reactions(audience(old(hooks)@, ev.ty), ev, now, wall, own@, old(hooks)@.state);
                &&& r == Inbound::Dispatched
                &&& final(hooks)@ == apply_all(HooksV { state: x.state, ..old(hooks)@ }, x.hooks)
                &&& final(mq).msgs() == acted(old(mq).msgs(), ev.chatroom, x.acts)
            },
        }),
        fixed_answer(msg@, own@, pk@) is None && latin1(msg@.name) != "recv"@ ==> r == (if latin1(
            msg@.name,
        ) == "login"@ {
            Inbound::LoginFailed
        } else {
            Inbound::Ignored
        }),
        r != Inbound::Dispatched && r != Inbound::Answered ==> final(mq)@ == old(mq)@
            && final(hooks)@ == old(hooks)@,
{
    let name = msg.name.as_slice();
    if name_is(name, "ping") {
        let pong = Message { name: bytes_of("pong"), argument: None, attrs: Vec::new(), body: None };
        assert(pong@.attrs =~= Seq::<(Seq<u8>, Seq<char>)>::empty());
        mq.push(pong, now);
        assert(mq.msgs() =~= old(mq).msgs().insert(now, pong@));
        return Inbound::Answered;
    }
    if name_is(name, "dAmnServer") {
        let mut attrs: Vec<(Vec<u8>, String)> = Vec::new();
        attrs.push((bytes_of("pk"), pk.to_owned()));
        let login = Message {
            name: bytes_of("login"),
            argument: Some(bytes_of(own)),
            attrs,
            body: None,
        };
        assert(login@.attrs =~= seq![(encode_utf8("pk"@), pk@)]);
        mq.push(login, now);
        assert(mq.msgs() =~= old(mq).msgs().insert(now, login@));
        return Inbound::Answered;
    }
    if name_is(name, "login") {
        let e = bytes_of("e");
        if msg.has_attr_of(e.as_slice(), "ok") {
            let join = Message {
                name: bytes_of("join"),
                argument: Some(bytes_of("chat:devintesting")),
                attrs: Vec::new(),
                body: None,
            };
            assert(join@.attrs =~= Seq::<(Seq<u8>, Seq<char>)>::empty());
            mq.push(join, now);
            assert(mq.msgs() =~= old(mq).msgs().insert(now, join@));
            return Inbound::Answered;
        }
        proof {
            reveal_strlit("login");
            reveal_strlit("recv");
            assert("login"@.len() != "recv"@.len());
        }
        return Inbound::LoginFailed;
    }
    if name_is(name, "recv") {
        let me = bytes_of(own);
        if msg.argument.is_none() {
            let nowhere: Vec<u8> = Vec::new();
            assert(nowhere@ =~= Seq::<u8>::empty());
            return if Event::classify_in(msg, me.as_slice(), nowhere.as_slice()).is_some() {
                Inbound::NoChatroom
            } else {
                Inbound::Ignored
            };
        }
        match Event::classify(msg, me.as_slice()) {
            None => Inbound::Ignored,
            Some(ev) => {
                hooks.dispatch(&ev, mq, now, wall, own);
                Inbound::Dispatched
            },
        }
    } else {
        Inbound::Ignored
    }
}

/// Answers an inbound message as `respond` does, at the local time of day that the
/// clock gives now (which only word wars read).
pub fn respond_now(
    msg: &Message,
    mq: &mut MessageQueue,
    hooks: &mut HookStorage,
    now: u64,
    own: &str,
    pk: &str,
) -> (r: Inbound)
    requires
        old(mq).wf(),
    ensures
        final(mq).wf(),
        fixed_answer(msg@, own@, pk@) matches Some(a) ==> r == Inbound::Answered
            && final(mq).msgs() == old(mq).msgs().insert(now, a) && final(hooks)@ == old(hooks)@,
        fixed_answer(msg@, own@, pk@) is None && latin1(msg@.name) == "recv"@
            && msg@.argument is None ==> r == (if classified_in(
            msg@,
            encode_utf8(own@),
            Seq::empty(),
        ) is Some {
            Inbound::NoChatroom
        } else {
            Inbound::Ignored
        }),
        fixed_answer(msg@, own@, pk@) is None && latin1(msg@.name) == "recv"@
            && msg@.argument is Some ==> match classified(msg@, encode_utf8(own@)) {
            None => r == Inbound::Ignored,
            Some(ev) => r == Inbound::Dispatched && exists|wall: WallTime|
                #![trigger reactions(audience(old(hooks)@, ev.ty), ev, now, wall, own@, old(hooks)@.state)]
                wall.wf() && ({
                    let x = reactions(
                        audience(old(hooks)@, ev.ty),
                        ev,
                        now,
                        wall,
                        own@,
                        old(hooks)@.state,
                    );
                    &&& final(hooks)@ == apply_all(HooksV { state: x.state, ..old(hooks)@ }, x.hooks)
                    &&& final(mq).msgs() == acted(old(mq).msgs(), ev.chatroom, x.acts)
                }),
        },
        fixed_answer(msg@, own@, pk@) is None && latin1(msg@.name) != "recv"@ ==> r == (if latin1(
            msg@.name,
        ) == "login"@ {
            Inbound::LoginFailed
        } else {
            Inbound::Ignored
        }),
        r != Inbound::Dispatched && r != Inbound::Answered ==> final(mq)@ == old(mq)@
            && final(hooks)@ == old(hooks)@,
{
    let wall = local_time();
    let r = respond(msg, mq, hooks, now, wall, own, pk);
    proof {
        if let Some(ev) = classified(msg@, encode_utf8(own@)) {
            let _ = reactions(audience(old(hooks)@, ev.ty), ev, now, wall, own@, old(hooks)@.state);
        }
    }
    r
}

} // verus!
