//! Events: what an inbound `recv` message says happened in a chatroom, and the
//! replies that a handler sends back to that chatroom.
use vstd::prelude::*;
use vstd::string::*;
use vstd::utf8::encode_utf8;
use crate::codec::{
    Message, MessageBody, MessageV, append, body_text, decode_sub, find_attr, lookup,
};
use crate::queue::MessageQueue;
use crate::text::{NUL, chars_of, copy_all, latin1, latin1_of, name_is, string_of};

verus! {

/// What kind of thing happened.
#[derive(Clone, Copy, Debug, PartialEq, Eq, Structural)]
pub enum EType {
    Join,
    Part,
    Message,
    Action,
}

/// Something that happened in a chatroom: who did it, and what they said.
#[derive(Clone, Debug)]
pub struct Event {
    pub ty: EType,
    pub chatroom: Vec<u8>,
    pub sender: Vec<u8>,
    pub message: String,
}

pub struct EventV {
    pub ty: EType,
    pub chatroom: Seq<u8>,
    pub sender: Seq<u8>,
    pub message: Seq<char>,
}

impl View for Event {
    type V = EventV;

    open spec fn view(&self) -> EventV {
        EventV {
            ty: self.ty,
            chatroom: self.chatroom@,
            sender: self.sender@,
            message: self.message@,
        }
    }
}

/// The event that a `recv` message stands for, where it stands for one: a `msg` or
/// `action` with a `from` attribute, or a `join` or `part` with an argument, by
/// someone other than `own`. The chatroom is the message's argument.
pub open spec fn classified(m: MessageV, own: Seq<u8>) -> Option<EventV> {
    match m.argument {
        Some(room) => classified_in(m, own, room),
        None => None,
    }
}

/// The event that the body of `m` stands for, where it stands for one, as though it
/// happened in chatroom `room`.
pub open spec fn classified_in(m: MessageV, own: Seq<u8>, room: Seq<u8>) -> Option<EventV> {
    match m.body {
        None => None,
        Some(b) => match decode_sub(b) {
            Err(_) => None,
            Ok(sub) => match sub.name {
                None => None,
                Some(n) => {
                    let text = match sub.body {
                        Some(x) => body_text(x),
                        None => Seq::empty(),
                    };
                    if latin1(n) == "msg"@ || latin1(n) == "action"@ {
                        let ty = if latin1(n) == "msg"@ {
                            EType::Message
                        } else {
                            EType::Action
                        };
                        match lookup(sub.attrs, encode_utf8("from"@)) {
                            None => None,
                            Some(f) => if encode_utf8(f) == own {
                                None
                            } else {
                                Some(
                                    EventV {
                                        ty,
                                        chatroom: room,
                                        sender: encode_utf8(f),
                                        message: text,
                                    },
                                )
                            },
                        }
                    } else if latin1(n) == "join"@ || latin1(n) == "part"@ {
                        let ty = if latin1(n) == "join"@ {
                            EType::Join
                        } else {
                            EType::Part
                        };
                        match sub.argument {
                            None => None,
                            Some(a) => if a == own {
                                None
                            } else {
                                Some(
                                    EventV {
                                        ty,
                                        chatroom: room,
                                        sender: a,
                                        message: Seq::empty(),
                                    },
                                )
                            },
                        }
                    } else {
                        None
                    }
                },
            },
        },
    }
}

/// The first space at or after `i`, or the end.
pub open spec fn space_at(s: Seq<char>, i: int) -> int
    decreases s.len() - i,
{
    if 0 <= i < s.len() && s[i] != ' ' {
        space_at(s, i + 1)
    } else {
        i
    }
}

/// A text cut at its first space: the word before it, and the rest after it.
pub open spec fn word_split(s: Seq<char>) -> (Seq<char>, Seq<char>) {
    let i = space_at(s, 0);
    (
        s.subrange(0, i),
        if i < s.len() {
            s.subrange(i + 1, s.len() as int)
        } else {
            Seq::empty()
        },
    )
}

/// Cuts a text at its first space.
pub fn word<'a>(s: &'a str) -> (r: (&'a str, &'a str))
    ensures
        (r.0@, r.1@) == word_split(s@),
{
    let n = s.unicode_len();
    let mut i: usize = 0;
    while i < n && s.get_char(i) != ' '
        invariant
            n == s@.len(),
            i <= n,
            space_at(s@, 0) == space_at(s@, i as int),
        decreases n - i,
    {
        i = i + 1;
    }
    let first = s.substring_char(0, i);
    if i < n {
        (first, s.substring_char(i + 1, n))
    } else {
        let rest = s.substring_char(n, n);
        assert(rest@ =~= Seq::<char>::empty());
        (first, rest)
    }
}

/// The body of a reply: the text in a `msg main` submessage.
pub open spec fn reply_body(text: Seq<char>) -> Seq<u8> {
    encode_utf8("msg main\n\n"@) + encode_utf8(text) + seq![NUL]
}

/// The `send` message that says `text` in chatroom `room`.
pub open spec fn reply(room: Seq<u8>, text: Seq<char>) -> MessageV {
    MessageV {
        name: encode_utf8("send"@),
        argument: Some(room),
        attrs: Seq::empty(),
        body: Some(reply_body(text)),
    }
}

/// The UTF-8 bytes of a text.
pub fn bytes_of(s: &str) -> (r: Vec<u8>)
    ensures
        r@ == encode_utf8(s@),
{
    copy_all(s.as_bytes())
}

impl Event {
    /// Reads the event out of a `recv` message, where it stands for one (see `classified`).
    pub fn classify(msg: &Message, own: &[u8]) -> (r: Option<Event>)
        ensures
            match r {
                Some(e) => classified(msg@, own@) == Some(e@),
                None => classified(msg@, own@) is None,
            },
    {
        match &msg.argument {
            Some(a) => Event::classify_in(msg, own, a.as_slice()),
            None => None,
        }
    }

    /// Reads the event out of a `recv` message as though it happened in chatroom
    /// `room` (see `classified_in`).
    pub fn classify_in(msg: &Message, own: &[u8], room: &[u8]) -> (r: Option<Event>)
        ensures
            match r {
                Some(e) => classified_in(msg@, own@, room@) == Some(e@),
                None => classified_in(msg@, own@, room@) is None,
            },
    {
        let sub = match msg.submessage() {
            None => return None,
            Some(s) => s,
        };
        let n = match &sub.name {
            None => return None,
            Some(n) => n,
        };
        let room = copy_all(room);
        let text = match &sub.body {
            Some(b) => b.to_string(),
            None => string_of(&Vec::new()),
        };
        let is_msg = name_is(n.as_slice(), "msg");
        let is_action = name_is(n.as_slice(), "action");
        let is_join = name_is(n.as_slice(), "join");
        let is_part = name_is(n.as_slice(), "part");
        if is_msg || is_action {
            let ty = if is_msg {
                EType::Message
            } else {
                EType::Action
            };
            let key = bytes_of("from");
            match find_attr(&sub.attrs, key.as_slice()) {
                None => None,
                Some(f) => {
                    let sender = bytes_of(f.as_str());
                    if crate::text::bytes_eq(sender.as_slice(), own) {
                        None
                    } else {
                        Some(Event { ty, chatroom: room, sender, message: text })
                    }
                },
            }
        } else if is_join || is_part {
            let ty = if is_join {
                EType::Join
            } else {
                EType::Part
            };
            match &sub.argument {
                None => None,
                Some(a) => if crate::text::bytes_eq(a.as_slice(), own) {
                    None
                } else {
                    let empty: Vec<char> = Vec::new();
                    Some(
                        Event {
                            ty,
                            chatroom: room,
                            sender: copy_all(a.as_slice()),
                            message: string_of(&empty),
                        },
                    )
                },
            }
        } else {
            None
        }
    }

    /// The reply that says `text` in this event's chatroom.
    pub fn mk(&self, text: &str) -> (r: Message)
        ensures
            r@ == reply(self@.chatroom, text@),
    {
        let mut body = bytes_of("msg main\n\n");
        append(&mut body, text.as_bytes());
        body.push(NUL);
        assert(body@ =~= reply_body(text@));
        let r = Message {
            name: bytes_of("send"),
            argument: Some(copy_all(self.chatroom.as_slice())),
            attrs: Vec::new(),
            body: Some(MessageBody(body)),
        };
        assert(r@.attrs =~= Seq::<(Seq<u8>, Seq<char>)>::empty());
        r
    }

    /// The message after its first word (the command).
    pub fn content(&self) -> (r: &str)
        ensures
            r@ == word_split(self@.message).1,
    {
        word(self.message.as_str()).1
    }

    /// Takes back a reply scheduled at `at`, where it has not been sent yet.
    pub fn cancel(&self, mq: &mut MessageQueue, at: u64) -> (r: Option<Message>)
        requires
            old(mq).wf(),
        ensures
            final(mq).wf(),
            final(mq)@ == old(mq)@.remove(at),
            match r {
                Some(m) => old(mq)@.contains_key(at) && m == old(mq)@[at],
                None => !old(mq)@.contains_key(at),
            },
    {
        mq.unschedule(at)
    }

    /// Replies at `at`; the handle is `at`.
    pub fn respond_at(&self, mq: &mut MessageQueue, text: &str, at: u64) -> (r: u64)
        requires
            old(mq).wf(),
        ensures
            final(mq).wf(),
            r == at,
            final(mq)@ == old(mq)@.insert(at, final(mq)@[at]),
            final(mq)@[at]@ == reply(self@.chatroom, text@),
            final(mq).msgs() == old(mq).msgs().insert(at, reply(self@.chatroom, text@)),
    {
        let m = self.mk(text);
        let r = mq.schedule_at(m, at);
        assert(mq.msgs() =~= old(mq).msgs().insert(at, reply(self@.chatroom, text@)));
        r
    }

    /// Replies now.
    pub fn respond(&self, mq: &mut MessageQueue, now: u64, text: &str) -> (r: u64)
        requires
            old(mq).wf(),
        ensures
            final(mq).wf(),
            r == now,
            final(mq)@ == old(mq)@.insert(now, final(mq)@[now]),
            final(mq)@[now]@ == reply(self@.chatroom, text@),
    {
        self.respond_at(mq, text, now)
    }

    /// Replies `delay` after `now`.
    pub fn respond_in(&self, mq: &mut MessageQueue, now: u64, text: &str, delay: u64) -> (r: u64)
        requires
            old(mq).wf(),
            now + delay <= u64::MAX,
        ensures
            final(mq).wf(),
            r == now + delay,
            final(mq)@ == old(mq)@.insert(r, final(mq)@[r]),
            final(mq)@[r]@ == reply(self@.chatroom, text@),
    {
        self.respond_at(mq, text, now + delay)
    }

    /// Replies now, addressed to the sender: `sender: text`.
    pub fn respond_highlight(&self, mq: &mut MessageQueue, now: u64, text: &str) -> (r: u64)
        requires
            old(mq).wf(),
        ensures
            final(mq).wf(),
            r == now,
            final(mq)@ == old(mq)@.insert(now, final(mq)@[now]),
            final(mq)@[now]@ == reply(self@.chatroom, latin1(self@.sender) + ": "@ + text@),
    {
        let mut cs = latin1_of(self.sender.as_slice());
        let mut sep = chars_of(": ");
        let mut t = chars_of(text);
        cs.append(&mut sep);
        cs.append(&mut t);
        let full = string_of(&cs);
        self.respond(mq, now, full.as_str())
    }
}

} // verus!
