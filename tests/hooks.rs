use marsipan::codec::{parse, MessageBody};
use marsipan::event::{word, EType, Event};
use marsipan::hooks::{
    decimal_of, default_cmds, parse_u64, run, triggered, Act, Command, Hook, HookStorage, State,
    M,
};
use marsipan::wordwar::WallTime;

const WALL: WallTime = WallTime { minute: 10, second: 30 };
use marsipan::handler::{respond, Inbound};
use marsipan::queue::MessageQueue;

fn chat(text: &str) -> Event {
    Event {
        ty: EType::Message,
        chatroom: b"chat:x".to_vec(),
        sender: b"bob".to_vec(),
        message: text.to_string(),
    }
}

#[test]
fn trigger_gated_ping() {
    assert!(triggered("!ping", "ping", "participle"));
    assert!(triggered("participle: ping", "ping", "participle"));
    assert!(!triggered("pingpong", "ping", "participle"));
    assert!(!triggered("ping", "ping", "participle"));
    assert!(triggered("!pingpong", "ping", "participle"));
    assert!(!triggered("!pong", "ping", "participle"));
    assert!(!triggered("participle ping", "ping", "participle"));
}

#[test]
fn words() {
    assert_eq!(word("set hello there"), ("set", "hello there"));
    assert_eq!(word("get"), ("get", ""));
    assert_eq!(word(""), ("", ""));
    assert_eq!(chat("!welcome set x").content(), "set x");
}

#[test]
fn replies_go_to_the_chatroom() {
    let ev = chat("!ping");
    let m = ev.mk("hi");
    assert_eq!(m.as_bytes(), b"send chat:x\n\nmsg main\n\nhi\0".to_vec());
    let mut q = MessageQueue::new();
    assert_eq!(ev.respond_in(&mut q, 10, "later", 5), 15);
    assert_eq!(ev.respond_highlight(&mut q, 10, "yo"), 10);
    let first = q.fire();
    assert_eq!(first.body, Some(MessageBody(b"msg main\n\nbob: yo\0".to_vec())));
    assert!(ev.cancel(&mut q, 15).is_some());
    assert!(ev.cancel(&mut q, 15).is_none());
}

#[test]
fn foo_swaps_for_bar() {
    let mut h = HookStorage::new();
    h.apply(vec![Hook::register("echo", Command::Echo), Hook::register("ping", Command::Ping)]);
    h.apply(vec![Hook::register("foo", Command::Foo)]);
    assert_eq!(h.msg_iter().len(), 3);
    let mut q = MessageQueue::new();
    h.dispatch(&chat("!foo"), &mut q, 7, WALL, "participle");
    let words: Vec<Option<String>> = h.msg_iter().iter().map(|e| e.1.clone()).collect();
    assert_eq!(
        words,
        vec![Some("echo".to_string()), Some("ping".to_string()), Some("bar".to_string())]
    );
    let out = q.fire();
    assert_eq!(out.as_bytes(), b"send chat:x\n\nmsg main\n\nDisabling !foo and enabling !bar\0".to_vec());
    h.dispatch(&chat("!foo"), &mut q, 8, WALL, "participle");
    assert!(q.is_empty());
}

#[test]
fn echo_and_part() {
    let mut h = HookStorage::new();
    h.apply(default_cmds());
    let mut q = MessageQueue::new();
    h.dispatch(&chat("!echo hello"), &mut q, 1, WALL, "participle");
    let m = q.fire();
    assert_eq!(m.body, Some(MessageBody(b"msg main\n\nhello\0".to_vec())));
    let mut part = chat("!echo hello");
    part.ty = EType::Part;
    h.dispatch(&part, &mut q, 2, WALL, "participle");
    assert!(q.is_empty());
    h.dispatch(&chat("!echo"), &mut q, 3, WALL, "participle");
    assert!(q.is_empty());
}

fn said(a: &Act) -> (String, u64) {
    match a {
        Act::Say(t, at) => (t.clone(), *at),
        Act::Cancel(at) => (String::from("cancel"), *at),
    }
}

#[test]
fn ping_waits_for_its_ring() {
    let mut st = State::new();
    let (hooks, acts) = run(Command::Ping, 0, &chat("!ping"), 100, WALL, "participle", &mut st);
    assert_eq!(acts.len(), 1);
    assert_eq!(said(&acts[0]), ("\u{1f514}?".to_string(), 100));
    assert!(matches!(hooks[0], Hook::AddMessage(Command::PingWait(100))));
    let (hooks, acts) =
        run(Command::PingWait(100), 4, &chat("\u{1f514}?"), 142, WALL, "participle", &mut st);
    assert_eq!(said(&acts[0]), ("\u{1f514}! (42ms)".to_string(), 142));
    assert!(matches!(hooks[0], Hook::DropMessage(M(4))));
    let (hooks, acts) =
        run(Command::PingWait(100), 4, &chat("other"), 142, WALL, "participle", &mut st);
    assert!(hooks.is_empty() && acts.is_empty());
}

#[test]
fn sleep_then_wake() {
    let mut h = HookStorage::new();
    h.apply(default_cmds());
    let mut q = MessageQueue::new();
    h.dispatch(&chat("!sleep 5"), &mut q, 1000, WALL, "participle");
    let first = q.fire();
    assert_eq!(
        first.body,
        Some(MessageBody(b"msg main\n\nSleeping for 5 seconds. ZZZzzz...\0".to_vec()))
    );
    assert_eq!(q.timer_delay(1000), Some(5000));
    h.dispatch(&chat("!wakeup"), &mut q, 2000, WALL, "participle");
    let woke = q.fire();
    assert_eq!(woke.body, Some(MessageBody(b"msg main\n\nOk, I'm awake!\0".to_vec())));
    assert!(q.is_empty());
    h.dispatch(&chat("!wakeup"), &mut q, 3000, WALL, "participle");
    let not = q.fire();
    assert_eq!(not.body, Some(MessageBody(b"msg main\n\nI wasn't sleeping!\0".to_vec())));
    h.dispatch(&chat("!sleep soon"), &mut q, 4000, WALL, "participle");
    let bad = q.fire();
    assert_eq!(
        bad.body,
        Some(MessageBody(b"msg main\n\nThat doesn't look like a number.\0".to_vec()))
    );
    let mut st = State::new();
    st.sleeping = Some(9);
    let (_, acts) = run(Command::Sleep, 0, &chat("!sleep"), 0, WALL, "participle", &mut st);
    assert!(acts.is_empty());
    assert_eq!(st.sleeping, Some(9));
}

#[test]
fn numbers_read_like_from_str() {
    let n = |s: &str| parse_u64(&s.chars().collect());
    assert_eq!(n("42"), Some(42));
    assert_eq!(n("+7"), Some(7));
    assert_eq!(n(""), None);
    assert_eq!(n("+"), None);
    assert_eq!(n("4a"), None);
    assert_eq!(n("-1"), None);
    assert_eq!(n("18446744073709551615"), Some(u64::MAX));
    assert_eq!(n("18446744073709551616"), None);
    for s in ["0", "+12", "x", "99999999999999999999"] {
        assert_eq!(n(s), s.parse::<u64>().ok());
    }
}

#[test]
fn handles_are_fresh_and_dropped() {
    let mut h = HookStorage::new();
    h.apply(vec![Hook::register_msg(Command::Echo), Hook::join(Command::Echo)]);
    assert_eq!(h.msg_iter()[0].0, 0);
    assert_eq!(h.join_iter()[0].0, 1);
    h.apply(vec![Hook::unregister(M(0)), Hook::DropJoin(marsipan::hooks::J(1))]);
    assert!(h.msg_iter().is_empty());
    assert!(h.join_iter().is_empty());
    assert_eq!(M(3).un(), 3);
}

#[test]
fn decimals() {
    let s: String = decimal_of(0).into_iter().collect();
    assert_eq!(s, "0");
    let s: String = decimal_of(1907).into_iter().collect();
    assert_eq!(s, "1907");
    let s: String = decimal_of(u64::MAX).into_iter().collect();
    assert_eq!(s, u64::MAX.to_string());
    let _ = parse(b"x\n\0").unwrap();
}

#[test]
fn inbound_messages_get_their_answers() {
    let mut h = HookStorage::new();
    h.apply(default_cmds());
    let mut q = MessageQueue::new();
    let ping = parse(b"ping\n\0").unwrap();
    assert_eq!(respond(&ping, &mut q, &mut h, 5, WALL, "participle", "k"), Inbound::Answered);
    assert_eq!(q.fire().as_bytes(), b"pong\n\0".to_vec());
    let hello = parse(b"dAmnServer 0.3\n\0").unwrap();
    assert_eq!(respond(&hello, &mut q, &mut h, 5, WALL, "participle", "k"), Inbound::Answered);
    assert_eq!(q.fire().as_bytes(), b"login participle\npk=k\n\0".to_vec());
    let ok = parse(b"login participle\ne=ok\n\0").unwrap();
    assert_eq!(respond(&ok, &mut q, &mut h, 5, WALL, "participle", "k"), Inbound::Answered);
    assert_eq!(q.fire().as_bytes(), b"join chat:devintesting\n\0".to_vec());
    let bad = parse(b"login participle\ne=authentication failed\n\0").unwrap();
    assert_eq!(respond(&bad, &mut q, &mut h, 5, WALL, "participle", "k"), Inbound::LoginFailed);
    assert!(q.is_empty());
    let recv = parse(b"recv chat:x\n\nmsg main\nfrom=bob\n\n!echo again\0").unwrap();
    assert_eq!(respond(&recv, &mut q, &mut h, 5, WALL, "participle", "k"), Inbound::Dispatched);
    assert_eq!(q.fire().as_bytes(), b"send chat:x\n\nmsg main\n\nagain\0".to_vec());
    let lost = parse(b"recv\n\nmsg main\nfrom=bob\n\nhi\0").unwrap();
    assert_eq!(respond(&lost, &mut q, &mut h, 5, WALL, "participle", "k"), Inbound::NoChatroom);
    let stray = parse(b"recv\n\nkicked bob\nby=carol\n\0").unwrap();
    assert_eq!(respond(&stray, &mut q, &mut h, 5, WALL, "participle", "k"), Inbound::Ignored);
    let bare = parse(b"recv\n\0").unwrap();
    assert_eq!(respond(&bare, &mut q, &mut h, 5, WALL, "participle", "k"), Inbound::Ignored);
    let other = parse(b"property chat:x\np=topic\n\0").unwrap();
    assert_eq!(respond(&other, &mut q, &mut h, 5, WALL, "participle", "k"), Inbound::Ignored);
    assert!(q.is_empty());
}

#[test]
fn commands_are_listed() {
    let mut h = HookStorage::new();
    h.apply(default_cmds());
    let mut q = MessageQueue::new();
    h.dispatch(&chat("!commands"), &mut q, 1, WALL, "participle");
    let m = q.fire();
    assert_eq!(
        m.body,
        Some(MessageBody(
            b"msg main\n\nbob: Commands are: about, commands, echo, ping, sleep, wakeup, welcome, ww\0".to_vec()
        ))
    );
}

#[test]
fn about_names_the_compiler() {
    let mut h = HookStorage::new();
    h.apply(default_cmds());
    let mut q = MessageQueue::new();
    h.dispatch(&chat("!about"), &mut q, 1, WALL, "participle");
    let m = q.fire();
    let expected = format!(
        "msg main\n\n\u{1f370} <b>marsipan v0.1.0</b> built with rustc-{}\0",
        rustc_version_runtime::version()
    );
    assert_eq!(m.body, Some(MessageBody(expected.into_bytes())));
}
