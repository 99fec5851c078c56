use marsipan::event::{EType, Event};
use marsipan::hooks::{default_cmds, run, Act, Command, Hook, HookStorage, State};
use marsipan::queue::MessageQueue;
use marsipan::wordwar::{run_war, WallTime};

const WALL: WallTime = WallTime { minute: 10, second: 30 };

fn chat(from: &str, text: &str) -> Event {
    Event {
        ty: EType::Message,
        chatroom: b"chat:x".to_vec(),
        sender: from.as_bytes().to_vec(),
        message: text.to_string(),
    }
}

fn shown(acts: &[Act]) -> Vec<(String, u64)> {
    acts.iter()
        .map(|a| match a {
            Act::Say(t, at) => (t.clone(), *at),
            Act::Cancel(at) => (String::from("cancel"), *at),
        })
        .collect()
}

fn s(t: &str, at: u64) -> (String, u64) {
    (t.to_string(), at)
}

#[test]
fn war_scheduled_joined_and_left() {
    let mut st = State::new();
    let (hooks, acts) = run_war(Command::WordWar, 9, &chat("bob", "!ww at :20 for 15"), 0, WALL, &mut st);
    assert_eq!(
        shown(&acts),
        vec![
            s("bob: Scheduled war with ID #0.", 0),
            s("bob: <b>START WRITING!</b>", 570_000),
            s("bob: <b>STOP WRITING!</b>", 1_470_000),
        ]
    );
    assert!(matches!(&hooks[0], Hook::AddCommand(w, Command::WarIn(0, 570_000)) if w == "in"));
    assert!(matches!(&hooks[1], Hook::AddCommand(w, Command::WarOut(0, 1_470_000)) if w == "out"));
    assert_eq!(st.wars.len(), 1);
    assert_eq!(st.next_war, 1);

    let (_, acts) = run_war(Command::WarIn(0, 570_000), 3, &chat("alice", "!in"), 1000, WALL, &mut st);
    assert_eq!(
        shown(&acts),
        vec![
            s("cancel", 570_000),
            s("cancel", 1_470_000),
            s("bob, alice: <b>START WRITING!</b>", 570_000),
            s("bob, alice: <b>STOP WRITING!</b>", 1_470_000),
            s("alice: You've been added to war #0.", 1000),
        ]
    );
    let (_, acts) = run_war(Command::WarIn(0, 570_000), 3, &chat("alice", "!in"), 1000, WALL, &mut st);
    assert_eq!(shown(&acts), vec![s("alice: You're already in this war.", 1000)]);

    let (_, acts) = run_war(Command::WarOut(0, 1_470_000), 4, &chat("alice", "!out"), 2000, WALL, &mut st);
    assert_eq!(
        shown(&acts),
        vec![
            s("cancel", 570_000),
            s("cancel", 1_470_000),
            s("bob: <b>START WRITING!</b>", 570_000),
            s("bob: <b>STOP WRITING!</b>", 1_470_000),
            s("alice: You've been removed from war #0.", 2000),
        ]
    );
    let (_, acts) = run_war(Command::WarOut(0, 1_470_000), 4, &chat("alice", "!out"), 2000, WALL, &mut st);
    assert_eq!(shown(&acts), vec![s("alice: You're not in this war.", 2000)]);

    let (hooks, acts) = run_war(Command::WarIn(0, 570_000), 3, &chat("carol", "!in"), 600_000, WALL, &mut st);
    assert!(acts.is_empty());
    assert!(matches!(hooks[0], Hook::DropMessage(m) if m.un() == 3));
}

#[test]
fn war_list_and_cancel() {
    let mut st = State::new();
    run_war(Command::WordWar, 9, &chat("bob", "!ww at :5 for 10"), 0, WALL, &mut st);
    assert_eq!(st.wars[0].start, 3_270_000);
    let (_, acts) = run_war(Command::WordWar, 9, &chat("bob", "!ww list"), 5, WALL, &mut st);
    assert_eq!(
        shown(&acts),
        vec![s("<ul><li>#0 (<b>bob</b>)<br><code>:05 [===.........] :15</code></li></ul>", 5)]
    );
    let (_, acts) = run_war(Command::WordWar, 9, &chat("alice", "!ww cancel 0"), 6, WALL, &mut st);
    assert_eq!(shown(&acts), vec![s("alice: That's not yours.", 6)]);
    let (_, acts) = run_war(Command::WordWar, 9, &chat("bob", "!ww cancel x"), 6, WALL, &mut st);
    assert_eq!(shown(&acts), vec![s("bob: That doesn't look like a war ID.", 6)]);
    let (_, acts) = run_war(Command::WordWar, 9, &chat("bob", "!ww cancel 7"), 6, WALL, &mut st);
    assert_eq!(shown(&acts), vec![s("bob: No war with that ID found.", 6)]);
    let (_, acts) = run_war(Command::WordWar, 9, &chat("bob", "!ww cancel 0"), 7, WALL, &mut st);
    assert_eq!(
        shown(&acts),
        vec![s("cancel", 3_270_000), s("cancel", 3_870_000), s("bob: Canceled war #0.", 7)]
    );
    assert!(st.wars.is_empty());
    let (hooks, _) = run_war(Command::WarIn(0, 3_270_000), 2, &chat("bob", "!in"), 8, WALL, &mut st);
    assert!(matches!(hooks[0], Hook::DropMessage(_)));
}

#[test]
fn war_requests_refused() {
    let mut st = State::new();
    let say = |st: &mut State, text: &str| {
        let (_, acts) = run_war(Command::WordWar, 9, &chat("bob", text), 1, WALL, st);
        shown(&acts)
    };
    assert_eq!(
        say(&mut st, "!ww at 20"),
        vec![s("bob: Usage: !ww at :<b>time</b> for <b>minutes</b>", 1)]
    );
    assert_eq!(
        say(&mut st, "!ww at :20 for 15x"),
        vec![s("bob: Usage: !ww at :<b>time</b> for <b>minutes</b>", 1)]
    );
    assert_eq!(say(&mut st, "!ww at :20 for 60"), vec![s("bob: Too many minutes.", 1)]);
    assert_eq!(say(&mut st, "!ww at :70 for 5"), vec![s("bob: math error", 1)]);
    assert_eq!(say(&mut st, "!ww foo bar"), vec![s("bob: (\"foo\", \"bar\")", 1)]);
    assert!(st.wars.is_empty());
}

#[test]
fn war_through_the_registry() {
    let mut h = HookStorage::new();
    h.apply(default_cmds());
    let mut q = MessageQueue::new();
    h.dispatch(&chat("bob", "!ww at :20 for 15"), &mut q, 0, WALL, "participle");
    assert_eq!(h.msg_iter().len(), 10);
    h.dispatch(&chat("alice", "!in"), &mut q, 1000, WALL, "participle");
    let first = q.fire();
    assert_eq!(first.as_bytes(), b"send chat:x\n\nmsg main\n\nbob: Scheduled war with ID #0.\0".to_vec());
    let added = q.fire();
    assert_eq!(added.as_bytes(), b"send chat:x\n\nmsg main\n\nalice: You've been added to war #0.\0".to_vec());
    let start = q.fire();
    assert_eq!(start.as_bytes(), b"send chat:x\n\nmsg main\n\nbob, alice: <b>START WRITING!</b>\0".to_vec());
    let (_, acts) = run(Command::WordWar, 0, &chat("bob", "!ww list"), 0, WALL, "participle", &mut State::new());
    assert_eq!(shown(&acts), vec![s("<ul></ul>", 0)]);
}
