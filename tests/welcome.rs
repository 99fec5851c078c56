use marsipan::event::{EType, Event};
use marsipan::hooks::{default_cmds, Act, Command, HookStorage, State};
use marsipan::queue::MessageQueue;
use marsipan::welcome::run_welcome;
use marsipan::wordwar::WallTime;

const WALL: WallTime = WallTime { minute: 0, second: 0 };

fn ev(ty: EType, from: &str, text: &str) -> Event {
    Event {
        ty,
        chatroom: b"chat:x".to_vec(),
        sender: from.as_bytes().to_vec(),
        message: text.to_string(),
    }
}

fn said(acts: &[Act]) -> Vec<String> {
    acts.iter()
        .map(|a| match a {
            Act::Say(t, _) => t.clone(),
            Act::Cancel(_) => String::from("cancel"),
        })
        .collect()
}

#[test]
fn welcome_set_get_clear() {
    let mut st = State::new();
    let w = |st: &mut State, text: &str| {
        let (_, acts) = run_welcome(Command::Welcome, &ev(EType::Message, "bob", text), 1, st);
        said(&acts)
    };
    assert_eq!(w(&mut st, "!welcome get"), vec!["bob: You don't have a welcome."]);
    assert_eq!(
        w(&mut st, "!welcome set"),
        vec!["bob: Usage: !welcome set <b>thing</b><br>If you want no welcome, use !welcome clear."]
    );
    assert_eq!(w(&mut st, "!welcome set hi there"), vec!["bob: Your welcome has been set."]);
    assert_eq!(w(&mut st, "!welcome get"), vec!["bob: Your welcome is 'hi there'"]);
    assert_eq!(w(&mut st, "!welcome set again"), vec!["bob: Your welcome has been set."]);
    assert_eq!(st.welcomes.len(), 1);
    assert_eq!(w(&mut st, "!welcome get"), vec!["bob: Your welcome is 'again'"]);
    assert_eq!(w(&mut st, "!welcome clear"), vec!["bob: Your welcome has been forgotten."]);
    assert_eq!(w(&mut st, "!welcome clear"), vec!["bob: You didn't have a welcome."]);
    assert_eq!(
        w(&mut st, "!welcome what"),
        vec!["bob: Usage: !welcome { get | set <i>welcome</i> | clear }"]
    );
}

#[test]
fn welcome_said_on_join() {
    let mut h = HookStorage::new();
    h.apply(default_cmds());
    assert_eq!(h.join_iter().len(), 1);
    let mut q = MessageQueue::new();
    h.dispatch(&ev(EType::Message, "bob", "!welcome set hello all"), &mut q, 1, WALL, "participle");
    q.fire();
    h.dispatch(&ev(EType::Join, "alice", ""), &mut q, 2, WALL, "participle");
    assert!(q.is_empty());
    h.dispatch(&ev(EType::Join, "bob", ""), &mut q, 3, WALL, "participle");
    let m = q.fire();
    assert_eq!(m.as_bytes(), b"send chat:x\n\nmsg main\n\nhello all\0".to_vec());
}
