//! Welcomes: a greeting that each user keeps with the bridge, said when they join.
use vstd::prelude::*;
use vstd::string::*;
use crate::codec::{AttrsV, attrs_view, find_attr, lookup};
use crate::event::{Event, EventV, word, word_split};
use crate::hooks::{Act, ActV, Command, Effect, Hook, HookV, State, StateV, acts_view, hooks_view, says};
use crate::text::{bytes_eq, chars_of, copy_all, latin1, latin1_of, string_of};
use crate::wordwar::hl;

verus! {

/// The welcomes without the one of user `k`.
pub open spec fn without_key(ws: AttrsV, k: Seq<u8>) -> AttrsV
    decreases ws.len(),
{
    if ws.len() == 0 {
        ws
    } else if ws.last().0 == k {
        without_key(ws.drop_last(), k)
    } else {
        without_key(ws.drop_last(), k).push(ws.last())
    }
}

/// What the welcome commands do. `!welcome get` tells the sender their welcome,
/// `!welcome set TEXT` keeps TEXT as it, `!welcome clear` forgets it; a join is
/// greeted with the joiner's welcome, where they have one.
pub open spec fn welcome_reaction(c: Command, ev: EventV, now: u64, st: StateV) -> Effect {
    let mine = lookup(st.welcomes, ev.sender);
    match c {
        Command::Welcome => {
            let (cmd, rest) = word_split(word_split(ev.message).1);
            if cmd == "get"@ {
                match mine {
                    Some(b) => says(
                        seq![ActV::Say(hl(ev, "Your welcome is '"@ + b + "'"@), now)],
                        st,
                    ),
                    None => says(seq![ActV::Say(hl(ev, "You don't have a welcome."@), now)], st),
                }
            } else if cmd == "set"@ && rest.len() == 0 {
                says(
                    seq![
                        ActV::Say(
                            hl(
                                ev,
                                "Usage: !welcome set <b>thing</b><br>If you want no welcome, use !welcome clear."@,
                            ),
                            now,
                        ),
                    ],
                    st,
                )
            } else if cmd == "set"@ {
                says(
                    seq![ActV::Say(hl(ev, "Your welcome has been set."@), now)],
                    StateV {
                        welcomes: without_key(st.welcomes, ev.sender).push((ev.sender, rest)),
                        ..st
                    },
                )
            } else if cmd == "clear"@ {
                match mine {
                    Some(_) => says(
                        seq![ActV::Say(hl(ev, "Your welcome has been forgotten."@), now)],
                        StateV { welcomes: without_key(st.welcomes, ev.sender), ..st },
                    ),
                    None => says(seq![ActV::Say(hl(ev, "You didn't have a welcome."@), now)], st),
                }
            } else {
                says(
                    seq![
                        ActV::Say(
                            hl(ev, "Usage: !welcome { get | set <i>welcome</i> | clear }"@),
                            now,
                        ),
                    ],
                    st,
                )
            }
        },
        Command::SayWelcome => match mine {
            Some(b) => says(seq![ActV::Say(b, now)], st),
            None => says(Seq::empty(), st),
        },
        _ => says(Seq::empty(), st),
    }
}

fn without_key_exec(ws: &Vec<(Vec<u8>, String)>, k: &[u8]) -> (r: Vec<(Vec<u8>, String)>)
    ensures
        attrs_view(r@) == without_key(attrs_view(ws@), k@),
{
    let mut r: Vec<(Vec<u8>, String)> = Vec::new();
    let mut i: usize = 0;
    while i < ws.len()
        invariant
            i <= ws@.len(),
            attrs_view(r@) == without_key(attrs_view(ws@.subrange(0, i as int)), k@),
        decreases ws@.len() - i,
    {
        assert(attrs_view(ws@.subrange(0, i + 1)).drop_last() =~= attrs_view(
            ws@.subrange(0, i as int),
        ));
        if !bytes_eq(ws[i].0.as_slice(), k) {
            let ghost before = r@;
            r.push((copy_all(ws[i].0.as_slice()), ws[i].1.clone()));
            assert(attrs_view(r@) =~= attrs_view(before).push((ws@[i as int].0@, ws@[i as int].1@)));
        }
        i = i + 1;
    }
    assert(ws@.subrange(0, ws@.len() as int) =~= ws@);
    r
}

fn reply_hl(ev: &Event, t: &str, now: u64) -> (r: Vec<Act>)
    ensures
        acts_view(r@) == seq![ActV::Say(hl(ev@, t@), now)],
{
    let mut v = latin1_of(ev.sender.as_slice());
    let mut sep = chars_of(": ");
    let mut tc = chars_of(t);
    v.append(&mut sep);
    v.append(&mut tc);
    let mut acts: Vec<Act> = Vec::new();
    acts.push(Act::Say(string_of(&v), now));
    assert(acts_view(acts@) =~= seq![ActV::Say(hl(ev@, t@), now)]);
    acts
}

fn same_word(w: &str, lit: &str) -> (r: bool)
    ensures
        r == (w@ == lit@),
{
    let a = chars_of(w);
    let b = chars_of(lit);
    if a.len() != b.len() {
        return false;
    }
    let mut k: usize = 0;
    while k < a.len()
        invariant
            a@ == w@,
            b@ == lit@,
            a@.len() == b@.len(),
            k <= a@.len(),
            forall|j: int| 0 <= j < k ==> a@[j] == b@[j],
        decreases a@.len() - k,
    {
        if a[k] != b[k] {
            return false;
        }
        k = k + 1;
    }
    assert(a@ =~= b@);
    true
}

/// What the welcome commands do (see `welcome_reaction`).
pub fn run_welcome(c: Command, ev: &Event, now: u64, st: &mut State) -> (r: (Vec<Hook>, Vec<Act>))
    ensures
        (Effect { hooks: hooks_view(r.0@), acts: acts_view(r.1@), state: final(st)@ })
            == welcome_reaction(c, ev@, now, old(st)@),
{
    let none: Vec<Hook> = Vec::new();
    assert(hooks_view(none@) =~= Seq::<HookV>::empty());
    let mine = find_attr(&st.welcomes, ev.sender.as_slice());
    match c {
        Command::Welcome => {
            let (cmd, rest) = word(word(ev.message.as_str()).1);
            if same_word(cmd, "get") {
                match mine {
                    Some(b) => {
                        let mut v = latin1_of(ev.sender.as_slice());
                        let mut sep = chars_of(": ");
                        let mut p = chars_of("Your welcome is '");
                        let mut bc = chars_of(b.as_str());
                        let mut q = chars_of("'");
                        v.append(&mut sep);
                        v.append(&mut p);
                        v.append(&mut bc);
                        v.append(&mut q);
                        assert(v@ =~= hl(ev@, "Your welcome is '"@ + b@ + "'"@));
                        let mut acts: Vec<Act> = Vec::new();
                        acts.push(Act::Say(string_of(&v), now));
                        assert(acts_view(acts@) =~= welcome_reaction(c, ev@, now, old(st)@).acts);
                        (none, acts)
                    },
                    None => (none, reply_hl(ev, "You don't have a welcome.", now)),
                }
            } else if same_word(cmd, "set") && rest.unicode_len() == 0 {
                (
                    none,
                    reply_hl(
                        ev,
                        "Usage: !welcome set <b>thing</b><br>If you want no welcome, use !welcome clear.",
                        now,
                    ),
                )
            } else if same_word(cmd, "set") {
                let ghost w0 = attrs_view(st.welcomes@);
                let mut ws = without_key_exec(&st.welcomes, ev.sender.as_slice());
                let ghost w1 = attrs_view(ws@);
                ws.push((copy_all(ev.sender.as_slice()), rest.to_owned()));
                assert(attrs_view(ws@) =~= w1.push((ev@.sender, rest@)));
                st.welcomes = ws;
                (none, reply_hl(ev, "Your welcome has been set.", now))
            } else if same_word(cmd, "clear") {
                match mine {
                    Some(_) => {
                        st.welcomes = without_key_exec(&st.welcomes, ev.sender.as_slice());
                        (none, reply_hl(ev, "Your welcome has been forgotten.", now))
                    },
                    None => (none, reply_hl(ev, "You didn't have a welcome.", now)),
                }
            } else {
                (none, reply_hl(ev, "Usage: !welcome { get | set <i>welcome</i> | clear }", now))
            }
        },
        Command::SayWelcome => {
            let mut acts: Vec<Act> = Vec::new();
            match mine {
                Some(b) => {
                    acts.push(Act::Say(b.clone(), now));
                },
                None => {},
            }
            assert(acts_view(acts@) =~= welcome_reaction(c, ev@, now, old(st)@).acts);
            (none, acts)
        },
        _ => {
            let acts: Vec<Act> = Vec::new();
            assert(acts_view(acts@) =~= Seq::<ActV>::empty());
            (none, acts)
        },
    }
}

} // verus!
