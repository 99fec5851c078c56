//! Word wars: timed writing sprints that chat users schedule, join and leave. A war
//! starts the next time the local clock shows a given minute and lasts some minutes;
//! its participants are called at the start and at the end.
use vstd::prelude::*;
use vstd::string::*;
use chrono::Timelike;
use crate::event::{Event, EventV, word, word_split};
use crate::hooks::{
    Act, ActV, Command, Effect, Hook, HookV, State, StateV, acts_view, decimal, decimal_of,
    hooks_view, is_digit, parse_u64, parsed_u64, says, starts_at, starts_at_exec,
};
use crate::text::{chars_of, latin1, latin1_of, string_of};

verus! {

/// The local time of day, as far as a war needs it: a war starts at second 0 of a
/// minute, the fraction of the second kept.
#[derive(Clone, Copy, Debug)]
pub struct WallTime {
    pub minute: u32,
    pub second: u32,
}

impl WallTime {
    pub open spec fn wf(&self) -> bool {
        self.minute < 60 && self.second < 60
    }
}

/// Relies on chrono's `Local::now()` and its `Timelike` accessors, which give the
/// minute from 0 to 59 and the second from 0 to 59.
#[verifier::external_body]
pub(crate) fn local_time() -> (r: WallTime)
    ensures
        r.wf(),
{
    let t = chrono::Local::now();
    WallTime { minute: t.minute(), second: t.second() }
}

/// A word war: its number, its start and end (instants in milliseconds, and the minutes
/// the clock shows then), the calls scheduled for them, who takes part, and who set it up.
#[derive(Debug)]
pub struct War {
    pub id: usize,
    pub start: u64,
    pub end: u64,
    pub start_minute: u64,
    pub end_minute: u64,
    pub start_msg: Option<u64>,
    pub end_msg: Option<u64>,
    pub participants: Vec<String>,
    pub starter: String,
}

pub struct WarV {
    pub id: usize,
    pub start: u64,
    pub end: u64,
    pub start_minute: u64,
    pub end_minute: u64,
    pub start_msg: Option<u64>,
    pub end_msg: Option<u64>,
    pub participants: Seq<Seq<char>>,
    pub starter: Seq<char>,
}

pub open spec fn names_view(s: Seq<String>) -> Seq<Seq<char>> {
    s.map_values(|x: String| x@)
}

pub open spec fn war_view(w: War) -> WarV {
    WarV {
        id: w.id,
        start: w.start,
        end: w.end,
        start_minute: w.start_minute,
        end_minute: w.end_minute,
        start_msg: w.start_msg,
        end_msg: w.end_msg,
        participants: names_view(w.participants@),
        starter: w.starter@,
    }
}

pub open spec fn wars_view(s: Seq<War>) -> Seq<WarV> {
    s.map_values(|w: War| war_view(w))
}

/// A reply addressed to the event's sender.
pub open spec fn hl(ev: EventV, t: Seq<char>) -> Seq<char> {
    latin1(ev.sender) + ": "@ + t
}

/// The names, separated by `, `.
pub open spec fn joined(ps: Seq<Seq<char>>) -> Seq<char>
    decreases ps.len(),
{
    if ps.len() == 0 {
        Seq::empty()
    } else if ps.len() == 1 {
        ps[0]
    } else {
        joined(ps.drop_last()) + ", "@ + ps.last()
    }
}

/// The names without `n`.
pub open spec fn without_name(ps: Seq<Seq<char>>, n: Seq<char>) -> Seq<Seq<char>>
    decreases ps.len(),
{
    if ps.len() == 0 {
        ps
    } else if ps.last() == n {
        without_name(ps.drop_last(), n)
    } else {
        without_name(ps.drop_last(), n).push(ps.last())
    }
}

/// Where the last war with number `id` stands, or -1.
pub open spec fn find_war(ws: Seq<WarV>, id: u64) -> int
    decreases ws.len(),
{
    if ws.len() == 0 {
        -1
    } else if ws.last().id as u64 == id {
        ws.len() - 1
    } else {
        find_war(ws.drop_last(), id)
    }
}

/// The calls of a war that are scheduled, taken back.
pub open spec fn cancels(w: WarV) -> Seq<ActV> {
    (match w.start_msg {
        Some(t) => seq![ActV::Cancel(t)],
        None => Seq::empty(),
    }) + (match w.end_msg {
        Some(t) => seq![ActV::Cancel(t)],
        None => Seq::empty(),
    })
}

/// The calls of a war scheduled afresh for its participants: the old ones taken back,
/// then the start and the end that have not passed by `now` scheduled.
pub open spec fn announce(w: WarV, now: u64) -> (Seq<ActV>, WarV) {
    let names = joined(w.participants);
    let s: Seq<ActV> = if w.start >= now {
        seq![ActV::Say(names + ": <b>START WRITING!</b>"@, w.start)]
    } else {
        Seq::empty()
    };
    let e: Seq<ActV> = if w.end >= now {
        seq![ActV::Say(names + ": <b>STOP WRITING!</b>"@, w.end)]
    } else {
        Seq::empty()
    };
    (
        cancels(w) + s + e,
        WarV {
            start_msg: if w.start >= now {
                Some(w.start)
            } else {
                None
            },
            end_msg: if w.end >= now {
                Some(w.end)
            } else {
                None
            },
            ..w
        },
    )
}

/// The end of the run of digits that starts at `i`.
pub open spec fn scan_digits(s: Seq<char>, i: int) -> int
    decreases s.len() - i,
{
    if 0 <= i < s.len() && is_digit(s[i]) {
        scan_digits(s, i + 1)
    } else {
        i
    }
}

/// `:MINUTE for MINUTES`, both numbers that fit `u32`.
pub open spec fn war_request(rest: Seq<char>) -> Option<(u64, u64)> {
    let a = scan_digits(rest, 1);
    let b = a + " for "@.len();
    let c = scan_digits(rest, b);
    if rest.len() > 0 && rest[0] == ':' && a > 1 && starts_at(rest, a, " for "@) && c > b && c
        == rest.len() {
        match (parsed_u64(rest.subrange(1, a)), parsed_u64(rest.subrange(b, c))) {
            (Some(x), Some(y)) => if x <= u32::MAX && y <= u32::MAX {
                Some((x, y))
            } else {
                None
            },
            _ => None,
        }
    } else {
        None
    }
}

/// How long after the time `wall` the clock next shows minute `at` and second 0, in
/// milliseconds (within the next hour; in this hour only where `at` is still ahead).
pub open spec fn start_delay(at: u64, wall: WallTime) -> int {
    let minutes = if wall.minute >= at {
        at + 60 - wall.minute
    } else {
        at - wall.minute
    };
    minutes * 60000 - wall.second * 1000
}

pub open spec fn two_digits(m: u64) -> Seq<char> {
    if m < 10 {
        "0"@ + decimal(m)
    } else {
        decimal(m)
    }
}

pub open spec fn war_line(w: WarV) -> Seq<char> {
    "<li>#"@ + decimal(w.id as u64) + " (<b>"@ + w.starter + "</b>)<br><code>:"@ + two_digits(
        w.start_minute,
    ) + " [===.........] :"@ + two_digits(w.end_minute) + "</code></li>"@
}

pub open spec fn war_lines(ws: Seq<WarV>) -> Seq<char>
    decreases ws.len(),
{
    if ws.len() == 0 {
        Seq::empty()
    } else {
        war_lines(ws.drop_last()) + war_line(ws.last())
    }
}

/// `!ww at :MINUTE for MINUTES`: a new war, with its sender in it, and the commands
/// `in` and `out` to join and leave it until it starts and ends.
pub open spec fn war_at(ev: EventV, rest: Seq<char>, now: u64, wall: WallTime, st: StateV) -> Effect {
    match war_request(rest) {
        None => says(seq![ActV::Say(hl(ev, "Usage: !ww at :<b>time</b> for <b>minutes</b>"@), now)], st),
        Some((at, dur)) => if dur > 59 {
            says(seq![ActV::Say(hl(ev, "Too many minutes."@), now)], st)
        } else if at > 59 || now + start_delay(at, wall) + dur * 60000 > u64::MAX || st.next_war
            == usize::MAX {
            says(seq![ActV::Say(hl(ev, "math error"@), now)], st)
        } else {
            let start = (now + start_delay(at, wall)) as u64;
            let end = (start + dur * 60000) as u64;
            let id = st.next_war;
            let name = latin1(ev.sender);
            let w0 = WarV {
                id,
                start,
                end,
                start_minute: at,
                end_minute: ((at + dur) % 60) as u64,
                start_msg: None,
                end_msg: None,
                participants: seq![name],
                starter: name,
            };
            let (acts, w1) = announce(w0, now);
            Effect {
                hooks: seq![
                    HookV::AddCommand("in"@, Command::WarIn(id, start)),
                    HookV::AddCommand("out"@, Command::WarOut(id, end)),
                ],
                acts: seq![
                    ActV::Say(hl(ev, "Scheduled war with ID #"@ + decimal(id as u64) + "."@), now),
                ] + acts,
                state: StateV { wars: st.wars.push(w1), next_war: (id + 1) as usize, ..st },
            }
        },
    }
}

/// `!ww cancel ID`: the war taken back, by the one who set it up.
pub open spec fn war_cancel(ev: EventV, id: Seq<char>, now: u64, st: StateV) -> Effect {
    match parsed_u64(id) {
        None => says(seq![ActV::Say(hl(ev, "That doesn't look like a war ID."@), now)], st),
        Some(h) => {
            let i = find_war(st.wars, h);
            if i < 0 {
                says(seq![ActV::Say(hl(ev, "No war with that ID found."@), now)], st)
            } else if st.wars[i].starter == latin1(ev.sender) {
                Effect {
                    hooks: Seq::empty(),
                    acts: cancels(st.wars[i]) + seq![
                        ActV::Say(hl(ev, "Canceled war #"@ + decimal(h) + "."@), now),
                    ],
                    state: StateV { wars: st.wars.remove(i), ..st },
                }
            } else {
                says(seq![ActV::Say(hl(ev, "That's not yours."@), now)], st)
            }
        },
    }
}

/// What the word-war commands do. `!ww` takes `at`, `cancel` or `list`; anything else
/// is quoted back to the sender as the pair of words read (without escaping).
pub open spec fn war_reaction(
    c: Command,
    me: usize,
    ev: EventV,
    now: u64,
    wall: WallTime,
    st: StateV,
) -> Effect {
    let name = latin1(ev.sender);
    match c {
        Command::WordWar => {
            let (cmd, rest) = word_split(word_split(ev.message).1);
            if cmd == "at"@ {
                war_at(ev, rest, now, wall, st)
            } else if cmd == "cancel"@ {
                war_cancel(ev, rest, now, st)
            } else if cmd == "list"@ {
                says(seq![ActV::Say("<ul>"@ + war_lines(st.wars) + "</ul>"@, now)], st)
            } else {
                says(
                    seq![ActV::Say(hl(ev, "(\""@ + cmd + "\", \""@ + rest + "\")"@), now)],
                    st,
                )
            }
        },
        Command::WarIn(id, start) => {
            let i = find_war(st.wars, id as u64);
            if now > start || i < 0 {
                Effect { hooks: seq![HookV::DropMessage(me)], acts: Seq::empty(), state: st }
            } else if st.wars[i].participants.contains(name) {
                says(seq![ActV::Say(hl(ev, "You're already in this war."@), now)], st)
            } else {
                let w = st.wars[i];
                let (acts, w2) = announce(WarV { participants: w.participants.push(name), ..w }, now);
                says(
                    acts + seq![
                        ActV::Say(hl(ev, "You've been added to war #"@ + decimal(id as u64) + "."@), now),
                    ],
                    StateV { wars: st.wars.update(i, w2), ..st },
                )
            }
        },
        Command::WarOut(id, end) => {
            let i = find_war(st.wars, id as u64);
            if now > end || i < 0 {
                Effect { hooks: seq![HookV::DropMessage(me)], acts: Seq::empty(), state: st }
            } else if st.wars[i].participants.contains(name) {
                let w = st.wars[i];
                let (acts, w2) = announce(
                    WarV { participants: without_name(w.participants, name), ..w },
                    now,
                );
                says(
                    acts + seq![
                        ActV::Say(
                            hl(ev, "You've been removed from war #"@ + decimal(id as u64) + "."@),
                            now,
                        ),
                    ],
                    StateV { wars: st.wars.update(i, w2), ..st },
                )
            } else {
                says(seq![ActV::Say(hl(ev, "You're not in this war."@), now)], st)
            }
        },
        _ => says(Seq::empty(), st),
    }
}

// ---- running the commands ----

fn cat(parts: Vec<char>, more: &str) -> (r: Vec<char>)
    ensures
        r@ == parts@ + more@,
{
    let mut v = parts;
    let mut m = chars_of(more);
    v.append(&mut m);
    v
}

fn cat_chars(parts: Vec<char>, more: Vec<char>) -> (r: Vec<char>)
    ensures
        r@ == parts@ + more@,
{
    let mut v = parts;
    let mut m = more;
    v.append(&mut m);
    v
}

/// A reply to the sender of `ev`.
fn hl_exec(ev: &Event, t: Vec<char>) -> (r: String)
    ensures
        r@ == hl(ev@, t@),
{
    let v = cat(latin1_of(ev.sender.as_slice()), ": ");
    string_of(&cat_chars(v, t))
}

fn say_hl(ev: &Event, t: &str, now: u64) -> (r: Act)
    ensures
        act_view_is(r, hl(ev@, t@), now),
{
    Act::Say(hl_exec(ev, chars_of(t)), now)
}

pub open spec fn act_view_is(a: Act, t: Seq<char>, at: u64) -> bool {
    a matches Act::Say(x, y) && x@ == t && y == at
}

fn one(a: Act) -> (r: Vec<Act>)
    ensures
        acts_view(r@) == seq![crate::hooks::act_view(a)],
{
    let mut v: Vec<Act> = Vec::new();
    v.push(a);
    assert(acts_view(v@) =~= seq![crate::hooks::act_view(a)]);
    v
}

fn copy_names(ps: &Vec<String>) -> (r: Vec<String>)
    ensures
        names_view(r@) == names_view(ps@),
{
    let mut r: Vec<String> = Vec::new();
    let mut k: usize = 0;
    while k < ps.len()
        invariant
            k <= ps@.len(),
            names_view(r@) == names_view(ps@.subrange(0, k as int)),
        decreases ps@.len() - k,
    {
        let ghost before = r@;
        r.push(ps[k].clone());
        assert(names_view(r@) =~= names_view(before).push(ps@[k as int]@));
        assert(names_view(ps@.subrange(0, k + 1)) =~= names_view(ps@.subrange(0, k as int)).push(
            ps@[k as int]@,
        ));
        k = k + 1;
    }
    assert(ps@.subrange(0, ps@.len() as int) =~= ps@);
    r
}

fn joined_exec(ps: &Vec<String>) -> (r: Vec<char>)
    ensures
        r@ == joined(names_view(ps@)),
{
    let mut r: Vec<char> = Vec::new();
    let mut k: usize = 0;
    while k < ps.len()
        invariant
            k <= ps@.len(),
            r@ == joined(names_view(ps@.subrange(0, k as int))),
        decreases ps@.len() - k,
    {
        let ghost pre = names_view(ps@.subrange(0, k as int));
        assert(names_view(ps@.subrange(0, k + 1)) =~= pre.push(ps@[k as int]@));
        assert(names_view(ps@.subrange(0, k + 1)).drop_last() =~= pre);
        if k > 0 {
            r = cat(r, ", ");
        } else {
            assert(pre.len() == 0);
        }
        r = cat_chars(r, chars_of(ps[k].as_str()));
        k = k + 1;
    }
    assert(ps@.subrange(0, ps@.len() as int) =~= ps@);
    r
}

fn has_name(ps: &Vec<String>, n: &String) -> (r: bool)
    ensures
        r == names_view(ps@).contains(n@),
{
    let mut k: usize = 0;
    while k < ps.len()
        invariant
            k <= ps@.len(),
            forall|j: int| 0 <= j < k ==> ps@[j]@ != n@,
        decreases ps@.len() - k,
    {
        if ps[k] == *n {
            assert(names_view(ps@)[k as int] == n@);
            return true;
        }
        k = k + 1;
    }
    assert forall|j: int| 0 <= j < names_view(ps@).len() implies names_view(ps@)[j] != n@ by {
        assert(names_view(ps@)[j] == ps@[j]@);
    }
    false
}

fn without_name_exec(ps: &Vec<String>, n: &String) -> (r: Vec<String>)
    ensures
        names_view(r@) == without_name(names_view(ps@), n@),
{
    let mut r: Vec<String> = Vec::new();
    let mut k: usize = 0;
    while k < ps.len()
        invariant
            k <= ps@.len(),
            names_view(r@) == without_name(names_view(ps@.subrange(0, k as int)), n@),
        decreases ps@.len() - k,
    {
        assert(names_view(ps@.subrange(0, k + 1)).drop_last() =~= names_view(
            ps@.subrange(0, k as int),
        ));
        if ps[k] != *n {
            let ghost before = r@;
            r.push(ps[k].clone());
            assert(names_view(r@) =~= names_view(before).push(ps@[k as int]@));
        }
        k = k + 1;
    }
    assert(ps@.subrange(0, ps@.len() as int) =~= ps@);
    r
}

fn find_war_exec(ws: &Vec<War>, id: u64) -> (r: Option<usize>)
    ensures
        match r {
            Some(i) => find_war(wars_view(ws@), id) == i && i < ws@.len(),
            None => find_war(wars_view(ws@), id) < 0,
        },
{
    let mut i = ws.len();
    assert(ws@.subrange(0, i as int) =~= ws@);
    while i > 0
        invariant
            i <= ws@.len(),
            find_war(wars_view(ws@), id) == find_war(wars_view(ws@.subrange(0, i as int)), id),
        decreases i,
    {
        assert(wars_view(ws@.subrange(0, i as int)).drop_last() =~= wars_view(
            ws@.subrange(0, i - 1),
        ));
        if ws[i - 1].id as u64 == id {
            return Some(i - 1);
        }
        i = i - 1;
    }
    None
}

/// Schedules a war's calls afresh (see `announce`).
fn announce_exec(w: &mut War, now: u64) -> (r: Vec<Act>)
    ensures
        (acts_view(r@), war_view(*final(w))) == announce(war_view(*old(w)), now),
{
    let mut acts: Vec<Act> = Vec::new();
    match w.start_msg {
        Some(t) => acts.push(Act::Cancel(t)),
        None => {},
    }
    match w.end_msg {
        Some(t) => acts.push(Act::Cancel(t)),
        None => {},
    }
    assert(acts_view(acts@) =~= cancels(war_view(*old(w))));
    let names = joined_exec(&w.participants);
    let ghost before = acts_view(acts@);
    if w.start >= now {
        let t = cat(copy_chars(&names), ": <b>START WRITING!</b>");
        acts.push(Act::Say(string_of(&t), w.start));
        w.start_msg = Some(w.start);
    } else {
        w.start_msg = None;
    }
    let ghost mid = acts_view(acts@);
    if w.end >= now {
        let t = cat(names, ": <b>STOP WRITING!</b>");
        acts.push(Act::Say(string_of(&t), w.end));
        w.end_msg = Some(w.end);
    } else {
        w.end_msg = None;
    }
    assert(acts_view(acts@) =~= announce(war_view(*old(w)), now).0);
    assert(war_view(*w).participants =~= war_view(*old(w)).participants);
    acts
}

fn copy_chars(v: &Vec<char>) -> (r: Vec<char>)
    ensures
        r@ == v@,
{
    let mut r: Vec<char> = Vec::new();
    let mut k: usize = 0;
    while k < v.len()
        invariant
            k <= v@.len(),
            r@ == v@.subrange(0, k as int),
        decreases v@.len() - k,
    {
        r.push(v[k]);
        k = k + 1;
    }
    assert(v@.subrange(0, v@.len() as int) =~= v@);
    r
}

fn scan_digits_exec(s: &Vec<char>, i: usize) -> (r: usize)
    requires
        i <= s@.len(),
    ensures
        r == scan_digits(s@, i as int),
        i <= r <= s@.len(),
{
    let mut j = i;
    while j < s.len() && '0' <= s[j] && s[j] <= '9'
        invariant
            i <= j <= s@.len(),
            scan_digits(s@, i as int) == scan_digits(s@, j as int),
        decreases s@.len() - j,
    {
        j = j + 1;
    }
    j
}

fn sub_chars(s: &Vec<char>, a: usize, b: usize) -> (r: Vec<char>)
    requires
        a <= b <= s@.len(),
    ensures
        r@ == s@.subrange(a as int, b as int),
{
    let mut r: Vec<char> = Vec::new();
    let mut k = a;
    while k < b
        invariant
            a <= k <= b <= s@.len(),
            r@ == s@.subrange(a as int, k as int),
        decreases b - k,
    {
        r.push(s[k]);
        k = k + 1;
    }
    r
}

/// Reads `:MINUTE for MINUTES` (see `war_request`).
fn war_request_exec(rest: &Vec<char>) -> (r: Option<(u64, u64)>)
    ensures
        r == war_request(rest@),
{
    if rest.len() == 0 || rest[0] != ':' {
        return None;
    }
    let a = scan_digits_exec(rest, 1);
    let sep = chars_of(" for ");
    if a <= 1 || !starts_at_exec(rest, a, &sep) {
        return None;
    }
    let b = a + sep.len();
    let c = scan_digits_exec(rest, b);
    if c <= b || c != rest.len() {
        return None;
    }
    let x = parse_u64(&sub_chars(rest, 1, a));
    let y = parse_u64(&sub_chars(rest, b, c));
    match (x, y) {
        (Some(x), Some(y)) => if x <= 0xffff_ffff && y <= 0xffff_ffff {
            Some((x, y))
        } else {
            None
        },
        _ => None,
    }
}

fn two_digits_exec(m: u64) -> (r: Vec<char>)
    ensures
        r@ == two_digits(m),
{
    if m < 10 {
        cat_chars(chars_of("0"), decimal_of(m))
    } else {
        decimal_of(m)
    }
}

fn war_lines_exec(ws: &Vec<War>) -> (r: Vec<char>)
    ensures
        r@ == war_lines(wars_view(ws@)),
{
    let mut r: Vec<char> = Vec::new();
    let mut k: usize = 0;
    while k < ws.len()
        invariant
            k <= ws@.len(),
            r@ == war_lines(wars_view(ws@.subrange(0, k as int))),
        decreases ws@.len() - k,
    {
        assert(wars_view(ws@.subrange(0, k + 1)).drop_last() =~= wars_view(
            ws@.subrange(0, k as int),
        ));
        let w = &ws[k];
        let mut v = cat(r, "<li>#");
        v = cat_chars(v, decimal_of(w.id as u64));
        v = cat(v, " (<b>");
        v = cat_chars(v, chars_of(w.starter.as_str()));
        v = cat(v, "</b>)<br><code>:");
        v = cat_chars(v, two_digits_exec(w.start_minute));
        v = cat(v, " [===.........] :");
        v = cat_chars(v, two_digits_exec(w.end_minute));
        v = cat(v, "</code></li>");
        r = v;
        k = k + 1;
    }
    assert(ws@.subrange(0, ws@.len() as int) =~= ws@);
    r
}

fn war_at_exec(ev: &Event, rest: &Vec<char>, now: u64, wall: WallTime, st: &mut State) -> (r: (
    Vec<Hook>,
    Vec<Act>,
))
    requires
        wall.wf(),
    ensures
        (Effect { hooks: hooks_view(r.0@), acts: acts_view(r.1@), state: final(st)@ }) == war_at(
            ev@,
            rest@,
            now,
            wall,
            old(st)@,
        ),
{
    let none: Vec<Hook> = Vec::new();
    assert(hooks_view(none@) =~= Seq::<HookV>::empty());
    let (at, dur) = match war_request_exec(rest) {
        None => return (none, one(say_hl(ev, "Usage: !ww at :<b>time</b> for <b>minutes</b>", now))),
        Some(p) => p,
    };
    if dur > 59 {
        return (none, one(say_hl(ev, "Too many minutes.", now)));
    }
    let m = wall.minute as u64;
    let minutes: u64 = if m >= at {
        at + 60 - m
    } else {
        at - m
    };
    let delay: u64 = minutes * 60000 - wall.second as u64 * 1000;
    if at > 59 || st.next_war == usize::MAX || delay > u64::MAX - now || dur * 60000 > u64::MAX
        - now - delay {
        return (none, one(say_hl(ev, "math error", now)));
    }
    let start = now + delay;
    let end = start + dur * 60000;
    let id = st.next_war;
    let name = string_of(&latin1_of(ev.sender.as_slice()));
    let mut participants: Vec<String> = Vec::new();
    participants.push(name.clone());
    let mut w = War {
        id,
        start,
        end,
        start_minute: at,
        end_minute: (at + dur) % 60,
        start_msg: None,
        end_msg: None,
        participants,
        starter: name,
    };
    assert(names_view(w.participants@) =~= seq![latin1(ev@.sender)]);
    let mut acts = one(
        Act::Say(
            hl_exec(ev, cat(cat_chars(chars_of("Scheduled war with ID #"), decimal_of(id as u64)), ".")),
            now,
        ),
    );
    let ghost a0 = acts_view(acts@);
    let mut more = announce_exec(&mut w, now);
    let ghost a1 = acts_view(more@);
    acts.append(&mut more);
    assert(acts_view(acts@) =~= a0 + a1);
    let ghost wars0 = wars_view(st.wars@);
    let ghost wv = war_view(w);
    st.wars.push(w);
    assert(wars_view(st.wars@) =~= wars0.push(wv));
    st.next_war = id + 1;
    let mut hooks: Vec<Hook> = Vec::new();
    hooks.push(Hook::register("in", Command::WarIn(id, start)));
    hooks.push(Hook::register("out", Command::WarOut(id, end)));
    assert(hooks_view(hooks@) =~= war_at(ev@, rest@, now, wall, old(st)@).hooks);
    (hooks, acts)
}

fn war_cancel_exec(ev: &Event, id: &Vec<char>, now: u64, st: &mut State) -> (r: (Vec<Hook>, Vec<Act>))
    ensures
        (Effect { hooks: hooks_view(r.0@), acts: acts_view(r.1@), state: final(st)@ }) == war_cancel(
            ev@,
            id@,
            now,
            old(st)@,
        ),
{
    let none: Vec<Hook> = Vec::new();
    assert(hooks_view(none@) =~= Seq::<HookV>::empty());
    let h = match parse_u64(id) {
        None => return (none, one(say_hl(ev, "That doesn't look like a war ID.", now))),
        Some(h) => h,
    };
    let i = match find_war_exec(&st.wars, h) {
        None => return (none, one(say_hl(ev, "No war with that ID found.", now))),
        Some(i) => i,
    };
    let name = string_of(&latin1_of(ev.sender.as_slice()));
    if st.wars[i].starter != name {
        return (none, one(say_hl(ev, "That's not yours.", now)));
    }
    let ghost wars0 = wars_view(st.wars@);
    let w = st.wars.remove(i);
    assert(wars_view(st.wars@) =~= wars0.remove(i as int));
    let mut acts: Vec<Act> = Vec::new();
    match w.start_msg {
        Some(t) => acts.push(Act::Cancel(t)),
        None => {},
    }
    match w.end_msg {
        Some(t) => acts.push(Act::Cancel(t)),
        None => {},
    }
    let ghost c0 = acts_view(acts@);
    assert(c0 =~= cancels(war_view(w)));
    acts.push(
        Act::Say(hl_exec(ev, cat(cat_chars(chars_of("Canceled war #"), decimal_of(h)), ".")), now),
    );
    assert(acts_view(acts@) =~= war_cancel(ev@, id@, now, old(st)@).acts);
    (none, acts)
}

/// What the word-war commands do (see `war_reaction`).
pub fn run_war(c: Command, me: usize, ev: &Event, now: u64, wall: WallTime, st: &mut State) -> (r: (
    Vec<Hook>,
    Vec<Act>,
))
    requires
        wall.wf(),
    ensures
        (Effect { hooks: hooks_view(r.0@), acts: acts_view(r.1@), state: final(st)@ })
            == war_reaction(c, me, ev@, now, wall, old(st)@),
{
    let none: Vec<Hook> = Vec::new();
    assert(hooks_view(none@) =~= Seq::<HookV>::empty());
    let empty: Vec<Act> = Vec::new();
    assert(acts_view(empty@) =~= Seq::<ActV>::empty());
    let name = string_of(&latin1_of(ev.sender.as_slice()));
    match c {
        Command::WordWar => {
            let content = word(ev.message.as_str()).1;
            let (cmd, rest) = word(content);
            let rest = chars_of(rest);
            let cmdc = chars_of(cmd);
            if cmd.unicode_len() == 2 && cmd.get_char(0) == 'a' && cmd.get_char(1) == 't' {
                proof {
                    reveal_strlit("at");
                    assert(cmd@ =~= "at"@);
                }
                war_at_exec(ev, &rest, now, wall, st)
            } else {
                proof {
                    reveal_strlit("at");
                    if cmd@ == "at"@ {
                        assert(cmd@.len() == 2);
                    }
                }
                let is_cancel = same_chars(&cmdc, "cancel");
                let is_list = same_chars(&cmdc, "list");
                if is_cancel {
                    war_cancel_exec(ev, &rest, now, st)
                } else if is_list {
                    let text = cat(cat_chars(chars_of("<ul>"), war_lines_exec(&st.wars)), "</ul>");
                    (none, one(Act::Say(string_of(&text), now)))
                } else {
                    let mut v = cat(chars_of("(\""), cmd);
                    v = cat(v, "\", \"");
                    v = cat_chars(v, rest);
                    v = cat(v, "\")");
                    (none, one(Act::Say(hl_exec(ev, v), now)))
                }
            }
        },
        Command::WarIn(id, start) => {
            let found = find_war_exec(&st.wars, id as u64);
            if now > start || found.is_none() {
                let mut hooks: Vec<Hook> = Vec::new();
                hooks.push(Hook::unregister(crate::hooks::M(me)));
                assert(hooks_view(hooks@) =~= seq![HookV::DropMessage(me)]);
                return (hooks, empty);
            }
            let i = found.unwrap();
            if has_name(&st.wars[i].participants, &name) {
                return (none, one(say_hl(ev, "You're already in this war.", now)));
            }
            let ghost wars0 = wars_view(st.wars@);
            let mut ps = copy_names(&st.wars[i].participants);
            ps.push(name);
            let mut w = War {
                id: st.wars[i].id,
                start: st.wars[i].start,
                end: st.wars[i].end,
                start_minute: st.wars[i].start_minute,
                end_minute: st.wars[i].end_minute,
                start_msg: st.wars[i].start_msg,
                end_msg: st.wars[i].end_msg,
                participants: ps,
                starter: st.wars[i].starter.clone(),
            };
            assert(war_view(w) == (WarV {
                participants: wars0[i as int].participants.push(latin1(ev@.sender)),
                ..wars0[i as int]
            })) by {
                assert(war_view(w).participants =~= wars0[i as int].participants.push(
                    latin1(ev@.sender),
                ));
            }
            let mut acts = announce_exec(&mut w, now);
            let ghost a0 = acts_view(acts@);
            acts.push(
                Act::Say(
                    hl_exec(ev, cat(cat_chars(chars_of("You've been added to war #"), decimal_of(id as u64)), ".")),
                    now,
                ),
            );
            let ghost wv = war_view(w);
            st.wars.set(i, w);
            assert(wars_view(st.wars@) =~= wars0.update(i as int, wv));
            assert(acts_view(acts@) =~= war_reaction(c, me, ev@, now, wall, old(st)@).acts);
            (none, acts)
        },
        Command::WarOut(id, end) => {
            let found = find_war_exec(&st.wars, id as u64);
            if now > end || found.is_none() {
                let mut hooks: Vec<Hook> = Vec::new();
                hooks.push(Hook::unregister(crate::hooks::M(me)));
                assert(hooks_view(hooks@) =~= seq![HookV::DropMessage(me)]);
                return (hooks, empty);
            }
            let i = found.unwrap();
            if !has_name(&st.wars[i].participants, &name) {
                return (none, one(say_hl(ev, "You're not in this war.", now)));
            }
            let ghost wars0 = wars_view(st.wars@);
            let ps = without_name_exec(&st.wars[i].participants, &name);
            let mut w = War {
                id: st.wars[i].id,
                start: st.wars[i].start,
                end: st.wars[i].end,
                start_minute: st.wars[i].start_minute,
                end_minute: st.wars[i].end_minute,
                start_msg: st.wars[i].start_msg,
                end_msg: st.wars[i].end_msg,
                participants: ps,
                starter: st.wars[i].starter.clone(),
            };
            let mut acts = announce_exec(&mut w, now);
            acts.push(
                Act::Say(
                    hl_exec(ev, cat(cat_chars(chars_of("You've been removed from war #"), decimal_of(id as u64)), ".")),
                    now,
                ),
            );
            let ghost wv = war_view(w);
            st.wars.set(i, w);
            assert(wars_view(st.wars@) =~= wars0.update(i as int, wv));
            assert(acts_view(acts@) =~= war_reaction(c, me, ev@, now, wall, old(st)@).acts);
            (none, acts)
        },
        _ => (none, empty),
    }
}

fn same_chars(v: &Vec<char>, w: &str) -> (r: bool)
    ensures
        r == (v@ == w@),
{
    let wc = chars_of(w);
    if v.len() != wc.len() {
        return false;
    }
    let mut k: usize = 0;
    while k < v.len()
        invariant
            v@.len() == wc@.len(),
            wc@ == w@,
            k <= v@.len(),
            forall|j: int| 0 <= j < k ==> v@[j] == wc@[j],
        decreases v@.len() - k,
    {
        if v[k] != wc[k] {
            return false;
        }
        k = k + 1;
    }
    assert(v@ =~= wc@);
    true
}

} // verus!
