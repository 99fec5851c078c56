//! The registry of handlers: which run on which events, how trigger-gated commands
//! match, and the batches of updates that handlers hand back.
use vstd::prelude::*;
use vstd::string::*;
use crate::codec::{AttrsV, MessageV, attrs_view};
use crate::welcome::{run_welcome, welcome_reaction};
use crate::event::{EType, Event, EventV, reply};
use crate::queue::MessageQueue;
use crate::text::{chars_of, latin1, latin1_of, string_of};
use crate::wordwar::{WallTime, War, WarV, run_war, war_reaction, wars_view};

verus! {

/// The handle of a handler of chat messages.
#[derive(Clone, Copy, Debug, PartialEq, Eq, Hash, Structural)]
pub struct M(pub usize);

/// The handle of a handler of joins.
#[derive(Clone, Copy, Debug, PartialEq, Eq, Hash, Structural)]
pub struct J(pub usize);

impl M {
    pub fn un(&self) -> (r: usize)
        ensures
            r == self.0,
    {
        self.0
    }
}

impl J {
    pub fn un(&self) -> (r: usize)
        ensures
            r == self.0,
    {
        self.0
    }
}

/// The handlers there are.
#[derive(Clone, Copy, Debug, PartialEq, Eq, Structural)]
pub enum Command {
    /// Rings back, and waits for its own ring to come round.
    Ping,
    /// Waits for the ring sent at the instant it holds; says how long it took.
    PingWait(u64),
    /// Says again what followed the command.
    Echo,
    /// Swaps itself for `bar`.
    Foo,
    /// Swaps itself for `foo`.
    Bar,
    /// Says goodnight, and schedules a wake-up the given number of seconds later.
    Sleep,
    /// Cancels the scheduled wake-up, where there is one.
    Wakeup,
    /// Sets up, cancels and lists word wars.
    WordWar,
    /// Joins the word war of the given number, until its start (an instant).
    WarIn(usize, u64),
    /// Leaves the word war of the given number, until its end (an instant).
    WarOut(usize, u64),
    /// Gets, sets and clears the sender's welcome.
    Welcome,
    /// Greets whoever joins with their welcome.
    SayWelcome,
    /// Lists the commands that the bridge starts with.
    Commands,
    /// Says which version of the bridge this is, and what built it.
    About,
}

/// An update to the registry, handed back by a handler.
#[derive(Clone, Debug)]
pub enum Hook {
    AddMessage(Command),
    AddCommand(String, Command),
    AddJoin(Command),
    DropMessage(M),
    DropJoin(J),
}

pub enum HookV {
    AddMessage(Command),
    AddCommand(Seq<char>, Command),
    AddJoin(Command),
    DropMessage(usize),
    DropJoin(usize),
}

pub open spec fn hook_view(h: Hook) -> HookV {
    match h {
        Hook::AddMessage(c) => HookV::AddMessage(c),
        Hook::AddCommand(w, c) => HookV::AddCommand(w@, c),
        Hook::AddJoin(c) => HookV::AddJoin(c),
        Hook::DropMessage(m) => HookV::DropMessage(m.0),
        Hook::DropJoin(j) => HookV::DropJoin(j.0),
    }
}

pub open spec fn hooks_view(hs: Seq<Hook>) -> Seq<HookV> {
    hs.map_values(|h: Hook| hook_view(h))
}

impl Hook {
    /// A command: runs on chat messages that start with a trigger and then `s`.
    pub fn register(s: &str, c: Command) -> (r: Hook)
        ensures
            hook_view(r) == HookV::AddCommand(s@, c),
    {
        Hook::AddCommand(s.to_owned(), c)
    }

    /// A handler of joins.
    pub fn join(c: Command) -> (r: Hook)
        ensures
            hook_view(r) == HookV::AddJoin(c),
    {
        Hook::AddJoin(c)
    }

    /// A handler of every chat message.
    pub fn register_msg(c: Command) -> (r: Hook)
        ensures
            hook_view(r) == HookV::AddMessage(c),
    {
        Hook::AddMessage(c)
    }

    /// Takes a handler of chat messages out.
    pub fn unregister(m: M) -> (r: Hook)
        ensures
            hook_view(r) == HookV::DropMessage(m.0),
    {
        Hook::DropMessage(m)
    }
}

/// What a handler asks of the delivery queue: a reply at an instant, or the reply
/// scheduled at an instant taken back.
#[derive(Clone, Debug)]
pub enum Act {
    Say(String, u64),
    Cancel(u64),
}

pub enum ActV {
    Say(Seq<char>, u64),
    Cancel(u64),
}

pub open spec fn act_view(a: Act) -> ActV {
    match a {
        Act::Say(t, at) => ActV::Say(t@, at),
        Act::Cancel(at) => ActV::Cancel(at),
    }
}

pub open spec fn acts_view(s: Seq<Act>) -> Seq<ActV> {
    s.map_values(|a: Act| act_view(a))
}

/// A registered handler: its handle, its command word where it is trigger-gated, and
/// what it does.
pub type Entry = (usize, Option<String>, Command);

pub type EntryV = (usize, Option<Seq<char>>, Command);

pub open spec fn entry_view(e: Entry) -> EntryV {
    (
        e.0,
        match e.1 {
            Some(w) => Some(w@),
            None => None,
        },
        e.2,
    )
}

pub open spec fn entries_view(s: Seq<Entry>) -> Seq<EntryV> {
    s.map_values(|e: Entry| entry_view(e))
}

/// The handlers of chat messages and of joins, in the order in which they were added,
/// the next handle to give out, and the instant of the scheduled wake-up while the
/// bridge sleeps.
pub struct HookStorage {
    msg: Vec<Entry>,
    join: Vec<Entry>,
    next: usize,
    state: State,
}

/// The registry: handlers, the next handle, and what the handlers keep between events.
pub struct HooksV {
    pub msg: Seq<EntryV>,
    pub join: Seq<EntryV>,
    pub next: usize,
    pub state: StateV,
}

/// What the handlers keep between events: the instant of the scheduled wake-up while
/// the bridge sleeps, the word wars, the next war number, each user's welcome (keyed
/// by the user's name), and the version of the compiler that built the bridge.
pub struct State {
    pub sleeping: Option<u64>,
    pub wars: Vec<War>,
    pub next_war: usize,
    pub welcomes: Vec<(Vec<u8>, String)>,
    pub rustc: String,
}

pub struct StateV {
    pub sleeping: Option<u64>,
    pub wars: Seq<WarV>,
    pub next_war: usize,
    pub welcomes: AttrsV,
    pub rustc: Seq<char>,
}

/// Relies on `rustc_version_runtime::version`: the version of the compiler that built
/// the program, recorded when it was built.
#[verifier::external_body]
fn rustc_version() -> (r: String) {
    rustc_version_runtime::version().to_string()
}

impl View for State {
    type V = StateV;

    open spec fn view(&self) -> StateV {
        StateV {
            sleeping: self.sleeping,
            wars: wars_view(self.wars@),
            next_war: self.next_war,
            welcomes: attrs_view(self.welcomes@),
            rustc: self.rustc@,
        }
    }
}

impl State {
    /// A fresh state, with the compiler's version as this build records it.
    pub fn new() -> (r: State)
        ensures
            r@ == (StateV {
                sleeping: None,
                wars: Seq::empty(),
                next_war: 0,
                welcomes: Seq::empty(),
                rustc: r@.rustc,
            }),
    {
        let r = State {
            sleeping: None,
            wars: Vec::new(),
            next_war: 0,
            welcomes: Vec::new(),
            rustc: rustc_version(),
        };
        assert(r@.wars =~= Seq::<WarV>::empty());
        assert(r@.welcomes =~= Seq::<(Seq<u8>, Seq<char>)>::empty());
        r
    }
}

impl View for HookStorage {
    type V = HooksV;

    closed spec fn view(&self) -> HooksV {
        HooksV {
            msg: entries_view(self.msg@),
            join: entries_view(self.join@),
            next: self.next,
            state: self.state@,
        }
    }
}

/// The entries without those with handle `h`.
pub open spec fn without(s: Seq<EntryV>, h: usize) -> Seq<EntryV>
    decreases s.len(),
{
    if s.len() == 0 {
        s
    } else if s.last().0 == h {
        without(s.drop_last(), h)
    } else {
        without(s.drop_last(), h).push(s.last())
    }
}

/// One update applied. Each handler added gets the next handle; where the handles have
/// run out, nothing is added.
pub open spec fn apply_one(s: HooksV, h: HookV) -> HooksV {
    match h {
        HookV::AddMessage(c) => if s.next < usize::MAX {
            HooksV { msg: s.msg.push((s.next, None, c)), next: (s.next + 1) as usize, ..s }
        } else {
            s
        },
        HookV::AddCommand(w, c) => if s.next < usize::MAX {
            HooksV { msg: s.msg.push((s.next, Some(w), c)), next: (s.next + 1) as usize, ..s }
        } else {
            s
        },
        HookV::AddJoin(c) => if s.next < usize::MAX {
            HooksV { join: s.join.push((s.next, None, c)), next: (s.next + 1) as usize, ..s }
        } else {
            s
        },
        HookV::DropMessage(m) => HooksV { msg: without(s.msg, m), ..s },
        HookV::DropJoin(j) => HooksV { join: without(s.join, j), ..s },
    }
}

/// The updates applied in order.
pub open spec fn apply_all(s: HooksV, hs: Seq<HookV>) -> HooksV
    decreases hs.len(),
{
    if hs.len() == 0 {
        s
    } else {
        apply_one(apply_all(s, hs.drop_last()), hs.last())
    }
}

/// `p` stands in `s` from position `i`.
pub open spec fn starts_at(s: Seq<char>, i: int, p: Seq<char>) -> bool {
    0 <= i && i + p.len() <= s.len() && s.subrange(i, i + p.len()) == p
}

/// A message calls command `w` where it starts with a trigger (`!`, or the bridge's
/// name and `: `) followed at once by `w`. Nothing more is asked of what follows.
pub open spec fn trigger_matches(m: Seq<char>, w: Seq<char>, own: Seq<char>) -> bool {
    (starts_at(m, 0, "!"@) && starts_at(m, "!"@.len() as int, w)) || (starts_at(m, 0, own + ": "@)
        && starts_at(m, (own + ": "@).len() as int, w))
}

pub open spec fn digit_char(d: u64) -> char {
    ((d as u8) + 48u8) as char
}

/// The decimal digits of `n`.
pub open spec fn decimal(n: u64) -> Seq<char>
    decreases n,
{
    if n < 10 {
        seq![digit_char(n)]
    } else {
        decimal(n / 10).push(digit_char(n % 10))
    }
}

/// What a handler does: the updates it hands back, what it asks of the queue, and
/// the state it leaves.
pub struct Effect {
    pub hooks: Seq<HookV>,
    pub acts: Seq<ActV>,
    pub state: StateV,
}

pub open spec fn says(acts: Seq<ActV>, state: StateV) -> Effect {
    Effect { hooks: Seq::empty(), acts, state }
}

pub open spec fn is_digit(c: char) -> bool {
    '0' <= c <= '9'
}

/// The number that decimal digits spell.
pub open spec fn digits_value(s: Seq<char>) -> int
    decreases s.len(),
{
    if s.len() == 0 {
        0
    } else {
        digits_value(s.drop_last()) * 10 + (s.last() as int - 48)
    }
}

pub open spec fn all_digits(d: Seq<char>) -> bool {
    forall|i: int| 0 <= i < d.len() ==> is_digit(#[trigger] d[i])
}

/// The text without a leading `+`.
pub open spec fn unsigned_part(s: Seq<char>) -> Seq<char> {
    if s.len() > 0 && s[0] == '+' {
        s.drop_first()
    } else {
        s
    }
}

/// A number as `u64`'s `FromStr` reads it: an optional `+`, then one or more digits,
/// of a value that fits.
pub open spec fn parsed_u64(s: Seq<char>) -> Option<u64> {
    let d = unsigned_part(s);
    if d.len() > 0 && all_digits(d) && digits_value(d) <= u64::MAX {
        Some(digits_value(d) as u64)
    } else {
        None
    }
}

/// What command `c`, registered as `me`, does on event `ev` at instant `now` (in
/// milliseconds; `wall` is the local time of day then), given the handlers' state `st`.
pub open spec fn reaction(
    c: Command,
    me: usize,
    ev: EventV,
    now: u64,
    wall: WallTime,
    own: Seq<char>,
    st: StateV,
) -> Effect {
    let sleeping = st.sleeping;
    match c {
        Command::Ping => Effect {
            hooks: seq![HookV::AddMessage(Command::PingWait(now))],
            acts: seq![ActV::Say("\u{1f514}?"@, now)],
            state: st,
        },
        Command::PingWait(t) => if ev.message == "\u{1f514}?"@ {
            let ms = if now >= t {
                (now - t) as u64
            } else {
                0
            };
            Effect {
                hooks: seq![HookV::DropMessage(me)],
                acts: seq![ActV::Say("\u{1f514}! ("@ + decimal(ms) + "ms)"@, now)],
                state: st,
            }
        } else {
            says(Seq::empty(), st)
        },
        Command::Echo => if ev.message.len() <= 6 {
            says(Seq::empty(), st)
        } else {
            says(seq![ActV::Say(ev.message.subrange(6, ev.message.len() as int), now)], st)
        },
        Command::Foo => Effect {
            hooks: seq![HookV::DropMessage(me), HookV::AddCommand("bar"@, Command::Bar)],
            acts: seq![ActV::Say("Disabling !foo and enabling !bar"@, now)],
            state: st,
        },
        Command::Bar => Effect {
            hooks: seq![HookV::DropMessage(me), HookV::AddCommand("foo"@, Command::Foo)],
            acts: seq![ActV::Say("Disabling !bar and enabling !foo"@, now)],
            state: st,
        },
        Command::Sleep => if ev.message.len() < 7 {
            says(Seq::empty(), st)
        } else {
            match parsed_u64(ev.message.subrange(7, ev.message.len() as int)) {
                Some(secs) if now + secs * 1000 <= u64::MAX => {
                    let at = (now + secs * 1000) as u64;
                    says(
                        seq![
                            ActV::Say(
                                "Sleeping for "@ + decimal(secs) + " seconds. ZZZzzz..."@,
                                now,
                            ),
                            ActV::Say("Waking up!"@, at),
                        ],
                        StateV { sleeping: Some(at), ..st },
                    )
                },
                _ => says(seq![ActV::Say("That doesn't look like a number."@, now)], st),
            }
        },
        Command::Wakeup => match sleeping {
            Some(at) => says(
                seq![ActV::Cancel(at), ActV::Say("Ok, I'm awake!"@, now)],
                StateV { sleeping: None, ..st },
            ),
            None => says(seq![ActV::Say("I wasn't sleeping!"@, now)], st),
        },
        Command::About => says(
            seq![ActV::Say(ABOUT@ + st.rustc, now)],
            st,
        ),
        Command::Commands => says(
            seq![ActV::Say(latin1(ev.sender) + ": "@ + "Commands are: "@ + command_list(), now)],
            st,
        ),
        Command::Welcome | Command::SayWelcome => welcome_reaction(c, ev, now, st),
        _ => war_reaction(c, me, ev, now, wall, st),
    }
}

/// Whether a registered handler runs on an event: a trigger-gated one only where the
/// message calls its command word.
pub open spec fn fires(e: EntryV, ev: EventV, own: Seq<char>) -> bool {
    match e.1 {
        None => true,
        Some(w) => trigger_matches(ev.message, w, own),
    }
}

/// What the handlers do on an event, one after the other, each seeing the registry's
/// handlers as they were before any of them ran, and the state that the one before
/// it left.
pub open spec fn reactions(
    s: Seq<EntryV>,
    ev: EventV,
    now: u64,
    wall: WallTime,
    own: Seq<char>,
    st: StateV,
) -> Effect
    decreases s.len(),
{
    if s.len() == 0 {
        says(Seq::empty(), st)
    } else {
        let r = reactions(s.drop_last(), ev, now, wall, own, st);
        let e = s.last();
        if fires(e, ev, own) {
            let r2 = reaction(e.2, e.0, ev, now, wall, own, r.state);
            Effect { hooks: r.hooks + r2.hooks, acts: r.acts + r2.acts, state: r2.state }
        } else {
            r
        }
    }
}

/// The handlers that an event is for: joins go to the join handlers, chat messages
/// and actions to the message handlers, and parts to none.
pub open spec fn audience(s: HooksV, ty: EType) -> Seq<EntryV> {
    match ty {
        EType::Join => s.join,
        EType::Part => Seq::empty(),
        _ => s.msg,
    }
}

/// The queue after what the handlers asked, in order: replies scheduled in chatroom
/// `room`, scheduled replies taken back.
pub open spec fn acted(q: Map<u64, MessageV>, room: Seq<u8>, y: Seq<ActV>) -> Map<u64, MessageV>
    decreases y.len(),
{
    if y.len() == 0 {
        q
    } else {
        let before = acted(q, room, y.drop_last());
        match y.last() {
            ActV::Say(text, at) => before.insert(at, reply(room, text)),
            ActV::Cancel(at) => before.remove(at),
        }
    }
}

pub fn starts_at_exec(s: &Vec<char>, i: usize, p: &Vec<char>) -> (r: bool)
    ensures
        r == starts_at(s@, i as int, p@),
{
    if i > s.len() || p.len() > s.len() - i {
        return false;
    }
    let mut k: usize = 0;
    while k < p.len()
        invariant
            i + p@.len() <= s@.len(),
            s@.len() <= usize::MAX,
            k <= p@.len(),
            forall|j: int| 0 <= j < k ==> s@[i + j] == p@[j],
        decreases p@.len() - k,
    {
        if s[i + k] != p[k] {
            assert(s@.subrange(i as int, i + p@.len())[k as int] != p@[k as int]);
            return false;
        }
        k = k + 1;
    }
    assert(s@.subrange(i as int, i + p@.len()) =~= p@);
    true
}

/// Whether message `m` calls command `w` (see `trigger_matches`).
pub fn triggered(m: &str, w: &str, own: &str) -> (r: bool)
    ensures
        r == trigger_matches(m@, w@, own@),
{
    let mc = chars_of(m);
    let wc = chars_of(w);
    let bang = chars_of("!");
    if starts_at_exec(&mc, 0, &bang) && starts_at_exec(&mc, bang.len(), &wc) {
        return true;
    }
    let mut named = chars_of(own);
    let mut sep = chars_of(": ");
    named.append(&mut sep);
    starts_at_exec(&mc, 0, &named) && starts_at_exec(&mc, named.len(), &wc)
}

/// The decimal digits of `n`.
pub fn decimal_of(n: u64) -> (r: Vec<char>)
    ensures
        r@ == decimal(n),
    decreases n,
{
    let d = ((n % 10) as u8 + 48u8) as char;
    if n < 10 {
        let mut v: Vec<char> = Vec::new();
        v.push(d);
        v
    } else {
        let mut v = decimal_of(n / 10);
        v.push(d);
        v
    }
}

fn say(text: &str, at: u64) -> (r: Act)
    ensures
        act_view(r) == ActV::Say(text@, at),
{
    Act::Say(text.to_owned(), at)
}

pub proof fn lemma_digits_value_grows(s: Seq<char>, k: int)
    requires
        0 <= k <= s.len(),
        forall|i: int| 0 <= i < s.len() ==> is_digit(#[trigger] s[i]),
    ensures
        digits_value(s.subrange(0, k)) <= digits_value(s),
    decreases s.len() - k,
{
    if k < s.len() {
        lemma_digits_value_grows(s, k + 1);
        let p = s.subrange(0, k + 1);
        assert(p.drop_last() =~= s.subrange(0, k));
        assert(is_digit(p.last()));
        assert(digits_value(s.subrange(0, k)) >= 0) by {
            lemma_digits_value_nonneg(s.subrange(0, k));
        }
    } else {
        assert(s.subrange(0, k) =~= s);
    }
}

pub proof fn lemma_digits_value_nonneg(s: Seq<char>)
    requires
        forall|i: int| 0 <= i < s.len() ==> is_digit(#[trigger] s[i]),
    ensures
        digits_value(s) >= 0,
    decreases s.len(),
{
    if s.len() > 0 {
        lemma_digits_value_nonneg(s.drop_last());
        assert(is_digit(s.last()));
    }
}

/// Reads a number as `u64`'s `FromStr` does (see `parsed_u64`).
pub fn parse_u64(s: &Vec<char>) -> (r: Option<u64>)
    ensures
        r == parsed_u64(s@),
{
    let start: usize = if s.len() > 0 && s[0] == '+' {
        1
    } else {
        0
    };
    let ghost d = unsigned_part(s@);
    assert(d =~= s@.subrange(start as int, s@.len() as int));
    if start >= s.len() {
        return None;
    }
    let mut acc: u64 = 0;
    let mut k: usize = start;
    while k < s.len()
        invariant
            start <= k <= s@.len(),
            d == unsigned_part(s@),
            d =~= s@.subrange(start as int, s@.len() as int),
            forall|i: int| start <= i < k ==> is_digit(#[trigger] s@[i]),
            acc == digits_value(s@.subrange(start as int, k as int)),
        decreases s@.len() - k,
    {
        let c = s[k];
        if !('0' <= c && c <= '9') {
            assert(!is_digit(d[k - start]));
            assert(!all_digits(d));
            assert(parsed_u64(s@) is None);
            return None;
        }
        let v = (c as u32 - 48) as u64;
        let ghost pre = s@.subrange(start as int, k as int);
        let ghost next = s@.subrange(start as int, k + 1);
        assert(next.drop_last() =~= pre);
        assert(next.last() == c);
        assert(digits_value(next) == acc * 10 + v);
        if acc > (u64::MAX - v) / 10 {
            proof {
                assert(digits_value(next) > u64::MAX) by (nonlinear_arith)
                    requires
                        digits_value(next) == acc * 10 + v,
                        acc > (u64::MAX - v) / 10,
                        v <= 9,
                ;
                if all_digits(d) {
                    lemma_digits_value_grows(d, k + 1 - start);
                    assert(d.subrange(0, k + 1 - start) =~= next);
                    assert(digits_value(d) > u64::MAX);
                }
                assert(parsed_u64(s@) is None);
            }
            return None;
        }
        acc = acc * 10 + v;
        k = k + 1;
    }
    assert(s@.subrange(start as int, k as int) =~= d);
    Some(acc)
}

fn chars_from(v: &Vec<char>, from: usize) -> (r: Vec<char>)
    requires
        from <= v@.len(),
    ensures
        r@ == v@.subrange(from as int, v@.len() as int),
{
    let mut rest: Vec<char> = Vec::new();
    let mut k: usize = from;
    while k < v.len()
        invariant
            from <= k <= v@.len(),
            rest@ == v@.subrange(from as int, k as int),
        decreases v@.len() - k,
    {
        rest.push(v[k]);
        k = k + 1;
    }
    rest
}

fn cat3(a: &str, b: Vec<char>, c: &str) -> (r: String)
    ensures
        r@ == a@ + b@ + c@,
{
    let mut text = chars_of(a);
    let mut b = b;
    let mut tail = chars_of(c);
    text.append(&mut b);
    text.append(&mut tail);
    string_of(&text)
}

/// What command `c`, registered as `me`, does on `ev` at instant `now`, given the
/// handlers' state `st` (see `reaction`).
pub fn run(
    c: Command,
    me: usize,
    ev: &Event,
    now: u64,
    wall: WallTime,
    own: &str,
    st: &mut State,
) -> (r: (Vec<Hook>, Vec<Act>))
    requires
        wall.wf(),
    ensures
        (Effect { hooks: hooks_view(r.0@), acts: acts_view(r.1@), state: final(st)@ }) == reaction(
            c,
            me,
            ev@,
            now,
            wall,
            own@,
            old(st)@,
        ),
{
    match c {
        Command::WordWar | Command::WarIn(_, _) | Command::WarOut(_, _) => {
            return run_war(c, me, ev, now, wall, st);
        },
        Command::Welcome | Command::SayWelcome => {
            return run_welcome(c, ev, now, st);
        },
        _ => {},
    }
    let mut hooks: Vec<Hook> = Vec::new();
    let mut acts: Vec<Act> = Vec::new();
    let sleeping = st.sleeping;
    match c {
        Command::Ping => {
            hooks.push(Hook::register_msg(Command::PingWait(now)));
            acts.push(say("\u{1f514}?", now));
        },
        Command::PingWait(t) => {
            let ring = "\u{1f514}?".to_owned();
            if ev.message == ring {
                let ms = if now >= t {
                    now - t
                } else {
                    0
                };
                hooks.push(Hook::unregister(M(me)));
                acts.push(Act::Say(cat3("\u{1f514}! (", decimal_of(ms), "ms)"), now));
            }
        },
        Command::Echo => {
            let mc = chars_of(ev.message.as_str());
            if mc.len() > 6 {
                let rest = chars_from(&mc, 6);
                acts.push(Act::Say(string_of(&rest), now));
            }
        },
        Command::Foo => {
            hooks.push(Hook::unregister(M(me)));
            hooks.push(Hook::register("bar", Command::Bar));
            acts.push(say("Disabling !foo and enabling !bar", now));
        },
        Command::Bar => {
            hooks.push(Hook::unregister(M(me)));
            hooks.push(Hook::register("foo", Command::Foo));
            acts.push(say("Disabling !bar and enabling !foo", now));
        },
        Command::Sleep => {
            let mc = chars_of(ev.message.as_str());
            if mc.len() >= 7 {
                let rest = chars_from(&mc, 7);
                match parse_u64(&rest) {
                    Some(secs) if secs <= (u64::MAX - now) / 1000 => {
                        proof {
                            assert(now + secs * 1000 <= u64::MAX) by (nonlinear_arith)
                                requires
                                    secs <= (u64::MAX - now) / 1000,
                                    now <= u64::MAX,
                            ;
                        }
                        let at = now + secs * 1000;
                        acts.push(
                            Act::Say(
                                cat3("Sleeping for ", decimal_of(secs), " seconds. ZZZzzz..."),
                                now,
                            ),
                        );
                        acts.push(say("Waking up!", at));
                        st.sleeping = Some(at);
                    },
                    other => {
                        proof {
                            if let Some(secs) = other {
                                assert(now + secs * 1000 > u64::MAX) by (nonlinear_arith)
                                    requires
                                        secs > (u64::MAX - now) / 1000,
                                        now <= u64::MAX,
                                ;
                            }
                        }
                        acts.push(say("That doesn't look like a number.", now));
                    },
                }
            }
        },
        Command::Wakeup => {
            match sleeping {
                Some(at) => {
                    acts.push(Act::Cancel(at));
                    acts.push(say("Ok, I'm awake!", now));
                },
                None => {
                    acts.push(say("I wasn't sleeping!", now));
                },
            }
            st.sleeping = None;
        },
        Command::About => {
            let mut v = chars_of(ABOUT);
            let mut r = chars_of(st.rustc.as_str());
            v.append(&mut r);
            acts.push(Act::Say(string_of(&v), now));
        },
        Command::Commands => {
            let mut v = latin1_of(ev.sender.as_slice());
            let mut sep = chars_of(": ");
            let mut head = chars_of("Commands are: ");
            let mut names = chars_of(COMMAND_LIST);
            v.append(&mut sep);
            v.append(&mut head);
            v.append(&mut names);
            acts.push(Act::Say(string_of(&v), now));
        },
        _ => {},
    }
    assert(hooks_view(hooks@) =~= reaction(c, me, ev@, now, wall, own@, old(st)@).hooks);
    assert(acts_view(acts@) =~= reaction(c, me, ev@, now, wall, own@, old(st)@).acts);
    (hooks, acts)
}

fn without_exec(s: &Vec<Entry>, h: usize) -> (r: Vec<Entry>)
    ensures
        entries_view(r@) == without(entries_view(s@), h),
{
    let mut r: Vec<Entry> = Vec::new();
    let mut k: usize = 0;
    while k < s.len()
        invariant
            k <= s@.len(),
            entries_view(r@) == without(entries_view(s@.subrange(0, k as int)), h),
        decreases s@.len() - k,
    {
        assert(entries_view(s@.subrange(0, k + 1)).drop_last() =~= entries_view(
            s@.subrange(0, k as int),
        ));
        if s[k].0 != h {
            let ghost before = r@;
            let w = match &s[k].1 {
                Some(w) => Some(w.clone()),
                None => None,
            };
            r.push((s[k].0, w, s[k].2));
            assert(entries_view(r@) =~= entries_view(before).push(entry_view(s@[k as int])));
        }
        k = k + 1;
    }
    assert(s@.subrange(0, s@.len() as int) =~= s@);
    r
}

impl HookStorage {
    pub fn new() -> (r: Self)
        ensures
            r@ == (HooksV {
                msg: Seq::empty(),
                join: Seq::empty(),
                next: 0,
                state: StateV {
                    sleeping: None,
                    wars: Seq::empty(),
                    next_war: 0,
                    welcomes: Seq::empty(),
                    rustc: r@.state.rustc,
                },
            }),
    {
        let r = HookStorage { msg: Vec::new(), join: Vec::new(), next: 0, state: State::new() };
        assert(r@.msg =~= Seq::<EntryV>::empty());
        assert(r@.join =~= Seq::<EntryV>::empty());
        r
    }

    /// The handlers of chat messages.
    pub fn msg_iter(&self) -> (r: &Vec<Entry>)
        ensures
            entries_view(r@) == self@.msg,
    {
        &self.msg
    }

    /// The handlers of joins.
    pub fn join_iter(&self) -> (r: &Vec<Entry>)
        ensures
            entries_view(r@) == self@.join,
    {
        &self.join
    }

    fn apply_hook(&mut self, h: &Hook)
        ensures
            final(self)@ == apply_one(old(self)@, hook_view(*h)),
    {
        match h {
            Hook::AddMessage(c) => if self.next < usize::MAX {
                let ghost before = self.msg@;
                self.msg.push((self.next, None, *c));
                assert(entries_view(self.msg@) =~= entries_view(before).push((old(self).next, None, *c)));
                self.next = self.next + 1;
            },
            Hook::AddCommand(w, c) => if self.next < usize::MAX {
                let ghost before = self.msg@;
                self.msg.push((self.next, Some(w.clone()), *c));
                assert(entries_view(self.msg@) =~= entries_view(before).push(
                    (old(self).next, Some(w@), *c),
                ));
                self.next = self.next + 1;
            },
            Hook::AddJoin(c) => if self.next < usize::MAX {
                let ghost before = self.join@;
                self.join.push((self.next, None, *c));
                assert(entries_view(self.join@) =~= entries_view(before).push((old(self).next, None, *c)));
                self.next = self.next + 1;
            },
            Hook::DropMessage(m) => {
                self.msg = without_exec(&self.msg, m.0);
            },
            Hook::DropJoin(j) => {
                self.join = without_exec(&self.join, j.0);
            },
        }
    }

    /// Applies a batch of updates, in order.
    pub fn apply(&mut self, updates: Vec<Hook>)
        ensures
            final(self)@ == apply_all(old(self)@, hooks_view(updates@)),
    {
        let mut k: usize = 0;
        while k < updates.len()
            invariant
                k <= updates@.len(),
                self@ == apply_all(old(self)@, hooks_view(updates@.subrange(0, k as int))),
            decreases updates@.len() - k,
        {
            assert(hooks_view(updates@.subrange(0, k + 1)).drop_last() =~= hooks_view(
                updates@.subrange(0, k as int),
            ));
            self.apply_hook(&updates[k]);
            k = k + 1;
        }
        assert(updates@.subrange(0, updates@.len() as int) =~= updates@);
    }

    /// Runs the handlers that an event is for, then applies the updates they handed
    /// back and does what they asked of the queue, in the event's chatroom.
    pub fn dispatch(
        &mut self,
        ev: &Event,
        mq: &mut MessageQueue,
        now: u64,
        wall: WallTime,
        own: &str,
    )
        requires
            old(mq).wf(),
            wall.wf(),
        ensures
            final(mq).wf(),
            ({
                let r = reactions(
                    audience(old(self)@, ev@.ty),
                    ev@,
                    now,
                    wall,
                    own@,
                    old(self)@.state,
                );
                &&& final(self)@ == apply_all(HooksV { state: r.state, ..old(self)@ }, r.hooks)
                &&& final(mq).msgs() == acted(old(mq).msgs(), ev@.chatroom, r.acts)
            }),
    {
        let ghost start = self@;
        let mut hooks: Vec<Hook> = Vec::new();
        let mut acts: Vec<Act> = Vec::new();
        let empty: Vec<Entry> = Vec::new();
        let entries = match ev.ty {
            EType::Join => &self.join,
            EType::Part => &empty,
            _ => &self.msg,
        };
        assert(entries_view(entries@) =~= audience(start, ev@.ty));
        assert(hooks_view(hooks@) =~= Seq::<HookV>::empty());
        assert(acts_view(acts@) =~= Seq::<ActV>::empty());
        assert(entries_view(entries@.subrange(0, 0)) =~= Seq::<EntryV>::empty());
        let mut k: usize = 0;
        while k < entries.len()
            invariant
                k <= entries@.len(),
                entries_view(entries@) == audience(start, ev@.ty),
                (Effect { hooks: hooks_view(hooks@), acts: acts_view(acts@), state: self.state@ })
                    == reactions(
                    entries_view(entries@.subrange(0, k as int)),
                    ev@,
                    now,
                    wall,
                    own@,
                    start.state,
                ),
                wall.wf(),
                self.msg@ == old(self).msg@,
                self.join@ == old(self).join@,
                self.next == old(self).next,
            decreases entries@.len() - k,
        {
            assert(entries_view(entries@.subrange(0, k + 1)).drop_last() =~= entries_view(
                entries@.subrange(0, k as int),
            ));
            let (h, w, c) = &entries[k];
            let go = match w {
                None => true,
                Some(w) => triggered(ev.message.as_str(), w.as_str(), own),
            };
            if go {
                let ghost hb = hooks_view(hooks@);
                let ghost ab = acts_view(acts@);
                let (mut h2, mut a2) = run(*c, *h, ev, now, wall, own, &mut self.state);
                let ghost h2v = hooks_view(h2@);
                let ghost a2v = acts_view(a2@);
                hooks.append(&mut h2);
                acts.append(&mut a2);
                assert(hooks_view(hooks@) =~= hb + h2v);
                assert(acts_view(acts@) =~= ab + a2v);
            }
            k = k + 1;
        }
        assert(entries@.subrange(0, entries@.len() as int) =~= entries@);
        self.apply(hooks);
        let mut k: usize = 0;
        while k < acts.len()
            invariant
                k <= acts@.len(),
                mq.wf(),
                mq.msgs() == acted(old(mq).msgs(), ev@.chatroom, acts_view(acts@.subrange(0, k as int))),
            decreases acts@.len() - k,
        {
            assert(acts_view(acts@.subrange(0, k + 1)).drop_last() =~= acts_view(
                acts@.subrange(0, k as int),
            ));
            match &acts[k] {
                Act::Say(text, at) => {
                    ev.respond_at(mq, text.as_str(), *at);
                },
                Act::Cancel(at) => {
                    let ghost before = mq.msgs();
                    ev.cancel(mq, *at);
                    assert(mq.msgs() =~= before.remove(*at));
                },
            }
            k = k + 1;
        }
        assert(acts@.subrange(0, acts@.len() as int) =~= acts@);
    }
}

/// The commands that the bridge starts with, and its greeter of joins.
pub fn default_cmds() -> (r: Vec<Hook>)
    ensures
        hooks_view(r@) == seq![
            HookV::AddCommand("about"@, Command::About),
            HookV::AddCommand("commands"@, Command::Commands),
            HookV::AddCommand("echo"@, Command::Echo),
            HookV::AddCommand("ping"@, Command::Ping),
            HookV::AddCommand("sleep"@, Command::Sleep),
            HookV::AddCommand("wakeup"@, Command::Wakeup),
            HookV::AddCommand("welcome"@, Command::Welcome),
            HookV::AddCommand("ww"@, Command::WordWar),
            HookV::AddJoin(Command::SayWelcome),
        ],
{
    let mut v: Vec<Hook> = Vec::new();
    v.push(Hook::register("about", Command::About));
    v.push(Hook::register("commands", Command::Commands));
    v.push(Hook::register("echo", Command::Echo));
    v.push(Hook::register("ping", Command::Ping));
    v.push(Hook::register("sleep", Command::Sleep));
    v.push(Hook::register("wakeup", Command::Wakeup));
    v.push(Hook::register("welcome", Command::Welcome));
    v.push(Hook::register("ww", Command::WordWar));
    v.push(Hook::join(Command::SayWelcome));
    assert(hooks_view(v@) =~= seq![
        HookV::AddCommand("about"@, Command::About),
        HookV::AddCommand("commands"@, Command::Commands),
        HookV::AddCommand("echo"@, Command::Echo),
        HookV::AddCommand("ping"@, Command::Ping),
        HookV::AddCommand("sleep"@, Command::Sleep),
        HookV::AddCommand("wakeup"@, Command::Wakeup),
        HookV::AddCommand("welcome"@, Command::Welcome),
        HookV::AddCommand("ww"@, Command::WordWar),
        HookV::AddJoin(Command::SayWelcome),
    ]);
    v
}

/// The command words of `default_cmds`, in order, separated by `, `.
pub const COMMAND_LIST: &'static str = "about, commands, echo, ping, sleep, wakeup, welcome, ww";

/// What `about` says, before the compiler's version.
pub const ABOUT: &'static str = "\u{1f370} <b>marsipan v0.1.0</b> built with rustc-";

pub open spec fn command_list() -> Seq<char> {
    COMMAND_LIST@
}

/// A command word fires after either trigger, whatever follows it (the match is on the
/// bytes alone, with no word boundary), and never on a message that starts with
/// neither trigger.
pub proof fn law_trigger_prefix(w: Seq<char>, rest: Seq<char>, own: Seq<char>, m: Seq<char>)
    ensures
        trigger_matches("!"@ + w + rest, w, own),
        trigger_matches(own + ": "@ + w + rest, w, own),
        !starts_at(m, 0, "!"@) && !starts_at(m, 0, own + ": "@) ==> !trigger_matches(m, w, own),
{
    let a = "!"@ + w + rest;
    assert(a.subrange(0, "!"@.len() as int) =~= "!"@);
    assert(a.subrange("!"@.len() as int, ("!"@.len() + w.len()) as int) =~= w);
    let t = own + ": "@;
    let b = t + w + rest;
    assert(b.subrange(0, t.len() as int) =~= t);
    assert(b.subrange(t.len() as int, (t.len() + w.len()) as int) =~= w);
}

} // verus!
