//! The inline markup of message bodies: literal runs and tags written `&name\t`
//! followed by tab-terminated arguments, read from bytes and rendered as HTML text.
use vstd::prelude::*;
use crate::text::{
    AMP, Class, TAB, chars_of, copy_range, entities_decoded, latin1, latin1_of,
    decode_entities_or_keep, lemma_scan_bounds, name_is, scan, scan_from, string_of,
};

verus! {

pub type Arg = Vec<u8>;

/// A literal run or a tag.
#[derive(Debug)]
pub enum Either<A, B> {
    A(A),
    B(B),
}

pub type ParsedText = Vec<Either<Vec<u8>, Tablump>>;

pub struct TablumpV {
    pub tag: Tag,
    pub args: Seq<Seq<u8>>,
}

pub enum TokV {
    Text(Seq<u8>),
    Lump(TablumpV),
}

pub open spec fn args_view(v: Seq<Arg>) -> Seq<Seq<u8>> {
    v.map_values(|a: Arg| a@)
}

pub open spec fn tok_view(t: Either<Vec<u8>, Tablump>) -> TokV {
    match t {
        Either::A(b) => TokV::Text(b@),
        Either::B(l) => TokV::Lump(l@),
    }
}

pub open spec fn toks_view(ts: Seq<Either<Vec<u8>, Tablump>>) -> Seq<TokV> {
    ts.map_values(|t: Either<Vec<u8>, Tablump>| tok_view(t))
}

/// The kinds of markup tag, in the order in which they are tried.
#[allow(non_camel_case_types)]
#[derive(Clone, Copy, Debug, PartialEq, Eq, Structural)]
pub enum Tag {
    A,
    C_A,
    Abbr,
    C_Abbr,
    Acro,
    C_Acro,
    Avatar,
    B,
    C_B,
    Bcode,
    C_Bcode,
    Br,
    Code,
    C_Code,
    Dev,
    Embed,
    C_Embed,
    Emote,
    I,
    C_I,
    Iframe,
    C_Iframe,
    Img,
    Li,
    C_Li,
    Link,
    Ol,
    C_Ol,
    P,
    C_P,
    S,
    C_S,
    Sub,
    C_Sub,
    Sup,
    C_Sup,
    Thumb,
    U,
    C_U,
    Ul,
    C_Ul,
}

/// One markup tag with its arguments.
#[allow(non_camel_case_types)]
#[derive(Debug)]
pub enum Tablump {
    A(Arg, Arg),
    C_A,
    Abbr(Arg),
    C_Abbr,
    Acro(Arg),
    C_Acro,
    Avatar(Arg, Arg),
    B,
    C_B,
    Bcode,
    C_Bcode,
    Br,
    Code,
    C_Code,
    Dev(Arg, Arg),
    Embed(Arg, Arg, Arg),
    C_Embed,
    Emote(Arg, Arg, Arg, Arg, Arg),
    I,
    C_I,
    Iframe(Arg, Arg, Arg),
    C_Iframe,
    Img(Arg, Arg, Arg),
    Li,
    C_Li,
    Link(Arg, Option<Arg>),
    Ol,
    C_Ol,
    P,
    C_P,
    S,
    C_S,
    Sub,
    C_Sub,
    Sup,
    C_Sup,
    Thumb(Arg, Arg, Arg, Arg, Arg, Arg),
    U,
    C_U,
    Ul,
    C_Ul,
}

/// The tag that a name between `&` and a tab stands for.
pub open spec fn tag_named(n: Seq<char>) -> Option<Tag> {
    if n == "a"@ {
        Some(Tag::A)
    } else if n == "/a"@ {
        Some(Tag::C_A)
    } else if n == "abbr"@ {
        Some(Tag::Abbr)
    } else if n == "/abbr"@ {
        Some(Tag::C_Abbr)
    } else if n == "acro"@ {
        Some(Tag::Acro)
    } else if n == "/acro"@ {
        Some(Tag::C_Acro)
    } else if n == "avatar"@ {
        Some(Tag::Avatar)
    } else if n == "b"@ {
        Some(Tag::B)
    } else if n == "/b"@ {
        Some(Tag::C_B)
    } else if n == "bcode"@ {
        Some(Tag::Bcode)
    } else if n == "/bcode"@ {
        Some(Tag::C_Bcode)
    } else if n == "br"@ {
        Some(Tag::Br)
    } else if n == "code"@ {
        Some(Tag::Code)
    } else if n == "/code"@ {
        Some(Tag::C_Code)
    } else if n == "dev"@ {
        Some(Tag::Dev)
    } else if n == "embed"@ {
        Some(Tag::Embed)
    } else if n == "/embed"@ {
        Some(Tag::C_Embed)
    } else if n == "emote"@ {
        Some(Tag::Emote)
    } else if n == "i"@ {
        Some(Tag::I)
    } else if n == "/i"@ {
        Some(Tag::C_I)
    } else if n == "iframe"@ {
        Some(Tag::Iframe)
    } else if n == "/iframe"@ {
        Some(Tag::C_Iframe)
    } else if n == "img"@ {
        Some(Tag::Img)
    } else if n == "li"@ {
        Some(Tag::Li)
    } else if n == "/li"@ {
        Some(Tag::C_Li)
    } else if n == "link"@ {
        Some(Tag::Link)
    } else if n == "ol"@ {
        Some(Tag::Ol)
    } else if n == "/ol"@ {
        Some(Tag::C_Ol)
    } else if n == "p"@ {
        Some(Tag::P)
    } else if n == "/p"@ {
        Some(Tag::C_P)
    } else if n == "s"@ {
        Some(Tag::S)
    } else if n == "/s"@ {
        Some(Tag::C_S)
    } else if n == "sub"@ {
        Some(Tag::Sub)
    } else if n == "/sub"@ {
        Some(Tag::C_Sub)
    } else if n == "sup"@ {
        Some(Tag::Sup)
    } else if n == "/sup"@ {
        Some(Tag::C_Sup)
    } else if n == "thumb"@ {
        Some(Tag::Thumb)
    } else if n == "u"@ {
        Some(Tag::U)
    } else if n == "/u"@ {
        Some(Tag::C_U)
    } else if n == "ul"@ {
        Some(Tag::Ul)
    } else if n == "/ul"@ {
        Some(Tag::C_Ul)
    } else {
        None
    }
}

fn tag_of(name: &[u8]) -> (r: Option<Tag>)
    ensures
        r == tag_named(latin1(name@)),
{
    if name_is(name, "a") {
        Some(Tag::A)
    } else if name_is(name, "/a") {
        Some(Tag::C_A)
    } else if name_is(name, "abbr") {
        Some(Tag::Abbr)
    } else if name_is(name, "/abbr") {
        Some(Tag::C_Abbr)
    } else if name_is(name, "acro") {
        Some(Tag::Acro)
    } else if name_is(name, "/acro") {
        Some(Tag::C_Acro)
    } else if name_is(name, "avatar") {
        Some(Tag::Avatar)
    } else if name_is(name, "b") {
        Some(Tag::B)
    } else if name_is(name, "/b") {
        Some(Tag::C_B)
    } else if name_is(name, "bcode") {
        Some(Tag::Bcode)
    } else if name_is(name, "/bcode") {
        Some(Tag::C_Bcode)
    } else if name_is(name, "br") {
        Some(Tag::Br)
    } else if name_is(name, "code") {
        Some(Tag::Code)
    } else if name_is(name, "/code") {
        Some(Tag::C_Code)
    } else if name_is(name, "dev") {
        Some(Tag::Dev)
    } else if name_is(name, "embed") {
        Some(Tag::Embed)
    } else if name_is(name, "/embed") {
        Some(Tag::C_Embed)
    } else if name_is(name, "emote") {
        Some(Tag::Emote)
    } else if name_is(name, "i") {
        Some(Tag::I)
    } else if name_is(name, "/i") {
        Some(Tag::C_I)
    } else if name_is(name, "iframe") {
        Some(Tag::Iframe)
    } else if name_is(name, "/iframe") {
        Some(Tag::C_Iframe)
    } else if name_is(name, "img") {
        Some(Tag::Img)
    } else if name_is(name, "li") {
        Some(Tag::Li)
    } else if name_is(name, "/li") {
        Some(Tag::C_Li)
    } else if name_is(name, "link") {
        Some(Tag::Link)
    } else if name_is(name, "ol") {
        Some(Tag::Ol)
    } else if name_is(name, "/ol") {
        Some(Tag::C_Ol)
    } else if name_is(name, "p") {
        Some(Tag::P)
    } else if name_is(name, "/p") {
        Some(Tag::C_P)
    } else if name_is(name, "s") {
        Some(Tag::S)
    } else if name_is(name, "/s") {
        Some(Tag::C_S)
    } else if name_is(name, "sub") {
        Some(Tag::Sub)
    } else if name_is(name, "/sub") {
        Some(Tag::C_Sub)
    } else if name_is(name, "sup") {
        Some(Tag::Sup)
    } else if name_is(name, "/sup") {
        Some(Tag::C_Sup)
    } else if name_is(name, "thumb") {
        Some(Tag::Thumb)
    } else if name_is(name, "u") {
        Some(Tag::U)
    } else if name_is(name, "/u") {
        Some(Tag::C_U)
    } else if name_is(name, "ul") {
        Some(Tag::Ul)
    } else if name_is(name, "/ul") {
        Some(Tag::C_Ul)
    } else {
        None
    }
}

/// How many tab-terminated arguments follow the tag.
pub open spec fn arity(t: Tag) -> nat {
    match t {
        Tag::A => 2,
        Tag::Abbr => 1,
        Tag::Acro => 1,
        Tag::Avatar => 2,
        Tag::Dev => 2,
        Tag::Embed => 3,
        Tag::Emote => 5,
        Tag::Iframe => 3,
        Tag::Img => 3,
        Tag::Link => 2,
        Tag::Thumb => 6,
        _ => 0,
    }
}

fn arity_of(t: Tag) -> (r: usize)
    ensures
        r == arity(t),
{
    match t {
        Tag::A => 2,
        Tag::Abbr => 1,
        Tag::Acro => 1,
        Tag::Avatar => 2,
        Tag::Dev => 2,
        Tag::Embed => 3,
        Tag::Emote => 5,
        Tag::Iframe => 3,
        Tag::Img => 3,
        Tag::Link => 2,
        Tag::Thumb => 6,
        _ => 0,
    }
}

impl View for Tablump {
    type V = TablumpV;

    open spec fn view(&self) -> TablumpV {
        match self {
            Tablump::A(a, b) => TablumpV { tag: Tag::A, args: seq![a@, b@] },
            Tablump::C_A => TablumpV { tag: Tag::C_A, args: Seq::empty() },
            Tablump::Abbr(a) => TablumpV { tag: Tag::Abbr, args: seq![a@] },
            Tablump::C_Abbr => TablumpV { tag: Tag::C_Abbr, args: Seq::empty() },
            Tablump::Acro(a) => TablumpV { tag: Tag::Acro, args: seq![a@] },
            Tablump::C_Acro => TablumpV { tag: Tag::C_Acro, args: Seq::empty() },
            Tablump::Avatar(a, b) => TablumpV { tag: Tag::Avatar, args: seq![a@, b@] },
            Tablump::B => TablumpV { tag: Tag::B, args: Seq::empty() },
            Tablump::C_B => TablumpV { tag: Tag::C_B, args: Seq::empty() },
            Tablump::Bcode => TablumpV { tag: Tag::Bcode, args: Seq::empty() },
            Tablump::C_Bcode => TablumpV { tag: Tag::C_Bcode, args: Seq::empty() },
            Tablump::Br => TablumpV { tag: Tag::Br, args: Seq::empty() },
            Tablump::Code => TablumpV { tag: Tag::Code, args: Seq::empty() },
            Tablump::C_Code => TablumpV { tag: Tag::C_Code, args: Seq::empty() },
            Tablump::Dev(a, b) => TablumpV { tag: Tag::Dev, args: seq![a@, b@] },
            Tablump::Embed(a, b, c) => TablumpV { tag: Tag::Embed, args: seq![a@, b@, c@] },
            Tablump::C_Embed => TablumpV { tag: Tag::C_Embed, args: Seq::empty() },
            Tablump::Emote(a, b, c, d, e) => TablumpV { tag: Tag::Emote, args: seq![a@, b@, c@, d@, e@] },
            Tablump::I => TablumpV { tag: Tag::I, args: Seq::empty() },
            Tablump::C_I => TablumpV { tag: Tag::C_I, args: Seq::empty() },
            Tablump::Iframe(a, b, c) => TablumpV { tag: Tag::Iframe, args: seq![a@, b@, c@] },
            Tablump::C_Iframe => TablumpV { tag: Tag::C_Iframe, args: Seq::empty() },
            Tablump::Img(a, b, c) => TablumpV { tag: Tag::Img, args: seq![a@, b@, c@] },
            Tablump::Li => TablumpV { tag: Tag::Li, args: Seq::empty() },
            Tablump::C_Li => TablumpV { tag: Tag::C_Li, args: Seq::empty() },
            Tablump::Link(a, None) => TablumpV { tag: Tag::Link, args: seq![a@] },
            Tablump::Link(a, Some(b)) => TablumpV { tag: Tag::Link, args: seq![a@, b@] },
            Tablump::Ol => TablumpV { tag: Tag::Ol, args: Seq::empty() },
            Tablump::C_Ol => TablumpV { tag: Tag::C_Ol, args: Seq::empty() },
            Tablump::P => TablumpV { tag: Tag::P, args: Seq::empty() },
            Tablump::C_P => TablumpV { tag: Tag::C_P, args: Seq::empty() },
            Tablump::S => TablumpV { tag: Tag::S, args: Seq::empty() },
            Tablump::C_S => TablumpV { tag: Tag::C_S, args: Seq::empty() },
            Tablump::Sub => TablumpV { tag: Tag::Sub, args: Seq::empty() },
            Tablump::C_Sub => TablumpV { tag: Tag::C_Sub, args: Seq::empty() },
            Tablump::Sup => TablumpV { tag: Tag::Sup, args: Seq::empty() },
            Tablump::C_Sup => TablumpV { tag: Tag::C_Sup, args: Seq::empty() },
            Tablump::Thumb(a, b, c, d, e, f) => TablumpV { tag: Tag::Thumb, args: seq![a@, b@, c@, d@, e@, f@] },
            Tablump::U => TablumpV { tag: Tag::U, args: Seq::empty() },
            Tablump::C_U => TablumpV { tag: Tag::C_U, args: Seq::empty() },
            Tablump::Ul => TablumpV { tag: Tag::Ul, args: Seq::empty() },
            Tablump::C_Ul => TablumpV { tag: Tag::C_Ul, args: Seq::empty() },
        }
    }
}

/// The tablump of a tag and its arguments.
fn make(tag: Tag, args: Vec<Arg>) -> (r: Tablump)
    requires
        tag != Tag::Link,
        args@.len() == arity(tag),
    ensures
        r@ == (TablumpV { tag, args: args_view(args@) }),
{
    let ghost v = args_view(args@);
    assert(arity(tag) == 0 ==> v =~= Seq::<Seq<u8>>::empty());
    let mut rest = args;
    match tag {
        Tag::A => {
            let a = rest.remove(0);
            let b = rest.remove(0);
            let r = Tablump::A(a, b);
            assert(r@.args =~= v);
            r
        },
        Tag::C_A => Tablump::C_A,
        Tag::Abbr => {
            let a = rest.remove(0);
            let r = Tablump::Abbr(a);
            assert(r@.args =~= v);
            r
        },
        Tag::C_Abbr => Tablump::C_Abbr,
        Tag::Acro => {
            let a = rest.remove(0);
            let r = Tablump::Acro(a);
            assert(r@.args =~= v);
            r
        },
        Tag::C_Acro => Tablump::C_Acro,
        Tag::Avatar => {
            let a = rest.remove(0);
            let b = rest.remove(0);
            let r = Tablump::Avatar(a, b);
            assert(r@.args =~= v);
            r
        },
        Tag::B => Tablump::B,
        Tag::C_B => Tablump::C_B,
        Tag::Bcode => Tablump::Bcode,
        Tag::C_Bcode => Tablump::C_Bcode,
        Tag::Br => Tablump::Br,
        Tag::Code => Tablump::Code,
        Tag::C_Code => Tablump::C_Code,
        Tag::Dev => {
            let a = rest.remove(0);
            let b = rest.remove(0);
            let r = Tablump::Dev(a, b);
            assert(r@.args =~= v);
            r
        },
        Tag::Embed => {
            let a = rest.remove(0);
            let b = rest.remove(0);
            let c = rest.remove(0);
            let r = Tablump::Embed(a, b, c);
            assert(r@.args =~= v);
            r
        },
        Tag::C_Embed => Tablump::C_Embed,
        Tag::Emote => {
            let a = rest.remove(0);
            let b = rest.remove(0);
            let c = rest.remove(0);
            let d = rest.remove(0);
            let e = rest.remove(0);
            let r = Tablump::Emote(a, b, c, d, e);
            assert(r@.args =~= v);
            r
        },
        Tag::I => Tablump::I,
        Tag::C_I => Tablump::C_I,
        Tag::Iframe => {
            let a = rest.remove(0);
            let b = rest.remove(0);
            let c = rest.remove(0);
            let r = Tablump::Iframe(a, b, c);
            assert(r@.args =~= v);
            r
        },
        Tag::C_Iframe => Tablump::C_Iframe,
        Tag::Img => {
            let a = rest.remove(0);
            let b = rest.remove(0);
            let c = rest.remove(0);
            let r = Tablump::Img(a, b, c);
            assert(r@.args =~= v);
            r
        },
        Tag::Li => Tablump::Li,
        Tag::C_Li => Tablump::C_Li,
        Tag::Ol => Tablump::Ol,
        Tag::C_Ol => Tablump::C_Ol,
        Tag::P => Tablump::P,
        Tag::C_P => Tablump::C_P,
        Tag::S => Tablump::S,
        Tag::C_S => Tablump::C_S,
        Tag::Sub => Tablump::Sub,
        Tag::C_Sub => Tablump::C_Sub,
        Tag::Sup => Tablump::Sup,
        Tag::C_Sup => Tablump::C_Sup,
        Tag::Thumb => {
            let a = rest.remove(0);
            let b = rest.remove(0);
            let c = rest.remove(0);
            let d = rest.remove(0);
            let e = rest.remove(0);
            let f = rest.remove(0);
            let r = Tablump::Thumb(a, b, c, d, e, f);
            assert(r@.args =~= v);
            r
        },
        Tag::U => Tablump::U,
        Tag::C_U => Tablump::C_U,
        Tag::Ul => Tablump::Ul,
        Tag::C_Ul => Tablump::C_Ul,
        Tag::Link => Tablump::C_A,
    }
}

/// The HTML of a tag that takes no argument.
pub open spec fn fixed_text(t: Tag) -> Seq<char> {
    match t {
        Tag::C_A => "</a>"@,
        Tag::C_Abbr => "</abbr>"@,
        Tag::C_Acro => "</acronym>"@,
        Tag::B => "<b>"@,
        Tag::C_B => "</b>"@,
        Tag::Bcode => "<bcode>"@,
        Tag::C_Bcode => "</bcode>"@,
        Tag::Br => "<br/>"@,
        Tag::Code => "<code>"@,
        Tag::C_Code => "</code>"@,
        Tag::C_Embed => "</embed>"@,
        Tag::I => "<i>"@,
        Tag::C_I => "</i>"@,
        Tag::C_Iframe => "</iframe>"@,
        Tag::Li => "<li>"@,
        Tag::C_Li => "</li>"@,
        Tag::Ol => "<ol>"@,
        Tag::C_Ol => "</ol>"@,
        Tag::P => "<p>"@,
        Tag::C_P => "</p>"@,
        Tag::S => "<s>"@,
        Tag::C_S => "</s>"@,
        Tag::Sub => "<sub>"@,
        Tag::C_Sub => "</sub>"@,
        Tag::Sup => "<sup>"@,
        Tag::C_Sup => "</sup>"@,
        Tag::U => "<u>"@,
        Tag::C_U => "</u>"@,
        Tag::Ul => "<ul>"@,
        Tag::C_Ul => "</ul>"@,
        _ => Seq::empty(),
    }
}


// ---- reading ----

/// `ARG*`: `n` arguments, each ended by a tab, and where they end.
pub open spec fn args_at(s: Seq<u8>, i: int, n: nat) -> Option<(Seq<Seq<u8>>, int)>
    decreases n,
{
    if n == 0 {
        Some((Seq::empty(), i))
    } else {
        let t = scan(s, i, Class::Not(TAB));
        if 0 <= i <= s.len() && t < s.len() {
            match args_at(s, t + 1, (n - 1) as nat) {
                Some((rest, e)) => Some((seq![s.subrange(i, t)] + rest, e)),
                None => None,
            }
        } else {
            None
        }
    }
}

/// `&link\t HREF\t TEXT\t`, then `&\t` unless TEXT is `&`.
pub open spec fn link_at(s: Seq<u8>, i: int) -> Option<(TablumpV, int)> {
    match args_at(s, i, 2) {
        None => None,
        Some((a, e)) => if a[1] == seq![AMP] {
            Some((TablumpV { tag: Tag::Link, args: seq![a[0]] }, e))
        } else if 0 <= e && e + 1 < s.len() && s[e] == AMP && s[e + 1] == TAB {
            Some((TablumpV { tag: Tag::Link, args: a }, e + 2))
        } else {
            None
        },
    }
}

/// A tag that starts at `i`, and where it ends. No tag name is a prefix of another
/// (each is closed by the tab), so at most one of them can match.
pub open spec fn lump_at(s: Seq<u8>, i: int) -> Option<(TablumpV, int)> {
    if 0 <= i < s.len() && s[i] == AMP {
        let t = scan(s, i + 1, Class::Not(TAB));
        if t < s.len() {
            match tag_named(latin1(s.subrange(i + 1, t))) {
                None => None,
                Some(tag) => if tag == Tag::Link {
                    link_at(s, t + 1)
                } else {
                    match args_at(s, t + 1, arity(tag)) {
                        Some((args, e)) => Some((TablumpV { tag, args }, e)),
                        None => None,
                    }
                },
            }
        } else {
            None
        }
    } else {
        None
    }
}

/// One token at `i`: a run of bytes other than `&`, a tag, or a lone `&`.
pub open spec fn tok_at(s: Seq<u8>, i: int) -> (TokV, int) {
    if s[i] != AMP {
        let e = scan(s, i, Class::Not(AMP));
        (TokV::Text(s.subrange(i, e)), e)
    } else {
        match lump_at(s, i) {
            Some((l, e)) => (TokV::Lump(l), e),
            None => (TokV::Text(seq![AMP]), i + 1),
        }
    }
}

pub proof fn lemma_args_at_bounds(s: Seq<u8>, i: int, n: nat)
    ensures
        args_at(s, i, n) matches Some((a, e)) ==> a.len() == n && (n > 0 ==> i < e <= s.len())
            && (n == 0 ==> e == i),
    decreases n,
{
    if n > 0 && 0 <= i <= s.len() {
        lemma_scan_bounds(s, i, Class::Not(TAB));
        let t = scan(s, i, Class::Not(TAB));
        lemma_args_at_bounds(s, t + 1, (n - 1) as nat);
    }
}

pub proof fn lemma_tok_at_advances(s: Seq<u8>, i: int)
    requires
        0 <= i < s.len(),
    ensures
        i < tok_at(s, i).1 <= s.len(),
{
    if s[i] != AMP {
        lemma_scan_bounds(s, i, Class::Not(AMP));
    } else if lump_at(s, i) is Some {
        lemma_scan_bounds(s, i + 1, Class::Not(TAB));
        let t = scan(s, i + 1, Class::Not(TAB));
        lemma_args_at_bounds(s, t + 1, 2);
        if let Some(tag) = tag_named(latin1(s.subrange(i + 1, t))) {
            lemma_args_at_bounds(s, t + 1, arity(tag));
        }
    }
}

/// The tokens from `i` to the end.
pub open spec fn toks_at(s: Seq<u8>, i: int) -> Seq<TokV>
    decreases s.len() - i,
{
    if 0 <= i < s.len() {
        proof {
            lemma_tok_at_advances(s, i);
        }
        let (t, e) = tok_at(s, i);
        seq![t] + toks_at(s, e)
    } else {
        Seq::empty()
    }
}

/// Adjacent literal runs joined into one; empty runs dropped.
pub open spec fn collapsed(ts: Seq<TokV>) -> Seq<TokV>
    decreases ts.len(),
{
    if ts.len() == 0 {
        Seq::empty()
    } else {
        let c = collapsed(ts.drop_last());
        match ts.last() {
            TokV::Text(b) => if b.len() == 0 {
                c
            } else if c.len() > 0 && c.last() is Text {
                c.drop_last().push(TokV::Text(c.last()->Text_0 + b))
            } else {
                c.push(TokV::Text(b))
            },
            TokV::Lump(l) => c.push(TokV::Lump(l)),
        }
    }
}

/// What the markup in `s` reads as.
pub open spec fn parse_markup(s: Seq<u8>) -> Seq<TokV> {
    collapsed(toks_at(s, 0))
}

fn args(s: &[u8], i: usize, n: usize) -> (r: Option<(Vec<Arg>, usize)>)
    requires
        i <= s@.len(),
    ensures
        match r {
            Some((a, e)) => args_at(s@, i as int, n as nat) == Some((args_view(a@), e as int)),
            None => args_at(s@, i as int, n as nat) is None,
        },
    decreases n,
{
    if n == 0 {
        let v: Vec<Arg> = Vec::new();
        assert(args_view(v@) =~= Seq::<Seq<u8>>::empty());
        return Some((v, i));
    }
    let t = scan_from(s, i, Class::Not(TAB));
    proof {
        lemma_scan_bounds(s@, i as int, Class::Not(TAB));
    }
    if t >= s.len() {
        return None;
    }
    match args(s, t + 1, n - 1) {
        None => None,
        Some((rest, e)) => {
            let mut a: Vec<Arg> = Vec::new();
            a.push(copy_range(s, i, t));
            let mut rest = rest;
            let ghost rv = args_view(rest@);
            a.append(&mut rest);
            assert(args_view(a@) =~= seq![s@.subrange(i as int, t as int)] + rv);
            Some((a, e))
        },
    }
}

/// A `&link` tag whose arguments start at `i`.
fn link(s: &[u8], i: usize) -> (r: Option<(Tablump, usize)>)
    requires
        i <= s@.len(),
    ensures
        match r {
            Some((l, e)) => link_at(s@, i as int) == Some((l@, e as int)),
            None => link_at(s@, i as int) is None,
        },
{
    match args(s, i, 2) {
        None => None,
        Some((a, e)) => {
            proof {
                lemma_args_at_bounds(s@, i as int, 2);
            }
            let ghost av = args_view(a@);
            let mut a = a;
            let href = a.remove(0);
            let text = a.remove(0);
            assert(href@ == av[0] && text@ == av[1]);
            if text.len() == 1 && text[0] == AMP {
                assert(text@ =~= seq![AMP]);
                Some((Tablump::Link(href, None), e))
            } else {
                assert(text@ != seq![AMP]);
                if e < s.len() && s[e] == AMP && e + 1 < s.len() && s[e + 1] == TAB {
                    let r = Tablump::Link(href, Some(text));
                    assert(r@.args =~= av);
                    Some((r, e + 2))
                } else {
                    None
                }
            }
        },
    }
}

/// A tag at `i`.
fn lump(s: &[u8], i: usize) -> (r: Option<(Tablump, usize)>)
    requires
        i <= s@.len(),
    ensures
        match r {
            Some((l, e)) => lump_at(s@, i as int) == Some((l@, e as int)),
            None => lump_at(s@, i as int) is None,
        },
{
    if !(i < s.len() && s[i] == AMP) {
        return None;
    }
    let t = scan_from(s, i + 1, Class::Not(TAB));
    proof {
        lemma_scan_bounds(s@, i + 1, Class::Not(TAB));
    }
    if t >= s.len() {
        return None;
    }
    let name = copy_range(s, i + 1, t);
    match tag_of(name.as_slice()) {
        None => None,
        Some(tag) => if tag == Tag::Link {
            link(s, t + 1)
        } else {
            match args(s, t + 1, arity_of(tag)) {
                Some((a, e)) => {
                    proof {
                        lemma_args_at_bounds(s@, t + 1, arity(tag));
                    }
                    Some((make(tag, a), e))
                },
                None => None,
            }
        },
    }
}

/// Whether a byte can stand in a literal run.
pub fn notamp(c: u8) -> (r: bool)
    ensures
        r == (c != AMP),
{
    c != AMP
}

/// One token at `i`.
fn tok(s: &[u8], i: usize) -> (r: (Either<Vec<u8>, Tablump>, usize))
    requires
        i < s@.len(),
    ensures
        tok_at(s@, i as int) == (tok_view(r.0), r.1 as int),
{
    if notamp(s[i]) {
        let e = scan_from(s, i, Class::Not(AMP));
        proof {
            lemma_scan_bounds(s@, i as int, Class::Not(AMP));
        }
        (Either::A(copy_range(s, i, e)), e)
    } else {
        match lump(s, i) {
            Some((l, e)) => (Either::B(l), e),
            None => {
                let mut v: Vec<u8> = Vec::new();
                v.push(AMP);
                assert(v@ =~= seq![AMP]);
                (Either::A(v), i + 1)
            },
        }
    }
}

/// Joins adjacent literal runs and drops empty ones.
pub fn collapse(i: ParsedText) -> (r: ParsedText)
    ensures
        toks_view(r@) == collapsed(toks_view(i@)),
{
    let ghost iv = toks_view(i@);
    let mut src = i;
    let mut new: ParsedText = Vec::new();
    let mut left: Vec<u8> = Vec::new();
    let ghost mut k: int = 0;
    while src.len() > 0
        invariant
            0 <= k <= iv.len(),
            toks_view(src@) == iv.subrange(k, iv.len() as int),
            collapsed(iv.subrange(0, k)) == toks_view(new@) + (if left@.len() > 0 {
                seq![TokV::Text(left@)]
            } else {
                Seq::empty()
            }),
            new@.len() > 0 ==> tok_view(new@.last()) is Lump,
        decreases src@.len(),
    {
        let ghost before = src@;
        assert(toks_view(before).len() == before.len());
        assert(k < iv.len());
        assert(iv[k] == iv.subrange(k, iv.len() as int)[0]);
        let item = src.remove(0);
        assert(toks_view(src@) =~= toks_view(before).subrange(1, before.len() as int));
        assert(toks_view(before)[0] == tok_view(before[0]));
        assert(iv[k] == tok_view(item));
        assert(iv.subrange(0, k + 1).drop_last() =~= iv.subrange(0, k));
        match item {
            Either::A(a) => {
                let mut a = a;
                left.append(&mut a);
            },
            Either::B(b) => {
                if left.len() > 0 {
                    new.push(Either::A(left));
                    left = Vec::new();
                }
                new.push(Either::B(b));
            },
        }
        proof {
            k = k + 1;
        }
        assert(toks_view(new@) + Seq::<TokV>::empty() =~= toks_view(new@));
    }
    assert(iv.subrange(0, iv.len() as int) =~= iv);
    if left.len() > 0 {
        new.push(Either::A(left));
    }
    assert(toks_view(new@) + Seq::<TokV>::empty() =~= toks_view(new@));
    new
}

/// Reads the markup of a text: literal runs and tags, adjacent runs joined.
pub fn tablumps(input: &[u8]) -> (r: ParsedText)
    ensures
        toks_view(r@) == parse_markup(input@),
{
    let mut ts: ParsedText = Vec::new();
    let mut i: usize = 0;
    while i < input.len()
        invariant
            i <= input@.len(),
            toks_at(input@, 0) == toks_view(ts@) + toks_at(input@, i as int),
        decreases input@.len() - i,
    {
        proof {
            lemma_tok_at_advances(input@, i as int);
        }
        let (t, e) = tok(input, i);
        let ghost before = toks_view(ts@);
        ts.push(t);
        assert(toks_view(ts@) =~= before.push(tok_view(t)));
        assert(toks_view(ts@) + toks_at(input@, e as int) =~= before + toks_at(input@, i as int));
        i = e;
    }
    assert(toks_view(ts@) + toks_at(input@, i as int) =~= toks_view(ts@));
    collapse(ts)
}

// ---- rendering ----

/// The HTML text of a tag.
pub open spec fn lump_text(t: TablumpV) -> Seq<char> {
    match t.tag {
        Tag::A => "<a href=\""@ + latin1(t.args[0]) + "\" title=\""@ + latin1(t.args[1]) + "\">"@,
        Tag::Abbr => "<abbr title=\""@ + latin1(t.args[0]) + "\">"@,
        Tag::Acro => "<acronym title=\""@ + latin1(t.args[0]) + "\">"@,
        Tag::Avatar => ":icon"@ + latin1(t.args[0]) + ":"@,
        Tag::Dev => ":dev"@ + latin1(t.args[1]) + ":"@,
        Tag::Embed => "<embed src=\""@ + latin1(t.args[0]) + "\">"@,
        Tag::Emote => latin1(t.args[0]),
        Tag::Iframe => "<iframe src=\""@ + latin1(t.args[0]) + "\">"@,
        Tag::Img => "<img src=\""@ + latin1(t.args[0]) + "\" />"@,
        Tag::Thumb => ":thumb"@ + latin1(t.args[0]) + ":"@,
        Tag::Link => if t.args.len() == 1 {
            latin1(t.args[0])
        } else {
            latin1(t.args[0]) + " ("@ + latin1(t.args[1]) + ")"@
        },
        _ => fixed_text(t.tag),
    }
}

/// The text of a token: a literal run has its entities decoded.
pub open spec fn tok_text(t: TokV) -> Seq<char> {
    match t {
        TokV::Text(b) => entities_decoded(latin1(b)),
        TokV::Lump(l) => lump_text(l),
    }
}

/// The texts of the tokens, one after the other.
pub open spec fn rendered(ts: Seq<TokV>) -> Seq<char>
    decreases ts.len(),
{
    if ts.len() == 0 {
        Seq::empty()
    } else {
        rendered(ts.drop_last()) + tok_text(ts.last())
    }
}

fn lit(out: &mut Vec<char>, s: &str)
    ensures
        final(out)@ == old(out)@ + s@,
{
    let mut c = chars_of(s);
    out.append(&mut c);
}

fn lat(out: &mut Vec<char>, b: &[u8])
    ensures
        final(out)@ == old(out)@ + latin1(b@),
{
    let mut c = latin1_of(b);
    out.append(&mut c);
}

impl Tablump {
    /// The HTML text of the tag.
    pub fn as_string(&self) -> (r: String)
        ensures
            r@ == lump_text(self@),
    {
        let mut out: Vec<char> = Vec::new();
        match self {
            Tablump::C_A => lit(&mut out, "</a>"),
            Tablump::C_Abbr => lit(&mut out, "</abbr>"),
            Tablump::C_Acro => lit(&mut out, "</acronym>"),
            Tablump::B => lit(&mut out, "<b>"),
            Tablump::C_B => lit(&mut out, "</b>"),
            Tablump::Bcode => lit(&mut out, "<bcode>"),
            Tablump::C_Bcode => lit(&mut out, "</bcode>"),
            Tablump::Br => lit(&mut out, "<br/>"),
            Tablump::Code => lit(&mut out, "<code>"),
            Tablump::C_Code => lit(&mut out, "</code>"),
            Tablump::C_Embed => lit(&mut out, "</embed>"),
            Tablump::I => lit(&mut out, "<i>"),
            Tablump::C_I => lit(&mut out, "</i>"),
            Tablump::C_Iframe => lit(&mut out, "</iframe>"),
            Tablump::Li => lit(&mut out, "<li>"),
            Tablump::C_Li => lit(&mut out, "</li>"),
            Tablump::Ol => lit(&mut out, "<ol>"),
            Tablump::C_Ol => lit(&mut out, "</ol>"),
            Tablump::P => lit(&mut out, "<p>"),
            Tablump::C_P => lit(&mut out, "</p>"),
            Tablump::S => lit(&mut out, "<s>"),
            Tablump::C_S => lit(&mut out, "</s>"),
            Tablump::Sub => lit(&mut out, "<sub>"),
            Tablump::C_Sub => lit(&mut out, "</sub>"),
            Tablump::Sup => lit(&mut out, "<sup>"),
            Tablump::C_Sup => lit(&mut out, "</sup>"),
            Tablump::U => lit(&mut out, "<u>"),
            Tablump::C_U => lit(&mut out, "</u>"),
            Tablump::Ul => lit(&mut out, "<ul>"),
            Tablump::C_Ul => lit(&mut out, "</ul>"),
            Tablump::A(x, y) => {
                lit(&mut out, "<a href=\"");
                lat(&mut out, x.as_slice());
                lit(&mut out, "\" title=\"");
                lat(&mut out, y.as_slice());
                lit(&mut out, "\">");
            },
            Tablump::Abbr(x) => {
                lit(&mut out, "<abbr title=\"");
                lat(&mut out, x.as_slice());
                lit(&mut out, "\">");
            },
            Tablump::Acro(x) => {
                lit(&mut out, "<acronym title=\"");
                lat(&mut out, x.as_slice());
                lit(&mut out, "\">");
            },
            Tablump::Avatar(x, _) => {
                lit(&mut out, ":icon");
                lat(&mut out, x.as_slice());
                lit(&mut out, ":");
            },
            Tablump::Dev(_, y) => {
                lit(&mut out, ":dev");
                lat(&mut out, y.as_slice());
                lit(&mut out, ":");
            },
            Tablump::Embed(x, _, _) => {
                lit(&mut out, "<embed src=\"");
                lat(&mut out, x.as_slice());
                lit(&mut out, "\">");
            },
            Tablump::Emote(x, _, _, _, _) => {
                lat(&mut out, x.as_slice());
            },
            Tablump::Iframe(x, _, _) => {
                lit(&mut out, "<iframe src=\"");
                lat(&mut out, x.as_slice());
                lit(&mut out, "\">");
            },
            Tablump::Img(x, _, _) => {
                lit(&mut out, "<img src=\"");
                lat(&mut out, x.as_slice());
                lit(&mut out, "\" />");
            },
            Tablump::Thumb(x, _, _, _, _, _) => {
                lit(&mut out, ":thumb");
                lat(&mut out, x.as_slice());
                lit(&mut out, ":");
            },
            Tablump::Link(x, None) => lat(&mut out, x.as_slice()),
            Tablump::Link(x, Some(y)) => {
                lat(&mut out, x.as_slice());
                lit(&mut out, " (");
                lat(&mut out, y.as_slice());
                lit(&mut out, ")");
            },
        }
        assert(out@ =~= lump_text(self@));
        string_of(&out)
    }
}

/// The text of parsed markup: literal runs with their entities decoded, tags as HTML.
pub fn render(t: ParsedText) -> (r: String)
    ensures
        r@ == rendered(toks_view(t@)),
{
    let mut out: Vec<char> = Vec::new();
    let mut k: usize = 0;
    while k < t.len()
        invariant
            k <= t@.len(),
            out@ == rendered(toks_view(t@).subrange(0, k as int)),
        decreases t@.len() - k,
    {
        let ghost before = out@;
        match &t[k] {
            Either::A(s) => {
                let raw = latin1_of(s.as_slice());
                let d = decode_entities_or_keep(&raw);
                let mut c = chars_of(d.as_str());
                out.append(&mut c);
            },
            Either::B(l) => {
                let h = l.as_string();
                let mut c = chars_of(h.as_str());
                out.append(&mut c);
            },
        }
        assert(toks_view(t@).subrange(0, k + 1).drop_last() =~= toks_view(t@).subrange(0, k as int));
        k = k + 1;
    }
    assert(toks_view(t@).subrange(0, t@.len() as int) =~= toks_view(t@));
    string_of(&out)
}

} // verus!
