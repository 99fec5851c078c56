//! The wire grammar: frames of a header line, attribute lines and an optional body,
//! read from bytes and written back to bytes.
use vstd::prelude::*;
use crate::tablumps::{parse_markup, render, rendered, tablumps};
use crate::text::{
    Class, EQ, NL, NUL, SP, bytes_eq, copy_range, decode_bytes, decode_text, in_class, trim_nul, trimmed,
    lemma_plain_bytes, lemma_scan_bounds, lemma_scan_exact, plain_value, push_value, scan,
    scan_from, value_bytes,
};

verus! {

/// The body of a message: its bytes as they stand on the wire, the closing NUL included.
#[derive(Clone, Debug, PartialEq, Eq)]
pub struct MessageBody(pub Vec<u8>);

/// A frame: a named header with an optional argument, attributes, and an optional body.
///
/// `attrs` lists the attribute lines in the order in which they were read; where a key
/// appears twice, the later line counts. Two messages are equal where their attributes
/// map the same keys to the same values, whatever the order of the lines.
#[derive(Clone, Debug)]
pub struct Message {
    pub name: Vec<u8>,
    pub argument: Option<Vec<u8>>,
    pub attrs: Vec<(Vec<u8>, String)>,
    pub body: Option<MessageBody>,
}

/// The grammar nested in a body: a full message, or attribute lines with no header.
#[derive(Clone, Debug)]
pub struct SubMessage {
    pub name: Option<Vec<u8>>,
    pub argument: Option<Vec<u8>>,
    pub attrs: Vec<(Vec<u8>, String)>,
    pub body: Option<MessageBody>,
}

/// Why a frame could not be read.
#[derive(Clone, Copy, Debug, PartialEq, Eq, Structural)]
pub enum DecodeError {
    /// The bytes do not follow the grammar.
    Malformed,
    /// A complete message was read and bytes are left after it.
    Trailing,
}

pub type AttrsV = Seq<(Seq<u8>, Seq<char>)>;

pub struct MessageV {
    pub name: Seq<u8>,
    pub argument: Option<Seq<u8>>,
    pub attrs: AttrsV,
    pub body: Option<Seq<u8>>,
}

pub struct SubMessageV {
    pub name: Option<Seq<u8>>,
    pub argument: Option<Seq<u8>>,
    pub attrs: AttrsV,
    pub body: Option<Seq<u8>>,
}

pub open spec fn opt_bytes(o: Option<Vec<u8>>) -> Option<Seq<u8>> {
    match o {
        Some(v) => Some(v@),
        None => None,
    }
}

pub open spec fn body_view(o: Option<MessageBody>) -> Option<Seq<u8>> {
    match o {
        Some(b) => Some(b.0@),
        None => None,
    }
}

pub open spec fn attrs_view(v: Seq<(Vec<u8>, String)>) -> AttrsV {
    v.map_values(|p: (Vec<u8>, String)| (p.0@, p.1@))
}

impl View for Message {
    type V = MessageV;

    open spec fn view(&self) -> MessageV {
        MessageV {
            name: self.name@,
            argument: opt_bytes(self.argument),
            attrs: attrs_view(self.attrs@),
            body: body_view(self.body),
        }
    }
}

impl View for SubMessage {
    type V = SubMessageV;

    open spec fn view(&self) -> SubMessageV {
        SubMessageV {
            name: opt_bytes(self.name),
            argument: opt_bytes(self.argument),
            attrs: attrs_view(self.attrs@),
            body: body_view(self.body),
        }
    }
}

/// The value of the last line with key `k`.
pub open spec fn lookup(attrs: AttrsV, k: Seq<u8>) -> Option<Seq<char>>
    decreases attrs.len(),
{
    if attrs.len() == 0 {
        None
    } else if attrs.last().0 == k {
        Some(attrs.last().1)
    } else {
        lookup(attrs.drop_last(), k)
    }
}

/// The attributes as a map: each key to the value of its last line.
pub open spec fn attr_map(attrs: AttrsV) -> Map<Seq<u8>, Seq<char>> {
    Map::new(|k: Seq<u8>| lookup(attrs, k) is Some, |k: Seq<u8>| lookup(attrs, k)->Some_0)
}

pub open spec fn same_message(a: MessageV, b: MessageV) -> bool {
    &&& a.name == b.name
    &&& a.argument == b.argument
    &&& a.body == b.body
    &&& attr_map(a.attrs) == attr_map(b.attrs)
}

pub open spec fn same_submessage(a: SubMessageV, b: SubMessageV) -> bool {
    &&& a.name == b.name
    &&& a.argument == b.argument
    &&& a.body == b.body
    &&& attr_map(a.attrs) == attr_map(b.attrs)
}

// ---- the grammar, over a byte sequence and a position in it ----

/// `NAME (' ' ARGUMENT)? '\n'`: the name, the argument, and where the header ends.
pub open spec fn header_at(s: Seq<u8>, i: int) -> Option<(Seq<u8>, Option<Seq<u8>>, int)> {
    let e = scan(s, i, Class::Alpha);
    if e == i || e >= s.len() {
        None
    } else if s[e] == SP {
        let n = scan(s, e + 1, Class::Not(NL));
        if n < s.len() {
            Some((s.subrange(i, e), Some(s.subrange(e + 1, n)), n + 1))
        } else {
            None
        }
    } else if s[e] == NL {
        Some((s.subrange(i, e), None, e + 1))
    } else {
        None
    }
}

/// `KEY '=' VALUE '\n'`: the key, the decoded value, and where the line ends.
pub open spec fn attr_at(s: Seq<u8>, i: int) -> Option<((Seq<u8>, Seq<char>), int)> {
    let k = scan(s, i, Class::Alnum);
    if k > i && k < s.len() && s[k] == EQ {
        let n = scan(s, k + 1, Class::Not(NL));
        if n < s.len() {
            Some(((s.subrange(i, k), decode_text(s.subrange(k + 1, n))), n + 1))
        } else {
            None
        }
    } else {
        None
    }
}

pub proof fn lemma_attr_at_advances(s: Seq<u8>, i: int)
    ensures
        attr_at(s, i) matches Some((_, j)) ==> i < j <= s.len(),
{
    if 0 <= i <= s.len() {
        lemma_scan_bounds(s, i, Class::Alnum);
        let k = scan(s, i, Class::Alnum);
        if k > i && k < s.len() && s[k] == EQ {
            lemma_scan_bounds(s, k + 1, Class::Not(NL));
        }
    }
}

/// `ATTR*`, as many lines as follow one another, and where they end.
pub open spec fn attrs_at(s: Seq<u8>, i: int) -> (AttrsV, int)
    decreases s.len() - i,
{
    match attr_at(s, i) {
        Some((p, j)) => {
            proof {
                lemma_attr_at_advances(s, i);
            }
            let (rest, e) = attrs_at(s, j);
            (seq![p] + rest, e)
        },
        None => (Seq::empty(), i),
    }
}

/// `'\n' BYTES NUL | NUL`: the body (its bytes and the NUL) or none, and where it ends.
pub open spec fn body_at(s: Seq<u8>, i: int) -> Option<(Option<Seq<u8>>, int)> {
    if 0 <= i < s.len() && s[i] == NUL {
        Some((None, i + 1))
    } else if 0 <= i < s.len() && s[i] == NL {
        let z = scan(s, i + 1, Class::Not(NUL));
        if z < s.len() {
            Some((Some(s.subrange(i + 1, z + 1)), z + 1))
        } else {
            None
        }
    } else {
        None
    }
}

/// A whole message that starts at `i`, and where it ends.
pub open spec fn message_at(s: Seq<u8>, i: int) -> Option<(MessageV, int)> {
    match header_at(s, i) {
        None => None,
        Some((name, argument, j)) => {
            let (attrs, k) = attrs_at(s, j);
            match body_at(s, k) {
                None => None,
                Some((body, e)) => Some(
                    (MessageV { name, argument, attrs, body }, e),
                ),
            }
        },
    }
}

/// What reading a frame gives: the message, where it takes up every byte.
pub open spec fn decode(s: Seq<u8>) -> Result<MessageV, DecodeError> {
    match message_at(s, 0) {
        None => Err(DecodeError::Malformed),
        Some((m, e)) => if e == s.len() {
            Ok(m)
        } else {
            Err(DecodeError::Trailing)
        },
    }
}

/// What reading a body as the nested grammar gives. Attribute lines are tried first;
/// where none stands at the start, a full message is read.
pub open spec fn decode_sub(s: Seq<u8>) -> Result<SubMessageV, DecodeError> {
    if attr_at(s, 0) is Some {
        let (attrs, k) = attrs_at(s, 0);
        if k == s.len() {
            Ok(SubMessageV { name: None, argument: None, attrs, body: None })
        } else {
            match body_at(s, k) {
                None => Err(DecodeError::Malformed),
                Some((body, e)) => if e == s.len() {
                    Ok(SubMessageV { name: None, argument: None, attrs, body })
                } else {
                    Err(DecodeError::Trailing)
                },
            }
        }
    } else {
        match message_at(s, 0) {
            None => Err(DecodeError::Malformed),
            Some((m, e)) => if e == s.len() {
                Ok(
                    SubMessageV {
                        name: Some(m.name),
                        argument: m.argument,
                        attrs: m.attrs,
                        body: m.body,
                    },
                )
            } else {
                Err(DecodeError::Trailing)
            },
        }
    }
}

pub open spec fn message_result(r: Result<Message, DecodeError>) -> Result<MessageV, DecodeError> {
    match r {
        Ok(m) => Ok(m@),
        Err(e) => Err(e),
    }
}

pub open spec fn submessage_result(r: Result<SubMessage, DecodeError>) -> Result<
    SubMessageV,
    DecodeError,
> {
    match r {
        Ok(m) => Ok(m@),
        Err(e) => Err(e),
    }
}

// ---- reading ----

fn header(s: &[u8], i: usize) -> (r: Option<(Vec<u8>, Option<Vec<u8>>, usize)>)
    requires
        i <= s@.len(),
    ensures
        match r {
            Some((n, a, j)) => header_at(s@, i as int) == Some((n@, opt_bytes(a), j as int)),
            None => header_at(s@, i as int) is None,
        },
{
    let e = scan_from(s, i, Class::Alpha);
    proof {
        lemma_scan_bounds(s@, i as int, Class::Alpha);
    }
    if e == i || e >= s.len() {
        return None;
    }
    if s[e] == SP {
        let n = scan_from(s, e + 1, Class::Not(NL));
        proof {
            lemma_scan_bounds(s@, e + 1, Class::Not(NL));
        }
        if n < s.len() {
            Some((copy_range(s, i, e), Some(copy_range(s, e + 1, n)), n + 1))
        } else {
            None
        }
    } else if s[e] == NL {
        Some((copy_range(s, i, e), None, e + 1))
    } else {
        None
    }
}

fn attr(s: &[u8], i: usize) -> (r: Option<(Vec<u8>, String, usize)>)
    requires
        i <= s@.len(),
    ensures
        match r {
            Some((k, v, j)) => attr_at(s@, i as int) == Some(((k@, v@), j as int)),
            None => attr_at(s@, i as int) is None,
        },
{
    let k = scan_from(s, i, Class::Alnum);
    proof {
        lemma_scan_bounds(s@, i as int, Class::Alnum);
    }
    if k > i && k < s.len() && s[k] == EQ {
        let n = scan_from(s, k + 1, Class::Not(NL));
        proof {
            lemma_scan_bounds(s@, k + 1, Class::Not(NL));
        }
        if n < s.len() {
            let raw = copy_range(s, k + 1, n);
            let v = decode_bytes(raw.as_slice());
            Some((copy_range(s, i, k), v, n + 1))
        } else {
            None
        }
    } else {
        None
    }
}

fn attrs(s: &[u8], i: usize) -> (r: (Vec<(Vec<u8>, String)>, usize))
    requires
        i <= s@.len(),
    ensures
        attrs_at(s@, i as int) == (attrs_view(r.0@), r.1 as int),
{
    let mut acc: Vec<(Vec<u8>, String)> = Vec::new();
    let mut j = i;
    loop
        invariant
            i <= j <= s@.len(),
            attrs_at(s@, i as int) == (
                attrs_view(acc@) + attrs_at(s@, j as int).0,
                attrs_at(s@, j as int).1,
            ),
        decreases s@.len() - j,
    {
        match attr(s, j) {
            None => {
                assert(attrs_view(acc@) + Seq::<(Seq<u8>, Seq<char>)>::empty() == attrs_view(acc@));
                return (acc, j);
            },
            Some((k, v, next)) => {
                proof {
                    lemma_attr_at_advances(s@, j as int);
                }
                let ghost before = acc@;
                let ghost p = (k@, v@);
                acc.push((k, v));
                assert(attrs_view(acc@) == attrs_view(before).push(p));
                assert(attrs_view(before) + attrs_at(s@, j as int).0 == attrs_view(acc@)
                    + attrs_at(s@, next as int).0);
                j = next;
            },
        }
    }
}

fn body(s: &[u8], i: usize) -> (r: Option<(Option<MessageBody>, usize)>)
    requires
        i <= s@.len(),
    ensures
        match r {
            Some((b, j)) => body_at(s@, i as int) == Some((body_view(b), j as int)),
            None => body_at(s@, i as int) is None,
        },
{
    if i < s.len() && s[i] == NUL {
        Some((None, i + 1))
    } else if i < s.len() && s[i] == NL {
        let z = scan_from(s, i + 1, Class::Not(NUL));
        proof {
            lemma_scan_bounds(s@, i + 1, Class::Not(NUL));
        }
        if z < s.len() {
            Some((Some(MessageBody(copy_range(s, i + 1, z + 1))), z + 1))
        } else {
            None
        }
    } else {
        None
    }
}

fn message(s: &[u8], i: usize) -> (r: Option<(Message, usize)>)
    requires
        i <= s@.len(),
    ensures
        match r {
            Some((m, j)) => message_at(s@, i as int) == Some((m@, j as int)),
            None => message_at(s@, i as int) is None,
        },
{
    let (name, argument, j) = match header(s, i) {
        None => return None,
        Some(h) => h,
    };
    proof {
        lemma_scan_bounds(s@, i as int, Class::Alpha);
        let e = scan(s@, i as int, Class::Alpha);
        if s@[e] == SP {
            lemma_scan_bounds(s@, e + 1, Class::Not(NL));
        }
    }
    let (attrs, k) = attrs(s, j);
    proof {
        lemma_attrs_at_bounds(s@, j as int);
    }
    match body(s, k) {
        None => None,
        Some((body, e)) => Some((Message { name, argument, attrs, body }, e)),
    }
}

pub proof fn lemma_attrs_at_bounds(s: Seq<u8>, i: int)
    requires
        0 <= i <= s.len(),
    ensures
        i <= attrs_at(s, i).1 <= s.len(),
    decreases s.len() - i,
{
    lemma_attr_at_advances(s, i);
    if let Some((_, j)) = attr_at(s, i) {
        lemma_attrs_at_bounds(s, j);
    }
}

/// Reads one frame. It succeeds exactly where the bytes are one message of the
/// grammar with nothing after it.
pub fn parse(bs: &[u8]) -> (r: Result<Message, DecodeError>)
    ensures
        message_result(r) == decode(bs@),
{
    match message(bs, 0) {
        None => Err(DecodeError::Malformed),
        Some((m, e)) => if e == bs.len() {
            Ok(m)
        } else {
            Err(DecodeError::Trailing)
        },
    }
}

// ---- writing ----

/// One attribute line: `KEY '=' VALUE '\n'`, the value written as reading takes it
/// (see `value_bytes`).
pub open spec fn attr_line(p: (Seq<u8>, Seq<char>)) -> Seq<u8> {
    p.0 + seq![EQ] + value_bytes(p.1) + seq![NL]
}

/// The attribute lines, in order.
pub open spec fn attr_lines(attrs: AttrsV) -> Seq<u8>
    decreases attrs.len(),
{
    if attrs.len() == 0 {
        Seq::empty()
    } else {
        attr_lines(attrs.drop_last()) + attr_line(attrs.last())
    }
}

pub open spec fn header_bytes(name: Seq<u8>, argument: Option<Seq<u8>>) -> Seq<u8> {
    match argument {
        Some(a) => name + seq![SP] + a + seq![NL],
        None => name + seq![NL],
    }
}

pub open spec fn body_bytes(body: Option<Seq<u8>>) -> Seq<u8> {
    match body {
        Some(b) => seq![NL] + b,
        None => seq![NUL],
    }
}

/// The bytes that a message is written as.
pub open spec fn encode(m: MessageV) -> Seq<u8> {
    header_bytes(m.name, m.argument) + attr_lines(m.attrs) + body_bytes(m.body)
}

pub fn append(out: &mut Vec<u8>, x: &[u8])
    ensures
        final(out)@ == old(out)@ + x@,
{
    let mut k: usize = 0;
    while k < x.len()
        invariant
            k <= x@.len(),
            out@ == old(out)@ + x@.subrange(0, k as int),
        decreases x@.len() - k,
    {
        out.push(x[k]);
        assert(x@.subrange(0, k + 1) == x@.subrange(0, k as int).push(x@[k as int]));
        k = k + 1;
    }
    assert(x@.subrange(0, x@.len() as int) == x@);
}

impl Message {
    /// The message as wire bytes: the header line, each attribute line in the order
    /// held, then a newline and the body, or a single NUL where there is no body.
    pub fn as_bytes(&self) -> (r: Vec<u8>)
        ensures
            r@ == encode(self@),
    {
        let mut out: Vec<u8> = Vec::new();
        append(&mut out, self.name.as_slice());
        match &self.argument {
            Some(a) => {
                out.push(SP);
                append(&mut out, a.as_slice());
            },
            None => {},
        }
        out.push(NL);
        assert(out@ == header_bytes(self@.name, self@.argument));
        let ghost head = out@;
        let mut i: usize = 0;
        while i < self.attrs.len()
            invariant
                i <= self.attrs@.len(),
                out@ == head + attr_lines(attrs_view(self.attrs@.subrange(0, i as int))),
            decreases self.attrs@.len() - i,
        {
            let ghost before = out@;
            let (k, v) = &self.attrs[i];
            append(&mut out, k.as_slice());
            out.push(EQ);
            push_value(&mut out, v.as_str());
            out.push(NL);
            assert(attrs_view(self.attrs@.subrange(0, i + 1)).drop_last() == attrs_view(
                self.attrs@.subrange(0, i as int),
            ));
            assert(out@ == before + attr_line((k@, v@)));
            i = i + 1;
        }
        assert(self.attrs@.subrange(0, self.attrs@.len() as int) == self.attrs@);
        match &self.body {
            Some(b) => {
                out.push(NL);
                append(&mut out, b.0.as_slice());
            },
            None => {
                out.push(NUL);
            },
        }
        out
    }
}

// ---- the nested grammar ----

fn submessage_of(s: &[u8]) -> (r: Result<SubMessage, DecodeError>)
    ensures
        submessage_result(r) == decode_sub(s@),
{
    if attr(s, 0).is_some() {
        let (attrs, k) = attrs(s, 0);
        proof {
            lemma_attrs_at_bounds(s@, 0);
        }
        if k == s.len() {
            return Ok(SubMessage { name: None, argument: None, attrs, body: None });
        }
        match body(s, k) {
            None => Err(DecodeError::Malformed),
            Some((body, e)) => if e == s.len() {
                Ok(SubMessage { name: None, argument: None, attrs, body })
            } else {
                Err(DecodeError::Trailing)
            },
        }
    } else {
        match message(s, 0) {
            None => Err(DecodeError::Malformed),
            Some((m, e)) => if e == s.len() {
                Ok(SubMessage { name: Some(m.name), argument: m.argument, attrs: m.attrs, body: m.body })
            } else {
                Err(DecodeError::Trailing)
            },
        }
    }
}

impl MessageBody {
    /// The body read as the nested grammar; it must take up every byte of the body.
    pub fn submessage(&self) -> (r: Result<SubMessage, DecodeError>)
        ensures
            submessage_result(r) == decode_sub(self.0@),
    {
        submessage_of(self.0.as_slice())
    }

    /// The body as text: the closing NUL (and a newline before it) taken off, and the
    /// rest read as markup and rendered (literal runs with their entities decoded).
    pub fn to_string(&self) -> (r: String)
        ensures
            r@ == body_text(self.0@),
    {
        let t = trimmed(self.0.as_slice());
        render(tablumps(t.as_slice()))
    }
}

/// The text of a body: its markup rendered, once the closing NUL is off.
pub open spec fn body_text(b: Seq<u8>) -> Seq<char> {
    rendered(parse_markup(trim_nul(b)))
}

// ---- attribute lookup and equality ----

pub proof fn lemma_lookup_found(attrs: AttrsV, k: Seq<u8>)
    requires
        lookup(attrs, k) is Some,
    ensures
        exists|j: int| 0 <= j < attrs.len() && (#[trigger] attrs[j]).0 == k,
    decreases attrs.len(),
{
    if attrs.last().0 != k {
        lemma_lookup_found(attrs.drop_last(), k);
        let j = choose|j: int| 0 <= j < attrs.drop_last().len() && (#[trigger] attrs.drop_last()[j]).0 == k;
        assert(attrs[j] == attrs.drop_last()[j]);
    }
}

/// The value of the last attribute line with key `k`.
pub fn find_attr<'a>(attrs: &'a Vec<(Vec<u8>, String)>, k: &[u8]) -> (r: Option<&'a String>)
    ensures
        match r {
            Some(v) => lookup(attrs_view(attrs@), k@) == Some(v@),
            None => lookup(attrs_view(attrs@), k@) is None,
        },
{
    let mut i = attrs.len();
    assert(attrs@.subrange(0, i as int) == attrs@);
    while i > 0
        invariant
            i <= attrs@.len(),
            lookup(attrs_view(attrs@), k@) == lookup(attrs_view(attrs@.subrange(0, i as int)), k@),
        decreases i,
    {
        assert(attrs_view(attrs@.subrange(0, i as int)).drop_last() == attrs_view(
            attrs@.subrange(0, i - 1),
        ));
        if bytes_eq(attrs[i - 1].0.as_slice(), k) {
            return Some(&attrs[i - 1].1);
        }
        i = i - 1;
    }
    None
}

fn same_value(x: Option<&String>, y: Option<&String>) -> (r: bool)
    ensures
        r == (match (x, y) {
            (Some(u), Some(v)) => u@ == v@,
            (None, None) => true,
            _ => false,
        }),
{
    match (x, y) {
        (Some(u), Some(v)) => *u == *v,
        (None, None) => true,
        _ => false,
    }
}

/// Whether two attribute lists map the same keys to the same values.
pub fn attrs_agree(a: &Vec<(Vec<u8>, String)>, b: &Vec<(Vec<u8>, String)>) -> (r: bool)
    ensures
        r == (attr_map(attrs_view(a@)) == attr_map(attrs_view(b@))),
{
    let ghost va = attrs_view(a@);
    let ghost vb = attrs_view(b@);
    let mut i: usize = 0;
    while i < a.len()
        invariant
            i <= a@.len(),
            va == attrs_view(a@),
            vb == attrs_view(b@),
            forall|j: int| 0 <= j < i ==> lookup(va, #[trigger] va[j].0) == lookup(vb, va[j].0),
        decreases a@.len() - i,
    {
        let k = a[i].0.as_slice();
        if !same_value(find_attr(a, k), find_attr(b, k)) {
            assert(attr_map(va).contains_key(k@) != attr_map(vb).contains_key(k@) || attr_map(
                va,
            )[k@] != attr_map(vb)[k@]);
            return false;
        }
        i = i + 1;
    }
    let mut i: usize = 0;
    while i < b.len()
        invariant
            i <= b@.len(),
            va == attrs_view(a@),
            vb == attrs_view(b@),
            forall|j: int| 0 <= j < a@.len() ==> lookup(va, #[trigger] va[j].0) == lookup(vb, va[j].0),
            forall|j: int| 0 <= j < i ==> lookup(va, #[trigger] vb[j].0) == lookup(vb, vb[j].0),
        decreases b@.len() - i,
    {
        let k = b[i].0.as_slice();
        if !same_value(find_attr(a, k), find_attr(b, k)) {
            assert(attr_map(va).contains_key(k@) != attr_map(vb).contains_key(k@) || attr_map(
                va,
            )[k@] != attr_map(vb)[k@]);
            return false;
        }
        i = i + 1;
    }
    assert forall|k: Seq<u8>| lookup(va, k) == lookup(vb, k) by {
        if lookup(va, k) is Some {
            lemma_lookup_found(va, k);
        } else if lookup(vb, k) is Some {
            lemma_lookup_found(vb, k);
        }
    }
    assert(attr_map(va) =~= attr_map(vb));
    true
}

fn same_bytes_opt(x: &Option<Vec<u8>>, y: &Option<Vec<u8>>) -> (r: bool)
    ensures
        r == (opt_bytes(*x) == opt_bytes(*y)),
{
    match (x, y) {
        (Some(u), Some(v)) => bytes_eq(u.as_slice(), v.as_slice()),
        (None, None) => true,
        _ => false,
    }
}

fn same_body(x: &Option<MessageBody>, y: &Option<MessageBody>) -> (r: bool)
    ensures
        r == (body_view(*x) == body_view(*y)),
{
    match (x, y) {
        (Some(u), Some(v)) => bytes_eq(u.0.as_slice(), v.0.as_slice()),
        (None, None) => true,
        _ => false,
    }
}

impl PartialEq for Message {
    fn eq(&self, o: &Message) -> (r: bool) {
        bytes_eq(self.name.as_slice(), o.name.as_slice()) && same_bytes_opt(&self.argument, &o.argument)
            && same_body(&self.body, &o.body) && attrs_agree(&self.attrs, &o.attrs)
    }
}

impl vstd::std_specs::cmp::PartialEqSpecImpl for Message {
    open spec fn obeys_eq_spec() -> bool {
        true
    }

    open spec fn eq_spec(&self, o: &Message) -> bool {
        same_message(self@, o@)
    }
}

impl PartialEq for SubMessage {
    fn eq(&self, o: &SubMessage) -> (r: bool) {
        same_bytes_opt(&self.name, &o.name) && same_bytes_opt(&self.argument, &o.argument)
            && same_body(&self.body, &o.body) && attrs_agree(&self.attrs, &o.attrs)
    }
}

impl vstd::std_specs::cmp::PartialEqSpecImpl for SubMessage {
    open spec fn obeys_eq_spec() -> bool {
        true
    }

    open spec fn eq_spec(&self, o: &SubMessage) -> bool {
        same_submessage(self@, o@)
    }
}

impl Message {
    /// The nested message in the body, where there is a body and it reads as one.
    pub fn submessage(&self) -> (r: Option<SubMessage>)
        ensures
            match self.body {
                None => r is None,
                Some(b) => match decode_sub(b.0@) {
                    Ok(v) => r matches Some(x) && x@ == v,
                    Err(_) => r is None,
                },
            },
    {
        match &self.body {
            None => None,
            Some(b) => match b.submessage() {
                Ok(x) => Some(x),
                Err(_) => None,
            },
        }
    }

    /// The value of attribute `key`.
    pub fn get_attr(&self, key: &[u8]) -> (r: Option<&str>)
        ensures
            match r {
                Some(v) => lookup(self@.attrs, key@) == Some(v@),
                None => lookup(self@.attrs, key@) is None,
            },
    {
        match find_attr(&self.attrs, key) {
            Some(v) => Some(v.as_str()),
            None => None,
        }
    }

    pub fn has_attr(&self, key: &[u8]) -> (r: bool)
        ensures
            r == (lookup(self@.attrs, key@) is Some),
    {
        find_attr(&self.attrs, key).is_some()
    }

    /// Whether attribute `key` is there with value `value`.
    pub fn has_attr_of(&self, key: &[u8], value: &str) -> (r: bool)
        ensures
            r == (lookup(self@.attrs, key@) == Some(value@)),
    {
        match find_attr(&self.attrs, key) {
            Some(v) => *v == value.to_owned(),
            None => false,
        }
    }

    pub fn body_(&self) -> (r: &MessageBody)
        requires
            self.body is Some,
        ensures
            self.body == Some(*r),
    {
        self.body.as_ref().unwrap()
    }
}

impl SubMessage {
    /// The value of attribute `key`.
    pub fn get_attr(&self, key: &[u8]) -> (r: Option<&str>)
        ensures
            match r {
                Some(v) => lookup(self@.attrs, key@) == Some(v@),
                None => lookup(self@.attrs, key@) is None,
            },
    {
        match find_attr(&self.attrs, key) {
            Some(v) => Some(v.as_str()),
            None => None,
        }
    }

    pub fn has_attr(&self, key: &[u8]) -> (r: bool)
        ensures
            r == (lookup(self@.attrs, key@) is Some),
    {
        find_attr(&self.attrs, key).is_some()
    }

    /// Whether attribute `key` is there with value `value`.
    pub fn has_attr_of(&self, key: &[u8], value: &str) -> (r: bool)
        ensures
            r == (lookup(self@.attrs, key@) == Some(value@)),
    {
        match find_attr(&self.attrs, key) {
            Some(v) => *v == value.to_owned(),
            None => false,
        }
    }

    pub fn body_(&self) -> (r: &MessageBody)
        requires
            self.body is Some,
        ensures
            self.body == Some(*r),
    {
        self.body.as_ref().unwrap()
    }
}

// ---- laws of the grammar ----

pub proof fn lemma_scan_extend(p: Seq<u8>, t: Seq<u8>, i: int, c: Class)
    requires
        0 <= i <= p.len(),
        scan(p, i, c) < p.len(),
    ensures
        scan(p + t, i, c) == scan(p, i, c),
{
    lemma_scan_bounds(p, i, c);
    let e = scan(p, i, c);
    let s = p + t;
    assert forall|k: int| i <= k < e implies in_class(#[trigger] s[k], c) by {
        assert(s[k] == p[k]);
    }
    assert(s[e] == p[e]);
    lemma_scan_exact(s, i, e, c);
}

pub proof fn lemma_header_extend(p: Seq<u8>, t: Seq<u8>, i: int)
    requires
        0 <= i <= p.len(),
        header_at(p, i) is Some,
    ensures
        header_at(p + t, i) == header_at(p, i),
{
    let s = p + t;
    lemma_scan_extend(p, t, i, Class::Alpha);
    let e = scan(p, i, Class::Alpha);
    lemma_scan_bounds(p, i, Class::Alpha);
    assert(s[e] == p[e]);
    assert(s.subrange(i, e) =~= p.subrange(i, e));
    if p[e] == SP {
        lemma_scan_extend(p, t, e + 1, Class::Not(NL));
        lemma_scan_bounds(p, e + 1, Class::Not(NL));
        let n = scan(p, e + 1, Class::Not(NL));
        assert(s.subrange(e + 1, n) =~= p.subrange(e + 1, n));
    }
}

pub proof fn lemma_attr_extend(p: Seq<u8>, t: Seq<u8>, i: int)
    requires
        0 <= i <= p.len(),
        attr_at(p, i) is Some,
    ensures
        attr_at(p + t, i) == attr_at(p, i),
{
    let s = p + t;
    lemma_scan_extend(p, t, i, Class::Alnum);
    lemma_scan_bounds(p, i, Class::Alnum);
    let k = scan(p, i, Class::Alnum);
    assert(s[k] == p[k]);
    lemma_scan_extend(p, t, k + 1, Class::Not(NL));
    lemma_scan_bounds(p, k + 1, Class::Not(NL));
    let n = scan(p, k + 1, Class::Not(NL));
    assert(s.subrange(i, k) =~= p.subrange(i, k));
    assert(s.subrange(k + 1, n) =~= p.subrange(k + 1, n));
}

pub proof fn lemma_attrs_extend(p: Seq<u8>, t: Seq<u8>, i: int)
    requires
        0 <= i <= p.len(),
        attrs_at(p, i).1 < p.len(),
        p[attrs_at(p, i).1] == NUL || p[attrs_at(p, i).1] == NL,
    ensures
        attrs_at(p + t, i) == attrs_at(p, i),
    decreases p.len() - i,
{
    let s = p + t;
    lemma_attr_at_advances(p, i);
    if attr_at(p, i) is Some {
        lemma_attr_extend(p, t, i);
        let j = attr_at(p, i)->Some_0.1;
        lemma_attrs_extend(p, t, j);
    } else {
        assert(attrs_at(p, i).1 == i);
        assert(s[i] == p[i]);
        lemma_scan_bounds(s, i, Class::Alnum);
        assert(scan(s, i, Class::Alnum) == i);
    }
}

pub proof fn lemma_body_extend(p: Seq<u8>, t: Seq<u8>, i: int)
    requires
        0 <= i <= p.len(),
        body_at(p, i) is Some,
    ensures
        body_at(p + t, i) == body_at(p, i),
{
    let s = p + t;
    assert(s[i] == p[i]);
    if p[i] == NL {
        lemma_scan_extend(p, t, i + 1, Class::Not(NUL));
        lemma_scan_bounds(p, i + 1, Class::Not(NUL));
        let z = scan(p, i + 1, Class::Not(NUL));
        assert(s.subrange(i + 1, z + 1) =~= p.subrange(i + 1, z + 1));
    }
}

/// A frame is read whole or not at all: a frame that reads as a message ends in NUL,
/// so one missing its closing NUL fails to read; and bytes added after a frame that
/// reads make the whole fail, with `Trailing`, rather than being cut off.
pub proof fn law_no_truncation(p: Seq<u8>, t: Seq<u8>)
    ensures
        decode(p) is Ok ==> p.len() > 0 && p.last() == NUL,
        decode(p) is Ok && t.len() > 0 ==> decode(p + t) == Err::<MessageV, DecodeError>(
            DecodeError::Trailing,
        ),
{
    if let Some((m, e)) = message_at(p, 0) {
        let (name, argument, j) = header_at(p, 0)->Some_0;
        lemma_scan_bounds(p, 0, Class::Alpha);
        let a = scan(p, 0, Class::Alpha);
        if p[a] == SP {
            lemma_scan_bounds(p, a + 1, Class::Not(NL));
        }
        lemma_attrs_at_bounds(p, j);
        let k = attrs_at(p, j).1;
        if p[k] == NL {
            lemma_scan_bounds(p, k + 1, Class::Not(NUL));
        }
        if decode(p) is Ok && t.len() > 0 {
            lemma_header_extend(p, t, 0);
            lemma_attrs_extend(p, t, j);
            lemma_body_extend(p, t, k);
        }
    }
}

// ---- writing, then reading ----

pub open spec fn all_in(b: Seq<u8>, c: Class) -> bool {
    forall|k: int| 0 <= k < b.len() ==> in_class(#[trigger] b[k], c)
}

/// What every message that reading gives is like: an alphabetic name, an argument
/// without newline, alphanumeric keys, and a body that holds one NUL, at its end.
pub open spec fn well_formed(m: MessageV) -> bool {
    &&& m.name.len() > 0 && all_in(m.name, Class::Alpha)
    &&& (m.argument matches Some(a) ==> all_in(a, Class::Not(NL)))
    &&& forall|i: int|
        0 <= i < m.attrs.len() ==> (#[trigger] m.attrs[i]).0.len() > 0 && all_in(
            m.attrs[i].0,
            Class::Alnum,
        )
    &&& (m.body matches Some(b) ==> b.len() > 0 && b.last() == NUL && all_in(
        b.drop_last(),
        Class::Not(NUL),
    ))
}

/// Every attribute value is plain text (see `plain_value`).
pub open spec fn plain_attrs(attrs: AttrsV) -> bool {
    forall|i: int| 0 <= i < attrs.len() ==> plain_value((#[trigger] attrs[i]).1)
}

pub proof fn lemma_attrs_well_formed(s: Seq<u8>, i: int)
    requires
        0 <= i <= s.len(),
    ensures
        forall|k: int|
            0 <= k < attrs_at(s, i).0.len() ==> (#[trigger] attrs_at(s, i).0[k]).0.len() > 0
                && all_in(attrs_at(s, i).0[k].0, Class::Alnum),
    decreases s.len() - i,
{
    lemma_attr_at_advances(s, i);
    if let Some((p, j)) = attr_at(s, i) {
        lemma_attrs_well_formed(s, j);
        lemma_scan_bounds(s, i, Class::Alnum);
        let k = scan(s, i, Class::Alnum);
        assert(all_in(p.0, Class::Alnum)) by {
            assert forall|x: int| 0 <= x < p.0.len() implies in_class(#[trigger] p.0[x], Class::Alnum) by {
                assert(p.0[x] == s[i + x]);
            }
        }
        let rest = attrs_at(s, j).0;
        assert forall|x: int| 0 <= x < attrs_at(s, i).0.len() implies (#[trigger] attrs_at(
            s,
            i,
        ).0[x]).0.len() > 0 && all_in(attrs_at(s, i).0[x].0, Class::Alnum) by {
            if x > 0 {
                assert(attrs_at(s, i).0[x] == rest[x - 1]);
            }
        }
    }
}

/// Every message that reading gives is well formed.
pub proof fn lemma_decode_well_formed(s: Seq<u8>)
    requires
        decode(s) is Ok,
    ensures
        well_formed(decode(s)->Ok_0),
{
    let m = decode(s)->Ok_0;
    lemma_scan_bounds(s, 0, Class::Alpha);
    let e = scan(s, 0, Class::Alpha);
    assert forall|x: int| 0 <= x < m.name.len() implies in_class(#[trigger] m.name[x], Class::Alpha) by {
        assert(m.name[x] == s[x]);
    }
    let j = header_at(s, 0)->Some_0.2;
    if s[e] == SP {
        lemma_scan_bounds(s, e + 1, Class::Not(NL));
        let n = scan(s, e + 1, Class::Not(NL));
        let a = m.argument->Some_0;
        assert forall|x: int| 0 <= x < a.len() implies in_class(#[trigger] a[x], Class::Not(NL)) by {
            assert(a[x] == s[e + 1 + x]);
        }
    }
    lemma_attrs_at_bounds(s, j);
    lemma_attrs_well_formed(s, j);
    let k = attrs_at(s, j).1;
    if s[k] == NL {
        lemma_scan_bounds(s, k + 1, Class::Not(NUL));
        let z = scan(s, k + 1, Class::Not(NUL));
        let b = m.body->Some_0;
        assert(b.last() == s[z]);
        assert forall|x: int| 0 <= x < b.drop_last().len() implies in_class(
            #[trigger] b.drop_last()[x],
            Class::Not(NUL),
        ) by {
            assert(b.drop_last()[x] == s[k + 1 + x]);
        }
    }
}

pub proof fn lemma_attr_lines_front(ps: AttrsV)
    requires
        ps.len() > 0,
    ensures
        attr_lines(ps) == attr_line(ps[0]) + attr_lines(ps.drop_first()),
    decreases ps.len(),
{
    if ps.len() == 1 {
        assert(ps.drop_last() =~= Seq::<(Seq<u8>, Seq<char>)>::empty());
        assert(ps.drop_first() =~= Seq::<(Seq<u8>, Seq<char>)>::empty());
        assert(attr_lines(ps.drop_last()) == Seq::<u8>::empty());
        assert(ps.last() == ps[0]);
        assert(attr_lines(ps) =~= attr_line(ps[0]));
    } else {
        lemma_attr_lines_front(ps.drop_last());
        assert(ps.drop_last().drop_first() =~= ps.drop_first().drop_last());
        assert(ps.drop_first().last() == ps.last());
        assert(attr_lines(ps) =~= attr_line(ps[0]) + attr_lines(ps.drop_first()));
    }
}

/// A written attribute line reads back as the same key and value.
pub proof fn lemma_attr_line_reads(s: Seq<u8>, i: int, p: (Seq<u8>, Seq<char>))
    requires
        0 <= i,
        i + attr_line(p).len() <= s.len(),
        s.subrange(i, i + attr_line(p).len()) == attr_line(p),
        p.0.len() > 0,
        all_in(p.0, Class::Alnum),
        plain_value(p.1),
    ensures
        attr_at(s, i) == Some((p, i + attr_line(p).len())),
{
    let line = attr_line(p);
    let v = value_bytes(p.1);
    lemma_plain_bytes(p.1);
    let k = i + p.0.len();
    let n = k + 1 + v.len();
    assert forall|x: int| i <= x < k implies in_class(#[trigger] s[x], Class::Alnum) by {
        assert(s[x] == line[x - i]);
        assert(line[x - i] == p.0[x - i]);
    }
    assert(s[k] == line[k - i]);
    assert(line[k - i] == EQ);
    lemma_scan_exact(s, i, k, Class::Alnum);
    assert forall|x: int| k + 1 <= x < n implies in_class(#[trigger] s[x], Class::Not(NL)) by {
        assert(s[x] == line[x - i]);
        assert(line[x - i] == v[x - k - 1]);
    }
    assert(s[n] == line[n - i]);
    assert(line[n - i] == NL);
    lemma_scan_exact(s, k + 1, n, Class::Not(NL));
    assert(s.subrange(i, k) =~= p.0) by {
        assert forall|x: int| 0 <= x < k - i implies s.subrange(i, k)[x] == p.0[x] by {
            assert(s[i + x] == line[x]);
        }
    }
    assert(s.subrange(k + 1, n) =~= v) by {
        assert forall|x: int| 0 <= x < v.len() implies s.subrange(k + 1, n)[x] == v[x] by {
            assert(s[k + 1 + x] == line[k + 1 + x - i]);
        }
    }
}

/// Written attribute lines, followed by the start of a body, read back as the same
/// attributes.
pub proof fn lemma_attr_lines_read(s: Seq<u8>, i: int, ps: AttrsV)
    requires
        0 <= i,
        i + attr_lines(ps).len() < s.len(),
        s.subrange(i, i + attr_lines(ps).len()) == attr_lines(ps),
        s[i + attr_lines(ps).len()] == NUL || s[i + attr_lines(ps).len()] == NL,
        forall|x: int|
            0 <= x < ps.len() ==> (#[trigger] ps[x]).0.len() > 0 && all_in(ps[x].0, Class::Alnum),
        plain_attrs(ps),
    ensures
        attrs_at(s, i) == (ps, i + attr_lines(ps).len()),
    decreases ps.len(),
{
    if ps.len() == 0 {
        assert(attr_lines(ps).len() == 0);
        lemma_scan_bounds(s, i, Class::Alnum);
        assert(scan(s, i, Class::Alnum) == i);
        assert(attr_at(s, i) is None);
        assert(ps =~= Seq::<(Seq<u8>, Seq<char>)>::empty());
    } else {
        lemma_attr_lines_front(ps);
        let l0 = attr_line(ps[0]).len();
        let rest = ps.drop_first();
        let total = attr_lines(ps).len();
        assert(s.subrange(i, i + l0) =~= attr_line(ps[0])) by {
            assert forall|x: int| 0 <= x < l0 implies s.subrange(i, i + l0)[x] == attr_line(
                ps[0],
            )[x] by {
                assert(s.subrange(i, i + total)[x] == attr_lines(ps)[x]);
            }
        }
        lemma_attr_line_reads(s, i, ps[0]);
        assert(s.subrange(i + l0, i + total) =~= attr_lines(rest)) by {
            assert forall|x: int| 0 <= x < attr_lines(rest).len() implies s.subrange(
                i + l0,
                i + total,
            )[x] == attr_lines(rest)[x] by {
                assert(s.subrange(i, i + total)[l0 + x] == attr_lines(ps)[l0 + x]);
            }
        }
        assert forall|x: int|
            0 <= x < rest.len() implies (#[trigger] rest[x]).0.len() > 0 && all_in(
            rest[x].0,
            Class::Alnum,
        ) by {
            assert(rest[x] == ps[x + 1]);
        }
        assert forall|x: int| 0 <= x < rest.len() implies plain_value((#[trigger] rest[x]).1) by {
            assert(rest[x] == ps[x + 1]);
        }
        lemma_attr_lines_read(s, i + l0, rest);
        assert(seq![ps[0]] + rest =~= ps);
    }
}

/// A well-formed message whose attribute values are plain text reads back from its
/// bytes as itself.
pub proof fn lemma_encode_decode(m: MessageV)
    requires
        well_formed(m),
        plain_attrs(m.attrs),
    ensures
        decode(encode(m)) == Ok::<MessageV, DecodeError>(m),
{
    let h = header_bytes(m.name, m.argument);
    let a = attr_lines(m.attrs);
    let b = body_bytes(m.body);
    let s = encode(m);
    assert(s == h + a + b);
    let nl = m.name.len() as int;
    // the header
    assert forall|x: int| 0 <= x < nl implies in_class(#[trigger] s[x], Class::Alpha) by {
        assert(s[x] == h[x]);
        assert(h[x] == m.name[x]);
    }
    assert(s[nl] == h[nl]);
    lemma_scan_exact(s, 0, nl, Class::Alpha);
    assert(s.subrange(0, nl) =~= m.name);
    match m.argument {
        Some(arg) => {
            let n = nl + 1 + arg.len();
            assert forall|x: int| nl + 1 <= x < n implies in_class(#[trigger] s[x], Class::Not(NL)) by {
                assert(s[x] == h[x]);
                assert(h[x] == arg[x - nl - 1]);
            }
            assert(s[n] == h[n]);
            lemma_scan_exact(s, nl + 1, n, Class::Not(NL));
            assert(s.subrange(nl + 1, n) =~= arg);
            assert(header_at(s, 0) == Some((m.name, Some(arg), h.len() as int)));
        },
        None => {
            assert(header_at(s, 0) == Some((m.name, None::<Seq<u8>>, h.len() as int)));
        },
    }
    // the attribute lines
    let j = h.len() as int;
    assert(s.subrange(j, j + a.len()) =~= a);
    assert(s[j + a.len()] == b[0]);
    lemma_attr_lines_read(s, j, m.attrs);
    // the body
    let k = j + a.len();
    match m.body {
        Some(body) => {
            let z = k + body.len();
            assert forall|x: int| k + 1 <= x < z implies in_class(#[trigger] s[x], Class::Not(NUL)) by {
                assert(s[x] == b[x - k]);
                assert(b[x - k] == body[x - k - 1]);
                assert(body[x - k - 1] == body.drop_last()[x - k - 1]);
            }
            assert(s[z] == b[z - k]);
            lemma_scan_exact(s, k + 1, z, Class::Not(NUL));
            assert(s.subrange(k + 1, z + 1) =~= body);
        },
        None => {},
    }
}

/// Reading a frame, writing the message back and reading that again gives the message
/// first read, where its attribute values are plain text (see `plain_value`). Other
/// values can change in a second reading: an `&` may start an entity, a decoded
/// newline or character past U+00FF is written as itself, and a trailing NUL is taken
/// off.
pub proof fn law_round_trip(frame: Seq<u8>)
    requires
        decode(frame) is Ok,
        plain_attrs(decode(frame)->Ok_0.attrs),
    ensures
        decode(encode(decode(frame)->Ok_0)) == decode(frame),
        same_message(decode(encode(decode(frame)->Ok_0))->Ok_0, decode(frame)->Ok_0),
{
    lemma_decode_well_formed(frame);
    lemma_encode_decode(decode(frame)->Ok_0);
}

} // verus!
