//! Byte scanning, the Latin-1 view of bytes, and entity-decoded text.
use vstd::prelude::*;
use vstd::string::*;
use vstd::utf8::encode_utf8;

verus! {

pub const NUL: u8 = 0;

pub const TAB: u8 = 9;

pub const NL: u8 = 10;

pub const SP: u8 = 32;

pub const EQ: u8 = 61;

pub const AMP: u8 = 38;

/// A class of bytes over which the grammars scan.
#[derive(Clone, Copy, Debug)]
pub enum Class {
    /// `[A-Za-z]`
    Alpha,
    /// `[A-Za-z0-9]`
    Alnum,
    /// every byte but the one given
    Not(u8),
}

pub open spec fn is_alpha(b: u8) -> bool {
    (65 <= b <= 90) || (97 <= b <= 122)
}

pub open spec fn in_class(b: u8, c: Class) -> bool {
    match c {
        Class::Alpha => is_alpha(b),
        Class::Alnum => is_alpha(b) || (48 <= b <= 57),
        Class::Not(x) => b != x,
    }
}

/// The end of the longest run of bytes of class `c` that starts at `i`.
pub open spec fn scan(s: Seq<u8>, i: int, c: Class) -> int
    decreases s.len() - i,
{
    if 0 <= i < s.len() && in_class(s[i], c) {
        scan(s, i + 1, c)
    } else {
        i
    }
}

pub proof fn lemma_scan_bounds(s: Seq<u8>, i: int, c: Class)
    requires
        0 <= i <= s.len(),
    ensures
        i <= scan(s, i, c) <= s.len(),
        forall|k: int| i <= k < scan(s, i, c) ==> in_class(#[trigger] s[k], c),
        scan(s, i, c) < s.len() ==> !in_class(s[scan(s, i, c)], c),
    decreases s.len() - i,
{
    if i < s.len() && in_class(s[i], c) {
        lemma_scan_bounds(s, i + 1, c);
    }
}

pub proof fn lemma_scan_exact(s: Seq<u8>, i: int, j: int, c: Class)
    requires
        0 <= i <= j <= s.len(),
        forall|k: int| i <= k < j ==> in_class(#[trigger] s[k], c),
        j == s.len() || !in_class(s[j], c),
    ensures
        scan(s, i, c) == j,
    decreases j - i,
{
    if i < j {
        lemma_scan_exact(s, i + 1, j, c);
    }
}

pub fn class_has(b: u8, c: Class) -> (r: bool)
    ensures
        r == in_class(b, c),
{
    let alpha = (65 <= b && b <= 90) || (97 <= b && b <= 122);
    match c {
        Class::Alpha => alpha,
        Class::Alnum => alpha || (48 <= b && b <= 57),
        Class::Not(x) => b != x,
    }
}

/// Where the run of class `c` that starts at `i` ends.
pub fn scan_from(s: &[u8], i: usize, c: Class) -> (r: usize)
    requires
        i <= s@.len(),
    ensures
        r as int == scan(s@, i as int, c),
{
    let mut j = i;
    while j < s.len() && class_has(s[j], c)
        invariant
            i <= j <= s@.len(),
            scan(s@, i as int, c) == scan(s@, j as int, c),
        decreases s@.len() - j,
    {
        j = j + 1;
    }
    j
}

/// The bytes `s[i..j]` as a vector of their own.
pub fn copy_range(s: &[u8], i: usize, j: usize) -> (r: Vec<u8>)
    requires
        i <= j <= s@.len(),
    ensures
        r@ == s@.subrange(i as int, j as int),
{
    let mut r: Vec<u8> = Vec::new();
    let mut k = i;
    while k < j
        invariant
            i <= k <= j <= s@.len(),
            r@ == s@.subrange(i as int, k as int),
        decreases j - k,
    {
        r.push(s[k]);
        k = k + 1;
    }
    r
}

/// The bytes as a vector of their own.
pub fn copy_all(s: &[u8]) -> (r: Vec<u8>)
    ensures
        r@ == s@,
{
    let r = copy_range(s, 0, s.len());
    assert(s@.subrange(0, s@.len() as int) =~= s@);
    r
}

pub fn bytes_eq(a: &[u8], b: &[u8]) -> (r: bool)
    ensures
        r == (a@ == b@),
{
    if a.len() != b.len() {
        return false;
    }
    let mut k: usize = 0;
    while k < a.len()
        invariant
            a@.len() == b@.len(),
            k <= a@.len(),
            a@.subrange(0, k as int) == b@.subrange(0, k as int),
        decreases a@.len() - k,
    {
        if a[k] != b[k] {
            assert(a@[k as int] != b@[k as int]);
            return false;
        }
        assert(a@.subrange(0, k + 1) == a@.subrange(0, k as int).push(a@[k as int]));
        assert(b@.subrange(0, k + 1) == b@.subrange(0, k as int).push(b@[k as int]));
        k = k + 1;
    }
    assert(a@ == a@.subrange(0, a@.len() as int));
    assert(b@ == b@.subrange(0, b@.len() as int));
    true
}

/// Each byte read as the character of the same number.
pub open spec fn latin1(b: Seq<u8>) -> Seq<char> {
    b.map_values(|x: u8| x as char)
}

/// A trailing NUL taken off, and then a newline just before it.
pub open spec fn trim_nul(b: Seq<u8>) -> Seq<u8> {
    if b.len() > 0 && b.last() == NUL {
        let t = b.drop_last();
        if t.len() > 0 && t.last() == NL {
            t.drop_last()
        } else {
            t
        }
    } else {
        b
    }
}

/// What the HTML entity decoder makes of a text: `None` where it reports an error.
pub uninterp spec fn html_decoded(s: Seq<char>) -> Option<Seq<char>>;

/// A text with its HTML entities decoded; a text that the decoder refuses stays as it is,
/// and one without `&` holds no entity.
pub open spec fn entities_decoded(raw: Seq<char>) -> Seq<char> {
    if raw.contains('&') {
        match html_decoded(raw) {
            Some(t) => t,
            None => raw,
        }
    } else {
        raw
    }
}

/// The text that a run of wire bytes stands for.
pub open spec fn decode_text(b: Seq<u8>) -> Seq<char> {
    entities_decoded(latin1(trim_nul(b)))
}

/// Relies on `htmlescape::decode_html`: whether it succeeds, and the text it returns,
/// depend on the input text alone.
#[verifier::external_body]
fn decode_entities(s: &str) -> (r: Option<String>)
    ensures
        html_decoded(s@) == (match r {
            Some(t) => Some(t@),
            None => None::<Seq<char>>,
        }),
{
    match htmlescape::decode_html(s) {
        Ok(t) => Some(t),
        Err(_) => None,
    }
}

/// Relies on `String`'s `FromIterator<char>`: the string holds the characters, in order.
#[verifier::external_body]
pub(crate) fn string_of(cs: &Vec<char>) -> (r: String)
    ensures
        r@ == cs@,
{
    cs.iter().collect()
}

/// The characters of a string.
pub fn chars_of(s: &str) -> (r: Vec<char>)
    ensures
        r@ == s@,
{
    let n = s.unicode_len();
    let mut r: Vec<char> = Vec::new();
    let mut k: usize = 0;
    while k < n
        invariant
            n == s@.len(),
            k <= n,
            r@ == s@.subrange(0, k as int),
        decreases n - k,
    {
        r.push(s.get_char(k));
        k = k + 1;
    }
    r
}

/// The Latin-1 characters of some bytes.
pub fn latin1_of(b: &[u8]) -> (r: Vec<char>)
    ensures
        r@ == latin1(b@),
{
    let mut r: Vec<char> = Vec::new();
    let mut k: usize = 0;
    while k < b.len()
        invariant
            k <= b@.len(),
            r@ == latin1(b@.subrange(0, k as int)),
        decreases b@.len() - k,
    {
        r.push(b[k] as char);
        assert(latin1(b@.subrange(0, k + 1)) == latin1(b@.subrange(0, k as int)).push(
            b@[k as int] as char,
        ));
        k = k + 1;
    }
    assert(b@.subrange(0, b@.len() as int) == b@);
    r
}

/// Decodes the entities of a text, keeping the text where the decoder refuses it.
pub fn decode_entities_or_keep(raw: &Vec<char>) -> (r: String)
    ensures
        r@ == entities_decoded(raw@),
{
    let mut has_amp = false;
    let mut k: usize = 0;
    while k < raw.len()
        invariant
            k <= raw@.len(),
            has_amp == exists|j: int| 0 <= j < k && raw@[j] == '&',
        decreases raw@.len() - k,
    {
        if raw[k] == '&' {
            has_amp = true;
        }
        k = k + 1;
    }
    assert(has_amp == raw@.contains('&'));
    let s = string_of(raw);
    if has_amp {
        let d = decode_entities(s.as_str());
        decoded_or_raw(s, d)
    } else {
        s
    }
}

/// The decoder's result where it gave one, else the raw text.
pub fn decoded_or_raw(raw: String, decoded: Option<String>) -> (r: String)
    ensures
        r@ == (match decoded {
            Some(t) => t@,
            None => raw@,
        }),
{
    match decoded {
        Some(t) => t,
        None => raw,
    }
}

/// The bytes with a trailing NUL taken off, and then a newline just before it.
pub fn trimmed(b: &[u8]) -> (r: Vec<u8>)
    ensures
        r@ == trim_nul(b@),
{
    let n = b.len();
    let mut end = n;
    if n > 0 && b[n - 1] == NUL {
        end = n - 1;
        if end > 0 && b[end - 1] == NL {
            end = end - 1;
        }
    }
    let t = copy_range(b, 0, end);
    assert(t@ == trim_nul(b@));
    t
}

/// The text that some wire bytes stand for: a trailing NUL (and a newline before it)
/// taken off, the rest read as Latin-1, and its HTML entities decoded.
pub fn decode_bytes(b: &[u8]) -> (r: String)
    ensures
        r@ == decode_text(b@),
{
    let t = trimmed(b);
    let raw = latin1_of(t.as_slice());
    decode_entities_or_keep(&raw)
}

/// Whether the bytes, read as Latin-1, spell `w`.
pub fn name_is(name: &[u8], w: &str) -> (r: bool)
    ensures
        r == (latin1(name@) == w@),
{
    let n = w.unicode_len();
    if name.len() != n {
        return false;
    }
    let mut k: usize = 0;
    while k < n
        invariant
            n == w@.len() == name@.len(),
            k <= n,
            forall|j: int| 0 <= j < k ==> (#[trigger] name@[j]) as char == w@[j],
        decreases n - k,
    {
        if name[k] as char != w.get_char(k) {
            assert(latin1(name@)[k as int] != w@[k as int]);
            return false;
        }
        k = k + 1;
    }
    assert(latin1(name@) =~= w@);
    true
}

/// How a character of a value is written: a character up to U+00FF as the byte of the
/// same number (reading takes each byte as such a character), any other in UTF-8.
pub open spec fn char_bytes(c: char) -> Seq<u8> {
    if c <= '\u{ff}' {
        seq![c as u8]
    } else {
        encode_utf8(seq![c])
    }
}

/// The bytes a value is written as.
pub open spec fn value_bytes(v: Seq<char>) -> Seq<u8>
    decreases v.len(),
{
    if v.len() == 0 {
        Seq::empty()
    } else {
        value_bytes(v.drop_last()) + char_bytes(v.last())
    }
}

/// The bytes of a value, written after what `out` holds.
pub fn push_value(out: &mut Vec<u8>, v: &str)
    ensures
        final(out)@ == old(out)@ + value_bytes(v@),
{
    let cs = chars_of(v);
    let mut k: usize = 0;
    while k < cs.len()
        invariant
            k <= cs@.len(),
            cs@ == v@,
            out@ == old(out)@ + value_bytes(v@.subrange(0, k as int)),
        decreases cs@.len() - k,
    {
        let c = cs[k];
        let ghost before = out@;
        assert(v@.subrange(0, k + 1).drop_last() =~= v@.subrange(0, k as int));
        if c <= '\u{ff}' {
            out.push(c as u8);
        } else {
            let mut one: Vec<char> = Vec::new();
            one.push(c);
            let s = string_of(&one);
            assert(s@ =~= seq![c]);
            let b = s.as_str().as_bytes();
            let mut i: usize = 0;
            while i < b.len()
                invariant
                    i <= b@.len(),
                    out@ == before + b@.subrange(0, i as int),
                decreases b@.len() - i,
            {
                out.push(b[i]);
                assert(b@.subrange(0, i + 1) =~= b@.subrange(0, i as int).push(b@[i as int]));
                i = i + 1;
            }
            assert(b@.subrange(0, b@.len() as int) =~= b@);
        }
        assert(out@ =~= old(out)@ + value_bytes(v@.subrange(0, k + 1)));
        k = k + 1;
    }
    assert(v@.subrange(0, v@.len() as int) =~= v@);
}

/// Text that reading gives back unchanged: characters up to U+00FF, with no `&`, no
/// newline, and no NUL at the end.
pub open spec fn plain_value(v: Seq<char>) -> bool {
    &&& forall|i: int| 0 <= i < v.len() ==> #[trigger] v[i] <= '\u{ff}' && v[i] != '&' && v[i]
        != '\n'
    &&& (v.len() == 0 || v.last() != '\0')
}

pub proof fn lemma_latin1_value_bytes(v: Seq<char>)
    requires
        forall|i: int| 0 <= i < v.len() ==> #[trigger] v[i] <= '\u{ff}',
    ensures
        value_bytes(v) == v.map_values(|c: char| c as u8),
    decreases v.len(),
{
    if v.len() > 0 {
        lemma_latin1_value_bytes(v.drop_last());
        assert(v.last() <= '\u{ff}');
        assert(value_bytes(v) =~= v.map_values(|c: char| c as u8));
    } else {
        assert(value_bytes(v) =~= v.map_values(|c: char| c as u8));
    }
}

pub proof fn lemma_latin1_char(c: char)
    requires
        c <= '\u{ff}',
    ensures
        ((c as u8) as char) == c,
        (c as u8 == NL) == (c == '\n'),
        (c as u8 == NUL) == (c == '\0'),
{
    assert((c as u32) < 256);
}

pub proof fn lemma_plain_bytes(v: Seq<char>)
    requires
        plain_value(v),
    ensures
        value_bytes(v).len() == v.len(),
        forall|k: int| 0 <= k < v.len() ==> #[trigger] value_bytes(v)[k] != NL,
        decode_text(value_bytes(v)) == v,
{
    lemma_latin1_value_bytes(v);
    let e = value_bytes(v);
    assert forall|k: int| 0 <= k < v.len() implies #[trigger] e[k] != NL && (e[k] as char) == v[k] by {
        assert(v[k] <= '\u{ff}' && v[k] != '\n');
        lemma_latin1_char(v[k]);
        assert(e[k] == v[k] as u8);
    }
    if e.len() > 0 {
        assert(v.last() <= '\u{ff}');
        lemma_latin1_char(v.last());
        assert(e.last() == v.last() as u8);
    }
    assert(trim_nul(e) == e);
    assert(latin1(e) =~= v);
    assert(!v.contains('&'));
}

} // verus!
