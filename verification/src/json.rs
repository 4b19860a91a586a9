//! The JSON wire format of the service, as functions on bytes.
//!
//! Outbound: an item is rendered as `{"id":N,"name":"..."}` with the
//! name escaped (quote, backslash, and control bytes), and a listing
//! as a `[...]` array of such objects in store order.
//!
//! Inbound: a creation body must be a JSON object with the single
//! member `"name"` whose value is a string; the short escapes
//! `\" \\ \/ \n \t \r \b \f` are accepted inside it, and whitespace is
//! allowed between tokens. Anything else is a decode failure.

use vstd::prelude::*;
use vstd::string::StringSliceAdditionalSpecFns;

use crate::models::{models_of, ItemModel, ItemPayload, ShoppingListItem};

verus! {

/// JSON inter-token whitespace: space, tab, line feed, carriage return.
pub open spec fn is_ws(b: u8) -> bool {
    b == (' ' as u8) || b == ('\t' as u8) || b == ('\n' as u8) || b == ('\r' as u8)
}

pub open spec fn is_digit(b: u8) -> bool {
    ('0' as u8) <= b <= ('9' as u8)
}

pub open spec fn all_digits(s: Seq<u8>) -> bool {
    forall|i: int| 0 <= i < s.len() ==> is_digit(#[trigger] s[i])
}

pub open spec fn digit_val(b: u8) -> nat {
    if is_digit(b) {
        (b - ('0' as u8)) as nat
    } else {
        0
    }
}

/// The number a run of decimal digit bytes denotes.
pub open spec fn dec_val(s: Seq<u8>) -> nat
    decreases s.len(),
{
    if s.len() == 0 {
        0
    } else {
        dec_val(s.drop_last()) * 10 + digit_val(s.last())
    }
}

/// The canonical decimal rendering of `n`: no sign, no leading zero
/// except for `n == 0` itself.
pub open spec fn dec_bytes(n: nat) -> Seq<u8>
    decreases n,
{
    if n < 10 {
        seq![(('0' as u8) + n) as u8]
    } else {
        dec_bytes(n / 10).push((('0' as u8) + n % 10) as u8)
    }
}

/// Renders `n` in decimal.
pub fn to_dec_bytes(n: usize) -> (r: Vec<u8>)
    ensures
        r@ == dec_bytes(n as nat),
    decreases n,
{
    if n < 10 {
        let mut v: Vec<u8> = Vec::new();
        v.push(('0' as u8) + (n as u8));
        proof {
            assert(v@ =~= dec_bytes(n as nat));
        }
        v
    } else {
        let mut v = to_dec_bytes(n / 10);
        v.push(('0' as u8) + ((n % 10) as u8));
        v
    }
}

/// A path segment denotes an id when it is a nonempty run of digits
/// whose value fits the id type.
pub open spec fn spec_parse_id(s: Seq<u8>) -> Option<nat> {
    if s.len() > 0 && all_digits(s) && dec_val(s) <= usize::MAX as nat {
        Some(dec_val(s))
    } else {
        None
    }
}

/// A longer digit run never denotes a smaller number: the value of a
/// prefix is at most the value of the whole.
proof fn lemma_dec_val_prefix_le(s: Seq<u8>, i: int, j: int)
    requires
        0 <= i <= j <= s.len(),
    ensures
        dec_val(s.take(i)) <= dec_val(s.take(j)),
    decreases j - i,
{
    if i < j {
        lemma_dec_val_prefix_le(s, i, j - 1);
        assert(s.take(j).drop_last() =~= s.take(j - 1));
    }
}

/// Parses a path segment as an id.
pub fn parse_id(s: &[u8]) -> (r: Option<usize>)
    ensures
        match r {
            Some(v) => spec_parse_id(s@) == Some(v as nat),
            None => spec_parse_id(s@) is None,
        },
{
    if s.len() == 0 {
        return None;
    }
    let mut acc: usize = 0;
    let mut i: usize = 0;
    while i < s.len()
        invariant
            i <= s@.len(),
            all_digits(s@.take(i as int)),
            acc as nat == dec_val(s@.take(i as int)),
        decreases s@.len() - i,
    {
        let b = s[i];
        if !(('0' as u8) <= b && b <= ('9' as u8)) {
            proof {
                assert(!is_digit(s@[i as int]));
            }
            return None;
        }
        let d = (b - ('0' as u8)) as usize;
        let scaled = acc.checked_mul(10);
        let next = match scaled {
            Some(m) => m.checked_add(d),
            None => None,
        };
        match next {
            Some(v) => {
                proof {
                    assert(s@.take(i as int + 1).drop_last() =~= s@.take(i as int));
                }
                acc = v;
                i = i + 1;
            },
            None => {
                proof {
                    assert(s@.take(i as int + 1).drop_last() =~= s@.take(i as int));
                    assert(dec_val(s@.take(i as int + 1)) > usize::MAX as nat);
                    lemma_dec_val_prefix_le(s@, i as int + 1, s@.len() as int);
                    assert(s@.take(s@.len() as int) =~= s@);
                }
                return None;
            },
        }
    }
    proof {
        assert(s@.take(s@.len() as int) =~= s@);
    }
    Some(acc)
}

/// The decimal rendering of `n` is a nonempty digit run denoting `n`.
proof fn lemma_dec_bytes_val(n: nat)
    ensures
        all_digits(dec_bytes(n)),
        dec_bytes(n).len() >= 1,
        dec_val(dec_bytes(n)) == n,
    decreases n,
{
    if n < 10 {
        let s = dec_bytes(n);
        let d = (('0' as u8) + n) as u8;
        assert(s == seq![d]);
        assert(s.last() == d);
        assert(s.drop_last() =~= Seq::<u8>::empty());
        assert(dec_val(s.drop_last()) == 0);
        assert(digit_val(d) == n);
        assert(dec_val(s) == n);
    } else {
        lemma_dec_bytes_val(n / 10);
        let s = dec_bytes(n);
        let head = dec_bytes(n / 10);
        let d = (('0' as u8) + n % 10) as u8;
        assert(s == head.push(d));
        assert(s.drop_last() =~= head);
        assert(s.last() == d);
        assert(digit_val(d) == n % 10);
        assert(dec_val(s) == dec_val(head) * 10 + digit_val(d));
        vstd::arithmetic::div_mod::lemma_fundamental_div_mod(n as int, 10);
        assert(dec_val(s) == (n / 10) * 10 + n % 10);
        assert forall|i: int| 0 <= i < s.len() implies is_digit(#[trigger] s[i]) by {
            if i < head.len() {
                assert(s[i] == head[i]);
            }
        }
    }
}

/// Round trip of an id through the wire: rendering `n` in decimal and
/// parsing the result as a path segment gives `n` back, for every id
/// the store can assign. A fetch of the path a creation response
/// names therefore looks up the created id.
pub proof fn lemma_dec_round_trip(n: nat)
    requires
        n <= usize::MAX as nat,
    ensures
        spec_parse_id(dec_bytes(n)) == Some(n),
{
    lemma_dec_bytes_val(n);
}

/// The hexadecimal digit character for a value below 16.
pub open spec fn hex_char(d: u8) -> u8 {
    if d < 10 {
        (('0' as u8) + d) as u8
    } else {
        (('a' as u8) + (d - 10)) as u8
    }
}

fn hex_char_ex(d: u8) -> (r: u8)
    requires
        d < 16,
    ensures
        r == hex_char(d),
{
    if d < 10 {
        ('0' as u8) + d
    } else {
        ('a' as u8) + (d - 10)
    }
}

/// How one name byte appears inside a JSON string: quote and
/// backslash get a backslash escape, control bytes become `\u00XX`,
/// everything else stands for itself.
pub open spec fn escape_byte(b: u8) -> Seq<u8> {
    if b == ('"' as u8) {
        seq![('\\' as u8), ('"' as u8)]
    } else if b == ('\\' as u8) {
        seq![('\\' as u8), ('\\' as u8)]
    } else if b < 32 {
        seq![
            ('\\' as u8),
            ('u' as u8),
            ('0' as u8),
            ('0' as u8),
            hex_char(b / 16),
            hex_char(b % 16),
        ]
    } else {
        seq![b]
    }
}

pub open spec fn escape_bytes(s: Seq<u8>) -> Seq<u8>
    decreases s.len(),
{
    if s.len() == 0 {
        Seq::empty()
    } else {
        escape_bytes(s.drop_last()) + escape_byte(s.last())
    }
}

/// Escapes a name for inclusion in a JSON string.
pub fn escape_json_bytes(name: &[u8]) -> (r: Vec<u8>)
    ensures
        r@ == escape_bytes(name@),
{
    let mut out: Vec<u8> = Vec::new();
    let mut i: usize = 0;
    while i < name.len()
        invariant
            i <= name@.len(),
            out@ == escape_bytes(name@.take(i as int)),
        decreases name@.len() - i,
    {
        let b = name[i];
        if b == ('"' as u8) {
            out.push('\\' as u8);
            out.push('"' as u8);
        } else if b == ('\\' as u8) {
            out.push('\\' as u8);
            out.push('\\' as u8);
        } else if b < 32 {
            out.push('\\' as u8);
            out.push('u' as u8);
            out.push('0' as u8);
            out.push('0' as u8);
            out.push(hex_char_ex(b / 16));
            out.push(hex_char_ex(b % 16));
        } else {
            out.push(b);
        }
        proof {
            assert(name@.take(i as int + 1).drop_last() =~= name@.take(i as int));
            assert(name@.take(i as int + 1).last() == name@[i as int]);
            assert(out@ =~= escape_bytes(name@.take(i as int + 1)));
        }
        i = i + 1;
    }
    proof {
        assert(name@.take(name@.len() as int) =~= name@);
    }
    out
}

/// The byte a short escape stands for, or `None` when the character
/// after the backslash is not one of the accepted escapes.
pub open spec fn unescape_byte(b: u8) -> Option<u8> {
    if b == ('"' as u8) {
        Some('"' as u8)
    } else if b == ('\\' as u8) {
        Some('\\' as u8)
    } else if b == ('/' as u8) {
        Some('/' as u8)
    } else if b == ('n' as u8) {
        Some('\n' as u8)
    } else if b == ('t' as u8) {
        Some('\t' as u8)
    } else if b == ('r' as u8) {
        Some('\r' as u8)
    } else if b == ('b' as u8) {
        Some(8u8)
    } else if b == ('f' as u8) {
        Some(12u8)
    } else {
        None
    }
}

fn unescape_byte_ex(b: u8) -> (r: Option<u8>)
    ensures
        r == unescape_byte(b),
{
    if b == ('"' as u8) {
        Some('"' as u8)
    } else if b == ('\\' as u8) {
        Some('\\' as u8)
    } else if b == ('/' as u8) {
        Some('/' as u8)
    } else if b == ('n' as u8) {
        Some('\n' as u8)
    } else if b == ('t' as u8) {
        Some('\t' as u8)
    } else if b == ('r' as u8) {
        Some('\r' as u8)
    } else if b == ('b' as u8) {
        Some(8u8)
    } else if b == ('f' as u8) {
        Some(12u8)
    } else {
        None
    }
}

/// The first position at or after `i` holding a non-whitespace byte
/// (or the end of the input).
pub open spec fn spec_skip_ws(s: Seq<u8>, i: nat) -> nat
    decreases s.len() - i,
{
    if i < s.len() && is_ws(s[i as int]) {
        spec_skip_ws(s, (i + 1) as nat)
    } else {
        i
    }
}

fn skip_ws(s: &[u8], i: usize) -> (r: usize)
    requires
        i <= s@.len(),
    ensures
        r as nat == spec_skip_ws(s@, i as nat),
        i <= r <= s@.len(),
    decreases s@.len() - i,
{
    if i < s.len() {
        let b = s[i];
        if b == (' ' as u8) || b == ('\t' as u8) || b == ('\n' as u8) || b == ('\r' as u8) {
            skip_ws(s, i + 1)
        } else {
            i
        }
    } else {
        i
    }
}

/// Reads a JSON string body starting just after its opening quote:
/// the decoded bytes and the position just after the closing quote,
/// or `None` when the input up to the closing quote is not a valid
/// string (an unknown escape, a bare control byte, or no closing
/// quote at all).
pub open spec fn spec_parse_string(s: Seq<u8>, i: nat) -> Option<(Seq<u8>, nat)>
    decreases s.len() - i,
{
    if i >= s.len() {
        None
    } else if s[i as int] == ('"' as u8) {
        Some((Seq::empty(), (i + 1) as nat))
    } else if s[i as int] == ('\\' as u8) {
        if i + 1 >= s.len() {
            None
        } else {
            match unescape_byte(s[i as int + 1]) {
                Some(c) => match spec_parse_string(s, (i + 2) as nat) {
                    Some(p) => Some((seq![c] + p.0, p.1)),
                    None => None,
                },
                None => None,
            }
        }
    } else if s[i as int] < 32 {
        None
    } else {
        match spec_parse_string(s, (i + 1) as nat) {
            Some(p) => Some((seq![s[i as int]] + p.0, p.1)),
            None => None,
        }
    }
}

fn parse_string_at(s: &[u8], i: usize) -> (r: Option<(Vec<u8>, usize)>)
    requires
        i <= s@.len(),
    ensures
        match r {
            Some(p) => spec_parse_string(s@, i as nat) == Some((p.0@, p.1 as nat)) && i < p.1
                <= s@.len(),
            None => spec_parse_string(s@, i as nat) is None,
        },
    decreases s@.len() - i,
{
    if i >= s.len() {
        return None;
    }
    let b = s[i];
    if b == ('"' as u8) {
        let v: Vec<u8> = Vec::new();
        proof {
            assert(v@ =~= Seq::<u8>::empty());
        }
        Some((v, i + 1))
    } else if b == ('\\' as u8) {
        if i + 1 >= s.len() {
            None
        } else {
            match unescape_byte_ex(s[i + 1]) {
                Some(c) => match parse_string_at(s, i + 2) {
                    Some((mut v, j)) => {
                        v.insert(0, c);
                        proof {
                            let p = spec_parse_string(s@, (i + 2) as nat).unwrap();
                            assert(v@ =~= seq![c] + p.0);
                        }
                        Some((v, j))
                    },
                    None => None,
                },
                None => None,
            }
        }
    } else if b < 32 {
        None
    } else {
        match parse_string_at(s, i + 1) {
            Some((mut v, j)) => {
                v.insert(0, b);
                proof {
                    let p = spec_parse_string(s@, (i + 1) as nat).unwrap();
                    assert(v@ =~= seq![s@[i as int]] + p.0);
                }
                Some((v, j))
            },
            None => None,
        }
    }
}

/// Parsing looks only forward: reading a string at `i` is reading it
/// at the start of the input with the first `i` bytes cut off, with
/// the end position shifted back by `i`.
proof fn lemma_parse_string_shift(s: Seq<u8>, i: nat)
    requires
        i <= s.len(),
    ensures
        spec_parse_string(s, i) == (match spec_parse_string(s.skip(i as int), 0) {
            Some(p) => Some((p.0, (p.1 + i) as nat)),
            None => None::<(Seq<u8>, nat)>,
        }),
    decreases s.len() - i,
{
    let t = s.skip(i as int);
    if i >= s.len() {
    } else if s[i as int] == ('"' as u8) {
        assert(t[0] == s[i as int]);
    } else if s[i as int] == ('\\' as u8) {
        assert(t[0] == s[i as int]);
        if i + 1 >= s.len() {
        } else {
            assert(t[1] == s[i as int + 1]);
            match unescape_byte(s[i as int + 1]) {
                Some(c) => {
                    lemma_parse_string_shift(s, (i + 2) as nat);
                    lemma_parse_string_shift(t, 2);
                    assert(t.skip(2) =~= s.skip(i as int + 2));
                },
                None => {
                },
            }
        }
    } else if s[i as int] < 32 {
        assert(t[0] == s[i as int]);
    } else {
        assert(t[0] == s[i as int]);
        lemma_parse_string_shift(s, (i + 1) as nat);
        lemma_parse_string_shift(t, 1);
        assert(t.skip(1) =~= s.skip(i as int + 1));
    }
}

/// Escaping a concatenation escapes the parts in place.
proof fn lemma_escape_append(a: Seq<u8>, b: Seq<u8>)
    ensures
        escape_bytes(a + b) == escape_bytes(a) + escape_bytes(b),
    decreases b.len(),
{
    if b.len() == 0 {
        assert(a + b =~= a);
        assert(escape_bytes(a) + escape_bytes(b) =~= escape_bytes(a));
    } else {
        lemma_escape_append(a, b.drop_last());
        assert((a + b).drop_last() =~= a + b.drop_last());
        assert((a + b).last() == b.last());
        assert(escape_bytes(a) + escape_bytes(b) =~= escape_bytes(a) + escape_bytes(b.drop_last())
            + escape_byte(b.last()));
    }
}

/// No byte of `s` is a control byte.
pub open spec fn no_control_bytes(s: Seq<u8>) -> bool {
    forall|i: int| 0 <= i < s.len() ==> (#[trigger] s[i]) >= 32
}

/// Round trip of a name through the wire: escaping a name free of
/// control bytes and reading the result back as a JSON string (up to
/// its closing quote) returns the name unchanged. Control bytes are
/// escaped to a form the decoder does not accept, so they are left
/// out here.
pub proof fn lemma_string_round_trip(name: Seq<u8>)
    requires
        no_control_bytes(name),
    ensures
        spec_parse_string(escape_bytes(name) + seq![('"' as u8)], 0) == Some(
            (name, (escape_bytes(name).len() + 1) as nat),
        ),
    decreases name.len(),
{
    let q = '"' as u8;
    let s = escape_bytes(name) + seq![q];
    if name.len() == 0 {
        assert(escape_bytes(name) =~= Seq::<u8>::empty());
        assert(s =~= seq![q]);
        assert(s[0] == q);
        assert(spec_parse_string(s, 0) == Some((Seq::<u8>::empty(), 1nat)));
        assert(name =~= Seq::<u8>::empty());
    } else {
        let h = name[0];
        let t = name.skip(1);
        assert(name.take(1) + t =~= name);
        lemma_escape_append(name.take(1), t);
        assert(name.take(1).drop_last() =~= Seq::<u8>::empty());
        assert(name.take(1).last() == h);
        assert(escape_bytes(name.take(1).drop_last()) == Seq::<u8>::empty());
        assert(escape_bytes(name.take(1)) == escape_bytes(name.take(1).drop_last()) + escape_byte(
            name.take(1).last(),
        ));
        assert(escape_bytes(name.take(1)) =~= escape_byte(h));
        assert(escape_bytes(name) == escape_byte(h) + escape_bytes(t));
        let rest = escape_bytes(t) + seq![q];
        lemma_string_round_trip(t);
        if h == q {
            assert(s =~= seq![('\\' as u8), q] + rest);
            assert(s[0] == ('\\' as u8) && s[1] == q);
            assert(unescape_byte(s[1]) == Some(q));
            lemma_parse_string_shift(s, 2);
            assert(s.skip(2) =~= rest);
            assert(seq![q] + t =~= name);
        } else if h == ('\\' as u8) {
            assert(s =~= seq![('\\' as u8), ('\\' as u8)] + rest);
            assert(s[0] == ('\\' as u8) && s[1] == ('\\' as u8));
            assert(unescape_byte(s[1]) == Some(('\\' as u8)));
            lemma_parse_string_shift(s, 2);
            assert(s.skip(2) =~= rest);
            assert(seq![h] + t =~= name);
        } else {
            assert(escape_byte(h) =~= seq![h]);
            assert(s =~= seq![h] + rest);
            assert(s[0] == h);
            assert(h >= 32 && h != q && h != ('\\' as u8));
            lemma_parse_string_shift(s, 1);
            assert(s.skip(1) =~= rest);
            assert(seq![h] + t =~= name);
        }
    }
}

/// The bytes of the one member key the creation body must carry.
pub open spec fn name_key() -> Seq<u8> {
    "\"name\"".spec_bytes()
}

/// What a creation body decodes to: the name bytes, when the body is
/// exactly one JSON object with the single string member `"name"`
/// (whitespace between tokens allowed); `None` otherwise.
pub open spec fn spec_parse_payload(s: Seq<u8>) -> Option<Seq<u8>> {
    let i0 = spec_skip_ws(s, 0);
    if i0 < s.len() && s[i0 as int] == ('{' as u8) {
        let i1 = spec_skip_ws(s, (i0 + 1) as nat);
        if i1 + 6 <= s.len() && s.subrange(i1 as int, i1 as int + 6) == name_key() {
            let i2 = spec_skip_ws(s, (i1 + 6) as nat);
            if i2 < s.len() && s[i2 as int] == (':' as u8) {
                let i3 = spec_skip_ws(s, (i2 + 1) as nat);
                if i3 < s.len() && s[i3 as int] == ('"' as u8) {
                    match spec_parse_string(s, (i3 + 1) as nat) {
                        Some(p) => {
                            let i4 = spec_skip_ws(s, p.1);
                            if i4 < s.len() && s[i4 as int] == ('}' as u8) && spec_skip_ws(
                                s,
                                (i4 + 1) as nat,
                            ) == s.len() {
                                Some(p.0)
                            } else {
                                None
                            }
                        },
                        None => None,
                    }
                } else {
                    None
                }
            } else {
                None
            }
        } else {
            None
        }
    } else {
        None
    }
}

/// Compares two byte strings for equality of contents.
pub fn bytes_eq(a: &[u8], b: &[u8]) -> (r: bool)
    ensures
        r <==> a@ == b@,
{
    if a.len() != b.len() {
        return false;
    }
    let mut i: usize = 0;
    while i < a.len()
        invariant
            i <= a@.len(),
            a@.len() == b@.len(),
            forall|j: int| 0 <= j < i ==> a@[j] == b@[j],
        decreases a@.len() - i,
    {
        if a[i] != b[i] {
            return false;
        }
        i = i + 1;
    }
    proof {
        assert(a@ =~= b@);
    }
    true
}

/// Decodes a creation body into the payload it carries.
pub fn parse_payload(body: &[u8]) -> (r: Option<ItemPayload>)
    ensures
        match r {
            Some(p) => spec_parse_payload(body@) == Some(p@),
            None => spec_parse_payload(body@) is None,
        },
{
    let i0 = skip_ws(body, 0);
    if !(i0 < body.len()) {
        return None;
    }
    if body[i0] != ('{' as u8) {
        return None;
    }
    let i1 = skip_ws(body, i0 + 1);
    if !(body.len() - i1 >= 6) {
        return None;
    }
    if !bytes_eq(&body[i1..i1 + 6], "\"name\"".as_bytes()) {
        return None;
    }
    let i2 = skip_ws(body, i1 + 6);
    if !(i2 < body.len()) {
        return None;
    }
    if body[i2] != (':' as u8) {
        return None;
    }
    let i3 = skip_ws(body, i2 + 1);
    if !(i3 < body.len()) {
        return None;
    }
    if body[i3] != ('"' as u8) {
        return None;
    }
    match parse_string_at(body, i3 + 1) {
        Some((name, j)) => {
            let i4 = skip_ws(body, j);
            if !(i4 < body.len()) {
                return None;
            }
            if body[i4] != ('}' as u8) {
                return None;
            }
            if skip_ws(body, i4 + 1) != body.len() {
                return None;
            }
            Some(ItemPayload { name })
        },
        None => None,
    }
}

/// The JSON object an item is rendered as.
pub open spec fn json_of_item(m: ItemModel) -> Seq<u8> {
    "{\"id\":".spec_bytes() + dec_bytes(m.id) + ",\"name\":\"".spec_bytes() + escape_bytes(m.name)
        + "\"}".spec_bytes()
}

/// Renders one item as its JSON object.
pub fn render_item(item: &ShoppingListItem) -> (r: Vec<u8>)
    ensures
        r@ == json_of_item(item@),
{
    let mut out: Vec<u8> = Vec::new();
    out.extend_from_slice("{\"id\":".as_bytes());
    let digits = to_dec_bytes(item.id);
    out.extend_from_slice(digits.as_slice());
    out.extend_from_slice(",\"name\":\"".as_bytes());
    let escaped = escape_json_bytes(item.name.as_slice());
    out.extend_from_slice(escaped.as_slice());
    out.extend_from_slice("\"}".as_bytes());
    proof {
        assert(out@ =~= json_of_item(item@));
    }
    out
}

/// The comma-separated object list inside a rendered listing.
pub open spec fn items_body(items: Seq<ItemModel>) -> Seq<u8>
    decreases items.len(),
{
    if items.len() == 0 {
        Seq::empty()
    } else if items.len() == 1 {
        json_of_item(items[0])
    } else {
        items_body(items.drop_last()) + ",".spec_bytes() + json_of_item(items.last())
    }
}

/// The JSON array a listing is rendered as, in store order.
pub open spec fn json_of_items(items: Seq<ItemModel>) -> Seq<u8> {
    "[".spec_bytes() + items_body(items) + "]".spec_bytes()
}

/// Renders a listing as its JSON array.
pub fn render_items(items: &Vec<ShoppingListItem>) -> (r: Vec<u8>)
    ensures
        r@ == json_of_items(models_of(items@)),
{
    let mut out: Vec<u8> = Vec::new();
    out.extend_from_slice("[".as_bytes());
    let mut i: usize = 0;
    while i < items.len()
        invariant
            i <= items@.len(),
            out@ == "[".spec_bytes() + items_body(models_of(items@).take(i as int)),
        decreases items@.len() - i,
    {
        if i > 0 {
            out.extend_from_slice(",".as_bytes());
        }
        let piece = render_item(&items[i]);
        out.extend_from_slice(piece.as_slice());
        proof {
            let m = models_of(items@);
            assert(m.take(i as int + 1).drop_last() =~= m.take(i as int));
            assert(m.take(i as int + 1).last() == m[i as int]);
            assert(out@ =~= "[".spec_bytes() + items_body(m.take(i as int + 1)));
        }
        i = i + 1;
    }
    out.extend_from_slice("]".as_bytes());
    proof {
        assert(models_of(items@).take(items@.len() as int) =~= models_of(items@));
        assert(out@ =~= json_of_items(models_of(items@)));
    }
    out
}

} // verus!
