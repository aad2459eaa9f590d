//! The wire envelope and its codec.
//!
//! An envelope travels as one compact JSON object without insignificant
//! whitespace: `{"messageType":<tag>,"dataArray":<list|null>,"data":<text|null>}`.
//! `encode` always emits the three fields in that order; `decode` accepts the
//! fields in any order, ignores unknown extra fields, and fails with
//! `DecodeError::Malformed` when the text does not fit the envelope shape or
//! names an unknown tag.

use vstd::prelude::*;
use vstd::string::StrSliceExecFns;
use vstd::string::StringExecFns;

verus! {

/// The discriminator of a wire envelope.
#[derive(Clone, Copy, Debug, PartialEq, Eq, Structural)]
pub enum MsgTypes {
    Users,
    Register,
    Message,
}

/// The wire-level unit exchanged in both directions.  A well-formed envelope
/// populates exactly one of the two payload fields, chosen by `kind`.
#[derive(Clone, Debug, PartialEq, Eq)]
pub struct Envelope {
    pub kind: MsgTypes,
    pub payload_list: Option<Vec<String>>,
    pub payload_text: Option<String>,
}

/// A decoded message payload: who sent it and what they said.
#[derive(Clone, Debug, PartialEq, Eq)]
pub struct ChatMessage {
    pub sender: String,
    pub body: String,
}

/// How an inbound text can fail to decode: the envelope itself does not
/// parse, or the nested payload of a `Message` envelope does not.
#[derive(Clone, Copy, Debug, PartialEq, Eq, Structural)]
pub enum DecodeError {
    Malformed,
    MalformedPayload,
}

impl Envelope {
    /// Exactly one payload field is populated, the one `kind` calls for.
    pub open spec fn well_formed(&self) -> bool {
        match self.kind {
            MsgTypes::Users => self.payload_list is Some && self.payload_text is None,
            MsgTypes::Register => self.payload_text is Some && self.payload_list is None,
            MsgTypes::Message => self.payload_text is Some && self.payload_list is None,
        }
    }
}

impl ChatMessage {
    /// The sender of a message identifies a user, so it is never empty.
    pub open spec fn well_formed(&self) -> bool {
        self.sender@.len() > 0
    }
}

// ---------------------------------------------------------------------------
// The wire text, at the specification level.
// ---------------------------------------------------------------------------

/// The lower-case hexadecimal digit for a value below 16.
pub open spec fn hex_char(v: int) -> char {
    if v == 0 {
        '0'
    } else if v == 1 {
        '1'
    } else if v == 2 {
        '2'
    } else if v == 3 {
        '3'
    } else if v == 4 {
        '4'
    } else if v == 5 {
        '5'
    } else if v == 6 {
        '6'
    } else if v == 7 {
        '7'
    } else if v == 8 {
        '8'
    } else if v == 9 {
        '9'
    } else if v == 10 {
        'a'
    } else if v == 11 {
        'b'
    } else if v == 12 {
        'c'
    } else if v == 13 {
        'd'
    } else if v == 14 {
        'e'
    } else {
        'f'
    }
}

/// How one character appears inside a JSON string: quote and backslash get a
/// two-character escape, control characters a `\u00XX` escape, and every
/// other character stands for itself.
pub open spec fn escape_char(c: char) -> Seq<char> {
    if c == '"' {
        seq!['\\', '"']
    } else if c == '\\' {
        seq!['\\', '\\']
    } else if (c as u32) < 0x20 {
        seq!['\\', 'u', '0', '0', hex_char(((c as u32) / 16) as int), hex_char(
            ((c as u32) % 16) as int,
        )]
    } else {
        seq![c]
    }
}

/// A whole string escaped, character by character.
pub open spec fn escaped(s: Seq<char>) -> Seq<char>
    decreases s.len(),
{
    if s.len() == 0 {
        Seq::empty()
    } else {
        escaped(s.drop_last()) + escape_char(s.last())
    }
}

/// A JSON string: the escaped content between double quotes.
pub open spec fn quoted(s: Seq<char>) -> Seq<char> {
    seq!['"'] + escaped(s) + seq!['"']
}

/// The lower-case wire tag of each envelope kind.
pub open spec fn kind_tag(k: MsgTypes) -> Seq<char> {
    match k {
        MsgTypes::Users => seq!['u', 's', 'e', 'r', 's'],
        MsgTypes::Register => seq!['r', 'e', 'g', 'i', 's', 't', 'e', 'r'],
        MsgTypes::Message => seq!['m', 'e', 's', 's', 'a', 'g', 'e'],
    }
}

pub open spec fn null_text() -> Seq<char> {
    seq!['n', 'u', 'l', 'l']
}

/// The items of a JSON array of strings, separated by commas.
pub open spec fn list_items_text(items: Seq<Seq<char>>) -> Seq<char>
    decreases items.len(),
{
    if items.len() == 0 {
        Seq::empty()
    } else if items.len() == 1 {
        quoted(items[0])
    } else {
        list_items_text(items.drop_last()) + seq![','] + quoted(items.last())
    }
}

/// An optional list field on the wire: a JSON array of strings, or `null`.
pub open spec fn list_text(l: Option<Seq<Seq<char>>>) -> Seq<char> {
    match l {
        Option::None => null_text(),
        Option::Some(items) => seq!['['] + list_items_text(items) + seq![']'],
    }
}

/// An optional text field on the wire: a JSON string, or `null`.
pub open spec fn text_field_text(t: Option<Seq<char>>) -> Seq<char> {
    match t {
        Option::None => null_text(),
        Option::Some(s) => quoted(s),
    }
}

pub open spec fn key_kind() -> Seq<char> {
    seq!['m', 'e', 's', 's', 'a', 'g', 'e', 'T', 'y', 'p', 'e']
}

pub open spec fn key_list() -> Seq<char> {
    seq!['d', 'a', 't', 'a', 'A', 'r', 'r', 'a', 'y']
}

pub open spec fn key_text() -> Seq<char> {
    seq!['d', 'a', 't', 'a']
}

pub open spec fn key_sender() -> Seq<char> {
    seq!['f', 'r', 'o', 'm']
}

pub open spec fn key_body() -> Seq<char> {
    seq!['m', 'e', 's', 's', 'a', 'g', 'e']
}

/// The canonical wire text of an envelope with the given kind and payloads.
pub open spec fn envelope_text(
    k: MsgTypes,
    l: Option<Seq<Seq<char>>>,
    t: Option<Seq<char>>,
) -> Seq<char> {
    seq!['{'] + quoted(key_kind()) + seq![':'] + quoted(kind_tag(k)) + seq![','] + quoted(
        key_list(),
    ) + seq![':'] + list_text(l) + seq![','] + quoted(key_text()) + seq![':'] + text_field_text(t)
        + seq!['}']
}

/// The canonical wire text of a nested message payload.
pub open spec fn message_payload_text(sender: Seq<char>, body: Seq<char>) -> Seq<char> {
    seq!['{'] + quoted(key_sender()) + seq![':'] + quoted(sender) + seq![','] + quoted(key_body())
        + seq![':'] + quoted(body) + seq!['}']
}

// ---------------------------------------------------------------------------
// Encoding.
// ---------------------------------------------------------------------------

fn hex_char_exec(v: u8) -> (c: char)
    requires
        v < 16,
    ensures
        c == hex_char(v as int),
{
    if v == 0 {
        '0'
    } else if v == 1 {
        '1'
    } else if v == 2 {
        '2'
    } else if v == 3 {
        '3'
    } else if v == 4 {
        '4'
    } else if v == 5 {
        '5'
    } else if v == 6 {
        '6'
    } else if v == 7 {
        '7'
    } else if v == 8 {
        '8'
    } else if v == 9 {
        '9'
    } else if v == 10 {
        'a'
    } else if v == 11 {
        'b'
    } else if v == 12 {
        'c'
    } else if v == 13 {
        'd'
    } else if v == 14 {
        'e'
    } else {
        'f'
    }
}

fn push_escaped_char(out: &mut String, c: char)
    ensures
        final(out)@ == old(out)@ + escape_char(c),
{
    if c == '"' {
        out.push('\\');
        out.push('"');
        assert(out@ =~= old(out)@ + escape_char(c));
    } else if c == '\\' {
        out.push('\\');
        out.push('\\');
        assert(out@ =~= old(out)@ + escape_char(c));
    } else if (c as u32) < 0x20 {
        let v = c as u32;
        out.push('\\');
        out.push('u');
        out.push('0');
        out.push('0');
        out.push(hex_char_exec((v / 16) as u8));
        out.push(hex_char_exec((v % 16) as u8));
        assert(out@ =~= old(out)@ + escape_char(c));
    } else {
        out.push(c);
        assert(out@ =~= old(out)@ + escape_char(c));
    }
}

/// Appends a string as a JSON string: quoted, with its content escaped.
fn append_quoted(out: &mut String, s: &str)
    ensures
        final(out)@ == old(out)@ + quoted(s@),
{
    let n = s.unicode_len();
    out.push('"');
    let mut i: usize = 0;
    while i < n
        invariant
            n == s@.len(),
            i <= n,
            out@ == old(out)@ + seq!['"'] + escaped(s@.subrange(0, i as int)),
        decreases n - i,
    {
        let c = s.get_char(i);
        push_escaped_char(out, c);
        proof {
            let pre = s@.subrange(0, i as int);
            let post = s@.subrange(0, i + 1 as int);
            assert(post.drop_last() =~= pre);
            assert(post.last() == s@[i as int]);
            assert(escaped(post) == escaped(pre) + escape_char(s@[i as int]));
            assert(out@ =~= old(out)@ + seq!['"'] + escaped(post));
        }
        i = i + 1;
    }
    out.push('"');
    proof {
        assert(s@.subrange(0, n as int) =~= s@);
        assert(out@ =~= old(out)@ + quoted(s@));
    }
}

fn append_null(out: &mut String)
    ensures
        final(out)@ == old(out)@ + null_text(),
{
    out.push('n');
    out.push('u');
    out.push('l');
    out.push('l');
    assert(out@ =~= old(out)@ + null_text());
}

/// Appends a roster list as a JSON array of strings.
fn append_list(out: &mut String, items: &Vec<String>)
    ensures
        final(out)@ == old(out)@ + seq!['['] + list_items_text(items.deep_view()) + seq![']'],
{
    out.push('[');
    let mut i: usize = 0;
    while i < items.len()
        invariant
            i <= items.len(),
            out@ == old(out)@ + seq!['['] + list_items_text(items.deep_view().subrange(0, i as int)),
        decreases items.len() - i,
    {
        if i > 0 {
            out.push(',');
        }
        append_quoted(out, items[i].as_str());
        proof {
            let all = items.deep_view();
            let pre = all.subrange(0, i as int);
            let post = all.subrange(0, i + 1 as int);
            assert(post.drop_last() =~= pre);
            assert(post.last() == all[i as int]);
            assert(all[i as int] == items[i as int]@);
            if i == 0 {
                assert(list_items_text(post) == quoted(all[0]));
            } else {
                assert(list_items_text(post) == list_items_text(pre) + seq![','] + quoted(
                    all[i as int],
                ));
            }
            assert(out@ =~= old(out)@ + seq!['['] + list_items_text(post));
        }
        i = i + 1;
    }
    out.push(']');
    proof {
        assert(items.deep_view().subrange(0, items.len() as int) =~= items.deep_view());
        assert(out@ =~= old(out)@ + seq!['['] + list_items_text(items.deep_view()) + seq![']']);
    }
}

fn kind_tag_str(k: MsgTypes) -> (r: &'static str)
    ensures
        r@ == kind_tag(k),
{
    match k {
        MsgTypes::Users => {
            let s = "users";
            proof {
                reveal_strlit("users");
                assert(s@ =~= kind_tag(k));
            }
            s
        },
        MsgTypes::Register => {
            let s = "register";
            proof {
                reveal_strlit("register");
                assert(s@ =~= kind_tag(k));
            }
            s
        },
        MsgTypes::Message => {
            let s = "message";
            proof {
                reveal_strlit("message");
                assert(s@ =~= kind_tag(k));
            }
            s
        },
    }
}

/// Encodes an envelope into its canonical wire text.  Succeeds for every
/// envelope; the result is exactly the canonical text of its fields.
#[verifier::rlimit(50)]
pub fn encode(e: &Envelope) -> (r: String)
    ensures
        r@ == envelope_text(e.kind, e.payload_list.deep_view(), e.payload_text.deep_view()),
{
    let mut out = String::new();
    out.push('{');
    append_quoted(&mut out, "messageType");
    out.push(':');
    append_quoted(&mut out, kind_tag_str(e.kind));
    out.push(',');
    append_quoted(&mut out, "dataArray");
    out.push(':');
    match &e.payload_list {
        Option::Some(items) => append_list(&mut out, items),
        Option::None => append_null(&mut out),
    }
    out.push(',');
    append_quoted(&mut out, "data");
    out.push(':');
    match &e.payload_text {
        Option::Some(s) => append_quoted(&mut out, s.as_str()),
        Option::None => append_null(&mut out),
    }
    out.push('}');
    proof {
        reveal_strlit("messageType");
        reveal_strlit("dataArray");
        reveal_strlit("data");
        assert("messageType"@ =~= key_kind());
        assert("dataArray"@ =~= key_list());
        assert("data"@ =~= key_text());
        assert(out@ =~= envelope_text(
            e.kind,
            e.payload_list.deep_view(),
            e.payload_text.deep_view(),
        ));
    }
    out
}

/// Encodes the nested payload of a `Message` envelope from a sender and a
/// message body.
pub fn encode_message_payload(sender: &str, body: &str) -> (r: String)
    ensures
        r@ == message_payload_text(sender@, body@),
{
    let mut out = String::new();
    out.push('{');
    append_quoted(&mut out, "from");
    out.push(':');
    append_quoted(&mut out, sender);
    out.push(',');
    append_quoted(&mut out, "message");
    out.push(':');
    append_quoted(&mut out, body);
    out.push('}');
    proof {
        reveal_strlit("from");
        reveal_strlit("message");
        assert("from"@ =~= key_sender());
        assert("message"@ =~= key_body());
        assert(out@ =~= message_payload_text(sender@, body@));
    }
    out
}


// ---------------------------------------------------------------------------
// Decoding, at the specification level.  Every parsing function consumes a
// prefix of its input and returns what it read together with the remaining
// text, or nothing when the input does not fit.
// ---------------------------------------------------------------------------

/// A character that ends a bare (unquoted) scalar value.
pub open spec fn is_delim(c: char) -> bool {
    c == ',' || c == '}' || c == ']'
}

/// The numeric value of a hexadecimal digit, or -1 for any other character.
pub open spec fn hex_val(c: char) -> int {
    if 48 <= c as int && c as int <= 57 {
        c as int - 48
    } else if 97 <= c as int && c as int <= 102 {
        c as int - 87
    } else if 65 <= c as int && c as int <= 70 {
        c as int - 55
    } else {
        -1
    }
}

/// The character stood for by a single-letter escape, if the letter is one.
pub open spec fn unescape_char(c: char) -> Option<char> {
    if c == '"' {
        Option::Some('"')
    } else if c == '\\' {
        Option::Some('\\')
    } else if c == '/' {
        Option::Some('/')
    } else if c == 'n' {
        Option::Some('\n')
    } else if c == 't' {
        Option::Some('\t')
    } else if c == 'r' {
        Option::Some('\r')
    } else if c == 'b' {
        Option::Some('\u{8}')
    } else if c == 'f' {
        Option::Some('\u{c}')
    } else {
        Option::None
    }
}

/// A Unicode scalar value: what a `char` may hold.
pub open spec fn is_scalar_value(v: int) -> bool {
    v < 0xD800 || (0xE000 <= v && v <= 0x10FFFF)
}

/// The rest of a JSON string after its opening quote, without unescaping:
/// what remains after the closing quote.
pub open spec fn skip_string_rest(t: Seq<char>) -> Option<Seq<char>>
    decreases t.len(),
{
    if t.len() == 0 {
        Option::None
    } else if t[0] == '"' {
        Option::Some(t.skip(1))
    } else if t[0] == '\\' {
        if t.len() < 2 {
            Option::None
        } else {
            skip_string_rest(t.skip(2))
        }
    } else {
        skip_string_rest(t.skip(1))
    }
}

/// The rest of a composite value (object or array) entered at the given
/// nesting depth: what remains after the bracket that closes it.  Bracket
/// kinds are not matched against each other; an ignored field only needs to
/// be stepped over, not validated.
pub open spec fn skip_composite(t: Seq<char>, depth: nat, in_str: bool, esc: bool) -> Option<
    Seq<char>,
>
    decreases t.len(),
{
    if t.len() == 0 {
        Option::None
    } else {
        let c = t[0];
        let r = t.skip(1);
        if in_str {
            if esc {
                skip_composite(r, depth, true, false)
            } else if c == '\\' {
                skip_composite(r, depth, true, true)
            } else if c == '"' {
                skip_composite(r, depth, false, false)
            } else {
                skip_composite(r, depth, true, false)
            }
        } else if c == '"' {
            skip_composite(r, depth, true, false)
        } else if c == '{' || c == '[' {
            skip_composite(r, depth + 1, false, false)
        } else if c == '}' || c == ']' {
            if depth == 1 {
                Option::Some(r)
            } else {
                skip_composite(r, (depth - 1) as nat, false, false)
            }
        } else {
            skip_composite(r, depth, false, false)
        }
    }
}

/// What remains after a bare scalar: everything up to the first delimiter.
pub open spec fn skip_scalar(t: Seq<char>) -> Seq<char>
    decreases t.len(),
{
    if t.len() == 0 {
        t
    } else if is_delim(t[0]) {
        t
    } else {
        skip_scalar(t.skip(1))
    }
}

/// What remains after one JSON value of any shape, or nothing when the text
/// starts with no value at all.
pub open spec fn skip_value(t: Seq<char>) -> Option<Seq<char>> {
    if t.len() == 0 {
        Option::None
    } else if t[0] == '"' {
        skip_string_rest(t.skip(1))
    } else if t[0] == '{' || t[0] == '[' {
        skip_composite(t.skip(1), 1, false, false)
    } else if is_delim(t[0]) {
        Option::None
    } else {
        Option::Some(skip_scalar(t))
    }
}

/// The rest of a JSON string after its opening quote, unescaped: the string
/// read, and what remains after the closing quote.
pub open spec fn parse_string_rest(t: Seq<char>) -> Option<(Seq<char>, Seq<char>)>
    decreases t.len(),
{
    if t.len() == 0 {
        Option::None
    } else if t[0] == '"' {
        Option::Some((Seq::empty(), t.skip(1)))
    } else if t[0] == '\\' {
        if t.len() < 2 {
            Option::None
        } else if t[1] == 'u' {
            if t.len() < 6 {
                Option::None
            } else {
                let v = 4096 * hex_val(t[2]) + 256 * hex_val(t[3]) + 16 * hex_val(t[4]) + hex_val(
                    t[5],
                );
                if hex_val(t[2]) >= 0 && hex_val(t[3]) >= 0 && hex_val(t[4]) >= 0 && hex_val(t[5])
                    >= 0 && is_scalar_value(v) {
                    match parse_string_rest(t.skip(6)) {
                        Option::Some((s, r)) => Option::Some((seq![(v as u32) as char] + s, r)),
                        Option::None => Option::None,
                    }
                } else {
                    Option::None
                }
            }
        } else {
            match unescape_char(t[1]) {
                Option::Some(c) => match parse_string_rest(t.skip(2)) {
                    Option::Some((s, r)) => Option::Some((seq![c] + s, r)),
                    Option::None => Option::None,
                },
                Option::None => Option::None,
            }
        }
    } else {
        match parse_string_rest(t.skip(1)) {
            Option::Some((s, r)) => Option::Some((seq![t[0]] + s, r)),
            Option::None => Option::None,
        }
    }
}

/// A whole JSON string, opening quote included.
pub open spec fn parse_quoted(t: Seq<char>) -> Option<(Seq<char>, Seq<char>)> {
    if t.len() > 0 && t[0] == '"' {
        parse_string_rest(t.skip(1))
    } else {
        Option::None
    }
}

/// The literal `null`.
pub open spec fn parse_null(t: Seq<char>) -> Option<Seq<char>> {
    if t.len() >= 4 && t[0] == 'n' && t[1] == 'u' && t[2] == 'l' && t[3] == 'l' {
        Option::Some(t.skip(4))
    } else {
        Option::None
    }
}

/// The items of a JSON array of strings, read after the opening bracket.
pub open spec fn parse_items(t: Seq<char>) -> Option<(Seq<Seq<char>>, Seq<char>)>
    decreases t.len(),
{
    if t.len() == 0 {
        Option::None
    } else if t[0] == ']' {
        Option::Some((Seq::empty(), t.skip(1)))
    } else {
        match parse_quoted(t) {
            Option::None => Option::None,
            Option::Some((s, r)) => {
                if r.len() >= t.len() {
                    Option::None
                } else if r.len() > 0 && r[0] == ',' {
                    match parse_items(r.skip(1)) {
                        Option::Some((items, r2)) => Option::Some((seq![s] + items, r2)),
                        Option::None => Option::None,
                    }
                } else if r.len() > 0 && r[0] == ']' {
                    Option::Some((seq![s], r.skip(1)))
                } else {
                    Option::None
                }
            },
        }
    }
}

/// The three envelope fields read from the members of a JSON object, starting
/// after `{` or after a separating comma.  Known keys fill their slot (a later
/// occurrence wins), `null` empties it, and unknown keys are stepped over.
pub open spec fn parse_env_fields(
    t: Seq<char>,
    mt: Option<Seq<char>>,
    da: Option<Seq<Seq<char>>>,
    d: Option<Seq<char>>,
) -> Option<((Option<Seq<char>>, Option<Seq<Seq<char>>>, Option<Seq<char>>), Seq<char>)>
    decreases t.len(),
{
    match parse_quoted(t) {
        Option::None => Option::None,
        Option::Some((key, r1)) => {
            if r1.len() == 0 || r1[0] != ':' {
                Option::None
            } else {
                let r2 = r1.skip(1);
                let step: Option<
                    ((Option<Seq<char>>, Option<Seq<Seq<char>>>, Option<Seq<char>>), Seq<char>),
                > = if key == key_kind() {
                    match parse_quoted(r2) {
                        Option::Some((v, r3)) => Option::Some(((Option::Some(v), da, d), r3)),
                        Option::None => Option::None,
                    }
                } else if key == key_list() {
                    if r2.len() > 0 && r2[0] == '[' {
                        match parse_items(r2.skip(1)) {
                            Option::Some((items, r3)) => Option::Some(
                                ((mt, Option::Some(items), d), r3),
                            ),
                            Option::None => Option::None,
                        }
                    } else {
                        match parse_null(r2) {
                            Option::Some(r3) => Option::Some(((mt, Option::None, d), r3)),
                            Option::None => Option::None,
                        }
                    }
                } else if key == key_text() {
                    if r2.len() > 0 && r2[0] == '"' {
                        match parse_quoted(r2) {
                            Option::Some((v, r3)) => Option::Some(((mt, da, Option::Some(v)), r3)),
                            Option::None => Option::None,
                        }
                    } else {
                        match parse_null(r2) {
                            Option::Some(r3) => Option::Some(((mt, da, Option::None), r3)),
                            Option::None => Option::None,
                        }
                    }
                } else {
                    match skip_value(r2) {
                        Option::Some(r3) => Option::Some(((mt, da, d), r3)),
                        Option::None => Option::None,
                    }
                };
                match step {
                    Option::None => Option::None,
                    Option::Some((slots, r3)) => {
                        if r3.len() == 0 {
                            Option::None
                        } else if r3[0] == '}' {
                            Option::Some((slots, r3.skip(1)))
                        } else if r3[0] == ',' && r3.len() < t.len() {
                            parse_env_fields(r3.skip(1), slots.0, slots.1, slots.2)
                        } else {
                            Option::None
                        }
                    },
                }
            }
        },
    }
}

/// Which kind a wire tag names, if any.
pub open spec fn tag_kind(tag: Seq<char>) -> Option<MsgTypes> {
    if tag == kind_tag(MsgTypes::Users) {
        Option::Some(MsgTypes::Users)
    } else if tag == kind_tag(MsgTypes::Register) {
        Option::Some(MsgTypes::Register)
    } else if tag == kind_tag(MsgTypes::Message) {
        Option::Some(MsgTypes::Message)
    } else {
        Option::None
    }
}

/// What `decode` reads from a text: the envelope kind and the two payload
/// fields, or nothing when the text is not a valid envelope.  A missing field
/// and an explicit `null` both leave their payload absent.
pub open spec fn decode_spec(t: Seq<char>) -> Option<
    (MsgTypes, Option<Seq<Seq<char>>>, Option<Seq<char>>),
> {
    if t.len() == 0 || t[0] != '{' {
        Option::None
    } else {
        match parse_env_fields(t.skip(1), Option::None, Option::None, Option::None) {
            Option::None => Option::None,
            Option::Some((slots, rest)) => if rest.len() != 0 {
                Option::None
            } else {
                match slots.0 {
                    Option::None => Option::None,
                    Option::Some(tag) => match tag_kind(tag) {
                        Option::None => Option::None,
                        Option::Some(k) => Option::Some((k, slots.1, slots.2)),
                    },
                }
            },
        }
    }
}

/// The two fields of a nested message payload, read from the members of a
/// JSON object.  Both must be strings; unknown keys are stepped over.
pub open spec fn parse_msg_fields(
    t: Seq<char>,
    from: Option<Seq<char>>,
    body: Option<Seq<char>>,
) -> Option<((Option<Seq<char>>, Option<Seq<char>>), Seq<char>)>
    decreases t.len(),
{
    match parse_quoted(t) {
        Option::None => Option::None,
        Option::Some((key, r1)) => {
            if r1.len() == 0 || r1[0] != ':' {
                Option::None
            } else {
                let r2 = r1.skip(1);
                let step: Option<((Option<Seq<char>>, Option<Seq<char>>), Seq<char>)> = if key
                    == key_sender() {
                    match parse_quoted(r2) {
                        Option::Some((v, r3)) => Option::Some(((Option::Some(v), body), r3)),
                        Option::None => Option::None,
                    }
                } else if key == key_body() {
                    match parse_quoted(r2) {
                        Option::Some((v, r3)) => Option::Some(((from, Option::Some(v)), r3)),
                        Option::None => Option::None,
                    }
                } else {
                    match skip_value(r2) {
                        Option::Some(r3) => Option::Some(((from, body), r3)),
                        Option::None => Option::None,
                    }
                };
                match step {
                    Option::None => Option::None,
                    Option::Some((slots, r3)) => {
                        if r3.len() == 0 {
                            Option::None
                        } else if r3[0] == '}' {
                            Option::Some((slots, r3.skip(1)))
                        } else if r3[0] == ',' && r3.len() < t.len() {
                            parse_msg_fields(r3.skip(1), slots.0, slots.1)
                        } else {
                            Option::None
                        }
                    },
                }
            }
        },
    }
}

/// What `decode_message_payload` reads from a text: the sender and the body,
/// or nothing when the text is not a valid payload.  The sender must be
/// non-empty, since it identifies a user.
pub open spec fn decode_msg_spec(t: Seq<char>) -> Option<(Seq<char>, Seq<char>)> {
    if t.len() == 0 || t[0] != '{' {
        Option::None
    } else {
        match parse_msg_fields(t.skip(1), Option::None, Option::None) {
            Option::None => Option::None,
            Option::Some((slots, rest)) => if rest.len() != 0 {
                Option::None
            } else {
                match slots {
                    (Option::Some(f), Option::Some(b)) => if f.len() > 0 {
                        Option::Some((f, b))
                    } else {
                        Option::None
                    },
                    _ => Option::None,
                }
            },
        }
    }
}


// ---------------------------------------------------------------------------
// Decoding, executably.  Each function returns exactly what its specification
// counterpart reads from the text starting at `pos`.
// ---------------------------------------------------------------------------

proof fn lemma_skip_skip(s: Seq<char>, a: int, b: int)
    requires
        0 <= a,
        0 <= b,
        a + b <= s.len(),
    ensures
        s.skip(a).skip(b) == s.skip(a + b),
{
    assert(s.skip(a).skip(b) =~= s.skip(a + b));
}

fn str_to_chars(s: &str) -> (v: Vec<char>)
    ensures
        v@ == s@,
{
    let n = s.unicode_len();
    let mut v: Vec<char> = Vec::new();
    let mut i: usize = 0;
    while i < n
        invariant
            i <= n,
            n == s@.len(),
            v@ == s@.subrange(0, i as int),
        decreases n - i,
    {
        v.push(s.get_char(i));
        proof {
            assert(v@ =~= s@.subrange(0, i + 1 as int));
        }
        i = i + 1;
    }
    proof {
        assert(s@.subrange(0, n as int) =~= s@);
    }
    v
}

fn e_skip_string_rest(v: &Vec<char>, pos: usize) -> (r: Option<usize>)
    requires
        pos <= v.len(),
    ensures
        r matches Option::Some(np) ==> pos <= np <= v.len() && skip_string_rest(
            v@.skip(pos as int),
        ) == Option::Some(v@.skip(np as int)),
        r is None ==> skip_string_rest(v@.skip(pos as int)) is None,
{
    let mut p = pos;
    loop
        invariant
            pos <= p <= v.len(),
            skip_string_rest(v@.skip(pos as int)) == skip_string_rest(v@.skip(p as int)),
        decreases v.len() - p,
    {
        if p == v.len() {
            return Option::None;
        }
        let c = v[p];
        proof {
            assert(v@.skip(p as int)[0] == v@[p as int]);
        }
        if c == '"' {
            proof {
                lemma_skip_skip(v@, p as int, 1);
            }
            return Option::Some(p + 1);
        } else if c == '\\' {
            if v.len() - p < 2 {
                return Option::None;
            }
            proof {
                lemma_skip_skip(v@, p as int, 2);
            }
            p = p + 2;
        } else {
            proof {
                lemma_skip_skip(v@, p as int, 1);
            }
            p = p + 1;
        }
    }
}

fn e_skip_composite(v: &Vec<char>, pos: usize, depth: usize, in_str: bool, esc: bool) -> (r: Option<
    usize,
>)
    requires
        pos <= v.len(),
        1 <= depth <= pos,
    ensures
        r matches Option::Some(np) ==> pos <= np <= v.len() && skip_composite(
            v@.skip(pos as int),
            depth as nat,
            in_str,
            esc,
        ) == Option::Some(v@.skip(np as int)),
        r is None ==> skip_composite(v@.skip(pos as int), depth as nat, in_str, esc) is None,
{
    let mut p = pos;
    let mut dep = depth;
    let mut ins = in_str;
    let mut es = esc;
    loop
        invariant
            pos <= p <= v.len(),
            1 <= dep <= p,
            skip_composite(v@.skip(pos as int), depth as nat, in_str, esc) == skip_composite(
                v@.skip(p as int),
                dep as nat,
                ins,
                es,
            ),
        decreases v.len() - p,
    {
        if p == v.len() {
            return Option::None;
        }
        let c = v[p];
        proof {
            assert(v@.skip(p as int)[0] == v@[p as int]);
            lemma_skip_skip(v@, p as int, 1);
        }
        if ins {
            if es {
                es = false;
            } else if c == '\\' {
                es = true;
            } else if c == '"' {
                ins = false;
            }
            p = p + 1;
        } else if c == '"' {
            ins = true;
            es = false;
            p = p + 1;
        } else if c == '{' || c == '[' {
            dep = dep + 1;
            es = false;
            p = p + 1;
        } else if c == '}' || c == ']' {
            if dep == 1 {
                return Option::Some(p + 1);
            }
            dep = dep - 1;
            es = false;
            p = p + 1;
        } else {
            es = false;
            p = p + 1;
        }
    }
}

fn e_skip_scalar(v: &Vec<char>, pos: usize) -> (np: usize)
    requires
        pos <= v.len(),
    ensures
        pos <= np <= v.len(),
        skip_scalar(v@.skip(pos as int)) == v@.skip(np as int),
{
    let mut p = pos;
    loop
        invariant
            pos <= p <= v.len(),
            skip_scalar(v@.skip(pos as int)) == skip_scalar(v@.skip(p as int)),
        decreases v.len() - p,
    {
        if p == v.len() {
            return p;
        }
        let c = v[p];
        proof {
            assert(v@.skip(p as int)[0] == v@[p as int]);
            lemma_skip_skip(v@, p as int, 1);
        }
        if c == ',' || c == '}' || c == ']' {
            return p;
        }
        p = p + 1;
    }
}

fn e_skip_value(v: &Vec<char>, pos: usize) -> (r: Option<usize>)
    requires
        pos <= v.len(),
    ensures
        r matches Option::Some(np) ==> pos <= np <= v.len() && skip_value(v@.skip(pos as int))
            == Option::Some(v@.skip(np as int)),
        r is None ==> skip_value(v@.skip(pos as int)) is None,
{
    if pos == v.len() {
        return Option::None;
    }
    let c = v[pos];
    proof {
        assert(v@.skip(pos as int)[0] == v@[pos as int]);
        lemma_skip_skip(v@, pos as int, 1);
    }
    if c == '"' {
        e_skip_string_rest(v, pos + 1)
    } else if c == '{' || c == '[' {
        e_skip_composite(v, pos + 1, 1, false, false)
    } else if c == ',' || c == '}' || c == ']' {
        Option::None
    } else {
        Option::Some(e_skip_scalar(v, pos))
    }
}

fn e_hex_val(c: char) -> (r: i32)
    ensures
        r as int == hex_val(c),
{
    let u = c as u32;
    if 48 <= u && u <= 57 {
        (u - 48) as i32
    } else if 97 <= u && u <= 102 {
        (u - 87) as i32
    } else if 65 <= u && u <= 70 {
        (u - 55) as i32
    } else {
        -1
    }
}

fn e_unescape_char(c: char) -> (r: Option<char>)
    ensures
        r == unescape_char(c),
{
    if c == '"' {
        Option::Some('"')
    } else if c == '\\' {
        Option::Some('\\')
    } else if c == '/' {
        Option::Some('/')
    } else if c == 'n' {
        Option::Some('\n')
    } else if c == 't' {
        Option::Some('\t')
    } else if c == 'r' {
        Option::Some('\r')
    } else if c == 'b' {
        Option::Some('\u{8}')
    } else if c == 'f' {
        Option::Some('\u{c}')
    } else {
        Option::None
    }
}

fn e_parse_string_rest(v: &Vec<char>, pos: usize) -> (r: Option<(String, usize)>)
    requires
        pos <= v.len(),
    ensures
        r matches Option::Some((s, np)) ==> pos <= np <= v.len() && parse_string_rest(
            v@.skip(pos as int),
        ) == Option::Some((s@, v@.skip(np as int))),
        r is None ==> parse_string_rest(v@.skip(pos as int)) is None,
{
    let mut out = String::new();
    let mut p = pos;
    loop
        invariant
            pos <= p <= v.len(),
            match parse_string_rest(v@.skip(p as int)) {
                Option::Some((s, rem)) => parse_string_rest(v@.skip(pos as int))
                    == Option::Some::<(Seq<char>, Seq<char>)>((out@ + s, rem)),
                Option::None => parse_string_rest(v@.skip(pos as int)) is None,
            },
        decreases v.len() - p,
    {
        if p == v.len() {
            return Option::None;
        }
        let c = v[p];
        proof {
            assert(v@.skip(p as int)[0] == v@[p as int]);
        }
        if c == '"' {
            proof {
                lemma_skip_skip(v@, p as int, 1);
                assert(out@ + Seq::<char>::empty() =~= out@);
            }
            return Option::Some((out, p + 1));
        } else if c == '\\' {
            if v.len() - p < 2 {
                return Option::None;
            }
            let e = v[p + 1];
            proof {
                assert(v@.skip(p as int)[1] == v@[p + 1 as int]);
            }
            if e == 'u' {
                if v.len() - p < 6 {
                    return Option::None;
                }
                let h2 = e_hex_val(v[p + 2]);
                let h3 = e_hex_val(v[p + 3]);
                let h4 = e_hex_val(v[p + 4]);
                let h5 = e_hex_val(v[p + 5]);
                proof {
                    assert(v@.skip(p as int)[2] == v@[p + 2 as int]);
                    assert(v@.skip(p as int)[3] == v@[p + 3 as int]);
                    assert(v@.skip(p as int)[4] == v@[p + 4 as int]);
                    assert(v@.skip(p as int)[5] == v@[p + 5 as int]);
                }
                if h2 < 0 || h3 < 0 || h4 < 0 || h5 < 0 {
                    return Option::None;
                }
                let val: u32 = 4096 * (h2 as u32) + 256 * (h3 as u32) + 16 * (h4 as u32) + (
                h5 as u32);
                match char::from_u32(val) {
                    Option::Some(c2) => {
                        let ghost pre = out@;
                        out.push(c2);
                        proof {
                            lemma_skip_skip(v@, p as int, 6);
                            let t = v@.skip(p as int);
                            let sv = 4096 * hex_val(t[2]) + 256 * hex_val(t[3]) + 16 * hex_val(
                                t[4],
                            ) + hex_val(t[5]);
                            assert(sv == val as int);
                            assert(sv as u32 == val);
                            vstd::utf8::char_u32_cast(c2, val);
                            assert(c2 == ((sv as u32) as char));
                            match parse_string_rest(v@.skip(p + 6 as int)) {
                                Option::Some((s2, rem)) => {
                                    assert((pre + seq![c2]) + s2 =~= pre + (seq![c2] + s2));
                                    assert(out@ =~= pre + seq![c2]);
                                },
                                Option::None => {},
                            }
                        }
                        p = p + 6;
                    },
                    Option::None => {
                        return Option::None;
                    },
                }
            } else {
                match e_unescape_char(e) {
                    Option::Some(c2) => {
                        let ghost pre = out@;
                        out.push(c2);
                        proof {
                            lemma_skip_skip(v@, p as int, 2);
                            match parse_string_rest(v@.skip(p + 2 as int)) {
                                Option::Some((s2, rem)) => {
                                    assert((pre + seq![c2]) + s2 =~= pre + (seq![c2] + s2));
                                    assert(out@ =~= pre + seq![c2]);
                                },
                                Option::None => {},
                            }
                        }
                        p = p + 2;
                    },
                    Option::None => {
                        return Option::None;
                    },
                }
            }
        } else {
            let ghost pre = out@;
            out.push(c);
            proof {
                lemma_skip_skip(v@, p as int, 1);
                match parse_string_rest(v@.skip(p + 1 as int)) {
                    Option::Some((s2, rem)) => {
                        assert((pre + seq![c]) + s2 =~= pre + (seq![c] + s2));
                        assert(out@ =~= pre + seq![c]);
                    },
                    Option::None => {},
                }
            }
            p = p + 1;
        }
    }
}

fn e_parse_quoted(v: &Vec<char>, pos: usize) -> (r: Option<(String, usize)>)
    requires
        pos <= v.len(),
    ensures
        r matches Option::Some((s, np)) ==> pos < np <= v.len() && parse_quoted(
            v@.skip(pos as int),
        ) == Option::Some((s@, v@.skip(np as int))),
        r is None ==> parse_quoted(v@.skip(pos as int)) is None,
{
    if pos == v.len() {
        return Option::None;
    }
    proof {
        assert(v@.skip(pos as int)[0] == v@[pos as int]);
    }
    if v[pos] != '"' {
        return Option::None;
    }
    proof {
        lemma_skip_skip(v@, pos as int, 1);
    }
    e_parse_string_rest(v, pos + 1)
}

fn e_parse_null(v: &Vec<char>, pos: usize) -> (r: Option<usize>)
    requires
        pos <= v.len(),
    ensures
        r matches Option::Some(np) ==> pos <= np <= v.len() && parse_null(v@.skip(pos as int))
            == Option::Some(v@.skip(np as int)),
        r is None ==> parse_null(v@.skip(pos as int)) is None,
{
    if v.len() - pos < 4 {
        return Option::None;
    }
    proof {
        assert(v@.skip(pos as int)[0] == v@[pos as int]);
        assert(v@.skip(pos as int)[1] == v@[pos + 1 as int]);
        assert(v@.skip(pos as int)[2] == v@[pos + 2 as int]);
        assert(v@.skip(pos as int)[3] == v@[pos + 3 as int]);
        lemma_skip_skip(v@, pos as int, 4);
    }
    if v[pos] == 'n' && v[pos + 1] == 'u' && v[pos + 2] == 'l' && v[pos + 3] == 'l' {
        Option::Some(pos + 4)
    } else {
        Option::None
    }
}

fn e_parse_items(v: &Vec<char>, pos: usize) -> (r: Option<(Vec<String>, usize)>)
    requires
        pos <= v.len(),
    ensures
        r matches Option::Some((items, np)) ==> pos <= np <= v.len() && parse_items(
            v@.skip(pos as int),
        ) == Option::Some((items.deep_view(), v@.skip(np as int))),
        r is None ==> parse_items(v@.skip(pos as int)) is None,
{
    let mut acc: Vec<String> = Vec::new();
    let mut p = pos;
    loop
        invariant
            pos <= p <= v.len(),
            match parse_items(v@.skip(p as int)) {
                Option::Some((items, rem)) => parse_items(v@.skip(pos as int))
                    == Option::Some::<(Seq<Seq<char>>, Seq<char>)>((acc.deep_view() + items, rem)),
                Option::None => parse_items(v@.skip(pos as int)) is None,
            },
        decreases v.len() - p,
    {
        if p == v.len() {
            return Option::None;
        }
        proof {
            assert(v@.skip(p as int)[0] == v@[p as int]);
        }
        if v[p] == ']' {
            proof {
                lemma_skip_skip(v@, p as int, 1);
                assert(acc.deep_view() + Seq::<Seq<char>>::empty() =~= acc.deep_view());
            }
            return Option::Some((acc, p + 1));
        }
        match e_parse_quoted(v, p) {
            Option::None => {
                return Option::None;
            },
            Option::Some((s, np)) => {
                if np == v.len() {
                    return Option::None;
                }
                let c2 = v[np];
                proof {
                    assert(v@.skip(np as int)[0] == v@[np as int]);
                }
                let ghost pre = acc.deep_view();
                let ghost sv = s@;
                acc.push(s);
                proof {
                    assert(acc.deep_view() =~= pre + seq![sv]);
                }
                if c2 == ',' {
                    proof {
                        lemma_skip_skip(v@, np as int, 1);
                        match parse_items(v@.skip(np + 1 as int)) {
                            Option::Some((items2, rem)) => {
                                assert((pre + seq![sv]) + items2 =~= pre + (seq![sv] + items2));
                            },
                            Option::None => {},
                        }
                    }
                    p = np + 1;
                } else if c2 == ']' {
                    proof {
                        lemma_skip_skip(v@, np as int, 1);
                        assert(pre + seq![sv] =~= acc.deep_view());
                    }
                    return Option::Some((acc, np + 1));
                } else {
                    return Option::None;
                }
            },
        }
    }
}

pub(crate) fn str_eq(s: &String, lit: &str) -> (r: bool)
    ensures
        r == (s@ == lit@),
{
    let other = String::from_str(lit);
    s.eq(&other)
}

fn e_parse_env_fields(v: &Vec<char>, pos: usize) -> (r: Option<
    (Option<String>, Option<Vec<String>>, Option<String>, usize),
>)
    requires
        pos <= v.len(),
    ensures
        r matches Option::Some((mt, da, d, np)) ==> pos <= np <= v.len() && parse_env_fields(
            v@.skip(pos as int),
            Option::None,
            Option::None,
            Option::None,
        ) == Option::Some(((mt.deep_view(), da.deep_view(), d.deep_view()), v@.skip(np as int))),
        r is None ==> parse_env_fields(
            v@.skip(pos as int),
            Option::None,
            Option::None,
            Option::None,
        ) is None,
{
    let mut mt: Option<String> = Option::None;
    let mut da: Option<Vec<String>> = Option::None;
    let mut d: Option<String> = Option::None;
    let mut p = pos;
    loop
        invariant
            pos <= p <= v.len(),
            parse_env_fields(v@.skip(pos as int), Option::None, Option::None, Option::None)
                == parse_env_fields(v@.skip(p as int), mt.deep_view(), da.deep_view(), d.deep_view()),
        decreases v.len() - p,
    {
        let (key, np1) = match e_parse_quoted(v, p) {
            Option::None => {
                return Option::None;
            },
            Option::Some(kn) => kn,
        };
        if np1 == v.len() {
            return Option::None;
        }
        proof {
            assert(v@.skip(np1 as int)[0] == v@[np1 as int]);
        }
        if v[np1] != ':' {
            return Option::None;
        }
        proof {
            lemma_skip_skip(v@, np1 as int, 1);
        }
        let p2 = np1 + 1;
        proof {
            reveal_strlit("messageType");
            reveal_strlit("dataArray");
            reveal_strlit("data");
            assert("messageType"@ =~= key_kind());
            assert("dataArray"@ =~= key_list());
            assert("data"@ =~= key_text());
        }
        let np3: usize;
        if str_eq(&key, "messageType") {
            match e_parse_quoted(v, p2) {
                Option::None => {
                    return Option::None;
                },
                Option::Some((s, np)) => {
                    mt = Option::Some(s);
                    np3 = np;
                },
            }
        } else if str_eq(&key, "dataArray") {
            proof {
                if v@.skip(p2 as int).len() > 0 {
                    assert(v@.skip(p2 as int)[0] == v@[p2 as int]);
                }
            }
            if p2 < v.len() && v[p2] == '[' {
                proof {
                    lemma_skip_skip(v@, p2 as int, 1);
                }
                match e_parse_items(v, p2 + 1) {
                    Option::None => {
                        return Option::None;
                    },
                    Option::Some((items, np)) => {
                        da = Option::Some(items);
                        np3 = np;
                    },
                }
            } else {
                match e_parse_null(v, p2) {
                    Option::None => {
                        return Option::None;
                    },
                    Option::Some(np) => {
                        da = Option::None;
                        np3 = np;
                    },
                }
            }
        } else if str_eq(&key, "data") {
            proof {
                if v@.skip(p2 as int).len() > 0 {
                    assert(v@.skip(p2 as int)[0] == v@[p2 as int]);
                }
            }
            if p2 < v.len() && v[p2] == '"' {
                match e_parse_quoted(v, p2) {
                    Option::None => {
                        return Option::None;
                    },
                    Option::Some((s, np)) => {
                        d = Option::Some(s);
                        np3 = np;
                    },
                }
            } else {
                match e_parse_null(v, p2) {
                    Option::None => {
                        return Option::None;
                    },
                    Option::Some(np) => {
                        d = Option::None;
                        np3 = np;
                    },
                }
            }
        } else {
            match e_skip_value(v, p2) {
                Option::None => {
                    return Option::None;
                },
                Option::Some(np) => {
                    np3 = np;
                },
            }
        }
        if np3 == v.len() {
            return Option::None;
        }
        let c3 = v[np3];
        proof {
            assert(v@.skip(np3 as int)[0] == v@[np3 as int]);
            lemma_skip_skip(v@, np3 as int, 1);
        }
        if c3 == '}' {
            return Option::Some((mt, da, d, np3 + 1));
        } else if c3 == ',' {
            p = np3 + 1;
        } else {
            return Option::None;
        }
    }
}

fn e_parse_msg_fields(v: &Vec<char>, pos: usize) -> (r: Option<
    (Option<String>, Option<String>, usize),
>)
    requires
        pos <= v.len(),
    ensures
        r matches Option::Some((f, b, np)) ==> pos <= np <= v.len() && parse_msg_fields(
            v@.skip(pos as int),
            Option::None,
            Option::None,
        ) == Option::Some(((f.deep_view(), b.deep_view()), v@.skip(np as int))),
        r is None ==> parse_msg_fields(v@.skip(pos as int), Option::None, Option::None) is None,
{
    let mut from: Option<String> = Option::None;
    let mut body: Option<String> = Option::None;
    let mut p = pos;
    loop
        invariant
            pos <= p <= v.len(),
            parse_msg_fields(v@.skip(pos as int), Option::None, Option::None) == parse_msg_fields(
                v@.skip(p as int),
                from.deep_view(),
                body.deep_view(),
            ),
        decreases v.len() - p,
    {
        let (key, np1) = match e_parse_quoted(v, p) {
            Option::None => {
                return Option::None;
            },
            Option::Some(kn) => kn,
        };
        if np1 == v.len() {
            return Option::None;
        }
        proof {
            assert(v@.skip(np1 as int)[0] == v@[np1 as int]);
        }
        if v[np1] != ':' {
            return Option::None;
        }
        proof {
            lemma_skip_skip(v@, np1 as int, 1);
        }
        let p2 = np1 + 1;
        proof {
            reveal_strlit("from");
            reveal_strlit("message");
            assert("from"@ =~= key_sender());
            assert("message"@ =~= key_body());
        }
        let np3: usize;
        if str_eq(&key, "from") {
            match e_parse_quoted(v, p2) {
                Option::None => {
                    return Option::None;
                },
                Option::Some((s, np)) => {
                    from = Option::Some(s);
                    np3 = np;
                },
            }
        } else if str_eq(&key, "message") {
            match e_parse_quoted(v, p2) {
                Option::None => {
                    return Option::None;
                },
                Option::Some((s, np)) => {
                    body = Option::Some(s);
                    np3 = np;
                },
            }
        } else {
            match e_skip_value(v, p2) {
                Option::None => {
                    return Option::None;
                },
                Option::Some(np) => {
                    np3 = np;
                },
            }
        }
        if np3 == v.len() {
            return Option::None;
        }
        let c3 = v[np3];
        proof {
            assert(v@.skip(np3 as int)[0] == v@[np3 as int]);
            lemma_skip_skip(v@, np3 as int, 1);
        }
        if c3 == '}' {
            return Option::Some((from, body, np3 + 1));
        } else if c3 == ',' {
            p = np3 + 1;
        } else {
            return Option::None;
        }
    }
}

/// Decodes a wire text into an envelope.  The result is `Ok` exactly when the
/// text reads as an envelope with a known tag, and then carries the kind and
/// the payload fields the text holds; otherwise it is `Malformed`.
pub fn decode(text: &str) -> (r: Result<Envelope, DecodeError>)
    ensures
        match decode_spec(text@) {
            Option::Some((k, l, t)) => r matches Ok(e) && e.kind == k && e.payload_list.deep_view()
                == l && e.payload_text.deep_view() == t,
            Option::None => r == Err::<Envelope, DecodeError>(DecodeError::Malformed),
        },
{
    let v = str_to_chars(text);
    if v.len() == 0 {
        return Err(DecodeError::Malformed);
    }
    proof {
        assert(v@.skip(0)[0] == v@[0]);
        assert(v@.skip(0) =~= v@);
    }
    if v[0] != '{' {
        return Err(DecodeError::Malformed);
    }
    proof {
        lemma_skip_skip(v@, 0, 1);
    }
    match e_parse_env_fields(&v, 1) {
        Option::None => Err(DecodeError::Malformed),
        Option::Some((mt, da, d, np)) => {
            if np != v.len() {
                return Err(DecodeError::Malformed);
            }
            proof {
                assert(v@.skip(np as int) =~= Seq::<char>::empty());
            }
            let tag = match mt {
                Option::None => {
                    return Err(DecodeError::Malformed);
                },
                Option::Some(tag) => tag,
            };
            proof {
                reveal_strlit("users");
                reveal_strlit("register");
                reveal_strlit("message");
                assert("users"@ =~= kind_tag(MsgTypes::Users));
                assert("register"@ =~= kind_tag(MsgTypes::Register));
                assert("message"@ =~= kind_tag(MsgTypes::Message));
            }
            let kind: MsgTypes;
            if str_eq(&tag, "users") {
                kind = MsgTypes::Users;
            } else if str_eq(&tag, "register") {
                kind = MsgTypes::Register;
            } else if str_eq(&tag, "message") {
                kind = MsgTypes::Message;
            } else {
                return Err(DecodeError::Malformed);
            }
            Ok(Envelope { kind, payload_list: da, payload_text: d })
        },
    }
}

/// Decodes the nested payload of a `Message` envelope.  The result is `Ok`
/// exactly when the text reads as a payload object whose `from` field names a
/// non-empty sender; otherwise it is `MalformedPayload`.
pub fn decode_message_payload(text: &str) -> (r: Result<ChatMessage, DecodeError>)
    ensures
        match decode_msg_spec(text@) {
            Option::Some((f, b)) => r matches Ok(m) && m.sender@ == f && m.body@ == b
                && m.well_formed(),
            Option::None => r == Err::<ChatMessage, DecodeError>(DecodeError::MalformedPayload),
        },
{
    let v = str_to_chars(text);
    if v.len() == 0 {
        return Err(DecodeError::MalformedPayload);
    }
    proof {
        assert(v@.skip(0)[0] == v@[0]);
        assert(v@.skip(0) =~= v@);
    }
    if v[0] != '{' {
        return Err(DecodeError::MalformedPayload);
    }
    proof {
        lemma_skip_skip(v@, 0, 1);
    }
    match e_parse_msg_fields(&v, 1) {
        Option::None => Err(DecodeError::MalformedPayload),
        Option::Some((f, b, np)) => {
            if np != v.len() {
                return Err(DecodeError::MalformedPayload);
            }
            proof {
                assert(v@.skip(np as int) =~= Seq::<char>::empty());
            }
            match (f, b) {
                (Option::Some(sender), Option::Some(body)) => {
                    if sender.as_str().is_empty() {
                        return Err(DecodeError::MalformedPayload);
                    }
                    Ok(ChatMessage { sender, body })
                },
                _ => Err(DecodeError::MalformedPayload),
            }
        },
    }
}


// ---------------------------------------------------------------------------
// The codec round trip: decoding a canonical encoding reads back exactly the
// fields that were encoded.
// ---------------------------------------------------------------------------

proof fn lemma_hex_round(x: int)
    requires
        0 <= x < 16,
    ensures
        hex_val(hex_char(x)) == x,
{
}

proof fn lemma_escaped_front(s: Seq<char>)
    requires
        s.len() > 0,
    ensures
        escaped(s) == escape_char(s[0]) + escaped(s.skip(1)),
    decreases s.len(),
{
    if s.len() == 1 {
        assert(s.drop_last() =~= Seq::<char>::empty());
        assert(s.skip(1) =~= Seq::<char>::empty());
        assert(escape_char(s.last()) =~= escape_char(s[0]) + escaped(s.skip(1)));
        assert(escaped(s) =~= escape_char(s[0]) + escaped(s.skip(1)));
    } else {
        let d = s.drop_last();
        lemma_escaped_front(d);
        assert(d[0] == s[0]);
        assert(d.skip(1) =~= s.skip(1).drop_last());
        assert(s.skip(1).last() == s.last());
        assert(escaped(s) == escaped(d) + escape_char(s.last()));
        assert(escaped(d) == escape_char(s[0]) + escaped(s.skip(1).drop_last()));
        assert(escaped(s.skip(1)) == escaped(s.skip(1).drop_last()) + escape_char(s.skip(1).last()));
        assert((escape_char(s[0]) + escaped(s.skip(1).drop_last())) + escape_char(s.last()) =~= escape_char(
            s[0],
        ) + escaped(s.skip(1)));
    }
}

proof fn lemma_parse_escaped(s: Seq<char>, rest: Seq<char>)
    ensures
        parse_string_rest(escaped(s) + seq!['"'] + rest) == Option::Some((s, rest)),
    decreases s.len(),
{
    let t = escaped(s) + seq!['"'] + rest;
    if s.len() == 0 {
        assert(escaped(s) =~= Seq::<char>::empty());
        assert(t[0] == '"');
        assert(t.skip(1) =~= rest);
        assert(Seq::<char>::empty() =~= s);
    } else {
        let c = s[0];
        lemma_escaped_front(s);
        let tail = escaped(s.skip(1)) + seq!['"'] + rest;
        assert(t =~= escape_char(c) + tail);
        lemma_parse_escaped(s.skip(1), rest);
        if c == '"' {
            assert(t[0] == '\\');
            assert(t[1] == '"');
            assert(t.len() >= 2);
            assert(t.skip(2) =~= tail);
            assert(seq![c] + s.skip(1) =~= s);
        } else if c == '\\' {
            assert(t[0] == '\\');
            assert(t[1] == '\\');
            assert(t.skip(2) =~= tail);
            assert(seq![c] + s.skip(1) =~= s);
        } else if (c as u32) < 0x20 {
            let cu = c as u32;
            assert(t[0] == '\\');
            assert(t[1] == 'u');
            assert(t[2] == '0');
            assert(t[3] == '0');
            assert(t[4] == hex_char((cu / 16) as int));
            assert(t[5] == hex_char((cu % 16) as int));
            assert(t.len() >= 6);
            lemma_hex_round((cu / 16) as int);
            lemma_hex_round((cu % 16) as int);
            assert(hex_val(t[2]) == 0);
            assert(hex_val(t[3]) == 0);
            let v = 4096 * hex_val(t[2]) + 256 * hex_val(t[3]) + 16 * hex_val(t[4]) + hex_val(t[5]);
            assert(v == 16 * ((cu / 16) as int) + (cu % 16) as int);
            assert(v == cu as int);
            assert(is_scalar_value(v));
            assert(t.skip(6) =~= tail);
            assert((v as u32) == cu);
            vstd::utf8::char_u32_cast(c, cu);
            assert(((v as u32) as char) == c);
            assert(seq![c] + s.skip(1) =~= s);
        } else {
            assert(t[0] == c);
            assert(t.skip(1) =~= tail);
            assert(seq![c] + s.skip(1) =~= s);
        }
    }
}

proof fn lemma_parse_quoted(s: Seq<char>, rest: Seq<char>)
    ensures
        parse_quoted(quoted(s) + rest) == Option::Some((s, rest)),
        (quoted(s) + rest).len() > 0,
        (quoted(s) + rest)[0] == '"',
        quoted(s).len() >= 2,
{
    let t = quoted(s) + rest;
    assert(t[0] == '"');
    assert(t.skip(1) =~= escaped(s) + seq!['"'] + rest);
    lemma_parse_escaped(s, rest);
}

proof fn lemma_parse_null(rest: Seq<char>)
    ensures
        parse_null(null_text() + rest) == Option::Some(rest),
        (null_text() + rest)[0] == 'n',
{
    let t = null_text() + rest;
    assert(t.len() >= 4);
    assert(t[0] == 'n' && t[1] == 'u' && t[2] == 'l' && t[3] == 'l');
    assert(t.skip(4) =~= rest);
}

proof fn lemma_items_front(items: Seq<Seq<char>>)
    requires
        items.len() >= 2,
    ensures
        list_items_text(items) == quoted(items[0]) + seq![','] + list_items_text(items.skip(1)),
    decreases items.len(),
{
    if items.len() == 2 {
        let d = items.drop_last();
        assert(d =~= seq![items[0]]);
        assert(list_items_text(d) == quoted(items[0]));
        assert(items.skip(1) =~= seq![items[1]]);
        assert(list_items_text(items.skip(1)) == quoted(items[1]));
        assert(items.last() == items[1]);
        assert(list_items_text(d) + seq![','] + quoted(items.last()) =~= quoted(items[0]) + seq![',']
            + list_items_text(items.skip(1)));
    } else {
        let d = items.drop_last();
        lemma_items_front(d);
        assert(d[0] == items[0]);
        assert(d.skip(1) =~= items.skip(1).drop_last());
        assert(items.skip(1).last() == items.last());
        assert(items.skip(1).len() >= 2);
        assert(list_items_text(items) == list_items_text(d) + seq![','] + quoted(items.last()));
        assert(list_items_text(items.skip(1)) == list_items_text(items.skip(1).drop_last())
            + seq![','] + quoted(items.skip(1).last()));
        assert((quoted(items[0]) + seq![','] + list_items_text(items.skip(1).drop_last())) + seq![',']
            + quoted(items.last()) =~= quoted(items[0]) + seq![','] + list_items_text(items.skip(1)));
    }
}

proof fn lemma_parse_items(items: Seq<Seq<char>>, rest: Seq<char>)
    ensures
        parse_items(list_items_text(items) + seq![']'] + rest) == Option::Some((items, rest)),
    decreases items.len(),
{
    let t = list_items_text(items) + seq![']'] + rest;
    if items.len() == 0 {
        assert(t =~= seq![']'] + rest);
        assert(t[0] == ']');
        assert(t.skip(1) =~= rest);
        assert(Seq::<Seq<char>>::empty() =~= items);
    } else if items.len() == 1 {
        let r1 = seq![']'] + rest;
        assert(t =~= quoted(items[0]) + r1);
        lemma_parse_quoted(items[0], r1);
        assert(t[0] == '"');
        assert(r1.len() < t.len());
        assert(r1[0] == ']');
        assert(r1.skip(1) =~= rest);
        assert(seq![items[0]] =~= items);
    } else {
        lemma_items_front(items);
        let r1 = seq![','] + (list_items_text(items.skip(1)) + seq![']'] + rest);
        assert(t =~= quoted(items[0]) + r1);
        lemma_parse_quoted(items[0], r1);
        assert(t[0] == '"');
        assert(r1.len() < t.len());
        assert(r1[0] == ',');
        assert(r1.skip(1) =~= list_items_text(items.skip(1)) + seq![']'] + rest);
        lemma_parse_items(items.skip(1), rest);
        assert(seq![items[0]] + items.skip(1) =~= items);
    }
}

/// One decoded list field reads back what was encoded: `null` for an absent
/// roster, the item sequence for a present one.
proof fn lemma_parse_list_value(l: Option<Seq<Seq<char>>>, rest: Seq<char>)
    ensures
        (list_text(l) + rest).len() > 0,
        l is Some ==> (list_text(l) + rest)[0] == '[' && parse_items(
            (list_text(l) + rest).skip(1),
        ) == Option::Some((l->Some_0, rest)),
        l is None ==> (list_text(l) + rest)[0] != '[' && parse_null(list_text(l) + rest)
            == Option::Some(rest),
{
    match l {
        Option::None => {
            assert(list_text(l) + rest =~= null_text() + rest);
            lemma_parse_null(rest);
        },
        Option::Some(items) => {
            let t = list_text(l) + rest;
            assert(t[0] == '[');
            assert(t.skip(1) =~= list_items_text(items) + seq![']'] + rest);
            lemma_parse_items(items, rest);
        },
    }
}

/// One decoded text field reads back what was encoded: `null` for an absent
/// payload, the string for a present one.
proof fn lemma_parse_text_value(v: Option<Seq<char>>, rest: Seq<char>)
    ensures
        (text_field_text(v) + rest).len() > 0,
        v is Some ==> (text_field_text(v) + rest)[0] == '"' && parse_quoted(
            text_field_text(v) + rest,
        ) == Option::Some((v->Some_0, rest)),
        v is None ==> (text_field_text(v) + rest)[0] != '"' && parse_null(text_field_text(v) + rest)
            == Option::Some(rest),
{
    match v {
        Option::None => {
            assert(text_field_text(v) + rest =~= null_text() + rest);
            lemma_parse_null(rest);
        },
        Option::Some(sv) => {
            assert(text_field_text(v) + rest =~= quoted(sv) + rest);
            lemma_parse_quoted(sv, rest);
        },
    }
}

/// Walking the three canonical fields of an envelope object fills the three
/// slots with exactly the encoded kind tag and payloads.
#[verifier::rlimit(100)]
proof fn lemma_parse_env_fields_canonical(
    k: MsgTypes,
    l: Option<Seq<Seq<char>>>,
    t: Option<Seq<char>>,
)
    ensures
        parse_env_fields(
            envelope_text(k, l, t).skip(1),
            Option::None,
            Option::None,
            Option::None,
        ) == Option::Some(
            ((Option::Some(kind_tag(k)), l, t), Seq::<char>::empty()),
        ),
{
    let whole = envelope_text(k, l, t);
    // The text after the third field's value: just the closing brace.
    let r6: Seq<char> = seq!['}'];
    // The third field, from its key.
    let f3 = quoted(key_text()) + seq![':'] + text_field_text(t) + r6;
    // After the second field's value: a comma, then the third field.
    let r4 = seq![','] + f3;
    // The second field, from its key.
    let f2 = quoted(key_list()) + seq![':'] + list_text(l) + r4;
    // After the first field's value: a comma, then the second field.
    let r2 = seq![','] + f2;
    // The first field, from its key.
    let f1 = quoted(key_kind()) + seq![':'] + quoted(kind_tag(k)) + r2;
    assert(whole.skip(1) =~= f1);

    // First field: "messageType", a quoted tag.
    let r1 = seq![':'] + quoted(kind_tag(k)) + r2;
    assert(f1 =~= quoted(key_kind()) + r1);
    lemma_parse_quoted(key_kind(), r1);
    assert(r1[0] == ':');
    assert(r1.skip(1) =~= quoted(kind_tag(k)) + r2);
    lemma_parse_quoted(kind_tag(k), r2);
    assert(r2[0] == ',');
    assert(r2.len() < f1.len());
    assert(r2.skip(1) =~= f2);
    assert(parse_env_fields(f1, Option::None, Option::None, Option::None) == parse_env_fields(
        f2,
        Option::Some(kind_tag(k)),
        Option::None,
        Option::None,
    ));

    // Second field: "dataArray", an array of strings or null.
    let r3 = seq![':'] + list_text(l) + r4;
    assert(f2 =~= quoted(key_list()) + r3);
    lemma_parse_quoted(key_list(), r3);
    assert(key_list() != key_kind());
    assert(r3[0] == ':');
    assert(r3.skip(1) =~= list_text(l) + r4);
    lemma_parse_list_value(l, r4);
    assert(r4[0] == ',');
    assert(r4.len() < f2.len());
    assert(r4.skip(1) =~= f3);
    if l is Some {
        assert((list_text(l) + r4).skip(1) =~= list_items_text(l->Some_0) + seq![']'] + r4);
    }
    assert(parse_env_fields(f2, Option::Some(kind_tag(k)), Option::None, Option::None)
        == parse_env_fields(f3, Option::Some(kind_tag(k)), l, Option::None));

    // Third field: "data", a quoted string or null.
    let r5 = seq![':'] + text_field_text(t) + r6;
    assert(f3 =~= quoted(key_text()) + r5);
    lemma_parse_quoted(key_text(), r5);
    assert(key_text() != key_kind());
    assert(key_text() != key_list());
    assert(r5[0] == ':');
    assert(r5.skip(1) =~= text_field_text(t) + r6);
    lemma_parse_text_value(t, r6);
    assert(r6[0] == '}');
    assert(r6.skip(1) =~= Seq::<char>::empty());
    assert(parse_env_fields(f3, Option::Some(kind_tag(k)), l, Option::None) == Option::Some(
        ((Option::Some(kind_tag(k)), l, t), Seq::<char>::empty()),
    ));
}

/// The round trip at the envelope level: decoding the canonical encoding of
/// any kind and payload fields reads back exactly those fields.
pub proof fn lemma_decode_envelope_text(k: MsgTypes, l: Option<Seq<Seq<char>>>, t: Option<Seq<char>>)
    ensures
        decode_spec(envelope_text(k, l, t)) == Option::Some((k, l, t)),
{
    let whole = envelope_text(k, l, t);
    assert(whole[0] == '{');
    lemma_parse_env_fields_canonical(k, l, t);
    assert(kind_tag(MsgTypes::Users) != kind_tag(MsgTypes::Register));
    assert(kind_tag(MsgTypes::Users) != kind_tag(MsgTypes::Message));
    assert(kind_tag(MsgTypes::Register) != kind_tag(MsgTypes::Message));
    assert(tag_kind(kind_tag(k)) == Option::Some(k));
}

/// The round trip, stated of an envelope value: `decode` applied to what
/// `encode` returns yields `Ok` with the same kind and the same payloads.
/// Together with the exact contracts of `encode` and `decode`, this pins the
/// behaviour of the executable pair on every envelope.
pub proof fn lemma_decode_encode(e: Envelope)
    ensures
        decode_spec(
            envelope_text(e.kind, e.payload_list.deep_view(), e.payload_text.deep_view()),
        ) == Option::Some((e.kind, e.payload_list.deep_view(), e.payload_text.deep_view())),
{
    lemma_decode_envelope_text(e.kind, e.payload_list.deep_view(), e.payload_text.deep_view());
}

/// Walking the two canonical fields of a message payload object fills both
/// slots with exactly the encoded sender and body.
#[verifier::rlimit(100)]
proof fn lemma_parse_msg_fields_canonical(sender: Seq<char>, body: Seq<char>)
    ensures
        parse_msg_fields(
            message_payload_text(sender, body).skip(1),
            Option::None,
            Option::None,
        ) == Option::Some(((Option::Some(sender), Option::Some(body)), Seq::<char>::empty())),
{
    let whole = message_payload_text(sender, body);
    let r4: Seq<char> = seq!['}'];
    let f2 = quoted(key_body()) + seq![':'] + quoted(body) + r4;
    let r2 = seq![','] + f2;
    let f1 = quoted(key_sender()) + seq![':'] + quoted(sender) + r2;
    assert(whole.skip(1) =~= f1);

    let r1 = seq![':'] + quoted(sender) + r2;
    assert(f1 =~= quoted(key_sender()) + r1);
    lemma_parse_quoted(key_sender(), r1);
    assert(r1[0] == ':');
    assert(r1.skip(1) =~= quoted(sender) + r2);
    lemma_parse_quoted(sender, r2);
    assert(r2[0] == ',');
    assert(r2.len() < f1.len());
    assert(r2.skip(1) =~= f2);
    assert(parse_msg_fields(f1, Option::None, Option::None) == parse_msg_fields(
        f2,
        Option::Some(sender),
        Option::None,
    ));

    let r3 = seq![':'] + quoted(body) + r4;
    assert(f2 =~= quoted(key_body()) + r3);
    lemma_parse_quoted(key_body(), r3);
    assert(key_body() != key_sender());
    assert(r3[0] == ':');
    assert(r3.skip(1) =~= quoted(body) + r4);
    lemma_parse_quoted(body, r4);
    assert(r4[0] == '}');
    assert(r4.skip(1) =~= Seq::<char>::empty());
}

/// The round trip for the nested message payload: decoding the canonical
/// encoding of a non-empty sender and any body reads back both exactly.
pub proof fn lemma_decode_message_payload_text(sender: Seq<char>, body: Seq<char>)
    requires
        sender.len() > 0,
    ensures
        decode_msg_spec(message_payload_text(sender, body)) == Option::Some((sender, body)),
{
    let whole = message_payload_text(sender, body);
    assert(whole[0] == '{');
    lemma_parse_msg_fields_canonical(sender, body);
}

} // verus!
