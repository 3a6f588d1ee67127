//! JSON: the grammar, the pieces that every rendering is built from, and
//! string literals.

use crate::text;
use vstd::prelude::*;

verus! {

// ---------------------------------------------------------------------
// Pieces of JSON text.
// ---------------------------------------------------------------------

/// A lower-case hexadecimal digit, for `d < 16`.
pub open spec fn hex_digit(d: nat) -> char {
    if d < 10 {
        (48 + d) as char
    } else {
        (87 + d) as char
    }
}

/// How one character is written inside a string literal.
pub open spec fn escaped_char(c: char) -> Seq<char> {
    if c == '"' {
        seq!['\\', '"']
    } else if c == '\\' {
        seq!['\\', '\\']
    } else if c == '\u{8}' {
        seq!['\\', 'b']
    } else if c == '\u{c}' {
        seq!['\\', 'f']
    } else if c == '\n' {
        seq!['\\', 'n']
    } else if c == '\r' {
        seq!['\\', 'r']
    } else if c == '\t' {
        seq!['\\', 't']
    } else if (c as nat) < 32 {
        seq!['\\', 'u', '0', '0', hex_digit(c as nat / 16), hex_digit(c as nat % 16)]
    } else {
        seq![c]
    }
}

/// Every character written as inside a string literal.
pub open spec fn escaped(s: Seq<char>) -> Seq<char>
    decreases s.len(),
{
    if s.len() == 0 {
        Seq::empty()
    } else {
        escaped_char(s[0]) + escaped(s.drop_first())
    }
}

/// A string literal whose characters between the quotes are `body`.
pub open spec fn literal(body: Seq<char>) -> Seq<char> {
    seq!['"'] + body + seq!['"']
}

/// `s` as a string literal.
pub open spec fn quoted(s: Seq<char>) -> Seq<char> {
    literal(escaped(s))
}

/// `s` as a string literal, cut to `max` characters and marked where it is
/// longer than that.
pub open spec fn quoted_truncated(s: Seq<char>, max: nat) -> Seq<char> {
    if s.len() <= max {
        quoted(s)
    } else {
        quoted(s.take(max as int).push('…'))
    }
}

/// An array of the given elements.
pub open spec fn array(parts: Seq<Seq<char>>) -> Seq<char> {
    seq!['['] + text::listed(parts) + seq![']']
}

/// An object of the given members.
pub open spec fn object(parts: Seq<Seq<char>>) -> Seq<char> {
    seq!['{'] + text::listed(parts) + seq!['}']
}

/// An object member: `key` stands between quotes as it is.
pub open spec fn member(key: Seq<char>, value: Seq<char>) -> Seq<char> {
    literal(key) + seq![':'] + value
}

// ---------------------------------------------------------------------
// The grammar (RFC 8259).
// ---------------------------------------------------------------------

/// Only white space.
pub open spec fn is_blank(s: Seq<char>) -> bool {
    forall|i: int|
        0 <= i < s.len() ==> (#[trigger] s[i] == ' ' || s[i] == '\t' || s[i] == '\n' || s[i]
            == '\r')
}

/// A character that stands for itself in a string literal.
pub open spec fn is_plain(c: char) -> bool {
    c as nat >= 32 && c != '"' && c != '\\'
}

/// A character that makes an escape sequence after a backslash.
pub open spec fn is_short_escape(c: char) -> bool {
    c == '"' || c == '\\' || c == '/' || c == 'b' || c == 'f' || c == 'n' || c == 'r' || c == 't'
}

/// A hexadecimal digit.
pub open spec fn is_hex(c: char) -> bool {
    '0' <= c <= '9' || 'a' <= c <= 'f' || 'A' <= c <= 'F'
}

/// What may stand between the quotes of a string literal.
pub open spec fn is_body(s: Seq<char>) -> bool
    decreases s.len(),
{
    ||| s.len() == 0
    ||| s.len() >= 1 && is_plain(s[0]) && is_body(s.skip(1))
    ||| s.len() >= 2 && s[0] == '\\' && is_short_escape(s[1]) && is_body(s.skip(2))
    ||| s.len() >= 6 && s[0] == '\\' && s[1] == 'u' && is_hex(s[2]) && is_hex(s[3]) && is_hex(s[4])
        && is_hex(s[5]) && is_body(s.skip(6))
}

/// A string literal.
pub open spec fn is_string(s: Seq<char>) -> bool {
    s.len() >= 2 && s == literal(s.subrange(1, s.len() - 1)) && is_body(s.subrange(1, s.len() - 1))
}

/// One or more decimal digits.
pub open spec fn is_digits(s: Seq<char>) -> bool {
    s.len() > 0 && forall|i: int| 0 <= i < s.len() ==> '0' <= #[trigger] s[i] <= '9'
}

/// The integer part of a number: no leading zero, but for zero itself.
pub open spec fn is_integer_part(s: Seq<char>) -> bool {
    is_digits(s) && (s[0] == '0' ==> s.len() == 1)
}

/// Nothing, or a point and digits.
pub open spec fn is_fraction(s: Seq<char>) -> bool {
    s.len() > 0 ==> s[0] == '.' && is_digits(s.skip(1))
}

/// Nothing, or a letter `e`, a sign that may be left out, and digits.
pub open spec fn is_exponent(s: Seq<char>) -> bool {
    s.len() > 0 ==> {
        &&& s[0] == 'e' || s[0] == 'E'
        &&& is_digits(s.skip(1)) || (s.len() > 1 && (s[1] == '+' || s[1] == '-') && is_digits(
            s.skip(2),
        ))
    }
}

/// `s` is a number made of these parts.
pub open spec fn has_number_parts(
    s: Seq<char>,
    sign: Seq<char>,
    whole: Seq<char>,
    fraction: Seq<char>,
    exponent: Seq<char>,
) -> bool {
    &&& s == sign + whole + fraction + exponent
    &&& sign.len() == 0 || sign == seq!['-']
    &&& is_integer_part(whole)
    &&& is_fraction(fraction)
    &&& is_exponent(exponent)
}

/// A number.
pub open spec fn is_number(s: Seq<char>) -> bool {
    exists|sign: Seq<char>, whole: Seq<char>, fraction: Seq<char>, exponent: Seq<char>| #[trigger]
        has_number_parts(s, sign, whole, fraction, exponent)
}

/// A value without inner values.
pub open spec fn is_scalar(s: Seq<char>) -> bool {
    ||| is_string(s)
    ||| is_number(s)
    ||| s == seq!['t', 'r', 'u', 'e']
    ||| s == seq!['f', 'a', 'l', 's', 'e']
    ||| s == seq!['n', 'u', 'l', 'l']
}

/// `s` is the list `parts` between two brackets.
pub open spec fn is_enclosed(s: Seq<char>, open: char, parts: Seq<Seq<char>>, close: char) -> bool {
    parts.len() > 0 && s == seq![open] + text::listed(parts) + seq![close]
}

/// `s` is white space between two brackets.
pub open spec fn is_hollow(s: Seq<char>, open: char, close: char) -> bool {
    s.len() >= 2 && s[0] == open && s.last() == close && is_blank(s.subrange(1, s.len() - 1))
}

/// A JSON value whose arrays and objects nest at most `depth` deep.
pub open spec fn is_value(s: Seq<char>, depth: nat) -> bool
    decreases depth, 0nat,
{
    ||| is_scalar(s)
    ||| depth > 0 && (is_hollow(s, '[', ']') || is_hollow(s, '{', '}'))
    ||| depth > 0 && exists|parts: Seq<Seq<char>>| #[trigger]
        is_enclosed(s, '[', parts, ']') && forall|i: int|
            0 <= i < parts.len() ==> is_element(#[trigger] parts[i], (depth - 1) as nat)
    ||| depth > 0 && exists|parts: Seq<Seq<char>>| #[trigger]
        is_enclosed(s, '{', parts, '}') && forall|i: int|
            0 <= i < parts.len() ==> is_member(#[trigger] parts[i], (depth - 1) as nat)
}

/// A value with white space around it.
pub open spec fn is_element(s: Seq<char>, depth: nat) -> bool
    decreases depth, 1nat,
{
    exists|before: Seq<char>, value: Seq<char>, after: Seq<char>| #[trigger]
        is_spaced(s, before, value, after) && is_value(value, depth)
}

/// A name, a colon and a value, with white space around each.
pub open spec fn is_member(s: Seq<char>, depth: nat) -> bool
    decreases depth, 2nat,
{
    exists|before: Seq<char>, name: Seq<char>, after: Seq<char>, value: Seq<char>| #[trigger]
        is_named(s, before, name, after, value) && is_element(value, depth)
}

pub open spec fn is_spaced(
    s: Seq<char>,
    before: Seq<char>,
    value: Seq<char>,
    after: Seq<char>,
) -> bool {
    is_blank(before) && is_blank(after) && s == before + value + after
}

pub open spec fn is_named(
    s: Seq<char>,
    before: Seq<char>,
    name: Seq<char>,
    after: Seq<char>,
    value: Seq<char>,
) -> bool {
    is_blank(before) && is_string(name) && is_blank(after) && s == before + name + after + seq![':']
        + value
}

/// A JSON text.
pub open spec fn is_json(s: Seq<char>) -> bool {
    exists|depth: nat| #[trigger] is_element(s, depth)
}

// ---------------------------------------------------------------------
// Building values from pieces.
// ---------------------------------------------------------------------

pub proof fn lemma_literal_is_string(body: Seq<char>)
    requires
        is_body(body),
    ensures
        is_string(literal(body)),
{
    let s = literal(body);
    assert(s.subrange(1, s.len() - 1) =~= body);
}

pub proof fn lemma_plain_is_body(s: Seq<char>)
    requires
        forall|i: int| 0 <= i < s.len() ==> is_plain(#[trigger] s[i]),
    ensures
        is_body(s),
    decreases s.len(),
{
    if s.len() > 0 {
        assert forall|i: int| 0 <= i < s.skip(1).len() implies is_plain(#[trigger] s.skip(1)[i]) by {
            assert(s.skip(1)[i] == s[i + 1]);
        }
        lemma_plain_is_body(s.skip(1));
    }
}

/// Escaped text may stand between quotes.
pub proof fn lemma_escaped_is_body(s: Seq<char>)
    ensures
        is_body(escaped(s)),
    decreases s.len(),
{
    if s.len() > 0 {
        let rest = escaped(s.drop_first());
        let first = escaped_char(s[0]);
        lemma_escaped_is_body(s.drop_first());
        assert(escaped(s).skip(first.len() as int) =~= rest);
    }
}

/// Every string literal that the library writes is one.
pub proof fn lemma_quoted_is_value(s: Seq<char>, depth: nat)
    ensures
        is_string(quoted(s)),
        is_value(quoted(s), depth),
{
    lemma_escaped_is_body(s);
    lemma_literal_is_string(escaped(s));
}

proof fn lemma_decimal_digits(n: nat)
    ensures
        is_integer_part(text::decimal(n)),
        n > 0 ==> text::decimal(n)[0] != '0',
    decreases n,
{
    if n >= 10 {
        lemma_decimal_digits(n / 10);
    }
}

pub proof fn lemma_decimal_is_body(n: nat)
    ensures
        is_body(text::decimal(n)),
{
    lemma_decimal_digits(n);
    assert forall|i: int| 0 <= i < text::decimal(n).len() implies is_plain(
        #[trigger] text::decimal(n)[i],
    ) by {
        assert('0' <= text::decimal(n)[i] <= '9');
    }
    lemma_plain_is_body(text::decimal(n));
}

pub proof fn lemma_decimal_is_number(n: nat)
    ensures
        is_number(text::decimal(n)),
{
    lemma_decimal_digits(n);
    let e = Seq::<char>::empty();
    assert(text::decimal(n) =~= e + text::decimal(n) + e + e);
    assert(has_number_parts(text::decimal(n), e, text::decimal(n), e, e));
}

pub proof fn lemma_integer_is_number(n: int)
    ensures
        is_number(text::integer(n)),
{
    if n >= 0 {
        lemma_decimal_is_number(n as nat);
    } else {
        let d = text::decimal((-n) as nat);
        lemma_decimal_digits((-n) as nat);
        let e = Seq::<char>::empty();
        assert(text::integer(n) =~= seq!['-'] + d + e + e);
        assert(has_number_parts(text::integer(n), seq!['-'], d, e, e));
    }
}

pub proof fn lemma_value_is_element(s: Seq<char>, depth: nat)
    requires
        is_value(s, depth),
    ensures
        is_element(s, depth),
{
    let e = Seq::<char>::empty();
    assert(s =~= e + s + e);
    assert(is_spaced(s, e, s, e));
}

pub proof fn lemma_member(key: Seq<char>, value: Seq<char>, depth: nat)
    requires
        is_body(key),
        is_value(value, depth),
    ensures
        is_member(member(key, value), depth),
{
    lemma_value_is_element(value, depth);
    lemma_member_of_element(key, value, depth);
}

pub proof fn lemma_member_of_element(key: Seq<char>, value: Seq<char>, depth: nat)
    requires
        is_body(key),
        is_element(value, depth),
    ensures
        is_member(member(key, value), depth),
{
    let e = Seq::<char>::empty();
    lemma_literal_is_string(key);
    assert(member(key, value) =~= e + literal(key) + e + seq![':'] + value);
    assert(is_named(member(key, value), e, literal(key), e, value));
}

pub proof fn lemma_array(parts: Seq<Seq<char>>, depth: nat)
    requires
        forall|i: int| 0 <= i < parts.len() ==> is_element(#[trigger] parts[i], depth),
    ensures
        is_value(array(parts), depth + 1),
{
    let s = array(parts);
    if parts.len() == 0 {
        assert(is_hollow(s, '[', ']'));
    } else {
        assert(is_enclosed(s, '[', parts, ']'));
    }
}

pub proof fn lemma_object(parts: Seq<Seq<char>>, depth: nat)
    requires
        forall|i: int| 0 <= i < parts.len() ==> is_member(#[trigger] parts[i], depth),
    ensures
        is_value(object(parts), depth + 1),
{
    let s = object(parts);
    if parts.len() == 0 {
        assert(is_hollow(s, '{', '}'));
    } else {
        assert(is_enclosed(s, '{', parts, '}'));
    }
}

/// A value stays one where more nesting is allowed.
pub proof fn lemma_value_deeper(s: Seq<char>, depth: nat, more: nat)
    requires
        is_value(s, depth),
        depth <= more,
    ensures
        is_value(s, more),
    decreases depth, 0nat,
{
    if depth > 0 {
        if exists|parts: Seq<Seq<char>>| #[trigger]
            is_enclosed(s, '[', parts, ']') && forall|i: int|
                0 <= i < parts.len() ==> is_element(#[trigger] parts[i], (depth - 1) as nat) {
            let parts = choose|parts: Seq<Seq<char>>| #[trigger]
                is_enclosed(s, '[', parts, ']') && forall|i: int|
                    0 <= i < parts.len() ==> is_element(#[trigger] parts[i], (depth - 1) as nat);
            assert forall|i: int| 0 <= i < parts.len() implies is_element(
                #[trigger] parts[i],
                (more - 1) as nat,
            ) by {
                lemma_element_deeper(parts[i], (depth - 1) as nat, (more - 1) as nat);
            }
        }
        if exists|parts: Seq<Seq<char>>| #[trigger]
            is_enclosed(s, '{', parts, '}') && forall|i: int|
                0 <= i < parts.len() ==> is_member(#[trigger] parts[i], (depth - 1) as nat) {
            let parts = choose|parts: Seq<Seq<char>>| #[trigger]
                is_enclosed(s, '{', parts, '}') && forall|i: int|
                    0 <= i < parts.len() ==> is_member(#[trigger] parts[i], (depth - 1) as nat);
            assert forall|i: int| 0 <= i < parts.len() implies is_member(
                #[trigger] parts[i],
                (more - 1) as nat,
            ) by {
                lemma_member_deeper(parts[i], (depth - 1) as nat, (more - 1) as nat);
            }
        }
    }
}

pub proof fn lemma_element_deeper(s: Seq<char>, depth: nat, more: nat)
    requires
        is_element(s, depth),
        depth <= more,
    ensures
        is_element(s, more),
    decreases depth, 1nat,
{
    let (before, value, after) = choose|before: Seq<char>, value: Seq<char>, after: Seq<char>|
        #[trigger] is_spaced(s, before, value, after) && is_value(value, depth);
    lemma_value_deeper(value, depth, more);
    assert(is_spaced(s, before, value, after));
}

pub proof fn lemma_member_deeper(s: Seq<char>, depth: nat, more: nat)
    requires
        is_member(s, depth),
        depth <= more,
    ensures
        is_member(s, more),
    decreases depth, 2nat,
{
    let (before, name, after, value) = choose|
        before: Seq<char>,
        name: Seq<char>,
        after: Seq<char>,
        value: Seq<char>,
    | #[trigger]
        is_named(s, before, name, after, value) && is_element(value, depth);
    lemma_element_deeper(value, depth, more);
    assert(is_named(s, before, name, after, value));
}

/// What `json_str` writes is a JSON text, whatever the string holds.
pub proof fn law_string_literal_is_json(s: Seq<char>)
    ensures
        is_json(quoted(s)),
{
    lemma_quoted_is_value(s, 0);
    lemma_value_is_element(quoted(s), 0);
}

/// What `json_str_truncated` writes is a JSON text, wherever it cuts.
pub proof fn law_truncated_literal_is_json(s: Seq<char>, max: nat)
    ensures
        is_json(quoted_truncated(s, max)),
{
    law_string_literal_is_json(s);
    law_string_literal_is_json(s.take(max as int).push('…'));
}

// ---------------------------------------------------------------------
// Reading string literals back.
// ---------------------------------------------------------------------

/// The value of a hexadecimal digit.
pub open spec fn hex_value(c: char) -> nat {
    if '0' <= c <= '9' {
        (c as nat - 48) as nat
    } else if 'A' <= c <= 'F' {
        (c as nat - 55) as nat
    } else {
        (c as nat - 87) as nat
    }
}

/// The character that an escape with this letter stands for.
pub open spec fn unescaped_char(letter: char) -> char {
    if letter == 'b' {
        '\u{8}'
    } else if letter == 'f' {
        '\u{c}'
    } else if letter == 'n' {
        '\n'
    } else if letter == 'r' {
        '\r'
    } else if letter == 't' {
        '\t'
    } else {
        letter
    }
}

/// The text that stands between the quotes of a literal.
pub open spec fn unescaped(body: Seq<char>) -> Seq<char>
    decreases body.len(),
{
    if body.len() == 0 {
        Seq::empty()
    } else if body[0] != '\\' {
        seq![body[0]] + unescaped(body.skip(1))
    } else if body.len() >= 6 && body[1] == 'u' {
        seq![
            (hex_value(body[2]) * 4096 + hex_value(body[3]) * 256 + hex_value(body[4]) * 16
                + hex_value(body[5])) as char,
        ] + unescaped(body.skip(6))
    } else if body.len() >= 2 {
        seq![unescaped_char(body[1])] + unescaped(body.skip(2))
    } else {
        Seq::empty()
    }
}

/// The text of a string literal.
pub open spec fn text_of(literal: Seq<char>) -> Seq<char> {
    unescaped(literal.subrange(1, literal.len() - 1))
}

/// Two hexadecimal digits give a control character back.
proof fn lemma_hex(c: char)
    requires
        (c as nat) < 32,
    ensures
        hex_value('0') == 0,
        (hex_value(hex_digit(c as nat / 16)) * 16 + hex_value(hex_digit(c as nat % 16))) as char
            == c,
{
    let (high, low) = (c as nat / 16, c as nat % 16);
    assert(hex_value(hex_digit(high)) == high);
    assert(hex_value(hex_digit(low)) == low);
    assert(high * 16 + low == c as nat);
}

proof fn lemma_unescaped(s: Seq<char>)
    ensures
        unescaped(escaped(s)) == s,
    decreases s.len(),
{
    if s.len() > 0 {
        let c = s[0];
        let first = escaped_char(c);
        let rest = escaped(s.drop_first());
        let all = escaped(s);
        lemma_unescaped(s.drop_first());
        assert(all.skip(first.len() as int) =~= rest);
        assert(forall|i: int| 0 <= i < first.len() ==> all[i] == first[i]);
        if first.len() == 6 {
            let (high, low) = (c as nat / 16, c as nat % 16);
            lemma_hex(c);
            assert(all[0] == '\\' && all[1] == 'u' && all[2] == '0' && all[3] == '0');
            assert(all[4] == hex_digit(high) && all[5] == hex_digit(low));
            assert(all.skip(6) == rest);
            assert(unescaped(all) == seq![c] + unescaped(rest));
        } else if first.len() == 2 {
            assert(all[0] == '\\' && all[1] == first[1]);
            assert(unescaped_char(first[1]) == c);
            assert(all.skip(2) == rest);
            assert(unescaped(all) == seq![c] + unescaped(rest));
        } else {
            assert(all[0] == c);
            assert(all.skip(1) == rest);
            assert(unescaped(all) == seq![c] + unescaped(rest));
        }
        assert(seq![c] + s.drop_first() =~= s);
    } else {
        assert(unescaped(escaped(s)) =~= s);
    }
}

/// A string literal reads back to its text, so that two texts never share
/// one.
pub proof fn law_literals_read_back(s: Seq<char>, other: Seq<char>)
    ensures
        text_of(quoted(s)) == s,
        quoted(s) == quoted(other) ==> s == other,
{
    assert(quoted(s).subrange(1, quoted(s).len() - 1) =~= escaped(s));
    assert(quoted(other).subrange(1, quoted(other).len() - 1) =~= escaped(other));
    lemma_unescaped(s);
    lemma_unescaped(other);
}

// ---------------------------------------------------------------------
// Writing string literals.
// ---------------------------------------------------------------------

/// The error type of `serde_json`.
#[verifier::external_type_specification]
#[verifier::external_body]
pub struct ExSerdeError(serde_json::Error);

/// `serde_json::to_string` on a string writes it between quotes, with the
/// quote, the backslash and the control characters escaped, and everything
/// else as it is; it fails on no string.
#[verifier::external_body]
fn to_string(value: &str) -> (r: Result<String, serde_json::Error>)
    ensures
        r is Ok,
        r->Ok_0@ == quoted(value@),
{
    serde_json::to_string(value)
}

/// Quotes and escapes a string as a JSON string literal.
pub fn json_str(value: &str) -> (out: String)
    ensures
        out@ == quoted(value@),
{
    match to_string(value) {
        Ok(out) => out,
        Err(_) => "\"?\"".to_owned(),
    }
}

/// Quotes a string, truncated to `max` characters; a mark stands for what
/// was cut off.
pub fn json_str_truncated(value: &str, max: usize) -> (out: String)
    ensures
        out@ == quoted_truncated(value@, max as nat),
{
    if value.unicode_len() <= max {
        json_str(value)
    } else {
        let mut cut: String = value.substring_char(0, max).to_owned();
        cut.push('…');
        json_str(cut.as_str())
    }
}

/// Appends a name and a colon.
pub fn push_key(out: &mut String, key: &str)
    ensures
        final(out)@ == old(out)@ + literal(key@) + seq![':'],
{
    out.push('"');
    out.append(key);
    out.push('"');
    out.push(':');
    assert(final(out)@ =~= old(out)@ + literal(key@) + seq![':']);
}

/// The members of an object or the elements of an array, written one after
/// the other.
pub struct Parts {
    text: String,
    empty: bool,
    parts: Ghost<Seq<Seq<char>>>,
}

impl Parts {
    /// The parts written so far.
    pub closed spec fn parts(self) -> Seq<Seq<char>> {
        self.parts@
    }

    /// The text holds the parts.
    pub closed spec fn wf(self) -> bool {
        &&& self.text@ == text::listed(self.parts@)
        &&& self.empty == (self.parts@.len() == 0)
    }

    /// No parts.
    pub fn new() -> (p: Parts)
        ensures
            p.wf(),
            p.parts().len() == 0,
    {
        Parts { text: String::new(), empty: true, parts: Ghost(Seq::empty()) }
    }

    /// Adds a part that is written as it stands.
    pub fn part(&mut self, part: &str)
        requires
            old(self).wf(),
        ensures
            final(self).wf(),
            final(self).parts() == old(self).parts().push(part@),
    {
        let ghost before = self.parts@;
        if !self.empty {
            self.text.push(',');
        }
        self.text.append(part);
        self.empty = false;
        self.parts = Ghost(before.push(part@));
        proof {
            text::lemma_joined_push(before, seq![','], part@);
            assert(self.text@ =~= text::listed(before.push(part@)));
        }
    }

    /// Adds a member whose value is written as it stands.
    pub fn value(&mut self, key: &str, value: &str)
        requires
            old(self).wf(),
        ensures
            final(self).wf(),
            final(self).parts() == old(self).parts().push(member(key@, value@)),
    {
        let mut part: String = String::new();
        push_key(&mut part, key);
        part.append(value);
        proof {
            assert(part@ =~= member(key@, value@));
        }
        self.part(part.as_str());
    }

    /// Adds a member that is an integer.
    pub fn number(&mut self, key: &str, n: u64)
        requires
            old(self).wf(),
        ensures
            final(self).wf(),
            final(self).parts() == old(self).parts().push(member(key@, text::decimal(n as nat))),
    {
        let mut value: String = String::new();
        text::push_decimal(&mut value, n);
        proof {
            assert(value@ =~= text::decimal(n as nat));
        }
        self.value(key, value.as_str());
    }

    /// Adds a member that is a string which needs no escapes.
    pub fn word(&mut self, key: &str, word: &str)
        requires
            old(self).wf(),
        ensures
            final(self).wf(),
            final(self).parts() == old(self).parts().push(member(key@, literal(word@))),
    {
        let mut value: String = String::new();
        value.push('"');
        value.append(word);
        value.push('"');
        proof {
            assert(value@ =~= literal(word@));
        }
        self.value(key, value.as_str());
    }

    /// The parts without brackets.
    pub fn into_text(self) -> (out: String)
        requires
            self.wf(),
        ensures
            out@ == text::listed(self.parts()),
    {
        self.text
    }

    /// The array of these elements.
    pub fn into_array(self) -> (out: String)
        requires
            self.wf(),
        ensures
            out@ == array(self.parts()),
    {
        let mut out: String = String::new();
        out.push('[');
        out.append(self.text.as_str());
        out.push(']');
        assert(out@ =~= array(self.parts()));
        out
    }

    /// The object with these members.
    pub fn into_object(self) -> (out: String)
        requires
            self.wf(),
        ensures
            out@ == object(self.parts()),
    {
        let mut out: String = String::new();
        out.push('{');
        out.append(self.text.as_str());
        out.push('}');
        assert(out@ =~= object(self.parts()));
        out
    }
}

} // verus!
