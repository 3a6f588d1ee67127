//! Readable JSON from AMF values.
//!
//! Output is cut off once it has grown past a byte limit, so that a huge
//! payload cannot slow the player down; what has been written by then is
//! closed properly, so that it is still JSON.

use crate::ieee;
use crate::json;
use crate::text;
use vstd::prelude::*;

verus! {

/// Upper bound on the JSON rendering of one AMF payload.
pub const MAX_AMF_JSON_BYTES: usize = 48 * 1024;

/// Values nested deeper than this are not rendered.
pub const MAX_AMF_DEPTH: usize = 24;

/// Strings are cut to this many characters.
pub const MAX_AMF_STRING: usize = 4096;

/// A double: the bits of the number, and the number in decimal.
pub struct Double {
    pub bits: u64,
    pub text: String,
}

/// A named element of an object.
pub struct Element {
    pub name: String,
    pub value: Value,
}

/// A pair of a dictionary.
pub struct Entry {
    pub key: Value,
    pub value: Value,
}

/// An AMF value.
pub enum Value {
    Number(Double),
    Integer(i32),
    Bool(bool),
    Text(String),
    Xml(String),
    Null,
    Undefined,
    Unsupported,
    /// A point in time, in milliseconds.
    Date(Double),
    /// A reference to an earlier value, by its number.
    Reference(u16),
    Amf3ObjectReference(i64),
    ByteArray(Vec<u8>),
    StrictArray(Vec<Value>),
    /// The dense part and the associative part.
    EcmaArray(Vec<Value>, Vec<Element>),
    /// The members and the name of the class.
    Object(Vec<Element>, Option<String>),
    /// The external members, the dynamic members and the name of the class.
    Custom(Vec<Element>, Vec<Element>, Option<String>),
    Amf3(Box<Value>),
    VectorInt(Vec<i32>),
    VectorUInt(Vec<u32>),
    VectorDouble(Vec<Double>),
    VectorObject(Vec<Value>),
    Dictionary(Vec<Entry>),
}

// ---------------------------------------------------------------------
// What is written.
// ---------------------------------------------------------------------

/// A value to be written, and the text that stands before it.
pub type Item = (Seq<char>, Value);

/// A number: as an integer where it is one, `null` where it is not finite.
pub open spec fn number_text(number: Double) -> Seq<char> {
    if !ieee::finite(number.bits) {
        "null"@
    } else {
        match ieee::whole_number(number.bits) {
            Some(n) => text::integer(n),
            None => number.text@,
        }
    }
}

/// A number as its text has it, `null` where it is not finite.
pub open spec fn plain_text(number: Double) -> Seq<char> {
    if ieee::finite(number.bits) {
        number.text@
    } else {
        "null"@
    }
}

/// Numbers separated by commas and blanks.
pub open spec fn spaced(parts: Seq<Seq<char>>) -> Seq<char> {
    text::joined(parts, seq![',', ' '])
}

/// A list of numbers.
pub open spec fn debug_list(parts: Seq<Seq<char>>) -> Seq<char> {
    seq!['['] + spaced(parts) + seq![']']
}

/// An object with one member.
pub open spec fn tagged(key: Seq<char>, value: Seq<char>) -> Seq<char> {
    json::object(seq![json::member(key, value)])
}

/// How a value that holds no other values is written.
pub open spec fn scalar_text(value: Value) -> Seq<char> {
    match value {
        Value::Number(number) => number_text(number),
        Value::Integer(n) => text::integer(n as int),
        Value::Bool(b) => if b {
            "true"@
        } else {
            "false"@
        },
        Value::Text(s) => json::quoted_truncated(s@, MAX_AMF_STRING as nat),
        Value::Xml(s) => json::quoted_truncated(s@, MAX_AMF_STRING as nat),
        Value::Undefined => "\"undefined\""@,
        Value::Unsupported => "\"<unsupported>\""@,
        Value::Date(time) => tagged("$date"@, plain_text(time)),
        Value::Reference(n) => tagged("$ref"@, text::decimal(n as nat)),
        Value::Amf3ObjectReference(id) => tagged("$ref"@, text::integer(id as int)),
        Value::ByteArray(bytes) => tagged("$bytes"@, text::decimal(bytes@.len())),
        _ => "null"@,
    }
}

/// The items of a vector of integers.
pub open spec fn int_parts(values: Seq<i32>) -> Seq<Seq<char>> {
    values.map_values(|n: i32| text::integer(n as int))
}

/// The items of a vector of unsigned integers.
pub open spec fn uint_parts(values: Seq<u32>) -> Seq<Seq<char>> {
    values.map_values(|n: u32| text::decimal(n as nat))
}

/// The items of a vector of doubles.
pub open spec fn double_parts(values: Seq<Double>) -> Seq<Seq<char>> {
    values.map_values(|n: Double| plain_text(n))
}

/// Array elements stand alone.
pub open spec fn element_items(values: Seq<Value>) -> Seq<Item> {
    values.map_values(|value: Value| (Seq::<char>::empty(), value))
}

/// The dense part of an array that is written as an object: an element's
/// name is its position.
pub open spec fn dense_items(values: Seq<Value>) -> Seq<Item> {
    Seq::new(
        values.len(),
        |i: int| (json::literal(text::decimal(i as nat)) + seq![':'], values[i]),
    )
}

/// Object members stand behind their names.
pub open spec fn member_items(members: Seq<Element>) -> Seq<Item> {
    members.map_values(
        |member: Element| (json::quoted(member.name@) + seq![':'], member.value),
    )
}

/// The member that names the class of an object, unless the name is empty.
pub open spec fn class_parts(class: Option<String>) -> Seq<Seq<char>> {
    match class {
        Some(name) => if name@.len() > 0 {
            seq![json::member("$class"@, json::quoted(name@))]
        } else {
            Seq::empty()
        },
        None => Seq::empty(),
    }
}

/// The member that names the class of a custom object.
pub open spec fn custom_class_parts(class: Option<String>) -> Seq<Seq<char>> {
    match class {
        Some(name) => seq![json::member("$class"@, json::quoted(name@))],
        None => Seq::empty(),
    }
}

/// A list that goes on a list where `led`: then a comma stands before it.
pub open spec fn written(parts: Seq<Seq<char>>, led: bool) -> Seq<char> {
    if led && parts.len() > 0 {
        seq![','] + text::listed(parts)
    } else {
        text::listed(parts)
    }
}

/// What is written of a value at the given depth, where `start` bytes stand
/// before it, and whether the limit has been kept.
pub open spec fn cut(value: Value, depth: nat, start: nat, limit: nat) -> (Seq<char>, bool)
    decreases (if depth <= 25 {
        26 - depth
    } else {
        0
    }), 1nat, 0nat,
{
    if depth > MAX_AMF_DEPTH {
        ("\"…depth\""@, start + text::utf8_len("\"…depth\""@) <= limit)
    } else {
        let (written, ok) = match value {
            Value::StrictArray(values) => {
                cut_array(element_items(values@), depth, start, limit)
            },
            Value::VectorObject(values) => {
                cut_array(element_items(values@), depth, start, limit)
            },
            Value::EcmaArray(dense, associative) => if associative@.len() == 0 {
                cut_array(element_items(dense@), depth, start, limit)
            } else {
                cut_object(
                    Seq::empty(),
                    dense_items(dense@),
                    member_items(associative@),
                    depth,
                    start,
                    limit,
                )
            },
            Value::Object(members, class) => cut_object(
                class_parts(class),
                Seq::empty(),
                member_items(members@),
                depth,
                start,
                limit,
            ),
            Value::Custom(custom, members, class) => cut_object(
                custom_class_parts(class),
                member_items(custom@),
                member_items(members@),
                depth,
                start,
                limit,
            ),
            Value::Amf3(inner) => cut(*inner, depth + 1, start, limit),
            Value::Dictionary(entries) => {
                let (parts, ok) = cut_entries(
                    entries@,
                    entries@.len(),
                    depth,
                    start + text::utf8_len(seq!['[']),
                    limit,
                );
                (json::array(parts), ok)
            },
            Value::VectorInt(values) => cut_vector(int_parts(values@), start, limit),
            Value::VectorUInt(values) => cut_vector(uint_parts(values@), start, limit),
            Value::VectorDouble(values) => cut_vector(double_parts(values@), start, limit),
            _ => (scalar_text(value), true),
        };
        (written, ok && start + text::utf8_len(written) <= limit)
    }
}

/// What is written of a vector of numbers.
pub open spec fn cut_vector(parts: Seq<Seq<char>>, start: nat, limit: nat) -> (Seq<char>, bool) {
    let (shown, ok) = cut_numbers(
        parts,
        parts.len(),
        start + text::utf8_len(seq!['[']),
        limit,
    );
    (debug_list(shown), ok)
}

/// Those of the first `count` numbers that are written: the limit stops them
/// behind the one that passes it.
pub open spec fn cut_numbers(parts: Seq<Seq<char>>, count: nat, start: nat, limit: nat) -> (
    Seq<Seq<char>>,
    bool,
)
    decreases count,
{
    if count == 0 {
        (Seq::empty(), true)
    } else {
        let (shown, ok) = cut_numbers(parts, (count - 1) as nat, start, limit);
        if ok {
            let shown = shown.push(parts[count - 1]);
            (shown, start + text::utf8_len(spaced(shown)) <= limit)
        } else {
            (shown, false)
        }
    }
}

/// What is written of an array.
pub open spec fn cut_array(items: Seq<Item>, depth: nat, start: nat, limit: nat) -> (
    Seq<char>,
    bool,
)
    decreases (if depth <= 25 {
        26 - depth
    } else {
        0
    }), 0nat, items.len() + 1,
{
    let (parts, ok) = cut_items(
        items,
        items.len(),
        depth,
        start + text::utf8_len(seq!['[']),
        false,
        limit,
    );
    (json::array(parts), ok)
}

/// What is written of an object with the members `class` and those of two
/// lists; the second list is left out where the first was cut.
pub open spec fn cut_object(
    class: Seq<Seq<char>>,
    first: Seq<Item>,
    second: Seq<Item>,
    depth: nat,
    start: nat,
    limit: nat,
) -> (Seq<char>, bool)
    decreases (if depth <= 25 {
        26 - depth
    } else {
        0
    }), 0nat, first.len() + second.len() + 1,
{
    let base = start + text::utf8_len(seq!['{'] + text::listed(class));
    let led = class.len() > 0;
    let (parts, ok) = cut_items(first, first.len(), depth, base, led, limit);
    if ok {
        let (more, ok) = cut_items(
            second,
            second.len(),
            depth,
            base + text::utf8_len(written(parts, led)),
            led || first.len() > 0,
            limit,
        );
        (json::object(class + parts + more), ok)
    } else {
        (json::object(class + parts), false)
    }
}

/// The parts written of the first `count` items of a list, where `start`
/// bytes stand before it: the limit stops it behind the part that passes it.
pub open spec fn cut_items(
    items: Seq<Item>,
    count: nat,
    depth: nat,
    start: nat,
    led: bool,
    limit: nat,
) -> (Seq<Seq<char>>, bool)
    decreases (if depth <= 25 {
        26 - depth
    } else {
        0
    }), 0nat, count,
{
    if count == 0 || depth > MAX_AMF_DEPTH {
        (Seq::empty(), true)
    } else {
        let (parts, ok) = cut_items(items, (count - 1) as nat, depth, start, led, limit);
        if ok {
            let (prefix, value) = items[count - 1];
            let (part, ok) = cut(
                value,
                depth + 1,
                start + text::utf8_len(written(parts.push(prefix), led)),
                limit,
            );
            (parts.push(prefix + part), ok)
        } else {
            (parts, false)
        }
    }
}

/// The parts written of the first `count` pairs of a dictionary: a pair is
/// an array, without its value where the key passed the limit.
pub open spec fn cut_entries(
    entries: Seq<Entry>,
    count: nat,
    depth: nat,
    start: nat,
    limit: nat,
) -> (Seq<Seq<char>>, bool)
    decreases (if depth <= 25 {
        26 - depth
    } else {
        0
    }), 0nat, count,
{
    if count == 0 || depth > MAX_AMF_DEPTH {
        (Seq::empty(), true)
    } else {
        let (parts, ok) = cut_entries(entries, (count - 1) as nat, depth, start, limit);
        if ok {
            let (key, ok) = cut(
                entries[count - 1].key,
                depth + 1,
                start + text::utf8_len(written(parts.push(seq!['[']), false)),
                limit,
            );
            if ok {
                let (value, ok) = cut(
                    entries[count - 1].value,
                    depth + 1,
                    start + text::utf8_len(written(parts.push(seq!['['] + key + seq![',']), false)),
                    limit,
                );
                (parts.push(json::array(seq![key, value])), ok)
            } else {
                (parts.push(json::array(seq![key])), false)
            }
        } else {
            (parts, false)
        }
    }
}

/// The JSON text of a value; one that passed the limit is marked as cut off.
pub open spec fn amf_json(value: Value) -> Seq<char> {
    let (written, ok) = cut(value, 0, 0, MAX_AMF_JSON_BYTES as nat);
    if ok {
        written
    } else {
        json::object(seq![json::member("$truncated"@, "true"@), json::member("value"@, written)])
    }
}

/// The parts written of the first `count` values of a list.
pub open spec fn cut_list(values: Seq<Value>, count: nat) -> (Seq<Seq<char>>, bool)
    decreases count,
{
    if count == 0 {
        (Seq::empty(), true)
    } else {
        let (parts, ok) = cut_list(values, (count - 1) as nat);
        if ok {
            let (part, ok) = cut(
                values[count - 1],
                0,
                text::utf8_len(seq!['['] + text::listed(parts.push(Seq::empty()))),
                MAX_AMF_JSON_BYTES as nat,
            );
            (parts.push(part), ok)
        } else {
            (parts, false)
        }
    }
}

/// The JSON text of a list of values; a mark stands behind the value that
/// passed the limit.
pub open spec fn amf_list_json(values: Seq<Value>) -> Seq<char> {
    let (parts, ok) = cut_list(values, values.len());
    if ok {
        json::array(parts)
    } else {
        json::array(parts.push("\"…truncated\""@))
    }
}

// ---------------------------------------------------------------------
// Writing.
// ---------------------------------------------------------------------

pub proof fn lemma_written_push(parts: Seq<Seq<char>>, prefix: Seq<char>, tail: Seq<char>, led: bool)
    ensures
        written(parts.push(prefix), led) == written(parts, led) + (if led || parts.len() > 0 {
            seq![',']
        } else {
            Seq::empty()
        }) + prefix,
        written(parts.push(prefix + tail), led) == written(parts.push(prefix), led) + tail,
{
    text::lemma_joined_push(parts, seq![','], prefix);
    text::lemma_joined_push(parts, seq![','], prefix + tail);
    assert(written(parts.push(prefix), led) =~= written(parts, led) + (if led || parts.len() > 0 {
        seq![',']
    } else {
        Seq::empty()
    }) + prefix);
    assert(written(parts.push(prefix + tail), led) =~= written(parts.push(prefix), led) + tail);
}

/// Nothing is written behind the part that passed the limit.
proof fn lemma_cut_items_stop(
    items: Seq<Item>,
    a: nat,
    b: nat,
    depth: nat,
    start: nat,
    led: bool,
    limit: nat,
)
    requires
        a <= b,
        !cut_items(items, a, depth, start, led, limit).1,
    ensures
        cut_items(items, b, depth, start, led, limit) == cut_items(
            items,
            a,
            depth,
            start,
            led,
            limit,
        ),
    decreases b,
{
    if a < b {
        lemma_cut_items_stop(items, a, (b - 1) as nat, depth, start, led, limit);
    }
}

proof fn lemma_cut_entries_stop(
    entries: Seq<Entry>,
    a: nat,
    b: nat,
    depth: nat,
    start: nat,
    limit: nat,
)
    requires
        a <= b,
        !cut_entries(entries, a, depth, start, limit).1,
    ensures
        cut_entries(entries, b, depth, start, limit) == cut_entries(
            entries,
            a,
            depth,
            start,
            limit,
        ),
    decreases b,
{
    if a < b {
        lemma_cut_entries_stop(entries, a, (b - 1) as nat, depth, start, limit);
    }
}

/// As long as the limit is kept, every item has its part.
pub proof fn lemma_cut_items_len(
    items: Seq<Item>,
    count: nat,
    depth: nat,
    start: nat,
    led: bool,
    limit: nat,
)
    requires
        depth <= MAX_AMF_DEPTH,
    ensures
        cut_items(items, count, depth, start, led, limit).0.len() <= count,
        cut_items(items, count, depth, start, led, limit).1 ==> cut_items(
            items,
            count,
            depth,
            start,
            led,
            limit,
        ).0.len() == count,
        count > 0 ==> cut_items(items, count, depth, start, led, limit).0.len() > 0,
    decreases count,
{
    if count > 0 {
        lemma_cut_items_len(items, (count - 1) as nat, depth, start, led, limit);
    }
}

proof fn lemma_tagged(key: Seq<char>, value: Seq<char>)
    ensures
        tagged(key, value) == seq!['{'] + (json::literal(key) + seq![':']) + value + seq!['}'],
{
    assert(text::listed(seq![json::member(key, value)]) == json::member(key, value));
    assert(tagged(key, value) =~= seq!['{'] + (json::literal(key) + seq![':']) + value + seq!['}']);
}

/// Numbers are written up to some point, all of them while the limit is kept.
pub proof fn lemma_cut_numbers(parts: Seq<Seq<char>>, count: nat, start: nat, limit: nat)
    requires
        count <= parts.len(),
    ensures
        ({
            let (shown, ok) = cut_numbers(parts, count, start, limit);
            &&& shown.len() <= count
            &&& shown == parts.take(shown.len() as int)
            &&& ok ==> shown.len() == count
            &&& ok && count > 0 ==> start + text::utf8_len(spaced(shown)) <= limit
            &&& !ok ==> shown.len() > 0 && start + text::utf8_len(spaced(shown)) > limit
        }),
    decreases count,
{
    if count > 0 {
        lemma_cut_numbers(parts, (count - 1) as nat, start, limit);
        assert(parts.take(count as int) =~= parts.take(count - 1).push(parts[count - 1]));
    } else {
        assert(parts.take(0) =~= Seq::empty());
    }
}

proof fn lemma_cut_numbers_stop(parts: Seq<Seq<char>>, a: nat, b: nat, start: nat, limit: nat)
    requires
        a <= b,
        !cut_numbers(parts, a, start, limit).1,
    ensures
        cut_numbers(parts, b, start, limit) == cut_numbers(parts, a, start, limit),
    decreases b,
{
    if a < b {
        lemma_cut_numbers_stop(parts, a, (b - 1) as nat, start, limit);
    }
}

/// An item of a vector of numbers.
trait Numeric: Sized {
    spec fn shown(self) -> Seq<char>;

    fn write(&self, out: &mut String)
        ensures
            final(out)@ == old(out)@ + self.shown(),
    ;
}

impl Numeric for i32 {
    spec fn shown(self) -> Seq<char> {
        text::integer(self as int)
    }

    fn write(&self, out: &mut String) {
        text::push_integer(out, *self as i64);
    }
}

impl Numeric for u32 {
    spec fn shown(self) -> Seq<char> {
        text::decimal(self as nat)
    }

    fn write(&self, out: &mut String) {
        text::push_decimal(out, *self as u64);
    }
}

impl Numeric for Double {
    spec fn shown(self) -> Seq<char> {
        plain_text(self)
    }

    fn write(&self, out: &mut String) {
        if ieee::is_finite(self.bits) {
            out.append(self.text.as_str());
        } else {
            out.append("null");
        }
    }
}

/// Writes numbers as a JSON array, up to the one that passes the limit.
fn write_numbers<T: Numeric>(out: &mut String, values: &Vec<T>, limit: usize) -> (ok: bool)
    ensures
        ({
            let (written, kept) = cut_vector(
                values@.map_values(|n: T| n.shown()),
                text::utf8_len(old(out)@),
                limit as nat,
            );
            final(out)@ == old(out)@ + written && ok == kept
        }),
{
    let ghost all = values@.map_values(|n: T| n.shown());
    let ghost sep = seq![',', ' '];
    let ghost l = limit as nat;
    out.push('[');
    let ghost head = out@;
    let ghost base = text::utf8_len(head);
    proof {
        assert(head =~= old(out)@ + seq!['[']);
        text::lemma_utf8_len_concat(old(out)@, seq!['[']);
        assert(out@ =~= head + spaced(cut_numbers(all, 0, base, l).0));
    }
    let mut ok: bool = true;
    let mut i: usize = 0;
    while ok && i < values.len()
        invariant
            i <= values@.len(),
            l == limit as nat,
            sep == seq![',', ' '],
            all == values@.map_values(|n: T| n.shown()),
            base == text::utf8_len(head),
            ok == cut_numbers(all, i as nat, base, l).1,
            out@ == head + spaced(cut_numbers(all, i as nat, base, l).0),
        decreases values@.len() - i,
    {
        let ghost shown = cut_numbers(all, i as nat, base, l).0;
        if i > 0 {
            out.push(',');
            out.push(' ');
        }
        values[i].write(out);
        proof {
            lemma_cut_numbers(all, i as nat, base, l);
            text::lemma_joined_push(shown, sep, all[i as int]);
            assert(out@ =~= head + spaced(shown.push(all[i as int])));
            text::lemma_utf8_len_concat(head, spaced(shown.push(all[i as int])));
        }
        ok = text::byte_len(out) <= limit;
        i += 1;
    }
    proof {
        if !ok {
            lemma_cut_numbers_stop(all, i as nat, values@.len(), base, l);
        }
    }
    out.push(']');
    proof {
        let shown = cut_numbers(all, values@.len(), base, l).0;
        assert(out@ =~= old(out)@ + debug_list(shown));
    }
    ok
}

/// Writes `value` as JSON. Returns `false` once `out` has grown past
/// `limit`; the value written so far is always structurally complete.
fn write_amf(out: &mut String, value: &Value, depth: usize, limit: usize) -> (ok: bool)
    ensures
        final(out)@ == old(out)@ + cut(
            *value,
            depth as nat,
            text::utf8_len(old(out)@),
            limit as nat,
        ).0,
        ok == cut(*value, depth as nat, text::utf8_len(old(out)@), limit as nat).1,
    decreases
            (if depth <= 25 {
                26 - depth
            } else {
                0
            }),
            1nat,
            0nat,
{
    let ghost start = text::utf8_len(out@);
    if depth > MAX_AMF_DEPTH {
        out.append("\"…depth\"");
        proof {
            text::lemma_utf8_len_concat(old(out)@, "\"…depth\""@);
        }
        return text::byte_len(out) <= limit;
    }
    let ok: bool = match value {
        Value::StrictArray(values) => write_amf_array(out, values, depth, limit),
        Value::VectorObject(values) => write_amf_array(out, values, depth, limit),
        Value::EcmaArray(dense, associative) => {
            if associative.len() == 0 {
                write_amf_array(out, dense, depth, limit)
            } else {
                write_amf_mixed(out, dense, associative, depth, limit)
            }
        },
        Value::Object(members, class) => {
            let named: Option<&String> = match class {
                Some(name) => if name.as_str().is_empty() {
                    None
                } else {
                    Some(name)
                },
                None => None,
            };
            let none: Vec<Element> = Vec::new();
            proof {
                assert(member_items(none@) =~= Seq::<Item>::empty());
            }
            write_amf_object(out, named, &none, members, depth, limit)
        },
        Value::Custom(custom, members, class) => {
            let named: Option<&String> = match class {
                Some(name) => Some(name),
                None => None,
            };
            write_amf_object(out, named, custom, members, depth, limit)
        },
        Value::Amf3(inner) => write_amf(out, inner, depth + 1, limit),
        Value::Dictionary(entries) => write_amf_dictionary(out, entries, depth, limit),
        Value::VectorInt(values) => {
            assert(values@.map_values(|n: i32| n.shown()) =~= int_parts(values@));
            write_numbers(out, values, limit)
        },
        Value::VectorUInt(values) => {
            assert(values@.map_values(|n: u32| n.shown()) =~= uint_parts(values@));
            write_numbers(out, values, limit)
        },
        Value::VectorDouble(values) => {
            assert(values@.map_values(|n: Double| n.shown()) =~= double_parts(values@));
            write_numbers(out, values, limit)
        },
        _ => {
            write_amf_scalar(out, value);
            true
        },
    };
    proof {
        let written = cut(*value, depth as nat, start, limit as nat).0;
        assert(out@ == old(out)@ + written);
        text::lemma_utf8_len_concat(old(out)@, written);
    }
    ok && text::byte_len(out) <= limit
}

/// Writes a value that holds no other values.
fn write_amf_scalar(out: &mut String, value: &Value)
    ensures
        final(out)@ == old(out)@ + scalar_text(*value),
{
    match value {
        Value::Number(number) => {
            if ieee::is_finite(number.bits) {
                match ieee::whole(number.bits) {
                    Some(n) => text::push_integer(out, n),
                    None => out.append(number.text.as_str()),
                }
            } else {
                out.append("null");
            }
        },
        Value::Integer(n) => text::push_integer(out, *n as i64),
        Value::Bool(b) => {
            if *b {
                out.append("true");
            } else {
                out.append("false");
            }
        },
        Value::Text(s) => {
            out.append(json::json_str_truncated(s.as_str(), MAX_AMF_STRING).as_str());
        },
        Value::Xml(s) => {
            out.append(json::json_str_truncated(s.as_str(), MAX_AMF_STRING).as_str());
        },
        Value::Undefined => out.append("\"undefined\""),
        Value::Unsupported => out.append("\"<unsupported>\""),
        Value::Date(time) => {
            out.push('{');
            json::push_key(out, "$date");
            time.write(out);
            out.push('}');
            proof {
                lemma_tagged("$date"@, plain_text(*time));
                assert(out@ =~= old(out)@ + scalar_text(*value));
            }
        },
        Value::Reference(n) => {
            out.push('{');
            json::push_key(out, "$ref");
            text::push_decimal(out, *n as u64);
            out.push('}');
            proof {
                lemma_tagged("$ref"@, text::decimal(*n as nat));
                assert(out@ =~= old(out)@ + scalar_text(*value));
            }
        },
        Value::Amf3ObjectReference(id) => {
            out.push('{');
            json::push_key(out, "$ref");
            text::push_integer(out, *id);
            out.push('}');
            proof {
                lemma_tagged("$ref"@, text::integer(*id as int));
                assert(out@ =~= old(out)@ + scalar_text(*value));
            }
        },
        Value::ByteArray(bytes) => {
            out.push('{');
            json::push_key(out, "$bytes");
            text::push_decimal(out, bytes.len() as u64);
            out.push('}');
            proof {
                lemma_tagged("$bytes"@, text::decimal(bytes@.len()));
                assert(out@ =~= old(out)@ + scalar_text(*value));
            }
        },
        _ => out.append("null"),
    }
}

/// Writes values as a JSON array, up to the one that passes the limit.
fn write_amf_array(out: &mut String, values: &Vec<Value>, depth: usize, limit: usize) -> (ok: bool)
    requires
        depth <= MAX_AMF_DEPTH,
    ensures
        final(out)@ == old(out)@ + cut_array(
            element_items(values@),
            depth as nat,
            text::utf8_len(old(out)@),
            limit as nat,
        ).0,
        ok == cut_array(
            element_items(values@),
            depth as nat,
            text::utf8_len(old(out)@),
            limit as nat,
        ).1,
    decreases 26 - depth, 0nat, 0nat,
{
    let ghost items = element_items(values@);
    let ghost d = depth as nat;
    let ghost l = limit as nat;
    out.push('[');
    let ghost head = out@;
    let ghost base = text::utf8_len(head);
    proof {
        assert(head =~= old(out)@ + seq!['[']);
        text::lemma_utf8_len_concat(old(out)@, seq!['[']);
    }
    let mut ok: bool = true;
    let mut i: usize = 0;
    while ok && i < values.len()
        invariant
            i <= values@.len(),
            depth <= MAX_AMF_DEPTH,
            d == depth as nat,
            l == limit as nat,
            items == element_items(values@),
            base == text::utf8_len(head),
            ok == cut_items(items, i as nat, d, base, false, l).1,
            out@ == head + written(cut_items(items, i as nat, d, base, false, l).0, false),
        decreases values@.len() - i,
    {
        let ghost parts = cut_items(items, i as nat, d, base, false, l).0;
        if i > 0 {
            out.push(',');
        }
        proof {
            let e = Seq::<char>::empty();
            lemma_cut_items_len(items, i as nat, d, base, false, l);
            let part = cut(
                values@[i as int],
                d + 1,
                base + text::utf8_len(written(parts.push(e), false)),
                l,
            ).0;
            lemma_written_push(parts, e, part, false);
            text::lemma_utf8_len_concat(head, written(parts.push(e), false));
            assert(out@ =~= head + written(parts.push(e), false));
            assert(items[i as int] == (e, values@[i as int]));
        }
        ok = write_amf(out, &values[i], depth + 1, limit);
        i += 1;
        proof {
            assert(out@ =~= head + written(cut_items(items, i as nat, d, base, false, l).0, false));
        }
    }
    if !ok {
        proof {
            lemma_cut_items_stop(items, i as nat, values@.len(), d, base, false, l);
        }
    }
    out.push(']');
    proof {
        let parts = cut_items(items, values@.len(), d, base, false, l).0;
        assert(out@ =~= old(out)@ + json::array(parts));
    }
    ok
}

/// Writes object members, up to the one that passes the limit.
fn write_amf_members(
    out: &mut String,
    members: &Vec<Element>,
    needs_comma: bool,
    depth: usize,
    limit: usize,
) -> (ok: bool)
    requires
        depth <= MAX_AMF_DEPTH,
    ensures
        final(out)@ == old(out)@ + written(
            cut_items(
                member_items(members@),
                members@.len(),
                depth as nat,
                text::utf8_len(old(out)@),
                needs_comma,
                limit as nat,
            ).0,
            needs_comma,
        ),
        ok == cut_items(
            member_items(members@),
            members@.len(),
            depth as nat,
            text::utf8_len(old(out)@),
            needs_comma,
            limit as nat,
        ).1,
    decreases 26 - depth, 0nat, 0nat,
{
    let ghost items = member_items(members@);
    let ghost d = depth as nat;
    let ghost l = limit as nat;
    let ghost head = out@;
    let ghost base = text::utf8_len(head);
    let mut i: usize = 0;
    proof {
        assert(out@ =~= head + written(cut_items(items, 0, d, base, needs_comma, l).0, needs_comma));
    }
    while i < members.len()
        invariant
            i <= members@.len(),
            depth <= MAX_AMF_DEPTH,
            d == depth as nat,
            l == limit as nat,
            head == old(out)@,
            items == member_items(members@),
            base == text::utf8_len(head),
            cut_items(items, i as nat, d, base, needs_comma, l).1,
            out@ == head + written(
                cut_items(items, i as nat, d, base, needs_comma, l).0,
                needs_comma,
            ),
        decreases members@.len() - i,
    {
        let ghost parts = cut_items(items, i as nat, d, base, needs_comma, l).0;
        if needs_comma || i > 0 {
            out.push(',');
        }
        out.append(json::json_str(members[i].name.as_str()).as_str());
        out.push(':');
        proof {
            let prefix = json::quoted(members@[i as int].name@) + seq![':'];
            lemma_cut_items_len(items, i as nat, d, base, needs_comma, l);
            let part = cut(
                members@[i as int].value,
                d + 1,
                base + text::utf8_len(written(parts.push(prefix), needs_comma)),
                l,
            ).0;
            lemma_written_push(parts, prefix, part, needs_comma);
            text::lemma_utf8_len_concat(head, written(parts.push(prefix), needs_comma));
            assert(out@ =~= head + written(parts.push(prefix), needs_comma));
            assert(items[i as int] == (prefix, members@[i as int].value));
        }
        let ok: bool = write_amf(out, &members[i].value, depth + 1, limit);
        i += 1;
        proof {
            assert(out@ =~= head + written(
                cut_items(items, i as nat, d, base, needs_comma, l).0,
                needs_comma,
            ));
        }
        if !ok {
            proof {
                lemma_cut_items_stop(items, i as nat, members@.len(), d, base, needs_comma, l);
            }
            return false;
        }
    }
    true
}

/// Three lists of members, one going on the other, make one object.
pub proof fn lemma_object_text(a: Seq<Seq<char>>, b: Seq<Seq<char>>, c: Seq<Seq<char>>)
    ensures
        json::object(a + b + c) == seq!['{'] + text::listed(a) + written(b, a.len() > 0) + written(
            c,
            a.len() > 0 || b.len() > 0,
        ) + seq!['}'],
        json::object(a + b) == seq!['{'] + text::listed(a) + written(b, a.len() > 0) + seq!['}'],
{
    text::lemma_joined_concat(a, b, seq![',']);
    text::lemma_joined_concat(a + b, c, seq![',']);
    let ab = text::listed(a) + written(b, a.len() > 0);
    assert(text::listed(a + b) =~= ab);
    assert(text::listed(a + b + c) =~= ab + written(c, a.len() > 0 || b.len() > 0));
    assert(json::object(a + b) =~= seq!['{'] + text::listed(a) + written(b, a.len() > 0) + seq![
        '}',
    ]);
    assert(json::object(a + b + c) =~= seq!['{'] + text::listed(a) + written(b, a.len() > 0)
        + written(c, a.len() > 0 || b.len() > 0) + seq!['}']);
}

/// Writes an array with named elements as an object.
fn write_amf_mixed(
    out: &mut String,
    dense: &Vec<Value>,
    associative: &Vec<Element>,
    depth: usize,
    limit: usize,
) -> (ok: bool)
    requires
        depth <= MAX_AMF_DEPTH,
    ensures
        final(out)@ == old(out)@ + cut_object(
            Seq::empty(),
            dense_items(dense@),
            member_items(associative@),
            depth as nat,
            text::utf8_len(old(out)@),
            limit as nat,
        ).0,
        ok == cut_object(
            Seq::empty(),
            dense_items(dense@),
            member_items(associative@),
            depth as nat,
            text::utf8_len(old(out)@),
            limit as nat,
        ).1,
    decreases 26 - depth, 0nat, 1nat,
{
    let ghost items = dense_items(dense@);
    let ghost d = depth as nat;
    let ghost l = limit as nat;
    let ghost none = Seq::<Seq<char>>::empty();
    out.push('{');
    let ghost head = out@;
    let ghost base = text::utf8_len(head);
    proof {
        assert(seq!['{'] + text::listed(none) =~= seq!['{']);
        assert(head =~= old(out)@ + seq!['{']);
        text::lemma_utf8_len_concat(old(out)@, seq!['{']);
    }
    let mut ok: bool = true;
    let mut i: usize = 0;
    while ok && i < dense.len()
        invariant
            i <= dense@.len(),
            depth <= MAX_AMF_DEPTH,
            d == depth as nat,
            l == limit as nat,
            items == dense_items(dense@),
            base == text::utf8_len(head),
            ok == cut_items(items, i as nat, d, base, false, l).1,
            out@ == head + written(cut_items(items, i as nat, d, base, false, l).0, false),
        decreases dense@.len() - i,
    {
        let ghost parts = cut_items(items, i as nat, d, base, false, l).0;
        if i > 0 {
            out.push(',');
        }
        out.push('"');
        text::push_decimal(out, i as u64);
        out.push('"');
        out.push(':');
        proof {
            let prefix = json::literal(text::decimal(i as nat)) + seq![':'];
            lemma_cut_items_len(items, i as nat, d, base, false, l);
            let part = cut(
                dense@[i as int],
                d + 1,
                base + text::utf8_len(written(parts.push(prefix), false)),
                l,
            ).0;
            lemma_written_push(parts, prefix, part, false);
            text::lemma_utf8_len_concat(head, written(parts.push(prefix), false));
            assert(out@ =~= head + written(parts.push(prefix), false));
            assert(items[i as int] == (prefix, dense@[i as int]));
        }
        ok = write_amf(out, &dense[i], depth + 1, limit);
        i += 1;
        proof {
            assert(out@ =~= head + written(cut_items(items, i as nat, d, base, false, l).0, false));
        }
    }
    let ghost parts = cut_items(items, dense@.len(), d, base, false, l).0;
    if ok {
        proof {
            text::lemma_utf8_len_concat(head, written(parts, false));
        }
        ok = write_amf_members(out, associative, dense.len() > 0, depth, limit);
        out.push('}');
        proof {
            let more = cut_items(
                member_items(associative@),
                associative@.len(),
                d,
                base + text::utf8_len(written(parts, false)),
                dense@.len() > 0,
                l,
            ).0;
            lemma_cut_items_len(items, dense@.len(), d, base, false, l);
            lemma_object_text(none, parts, more);
            assert(out@ =~= old(out)@ + json::object(none + parts + more));
        }
    } else {
        proof {
            lemma_cut_items_stop(items, i as nat, dense@.len(), d, base, false, l);
        }
        out.push('}');
        proof {
            assert(none + parts =~= parts);
            assert(out@ =~= old(out)@ + json::object(none + parts));
        }
    }
    ok
}

/// The member that names a class.
spec fn name_parts(class: Option<&String>) -> Seq<Seq<char>> {
    match class {
        Some(name) => seq![json::member("$class"@, json::quoted(name@))],
        None => Seq::empty(),
    }
}

/// Writes an object: the name of its class, then two lists of members.
fn write_amf_object(
    out: &mut String,
    class: Option<&String>,
    custom: &Vec<Element>,
    members: &Vec<Element>,
    depth: usize,
    limit: usize,
) -> (ok: bool)
    requires
        depth <= MAX_AMF_DEPTH,
    ensures
        final(out)@ == old(out)@ + cut_object(
            name_parts(class),
            member_items(custom@),
            member_items(members@),
            depth as nat,
            text::utf8_len(old(out)@),
            limit as nat,
        ).0,
        ok == cut_object(
            name_parts(class),
            member_items(custom@),
            member_items(members@),
            depth as nat,
            text::utf8_len(old(out)@),
            limit as nat,
        ).1,
    decreases 26 - depth, 0nat, 1nat,
{
    let ghost named = name_parts(class);
    let ghost d = depth as nat;
    let ghost l = limit as nat;
    out.push('{');
    let mut first: bool = true;
    if let Some(name) = class {
        json::push_key(out, "$class");
        out.append(json::json_str(name.as_str()).as_str());
        first = false;
    }
    let ghost head = out@;
    let ghost base = text::utf8_len(head);
    proof {
        assert(head =~= old(out)@ + (seq!['{'] + text::listed(named)));
        text::lemma_utf8_len_concat(old(out)@, seq!['{'] + text::listed(named));
    }
    let mut ok: bool = write_amf_members(out, custom, !first, depth, limit);
    let ghost items = member_items(custom@);
    let ghost parts = cut_items(items, custom@.len(), d, base, !first, l).0;
    if ok {
        proof {
            text::lemma_utf8_len_concat(head, written(parts, !first));
        }
        ok = write_amf_members(out, members, !first || custom.len() > 0, depth, limit);
        out.push('}');
        proof {
            let more = cut_items(
                member_items(members@),
                members@.len(),
                d,
                base + text::utf8_len(written(parts, !first)),
                !first || custom@.len() > 0,
                l,
            ).0;
            lemma_cut_items_len(items, custom@.len(), d, base, !first, l);
            lemma_object_text(named, parts, more);
            assert(out@ =~= old(out)@ + json::object(named + parts + more));
        }
    } else {
        out.push('}');
        proof {
            lemma_object_text(named, parts, Seq::empty());
            assert(out@ =~= old(out)@ + json::object(named + parts));
        }
    }
    ok
}

/// Writes a dictionary as an array of pairs.
fn write_amf_dictionary(
    out: &mut String,
    entries: &Vec<Entry>,
    depth: usize,
    limit: usize,
) -> (ok: bool)
    requires
        depth <= MAX_AMF_DEPTH,
    ensures
        ({
            let (parts, kept) = cut_entries(
                entries@,
                entries@.len(),
                depth as nat,
                text::utf8_len(old(out)@) + text::utf8_len(seq!['[']),
                limit as nat,
            );
            final(out)@ == old(out)@ + json::array(parts) && ok == kept
        }),
    decreases 26 - depth, 0nat, 1nat,
{
    let ghost d = depth as nat;
    let ghost l = limit as nat;
    out.push('[');
    let ghost head = out@;
    let ghost base = text::utf8_len(head);
    proof {
        assert(head =~= old(out)@ + seq!['[']);
        text::lemma_utf8_len_concat(old(out)@, seq!['[']);
    }
    let mut ok: bool = true;
    let mut i: usize = 0;
    while ok && i < entries.len()
        invariant
            i <= entries@.len(),
            depth <= MAX_AMF_DEPTH,
            d == depth as nat,
            l == limit as nat,
            base == text::utf8_len(head),
            ok == cut_entries(entries@, i as nat, d, base, l).1,
            ok ==> cut_entries(entries@, i as nat, d, base, l).0.len() == i,
            out@ == head + written(cut_entries(entries@, i as nat, d, base, l).0, false),
        decreases entries@.len() - i,
    {
        let ghost parts = cut_entries(entries@, i as nat, d, base, l).0;
        if i > 0 {
            out.push(',');
        }
        out.push('[');
        let ghost open = seq!['['];
        let ghost (key, kept) = cut(
            entries@[i as int].key,
            d + 1,
            base + text::utf8_len(written(parts.push(open), false)),
            l,
        );
        proof {
            lemma_written_push(parts, open, key + seq![']'], false);
            lemma_written_push(parts, open, key + seq![','], false);
            text::lemma_utf8_len_concat(head, written(parts.push(open), false));
            assert(out@ =~= head + written(parts.push(open), false));
        }
        ok = write_amf(out, &entries[i].key, depth + 1, limit);
        if ok {
            out.push(',');
            let ghost mid = open + key + seq![','];
            proof {
                assert(open + (key + seq![',']) =~= mid);
                assert(out@ =~= head + written(parts.push(mid), false));
                text::lemma_utf8_len_concat(head, written(parts.push(mid), false));
            }
            let ghost value = cut(
                entries@[i as int].value,
                d + 1,
                base + text::utf8_len(written(parts.push(mid), false)),
                l,
            ).0;
            ok = write_amf(out, &entries[i].value, depth + 1, limit);
            proof {
                lemma_written_push(parts, mid, value + seq![']'], false);
                text::lemma_joined_push(seq![key], seq![','], value);
                assert(seq![key].push(value) =~= seq![key, value]);
                assert(mid + (value + seq![']']) =~= json::array(seq![key, value]));
                assert(out@ + seq![']'] =~= head + written(
                    parts.push(json::array(seq![key, value])),
                    false,
                ));
            }
        } else {
            proof {
                assert(open + (key + seq![']']) =~= json::array(seq![key]));
                assert(out@ + seq![']'] =~= head + written(
                    parts.push(json::array(seq![key])),
                    false,
                ));
            }
        }
        out.push(']');
        i += 1;
        proof {
            assert(out@ =~= head + written(cut_entries(entries@, i as nat, d, base, l).0, false));
        }
    }
    if !ok {
        proof {
            lemma_cut_entries_stop(entries@, i as nat, entries@.len(), d, base, l);
        }
    }
    out.push(']');
    proof {
        let parts = cut_entries(entries@, entries@.len(), d, base, l).0;
        assert(out@ =~= old(out)@ + json::array(parts));
    }
    ok
}

proof fn lemma_cut_list_stop(values: Seq<Value>, a: nat, b: nat)
    requires
        a <= b,
        !cut_list(values, a).1,
    ensures
        cut_list(values, b) == cut_list(values, a),
    decreases b,
{
    if a < b {
        lemma_cut_list_stop(values, a, (b - 1) as nat);
    }
}

/// Converts an AMF value into readable JSON text. References are left as
/// `{"$ref":n}`. Output is cut off beyond [`MAX_AMF_JSON_BYTES`] (plus one
/// scalar) so that huge payloads cannot slow the player down; the result stays
/// valid JSON and is wrapped as `{"$truncated":true,"value":…}` when that
/// happens.
pub fn amf_to_json(value: &Value) -> (out: String)
    ensures
        out@ == amf_json(*value),
{
    let mut out: String = String::new();
    let ghost none = Seq::<char>::empty();
    let ok: bool = write_amf(&mut out, value, 0, MAX_AMF_JSON_BYTES);
    let ghost text = cut(*value, 0, 0, MAX_AMF_JSON_BYTES as nat).0;
    proof {
        assert(none + text =~= text);
    }
    if ok {
        out
    } else {
        let mut members: json::Parts = json::Parts::new();
        members.value("$truncated", "true");
        members.value("value", out.as_str());
        assert(members.parts() =~= seq![
            json::member("$truncated"@, "true"@),
            json::member("value"@, text),
        ]);
        members.into_object()
    }
}

/// Converts a list of AMF values into a JSON array (see [`amf_to_json`]).
pub fn amf_list_to_json(values: &Vec<Value>) -> (out: String)
    ensures
        out@ == amf_list_json(values@),
{
    let mut out: String = String::new();
    out.push('[');
    let mut ok: bool = true;
    let mut i: usize = 0;
    proof {
        assert(out@ =~= seq!['['] + text::listed(cut_list(values@, 0).0));
    }
    while ok && i < values.len()
        invariant
            i <= values@.len(),
            ok == cut_list(values@, i as nat).1,
            ok ==> cut_list(values@, i as nat).0.len() == i,
            ok ==> out@ == seq!['['] + text::listed(cut_list(values@, i as nat).0),
            !ok ==> out@ == seq!['['] + text::listed(
                cut_list(values@, i as nat).0.push("\"…truncated\""@),
            ),
        decreases values@.len() - i,
    {
        let ghost parts = cut_list(values@, i as nat).0;
        let ghost e = Seq::<char>::empty();
        if i > 0 {
            out.push(',');
        }
        proof {
            text::lemma_joined_push(parts, seq![','], e);
            assert(out@ =~= seq!['['] + text::listed(parts.push(e)));
        }
        let ghost part = cut(
            values@[i as int],
            0,
            text::utf8_len(out@),
            MAX_AMF_JSON_BYTES as nat,
        ).0;
        ok = write_amf(&mut out, &values[i], 0, MAX_AMF_JSON_BYTES);
        proof {
            text::lemma_joined_push(parts, seq![','], part);
            assert(out@ =~= seq!['['] + text::listed(parts.push(part)));
        }
        if !ok {
            let ghost mark = "\"…truncated\""@;
            out.push(',');
            out.append("\"…truncated\"");
            proof {
                text::lemma_joined_push(parts.push(part), seq![','], mark);
                assert(out@ =~= seq!['['] + text::listed(parts.push(part).push(mark)));
            }
        }
        i += 1;
    }
    if !ok {
        proof {
            lemma_cut_list_stop(values@, i as nat, values@.len());
        }
    }
    out.push(']');
    assert(out@ =~= amf_list_json(values@));
    out
}

// ---------------------------------------------------------------------
// References.
// ---------------------------------------------------------------------

/// How a reference describes itself.
pub open spec fn reference_text(n: nat) -> Seq<char> {
    "Reference("@ + text::decimal(n) + ")"@
}

/// The number of a reference that describes itself so, if it is one.
pub fn reference_number(described: &str) -> (n: Option<u16>)
    ensures
        match n {
            Some(n) => described@ == reference_text(n as nat),
            None => forall|n: u16| described@ != #[trigger] reference_text(n as nat),
        },
{
    proof {
        reveal_strlit("Reference(");
        reveal_strlit(")");
        assert forall|m: u16| described@ == #[trigger] reference_text(m as nat) implies
            described@.len() >= 12 && described@.subrange(10, described@.len() - 1)
            == text::decimal(m as nat) by {
            text::lemma_decimal_reads_back(m as nat);
            assert(described@.subrange(10, described@.len() - 1) =~= text::decimal(m as nat));
        }
    }
    let len: usize = described.unicode_len();
    if len < 12 {
        return None;
    }
    let ghost digits = described@.subrange(10, len - 1);
    let mut n: u32 = 0;
    let mut i: usize = 10;
    assert(digits.take(0) =~= Seq::empty());
    while i < len - 1
        invariant
            10 <= i <= len - 1,
            len == described@.len(),
            digits == described@.subrange(10, len - 1),
            n <= 65535,
            n == text::number(digits.take(i - 10)),
            forall|m: u16|
                described@ == #[trigger] reference_text(m as nat) ==> digits == text::decimal(
                    m as nat,
                ),
        decreases len - i,
    {
        let c: char = described.get_char(i);
        let ghost before = digits.take(i - 10);
        proof {
            assert(c == digits[i - 10]);
            assert(digits.take(i - 9) =~= before.push(c));
            assert(before.push(c).drop_last() =~= before);
            assert forall|m: u16| described@ == #[trigger] reference_text(m as nat) implies '0' <= c
                <= '9' && text::number(before.push(c)) <= 65535 by {
                text::lemma_decimal_reads_back(m as nat);
                text::lemma_number_grows(digits, i - 9);
            }
        }
        if c < '0' || c > '9' {
            return None;
        }
        n = n * 10 + (c as u32 - 48);
        if n > 65535 {
            return None;
        }
        i += 1;
    }
    assert(digits.take(len - 11) =~= digits);
    let mut whole: String = "Reference(".to_owned();
    text::push_decimal(&mut whole, n as u64);
    whole.append(")");
    proof {
        assert(whole@ =~= reference_text(n as nat));
        assert forall|m: u16| described@ == #[trigger] reference_text(m as nat) implies m == n by {
            text::lemma_decimal_reads_back(m as nat);
        }
    }
    if whole == described.to_owned() {
        Some(n as u16)
    } else {
        None
    }
}

} // verus!
