//! How AMF values are written, kind by kind.

use crate::amf;
use crate::amf::{Double, Element, Entry, Value};
use crate::amf_laws;
use crate::ieee;
use crate::json;
use crate::text;
use vstd::prelude::*;

verus! {

proof fn lemma_brackets()
    ensures
        "["@ == seq!['['],
        "]"@ == seq![']'],
        "{"@ == seq!['{'],
        "}"@ == seq!['}'],
        ","@ == seq![','],
        ":"@ == seq![':'],
        "\""@ == seq!['"'],
        "\":"@ == seq!['"', ':'],
        ", "@ == seq![',', ' '],
{
    reveal_strlit("[");
    reveal_strlit("]");
    reveal_strlit("{");
    reveal_strlit("}");
    reveal_strlit(",");
    reveal_strlit(":");
    reveal_strlit("\"");
    reveal_strlit("\":");
    reveal_strlit(", ");
    assert("["@ =~= seq!['[']);
    assert("]"@ =~= seq![']']);
    assert("{"@ =~= seq!['{']);
    assert("}"@ =~= seq!['}']);
    assert(","@ =~= seq![',']);
    assert(":"@ =~= seq![':']);
    assert("\""@ =~= seq!['"']);
    assert("\":"@ =~= seq!['"', ':']);
    assert(", "@ =~= seq![',', ' ']);
}

/// Text and XML are written as a literal that reads back to all of it where it
/// has at most 4096 characters, and to the first 4096 of them and the mark
/// where it is longer.
pub proof fn law_texts_read_back(s: String, depth: nat, start: nat, limit: nat)
    requires
        depth <= 24,
    ensures
        ({
            let kept = if s@.len() <= 4096 {
                s@
            } else {
                s@.take(4096) + seq!['…']
            };
            &&& json::text_of(amf_laws::full(Value::Text(s), depth)) == kept
            &&& json::text_of(amf_laws::full(Value::Xml(s), depth)) == kept
            &&& json::text_of(amf::cut(Value::Text(s), depth, start, limit).0) == kept
            &&& json::text_of(amf::cut(Value::Xml(s), depth, start, limit).0) == kept
            &&& amf_laws::full(Value::Text(s), depth) == json::quoted(kept)
            &&& amf_laws::full(Value::Xml(s), depth) == json::quoted(kept)
        }),
{
    let cut = s@.take(4096).push('…');
    json::law_literals_read_back(s@, s@);
    json::law_literals_read_back(cut, cut);
    assert(cut =~= s@.take(4096) + seq!['…']);
}

/// A number is `null` where it is not finite, an integer where it is one, and
/// its own text otherwise.
pub proof fn law_numbers_are_written(number: Double, depth: nat)
    requires
        depth <= 24,
    ensures
        !ieee::finite(number.bits) ==> amf_laws::full(Value::Number(number), depth) == "null"@,
        ieee::finite(number.bits) && ieee::whole_number(number.bits) is None ==> amf_laws::full(
            Value::Number(number),
            depth,
        ) == number.text@,
        ieee::finite(number.bits) && ieee::whole_number(number.bits) is Some ==> amf_laws::full(
            Value::Number(number),
            depth,
        ) == text::integer(ieee::whole_number(number.bits)->0),
{
}

/// The other values that hold none: words stand for themselves, and what JSON
/// has no word for is an object with one member.
pub proof fn law_scalars_are_written(
    depth: nat,
    n: i32,
    b: bool,
    time: Double,
    reference: u16,
    id: i64,
    bytes: Vec<u8>,
)
    requires
        depth <= 24,
    ensures
        amf_laws::full(Value::Integer(n), depth) == text::integer(n as int),
        amf_laws::full(Value::Bool(b), depth) == if b {
            "true"@
        } else {
            "false"@
        },
        amf_laws::full(Value::Null, depth) == "null"@,
        amf_laws::full(Value::Undefined, depth) == "\"undefined\""@,
        amf_laws::full(Value::Unsupported, depth) == "\"<unsupported>\""@,
        amf_laws::full(Value::Date(time), depth) == "{\"$date\":"@ + (if ieee::finite(time.bits) {
            time.text@
        } else {
            "null"@
        }) + "}"@,
        amf_laws::full(Value::Reference(reference), depth) == "{\"$ref\":"@ + text::decimal(
            reference as nat,
        ) + "}"@,
        amf_laws::full(Value::Amf3ObjectReference(id), depth) == "{\"$ref\":"@ + text::integer(
            id as int,
        ) + "}"@,
        amf_laws::full(Value::ByteArray(bytes), depth) == "{\"$bytes\":"@ + text::decimal(
            bytes@.len(),
        ) + "}"@,
{
    reveal_strlit("$date");
    reveal_strlit("$ref");
    reveal_strlit("$bytes");
    reveal_strlit("{\"$date\":");
    reveal_strlit("{\"$ref\":");
    reveal_strlit("{\"$bytes\":");
    lemma_brackets();
    let at = amf::plain_text(time);
    let (r, i, c) = (
        text::decimal(reference as nat),
        text::integer(id as int),
        text::decimal(bytes@.len()),
    );
    assert(amf::tagged("$date"@, at) =~= "{\"$date\":"@ + at + "}"@);
    assert(amf::tagged("$ref"@, r) =~= "{\"$ref\":"@ + r + "}"@);
    assert(amf::tagged("$ref"@, i) =~= "{\"$ref\":"@ + i + "}"@);
    assert(amf::tagged("$bytes"@, c) =~= "{\"$bytes\":"@ + c + "}"@);
}

/// A value that holds no other is written as a whole, wherever it stands and
/// whatever the limit.
pub proof fn law_scalars_are_never_cut(value: Value, depth: nat, start: nat, limit: nat)
    requires
        depth <= 24,
        value is Number || value is Integer || value is Bool || value is Text || value is Xml
            || value is Null || value is Undefined || value is Unsupported || value is Date
            || value is Reference || value is Amf3ObjectReference || value is ByteArray,
    ensures
        amf::cut(value, depth, start, limit).0 == amf_laws::full(value, depth),
{
}

/// Values nested more than 24 deep are replaced by a mark, those up to there
/// are not.
pub proof fn law_deep_values_are_marked(value: Value, depth: nat, start: nat, limit: nat)
    requires
        depth > 24,
    ensures
        amf_laws::full(value, depth) == "\"…depth\""@,
        amf::cut(value, depth, start, limit).0 == "\"…depth\""@,
{
}

/// Arrays list their values in order, each one deeper than the array.
pub proof fn law_arrays_are_lists(values: Vec<Value>, none: Vec<Element>, depth: nat)
    requires
        depth <= 24,
        none@.len() == 0,
    ensures
        ({
            let list = "["@ + text::listed(
                Seq::new(values@.len(), |i: int| amf_laws::full(values@[i], depth + 1)),
            ) + "]"@;
            &&& amf_laws::full(Value::StrictArray(values), depth) == list
            &&& amf_laws::full(Value::VectorObject(values), depth) == list
            &&& amf_laws::full(Value::EcmaArray(values, none), depth) == list
        }),
{
    lemma_brackets();
    reveal_with_fuel(amf_laws::full, 2);
    reveal_with_fuel(amf_laws::full_items, 2);
    let parts = Seq::new(values@.len(), |i: int| amf_laws::full(values@[i], depth + 1));
    let items = amf::element_items(values@);
    assert forall|i: int| 0 <= i < items.len() implies #[trigger] parts[i] == amf_laws::full_items(
        items,
        depth,
    )[i] by {
        let part = parts[i];
        assert(items[i].0 + part =~= part);
    }
    assert(amf_laws::full_items(items, depth) =~= parts);
}

/// Members are written as their names, a colon and their values.
pub open spec fn named(members: Seq<Element>, depth: nat) -> Seq<Seq<char>> {
    Seq::new(
        members.len(),
        |i: int|
            json::quoted(members[i].name@) + ":"@ + amf_laws::full(members[i].value, depth + 1),
    )
}

/// The elements of an array, written as members whose names are their places.
pub open spec fn numbered(values: Seq<Value>, depth: nat) -> Seq<Seq<char>> {
    Seq::new(
        values.len(),
        |i: int| "\""@ + text::decimal(i as nat) + "\":"@ + amf_laws::full(values[i], depth + 1),
    )
}

proof fn lemma_members(members: Seq<Element>, values: Seq<Value>, depth: nat)
    requires
        depth <= 24,
    ensures
        amf_laws::full_items(amf::member_items(members), depth) == named(members, depth),
        amf_laws::full_items(amf::dense_items(values), depth) == numbered(values, depth),
{
    lemma_brackets();
    reveal_with_fuel(amf_laws::full, 2);
    reveal_with_fuel(amf_laws::full_items, 2);
    let dense = amf::dense_items(values);
    assert forall|i: int| 0 <= i < dense.len() implies #[trigger] numbered(values, depth)[i]
        == amf_laws::full_items(dense, depth)[i] by {
        assert(json::literal(text::decimal(i as nat)) + seq![':'] =~= "\""@ + text::decimal(
            i as nat,
        ) + "\":"@);
    }
    assert(amf_laws::full_items(dense, depth) =~= numbered(values, depth));
    assert(amf_laws::full_items(amf::member_items(members), depth) =~= named(members, depth));
}

/// An array with an associative part is an object: the dense part under its
/// places, then the associative part under its names.
pub proof fn law_mixed_arrays_are_objects(
    dense: Vec<Value>,
    associative: Vec<Element>,
    depth: nat,
)
    requires
        depth <= 24,
        associative@.len() > 0,
    ensures
        amf_laws::full(Value::EcmaArray(dense, associative), depth) == "{"@ + text::listed(
            numbered(dense@, depth) + named(associative@, depth),
        ) + "}"@,
{
    lemma_brackets();
    lemma_members(associative@, dense@, depth);
    reveal_with_fuel(amf_laws::full, 2);
}

/// An object has its members in order, behind its class where it has one with
/// a name.
pub proof fn law_objects_name_their_class(members: Vec<Element>, class: String, depth: nat)
    requires
        depth <= 24,
    ensures
        ({
            let plain = "{"@ + text::listed(named(members@, depth)) + "}"@;
            let classed = "{"@ + text::listed(
                seq!["\"$class\":"@ + json::quoted(class@)] + named(members@, depth),
            ) + "}"@;
            &&& amf_laws::full(Value::Object(members, None), depth) == plain
            &&& amf_laws::full(Value::Object(members, Some(class)), depth) == if class@.len() > 0 {
                classed
            } else {
                plain
            }
        }),
{
    lemma_brackets();
    lemma_members(members@, Seq::empty(), depth);
    reveal_with_fuel(amf_laws::full, 2);
    reveal_strlit("$class");
    reveal_strlit("\"$class\":");
    assert(json::member("$class"@, json::quoted(class@)) =~= "\"$class\":"@ + json::quoted(class@));
    let none = Seq::<Seq<char>>::empty();
    assert(none + named(members@, depth) =~= named(members@, depth));
}

/// A custom object has its class where it has one, then its external members,
/// then the dynamic ones.
pub proof fn law_custom_objects_name_their_class(
    custom: Vec<Element>,
    members: Vec<Element>,
    class: String,
    depth: nat,
)
    requires
        depth <= 24,
    ensures
        amf_laws::full(Value::Custom(custom, members, None), depth) == "{"@ + text::listed(
            named(custom@, depth) + named(members@, depth),
        ) + "}"@,
        amf_laws::full(Value::Custom(custom, members, Some(class)), depth) == "{"@ + text::listed(
            seq!["\"$class\":"@ + json::quoted(class@)] + named(custom@, depth) + named(
                members@,
                depth,
            ),
        ) + "}"@,
{
    lemma_brackets();
    lemma_members(members@, Seq::empty(), depth);
    lemma_members(custom@, Seq::empty(), depth);
    reveal_with_fuel(amf_laws::full, 2);
    reveal_strlit("$class");
    reveal_strlit("\"$class\":");
    assert(json::member("$class"@, json::quoted(class@)) =~= "\"$class\":"@ + json::quoted(class@));
    let none = Seq::<Seq<char>>::empty();
    assert(none + named(custom@, depth) =~= named(custom@, depth));
}

/// A value of the newer format is written as itself, one deeper.
pub proof fn law_inner_values_are_deeper(inner: Box<Value>, depth: nat)
    requires
        depth <= 24,
    ensures
        amf_laws::full(Value::Amf3(inner), depth) == amf_laws::full(*inner, depth + 1),
{
    reveal_with_fuel(amf_laws::full, 2);
}

/// A dictionary is a list of pairs, the key before the value.
pub proof fn law_dictionaries_are_pairs(entries: Vec<Entry>, depth: nat)
    requires
        depth <= 24,
    ensures
        amf_laws::full(Value::Dictionary(entries), depth) == "["@ + text::listed(
            Seq::new(
                entries@.len(),
                |i: int|
                    "["@ + amf_laws::full(entries@[i].key, depth + 1) + ","@ + amf_laws::full(
                        entries@[i].value,
                        depth + 1,
                    ) + "]"@,
            ),
        ) + "]"@,
{
    lemma_brackets();
    reveal_with_fuel(amf_laws::full, 2);
    reveal_with_fuel(amf_laws::full_entries, 2);
    let pairs = Seq::new(
        entries@.len(),
        |i: int|
            "["@ + amf_laws::full(entries@[i].key, depth + 1) + ","@ + amf_laws::full(
                entries@[i].value,
                depth + 1,
            ) + "]"@,
    );
    assert forall|i: int| 0 <= i < entries@.len() implies #[trigger] pairs[i]
        == amf_laws::full_entries(entries@, depth)[i] by {
        lemma_pair(
            amf_laws::full(entries@[i].key, depth + 1),
            amf_laws::full(entries@[i].value, depth + 1),
        );
    }
    assert(amf_laws::full_entries(entries@, depth) =~= pairs);
}

proof fn lemma_pair(a: Seq<char>, b: Seq<char>)
    ensures
        json::array(seq![a, b]) == "["@ + a + ","@ + b + "]"@,
{
    lemma_brackets();
    reveal_with_fuel(text::joined, 3);
    assert(seq![a, b].drop_last() =~= seq![a]);
    assert(json::array(seq![a, b]) =~= "["@ + a + ","@ + b + "]"@);
}

/// Vectors of numbers list them in order, with a blank behind each comma.
pub proof fn law_vectors_are_spaced(
    ints: Vec<i32>,
    uints: Vec<u32>,
    doubles: Vec<Double>,
    depth: nat,
)
    requires
        depth <= 24,
    ensures
        amf_laws::full(Value::VectorInt(ints), depth) == "["@ + text::joined(
            Seq::new(ints@.len(), |i: int| text::integer(ints@[i] as int)),
            ", "@,
        ) + "]"@,
        amf_laws::full(Value::VectorUInt(uints), depth) == "["@ + text::joined(
            Seq::new(uints@.len(), |i: int| text::decimal(uints@[i] as nat)),
            ", "@,
        ) + "]"@,
        amf_laws::full(Value::VectorDouble(doubles), depth) == "["@ + text::joined(
            Seq::new(
                doubles@.len(),
                |i: int|
                    if ieee::finite(doubles@[i].bits) {
                        doubles@[i].text@
                    } else {
                        "null"@
                    },
            ),
            ", "@,
        ) + "]"@,
{
    lemma_brackets();
    assert(amf::int_parts(ints@) =~= Seq::new(
        ints@.len(),
        |i: int| text::integer(ints@[i] as int),
    ));
    assert(amf::uint_parts(uints@) =~= Seq::new(
        uints@.len(),
        |i: int| text::decimal(uints@[i] as nat),
    ));
    assert(amf::double_parts(doubles@) =~= Seq::new(
        doubles@.len(),
        |i: int|
            if ieee::finite(doubles@[i].bits) {
                doubles@[i].text@
            } else {
                "null"@
            },
    ));
}

/// A payload is written in full where that takes up at most 48 KiB. A larger
/// one is marked, and what is shown of it passes the limit and is a beginning
/// of the whole with nothing but closing brackets behind it.
pub proof fn law_large_payloads_are_marked(value: Value)
    ensures
        text::utf8_len(amf_laws::full(value, 0)) <= 49152 ==> amf::amf_json(value)
            == amf_laws::full(value, 0),
        text::utf8_len(amf_laws::full(value, 0)) > 49152 ==> exists|shown: Seq<char>| #[trigger]
            amf_laws::is_cut_off(shown, amf_laws::full(value, 0)) && text::utf8_len(shown) > 49152
                && text::utf8_len(shown) <= 49152 + amf_laws::path_len(value, 0)
                && amf::amf_json(value) == "{\"$truncated\":true,\"value\":"@ + shown + "}"@,
{
    amf_laws::law_small_payloads_are_complete(value);
    amf_laws::law_payloads_are_cut_at_the_end(value);
    amf_laws::law_the_limit_is_told(value, 0, 0, 49152);
    amf_laws::law_payloads_are_bounded(value);
    let shown = amf::cut(value, 0, 0, 49152).0;
    let a = json::member("$truncated"@, "true"@);
    let b = json::member("value"@, shown);
    reveal_with_fuel(text::joined, 3);
    assert(seq![a, b].drop_last() =~= seq![a]);
    reveal_strlit("$truncated");
    reveal_strlit("true");
    reveal_strlit("value");
    reveal_strlit("{\"$truncated\":true,\"value\":");
    reveal_strlit("}");
    assert(json::object(seq![a, b]) =~= "{\"$truncated\":true,\"value\":"@ + shown + "}"@);
}

/// How a reference describes itself.
pub proof fn law_references_describe_themselves(n: nat)
    ensures
        amf::reference_text(n) == "Reference("@ + text::decimal(n) + ")"@,
        forall|m: nat| #[trigger] amf::reference_text(m) == amf::reference_text(n) ==> m == n,
{
    assert forall|m: nat| #[trigger] amf::reference_text(m) == amf::reference_text(n) implies m
        == n by {
        let (a, b) = (amf::reference_text(m), amf::reference_text(n));
        reveal_strlit("Reference(");
        reveal_strlit(")");
        assert(a.subrange(10, a.len() - 1) =~= text::decimal(m));
        assert(b.subrange(10, b.len() - 1) =~= text::decimal(n));
        text::lemma_decimal_reads_back(m);
        text::lemma_decimal_reads_back(n);
    }
}

} // verus!
