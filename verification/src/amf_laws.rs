//! What the JSON rendering of AMF values keeps to: nothing is cut while it
//! fits, what is cut is cut at the end, and the result is JSON either way.

use crate::amf;
use crate::amf::{Entry, Item, Value, MAX_AMF_DEPTH, MAX_AMF_JSON_BYTES};
use crate::ieee;
use crate::json;
use crate::text;
use vstd::prelude::*;

verus! {

// ---------------------------------------------------------------------
// Renderings without a limit.
// ---------------------------------------------------------------------

/// A value at the given depth, written in full.
pub open spec fn full(value: Value, depth: nat) -> Seq<char>
    decreases (if depth <= 25 {
        26 - depth
    } else {
        0
    }), 1nat,
{
    if depth > MAX_AMF_DEPTH {
        "\"…depth\""@
    } else {
        match value {
            Value::StrictArray(values) => json::array(
                full_items(amf::element_items(values@), depth),
            ),
            Value::VectorObject(values) => json::array(
                full_items(amf::element_items(values@), depth),
            ),
            Value::EcmaArray(dense, associative) => if associative@.len() == 0 {
                json::array(full_items(amf::element_items(dense@), depth))
            } else {
                json::object(
                    full_items(amf::dense_items(dense@), depth) + full_items(
                        amf::member_items(associative@),
                        depth,
                    ),
                )
            },
            Value::Object(members, class) => json::object(
                amf::class_parts(class) + full_items(amf::member_items(members@), depth),
            ),
            Value::Custom(custom, members, class) => json::object(
                amf::custom_class_parts(class) + full_items(amf::member_items(custom@), depth)
                    + full_items(amf::member_items(members@), depth),
            ),
            Value::Amf3(inner) => full(*inner, depth + 1),
            Value::Dictionary(entries) => json::array(full_entries(entries@, depth)),
            Value::VectorInt(values) => amf::debug_list(amf::int_parts(values@)),
            Value::VectorUInt(values) => amf::debug_list(amf::uint_parts(values@)),
            Value::VectorDouble(values) => amf::debug_list(amf::double_parts(values@)),
            _ => amf::scalar_text(value),
        }
    }
}

/// Every item of a list, written in full.
pub open spec fn full_items(items: Seq<Item>, depth: nat) -> Seq<Seq<char>>
    decreases (if depth <= 25 {
        26 - depth
    } else {
        0
    }), 0nat,
{
    if depth > MAX_AMF_DEPTH {
        Seq::empty()
    } else {
        Seq::new(items.len(), |i: int| items[i].0 + full(items[i].1, depth + 1))
    }
}

/// Every pair of a dictionary, written in full.
pub open spec fn full_entries(entries: Seq<Entry>, depth: nat) -> Seq<Seq<char>>
    decreases (if depth <= 25 {
        26 - depth
    } else {
        0
    }), 0nat,
{
    if depth > MAX_AMF_DEPTH {
        Seq::empty()
    } else {
        Seq::new(
            entries.len(),
            |i: int|
                json::array(
                    seq![full(entries[i].key, depth + 1), full(entries[i].value, depth + 1)],
                ),
        )
    }
}

// ---------------------------------------------------------------------
// Nothing is cut while it fits.
// ---------------------------------------------------------------------

proof fn lemma_written_grows(parts: Seq<Seq<char>>, prefix: Seq<char>, tail: Seq<char>, led: bool)
    ensures
        text::utf8_len(amf::written(parts.push(prefix + tail), led)) == text::utf8_len(
            amf::written(parts.push(prefix), led),
        ) + text::utf8_len(tail),
        text::utf8_len(amf::written(parts, led)) <= text::utf8_len(
            amf::written(parts.push(prefix), led),
        ),
{
    amf::lemma_written_push(parts, prefix, tail, led);
    let comma = if led || parts.len() > 0 {
        seq![',']
    } else {
        Seq::<char>::empty()
    };
    text::lemma_utf8_len_concat(amf::written(parts.push(prefix), led), tail);
    text::lemma_utf8_len_concat(amf::written(parts, led) + comma, prefix);
    text::lemma_utf8_len_concat(amf::written(parts, led), comma);
}

proof fn lemma_cut_full(value: Value, depth: nat, start: nat, limit: nat)
    ensures
        amf::cut(value, depth, start, limit).1 ==> amf::cut(value, depth, start, limit).0 == full(
            value,
            depth,
        ),
        amf::cut(value, depth, start, limit).1 <==> start + text::utf8_len(full(value, depth))
            <= limit,
    decreases (if depth <= 25 {
        26 - depth
    } else {
        0
    }), 1nat, 0nat,
{
    if depth <= MAX_AMF_DEPTH {
        match value {
            Value::StrictArray(values) => lemma_array_full(
                amf::element_items(values@),
                depth,
                start,
                limit,
            ),
            Value::VectorObject(values) => lemma_array_full(
                amf::element_items(values@),
                depth,
                start,
                limit,
            ),
            Value::EcmaArray(dense, associative) => {
                if associative@.len() == 0 {
                    lemma_array_full(amf::element_items(dense@), depth, start, limit)
                } else {
                    let none = Seq::<Seq<char>>::empty();
                    let a = full_items(amf::dense_items(dense@), depth);
                    lemma_object_full(
                        none,
                        amf::dense_items(dense@),
                        amf::member_items(associative@),
                        depth,
                        start,
                        limit,
                    );
                    assert(none + a =~= a);
                }
            },
            Value::Object(members, class) => {
                let none = Seq::<Item>::empty();
                lemma_object_full(
                    amf::class_parts(class),
                    none,
                    amf::member_items(members@),
                    depth,
                    start,
                    limit,
                );
                assert(amf::class_parts(class) + full_items(none, depth) =~= amf::class_parts(
                    class,
                ));
            },
            Value::Custom(custom, members, class) => lemma_object_full(
                amf::custom_class_parts(class),
                amf::member_items(custom@),
                amf::member_items(members@),
                depth,
                start,
                limit,
            ),
            Value::Amf3(inner) => lemma_cut_full(*inner, depth + 1, start, limit),
            Value::Dictionary(entries) => {
                let base = start + text::utf8_len(seq!['[']);
                let all = full_entries(entries@, depth);
                lemma_entries_full(entries@, entries@.len(), depth, base, limit);
                assert(all.take(entries@.len() as int) =~= all);
                lemma_enclosed_len('[', all, ']');
            },
            Value::VectorInt(values) => lemma_vector_full(amf::int_parts(values@), start, limit),
            Value::VectorUInt(values) => lemma_vector_full(amf::uint_parts(values@), start, limit),
            Value::VectorDouble(values) => lemma_vector_full(
                amf::double_parts(values@),
                start,
                limit,
            ),
            _ => {},
        }
    }
}

/// What fewer numbers take up.
proof fn lemma_spaced_grows(parts: Seq<Seq<char>>, count: int)
    requires
        0 <= count <= parts.len(),
    ensures
        text::utf8_len(amf::spaced(parts.take(count))) <= text::utf8_len(amf::spaced(parts)),
        exists|rest: Seq<char>| amf::spaced(parts) == #[trigger] (amf::spaced(parts.take(count)) + rest),
{
    let sep = seq![',', ' '];
    let (a, b) = (parts.take(count), parts.skip(count));
    assert(parts =~= a + b);
    text::lemma_joined_concat(a, b, sep);
    let rest = if b.len() == 0 {
        Seq::<char>::empty()
    } else if a.len() == 0 {
        amf::spaced(b)
    } else {
        sep + amf::spaced(b)
    };
    assert(amf::spaced(parts) =~= amf::spaced(a) + rest);
    text::lemma_utf8_len_concat(amf::spaced(a), rest);
}

proof fn lemma_vector_full(parts: Seq<Seq<char>>, start: nat, limit: nat)
    ensures
        ({
            let (written, ok) = amf::cut_vector(parts, start, limit);
            let whole = amf::debug_list(parts);
            &&& ok ==> written == whole
            &&& start + text::utf8_len(whole) <= limit ==> ok
        }),
{
    let base = start + text::utf8_len(seq!['[']);
    let shown = amf::cut_numbers(parts, parts.len(), base, limit).0;
    amf::lemma_cut_numbers(parts, parts.len(), base, limit);
    assert(parts.take(parts.len() as int) =~= parts);
    lemma_spaced_grows(parts, shown.len() as int);
    text::lemma_utf8_len_concat(seq!['['] + amf::spaced(parts), seq![']']);
    text::lemma_utf8_len_concat(seq!['['], amf::spaced(parts));
}

proof fn lemma_enclosed_len(open: char, parts: Seq<Seq<char>>, close: char)
    ensures
        text::utf8_len(seq![open] + text::listed(parts) + seq![close]) >= text::utf8_len(
            seq![open],
        ) + text::utf8_len(amf::written(parts, false)),
{
    text::lemma_utf8_len_concat(seq![open] + text::listed(parts), seq![close]);
    text::lemma_utf8_len_concat(seq![open], text::listed(parts));
}

proof fn lemma_array_full(items: Seq<Item>, depth: nat, start: nat, limit: nat)
    requires
        depth <= MAX_AMF_DEPTH,
    ensures
        ({
            let (written, ok) = amf::cut_array(items, depth, start, limit);
            let whole = json::array(full_items(items, depth));
            &&& ok ==> written == whole
            &&& start + text::utf8_len(whole) <= limit ==> ok
        }),
    decreases 26 - depth, 0nat, items.len() + 1,
{
    let base = start + text::utf8_len(seq!['[']);
    let all = full_items(items, depth);
    lemma_items_full(items, items.len(), depth, base, false, limit);
    assert(all.take(items.len() as int) =~= all);
    lemma_enclosed_len('[', all, ']');
}

proof fn lemma_object_full(
    class: Seq<Seq<char>>,
    first: Seq<Item>,
    second: Seq<Item>,
    depth: nat,
    start: nat,
    limit: nat,
)
    requires
        depth <= MAX_AMF_DEPTH,
    ensures
        ({
            let (written, ok) = amf::cut_object(class, first, second, depth, start, limit);
            let whole = json::object(class + full_items(first, depth) + full_items(second, depth));
            &&& ok ==> written == whole
            &&& start + text::utf8_len(whole) <= limit ==> ok
        }),
    decreases 26 - depth, 0nat, first.len() + second.len() + 1,
{
    let head = seq!['{'] + text::listed(class);
    let base = start + text::utf8_len(head);
    let led = class.len() > 0;
    let a = full_items(first, depth);
    let b = full_items(second, depth);
    let more = led || first.len() > 0;
    lemma_items_full(first, first.len(), depth, base, led, limit);
    lemma_items_full(
        second,
        second.len(),
        depth,
        base + text::utf8_len(amf::written(a, led)),
        more,
        limit,
    );
    assert(a.take(first.len() as int) =~= a);
    assert(b.take(second.len() as int) =~= b);
    amf::lemma_object_text(class, a, b);
    let (x, y) = (amf::written(a, led), amf::written(b, more));
    text::lemma_utf8_len_concat(head, x);
    text::lemma_utf8_len_concat(head + x, y);
    text::lemma_utf8_len_concat(head + x + y, seq!['}']);
}

proof fn lemma_items_full(
    items: Seq<Item>,
    count: nat,
    depth: nat,
    start: nat,
    led: bool,
    limit: nat,
)
    requires
        depth <= MAX_AMF_DEPTH,
        count <= items.len(),
    ensures
        ({
            let (parts, ok) = amf::cut_items(items, count, depth, start, led, limit);
            let whole = full_items(items, depth).take(count as int);
            &&& ok ==> parts == whole
            &&& start + text::utf8_len(amf::written(whole, led)) <= limit ==> ok
        }),
    decreases 26 - depth, 0nat, count,
{
    let all = full_items(items, depth);
    if count > 0 {
        let last = (count - 1) as nat;
        lemma_items_full(items, last, depth, start, led, limit);
        let (prefix, value) = items[last as int];
        let whole = all.take(last as int);
        let tail = full(value, depth + 1);
        assert(all.take(count as int) =~= whole.push(prefix + tail));
        lemma_written_grows(whole, prefix, tail, led);
        lemma_cut_full(
            value,
            depth + 1,
            start + text::utf8_len(amf::written(whole.push(prefix), led)),
            limit,
        );
    } else {
        assert(all.take(0) =~= Seq::empty());
    }
}

proof fn lemma_entries_full(entries: Seq<Entry>, count: nat, depth: nat, start: nat, limit: nat)
    requires
        depth <= MAX_AMF_DEPTH,
        count <= entries.len(),
    ensures
        ({
            let (parts, ok) = amf::cut_entries(entries, count, depth, start, limit);
            let whole = full_entries(entries, depth).take(count as int);
            &&& ok ==> parts == whole
            &&& start + text::utf8_len(amf::written(whole, false)) <= limit ==> ok
        }),
    decreases 26 - depth, 0nat, count,
{
    let all = full_entries(entries, depth);
    if count > 0 {
        let last = (count - 1) as nat;
        lemma_entries_full(entries, last, depth, start, limit);
        let whole = all.take(last as int);
        let key = full(entries[last as int].key, depth + 1);
        let value = full(entries[last as int].value, depth + 1);
        let open = seq!['['];
        let mid = open + key + seq![','];
        assert(all.take(count as int) =~= whole.push(json::array(seq![key, value])));
        text::lemma_joined_push(seq![key], seq![','], value);
        assert(seq![key].push(value) =~= seq![key, value]);
        assert(json::array(seq![key, value]) =~= mid + (value + seq![']']));
        lemma_written_grows(whole, mid, value + seq![']'], false);
        text::lemma_utf8_len_concat(value, seq![']']);
        assert(mid =~= open + (key + seq![',']));
        lemma_written_grows(whole, open, key + seq![','], false);
        text::lemma_utf8_len_concat(key, seq![',']);
        lemma_cut_full(
            entries[last as int].key,
            depth + 1,
            start + text::utf8_len(amf::written(whole.push(open), false)),
            limit,
        );
        lemma_cut_full(
            entries[last as int].value,
            depth + 1,
            start + text::utf8_len(amf::written(whole.push(mid), false)),
            limit,
        );
    } else {
        assert(all.take(0) =~= Seq::empty());
    }
}

/// A value is written in full, and not marked as cut off, exactly where its
/// full rendering takes up at most [`MAX_AMF_JSON_BYTES`].
pub proof fn law_small_payloads_are_complete(value: Value)
    ensures
        text::utf8_len(full(value, 0)) <= MAX_AMF_JSON_BYTES <==> amf::cut(
            value,
            0,
            0,
            MAX_AMF_JSON_BYTES as nat,
        ).1,
        text::utf8_len(full(value, 0)) <= MAX_AMF_JSON_BYTES ==> amf::amf_json(value) == full(
            value,
            0,
        ),
{
    lemma_cut_full(value, 0, 0, MAX_AMF_JSON_BYTES as nat);
}

/// The values of a list, written in full.
pub open spec fn full_list(values: Seq<Value>) -> Seq<Seq<char>> {
    values.map_values(|value: Value| full(value, 0))
}

proof fn lemma_list_full(values: Seq<Value>, count: nat)
    requires
        count <= values.len(),
    ensures
        ({
            let (parts, ok) = amf::cut_list(values, count);
            let whole = full_list(values).take(count as int);
            &&& ok ==> parts == whole
            &&& ok && count > 0 ==> text::utf8_len(seq!['['] + text::listed(whole))
                <= MAX_AMF_JSON_BYTES
            &&& text::utf8_len(seq!['['] + text::listed(whole)) <= MAX_AMF_JSON_BYTES ==> ok
        }),
    decreases count,
{
    let all = full_list(values);
    if count > 0 {
        let last = (count - 1) as nat;
        lemma_list_full(values, last);
        let e = Seq::<char>::empty();
        let whole = all.take(last as int);
        let tail = full(values[last as int], 0);
        assert(e + tail =~= tail);
        assert(all.take(count as int) =~= whole.push(tail));
        lemma_written_grows(whole, e, tail, false);
        text::lemma_utf8_len_concat(seq!['['], text::listed(whole));
        text::lemma_utf8_len_concat(seq!['['], text::listed(whole.push(e)));
        text::lemma_utf8_len_concat(seq!['['], text::listed(whole.push(tail)));
        lemma_cut_full(
            values[last as int],
            0,
            text::utf8_len(seq!['['] + text::listed(whole.push(e))),
            MAX_AMF_JSON_BYTES as nat,
        );
    } else {
        assert(all.take(0) =~= Seq::empty());
    }
}

/// A list of values is written in full, without the mark, exactly where its
/// full rendering up to the closing bracket takes up at most
/// [`MAX_AMF_JSON_BYTES`].
pub proof fn law_small_lists_are_complete(values: Seq<Value>)
    ensures
        text::utf8_len(seq!['['] + text::listed(full_list(values))) <= MAX_AMF_JSON_BYTES
            <==> amf::cut_list(values, values.len()).1,
        text::utf8_len(seq!['['] + text::listed(full_list(values))) <= MAX_AMF_JSON_BYTES
            ==> amf::amf_list_json(values) == json::array(full_list(values)),
{
    let all = full_list(values);
    lemma_list_full(values, values.len());
    assert(all.take(values.len() as int) =~= all);
    if values.len() == 0 {
        assert(seq!['['] + text::listed(all) =~= seq!['[']);
        assert(text::utf8_len(seq!['[']) <= MAX_AMF_JSON_BYTES) by {
            reveal_with_fuel(vstd::utf8::encode_utf8, 2);
        }
    }
}

// ---------------------------------------------------------------------
// What is cut is cut at the end.
// ---------------------------------------------------------------------

/// `shown` is a beginning of `whole` with nothing but closing brackets
/// behind it.
pub open spec fn is_cut_off(shown: Seq<char>, whole: Seq<char>) -> bool {
    exists|kept: Seq<char>, closing: Seq<char>| #[trigger]
        is_kept_and_closed(shown, whole, kept, closing)
}

pub open spec fn is_kept_and_closed(
    shown: Seq<char>,
    whole: Seq<char>,
    kept: Seq<char>,
    closing: Seq<char>,
) -> bool {
    &&& shown == kept + closing
    &&& kept.len() <= whole.len()
    &&& kept == whole.take(kept.len() as int)
    &&& forall|i: int|
        0 <= i < closing.len() ==> (#[trigger] closing[i] == ']' || closing[i] == '}')
}

proof fn lemma_uncut(whole: Seq<char>)
    ensures
        is_cut_off(whole, whole),
{
    let e = Seq::<char>::empty();
    assert(whole =~= whole + e);
    assert(whole =~= whole.take(whole.len() as int));
    assert(is_kept_and_closed(whole, whole, whole, e));
}

/// The same text before both, a closing bracket behind the cut one, and
/// anything behind the other.
proof fn lemma_cut_around(
    before: Seq<char>,
    shown: Seq<char>,
    whole: Seq<char>,
    close: char,
    rest: Seq<char>,
)
    requires
        is_cut_off(shown, whole),
        close == ']' || close == '}',
    ensures
        is_cut_off(before + shown + seq![close], before + whole + rest),
{
    let (kept, closing) = choose|kept: Seq<char>, closing: Seq<char>| #[trigger]
        is_kept_and_closed(shown, whole, kept, closing);
    let k = before + kept;
    let c = closing.push(close);
    assert(before + shown + seq![close] =~= k + c);
    assert(k =~= (before + whole + rest).take(k.len() as int));
    assert(is_kept_and_closed(before + shown + seq![close], before + whole + rest, k, c));
}

/// A list of which the last part that is shown is cut off.
proof fn lemma_list_cut(
    shown: Seq<Seq<char>>,
    whole: Seq<Seq<char>>,
    open: char,
    close: char,
)
    requires
        0 < shown.len() <= whole.len(),
        forall|i: int| 0 <= i < shown.len() - 1 ==> #[trigger] shown[i] == whole[i],
        is_cut_off(shown.last(), whole[shown.len() - 1]),
        close == ']' || close == '}',
    ensures
        is_cut_off(
            seq![open] + text::listed(shown) + seq![close],
            seq![open] + text::listed(whole) + seq![close],
        ),
{
    let k = (shown.len() - 1) as int;
    let front = whole.take(k);
    let back = whole.skip(k + 1);
    assert(shown =~= front.push(shown.last()));
    assert(whole =~= front.push(whole[k]) + back);
    text::lemma_joined_push(front, seq![','], shown.last());
    text::lemma_joined_push(front, seq![','], whole[k]);
    text::lemma_joined_concat(front.push(whole[k]), back, seq![',']);
    let lead = if front.len() == 0 {
        Seq::<char>::empty()
    } else {
        text::listed(front) + seq![',']
    };
    let rest = (if back.len() == 0 {
        Seq::<char>::empty()
    } else {
        seq![','] + text::listed(back)
    }) + seq![close];
    let before = seq![open] + lead;
    assert(seq![open] + text::listed(shown) + seq![close] =~= before + shown.last() + seq![close]);
    assert(seq![open] + text::listed(whole) + seq![close] =~= before + whole[k] + rest);
    lemma_cut_around(before, shown.last(), whole[k], close, rest);
}

/// The parts written of a list are those of the full list, but for the last
/// one, which may be cut off.
spec fn is_cut_list(parts: Seq<Seq<char>>, whole: Seq<Seq<char>>) -> bool {
    &&& parts.len() <= whole.len()
    &&& forall|i: int| 0 <= i < parts.len() - 1 ==> #[trigger] parts[i] == whole[i]
    &&& parts.len() > 0 ==> is_cut_off(parts.last(), whole[parts.len() - 1])
}

proof fn lemma_cut_cuts(value: Value, depth: nat, start: nat, limit: nat)
    ensures
        is_cut_off(amf::cut(value, depth, start, limit).0, full(value, depth)),
    decreases (if depth <= 25 {
        26 - depth
    } else {
        0
    }), 1nat, 0nat,
{
    let (written, ok) = amf::cut(value, depth, start, limit);
    lemma_uncut(full(value, depth));
    lemma_cut_full(value, depth, start, limit);
    if !ok && depth <= MAX_AMF_DEPTH {
        match value {
            Value::StrictArray(values) => lemma_array_cuts(
                amf::element_items(values@),
                depth,
                start,
                limit,
            ),
            Value::VectorObject(values) => lemma_array_cuts(
                amf::element_items(values@),
                depth,
                start,
                limit,
            ),
            Value::EcmaArray(dense, associative) => {
                if associative@.len() == 0 {
                    lemma_array_cuts(amf::element_items(dense@), depth, start, limit)
                } else {
                    let none = Seq::<Seq<char>>::empty();
                    let a = full_items(amf::dense_items(dense@), depth);
                    assert(none + a =~= a);
                    lemma_object_cuts(
                        none,
                        amf::dense_items(dense@),
                        amf::member_items(associative@),
                        depth,
                        start,
                        limit,
                    )
                }
            },
            Value::Object(members, class) => {
                let none = Seq::<Item>::empty();
                assert(amf::class_parts(class) + full_items(none, depth) =~= amf::class_parts(
                    class,
                ));
                lemma_object_cuts(
                    amf::class_parts(class),
                    none,
                    amf::member_items(members@),
                    depth,
                    start,
                    limit,
                )
            },
            Value::Custom(custom, members, class) => lemma_object_cuts(
                amf::custom_class_parts(class),
                amf::member_items(custom@),
                amf::member_items(members@),
                depth,
                start,
                limit,
            ),
            Value::Amf3(inner) => lemma_cut_cuts(*inner, depth + 1, start, limit),
            Value::Dictionary(entries) => {
                let base = start + text::utf8_len(seq!['[']);
                let all = full_entries(entries@, depth);
                let (parts, kept) = amf::cut_entries(entries@, entries@.len(), depth, base, limit);
                lemma_entries_cut(entries@, entries@.len(), depth, base, limit);
                if parts.len() > 0 {
                    lemma_list_cut(parts, all, '[', ']');
                } else {
                    assert(entries@.len() == 0);
                    assert(all =~= parts);
                }
            },
            Value::VectorInt(values) => lemma_vector_cuts(amf::int_parts(values@), start, limit),
            Value::VectorUInt(values) => lemma_vector_cuts(amf::uint_parts(values@), start, limit),
            Value::VectorDouble(values) => lemma_vector_cuts(
                amf::double_parts(values@),
                start,
                limit,
            ),
            _ => {},
        }
    }
}

proof fn lemma_vector_cuts(parts: Seq<Seq<char>>, start: nat, limit: nat)
    ensures
        is_cut_off(amf::cut_vector(parts, start, limit).0, amf::debug_list(parts)),
{
    let base = start + text::utf8_len(seq!['[']);
    let shown = amf::cut_numbers(parts, parts.len(), base, limit).0;
    amf::lemma_cut_numbers(parts, parts.len(), base, limit);
    lemma_spaced_grows(parts, shown.len() as int);
    let rest = choose|rest: Seq<char>|
        amf::spaced(parts) == #[trigger] (amf::spaced(shown) + rest);
    let kept = seq!['['] + amf::spaced(shown);
    let whole = amf::debug_list(parts);
    assert(whole =~= kept + rest + seq![']']);
    assert(whole.take(kept.len() as int) =~= kept);
    assert(is_kept_and_closed(amf::debug_list(shown), whole, kept, seq![']']));
}

proof fn lemma_array_cuts(items: Seq<Item>, depth: nat, start: nat, limit: nat)
    requires
        depth <= MAX_AMF_DEPTH,
    ensures
        is_cut_off(
            amf::cut_array(items, depth, start, limit).0,
            json::array(full_items(items, depth)),
        ),
    decreases 26 - depth, 0nat, items.len() + 1,
{
    let base = start + text::utf8_len(seq!['[']);
    let all = full_items(items, depth);
    let parts = amf::cut_items(items, items.len(), depth, base, false, limit).0;
    lemma_items_cut(items, items.len(), depth, base, false, limit);
    amf::lemma_cut_items_len(items, items.len(), depth, base, false, limit);
    if parts.len() > 0 {
        lemma_list_cut(parts, all, '[', ']');
    } else {
        assert(all =~= parts);
        lemma_uncut(json::array(all));
    }
}

proof fn lemma_object_cuts(
    class: Seq<Seq<char>>,
    first: Seq<Item>,
    second: Seq<Item>,
    depth: nat,
    start: nat,
    limit: nat,
)
    requires
        depth <= MAX_AMF_DEPTH,
    ensures
        is_cut_off(
            amf::cut_object(class, first, second, depth, start, limit).0,
            json::object(class + full_items(first, depth) + full_items(second, depth)),
        ),
    decreases 26 - depth, 0nat, first.len() + second.len() + 1,
{
    let base = start + text::utf8_len(seq!['{'] + text::listed(class));
    let led = class.len() > 0;
    let a = full_items(first, depth);
    let b = full_items(second, depth);
    let all = class + a + b;
    let (parts, ok) = amf::cut_items(first, first.len(), depth, base, led, limit);
    lemma_items_cut(first, first.len(), depth, base, led, limit);
    lemma_items_full(first, first.len(), depth, base, led, limit);
    amf::lemma_cut_items_len(first, first.len(), depth, base, led, limit);
    if ok {
        assert(a.take(first.len() as int) =~= a);
        let next = base + text::utf8_len(amf::written(parts, led));
        let more = amf::cut_items(
            second,
            second.len(),
            depth,
            next,
            led || first.len() > 0,
            limit,
        ).0;
        lemma_items_cut(second, second.len(), depth, next, led || first.len() > 0, limit);
        amf::lemma_cut_items_len(
            second,
            second.len(),
            depth,
            next,
            led || first.len() > 0,
            limit,
        );
        let shown = class + parts + more;
        if more.len() > 0 {
            assert(shown.last() == more.last());
            assert(all[shown.len() - 1] == b[more.len() - 1]);
            lemma_list_cut(shown, all, '{', '}');
        } else {
            assert(b =~= more);
            lemma_uncut(json::object(all));
        }
    } else {
        let shown = class + parts;
        assert(parts.len() > 0);
        assert(shown.last() == parts.last());
        assert(all[shown.len() - 1] == a[parts.len() - 1]);
        lemma_list_cut(shown, all, '{', '}');
    }
}

proof fn lemma_items_cut(
    items: Seq<Item>,
    count: nat,
    depth: nat,
    start: nat,
    led: bool,
    limit: nat,
)
    requires
        depth <= MAX_AMF_DEPTH,
        count <= items.len(),
    ensures
        is_cut_list(
            amf::cut_items(items, count, depth, start, led, limit).0,
            full_items(items, depth),
        ),
        !amf::cut_items(items, count, depth, start, led, limit).1 ==> amf::cut_items(
            items,
            count,
            depth,
            start,
            led,
            limit,
        ).0.len() > 0,
    decreases 26 - depth, 0nat, count,
{
    let all = full_items(items, depth);
    if count > 0 {
        let last = (count - 1) as nat;
        lemma_items_cut(items, last, depth, start, led, limit);
        lemma_items_full(items, last, depth, start, led, limit);
        let (parts, ok) = amf::cut_items(items, last, depth, start, led, limit);
        if ok {
            let (prefix, value) = items[last as int];
            let next = start + text::utf8_len(amf::written(parts.push(prefix), led));
            let part = amf::cut(value, depth + 1, next, limit).0;
            lemma_cut_cuts(value, depth + 1, next, limit);
            lemma_cut_behind(prefix, part, full(value, depth + 1));
            assert(all[last as int] == prefix + full(value, depth + 1));
        }
    }
}

proof fn lemma_cut_behind(before: Seq<char>, shown: Seq<char>, whole: Seq<char>)
    requires
        is_cut_off(shown, whole),
    ensures
        is_cut_off(before + shown, before + whole),
{
    let (kept, closing) = choose|kept: Seq<char>, closing: Seq<char>| #[trigger]
        is_kept_and_closed(shown, whole, kept, closing);
    let k = before + kept;
    assert(before + shown =~= k + closing);
    assert(k =~= (before + whole).take(k.len() as int));
    assert(is_kept_and_closed(before + shown, before + whole, k, closing));
}

proof fn lemma_entries_cut(entries: Seq<Entry>, count: nat, depth: nat, start: nat, limit: nat)
    requires
        depth <= MAX_AMF_DEPTH,
        count <= entries.len(),
    ensures
        is_cut_list(
            amf::cut_entries(entries, count, depth, start, limit).0,
            full_entries(entries, depth),
        ),
        count > 0 ==> amf::cut_entries(entries, count, depth, start, limit).0.len() > 0,
    decreases 26 - depth, 0nat, count,
{
    let all = full_entries(entries, depth);
    if count > 0 {
        let last = (count - 1) as nat;
        lemma_entries_cut(entries, last, depth, start, limit);
        lemma_entries_full(entries, last, depth, start, limit);
        let (parts, ok) = amf::cut_entries(entries, last, depth, start, limit);
        if ok {
            let entry = entries[last as int];
            let pair = seq![full(entry.key, depth + 1), full(entry.value, depth + 1)];
            assert(all[last as int] == json::array(pair));
            let open = start + text::utf8_len(amf::written(parts.push(seq!['[']), false));
            lemma_cut_cuts(entry.key, depth + 1, open, limit);
            lemma_cut_full(entry.key, depth + 1, open, limit);
            let (key, ok) = amf::cut(entry.key, depth + 1, open, limit);
            if ok {
                let mid = start + text::utf8_len(
                    amf::written(parts.push(seq!['['] + key + seq![',']), false),
                );
                lemma_cut_cuts(entry.value, depth + 1, mid, limit);
                let value = amf::cut(entry.value, depth + 1, mid, limit).0;
                lemma_list_cut(seq![key, value], pair, '[', ']');
            } else {
                lemma_list_cut(seq![key], pair, '[', ']');
            }
        }
    }
}

/// A value that passes the limit is shown up to some point as it would be in
/// full, and from there on only closed.
pub proof fn law_payloads_are_cut_at_the_end(value: Value)
    ensures
        is_cut_off(
            amf::cut(value, 0, 0, MAX_AMF_JSON_BYTES as nat).0,
            full(value, 0),
        ),
{
    lemma_cut_cuts(value, 0, 0, MAX_AMF_JSON_BYTES as nat);
}

// ---------------------------------------------------------------------
// The answer tells whether the limit was kept.
// ---------------------------------------------------------------------

proof fn lemma_cut_over(value: Value, depth: nat, start: nat, limit: nat)
    requires
        !amf::cut(value, depth, start, limit).1,
    ensures
        start + text::utf8_len(amf::cut(value, depth, start, limit).0) > limit,
    decreases (if depth <= 25 {
        26 - depth
    } else {
        0
    }), 1nat, 0nat,
{
    if depth <= MAX_AMF_DEPTH {
        match value {
            Value::StrictArray(values) => lemma_array_over(
                amf::element_items(values@),
                depth,
                start,
                limit,
            ),
            Value::VectorObject(values) => lemma_array_over(
                amf::element_items(values@),
                depth,
                start,
                limit,
            ),
            Value::EcmaArray(dense, associative) => {
                if associative@.len() == 0 {
                    lemma_array_over(amf::element_items(dense@), depth, start, limit)
                } else {
                    lemma_object_over(
                        Seq::empty(),
                        amf::dense_items(dense@),
                        amf::member_items(associative@),
                        depth,
                        start,
                        limit,
                    )
                }
            },
            Value::Object(members, class) => lemma_object_over(
                amf::class_parts(class),
                Seq::empty(),
                amf::member_items(members@),
                depth,
                start,
                limit,
            ),
            Value::Custom(custom, members, class) => lemma_object_over(
                amf::custom_class_parts(class),
                amf::member_items(custom@),
                amf::member_items(members@),
                depth,
                start,
                limit,
            ),
            Value::Amf3(inner) => {
                if !amf::cut(*inner, depth + 1, start, limit).1 {
                    lemma_cut_over(*inner, depth + 1, start, limit);
                }
            },
            Value::Dictionary(entries) => {
                let base = start + text::utf8_len(seq!['[']);
                let (parts, ok) = amf::cut_entries(entries@, entries@.len(), depth, base, limit);
                if !ok {
                    lemma_entries_over(entries@, entries@.len(), depth, base, limit);
                    lemma_enclosed_len('[', parts, ']');
                }
            },
            Value::VectorInt(values) => lemma_vector_over(amf::int_parts(values@), start, limit),
            Value::VectorUInt(values) => lemma_vector_over(amf::uint_parts(values@), start, limit),
            Value::VectorDouble(values) => lemma_vector_over(
                amf::double_parts(values@),
                start,
                limit,
            ),
            _ => {},
        }
    }
}

proof fn lemma_vector_over(parts: Seq<Seq<char>>, start: nat, limit: nat)
    ensures
        !amf::cut_vector(parts, start, limit).1 ==> start + text::utf8_len(
            amf::cut_vector(parts, start, limit).0,
        ) > limit,
{
    let base = start + text::utf8_len(seq!['[']);
    let shown = amf::cut_numbers(parts, parts.len(), base, limit).0;
    amf::lemma_cut_numbers(parts, parts.len(), base, limit);
    text::lemma_utf8_len_concat(seq!['['] + amf::spaced(shown), seq![']']);
    text::lemma_utf8_len_concat(seq!['['], amf::spaced(shown));
}

proof fn lemma_array_over(items: Seq<Item>, depth: nat, start: nat, limit: nat)
    requires
        depth <= MAX_AMF_DEPTH,
    ensures
        !amf::cut_array(items, depth, start, limit).1 ==> start + text::utf8_len(
            amf::cut_array(items, depth, start, limit).0,
        ) > limit,
    decreases 26 - depth, 0nat, items.len() + 1,
{
    let base = start + text::utf8_len(seq!['[']);
    let (parts, ok) = amf::cut_items(items, items.len(), depth, base, false, limit);
    if !ok {
        lemma_items_over(items, items.len(), depth, base, false, limit);
        lemma_enclosed_len('[', parts, ']');
    }
}

proof fn lemma_object_over(
    class: Seq<Seq<char>>,
    first: Seq<Item>,
    second: Seq<Item>,
    depth: nat,
    start: nat,
    limit: nat,
)
    requires
        depth <= MAX_AMF_DEPTH,
    ensures
        !amf::cut_object(class, first, second, depth, start, limit).1 ==> start + text::utf8_len(
            amf::cut_object(class, first, second, depth, start, limit).0,
        ) > limit,
    decreases 26 - depth, 0nat, first.len() + second.len() + 1,
{
    let head = seq!['{'] + text::listed(class);
    let base = start + text::utf8_len(head);
    let led = class.len() > 0;
    let (parts, ok) = amf::cut_items(first, first.len(), depth, base, led, limit);
    let x = amf::written(parts, led);
    text::lemma_utf8_len_concat(head, x);
    amf::lemma_cut_items_len(first, first.len(), depth, base, led, limit);
    if ok {
        let next = base + text::utf8_len(x);
        let (more, kept) = amf::cut_items(
            second,
            second.len(),
            depth,
            next,
            led || first.len() > 0,
            limit,
        );
        if !kept {
            let y = amf::written(more, led || parts.len() > 0);
            lemma_items_over(second, second.len(), depth, next, led || first.len() > 0, limit);
            amf::lemma_object_text(class, parts, more);
            text::lemma_utf8_len_concat(head + x, y);
            text::lemma_utf8_len_concat(head + x + y, seq!['}']);
        }
    } else {
        lemma_items_over(first, first.len(), depth, base, led, limit);
        amf::lemma_object_text(class, parts, Seq::empty());
        text::lemma_utf8_len_concat(head + x, seq!['}']);
    }
}

proof fn lemma_items_over(
    items: Seq<Item>,
    count: nat,
    depth: nat,
    start: nat,
    led: bool,
    limit: nat,
)
    requires
        depth <= MAX_AMF_DEPTH,
        count <= items.len(),
        !amf::cut_items(items, count, depth, start, led, limit).1,
    ensures
        start + text::utf8_len(
            amf::written(amf::cut_items(items, count, depth, start, led, limit).0, led),
        ) > limit,
    decreases 26 - depth, 0nat, count,
{
    let last = (count - 1) as nat;
    let (parts, ok) = amf::cut_items(items, last, depth, start, led, limit);
    if ok {
        let (prefix, value) = items[last as int];
        let next = start + text::utf8_len(amf::written(parts.push(prefix), led));
        lemma_cut_over(value, depth + 1, next, limit);
        lemma_written_grows(parts, prefix, amf::cut(value, depth + 1, next, limit).0, led);
    } else {
        lemma_items_over(items, last, depth, start, led, limit);
    }
}

proof fn lemma_entries_over(entries: Seq<Entry>, count: nat, depth: nat, start: nat, limit: nat)
    requires
        depth <= MAX_AMF_DEPTH,
        count <= entries.len(),
        !amf::cut_entries(entries, count, depth, start, limit).1,
    ensures
        start + text::utf8_len(
            amf::written(amf::cut_entries(entries, count, depth, start, limit).0, false),
        ) > limit,
    decreases 26 - depth, 0nat, count,
{
    let last = (count - 1) as nat;
    let (parts, ok) = amf::cut_entries(entries, last, depth, start, limit);
    if ok {
        let entry = entries[last as int];
        let open = seq!['['];
        let before = start + text::utf8_len(amf::written(parts.push(open), false));
        let (key, kept) = amf::cut(entry.key, depth + 1, before, limit);
        if kept {
            let mid = open + key + seq![','];
            let between = start + text::utf8_len(amf::written(parts.push(mid), false));
            let value = amf::cut(entry.value, depth + 1, between, limit).0;
            lemma_cut_over(entry.value, depth + 1, between, limit);
            text::lemma_joined_push(seq![key], seq![','], value);
            assert(seq![key].push(value) =~= seq![key, value]);
            assert(json::array(seq![key, value]) =~= mid + (value + seq![']']));
            lemma_written_grows(parts, mid, value + seq![']'], false);
            text::lemma_utf8_len_concat(value, seq![']']);
        } else {
            lemma_cut_over(entry.key, depth + 1, before, limit);
            assert(json::array(seq![key]) =~= open + (key + seq![']']));
            lemma_written_grows(parts, open, key + seq![']'], false);
            text::lemma_utf8_len_concat(key, seq![']']);
        }
    } else {
        lemma_entries_over(entries, last, depth, start, limit);
    }
}

/// Writing a value answers whether the limit was kept: it has not, exactly
/// where what has been written by then passes it.
pub proof fn law_the_limit_is_told(value: Value, depth: nat, start: nat, limit: nat)
    ensures
        amf::cut(value, depth, start, limit).1 <==> start + text::utf8_len(
            amf::cut(value, depth, start, limit).0,
        ) <= limit,
{
    if !amf::cut(value, depth, start, limit).1 {
        lemma_cut_over(value, depth, start, limit);
    }
}

// ---------------------------------------------------------------------
// The limit is passed by no more than one path down to a scalar.
// ---------------------------------------------------------------------

pub open spec fn max(a: nat, b: nat) -> nat {
    if a < b {
        b
    } else {
        a
    }
}

/// The size of a scalar; of other values, that of the largest scalar with
/// the brackets, names and commas on the way down to it.
pub open spec fn path_len(value: Value, depth: nat) -> nat
    decreases (if depth <= 25 {
        26 - depth
    } else {
        0
    }), 1nat, 0nat,
{
    if depth > MAX_AMF_DEPTH {
        text::utf8_len("\"…depth\""@)
    } else {
        match value {
            Value::StrictArray(values) => 2 + items_path_len(
                amf::element_items(values@),
                values@.len(),
                depth,
            ),
            Value::VectorObject(values) => 2 + items_path_len(
                amf::element_items(values@),
                values@.len(),
                depth,
            ),
            Value::EcmaArray(dense, associative) => if associative@.len() == 0 {
                2 + items_path_len(amf::element_items(dense@), dense@.len(), depth)
            } else {
                object_path_len(
                    Seq::empty(),
                    amf::dense_items(dense@),
                    amf::member_items(associative@),
                    depth,
                )
            },
            Value::Object(members, class) => object_path_len(
                amf::class_parts(class),
                Seq::empty(),
                amf::member_items(members@),
                depth,
            ),
            Value::Custom(custom, members, class) => object_path_len(
                amf::custom_class_parts(class),
                amf::member_items(custom@),
                amf::member_items(members@),
                depth,
            ),
            Value::Amf3(inner) => path_len(*inner, depth + 1),
            Value::Dictionary(entries) => 2 + entries_path_len(entries@, entries@.len(), depth),
            Value::VectorInt(values) => 2 + numbers_path_len(
                amf::int_parts(values@),
                values@.len(),
            ),
            Value::VectorUInt(values) => 2 + numbers_path_len(
                amf::uint_parts(values@),
                values@.len(),
            ),
            Value::VectorDouble(values) => 2 + numbers_path_len(
                amf::double_parts(values@),
                values@.len(),
            ),
            _ => text::utf8_len(amf::scalar_text(value)),
        }
    }
}

/// The largest of the first `count` numbers, with the comma and the blank
/// before it.
pub open spec fn numbers_path_len(parts: Seq<Seq<char>>, count: nat) -> nat
    decreases count,
{
    if count == 0 {
        0
    } else {
        max(
            numbers_path_len(parts, (count - 1) as nat),
            2 + text::utf8_len(parts[count - 1]),
        )
    }
}

pub open spec fn object_path_len(
    class: Seq<Seq<char>>,
    first: Seq<Item>,
    second: Seq<Item>,
    depth: nat,
) -> nat
    decreases (if depth <= 25 {
        26 - depth
    } else {
        0
    }), 0nat, first.len() + second.len() + 1,
{
    2 + text::utf8_len(text::listed(class)) + max(
        items_path_len(first, first.len(), depth),
        items_path_len(second, second.len(), depth),
    )
}

pub open spec fn items_path_len(items: Seq<Item>, count: nat, depth: nat) -> nat
    decreases (if depth <= 25 {
        26 - depth
    } else {
        0
    }), 0nat, count,
{
    if count == 0 || depth > MAX_AMF_DEPTH {
        0
    } else {
        max(
            items_path_len(items, (count - 1) as nat, depth),
            1 + text::utf8_len(items[count - 1].0) + path_len(items[count - 1].1, depth + 1),
        )
    }
}

pub open spec fn entries_path_len(entries: Seq<Entry>, count: nat, depth: nat) -> nat
    decreases (if depth <= 25 {
        26 - depth
    } else {
        0
    }), 0nat, count,
{
    if count == 0 || depth > MAX_AMF_DEPTH {
        0
    } else {
        max(
            entries_path_len(entries, (count - 1) as nat, depth),
            3 + max(
                path_len(entries[count - 1].key, depth + 1),
                path_len(entries[count - 1].value, depth + 1),
            ),
        )
    }
}

proof fn lemma_ascii_len(c: char)
    requires
        (c as nat) < 128,
    ensures
        text::utf8_len(seq![c]) == 1,
{
    reveal_with_fuel(vstd::utf8::encode_utf8, 2);
    assert(seq![c].drop_first() =~= Seq::empty());
}

/// A list grows by a comma, at most, and the new part.
proof fn lemma_written_step(parts: Seq<Seq<char>>, part: Seq<char>, led: bool)
    ensures
        text::utf8_len(amf::written(parts.push(part), led)) <= text::utf8_len(
            amf::written(parts, led),
        ) + 1 + text::utf8_len(part),
{
    let e = Seq::<char>::empty();
    amf::lemma_written_push(parts, part, e, led);
    let comma = if led || parts.len() > 0 {
        seq![',']
    } else {
        Seq::<char>::empty()
    };
    lemma_ascii_len(',');
    text::lemma_utf8_len_concat(amf::written(parts, led) + comma, part);
    text::lemma_utf8_len_concat(amf::written(parts, led), comma);
}

/// Numbers pass the limit by one of them at most.
proof fn lemma_numbers_len(
    parts: Seq<Seq<char>>,
    count: nat,
    start: nat,
    limit: nat,
    over: nat,
)
    requires
        count <= parts.len(),
        start <= limit + over,
    ensures
        ({
            let (shown, ok) = amf::cut_numbers(parts, count, start, limit);
            let end = start + text::utf8_len(amf::spaced(shown));
            &&& end <= limit + over + numbers_path_len(parts, count)
            &&& ok ==> end <= limit + over
        }),
    decreases count,
{
    if count > 0 {
        let last = (count - 1) as nat;
        lemma_numbers_len(parts, last, start, limit, over);
        let (shown, ok) = amf::cut_numbers(parts, last, start, limit);
        if ok {
            let sep = seq![',', ' '];
            let part = parts[last as int];
            text::lemma_joined_push(shown, sep, part);
            text::lemma_utf8_len_concat(amf::spaced(shown), sep + part);
            text::lemma_utf8_len_concat(sep, part);
            text::lemma_utf8_len_concat(seq![','], seq![' ']);
            lemma_ascii_len(',');
            lemma_ascii_len(' ');
            assert(seq![','] + seq![' '] =~= sep);
        }
    } else {
        reveal_with_fuel(vstd::utf8::encode_utf8, 1);
        assert(text::utf8_len(amf::spaced(Seq::empty())) == 0);
    }
}

proof fn lemma_vector_len(parts: Seq<Seq<char>>, start: nat, limit: nat, over: nat)
    requires
        start <= limit + over,
    ensures
        start + text::utf8_len(amf::cut_vector(parts, start, limit).0) <= limit + over + 2
            + numbers_path_len(parts, parts.len()),
{
    let base = start + text::utf8_len(seq!['[']);
    lemma_ascii_len('[');
    lemma_ascii_len(']');
    lemma_numbers_len(parts, parts.len(), base, limit, over + 1);
    let shown = amf::cut_numbers(parts, parts.len(), base, limit).0;
    text::lemma_utf8_len_concat(seq!['['] + amf::spaced(shown), seq![']']);
    text::lemma_utf8_len_concat(seq!['['], amf::spaced(shown));
}

proof fn lemma_cut_len(value: Value, depth: nat, start: nat, limit: nat, over: nat)
    requires
        depth <= MAX_AMF_DEPTH + 1,
        start <= limit + over,
    ensures
        start + text::utf8_len(amf::cut(value, depth, start, limit).0) <= limit + over + path_len(
            value,
            depth,
        ),
    decreases 26 - depth, 1nat, 0nat,
{
    if depth > MAX_AMF_DEPTH {
        return;
    }
    match value {
        Value::StrictArray(values) => lemma_array_len(values@, depth, start, limit, over),
        Value::VectorObject(values) => lemma_array_len(values@, depth, start, limit, over),
        Value::EcmaArray(dense, associative) => {
            if associative@.len() == 0 {
                lemma_array_len(dense@, depth, start, limit, over)
            } else {
                lemma_object_len(
                    Seq::empty(),
                    amf::dense_items(dense@),
                    amf::member_items(associative@),
                    depth,
                    start,
                    limit,
                    over,
                )
            }
        },
        Value::Object(members, class) => lemma_object_len(
            amf::class_parts(class),
            Seq::empty(),
            amf::member_items(members@),
            depth,
            start,
            limit,
            over,
        ),
        Value::Custom(custom, members, class) => lemma_object_len(
            amf::custom_class_parts(class),
            amf::member_items(custom@),
            amf::member_items(members@),
            depth,
            start,
            limit,
            over,
        ),
        Value::Amf3(inner) => lemma_cut_len(*inner, depth + 1, start, limit, over),
        Value::Dictionary(entries) => {
            let base = start + text::utf8_len(seq!['[']);
            lemma_ascii_len('[');
            lemma_ascii_len(']');
            lemma_entries_len(entries@, entries@.len(), depth, base, limit, over + 1);
            let parts = amf::cut_entries(entries@, entries@.len(), depth, base, limit).0;
            text::lemma_utf8_len_concat(seq!['['] + text::listed(parts), seq![']']);
            text::lemma_utf8_len_concat(seq!['['], text::listed(parts));
        },
        Value::VectorInt(values) => lemma_vector_len(amf::int_parts(values@), start, limit, over),
        Value::VectorUInt(values) => lemma_vector_len(
            amf::uint_parts(values@),
            start,
            limit,
            over,
        ),
        Value::VectorDouble(values) => lemma_vector_len(
            amf::double_parts(values@),
            start,
            limit,
            over,
        ),
        _ => {},
    }
}

proof fn lemma_array_len(values: Seq<Value>, depth: nat, start: nat, limit: nat, over: nat)
    requires
        depth <= MAX_AMF_DEPTH,
        start <= limit + over,
    ensures
        start + text::utf8_len(
            amf::cut_array(amf::element_items(values), depth, start, limit).0,
        ) <= limit + over + 2 + items_path_len(amf::element_items(values), values.len(), depth),
    decreases 26 - depth, 0nat, values.len() + 1,
{
    let items = amf::element_items(values);
    let base = start + text::utf8_len(seq!['[']);
    lemma_ascii_len('[');
    lemma_ascii_len(']');
    lemma_items_len(items, items.len(), depth, base, false, limit, over + 1);
    let parts = amf::cut_items(items, items.len(), depth, base, false, limit).0;
    text::lemma_utf8_len_concat(seq!['['] + text::listed(parts), seq![']']);
    text::lemma_utf8_len_concat(seq!['['], text::listed(parts));
}

proof fn lemma_object_len(
    class: Seq<Seq<char>>,
    first: Seq<Item>,
    second: Seq<Item>,
    depth: nat,
    start: nat,
    limit: nat,
    over: nat,
)
    requires
        depth <= MAX_AMF_DEPTH,
        start <= limit + over,
    ensures
        start + text::utf8_len(amf::cut_object(class, first, second, depth, start, limit).0)
            <= limit + over + object_path_len(class, first, second, depth),
    decreases 26 - depth, 0nat, first.len() + second.len() + 1,
{
    let head = seq!['{'] + text::listed(class);
    let base = start + text::utf8_len(head);
    let led = class.len() > 0;
    let wide = over + 1 + text::utf8_len(text::listed(class));
    lemma_ascii_len('{');
    lemma_ascii_len('}');
    text::lemma_utf8_len_concat(seq!['{'], text::listed(class));
    lemma_items_len(first, first.len(), depth, base, led, limit, wide);
    let (parts, ok) = amf::cut_items(first, first.len(), depth, base, led, limit);
    let x = amf::written(parts, led);
    text::lemma_utf8_len_concat(head, x);
    amf::lemma_cut_items_len(first, first.len(), depth, base, led, limit);
    if ok {
        let next = base + text::utf8_len(x);
        let more = amf::cut_items(
            second,
            second.len(),
            depth,
            next,
            led || first.len() > 0,
            limit,
        ).0;
        lemma_items_len(second, second.len(), depth, next, led || first.len() > 0, limit, wide);
        let y = amf::written(more, led || parts.len() > 0);
        amf::lemma_object_text(class, parts, more);
        text::lemma_utf8_len_concat(head + x, y);
        text::lemma_utf8_len_concat(head + x + y, seq!['}']);
    } else {
        amf::lemma_object_text(class, parts, Seq::empty());
        text::lemma_utf8_len_concat(head + x, seq!['}']);
    }
}

proof fn lemma_items_len(
    items: Seq<Item>,
    count: nat,
    depth: nat,
    start: nat,
    led: bool,
    limit: nat,
    over: nat,
)
    requires
        depth <= MAX_AMF_DEPTH,
        count <= items.len(),
        start <= limit + over,
    ensures
        ({
            let (parts, ok) = amf::cut_items(items, count, depth, start, led, limit);
            let end = start + text::utf8_len(amf::written(parts, led));
            &&& end <= limit + over + items_path_len(items, count, depth)
            &&& ok ==> end <= limit + over
        }),
    decreases 26 - depth, 0nat, count,
{
    if count > 0 {
        let last = (count - 1) as nat;
        lemma_items_len(items, last, depth, start, led, limit, over);
        let (parts, ok) = amf::cut_items(items, last, depth, start, led, limit);
        if ok {
            let (prefix, value) = items[last as int];
            lemma_written_step(parts, prefix, led);
            let next = start + text::utf8_len(amf::written(parts.push(prefix), led));
            let part = amf::cut(value, depth + 1, next, limit).0;
            lemma_cut_len(
                value,
                depth + 1,
                next,
                limit,
                over + 1 + text::utf8_len(prefix),
            );
            amf::lemma_written_push(parts, prefix, part, led);
            text::lemma_utf8_len_concat(amf::written(parts.push(prefix), led), part);
        }
    } else {
        reveal_with_fuel(vstd::utf8::encode_utf8, 1);
        assert(text::utf8_len(amf::written(Seq::empty(), led)) == 0);
    }
}

proof fn lemma_entries_len(
    entries: Seq<Entry>,
    count: nat,
    depth: nat,
    start: nat,
    limit: nat,
    over: nat,
)
    requires
        depth <= MAX_AMF_DEPTH,
        count <= entries.len(),
        start <= limit + over,
        over >= 1,
    ensures
        ({
            let (parts, ok) = amf::cut_entries(entries, count, depth, start, limit);
            let end = start + text::utf8_len(amf::written(parts, false));
            &&& end <= limit + over + entries_path_len(entries, count, depth)
            &&& ok ==> end <= limit + over
        }),
    decreases 26 - depth, 0nat, count,
{
    if count > 0 {
        let last = (count - 1) as nat;
        lemma_entries_len(entries, last, depth, start, limit, over);
        let (parts, ok) = amf::cut_entries(entries, last, depth, start, limit);
        if ok {
            let entry = entries[last as int];
            let open = seq!['['];
            lemma_ascii_len('[');
            lemma_ascii_len(']');
            lemma_ascii_len(',');
            lemma_written_step(parts, open, false);
            let before = start + text::utf8_len(amf::written(parts.push(open), false));
            lemma_cut_len(entry.key, depth + 1, before, limit, over + 2);
            let (key, ok) = amf::cut(entry.key, depth + 1, before, limit);
            if ok {
                let mid = open + key + seq![','];
                let between = start + text::utf8_len(amf::written(parts.push(mid), false));
                amf::lemma_written_push(parts, open, key + seq![','], false);
                assert(mid =~= open + (key + seq![',']));
                text::lemma_utf8_len_concat(
                    amf::written(parts.push(open), false),
                    key + seq![','],
                );
                text::lemma_utf8_len_concat(key, seq![',']);
                lemma_cut_len(entry.value, depth + 1, between, limit, over);
                let value = amf::cut(entry.value, depth + 1, between, limit).0;
                let tail = value + seq![']'];
                amf::lemma_written_push(parts, mid, tail, false);
                text::lemma_utf8_len_concat(amf::written(parts.push(mid), false), tail);
                text::lemma_utf8_len_concat(value, seq![']']);
                text::lemma_joined_push(seq![key], seq![','], value);
                assert(seq![key].push(value) =~= seq![key, value]);
                assert(json::array(seq![key, value]) =~= mid + tail);
            } else {
                let tail = key + seq![']'];
                amf::lemma_written_push(parts, open, tail, false);
                text::lemma_utf8_len_concat(amf::written(parts.push(open), false), tail);
                text::lemma_utf8_len_concat(key, seq![']']);
                assert(json::array(seq![key]) =~= open + tail);
            }
        }
    } else {
        reveal_with_fuel(vstd::utf8::encode_utf8, 1);
        assert(text::utf8_len(amf::written(Seq::empty(), false)) == 0);
    }
}

/// What is shown of a value passes the limit by no more than one scalar with
/// the brackets, names and commas that lead to it.
pub proof fn law_payloads_are_bounded(value: Value)
    ensures
        text::utf8_len(amf::cut(value, 0, 0, MAX_AMF_JSON_BYTES as nat).0) <= MAX_AMF_JSON_BYTES
            + path_len(value, 0),
{
    lemma_cut_len(value, 0, 0, MAX_AMF_JSON_BYTES as nat, 0);
}

/// The largest path of the first `count` values, each with its comma.
pub open spec fn list_path_len(values: Seq<Value>, count: nat) -> nat
    decreases count,
{
    if count == 0 {
        0
    } else {
        max(list_path_len(values, (count - 1) as nat), 1 + path_len(values[count - 1], 0))
    }
}

proof fn lemma_list_len(values: Seq<Value>, count: nat)
    requires
        count <= values.len(),
    ensures
        ({
            let (parts, ok) = amf::cut_list(values, count);
            let end = text::utf8_len(seq!['['] + text::listed(parts));
            &&& end <= MAX_AMF_JSON_BYTES + list_path_len(values, count)
            &&& ok ==> end <= MAX_AMF_JSON_BYTES
        }),
    decreases count,
{
    let open = seq!['['];
    if count > 0 {
        let last = (count - 1) as nat;
        lemma_list_len(values, last);
        let (parts, ok) = amf::cut_list(values, last);
        if ok {
            let e = Seq::<char>::empty();
            let start = text::utf8_len(open + text::listed(parts.push(e)));
            lemma_written_step(parts, e, false);
            text::lemma_utf8_len_concat(open, text::listed(parts));
            text::lemma_utf8_len_concat(open, text::listed(parts.push(e)));
            let part = amf::cut(values[last as int], 0, start, MAX_AMF_JSON_BYTES as nat).0;
            lemma_cut_len(values[last as int], 0, start, MAX_AMF_JSON_BYTES as nat, 1);
            amf::lemma_written_push(parts, e, part, false);
            assert(e + part =~= part);
            text::lemma_utf8_len_concat(text::listed(parts.push(e)), part);
            text::lemma_utf8_len_concat(open, text::listed(parts.push(part)));
        }
    } else {
        lemma_ascii_len('[');
        assert(open + text::listed(Seq::empty()) =~= open);
    }
}

/// The rendering of a list passes the limit by no more than one scalar with
/// the brackets, names and commas that lead to it, and the mark.
pub proof fn law_lists_are_bounded(values: Seq<Value>)
    ensures
        text::utf8_len(amf::amf_list_json(values)) <= MAX_AMF_JSON_BYTES + list_path_len(
            values,
            values.len(),
        ) + text::utf8_len("\"…truncated\""@) + 2,
{
    let (parts, ok) = amf::cut_list(values, values.len());
    let open = seq!['['];
    let mark = "\"…truncated\""@;
    lemma_list_len(values, values.len());
    lemma_ascii_len(']');
    lemma_written_step(parts, mark, false);
    text::lemma_utf8_len_concat(open, text::listed(parts));
    text::lemma_utf8_len_concat(open, text::listed(parts.push(mark)));
    text::lemma_utf8_len_concat(open + text::listed(parts), seq![']']);
    text::lemma_utf8_len_concat(open + text::listed(parts.push(mark)), seq![']']);
}

// ---------------------------------------------------------------------
// The result is JSON.
// ---------------------------------------------------------------------

/// Whether the finite numbers that are written as they stand are JSON
/// numbers.
pub open spec fn numbers_are_json(value: Value, depth: nat) -> bool
    decreases (if depth <= 25 {
        26 - depth
    } else {
        0
    }),
{
    depth <= MAX_AMF_DEPTH ==> match value {
        Value::Number(number) => ieee::finite(number.bits) && ieee::whole_number(number.bits) is None
            ==> json::is_number(number.text@),
        Value::Date(time) => ieee::finite(time.bits) ==> json::is_number(time.text@),
        Value::VectorDouble(values) => forall|i: int|
            0 <= i < values@.len() && ieee::finite((#[trigger] values@[i]).bits)
                ==> json::is_number(values@[i].text@),
        Value::StrictArray(values) => forall|i: int|
            0 <= i < values@.len() ==> numbers_are_json(#[trigger] values@[i], depth + 1),
        Value::VectorObject(values) => forall|i: int|
            0 <= i < values@.len() ==> numbers_are_json(#[trigger] values@[i], depth + 1),
        Value::EcmaArray(dense, associative) => {
            &&& forall|i: int|
                0 <= i < dense@.len() ==> numbers_are_json(#[trigger] dense@[i], depth + 1)
            &&& forall|i: int|
                0 <= i < associative@.len() ==> numbers_are_json(
                    #[trigger] associative@[i].value,
                    depth + 1,
                )
        },
        Value::Object(members, _) => forall|i: int|
            0 <= i < members@.len() ==> numbers_are_json(#[trigger] members@[i].value, depth + 1),
        Value::Custom(custom, members, _) => {
            &&& forall|i: int|
                0 <= i < custom@.len() ==> numbers_are_json(#[trigger] custom@[i].value, depth + 1)
            &&& forall|i: int|
                0 <= i < members@.len() ==> numbers_are_json(
                    #[trigger] members@[i].value,
                    depth + 1,
                )
        },
        Value::Amf3(inner) => numbers_are_json(*inner, depth + 1),
        Value::Dictionary(entries) => forall|i: int|
            0 <= i < entries@.len() ==> numbers_are_json((#[trigger] entries@[i]).key, depth + 1)
                && numbers_are_json(entries@[i].value, depth + 1),
        _ => true,
    }
}

/// Whether every item carries a name.
spec fn are_named(items: Seq<Item>) -> bool {
    forall|i: int| 0 <= i < items.len() ==> is_name(#[trigger] items[i].0)
}

spec fn is_name(prefix: Seq<char>) -> bool {
    exists|key: Seq<char>| json::is_body(key) && prefix == #[trigger] json::literal(key) + seq![':']
}

/// How deep the rendering of a value at the given depth nests at most.
spec fn nesting(depth: nat) -> nat {
    (2 * (25 - depth)) as nat
}

proof fn lemma_debug_list_valid(parts: Seq<Seq<char>>, depth: nat)
    requires
        forall|i: int| 0 <= i < parts.len() ==> json::is_value(#[trigger] parts[i], depth),
    ensures
        json::is_value(amf::debug_list(parts), depth + 1),
{
    let spaced = Seq::new(
        parts.len(),
        |i: int|
            if i == 0 {
                parts[i]
            } else {
                seq![' '] + parts[i]
            },
    );
    lemma_spaced_list(parts, spaced);
    assert forall|i: int| 0 <= i < spaced.len() implies json::is_element(
        #[trigger] spaced[i],
        depth,
    ) by {
        let e = Seq::<char>::empty();
        assert(json::is_value(parts[i], depth));
        if i == 0 {
            json::lemma_value_is_element(parts[i], depth);
        } else {
            assert(spaced[i] =~= seq![' '] + parts[i] + e);
            assert(json::is_spaced(spaced[i], seq![' '], parts[i], e));
        }
    }
    json::lemma_array(spaced, depth);
}

proof fn lemma_spaced_list(parts: Seq<Seq<char>>, spaced: Seq<Seq<char>>)
    requires
        parts.len() == spaced.len(),
        forall|i: int|
            0 <= i < parts.len() ==> #[trigger] spaced[i] == if i == 0 {
                parts[i]
            } else {
                seq![' '] + parts[i]
            },
    ensures
        text::joined(parts, seq![',', ' ']) == text::listed(spaced),
    decreases parts.len(),
{
    if parts.len() > 1 {
        lemma_spaced_list(parts.drop_last(), spaced.drop_last());
        assert(seq![',', ' '] + parts.last() =~= seq![','] + spaced.last());
    }
}

proof fn lemma_tagged_valid(key: Seq<char>, value: Seq<char>, depth: nat)
    requires
        json::is_body(key),
        json::is_value(value, depth),
    ensures
        json::is_value(amf::tagged(key, value), depth + 1),
{
    json::lemma_member(key, value, depth);
    json::lemma_object(seq![json::member(key, value)], depth);
}

/// The names that the library writes need no escapes.
proof fn lemma_keys_are_plain()
    ensures
        json::is_body("$date"@),
        json::is_body("$ref"@),
        json::is_body("$bytes"@),
        json::is_body("$class"@),
        json::is_body("$truncated"@),
        json::is_body("value"@),
{
    reveal_strlit("$date");
    reveal_strlit("$ref");
    reveal_strlit("$bytes");
    reveal_strlit("$class");
    reveal_strlit("$truncated");
    reveal_strlit("value");
    json::lemma_plain_is_body("$date"@);
    json::lemma_plain_is_body("$ref"@);
    json::lemma_plain_is_body("$bytes"@);
    json::lemma_plain_is_body("$class"@);
    json::lemma_plain_is_body("$truncated"@);
    json::lemma_plain_is_body("value"@);
}

/// The words that the library writes are JSON values.
proof fn lemma_words_are_values()
    ensures
        json::is_value("null"@, 0),
        json::is_value("true"@, 0),
        json::is_value("false"@, 0),
        json::is_value("\"undefined\""@, 0),
        json::is_value("\"<unsupported>\""@, 0),
        json::is_value("\"…depth\""@, 0),
        json::is_value("\"…truncated\""@, 0),
{
    reveal_strlit("null");
    reveal_strlit("true");
    reveal_strlit("false");
    reveal_strlit("\"undefined\"");
    reveal_strlit("\"<unsupported>\"");
    reveal_strlit("\"…depth\"");
    reveal_strlit("\"…truncated\"");
    assert("null"@ =~= seq!['n', 'u', 'l', 'l']);
    assert("true"@ =~= seq!['t', 'r', 'u', 'e']);
    assert("false"@ =~= seq!['f', 'a', 'l', 's', 'e']);
    lemma_word_is_string("\"undefined\""@);
    lemma_word_is_string("\"<unsupported>\""@);
    lemma_word_is_string("\"…depth\""@);
    lemma_word_is_string("\"…truncated\""@);
}

proof fn lemma_word_is_string(word: Seq<char>)
    requires
        word.len() >= 2,
        word[0] == '"',
        word.last() == '"',
        forall|i: int| 0 < i < word.len() - 1 ==> json::is_plain(#[trigger] word[i]),
    ensures
        json::is_value(word, 0),
{
    let body = word.subrange(1, word.len() - 1);
    assert forall|i: int| 0 <= i < body.len() implies json::is_plain(#[trigger] body[i]) by {
        assert(body[i] == word[i + 1]);
    }
    json::lemma_plain_is_body(body);
    json::lemma_literal_is_string(body);
    assert(word =~= json::literal(body));
}

proof fn lemma_scalar_valid(value: Value, depth: nat)
    requires
        depth <= MAX_AMF_DEPTH,
        numbers_are_json(value, depth),
    ensures
        json::is_value(amf::scalar_text(value), nesting(depth)),
{
    lemma_words_are_values();
    lemma_keys_are_plain();
    let n = nesting(depth);
    let inner = (n - 1) as nat;
    match value {
        Value::Number(number) => {
            if let Some(i) = ieee::whole_number(number.bits) {
                json::lemma_integer_is_number(i);
            }
            json::lemma_value_deeper(amf::number_text(number), 0, n);
        },
        Value::Integer(i) => {
            json::lemma_integer_is_number(i as int);
        },
        Value::Text(s) => {
            json::lemma_quoted_is_value(s@, n);
            json::lemma_quoted_is_value(s@.take(amf::MAX_AMF_STRING as int).push('…'), n);
        },
        Value::Xml(s) => {
            json::lemma_quoted_is_value(s@, n);
            json::lemma_quoted_is_value(s@.take(amf::MAX_AMF_STRING as int).push('…'), n);
        },
        Value::Date(time) => {
            json::lemma_value_deeper(amf::plain_text(time), 0, inner);
            lemma_tagged_valid("$date"@, amf::plain_text(time), inner);
        },
        Value::Reference(n) => {
            json::lemma_decimal_is_number(n as nat);
            lemma_tagged_valid("$ref"@, text::decimal(n as nat), inner);
        },
        Value::Amf3ObjectReference(id) => {
            json::lemma_integer_is_number(id as int);
            lemma_tagged_valid("$ref"@, text::integer(id as int), inner);
        },
        Value::ByteArray(bytes) => {
            json::lemma_decimal_is_number(bytes@.len());
            lemma_tagged_valid("$bytes"@, text::decimal(bytes@.len()), inner);
        },
        Value::Bool(b) => {
            json::lemma_value_deeper(amf::scalar_text(value), 0, n);
        },
        _ => {
            json::lemma_value_deeper(amf::scalar_text(value), 0, n);
        },
    }
}

proof fn lemma_cut_valid(value: Value, depth: nat, start: nat, limit: nat)
    requires
        depth <= MAX_AMF_DEPTH + 1,
        numbers_are_json(value, depth),
    ensures
        json::is_value(amf::cut(value, depth, start, limit).0, nesting(depth)),
    decreases 26 - depth, 1nat, 0nat,
{
    if depth > MAX_AMF_DEPTH {
        lemma_words_are_values();
        json::lemma_value_deeper("\"…depth\""@, 0, nesting(depth));
    } else {
        match value {
            Value::StrictArray(values) => lemma_array_valid(values@, depth, start, limit),
            Value::VectorObject(values) => lemma_array_valid(values@, depth, start, limit),
            Value::EcmaArray(dense, associative) => {
                if associative@.len() == 0 {
                    lemma_array_valid(dense@, depth, start, limit)
                } else {
                    lemma_dense_named(dense@);
                    lemma_members_named(associative@);
                    lemma_object_valid(
                        Seq::empty(),
                        amf::dense_items(dense@),
                        amf::member_items(associative@),
                        depth,
                        start,
                        limit,
                    )
                }
            },
            Value::Object(members, class) => {
                lemma_members_named(members@);
                lemma_class_valid(class, depth);
                lemma_object_valid(
                    amf::class_parts(class),
                    Seq::empty(),
                    amf::member_items(members@),
                    depth,
                    start,
                    limit,
                )
            },
            Value::Custom(custom, members, class) => {
                lemma_members_named(custom@);
                lemma_members_named(members@);
                lemma_class_valid(class, depth);
                lemma_object_valid(
                    amf::custom_class_parts(class),
                    amf::member_items(custom@),
                    amf::member_items(members@),
                    depth,
                    start,
                    limit,
                )
            },
            Value::Amf3(inner) => {
                lemma_cut_valid(*inner, depth + 1, start, limit);
                json::lemma_value_deeper(
                    amf::cut(*inner, depth + 1, start, limit).0,
                    nesting(depth + 1),
                    nesting(depth),
                );
            },
            Value::Dictionary(entries) => {
                let base = start + text::utf8_len(seq!['[']);
                lemma_entries_valid(entries@, entries@.len(), depth, base, limit);
                json::lemma_array(
                    amf::cut_entries(entries@, entries@.len(), depth, base, limit).0,
                    (nesting(depth) - 1) as nat,
                );
            },
            Value::VectorInt(values) => {
                let parts = amf::int_parts(values@);
                assert forall|i: int| 0 <= i < parts.len() implies json::is_value(
                    #[trigger] parts[i],
                    0,
                ) by {
                    json::lemma_integer_is_number(values@[i] as int);
                }
                lemma_vector_valid(parts, start, limit, nesting(depth));
            },
            Value::VectorUInt(values) => {
                let parts = amf::uint_parts(values@);
                assert forall|i: int| 0 <= i < parts.len() implies json::is_value(
                    #[trigger] parts[i],
                    0,
                ) by {
                    json::lemma_decimal_is_number(values@[i] as nat);
                }
                lemma_vector_valid(parts, start, limit, nesting(depth));
            },
            Value::VectorDouble(values) => {
                let parts = amf::double_parts(values@);
                lemma_words_are_values();
                assert forall|i: int| 0 <= i < parts.len() implies json::is_value(
                    #[trigger] parts[i],
                    0,
                ) by {
                    assert(parts[i] == amf::plain_text(values@[i]));
                }
                lemma_vector_valid(parts, start, limit, nesting(depth));
            },
            _ => lemma_scalar_valid(value, depth),
        }
    }
}

proof fn lemma_vector_valid(parts: Seq<Seq<char>>, start: nat, limit: nat, depth: nat)
    requires
        forall|i: int| 0 <= i < parts.len() ==> json::is_value(#[trigger] parts[i], 0),
        depth > 0,
    ensures
        json::is_value(amf::cut_vector(parts, start, limit).0, depth),
{
    let base = start + text::utf8_len(seq!['[']);
    let shown = amf::cut_numbers(parts, parts.len(), base, limit).0;
    amf::lemma_cut_numbers(parts, parts.len(), base, limit);
    assert forall|i: int| 0 <= i < shown.len() implies json::is_value(
        #[trigger] shown[i],
        (depth - 1) as nat,
    ) by {
        assert(shown[i] == parts[i]);
        json::lemma_value_deeper(parts[i], 0, (depth - 1) as nat);
    }
    lemma_debug_list_valid(shown, (depth - 1) as nat);
}

proof fn lemma_dense_named(values: Seq<Value>)
    ensures
        are_named(amf::dense_items(values)),
{
    assert forall|i: int| 0 <= i < values.len() implies is_name(
        #[trigger] amf::dense_items(values)[i].0,
    ) by {
        json::lemma_decimal_is_body(i as nat);
        assert(json::is_body(text::decimal(i as nat)));
    }
}

proof fn lemma_members_named(members: Seq<amf::Element>)
    ensures
        are_named(amf::member_items(members)),
{
    assert forall|i: int| 0 <= i < members.len() implies is_name(
        #[trigger] amf::member_items(members)[i].0,
    ) by {
        json::lemma_escaped_is_body(members[i].name@);
        assert(json::is_body(json::escaped(members[i].name@)));
    }
}

proof fn lemma_class_valid(class: Option<String>, depth: nat)
    requires
        depth <= MAX_AMF_DEPTH,
    ensures
        forall|i: int|
            0 <= i < amf::class_parts(class).len() ==> json::is_member(
                #[trigger] amf::class_parts(class)[i],
                (nesting(depth) - 1) as nat,
            ),
        forall|i: int|
            0 <= i < amf::custom_class_parts(class).len() ==> json::is_member(
                #[trigger] amf::custom_class_parts(class)[i],
                (nesting(depth) - 1) as nat,
            ),
{
    lemma_keys_are_plain();
    if let Some(name) = class {
        json::lemma_quoted_is_value(name@, (nesting(depth) - 1) as nat);
        json::lemma_member("$class"@, json::quoted(name@), (nesting(depth) - 1) as nat);
    }
}

proof fn lemma_array_valid(values: Seq<Value>, depth: nat, start: nat, limit: nat)
    requires
        depth <= MAX_AMF_DEPTH,
        forall|i: int|
            0 <= i < values.len() ==> numbers_are_json(#[trigger] values[i], depth + 1),
    ensures
        json::is_value(
            amf::cut_array(amf::element_items(values), depth, start, limit).0,
            nesting(depth),
        ),
    decreases 26 - depth, 0nat, values.len() + 1,
{
    let items = amf::element_items(values);
    let base = start + text::utf8_len(seq!['[']);
    let parts = amf::cut_items(items, items.len(), depth, base, false, limit).0;
    assert forall|i: int| 0 <= i < items.len() implies numbers_are_json(
        #[trigger] items[i].1,
        depth + 1,
    ) by {
        assert(items[i].1 == values[i]);
    }
    lemma_elements_valid(items, items.len(), depth, base, false, limit);
    json::lemma_array(parts, (nesting(depth) - 1) as nat);
}

proof fn lemma_object_valid(
    class: Seq<Seq<char>>,
    first: Seq<Item>,
    second: Seq<Item>,
    depth: nat,
    start: nat,
    limit: nat,
)
    requires
        depth <= MAX_AMF_DEPTH,
        forall|i: int|
            0 <= i < class.len() ==> json::is_member(
                #[trigger] class[i],
                (nesting(depth) - 1) as nat,
            ),
        are_named(first),
        are_named(second),
        forall|i: int| 0 <= i < first.len() ==> numbers_are_json(#[trigger] first[i].1, depth + 1),
        forall|i: int| 0 <= i < second.len() ==> numbers_are_json(#[trigger] second[i].1, depth + 1),
    ensures
        json::is_value(
            amf::cut_object(class, first, second, depth, start, limit).0,
            nesting(depth),
        ),
    decreases 26 - depth, 0nat, first.len() + second.len() + 1,
{
    let n = (nesting(depth) - 1) as nat;
    let base = start + text::utf8_len(seq!['{'] + text::listed(class));
    let led = class.len() > 0;
    lemma_named_valid(first, first.len(), depth, base, led, limit);
    let parts = amf::cut_items(first, first.len(), depth, base, led, limit).0;
    json::lemma_object(class + parts, n);
    let next = base + text::utf8_len(amf::written(parts, led));
    lemma_named_valid(second, second.len(), depth, next, led || first.len() > 0, limit);
    let more = amf::cut_items(
        second,
        second.len(),
        depth,
        next,
        led || first.len() > 0,
        limit,
    ).0;
    json::lemma_object(class + parts + more, n);
}

proof fn lemma_elements_valid(
    items: Seq<Item>,
    count: nat,
    depth: nat,
    start: nat,
    led: bool,
    limit: nat,
)
    requires
        depth <= MAX_AMF_DEPTH,
        count <= items.len(),
        forall|i: int| 0 <= i < items.len() ==> (#[trigger] items[i]).0.len() == 0,
        forall|i: int| 0 <= i < items.len() ==> numbers_are_json(#[trigger] items[i].1, depth + 1),
    ensures
        ({
            let parts = amf::cut_items(items, count, depth, start, led, limit).0;
            forall|i: int|
                0 <= i < parts.len() ==> json::is_element(
                    #[trigger] parts[i],
                    (nesting(depth) - 1) as nat,
                )
        }),
    decreases 26 - depth, 0nat, count,
{
    if count > 0 {
        let last = (count - 1) as nat;
        lemma_elements_valid(items, last, depth, start, led, limit);
        let (parts, ok) = amf::cut_items(items, last, depth, start, led, limit);
        if ok {
            let (prefix, value) = items[last as int];
            let next = start + text::utf8_len(amf::written(parts.push(prefix), led));
            assert(numbers_are_json(items[last as int].1, depth + 1));
            lemma_cut_valid(value, depth + 1, next, limit);
            let part = amf::cut(value, depth + 1, next, limit).0;
            assert(items[last as int].0.len() == 0);
            assert(prefix + part =~= part);
            json::lemma_value_deeper(part, nesting(depth + 1), (nesting(depth) - 1) as nat);
            json::lemma_value_is_element(part, (nesting(depth) - 1) as nat);
        }
    }
}

proof fn lemma_named_valid(
    items: Seq<Item>,
    count: nat,
    depth: nat,
    start: nat,
    led: bool,
    limit: nat,
)
    requires
        depth <= MAX_AMF_DEPTH,
        count <= items.len(),
        are_named(items),
        forall|i: int| 0 <= i < items.len() ==> numbers_are_json(#[trigger] items[i].1, depth + 1),
    ensures
        ({
            let parts = amf::cut_items(items, count, depth, start, led, limit).0;
            forall|i: int|
                0 <= i < parts.len() ==> json::is_member(
                    #[trigger] parts[i],
                    (nesting(depth) - 1) as nat,
                )
        }),
    decreases 26 - depth, 0nat, count,
{
    if count > 0 {
        let last = (count - 1) as nat;
        lemma_named_valid(items, last, depth, start, led, limit);
        let (parts, ok) = amf::cut_items(items, last, depth, start, led, limit);
        if ok {
            let (prefix, value) = items[last as int];
            let next = start + text::utf8_len(amf::written(parts.push(prefix), led));
            assert(numbers_are_json(items[last as int].1, depth + 1));
            lemma_cut_valid(value, depth + 1, next, limit);
            let part = amf::cut(value, depth + 1, next, limit).0;
            assert(is_name(items[last as int].0));
            let key = choose|key: Seq<char>|
                json::is_body(key) && prefix == #[trigger] json::literal(key) + seq![':'];
            json::lemma_value_deeper(part, nesting(depth + 1), (nesting(depth) - 1) as nat);
            json::lemma_member(key, part, (nesting(depth) - 1) as nat);
            assert(prefix + part =~= json::member(key, part));
        }
    }
}

proof fn lemma_pair_valid(key: Seq<char>, value: Seq<char>, depth: nat)
    requires
        json::is_value(key, depth),
        json::is_value(value, depth),
    ensures
        json::is_element(json::array(seq![key]), depth + 1),
        json::is_element(json::array(seq![key, value]), depth + 1),
{
    json::lemma_value_is_element(key, depth);
    json::lemma_value_is_element(value, depth);
    json::lemma_array(seq![key], depth);
    json::lemma_array(seq![key, value], depth);
    json::lemma_value_is_element(json::array(seq![key]), depth + 1);
    json::lemma_value_is_element(json::array(seq![key, value]), depth + 1);
}

proof fn lemma_entries_valid(entries: Seq<Entry>, count: nat, depth: nat, start: nat, limit: nat)
    requires
        depth <= MAX_AMF_DEPTH,
        count <= entries.len(),
        forall|i: int|
            0 <= i < entries.len() ==> numbers_are_json((#[trigger] entries[i]).key, depth + 1)
                && numbers_are_json(entries[i].value, depth + 1),
    ensures
        ({
            let parts = amf::cut_entries(entries, count, depth, start, limit).0;
            forall|i: int|
                0 <= i < parts.len() ==> json::is_element(
                    #[trigger] parts[i],
                    (nesting(depth) - 1) as nat,
                )
        }),
    decreases 26 - depth, 0nat, count,
{
    if count > 0 {
        let last = (count - 1) as nat;
        let n = nesting(depth + 1);
        lemma_entries_valid(entries, last, depth, start, limit);
        let (parts, ok) = amf::cut_entries(entries, last, depth, start, limit);
        if ok {
            let entry = entries[last as int];
            let open = start + text::utf8_len(amf::written(parts.push(seq!['[']), false));
            lemma_cut_valid(entry.key, depth + 1, open, limit);
            let key = amf::cut(entry.key, depth + 1, open, limit).0;
            let mid = start + text::utf8_len(
                amf::written(parts.push(seq!['['] + key + seq![',']), false),
            );
            lemma_cut_valid(entry.value, depth + 1, mid, limit);
            let value = amf::cut(entry.value, depth + 1, mid, limit).0;
            lemma_pair_valid(key, value, n);
            let pair = amf::cut_entries(entries, count, depth, start, limit).0.last();
            assert(pair == json::array(seq![key]) || pair == json::array(seq![key, value]));
        }
    }
}

/// What is written of a value is a JSON text at every depth, whatever stands
/// before it and whatever the limit: the value written so far is always
/// structurally complete.
pub proof fn law_values_stay_json(value: Value, depth: nat, start: nat, limit: nat)
    requires
        numbers_are_json(value, depth),
    ensures
        json::is_json(amf::cut(value, depth, start, limit).0),
{
    let written = amf::cut(value, depth, start, limit).0;
    if depth <= MAX_AMF_DEPTH {
        lemma_cut_valid(value, depth, start, limit);
        json::lemma_value_is_element(written, nesting(depth));
    } else {
        lemma_words_are_values();
        json::lemma_value_is_element(written, 0);
    }
}

/// The rendering of a value is a JSON text, whether it was cut off or not.
pub proof fn law_payloads_stay_json(value: Value)
    requires
        numbers_are_json(value, 0),
    ensures
        json::is_json(amf::amf_json(value)),
{
    let (written, ok) = amf::cut(value, 0, 0, MAX_AMF_JSON_BYTES as nat);
    let n = nesting(0);
    lemma_cut_valid(value, 0, 0, MAX_AMF_JSON_BYTES as nat);
    json::lemma_value_is_element(written, n);
    if !ok {
        lemma_words_are_values();
        lemma_keys_are_plain();
        json::lemma_value_deeper("true"@, 0, n);
        let a = json::member("$truncated"@, "true"@);
        let b = json::member("value"@, written);
        json::lemma_member("$truncated"@, "true"@, n);
        json::lemma_member("value"@, written, n);
        json::lemma_object(seq![a, b], n);
        json::lemma_value_is_element(json::object(seq![a, b]), n + 1);
    }
}

proof fn lemma_list_valid(values: Seq<Value>, count: nat)
    requires
        count <= values.len(),
        forall|i: int| 0 <= i < values.len() ==> numbers_are_json(#[trigger] values[i], 0),
    ensures
        ({
            let parts = amf::cut_list(values, count).0;
            forall|i: int|
                0 <= i < parts.len() ==> json::is_element(#[trigger] parts[i], nesting(0))
        }),
    decreases count,
{
    if count > 0 {
        let last = (count - 1) as nat;
        lemma_list_valid(values, last);
        let (parts, ok) = amf::cut_list(values, last);
        let start = text::utf8_len(seq!['['] + text::listed(parts.push(Seq::empty())));
        lemma_cut_valid(values[last as int], 0, start, MAX_AMF_JSON_BYTES as nat);
        json::lemma_value_is_element(
            amf::cut(values[last as int], 0, start, MAX_AMF_JSON_BYTES as nat).0,
            nesting(0),
        );
    }
}

/// The rendering of a list of values is a JSON text, whether it was cut off
/// or not.
pub proof fn law_lists_stay_json(values: Seq<Value>)
    requires
        forall|i: int| 0 <= i < values.len() ==> numbers_are_json(#[trigger] values[i], 0),
    ensures
        json::is_json(amf::amf_list_json(values)),
{
    let (parts, ok) = amf::cut_list(values, values.len());
    let mark = "\"…truncated\""@;
    lemma_list_valid(values, values.len());
    lemma_words_are_values();
    json::lemma_value_deeper(mark, 0, nesting(0));
    json::lemma_value_is_element(mark, nesting(0));
    json::lemma_array(parts, nesting(0));
    json::lemma_array(parts.push(mark), nesting(0));
    json::lemma_value_is_element(json::array(parts), nesting(0) + 1);
    json::lemma_value_is_element(json::array(parts.push(mark)), nesting(0) + 1);
}

// ---------------------------------------------------------------------
// Where a list is cut.
// ---------------------------------------------------------------------

/// The list is cut inside the value at `place`: all before it are whole and
/// keep the limit, what is shown of it passes the limit, and none follows.
pub open spec fn is_cut_at(values: Seq<Value>, parts: Seq<Seq<char>>, place: int) -> bool {
    &&& 0 <= place < values.len()
    &&& parts.len() == place + 1
    &&& parts.take(place) == full_list(values).take(place)
    &&& is_cut_off(parts[place], full(values[place], 0))
    &&& text::utf8_len("["@ + text::listed(parts)) > 49152
    &&& text::utf8_len("["@ + text::listed(parts.take(place))) <= 49152
}

proof fn lemma_list_cut_at(values: Seq<Value>, count: nat)
    requires
        count <= values.len(),
        !amf::cut_list(values, count).1,
    ensures
        exists|place: int| #[trigger] is_cut_at(values, amf::cut_list(values, count).0, place),
    decreases count,
{
    let last = (count - 1) as nat;
    let (front, ok) = amf::cut_list(values, last);
    let (parts, _) = amf::cut_list(values, count);
    if !ok {
        lemma_list_cut_at(values, last);
    } else {
        let e = Seq::<char>::empty();
        let start = text::utf8_len(seq!['['] + text::listed(front.push(e)));
        let part = amf::cut(values[last as int], 0, start, 49152).0;
        reveal_strlit("[");
        assert("["@ =~= seq!['[']);
        lemma_list_full(values, last);
        lemma_list_len(values, last);
        lemma_cut_cuts(values[last as int], 0, start, 49152);
        law_the_limit_is_told(values[last as int], 0, start, 49152);
        lemma_written_grows(front, e, part, false);
        assert(e + part =~= part);
        text::lemma_utf8_len_concat(seq!['['], text::listed(front.push(e)));
        text::lemma_utf8_len_concat(seq!['['], text::listed(front.push(part)));
        assert(parts.take(last as int) =~= front);
        assert(is_cut_at(values, parts, last as int));
    }
}

/// A list that passes the limit is written up to the value that passes it,
/// which is shown up to some point, and a mark stands behind it.
pub proof fn law_large_lists_are_marked(values: Seq<Value>)
    ensures
        text::utf8_len("["@ + text::listed(full_list(values))) <= 49152 ==> amf::amf_list_json(
            values,
        ) == "["@ + text::listed(full_list(values)) + "]"@,
        text::utf8_len("["@ + text::listed(full_list(values))) > 49152 ==> exists|
            parts: Seq<Seq<char>>,
            place: int,
        | #[trigger]
            is_cut_at(values, parts, place) && amf::amf_list_json(values) == "["@ + text::listed(
                parts.push("\"…truncated\""@),
            ) + "]"@,
{
    reveal_strlit("[");
    reveal_strlit("]");
    assert("["@ =~= seq!['[']);
    assert("]"@ =~= seq![']']);
    law_small_lists_are_complete(values);
    if text::utf8_len("["@ + text::listed(full_list(values))) > 49152 {
        let parts = amf::cut_list(values, values.len()).0;
        lemma_list_cut_at(values, values.len());
        let place = choose|place: int| #[trigger] is_cut_at(values, parts, place);
        assert(is_cut_at(values, parts, place));
    }
}

} // verus!
