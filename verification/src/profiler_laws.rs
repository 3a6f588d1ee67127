//! What the recorder keeps to, over any number of calls.

use crate::ieee;
use crate::json;
use crate::profiler;
use crate::profiler::{Counter, Event, Profiler, Span, Times, MAX_BUFFERED_EVENTS};
use crate::text;
use vstd::prelude::*;

verus! {

/// One step of the recorder: an event is recorded, or counters or the movie in
/// scope change.
pub open spec fn is_step(before: Profiler, after: Profiler, event: Option<Event>) -> bool {
    match event {
        Some(event) => profiler::records(before, after, event),
        None => profiler::only_counts(before, after) || profiler::only_scopes(before, after),
    }
}

/// The steps were taken one after the other: `states` are the recorder before
/// the first, between each two, and after the last.
pub open spec fn is_run(states: Seq<Profiler>, steps: Seq<Option<Event>>) -> bool {
    &&& states.len() == steps.len() + 1
    &&& forall|i: int|
        0 <= i < steps.len() ==> #[trigger] is_step(states[i], states[i + 1], steps[i])
}

/// The events that steps record, in order.
pub open spec fn recorded(steps: Seq<Option<Event>>) -> Seq<Event>
    decreases steps.len(),
{
    if steps.len() == 0 {
        Seq::empty()
    } else {
        match steps.last() {
            Some(event) => recorded(steps.drop_last()).push(event),
            None => recorded(steps.drop_last()),
        }
    }
}

/// Memory stays bounded: no step makes the buffer pass its bound.
pub proof fn law_buffer_stays_bounded(before: Profiler, after: Profiler, event: Option<Event>)
    requires
        before.is_bounded(),
        is_step(before, after, event),
    ensures
        after.is_bounded(),
{
}

/// Of the events recorded since a drain, the earliest fill the buffer in
/// order and all others are counted: none is lost without being counted.
pub proof fn law_events_are_kept_or_counted(states: Seq<Profiler>, steps: Seq<Option<Event>>)
    requires
        is_run(states, steps),
        states[0].events@.len() == 0,
        states[0].dropped == 0,
    ensures
        ({
            let events = recorded(steps);
            &&& states.last().events@ == events.take(kept(events.len()) as int)
            &&& states.last().dropped == events.len() - kept(events.len())
            &&& states.last().sequence == states[0].sequence
            &&& states.last().is_bounded()
        }),
    decreases steps.len(),
{
    let events = recorded(steps);
    if steps.len() > 0 {
        let front = states.drop_last();
        let n = steps.len() - 1;
        assert forall|i: int| 0 <= i < steps.drop_last().len() implies #[trigger] is_step(
            front[i],
            front[i + 1],
            steps.drop_last()[i],
        ) by {
            assert(is_step(states[i], states[i + 1], steps[i]));
        }
        law_events_are_kept_or_counted(front, steps.drop_last());
        assert(is_step(states[n], states[n + 1], steps[n]));
        let before = recorded(steps.drop_last());
        if let Some(event) = steps.last() {
            if before.len() < MAX_BUFFERED_EVENTS {
                assert(before.take(before.len() as int) =~= before);
                assert(events.take(events.len() as int) =~= before.push(event));
            } else {
                assert(before.take(MAX_BUFFERED_EVENTS as int) =~= events.take(
                    MAX_BUFFERED_EVENTS as int,
                ));
            }
        }
    } else {
        assert(events.take(0) =~= Seq::empty());
    }
}

/// How many of so many events are kept.
pub open spec fn kept(count: nat) -> nat {
    if count <= MAX_BUFFERED_EVENTS {
        count
    } else {
        MAX_BUFFERED_EVENTS as nat
    }
}

/// What a drain tells of these events, numbered from `first` on: those that
/// are kept, in order and each once, and behind them how many others there
/// were, where there were any.
pub open spec fn told(events: Seq<Event>, times: Seq<Times>, first: nat, at: Seq<char>) -> Seq<
    Seq<char>,
> {
    let parts = Seq::new(
        kept(events.len()),
        |i: int| profiler::event_json((first + i) as nat, times[i], events[i]),
    );
    if events.len() > MAX_BUFFERED_EVENTS {
        parts.push(
            profiler::dropped_json(
                first + kept(events.len()),
                at,
                (events.len() - MAX_BUFFERED_EVENTS) as nat,
            ),
        )
    } else {
        parts
    }
}

/// A drain tells exactly what was recorded since the drain before it, and
/// leaves nothing behind.
pub proof fn law_drains_tell_what_was_recorded<F: Fn(u64) -> String>(
    states: Seq<Profiler>,
    steps: Seq<Option<Event>>,
    after: Profiler,
    now: u64,
    fixed3: F,
    out: Seq<char>,
)
    requires
        is_run(states, steps),
        states[0].events@.len() == 0,
        states[0].dropped == 0,
        profiler::drains(states.last(), after, now, fixed3, out),
    ensures
        ({
            let events = recorded(steps);
            exists|times: Seq<Times>, at: String| #[trigger]
                profiler::are_times(
                    fixed3,
                    events.take(kept(events.len()) as int),
                    (events.len() - kept(events.len())) as nat,
                    now,
                    times,
                    at,
                ) && out == json::array(told(events, times, states[0].sequence as nat, at@))
        }),
        after.events@.len() == 0,
        after.dropped == 0,
        after.sequence == states[0].sequence + kept(recorded(steps).len()),
{
    let events = recorded(steps);
    law_events_are_kept_or_counted(states, steps);
    let last = states.last();
    let (times, at) = choose|times: Seq<Times>, at: String| #[trigger]
        profiler::are_times(fixed3, last.events@, last.dropped as nat, now, times, at) && out
            == json::array(
            profiler::drained_parts(
                last.events@,
                times,
                last.sequence as nat,
                last.dropped as nat,
                at@,
            ),
        );
    let parts = profiler::drained_parts(
        last.events@,
        times,
        last.sequence as nat,
        last.dropped as nat,
        at@,
    );
    assert(parts =~= told(events, times, states[0].sequence as nat, at@));
    assert(profiler::are_times(
        fixed3,
        events.take(kept(events.len()) as int),
        (events.len() - kept(events.len())) as nat,
        now,
        times,
        at,
    ));
}

/// A drain right after a drain is empty.
pub proof fn law_drained_recorders_are_empty<F: Fn(u64) -> String>(
    before: Profiler,
    between: Profiler,
    after: Profiler,
    times: (u64, u64),
    fixed3: F,
    first: Seq<char>,
    second: Seq<char>,
)
    requires
        profiler::drains(before, between, times.0, fixed3, first),
        profiler::drains(between, after, times.1, fixed3, second),
    ensures
        second == "[]"@,
        after.sequence == between.sequence,
{
    let (none, at) = choose|none: Seq<Times>, at: String| #[trigger]
        profiler::are_times(fixed3, between.events@, 0, times.1, none, at) && second
            == json::array(
            profiler::drained_parts(between.events@, none, between.sequence as nat, 0, at@),
        );
    let parts = profiler::drained_parts(between.events@, none, between.sequence as nat, 0, at@);
    assert(parts =~= Seq::empty());
    reveal_strlit("[]");
    assert(second =~= "[]"@);
}

/// The number of pending events is the number of elements of the next drain,
/// but for the one that tells how many were dropped.
pub proof fn law_pending_events_are_drained<F: Fn(u64) -> String>(
    before: Profiler,
    after: Profiler,
    pending: nat,
    now: u64,
    fixed3: F,
    out: Seq<char>,
)
    requires
        pending == before.events@.len(),
        profiler::drains(before, after, now, fixed3, out),
    ensures
        exists|times: Seq<Times>, at: String| #[trigger]
            profiler::are_times(fixed3, before.events@, before.dropped as nat, now, times, at) && ({
                let parts = profiler::drained_parts(
                    before.events@,
                    times,
                    before.sequence as nat,
                    before.dropped as nat,
                    at@,
                );
                &&& out == json::array(parts)
                &&& forall|i: int|
                    0 <= i < pending ==> #[trigger] parts[i] == profiler::event_json(
                        (before.sequence + i) as nat,
                        times[i],
                        before.events@[i],
                    )
                &&& if before.dropped == 0 {
                    parts.len() == pending
                } else {
                    parts.len() == pending + 1 && parts.last() == profiler::dropped_json(
                        before.sequence as nat + pending,
                        at@,
                        before.dropped as nat,
                    )
                }
            }),
{
}

/// Draining in two steps numbers and renders the events as draining once
/// would.
pub proof fn law_drains_follow_on(
    a: Seq<Event>,
    b: Seq<Event>,
    times_a: Seq<Times>,
    times_b: Seq<Times>,
    first: nat,
    now: Seq<char>,
)
    requires
        a.len() == times_a.len(),
        b.len() == times_b.len(),
    ensures
        profiler::drained_parts(a + b, times_a + times_b, first, 0, now)
            == profiler::drained_parts(a, times_a, first, 0, now) + profiler::drained_parts(
            b,
            times_b,
            first + a.len(),
            0,
            now,
        ),
{
    let whole = profiler::drained_parts(a + b, times_a + times_b, first, 0, now);
    let x = profiler::drained_parts(a, times_a, first, 0, now);
    let y = profiler::drained_parts(b, times_b, first + a.len(), 0, now);
    assert forall|i: int| 0 <= i < whole.len() implies #[trigger] whole[i] == (x + y)[i] by {
        if i >= a.len() {
            assert((a + b)[i] == b[i - a.len()]);
            assert((times_a + times_b)[i] == times_b[i - a.len()]);
            assert((x + y)[i] == y[i - a.len()]);
            assert(first + i == first + a.len() + (i - a.len()));
        }
    }
    assert(whole =~= x + y);
}

/// The names that the recorder writes need no escapes.
proof fn lemma_keys_are_plain()
    ensures
        json::is_body("s"@),
        json::is_body("t"@),
        json::is_body("d"@),
        json::is_body("c"@),
        json::is_body("n"@),
        json::is_body("a"@),
        json::is_body("count"@),
        json::is_body("profiler"@),
        json::is_body("events_dropped"@),
        json::is_number("0"@),
{
    reveal_strlit("s");
    reveal_strlit("t");
    reveal_strlit("d");
    reveal_strlit("c");
    reveal_strlit("n");
    reveal_strlit("a");
    reveal_strlit("count");
    reveal_strlit("profiler");
    reveal_strlit("events_dropped");
    reveal_strlit("0");
    json::lemma_plain_is_body("s"@);
    json::lemma_plain_is_body("t"@);
    json::lemma_plain_is_body("d"@);
    json::lemma_plain_is_body("c"@);
    json::lemma_plain_is_body("n"@);
    json::lemma_plain_is_body("a"@);
    json::lemma_plain_is_body("count"@);
    json::lemma_plain_is_body("profiler"@);
    json::lemma_plain_is_body("events_dropped"@);
    json::lemma_decimal_is_number(0);
    assert("0"@ =~= text::decimal(0));
}

proof fn lemma_event_valid(
    number: nat,
    ts: Seq<char>,
    dur: Seq<char>,
    cat: Seq<char>,
    name: Seq<char>,
    args: Option<Seq<char>>,
    depth: nat,
)
    requires
        json::is_number(ts),
        json::is_number(dur),
        json::is_body(cat),
        json::is_body(name),
        args is Some ==> json::is_element(args->0, depth),
    ensures
        json::is_element(profiler::event_object(number, ts, dur, cat, name, args), depth + 1),
{
    lemma_keys_are_plain();
    json::lemma_decimal_is_number(number);
    json::lemma_literal_is_string(cat);
    json::lemma_literal_is_string(name);
    json::lemma_member("s"@, text::decimal(number), depth);
    json::lemma_member("t"@, ts, depth);
    json::lemma_member("d"@, dur, depth);
    json::lemma_member("c"@, json::literal(cat), depth);
    json::lemma_member("n"@, json::literal(name), depth);
    let parts = seq![
        json::member("s"@, text::decimal(number)),
        json::member("t"@, ts),
        json::member("d"@, dur),
        json::member("c"@, json::literal(cat)),
        json::member("n"@, json::literal(name)),
    ];
    if let Some(args) = args {
        json::lemma_member_of_element("a"@, args, depth);
        json::lemma_object(parts.push(json::member("a"@, args)), depth);
    } else {
        json::lemma_object(parts, depth);
    }
    json::lemma_value_is_element(
        profiler::event_object(number, ts, dur, cat, name, args),
        depth + 1,
    );
}

/// The arguments of all events keep to some nesting depth.
proof fn lemma_common_depth(events: Seq<Event>) -> (depth: nat)
    requires
        forall|i: int|
            0 <= i < events.len() ==> ((#[trigger] events[i]).args is Some ==> json::is_json(
                events[i].args->0@,
            )),
    ensures
        forall|i: int|
            0 <= i < events.len() ==> ((#[trigger] events[i]).args is Some ==> json::is_element(
                events[i].args->0@,
                depth,
            )),
    decreases events.len(),
{
    if events.len() == 0 {
        0
    } else {
        let front = events.drop_last();
        assert forall|i: int|
            0 <= i < front.len() && (#[trigger] front[i]).args is Some implies json::is_json(
            front[i].args->0@,
        ) by {
            assert(front[i] == events[i]);
        }
        let before = lemma_common_depth(front);
        let last = events.last();
        assert(last == events[events.len() - 1]);
        let own = if last.args is Some {
            choose|depth: nat| json::is_element(last.args->0@, depth)
        } else {
            0
        };
        let depth = before + own;
        assert forall|i: int|
            0 <= i < events.len() && (#[trigger] events[i]).args is Some implies json::is_element(
            events[i].args->0@,
            depth,
        ) by {
            if i < front.len() {
                assert(front[i] == events[i]);
                json::lemma_element_deeper(events[i].args->0@, before, depth);
            } else {
                json::lemma_element_deeper(events[i].args->0@, own, depth);
            }
        }
        depth
    }
}

/// A drain is a JSON text: an array with one object for each event. The
/// arguments of the events are JSON, their categories and names need no
/// escapes, and their times are written as numbers.
pub proof fn law_drains_are_json(
    events: Seq<Event>,
    times: Seq<Times>,
    first: nat,
    dropped: nat,
    now: Seq<char>,
)
    requires
        times.len() == events.len(),
        forall|i: int|
            0 <= i < times.len() ==> json::is_number((#[trigger] times[i]).ts@) && json::is_number(
                times[i].dur@,
            ),
        dropped > 0 ==> json::is_number(now),
        forall|i: int|
            0 <= i < events.len() ==> json::is_body((#[trigger] events[i]).cat@) && json::is_body(
                events[i].name@,
            ) && (events[i].args is Some ==> json::is_json(events[i].args->0@)),
    ensures
        json::is_json(
            json::array(profiler::drained_parts(events, times, first, dropped, now)),
        ),
{
    let depth = lemma_common_depth(events);
    let parts = profiler::drained_parts(events, times, first, dropped, now);
    assert forall|i: int| 0 <= i < parts.len() implies json::is_element(
        #[trigger] parts[i],
        depth + 2,
    ) by {
        if i < events.len() {
            let event = events[i];
            assert(json::is_number(times[i].ts@));
            lemma_event_valid(
                (first + i) as nat,
                times[i].ts@,
                times[i].dur@,
                event.cat@,
                event.name@,
                match event.args {
                    Some(args) => Some(args@),
                    None => None,
                },
                depth,
            );
            json::lemma_element_deeper(parts[i], depth + 1, depth + 2);
        } else {
            lemma_keys_are_plain();
            json::lemma_decimal_is_number(dropped);
            let count = json::member("count"@, text::decimal(dropped));
            json::lemma_member("count"@, text::decimal(dropped), 0);
            json::lemma_object(seq![count], 0);
            json::lemma_value_is_element(json::object(seq![count]), 1);
            json::lemma_element_deeper(json::object(seq![count]), 1, depth + 1);
            lemma_event_valid(
                first + events.len(),
                now,
                "0"@,
                "profiler"@,
                "events_dropped"@,
                Some(json::object(seq![count])),
                depth + 1,
            );
        }
    }
    json::lemma_array(parts, depth + 2);
    json::lemma_value_is_element(json::array(parts), depth + 3);
}

/// The rendered counters are object members: between braces they are a JSON
/// text.
pub proof fn law_counters_are_members(counters: Seq<u32>)
    ensures
        json::is_json(json::object(profiler::counter_parts(counters))),
{
    let parts = profiler::counter_parts(counters);
    lemma_counter_names_are_plain();
    assert forall|i: int| 0 <= i < parts.len() implies json::is_member(#[trigger] parts[i], 0) by {
        json::lemma_decimal_is_number(counters[i] as nat);
        json::lemma_member(Counter::NAMES@[i]@, text::decimal(counters[i] as nat), 0);
    }
    json::lemma_object(parts, 0);
    json::lemma_value_is_element(json::object(parts), 1);
}

proof fn lemma_counter_names_are_plain()
    ensures
        forall|i: int| 0 <= i < 9 ==> json::is_body(#[trigger] Counter::NAMES@[i]@),
{
    reveal_strlit("display_objects");
    reveal_strlit("shapes_registered");
    reveal_strlit("bitmaps_registered");
    reveal_strlit("textures_updated");
    reveal_strlit("offscreen_renders");
    reveal_strlit("text_layouts");
    reveal_strlit("objects_instantiated");
    reveal_strlit("bitmaps_decoded");
    reveal_strlit("layer_blends_inlined");
    json::lemma_plain_is_body("display_objects"@);
    json::lemma_plain_is_body("shapes_registered"@);
    json::lemma_plain_is_body("bitmaps_registered"@);
    json::lemma_plain_is_body("textures_updated"@);
    json::lemma_plain_is_body("offscreen_renders"@);
    json::lemma_plain_is_body("text_layouts"@);
    json::lemma_plain_is_body("objects_instantiated"@);
    json::lemma_plain_is_body("bitmaps_decoded"@);
    json::lemma_plain_is_body("layer_blends_inlined"@);
}

/// Leaving a movie scope undoes entering it, whatever happened in between,
/// as long as every scope entered meanwhile was left; inside the scope its
/// movie is the one that is written.
pub proof fn law_scopes_nest(
    before: Profiler,
    inside: Profiler,
    leaving: Profiler,
    after: Profiler,
    url: String,
    scope: profiler::MovieScope,
)
    requires
        profiler::enters(before, inside, url, scope),
        leaving.movie == inside.movie,
        profiler::leaves(leaving, after, scope),
    ensures
        profiler::movie_text(inside.movie) == json::quoted(url@),
        after.movie == before.movie,
{
}

/// The movie in scope is written as a JSON text.
pub proof fn law_movie_is_json(movie: Option<String>)
    ensures
        json::is_json(profiler::movie_text(movie)),
{
    reveal_strlit("null");
    assert("null"@ =~= seq!['n', 'u', 'l', 'l']);
    json::lemma_value_is_element("null"@, 0);
    if let Some(url) = movie {
        json::law_string_literal_is_json(url@);
    }
}

/// A span without a threshold is recorded whatever time it took, as long as
/// the clock did not run backwards.
pub proof fn law_spans_are_recorded_by_default(
    now: u64,
    cat: &'static str,
    name: &'static str,
    args: Option<String>,
    dur: u64,
)
    requires
        !ieee::is_number(dur) || ieee::double(dur) >= 0,
    ensures
        !(Span { start: now, cat, name, args, min_duration: 0 }).is_short(dur),
{
    ieee::lemma_zero();
}

} // verus!
