//! What each operation does to the recorder, and what a drain writes.

use crate::ieee;
use crate::json;
use crate::profiler;
use crate::profiler::{Counter, Event, MovieScope, Profiler, Span, Times};
use crate::render;
use crate::text;
use vstd::prelude::*;

verus! {

/// Nothing but the events and the number of dropped ones differs.
pub open spec fn keeps_the_rest(before: Profiler, after: Profiler) -> bool {
    &&& after.sequence == before.sequence
    &&& after.counters@ == before.counters@
    &&& after.movie == before.movie
}

/// The last event is this one, and those before it are the earlier ones.
pub open spec fn ends_with(before: Profiler, after: Profiler, event: Event) -> bool {
    &&& after.events@.len() == before.events@.len() + 1
    &&& after.events@.last() == event
    &&& after.events@.drop_last() == before.events@
    &&& after.dropped == before.dropped
    &&& keeps_the_rest(before, after)
}

/// One more event has been dropped.
pub open spec fn drops_one(before: Profiler, after: Profiler) -> bool {
    &&& after.events@ == before.events@
    &&& after.dropped == before.dropped + 1
    &&& keeps_the_rest(before, after)
}

/// The event is behind the others where there are fewer than a quarter of a
/// million, and counted as dropped where there are not.
pub open spec fn appears(before: Profiler, after: Profiler, event: Event) -> bool {
    if before.events@.len() < 250_000 {
        ends_with(before, after, event)
    } else {
        drops_one(before, after)
    }
}

/// An event goes behind the others as long as there are fewer than a quarter
/// of a million, and is counted as dropped from there on.
pub proof fn law_events_go_to_the_end(before: Profiler, after: Profiler, event: Event)
    requires
        profiler::records(before, after, event),
    ensures
        before.events@.len() < 250_000 ==> ends_with(before, after, event),
        before.events@.len() >= 250_000 ==> drops_one(before, after),
{
    assert(before.events@.push(event).drop_last() =~= before.events@);
}

/// Room for an event is missing only where the number of dropped ones is at
/// its end and the buffer is full.
pub proof fn law_room_for_events(p: Profiler, count: nat)
    ensures
        p.can_record() <==> p.events@.len() < 250_000 || p.dropped < u64::MAX,
        p.is_bounded() <==> p.events@.len() <= 250_000,
        p.is_bounded() ==> (p.has_room(count) <==> p.events@.len() + p.dropped + count <= 250_000
            + u64::MAX),
        p.has_room(1) <==> p.can_record(),
{
}

/// A region that took less than its threshold leaves the recorder as it is,
/// whatever else is known of it.
pub proof fn law_short_spans_are_dropped<M: Fn(u64, u64) -> u64>(
    span: Span,
    before: Profiler,
    after: Profiler,
    end: u64,
    minus: M,
)
    requires
        span.finishes(before, after, end, minus),
        ieee::is_number(span.min_duration),
        forall|dur: u64| #[trigger]
            minus.ensures((end, span.start), dur) ==> ieee::is_number(dur) && ieee::double(dur)
                < ieee::double(span.min_duration),
    ensures
        after == before,
{
}

/// A region that took no less than its threshold is recorded with its start,
/// its duration, what it was and its arguments; so is one whose duration is
/// not a number.
pub proof fn law_long_spans_are_recorded<M: Fn(u64, u64) -> u64>(
    span: Span,
    before: Profiler,
    after: Profiler,
    end: u64,
    minus: M,
)
    requires
        span.finishes(before, after, end, minus),
        forall|dur: u64| #[trigger]
            minus.ensures((end, span.start), dur) ==> !ieee::is_number(dur) || !ieee::is_number(
                span.min_duration,
            ) || ieee::double(dur) >= ieee::double(span.min_duration),
    ensures
        exists|dur: u64| #[trigger]
            minus.ensures((end, span.start), dur) && {
                let event = Event {
                    ts: span.start,
                    dur,
                    cat: span.cat,
                    name: span.name,
                    args: span.args,
                };
                appears(before, after, event)
            },
{
    let dur = choose|dur: u64| #[trigger]
        minus.ensures((end, span.start), dur) && if span.is_short(dur) {
            after == before
        } else {
            profiler::records(before, after, span.event(dur))
        };
    law_events_go_to_the_end(before, after, span.event(dur));
}

/// Whatever a region took, finishing it does one of the two: nothing where it
/// was shorter than its threshold, one event where it was not.
pub proof fn law_spans_finish<M: Fn(u64, u64) -> u64>(
    span: Span,
    before: Profiler,
    after: Profiler,
    end: u64,
    minus: M,
)
    requires
        span.finishes(before, after, end, minus),
    ensures
        exists|dur: u64| #[trigger]
            minus.ensures((end, span.start), dur) && {
                let event = Event {
                    ts: span.start,
                    dur,
                    cat: span.cat,
                    name: span.name,
                    args: span.args,
                };
                if ieee::is_number(dur) && ieee::is_number(span.min_duration) && ieee::double(dur)
                    < ieee::double(span.min_duration) {
                    after == before
                } else {
                    appears(before, after, event)
                }
            },
{
    let dur = choose|dur: u64| #[trigger]
        minus.ensures((end, span.start), dur) && if span.is_short(dur) {
            after == before
        } else {
            profiler::records(before, after, span.event(dur))
        };
    if !span.is_short(dur) {
        law_events_go_to_the_end(before, after, span.event(dur));
    }
}

/// The counters have places and names of their own, in this order.
pub proof fn law_counters_are_named(counter: Counter)
    ensures
        Counter::COUNT == 9,
        counter.position() == (match counter {
            Counter::DisplayObjectsRendered => 0int,
            Counter::ShapesRegistered => 1,
            Counter::BitmapsRegistered => 2,
            Counter::TexturesUpdated => 3,
            Counter::OffscreenRenders => 4,
            Counter::TextLayouts => 5,
            Counter::ObjectsInstantiated => 6,
            Counter::BitmapsDecoded => 7,
            Counter::LayerBlendsInlined => 8,
        }),
        Counter::NAMES@[counter.position()]@ == (match counter {
            Counter::DisplayObjectsRendered => "display_objects"@,
            Counter::ShapesRegistered => "shapes_registered"@,
            Counter::BitmapsRegistered => "bitmaps_registered"@,
            Counter::TexturesUpdated => "textures_updated"@,
            Counter::OffscreenRenders => "offscreen_renders"@,
            Counter::TextLayouts => "text_layouts"@,
            Counter::ObjectsInstantiated => "objects_instantiated"@,
            Counter::BitmapsDecoded => "bitmaps_decoded"@,
            Counter::LayerBlendsInlined => "layer_blends_inlined"@,
        }),
{
}

/// An operation of the renderer adds one to its own counter and to no other,
/// and leaves the rest as it is.
pub proof fn law_operations_are_tallied(
    before: Profiler,
    after: Profiler,
    counter: Counter,
    other: Counter,
)
    requires
        render::tallies(before, after, counter),
    ensures
        before.counters@[counter.position()] < u32::MAX ==> after.counters@[counter.position()]
            == before.counters@[counter.position()] + 1,
        before.counters@[counter.position()] == u32::MAX ==> after.counters@[counter.position()]
            == 0,
        other != counter ==> after.counters@[other.position()]
            == before.counters@[other.position()],
        after.events@ == before.events@,
        after.dropped == before.dropped,
        after.sequence == before.sequence,
        after.movie == before.movie,
{
}

/// Counting changes nothing but counters, and a scope nothing but the movie.
pub proof fn law_the_rest_is_kept(before: Profiler, after: Profiler)
    ensures
        profiler::only_counts(before, after) ==> after.events@ == before.events@ && after.dropped
            == before.dropped && after.sequence == before.sequence && after.movie == before.movie,
        profiler::only_scopes(before, after) ==> after.events@ == before.events@ && after.dropped
            == before.dropped && after.sequence == before.sequence && after.counters@
            == before.counters@,
{
}

/// Inside a scope its movie is the one, the scope holds the one before, and
/// leaving it brings that back.
pub proof fn law_scopes_hold_the_movie_before(
    before: Profiler,
    after: Profiler,
    url: String,
    scope: MovieScope,
)
    ensures
        profiler::enters(before, after, url, scope) ==> after.movie == Some(url) && scope.0
            == before.movie && profiler::only_scopes(before, after),
        profiler::leaves(before, after, scope) ==> after.movie == scope.0 && profiler::only_scopes(
            before,
            after,
        ),
{
}

/// The movie in scope is written as a literal that reads back to its URL, or
/// as `null` where there is none.
pub proof fn law_movies_read_back(url: String)
    ensures
        profiler::movie_text(None) == "null"@,
        json::text_of(profiler::movie_text(Some(url))) == url@,
        profiler::movie_text(Some(url)) == json::quoted(url@),
{
    json::law_literals_read_back(url@, url@);
}

/// An event as it is written: its number, its times, its category, its name
/// and its arguments, where it has any.
pub open spec fn line(
    number: nat,
    ts: Seq<char>,
    dur: Seq<char>,
    cat: Seq<char>,
    name: Seq<char>,
    args: Option<Seq<char>>,
) -> Seq<char> {
    let parts = seq![
        "\"s\":"@ + text::decimal(number),
        "\"t\":"@ + ts,
        "\"d\":"@ + dur,
        "\"c\":\""@ + cat + "\""@,
        "\"n\":\""@ + name + "\""@,
    ];
    match args {
        Some(args) => "{"@ + text::listed(parts.push("\"a\":"@ + args)) + "}"@,
        None => "{"@ + text::listed(parts) + "}"@,
    }
}

/// Every event is written as such an object.
pub proof fn law_events_are_lines(
    number: nat,
    ts: Seq<char>,
    dur: Seq<char>,
    cat: Seq<char>,
    name: Seq<char>,
    args: Option<Seq<char>>,
)
    ensures
        profiler::event_object(number, ts, dur, cat, name, args) == line(
            number,
            ts,
            dur,
            cat,
            name,
            args,
        ),
{
    reveal_strlit("s");
    reveal_strlit("t");
    reveal_strlit("d");
    reveal_strlit("c");
    reveal_strlit("n");
    reveal_strlit("a");
    reveal_strlit("\"s\":");
    reveal_strlit("\"t\":");
    reveal_strlit("\"d\":");
    reveal_strlit("\"c\":\"");
    reveal_strlit("\"n\":\"");
    reveal_strlit("\"a\":");
    reveal_strlit("\"");
    reveal_strlit("{");
    reveal_strlit("}");
    assert("{"@ =~= seq!['{']);
    assert("}"@ =~= seq!['}']);
    assert(json::member("s"@, text::decimal(number)) =~= "\"s\":"@ + text::decimal(number));
    assert(json::member("t"@, ts) =~= "\"t\":"@ + ts);
    assert(json::member("d"@, dur) =~= "\"d\":"@ + dur);
    assert(json::member("c"@, json::literal(cat)) =~= "\"c\":\""@ + cat + "\""@);
    assert(json::member("n"@, json::literal(name)) =~= "\"n\":\""@ + name + "\""@);
    if let Some(args) = args {
        assert(json::member("a"@, args) =~= "\"a\":"@ + args);
    }
}

/// The times of all events, and of the drain where events were dropped, in
/// decimal.
pub open spec fn are_written<F: Fn(u64) -> String>(
    fixed3: F,
    events: Seq<Event>,
    now: u64,
    dropped: nat,
    ts: Seq<String>,
    dur: Seq<String>,
    at: String,
) -> bool {
    &&& ts.len() == events.len()
    &&& dur.len() == events.len()
    &&& forall|i: int| 0 <= i < events.len() ==> fixed3.ensures((events[i].ts,), #[trigger] ts[i])
    &&& forall|i: int|
        0 <= i < events.len() ==> fixed3.ensures((events[i].dur,), #[trigger] dur[i])
    &&& dropped > 0 ==> fixed3.ensures((now,), at)
}

/// The arguments of an event as text.
pub open spec fn args_of(event: Event) -> Option<Seq<char>> {
    match event.args {
        Some(args) => Some(args@),
        None => None,
    }
}

/// A drain writes every waiting event in order, numbered on from the first
/// one, and behind them how many were dropped, where any were. It leaves
/// nothing waiting, and the next number is one past the last event.
pub proof fn law_drains_write_the_events<F: Fn(u64) -> String>(
    before: Profiler,
    after: Profiler,
    now: u64,
    fixed3: F,
    out: Seq<char>,
)
    requires
        profiler::drains(before, after, now, fixed3, out),
    ensures
        after.events@.len() == 0,
        after.dropped == 0,
        after.sequence == before.sequence + before.events@.len(),
        after.counters@ == before.counters@,
        after.movie == before.movie,
        exists|ts: Seq<String>, dur: Seq<String>, at: String| #[trigger]
            are_written(fixed3, before.events@, now, before.dropped as nat, ts, dur, at) && {
                let lines = Seq::new(
                    before.events@.len(),
                    |i: int|
                        line(
                            (before.sequence + i) as nat,
                            ts[i]@,
                            dur[i]@,
                            before.events@[i].cat@,
                            before.events@[i].name@,
                            args_of(before.events@[i]),
                        ),
                );
                let last = line(
                    (before.sequence + before.events@.len()) as nat,
                    at@,
                    "0"@,
                    "profiler"@,
                    "events_dropped"@,
                    Some("{\"count\":"@ + text::decimal(before.dropped as nat) + "}"@),
                );
                out == "["@ + text::listed(
                    if before.dropped > 0 {
                        lines.push(last)
                    } else {
                        lines
                    },
                ) + "]"@
            },
{
    let events = before.events@;
    let first = before.sequence as nat;
    let dropped = before.dropped as nat;
    let (times, at) = choose|times: Seq<Times>, at: String| #[trigger]
        profiler::are_times(fixed3, events, dropped, now, times, at) && out == json::array(
            profiler::drained_parts(events, times, first, dropped, at@),
        );
    let ts = times.map_values(|t: Times| t.ts);
    let dur = times.map_values(|t: Times| t.dur);
    assert(are_written(fixed3, events, now, dropped, ts, dur, at)) by {
        assert forall|i: int| 0 <= i < events.len() implies fixed3.ensures(
            (events[i].ts,),
            #[trigger] ts[i],
        ) by {
            assert(ts[i] == times[i].ts);
        }
        assert forall|i: int| 0 <= i < events.len() implies fixed3.ensures(
            (events[i].dur,),
            #[trigger] dur[i],
        ) by {
            assert(dur[i] == times[i].dur);
        }
    }
    let lines = Seq::new(
        events.len(),
        |i: int|
            line(
                (before.sequence + i) as nat,
                ts[i]@,
                dur[i]@,
                events[i].cat@,
                events[i].name@,
                args_of(events[i]),
            ),
    );
    let all = profiler::drained_parts(events, times, first, 0, at@);
    assert forall|i: int| 0 <= i < events.len() implies #[trigger] all[i] == lines[i] by {
        law_events_are_lines(
            (first + i) as nat,
            times[i].ts@,
            times[i].dur@,
            events[i].cat@,
            events[i].name@,
            args_of(events[i]),
        );
    }
    assert(all =~= lines);
    reveal_strlit("[");
    reveal_strlit("]");
    reveal_strlit("{\"count\":");
    reveal_strlit("count");
    reveal_strlit("}");
    assert("["@ =~= seq!['[']);
    assert("]"@ =~= seq![']']);
    let count = "{\"count\":"@ + text::decimal(dropped) + "}"@;
    let member = json::member("count"@, text::decimal(dropped));
    assert(json::object(seq![member]) =~= count);
    law_events_are_lines(
        first + events.len(),
        at@,
        "0"@,
        "profiler"@,
        "events_dropped"@,
        Some(count),
    );
}

/// What is recorded of an instant of the renderer: at which time, under which
/// name, and that it took no time.
pub proof fn law_notes_are_instants(
    before: Profiler,
    after: Profiler,
    now: u64,
    name: &'static str,
    parts: Seq<Seq<char>>,
)
    requires
        render::notes(before, after, now, name, parts),
    ensures
        exists|args: String|
            args@ == "{"@ + text::listed(parts) + "}"@ && #[trigger] appears(
                before,
                after,
                (Event { ts: now, dur: 0, cat: "render", name, args: Some(args) }),
            ),
{
    let args = choose|args: String|
        args@ == json::object(parts) && #[trigger] profiler::records(
            before,
            after,
            (Event { ts: now, dur: 0, cat: "render", name, args: Some(args) }),
        );
    let event = Event { ts: now, dur: 0, cat: "render", name, args: Some(args) };
    reveal_strlit("{");
    reveal_strlit("}");
    assert("{"@ =~= seq!['{']);
    assert("}"@ =~= seq!['}']);
    law_events_go_to_the_end(before, after, event);
    assert(appears(before, after, event));
}

/// The span of an operation is open since then, under the name of the
/// operation and with what is told of it.
pub proof fn law_operations_are_spans(
    span: Span,
    now: u64,
    name: &'static str,
    parts: Seq<Seq<char>>,
    min_duration: u64,
)
    requires
        render::is_open(span, now, name, parts, min_duration),
    ensures
        span.start == now,
        span.cat == "render",
        span.name == name,
        span.args matches Some(args) && args@ == "{"@ + text::listed(parts) + "}"@,
        span.min_duration == min_duration,
{
    reveal_strlit("{");
    reveal_strlit("}");
    assert("{"@ =~= seq!['{']);
    assert("}"@ =~= seq!['}']);
}

} // verus!
