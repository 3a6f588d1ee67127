//! A low-overhead event recorder.
//!
//! The recorder holds what the player did over time (frame phases, rendering
//! work, loading, network traffic) so that it can be lined up against the
//! frame rate in an external viewer. Times are binary64 milliseconds on the
//! embedder's clock and are handed over as bit patterns; the embedder also
//! subtracts them and writes them out, through the functions that it passes.
//!
//! * Recording an event is one push on a bounded buffer.
//! * Counters are single additions.
//! * The embedder drains everything as one JSON text.

use crate::ieee;
use crate::json;
use crate::text;
use vstd::prelude::*;

verus! {

/// Upper bound on buffered events when nobody drains them, so that memory
/// stays bounded.
pub const MAX_BUFFERED_EVENTS: usize = 250_000;

/// Per-frame counters aggregated into the `render` event of each frame.
#[derive(Clone, Copy, Debug, Eq, PartialEq, Structural)]
pub enum Counter {
    /// Display objects whose `render` was invoked this frame.
    DisplayObjectsRendered,
    /// Shapes tessellated or uploaded by the renderer (first use of a shape).
    ShapesRegistered,
    /// Bitmaps decoded and uploaded as textures.
    BitmapsRegistered,
    /// Existing textures updated in place.
    TexturesUpdated,
    /// Offscreen renders.
    OffscreenRenders,
    /// Text fields laid out again.
    TextLayouts,
    /// Display objects instantiated from the timeline or by script.
    ObjectsInstantiated,
    /// Bitmaps decoded from their compressed representation.
    BitmapsDecoded,
    /// Layer blend groups rendered inline instead of through an offscreen
    /// target.
    LayerBlendsInlined,
}

impl Counter {
    pub const COUNT: usize = 9;

    pub const NAMES: [&'static str; 9] = [
        "display_objects",
        "shapes_registered",
        "bitmaps_registered",
        "textures_updated",
        "offscreen_renders",
        "text_layouts",
        "objects_instantiated",
        "bitmaps_decoded",
        "layer_blends_inlined",
    ];

    /// The place of the counter among all of them.
    pub open spec fn position(self) -> int {
        match self {
            Counter::DisplayObjectsRendered => 0,
            Counter::ShapesRegistered => 1,
            Counter::BitmapsRegistered => 2,
            Counter::TexturesUpdated => 3,
            Counter::OffscreenRenders => 4,
            Counter::TextLayouts => 5,
            Counter::ObjectsInstantiated => 6,
            Counter::BitmapsDecoded => 7,
            Counter::LayerBlendsInlined => 8,
        }
    }

    /// The place of the counter among all of them.
    pub fn index(self) -> (i: usize)
        ensures
            i == self.position(),
            i < Counter::COUNT,
    {
        match self {
            Counter::DisplayObjectsRendered => 0,
            Counter::ShapesRegistered => 1,
            Counter::BitmapsRegistered => 2,
            Counter::TexturesUpdated => 3,
            Counter::OffscreenRenders => 4,
            Counter::TextLayouts => 5,
            Counter::ObjectsInstantiated => 6,
            Counter::BitmapsDecoded => 7,
            Counter::LayerBlendsInlined => 8,
        }
    }
}

/// A recorded event: when it began, how long it took, what it was, and a
/// JSON object (as text) with more about it.
pub struct Event {
    pub ts: u64,
    pub dur: u64,
    pub cat: &'static str,
    pub name: &'static str,
    pub args: Option<String>,
}

/// The recorder.
pub struct Profiler {
    /// Events waiting to be drained.
    pub events: Vec<Event>,
    /// Events that found the buffer full since the last drain.
    pub dropped: u64,
    /// Number of the first waiting event.
    pub sequence: u64,
    pub counters: [u32; 9],
    /// URL of the movie whose tags are being processed.
    pub movie: Option<String>,
}

impl Profiler {
    /// The buffer keeps to its bound.
    pub open spec fn is_bounded(self) -> bool {
        self.events@.len() <= MAX_BUFFERED_EVENTS
    }

    /// One more event can be stored, or counted as dropped.
    pub open spec fn can_record(self) -> bool {
        self.events@.len() < MAX_BUFFERED_EVENTS || self.dropped < u64::MAX
    }

    /// `count` more events can be stored, or counted as dropped.
    pub open spec fn has_room(self, count: nat) -> bool {
        if self.events@.len() >= MAX_BUFFERED_EVENTS {
            self.dropped + count <= u64::MAX
        } else {
            self.events@.len() + self.dropped + count <= MAX_BUFFERED_EVENTS + u64::MAX
        }
    }

    /// A recorder that has not recorded anything yet.
    pub fn new() -> (p: Profiler)
        ensures
            p.events@.len() == 0,
            p.dropped == 0,
            p.sequence == 0,
            p.counters@ == seq![0u32, 0, 0, 0, 0, 0, 0, 0, 0],
            p.movie is None,
            p.is_bounded(),
            p.can_record(),
    {
        Profiler { events: Vec::new(), dropped: 0, sequence: 0, counters: [0; 9], movie: None }
    }
}

/// `after` is `before` with `event` recorded: at the end of the buffer, or
/// counted as dropped where the buffer is full.
pub open spec fn records(before: Profiler, after: Profiler, event: Event) -> bool {
    &&& if before.events@.len() >= MAX_BUFFERED_EVENTS {
        after.events@ == before.events@ && after.dropped == before.dropped + 1
    } else {
        after.events@ == before.events@.push(event) && after.dropped == before.dropped
    }
    &&& after.sequence == before.sequence
    &&& after.counters@ == before.counters@
    &&& after.movie == before.movie
}

/// `after` is `before` but for the counters.
pub open spec fn only_counts(before: Profiler, after: Profiler) -> bool {
    &&& after.events@ == before.events@
    &&& after.dropped == before.dropped
    &&& after.sequence == before.sequence
    &&& after.movie == before.movie
}

/// `after` is `before` but for the movie in scope.
pub open spec fn only_scopes(before: Profiler, after: Profiler) -> bool {
    &&& after.events@ == before.events@
    &&& after.dropped == before.dropped
    &&& after.sequence == before.sequence
    &&& after.counters@ == before.counters@
}

/// Records an event.
pub fn push(p: &mut Profiler, event: Event)
    requires
        old(p).can_record(),
    ensures
        records(*old(p), *final(p), event),
{
    if p.events.len() >= MAX_BUFFERED_EVENTS {
        p.dropped = p.dropped + 1;
        return;
    }
    p.events.push(event);
}

/// A timed region. The event is recorded when the span is finished.
#[must_use]
pub struct Span {
    pub start: u64,
    pub cat: &'static str,
    pub name: &'static str,
    pub args: Option<String>,
    pub min_duration: u64,
}

impl Span {
    /// Attaches a JSON object (as text) to the event.
    pub fn args(self, args: impl FnOnce() -> String) -> (span: Self)
        requires
            args.requires(()),
        ensures
            span.args is Some,
            args.ensures((), span.args->0),
            span == (Span { args: span.args, ..self }),
    {
        let text: String = args();
        Span {
            start: self.start,
            cat: self.cat,
            name: self.name,
            args: Some(text),
            min_duration: self.min_duration,
        }
    }

    /// Replaces the attached JSON object, e.g. with values only known at the
    /// end of the region.
    pub fn set_args(&mut self, args: impl FnOnce() -> String)
        requires
            args.requires(()),
        ensures
            final(self).args is Some,
            args.ensures((), final(self).args->0),
            *final(self) == (Span { args: final(self).args, ..*old(self) }),
    {
        self.args = Some(args());
    }

    /// Drops the event if the region was shorter than `ms`. Used for
    /// high-frequency regions that are only interesting when slow.
    pub fn min_duration_ms(self, ms: u64) -> (span: Self)
        ensures
            span == (Span { min_duration: ms, ..self }),
    {
        Span {
            start: self.start,
            cat: self.cat,
            name: self.name,
            args: self.args,
            min_duration: ms,
        }
    }

    /// Time since the region began, as `minus` subtracts times.
    pub fn elapsed_ms(&self, now: u64, minus: impl Fn(u64, u64) -> u64) -> (ms: u64)
        requires
            minus.requires((now, self.start)),
        ensures
            minus.ensures((now, self.start), ms),
    {
        minus(now, self.start)
    }

    /// Whether a region of this duration is too short to be recorded.
    pub open spec fn is_short(self, dur: u64) -> bool {
        ieee::is_number(dur) && ieee::is_number(self.min_duration) && ieee::double(dur)
            < ieee::double(self.min_duration)
    }

    /// The event of the region, where it took `dur`.
    pub open spec fn event(self, dur: u64) -> Event {
        Event { ts: self.start, dur, cat: self.cat, name: self.name, args: self.args }
    }

    /// Ends the region: records it, unless it was too short. The duration is
    /// what `minus` makes of the end and the start.
    pub fn finish(self, p: &mut Profiler, end: u64, minus: impl Fn(u64, u64) -> u64)
        requires
            old(p).can_record(),
            minus.requires((end, self.start)),
        ensures
            self.finishes(*old(p), *final(p), end, minus),
    {
        let dur: u64 = minus(end, self.start);
        self.finish_after(p, dur);
    }

    /// `after` is `before` with the region recorded that ends at `end`, unless
    /// it was too short.
    pub open spec fn finishes<M: Fn(u64, u64) -> u64>(
        self,
        before: Profiler,
        after: Profiler,
        end: u64,
        minus: M,
    ) -> bool {
        exists|dur: u64| #[trigger]
            minus.ensures((end, self.start), dur) && if self.is_short(dur) {
                after == before
            } else {
                records(before, after, self.event(dur))
            }
    }

    /// Ends the region, which took `dur`: records it, unless it was too short.
    pub fn finish_after(self, p: &mut Profiler, dur: u64)
        requires
            old(p).can_record(),
        ensures
            ieee::is_number(dur) && ieee::is_number(self.min_duration) && ieee::double(dur)
                < ieee::double(self.min_duration) ==> *final(p) == *old(p),
            !ieee::is_number(dur) || !ieee::is_number(self.min_duration) || ieee::double(dur)
                >= ieee::double(self.min_duration) ==> records(
                *old(p),
                *final(p),
                (Event { ts: self.start, dur, cat: self.cat, name: self.name, args: self.args }),
            ),
            if self.is_short(dur) {
                *final(p) == *old(p)
            } else {
                records(*old(p), *final(p), self.event(dur))
            },
    {
        if ieee::less(dur, self.min_duration) {
            return;
        }
        push(
            p,
            Event { ts: self.start, dur, cat: self.cat, name: self.name, args: self.args },
        );
    }
}

/// Opens a timed region.
pub fn span(now: u64, cat: &'static str, name: &'static str) -> (span: Span)
    ensures
        span == (Span { start: now, cat, name, args: None, min_duration: 0 }),
{
    Span { start: now, cat, name, args: None, min_duration: 0 }
}

/// Records an instantaneous event with a JSON object (as text).
pub fn instant(
    p: &mut Profiler,
    now: u64,
    cat: &'static str,
    name: &'static str,
    args: impl FnOnce() -> String,
)
    requires
        old(p).can_record(),
        args.requires(()),
    ensures
        exists|text: String| #[trigger]
            args.ensures((), text) && records(
                *old(p),
                *final(p),
                (Event { ts: now, dur: 0, cat, name, args: Some(text) }),
            ),
{
    let text: String = args();
    push(p, Event { ts: now, dur: 0, cat, name, args: Some(text) });
}

/// Records a region that started at `start_ms` and ends now. Useful across
/// suspension points and error paths.
pub fn complete(
    p: &mut Profiler,
    now: u64,
    minus: impl Fn(u64, u64) -> u64,
    cat: &'static str,
    name: &'static str,
    start_ms: u64,
    args: impl FnOnce() -> String,
)
    requires
        old(p).can_record(),
        minus.requires((now, start_ms)),
        args.requires(()),
    ensures
        exists|dur: u64, text: String| #[trigger]
            minus.ensures((now, start_ms), dur) && #[trigger] args.ensures((), text) && records(
                *old(p),
                *final(p),
                (Event { ts: start_ms, dur, cat, name, args: Some(text) }),
            ),
{
    let dur: u64 = minus(now, start_ms);
    let text: String = args();
    push(p, Event { ts: start_ms, dur, cat, name, args: Some(text) });
}

/// Records an instantaneous event without arguments.
pub fn mark(p: &mut Profiler, now: u64, cat: &'static str, name: &'static str)
    requires
        old(p).can_record(),
    ensures
        records(*old(p), *final(p), (Event { ts: now, dur: 0, cat, name, args: None })),
{
    push(p, Event { ts: now, dur: 0, cat, name, args: None });
}

/// Marks the movie whose tags are being processed until the scope is left,
/// so that renderer events raised from inside can be attributed to a movie.
#[must_use]
pub struct MovieScope(pub Option<String>);

impl MovieScope {
    /// Ends the scope: the movie that was in scope before is so again.
    pub fn leave(self, p: &mut Profiler)
        ensures
            leaves(*old(p), *final(p), self),
    {
        p.movie = self.0;
    }
}

/// `after` is `before` with the movie with this URL in scope; `scope` holds
/// the one that was.
pub open spec fn enters(before: Profiler, after: Profiler, url: String, scope: MovieScope) -> bool {
    scope.0 == before.movie && after.movie == Some(url) && only_scopes(before, after)
}

/// `after` is `before` with the movie in scope that `scope` holds.
pub open spec fn leaves(before: Profiler, after: Profiler, scope: MovieScope) -> bool {
    after.movie == scope.0 && only_scopes(before, after)
}

/// Puts the movie with this URL in scope.
pub fn movie_scope(p: &mut Profiler, url: String) -> (scope: MovieScope)
    ensures
        enters(*old(p), *final(p), url, scope),
{
    let outer: Option<String> = p.movie.take();
    p.movie = Some(url);
    MovieScope(outer)
}

/// How the movie in scope is written.
pub open spec fn movie_text(movie: Option<String>) -> Seq<char> {
    match movie {
        Some(url) => json::quoted(url@),
        None => "null"@,
    }
}

/// The URL of the movie in scope as a JSON string literal (or `null`).
pub fn movie_json(p: &Profiler) -> (out: String)
    ensures
        out@ == movie_text(p.movie),
{
    match &p.movie {
        Some(url) => json::json_str(url.as_str()),
        None => "null".to_owned(),
    }
}

/// Adds one to a counter.
pub fn inc(p: &mut Profiler, counter: Counter)
    ensures
        final(p).counters@ == old(p).counters@.update(
            counter.position(),
            old(p).counters@[counter.position()].wrapping_add(1),
        ),
        only_counts(*old(p), *final(p)),
{
    self::add(p, counter, 1);
}

/// Adds to a counter, wrapping around at the end of its range.
pub fn add(p: &mut Profiler, counter: Counter, amount: u32)
    ensures
        final(p).counters@ == old(p).counters@.update(
            counter.position(),
            old(p).counters@[counter.position()].wrapping_add(amount),
        ),
        only_counts(*old(p), *final(p)),
{
    let i: usize = counter.index();
    p.counters[i] = p.counters[i].wrapping_add(amount);
}

/// Returns and resets the per-frame counters.
pub fn take_counters(p: &mut Profiler) -> (counters: [u32; 9])
    ensures
        counters@ == old(p).counters@,
        final(p).counters@ == seq![0u32, 0, 0, 0, 0, 0, 0, 0, 0],
        only_counts(*old(p), *final(p)),
{
    let counters: [u32; 9] = p.counters;
    p.counters = [0; 9];
    counters
}

/// The counters as object members.
pub open spec fn counter_parts(counters: Seq<u32>) -> Seq<Seq<char>> {
    Seq::new(9, |i: int| json::member(Counter::NAMES@[i]@, text::decimal(counters[i] as nat)))
}

/// Renders the counters as JSON object members (no surrounding braces), so a
/// call site can splice them into its own argument object.
pub fn counters_json(counters: &[u32; 9]) -> (out: String)
    ensures
        out@ == text::listed(counter_parts(counters@)),
{
    let ghost all = counter_parts(counters@);
    let mut members: json::Parts = json::Parts::new();
    let mut i: usize = 0;
    assert(members.parts() =~= all.take(0));
    while i < Counter::COUNT
        invariant
            i <= Counter::COUNT,
            all == counter_parts(counters@),
            members.wf(),
            members.parts() == all.take(i as int),
        decreases Counter::COUNT - i,
    {
        members.number(Counter::NAMES[i], counters[i] as u64);
        i += 1;
        assert(members.parts() =~= all.take(i as int));
    }
    assert(all.take(9) =~= all);
    members.into_text()
}

// ---------------------------------------------------------------------
// Draining.
// ---------------------------------------------------------------------

/// The times of an event in decimal, with three digits behind the point.
pub struct Times {
    pub ts: String,
    pub dur: String,
}

/// The JSON object of one event.
pub open spec fn event_object(
    number: nat,
    ts: Seq<char>,
    dur: Seq<char>,
    cat: Seq<char>,
    name: Seq<char>,
    args: Option<Seq<char>>,
) -> Seq<char> {
    let parts = seq![
        json::member("s"@, text::decimal(number)),
        json::member("t"@, ts),
        json::member("d"@, dur),
        json::member("c"@, json::literal(cat)),
        json::member("n"@, json::literal(name)),
    ];
    json::object(
        match args {
            Some(args) => parts.push(json::member("a"@, args)),
            None => parts,
        },
    )
}

/// An event as a JSON object.
pub open spec fn event_json(number: nat, times: Times, event: Event) -> Seq<char> {
    event_object(
        number,
        times.ts@,
        times.dur@,
        event.cat@,
        event.name@,
        match event.args {
            Some(args) => Some(args@),
            None => None,
        },
    )
}

/// The object that tells how many events were dropped.
pub open spec fn dropped_json(number: nat, now: Seq<char>, dropped: nat) -> Seq<char> {
    event_object(
        number,
        now,
        "0"@,
        "profiler"@,
        "events_dropped"@,
        Some(json::object(seq![json::member("count"@, text::decimal(dropped))])),
    )
}

/// The drained events in order, numbered from `first` on, and behind them
/// the number of dropped ones where there are any.
pub open spec fn drained_parts(
    events: Seq<Event>,
    times: Seq<Times>,
    first: nat,
    dropped: nat,
    now: Seq<char>,
) -> Seq<Seq<char>> {
    let parts = Seq::new(events.len(), |i: int| event_json((first + i) as nat, times[i], events[i]));
    if dropped > 0 {
        parts.push(dropped_json(first + events.len(), now, dropped))
    } else {
        parts
    }
}

fn write_event(
    out: &mut String,
    number: u64,
    ts: &str,
    dur: &str,
    cat: &str,
    name: &str,
    args: Option<&str>,
)
    ensures
        final(out)@ == old(out)@ + event_object(
            number as nat,
            ts@,
            dur@,
            cat@,
            name@,
            match args {
                Some(args) => Some(args@),
                None => None,
            },
        ),
{
    let mut members: json::Parts = json::Parts::new();
    members.number("s", number);
    members.value("t", ts);
    members.value("d", dur);
    members.word("c", cat);
    members.word("n", name);
    let ghost parts = seq![
        json::member("s"@, text::decimal(number as nat)),
        json::member("t"@, ts@),
        json::member("d"@, dur@),
        json::member("c"@, json::literal(cat@)),
        json::member("n"@, json::literal(name@)),
    ];
    assert(members.parts() =~= parts);
    if let Some(args) = args {
        members.value("a", args);
    }
    out.append(members.into_object().as_str());
}

fn write_dropped(out: &mut String, number: u64, now: &str, dropped: u64)
    ensures
        final(out)@ == old(out)@ + dropped_json(number as nat, now@, dropped as nat),
{
    let mut members: json::Parts = json::Parts::new();
    members.number("count", dropped);
    assert(members.parts() =~= seq![json::member("count"@, text::decimal(dropped as nat))]);
    let args: String = members.into_object();
    write_event(out, number, now, "0", "profiler", "events_dropped", Some(args.as_str()));
}

/// Renders events as a JSON array:
/// `[{"s":<number>,"t":<ms>,"d":<ms>,"c":"<category>","n":"<name>","a":{...}}, ...]`.
/// `times` are the times of the events and `now` that of the entry that
/// tells how many events were dropped.
pub fn events_json(
    events: &Vec<Event>,
    times: &Vec<Times>,
    first_sequence: u64,
    dropped: u64,
    now: &str,
) -> (out: String)
    requires
        times@.len() == events@.len(),
        first_sequence + events@.len() <= u64::MAX,
    ensures
        out@ == json::array(
            drained_parts(events@, times@, first_sequence as nat, dropped as nat, now@),
        ),
{
    let ghost all = drained_parts(events@, times@, first_sequence as nat, 0, now@);
    let mut out: String = String::new();
    out.push('[');
    let mut i: usize = 0;
    proof {
        assert(all.take(0) =~= Seq::empty());
        assert(out@ =~= seq!['['] + text::listed(all.take(0)));
    }
    while i < events.len()
        invariant
            i <= events@.len(),
            times@.len() == events@.len(),
            first_sequence + events@.len() <= u64::MAX,
            all == drained_parts(events@, times@, first_sequence as nat, 0, now@),
            out@ == seq!['['] + text::listed(all.take(i as int)),
        decreases events@.len() - i,
    {
        if i > 0 {
            out.push(',');
        }
        let event: &Event = &events[i];
        let args: Option<&str> = match &event.args {
            Some(args) => Some(args.as_str()),
            None => None,
        };
        write_event(
            &mut out,
            first_sequence + i as u64,
            times[i].ts.as_str(),
            times[i].dur.as_str(),
            event.cat,
            event.name,
            args,
        );
        proof {
            assert(all.take(i + 1) =~= all.take(i as int).push(all[i as int]));
            text::lemma_joined_push(all.take(i as int), seq![','], all[i as int]);
            assert(out@ =~= seq!['['] + text::listed(all.take(i + 1)));
        }
        i += 1;
    }
    assert(all.take(events@.len() as int) =~= all);
    if dropped > 0 {
        if events.len() > 0 {
            out.push(',');
        }
        write_dropped(&mut out, first_sequence + events.len() as u64, now, dropped);
        proof {
            let last = dropped_json(
                (first_sequence + events@.len()) as nat,
                now@,
                dropped as nat,
            );
            text::lemma_joined_push(all, seq![','], last);
            assert(out@ =~= seq!['['] + text::listed(all.push(last)));
        }
    }
    out.push(']');
    assert(out@ =~= json::array(
        drained_parts(events@, times@, first_sequence as nat, dropped as nat, now@),
    ));
    out
}

/// The texts that `fixed3` gives for the times of the events, and for the
/// time of the drain where events were dropped.
pub open spec fn are_times<F: Fn(u64) -> String>(
    fixed3: F,
    events: Seq<Event>,
    dropped: nat,
    now: u64,
    times: Seq<Times>,
    at: String,
) -> bool {
    &&& times.len() == events.len()
    &&& forall|i: int|
        0 <= i < events.len() ==> fixed3.ensures((events[i].ts,), (#[trigger] times[i]).ts)
            && fixed3.ensures((events[i].dur,), times[i].dur)
    &&& dropped > 0 ==> fixed3.ensures((now,), at)
}

/// `out` tells everything that `before` holds, and `after` is `before` without
/// it.
pub open spec fn drains<F: Fn(u64) -> String>(
    before: Profiler,
    after: Profiler,
    now: u64,
    fixed3: F,
    out: Seq<char>,
) -> bool {
    &&& after.events@.len() == 0
    &&& after.dropped == 0
    &&& after.sequence == before.sequence + before.events@.len()
    &&& after.counters@ == before.counters@
    &&& after.movie == before.movie
    &&& exists|times: Seq<Times>, at: String| #[trigger]
        are_times(fixed3, before.events@, before.dropped as nat, now, times, at) && out
            == json::array(
            drained_parts(
                before.events@,
                times,
                before.sequence as nat,
                before.dropped as nat,
                at@,
            ),
        )
}

/// Removes every buffered event and returns them as a JSON array (see
/// [`events_json`]). Times are written by `fixed3`; `now` is the time of the
/// drain.
pub fn drain_json<F: Fn(u64) -> String>(p: &mut Profiler, now: u64, fixed3: F) -> (out: String)
    requires
        forall|ms: u64| fixed3.requires((ms,)),
        old(p).sequence + old(p).events@.len() <= u64::MAX,
    ensures
        drains(*old(p), *final(p), now, fixed3, out@),
{
    let mut events: Vec<Event> = Vec::new();
    std::mem::swap(&mut events, &mut p.events);
    let dropped: u64 = p.dropped;
    p.dropped = 0;
    let first: u64 = p.sequence;
    p.sequence = first + events.len() as u64;
    let mut times: Vec<Times> = Vec::new();
    let mut i: usize = 0;
    while i < events.len()
        invariant
            i <= events@.len(),
            forall|ms: u64| fixed3.requires((ms,)),
            times@.len() == i,
            forall|k: int|
                0 <= k < i ==> fixed3.ensures((events@[k].ts,), (#[trigger] times@[k]).ts)
                    && fixed3.ensures((events@[k].dur,), times@[k].dur),
        decreases events@.len() - i,
    {
        let ts: String = fixed3(events[i].ts);
        let dur: String = fixed3(events[i].dur);
        times.push(Times { ts, dur });
        i += 1;
    }
    let at: String = if dropped > 0 {
        fixed3(now)
    } else {
        String::new()
    };
    assert(are_times(fixed3, events@, dropped as nat, now, times@, at));
    events_json(&events, &times, first, dropped, at.as_str())
}

/// Number of events waiting to be drained.
pub fn pending(p: &Profiler) -> (n: usize)
    ensures
        n == p.events@.len(),
{
    p.events.len()
}

} // verus!
