use shararam_profiler::json::{json_str, json_str_truncated};
use shararam_profiler::profiler::{
    add, complete, counters_json, drain_json, events_json, inc, instant, mark, movie_json,
    movie_scope, pending, push, span, take_counters, Counter, Event, Profiler, Times,
    MAX_BUFFERED_EVENTS,
};
use shararam_profiler::{idle_pick_stats, idle_profiler};

fn ms(time: f64) -> u64 {
    time.to_bits()
}

fn minus(a: u64, b: u64) -> u64 {
    (f64::from_bits(a) - f64::from_bits(b)).to_bits()
}

fn fixed3(time: u64) -> String {
    format!("{:.3}", f64::from_bits(time))
}

#[test]
fn spans_and_instants_drain_as_json() {
    let mut p = Profiler::new();
    let _ = drain_json(&mut p, ms(0.0), fixed3);
    let tick = span(ms(1.0), "frame", "tick").args(|| "{\"dt\":16}".into());
    tick.finish(&mut p, ms(3.5), minus);
    instant(&mut p, ms(4.0), "load", "movie", || {
        "{\"url\":\"a.swf\"}".into()
    });
    mark(&mut p, ms(5.0), "frame", "end");
    let json = drain_json(&mut p, ms(6.0), fixed3);
    let parsed: serde_json::Value = serde_json::from_str(&json).unwrap();
    let events = parsed.as_array().unwrap();
    assert_eq!(events.len(), 3);
    assert_eq!(events[0]["c"], "frame");
    assert_eq!(events[0]["n"], "tick");
    assert_eq!(events[0]["a"]["dt"], 16);
    assert_eq!(events[1]["a"]["url"], "a.swf");
    assert!(events[2].get("a").is_none());
    assert!(drain_json(&mut p, ms(7.0), fixed3).starts_with('['));
}

#[test]
fn short_spans_below_threshold_are_dropped() {
    let mut p = Profiler::new();
    let _ = drain_json(&mut p, ms(0.0), fixed3);
    let collect = span(ms(1.0), "gc", "collect").min_duration_ms(ms(1_000_000.0));
    collect.finish(&mut p, ms(2.0), minus);
    assert_eq!(drain_json(&mut p, ms(3.0), fixed3), "[]");
}

#[test]
fn counters_reset_when_taken() {
    let mut p = Profiler::new();
    take_counters(&mut p);
    inc(&mut p, Counter::ShapesRegistered);
    add(&mut p, Counter::ShapesRegistered, 2);
    let counters = take_counters(&mut p);
    assert_eq!(counters[Counter::ShapesRegistered as usize], 3);
    assert_eq!(
        take_counters(&mut p)[Counter::ShapesRegistered as usize],
        0
    );
    assert!(counters_json(&counters).contains("\"shapes_registered\":3"));
}

#[test]
fn a_drain_is_written_exactly() {
    let mut p = Profiler::new();
    mark(&mut p, ms(1.25), "frame", "end");
    span(ms(2.0), "gc", "collect")
        .args(|| "{}".into())
        .finish(&mut p, ms(2.5), minus);
    assert_eq!(pending(&p), 2);
    assert_eq!(
        drain_json(&mut p, ms(9.0), fixed3),
        "[{\"s\":0,\"t\":1.250,\"d\":0.000,\"c\":\"frame\",\"n\":\"end\"},\
         {\"s\":1,\"t\":2.000,\"d\":0.500,\"c\":\"gc\",\"n\":\"collect\",\"a\":{}}]"
    );
    assert_eq!(pending(&p), 0);
    mark(&mut p, ms(10.0), "frame", "end");
    assert_eq!(
        drain_json(&mut p, ms(11.0), fixed3),
        "[{\"s\":2,\"t\":10.000,\"d\":0.000,\"c\":\"frame\",\"n\":\"end\"}]"
    );
}

#[test]
fn a_full_buffer_counts_what_it_drops() {
    let mut p = Profiler::new();
    for _ in 0..MAX_BUFFERED_EVENTS + 3 {
        mark(&mut p, ms(0.0), "frame", "end");
    }
    assert_eq!(pending(&p), MAX_BUFFERED_EVENTS);
    let json = drain_json(&mut p, ms(1.5), fixed3);
    assert!(json.ends_with(
        ",{\"s\":250000,\"t\":1.500,\"d\":0,\"c\":\"profiler\",\"n\":\"events_dropped\",\
         \"a\":{\"count\":3}}]"
    ));
    assert_eq!(p.dropped, 0);
    assert_eq!(p.sequence, 250_000);
}

#[test]
fn counters_and_scopes_leave_the_events_alone() {
    let mut p = Profiler::new();
    mark(&mut p, ms(1.0), "frame", "begin");
    inc(&mut p, Counter::TextLayouts);
    let scope = movie_scope(&mut p, "a.swf".into());
    mark(&mut p, ms(2.0), "frame", "end");
    scope.leave(&mut p);
    take_counters(&mut p);
    assert_eq!(
        drain_json(&mut p, ms(3.0), fixed3),
        "[{\"s\":0,\"t\":1.000,\"d\":0.000,\"c\":\"frame\",\"n\":\"begin\"},\
         {\"s\":1,\"t\":2.000,\"d\":0.000,\"c\":\"frame\",\"n\":\"end\"}]"
    );
}

#[test]
fn a_second_drain_is_empty() {
    let mut p = Profiler::new();
    mark(&mut p, ms(1.0), "frame", "end");
    let _ = drain_json(&mut p, ms(2.0), fixed3);
    assert_eq!(drain_json(&mut p, ms(3.0), fixed3), "[]");
    assert_eq!(p.sequence, 1);
}

#[test]
fn only_dropped_events_can_be_told() {
    let none: Vec<Event> = vec![];
    let times: Vec<Times> = vec![];
    assert_eq!(
        events_json(&none, &times, 7, 2, "0.125"),
        "[{\"s\":7,\"t\":0.125,\"d\":0,\"c\":\"profiler\",\"n\":\"events_dropped\",\
         \"a\":{\"count\":2}}]"
    );
}

#[test]
fn thresholds_keep_spans_that_reach_them() {
    let mut p = Profiler::new();
    for end in [1.0, 2.0, 3.0] {
        span(ms(0.0), "gc", "collect")
            .min_duration_ms(ms(2.0))
            .finish(&mut p, ms(end), minus);
    }
    assert_eq!(pending(&p), 2);
    // A clock that runs backwards gives a negative duration.
    span(ms(5.0), "gc", "collect").finish(&mut p, ms(4.0), minus);
    assert_eq!(pending(&p), 2);
    span(ms(5.0), "gc", "collect").finish(&mut p, ms(5.0), minus);
    assert_eq!(pending(&p), 3);
    span(ms(f64::NAN), "gc", "collect")
        .min_duration_ms(ms(2.0))
        .finish(&mut p, ms(5.0), minus);
    assert_eq!(pending(&p), 4);
}

#[test]
fn durations_can_be_given() {
    let mut p = Profiler::new();
    let region = || span(ms(1.0), "gc", "collect").min_duration_ms(ms(2.0));
    region().finish_after(&mut p, ms(1.999));
    region().finish_after(&mut p, ms(2.0));
    push(
        &mut p,
        Event {
            ts: ms(4.0),
            dur: ms(0.5),
            cat: "asset",
            name: "bitmap_decode",
            args: None,
        },
    );
    assert_eq!(
        drain_json(&mut p, ms(0.0), fixed3),
        "[{\"s\":0,\"t\":1.000,\"d\":2.000,\"c\":\"gc\",\"n\":\"collect\"},\
         {\"s\":1,\"t\":4.000,\"d\":0.500,\"c\":\"asset\",\"n\":\"bitmap_decode\"}]"
    );
}

#[test]
fn spans_take_new_arguments() {
    let mut p = Profiler::new();
    let mut region = span(ms(1.0), "swf", "preload_chunk").args(|| "{\"n\":1}".into());
    region.set_args(|| "{\"n\":2}".into());
    assert_eq!(region.elapsed_ms(ms(4.0), minus), ms(3.0));
    region.finish(&mut p, ms(2.0), minus);
    complete(&mut p, ms(9.0), minus, "http", "fetch", ms(6.5), || {
        "{\"status\":200}".into()
    });
    let json = drain_json(&mut p, ms(9.0), fixed3);
    assert!(json.contains("\"n\":2"));
    assert!(json.contains(
        "{\"s\":1,\"t\":6.500,\"d\":2.500,\"c\":\"http\",\"n\":\"fetch\",\"a\":{\"status\":200}}"
    ));
}

#[test]
fn scopes_nest() {
    let mut p = Profiler::new();
    assert_eq!(movie_json(&p), "null");
    let outer = movie_scope(&mut p, "a.swf".into());
    assert_eq!(movie_json(&p), "\"a.swf\"");
    let inner = movie_scope(&mut p, "b\"c\".swf".into());
    assert_eq!(movie_json(&p), "\"b\\\"c\\\".swf\"");
    inner.leave(&mut p);
    assert_eq!(movie_json(&p), "\"a.swf\"");
    outer.leave(&mut p);
    assert_eq!(movie_json(&p), "null");
}

#[test]
fn counters_wrap_around() {
    let mut p = Profiler::new();
    add(&mut p, Counter::TextLayouts, u32::MAX);
    inc(&mut p, Counter::TextLayouts);
    inc(&mut p, Counter::LayerBlendsInlined);
    let counters = take_counters(&mut p);
    assert_eq!(counters, [0, 0, 0, 0, 0, 0, 0, 0, 1]);
    assert_eq!(
        counters_json(&counters),
        "\"display_objects\":0,\"shapes_registered\":0,\"bitmaps_registered\":0,\
         \"textures_updated\":0,\"offscreen_renders\":0,\"text_layouts\":0,\
         \"objects_instantiated\":0,\"bitmaps_decoded\":0,\"layer_blends_inlined\":1"
    );
}

#[test]
fn counters_have_their_own_places() {
    let all = [
        Counter::DisplayObjectsRendered,
        Counter::ShapesRegistered,
        Counter::BitmapsRegistered,
        Counter::TexturesUpdated,
        Counter::OffscreenRenders,
        Counter::TextLayouts,
        Counter::ObjectsInstantiated,
        Counter::BitmapsDecoded,
        Counter::LayerBlendsInlined,
    ];
    assert_eq!(all.len(), Counter::COUNT);
    for (place, counter) in all.iter().enumerate() {
        assert_eq!(counter.index(), place);
        let mut p = Profiler::new();
        inc(&mut p, *counter);
        assert_eq!(take_counters(&mut p)[place], 1);
    }
}

#[test]
fn strings_are_quoted() {
    assert_eq!(json_str(""), "\"\"");
    assert_eq!(
        json_str("a\"b\\c/\u{8}\t\n\u{c}\r\u{1}\u{1f}\u{7f}Ё…"),
        "\"a\\\"b\\\\c/\\b\\t\\n\\f\\r\\u0001\\u001f\u{7f}Ё…\""
    );
    let parsed: serde_json::Value = serde_json::from_str(&json_str("Ёжик \"1\"\n")).unwrap();
    assert_eq!(parsed, "Ёжик \"1\"\n");
}

#[test]
fn long_strings_are_truncated() {
    assert_eq!(json_str_truncated("Ёжик", 4), "\"Ёжик\"");
    assert_eq!(json_str_truncated("Ёжик", 3), "\"Ёжи…\"");
    assert_eq!(json_str_truncated("a\"b", 2), "\"a\\\"…\"");
    assert_eq!(json_str_truncated("a", 0), "\"…\"");
    assert_eq!(json_str_truncated("", 0), "\"\"");
}

#[test]
fn the_idle_recorder_records_nothing() {
    let mut region = idle_profiler::span("frame", "tick")
        .min_duration_ms(1)
        .args(|| panic!("never called"));
    region.set_args(|| panic!("never called"));
    assert_eq!(region.elapsed_ms(), 0);
    idle_profiler::set_clock(|| 5);
    assert_eq!(idle_profiler::now(), 0);
    idle_profiler::instant("load", "movie", || panic!("never called"));
    idle_profiler::complete("load", "movie", 0, || panic!("never called"));
    idle_profiler::mark("frame", "end");
    let _scope = idle_profiler::movie_scope("a.swf".into());
    assert_eq!(idle_profiler::movie_json(), "");
    idle_profiler::inc(Counter::TextLayouts);
    idle_profiler::add(Counter::TextLayouts, 4);
    let counters = idle_profiler::take_counters();
    assert_eq!(counters, [0; 9]);
    assert_eq!(idle_profiler::counters_json(&counters), "");
    assert_eq!(idle_profiler::drain_json(), "[]");
    assert_eq!(idle_profiler::pending(), 0);
    assert_eq!(idle_profiler::json_str("a"), "");
    assert_eq!(idle_profiler::json_str_truncated("a", 1), "");
    let null = shararam_profiler::amf::Value::Null;
    assert_eq!(idle_profiler::amf_to_json(&null), "");
    assert_eq!(idle_profiler::amf_list_to_json(&vec![null]), "");
}

#[test]
fn the_idle_counters_stay_zero() {
    idle_pick_stats::bump(100);
    assert_eq!(idle_pick_stats::take(), [0; 8]);
    let _timer = idle_pick_stats::timer(100);
    assert_eq!(idle_pick_stats::take_timers(), [0; 3]);
    assert!(idle_pick_stats::NAMES.iter().all(|name| name.is_empty()));
    assert!(idle_pick_stats::TIMER_NAMES
        .iter()
        .all(|name| name.is_empty()));
}
