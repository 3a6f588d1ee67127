use shararam_profiler::heap::{Chunky, Grown, Growth, CHUNK, PAGE, REFUSED};
use shararam_profiler::pick_stats::{
    bump, report, take, take_timers, timer, PickStats, HIT_TEST_SHAPE, INVERSE, NAMES, PICK_NODES,
    TIMER_NAMES, T_MASKER,
};

#[test]
fn counters_are_taken() {
    let mut stats = PickStats::new();
    bump(&mut stats, PICK_NODES);
    bump(&mut stats, PICK_NODES);
    bump(&mut stats, INVERSE);
    assert_eq!(take(&mut stats), [2, 0, 0, 0, 0, 0, 0, 1]);
    assert_eq!(take(&mut stats), [0; 8]);
    stats.counters[HIT_TEST_SHAPE] = u64::MAX;
    bump(&mut stats, HIT_TEST_SHAPE);
    assert_eq!(take(&mut stats), [0; 8]);
}

#[test]
fn timers_add_up() {
    let mut stats = PickStats::new();
    timer(T_MASKER).stop(&mut stats, 5);
    timer(T_MASKER).stop(&mut stats, (1 << 64) + 2);
    let _unstopped = timer(0);
    assert_eq!(take_timers(&mut stats), [0, 0, 7]);
    assert_eq!(take_timers(&mut stats), [0; 3]);
}

#[test]
fn names_belong_to_their_places() {
    assert_eq!(NAMES[PICK_NODES], "pick_nodes");
    assert_eq!(NAMES[HIT_TEST_SHAPE], "hit_test_shape");
    assert_eq!(NAMES[INVERSE], "inverse");
    assert_eq!(TIMER_NAMES[T_MASKER], "masker_ns");
}

#[test]
fn reports_leave_out_what_has_no_name() {
    let values = vec!["1".to_string(), "2".to_string(), "3".to_string()];
    assert_eq!(report(&["a", "", "c"], &values), "a=1 c=3");
    assert_eq!(report(&["", "", ""], &values), "");
    assert_eq!(report(&["", "b", ""], &values), "b=2");
    assert_eq!(report(&[], &vec![]), "");
}

#[test]
fn heaps_grow_in_chunks() {
    let heap = Chunky;
    let growth = heap.grow(PAGE);
    assert_eq!(growth.pages, 1024);
    assert_eq!(
        growth.answer(17),
        Grown::Memory {
            start: 17 * PAGE,
            bytes: CHUNK
        }
    );
    let growth = heap.grow(3 * CHUNK);
    assert_eq!(growth.pages, 3072);
    assert_eq!(growth.answer(REFUSED), Grown::Failed);
    assert_eq!(heap.page_size(), PAGE);
    assert!(heap.allocates_zeros());
    assert!(heap.remap().is_none());
    assert!(!heap.free());
    assert!(!heap.free_part());
    assert!(!heap.can_release_part());
}

#[test]
fn heaps_settle_for_what_was_asked() {
    let growth = Chunky.grow(5 * PAGE);
    let Grown::Again(next) = growth.answer(REFUSED) else {
        panic!("no second try");
    };
    assert_eq!(
        next,
        Growth {
            size: 5 * PAGE,
            pages: 5,
            settled: true
        }
    );
    assert_eq!(next.answer(REFUSED), Grown::Failed);
    assert_eq!(
        next.answer(2),
        Grown::Memory {
            start: 2 * PAGE,
            bytes: 5 * PAGE
        }
    );
}
