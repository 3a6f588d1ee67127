//! Counters and timers for the mouse-pick benchmark.

use crate::text;
use vstd::prelude::*;

verus! {

pub const NAMES: [&'static str; 8] = [
    "pick_nodes",
    "l2g_calls",
    "l2g_steps",
    "bounds_nodes",
    "button_mode_slow",
    "hit_test_shape",
    "shape_tests",
    "inverse",
];

pub const TIMER_NAMES: [&'static str; 3] = ["button_mode_ns", "hit_test_shape_ns", "masker_ns"];

pub const PICK_NODES: usize = 0;

pub const L2G_CALLS: usize = 1;

pub const L2G_STEPS: usize = 2;

pub const BOUNDS_NODES: usize = 3;

pub const BUTTON_MODE_SLOW: usize = 4;

pub const HIT_TEST_SHAPE: usize = 5;

pub const SHAPE_TESTS: usize = 6;

pub const INVERSE: usize = 7;

pub const T_BUTTON_MODE: usize = 0;

pub const T_HIT_TEST_SHAPE: usize = 1;

pub const T_MASKER: usize = 2;

/// The counters, and the timers in nanoseconds.
pub struct PickStats {
    pub counters: [u64; 8],
    pub timers: [u64; 3],
}

/// A running timer: its place among the timers. Dropping one without stopping
/// it adds nothing.
#[must_use]
pub struct Timer(pub usize);

impl PickStats {
    /// Nothing counted yet.
    pub fn new() -> (stats: PickStats)
        ensures
            stats.counters@ == Seq::new(8, |i: int| 0u64),
            stats.timers@ == Seq::new(3, |i: int| 0u64),
    {
        let stats: PickStats = PickStats { counters: [0; 8], timers: [0; 3] };
        assert(stats.counters@ =~= Seq::new(8, |i: int| 0u64));
        assert(stats.timers@ =~= Seq::new(3, |i: int| 0u64));
        stats
    }
}

/// Adds one to a counter, wrapping around at the end of its range.
pub fn bump(stats: &mut PickStats, i: usize)
    requires
        i < 8,
    ensures
        final(stats).counters@ == old(stats).counters@.update(
            i as int,
            old(stats).counters@[i as int].wrapping_add(1),
        ),
        final(stats).timers@ == old(stats).timers@,
{
    stats.counters[i] = stats.counters[i].wrapping_add(1);
}

/// Returns and resets the counters.
pub fn take(stats: &mut PickStats) -> (counters: [u64; 8])
    ensures
        counters@ == old(stats).counters@,
        final(stats).counters@ == Seq::new(8, |i: int| 0u64),
        final(stats).timers@ == old(stats).timers@,
{
    let counters: [u64; 8] = stats.counters;
    stats.counters = [0; 8];
    assert(stats.counters@ =~= Seq::new(8, |i: int| 0u64));
    counters
}

/// Starts a timer.
pub fn timer(i: usize) -> (timer: Timer)
    ensures
        timer.0 == i,
{
    Timer(i)
}

/// The lowest 64 bits of a number of nanoseconds.
pub open spec fn nanoseconds(elapsed: nat) -> u64 {
    (elapsed % 0x1_0000_0000_0000_0000) as u64
}

impl Timer {
    /// Stops the timer and adds the time that it ran for, wrapping around at
    /// the end of its range.
    pub fn stop(self, stats: &mut PickStats, elapsed: u128)
        requires
            self.0 < 3,
        ensures
            final(stats).timers@ == old(stats).timers@.update(
                self.0 as int,
                old(stats).timers@[self.0 as int].wrapping_add(nanoseconds(elapsed as nat)),
            ),
            final(stats).counters@ == old(stats).counters@,
    {
        let nanos: u64 = (elapsed % 0x1_0000_0000_0000_0000u128) as u64;
        stats.timers[self.0] = stats.timers[self.0].wrapping_add(nanos);
    }
}

/// Returns and resets the timers.
pub fn take_timers(stats: &mut PickStats) -> (timers: [u64; 3])
    ensures
        timers@ == old(stats).timers@,
        final(stats).timers@ == Seq::new(3, |i: int| 0u64),
        final(stats).counters@ == old(stats).counters@,
{
    let timers: [u64; 3] = stats.timers;
    stats.timers = [0; 3];
    assert(stats.timers@ =~= Seq::new(3, |i: int| 0u64));
    timers
}

// ---------------------------------------------------------------------
// The report of a benchmark.
// ---------------------------------------------------------------------

/// The first `count` values behind their names, without those that have no
/// name.
pub open spec fn report_parts(names: Seq<&'static str>, values: Seq<String>, count: nat) -> Seq<
    Seq<char>,
>
    decreases count,
{
    if count == 0 {
        Seq::empty()
    } else {
        let parts = report_parts(names, values, (count - 1) as nat);
        if names[count - 1]@.len() == 0 {
            parts
        } else {
            parts.push(names[count - 1]@ + seq!['='] + values[count - 1]@)
        }
    }
}

/// The values behind their names, separated by blanks; a value without a name
/// is left out.
pub fn report(names: &[&'static str], values: &Vec<String>) -> (out: String)
    requires
        names@.len() == values@.len(),
    ensures
        out@ == text::joined(report_parts(names@, values@, names@.len()), seq![' ']),
{
    let mut out: String = String::new();
    let mut first: bool = true;
    let mut i: usize = 0;
    assert(out@ =~= text::joined(report_parts(names@, values@, 0), seq![' ']));
    while i < names.len()
        invariant
            i <= names@.len(),
            names@.len() == values@.len(),
            first == (report_parts(names@, values@, i as nat).len() == 0),
            out@ == text::joined(report_parts(names@, values@, i as nat), seq![' ']),
        decreases names@.len() - i,
    {
        let ghost before = out@;
        let ghost parts = report_parts(names@, values@, i as nat);
        if names[i].unicode_len() > 0 {
            if !first {
                out.push(' ');
            }
            out.append(names[i]);
            out.push('=');
            out.append(values[i].as_str());
            first = false;
            proof {
                let part = names@[i as int]@ + seq!['='] + values@[i as int]@;
                text::lemma_joined_push(parts, seq![' '], part);
                assert(out@ =~= if parts.len() == 0 {
                    part
                } else {
                    before + (seq![' '] + part)
                });
            }
        }
        i += 1;
    }
    out
}

// ---------------------------------------------------------------------
// Laws.
// ---------------------------------------------------------------------

/// `after` is `before` with these counters bumped, one after the other.
pub open spec fn bumped(before: Seq<u64>, places: Seq<usize>) -> Seq<u64>
    decreases places.len(),
{
    if places.len() == 0 {
        before
    } else {
        let counters = bumped(before, places.drop_last());
        counters.update(
            places.last() as int,
            counters[places.last() as int].wrapping_add(1),
        )
    }
}

/// How often a place occurs.
pub open spec fn occurrences(places: Seq<usize>, place: usize) -> nat
    decreases places.len(),
{
    if places.len() == 0 {
        0
    } else {
        occurrences(places.drop_last(), place) + if places.last() == place {
            1nat
        } else {
            0
        }
    }
}

/// What is taken is how often each counter was bumped since it was taken
/// last, as long as that stays in range.
pub proof fn law_bumps_are_counted(places: Seq<usize>, place: usize)
    requires
        place < 8,
        forall|i: int| 0 <= i < places.len() ==> #[trigger] places[i] < 8,
        places.len() <= u64::MAX,
    ensures
        bumped(Seq::new(8, |i: int| 0u64), places).len() == 8,
        bumped(Seq::new(8, |i: int| 0u64), places)[place as int] == occurrences(places, place),
        occurrences(places, place) <= places.len(),
    decreases places.len(),
{
    if places.len() > 0 {
        assert(forall|i: int|
            0 <= i < places.drop_last().len() ==> #[trigger] places.drop_last()[i] == places[i]);
        law_bumps_are_counted(places.drop_last(), place);
        law_bumps_are_counted(places.drop_last(), places.last());
    }
}

/// A time of less than 2 to the power of 64 nanoseconds is taken as it is, and
/// a longer one without what is above that.
pub proof fn law_short_times_are_exact(elapsed: nat)
    ensures
        elapsed < 0x1_0000_0000_0000_0000 ==> nanoseconds(elapsed) == elapsed,
        nanoseconds(elapsed + 0x1_0000_0000_0000_0000) == nanoseconds(elapsed),
{
}

/// The counters and the timers have names of their own.
pub proof fn law_counters_are_named()
    ensures
        NAMES@[PICK_NODES as int]@ == "pick_nodes"@,
        NAMES@[L2G_CALLS as int]@ == "l2g_calls"@,
        NAMES@[L2G_STEPS as int]@ == "l2g_steps"@,
        NAMES@[BOUNDS_NODES as int]@ == "bounds_nodes"@,
        NAMES@[BUTTON_MODE_SLOW as int]@ == "button_mode_slow"@,
        NAMES@[HIT_TEST_SHAPE as int]@ == "hit_test_shape"@,
        NAMES@[SHAPE_TESTS as int]@ == "shape_tests"@,
        NAMES@[INVERSE as int]@ == "inverse"@,
        TIMER_NAMES@[T_BUTTON_MODE as int]@ == "button_mode_ns"@,
        TIMER_NAMES@[T_HIT_TEST_SHAPE as int]@ == "hit_test_shape_ns"@,
        TIMER_NAMES@[T_MASKER as int]@ == "masker_ns"@,
{
}

/// The places among the first `count` that have a name, in order.
pub open spec fn are_named(places: Seq<int>, names: Seq<&'static str>, count: int) -> bool {
    &&& forall|i: int| 0 <= i < places.len() ==> 0 <= #[trigger] places[i] < count
    &&& forall|i: int, j: int|
        0 <= i < j < places.len() ==> #[trigger] places[i] < #[trigger] places[j]
    &&& forall|k: int|
        0 <= k < count ==> (#[trigger] names[k]@.len() > 0 <==> places.contains(k))
}

/// A report tells every value that has a name, behind that name, in order.
pub proof fn law_named_values_are_reported(
    names: Seq<&'static str>,
    values: Seq<String>,
    count: nat,
)
    requires
        count <= names.len(),
        count <= values.len(),
    ensures
        exists|places: Seq<int>| #[trigger]
            are_named(places, names, count as int) && report_parts(names, values, count)
                == places.map_values(|k: int| names[k]@ + "="@ + values[k]@),
    decreases count,
{
    let told = |k: int| names[k]@ + "="@ + values[k]@;
    reveal_strlit("=");
    assert("="@ =~= seq!['=']);
    if count == 0 {
        let none = Seq::<int>::empty();
        assert(are_named(none, names, 0));
        assert(report_parts(names, values, 0) =~= none.map_values(told));
    } else {
        let last = count - 1;
        law_named_values_are_reported(names, values, last as nat);
        let places = choose|places: Seq<int>| #[trigger]
            are_named(places, names, last) && report_parts(names, values, last as nat)
                == places.map_values(told);
        if names[last]@.len() > 0 {
            let more = places.push(last);
            assert forall|k: int| 0 <= k < count implies (#[trigger] names[k]@.len() > 0
                <==> more.contains(k)) by {
                if k == last {
                    assert(more[places.len() as int] == k);
                } else if names[k]@.len() > 0 {
                    assert(places.contains(k));
                    let i = choose|i: int| 0 <= i < places.len() && places[i] == k;
                    assert(more[i] == k);
                } else if more.contains(k) {
                    let i = choose|i: int| 0 <= i < more.len() && more[i] == k;
                    assert(places[i] == k);
                }
            }
            assert(are_named(more, names, count as int));
            assert(report_parts(names, values, count) =~= more.map_values(told));
        } else {
            assert forall|k: int| 0 <= k < count implies (#[trigger] names[k]@.len() > 0
                <==> places.contains(k)) by {}
            assert(are_named(places, names, count as int));
        }
    }
}

} // verus!
