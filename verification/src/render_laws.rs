//! What holds of the rectangles, grids and frames as a whole.

use crate::commands;
use crate::commands::{Command, CommandList, CommandStats, Measure};
use crate::ieee;
use crate::json;
use crate::profiler;
use crate::profiler::{Counter, Event, Profiler, Span};
use crate::render;
use crate::render::{ProfiledRenderer, Submission};
use crate::screen;
use crate::screen::{Hot, Placement, Rect, RectText, GRID_CELLS, MAX_HOT_RECTS};
use crate::text;
use vstd::prelude::*;

verus! {

// ---------------------------------------------------------------------
// Rectangles.
// ---------------------------------------------------------------------

/// `outer` reaches at least as far as `inner` to each side on which `inner`
/// has a number.
pub open spec fn reaches(outer: Rect, inner: Rect) -> bool {
    &&& !screen::is_nan(inner.left) ==> !screen::is_nan(outer.left) && outer.left <= inner.left
    &&& !screen::is_nan(inner.top) ==> !screen::is_nan(outer.top) && outer.top <= inner.top
    &&& !screen::is_nan(inner.right) ==> !screen::is_nan(outer.right) && outer.right >= inner.right
    &&& !screen::is_nan(inner.bottom) ==> !screen::is_nan(outer.bottom) && outer.bottom
        >= inner.bottom
}

/// Whether both coordinates are numbers.
pub open spec fn is_point(at: (i32, i32)) -> bool {
    !screen::is_nan(at.0) && !screen::is_nan(at.1)
}

/// The bounds of four points lie around each of them.
pub proof fn law_bounds_lie_around_the_points(
    a: (i32, i32),
    b: (i32, i32),
    c: (i32, i32),
    d: (i32, i32),
)
    ensures
        reaches(screen::bounds(a, b, c, d), screen::point(a)),
        reaches(screen::bounds(a, b, c, d), screen::point(b)),
        reaches(screen::bounds(a, b, c, d), screen::point(c)),
        reaches(screen::bounds(a, b, c, d), screen::point(d)),
{
}

/// The bounds of four points are tight: on each side lies one of the points,
/// as long as all of them are numbers.
pub proof fn law_bounds_touch_the_points(
    a: (i32, i32),
    b: (i32, i32),
    c: (i32, i32),
    d: (i32, i32),
)
    requires
        is_point(a),
        is_point(b),
        is_point(c),
        is_point(d),
    ensures
        ({
            let out = screen::bounds(a, b, c, d);
            &&& out.left == a.0 || out.left == b.0 || out.left == c.0 || out.left == d.0
            &&& out.top == a.1 || out.top == b.1 || out.top == c.1 || out.top == d.1
            &&& out.right == a.0 || out.right == b.0 || out.right == c.0 || out.right == d.0
            &&& out.bottom == a.1 || out.bottom == b.1 || out.bottom == c.1 || out.bottom == d.1
        }),
{
}

/// The rectangle around two lies around both.
pub proof fn law_unions_lie_around_both(a: Rect, b: Rect)
    ensures
        screen::combined(Some(a), Some(b)) is Some,
        reaches(screen::combined(Some(a), Some(b))->0, a),
        reaches(screen::combined(Some(a), Some(b))->0, b),
{
}

/// `outer` lies around everything that a command draws, itself or inside.
pub open spec fn is_around(outer: Rect, command: Command) -> bool
    decreases command, 0nat,
{
    match command {
        Command::RenderAlphaMask { maskee_commands, mask_commands } => is_around_list(
            outer,
            maskee_commands,
            maskee_commands.commands@.len(),
        ) && is_around_list(outer, mask_commands, mask_commands.commands@.len()),
        Command::Blend(inner, _) => is_around_list(outer, inner, inner.commands@.len()),
        _ => commands::placement(command) matches Some(at) ==> reaches(outer, at.rect),
    }
}

/// `outer` lies around everything that the first `count` commands of a list
/// draw.
pub open spec fn is_around_list(outer: Rect, list: CommandList, count: nat) -> bool
    decreases list, count,
{
    if count == 0 || count > list.commands@.len() {
        true
    } else {
        is_around_list(outer, list, (count - 1) as nat) && is_around(
            outer,
            list.commands@[count - 1],
        )
    }
}

/// What lies around the rectangle of a list lies around what the list draws.
proof fn lemma_around(outer: Rect, list: CommandList, count: nat)
    requires
        count <= list.commands@.len(),
        commands::extent(list, count) matches Some(rect) ==> reaches(outer, rect),
    ensures
        is_around_list(outer, list, count),
    decreases list, count,
{
    if count > 0 {
        let command = list.commands@[count - 1];
        lemma_around(outer, list, (count - 1) as nat);
        assert(commands::covered(command) matches Some(rect) ==> reaches(outer, rect));
        assert(is_around(outer, command)) by {
            match command {
                Command::RenderAlphaMask { maskee_commands, mask_commands } => {
                    lemma_around(outer, maskee_commands, maskee_commands.commands@.len());
                    lemma_around(outer, mask_commands, mask_commands.commands@.len());
                },
                Command::Blend(inner, _) => {
                    lemma_around(outer, inner, inner.commands@.len());
                },
                _ => {},
            }
        }
    }
}

/// The rectangle that a walk returns lies around everything that the list
/// draws, however deep it is nested.
pub proof fn law_extents_lie_around_the_commands(list: CommandList, count: nat)
    requires
        count <= list.commands@.len(),
        commands::extent(list, count) is Some,
    ensures
        is_around_list(commands::extent(list, count)->0, list, count),
{
    lemma_around(commands::extent(list, count)->0, list, count);
}

/// The rectangle that a walk returns is the least one: whatever lies around
/// everything that the list draws lies around it.
pub proof fn law_extents_are_tight(outer: Rect, list: CommandList, count: nat)
    requires
        count <= list.commands@.len(),
        is_around_list(outer, list, count),
    ensures
        commands::extent(list, count) matches Some(rect) ==> reaches(outer, rect),
    decreases list, count,
{
    if count > 0 {
        let command = list.commands@[count - 1];
        law_extents_are_tight(outer, list, (count - 1) as nat);
        assert(is_around(outer, command));
        assert(commands::covered(command) matches Some(rect) ==> reaches(outer, rect)) by {
            match command {
                Command::RenderAlphaMask { maskee_commands, mask_commands } => {
                    law_extents_are_tight(outer, maskee_commands, maskee_commands.commands@.len());
                    law_extents_are_tight(outer, mask_commands, mask_commands.commands@.len());
                },
                Command::Blend(inner, _) => {
                    law_extents_are_tight(outer, inner, inner.commands@.len());
                },
                _ => {},
            }
        }
    }
}

// ---------------------------------------------------------------------
// Grids.
// ---------------------------------------------------------------------

/// Whether the range of cells overlaps the grid.
pub open spec fn is_on_grid(at: Placement) -> bool {
    &&& at.cells.x0 < at.cells.x1 && at.cells.x0 < screen::GRID_W && 0 < at.cells.x1
    &&& at.cells.y0 < at.cells.y1 && at.cells.y0 < screen::GRID_H && 0 < at.cells.y1
}

/// A visible rectangle counts on some cell exactly where it overlaps the
/// grid.
pub proof fn law_visible_rects_are_counted(at: Placement)
    requires
        screen::is_visible(at.rect),
    ensures
        is_on_grid(at) <==> exists|cell: int|
            0 <= cell < GRID_CELLS && #[trigger] screen::covers(at, cell),
{
    if is_on_grid(at) {
        let x = if at.cells.x0 < 0 {
            0
        } else {
            at.cells.x0 as int
        };
        let y = if at.cells.y0 < 0 {
            0
        } else {
            at.cells.y0 as int
        };
        let cell = y * 24 + x;
        assert(cell % 24 == x && cell / 24 == y);
        assert(screen::covers(at, cell));
    }
}

/// The heavy layer counts a part of all draw commands; in a blend or
/// alpha-mask subtree it counts all of them.
pub proof fn law_heavy_draws_are_draws(list: CommandList, count: nat, heavy: bool, cell: usize)
    ensures
        commands::total(list, count, heavy, Measure::Heavy(cell)) <= commands::total(
            list,
            count,
            heavy,
            Measure::Draws(cell),
        ),
        heavy ==> commands::total(list, count, heavy, Measure::Heavy(cell)) == commands::total(
            list,
            count,
            heavy,
            Measure::Draws(cell),
        ),
    decreases list, count,
{
    if 0 < count <= list.commands@.len() {
        reveal_with_fuel(commands::total, 2);
        reveal_with_fuel(commands::share, 2);
        law_heavy_draws_are_draws(list, (count - 1) as nat, heavy, cell);
        match list.commands@[count - 1] {
            Command::RenderAlphaMask { maskee_commands, mask_commands } => {
                law_heavy_draws_are_draws(
                    maskee_commands,
                    maskee_commands.commands@.len(),
                    true,
                    cell,
                );
                law_heavy_draws_are_draws(mask_commands, mask_commands.commands@.len(), true, cell);
            },
            Command::Blend(inner, _) => {
                law_heavy_draws_are_draws(inner, inner.commands@.len(), true, cell);
            },
            _ => {},
        }
    }
}

/// However many costly subtrees a frame has, no more than the bound are
/// reported, and those are the first ones.
pub proof fn law_hot_rects_are_capped(list: CommandList)
    ensures
        render::frame_hot(list).len() <= MAX_HOT_RECTS,
        render::frame_hot(list).is_prefix_of(
            commands::hot_trees(list, list.commands@.len()),
        ),
        commands::hot_trees(list, list.commands@.len()).len() <= MAX_HOT_RECTS
            ==> render::frame_hot(list) == commands::hot_trees(list, list.commands@.len()),
{
    let all = commands::hot_trees(list, list.commands@.len());
    assert(Seq::<Hot>::empty() + all =~= all);
    assert(Seq::<Hot>::empty() + all.take(MAX_HOT_RECTS as int) =~= all.take(MAX_HOT_RECTS as int));
}

/// The kinds of commands do not overlap: the counts of a frame add up to no
/// more than its commands.
pub proof fn law_kinds_do_not_overlap(list: CommandList, count: nat, heavy: bool)
    requires
        count <= list.commands@.len(),
    ensures
        commands::total(list, count, heavy, Measure::Shapes) + commands::total(
            list,
            count,
            heavy,
            Measure::Bitmaps,
        ) + commands::total(list, count, heavy, Measure::Rects) + commands::total(
            list,
            count,
            heavy,
            Measure::StencilMasks,
        ) + commands::total(list, count, heavy, Measure::AlphaMasks) + commands::total(
            list,
            count,
            heavy,
            Measure::BlendLayer,
        ) + commands::total(list, count, heavy, Measure::BlendAlphaErase) + commands::total(
            list,
            count,
            heavy,
            Measure::BlendComplex,
        ) + commands::total(list, count, heavy, Measure::BlendShader) <= commands::list_size(
            list,
            count,
        ),
    decreases list, count,
{
    if count > 0 {
        reveal_with_fuel(commands::total, 2);
        reveal_with_fuel(commands::share, 2);
        reveal_with_fuel(commands::list_size, 2);
        reveal_with_fuel(commands::size, 2);
        law_kinds_do_not_overlap(list, (count - 1) as nat, heavy);
        match list.commands@[count - 1] {
            Command::RenderAlphaMask { maskee_commands, mask_commands } => {
                law_kinds_do_not_overlap(
                    maskee_commands,
                    maskee_commands.commands@.len(),
                    true,
                );
                law_kinds_do_not_overlap(mask_commands, mask_commands.commands@.len(), true);
            },
            Command::Blend(inner, _) => {
                law_kinds_do_not_overlap(inner, inner.commands@.len(), true);
            },
            _ => {},
        }
    }
}

proof fn lemma_total_bounded(list: CommandList, count: nat, heavy: bool, measure: Measure)
    requires
        count <= list.commands@.len(),
    ensures
        commands::total(list, count, heavy, measure) <= commands::list_size(list, count),
    decreases list, count,
{
    if count > 0 {
        reveal_with_fuel(commands::total, 2);
        reveal_with_fuel(commands::share, 2);
        reveal_with_fuel(commands::list_size, 2);
        reveal_with_fuel(commands::size, 2);
        lemma_total_bounded(list, (count - 1) as nat, heavy, measure);
        match list.commands@[count - 1] {
            Command::RenderAlphaMask { maskee_commands, mask_commands } => {
                lemma_total_bounded(
                    maskee_commands,
                    maskee_commands.commands@.len(),
                    true,
                    measure,
                );
                lemma_total_bounded(mask_commands, mask_commands.commands@.len(), true, measure);
            },
            Command::Blend(inner, _) => {
                lemma_total_bounded(inner, inner.commands@.len(), true, measure);
            },
            _ => {},
        }
    }
}

proof fn lemma_depth_bounded(list: CommandList, count: nat, depth: nat)
    requires
        count <= list.commands@.len(),
    ensures
        commands::deepest(list, count, depth) <= depth + commands::list_size(list, count),
    decreases list, count,
{
    if count > 0 {
        reveal_with_fuel(commands::deepest, 2);
        reveal_with_fuel(commands::reach, 2);
        reveal_with_fuel(commands::list_size, 2);
        reveal_with_fuel(commands::size, 2);
        lemma_depth_bounded(list, (count - 1) as nat, depth);
        match list.commands@[count - 1] {
            Command::RenderAlphaMask { maskee_commands, mask_commands } => {
                lemma_depth_bounded(maskee_commands, maskee_commands.commands@.len(), depth + 1);
                lemma_depth_bounded(mask_commands, mask_commands.commands@.len(), depth + 1);
            },
            Command::Blend(inner, _) => {
                lemma_depth_bounded(inner, inner.commands@.len(), depth + 1);
            },
            _ => {},
        }
    }
}

/// A frame can be walked if its commands can be counted.
pub proof fn law_frames_are_countable(list: CommandList)
    requires
        commands::list_size(list, list.commands@.len()) <= u32::MAX,
    ensures
        render::is_countable(list),
{
    assert forall|m: Measure| commands::is_measure(m) implies #[trigger] commands::total(
        list,
        list.commands@.len(),
        false,
        m,
    ) <= u32::MAX by {
        lemma_total_bounded(list, list.commands@.len(), false, m);
    }
    lemma_depth_bounded(list, list.commands@.len(), 0);
}

/// What is remembered of handles stays bounded, and what was remembered last
/// is known.
pub proof fn law_tables_stay_bounded<V>(table: Map<usize, V>, key: usize, value: V)
    requires
        table.dom().finite(),
        table.len() <= render::MAX_TRACKED_HANDLES,
    ensures
        render::remembered(table, key, value).dom().finite(),
        render::remembered(table, key, value).len() <= render::MAX_TRACKED_HANDLES,
        render::remembered(table, key, value).contains_key(key),
        render::remembered(table, key, value)[key] == value,
{
    if table.len() >= render::MAX_TRACKED_HANDLES {
        let empty = Map::<usize, V>::empty();
        assert(empty.dom() =~= Set::empty());
        assert(empty.insert(key, value).dom() =~= empty.dom().insert(key));
    } else {
        assert(table.insert(key, value).dom() =~= table.dom().insert(key));
    }
}

/// One frame: what it is submitted with, and what the renderer and the
/// recorder are like at each point.
pub struct FrameCall<T, C, D, R, M> {
    pub renderer: ProfiledRenderer,
    pub renderer_after: ProfiledRenderer,
    /// The recorder before the frame.
    pub before: Profiler,
    /// The recorder when the frame is handed over.
    pub opened: Profiler,
    /// The recorder when the renderer has taken the frame.
    pub called: Profiler,
    /// The recorder behind the frame.
    pub closed: Profiler,
    pub clock: C,
    pub debug_info: D,
    pub viewport: (u32, u32),
    pub list: CommandList,
    pub cache: Vec<usize>,
    pub rounded: R,
    pub frame: T,
    pub submission: Submission<T>,
    pub end: u64,
    pub minus: M,
}

/// The frame is submitted, and its span is finished behind that, on a clock
/// that does not run backwards.
pub open spec fn is_frame<
    T,
    C: Fn() -> u64,
    D: FnOnce() -> String,
    R: Fn(Rect) -> RectText,
    M: Fn(u64, u64) -> u64,
>(call: FrameCall<T, C, D, R, M>) -> bool {
    &&& render::submits(
        call.renderer,
        call.renderer_after,
        call.before,
        call.opened,
        call.clock,
        call.debug_info,
        call.viewport,
        call.list,
        call.cache@,
        call.rounded,
        call.frame,
        call.submission,
    )
    &&& call.submission.span.finishes(call.called, call.closed, call.end, call.minus)
    &&& forall|dur: u64| #[trigger]
        call.minus.ensures((call.end, call.submission.span.start), dur) ==> !ieee::is_number(dur)
            || ieee::double(dur) >= 0
}

/// The frame is recorded behind its submission, as one event that tells of it.
pub open spec fn is_recorded<T, C, D, R, M>(call: FrameCall<T, C, D, R, M>) -> bool {
    exists|event: Event|
        {
            &&& #[trigger] profiler::records(call.called, call.closed, event)
            &&& event.cat == "render"
            &&& event.name == "submit_frame"
            &&& event.args is Some
            &&& event.args->0@ == json::object(
                render::frame_parts(
                    call.list.commands@.len(),
                    call.cache@,
                    render::frame_stats(call.list),
                ),
            )
        }
}

/// What describes the renderer is recorded, and behind it the grid.
pub open spec fn is_described<T, C: Fn() -> u64, D: FnOnce() -> String, R: Fn(Rect) -> RectText, M>(
    call: FrameCall<T, C, D, R, M>,
) -> bool {
    exists|told: Profiler, now: u64, info: String| #[trigger]
        call.clock.ensures((), now) && #[trigger] call.debug_info.ensures((), info)
            && render::notes(call.before, told, now, "debug_info", render::info_parts(info@))
            && #[trigger] render::tells_grid(
            told,
            call.opened,
            call.clock,
            call.viewport,
            call.list,
            call.rounded,
        )
}

/// Over any number of frames, each is handed on to the renderer as it came and
/// recorded as one event behind that. The first one tells what describes the
/// renderer before its grid, and every later one nothing but its grid.
pub proof fn law_frames_are_submitted<
    T,
    C: Fn() -> u64,
    D: FnOnce() -> String,
    R: Fn(Rect) -> RectText,
    M: Fn(u64, u64) -> u64,
>(calls: Seq<FrameCall<T, C, D, R, M>>, i: int)
    requires
        0 <= i < calls.len(),
        !calls[0].renderer.debug_info_reported,
        forall|k: int| 0 <= k < calls.len() ==> is_frame(#[trigger] calls[k]),
        forall|k: int|
            0 < k < calls.len() ==> (#[trigger] calls[k]).renderer.debug_info_reported == calls[k
                - 1].renderer_after.debug_info_reported,
    ensures
        calls[i].submission.frame == calls[i].frame,
        is_recorded(calls[i]),
        i == 0 ==> is_described(calls[i]),
        i > 0 ==> render::tells_grid(
            calls[i].before,
            calls[i].opened,
            calls[i].clock,
            calls[i].viewport,
            calls[i].list,
            calls[i].rounded,
        ),
{
    let call = calls[i];
    assert(is_frame(call));
    let span = call.submission.span;
    ieee::lemma_zero();
    let dur = choose|dur: u64| #[trigger]
        call.minus.ensures((call.end, span.start), dur) && if span.is_short(dur) {
            call.closed == call.called
        } else {
            profiler::records(call.called, call.closed, span.event(dur))
        };
    assert(profiler::records(call.called, call.closed, span.event(dur)));
    if i > 0 {
        assert(is_frame(calls[i - 1]));
        assert(calls[i].renderer.debug_info_reported);
    } else {
        let told = choose|told: Profiler| #[trigger]
            render::tells_info(false, call.before, told, call.clock, call.debug_info)
                && render::tells_grid(
                told,
                call.opened,
                call.clock,
                call.viewport,
                call.list,
                call.rounded,
            );
        assert(render::tells_info(false, call.before, told, call.clock, call.debug_info));
        let (now, info) = choose|now: u64, info: String| #[trigger]
            call.clock.ensures((), now) && #[trigger] call.debug_info.ensures((), info)
                && render::notes(call.before, told, now, "debug_info", render::info_parts(info@));
        assert(render::notes(call.before, told, now, "debug_info", render::info_parts(info@)));
    }
}

/// The registration of a bitmap is counted and recorded as one event whatever
/// comes of it, and its size is known for the handle exactly where there is
/// one. `opened`, `called` and `closed` are the recorder when the renderer is
/// called, when it has returned and when the span is finished.
pub proof fn law_registrations_are_recorded<E, M: Fn(u64, u64) -> u64>(
    before: Profiler,
    opened: Profiler,
    called: Profiler,
    closed: Profiler,
    span: Span,
    now: u64,
    end: u64,
    minus: M,
    bitmap: (nat, nat, nat),
    renderer: ProfiledRenderer,
    renderer_after: ProfiledRenderer,
    outcome: Result<usize, E>,
    size: (i32, i32),
)
    requires
        render::tallies(before, opened, Counter::BitmapsRegistered),
        render::is_open(
            span,
            now,
            "register_bitmap",
            render::bitmap_parts(
                bitmap.0,
                bitmap.1,
                bitmap.2,
                profiler::movie_text(before.movie),
            ),
            0,
        ),
        span.finishes(called, closed, end, minus),
        forall|dur: u64| #[trigger]
            minus.ensures((end, span.start), dur) ==> !ieee::is_number(dur) || ieee::double(dur)
                >= 0,
        render::registers(renderer, renderer_after, outcome, size),
    ensures
        opened.counters@[2] == before.counters@[2].wrapping_add(1),
        exists|dur: u64| #[trigger] profiler::records(called, closed, span.event(dur)),
        outcome matches Ok(key) ==> renderer_after.bitmap_sizes@.contains_key(key)
            && renderer_after.bitmap_sizes@[key] == size,
        outcome is Err ==> renderer_after.bitmap_sizes == renderer.bitmap_sizes,
{
    ieee::lemma_zero();
    let dur = choose|dur: u64| #[trigger]
        minus.ensures((end, span.start), dur) && if span.is_short(dur) {
            closed == called
        } else {
            profiler::records(called, closed, span.event(dur))
        };
    assert(profiler::records(called, closed, span.event(dur)));
}

/// What describes the renderer is told on one line and without quotes.
pub proof fn law_descriptions_are_one_line(info: Seq<char>)
    ensures
        render::cleaned(info).len() == info.len(),
        forall|i: int|
            0 <= i < info.len() ==> #[trigger] render::cleaned(info)[i] == (if info[i] == '\n'
                || info[i] == '"' {
                ' '
            } else {
                info[i]
            }),
{
}

// ---------------------------------------------------------------------
// Everything that is recorded is JSON.
// ---------------------------------------------------------------------

proof fn lemma_number(key: Seq<char>, n: nat, depth: nat)
    requires
        json::is_body(key),
    ensures
        json::is_member(render::number(key, n), depth),
{
    json::lemma_decimal_is_number(n);
    json::lemma_member(key, text::decimal(n), depth);
}

proof fn lemma_object_is_json(parts: Seq<Seq<char>>, depth: nat)
    requires
        forall|i: int| 0 <= i < parts.len() ==> json::is_member(#[trigger] parts[i], depth),
    ensures
        json::is_json(json::object(parts)),
{
    json::lemma_object(parts, depth);
    json::lemma_value_is_element(json::object(parts), depth + 1);
}

proof fn lemma_grid_keys()
    ensures
        json::is_body("vw"@),
        json::is_body("vh"@),
        json::is_body("gw"@),
        json::is_body("gh"@),
        json::is_body("draws"@),
        json::is_body("heavy"@),
        json::is_body("hot"@),
{
    reveal_strlit("vw");
    reveal_strlit("vh");
    reveal_strlit("gw");
    reveal_strlit("gh");
    reveal_strlit("draws");
    reveal_strlit("heavy");
    reveal_strlit("hot");
    json::lemma_plain_is_body("vw"@);
    json::lemma_plain_is_body("vh"@);
    json::lemma_plain_is_body("gw"@);
    json::lemma_plain_is_body("gh"@);
    json::lemma_plain_is_body("draws"@);
    json::lemma_plain_is_body("heavy"@);
    json::lemma_plain_is_body("hot"@);
}

proof fn lemma_decimals(numbers: Seq<u32>)
    ensures
        json::is_value(json::array(screen::draw_parts(numbers)), 1),
{
    let parts = screen::draw_parts(numbers);
    assert forall|i: int| 0 <= i < parts.len() implies json::is_element(#[trigger] parts[i], 0) by {
        json::lemma_decimal_is_number(numbers[i] as nat);
        json::lemma_value_is_element(parts[i], 0);
    }
    json::lemma_array(parts, 0);
}

proof fn lemma_heavy_parts(heavy: Seq<u32>, count: nat)
    ensures
        forall|i: int|
            0 <= i < screen::heavy_parts(heavy, count).len() ==> json::is_element(
                #[trigger] screen::heavy_parts(heavy, count)[i],
                1,
            ),
    decreases count,
{
    if count > 0 {
        lemma_heavy_parts(heavy, (count - 1) as nat);
        let cell = text::decimal((count - 1) as nat);
        let number = text::decimal(heavy[count - 1] as nat);
        json::lemma_decimal_is_number((count - 1) as nat);
        json::lemma_decimal_is_number(heavy[count - 1] as nat);
        json::lemma_value_is_element(cell, 0);
        json::lemma_value_is_element(number, 0);
        json::lemma_array(seq![cell, number], 0);
        json::lemma_value_is_element(json::array(seq![cell, number]), 1);
        let front = screen::heavy_parts(heavy, (count - 1) as nat);
        let parts = screen::heavy_parts(heavy, count);
        assert forall|i: int| 0 <= i < parts.len() implies json::is_element(#[trigger] parts[i], 1) by {
            if i < front.len() {
                assert(parts[i] == front[i]);
            } else {
                assert(parts[i] == json::array(seq![cell, number]));
            }
        }
    }
}

/// The rect is written in scalars: numbers, or `null` where there is none.
pub open spec fn is_numeric(at: RectText) -> bool {
    json::is_scalar(at.x@) && json::is_scalar(at.y@) && json::is_scalar(at.w@) && json::is_scalar(
        at.h@,
    )
}

/// A grid is described by a JSON text, as long as the rects are written in
/// scalars and their kinds need no escapes.
pub proof fn law_grids_are_json(
    viewport_w: nat,
    viewport_h: nat,
    draws: Seq<u32>,
    heavy: Seq<u32>,
    hot: Seq<Hot>,
    texts: Seq<RectText>,
)
    requires
        texts.len() == hot.len(),
        forall|i: int| 0 <= i < texts.len() ==> is_numeric(#[trigger] texts[i]),
        forall|i: int| 0 <= i < hot.len() ==> json::is_body((#[trigger] hot[i]).kind@),
    ensures
        json::is_json(
            json::object(
                screen::grid_parts(
                    viewport_w,
                    viewport_h,
                    draws,
                    heavy,
                    screen::hot_parts(hot, texts),
                ),
            ),
        ),
{
    lemma_grid_keys();
    lemma_number("vw"@, viewport_w, 2);
    lemma_number("vh"@, viewport_h, 2);
    lemma_number("gw"@, screen::GRID_W as nat, 2);
    lemma_number("gh"@, screen::GRID_H as nat, 2);
    lemma_decimals(draws);
    json::lemma_value_deeper(json::array(screen::draw_parts(draws)), 1, 2);
    json::lemma_member("draws"@, json::array(screen::draw_parts(draws)), 2);
    let cells = screen::heavy_parts(heavy, heavy.len());
    lemma_heavy_parts(heavy, heavy.len());
    json::lemma_array(cells, 1);
    json::lemma_member("heavy"@, json::array(cells), 2);
    let trees = screen::hot_parts(hot, texts);
    assert forall|i: int| 0 <= i < trees.len() implies json::is_element(#[trigger] trees[i], 1) by {
        assert(is_numeric(texts[i]));
        assert(json::is_body(hot[i].kind@));
        let at = texts[i];
        let kind = json::literal(hot[i].kind@);
        json::lemma_literal_is_string(hot[i].kind@);
        json::lemma_value_is_element(at.x@, 0);
        json::lemma_value_is_element(at.y@, 0);
        json::lemma_value_is_element(at.w@, 0);
        json::lemma_value_is_element(at.h@, 0);
        json::lemma_value_is_element(kind, 0);
        json::lemma_array(seq![at.x@, at.y@, at.w@, at.h@, kind], 0);
        json::lemma_value_is_element(trees[i], 1);
    }
    json::lemma_array(trees, 1);
    json::lemma_member("hot"@, json::array(trees), 2);
    lemma_object_is_json(screen::grid_parts(viewport_w, viewport_h, draws, heavy, trees), 2);
}

proof fn lemma_kinds_are_plain()
    ensures
        json::is_body("alpha_mask"@),
        json::is_body("blend_layer"@),
        json::is_body("blend_alpha_erase"@),
        json::is_body("blend"@),
        json::is_body("blend_shader"@),
{
    reveal_strlit("alpha_mask");
    reveal_strlit("blend_layer");
    reveal_strlit("blend_alpha_erase");
    reveal_strlit("blend");
    reveal_strlit("blend_shader");
    json::lemma_plain_is_body("alpha_mask"@);
    json::lemma_plain_is_body("blend_layer"@);
    json::lemma_plain_is_body("blend_alpha_erase"@);
    json::lemma_plain_is_body("blend"@);
    json::lemma_plain_is_body("blend_shader"@);
}

proof fn lemma_hot_kinds(list: CommandList, count: nat)
    ensures
        forall|i: int|
            0 <= i < commands::hot_trees(list, count).len() ==> json::is_body(
                (#[trigger] commands::hot_trees(list, count)[i]).kind@,
            ),
    decreases list, count,
{
    if 0 < count <= list.commands@.len() {
        lemma_hot_kinds(list, (count - 1) as nat);
        lemma_kinds_are_plain();
        let command = list.commands@[count - 1];
        let own = commands::hot_inside(command);
        match command {
            Command::RenderAlphaMask { maskee_commands, mask_commands } => {
                lemma_hot_kinds(maskee_commands, maskee_commands.commands@.len());
                lemma_hot_kinds(mask_commands, mask_commands.commands@.len());
            },
            Command::Blend(inner, _) => {
                lemma_hot_kinds(inner, inner.commands@.len());
            },
            _ => {},
        }
        assert forall|i: int| 0 <= i < own.len() implies json::is_body((#[trigger] own[i]).kind@) by {
            match command {
                Command::RenderAlphaMask { maskee_commands, mask_commands } => {
                    let a = commands::hot_trees(maskee_commands, maskee_commands.commands@.len());
                    let b = commands::hot_trees(mask_commands, mask_commands.commands@.len());
                    if i < a.len() {
                        assert(own[i] == a[i]);
                    } else if i < a.len() + b.len() {
                        assert(own[i] == b[i - a.len()]);
                    }
                },
                Command::Blend(inner, _) => {
                    let a = commands::hot_trees(inner, inner.commands@.len());
                    if i < a.len() {
                        assert(own[i] == a[i]);
                    }
                },
                _ => {},
            }
        }
        let front = commands::hot_trees(list, (count - 1) as nat);
        assert forall|i: int| 0 <= i < commands::hot_trees(list, count).len() implies json::is_body(
            (#[trigger] commands::hot_trees(list, count)[i]).kind@,
        ) by {
            if i < front.len() {
                assert(commands::hot_trees(list, count)[i] == front[i]);
            } else {
                assert(commands::hot_trees(list, count)[i] == own[i - front.len()]);
            }
        }
    }
}

/// The grid of a frame is recorded as a JSON text, as long as the rects are
/// written in scalars.
pub proof fn law_frame_grids_are_json(
    viewport_w: nat,
    viewport_h: nat,
    list: CommandList,
    texts: Seq<RectText>,
)
    requires
        texts.len() == render::frame_hot(list).len(),
        forall|i: int| 0 <= i < texts.len() ==> is_numeric(#[trigger] texts[i]),
    ensures
        json::is_json(
            json::object(render::frame_grid_parts(viewport_w, viewport_h, list, texts)),
        ),
{
    let hot = render::frame_hot(list);
    lemma_hot_kinds(list, list.commands@.len());
    law_hot_rects_are_capped(list);
    assert forall|i: int| 0 <= i < hot.len() implies json::is_body((#[trigger] hot[i]).kind@) by {
        assert(hot[i] == commands::hot_trees(list, list.commands@.len())[i]);
    }
    law_grids_are_json(
        viewport_w,
        viewport_h,
        render::frame_draws(list),
        render::frame_heavy(list),
        hot,
        texts,
    );
}

proof fn lemma_stat_keys()
    ensures
        json::is_body("shapes"@),
        json::is_body("bitmaps"@),
        json::is_body("rects"@),
        json::is_body("stencil_masks"@),
        json::is_body("alpha_masks"@),
        json::is_body("blend_layer"@),
        json::is_body("blend_alpha_erase"@),
        json::is_body("blend_complex"@),
        json::is_body("blend_shader"@),
        json::is_body("max_depth"@),
{
    reveal_strlit("shapes");
    reveal_strlit("bitmaps");
    reveal_strlit("rects");
    reveal_strlit("stencil_masks");
    reveal_strlit("alpha_masks");
    reveal_strlit("blend_layer");
    reveal_strlit("blend_alpha_erase");
    reveal_strlit("blend_complex");
    reveal_strlit("blend_shader");
    reveal_strlit("max_depth");
    json::lemma_plain_is_body("shapes"@);
    json::lemma_plain_is_body("bitmaps"@);
    json::lemma_plain_is_body("rects"@);
    json::lemma_plain_is_body("stencil_masks"@);
    json::lemma_plain_is_body("alpha_masks"@);
    json::lemma_plain_is_body("blend_layer"@);
    json::lemma_plain_is_body("blend_alpha_erase"@);
    json::lemma_plain_is_body("blend_complex"@);
    json::lemma_plain_is_body("blend_shader"@);
    json::lemma_plain_is_body("max_depth"@);
}

proof fn lemma_stat_parts(stats: CommandStats)
    ensures
        forall|i: int|
            0 <= i < commands::stat_parts(stats).len() ==> json::is_member(
                #[trigger] commands::stat_parts(stats)[i],
                0,
            ),
{
    lemma_stat_keys();
    lemma_number("shapes"@, stats.shapes as nat, 0);
    lemma_number("bitmaps"@, stats.bitmaps as nat, 0);
    lemma_number("rects"@, stats.rects as nat, 0);
    lemma_number("stencil_masks"@, stats.stencil_masks as nat, 0);
    lemma_number("alpha_masks"@, stats.alpha_masks as nat, 0);
    lemma_number("blend_layer"@, stats.blend_layer as nat, 0);
    lemma_number("blend_alpha_erase"@, stats.blend_alpha_erase as nat, 0);
    lemma_number("blend_complex"@, stats.blend_complex as nat, 0);
    lemma_number("blend_shader"@, stats.blend_shader as nat, 0);
    lemma_number("max_depth"@, stats.max_depth as nat, 0);
}

/// The breakdown consists of object members: between braces it is a JSON
/// text.
pub proof fn law_breakdowns_are_members(stats: CommandStats)
    ensures
        json::is_json(json::object(commands::stat_parts(stats))),
{
    lemma_stat_parts(stats);
    lemma_object_is_json(commands::stat_parts(stats), 0);
}

proof fn lemma_frame_keys()
    ensures
        json::is_body("commands"@),
        json::is_body("cache_entries"@),
        json::is_body("cache_commands"@),
        json::is_body("info"@),
{
    reveal_strlit("commands");
    reveal_strlit("cache_entries");
    reveal_strlit("cache_commands");
    reveal_strlit("info");
    json::lemma_plain_is_body("commands"@);
    json::lemma_plain_is_body("cache_entries"@);
    json::lemma_plain_is_body("cache_commands"@);
    json::lemma_plain_is_body("info"@);
}

/// What is told of a frame and of the renderer are JSON texts.
pub proof fn law_frames_are_json(
    count: nat,
    cache: Seq<usize>,
    stats: CommandStats,
    info: Seq<char>,
)
    ensures
        json::is_json(json::object(render::frame_parts(count, cache, stats))),
        json::is_json(json::object(render::info_parts(info))),
{
    lemma_frame_keys();
    lemma_stat_parts(stats);
    lemma_number("commands"@, count, 0);
    lemma_number("cache_entries"@, cache.len(), 0);
    lemma_number("cache_commands"@, render::sum(cache), 0);
    let front = seq![
        render::number("commands"@, count),
        render::number("cache_entries"@, cache.len()),
        render::number("cache_commands"@, render::sum(cache)),
    ];
    let parts = render::frame_parts(count, cache, stats);
    assert forall|i: int| 0 <= i < parts.len() implies json::is_member(#[trigger] parts[i], 0) by {
        if i < 3 {
            assert(parts[i] == front[i]);
        } else {
            assert(parts[i] == commands::stat_parts(stats)[i - 3]);
        }
    }
    lemma_object_is_json(parts, 0);
    json::lemma_quoted_is_value(render::cleaned(info), 0);
    json::lemma_member("info"@, json::quoted(render::cleaned(info)), 0);
    lemma_object_is_json(render::info_parts(info), 0);
}

proof fn lemma_operation_keys()
    ensures
        json::is_body("width"@),
        json::is_body("height"@),
        json::is_body("scale"@),
        json::is_body("id"@),
        json::is_body("paths"@),
        json::is_body("w"@),
        json::is_body("h"@),
        json::is_body("movie"@),
        json::is_body("filter"@),
        json::is_body("bytes"@),
        json::is_body("region_w"@),
        json::is_body("region_h"@),
        json::is_body("commands"@),
{
    reveal_strlit("width");
    reveal_strlit("height");
    reveal_strlit("scale");
    reveal_strlit("id");
    reveal_strlit("paths");
    reveal_strlit("w");
    reveal_strlit("h");
    reveal_strlit("movie");
    reveal_strlit("filter");
    reveal_strlit("bytes");
    reveal_strlit("region_w");
    reveal_strlit("region_h");
    reveal_strlit("commands");
    json::lemma_plain_is_body("width"@);
    json::lemma_plain_is_body("height"@);
    json::lemma_plain_is_body("scale"@);
    json::lemma_plain_is_body("id"@);
    json::lemma_plain_is_body("paths"@);
    json::lemma_plain_is_body("w"@);
    json::lemma_plain_is_body("h"@);
    json::lemma_plain_is_body("movie"@);
    json::lemma_plain_is_body("filter"@);
    json::lemma_plain_is_body("bytes"@);
    json::lemma_plain_is_body("region_w"@);
    json::lemma_plain_is_body("region_h"@);
    json::lemma_plain_is_body("commands"@);
}

proof fn lemma_filters_are_plain(filter: render::Filter)
    ensures
        json::is_body(render::filter_word(filter)@),
{
    reveal_strlit("bevel");
    reveal_strlit("blur");
    reveal_strlit("color_matrix");
    reveal_strlit("convolution");
    reveal_strlit("displacement_map");
    reveal_strlit("drop_shadow");
    reveal_strlit("glow");
    reveal_strlit("gradient_bevel");
    reveal_strlit("gradient_glow");
    reveal_strlit("shader");
    json::lemma_plain_is_body("bevel"@);
    json::lemma_plain_is_body("blur"@);
    json::lemma_plain_is_body("color_matrix"@);
    json::lemma_plain_is_body("convolution"@);
    json::lemma_plain_is_body("displacement_map"@);
    json::lemma_plain_is_body("drop_shadow"@);
    json::lemma_plain_is_body("glow"@);
    json::lemma_plain_is_body("gradient_bevel"@);
    json::lemma_plain_is_body("gradient_glow"@);
    json::lemma_plain_is_body("shader"@);
}

/// What is told of the operations of a renderer are JSON texts, as long as
/// sizes and scales are written in numbers.
pub proof fn law_operations_are_json(
    n: (nat, nat, nat, nat),
    w: Seq<char>,
    h: Seq<char>,
    scale: Seq<char>,
    movie: Option<String>,
    filter: render::Filter,
)
    requires
        json::is_number(w),
        json::is_number(h),
        json::is_number(scale),
    ensures
        json::is_json(json::object(render::viewport_parts(n.0, n.1, scale))),
        json::is_json(
            json::object(
                render::shape_parts(n.0, n.1, w, h, None, profiler::movie_text(movie)),
            ),
        ),
        json::is_json(
            json::object(
                render::shape_parts(n.0, n.1, w, h, Some(scale), profiler::movie_text(movie)),
            ),
        ),
        json::is_json(json::object(render::offscreen_parts(n.0, n.1, n.2))),
        json::is_json(json::object(render::filter_parts(filter, n.0, n.1))),
        json::is_json(json::object(render::texture_parts(n.0, n.1))),
        json::is_json(
            json::object(render::bitmap_parts(n.0, n.1, n.2, profiler::movie_text(movie))),
        ),
        json::is_json(json::object(render::update_parts(n.0, n.1, n.2, n.3))),
{
    lemma_operation_keys();
    let url = profiler::movie_text(movie);
    assert(json::is_value(url, 0)) by {
        reveal_strlit("null");
        assert("null"@ =~= seq!['n', 'u', 'l', 'l']);
        if let Some(url) = movie {
            json::lemma_quoted_is_value(url@, 0);
        }
    }
    json::lemma_member("movie"@, url, 0);
    json::lemma_member("scale"@, scale, 0);
    json::lemma_member("w"@, w, 0);
    json::lemma_member("h"@, h, 0);
    lemma_number("width"@, n.0, 0);
    lemma_number("height"@, n.1, 0);
    lemma_object_is_json(render::viewport_parts(n.0, n.1, scale), 0);
    lemma_number("id"@, n.0, 0);
    lemma_number("paths"@, n.1, 0);
    lemma_object_is_json(render::shape_parts(n.0, n.1, w, h, None, url), 0);
    lemma_object_is_json(render::shape_parts(n.0, n.1, w, h, Some(scale), url), 0);
    lemma_number("commands"@, n.0, 0);
    lemma_number("w"@, n.1, 0);
    lemma_number("h"@, n.2, 0);
    lemma_object_is_json(render::offscreen_parts(n.0, n.1, n.2), 0);
    lemma_filters_are_plain(filter);
    json::lemma_literal_is_string(render::filter_word(filter)@);
    json::lemma_member("filter"@, json::literal(render::filter_word(filter)@), 0);
    lemma_number("w"@, n.0, 0);
    lemma_number("h"@, n.1, 0);
    lemma_object_is_json(render::filter_parts(filter, n.0, n.1), 0);
    lemma_object_is_json(render::texture_parts(n.0, n.1), 0);
    lemma_number("bytes"@, n.2, 0);
    lemma_object_is_json(render::bitmap_parts(n.0, n.1, n.2, url), 0);
    lemma_number("region_w"@, n.2, 0);
    lemma_number("region_h"@, n.3, 0);
    lemma_object_is_json(render::update_parts(n.0, n.1, n.2, n.3), 0);
}

} // verus!
