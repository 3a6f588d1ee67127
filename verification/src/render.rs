//! What is recorded around the expensive, usually one-off operations of a
//! renderer (shape tessellation, texture uploads, offscreen renders, GPU
//! readbacks) and around the submission of each frame.
//!
//! The embedder calls the renderer; it opens the span of an operation here
//! before it does so and finishes the span behind it.

use crate::commands;
use crate::commands::{CommandList, CommandStats, CommandWalk, Measure};
use crate::json;
use crate::profiler;
use crate::profiler::{Counter, Event, Profiler, Span};
use crate::screen;
use crate::screen::{Cells, Placement, Rect, RectText};
use crate::text;
use std::collections::HashMap;
use vstd::prelude::*;

verus! {

/// What is known of handles is forgotten past this number, so that memory
/// stays bounded (a key can be used again once its handle is gone anyway).
pub const MAX_TRACKED_HANDLES: usize = 100_000;

/// Texture updates shorter than this are not worth an event: 0.05 ms.
pub const UPDATE_THRESHOLD: u64 = 0x3fa9_9999_9999_999a;

/// What the recorder knows of a renderer.
pub struct ProfiledRenderer {
    pub debug_info_reported: bool,
    /// Bounds of registered shapes in pixels, keyed by handle.
    pub shape_bounds: HashMap<usize, Rect>,
    /// Ranks of the width and height of registered bitmaps, keyed by handle.
    pub bitmap_sizes: HashMap<usize, (i32, i32)>,
}

/// `table` with one more entry; a full table is emptied first.
pub open spec fn remembered<V>(table: Map<usize, V>, key: usize, value: V) -> Map<usize, V> {
    if table.len() >= MAX_TRACKED_HANDLES {
        Map::empty().insert(key, value)
    } else {
        table.insert(key, value)
    }
}

/// `after` is `before` with the size of a bitmap remembered, where it was
/// registered.
pub open spec fn registers<E>(
    before: ProfiledRenderer,
    after: ProfiledRenderer,
    outcome: Result<usize, E>,
    size: (i32, i32),
) -> bool {
    &&& match outcome {
        Ok(key) => after.bitmap_sizes@ == remembered(before.bitmap_sizes@, key, size),
        Err(_) => after.bitmap_sizes == before.bitmap_sizes,
    }
    &&& after.shape_bounds == before.shape_bounds
    &&& after.debug_info_reported == before.debug_info_reported
}

/// The rectangle from the origin to a size.
pub open spec fn sized(size: (i32, i32)) -> Rect {
    Rect { left: 0, top: 0, right: size.0, bottom: size.1 }
}

/// Where a rectangle lands that is mapped by `map`.
pub open spec fn lands<M: Fn(i32, i32) -> (i32, i32), C: Fn(Rect) -> Cells>(
    map: M,
    cells: C,
    rect: Rect,
    at: Placement,
) -> bool {
    &&& screen::is_mapped(map, rect, at.rect)
    &&& cells.ensures((at.rect,), at.cells)
}

/// Where a rectangle lands: `map` maps its points to the viewport, `cells`
/// tells on which cells a rectangle lies.
pub fn place<M: Fn(i32, i32) -> (i32, i32), C: Fn(Rect) -> Cells>(
    map: M,
    cells: C,
    rect: Rect,
) -> (at: Placement)
    requires
        forall|x: i32, y: i32| map.requires((x, y)),
        forall|r: Rect| cells.requires((r,)),
    ensures
        lands(map, cells, rect, at),
{
    let rect: Rect = screen::transformed_aabb(map, rect);
    Placement { rect, cells: cells(rect) }
}

impl ProfiledRenderer {
    /// Nothing known yet.
    pub fn new() -> (renderer: ProfiledRenderer)
        ensures
            !renderer.debug_info_reported,
            renderer.shape_bounds@ == Map::<usize, Rect>::empty(),
            renderer.bitmap_sizes@ == Map::<usize, (i32, i32)>::empty(),
    {
        ProfiledRenderer {
            debug_info_reported: false,
            shape_bounds: HashMap::new(),
            bitmap_sizes: HashMap::new(),
        }
    }

    /// Remembers the bounds of a shape.
    pub fn remember_shape(&mut self, key: usize, bounds: Rect)
        ensures
            final(self).shape_bounds@ == remembered(old(self).shape_bounds@, key, bounds),
            final(self).bitmap_sizes == old(self).bitmap_sizes,
            final(self).debug_info_reported == old(self).debug_info_reported,
    {
        broadcast use vstd::std_specs::hash::group_hash_axioms;

        if self.shape_bounds.len() >= MAX_TRACKED_HANDLES {
            self.shape_bounds.clear();
        }
        self.shape_bounds.insert(key, bounds);
    }

    /// Remembers the size of a bitmap.
    pub fn remember_bitmap(&mut self, key: usize, width: i32, height: i32)
        ensures
            final(self).bitmap_sizes@ == remembered(old(self).bitmap_sizes@, key, (width, height)),
            final(self).shape_bounds == old(self).shape_bounds,
            final(self).debug_info_reported == old(self).debug_info_reported,
    {
        broadcast use vstd::std_specs::hash::group_hash_axioms;

        if self.bitmap_sizes.len() >= MAX_TRACKED_HANDLES {
            self.bitmap_sizes.clear();
        }
        self.bitmap_sizes.insert(key, (width, height));
    }

    /// Settles the registration of a bitmap, or the creation of a texture: its
    /// size is remembered where the renderer gave it a handle. What came of it
    /// is handed on.
    pub fn registered<E>(
        &mut self,
        outcome: Result<usize, E>,
        width: i32,
        height: i32,
    ) -> (result: Result<usize, E>)
        ensures
            result == outcome,
            registers(*old(self), *final(self), outcome, (width, height)),
    {
        if let Ok(key) = &outcome {
            self.remember_bitmap(*key, width, height);
        }
        outcome
    }

    /// Where a shape lands, if its bounds are known: `map` maps its points to
    /// the viewport, `cells` tells on which cells a rectangle lies.
    pub fn place_shape<M: Fn(i32, i32) -> (i32, i32), C: Fn(Rect) -> Cells>(
        &self,
        key: usize,
        map: M,
        cells: C,
    ) -> (at: Option<Placement>)
        requires
            forall|x: i32, y: i32| map.requires((x, y)),
            forall|r: Rect| cells.requires((r,)),
        ensures
            at is Some <==> self.shape_bounds@.contains_key(key),
            at is Some ==> lands(map, cells, self.shape_bounds@[key], at->0),
    {
        broadcast use vstd::std_specs::hash::group_hash_axioms;

        match self.shape_bounds.get(&key) {
            Some(bounds) => Some(place(map, cells, *bounds)),
            None => None,
        }
    }

    /// Where a bitmap lands, if its size is known.
    pub fn place_bitmap<M: Fn(i32, i32) -> (i32, i32), C: Fn(Rect) -> Cells>(
        &self,
        key: usize,
        map: M,
        cells: C,
    ) -> (at: Option<Placement>)
        requires
            forall|x: i32, y: i32| map.requires((x, y)),
            forall|r: Rect| cells.requires((r,)),
        ensures
            at is Some <==> self.bitmap_sizes@.contains_key(key),
            at is Some ==> lands(map, cells, sized(self.bitmap_sizes@[key]), at->0),
    {
        broadcast use vstd::std_specs::hash::group_hash_axioms;

        match self.bitmap_sizes.get(&key) {
            Some(size) => Some(
                place(map, cells, Rect { left: 0, top: 0, right: size.0, bottom: size.1 }),
            ),
            None => None,
        }
    }
}

// ---------------------------------------------------------------------
// Operations.
// ---------------------------------------------------------------------

/// A member that is an integer.
pub open spec fn number(key: Seq<char>, n: nat) -> Seq<char> {
    json::member(key, text::decimal(n))
}

/// The span is that of the operation with this name, open since `now`.
pub open spec fn is_open(
    span: Span,
    now: u64,
    name: &'static str,
    parts: Seq<Seq<char>>,
    min_duration: u64,
) -> bool {
    &&& span.start == now
    &&& span.cat == "render"
    &&& span.name == name
    &&& span.args is Some
    &&& span.args->0@ == json::object(parts)
    &&& span.min_duration == min_duration
}

/// `after` is `before` with one more of this counter.
pub open spec fn tallies(before: Profiler, after: Profiler, counter: Counter) -> bool {
    &&& after.counters@ == before.counters@.update(
        counter.position(),
        before.counters@[counter.position()].wrapping_add(1),
    )
    &&& profiler::only_counts(before, after)
}

/// `after` is `before` with an instant of this name recorded.
pub open spec fn notes(
    before: Profiler,
    after: Profiler,
    now: u64,
    name: &'static str,
    parts: Seq<Seq<char>>,
) -> bool {
    exists|args: String|
        args@ == json::object(parts) && #[trigger] profiler::records(
            before,
            after,
            (Event { ts: now, dur: 0, cat: "render", name, args: Some(args) }),
        )
}

fn open(now: u64, name: &'static str, args: String) -> (span: Span)
    ensures
        span == (Span { start: now, cat: "render", name, args: Some(args), min_duration: 0 }),
{
    let mut span: Span = profiler::span(now, "render", name);
    span.args = Some(args);
    span
}

fn note(p: &mut Profiler, now: u64, name: &'static str, args: String)
    requires
        old(p).can_record(),
    ensures
        profiler::records(
            *old(p),
            *final(p),
            (Event { ts: now, dur: 0, cat: "render", name, args: Some(args) }),
        ),
{
    let text = || -> (out: String)
        ensures
            out == args,
    {
        args
    };
    profiler::instant(p, now, "render", name, text);
}

/// What is told of a viewport.
pub open spec fn viewport_parts(width: nat, height: nat, scale: Seq<char>) -> Seq<Seq<char>> {
    seq![number("width"@, width), number("height"@, height), json::member("scale"@, scale)]
}

/// Records a new viewport size; `scale` is the scale factor in decimal.
pub fn set_viewport_dimensions(p: &mut Profiler, now: u64, width: u32, height: u32, scale: &str)
    requires
        old(p).can_record(),
    ensures
        notes(
            *old(p),
            *final(p),
            now,
            "viewport",
            viewport_parts(width as nat, height as nat, scale@),
        ),
{
    let mut members: json::Parts = json::Parts::new();
    members.number("width", width as u64);
    members.number("height", height as u64);
    members.value("scale", scale);
    assert(members.parts() =~= viewport_parts(width as nat, height as nat, scale@));
    note(p, now, "viewport", members.into_object());
}

/// What is told of a shape; `scale` where it is tessellated for one.
pub open spec fn shape_parts(
    id: nat,
    paths: nat,
    w: Seq<char>,
    h: Seq<char>,
    scale: Option<Seq<char>>,
    movie: Seq<char>,
) -> Seq<Seq<char>> {
    let parts = seq![
        number("id"@, id),
        number("paths"@, paths),
        json::member("w"@, w),
        json::member("h"@, h),
    ];
    let parts = match scale {
        Some(scale) => parts.push(json::member("scale"@, scale)),
        None => parts,
    };
    parts.push(json::member("movie"@, movie))
}

fn open_shape(
    p: &mut Profiler,
    now: u64,
    id: u16,
    paths: usize,
    w: &str,
    h: &str,
    scale: Option<&str>,
) -> (span: Span)
    ensures
        tallies(*old(p), *final(p), Counter::ShapesRegistered),
        is_open(
            span,
            now,
            "register_shape",
            shape_parts(
                id as nat,
                paths as nat,
                w@,
                h@,
                match scale {
                    Some(scale) => Some(scale@),
                    None => None,
                },
                profiler::movie_text(old(p).movie),
            ),
            0,
        ),
{
    profiler::inc(p, Counter::ShapesRegistered);
    let mut members: json::Parts = json::Parts::new();
    members.number("id", id as u64);
    members.number("paths", paths as u64);
    members.value("w", w);
    members.value("h", h);
    assert(members.parts() =~= seq![
        number("id"@, id as nat),
        number("paths"@, paths as nat),
        json::member("w"@, w@),
        json::member("h"@, h@),
    ]);
    if let Some(scale) = scale {
        members.value("scale", scale);
    }
    let movie: String = profiler::movie_json(p);
    members.value("movie", movie.as_str());
    open(now, "register_shape", members.into_object())
}

/// Counts the registration of a shape and opens its span; `w` and `h` are its
/// size in whole pixels.
pub fn register_shape(p: &mut Profiler, now: u64, id: u16, paths: usize, w: &str, h: &str) -> (span:
    Span)
    ensures
        tallies(*old(p), *final(p), Counter::ShapesRegistered),
        is_open(
            span,
            now,
            "register_shape",
            shape_parts(id as nat, paths as nat, w@, h@, None, profiler::movie_text(old(p).movie)),
            0,
        ),
{
    open_shape(p, now, id, paths, w, h, None)
}

/// The same for a shape that is tessellated for a scale, in decimal.
pub fn register_shape_with_scale(
    p: &mut Profiler,
    now: u64,
    id: u16,
    paths: usize,
    w: &str,
    h: &str,
    scale: &str,
) -> (span: Span)
    ensures
        tallies(*old(p), *final(p), Counter::ShapesRegistered),
        is_open(
            span,
            now,
            "register_shape",
            shape_parts(
                id as nat,
                paths as nat,
                w@,
                h@,
                Some(scale@),
                profiler::movie_text(old(p).movie),
            ),
            0,
        ),
{
    open_shape(p, now, id, paths, w, h, Some(scale))
}

/// What is told of an offscreen render.
pub open spec fn offscreen_parts(commands: nat, w: nat, h: nat) -> Seq<Seq<char>> {
    seq![number("commands"@, commands), number("w"@, w), number("h"@, h)]
}

/// Counts an offscreen render and opens its span.
pub fn render_offscreen(p: &mut Profiler, now: u64, commands: usize, w: u32, h: u32) -> (span: Span)
    ensures
        tallies(*old(p), *final(p), Counter::OffscreenRenders),
        is_open(
            span,
            now,
            "render_offscreen",
            offscreen_parts(commands as nat, w as nat, h as nat),
            0,
        ),
{
    profiler::inc(p, Counter::OffscreenRenders);
    let mut members: json::Parts = json::Parts::new();
    members.number("commands", commands as u64);
    members.number("w", w as u64);
    members.number("h", h as u64);
    assert(members.parts() =~= offscreen_parts(commands as nat, w as nat, h as nat));
    open(now, "render_offscreen", members.into_object())
}

/// The kinds of filters.
#[derive(Clone, Copy, Debug, PartialEq, Eq, Structural)]
pub enum Filter {
    BevelFilter,
    BlurFilter,
    ColorMatrixFilter,
    ConvolutionFilter,
    DisplacementMapFilter,
    DropShadowFilter,
    GlowFilter,
    GradientBevelFilter,
    GradientGlowFilter,
    ShaderFilter,
}

/// How a filter is called.
pub open spec fn filter_word(filter: Filter) -> &'static str {
    match filter {
        Filter::BevelFilter => "bevel",
        Filter::BlurFilter => "blur",
        Filter::ColorMatrixFilter => "color_matrix",
        Filter::ConvolutionFilter => "convolution",
        Filter::DisplacementMapFilter => "displacement_map",
        Filter::DropShadowFilter => "drop_shadow",
        Filter::GlowFilter => "glow",
        Filter::GradientBevelFilter => "gradient_bevel",
        Filter::GradientGlowFilter => "gradient_glow",
        Filter::ShaderFilter => "shader",
    }
}

/// How a filter is called.
pub fn filter_name(filter: &Filter) -> (name: &'static str)
    ensures
        name == filter_word(*filter),
{
    match filter {
        Filter::BevelFilter => "bevel",
        Filter::BlurFilter => "blur",
        Filter::ColorMatrixFilter => "color_matrix",
        Filter::ConvolutionFilter => "convolution",
        Filter::DisplacementMapFilter => "displacement_map",
        Filter::DropShadowFilter => "drop_shadow",
        Filter::GlowFilter => "glow",
        Filter::GradientBevelFilter => "gradient_bevel",
        Filter::GradientGlowFilter => "gradient_glow",
        Filter::ShaderFilter => "shader",
    }
}

/// What is told of the application of a filter.
pub open spec fn filter_parts(filter: Filter, w: nat, h: nat) -> Seq<Seq<char>> {
    seq![
        json::member("filter"@, json::literal(filter_word(filter)@)),
        number("w"@, w),
        number("h"@, h),
    ]
}

/// Counts the application of a filter as an offscreen render and opens its
/// span; `w` and `h` are the size of the source.
pub fn apply_filter(p: &mut Profiler, now: u64, filter: &Filter, w: u32, h: u32) -> (span: Span)
    ensures
        tallies(*old(p), *final(p), Counter::OffscreenRenders),
        is_open(span, now, "apply_filter", filter_parts(*filter, w as nat, h as nat), 0),
{
    profiler::inc(p, Counter::OffscreenRenders);
    let mut members: json::Parts = json::Parts::new();
    members.word("filter", filter_name(filter));
    members.number("w", w as u64);
    members.number("h", h as u64);
    assert(members.parts() =~= filter_parts(*filter, w as nat, h as nat));
    open(now, "apply_filter", members.into_object())
}

/// What is told of an empty texture.
pub open spec fn texture_parts(w: nat, h: nat) -> Seq<Seq<char>> {
    seq![number("w"@, w), number("h"@, h)]
}

/// Opens the span of the creation of an empty texture.
pub fn create_empty_texture(now: u64, width: u32, height: u32) -> (span: Span)
    ensures
        is_open(
            span,
            now,
            "create_empty_texture",
            texture_parts(width as nat, height as nat),
            0,
        ),
{
    let mut members: json::Parts = json::Parts::new();
    members.number("w", width as u64);
    members.number("h", height as u64);
    assert(members.parts() =~= texture_parts(width as nat, height as nat));
    open(now, "create_empty_texture", members.into_object())
}

/// What is told of a bitmap.
pub open spec fn bitmap_parts(w: nat, h: nat, bytes: nat, movie: Seq<char>) -> Seq<Seq<char>> {
    seq![number("w"@, w), number("h"@, h), number("bytes"@, bytes), json::member("movie"@, movie)]
}

/// Counts the registration of a bitmap and opens its span.
pub fn register_bitmap(p: &mut Profiler, now: u64, width: u32, height: u32, bytes: usize) -> (span:
    Span)
    ensures
        tallies(*old(p), *final(p), Counter::BitmapsRegistered),
        is_open(
            span,
            now,
            "register_bitmap",
            bitmap_parts(
                width as nat,
                height as nat,
                bytes as nat,
                profiler::movie_text(old(p).movie),
            ),
            0,
        ),
{
    profiler::inc(p, Counter::BitmapsRegistered);
    let movie: String = profiler::movie_json(p);
    let mut members: json::Parts = json::Parts::new();
    members.number("w", width as u64);
    members.number("h", height as u64);
    members.number("bytes", bytes as u64);
    members.value("movie", movie.as_str());
    assert(members.parts() =~= bitmap_parts(
        width as nat,
        height as nat,
        bytes as nat,
        movie@,
    ));
    open(now, "register_bitmap", members.into_object())
}

/// What is told of the update of a texture.
pub open spec fn update_parts(w: nat, h: nat, region_w: nat, region_h: nat) -> Seq<Seq<char>> {
    seq![
        number("w"@, w),
        number("h"@, h),
        number("region_w"@, region_w),
        number("region_h"@, region_h),
    ]
}

/// Counts the update of a texture and opens its span.
pub fn update_texture(
    p: &mut Profiler,
    now: u64,
    width: u32,
    height: u32,
    region_w: u32,
    region_h: u32,
) -> (span: Span)
    ensures
        tallies(*old(p), *final(p), Counter::TexturesUpdated),
        is_open(
            span,
            now,
            "update_texture",
            update_parts(width as nat, height as nat, region_w as nat, region_h as nat),
            UPDATE_THRESHOLD,
        ),
{
    profiler::inc(p, Counter::TexturesUpdated);
    let mut members: json::Parts = json::Parts::new();
    members.number("w", width as u64);
    members.number("h", height as u64);
    members.number("region_w", region_w as u64);
    members.number("region_h", region_h as u64);
    assert(members.parts() =~= update_parts(
        width as nat,
        height as nat,
        region_w as nat,
        region_h as nat,
    ));
    open(now, "update_texture", members.into_object()).min_duration_ms(UPDATE_THRESHOLD)
}

/// Opens the span of the compilation of a shader.
pub fn compile_pixelbender_shader(now: u64) -> (span: Span)
    ensures
        span == (Span {
            start: now,
            cat: "render",
            name: "compile_pixelbender_shader",
            args: None,
            min_duration: 0,
        }),
{
    profiler::span(now, "render", "compile_pixelbender_shader")
}

/// Opens the span of the run of a shader.
pub fn run_pixelbender_shader(now: u64) -> (span: Span)
    ensures
        span == (Span {
            start: now,
            cat: "render",
            name: "run_pixelbender_shader",
            args: None,
            min_duration: 0,
        }),
{
    profiler::span(now, "render", "run_pixelbender_shader")
}

/// Opens the span of a GPU readback. It stalls the pipeline, so it is always
/// worth seeing.
pub fn resolve_sync_handle(now: u64) -> (span: Span)
    ensures
        span == (Span {
            start: now,
            cat: "render",
            name: "gpu_readback",
            args: None,
            min_duration: 0,
        }),
{
    profiler::span(now, "render", "gpu_readback")
}

// ---------------------------------------------------------------------
// Frames.
// ---------------------------------------------------------------------

/// What describes the renderer, on one line and without quotes.
pub open spec fn cleaned(info: Seq<char>) -> Seq<char> {
    info.map_values(
        |c: char|
            if c == '\n' || c == '"' {
                ' '
            } else {
                c
            },
    )
}

/// What is told of the renderer.
pub open spec fn info_parts(info: Seq<char>) -> Seq<Seq<char>> {
    seq![json::member("info"@, json::quoted(cleaned(info)))]
}

/// Records what describes the renderer.
pub fn report_debug_info(p: &mut Profiler, now: u64, info: &str)
    requires
        old(p).can_record(),
    ensures
        notes(*old(p), *final(p), now, "debug_info", info_parts(info@)),
{
    let len: usize = info.unicode_len();
    let mut line: String = String::new();
    let mut i: usize = 0;
    assert(line@ =~= cleaned(info@).take(0));
    while i < len
        invariant
            i <= len,
            len == info@.len(),
            line@ == cleaned(info@).take(i as int),
        decreases len - i,
    {
        let c: char = info.get_char(i);
        line.push(
            if c == '\n' || c == '"' {
                ' '
            } else {
                c
            },
        );
        i += 1;
        assert(line@ =~= cleaned(info@).take(i as int));
    }
    assert(cleaned(info@).take(len as int) =~= cleaned(info@));
    let mut members: json::Parts = json::Parts::new();
    members.value("info", json::json_str(line.as_str()).as_str());
    assert(members.parts() =~= info_parts(info@));
    note(p, now, "debug_info", members.into_object());
}

/// The counts of a frame stay in the range of the counters.
pub open spec fn is_countable(list: CommandList) -> bool {
    &&& forall|m: Measure|
        commands::is_measure(m) ==> #[trigger] commands::total(
            list,
            list.commands@.len(),
            false,
            m,
        ) <= u32::MAX
    &&& commands::deepest(list, list.commands@.len(), 0) <= u32::MAX
}

/// What a frame adds up to.
pub open spec fn frame_count(list: CommandList, measure: Measure) -> u32 {
    commands::total(list, list.commands@.len(), false, measure) as u32
}

/// The breakdown of a frame.
pub open spec fn frame_stats(list: CommandList) -> CommandStats {
    CommandStats {
        shapes: frame_count(list, Measure::Shapes),
        bitmaps: frame_count(list, Measure::Bitmaps),
        rects: frame_count(list, Measure::Rects),
        stencil_masks: frame_count(list, Measure::StencilMasks),
        alpha_masks: frame_count(list, Measure::AlphaMasks),
        blend_layer: frame_count(list, Measure::BlendLayer),
        blend_alpha_erase: frame_count(list, Measure::BlendAlphaErase),
        blend_complex: frame_count(list, Measure::BlendComplex),
        blend_shader: frame_count(list, Measure::BlendShader),
        max_depth: commands::deepest(list, list.commands@.len(), 0) as u32,
    }
}

/// The draw commands of a frame on each cell.
pub open spec fn frame_draws(list: CommandList) -> Seq<u32> {
    Seq::new(
        screen::GRID_CELLS as nat,
        |cell: int| frame_count(list, Measure::Draws(cell as usize)),
    )
}

/// The same, inside blend and alpha-mask subtrees.
pub open spec fn frame_heavy(list: CommandList) -> Seq<u32> {
    Seq::new(
        screen::GRID_CELLS as nat,
        |cell: int| frame_count(list, Measure::Heavy(cell as usize)),
    )
}

/// The costly subtrees of a frame that are reported.
pub open spec fn frame_hot(list: CommandList) -> Seq<screen::Hot> {
    commands::capped(Seq::empty(), commands::hot_trees(list, list.commands@.len()))
}

/// Where the commands of a frame land, with the rects of the costly subtrees
/// in decimal.
pub open spec fn frame_grid_parts(
    viewport_w: nat,
    viewport_h: nat,
    list: CommandList,
    texts: Seq<RectText>,
) -> Seq<Seq<char>> {
    screen::grid_parts(
        viewport_w,
        viewport_h,
        frame_draws(list),
        frame_heavy(list),
        screen::hot_parts(frame_hot(list), texts),
    )
}

/// The sum of all numbers.
pub open spec fn sum(numbers: Seq<usize>) -> nat
    decreases numbers.len(),
{
    if numbers.len() == 0 {
        0
    } else {
        sum(numbers.drop_last()) + numbers.last() as nat
    }
}

/// What is told of a frame: how many commands it has, how many cached bitmaps
/// are redrawn with how many commands, and the breakdown.
pub open spec fn frame_parts(commands: nat, cache: Seq<usize>, stats: CommandStats) -> Seq<
    Seq<char>,
> {
    seq![
        number("commands"@, commands),
        number("cache_entries"@, cache.len()),
        number("cache_commands"@, sum(cache)),
    ] + commands::stat_parts(stats)
}

proof fn lemma_sum_grows(numbers: Seq<usize>, count: int)
    requires
        0 <= count <= numbers.len(),
    ensures
        sum(numbers.take(count)) <= sum(numbers),
    decreases numbers.len(),
{
    if count < numbers.len() {
        lemma_sum_grows(numbers.drop_last(), count);
        assert(numbers.drop_last().take(count) =~= numbers.take(count));
    } else {
        assert(numbers.take(count) =~= numbers);
    }
}

/// Walks the commands of a frame.
pub fn walk_frame(list: &CommandList) -> (walk: CommandWalk)
    requires
        is_countable(*list),
    ensures
        walk.stats == frame_stats(*list),
        walk.grid.draws@ == frame_draws(*list),
        walk.grid.heavy@ == frame_heavy(*list),
        walk.grid.hot@ == frame_hot(*list),
{
    let mut walk: CommandWalk = CommandWalk::new();
    let ghost before = walk;
    proof {
        assert forall|m: Measure| commands::is_measure(m) implies #[trigger] before.counted(m)
            + commands::total(*list, list.commands@.len(), false, m) <= u32::MAX by {
            assert(commands::total(*list, list.commands@.len(), false, m) <= u32::MAX);
        }
    }
    let _ = walk.walk(list, 0, false);
    proof {
        assert forall|m: Measure| commands::is_measure(m) implies #[trigger] walk.counted(m)
            == frame_count(*list, m) by {
            assert(before.counted(m) == 0);
            assert(commands::total(*list, list.commands@.len(), false, m) <= u32::MAX);
        }
        assert forall|cell: int| 0 <= cell < screen::GRID_CELLS implies #[trigger] walk.grid.draws@[cell]
            == frame_draws(*list)[cell] by {
            assert(walk.counted(Measure::Draws(cell as usize)) == walk.grid.draws@[cell]);
        }
        assert forall|cell: int| 0 <= cell < screen::GRID_CELLS implies #[trigger] walk.grid.heavy@[cell]
            == frame_heavy(*list)[cell] by {
            assert(walk.counted(Measure::Heavy(cell as usize)) == walk.grid.heavy@[cell]);
        }
        assert(walk.grid.draws@ =~= frame_draws(*list));
        assert(walk.grid.heavy@ =~= frame_heavy(*list));
        assert(before.grid.hot@ =~= Seq::empty());
        assert(walk.counted(Measure::Shapes) == frame_stats(*list).shapes);
        assert(walk.counted(Measure::Bitmaps) == frame_stats(*list).bitmaps);
        assert(walk.counted(Measure::Rects) == frame_stats(*list).rects);
        assert(walk.counted(Measure::StencilMasks) == frame_stats(*list).stencil_masks);
        assert(walk.counted(Measure::AlphaMasks) == frame_stats(*list).alpha_masks);
        assert(walk.counted(Measure::BlendLayer) == frame_stats(*list).blend_layer);
        assert(walk.counted(Measure::BlendAlphaErase) == frame_stats(*list).blend_alpha_erase);
        assert(walk.counted(Measure::BlendComplex) == frame_stats(*list).blend_complex);
        assert(walk.counted(Measure::BlendShader) == frame_stats(*list).blend_shader);
    }
    walk
}

/// What is told of a frame, as a JSON object.
pub fn frame_json(commands: usize, cache: &Vec<usize>, stats: &CommandStats) -> (out: String)
    requires
        sum(cache@) <= usize::MAX,
    ensures
        out@ == json::object(frame_parts(commands as nat, cache@, *stats)),
{
    let mut cache_commands: usize = 0;
    let mut i: usize = 0;
    assert(cache@.take(0) =~= Seq::empty());
    while i < cache.len()
        invariant
            i <= cache@.len(),
            sum(cache@) <= usize::MAX,
            cache_commands == sum(cache@.take(i as int)),
        decreases cache@.len() - i,
    {
        proof {
            lemma_sum_grows(cache@, i + 1);
            assert(cache@.take(i + 1).drop_last() =~= cache@.take(i as int));
        }
        cache_commands += cache[i];
        i += 1;
    }
    assert(cache@.take(cache@.len() as int) =~= cache@);
    let mut members: json::Parts = json::Parts::new();
    members.number("commands", commands as u64);
    members.number("cache_entries", cache.len() as u64);
    members.number("cache_commands", cache_commands as u64);
    let ghost front = members.parts();
    members.part(stats.json_fields().as_str());
    proof {
        let back = commands::stat_parts(*stats);
        assert(front =~= seq![
            number("commands"@, commands as nat),
            number("cache_entries"@, cache@.len()),
            number("cache_commands"@, sum(cache@)),
        ]);
        text::lemma_joined_push(front, seq![','], text::listed(back));
        text::lemma_joined_concat(front, back, seq![',']);
    }
    members.into_object()
}

/// `after` is `before` with what describes the renderer recorded, unless that
/// has been reported.
pub open spec fn tells_info<C: Fn() -> u64, D: FnOnce() -> String>(
    reported: bool,
    before: Profiler,
    after: Profiler,
    clock: C,
    debug_info: D,
) -> bool {
    if reported {
        after == before
    } else {
        exists|now: u64, info: String| #[trigger]
            clock.ensures((), now) && #[trigger] debug_info.ensures((), info) && notes(
                before,
                after,
                now,
                "debug_info",
                info_parts(info@),
            )
    }
}

/// `after` is `before` with the grid of a frame recorded.
pub open spec fn tells_grid<C: Fn() -> u64, R: Fn(Rect) -> RectText>(
    before: Profiler,
    after: Profiler,
    clock: C,
    viewport: (u32, u32),
    list: CommandList,
    rounded: R,
) -> bool {
    exists|now: u64, texts: Seq<RectText>| #[trigger]
        clock.ensures((), now) && #[trigger] screen::are_rects(rounded, frame_hot(list), texts)
            && notes(
            before,
            after,
            now,
            "screen_grid",
            frame_grid_parts(viewport.0 as nat, viewport.1 as nat, list, texts),
        )
}

/// Number of instants that are recorded with a frame: its grid, and what
/// describes the renderer unless that has been reported.
pub open spec fn told_events(renderer: ProfiledRenderer) -> nat {
    if renderer.debug_info_reported {
        1
    } else {
        2
    }
}

/// A frame on its way to the renderer, and the span of its submission: the
/// frame is to be handed over, and then the span to be finished.
pub struct Submission<T> {
    pub frame: T,
    pub span: Span,
}

/// `after` and `opened` are what a frame makes of the renderer and of the
/// recorder up to its submission.
pub open spec fn submits<T, C: Fn() -> u64, D: FnOnce() -> String, R: Fn(Rect) -> RectText>(
    before: ProfiledRenderer,
    after: ProfiledRenderer,
    closed: Profiler,
    opened: Profiler,
    clock: C,
    debug_info: D,
    viewport: (u32, u32),
    list: CommandList,
    cache: Seq<usize>,
    rounded: R,
    frame: T,
    submission: Submission<T>,
) -> bool {
    &&& after.debug_info_reported
    &&& after.shape_bounds == before.shape_bounds
    &&& after.bitmap_sizes == before.bitmap_sizes
    &&& exists|told: Profiler| #[trigger]
        tells_info(before.debug_info_reported, closed, told, clock, debug_info) && tells_grid(
            told,
            opened,
            clock,
            viewport,
            list,
            rounded,
        )
    &&& submission.frame == frame
    &&& exists|now: u64| #[trigger]
        clock.ensures((), now) && is_open(
            submission.span,
            now,
            "submit_frame",
            frame_parts(list.commands@.len(), cache, frame_stats(list)),
            0,
        )
}

impl ProfiledRenderer {
    /// Records what is known of a frame and opens the span of its submission.
    /// What describes the renderer is asked for and recorded once. `cache`
    /// holds the number of commands of each cached bitmap that is redrawn,
    /// `rounded` writes a rect in decimal, and `frame` is what the renderer
    /// takes.
    pub fn submit_frame<T, C: Fn() -> u64, D: FnOnce() -> String, R: Fn(Rect) -> RectText>(
        &mut self,
        p: &mut Profiler,
        clock: C,
        debug_info: D,
        viewport: (u32, u32),
        list: &CommandList,
        cache: &Vec<usize>,
        rounded: R,
        frame: T,
    ) -> (submission: Submission<T>)
        requires
            clock.requires(()),
            debug_info.requires(()),
            forall|rect: Rect| rounded.requires((rect,)),
            is_countable(*list),
            sum(cache@) <= usize::MAX,
            old(p).has_room(told_events(*old(self))),
        ensures
            submits(
                *old(self),
                *final(self),
                *old(p),
                *final(p),
                clock,
                debug_info,
                viewport,
                *list,
                cache@,
                rounded,
                frame,
                submission,
            ),
    {
        if !self.debug_info_reported {
            self.debug_info_reported = true;
            let info: String = debug_info();
            let now: u64 = clock();
            report_debug_info(p, now, info.as_str());
        }
        let ghost told = *p;
        assert(tells_info(old(self).debug_info_reported, *old(p), told, clock, debug_info));
        let walk: CommandWalk = walk_frame(list);
        let now: u64 = clock();
        let grid: String = walk.grid.to_json(viewport.0, viewport.1, rounded);
        note(p, now, "screen_grid", grid);
        proof {
            let texts = choose|texts: Seq<RectText>| #[trigger]
                screen::are_rects(rounded, frame_hot(*list), texts) && grid@ == json::object(
                    frame_grid_parts(viewport.0 as nat, viewport.1 as nat, *list, texts),
                );
            assert(notes(
                told,
                *p,
                now,
                "screen_grid",
                frame_grid_parts(viewport.0 as nat, viewport.1 as nat, *list, texts),
            ));
        }
        assert(tells_grid(told, *p, clock, viewport, *list, rounded));
        let now: u64 = clock();
        let args: String = frame_json(list.commands.len(), cache, &walk.stats);
        Submission { frame, span: open(now, "submit_frame", args) }
    }
}

} // verus!
