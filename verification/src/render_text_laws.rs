//! What is told of the operations of a renderer and of its frames.

use crate::commands;
use crate::commands::{CommandList, CommandStats, CommandWalk, Measure};
use crate::ieee;
use crate::json;
use crate::profiler;
use crate::profiler::Profiler;
use crate::recorder_laws;
use crate::render;
use crate::render::{Filter, ProfiledRenderer, Submission};
use crate::screen;
use crate::screen::{Hot, Rect, RectText};
use crate::text;
use vstd::arithmetic::power2;
use vstd::prelude::*;

verus! {

/// What is told of a viewport.
pub proof fn law_viewports_are_told(width: nat, height: nat, scale: Seq<char>)
    ensures
        render::viewport_parts(width, height, scale) == seq![
            "\"width\":"@ + text::decimal(width),
            "\"height\":"@ + text::decimal(height),
            "\"scale\":"@ + scale,
        ],
{
    reveal_strlit("width");
    reveal_strlit("\"width\":");
    reveal_strlit("height");
    reveal_strlit("\"height\":");
    reveal_strlit("scale");
    reveal_strlit("\"scale\":");
    assert(json::member("width"@, text::decimal(width)) =~= "\"width\":"@ + text::decimal(width));
    assert(json::member("height"@, text::decimal(height))
        =~= "\"height\":"@ + text::decimal(height));
    assert(json::member("scale"@, scale) =~= "\"scale\":"@ + scale);
    assert(render::viewport_parts(width, height, scale) =~= seq![
        "\"width\":"@ + text::decimal(width),
        "\"height\":"@ + text::decimal(height),
        "\"scale\":"@ + scale,
    ]);
}

/// What is told of a shape.
pub proof fn law_shapes_are_told(id: nat, paths: nat, w: Seq<char>, h: Seq<char>, movie: Seq<char>)
    ensures
        render::shape_parts(id, paths, w, h, None, movie) == seq![
            "\"id\":"@ + text::decimal(id),
            "\"paths\":"@ + text::decimal(paths),
            "\"w\":"@ + w,
            "\"h\":"@ + h,
            "\"movie\":"@ + movie,
        ],
{
    reveal_strlit("id");
    reveal_strlit("\"id\":");
    reveal_strlit("paths");
    reveal_strlit("\"paths\":");
    reveal_strlit("w");
    reveal_strlit("\"w\":");
    reveal_strlit("h");
    reveal_strlit("\"h\":");
    reveal_strlit("movie");
    reveal_strlit("\"movie\":");
    assert(json::member("id"@, text::decimal(id)) =~= "\"id\":"@ + text::decimal(id));
    assert(json::member("paths"@, text::decimal(paths)) =~= "\"paths\":"@ + text::decimal(paths));
    assert(json::member("w"@, w) =~= "\"w\":"@ + w);
    assert(json::member("h"@, h) =~= "\"h\":"@ + h);
    assert(json::member("movie"@, movie) =~= "\"movie\":"@ + movie);
    assert(render::shape_parts(id, paths, w, h, None, movie) =~= seq![
        "\"id\":"@ + text::decimal(id),
        "\"paths\":"@ + text::decimal(paths),
        "\"w\":"@ + w,
        "\"h\":"@ + h,
        "\"movie\":"@ + movie,
    ]);
}

/// What is told of a shape that is tessellated for a scale.
pub proof fn law_scaled_shapes_are_told(
    id: nat,
    paths: nat,
    w: Seq<char>,
    h: Seq<char>,
    scale: Seq<char>,
    movie: Seq<char>,
)
    ensures
        render::shape_parts(id, paths, w, h, Some(scale), movie) == seq![
            "\"id\":"@ + text::decimal(id),
            "\"paths\":"@ + text::decimal(paths),
            "\"w\":"@ + w,
            "\"h\":"@ + h,
            "\"scale\":"@ + scale,
            "\"movie\":"@ + movie,
        ],
{
    reveal_strlit("id");
    reveal_strlit("\"id\":");
    reveal_strlit("paths");
    reveal_strlit("\"paths\":");
    reveal_strlit("w");
    reveal_strlit("\"w\":");
    reveal_strlit("h");
    reveal_strlit("\"h\":");
    reveal_strlit("scale");
    reveal_strlit("\"scale\":");
    reveal_strlit("movie");
    reveal_strlit("\"movie\":");
    assert(json::member("id"@, text::decimal(id)) =~= "\"id\":"@ + text::decimal(id));
    assert(json::member("paths"@, text::decimal(paths)) =~= "\"paths\":"@ + text::decimal(paths));
    assert(json::member("w"@, w) =~= "\"w\":"@ + w);
    assert(json::member("h"@, h) =~= "\"h\":"@ + h);
    assert(json::member("scale"@, scale) =~= "\"scale\":"@ + scale);
    assert(json::member("movie"@, movie) =~= "\"movie\":"@ + movie);
    assert(render::shape_parts(id, paths, w, h, Some(scale), movie) =~= seq![
        "\"id\":"@ + text::decimal(id),
        "\"paths\":"@ + text::decimal(paths),
        "\"w\":"@ + w,
        "\"h\":"@ + h,
        "\"scale\":"@ + scale,
        "\"movie\":"@ + movie,
    ]);
}

/// What is told of an offscreen render.
pub proof fn law_offscreen_renders_are_told(commands: nat, w: nat, h: nat)
    ensures
        render::offscreen_parts(commands, w, h) == seq![
            "\"commands\":"@ + text::decimal(commands),
            "\"w\":"@ + text::decimal(w),
            "\"h\":"@ + text::decimal(h),
        ],
{
    reveal_strlit("commands");
    reveal_strlit("\"commands\":");
    reveal_strlit("w");
    reveal_strlit("\"w\":");
    reveal_strlit("h");
    reveal_strlit("\"h\":");
    assert(json::member("commands"@, text::decimal(commands))
        =~= "\"commands\":"@ + text::decimal(commands));
    assert(json::member("w"@, text::decimal(w)) =~= "\"w\":"@ + text::decimal(w));
    assert(json::member("h"@, text::decimal(h)) =~= "\"h\":"@ + text::decimal(h));
    assert(render::offscreen_parts(commands, w, h) =~= seq![
        "\"commands\":"@ + text::decimal(commands),
        "\"w\":"@ + text::decimal(w),
        "\"h\":"@ + text::decimal(h),
    ]);
}

/// What is told of an empty texture.
pub proof fn law_textures_are_told(w: nat, h: nat)
    ensures
        render::texture_parts(w, h) == seq![
            "\"w\":"@ + text::decimal(w),
            "\"h\":"@ + text::decimal(h),
        ],
{
    reveal_strlit("w");
    reveal_strlit("\"w\":");
    reveal_strlit("h");
    reveal_strlit("\"h\":");
    assert(json::member("w"@, text::decimal(w)) =~= "\"w\":"@ + text::decimal(w));
    assert(json::member("h"@, text::decimal(h)) =~= "\"h\":"@ + text::decimal(h));
    assert(render::texture_parts(w, h) =~= seq![
        "\"w\":"@ + text::decimal(w),
        "\"h\":"@ + text::decimal(h),
    ]);
}

/// What is told of a bitmap.
pub proof fn law_bitmaps_are_told(w: nat, h: nat, bytes: nat, movie: Seq<char>)
    ensures
        render::bitmap_parts(w, h, bytes, movie) == seq![
            "\"w\":"@ + text::decimal(w),
            "\"h\":"@ + text::decimal(h),
            "\"bytes\":"@ + text::decimal(bytes),
            "\"movie\":"@ + movie,
        ],
{
    reveal_strlit("w");
    reveal_strlit("\"w\":");
    reveal_strlit("h");
    reveal_strlit("\"h\":");
    reveal_strlit("bytes");
    reveal_strlit("\"bytes\":");
    reveal_strlit("movie");
    reveal_strlit("\"movie\":");
    assert(json::member("w"@, text::decimal(w)) =~= "\"w\":"@ + text::decimal(w));
    assert(json::member("h"@, text::decimal(h)) =~= "\"h\":"@ + text::decimal(h));
    assert(json::member("bytes"@, text::decimal(bytes)) =~= "\"bytes\":"@ + text::decimal(bytes));
    assert(json::member("movie"@, movie) =~= "\"movie\":"@ + movie);
    assert(render::bitmap_parts(w, h, bytes, movie) =~= seq![
        "\"w\":"@ + text::decimal(w),
        "\"h\":"@ + text::decimal(h),
        "\"bytes\":"@ + text::decimal(bytes),
        "\"movie\":"@ + movie,
    ]);
}

/// What is told of the update of a texture.
pub proof fn law_updates_are_told(w: nat, h: nat, region_w: nat, region_h: nat)
    ensures
        render::update_parts(w, h, region_w, region_h) == seq![
            "\"w\":"@ + text::decimal(w),
            "\"h\":"@ + text::decimal(h),
            "\"region_w\":"@ + text::decimal(region_w),
            "\"region_h\":"@ + text::decimal(region_h),
        ],
{
    reveal_strlit("w");
    reveal_strlit("\"w\":");
    reveal_strlit("h");
    reveal_strlit("\"h\":");
    reveal_strlit("region_w");
    reveal_strlit("\"region_w\":");
    reveal_strlit("region_h");
    reveal_strlit("\"region_h\":");
    assert(json::member("w"@, text::decimal(w)) =~= "\"w\":"@ + text::decimal(w));
    assert(json::member("h"@, text::decimal(h)) =~= "\"h\":"@ + text::decimal(h));
    assert(json::member("region_w"@, text::decimal(region_w))
        =~= "\"region_w\":"@ + text::decimal(region_w));
    assert(json::member("region_h"@, text::decimal(region_h))
        =~= "\"region_h\":"@ + text::decimal(region_h));
    assert(render::update_parts(w, h, region_w, region_h) =~= seq![
        "\"w\":"@ + text::decimal(w),
        "\"h\":"@ + text::decimal(h),
        "\"region_w\":"@ + text::decimal(region_w),
        "\"region_h\":"@ + text::decimal(region_h),
    ]);
}

/// What is told of the commands of a frame.
pub proof fn law_breakdowns_are_told(stats: CommandStats)
    ensures
        commands::stat_parts(stats) == seq![
            "\"shapes\":"@ + text::decimal(stats.shapes as nat),
            "\"bitmaps\":"@ + text::decimal(stats.bitmaps as nat),
            "\"rects\":"@ + text::decimal(stats.rects as nat),
            "\"stencil_masks\":"@ + text::decimal(stats.stencil_masks as nat),
            "\"alpha_masks\":"@ + text::decimal(stats.alpha_masks as nat),
            "\"blend_layer\":"@ + text::decimal(stats.blend_layer as nat),
            "\"blend_alpha_erase\":"@ + text::decimal(stats.blend_alpha_erase as nat),
            "\"blend_complex\":"@ + text::decimal(stats.blend_complex as nat),
            "\"blend_shader\":"@ + text::decimal(stats.blend_shader as nat),
            "\"max_depth\":"@ + text::decimal(stats.max_depth as nat),
        ],
{
    reveal_strlit("shapes");
    reveal_strlit("\"shapes\":");
    reveal_strlit("bitmaps");
    reveal_strlit("\"bitmaps\":");
    reveal_strlit("rects");
    reveal_strlit("\"rects\":");
    reveal_strlit("stencil_masks");
    reveal_strlit("\"stencil_masks\":");
    reveal_strlit("alpha_masks");
    reveal_strlit("\"alpha_masks\":");
    reveal_strlit("blend_layer");
    reveal_strlit("\"blend_layer\":");
    reveal_strlit("blend_alpha_erase");
    reveal_strlit("\"blend_alpha_erase\":");
    reveal_strlit("blend_complex");
    reveal_strlit("\"blend_complex\":");
    reveal_strlit("blend_shader");
    reveal_strlit("\"blend_shader\":");
    reveal_strlit("max_depth");
    reveal_strlit("\"max_depth\":");
    assert(json::member("shapes"@, text::decimal(stats.shapes as nat))
        =~= "\"shapes\":"@ + text::decimal(stats.shapes as nat));
    assert(json::member("bitmaps"@, text::decimal(stats.bitmaps as nat))
        =~= "\"bitmaps\":"@ + text::decimal(stats.bitmaps as nat));
    assert(json::member("rects"@, text::decimal(stats.rects as nat))
        =~= "\"rects\":"@ + text::decimal(stats.rects as nat));
    assert(json::member("stencil_masks"@, text::decimal(stats.stencil_masks as nat))
        =~= "\"stencil_masks\":"@ + text::decimal(stats.stencil_masks as nat));
    assert(json::member("alpha_masks"@, text::decimal(stats.alpha_masks as nat))
        =~= "\"alpha_masks\":"@ + text::decimal(stats.alpha_masks as nat));
    assert(json::member("blend_layer"@, text::decimal(stats.blend_layer as nat))
        =~= "\"blend_layer\":"@ + text::decimal(stats.blend_layer as nat));
    assert(json::member("blend_alpha_erase"@, text::decimal(stats.blend_alpha_erase as nat))
        =~= "\"blend_alpha_erase\":"@ + text::decimal(stats.blend_alpha_erase as nat));
    assert(json::member("blend_complex"@, text::decimal(stats.blend_complex as nat))
        =~= "\"blend_complex\":"@ + text::decimal(stats.blend_complex as nat));
    assert(json::member("blend_shader"@, text::decimal(stats.blend_shader as nat))
        =~= "\"blend_shader\":"@ + text::decimal(stats.blend_shader as nat));
    assert(json::member("max_depth"@, text::decimal(stats.max_depth as nat))
        =~= "\"max_depth\":"@ + text::decimal(stats.max_depth as nat));
    assert(commands::stat_parts(stats) =~= seq![
        "\"shapes\":"@ + text::decimal(stats.shapes as nat),
        "\"bitmaps\":"@ + text::decimal(stats.bitmaps as nat),
        "\"rects\":"@ + text::decimal(stats.rects as nat),
        "\"stencil_masks\":"@ + text::decimal(stats.stencil_masks as nat),
        "\"alpha_masks\":"@ + text::decimal(stats.alpha_masks as nat),
        "\"blend_layer\":"@ + text::decimal(stats.blend_layer as nat),
        "\"blend_alpha_erase\":"@ + text::decimal(stats.blend_alpha_erase as nat),
        "\"blend_complex\":"@ + text::decimal(stats.blend_complex as nat),
        "\"blend_shader\":"@ + text::decimal(stats.blend_shader as nat),
        "\"max_depth\":"@ + text::decimal(stats.max_depth as nat),
    ]);
}

/// What is told of the counters.
pub proof fn law_counters_are_told(counters: Seq<u32>)
    requires
        counters.len() == 9,
    ensures
        profiler::counter_parts(counters) == seq![
            "\"display_objects\":"@ + text::decimal(counters[0] as nat),
            "\"shapes_registered\":"@ + text::decimal(counters[1] as nat),
            "\"bitmaps_registered\":"@ + text::decimal(counters[2] as nat),
            "\"textures_updated\":"@ + text::decimal(counters[3] as nat),
            "\"offscreen_renders\":"@ + text::decimal(counters[4] as nat),
            "\"text_layouts\":"@ + text::decimal(counters[5] as nat),
            "\"objects_instantiated\":"@ + text::decimal(counters[6] as nat),
            "\"bitmaps_decoded\":"@ + text::decimal(counters[7] as nat),
            "\"layer_blends_inlined\":"@ + text::decimal(counters[8] as nat),
        ],
{
    reveal_strlit("display_objects");
    reveal_strlit("\"display_objects\":");
    reveal_strlit("shapes_registered");
    reveal_strlit("\"shapes_registered\":");
    reveal_strlit("bitmaps_registered");
    reveal_strlit("\"bitmaps_registered\":");
    reveal_strlit("textures_updated");
    reveal_strlit("\"textures_updated\":");
    reveal_strlit("offscreen_renders");
    reveal_strlit("\"offscreen_renders\":");
    reveal_strlit("text_layouts");
    reveal_strlit("\"text_layouts\":");
    reveal_strlit("objects_instantiated");
    reveal_strlit("\"objects_instantiated\":");
    reveal_strlit("bitmaps_decoded");
    reveal_strlit("\"bitmaps_decoded\":");
    reveal_strlit("layer_blends_inlined");
    reveal_strlit("\"layer_blends_inlined\":");
    assert(json::member("display_objects"@, text::decimal(counters[0] as nat))
        =~= "\"display_objects\":"@ + text::decimal(counters[0] as nat));
    assert(json::member("shapes_registered"@, text::decimal(counters[1] as nat))
        =~= "\"shapes_registered\":"@ + text::decimal(counters[1] as nat));
    assert(json::member("bitmaps_registered"@, text::decimal(counters[2] as nat))
        =~= "\"bitmaps_registered\":"@ + text::decimal(counters[2] as nat));
    assert(json::member("textures_updated"@, text::decimal(counters[3] as nat))
        =~= "\"textures_updated\":"@ + text::decimal(counters[3] as nat));
    assert(json::member("offscreen_renders"@, text::decimal(counters[4] as nat))
        =~= "\"offscreen_renders\":"@ + text::decimal(counters[4] as nat));
    assert(json::member("text_layouts"@, text::decimal(counters[5] as nat))
        =~= "\"text_layouts\":"@ + text::decimal(counters[5] as nat));
    assert(json::member("objects_instantiated"@, text::decimal(counters[6] as nat))
        =~= "\"objects_instantiated\":"@ + text::decimal(counters[6] as nat));
    assert(json::member("bitmaps_decoded"@, text::decimal(counters[7] as nat))
        =~= "\"bitmaps_decoded\":"@ + text::decimal(counters[7] as nat));
    assert(json::member("layer_blends_inlined"@, text::decimal(counters[8] as nat))
        =~= "\"layer_blends_inlined\":"@ + text::decimal(counters[8] as nat));
    assert(profiler::counter_parts(counters) =~= seq![
        "\"display_objects\":"@ + text::decimal(counters[0] as nat),
        "\"shapes_registered\":"@ + text::decimal(counters[1] as nat),
        "\"bitmaps_registered\":"@ + text::decimal(counters[2] as nat),
        "\"textures_updated\":"@ + text::decimal(counters[3] as nat),
        "\"offscreen_renders\":"@ + text::decimal(counters[4] as nat),
        "\"text_layouts\":"@ + text::decimal(counters[5] as nat),
        "\"objects_instantiated\":"@ + text::decimal(counters[6] as nat),
        "\"bitmaps_decoded\":"@ + text::decimal(counters[7] as nat),
        "\"layer_blends_inlined\":"@ + text::decimal(counters[8] as nat),
    ]);
}

/// What is told of the application of a filter: its kind, and the size of the
/// source.
pub proof fn law_filters_are_told(filter: Filter, w: nat, h: nat)
    ensures
        render::filter_parts(filter, w, h) == seq![
            match filter {
                Filter::BevelFilter => "\"filter\":\"bevel\""@,
                Filter::BlurFilter => "\"filter\":\"blur\""@,
                Filter::ColorMatrixFilter => "\"filter\":\"color_matrix\""@,
                Filter::ConvolutionFilter => "\"filter\":\"convolution\""@,
                Filter::DisplacementMapFilter => "\"filter\":\"displacement_map\""@,
                Filter::DropShadowFilter => "\"filter\":\"drop_shadow\""@,
                Filter::GlowFilter => "\"filter\":\"glow\""@,
                Filter::GradientBevelFilter => "\"filter\":\"gradient_bevel\""@,
                Filter::GradientGlowFilter => "\"filter\":\"gradient_glow\""@,
                Filter::ShaderFilter => "\"filter\":\"shader\""@,
            },
            "\"w\":"@ + text::decimal(w),
            "\"h\":"@ + text::decimal(h),
        ],
{
    law_textures_are_told(w, h);
    reveal_strlit("filter");
    let word = render::filter_word(filter)@;
    let told = json::member("filter"@, json::literal(word));
    match filter {
        Filter::BevelFilter => {
            reveal_strlit("bevel");
            reveal_strlit("\"filter\":\"bevel\"");
            assert(told =~= "\"filter\":\"bevel\""@);
        },
        Filter::BlurFilter => {
            reveal_strlit("blur");
            reveal_strlit("\"filter\":\"blur\"");
            assert(told =~= "\"filter\":\"blur\""@);
        },
        Filter::ColorMatrixFilter => {
            reveal_strlit("color_matrix");
            reveal_strlit("\"filter\":\"color_matrix\"");
            assert(told =~= "\"filter\":\"color_matrix\""@);
        },
        Filter::ConvolutionFilter => {
            reveal_strlit("convolution");
            reveal_strlit("\"filter\":\"convolution\"");
            assert(told =~= "\"filter\":\"convolution\""@);
        },
        Filter::DisplacementMapFilter => {
            reveal_strlit("displacement_map");
            reveal_strlit("\"filter\":\"displacement_map\"");
            assert(told =~= "\"filter\":\"displacement_map\""@);
        },
        Filter::DropShadowFilter => {
            reveal_strlit("drop_shadow");
            reveal_strlit("\"filter\":\"drop_shadow\"");
            assert(told =~= "\"filter\":\"drop_shadow\""@);
        },
        Filter::GlowFilter => {
            reveal_strlit("glow");
            reveal_strlit("\"filter\":\"glow\"");
            assert(told =~= "\"filter\":\"glow\""@);
        },
        Filter::GradientBevelFilter => {
            reveal_strlit("gradient_bevel");
            reveal_strlit("\"filter\":\"gradient_bevel\"");
            assert(told =~= "\"filter\":\"gradient_bevel\""@);
        },
        Filter::GradientGlowFilter => {
            reveal_strlit("gradient_glow");
            reveal_strlit("\"filter\":\"gradient_glow\"");
            assert(told =~= "\"filter\":\"gradient_glow\""@);
        },
        Filter::ShaderFilter => {
            reveal_strlit("shader");
            reveal_strlit("\"filter\":\"shader\"");
            assert(told =~= "\"filter\":\"shader\""@);
        },
    }
    let size = render::texture_parts(w, h);
    assert(size[0] == "\"w\":"@ + text::decimal(w));
    assert(size[1] == "\"h\":"@ + text::decimal(h));
    assert(render::filter_parts(filter, w, h) =~= seq![told] + size);
}

/// What describes the renderer is told character by character, but that line
/// breaks and quotes are blanks.
pub proof fn law_descriptions_are_told(info: Seq<char>)
    ensures
        exists|line: Seq<char>|
            render::info_parts(info) == seq!["\"info\":"@ + #[trigger] json::quoted(line)]
                && line.len() == info.len() && forall|i: int|
                0 <= i < info.len() ==> #[trigger] line[i] == (if info[i] == '\n' || info[i]
                    == '"' {
                    ' '
                } else {
                    info[i]
                }),
{
    let line = render::cleaned(info);
    reveal_strlit("info");
    reveal_strlit("\"info\":");
    assert(json::member("info"@, json::quoted(line)) =~= "\"info\":"@ + json::quoted(line));
}

/// Numbers in a row add up to what both rows add up to, and one alone to
/// itself.
pub proof fn law_sums_add_up(front: Seq<usize>, n: usize, back: Seq<usize>)
    ensures
        render::sum(Seq::empty()) == 0,
        render::sum(seq![n]) == n,
        render::sum(front + back) == render::sum(front) + render::sum(back),
    decreases back.len(),
{
    reveal_with_fuel(render::sum, 2);
    assert(seq![n].drop_last() =~= Seq::empty());
    if back.len() == 0 {
        assert(front + back =~= front);
    } else {
        law_sums_add_up(front, n, back.drop_last());
        assert((front + back).drop_last() =~= front + back.drop_last());
    }
}

/// What is told of a frame: its commands, the cached bitmaps and all their
/// commands, and behind them its breakdown.
pub proof fn law_frames_are_told(commands: nat, cache: Seq<usize>, stats: CommandStats)
    ensures
        render::frame_parts(commands, cache, stats) == seq![
            "\"commands\":"@ + text::decimal(commands),
            "\"cache_entries\":"@ + text::decimal(cache.len()),
            "\"cache_commands\":"@ + text::decimal(render::sum(cache)),
        ] + commands::stat_parts(stats),
{
    reveal_strlit("commands");
    reveal_strlit("cache_entries");
    reveal_strlit("cache_commands");
    reveal_strlit("\"commands\":");
    reveal_strlit("\"cache_entries\":");
    reveal_strlit("\"cache_commands\":");
    assert(json::member("commands"@, text::decimal(commands)) =~= "\"commands\":"@ + text::decimal(
        commands,
    ));
    assert(json::member("cache_entries"@, text::decimal(cache.len())) =~= "\"cache_entries\":"@
        + text::decimal(cache.len()));
    assert(json::member("cache_commands"@, text::decimal(render::sum(cache)))
        =~= "\"cache_commands\":"@ + text::decimal(render::sum(cache)));
}

/// What a frame comes to under a measure is the sum over its tree.
pub open spec fn whole(list: CommandList, measure: Measure) -> nat {
    commands::total(list, list.commands@.len(), false, measure)
}

/// The breakdown of a frame that can be counted holds each sum in its own
/// place, and so do the layers of its grid; the walk begins at the surface.
pub proof fn law_breakdowns_hold_the_sums(list: CommandList, cell: usize)
    requires
        render::is_countable(list),
        cell < 432,
    ensures
        render::frame_stats(list).shapes == whole(list, Measure::Shapes),
        render::frame_stats(list).bitmaps == whole(list, Measure::Bitmaps),
        render::frame_stats(list).rects == whole(list, Measure::Rects),
        render::frame_stats(list).stencil_masks == whole(list, Measure::StencilMasks),
        render::frame_stats(list).alpha_masks == whole(list, Measure::AlphaMasks),
        render::frame_stats(list).blend_layer == whole(list, Measure::BlendLayer),
        render::frame_stats(list).blend_alpha_erase == whole(list, Measure::BlendAlphaErase),
        render::frame_stats(list).blend_complex == whole(list, Measure::BlendComplex),
        render::frame_stats(list).blend_shader == whole(list, Measure::BlendShader),
        render::frame_stats(list).max_depth == commands::deepest(list, list.commands@.len(), 0),
        render::frame_draws(list).len() == 432,
        render::frame_heavy(list).len() == 432,
        render::frame_draws(list)[cell as int] == whole(list, Measure::Draws(cell)),
        render::frame_heavy(list)[cell as int] == whole(list, Measure::Heavy(cell)),
{
    assert(commands::is_measure(Measure::Shapes));
    assert(whole(list, Measure::Shapes) <= u32::MAX);
    assert(whole(list, Measure::Bitmaps) <= u32::MAX);
    assert(whole(list, Measure::Rects) <= u32::MAX);
    assert(whole(list, Measure::StencilMasks) <= u32::MAX);
    assert(whole(list, Measure::AlphaMasks) <= u32::MAX);
    assert(whole(list, Measure::BlendLayer) <= u32::MAX);
    assert(whole(list, Measure::BlendAlphaErase) <= u32::MAX);
    assert(whole(list, Measure::BlendComplex) <= u32::MAX);
    assert(whole(list, Measure::BlendShader) <= u32::MAX);
    assert(whole(list, Measure::Draws(cell)) <= u32::MAX);
    assert(whole(list, Measure::Heavy(cell)) <= u32::MAX);
}

/// A walk keeps each count in its own place.
pub proof fn law_walks_keep_each_count(walk: CommandWalk, cell: usize)
    requires
        cell < 432,
    ensures
        walk.counted(Measure::Shapes) == walk.stats.shapes,
        walk.counted(Measure::Bitmaps) == walk.stats.bitmaps,
        walk.counted(Measure::Rects) == walk.stats.rects,
        walk.counted(Measure::StencilMasks) == walk.stats.stencil_masks,
        walk.counted(Measure::AlphaMasks) == walk.stats.alpha_masks,
        walk.counted(Measure::BlendLayer) == walk.stats.blend_layer,
        walk.counted(Measure::BlendAlphaErase) == walk.stats.blend_alpha_erase,
        walk.counted(Measure::BlendComplex) == walk.stats.blend_complex,
        walk.counted(Measure::BlendShader) == walk.stats.blend_shader,
        walk.counted(Measure::Draws(cell)) == walk.grid.draws@[cell as int],
        walk.counted(Measure::Heavy(cell)) == walk.grid.heavy@[cell as int],
        forall|m: Measure| #[trigger]
            commands::is_measure(m) <==> (m matches Measure::Draws(c) ==> c < 432) && (
            m matches Measure::Heavy(c) ==> c < 432),
{
}

/// The first 32 costly subtrees are kept, in order, and no more.
pub proof fn law_first_trees_are_kept(before: Seq<Hot>, more: Seq<Hot>, list: CommandList)
    ensures
        before.len() <= 32 ==> commands::capped(before, more) == (before + more).take(
            if before.len() + more.len() <= 32 {
                (before.len() + more.len()) as int
            } else {
                32
            },
        ),
        before.len() > 32 ==> commands::capped(before, more) == before,
        ({
            let all = commands::hot_trees(list, list.commands@.len());
            &&& all.len() <= 32 ==> render::frame_hot(list) == all
            &&& all.len() > 32 ==> render::frame_hot(list) == all.take(32)
        }),
{
    if before.len() <= 32 {
        let n = if before.len() + more.len() <= 32 {
            (before.len() + more.len()) as int
        } else {
            32
        };
        assert(commands::capped(before, more) =~= (before + more).take(n));
    }
    let all = commands::hot_trees(list, list.commands@.len());
    assert(Seq::<Hot>::empty() + all =~= all);
    assert(Seq::<Hot>::empty() + all.take(32) =~= all.take(32));
}

/// Every reported subtree has its own rectangle in decimal.
pub proof fn law_reported_rects_are_rounded<R: Fn(Rect) -> RectText>(
    rounded: R,
    hot: Seq<Hot>,
    texts: Seq<RectText>,
)
    requires
        screen::are_rects(rounded, hot, texts),
    ensures
        texts.len() == hot.len(),
        forall|i: int| 0 <= i < hot.len() ==> rounded.ensures((hot[i].rect,), #[trigger] texts[i]),
{
}

/// A handle is remembered beside the others as long as there are fewer than a
/// hundred thousand; from there on it is the only one.
pub proof fn law_handles_are_remembered<V>(
    table: Map<usize, V>,
    key: usize,
    value: V,
    other: usize,
)
    requires
        other != key,
    ensures
        render::remembered(table, key, value).contains_key(key),
        render::remembered(table, key, value)[key] == value,
        table.len() < 100_000 ==> (render::remembered(table, key, value).contains_key(other)
            <==> table.contains_key(other)),
        table.len() < 100_000 && table.contains_key(other) ==> render::remembered(
            table,
            key,
            value,
        )[other] == table[other],
        table.len() >= 100_000 ==> !render::remembered(table, key, value).contains_key(other),
{
}

/// The size of a bitmap is remembered where the renderer gave it a handle, and
/// nothing else changes.
pub proof fn law_only_registered_bitmaps_are_remembered<E>(
    before: ProfiledRenderer,
    after: ProfiledRenderer,
    key: usize,
    error: E,
    size: (i32, i32),
)
    ensures
        render::registers(before, after, Ok::<usize, E>(key), size) ==> {
            &&& after.bitmap_sizes@.contains_key(key)
            &&& after.bitmap_sizes@[key] == size
            &&& after.bitmap_sizes@ == render::remembered(before.bitmap_sizes@, key, size)
            &&& after.shape_bounds == before.shape_bounds
            &&& after.debug_info_reported == before.debug_info_reported
        },
        render::registers(before, after, Err::<usize, E>(error), size) ==> {
            &&& after.bitmap_sizes == before.bitmap_sizes
            &&& after.shape_bounds == before.shape_bounds
            &&& after.debug_info_reported == before.debug_info_reported
        },
{
}

/// A frame can be counted where no sum passes the range of the counters.
pub proof fn law_countable_frames(list: CommandList)
    ensures
        render::is_countable(list) ==> commands::deepest(list, list.commands@.len(), 0) <= u32::MAX,
        (forall|m: Measure| #[trigger] whole(list, m) <= u32::MAX) && commands::deepest(
            list,
            list.commands@.len(),
            0,
        ) <= u32::MAX ==> render::is_countable(list),
{
    if forall|m: Measure| #[trigger] whole(list, m) <= u32::MAX {
        assert forall|m: Measure| commands::is_measure(m) implies #[trigger] commands::total(
            list,
            list.commands@.len(),
            false,
            m,
        ) <= u32::MAX by {
            assert(whole(list, m) <= u32::MAX);
        }
    }
}

/// An instant of the renderer with this object as its arguments.
pub open spec fn is_noted(
    before: Profiler,
    after: Profiler,
    now: u64,
    name: &'static str,
    args: String,
) -> bool {
    recorder_laws::appears(
        before,
        after,
        (profiler::Event { ts: now, dur: 0, cat: "render", name, args: Some(args) }),
    )
}

/// What describes the renderer is recorded with the first frame and with no
/// later one, and one event more than the grid is recorded then.
pub proof fn law_descriptions_come_once<C: Fn() -> u64, D: FnOnce() -> String>(
    renderer: ProfiledRenderer,
    before: Profiler,
    after: Profiler,
    clock: C,
    debug_info: D,
)
    requires
        render::tells_info(renderer.debug_info_reported, before, after, clock, debug_info),
    ensures
        renderer.debug_info_reported ==> after == before && render::told_events(renderer) == 1,
        !renderer.debug_info_reported ==> render::told_events(renderer) == 2 && exists|
            now: u64,
            info: String,
            args: String,
        | #[trigger]
            clock.ensures((), now) && #[trigger] debug_info.ensures((), info) && #[trigger] is_noted(
                before,
                after,
                now,
                "debug_info",
                args,
            ) && args@ == "{"@ + text::listed(render::info_parts(info@)) + "}"@,
{
    if !renderer.debug_info_reported {
        let (now, info) = choose|now: u64, info: String| #[trigger]
            clock.ensures((), now) && #[trigger] debug_info.ensures((), info) && render::notes(
                before,
                after,
                now,
                "debug_info",
                render::info_parts(info@),
            );
        let parts = render::info_parts(info@);
        recorder_laws::law_notes_are_instants(before, after, now, "debug_info", parts);
        let args = choose|args: String|
            args@ == "{"@ + text::listed(parts) + "}"@ && #[trigger] recorder_laws::appears(
                before,
                after,
                (profiler::Event {
                    ts: now,
                    dur: 0,
                    cat: "render",
                    name: "debug_info",
                    args: Some(args),
                }),
            );
        assert(is_noted(before, after, now, "debug_info", args));
    }
}

/// The grid of a frame is recorded with the size of the viewport, the layers
/// of the frame, and its first costly subtrees.
pub proof fn law_grids_come_with_frames<C: Fn() -> u64, R: Fn(Rect) -> RectText>(
    before: Profiler,
    after: Profiler,
    clock: C,
    viewport: (u32, u32),
    list: CommandList,
    rounded: R,
)
    requires
        render::tells_grid(before, after, clock, viewport, list, rounded),
    ensures
        exists|now: u64, texts: Seq<RectText>, args: String| #[trigger]
            clock.ensures((), now) && #[trigger] screen::are_rects(
                rounded,
                render::frame_hot(list),
                texts,
            ) && #[trigger] is_noted(before, after, now, "screen_grid", args) && args@ == "{"@
                + text::listed(
                screen::grid_parts(
                    viewport.0 as nat,
                    viewport.1 as nat,
                    render::frame_draws(list),
                    render::frame_heavy(list),
                    screen::hot_parts(render::frame_hot(list), texts),
                ),
            ) + "}"@,
{
    let (now, texts) = choose|now: u64, texts: Seq<RectText>| #[trigger]
        clock.ensures((), now) && #[trigger] screen::are_rects(
            rounded,
            render::frame_hot(list),
            texts,
        ) && render::notes(
            before,
            after,
            now,
            "screen_grid",
            render::frame_grid_parts(viewport.0 as nat, viewport.1 as nat, list, texts),
        );
    let parts = render::frame_grid_parts(viewport.0 as nat, viewport.1 as nat, list, texts);
    recorder_laws::law_notes_are_instants(before, after, now, "screen_grid", parts);
    let args = choose|args: String|
        args@ == "{"@ + text::listed(parts) + "}"@ && #[trigger] recorder_laws::appears(
            before,
            after,
            (profiler::Event {
                ts: now,
                dur: 0,
                cat: "render",
                name: "screen_grid",
                args: Some(args),
            }),
        );
    assert(is_noted(before, after, now, "screen_grid", args));
}

/// A submission hands the frame on as it is, keeps what is known of handles,
/// and opens a span that tells of its commands and its breakdown.
pub proof fn law_submissions_hand_the_frame_on<
    T,
    C: Fn() -> u64,
    D: FnOnce() -> String,
    R: Fn(Rect) -> RectText,
>(
    before: ProfiledRenderer,
    after: ProfiledRenderer,
    closed: Profiler,
    opened: Profiler,
    clock: C,
    debug_info: D,
    viewport: (u32, u32),
    list: CommandList,
    cache: Seq<usize>,
    rounded: R,
    frame: T,
    submission: Submission<T>,
)
    requires
        render::submits(
            before,
            after,
            closed,
            opened,
            clock,
            debug_info,
            viewport,
            list,
            cache,
            rounded,
            frame,
            submission,
        ),
    ensures
        submission.frame == frame,
        after.debug_info_reported,
        after.shape_bounds == before.shape_bounds,
        after.bitmap_sizes == before.bitmap_sizes,
        clock.ensures((), submission.span.start),
        submission.span.cat == "render",
        submission.span.name == "submit_frame",
        submission.span.min_duration == 0,
        submission.span.args matches Some(args) && args@ == "{"@ + text::listed(
            render::frame_parts(list.commands@.len(), cache, render::frame_stats(list)),
        ) + "}"@,
        exists|told: Profiler| #[trigger]
            render::tells_info(before.debug_info_reported, closed, told, clock, debug_info)
                && render::tells_grid(told, opened, clock, viewport, list, rounded),
{
    let now = choose|now: u64| #[trigger]
        clock.ensures((), now) && render::is_open(
            submission.span,
            now,
            "submit_frame",
            render::frame_parts(list.commands@.len(), cache, render::frame_stats(list)),
            0,
        );
    recorder_laws::law_operations_are_spans(
        submission.span,
        now,
        "submit_frame",
        render::frame_parts(list.commands@.len(), cache, render::frame_stats(list)),
        0,
    );
}

/// The threshold of texture updates is a twentieth of a millisecond, up to the
/// rounding of binary64: twenty times the threshold is one and eight parts in
/// 2 to the power of 57.
pub proof fn law_updates_have_a_threshold()
    ensures
        ieee::finite(render::UPDATE_THRESHOLD),
        20 * ieee::double(render::UPDATE_THRESHOLD) == power2::pow2(1074) + 8 * power2::pow2(1017),
{
    let bits = 0x3fa9_9999_9999_999anat;
    let unit = 0x10_0000_0000_0000nat;
    assert(power2::pow2(52) == unit && power2::pow2(57) == 32 * unit) by {
        power2::lemma2_to64();
        power2::lemma2_to64_rest();
    }
    power2::lemma_pow2_adds(57, 1017);
    assert(bits / unit == 1018 && bits % unit == 0x9_9999_9999_999a);
    let p = power2::pow2(1017);
    assert(ieee::double(render::UPDATE_THRESHOLD) == (unit + 0x9_9999_9999_999a) * p);
    assert(20 * ((unit + 0x9_9999_9999_999a) * p) == 32 * unit * p + 8 * p) by (nonlinear_arith)
        requires
            unit == 0x10_0000_0000_0000nat,
    ;
}

} // verus!
