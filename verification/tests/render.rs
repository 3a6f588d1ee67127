use shararam_profiler::commands::{
    BlendMode, Command, CommandList, CommandStats, CommandWalk,
};
use shararam_profiler::ieee;
use shararam_profiler::profiler::{drain_json, movie_scope, pending, take_counters, Profiler, Span};
use shararam_profiler::render;
use shararam_profiler::render::{filter_name, Filter, ProfiledRenderer, MAX_TRACKED_HANDLES};
use shararam_profiler::screen::{
    aabb, transformed_aabb, union_into, Cells, Hot, Placement, Rect, RectText, ScreenGrid, GRID_CELLS,
    MAX_HOT_RECTS,
};

fn rank(n: f32) -> i32 {
    ieee::rank_of(n.to_bits())
}

fn value(rank: i32) -> f32 {
    f32::from_bits(ieee::bits_of(rank))
}

fn rect(left: f32, top: f32, right: f32, bottom: f32) -> Rect {
    Rect {
        left: rank(left),
        top: rank(top),
        right: rank(right),
        bottom: rank(bottom),
    }
}

fn numbers(rect: Rect) -> [f32; 4] {
    [
        value(rect.left),
        value(rect.top),
        value(rect.right),
        value(rect.bottom),
    ]
}

/// The cells of a viewport of this size on which a rect lies.
fn cells(viewport_w: f32, viewport_h: f32, rect: Rect) -> Cells {
    let per_x = 24.0 / viewport_w.max(1.0);
    let per_y = 18.0 / viewport_h.max(1.0);
    Cells {
        x0: (value(rect.left) * per_x).floor() as i32,
        x1: (value(rect.right) * per_x).ceil() as i32,
        y0: (value(rect.top) * per_y).floor() as i32,
        y1: (value(rect.bottom) * per_y).ceil() as i32,
    }
}

fn at(rect: Rect) -> Placement {
    Placement {
        rect,
        cells: cells(240.0, 180.0, rect),
    }
}

fn rounded(rect: Rect) -> RectText {
    let [left, top, right, bottom] = numbers(rect);
    RectText {
        x: format!("{:.0}", left),
        y: format!("{:.0}", top),
        w: format!("{:.0}", right - left),
        h: format!("{:.0}", bottom - top),
    }
}

fn list(commands: Vec<Command>) -> CommandList {
    CommandList { commands }
}

fn shape(left: f32, top: f32, right: f32, bottom: f32) -> Command {
    Command::RenderShape(Some(at(rect(left, top, right, bottom))))
}

fn fixed3(time: u64) -> String {
    format!("{:.3}", f64::from_bits(time))
}

fn minus(a: u64, b: u64) -> u64 {
    (f64::from_bits(a) - f64::from_bits(b)).to_bits()
}

fn args(span: &Span) -> &str {
    span.args.as_deref().unwrap()
}

#[test]
fn screen_grid_accumulates_rects() {
    let mut grid = ScreenGrid::new(); // 10×10 px cells
    grid.add_rect(at(rect(0.0, 0.0, 10.0, 10.0)), false); // exactly the first cell
    grid.add_rect(at(rect(0.0, 0.0, 240.0, 180.0)), true); // full screen, heavy
    grid.hot.push(Hot {
        rect: rect(12.0, 34.0, 56.0, 78.0),
        kind: "blend_layer",
    });
    let json = grid.to_json(240, 180, rounded);
    let parsed: serde_json::Value = serde_json::from_str(&json).unwrap();
    let draws = parsed["draws"].as_array().unwrap();
    assert_eq!(draws.len(), GRID_CELLS);
    assert_eq!(draws[0], 2);
    assert_eq!(draws[GRID_CELLS - 1], 1);
    assert_eq!(parsed["heavy"].as_array().unwrap().len(), GRID_CELLS);
    assert_eq!(parsed["hot"][0][4], "blend_layer");
    assert_eq!(parsed["vw"], 240);
}

#[test]
fn transformed_aabb_handles_rotation() {
    // 90° rotation: (a,b,c,d) = (0,1,-1,0), so a w×h rect becomes h×w.
    let (a, b, c, d, tx, ty) = (0.0f32, 1.0f32, -1.0f32, 0.0f32, 100.0f32, 50.0f32);
    let map = |x: i32, y: i32| {
        let (x, y) = (value(x), value(y));
        (rank(a * x + c * y + tx), rank(b * x + d * y + ty))
    };
    let out = transformed_aabb(map, rect(0.0, 0.0, 30.0, 10.0));
    assert_eq!(numbers(out), [90.0, 50.0, 100.0, 80.0]);
}

#[test]
fn points_that_are_not_numbers_do_not_count() {
    let nan = rank(f32::NAN);
    let map = |x: i32, y: i32| if value(x) > 0.0 { (nan, y) } else { (x, y) };
    let out = transformed_aabb(map, rect(-5.0, 1.0, 5.0, 2.0));
    assert_eq!(numbers(out), [-5.0, 1.0, -5.0, 2.0]);
    let out = transformed_aabb(|_: i32, _: i32| (nan, nan), rect(0.0, 0.0, 1.0, 1.0));
    assert_eq!(
        numbers(out),
        [
            f32::INFINITY,
            f32::INFINITY,
            f32::NEG_INFINITY,
            f32::NEG_INFINITY
        ]
    );
}

#[test]
fn bounds_touch_the_points() {
    let point = |x: f32, y: f32| (rank(x), rank(y));
    let out = aabb(
        point(3.0, -1.0),
        point(-2.0, 0.5),
        point(0.0, 8.0),
        point(1.0, 1.0),
    );
    assert_eq!(numbers(out), [-2.0, -1.0, 3.0, 8.0]);
}

#[test]
fn unions_lie_around_both() {
    let mut union = None;
    union_into(&mut union, rect(1.0, 2.0, 3.0, 4.0));
    assert_eq!(numbers(union.unwrap()), [1.0, 2.0, 3.0, 4.0]);
    union_into(&mut union, rect(-1.0, 3.0, 2.0, 9.0));
    assert_eq!(numbers(union.unwrap()), [-1.0, 2.0, 3.0, 9.0]);
}

#[test]
fn rects_count_on_the_cells_that_they_touch() {
    let mut grid = ScreenGrid::new();
    grid.add_rect(at(rect(15.0, 5.0, 31.0, 12.0)), false);
    let drawn: Vec<usize> = (0..GRID_CELLS).filter(|&c| grid.draws[c] > 0).collect();
    assert_eq!(drawn, [1, 2, 3, 25, 26, 27]);
    // Partly outside the viewport: only the cells inside.
    let mut grid = ScreenGrid::new();
    grid.add_rect(at(rect(-50.0, -50.0, 5.0, 5.0)), false);
    grid.add_rect(at(rect(235.0, 175.0, 600.0, 600.0)), true);
    assert_eq!(grid.draws[0], 1);
    assert_eq!(grid.draws[GRID_CELLS - 1], 1);
    assert_eq!(grid.draws.iter().sum::<u32>(), 2);
    assert_eq!(grid.heavy[GRID_CELLS - 1], 1);
    assert_eq!(grid.heavy.iter().sum::<u32>(), 1);
}

#[test]
fn rects_off_screen_do_not_count() {
    let mut grid = ScreenGrid::new();
    for off in [
        rect(-100.0, -100.0, -50.0, -50.0),
        rect(-100.0, 0.0, -50.0, 180.0),
        rect(240.0, 0.0, 300.0, 180.0),
        rect(0.0, 180.0, 240.0, 200.0),
        rect(500.0, 500.0, 600.0, 600.0),
    ] {
        grid.add_rect(at(off), true);
    }
    assert_eq!(grid.draws, [0; GRID_CELLS]);
    assert_eq!(grid.heavy, [0; GRID_CELLS]);
}

#[test]
fn rects_and_lines_are_draw_commands() {
    for command in [
        Command::DrawRect(Some(at(rect(10.0, 10.0, 30.0, 20.0)))),
        Command::DrawLine(Some(at(rect(10.0, 10.0, 30.0, 20.0)))),
        Command::DrawLineRect(Some(at(rect(10.0, 10.0, 30.0, 20.0)))),
    ] {
        let mut walk = CommandWalk::new();
        let union = walk.walk(&list(vec![command]), 0, false);
        assert_eq!(numbers(union.unwrap()), [10.0, 10.0, 30.0, 20.0]);
        assert_eq!(walk.stats.rects, 1);
        let drawn: Vec<usize> = (0..GRID_CELLS)
            .filter(|&c| walk.grid.draws[c] > 0)
            .collect();
        assert_eq!(drawn, [25, 26]);
        assert_eq!(walk.grid.heavy, [0; GRID_CELLS]);
    }
}

#[test]
fn invisible_rects_do_not_count() {
    let mut grid = ScreenGrid::new();
    grid.add_rect(at(rect(5.0, 5.0, 5.0, 9.0)), true);
    grid.add_rect(at(rect(5.0, 9.0, 8.0, 5.0)), true);
    grid.add_rect(at(rect(f32::NEG_INFINITY, 0.0, 8.0, 5.0)), true);
    grid.add_rect(at(rect(0.0, 0.0, f32::NAN, 5.0)), true);
    assert_eq!(grid.draws.iter().sum::<u32>(), 0);
    assert_eq!(grid.heavy.iter().sum::<u32>(), 0);
}

#[test]
fn grids_are_written_exactly() {
    let zeros = vec!["0"; GRID_CELLS - 1].join(",");
    let mut grid = ScreenGrid::new();
    assert_eq!(
        grid.to_json(1, 2, rounded),
        format!("{{\"vw\":1,\"vh\":2,\"gw\":24,\"gh\":18,\"draws\":[0,{zeros}]}}")
    );
    grid.draws[0] = 7;
    grid.heavy[0] = 3;
    grid.heavy[431] = 1;
    grid.hot.push(Hot {
        rect: rect(1.4, -2.6, 11.0, 7.0),
        kind: "blend",
    });
    grid.hot.push(Hot {
        rect: rect(0.0, 0.0, 1.0, 1.0),
        kind: "alpha_mask",
    });
    assert_eq!(
        grid.to_json(240, 180, rounded),
        format!(
            "{{\"vw\":240,\"vh\":180,\"gw\":24,\"gh\":18,\"draws\":[7,{zeros}],\
             \"heavy\":[[0,3],[431,1]],\
             \"hot\":[[1,-3,10,10,\"blend\"],[0,0,1,1,\"alpha_mask\"]]}}"
        )
    );
    let texts = vec![rounded(grid.hot[0].rect), rounded(grid.hot[1].rect)];
    assert_eq!(
        grid.describe(240, 180, &texts),
        grid.to_json(240, 180, rounded)
    );
}

#[test]
fn walks_break_a_frame_down() {
    let frame = list(vec![
        shape(0.0, 0.0, 10.0, 10.0),
        Command::RenderShape(None),
        Command::RenderBitmap(Some(at(rect(20.0, 0.0, 30.0, 10.0)))),
        Command::RenderStage3D(None),
        Command::DrawRect(Some(at(rect(200.0, 0.0, 210.0, 10.0)))),
        Command::DrawLine(None),
        Command::DrawLineRect(None),
        Command::PushMask,
        Command::ActivateMask,
        Command::DeactivateMask,
        Command::PopMask,
        Command::Blend(
            list(vec![
                shape(0.0, 0.0, 10.0, 10.0),
                Command::Blend(list(vec![shape(50.0, 50.0, 60.0, 60.0)]), BlendMode::Erase),
            ]),
            BlendMode::Layer,
        ),
        Command::RenderAlphaMask {
            maskee_commands: list(vec![shape(100.0, 0.0, 110.0, 10.0)]),
            mask_commands: list(vec![shape(100.0, 5.0, 105.0, 25.0)]),
        },
        Command::Blend(list(vec![]), BlendMode::Alpha),
        Command::Blend(list(vec![Command::RenderShape(None)]), BlendMode::Other),
        Command::Blend(list(vec![]), BlendMode::Shader),
    ]);
    let mut walk = CommandWalk::new();
    let union = walk.walk(&frame, 0, false);
    assert_eq!(numbers(union.unwrap()), [0.0, 0.0, 210.0, 60.0]);
    assert_eq!(
        walk.stats.json_fields(),
        "\"shapes\":7,\"bitmaps\":2,\"rects\":3,\"stencil_masks\":1,\"alpha_masks\":1,\
         \"blend_layer\":1,\"blend_alpha_erase\":2,\"blend_complex\":1,\"blend_shader\":1,\
         \"max_depth\":2"
    );
    assert_eq!(walk.grid.draws[0], 2);
    assert_eq!(walk.grid.heavy[0], 1);
    assert_eq!(walk.grid.draws[2], 1);
    assert_eq!(walk.grid.heavy[2], 0);
    assert_eq!(walk.grid.draws[10], 2);
    assert_eq!(walk.grid.heavy[10], 2);
    let hot: Vec<(&str, [f32; 4])> = walk
        .grid
        .hot
        .iter()
        .map(|hot| (hot.kind, numbers(hot.rect)))
        .collect();
    assert_eq!(
        hot,
        [
            ("blend_alpha_erase", [50.0, 50.0, 60.0, 60.0]),
            ("blend_layer", [0.0, 0.0, 60.0, 60.0]),
            ("alpha_mask", [100.0, 0.0, 110.0, 25.0]),
        ]
    );
    assert_eq!(frame.size(), 22);
}

#[test]
fn no_more_than_the_bound_of_hot_rects_is_kept() {
    let blends: Vec<Command> = (0..40)
        .map(|i| {
            Command::Blend(
                list(vec![shape(i as f32, 0.0, 100.0, 100.0)]),
                BlendMode::Other,
            )
        })
        .collect();
    let mut walk = CommandWalk::new();
    walk.walk(&list(blends), 0, false);
    assert_eq!(walk.grid.hot.len(), MAX_HOT_RECTS);
    for (i, hot) in walk.grid.hot.iter().enumerate() {
        assert_eq!(value(hot.rect.left), i as f32);
        assert_eq!(hot.kind, "blend");
    }
    assert_eq!(walk.stats.blend_complex, 40);
}

#[test]
fn empty_frames_add_up_to_nothing() {
    let mut walk = CommandWalk::new();
    assert!(walk.walk(&list(vec![]), 3, true).is_none());
    assert_eq!(walk.stats.max_depth, 3);
    assert_eq!(walk.stats.shapes, 0);
    let stats = CommandStats::default();
    assert!(stats.json_fields().ends_with("\"max_depth\":0"));
}

#[test]
fn handles_are_remembered_up_to_a_bound() {
    let identity = |x: i32, y: i32| (x, y);
    let cells = |rect: Rect| cells(240.0, 180.0, rect);
    let mut renderer = ProfiledRenderer::new();
    assert!(renderer.place_shape(1, identity, cells).is_none());
    renderer.remember_shape(1, rect(0.0, 0.0, 10.0, 10.0));
    renderer.remember_shape(1, rect(0.0, 0.0, 20.0, 10.0));
    let place = renderer.place_shape(1, identity, cells).unwrap();
    assert_eq!(numbers(place.rect), [0.0, 0.0, 20.0, 10.0]);
    assert_eq!(
        place.cells,
        Cells {
            x0: 0,
            x1: 2,
            y0: 0,
            y1: 1
        }
    );
    assert!(renderer.place_bitmap(1, identity, cells).is_none());
    for key in 2..MAX_TRACKED_HANDLES + 1 {
        renderer.remember_shape(key, rect(0.0, 0.0, 1.0, 1.0));
    }
    assert_eq!(renderer.shape_bounds.len(), MAX_TRACKED_HANDLES);
    assert!(renderer.place_shape(1, identity, cells).is_some());
    renderer.remember_shape(7, rect(0.0, 0.0, 5.0, 5.0));
    assert_eq!(renderer.shape_bounds.len(), 1);
    assert!(renderer.place_shape(1, identity, cells).is_none());
    assert!(renderer.place_shape(7, identity, cells).is_some());
}

#[test]
fn bitmaps_lie_at_the_origin() {
    let mut renderer = ProfiledRenderer::new();
    renderer.remember_bitmap(9, rank(30.0), rank(20.0));
    let moved = |x: i32, y: i32| (rank(value(x) + 100.0), rank(value(y) * 2.0));
    let place = renderer
        .place_bitmap(9, moved, |rect: Rect| cells(240.0, 180.0, rect))
        .unwrap();
    assert_eq!(numbers(place.rect), [100.0, 0.0, 130.0, 40.0]);
    for key in 0..MAX_TRACKED_HANDLES {
        renderer.remember_bitmap(key, 0, 0);
    }
    assert_eq!(renderer.bitmap_sizes.len(), MAX_TRACKED_HANDLES);
    renderer.remember_bitmap(MAX_TRACKED_HANDLES, 0, 0);
    assert_eq!(renderer.bitmap_sizes.len(), 1);
}

#[test]
fn sizes_are_remembered_where_bitmaps_are_registered() {
    let identity = |x: i32, y: i32| (x, y);
    let cells = |rect: Rect| cells(240.0, 180.0, rect);
    let mut renderer = ProfiledRenderer::new();
    renderer.remember_shape(4, rect(0.0, 0.0, 1.0, 1.0));
    let failed: Result<usize, &str> = Err("too large");
    assert_eq!(
        renderer.registered(failed, rank(30.0), rank(20.0)),
        Err("too large")
    );
    assert!(renderer.bitmap_sizes.is_empty());
    let made: Result<usize, &str> = Ok(4);
    assert_eq!(renderer.registered(made, rank(30.0), rank(20.0)), Ok(4));
    let place = renderer.place_bitmap(4, identity, cells).unwrap();
    assert_eq!(numbers(place.rect), [0.0, 0.0, 30.0, 20.0]);
    assert_eq!(renderer.shape_bounds.len(), 1);
}

#[test]
fn operations_open_their_spans() {
    let mut p = Profiler::new();
    let span = render::register_shape(&mut p, 5, 17, 3, "10", "20");
    assert_eq!(
        args(&span),
        "{\"id\":17,\"paths\":3,\"w\":10,\"h\":20,\"movie\":null}"
    );
    assert_eq!((span.start, span.cat, span.name), (5, "render", "register_shape"));
    let scope = movie_scope(&mut p, "a.swf".into());
    let span = render::register_shape_with_scale(&mut p, 6, 17, 3, "10", "20", "1.5");
    assert_eq!(
        args(&span),
        "{\"id\":17,\"paths\":3,\"w\":10,\"h\":20,\"scale\":1.5,\"movie\":\"a.swf\"}"
    );
    assert_eq!(span.name, "register_shape");
    let span = render::register_bitmap(&mut p, 6, 4, 5, 80);
    assert_eq!(
        args(&span),
        "{\"w\":4,\"h\":5,\"bytes\":80,\"movie\":\"a.swf\"}"
    );
    assert_eq!(span.name, "register_bitmap");
    scope.leave(&mut p);
    let span = render::render_offscreen(&mut p, 6, 9, 4, 5);
    assert_eq!(args(&span), "{\"commands\":9,\"w\":4,\"h\":5}");
    assert_eq!(span.name, "render_offscreen");
    let span = render::apply_filter(&mut p, 6, &Filter::GlowFilter, 4, 5);
    assert_eq!(args(&span), "{\"filter\":\"glow\",\"w\":4,\"h\":5}");
    assert_eq!(span.name, "apply_filter");
    let span = render::create_empty_texture(6, 4, 5);
    assert_eq!(args(&span), "{\"w\":4,\"h\":5}");
    assert_eq!(span.name, "create_empty_texture");
    assert_eq!(span.min_duration, 0);
    let span = render::update_texture(&mut p, 6, 4, 5, 2, 3);
    assert_eq!(
        args(&span),
        "{\"w\":4,\"h\":5,\"region_w\":2,\"region_h\":3}"
    );
    assert_eq!(span.name, "update_texture");
    assert_eq!(f64::from_bits(span.min_duration), 0.05);
    for (span, name) in [
        (render::compile_pixelbender_shader(6), "compile_pixelbender_shader"),
        (render::run_pixelbender_shader(6), "run_pixelbender_shader"),
        (render::resolve_sync_handle(6), "gpu_readback"),
    ] {
        assert_eq!((span.start, span.cat, span.name), (6, "render", name));
        assert!(span.args.is_none());
    }
    assert_eq!(pending(&p), 0);
    assert_eq!(take_counters(&mut p), [0, 2, 1, 1, 2, 0, 0, 0, 0]);
    render::set_viewport_dimensions(&mut p, 1.0f64.to_bits(), 800, 600, "1.25");
    assert_eq!(
        drain_json(&mut p, 0, fixed3),
        "[{\"s\":0,\"t\":1.000,\"d\":0.000,\"c\":\"render\",\"n\":\"viewport\",\
         \"a\":{\"width\":800,\"height\":600,\"scale\":1.25}}]"
    );
}

#[test]
fn filters_have_names() {
    let names: Vec<&str> = [
        Filter::BevelFilter,
        Filter::BlurFilter,
        Filter::ColorMatrixFilter,
        Filter::ConvolutionFilter,
        Filter::DisplacementMapFilter,
        Filter::DropShadowFilter,
        Filter::GlowFilter,
        Filter::GradientBevelFilter,
        Filter::GradientGlowFilter,
        Filter::ShaderFilter,
    ]
    .iter()
    .map(filter_name)
    .collect();
    assert_eq!(
        names,
        [
            "bevel",
            "blur",
            "color_matrix",
            "convolution",
            "displacement_map",
            "drop_shadow",
            "glow",
            "gradient_bevel",
            "gradient_glow",
            "shader"
        ]
    );
}

#[test]
fn frames_are_recorded() {
    let mut p = Profiler::new();
    let mut renderer = ProfiledRenderer::new();
    let clock = || 2.0f64.to_bits();
    let frame = list(vec![
        shape(0.0, 0.0, 10.0, 10.0),
        Command::Blend(list(vec![shape(0.0, 0.0, 20.0, 10.0)]), BlendMode::Layer),
    ]);
    let submission = renderer.submit_frame(
        &mut p,
        clock,
        || "Adapter \"X\"\nDX12".to_string(),
        (240, 180),
        &frame,
        &vec![3, 4],
        rounded,
        "the frame",
    );
    assert_eq!(submission.frame, "the frame");
    let span = submission.span;
    assert_eq!(pending(&p), 2);
    assert_eq!(
        args(&span),
        "{\"commands\":2,\"cache_entries\":2,\"cache_commands\":7,\
         \"shapes\":2,\"bitmaps\":0,\"rects\":0,\"stencil_masks\":0,\"alpha_masks\":0,\
         \"blend_layer\":1,\"blend_alpha_erase\":0,\"blend_complex\":0,\"blend_shader\":0,\
         \"max_depth\":1}"
    );
    span.finish(&mut p, 3.0f64.to_bits(), minus);
    let json = drain_json(&mut p, 0, fixed3);
    let parsed: serde_json::Value = serde_json::from_str(&json).unwrap();
    let events = parsed.as_array().unwrap();
    assert_eq!(events.len(), 3);
    assert_eq!(events[0]["n"], "debug_info");
    assert_eq!(events[0]["a"]["info"], "Adapter  X  DX12");
    assert_eq!(events[1]["n"], "screen_grid");
    assert_eq!(events[1]["a"]["draws"][0], 2);
    assert_eq!(events[1]["a"]["draws"][1], 1);
    assert_eq!(events[1]["a"]["heavy"][1][0], 1);
    assert_eq!(events[1]["a"]["hot"][0][4], "blend_layer");
    assert_eq!(events[1]["a"]["hot"][0][2], 20);
    assert_eq!(events[2]["n"], "submit_frame");
    assert_eq!(events[2]["d"], 1.0);

    // What describes the renderer is told once; an empty frame has its grid, too.
    let second = renderer.submit_frame(
        &mut p,
        clock,
        || panic!("asked again"),
        (240, 180),
        &list(vec![]),
        &vec![],
        rounded,
        "the next frame",
    );
    assert_eq!(second.frame, "the next frame");
    assert_eq!(pending(&p), 1);
    let zeros = vec!["0"; GRID_CELLS].join(",");
    assert_eq!(
        drain_json(&mut p, 0, fixed3),
        format!(
            "[{{\"s\":3,\"t\":2.000,\"d\":0.000,\"c\":\"render\",\"n\":\"screen_grid\",\
             \"a\":{{\"vw\":240,\"vh\":180,\"gw\":24,\"gh\":18,\"draws\":[{zeros}]}}}}]"
        )
    );
}
