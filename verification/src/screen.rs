//! Where on screen the draw commands of a frame land.
//!
//! Coordinates are binary32 viewport pixels, handed over as ranks (see
//! [`ieee`](crate::ieee)): the library only compares them. The embedder maps points
//! through transforms and scales pixels to cells.

use crate::json;
use crate::text;
use vstd::prelude::*;

verus! {

/// Screen-cost grid resolution.
pub const GRID_W: usize = 24;

pub const GRID_H: usize = 18;

pub const GRID_CELLS: usize = 432;

/// Subtrees reported per frame with their screen rects, capped so that a
/// pathological frame cannot flood the log.
pub const MAX_HOT_RECTS: usize = 32;

/// Rank of positive infinity.
pub const INFINITE: i32 = 0x7f80_0000;

/// An axis-aligned rectangle: ranks of its least and greatest coordinates.
#[derive(Clone, Copy, Debug, PartialEq, Eq, Structural)]
pub struct Rect {
    pub left: i32,
    pub top: i32,
    pub right: i32,
    pub bottom: i32,
}

/// A range of grid cells, before it is cut to the grid: from `x0` to before
/// `x1` and from `y0` to before `y1`.
#[derive(Clone, Copy, Debug, PartialEq, Eq, Structural)]
pub struct Cells {
    pub x0: i32,
    pub x1: i32,
    pub y0: i32,
    pub y1: i32,
}

/// Where a draw command lands: on which part of the viewport, and on which
/// cells.
#[derive(Clone, Copy, Debug, PartialEq, Eq, Structural)]
pub struct Placement {
    pub rect: Rect,
    pub cells: Cells,
}

/// A costly subtree and the part of the viewport that it covers.
#[derive(Clone, Copy, Debug)]
pub struct Hot {
    pub rect: Rect,
    pub kind: &'static str,
}

// ---------------------------------------------------------------------
// Rectangles.
// ---------------------------------------------------------------------

/// Whether the rank is that of a finite number.
pub open spec fn is_finite(rank: i32) -> bool {
    -INFINITE < rank < INFINITE
}

/// Whether the rank is that of no number.
pub open spec fn is_nan(rank: i32) -> bool {
    rank < -INFINITE || rank > INFINITE
}

/// The lesser of two numbers; the other one where one is not a number.
pub open spec fn lesser(a: i32, b: i32) -> i32 {
    if is_nan(a) {
        b
    } else if is_nan(b) || a <= b {
        a
    } else {
        b
    }
}

/// The greater of two numbers; the other one where one is not a number.
pub open spec fn greater(a: i32, b: i32) -> i32 {
    if is_nan(a) {
        b
    } else if is_nan(b) || a >= b {
        a
    } else {
        b
    }
}

/// The least rectangle around two.
pub open spec fn around(a: Rect, b: Rect) -> Rect {
    Rect {
        left: lesser(a.left, b.left),
        top: lesser(a.top, b.top),
        right: greater(a.right, b.right),
        bottom: greater(a.bottom, b.bottom),
    }
}

/// The rectangle around those that there are.
pub open spec fn combined(a: Option<Rect>, b: Option<Rect>) -> Option<Rect> {
    match (a, b) {
        (Some(a), Some(b)) => Some(around(a, b)),
        (Some(a), None) => Some(a),
        (None, _) => b,
    }
}

/// The rectangle that holds nothing.
pub open spec fn nothing() -> Rect {
    Rect {
        left: INFINITE,
        top: INFINITE,
        right: (-INFINITE) as i32,
        bottom: (-INFINITE) as i32,
    }
}

/// The rectangle that is one point.
pub open spec fn point(at: (i32, i32)) -> Rect {
    Rect { left: at.0, top: at.1, right: at.0, bottom: at.1 }
}

/// The least rectangle around four points; a coordinate that is not a number
/// does not count.
pub open spec fn bounds(a: (i32, i32), b: (i32, i32), c: (i32, i32), d: (i32, i32)) -> Rect {
    around(around(around(around(nothing(), point(a)), point(b)), point(c)), point(d))
}

/// Whether `out` is the least rectangle around the images of the corners.
pub open spec fn is_mapped<F: Fn(i32, i32) -> (i32, i32)>(map: F, rect: Rect, out: Rect) -> bool {
    exists|a: (i32, i32), b: (i32, i32), c: (i32, i32), d: (i32, i32)|
        out == #[trigger] bounds(a, b, c, d) && map.ensures((rect.left, rect.top), a)
            && map.ensures((rect.right, rect.top), b) && map.ensures((rect.left, rect.bottom), c)
            && map.ensures((rect.right, rect.bottom), d)
}

fn min(a: i32, b: i32) -> (r: i32)
    ensures
        r == lesser(a, b),
{
    if a < -INFINITE || a > INFINITE {
        b
    } else if b < -INFINITE || b > INFINITE || a <= b {
        a
    } else {
        b
    }
}

fn max(a: i32, b: i32) -> (r: i32)
    ensures
        r == greater(a, b),
{
    if a < -INFINITE || a > INFINITE {
        b
    } else if b < -INFINITE || b > INFINITE || a >= b {
        a
    } else {
        b
    }
}

fn surround(a: Rect, b: Rect) -> (r: Rect)
    ensures
        r == around(a, b),
{
    Rect {
        left: min(a.left, b.left),
        top: min(a.top, b.top),
        right: max(a.right, b.right),
        bottom: max(a.bottom, b.bottom),
    }
}

/// Screen bounds of a rectangle pushed through a transform: the least
/// rectangle around the images of its corners. `map` maps a point.
pub fn transformed_aabb<F: Fn(i32, i32) -> (i32, i32)>(map: F, rect: Rect) -> (out: Rect)
    requires
        forall|x: i32, y: i32| map.requires((x, y)),
    ensures
        is_mapped(map, rect, out),
{
    let a: (i32, i32) = map(rect.left, rect.top);
    let b: (i32, i32) = map(rect.right, rect.top);
    let c: (i32, i32) = map(rect.left, rect.bottom);
    let d: (i32, i32) = map(rect.right, rect.bottom);
    aabb(a, b, c, d)
}

/// The least rectangle around four points.
pub fn aabb(a: (i32, i32), b: (i32, i32), c: (i32, i32), d: (i32, i32)) -> (out: Rect)
    ensures
        out == bounds(a, b, c, d),
{
    let none: Rect = Rect { left: INFINITE, top: INFINITE, right: -INFINITE, bottom: -INFINITE };
    let out: Rect = surround(none, Rect { left: a.0, top: a.1, right: a.0, bottom: a.1 });
    let out: Rect = surround(out, Rect { left: b.0, top: b.1, right: b.0, bottom: b.1 });
    let out: Rect = surround(out, Rect { left: c.0, top: c.1, right: c.0, bottom: c.1 });
    surround(out, Rect { left: d.0, top: d.1, right: d.0, bottom: d.1 })
}

/// Extends a rectangle to one more; the first one is taken as it is.
pub fn union_into(union: &mut Option<Rect>, rect: Rect)
    ensures
        *final(union) == combined(*old(union), Some(rect)),
{
    let next: Rect = match *union {
        Some(u) => surround(u, rect),
        None => rect,
    };
    *union = Some(next);
}

// ---------------------------------------------------------------------
// The grid.
// ---------------------------------------------------------------------

/// Per-frame accumulation of where on screen the draw commands land.
pub struct ScreenGrid {
    /// Number of draw commands covering each cell (overdraw), row by row.
    pub draws: [u32; 432],
    /// Same, but only for commands inside blend and alpha-mask subtrees,
    /// which cost full offscreen passes.
    pub heavy: [u32; 432],
    /// Those subtrees with their screen rects.
    pub hot: Vec<Hot>,
}

/// `n`, moved into the range from `low` to `high`.
spec fn clamped(n: int, low: int, high: int) -> int {
    if n < low {
        low
    } else if n > high {
        high
    } else {
        n
    }
}

/// Whether the rectangle is finite and not empty.
pub open spec fn is_visible(rect: Rect) -> bool {
    &&& is_finite(rect.left) && is_finite(rect.top) && is_finite(rect.right) && is_finite(
        rect.bottom,
    )
    &&& rect.left < rect.right
    &&& rect.top < rect.bottom
}

/// Whether the rectangle covers the grid cell with this number.
pub open spec fn covers(at: Placement, cell: int) -> bool {
    &&& is_visible(at.rect)
    &&& at.cells.x0 <= cell % (GRID_W as int) < at.cells.x1
    &&& at.cells.y0 <= cell / (GRID_W as int) < at.cells.y1
}

/// One where it holds.
pub open spec fn once(condition: bool) -> int {
    if condition {
        1
    } else {
        0
    }
}

fn clamp(n: i32, low: i32, high: i32) -> (r: i32)
    requires
        low <= high,
    ensures
        r == clamped(n as int, low as int, high as int),
        low <= r <= high,
{
    if n < low {
        low
    } else if n > high {
        high
    } else {
        n
    }
}

fn finite(rank: i32) -> (yes: bool)
    ensures
        yes == is_finite(rank),
{
    -INFINITE < rank && rank < INFINITE
}

proof fn lemma_cell(x: int, y: int)
    requires
        0 <= x < GRID_W,
        0 <= y < GRID_H,
    ensures
        0 <= y * GRID_W + x < GRID_CELLS,
        (y * GRID_W + x) % (GRID_W as int) == x,
        (y * GRID_W + x) / (GRID_W as int) == y,
{
}

impl ScreenGrid {
    /// A grid on which nothing has been drawn.
    pub fn new() -> (grid: ScreenGrid)
        ensures
            forall|c: int| 0 <= c < GRID_CELLS ==> #[trigger] grid.draws@[c] == 0,
            forall|c: int| 0 <= c < GRID_CELLS ==> #[trigger] grid.heavy@[c] == 0,
            grid.hot@.len() == 0,
    {
        ScreenGrid { draws: [0; 432], heavy: [0; 432], hot: Vec::new() }
    }

    /// Counts one more draw command on every cell that it covers.
    pub fn add_rect(&mut self, at: Placement, heavy: bool)
        requires
            forall|c: int|
                0 <= c < GRID_CELLS && #[trigger] covers(at, c) ==> old(self).draws@[c] < u32::MAX
                    && (heavy ==> old(self).heavy@[c] < u32::MAX),
        ensures
            forall|c: int|
                0 <= c < GRID_CELLS && covers(at, c) ==> #[trigger] final(self).draws@[c]
                    == old(self).draws@[c] + 1,
            forall|c: int|
                0 <= c < GRID_CELLS && !covers(at, c) ==> #[trigger] final(self).draws@[c]
                    == old(self).draws@[c],
            forall|c: int|
                0 <= c < GRID_CELLS && heavy && covers(at, c) ==> #[trigger] final(self).heavy@[c]
                    == old(self).heavy@[c] + 1,
            forall|c: int|
                0 <= c < GRID_CELLS && !(heavy && covers(at, c))
                    ==> #[trigger] final(self).heavy@[c] == old(self).heavy@[c],
            forall|c: int|
                0 <= c < GRID_CELLS ==> #[trigger] final(self).draws@[c] == old(self).draws@[c] + once(
                    covers(at, c),
                ),
            forall|c: int|
                0 <= c < GRID_CELLS ==> #[trigger] final(self).heavy@[c] == old(self).heavy@[c] + once(
                    heavy && covers(at, c),
                ),
            final(self).hot@ == old(self).hot@,
    {
        let rect: Rect = at.rect;
        if !(finite(rect.left) && finite(rect.top) && finite(rect.right) && finite(rect.bottom))
            || rect.right <= rect.left || rect.bottom <= rect.top {
            return;
        }
        let x0: i32 = clamp(at.cells.x0, 0, 24);
        let x1: i32 = clamp(at.cells.x1, 0, 24);
        let y0: i32 = clamp(at.cells.y0, 0, 18);
        let y1: i32 = clamp(at.cells.y1, 0, 18);
        let mut y: i32 = y0;
        while y < y1
            invariant
                0 <= x0 <= 24,
                0 <= x1 <= 24,
                0 <= y0 <= 18,
                0 <= y1 <= 18,
                y0 <= y,
                y0 <= y1 ==> y <= y1,
                is_visible(at.rect),
                x0 == clamped(at.cells.x0 as int, 0, 24),
                x1 == clamped(at.cells.x1 as int, 0, 24),
                y0 == clamped(at.cells.y0 as int, 0, 18),
                y1 == clamped(at.cells.y1 as int, 0, 18),
                forall|c: int|
                    0 <= c < GRID_CELLS && #[trigger] covers(at, c) ==> old(self).draws@[c]
                        < u32::MAX && (heavy ==> old(self).heavy@[c] < u32::MAX),
                forall|c: int|
                    0 <= c < GRID_CELLS ==> #[trigger] self.draws@[c] == old(self).draws@[c] + once(
                        covers(at, c) && c / 24 < y,
                    ),
                forall|c: int|
                    0 <= c < GRID_CELLS ==> #[trigger] self.heavy@[c] == old(self).heavy@[c] + once(
                        heavy && covers(at, c) && c / 24 < y,
                    ),
                self.hot@ == old(self).hot@,
            decreases y1 - y,
        {
            let mut x: i32 = x0;
            while x < x1
                invariant
                    0 <= x0 <= 24,
                    0 <= x1 <= 24,
                    0 <= y0 <= y < y1 <= 18,
                    x0 <= x,
                    x0 <= x1 ==> x <= x1,
                    is_visible(at.rect),
                    x0 == clamped(at.cells.x0 as int, 0, 24),
                    x1 == clamped(at.cells.x1 as int, 0, 24),
                    y0 == clamped(at.cells.y0 as int, 0, 18),
                    y1 == clamped(at.cells.y1 as int, 0, 18),
                    forall|c: int|
                        0 <= c < GRID_CELLS && #[trigger] covers(at, c) ==> old(self).draws@[c]
                            < u32::MAX && (heavy ==> old(self).heavy@[c] < u32::MAX),
                    forall|c: int|
                        0 <= c < GRID_CELLS ==> #[trigger] self.draws@[c] == old(self).draws@[c]
                            + once(covers(at, c) && (c / 24 < y || c / 24 == y && c % 24 < x)),
                    forall|c: int|
                        0 <= c < GRID_CELLS ==> #[trigger] self.heavy@[c] == old(self).heavy@[c]
                            + once(
                            heavy && covers(at, c) && (c / 24 < y || c / 24 == y && c % 24 < x),
                        ),
                    self.hot@ == old(self).hot@,
                decreases x1 - x,
            {
                let cell: usize = y as usize * 24 + x as usize;
                proof {
                    lemma_cell(x as int, y as int);
                    assert(covers(at, cell as int));
                }
                let count: u32 = self.draws[cell];
                self.draws[cell] = count + 1;
                if heavy {
                    let count: u32 = self.heavy[cell];
                    self.heavy[cell] = count + 1;
                }
                x += 1;
            }
            y += 1;
        }
    }
}

// ---------------------------------------------------------------------
// The grid as JSON.
// ---------------------------------------------------------------------

/// A rectangle in decimal, rounded to whole pixels: its least coordinates
/// and its size.
pub struct RectText {
    pub x: String,
    pub y: String,
    pub w: String,
    pub h: String,
}

/// The counts of every cell.
pub open spec fn draw_parts(draws: Seq<u32>) -> Seq<Seq<char>> {
    draws.map_values(|n: u32| text::decimal(n as nat))
}

/// The cells among the first `count` that were drawn on, each with its
/// number.
pub open spec fn heavy_parts(heavy: Seq<u32>, count: nat) -> Seq<Seq<char>>
    decreases count,
{
    if count == 0 {
        Seq::empty()
    } else {
        let parts = heavy_parts(heavy, (count - 1) as nat);
        if heavy[count - 1] > 0 {
            parts.push(
                json::array(
                    seq![
                        text::decimal((count - 1) as nat),
                        text::decimal(heavy[count - 1] as nat),
                    ],
                ),
            )
        } else {
            parts
        }
    }
}

/// A costly subtree.
pub open spec fn hot_part(at: RectText, kind: Seq<char>) -> Seq<char> {
    json::array(seq![at.x@, at.y@, at.w@, at.h@, json::literal(kind)])
}

/// The costly subtrees.
pub open spec fn hot_parts(hot: Seq<Hot>, texts: Seq<RectText>) -> Seq<Seq<char>> {
    Seq::new(hot.len(), |i: int| hot_part(texts[i], hot[i].kind@))
}

/// The members of the object that describes a grid. The layer of heavy draws
/// is left out where there were none, and so are the costly subtrees.
pub open spec fn grid_parts(
    viewport_w: nat,
    viewport_h: nat,
    draws: Seq<u32>,
    heavy: Seq<u32>,
    hot: Seq<Seq<char>>,
) -> Seq<Seq<char>> {
    let cells = heavy_parts(heavy, heavy.len());
    let parts = seq![
        json::member("vw"@, text::decimal(viewport_w)),
        json::member("vh"@, text::decimal(viewport_h)),
        json::member("gw"@, text::decimal(GRID_W as nat)),
        json::member("gh"@, text::decimal(GRID_H as nat)),
        json::member("draws"@, json::array(draw_parts(draws))),
    ];
    let parts = if cells.len() > 0 {
        parts.push(json::member("heavy"@, json::array(cells)))
    } else {
        parts
    };
    if hot.len() > 0 {
        parts.push(json::member("hot"@, json::array(hot)))
    } else {
        parts
    }
}

fn draws_json(draws: &[u32; 432]) -> (out: String)
    ensures
        out@ == json::array(draw_parts(draws@)),
{
    let ghost all = draw_parts(draws@);
    let mut parts: json::Parts = json::Parts::new();
    let mut i: usize = 0;
    assert(parts.parts() =~= all.take(0));
    while i < GRID_CELLS
        invariant
            i <= GRID_CELLS,
            all == draw_parts(draws@),
            parts.wf(),
            parts.parts() == all.take(i as int),
        decreases GRID_CELLS - i,
    {
        let mut part: String = String::new();
        text::push_decimal(&mut part, draws[i] as u64);
        proof {
            assert(part@ =~= all[i as int]);
        }
        parts.part(part.as_str());
        i += 1;
        assert(parts.parts() =~= all.take(i as int));
    }
    assert(all.take(GRID_CELLS as int) =~= all);
    parts.into_array()
}

/// The heavy layer, where there is one.
fn heavy_json(heavy: &[u32; 432]) -> (out: Option<String>)
    ensures
        out is Some <==> heavy_parts(heavy@, 432).len() > 0,
        out is Some ==> out->0@ == json::array(heavy_parts(heavy@, 432)),
{
    let mut parts: json::Parts = json::Parts::new();
    let mut any: bool = false;
    let mut i: usize = 0;
    assert(parts.parts() =~= heavy_parts(heavy@, 0));
    while i < GRID_CELLS
        invariant
            i <= GRID_CELLS,
            parts.wf(),
            parts.parts() == heavy_parts(heavy@, i as nat),
            any == (parts.parts().len() > 0),
        decreases GRID_CELLS - i,
    {
        if heavy[i] > 0 {
            let mut pair: json::Parts = json::Parts::new();
            let mut cell: String = String::new();
            text::push_decimal(&mut cell, i as u64);
            let mut count: String = String::new();
            text::push_decimal(&mut count, heavy[i] as u64);
            proof {
                assert(cell@ =~= text::decimal(i as nat));
                assert(count@ =~= text::decimal(heavy@[i as int] as nat));
            }
            pair.part(cell.as_str());
            pair.part(count.as_str());
            assert(pair.parts() =~= seq![cell@, count@]);
            parts.part(pair.into_array().as_str());
            any = true;
        }
        i += 1;
    }
    if any {
        Some(parts.into_array())
    } else {
        None
    }
}

impl ScreenGrid {
    /// The grid as a JSON object; `texts` are the rects of the costly
    /// subtrees, in decimal.
    pub fn describe(&self, viewport_w: u32, viewport_h: u32, texts: &Vec<RectText>) -> (out: String)
        requires
            texts@.len() == self.hot@.len(),
        ensures
            out@ == json::object(
                grid_parts(
                    viewport_w as nat,
                    viewport_h as nat,
                    self.draws@,
                    self.heavy@,
                    hot_parts(self.hot@, texts@),
                ),
            ),
    {
        let mut members: json::Parts = json::Parts::new();
        members.number("vw", viewport_w as u64);
        members.number("vh", viewport_h as u64);
        members.number("gw", GRID_W as u64);
        members.number("gh", GRID_H as u64);
        members.value("draws", draws_json(&self.draws).as_str());
        assert(members.parts() =~= seq![
            json::member("vw"@, text::decimal(viewport_w as nat)),
            json::member("vh"@, text::decimal(viewport_h as nat)),
            json::member("gw"@, text::decimal(GRID_W as nat)),
            json::member("gh"@, text::decimal(GRID_H as nat)),
            json::member("draws"@, json::array(draw_parts(self.draws@))),
        ]);
        if let Some(heavy) = heavy_json(&self.heavy) {
            members.value("heavy", heavy.as_str());
        }
        if self.hot.len() > 0 {
            let ghost all = hot_parts(self.hot@, texts@);
            let mut parts: json::Parts = json::Parts::new();
            let mut i: usize = 0;
            assert(parts.parts() =~= all.take(0));
            while i < self.hot.len()
                invariant
                    i <= self.hot@.len(),
                    texts@.len() == self.hot@.len(),
                    all == hot_parts(self.hot@, texts@),
                    parts.wf(),
                    parts.parts() == all.take(i as int),
                decreases self.hot@.len() - i,
            {
                let at: &RectText = &texts[i];
                let mut part: json::Parts = json::Parts::new();
                part.part(at.x.as_str());
                part.part(at.y.as_str());
                part.part(at.w.as_str());
                part.part(at.h.as_str());
                let mut kind: String = String::new();
                kind.push('"');
                kind.append(self.hot[i].kind);
                kind.push('"');
                proof {
                    assert(kind@ =~= json::literal(self.hot@[i as int].kind@));
                }
                part.part(kind.as_str());
                assert(part.parts() =~= seq![at.x@, at.y@, at.w@, at.h@, kind@]);
                parts.part(part.into_array().as_str());
                i += 1;
                assert(parts.parts() =~= all.take(i as int));
            }
            assert(all.take(self.hot@.len() as int) =~= all);
            members.value("hot", parts.into_array().as_str());
        }
        members.into_object()
    }

    /// The grid as a JSON object; `rounded` writes a rect in decimal.
    pub fn to_json<F: Fn(Rect) -> RectText>(
        &self,
        viewport_w: u32,
        viewport_h: u32,
        rounded: F,
    ) -> (out: String)
        requires
            forall|rect: Rect| rounded.requires((rect,)),
        ensures
            exists|texts: Seq<RectText>| #[trigger]
                are_rects(rounded, self.hot@, texts) && out@ == json::object(
                    grid_parts(
                        viewport_w as nat,
                        viewport_h as nat,
                        self.draws@,
                        self.heavy@,
                        hot_parts(self.hot@, texts),
                    ),
                ),
    {
        let mut texts: Vec<RectText> = Vec::new();
        let mut i: usize = 0;
        while i < self.hot.len()
            invariant
                i <= self.hot@.len(),
                forall|rect: Rect| rounded.requires((rect,)),
                texts@.len() == i,
                forall|k: int|
                    0 <= k < i ==> rounded.ensures((self.hot@[k].rect,), #[trigger] texts@[k]),
            decreases self.hot@.len() - i,
        {
            let text: RectText = rounded(self.hot[i].rect);
            texts.push(text);
            i += 1;
        }
        assert(are_rects(rounded, self.hot@, texts@));
        self.describe(viewport_w, viewport_h, &texts)
    }
}

/// The texts that `rounded` gives for the rects of the subtrees.
pub open spec fn are_rects<F: Fn(Rect) -> RectText>(
    rounded: F,
    hot: Seq<Hot>,
    texts: Seq<RectText>,
) -> bool {
    &&& texts.len() == hot.len()
    &&& forall|i: int| 0 <= i < hot.len() ==> rounded.ensures((hot[i].rect,), #[trigger] texts[i])
}

} // verus!
