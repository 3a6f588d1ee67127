//! What rectangles and grids hold, corner by corner and cell by cell.

use crate::json;
use crate::render;
use crate::screen;
use crate::screen::{Cells, Hot, Placement, Rect, RectText};
use crate::text;
use vstd::prelude::*;

verus! {

/// Whether the rank is that of a number, be it infinite.
pub open spec fn is_rank(rank: i32) -> bool {
    -0x7f80_0000 <= rank <= 0x7f80_0000
}

/// The box reaches as far as the point, in each coordinate of it that is a
/// number.
pub open spec fn holds(out: Rect, at: (i32, i32)) -> bool {
    &&& is_rank(at.0) ==> out.left <= at.0 <= out.right
    &&& is_rank(at.1) ==> out.top <= at.1 <= out.bottom
}

/// `n` is one of four coordinates and a number, or `none` where none of them
/// is a number.
pub open spec fn is_taken(n: i32, none: int, a: i32, b: i32, c: i32, d: i32) -> bool {
    if is_rank(a) || is_rank(b) || is_rank(c) || is_rank(d) {
        is_rank(n) && (n == a || n == b || n == c || n == d)
    } else {
        n == none
    }
}

/// The least box around four points, in which a coordinate that is not a
/// number does not count.
pub open spec fn is_box(
    out: Rect,
    a: (i32, i32),
    b: (i32, i32),
    c: (i32, i32),
    d: (i32, i32),
) -> bool {
    &&& holds(out, a) && holds(out, b) && holds(out, c) && holds(out, d)
    &&& is_taken(out.left, 0x7f80_0000, a.0, b.0, c.0, d.0)
    &&& is_taken(out.top, 0x7f80_0000, a.1, b.1, c.1, d.1)
    &&& is_taken(out.right, -0x7f80_0000, a.0, b.0, c.0, d.0)
    &&& is_taken(out.bottom, -0x7f80_0000, a.1, b.1, c.1, d.1)
}

/// The bounds of four points are the least box around them.
pub proof fn law_bounds_are_boxes(a: (i32, i32), b: (i32, i32), c: (i32, i32), d: (i32, i32))
    ensures
        is_box(screen::bounds(a, b, c, d), a, b, c, d),
{
}

/// A rectangle that is mapped reaches around the image of each of its four
/// corners, and no further than these.
pub proof fn law_mapped_boxes_reach_the_corners<F: Fn(i32, i32) -> (i32, i32)>(
    map: F,
    rect: Rect,
    out: Rect,
)
    requires
        screen::is_mapped(map, rect, out),
    ensures
        exists|p: (i32, i32)| #[trigger]
            map.ensures((rect.left, rect.top), p) && holds(out, p),
        exists|p: (i32, i32)| #[trigger]
            map.ensures((rect.right, rect.top), p) && holds(out, p),
        exists|p: (i32, i32)| #[trigger]
            map.ensures((rect.left, rect.bottom), p) && holds(out, p),
        exists|p: (i32, i32)| #[trigger]
            map.ensures((rect.right, rect.bottom), p) && holds(out, p),
        exists|a: (i32, i32), b: (i32, i32), c: (i32, i32), d: (i32, i32)| #[trigger]
            is_box(out, a, b, c, d) && map.ensures((rect.left, rect.top), a) && map.ensures(
                (rect.right, rect.top),
                b,
            ) && map.ensures((rect.left, rect.bottom), c) && map.ensures(
                (rect.right, rect.bottom),
                d,
            ),
{
    let (a, b, c, d) = choose|a: (i32, i32), b: (i32, i32), c: (i32, i32), d: (i32, i32)|
        out == #[trigger] screen::bounds(a, b, c, d) && map.ensures((rect.left, rect.top), a)
            && map.ensures((rect.right, rect.top), b) && map.ensures((rect.left, rect.bottom), c)
            && map.ensures((rect.right, rect.bottom), d);
    law_bounds_are_boxes(a, b, c, d);
    assert(is_box(out, a, b, c, d));
}

/// A placed rectangle reaches around the image of each of its corners, and its
/// cells are those of that box. A size is placed from the origin on.
pub proof fn law_placed_boxes_reach_the_corners<
    M: Fn(i32, i32) -> (i32, i32),
    C: Fn(Rect) -> Cells,
>(map: M, cells: C, rect: Rect, size: (i32, i32), at: Placement)
    requires
        render::lands(map, cells, rect, at) || (render::lands(map, cells, render::sized(size), at)
            && rect == (Rect { left: 0, top: 0, right: size.0, bottom: size.1 })),
    ensures
        cells.ensures((at.rect,), at.cells),
        exists|a: (i32, i32), b: (i32, i32), c: (i32, i32), d: (i32, i32)| #[trigger]
            is_box(at.rect, a, b, c, d) && map.ensures((rect.left, rect.top), a) && map.ensures(
                (rect.right, rect.top),
                b,
            ) && map.ensures((rect.left, rect.bottom), c) && map.ensures(
                (rect.right, rect.bottom),
                d,
            ),
{
    law_mapped_boxes_reach_the_corners(map, rect, at.rect);
}

/// `n` is the least of two coordinates, or the greatest where that is asked
/// for; one that is not a number gives way to the other.
pub open spec fn is_extreme(n: i32, a: i32, b: i32, least: bool) -> bool {
    if is_rank(a) && is_rank(b) {
        &&& n == a || n == b
        &&& if least {
            n <= a && n <= b
        } else {
            n >= a && n >= b
        }
    } else if is_rank(a) {
        n == a
    } else {
        n == b
    }
}

/// The rectangle around two is the least one that lies around both; one alone
/// is taken as it is.
pub proof fn law_unions_are_least(a: Rect, b: Rect)
    ensures
        screen::combined(None, None) is None,
        screen::combined(Some(a), None) == Some(a),
        screen::combined(None, Some(b)) == Some(b),
        screen::combined(Some(a), Some(b)) is Some,
        ({
            let out = screen::combined(Some(a), Some(b))->0;
            &&& is_extreme(out.left, a.left, b.left, true)
            &&& is_extreme(out.top, a.top, b.top, true)
            &&& is_extreme(out.right, a.right, b.right, false)
            &&& is_extreme(out.bottom, a.bottom, b.bottom, false)
        }),
{
}

/// Each cell that counts, with its number, in this order.
pub open spec fn are_counted(cells: Seq<int>, counts: Seq<u32>, limit: int) -> bool {
    &&& forall|i: int| 0 <= i < cells.len() ==> 0 <= #[trigger] cells[i] < limit
    &&& forall|i: int, j: int| 0 <= i < j < cells.len() ==> #[trigger] cells[i] < #[trigger] cells[j]
    &&& forall|c: int| 0 <= c < limit ==> (#[trigger] counts[c] > 0 <==> cells.contains(c))
}

/// The heavy layer lists every cell that was drawn on, in order, with how
/// often that was.
pub proof fn law_heavy_cells_are_listed(heavy: Seq<u32>, count: nat)
    requires
        count <= heavy.len(),
    ensures
        exists|cells: Seq<int>| #[trigger]
            are_counted(cells, heavy, count as int) && screen::heavy_parts(heavy, count)
                == cells.map_values(
                |c: int|
                    "["@ + text::decimal(c as nat) + ","@ + text::decimal(heavy[c] as nat) + "]"@,
            ),
    decreases count,
{
    let pair = |c: int|
        "["@ + text::decimal(c as nat) + ","@ + text::decimal(heavy[c] as nat) + "]"@;
    if count == 0 {
        let none = Seq::<int>::empty();
        assert(are_counted(none, heavy, 0));
        assert(screen::heavy_parts(heavy, 0) =~= none.map_values(pair));
    } else {
        let last = count - 1;
        law_heavy_cells_are_listed(heavy, last as nat);
        let cells = choose|cells: Seq<int>| #[trigger]
            are_counted(cells, heavy, last) && screen::heavy_parts(heavy, last as nat)
                == cells.map_values(pair);
        if heavy[last] > 0 {
            let more = cells.push(last);
            assert forall|c: int| 0 <= c < count implies (#[trigger] heavy[c] > 0
                <==> more.contains(c)) by {
                if c == last {
                    assert(more[cells.len() as int] == c);
                } else if heavy[c] > 0 {
                    assert(cells.contains(c));
                    let i = choose|i: int| 0 <= i < cells.len() && cells[i] == c;
                    assert(more[i] == c);
                } else if more.contains(c) {
                    let i = choose|i: int| 0 <= i < more.len() && more[i] == c;
                    assert(cells[i] == c);
                }
            }
            assert(are_counted(more, heavy, count as int));
            lemma_pair(last as nat, heavy[last] as nat);
            assert(screen::heavy_parts(heavy, count) =~= more.map_values(pair));
        } else {
            assert forall|c: int| 0 <= c < count implies (#[trigger] heavy[c] > 0
                <==> cells.contains(c)) by {}
            assert(are_counted(cells, heavy, count as int));
        }
    }
}

proof fn lemma_pair(a: nat, b: nat)
    ensures
        json::array(seq![text::decimal(a), text::decimal(b)]) == "["@ + text::decimal(a) + ","@
            + text::decimal(b) + "]"@,
{
    let parts = seq![text::decimal(a), text::decimal(b)];
    reveal_with_fuel(text::joined, 3);
    reveal_strlit("[");
    reveal_strlit(",");
    reveal_strlit("]");
    assert(parts.drop_last() =~= seq![text::decimal(a)]);
    assert(json::array(parts) =~= "["@ + text::decimal(a) + ","@ + text::decimal(b) + "]"@);
}

/// A costly subtree is an array of its least coordinates, its size and its
/// kind.
pub proof fn law_hot_rects_are_arrays(hot: Seq<Hot>, texts: Seq<RectText>, i: int)
    requires
        0 <= i < hot.len(),
    ensures
        screen::hot_parts(hot, texts).len() == hot.len(),
        screen::hot_parts(hot, texts)[i] == "["@ + text::listed(
            seq![
                texts[i].x@,
                texts[i].y@,
                texts[i].w@,
                texts[i].h@,
                "\""@ + hot[i].kind@ + "\""@,
            ],
        ) + "]"@,
{
    reveal_strlit("[");
    reveal_strlit("]");
    reveal_strlit("\"");
    assert("["@ =~= seq!['[']);
    assert("]"@ =~= seq![']']);
    assert(json::literal(hot[i].kind@) =~= "\""@ + hot[i].kind@ + "\""@);
}

/// The grid lists its sizes and how often each cell was drawn on, then the
/// heavy layer where any cell of it counts, then the costly subtrees where
/// there are any.
pub proof fn law_grids_are_described(
    viewport_w: nat,
    viewport_h: nat,
    draws: Seq<u32>,
    heavy: Seq<u32>,
    hot: Seq<Seq<char>>,
)
    ensures
        ({
            let parts = seq![
                "\"vw\":"@ + text::decimal(viewport_w),
                "\"vh\":"@ + text::decimal(viewport_h),
                "\"gw\":24"@,
                "\"gh\":18"@,
                "\"draws\":["@ + text::listed(
                    Seq::new(draws.len(), |c: int| text::decimal(draws[c] as nat)),
                ) + "]"@,
            ];
            let layer = "\"heavy\":["@ + text::listed(screen::heavy_parts(heavy, heavy.len()))
                + "]"@;
            let trees = "\"hot\":["@ + text::listed(hot) + "]"@;
            let any = exists|c: int| 0 <= c < heavy.len() && #[trigger] heavy[c] > 0;
            screen::grid_parts(viewport_w, viewport_h, draws, heavy, hot) == parts + (if any {
                seq![layer]
            } else {
                Seq::empty()
            }) + (if hot.len() > 0 {
                seq![trees]
            } else {
                Seq::empty()
            })
        }),
{
    reveal_strlit("vw");
    reveal_strlit("vh");
    reveal_strlit("gw");
    reveal_strlit("gh");
    reveal_strlit("draws");
    reveal_strlit("heavy");
    reveal_strlit("hot");
    reveal_strlit("\"vw\":");
    reveal_strlit("\"vh\":");
    reveal_strlit("\"gw\":24");
    reveal_strlit("\"gh\":18");
    reveal_strlit("\"draws\":[");
    reveal_strlit("\"heavy\":[");
    reveal_strlit("\"hot\":[");
    reveal_strlit("]");
    let all = Seq::new(draws.len(), |c: int| text::decimal(draws[c] as nat));
    let cells = screen::heavy_parts(heavy, heavy.len());
    assert(screen::draw_parts(draws) =~= all);
    reveal_with_fuel(text::decimal, 2);
    assert(text::decimal(24) =~= seq!['2', '4']);
    assert(text::decimal(18) =~= seq!['1', '8']);
    assert(json::member("vw"@, text::decimal(viewport_w)) =~= "\"vw\":"@ + text::decimal(
        viewport_w,
    ));
    assert(json::member("vh"@, text::decimal(viewport_h)) =~= "\"vh\":"@ + text::decimal(
        viewport_h,
    ));
    assert(json::member("gw"@, text::decimal(24)) =~= "\"gw\":24"@);
    assert(json::member("gh"@, text::decimal(18)) =~= "\"gh\":18"@);
    assert(json::member("draws"@, json::array(all)) =~= "\"draws\":["@ + text::listed(all) + "]"@);
    assert(json::member("heavy"@, json::array(cells)) =~= "\"heavy\":["@ + text::listed(cells)
        + "]"@);
    assert(json::member("hot"@, json::array(hot)) =~= "\"hot\":["@ + text::listed(hot) + "]"@);
    law_heavy_cells_are_listed(heavy, heavy.len());
    let found = choose|found: Seq<int>| #[trigger]
        are_counted(found, heavy, heavy.len() as int) && cells == found.map_values(
            |c: int|
                "["@ + text::decimal(c as nat) + ","@ + text::decimal(heavy[c] as nat) + "]"@,
        );
    let any = exists|c: int| 0 <= c < heavy.len() && #[trigger] heavy[c] > 0;
    assert(any <==> cells.len() > 0) by {
        if any {
            let c = choose|c: int| 0 <= c < heavy.len() && #[trigger] heavy[c] > 0;
            assert(found.contains(c));
        }
        if cells.len() > 0 {
            assert(found.contains(found[0]));
            assert(heavy[found[0]] > 0);
        }
    }
    let parts = seq![
        "\"vw\":"@ + text::decimal(viewport_w),
        "\"vh\":"@ + text::decimal(viewport_h),
        "\"gw\":24"@,
        "\"gh\":18"@,
        "\"draws\":["@ + text::listed(all) + "]"@,
    ];
    let layer = "\"heavy\":["@ + text::listed(cells) + "]"@;
    let trees = "\"hot\":["@ + text::listed(hot) + "]"@;
    assert(screen::grid_parts(viewport_w, viewport_h, draws, heavy, hot) =~= parts + (if any {
        seq![layer]
    } else {
        Seq::empty()
    }) + (if hot.len() > 0 {
        seq![trees]
    } else {
        Seq::empty()
    }));
}

} // verus!
