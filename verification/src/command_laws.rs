//! What the walk over a command tree gives, command by command and list by
//! list.

use crate::commands;
use crate::commands::{BlendMode, Command, CommandList, Measure};
use crate::screen;
use crate::screen::{Hot, Placement, Rect};
use vstd::prelude::*;

verus! {

/// The rectangle is finite and not empty, and the cell in this row and column
/// of the grid lies in its range.
pub open spec fn lies_on(at: Placement, cell: int) -> bool {
    &&& -0x7f80_0000 < at.rect.left < at.rect.right < 0x7f80_0000
    &&& -0x7f80_0000 < at.rect.top < at.rect.bottom < 0x7f80_0000
    &&& at.cells.x0 <= cell % 24 < at.cells.x1
    &&& at.cells.y0 <= cell / 24 < at.cells.y1
}

/// A draw covers exactly the cells in its rows and columns, where its
/// rectangle is finite and not empty.
pub proof fn law_cells_are_covered(at: Placement, row: int, column: int)
    requires
        0 <= column < 24,
        0 <= row < 18,
    ensures
        screen::covers(at, row * 24 + column) <==> {
            &&& -0x7f80_0000 < at.rect.left < at.rect.right < 0x7f80_0000
            &&& -0x7f80_0000 < at.rect.top < at.rect.bottom < 0x7f80_0000
            &&& at.cells.x0 <= column < at.cells.x1
            &&& at.cells.y0 <= row < at.cells.y1
        },
{
}

/// What a list adds up to as a whole.
pub open spec fn sum_of(list: CommandList, heavy: bool, measure: Measure) -> nat {
    commands::total(list, list.commands@.len(), heavy, measure)
}

/// How deep a list that lies at `depth` is nested as a whole.
pub open spec fn depth_of(list: CommandList, depth: nat) -> nat {
    commands::deepest(list, list.commands@.len(), depth)
}

/// The rectangle around everything that a list draws.
pub open spec fn extent_of(list: CommandList) -> Option<Rect> {
    commands::extent(list, list.commands@.len())
}

/// The costly subtrees of a list.
pub open spec fn trees_of(list: CommandList) -> Seq<Hot> {
    commands::hot_trees(list, list.commands@.len())
}

/// A command that draws itself: it counts on exactly the cells that it covers,
/// on the heavy layer only inside a blend or an alpha mask, and its rectangle
/// is the extent of the list. That holds of shapes, bitmaps, stage bitmaps,
/// rects, lines and line rects alike.
pub proof fn law_every_draw_is_placed(
    list: CommandList,
    at: Option<Placement>,
    heavy: bool,
    cell: usize,
)
    requires
        list.commands@ == seq![Command::RenderShape(at)] || list.commands@
            == seq![Command::RenderBitmap(at)] || list.commands@
            == seq![Command::RenderStage3D(at)] || list.commands@ == seq![Command::DrawRect(at)]
            || list.commands@ == seq![Command::DrawLine(at)] || list.commands@
            == seq![Command::DrawLineRect(at)],
    ensures
        extent_of(list) == match at {
            Some(at) => Some(at.rect),
            None => None,
        },
        sum_of(list, heavy, Measure::Draws(cell)) == match at {
            Some(at) => if lies_on(at, cell as int) {
                1nat
            } else {
                0
            },
            None => 0,
        },
        sum_of(list, heavy, Measure::Heavy(cell)) == match at {
            Some(at) => if heavy && lies_on(at, cell as int) {
                1nat
            } else {
                0
            },
            None => 0,
        },
        trees_of(list) == Seq::<Hot>::empty(),
{
    reveal_with_fuel(commands::total, 3);
    reveal_with_fuel(commands::share, 3);
    reveal_with_fuel(commands::extent, 3);
    reveal_with_fuel(commands::covered, 3);
    reveal_with_fuel(commands::hot_trees, 3);
    reveal_with_fuel(commands::hot_inside, 3);
    assert(list.commands@.len() == 1);
    assert(trees_of(list) =~= Seq::empty());
}

/// A mask command covers no cell and has no rectangle.
pub proof fn law_masks_draw_nothing(list: CommandList, heavy: bool, cell: usize)
    requires
        list.commands@ == seq![Command::PushMask] || list.commands@ == seq![Command::ActivateMask]
            || list.commands@ == seq![Command::DeactivateMask] || list.commands@
            == seq![Command::PopMask] || list.commands@ == Seq::<Command>::empty(),
    ensures
        extent_of(list) is None,
        sum_of(list, heavy, Measure::Draws(cell)) == 0,
        sum_of(list, heavy, Measure::Heavy(cell)) == 0,
        trees_of(list) == Seq::<Hot>::empty(),
{
    reveal_with_fuel(commands::total, 3);
    reveal_with_fuel(commands::share, 3);
    reveal_with_fuel(commands::extent, 3);
    reveal_with_fuel(commands::covered, 3);
    reveal_with_fuel(commands::hot_trees, 3);
    reveal_with_fuel(commands::hot_inside, 3);
    assert(list.commands@.len() <= 1);
    assert(trees_of(list) =~= Seq::empty());
}

/// Whether a command without inner commands is counted under this measure.
pub open spec fn counts_as(command: Command, measure: Measure) -> bool {
    match (command, measure) {
        (Command::RenderShape(_), Measure::Shapes) => true,
        (Command::RenderBitmap(_), Measure::Bitmaps) => true,
        (Command::RenderStage3D(_), Measure::Bitmaps) => true,
        (Command::DrawRect(_), Measure::Rects) => true,
        (Command::DrawLine(_), Measure::Rects) => true,
        (Command::DrawLineRect(_), Measure::Rects) => true,
        (Command::PushMask, Measure::StencilMasks) => true,
        _ => false,
    }
}

/// A command without inner commands counts once under its own kind and under
/// no other, and lies no deeper than its list.
pub proof fn law_leaves_count_once(
    list: CommandList,
    command: Command,
    heavy: bool,
    measure: Measure,
    depth: nat,
)
    requires
        list.commands@ == seq![command],
        !(command is RenderAlphaMask),
        !(command is Blend),
        !(measure is Draws),
        !(measure is Heavy),
    ensures
        sum_of(list, heavy, measure) == if counts_as(command, measure) {
            1nat
        } else {
            0
        },
        depth_of(list, depth) == depth,
{
    reveal_with_fuel(commands::total, 3);
    reveal_with_fuel(commands::share, 3);
    reveal_with_fuel(commands::deepest, 3);
    reveal_with_fuel(commands::reach, 3);
}

/// How a blend is counted.
pub open spec fn blend_measure(mode: BlendMode) -> Measure {
    match mode {
        BlendMode::Layer => Measure::BlendLayer,
        BlendMode::Alpha | BlendMode::Erase => Measure::BlendAlphaErase,
        BlendMode::Other => Measure::BlendComplex,
        BlendMode::Shader => Measure::BlendShader,
    }
}

/// A blend counts once under its mode, and beside that as what is inside it,
/// all of it heavy and one deeper. Its rectangle is that of what is inside,
/// and where there is one, the blend is a costly subtree behind those inside.
pub proof fn law_blends_wrap_their_commands(
    list: CommandList,
    inner: CommandList,
    mode: BlendMode,
    heavy: bool,
    measure: Measure,
    depth: nat,
)
    requires
        list.commands@ == seq![Command::Blend(inner, mode)],
    ensures
        sum_of(list, heavy, measure) == sum_of(inner, true, measure) + (if measure
            == blend_measure(mode) {
            1nat
        } else {
            0
        }),
        depth_of(list, depth) == depth_of(inner, depth + 1),
        depth_of(list, depth) >= depth + 1,
        extent_of(list) == extent_of(inner),
        match extent_of(inner) {
            None => trees_of(list) == trees_of(inner),
            Some(rect) => {
                let last = trees_of(list).last();
                &&& trees_of(list) == trees_of(inner).push(last)
                &&& last.rect == rect
                &&& last.kind@ == (match mode {
                    BlendMode::Layer => "blend_layer"@,
                    BlendMode::Alpha => "blend_alpha_erase"@,
                    BlendMode::Erase => "blend_alpha_erase"@,
                    BlendMode::Other => "blend"@,
                    BlendMode::Shader => "blend_shader"@,
                })
            },
        },
{
    reveal_with_fuel(commands::total, 2);
    reveal_with_fuel(commands::share, 2);
    reveal_with_fuel(commands::deepest, 2);
    reveal_with_fuel(commands::reach, 2);
    reveal_with_fuel(commands::extent, 2);
    reveal_with_fuel(commands::covered, 2);
    reveal_with_fuel(commands::hot_trees, 2);
    reveal_with_fuel(commands::hot_inside, 2);
    let command = Command::Blend(inner, mode);
    assert(list.commands@[0] == command);
    assert(commands::total(list, 0, heavy, measure) == 0);
    assert(commands::deepest(list, 0, depth) == depth);
    lemma_depth_grows(inner, inner.commands@.len(), depth + 1);
    assert(commands::hot_trees(list, 0) =~= Seq::empty());
    if extent_of(inner) is Some {
        assert(trees_of(list) =~= trees_of(inner).push(trees_of(list).last()));
    } else {
        assert(trees_of(list) =~= trees_of(inner));
    }
}

/// An alpha mask counts once, and beside that as what is inside its two lists,
/// all of it heavy and one deeper. Its rectangle lies around both lists, and
/// where there is one, the mask is a costly subtree behind those inside.
#[verifier::rlimit(40)]
pub proof fn law_alpha_masks_wrap_their_commands(
    list: CommandList,
    maskee: CommandList,
    mask: CommandList,
    heavy: bool,
    measure: Measure,
    depth: nat,
)
    requires
        list.commands@ == seq![
            Command::RenderAlphaMask { maskee_commands: maskee, mask_commands: mask },
        ],
    ensures
        sum_of(list, heavy, measure) == sum_of(maskee, true, measure) + sum_of(mask, true, measure)
            + (if measure is AlphaMasks {
            1nat
        } else {
            0
        }),
        depth_of(list, depth) >= depth + 1,
        depth_of(list, depth) >= depth_of(maskee, depth + 1),
        depth_of(list, depth) >= depth_of(mask, depth + 1),
        depth_of(list, depth) == depth_of(maskee, depth + 1) || depth_of(list, depth) == depth_of(
            mask,
            depth + 1,
        ),
        extent_of(maskee) is None ==> extent_of(list) == extent_of(mask),
        extent_of(mask) is None ==> extent_of(list) == extent_of(maskee),
        extent_of(maskee) is Some && extent_of(mask) is Some ==> extent_of(list)
            == screen::combined(extent_of(maskee), extent_of(mask)) && extent_of(list) is Some,
        match extent_of(list) {
            None => trees_of(list) == trees_of(maskee) + trees_of(mask),
            Some(rect) => {
                let last = trees_of(list).last();
                &&& trees_of(list) == (trees_of(maskee) + trees_of(mask)).push(last)
                &&& last.rect == rect
                &&& last.kind@ == "alpha_mask"@
            },
        },
{
    reveal_with_fuel(commands::total, 2);
    reveal_with_fuel(commands::share, 2);
    reveal_with_fuel(commands::deepest, 2);
    reveal_with_fuel(commands::reach, 2);
    reveal_with_fuel(commands::extent, 2);
    reveal_with_fuel(commands::covered, 2);
    reveal_with_fuel(commands::hot_trees, 2);
    reveal_with_fuel(commands::hot_inside, 2);
    let command = Command::RenderAlphaMask { maskee_commands: maskee, mask_commands: mask };
    assert(list.commands@[0] == command);
    assert(commands::total(list, 0, heavy, measure) == 0);
    assert(commands::deepest(list, 0, depth) == depth);
    lemma_depth_grows(maskee, maskee.commands@.len(), depth + 1);
    assert(commands::hot_trees(list, 0) =~= Seq::empty());
    if extent_of(list) is Some {
        assert(trees_of(list) =~= (trees_of(maskee) + trees_of(mask)).push(
            trees_of(list).last(),
        ));
    } else {
        assert(trees_of(list) =~= trees_of(maskee) + trees_of(mask));
    }
}

proof fn lemma_depth_grows(list: CommandList, count: nat, depth: nat)
    requires
        count <= list.commands@.len(),
    ensures
        commands::deepest(list, count, depth) >= depth,
    decreases count,
{
    if count > 0 {
        lemma_depth_grows(list, (count - 1) as nat, depth);
    }
}

/// The beginning of a list gives the same as the list that is that beginning.
proof fn lemma_beginning(
    whole: CommandList,
    front: CommandList,
    count: nat,
    heavy: bool,
    measure: Measure,
    depth: nat,
)
    requires
        count <= front.commands@.len() <= whole.commands@.len(),
        forall|i: int| 0 <= i < count ==> whole.commands@[i] == #[trigger] front.commands@[i],
    ensures
        commands::total(whole, count, heavy, measure) == commands::total(
            front,
            count,
            heavy,
            measure,
        ),
        commands::deepest(whole, count, depth) == commands::deepest(front, count, depth),
        commands::extent(whole, count) == commands::extent(front, count),
        commands::hot_trees(whole, count) == commands::hot_trees(front, count),
    decreases count,
{
    if count > 0 {
        lemma_beginning(whole, front, (count - 1) as nat, heavy, measure, depth);
        assert(whole.commands@[count - 1] == front.commands@[count - 1]);
    }
}

proof fn lemma_combined(a: Option<Rect>, b: Option<Rect>, c: Option<Rect>)
    ensures
        screen::combined(screen::combined(a, b), c) == screen::combined(
            a,
            screen::combined(b, c),
        ),
{
}

proof fn lemma_followed(
    whole: CommandList,
    front: CommandList,
    back: CommandList,
    count: nat,
    heavy: bool,
    measure: Measure,
    depth: nat,
)
    requires
        whole.commands@ == front.commands@ + back.commands@,
        count <= back.commands@.len(),
    ensures
        ({
            let n = front.commands@.len() + count;
            &&& commands::total(whole, n, heavy, measure) == sum_of(front, heavy, measure)
                + commands::total(back, count, heavy, measure)
            &&& commands::deepest(whole, n, depth) == commands::higher(
                depth_of(front, depth),
                commands::deepest(back, count, depth),
            )
            &&& commands::extent(whole, n) == screen::combined(
                extent_of(front),
                commands::extent(back, count),
            )
            &&& commands::hot_trees(whole, n) == trees_of(front) + commands::hot_trees(back, count)
        }),
    decreases count,
{
    let n = front.commands@.len() + count;
    if count > 0 {
        let last = (count - 1) as nat;
        lemma_followed(whole, front, back, last, heavy, measure, depth);
        assert(whole.commands@[n - 1] == back.commands@[count - 1]);
        lemma_combined(
            extent_of(front),
            commands::extent(back, last),
            commands::covered(back.commands@[count - 1]),
        );
        assert(commands::hot_trees(whole, n) =~= trees_of(front) + commands::hot_trees(
            back,
            count,
        ));
    } else {
        lemma_beginning(whole, front, n, heavy, measure, depth);
        lemma_depth_grows(front, n, depth);
        assert(commands::hot_trees(whole, n) =~= trees_of(front) + commands::hot_trees(back, 0));
    }
}

/// A list that goes on another adds to what that one adds up to, lies as deep
/// as the deeper of both, reaches as far as both, and has the costly subtrees
/// of one behind those of the other.
pub proof fn law_lists_add_up(
    whole: CommandList,
    front: CommandList,
    back: CommandList,
    heavy: bool,
    measure: Measure,
    depth: nat,
)
    requires
        whole.commands@ == front.commands@ + back.commands@,
    ensures
        sum_of(whole, heavy, measure) == sum_of(front, heavy, measure) + sum_of(
            back,
            heavy,
            measure,
        ),
        depth_of(whole, depth) >= depth_of(front, depth),
        depth_of(whole, depth) >= depth_of(back, depth),
        depth_of(whole, depth) == depth_of(front, depth) || depth_of(whole, depth) == depth_of(
            back,
            depth,
        ),
        extent_of(front) is None ==> extent_of(whole) == extent_of(back),
        extent_of(back) is None ==> extent_of(whole) == extent_of(front),
        extent_of(front) is Some && extent_of(back) is Some ==> extent_of(whole)
            == screen::combined(extent_of(front), extent_of(back)),
        trees_of(whole) == trees_of(front) + trees_of(back),
{
    lemma_followed(whole, front, back, back.commands@.len(), heavy, measure, depth);
}

/// An empty list adds up to nothing.
pub proof fn law_empty_lists_add_nothing(
    list: CommandList,
    heavy: bool,
    measure: Measure,
    depth: nat,
)
    requires
        list.commands@.len() == 0,
    ensures
        sum_of(list, heavy, measure) == 0,
        depth_of(list, depth) == depth,
        extent_of(list) is None,
        trees_of(list).len() == 0,
        commands::list_size(list, 0) == 0,
{
}

/// The size of a list is the number of its commands, with those inside others.
pub proof fn law_sizes_add_up(whole: CommandList, front: CommandList, command: Command)
    requires
        whole.commands@ == front.commands@.push(command),
    ensures
        commands::list_size(whole, whole.commands@.len()) == commands::list_size(
            front,
            front.commands@.len(),
        ) + 1 + match command {
            Command::RenderAlphaMask { maskee_commands, mask_commands } => commands::list_size(
                maskee_commands,
                maskee_commands.commands@.len(),
            ) + commands::list_size(mask_commands, mask_commands.commands@.len()),
            Command::Blend(inner, _) => commands::list_size(inner, inner.commands@.len()),
            _ => 0,
        },
{
    lemma_size_of_beginning(whole, front, front.commands@.len());
    reveal_with_fuel(commands::list_size, 2);
    reveal_with_fuel(commands::size, 2);
    assert(whole.commands@[front.commands@.len() as int] == command);
}

proof fn lemma_size_of_beginning(whole: CommandList, front: CommandList, count: nat)
    requires
        count <= front.commands@.len() <= whole.commands@.len(),
        forall|i: int| 0 <= i < count ==> whole.commands@[i] == #[trigger] front.commands@[i],
    ensures
        commands::list_size(whole, count) == commands::list_size(front, count),
    decreases count,
{
    if count > 0 {
        lemma_size_of_beginning(whole, front, (count - 1) as nat);
        assert(whole.commands@[count - 1] == front.commands@[count - 1]);
    }
}

/// The lists inside an alpha mask or a blend lie one deeper than it, and a
/// command without inner commands reaches no deeper than it lies.
pub proof fn law_inner_lists_lie_deeper(command: Command, depth: nat)
    ensures
        match command {
            Command::RenderAlphaMask { maskee_commands, mask_commands } => {
                &&& commands::reach(command, depth) >= depth + 1
                &&& commands::reach(command, depth) >= depth_of(maskee_commands, depth + 1)
                &&& commands::reach(command, depth) >= depth_of(mask_commands, depth + 1)
            },
            Command::Blend(inner, _) => {
                &&& commands::reach(command, depth) >= depth + 1
                &&& commands::reach(command, depth) == depth_of(inner, depth + 1)
            },
            _ => commands::reach(command, depth) == depth,
        },
{
    reveal_with_fuel(commands::reach, 2);
    match command {
        Command::RenderAlphaMask { maskee_commands, mask_commands } => {
            lemma_depth_grows(maskee_commands, maskee_commands.commands@.len(), depth + 1);
            lemma_depth_grows(mask_commands, mask_commands.commands@.len(), depth + 1);
        },
        Command::Blend(inner, _) => {
            lemma_depth_grows(inner, inner.commands@.len(), depth + 1);
        },
        _ => {},
    }
}

/// A list one level further down is as deep as before, and one level more.
pub proof fn law_depths_shift(list: CommandList, count: nat, depth: nat)
    requires
        count <= list.commands@.len(),
    ensures
        commands::deepest(list, count, depth + 1) == commands::deepest(list, count, depth) + 1,
    decreases list, count,
{
    if count > 0 {
        reveal_with_fuel(commands::deepest, 2);
        reveal_with_fuel(commands::reach, 2);
        law_depths_shift(list, (count - 1) as nat, depth);
        match list.commands@[count - 1] {
            Command::RenderAlphaMask { maskee_commands, mask_commands } => {
                law_depths_shift(maskee_commands, maskee_commands.commands@.len(), depth + 1);
                law_depths_shift(mask_commands, mask_commands.commands@.len(), depth + 1);
            },
            Command::Blend(inner, _) => {
                law_depths_shift(inner, inner.commands@.len(), depth + 1);
            },
            _ => {},
        }
    }
}

} // verus!
