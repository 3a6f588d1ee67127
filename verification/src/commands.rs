//! The draw commands of a frame: what they are made of and where they land.

use crate::json;
use crate::screen;
use crate::screen::{Hot, Placement, Rect, ScreenGrid, GRID_CELLS, MAX_HOT_RECTS};
use crate::text;
use vstd::prelude::*;

verus! {

/// How a subtree is blended onto what lies below it.
#[derive(Clone, Copy, Debug, PartialEq, Eq, Structural)]
pub enum BlendMode {
    Layer,
    Alpha,
    Erase,
    /// Any other blend mode that is built in.
    Other,
    Shader,
}

/// A command. Those that draw come with the place that they land on, where it
/// is known.
pub enum Command {
    RenderShape(Option<Placement>),
    RenderBitmap(Option<Placement>),
    RenderStage3D(Option<Placement>),
    DrawRect(Option<Placement>),
    DrawLine(Option<Placement>),
    DrawLineRect(Option<Placement>),
    PushMask,
    ActivateMask,
    DeactivateMask,
    PopMask,
    RenderAlphaMask { maskee_commands: CommandList, mask_commands: CommandList },
    Blend(CommandList, BlendMode),
}

/// Draw commands in the order in which they are run.
pub struct CommandList {
    pub commands: Vec<Command>,
}

/// Number of commands in a command, itself with it.
pub open spec fn size(command: Command) -> nat
    decreases command, 0nat,
{
    match command {
        Command::RenderAlphaMask { maskee_commands, mask_commands } => 1 + list_size(
            maskee_commands,
            maskee_commands.commands@.len(),
        ) + list_size(mask_commands, mask_commands.commands@.len()),
        Command::Blend(inner, _) => 1 + list_size(inner, inner.commands@.len()),
        _ => 1,
    }
}

/// Number of commands in the first `count` commands of a list.
pub open spec fn list_size(list: CommandList, count: nat) -> nat
    decreases list, count,
{
    if count == 0 || count > list.commands@.len() {
        0
    } else {
        list_size(list, (count - 1) as nat) + size(list.commands@[count - 1])
    }
}

impl Command {
    /// Number of commands in a command, at most the greatest number.
    fn size(&self) -> (n: u64)
        ensures
            n == if size(*self) <= u64::MAX {
                size(*self) as int
            } else {
                u64::MAX as int
            },
        decreases self, 0nat,
    {
        match self {
            Command::RenderAlphaMask { maskee_commands, mask_commands } => {
                let maskee: u64 = maskee_commands.size();
                let mask: u64 = mask_commands.size();
                maskee.saturating_add(mask).saturating_add(1)
            },
            Command::Blend(inner, _) => inner.size().saturating_add(1),
            _ => 1,
        }
    }
}

impl CommandList {
    /// Number of commands in a list, with those inside others; the greatest
    /// number stands for anything above it, too.
    pub fn size(&self) -> (n: u64)
        ensures
            n == if list_size(*self, self.commands@.len()) <= u64::MAX {
                list_size(*self, self.commands@.len()) as int
            } else {
                u64::MAX as int
            },
        decreases self, 0nat,
    {
        let mut n: u64 = 0;
        let mut i: usize = 0;
        while i < self.commands.len()
            invariant
                i <= self.commands@.len(),
                n == if list_size(*self, i as nat) <= u64::MAX {
                    list_size(*self, i as nat) as int
                } else {
                    u64::MAX as int
                },
            decreases self.commands@.len() - i,
        {
            n = n.saturating_add(self.commands[i].size());
            i += 1;
        }
        n
    }
}

// ---------------------------------------------------------------------
// What a frame adds up to.
// ---------------------------------------------------------------------

/// Something that is counted over a command tree.
pub enum Measure {
    Shapes,
    Bitmaps,
    Rects,
    StencilMasks,
    AlphaMasks,
    BlendLayer,
    BlendAlphaErase,
    BlendComplex,
    BlendShader,
    /// Draw commands that cover this grid cell.
    Draws(usize),
    /// The same, inside blend and alpha-mask subtrees.
    Heavy(usize),
}

/// The cell, where there is one, lies on the grid.
pub open spec fn is_measure(measure: Measure) -> bool {
    match measure {
        Measure::Draws(cell) => cell < GRID_CELLS,
        Measure::Heavy(cell) => cell < GRID_CELLS,
        _ => true,
    }
}

/// Where a command itself lands.
pub open spec fn placement(command: Command) -> Option<Placement> {
    match command {
        Command::RenderShape(at) => at,
        Command::RenderBitmap(at) => at,
        Command::RenderStage3D(at) => at,
        Command::DrawRect(at) => at,
        Command::DrawLine(at) => at,
        Command::DrawLineRect(at) => at,
        _ => None,
    }
}

/// Whether a command itself covers the cell.
pub open spec fn lands_on(command: Command, cell: int) -> bool {
    placement(command) matches Some(at) && screen::covers(at, cell)
}

/// Whether a command is of the kind that is counted.
pub open spec fn is_kind(command: Command, measure: Measure) -> bool {
    match measure {
        Measure::Shapes => command is RenderShape,
        Measure::Bitmaps => command is RenderBitmap || command is RenderStage3D,
        Measure::Rects => command is DrawRect || command is DrawLine || command is DrawLineRect,
        Measure::StencilMasks => command is PushMask,
        Measure::AlphaMasks => command is RenderAlphaMask,
        Measure::BlendLayer => command matches Command::Blend(_, mode) && mode == BlendMode::Layer,
        Measure::BlendAlphaErase => command matches Command::Blend(_, mode) && (mode
            == BlendMode::Alpha || mode == BlendMode::Erase),
        Measure::BlendComplex => command matches Command::Blend(_, mode) && mode
            == BlendMode::Other,
        Measure::BlendShader => command matches Command::Blend(_, mode) && mode
            == BlendMode::Shader,
        _ => false,
    }
}

/// Whether a command itself counts; `heavy` tells that it lies in a blend or
/// alpha-mask subtree.
pub open spec fn counts(command: Command, heavy: bool, measure: Measure) -> bool {
    match measure {
        Measure::Draws(cell) => lands_on(command, cell as int),
        Measure::Heavy(cell) => heavy && lands_on(command, cell as int),
        _ => is_kind(command, measure),
    }
}

/// What a command adds up to, with everything inside it.
pub open spec fn share(command: Command, heavy: bool, measure: Measure) -> nat
    decreases command, 0nat,
{
    let own: nat = if counts(command, heavy, measure) {
        1
    } else {
        0
    };
    match command {
        Command::RenderAlphaMask { maskee_commands, mask_commands } => own + total(
            maskee_commands,
            maskee_commands.commands@.len(),
            true,
            measure,
        ) + total(mask_commands, mask_commands.commands@.len(), true, measure),
        Command::Blend(inner, _) => own + total(inner, inner.commands@.len(), true, measure),
        _ => own,
    }
}

/// What the first `count` commands of a list add up to.
pub open spec fn total(list: CommandList, count: nat, heavy: bool, measure: Measure) -> nat
    decreases list, count,
{
    if count == 0 || count > list.commands@.len() {
        0
    } else {
        total(list, (count - 1) as nat, heavy, measure) + share(
            list.commands@[count - 1],
            heavy,
            measure,
        )
    }
}

/// The greater of two numbers.
pub open spec fn higher(a: nat, b: nat) -> nat {
    if a < b {
        b
    } else {
        a
    }
}

/// How deep a command is nested that lies at `depth`.
pub open spec fn reach(command: Command, depth: nat) -> nat
    decreases command, 0nat,
{
    match command {
        Command::RenderAlphaMask { maskee_commands, mask_commands } => higher(
            deepest(maskee_commands, maskee_commands.commands@.len(), depth + 1),
            deepest(mask_commands, mask_commands.commands@.len(), depth + 1),
        ),
        Command::Blend(inner, _) => deepest(inner, inner.commands@.len(), depth + 1),
        _ => depth,
    }
}

/// How deep the first `count` commands of a list are nested, where the list
/// lies at `depth`.
pub open spec fn deepest(list: CommandList, count: nat, depth: nat) -> nat
    decreases list, count,
{
    if count == 0 || count > list.commands@.len() {
        depth
    } else {
        higher(deepest(list, (count - 1) as nat, depth), reach(list.commands@[count - 1], depth))
    }
}

/// The rectangle around everything that a command draws, where anything is
/// known of it.
pub open spec fn covered(command: Command) -> Option<Rect>
    decreases command, 0nat,
{
    match command {
        Command::RenderAlphaMask { maskee_commands, mask_commands } => screen::combined(
            extent(maskee_commands, maskee_commands.commands@.len()),
            extent(mask_commands, mask_commands.commands@.len()),
        ),
        Command::Blend(inner, _) => extent(inner, inner.commands@.len()),
        _ => match placement(command) {
            Some(at) => Some(at.rect),
            None => None,
        },
    }
}

/// The rectangle around everything that the first `count` commands of a list
/// draw.
pub open spec fn extent(list: CommandList, count: nat) -> Option<Rect>
    decreases list, count,
{
    if count == 0 || count > list.commands@.len() {
        None
    } else {
        screen::combined(extent(list, (count - 1) as nat), covered(list.commands@[count - 1]))
    }
}

/// How a blend is called.
pub open spec fn blend_kind(mode: BlendMode) -> &'static str {
    match mode {
        BlendMode::Layer => "blend_layer",
        BlendMode::Alpha => "blend_alpha_erase",
        BlendMode::Erase => "blend_alpha_erase",
        BlendMode::Other => "blend",
        BlendMode::Shader => "blend_shader",
    }
}

/// The subtree, where anything is known of where it lands.
pub open spec fn hot_tree(rect: Option<Rect>, kind: &'static str) -> Seq<Hot> {
    match rect {
        Some(rect) => seq![Hot { rect, kind }],
        None => Seq::empty(),
    }
}

/// The costly subtrees of a command, each behind those inside it.
pub open spec fn hot_inside(command: Command) -> Seq<Hot>
    decreases command, 0nat,
{
    match command {
        Command::RenderAlphaMask { maskee_commands, mask_commands } => hot_trees(
            maskee_commands,
            maskee_commands.commands@.len(),
        ) + hot_trees(mask_commands, mask_commands.commands@.len()) + hot_tree(
            covered(command),
            "alpha_mask",
        ),
        Command::Blend(inner, mode) => hot_trees(inner, inner.commands@.len()) + hot_tree(
            covered(command),
            blend_kind(mode),
        ),
        _ => Seq::empty(),
    }
}

/// The costly subtrees among the first `count` commands of a list, in order.
pub open spec fn hot_trees(list: CommandList, count: nat) -> Seq<Hot>
    decreases list, count,
{
    if count == 0 || count > list.commands@.len() {
        Seq::empty()
    } else {
        hot_trees(list, (count - 1) as nat) + hot_inside(list.commands@[count - 1])
    }
}

/// `before` and as much of `more` as there is room for.
pub open spec fn capped(before: Seq<Hot>, more: Seq<Hot>) -> Seq<Hot> {
    if before.len() >= MAX_HOT_RECTS {
        before
    } else if before.len() + more.len() <= MAX_HOT_RECTS {
        before + more
    } else {
        before + more.take(MAX_HOT_RECTS - before.len())
    }
}

// ---------------------------------------------------------------------
// The breakdown.
// ---------------------------------------------------------------------

/// Per-frame breakdown of the command tree. Blends and alpha masks are the
/// interesting part: each costs intermediate textures as large as the target.
pub struct CommandStats {
    pub shapes: u32,
    pub bitmaps: u32,
    pub rects: u32,
    pub stencil_masks: u32,
    pub alpha_masks: u32,
    pub blend_layer: u32,
    pub blend_alpha_erase: u32,
    pub blend_complex: u32,
    pub blend_shader: u32,
    pub max_depth: u32,
}

impl Default for CommandStats {
    /// Nothing counted yet.
    fn default() -> (stats: Self)
        ensures
            stats == (CommandStats {
                shapes: 0,
                bitmaps: 0,
                rects: 0,
                stencil_masks: 0,
                alpha_masks: 0,
                blend_layer: 0,
                blend_alpha_erase: 0,
                blend_complex: 0,
                blend_shader: 0,
                max_depth: 0,
            }),
    {
        CommandStats {
            shapes: 0,
            bitmaps: 0,
            rects: 0,
            stencil_masks: 0,
            alpha_masks: 0,
            blend_layer: 0,
            blend_alpha_erase: 0,
            blend_complex: 0,
            blend_shader: 0,
            max_depth: 0,
        }
    }
}

/// The breakdown as object members.
pub open spec fn stat_parts(stats: CommandStats) -> Seq<Seq<char>> {
    seq![
        json::member("shapes"@, text::decimal(stats.shapes as nat)),
        json::member("bitmaps"@, text::decimal(stats.bitmaps as nat)),
        json::member("rects"@, text::decimal(stats.rects as nat)),
        json::member("stencil_masks"@, text::decimal(stats.stencil_masks as nat)),
        json::member("alpha_masks"@, text::decimal(stats.alpha_masks as nat)),
        json::member("blend_layer"@, text::decimal(stats.blend_layer as nat)),
        json::member("blend_alpha_erase"@, text::decimal(stats.blend_alpha_erase as nat)),
        json::member("blend_complex"@, text::decimal(stats.blend_complex as nat)),
        json::member("blend_shader"@, text::decimal(stats.blend_shader as nat)),
        json::member("max_depth"@, text::decimal(stats.max_depth as nat)),
    ]
}

impl CommandStats {
    /// The breakdown as JSON object members, without braces.
    pub fn json_fields(&self) -> (out: String)
        ensures
            out@ == text::listed(stat_parts(*self)),
    {
        let mut members: json::Parts = json::Parts::new();
        members.number("shapes", self.shapes as u64);
        members.number("bitmaps", self.bitmaps as u64);
        members.number("rects", self.rects as u64);
        members.number("stencil_masks", self.stencil_masks as u64);
        members.number("alpha_masks", self.alpha_masks as u64);
        members.number("blend_layer", self.blend_layer as u64);
        members.number("blend_alpha_erase", self.blend_alpha_erase as u64);
        members.number("blend_complex", self.blend_complex as u64);
        members.number("blend_shader", self.blend_shader as u64);
        members.number("max_depth", self.max_depth as u64);
        assert(members.parts() =~= stat_parts(*self));
        members.into_text()
    }
}

// ---------------------------------------------------------------------
// The walk.
// ---------------------------------------------------------------------

/// A walk over the command tree of one frame.
pub struct CommandWalk {
    pub stats: CommandStats,
    pub grid: ScreenGrid,
}

impl CommandWalk {
    /// What has been counted so far.
    pub open spec fn counted(self, measure: Measure) -> u32 {
        match measure {
            Measure::Shapes => self.stats.shapes,
            Measure::Bitmaps => self.stats.bitmaps,
            Measure::Rects => self.stats.rects,
            Measure::StencilMasks => self.stats.stencil_masks,
            Measure::AlphaMasks => self.stats.alpha_masks,
            Measure::BlendLayer => self.stats.blend_layer,
            Measure::BlendAlphaErase => self.stats.blend_alpha_erase,
            Measure::BlendComplex => self.stats.blend_complex,
            Measure::BlendShader => self.stats.blend_shader,
            Measure::Draws(cell) => self.grid.draws@[cell as int],
            Measure::Heavy(cell) => self.grid.heavy@[cell as int],
        }
    }

    /// A walk that has not begun.
    pub fn new() -> (walk: CommandWalk)
        ensures
            forall|m: Measure| is_measure(m) ==> #[trigger] walk.counted(m) == 0,
            walk.stats.max_depth == 0,
            walk.grid.hot@.len() == 0,
    {
        CommandWalk { stats: CommandStats::default(), grid: ScreenGrid::new() }
    }

    /// Remembers a costly subtree, unless there are enough of them.
    fn remember(&mut self, sub: Option<Rect>, kind: &'static str)
        ensures
            final(self).stats == old(self).stats,
            final(self).grid.draws@ == old(self).grid.draws@,
            final(self).grid.heavy@ == old(self).grid.heavy@,
            final(self).grid.hot@ == capped(old(self).grid.hot@, hot_tree(sub, kind)),
    {
        if let Some(rect) = sub {
            if self.grid.hot.len() < MAX_HOT_RECTS {
                self.grid.hot.push(Hot { rect, kind });
            }
        }
        assert(self.grid.hot@ =~= capped(old(self).grid.hot@, hot_tree(sub, kind)));
    }

    /// Counts a command that draws at this place, where it is known.
    fn draw(&mut self, at: &Option<Placement>, heavy: bool) -> (rect: Option<Rect>)
        requires
            forall|m: Measure|
                is_measure(m) && draws(*at, heavy, m) ==> #[trigger] old(self).counted(m) < u32::MAX,
        ensures
            final(self).stats == old(self).stats,
            final(self).grid.hot@ == old(self).grid.hot@,
            forall|m: Measure|
                is_measure(m) ==> #[trigger] final(self).counted(m) == old(self).counted(m)
                    + screen::once(draws(*at, heavy, m)),
            rect == match *at {
                Some(at) => Some(at.rect),
                None => None,
            },
    {
        match at {
            Some(at) => {
                proof {
                    assert forall|c: int| 0 <= c < GRID_CELLS && #[trigger] screen::covers(*at, c) implies
                        self.grid.draws@[c] < u32::MAX && (heavy ==> self.grid.heavy@[c]
                        < u32::MAX) by {
                        assert(self.counted(Measure::Draws(c as usize)) == self.grid.draws@[c]);
                        assert(self.counted(Measure::Heavy(c as usize)) == self.grid.heavy@[c]);
                    }
                }
                self.grid.add_rect(*at, heavy);
                Some(at.rect)
            },
            None => None,
        }
    }

    /// Walks a list of commands at `depth`; `heavy` tells that it lies in a
    /// blend or alpha-mask subtree. Returns the rectangle around everything
    /// that the list draws.
    pub fn walk(&mut self, list: &CommandList, depth: u32, heavy: bool) -> (union: Option<Rect>)
        requires
            forall|m: Measure|
                is_measure(m) ==> #[trigger] old(self).counted(m) + total(
                    *list,
                    list.commands@.len(),
                    heavy,
                    m,
                ) <= u32::MAX,
            deepest(*list, list.commands@.len(), depth as nat) <= u32::MAX,
        ensures
            forall|m: Measure|
                is_measure(m) ==> #[trigger] final(self).counted(m) == old(self).counted(m) + total(
                    *list,
                    list.commands@.len(),
                    heavy,
                    m,
                ),
            final(self).stats.max_depth == higher(
                old(self).stats.max_depth as nat,
                deepest(*list, list.commands@.len(), depth as nat),
            ),
            final(self).grid.hot@ == capped(
                old(self).grid.hot@,
                hot_trees(*list, list.commands@.len()),
            ),
            union == extent(*list, list.commands@.len()),
        decreases list, 0nat,
    {
        let ghost len = list.commands@.len();
        if depth > self.stats.max_depth {
            self.stats.max_depth = depth;
        }
        let mut union: Option<Rect> = None;
        let mut i: usize = 0;
        proof {
            assert(self.grid.hot@ =~= capped(old(self).grid.hot@, hot_trees(*list, 0)));
            assert forall|m: Measure| is_measure(m) implies #[trigger] self.counted(m) == old(
                self,
            ).counted(m) by {}
        }
        while i < list.commands.len()
            invariant
                i <= len,
                len == list.commands@.len(),
                forall|m: Measure|
                    is_measure(m) ==> #[trigger] old(self).counted(m) + total(*list, len, heavy, m)
                        <= u32::MAX,
                deepest(*list, len, depth as nat) <= u32::MAX,
                forall|m: Measure|
                    is_measure(m) ==> #[trigger] self.counted(m) == old(self).counted(m) + total(
                        *list,
                        i as nat,
                        heavy,
                        m,
                    ),
                self.stats.max_depth == higher(
                    old(self).stats.max_depth as nat,
                    deepest(*list, i as nat, depth as nat),
                ),
                self.grid.hot@ == capped(old(self).grid.hot@, hot_trees(*list, i as nat)),
                union == extent(*list, i as nat),
            decreases len - i,
        {
            let ghost next = (i + 1) as nat;
            proof {
                assert forall|m: Measure| is_measure(m) implies #[trigger] self.counted(m) + share(
                    list.commands@[i as int],
                    heavy,
                    m,
                ) <= u32::MAX by {
                    lemma_total_grows(*list, next, len, heavy, m);
                    assert(old(self).counted(m) + total(*list, len, heavy, m) <= u32::MAX);
                }
                lemma_deepest_grows(*list, next, len, depth as nat);
                lemma_deepest_grows(*list, i as nat, next, depth as nat);
                lemma_capped(
                    old(self).grid.hot@,
                    hot_trees(*list, i as nat),
                    hot_inside(list.commands@[i as int]),
                );
            }
            if let Some(rect) = self.step(&list.commands[i], depth, heavy) {
                screen::union_into(&mut union, rect);
            }
            i += 1;
        }
        union
    }

    /// Walks one command at `depth`.
    fn step(&mut self, command: &Command, depth: u32, heavy: bool) -> (union: Option<Rect>)
        requires
            forall|m: Measure|
                is_measure(m) ==> #[trigger] old(self).counted(m) + share(*command, heavy, m)
                    <= u32::MAX,
            reach(*command, depth as nat) <= u32::MAX,
            depth <= old(self).stats.max_depth,
        ensures
            forall|m: Measure|
                is_measure(m) ==> #[trigger] final(self).counted(m) == old(self).counted(m) + share(
                    *command,
                    heavy,
                    m,
                ),
            final(self).stats.max_depth == higher(
                old(self).stats.max_depth as nat,
                reach(*command, depth as nat),
            ),
            final(self).grid.hot@ == capped(old(self).grid.hot@, hot_inside(*command)),
            union == covered(*command),
        decreases command, 0nat,
    {
        let ghost before = *self;
        proof {
            assert(capped(before.grid.hot@, Seq::empty()) =~= before.grid.hot@);
            assert forall|m: Measure| is_measure(m) && is_kind(*command, m) implies
                #[trigger] self.counted(m) < u32::MAX by {
                assert(before.counted(m) + share(*command, heavy, m) <= u32::MAX);
            }
        }
        self.tally(command);
        let ghost tallied = *self;
        match command {
            Command::RenderShape(at)
            | Command::RenderBitmap(at)
            | Command::RenderStage3D(at)
            | Command::DrawRect(at)
            | Command::DrawLine(at)
            | Command::DrawLineRect(at) => {
                proof {
                    assert forall|m: Measure| is_measure(m) && draws(*at, heavy, m) implies
                        #[trigger] self.counted(m) < u32::MAX by {
                        assert(counts(*command, heavy, m));
                        assert(before.counted(m) + share(*command, heavy, m) <= u32::MAX);
                    }
                }
                self.draw(at, heavy)
            },
            Command::RenderAlphaMask { maskee_commands, mask_commands } => {
                let ghost maskee_len = maskee_commands.commands@.len();
                let ghost mask_len = mask_commands.commands@.len();
                let ghost maskee_hot = hot_trees(*maskee_commands, maskee_len);
                let ghost mask_hot = hot_trees(*mask_commands, mask_len);
                proof {
                    lemma_deepest_grows(*maskee_commands, 0, maskee_len, (depth + 1) as nat);
                    lemma_capped(before.grid.hot@, maskee_hot, mask_hot);
                    lemma_capped(
                        before.grid.hot@,
                        maskee_hot + mask_hot,
                        hot_tree(covered(*command), "alpha_mask"),
                    );
                    assert forall|m: Measure| is_measure(m) implies #[trigger] self.counted(m)
                        + total(*maskee_commands, maskee_len, true, m) + total(
                        *mask_commands,
                        mask_len,
                        true,
                        m,
                    ) <= u32::MAX by {
                        assert(before.counted(m) + share(*command, heavy, m) <= u32::MAX);
                    }
                }
                let mut sub: Option<Rect> = self.walk(maskee_commands, depth + 1, true);
                let ghost walked = *self;
                proof {
                    assert forall|m: Measure| is_measure(m) implies #[trigger] self.counted(m)
                        + total(*mask_commands, mask_len, true, m) <= u32::MAX by {
                        assert(tallied.counted(m) + total(*maskee_commands, maskee_len, true, m)
                            + total(*mask_commands, mask_len, true, m) <= u32::MAX);
                    }
                }
                if let Some(rect) = self.walk(mask_commands, depth + 1, true) {
                    screen::union_into(&mut sub, rect);
                }
                let ghost both = *self;
                self.remember(sub, "alpha_mask");
                proof {
                    assert forall|m: Measure| is_measure(m) implies #[trigger] self.counted(m)
                        == before.counted(m) + share(*command, heavy, m) by {
                        assert(self.counted(m) == both.counted(m));
                        assert(walked.counted(m) == tallied.counted(m) + total(
                            *maskee_commands,
                            maskee_len,
                            true,
                            m,
                        ));
                        assert(tallied.counted(m) == before.counted(m) + screen::once(
                            is_kind(*command, m),
                        ));
                    }
                }
                sub
            },
            Command::Blend(inner, mode) => {
                let kind: &'static str = blend_name(*mode);
                let ghost len = inner.commands@.len();
                proof {
                    lemma_deepest_grows(*inner, 0, len, (depth + 1) as nat);
                    lemma_capped(
                        before.grid.hot@,
                        hot_trees(*inner, len),
                        hot_tree(covered(*command), kind),
                    );
                    assert forall|m: Measure| is_measure(m) implies #[trigger] self.counted(m)
                        + total(*inner, len, true, m) <= u32::MAX by {
                        assert(before.counted(m) + share(*command, heavy, m) <= u32::MAX);
                    }
                }
                let sub: Option<Rect> = self.walk(inner, depth + 1, true);
                let ghost walked = *self;
                self.remember(sub, kind);
                proof {
                    assert forall|m: Measure| is_measure(m) implies #[trigger] self.counted(m)
                        == before.counted(m) + share(*command, heavy, m) by {
                        assert(self.counted(m) == walked.counted(m));
                        assert(tallied.counted(m) == before.counted(m) + screen::once(
                            is_kind(*command, m),
                        ));
                    }
                }
                sub
            },
            _ => None,
        }
    }

    /// Counts a command by its kind.
    fn tally(&mut self, command: &Command)
        requires
            forall|m: Measure|
                is_measure(m) && is_kind(*command, m) ==> #[trigger] old(self).counted(m)
                    < u32::MAX,
        ensures
            final(self).grid == old(self).grid,
            final(self).stats.max_depth == old(self).stats.max_depth,
            forall|m: Measure|
                is_measure(m) ==> #[trigger] final(self).counted(m) == old(self).counted(m)
                    + screen::once(is_kind(*command, m)),
    {
        let ghost before = *self;
        match command {
            Command::RenderShape(_) => {
                assert(before.counted(Measure::Shapes) < u32::MAX);
                self.stats.shapes += 1;
            },
            Command::RenderBitmap(_) | Command::RenderStage3D(_) => {
                assert(before.counted(Measure::Bitmaps) < u32::MAX);
                self.stats.bitmaps += 1;
            },
            Command::DrawRect(_) | Command::DrawLine(_) | Command::DrawLineRect(_) => {
                assert(before.counted(Measure::Rects) < u32::MAX);
                self.stats.rects += 1;
            },
            Command::PushMask => {
                assert(before.counted(Measure::StencilMasks) < u32::MAX);
                self.stats.stencil_masks += 1;
            },
            Command::ActivateMask | Command::DeactivateMask | Command::PopMask => {},
            Command::RenderAlphaMask { .. } => {
                assert(before.counted(Measure::AlphaMasks) < u32::MAX);
                self.stats.alpha_masks += 1;
            },
            Command::Blend(_, BlendMode::Layer) => {
                assert(before.counted(Measure::BlendLayer) < u32::MAX);
                self.stats.blend_layer += 1;
            },
            Command::Blend(_, BlendMode::Alpha | BlendMode::Erase) => {
                assert(before.counted(Measure::BlendAlphaErase) < u32::MAX);
                self.stats.blend_alpha_erase += 1;
            },
            Command::Blend(_, BlendMode::Other) => {
                assert(before.counted(Measure::BlendComplex) < u32::MAX);
                self.stats.blend_complex += 1;
            },
            Command::Blend(_, BlendMode::Shader) => {
                assert(before.counted(Measure::BlendShader) < u32::MAX);
                self.stats.blend_shader += 1;
            },
        }
    }
}

/// How a blend is called.
fn blend_name(mode: BlendMode) -> (name: &'static str)
    ensures
        name == blend_kind(mode),
{
    match mode {
        BlendMode::Layer => "blend_layer",
        BlendMode::Alpha | BlendMode::Erase => "blend_alpha_erase",
        BlendMode::Other => "blend",
        BlendMode::Shader => "blend_shader",
    }
}

/// Whether a command that draws at this place counts.
spec fn draws(at: Option<Placement>, heavy: bool, measure: Measure) -> bool {
    match measure {
        Measure::Draws(cell) => at matches Some(at) && screen::covers(at, cell as int),
        Measure::Heavy(cell) => heavy && (at matches Some(at) && screen::covers(at, cell as int)),
        _ => false,
    }
}

proof fn lemma_total_grows(list: CommandList, a: nat, b: nat, heavy: bool, measure: Measure)
    requires
        a <= b <= list.commands@.len(),
    ensures
        total(list, a, heavy, measure) <= total(list, b, heavy, measure),
    decreases b,
{
    if a < b {
        lemma_total_grows(list, a, (b - 1) as nat, heavy, measure);
    }
}

proof fn lemma_deepest_grows(list: CommandList, a: nat, b: nat, depth: nat)
    requires
        a <= b <= list.commands@.len(),
    ensures
        depth <= deepest(list, a, depth) <= deepest(list, b, depth),
    decreases b,
{
    if a < b {
        lemma_deepest_grows(list, a, (b - 1) as nat, depth);
    } else if b > 0 {
        lemma_deepest_grows(list, (a - 1) as nat, (b - 1) as nat, depth);
    }
}

proof fn lemma_capped(before: Seq<Hot>, a: Seq<Hot>, b: Seq<Hot>)
    ensures
        capped(capped(before, a), b) == capped(before, a + b),
{
    assert(capped(capped(before, a), b) =~= capped(before, a + b));
}

} // verus!
