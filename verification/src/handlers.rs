//! Cached presence of `onXxx` event handler methods on movie clips.
//!
//! Dispatching a clip event to every movie clip of the display list resolves
//! the method's name through each prototype chain, and nearly every time in
//! vain. Instead every clip remembers whether it has the handler, tagged with
//! a version of that name. The version is bumped whenever an object that
//! others inherit from gains or loses a property with that name, or has its
//! `__proto__` reassigned, and a clip forgets its own answer when that happens
//! to itself. So a remembered answer is exactly what a lookup would give.

use vstd::prelude::*;

verus! {

/// The handler methods whose presence is cached.
#[derive(Clone, Copy, Debug, PartialEq, Eq, Structural)]
pub enum Handler {
    EnterFrame,
    MouseMove,
    MouseDown,
    MouseUp,
    KeyDown,
    KeyUp,
    Press,
    Release,
    ReleaseOutside,
    RollOver,
    RollOut,
    DragOver,
    DragOut,
    Load,
    Unload,
}

/// The events that are dispatched to clips.
#[derive(Clone, Copy, Debug, PartialEq, Eq, Structural)]
pub enum ClipEvent {
    EnterFrame,
    MouseMove,
    MouseDown,
    MouseUp,
    KeyDown,
    KeyUp,
    Press,
    Release,
    ReleaseOutside,
    RollOver,
    RollOut,
    DragOver,
    DragOut,
    Load,
    Unload,
    /// Any other event.
    Other,
}

/// Text in UTF-16 code units. `folded` holds the same units in lower case, as
/// the player folds case.
pub struct WStr {
    pub units: Vec<u16>,
    pub folded: Vec<u16>,
}

/// The unit in lower case, where it is a Latin letter.
pub open spec fn lower(unit: nat) -> nat {
    if 65 <= unit <= 90 {
        unit + 32
    } else {
        unit
    }
}

/// The text is this name, up to case.
pub open spec fn is_same(text: WStr, name: Seq<char>) -> bool {
    &&& text.folded@.len() == name.len()
    &&& forall|i: int|
        0 <= i < name.len() ==> #[trigger] text.folded@[i] as nat == lower(name[i] as nat)
}

/// The folded text stands for the text: unit for unit, and no other unit than
/// these letters folds to `o` or `n`.
pub open spec fn is_faithful(text: WStr) -> bool {
    &&& text.folded@.len() == text.units@.len()
    &&& forall|i: int|
        0 <= i < text.folded@.len() ==> {
            &&& #[trigger] text.folded@[i] == 111 ==> text.units@[i] == 79 || text.units@[i] == 111
            &&& text.folded@[i] == 110 ==> text.units@[i] == 78 || text.units@[i] == 110
        }
}

/// The text begins with `on`, up to case, and goes on.
pub open spec fn is_on(text: WStr) -> bool {
    &&& text.units@.len() >= 3
    &&& text.units@[0] == 79 || text.units@[0] == 111
    &&& text.units@[1] == 78 || text.units@[1] == 110
}

fn lowered(unit: u32) -> (r: u32)
    ensures
        r == lower(unit as nat),
{
    if 65 <= unit && unit <= 90 {
        unit + 32
    } else {
        unit
    }
}

impl WStr {
    /// The text with these characters, all of them ASCII.
    pub fn from_units(units: &[u8]) -> (text: WStr)
        requires
            forall|i: int| 0 <= i < units@.len() ==> #[trigger] units@[i] < 128,
        ensures
            text.units@ == units@.map_values(|b: u8| b as u16),
            text.folded@ == units@.map_values(|b: u8| lower(b as nat) as u16),
            is_faithful(text),
    {
        let mut plain: Vec<u16> = Vec::new();
        let mut folded: Vec<u16> = Vec::new();
        let mut i: usize = 0;
        while i < units.len()
            invariant
                i <= units@.len(),
                forall|k: int| 0 <= k < units@.len() ==> #[trigger] units@[k] < 128,
                plain@ == units@.map_values(|b: u8| b as u16).take(i as int),
                folded@ == units@.map_values(|b: u8| lower(b as nat) as u16).take(i as int),
            decreases units@.len() - i,
        {
            let unit: u8 = units[i];
            assert(units@[i as int] < 128);
            plain.push(unit as u16);
            folded.push(lowered(unit as u32) as u16);
            i += 1;
            assert(plain@ =~= units@.map_values(|b: u8| b as u16).take(i as int));
            assert(folded@ =~= units@.map_values(|b: u8| lower(b as nat) as u16).take(i as int));
        }
        assert(plain@ =~= units@.map_values(|b: u8| b as u16));
        assert(folded@ =~= units@.map_values(|b: u8| lower(b as nat) as u16));
        WStr { units: plain, folded }
    }

    /// Whether the text is this name, up to case.
    pub fn eq_ignore_case(&self, name: &str) -> (same: bool)
        ensures
            same == is_same(*self, name@),
    {
        let len: usize = name.unicode_len();
        if self.folded.len() != len {
            return false;
        }
        let mut i: usize = 0;
        while i < len
            invariant
                i <= len,
                len == name@.len(),
                len == self.folded@.len(),
                forall|k: int|
                    0 <= k < i ==> #[trigger] self.folded@[k] as nat == lower(name@[k] as nat),
            decreases len - i,
        {
            if self.folded[i] as u32 != lowered(name.get_char(i) as u32) {
                return false;
            }
            i += 1;
        }
        true
    }
}

impl Handler {
    pub const COUNT: usize = 15;

    pub const ALL: [Handler; 15] = [
        Handler::EnterFrame,
        Handler::MouseMove,
        Handler::MouseDown,
        Handler::MouseUp,
        Handler::KeyDown,
        Handler::KeyUp,
        Handler::Press,
        Handler::Release,
        Handler::ReleaseOutside,
        Handler::RollOver,
        Handler::RollOut,
        Handler::DragOver,
        Handler::DragOut,
        Handler::Load,
        Handler::Unload,
    ];

    /// The handlers that put a movie clip into button mode.
    pub const BUTTON: [Handler; 7] = [
        Handler::DragOver,
        Handler::DragOut,
        Handler::Press,
        Handler::Release,
        Handler::ReleaseOutside,
        Handler::RollOut,
        Handler::RollOver,
    ];

    /// The place of the handler among all of them.
    pub open spec fn position(self) -> int {
        match self {
            Handler::EnterFrame => 0,
            Handler::MouseMove => 1,
            Handler::MouseDown => 2,
            Handler::MouseUp => 3,
            Handler::KeyDown => 4,
            Handler::KeyUp => 5,
            Handler::Press => 6,
            Handler::Release => 7,
            Handler::ReleaseOutside => 8,
            Handler::RollOver => 9,
            Handler::RollOut => 10,
            Handler::DragOver => 11,
            Handler::DragOut => 12,
            Handler::Load => 13,
            Handler::Unload => 14,
        }
    }

    /// The method name.
    pub open spec fn method(self) -> &'static str {
        match self {
            Handler::EnterFrame => "onEnterFrame",
            Handler::MouseMove => "onMouseMove",
            Handler::MouseDown => "onMouseDown",
            Handler::MouseUp => "onMouseUp",
            Handler::KeyDown => "onKeyDown",
            Handler::KeyUp => "onKeyUp",
            Handler::Press => "onPress",
            Handler::Release => "onRelease",
            Handler::ReleaseOutside => "onReleaseOutside",
            Handler::RollOver => "onRollOver",
            Handler::RollOut => "onRollOut",
            Handler::DragOver => "onDragOver",
            Handler::DragOut => "onDragOut",
            Handler::Load => "onLoad",
            Handler::Unload => "onUnload",
        }
    }

    fn index(self) -> (i: usize)
        ensures
            i == self.position(),
            i < 15,
    {
        match self {
            Handler::EnterFrame => 0,
            Handler::MouseMove => 1,
            Handler::MouseDown => 2,
            Handler::MouseUp => 3,
            Handler::KeyDown => 4,
            Handler::KeyUp => 5,
            Handler::Press => 6,
            Handler::Release => 7,
            Handler::ReleaseOutside => 8,
            Handler::RollOver => 9,
            Handler::RollOut => 10,
            Handler::DragOver => 11,
            Handler::DragOut => 12,
            Handler::Load => 13,
            Handler::Unload => 14,
        }
    }

    /// The method name, e.g. `onEnterFrame`.
    pub fn name(self) -> (name: &'static str)
        ensures
            name == self.method(),
    {
        match self {
            Handler::EnterFrame => "onEnterFrame",
            Handler::MouseMove => "onMouseMove",
            Handler::MouseDown => "onMouseDown",
            Handler::MouseUp => "onMouseUp",
            Handler::KeyDown => "onKeyDown",
            Handler::KeyUp => "onKeyUp",
            Handler::Press => "onPress",
            Handler::Release => "onRelease",
            Handler::ReleaseOutside => "onReleaseOutside",
            Handler::RollOver => "onRollOver",
            Handler::RollOut => "onRollOut",
            Handler::DragOver => "onDragOver",
            Handler::DragOut => "onDragOut",
            Handler::Load => "onLoad",
            Handler::Unload => "onUnload",
        }
    }

    /// The handler whose method the event dispatches to, if it is one of the
    /// cached ones.
    pub open spec fn of_event(event: ClipEvent) -> Option<Handler> {
        match event {
            ClipEvent::EnterFrame => Some(Handler::EnterFrame),
            ClipEvent::MouseMove => Some(Handler::MouseMove),
            ClipEvent::MouseDown => Some(Handler::MouseDown),
            ClipEvent::MouseUp => Some(Handler::MouseUp),
            ClipEvent::KeyDown => Some(Handler::KeyDown),
            ClipEvent::KeyUp => Some(Handler::KeyUp),
            ClipEvent::Press => Some(Handler::Press),
            ClipEvent::Release => Some(Handler::Release),
            ClipEvent::ReleaseOutside => Some(Handler::ReleaseOutside),
            ClipEvent::RollOver => Some(Handler::RollOver),
            ClipEvent::RollOut => Some(Handler::RollOut),
            ClipEvent::DragOver => Some(Handler::DragOver),
            ClipEvent::DragOut => Some(Handler::DragOut),
            ClipEvent::Load => Some(Handler::Load),
            ClipEvent::Unload => Some(Handler::Unload),
            ClipEvent::Other => None,
        }
    }

    /// The handler whose method `event` dispatches to, if it is one of the
    /// cached ones.
    pub fn for_event(event: ClipEvent) -> (handler: Option<Handler>)
        ensures
            handler == Handler::of_event(event),
    {
        match event {
            ClipEvent::EnterFrame => Some(Handler::EnterFrame),
            ClipEvent::MouseMove => Some(Handler::MouseMove),
            ClipEvent::MouseDown => Some(Handler::MouseDown),
            ClipEvent::MouseUp => Some(Handler::MouseUp),
            ClipEvent::KeyDown => Some(Handler::KeyDown),
            ClipEvent::KeyUp => Some(Handler::KeyUp),
            ClipEvent::Press => Some(Handler::Press),
            ClipEvent::Release => Some(Handler::Release),
            ClipEvent::ReleaseOutside => Some(Handler::ReleaseOutside),
            ClipEvent::RollOver => Some(Handler::RollOver),
            ClipEvent::RollOut => Some(Handler::RollOut),
            ClipEvent::DragOver => Some(Handler::DragOver),
            ClipEvent::DragOut => Some(Handler::DragOut),
            ClipEvent::Load => Some(Handler::Load),
            ClipEvent::Unload => Some(Handler::Unload),
            ClipEvent::Other => None,
        }
    }

    /// The text is the name of this handler's method, up to case.
    pub open spec fn is_named(self, text: WStr) -> bool {
        is_on(text) && is_same(text, self.method()@)
    }

    /// The handler with this method name, if there is one.
    pub open spec fn named(text: WStr) -> Option<Handler> {
        if exists|h: Handler| h.is_named(text) {
            Some(choose|h: Handler| h.is_named(text))
        } else {
            None
        }
    }

    /// The handler with method name `name`, whatever its case.
    pub fn from_name(name: &WStr) -> (handler: Option<Handler>)
        ensures
            handler == Handler::named(*name),
    {
        // Every cached name starts with "on"; skip the comparisons for
        // everything else.
        if name.units.len() < 3 || (name.units[0] | 0x20) != 111 || (name.units[1] | 0x20) != 110 {
            proof {
                if name.units@.len() >= 3 {
                    lemma_case_bit(name.units@[0], name.units@[1]);
                }
                assert(!is_on(*name));
            }
            return None;
        }
        proof {
            lemma_case_bit(name.units@[0], name.units@[1]);
        }
        let mut i: usize = 0;
        while i < Handler::COUNT
            invariant
                i <= Handler::COUNT,
                is_on(*name),
                forall|k: int| 0 <= k < i ==> !(#[trigger] Handler::ALL@[k]).is_named(*name),
            decreases Handler::COUNT - i,
        {
            let handler: Handler = Handler::ALL[i];
            if name.eq_ignore_case(handler.name()) {
                proof {
                    assert(handler.is_named(*name));
                    let found = choose|h: Handler| h.is_named(*name);
                    lemma_names_differ(*name, handler, found);
                }
                return Some(handler);
            }
            assert(!Handler::ALL@[i as int].is_named(*name));
            i += 1;
        }
        proof {
            assert forall|h: Handler| !h.is_named(*name) by {
                assert(Handler::ALL@[h.position()] == h);
            }
        }
        None
    }
}

proof fn lemma_case_bit(a: u16, b: u16)
    ensures
        (a | 0x20) == 111 <==> (a == 79 || a == 111),
        (b | 0x20) == 110 <==> (b == 78 || b == 110),
{
    assert((a | 0x20) == 111 <==> (a == 79 || a == 111)) by (bit_vector);
    assert((b | 0x20) == 110 <==> (b == 78 || b == 110)) by (bit_vector);
}

proof fn lemma_names_begin_with_on(handler: Handler)
    ensures
        handler.method()@.len() >= 3,
        handler.method()@[0] == 'o',
        handler.method()@[1] == 'n',
{
    reveal_strlit("onEnterFrame");
    reveal_strlit("onMouseMove");
    reveal_strlit("onMouseDown");
    reveal_strlit("onMouseUp");
    reveal_strlit("onKeyDown");
    reveal_strlit("onKeyUp");
    reveal_strlit("onPress");
    reveal_strlit("onRelease");
    reveal_strlit("onReleaseOutside");
    reveal_strlit("onRollOver");
    reveal_strlit("onRollOut");
    reveal_strlit("onDragOver");
    reveal_strlit("onDragOut");
    reveal_strlit("onLoad");
    reveal_strlit("onUnload");
}

proof fn lemma_names_differ(text: WStr, a: Handler, b: Handler)
    requires
        a.is_named(text),
        b.is_named(text),
    ensures
        a == b,
{
    reveal_strlit("onEnterFrame");
    reveal_strlit("onMouseMove");
    reveal_strlit("onMouseDown");
    reveal_strlit("onMouseUp");
    reveal_strlit("onKeyDown");
    reveal_strlit("onKeyUp");
    reveal_strlit("onPress");
    reveal_strlit("onRelease");
    reveal_strlit("onReleaseOutside");
    reveal_strlit("onRollOver");
    reveal_strlit("onRollOut");
    reveal_strlit("onDragOver");
    reveal_strlit("onDragOut");
    reveal_strlit("onLoad");
    reveal_strlit("onUnload");
    assert(a.method()@.len() == b.method()@.len());
    assert(lower(a.method()@[2] as nat) == text.folded@[2] as nat);
    assert(lower(b.method()@[2] as nat) == text.folded@[2] as nat);
    assert(lower(a.method()@[3] as nat) == text.folded@[3] as nat);
    assert(lower(b.method()@[3] as nat) == text.folded@[3] as nat);
    if text.folded@.len() > 7 {
        assert(lower(a.method()@[7] as nat) == text.folded@[7] as nat);
        assert(lower(b.method()@[7] as nat) == text.folded@[7] as nat);
    }
}

// ---------------------------------------------------------------------
// Remembered answers.
// ---------------------------------------------------------------------

/// A version for each name. A clip's remembered answer for a name is valid
/// while the version that it was computed at is still current.
pub struct Versions(pub [u32; 15]);

/// A movie clip's remembered answers.
#[derive(Clone, Copy, Debug)]
pub struct HandlerCache {
    pub versions: [u32; 15],
    pub present: u16,
}

/// What is known of an object: whether others inherit from it, and the
/// answers that it remembers where it is a movie clip.
pub struct Object {
    pub prototype: bool,
    pub clip: Option<HandlerCache>,
}

/// The bit of a handler is set.
pub open spec fn is_set(present: u16, handler: Handler) -> bool {
    present & (1u16 << (handler.position() as u16)) != 0
}

/// The answer that a clip remembers, where it is valid.
pub open spec fn answer(cache: HandlerCache, versions: Versions, handler: Handler) -> Option<bool> {
    if cache.versions@[handler.position()] == versions.0@[handler.position()] {
        Some(is_set(cache.present, handler))
    } else {
        None
    }
}

/// `after` is `before` but that the answer for `handler` is `present`, as of
/// `version`.
pub open spec fn sets(
    before: HandlerCache,
    after: HandlerCache,
    handler: Handler,
    present: bool,
    version: u32,
) -> bool {
    &&& after.versions@ == before.versions@.update(handler.position(), version)
    &&& forall|h: Handler|
        #![trigger is_set(after.present, h)]
        is_set(after.present, h) == if h == handler {
            present
        } else {
            is_set(before.present, h)
        }
}

/// `after` is `before` without the answer for `handler`.
pub open spec fn forgets(before: HandlerCache, after: HandlerCache, handler: Handler) -> bool {
    &&& after.versions@ == before.versions@.update(handler.position(), 0)
    &&& after.present == before.present
}

/// `after` is `before` without any answer.
pub open spec fn forgets_all(before: HandlerCache, after: HandlerCache) -> bool {
    &&& after.versions@ == Seq::new(15, |i: int| 0u32)
    &&& after.present == before.present
}

/// `after` is `before` with the version of one name bumped.
pub open spec fn bumps(before: Versions, after: Versions, handler: Handler) -> bool {
    after.0@ == before.0@.update(
        handler.position(),
        before.0@[handler.position()].wrapping_add(1),
    )
}

/// `after` is `before` with the version of every name bumped.
pub open spec fn bumps_all(before: Versions, after: Versions) -> bool {
    after.0@ == before.0@.map_values(|v: u32| v.wrapping_add(1))
}

proof fn lemma_bits(present: u16, i: u16, j: u16)
    requires
        i < 15,
        j < 15,
    ensures
        (present | (1u16 << i)) & (1u16 << j) != 0 <==> (i == j || present & (1u16 << j) != 0),
        (present & !(1u16 << i)) & (1u16 << j) != 0 <==> (i != j && present & (1u16 << j) != 0),
{
    assert((present | (1u16 << i)) & (1u16 << j) != 0 <==> (i == j || present & (1u16 << j) != 0))
        by (bit_vector)
        requires
            i < 15,
            j < 15,
    ;
    assert((present & !(1u16 << i)) & (1u16 << j) != 0 <==> (i != j && present & (1u16 << j) != 0))
        by (bit_vector)
        requires
            i < 15,
            j < 15,
    ;
}

impl Default for HandlerCache {
    /// No answers.
    fn default() -> (cache: Self)
        ensures
            cache.versions@ == Seq::new(15, |i: int| 0u32),
            cache.present == 0,
    {
        let cache: HandlerCache = HandlerCache { versions: [0; 15], present: 0 };
        assert(cache.versions@ =~= Seq::new(15, |i: int| 0u32));
        cache
    }
}

impl HandlerCache {
    /// The remembered answer for `handler`, if still valid.
    pub fn get(&self, versions: &Versions, handler: Handler) -> (present: Option<bool>)
        ensures
            present == answer(*self, *versions, handler),
    {
        let i: usize = handler.index();
        if self.versions[i] == versions.0[i] {
            Some(self.present & (1u16 << (i as u16)) != 0)
        } else {
            None
        }
    }

    /// Remembers `present` for `handler`, computed while `version` was
    /// current.
    pub fn set(&mut self, handler: Handler, present: bool, version: u32)
        ensures
            sets(*old(self), *final(self), handler, present, version),
    {
        let i: usize = handler.index();
        self.versions[i] = version;
        if present {
            self.present = self.present | (1u16 << (i as u16));
        } else {
            self.present = self.present & !(1u16 << (i as u16));
        }
        proof {
            assert forall|h: Handler|
                #![trigger is_set(self.present, h)]
                is_set(self.present, h) == if h == handler {
                    present
                } else {
                    is_set(old(self).present, h)
                } by {
                lemma_bits(old(self).present, i as u16, h.position() as u16);
                assert(Handler::ALL@[h.position()] == h);
                assert(Handler::ALL@[handler.position()] == handler);
            }
        }
    }

    /// Drops the answer for `handler`.
    pub fn forget(&mut self, handler: Handler)
        ensures
            forgets(*old(self), *final(self), handler),
    {
        self.versions[handler.index()] = 0;
    }

    /// Drops every answer.
    pub fn forget_handlers(&mut self)
        ensures
            forgets_all(*old(self), *final(self)),
    {
        self.versions = [0; 15];
        assert(self.versions@ =~= Seq::new(15, |i: int| 0u32));
    }
}

impl Versions {
    /// The first version of every name.
    pub fn new() -> (versions: Versions)
        ensures
            versions.0@ == Seq::new(15, |i: int| 1u32),
    {
        let versions: Versions = Versions([1; 15]);
        assert(versions.0@ =~= Seq::new(15, |i: int| 1u32));
        versions
    }

    fn bump(&mut self, handler: Handler)
        ensures
            bumps(*old(self), *final(self), handler),
    {
        let i: usize = handler.index();
        self.0[i] = self.0[i].wrapping_add(1);
    }
}

/// Current version of `handler`'s name.
pub fn version(versions: &Versions, handler: Handler) -> (version: u32)
    ensures
        version == versions.0@[handler.position()],
{
    versions.0[handler.index()]
}

/// Must be called when a property named `name` is added to or removed from
/// `object`. An object nobody inherits from can only change its own clip's
/// answer; a prototype may sit in any chain, so its change ages every clip's
/// answer for that name.
pub fn property_changed(versions: &mut Versions, object: &mut Object, name: &WStr)
    ensures
        final(object).prototype == old(object).prototype,
        match Handler::named(*name) {
            None => *final(versions) == *old(versions) && *final(object) == *old(object),
            Some(handler) => if old(object).prototype {
                bumps(*old(versions), *final(versions), handler) && *final(object) == *old(object)
            } else {
                *final(versions) == *old(versions) && match (old(object).clip, final(object).clip) {
                    (Some(before), Some(after)) => forgets(before, after, handler),
                    (None, None) => true,
                    _ => false,
                }
            },
        },
{
    if let Some(handler) = Handler::from_name(name) {
        if object.prototype {
            versions.bump(handler);
        } else if let Some(clip) = object.clip {
            let mut clip: HandlerCache = clip;
            clip.forget(handler);
            object.clip = Some(clip);
        }
    }
}

/// Must be called when `object`'s `__proto__` is assigned: its chain, and the
/// chain of everything inheriting from it, may have changed.
pub fn proto_changed(versions: &mut Versions, object: &mut Object)
    ensures
        final(object).prototype == old(object).prototype,
        if old(object).prototype {
            bumps_all(*old(versions), *final(versions)) && *final(object) == *old(object)
        } else {
            *final(versions) == *old(versions) && match (old(object).clip, final(object).clip) {
                (Some(before), Some(after)) => forgets_all(before, after),
                (None, None) => true,
                _ => false,
            }
        },
{
    if object.prototype {
        let ghost all = versions.0@.map_values(|v: u32| v.wrapping_add(1));
        let mut i: usize = 0;
        while i < Handler::COUNT
            invariant
                i <= Handler::COUNT,
                all == old(versions).0@.map_values(|v: u32| v.wrapping_add(1)),
                versions.0@ == all.take(i as int) + old(versions).0@.skip(i as int),
            decreases Handler::COUNT - i,
        {
            versions.0[i] = versions.0[i].wrapping_add(1);
            i += 1;
            assert(versions.0@ =~= all.take(i as int) + old(versions).0@.skip(i as int));
        }
        assert(versions.0@ =~= all);
    } else if let Some(clip) = object.clip {
        let mut clip: HandlerCache = clip;
        clip.forget_handlers();
        object.clip = Some(clip);
    }
}

/// Must be called when a display object is named: a child named like a
/// handler method counts as that property of its parent.
pub fn child_named(versions: &mut Versions, name: &WStr)
    ensures
        match Handler::named(*name) {
            None => *final(versions) == *old(versions),
            Some(handler) => bumps(*old(versions), *final(versions), handler),
        },
{
    if let Some(handler) = Handler::from_name(name) {
        versions.bump(handler);
    }
}

/// Whether `name` is `__proto__`.
pub fn is_proto(name: &WStr) -> (yes: bool)
    ensures
        yes == is_same(*name, "__proto__"@),
{
    name.eq_ignore_case("__proto__")
}

// ---------------------------------------------------------------------
// Laws.
// ---------------------------------------------------------------------

/// Every handler has a name of its own, which is found whatever its case.
pub proof fn law_handlers_are_found_by_name(text: WStr, handler: Handler)
    requires
        handler.is_named(text),
    ensures
        Handler::named(text) == Some(handler),
{
    lemma_names_differ(text, handler, choose|h: Handler| h.is_named(text));
}

/// Under a faithful folding, a handler is found exactly by what is its name up
/// to case.
pub proof fn law_names_are_found_up_to_case(text: WStr, handler: Handler)
    requires
        is_faithful(text),
    ensures
        is_same(text, handler.method()@) <==> handler.is_named(text),
        is_same(text, handler.method()@) <==> Handler::named(text) == Some(handler),
{
    if is_same(text, handler.method()@) {
        lemma_names_begin_with_on(handler);
        assert(text.folded@[0] as nat == lower(handler.method()@[0] as nat));
        assert(text.folded@[1] as nat == lower(handler.method()@[1] as nat));
        assert(handler.is_named(text));
        law_handlers_are_found_by_name(text, handler);
    }
}

/// Every cached handler belongs to one event, and to one only.
pub proof fn law_handlers_belong_to_events(a: ClipEvent, b: ClipEvent, handler: Handler)
    ensures
        exists|event: ClipEvent| Handler::of_event(event) == Some(handler),
        Handler::of_event(a) is Some && Handler::of_event(a) == Handler::of_event(b) ==> a == b,
{
    let event = match handler {
        Handler::EnterFrame => ClipEvent::EnterFrame,
        Handler::MouseMove => ClipEvent::MouseMove,
        Handler::MouseDown => ClipEvent::MouseDown,
        Handler::MouseUp => ClipEvent::MouseUp,
        Handler::KeyDown => ClipEvent::KeyDown,
        Handler::KeyUp => ClipEvent::KeyUp,
        Handler::Press => ClipEvent::Press,
        Handler::Release => ClipEvent::Release,
        Handler::ReleaseOutside => ClipEvent::ReleaseOutside,
        Handler::RollOver => ClipEvent::RollOver,
        Handler::RollOut => ClipEvent::RollOut,
        Handler::DragOver => ClipEvent::DragOver,
        Handler::DragOut => ClipEvent::DragOut,
        Handler::Load => ClipEvent::Load,
        Handler::Unload => ClipEvent::Unload,
    };
    assert(Handler::of_event(event) == Some(handler));
}

/// What was remembered at the current version is what is answered, and the
/// other answers stay.
pub proof fn law_answers_are_remembered(
    before: HandlerCache,
    after: HandlerCache,
    versions: Versions,
    handler: Handler,
    present: bool,
    other: Handler,
)
    requires
        sets(before, after, handler, present, versions.0@[handler.position()]),
    ensures
        answer(after, versions, handler) == Some(present),
        other != handler ==> answer(after, versions, other) == answer(before, versions, other),
{
    assert(Handler::ALL@[handler.position()] == handler);
    assert(Handler::ALL@[other.position()] == other);
    assert(is_set(after.present, handler) == present);
    assert(other != handler ==> is_set(after.present, other) == is_set(before.present, other));
}

/// The remembered answers are those that a lookup gives (`truth`), and none
/// comes from a later version.
pub open spec fn is_exact(cache: HandlerCache, versions: Versions, truth: Seq<bool>) -> bool {
    forall|h: Handler|
        #![trigger answer(cache, versions, h)]
        1 <= versions.0@[h.position()] && cache.versions@[h.position()]
            <= versions.0@[h.position()] && (answer(cache, versions, h) matches Some(present)
            ==> present == truth[h.position()])
}

/// No version is about to wrap around.
pub open spec fn can_bump(versions: Versions) -> bool {
    forall|i: int| 0 <= i < 15 ==> #[trigger] versions.0@[i] < u32::MAX
}

/// A clip that remembers nothing remembers nothing wrong.
pub proof fn law_answers_begin_exact(cache: HandlerCache, versions: Versions, truth: Seq<bool>)
    requires
        cache.versions@ == Seq::new(15, |i: int| 0u32),
        forall|i: int| 0 <= i < 15 ==> 1 <= #[trigger] versions.0@[i],
    ensures
        is_exact(cache, versions, truth),
{
}

/// Remembering what a lookup gave keeps the answers exact.
pub proof fn law_answers_stay_exact_when_set(
    before: HandlerCache,
    after: HandlerCache,
    versions: Versions,
    truth: Seq<bool>,
    handler: Handler,
)
    requires
        is_exact(before, versions, truth),
        sets(
            before,
            after,
            handler,
            truth[handler.position()],
            versions.0@[handler.position()],
        ),
    ensures
        is_exact(after, versions, truth),
{
    assert forall|h: Handler| #![trigger answer(after, versions, h)] 1
        <= versions.0@[h.position()] && after.versions@[h.position()]
        <= versions.0@[h.position()] && (answer(after, versions, h) matches Some(present)
        ==> present == truth[h.position()]) by {
        let unchanged = answer(before, versions, h);
        law_answers_are_remembered(
            before,
            after,
            versions,
            handler,
            truth[handler.position()],
            h,
        );
        assert(Handler::ALL@[h.position()] == h);
        assert(Handler::ALL@[handler.position()] == handler);
    }
}

/// When an object that others inherit from gains or loses a property, or a
/// child is named, every clip's answers stay exact, whichever clips gain or
/// lose the method by it.
pub proof fn law_answers_stay_exact_when_a_prototype_changes(
    cache: HandlerCache,
    before: Versions,
    after: Versions,
    name: WStr,
    truth: Seq<bool>,
    new_truth: Seq<bool>,
)
    requires
        is_exact(cache, before, truth),
        can_bump(before),
        match Handler::named(name) {
            None => after == before,
            Some(handler) => bumps(before, after, handler),
        },
        forall|h: Handler|
            Handler::named(name) != Some(h) ==> new_truth[h.position()] == #[trigger] truth[h.position()],
    ensures
        is_exact(cache, after, new_truth),
{
    assert forall|h: Handler| #![trigger answer(cache, after, h)] 1 <= after.0@[h.position()]
        && cache.versions@[h.position()] <= after.0@[h.position()] && (answer(cache, after, h) matches Some(
        present,
    ) ==> present == new_truth[h.position()]) by {
        let unchanged = answer(cache, before, h);
        assert(Handler::ALL@[h.position()] == h);
        assert(unchanged matches Some(present) ==> present == truth[h.position()]);
        if let Some(handler) = Handler::named(name) {
            assert(Handler::ALL@[handler.position()] == handler);
            assert(before.0@[handler.position()] < u32::MAX);
        }
    }
}

/// When an object that nobody inherits from gains or loses a property, its
/// own answers stay exact, too.
pub proof fn law_answers_stay_exact_when_a_clip_changes(
    before: HandlerCache,
    after: HandlerCache,
    versions: Versions,
    name: WStr,
    truth: Seq<bool>,
    new_truth: Seq<bool>,
)
    requires
        is_exact(before, versions, truth),
        match Handler::named(name) {
            None => after == before,
            Some(handler) => forgets(before, after, handler),
        },
        forall|h: Handler|
            Handler::named(name) != Some(h) ==> new_truth[h.position()] == #[trigger] truth[h.position()],
    ensures
        is_exact(after, versions, new_truth),
{
    assert forall|h: Handler| #![trigger answer(after, versions, h)] 1
        <= versions.0@[h.position()] && after.versions@[h.position()]
        <= versions.0@[h.position()] && (answer(after, versions, h) matches Some(present)
        ==> present == new_truth[h.position()]) by {
        let unchanged = answer(before, versions, h);
        assert(Handler::ALL@[h.position()] == h);
        assert(unchanged matches Some(present) ==> present == truth[h.position()]);
        if let Some(handler) = Handler::named(name) {
            assert(Handler::ALL@[handler.position()] == handler);
        }
    }
}

/// When the `__proto__` of an object is assigned, the answers stay exact,
/// whatever methods the chain has gained or lost: those of every clip where
/// others inherit from the object, those of its own clip where nobody does.
pub proof fn law_answers_stay_exact_when_a_chain_changes(
    before: HandlerCache,
    after: HandlerCache,
    old_versions: Versions,
    versions: Versions,
    truth: Seq<bool>,
    new_truth: Seq<bool>,
)
    requires
        is_exact(before, old_versions, truth),
        can_bump(old_versions),
        (bumps_all(old_versions, versions) && after == before) || (versions == old_versions
            && forgets_all(before, after)),
    ensures
        is_exact(after, versions, new_truth),
{
    assert forall|h: Handler| #![trigger answer(after, versions, h)] 1
        <= versions.0@[h.position()] && after.versions@[h.position()]
        <= versions.0@[h.position()] && (answer(after, versions, h) matches Some(present)
        ==> present == new_truth[h.position()]) by {
        let unchanged = answer(before, old_versions, h);
        assert(Handler::ALL@[h.position()] == h);
        assert(unchanged matches Some(present) ==> present == truth[h.position()]);
        assert(old_versions.0@[h.position()] < u32::MAX);
    }
}

} // verus!
