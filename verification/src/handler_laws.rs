//! Which handlers there are, how they are found, and what becomes of the
//! answers that clips remember.

use crate::handlers;
use crate::handlers::{ClipEvent, Handler, HandlerCache, Versions, WStr};
use vstd::prelude::*;

verus! {

/// The method of every handler.
pub proof fn law_handlers_are_methods(handler: Handler)
    ensures
        handler.method()@ == (match handler {
            Handler::EnterFrame => "onEnterFrame"@,
            Handler::MouseMove => "onMouseMove"@,
            Handler::MouseDown => "onMouseDown"@,
            Handler::MouseUp => "onMouseUp"@,
            Handler::KeyDown => "onKeyDown"@,
            Handler::KeyUp => "onKeyUp"@,
            Handler::Press => "onPress"@,
            Handler::Release => "onRelease"@,
            Handler::ReleaseOutside => "onReleaseOutside"@,
            Handler::RollOver => "onRollOver"@,
            Handler::RollOut => "onRollOut"@,
            Handler::DragOver => "onDragOver"@,
            Handler::DragOut => "onDragOut"@,
            Handler::Load => "onLoad"@,
            Handler::Unload => "onUnload"@,
        }),
{
}

/// Every handler has a place of its own, and is found there.
pub proof fn law_handlers_have_places(handler: Handler, other: Handler, place: int)
    ensures
        0 <= handler.position() < 15,
        handler.position() == other.position() ==> handler == other,
        Handler::COUNT == 15,
        Handler::ALL@.len() == 15,
        Handler::ALL@[handler.position()] == handler,
        0 <= place < 15 ==> Handler::ALL@[place].position() == place,
{
    assert(Handler::ALL@[handler.position()] == handler);
    assert(Handler::ALL@[other.position()] == other);
}

/// Pressing, releasing, rolling and dragging put a clip into button mode, and
/// no other handler does.
pub proof fn law_button_handlers(handler: Handler)
    ensures
        (exists|i: int| 0 <= i < 7 && #[trigger] Handler::BUTTON@[i] == handler) <==> (match handler {
            Handler::Press
            | Handler::Release
            | Handler::ReleaseOutside
            | Handler::RollOver
            | Handler::RollOut
            | Handler::DragOver
            | Handler::DragOut => true,
            _ => false,
        }),
{
    assert(Handler::BUTTON@[0] == Handler::DragOver);
    assert(Handler::BUTTON@[1] == Handler::DragOut);
    assert(Handler::BUTTON@[2] == Handler::Press);
    assert(Handler::BUTTON@[3] == Handler::Release);
    assert(Handler::BUTTON@[4] == Handler::ReleaseOutside);
    assert(Handler::BUTTON@[5] == Handler::RollOut);
    assert(Handler::BUTTON@[6] == Handler::RollOver);
}

/// An event dispatches to the method that is named after it; other events
/// have none that is cached.
pub proof fn law_events_dispatch_to_their_methods(event: ClipEvent)
    ensures
        match Handler::of_event(event) {
            None => event == ClipEvent::Other,
            Some(handler) => handler.method()@ == (match event {
                ClipEvent::EnterFrame => "onEnterFrame"@,
                ClipEvent::MouseMove => "onMouseMove"@,
                ClipEvent::MouseDown => "onMouseDown"@,
                ClipEvent::MouseUp => "onMouseUp"@,
                ClipEvent::KeyDown => "onKeyDown"@,
                ClipEvent::KeyUp => "onKeyUp"@,
                ClipEvent::Press => "onPress"@,
                ClipEvent::Release => "onRelease"@,
                ClipEvent::ReleaseOutside => "onReleaseOutside"@,
                ClipEvent::RollOver => "onRollOver"@,
                ClipEvent::RollOut => "onRollOut"@,
                ClipEvent::DragOver => "onDragOver"@,
                ClipEvent::DragOut => "onDragOut"@,
                ClipEvent::Load => "onLoad"@,
                ClipEvent::Unload => "onUnload"@,
                ClipEvent::Other => Seq::empty(),
            }),
        },
        event == ClipEvent::Other ==> Handler::of_event(event) is None,
{
}

/// Two units are the same letter, or one unit.
pub open spec fn is_same_letter(a: nat, b: nat) -> bool {
    ||| a == b
    ||| 65 <= a <= 90 && b == a + 32
    ||| 65 <= b <= 90 && a == b + 32
}

/// A text whose Latin capitals are folded is a name exactly where both have
/// the same letters, whatever their case.
pub proof fn law_names_match_up_to_case(text: WStr, name: Seq<char>)
    requires
        text.folded@.len() == text.units@.len(),
        forall|i: int|
            0 <= i < text.units@.len() ==> #[trigger] text.folded@[i] == (if 65 <= text.units@[i]
                <= 90 {
                text.units@[i] + 32
            } else {
                text.units@[i] as int
            }),
    ensures
        handlers::is_same(text, name) <==> text.units@.len() == name.len() && forall|i: int|
            0 <= i < name.len() ==> is_same_letter(
                #[trigger] text.units@[i] as nat,
                name[i] as nat,
            ),
{
    if handlers::is_same(text, name) {
        assert forall|i: int| 0 <= i < name.len() implies is_same_letter(
            #[trigger] text.units@[i] as nat,
            name[i] as nat,
        ) by {
            assert(text.folded@[i] as nat == handlers::lower(name[i] as nat));
        }
    }
    if text.units@.len() == name.len() && forall|i: int|
        0 <= i < name.len() ==> is_same_letter(#[trigger] text.units@[i] as nat, name[i] as nat) {
        assert forall|i: int| 0 <= i < name.len() implies #[trigger] text.folded@[i] as nat
            == handlers::lower(name[i] as nat) by {
            assert(is_same_letter(text.units@[i] as nat, name[i] as nat));
        }
    }
}

/// Only Latin capitals are folded, to the letter 32 further on.
pub proof fn law_capitals_are_folded(unit: nat)
    ensures
        65 <= unit <= 90 ==> handlers::lower(unit) == unit + 32,
        !(65 <= unit <= 90) ==> handlers::lower(unit) == unit,
{
}

/// A handler is found by a text that begins with `on`, in any case, and is its
/// method up to case; no other text finds it.
pub proof fn law_handlers_are_found(text: WStr, handler: Handler)
    ensures
        Handler::named(text) == Some(handler) <==> {
            &&& text.units@.len() >= 3
            &&& text.units@[0] == 79 || text.units@[0] == 111
            &&& text.units@[1] == 78 || text.units@[1] == 110
            &&& handlers::is_same(text, handler.method()@)
        },
        Handler::named(text) is None <==> forall|h: Handler| !(#[trigger] h.is_named(text)),
{
    if handler.is_named(text) {
        handlers::law_handlers_are_found_by_name(text, handler);
    }
}

/// An answer is given exactly where it was computed at the current version of
/// its name.
pub proof fn law_answers_are_current(cache: HandlerCache, versions: Versions, handler: Handler)
    ensures
        handlers::answer(cache, versions, handler) is Some
            <==> cache.versions@[handler.position()] == versions.0@[handler.position()],
{
}

/// A forgotten answer is not given any more, and the others stay.
pub proof fn law_forgotten_answers_are_gone(
    before: HandlerCache,
    after: HandlerCache,
    versions: Versions,
    handler: Handler,
    other: Handler,
)
    requires
        handlers::forgets(before, after, handler),
        forall|i: int| 0 <= i < 15 ==> 1 <= #[trigger] versions.0@[i],
    ensures
        handlers::answer(after, versions, handler) is None,
        other != handler ==> handlers::answer(after, versions, other) == handlers::answer(
            before,
            versions,
            other,
        ),
{
    law_handlers_have_places(handler, other, 0);
}

/// Where all answers are forgotten, none is given any more.
pub proof fn law_all_answers_are_gone(
    before: HandlerCache,
    after: HandlerCache,
    versions: Versions,
    handler: Handler,
)
    requires
        handlers::forgets_all(before, after),
        forall|i: int| 0 <= i < 15 ==> 1 <= #[trigger] versions.0@[i],
    ensures
        handlers::answer(after, versions, handler) is None,
{
    law_handlers_have_places(handler, handler, 0);
}

/// A bumped name ages the answers to it, of every clip, and to no other name.
pub proof fn law_bumped_answers_are_aged(
    cache: HandlerCache,
    before: Versions,
    after: Versions,
    handler: Handler,
    other: Handler,
)
    requires
        handlers::bumps(before, after, handler),
    ensures
        handlers::answer(cache, before, handler) is Some ==> handlers::answer(
            cache,
            after,
            handler,
        ) is None,
        before.0@[handler.position()] < u32::MAX ==> after.0@[handler.position()]
            == before.0@[handler.position()] + 1,
        other != handler ==> after.0@[other.position()] == before.0@[other.position()],
        other != handler ==> handlers::answer(cache, after, other) == handlers::answer(
            cache,
            before,
            other,
        ),
{
    law_handlers_have_places(handler, other, 0);
}

/// Where every name is bumped, every answer is aged.
pub proof fn law_all_answers_are_aged(
    cache: HandlerCache,
    before: Versions,
    after: Versions,
    handler: Handler,
)
    requires
        handlers::bumps_all(before, after),
    ensures
        handlers::answer(cache, before, handler) is Some ==> handlers::answer(
            cache,
            after,
            handler,
        ) is None,
        before.0@[handler.position()] < u32::MAX ==> after.0@[handler.position()]
            == before.0@[handler.position()] + 1,
{
    law_handlers_have_places(handler, handler, 0);
}

/// A remembered answer holds for its name and version, and touches no other.
pub proof fn law_set_answers_are_given(
    before: HandlerCache,
    after: HandlerCache,
    versions: Versions,
    handler: Handler,
    present: bool,
    version: u32,
    other: Handler,
)
    requires
        handlers::sets(before, after, handler, present, version),
    ensures
        handlers::answer(after, versions, handler) == (if version
            == versions.0@[handler.position()] {
            Some(present)
        } else {
            None
        }),
        other != handler ==> handlers::answer(after, versions, other) == handlers::answer(
            before,
            versions,
            other,
        ),
{
    law_handlers_have_places(handler, other, 0);
    assert(handlers::is_set(after.present, handler) == present);
    assert(other != handler ==> handlers::is_set(after.present, other) == handlers::is_set(
        before.present,
        other,
    ));
}

} // verus!
