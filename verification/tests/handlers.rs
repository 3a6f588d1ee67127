use shararam_profiler::handlers::{
    child_named, is_proto, property_changed, proto_changed, version, ClipEvent, Handler,
    HandlerCache, Object, Versions, WStr,
};

fn wstr(text: &str) -> WStr {
    WStr::from_units(text.as_bytes())
}

#[test]
fn handlers_are_found_by_name() {
    for handler in Handler::ALL {
        let name = handler.name();
        assert!(name.starts_with("on"));
        assert_eq!(Handler::from_name(&wstr(name)), Some(handler));
        assert_eq!(Handler::from_name(&wstr(&name.to_uppercase())), Some(handler));
        assert_eq!(Handler::from_name(&wstr(&name.to_lowercase())), Some(handler));
        assert_eq!(Handler::from_name(&wstr(&name[2..])), None);
        assert_eq!(Handler::from_name(&wstr(&format!("{name}s"))), None);
    }
    assert_eq!(Handler::ALL.len(), Handler::COUNT);
    for name in ["", "o", "on", "onX", "noPress", "onmouse", "length"] {
        assert_eq!(Handler::from_name(&wstr(name)), None);
    }
}

#[test]
fn case_is_folded_as_the_player_folds_it() {
    // The Kelvin sign in place of the letter K.
    let mut name = wstr("onkeyup");
    name.units[2] = 0x212a;
    assert_eq!(Handler::from_name(&name), Some(Handler::KeyUp));
    name.folded[2] = 0x212a;
    assert_eq!(Handler::from_name(&name), None);
    // The first two letters are looked at as they stand.
    let mut name = wstr("onPress");
    name.units[0] = 0xba;
    assert_eq!(Handler::from_name(&name), None);
}

#[test]
fn names_are_written_in_camel_case() {
    let names: Vec<&str> = Handler::ALL.iter().map(|handler| handler.name()).collect();
    assert_eq!(
        names,
        [
            "onEnterFrame",
            "onMouseMove",
            "onMouseDown",
            "onMouseUp",
            "onKeyDown",
            "onKeyUp",
            "onPress",
            "onRelease",
            "onReleaseOutside",
            "onRollOver",
            "onRollOut",
            "onDragOver",
            "onDragOut",
            "onLoad",
            "onUnload",
        ]
    );
}

#[test]
fn events_have_handlers() {
    let events = [
        ClipEvent::EnterFrame,
        ClipEvent::MouseMove,
        ClipEvent::MouseDown,
        ClipEvent::MouseUp,
        ClipEvent::KeyDown,
        ClipEvent::KeyUp,
        ClipEvent::Press,
        ClipEvent::Release,
        ClipEvent::ReleaseOutside,
        ClipEvent::RollOver,
        ClipEvent::RollOut,
        ClipEvent::DragOver,
        ClipEvent::DragOut,
        ClipEvent::Load,
        ClipEvent::Unload,
    ];
    for (event, handler) in events.into_iter().zip(Handler::ALL) {
        assert_eq!(Handler::for_event(event), Some(handler));
    }
    assert_eq!(Handler::for_event(ClipEvent::Other), None);
    assert_eq!(Handler::BUTTON.len(), 7);
    for name in [
        "onDragOver",
        "onDragOut",
        "onPress",
        "onRelease",
        "onReleaseOutside",
        "onRollOut",
        "onRollOver",
    ] {
        let handler = Handler::from_name(&wstr(name)).unwrap();
        assert!(Handler::BUTTON.contains(&handler));
    }
}

#[test]
fn a_clip_made_late_begins_without_answers() {
    let mut versions = Versions::new();
    child_named(&mut versions, &wstr("onPress"));
    child_named(&mut versions, &wstr("onPress"));
    let mut cache = HandlerCache::default();
    assert_eq!(cache.get(&versions, Handler::Press), None);
    cache.set(Handler::Press, true, version(&versions, Handler::Press));
    assert_eq!(cache.get(&versions, Handler::Press), Some(true));
}

#[test]
fn answers_are_remembered() {
    let versions = Versions::new();
    let mut cache = HandlerCache::default();
    for handler in Handler::ALL {
        assert_eq!(cache.get(&versions, handler), None);
    }
    for (i, handler) in Handler::ALL.into_iter().enumerate() {
        cache.set(handler, i % 2 == 0, version(&versions, handler));
    }
    for (i, handler) in Handler::ALL.into_iter().enumerate() {
        assert_eq!(cache.get(&versions, handler), Some(i % 2 == 0));
    }
    for (i, handler) in Handler::ALL.into_iter().enumerate() {
        cache.set(handler, i % 2 == 1, version(&versions, handler));
        assert_eq!(cache.get(&versions, handler), Some(i % 2 == 1));
    }
    cache.forget(Handler::Press);
    assert_eq!(cache.get(&versions, Handler::Press), None);
    assert_eq!(cache.get(&versions, Handler::Release), Some(true));
    cache.forget_handlers();
    for handler in Handler::ALL {
        assert_eq!(cache.get(&versions, handler), None);
    }
}

fn clip(versions: &Versions) -> HandlerCache {
    let mut cache = HandlerCache::default();
    for handler in Handler::ALL {
        cache.set(handler, true, version(versions, handler));
    }
    cache
}

#[test]
fn a_prototype_ages_every_answer_for_the_name() {
    let mut versions = Versions::new();
    let cache = clip(&versions);
    let mut object = Object {
        prototype: true,
        clip: Some(cache),
    };
    property_changed(&mut versions, &mut object, &wstr("ONPRESS"));
    assert_eq!(cache.get(&versions, Handler::Press), None);
    assert_eq!(cache.get(&versions, Handler::Release), Some(true));
    assert_eq!(version(&versions, Handler::Press), 2);
    property_changed(&mut versions, &mut object, &wstr("x"));
    assert_eq!(cache.get(&versions, Handler::Release), Some(true));
    proto_changed(&mut versions, &mut object);
    for handler in Handler::ALL {
        assert_eq!(cache.get(&versions, handler), None);
    }
    assert_eq!(version(&versions, Handler::Press), 3);
    assert_eq!(version(&versions, Handler::Release), 2);
}

#[test]
fn an_object_nobody_inherits_from_forgets_its_own_answer() {
    let mut versions = Versions::new();
    let other = clip(&versions);
    let mut object = Object {
        prototype: false,
        clip: Some(clip(&versions)),
    };
    property_changed(&mut versions, &mut object, &wstr("onLoad"));
    let own = object.clip.unwrap();
    assert_eq!(own.get(&versions, Handler::Load), None);
    assert_eq!(own.get(&versions, Handler::Unload), Some(true));
    assert_eq!(other.get(&versions, Handler::Load), Some(true));
    property_changed(&mut versions, &mut object, &wstr("loaded"));
    assert_eq!(
        object.clip.unwrap().get(&versions, Handler::Unload),
        Some(true)
    );
    proto_changed(&mut versions, &mut object);
    assert_eq!(object.clip.unwrap().get(&versions, Handler::Unload), None);
    assert_eq!(other.get(&versions, Handler::Unload), Some(true));
    let mut plain = Object {
        prototype: false,
        clip: None,
    };
    property_changed(&mut versions, &mut plain, &wstr("onLoad"));
    proto_changed(&mut versions, &mut plain);
    assert!(plain.clip.is_none());
    assert_eq!(version(&versions, Handler::Load), 1);
}

#[test]
fn children_count_as_properties() {
    let mut versions = Versions::new();
    let cache = clip(&versions);
    child_named(&mut versions, &wstr("door"));
    assert_eq!(cache.get(&versions, Handler::RollOver), Some(true));
    child_named(&mut versions, &wstr("onrollover"));
    assert_eq!(cache.get(&versions, Handler::RollOver), None);
    assert_eq!(cache.get(&versions, Handler::RollOut), Some(true));
}

#[test]
fn versions_wrap_around() {
    let mut versions = Versions([u32::MAX; 15]);
    let cache = clip(&versions);
    child_named(&mut versions, &wstr("onPress"));
    assert_eq!(version(&versions, Handler::Press), 0);
    assert_eq!(cache.get(&versions, Handler::Press), None);
}

#[test]
fn proto_is_recognised() {
    assert!(is_proto(&wstr("__proto__")));
    assert!(is_proto(&wstr("__PROTO__")));
    assert!(!is_proto(&wstr("__proto_")));
    assert!(!is_proto(&wstr("prototype")));
}
