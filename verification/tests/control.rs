use daylight::control::{handle_key, on_signal, wait_ms, Key, LoopCtl, Schedule, SignalEvent, View};

fn view() -> View {
    View { use_utc: false, twilight: false, outline: true, rotate: true }
}

#[test]
fn quit_keys() {
    for (k, ctrl) in [
        (Key::Char('q'), false),
        (Key::Char('Q'), false),
        (Key::Esc, false),
        (Key::Char('q'), true),
    ] {
        let mut v = view();
        assert_eq!(handle_key(&mut v, k, ctrl), Some(LoopCtl::Quit(0)));
        assert_eq!(v, view());
    }
    let mut v = view();
    assert_eq!(handle_key(&mut v, Key::Char('c'), true), Some(LoopCtl::Quit(130)));
    assert_eq!(v, view());
}

#[test]
fn suspend_key() {
    let mut v = view();
    assert_eq!(handle_key(&mut v, Key::Char('z'), true), Some(LoopCtl::Suspend));
    assert_eq!(v, view());
    // A plain 'z' is not bound.
    assert_eq!(handle_key(&mut v, Key::Char('z'), false), None);
}

#[test]
fn toggle_keys_are_case_insensitive() {
    let mut v = view();
    assert_eq!(handle_key(&mut v, Key::Char('u'), false), Some(LoopCtl::Dirty));
    assert!(v.use_utc);
    assert_eq!(handle_key(&mut v, Key::Char('U'), false), Some(LoopCtl::Dirty));
    assert!(!v.use_utc);
    assert_eq!(handle_key(&mut v, Key::Char('T'), false), Some(LoopCtl::DirtyFull));
    assert!(v.twilight);
    assert_eq!(handle_key(&mut v, Key::Char('o'), false), Some(LoopCtl::DirtyFull));
    assert!(!v.outline);
    assert_eq!(handle_key(&mut v, Key::Char('a'), false), Some(LoopCtl::Dirty));
    assert!(!v.rotate);
    assert_eq!(
        v,
        View { use_utc: false, twilight: true, outline: false, rotate: false }
    );
}

#[test]
fn repaint_recenter_and_unbound_keys() {
    let mut v = view();
    assert_eq!(handle_key(&mut v, Key::Char('r'), false), Some(LoopCtl::DirtyFull));
    assert_eq!(handle_key(&mut v, Key::Char('R'), false), Some(LoopCtl::DirtyFull));
    assert_eq!(handle_key(&mut v, Key::Char('c'), false), Some(LoopCtl::Recenter));
    assert_eq!(handle_key(&mut v, Key::Char('C'), false), Some(LoopCtl::Recenter));
    assert_eq!(handle_key(&mut v, Key::Char('x'), false), None);
    assert_eq!(handle_key(&mut v, Key::Other, false), None);
    assert_eq!(v, view());
}

#[test]
fn pressing_a_key_twice_restores_the_view() {
    for c in ['u', 't', 'o', 'a', 'r', 'c', 'q', 'x'] {
        let mut v = view();
        handle_key(&mut v, Key::Char(c), false);
        handle_key(&mut v, Key::Char(c), false);
        assert_eq!(v, view(), "key {c}");
    }
}

#[test]
fn redraw_schedule() {
    let mut s = Schedule::new();
    // Nothing on screen: a full repaint.
    assert_eq!(s.due(1000, false), Some(true));
    s.drawn(1000);
    // Same second while idle: nothing to do; rotating: a diff.
    assert_eq!(s.due(1000, false), None);
    assert_eq!(s.due(1000, true), Some(false));
    // Next second: a diff for the clock.
    assert_eq!(s.due(1001, false), Some(false));
    // After a resize or forced repaint: full again.
    s.invalidate();
    assert_eq!(s.due(1000, false), Some(true));
}

#[test]
fn wait_until_next_second_or_one_interval() {
    assert_eq!(wait_ms(0, false, 100), 1000);
    assert_eq!(wait_ms(250, false, 100), 750);
    assert_eq!(wait_ms(999, false, 100), 1);
    assert_eq!(wait_ms(250, true, 100), 100);
    assert_eq!(wait_ms(250, true, 10), 10);
}

#[test]
fn signals_map_to_loop_actions() {
    assert_eq!(on_signal(SignalEvent::Exit(2)), LoopCtl::Quit(130)); // INT
    assert_eq!(on_signal(SignalEvent::Exit(15)), LoopCtl::Quit(143)); // TERM
    assert_eq!(on_signal(SignalEvent::Exit(1)), LoopCtl::Quit(129)); // HUP
    assert_eq!(on_signal(SignalEvent::Exit(3)), LoopCtl::Quit(131)); // QUIT
    assert_eq!(on_signal(SignalEvent::Stop), LoopCtl::Suspend);
    assert_eq!(on_signal(SignalEvent::Continue), LoopCtl::DirtyFull);
    // A stop signal does what Control-Z does.
    let mut v = View { use_utc: false, twilight: false, outline: true, rotate: true };
    assert_eq!(handle_key(&mut v, Key::Char('z'), true), Some(on_signal(SignalEvent::Stop)));
}
