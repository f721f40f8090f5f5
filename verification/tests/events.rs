use raytracer::events::{handle_event, Action, WindowEvent, REDRAW_INTERVAL_MS};

#[test]
fn redraw_only_after_interval() {
    assert_eq!(handle_event(WindowEvent::EventsCleared { elapsed_ms: 0 }), Action::Wait);
    assert_eq!(handle_event(WindowEvent::EventsCleared { elapsed_ms: 49 }), Action::Wait);
    assert_eq!(
        handle_event(WindowEvent::EventsCleared { elapsed_ms: REDRAW_INTERVAL_MS }),
        Action::RequestRedraw { restart_clock: true }
    );
    assert_eq!(
        handle_event(WindowEvent::EventsCleared { elapsed_ms: 1000 }),
        Action::RequestRedraw { restart_clock: true }
    );
}

#[test]
fn other_events() {
    assert_eq!(handle_event(WindowEvent::RedrawRequested), Action::Present);
    assert_eq!(handle_event(WindowEvent::CloseRequested), Action::Exit);
    assert_eq!(
        handle_event(WindowEvent::BlockFinished),
        Action::RequestRedraw { restart_clock: false }
    );
    assert_eq!(handle_event(WindowEvent::Other), Action::Wait);
}

#[test]
fn resize_rebuilds_with_sixteen_bit_size() {
    assert_eq!(
        handle_event(WindowEvent::Resized { width: 240, height: 240 }),
        Action::Rebuild { width: 240, height: 240 }
    );
    assert_eq!(
        handle_event(WindowEvent::Resized { width: 65536 + 7, height: 65535 }),
        Action::Rebuild { width: 7, height: 65535 }
    );
}
