use raster3d::view::{FillMode, InputEvent, ViewState};

#[test]
fn fill_key_cycles_modes() {
    let mut s = ViewState::new();
    assert_eq!(s.fill, FillMode::Wireframe);
    s.handle_event(InputEvent::FillKey);
    assert_eq!(s.fill, FillMode::Filled);
    s.handle_event(InputEvent::FillKey);
    assert_eq!(s.fill, FillMode::Both);
    s.handle_event(InputEvent::FillKey);
    assert_eq!(s.fill, FillMode::Wireframe);
}

#[test]
fn modes_choose_what_is_drawn() {
    assert!(FillMode::Wireframe.draws_edges() && !FillMode::Wireframe.draws_fill());
    assert!(!FillMode::Filled.draws_edges() && FillMode::Filled.draws_fill());
    assert!(FillMode::Both.draws_edges() && FillMode::Both.draws_fill());
}

#[test]
fn quit_and_escape_stop() {
    let mut s = ViewState::new();
    assert!(s.running);
    s.handle_event(InputEvent::Quit);
    assert!(!s.running);
    let mut s = ViewState::new();
    s.handle_event(InputEvent::EscapeKey);
    assert!(!s.running);
    let mut s = ViewState::new();
    s.handle_event(InputEvent::Other);
    assert_eq!(s, ViewState::new());
}

#[test]
fn wheel_zooms() {
    let mut s = ViewState::new();
    s.handle_event(InputEvent::Wheel { dy: 3 });
    s.handle_event(InputEvent::Wheel { dy: -1 });
    assert_eq!(s.zoom, 2);
    s.zoom = i32::MAX - 1;
    s.handle_event(InputEvent::Wheel { dy: 5 });
    assert_eq!(s.zoom, i32::MAX);
}

#[test]
fn motion_pans_only_while_dragging() {
    let mut s = ViewState::new();
    s.handle_event(InputEvent::Motion { dx: 4, dy: -2 });
    assert_eq!((s.pan_x, s.pan_y), (0, 0));
    s.handle_event(InputEvent::PanButtonDown);
    assert!(s.dragging);
    s.handle_event(InputEvent::Motion { dx: 4, dy: -2 });
    s.handle_event(InputEvent::Motion { dx: 1, dy: 1 });
    assert_eq!((s.pan_x, s.pan_y), (5, -1));
    s.handle_event(InputEvent::PanButtonUp);
    s.handle_event(InputEvent::Motion { dx: 9, dy: 9 });
    assert_eq!((s.pan_x, s.pan_y), (5, -1));
}
