use feather::{AppMode, Projection, ViewKey, ViewState};

#[test]
fn default_mode_is_view() {
    assert_eq!(AppMode::default(), AppMode::View);
}

#[test]
fn default_view_state() {
    let s = ViewState::default();
    assert!(!s.should_exit);
    assert!(!s.render_wireframe);
}

#[test]
fn quit_key_exits() {
    let mut s = ViewState::default();
    assert_eq!(s.handle_key(ViewKey::Quit, Projection::Orthographic), (true, None));
    assert!(s.should_exit);
}

#[test]
fn wireframe_key_toggles() {
    let mut s = ViewState::default();
    s.handle_key(ViewKey::Wireframe, Projection::Orthographic);
    assert!(s.render_wireframe);
    s.handle_key(ViewKey::Wireframe, Projection::Orthographic);
    assert!(!s.render_wireframe);
}

#[test]
fn projection_key_switches() {
    let mut s = ViewState::default();
    assert_eq!(s.handle_key(ViewKey::Projection, Projection::Orthographic), (true, Some(Projection::Perspective)));
    assert_eq!(s.handle_key(ViewKey::Projection, Projection::Perspective), (true, Some(Projection::Orthographic)));
    assert_eq!(s, ViewState::default());
}

#[test]
fn other_keys_are_ignored() {
    let mut s = ViewState::default();
    assert_eq!(s.handle_key(ViewKey::Other, Projection::Perspective), (false, None));
    assert_eq!(s, ViewState::default());
}
