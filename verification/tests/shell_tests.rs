use font_thingy::catalog::FaceRec;
use font_thingy::geometry::Position;
use font_thingy::geometry::WindowPos;
use font_thingy::shell::AppState;
use font_thingy::shell::Effect;
use font_thingy::shell::Message;

#[test]
fn init_keeps_the_given_placement() {
    let p = WindowPos { pos: Position::Specific(1, 2), width: 30, height: 40 };
    let s = AppState::init(p);
    assert_eq!(s.window_pos, p);
    assert_eq!(s.fonts.fonts.len(), 0);
    assert_eq!(s.hovered, None);
}

#[test]
fn default_state_uses_default_placement() {
    let s = AppState::default();
    assert_eq!(s.window_pos, WindowPos { pos: Position::Centered, width: 800, height: 600 });
    assert_eq!(s.fonts.fonts.len(), 0);
    assert_eq!(s.hovered, None);
}

#[test]
fn resize_updates_only_the_size() {
    let mut s = AppState::init(WindowPos { pos: Position::Specific(5, 6), width: 30, height: 40 });
    let e = s.update(Message::WindowResized(1024, 768));
    assert!(matches!(e, Effect::Nothing));
    assert_eq!(s.window_pos, WindowPos { pos: Position::Specific(5, 6), width: 1024, height: 768 });
}

#[test]
fn a_move_records_a_specific_position() {
    let mut s = AppState::default();
    let e = s.update(Message::WindowMoved(12, -3));
    assert!(matches!(e, Effect::Nothing));
    assert_eq!(s.window_pos, WindowPos { pos: Position::Specific(12, -3), width: 800, height: 600 });
}

#[test]
fn close_asks_for_a_write_of_the_saved_text() {
    let mut s = AppState::init(WindowPos { pos: Position::Centered, width: 300, height: 200 });
    s.update(Message::Hover(4));
    let e = s.update(Message::WindowClosed);
    match e {
        Effect::WriteAndClose(text) => assert_eq!(text, "centered\n300, 200"),
        _ => panic!("close must ask for a write"),
    }
    // The state itself is untouched by a close request.
    assert_eq!(s.window_pos, WindowPos { pos: Position::Centered, width: 300, height: 200 });
    assert_eq!(s.hovered, Some(4));
}

#[test]
fn click_asks_for_a_rebuild_and_clears_the_hover() {
    let mut s = AppState::default();
    s.update(Message::Hover(2));
    assert_eq!(s.hovered, Some(2));
    let e = s.update(Message::ClickMe);
    assert!(matches!(e, Effect::RebuildFonts));
    assert_eq!(s.hovered, None);

    // The shell then enumerates the database and hands the faces over.
    let faces = vec![FaceRec { id: 1, families: vec!["Arial".to_string()] }];
    s.fonts.rebuild(&faces);
    assert_eq!(s.fonts.fonts.len(), 1);
    assert_eq!(s.fonts.fonts[0].name, "Arial");
}

#[test]
fn hover_records_the_row() {
    let mut s = AppState::default();
    let e = s.update(Message::Hover(7));
    assert!(matches!(e, Effect::Nothing));
    assert_eq!(s.hovered, Some(7));
}
