use orbit_engine::gui_backend::{cursor_web_name, translate_key, CursorIcon, Key, NeedRepaint};

#[test]
fn keys_by_browser_name() {
    assert_eq!(translate_key("ArrowDown"), Some(Key::ArrowDown));
    assert_eq!(translate_key("Esc"), Some(Key::Escape));
    assert_eq!(translate_key("Escape"), Some(Key::Escape));
    assert_eq!(translate_key("Help"), Some(Key::Insert));
    assert_eq!(translate_key("0"), Some(Key::Num0));
    assert_eq!(translate_key("z"), Some(Key::Z));
    assert_eq!(translate_key("Z"), Some(Key::Z));
    assert_eq!(translate_key("F1"), None);
    assert_eq!(translate_key("ä"), None);
}

#[test]
fn cursor_css_names() {
    assert_eq!(cursor_web_name(CursorIcon::PointingHand), "pointer");
    assert_eq!(cursor_web_name(CursorIcon::ResizeNeSw), "nesw-resize");
    assert_eq!(cursor_web_name(CursorIcon::Grabbing), "grabbing");
}

#[test]
fn repaint_flag_starts_raised() {
    let flag = NeedRepaint::default();
    assert!(flag.fetch_and_clear());
    assert!(!flag.fetch_and_clear());
    flag.set_true();
    assert!(flag.fetch_and_clear());
}
