use mdless::terminal::lifecycle::TerminalOptions;

#[test]
fn options_default_is_conservative() {
    let o = TerminalOptions::default();
    assert!(o.alternate_screen);
    assert!(!o.mouse);
    assert!(!o.keyboard_enhancement);
}
