use bterm::mux::keys::keymap;

#[test]
fn core_bindings_resolve() {
    assert_eq!(keymap("%"), Some("mux split --right"));
    assert_eq!(keymap("\""), Some("mux split --down"));
    assert_eq!(keymap("ArrowLeft"), Some("mux focus left"));
    assert_eq!(keymap("q"), None);
}
