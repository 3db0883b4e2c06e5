//! Choice of the config file.

use godot_vim::config_path::resolve;

#[test]
fn override_wins() {
    let r = resolve("/tmp/my.vimrc", true);
    assert_eq!(r.path, "/tmp/my.vimrc");
    assert!(!r.is_project_level);
}

#[test]
fn project_then_user() {
    let r = resolve("", true);
    assert_eq!(r.path, "res://.godot-vimrc");
    assert!(r.is_project_level);
    let r = resolve("", false);
    assert_eq!(r.path, "user://.godot-vimrc");
    assert!(!r.is_project_level);
}
