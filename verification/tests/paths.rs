use plugin_lua::utils::{plugin_id_from_path, safe_path, separator};

#[test]
fn separator_is_slash() {
    assert_eq!(separator(), "/");
}

#[test]
fn safe_path_replaces_backslashes() {
    assert_eq!(safe_path("plugins\\foo"), "plugins/foo");
    assert_eq!(safe_path("a\\b\\c"), "a/b/c");
}

#[test]
fn safe_path_keeps_forward_slashes() {
    assert_eq!(safe_path("plugins/foo"), "plugins/foo");
    assert_eq!(safe_path(""), "");
}

#[test]
fn plugin_id_is_directory_name() {
    assert_eq!(plugin_id_from_path("plugins/foo/main.lua"), "foo");
    assert_eq!(plugin_id_from_path("./plugins/foo/main.lua"), "foo");
}

#[test]
fn plugin_id_with_single_separator() {
    assert_eq!(plugin_id_from_path("foo/main.lua"), "foo");
}

#[test]
fn plugin_id_ignores_script_name() {
    assert_eq!(plugin_id_from_path("root/alpha/entry.lua"), "alpha");
    assert_eq!(plugin_id_from_path("/abs/path/beta/main.lua"), "beta");
}
