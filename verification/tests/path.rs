use slate::path::{expand_tilde, join_path, temp_path};
use std::path::Path;

#[test]
fn join_puts_one_separator() {
    assert_eq!(join_path("/home/ada/.config", "waybar/style.css"), "/home/ada/.config/waybar/style.css");
    assert_eq!(join_path("/home/ada/.config/", "waybar/config"), "/home/ada/.config/waybar/config");
    assert_eq!(join_path("", "waybar/config"), "waybar/config");
    assert_eq!(join_path("/home/ada/.config", "/etc/absolute"), "/etc/absolute");
    assert_eq!(join_path("/home/ada/.config", ""), "/home/ada/.config/");
}

#[test]
fn join_agrees_with_the_standard_library() {
    for (root, path) in [
        ("/home/ada/.config", "waybar/style.css"),
        ("/home/ada/.config/", "x"),
        ("", "x/y"),
        ("a", "/b"),
        ("a/b", "c.d"),
    ] {
        assert_eq!(join_path(root, path), Path::new(root).join(path).to_str().unwrap());
    }
}

#[test]
fn temporary_file_is_the_whole_path_with_tmp_behind_it() {
    assert_eq!(temp_path("/c/waybar/style.css"), "/c/waybar/style.css.tmp");
    assert_eq!(temp_path("/c/waybar/config"), "/c/waybar/config.tmp");
    assert_eq!(temp_path("/c/a.d/config"), "/c/a.d/config.tmp");
    assert_eq!(temp_path("/c/.hidden"), "/c/.hidden.tmp");
    assert_eq!(temp_path("/c/x.tmp"), "/c/x.tmp.tmp");
    assert_eq!(temp_path(""), ".tmp");
}

#[test]
fn different_paths_have_different_temporary_files() {
    let paths = ["/c/a.css", "/c/a.json", "/c/a", "/c/a.tmp", "/c/a.css.tmp", "/c/b.css"];
    for a in paths {
        assert_ne!(temp_path(a), a);
        for b in paths {
            assert_eq!(temp_path(a) == temp_path(b), a == b);
        }
    }
}

#[test]
fn tilde_is_expanded_at_the_start_only() {
    assert_eq!(expand_tilde("~/Pictures/a.png", Some("/home/ada")), "/home/ada/Pictures/a.png");
    assert_eq!(expand_tilde("~", Some("/home/ada")), "/home/ada");
    assert_eq!(expand_tilde("~other/a.png", Some("/home/ada")), "~other/a.png");
    assert_eq!(expand_tilde("/a/~/b", Some("/home/ada")), "/a/~/b");
    assert_eq!(expand_tilde("~/a", None), "~/a");
    assert_eq!(expand_tilde("~\\a", Some("/home/ada")), "~\\a");
    assert_eq!(expand_tilde("", Some("/home/ada")), "");
}
