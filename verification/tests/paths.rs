use mc_launcher::minecraft::launch::path::{destination, join_paths, normalize};

#[test]
fn nested_segments_join_with_forward_slashes() {
    assert_eq!(destination("libs", "a/b/c.jar"), "libs/a/b/c.jar");
}

#[test]
fn backslashes_separate_too() {
    assert_eq!(destination("libs", "a\\b\\c.jar"), "libs/a/b/c.jar");
    assert_eq!(destination("C:\\games\\libs", "a/b\\c.jar"), "C:/games/libs/a/b/c.jar");
}

#[test]
fn base_with_trailing_separator() {
    assert_eq!(destination("libs/", "a/b/c.jar"), "libs/a/b/c.jar");
    assert_eq!(destination("libs\\", "a/b/c.jar"), "libs/a/b/c.jar");
}

#[test]
fn nested_base_directory() {
    assert_eq!(
        destination("assets/libraries", "com/mojang/logging/1.0.0/logging-1.0.0.jar"),
        "assets/libraries/com/mojang/logging/1.0.0/logging-1.0.0.jar"
    );
}

#[test]
fn empty_base_gives_the_relative_path() {
    assert_eq!(destination("", "a/b/c.jar"), "a/b/c.jar");
}

#[test]
fn empty_relative_gives_the_base() {
    assert_eq!(destination("libs", ""), "libs");
    assert_eq!(destination("", ""), "");
}

#[test]
fn rooted_relative_path_stands_for_itself() {
    assert_eq!(destination("libs", "/opt/a.jar"), "/opt/a.jar");
    assert_eq!(destination("libs", "\\opt\\a.jar"), "/opt/a.jar");
}

#[test]
fn rooted_base_keeps_one_leading_slash() {
    assert_eq!(destination("/opt/libs", "a/b.jar"), "/opt/libs/a/b.jar");
    assert_eq!(destination("//opt//libs", "a/b.jar"), "/opt/libs/a/b.jar");
    assert_eq!(destination("/", "a.jar"), "/a.jar");
}

#[test]
fn repeated_separators_collapse() {
    assert_eq!(destination("libs", "a//b///c.jar"), "libs/a/b/c.jar");
    assert_eq!(normalize("a/\\/b"), "a/b");
}

#[test]
fn single_dots_are_dropped_but_at_the_beginning() {
    assert_eq!(normalize("a/./b/."), "a/b");
    assert_eq!(normalize("./a/./b"), "./a/b");
    assert_eq!(normalize("."), ".");
    assert_eq!(normalize("./"), ".");
    assert_eq!(destination("libs", "./a.jar"), "libs/a.jar");
    assert_eq!(destination(".", "a.jar"), "./a.jar");
    assert_eq!(destination("", "./a.jar"), "./a.jar");
}

#[test]
fn double_dots_are_kept() {
    assert_eq!(normalize("a/../b"), "a/../b");
    assert_eq!(normalize("../a"), "../a");
    assert_eq!(destination("libs", "../x.jar"), "libs/../x.jar");
}

#[test]
fn names_that_begin_with_a_dot_are_kept() {
    assert_eq!(normalize("a/.hidden/b"), "a/.hidden/b");
    assert_eq!(normalize(".config"), ".config");
    assert_eq!(normalize("a/.../b"), "a/.../b");
}

#[test]
fn normalize_of_plain_paths() {
    assert_eq!(normalize(""), "");
    assert_eq!(normalize("a"), "a");
    assert_eq!(normalize("a/"), "a");
    assert_eq!(normalize("/"), "/");
    assert_eq!(normalize("\\"), "/");
    assert_eq!(normalize("/a/b/"), "/a/b");
    assert_eq!(normalize("a\\b"), "a/b");
}

#[test]
fn normalize_keeps_other_characters() {
    assert_eq!(normalize("bibliothèque/ä b/文件.jar"), "bibliothèque/ä b/文件.jar");
    assert_eq!(normalize("a b/c:d"), "a b/c:d");
}

#[test]
fn normalize_twice_changes_nothing_more() {
    for path in ["a//b/./c", "/x/\\y", "./a/..", "C:\\a\\b", "", ".", "/"] {
        let once = normalize(path);
        assert_eq!(normalize(&once), once);
    }
}

#[test]
fn join_adds_one_separator() {
    assert_eq!(join_paths("libs", "a/b"), "libs/a/b");
    assert_eq!(join_paths("libs/", "a/b"), "libs/a/b");
    assert_eq!(join_paths("libs\\", "a/b"), "libs\\a/b");
    assert_eq!(join_paths("", "a/b"), "a/b");
    assert_eq!(join_paths("libs", ""), "libs/");
}

#[test]
fn join_with_rooted_path_drops_the_base() {
    assert_eq!(join_paths("libs", "/a/b"), "/a/b");
    assert_eq!(join_paths("libs", "\\a"), "\\a");
}
