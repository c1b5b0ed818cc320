use deploycli::path::{check_normal, enclosed_path, holds_char, is_directory_name};

#[test]
fn plain_names_are_kept() {
    assert_eq!(enclosed_path("run.sh", false), Some(String::from("run.sh")));
    assert_eq!(enclosed_path("a/b/c.txt", false), Some(String::from("a/b/c.txt")));
}

#[test]
fn dots_and_empty_components_are_resolved() {
    assert_eq!(enclosed_path("a//b/./c", false), Some(String::from("a/b/c")));
    assert_eq!(enclosed_path("a/b/../c", false), Some(String::from("a/c")));
    assert_eq!(enclosed_path("a/..", false), Some(String::new()));
    assert_eq!(enclosed_path("", false), Some(String::new()));
    assert_eq!(enclosed_path("dir/", false), Some(String::from("dir")));
    assert_eq!(enclosed_path("...", false), Some(String::from("...")));
}

#[test]
fn climbing_names_are_refused() {
    assert_eq!(enclosed_path("../../etc/passwd", false), None);
    assert_eq!(enclosed_path("..", false), None);
    assert_eq!(enclosed_path("a/../../b", false), None);
    assert_eq!(enclosed_path("a/../..", false), None);
}

#[test]
fn absolute_and_nul_paths_are_refused() {
    assert_eq!(enclosed_path("/etc/passwd", false), None);
    assert_eq!(enclosed_path("/", false), None);
    assert_eq!(enclosed_path("a\0", false), None);
}

#[test]
fn directory_names_end_in_a_slash() {
    assert!(is_directory_name("logs/"));
    assert!(is_directory_name("/"));
    assert!(!is_directory_name("logs"));
    assert!(!is_directory_name(""));
}

#[test]
fn ordinary_components() {
    assert!(check_normal("demo-1234", false));
    assert!(check_normal("...", false));
    assert!(!check_normal("", false));
    assert!(!check_normal(".", false));
    assert!(!check_normal("..", false));
    assert!(!check_normal("a/b", false));
    assert!(!check_normal("a\0b", false));
}

#[test]
fn finds_characters() {
    let text: Vec<char> = "a/b".chars().collect();
    assert!(holds_char(&text, '/'));
    assert!(!holds_char(&text, 'c'));
}

#[test]
fn backslash_and_colon_are_refused_on_windows_only() {
    for name in ["..\\x", "a\\..\\..\\x", "C:\\Windows\\x", "C:x", "a/b:c"] {
        assert_eq!(enclosed_path(name, true), None, "{:?} on Windows", name);
        assert_eq!(enclosed_path(name, false), Some(String::from(name)), "{:?} elsewhere", name);
    }
    for name in ["a\\b", "C:", "a:b", "n:1-u"] {
        assert!(!check_normal(name, true));
        assert!(check_normal(name, false));
    }
    assert_eq!(enclosed_path("../x", true), None);
    assert_eq!(enclosed_path("/x", true), None);
    assert_eq!(enclosed_path("a\0", true), None);
    assert_eq!(enclosed_path("a/./b", true), Some(String::from("a/b")));
    assert!(check_normal("demo-1234", true));
    assert!(!check_normal("..", true));
}
