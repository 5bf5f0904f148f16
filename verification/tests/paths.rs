//! Paths, beside what the standard library makes of them.

use std::path::Path;

use magictree::paths::{
    add_path, components, depth, display_relative, file_name, is_below, is_held, is_path_before,
    is_same_path, join, parent, relative,
};

/// Every text of at most `n` characters over a slash, a dot and a letter.
fn all_paths(n: usize) -> Vec<String> {
    let mut out = vec![String::new()];
    let mut last = out.clone();
    for _ in 0..n {
        let mut next = Vec::new();
        for path in &last {
            for c in ['/', '.', 'a'] {
                next.push(format!("{path}{c}"));
            }
        }
        out.extend(next.iter().cloned());
        last = next;
    }
    out
}

fn text(path: &Path) -> String {
    path.to_string_lossy().to_string()
}

#[test]
fn paths_are_split_as_the_standard_library_splits_them() {
    for path in all_paths(6) {
        let std = Path::new(&path);
        let parts: Vec<String> = std
            .components()
            .map(|part| part.as_os_str().to_string_lossy().to_string())
            .collect();
        assert_eq!(components(&path), parts, "{path}");
        assert_eq!(depth(&path), parts.len(), "{path}");
        assert_eq!(file_name(&path), std.file_name().map(|name| text(Path::new(name))), "{path}");
        assert_eq!(parent(&path), std.parent().map(text), "{path}");
    }
}

#[test]
fn paths_are_compared_as_the_standard_library_compares_them() {
    let all = all_paths(4);
    for a in &all {
        for b in &all {
            let (x, y) = (Path::new(a), Path::new(b));
            assert_eq!(is_below(a, b), x.starts_with(y), "{a} {b}");
            assert_eq!(relative(a, b), x.strip_prefix(y).ok().map(text), "{a} {b}");
            assert_eq!(is_same_path(a, b), x == y, "{a} {b}");
            assert_eq!(is_path_before(a, b), x < y, "{a} {b}");
            assert_eq!(join(a, b), text(&x.join(y)), "{a} {b}");
        }
    }
}

#[test]
fn names_follow_what_is_no_name() {
    let order = ["/", ".", "..", "a", "a/b", "a-b", "\u{e9}", "\u{1f600}"];
    for a in order {
        for b in order {
            assert_eq!(is_path_before(a, b), Path::new(a) < Path::new(b), "{a} {b}");
        }
    }
}

#[test]
fn a_list_of_paths_holds_each_once_and_in_order() {
    let mut list = Vec::new();
    for path in ["/r-x", "/r/x", "/r/./x", "/r"] {
        add_path(&mut list, path.to_string());
    }
    assert_eq!(list, vec!["/r", "/r/x", "/r-x"]);
    assert!(is_held(&list, "/r//x/"));
    assert!(!is_held(&list, "/x"));
}

#[test]
fn a_path_is_shown_beside_its_root() {
    assert_eq!(display_relative("/repo/./apps/web", "/repo"), "apps/web");
    assert_eq!(display_relative("/repository", "/repo"), "/repository");
    assert_eq!(display_relative("/repo/", "/repo"), "");
    assert_eq!(file_name("/repo/.."), None);
    assert_eq!(parent("/"), None);
    assert_eq!(parent("/repo//web/").as_deref(), Some("/repo"));
}
