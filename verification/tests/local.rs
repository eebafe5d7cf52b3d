use ftp_slint::local::PathKind::{Unix, Windows};
use ftp_slint::local::{dir, join, list_dir, list_drives, list_roots, parent, Meta};

fn meta(name: &str, is_dir: bool, len: u64) -> Option<Meta> {
    Some(Meta {
        name: name.to_string(),
        is_dir,
        len,
        modified: Some(1_700_000_000),
        mode: Some(0o100_644),
    })
}

#[test]
fn roots_non_empty() {
    assert!(!list_roots().is_empty());
}

fn some(path: &str) -> Option<String> {
    Some(path.to_string())
}

#[test]
fn join_handles_relative() {
    assert_eq!(join(Windows, "C:\\a", "b"), "C:\\a\\b");
}

#[test]
fn joins_on_unix() {
    assert_eq!(join(Unix, "/home/me", "a.txt"), "/home/me/a.txt");
    assert_eq!(join(Unix, "/", "a.txt"), "/a.txt");
    assert_eq!(join(Unix, "", "a.txt"), "a.txt");
    assert_eq!(join(Unix, "/home", "/etc"), "/etc");
    assert_eq!(join(Unix, "C:\\a", "b"), "C:\\a/b");
    assert_eq!(join(Unix, "\\x", "b"), "\\x/b");
    assert_eq!(join(Unix, "/home", "D:\\y"), "/home/D:\\y");
    assert_eq!(join(Unix, "/home", "\\y"), "/home/\\y");
}

#[test]
fn joins_on_windows() {
    assert_eq!(join(Windows, "C:\\", "a"), "C:\\a");
    assert_eq!(join(Windows, "C:\\x", "\\y"), "C:\\y");
    assert_eq!(join(Windows, "C:\\x", "D:\\y"), "D:\\y");
    assert_eq!(join(Windows, "C:", "y"), "C:y");
    assert_eq!(join(Windows, "C:/x", "y"), "C:/x\\y");
    assert_eq!(join(Windows, "a", "b"), "a\\b");
    assert_eq!(join(Windows, "/a", "b"), "/a\\b");
    assert_eq!(join(Windows, "", "b"), "b");
}

#[test]
fn joins_on_shares() {
    assert_eq!(join(Windows, "\\\\s\\t", "x"), "\\\\s\\t\\x");
    assert_eq!(join(Windows, "\\\\s\\t\\", "x"), "\\\\s\\t\\x");
    assert_eq!(join(Windows, "\\\\s\\t\\d", "\\x"), "\\\\s\\t\\x");
    assert_eq!(join(Windows, "C:\\d", "\\\\s\\t"), "\\\\s\\t");
    assert_eq!(join(Windows, "C:\\d", "//s/t/x"), "//s/t/x");
    assert_eq!(join(Windows, "C:\\d", "\\\\s"), "C:\\\\s");
}

#[test]
fn parents_on_unix() {
    assert_eq!(parent(Unix, "/home/me"), some("/home"));
    assert_eq!(parent(Unix, "/home/"), some("/"));
    assert_eq!(parent(Unix, "/"), None);
    assert_eq!(parent(Unix, ""), None);
    assert_eq!(parent(Unix, "a"), None);
    assert_eq!(parent(Unix, "a/b"), some("a"));
    assert_eq!(parent(Unix, "a/./b"), some("a"));
    assert_eq!(parent(Unix, "C:\\a\\b"), None);
    assert_eq!(parent(Unix, "/d/x\\y"), some("/d"));
}

#[test]
fn parents_on_windows() {
    assert_eq!(parent(Windows, "C:\\a\\b"), some("C:\\a"));
    assert_eq!(parent(Windows, "C:\\a"), some("C:\\"));
    assert_eq!(parent(Windows, "C:\\"), None);
    assert_eq!(parent(Windows, "a\\b"), some("a"));
    assert_eq!(parent(Windows, "\\\\s\\t\\a\\b"), some("\\\\s\\t\\a"));
    assert_eq!(parent(Windows, "\\\\s\\t\\a"), some("\\\\s\\t\\"));
    assert_eq!(parent(Windows, "\\\\s\\t\\"), None);
    assert_eq!(parent(Windows, "\\\\s\\t"), None);
    assert_eq!(parent(Windows, "\\\\s"), some("\\"));
}

#[test]
fn roots_have_no_parent() {
    for root in list_roots() {
        assert_eq!(parent(Unix, &root), None);
    }
    for root in list_drives(&[true; 26]) {
        assert_eq!(parent(Windows, &root), None);
    }
}

#[test]
fn parents_are_heads() {
    for path in ["/a/b//", "a/./b", "C:\\x\\y", "\\\\s\\t\\u\\v", "..\\x"] {
        for kind in [Unix, Windows] {
            if let Some(dir) = parent(kind, path) {
                assert!(!dir.is_empty() && dir.len() < path.len());
                assert!(path.starts_with(&dir));
            }
        }
    }
}

#[test]
fn a_single_name_lies_in_an_unnamed_directory() {
    assert_eq!(dir(Unix, "a.txt"), some(""));
    assert_eq!(dir(Unix, "/a.txt"), some("/"));
    assert_eq!(dir(Unix, "/"), None);
    assert_eq!(dir(Windows, "C:a.txt"), some("C:"));
}

#[test]
fn parents_undo_joins() {
    for base in ["/home/me", "/", "a/b", "C:\\Users"] {
        assert_eq!(parent(Unix, &join(Unix, base, "x\\y.txt")), some(base));
    }
    for base in ["C:\\Users", "C:\\", "C:", "a\\b", "\\\\s\\t\\d"] {
        assert_eq!(parent(Windows, &join(Windows, base, "x.txt")), some(base));
    }
    assert_eq!(parent(Windows, &join(Windows, "\\\\s\\t", "x")), some("\\\\s\\t\\"));
}

#[test]
fn drives_that_are_present() {
    let mut present = [false; 26];
    present[2] = true;
    present[3] = true;
    present[25] = true;
    assert_eq!(list_drives(&present), ["C:\\", "D:\\", "Z:\\"]);
    assert!(list_drives(&[]).is_empty());
}

#[test]
fn local_listings_are_sorted_and_complete() {
    let found = [
        meta("b.txt", false, 5),
        None,
        meta("A.txt", false, 1),
        meta("zdir", true, 4096),
    ];
    let rows = list_dir(&found);
    let names: Vec<&str> = rows.iter().map(|e| e.name.as_str()).collect();
    assert_eq!(names, ["zdir", "A.txt", "b.txt"]);
    assert_eq!(rows[0].size, 0);
    assert_eq!(rows[1].size, 1);
    assert_eq!(rows[1].modified, Some(1_700_000_000));
    assert_eq!(rows[1].perms.as_deref(), Some("rw-r--r--"));
}

#[test]
fn unknown_and_far_times() {
    let far = Meta {
        name: "far".to_string(),
        is_dir: false,
        len: 0,
        modified: Some(u64::MAX),
        mode: None,
    };
    let unknown = Meta {
        name: "unknown".to_string(),
        is_dir: false,
        len: 0,
        modified: None,
        mode: None,
    };
    let rows = list_dir(&[Some(far), Some(unknown)]);
    assert_eq!(rows[0].modified, Some(i64::MAX));
    assert_eq!(rows[1].modified, None);
    assert_eq!(rows[1].perms, None);
}

#[test]
fn joins_on_verbatim_paths() {
    for (base, name, path) in [
        (r"\\?\C:\bar", "../foo", r"\\?\C:\foo"),
        (r"\\?\C:\bar", "../../foo", r"\\?\C:\foo"),
        (r"\\?\C:\", "../foo", r"\\?\C:\foo"),
        (r"\\?\C:\a", "..", r"\\?\C:\"),
        (r"\\?\C:", r"D:\foo/./", r"D:\foo/./"),
        (r"\\?\C:", r"\\?\D:\foo\.\", r"\\?\D:\foo\.\"),
        (r"\\?\A:\x\y", "/foo", r"\\?\A:\foo"),
        (r"\\?\A:", r"..\foo\.", r"\\?\A:\foo"),
        (r"\\?\A:\x\y", r".\foo\.", r"\\?\A:\x\y\foo"),
        (r"\\?\A:\x\y", "", r"\\?\A:\x\y\"),
        (r"\\?\A:", ".", r"\\?\A:"),
        (r"\\?\A:\.\x\\y", "z", r"\\?\A:\.\x\y\z"),
        (r"\\?\A:\.", "..", r"\\?\A:\."),
        (r"\\?\A:\a/b", "..", r"\\?\A:\"),
        (r"\\?\UNC\srv\share", "x", r"\\?\UNC\srv\share\x"),
        (r"\\.\foo", "bar", r"\\.\foo\bar"),
        (r"//?/C:/a", "..", r"//?/C:/a\.."),
    ] {
        assert_eq!(join(Windows, base, name), path);
    }
    assert_eq!(join(Unix, r"\\?\C:\a", ".."), r"\\?\C:\a/..");
}

#[test]
fn parents_on_verbatim_paths() {
    for (path, dir) in [
        (r"\\?\C:\foo\bar", r"\\?\C:\foo"),
        (r"\\?\C:\foo/bar", r"\\?\C:\"),
        (r"\\?\C:/foo/bar", r"\\?\C:/"),
        (r"\\?\C:\a\.", r"\\?\C:\a"),
        (r"\\?\a\b\", r"\\?\a\"),
        (r"\\?\UNC\srv\share\x", r"\\?\UNC\srv\share\"),
        (r"\\.\foo\bar", r"\\.\foo\"),
        (r"\\.\foo\bar/baz", r"\\.\foo\bar"),
        (r"\\.\foo/bar", r"\\.\foo/"),
    ] {
        assert_eq!(parent(Windows, path), some(dir));
    }
    for path in [
        r"\\?\C:\",
        r"\\?\C:",
        r"\\?\bar",
        r"\\?\foo/bar",
        r"\\?\UNC\srv\share",
        r"\\?\UNC\srv",
        r"\\?\UNC\",
        r"\\?\",
        r"\\.\foo",
        r"\\.\",
    ] {
        assert_eq!(parent(Windows, path), None);
    }
}

#[test]
fn parents_undo_joins_on_verbatim_paths() {
    for base in [r"\\?\C:\", r"\\?\C:\a\.\b", r"\\?\UNC\srv\share\d", r"\\?\vol\x"] {
        assert_eq!(parent(Windows, &join(Windows, base, "n")), some(base));
    }
    assert_eq!(parent(Windows, &join(Windows, r"\\?\C:", "n")), some(r"\\?\C:\"));
    assert_eq!(parent(Windows, &join(Windows, r"\\?\C:\a\\", "n")), some(r"\\?\C:\a"));
    assert_eq!(parent(Windows, &join(Windows, r"\\?\UNC\srv", "n")), None);
}

#[test]
fn paths_from_where_one_is() {
    assert_eq!(dir(Unix, "."), some(""));
    assert_eq!(dir(Windows, "C:."), None);
    assert_eq!(parent(Windows, "C:.\\x"), some("C:."));
    assert_eq!(parent(Unix, "./x"), some("."));
    assert_eq!(parent(Unix, "./"), None);
}
