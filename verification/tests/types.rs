use ftp_slint::ftp::types::{
    join_remote, parent_remote, split_remote, ConnectConfig, Encoding, FileEntry, LogDir, Outcome,
    PassiveMode, TlsMode,
};

#[test]
fn join_remote_basics() {
    assert_eq!(join_remote("/", "pub"), "/pub");
    assert_eq!(join_remote("/a/b", "c"), "/a/b/c");
    assert_eq!(join_remote("/a/b/", "c"), "/a/b/c");
    assert_eq!(join_remote("/", "a b"), "/a b");
    assert_eq!(join_remote("", "x"), "/x");
}

#[test]
fn parent_remote_basics() {
    assert_eq!(parent_remote("/a/b"), Some("/a".to_string()));
    assert_eq!(parent_remote("/a"), Some("/".to_string()));
    assert_eq!(parent_remote("/"), None);
    assert_eq!(parent_remote("/a/b/"), Some("/a".to_string()));
    assert_eq!(parent_remote(""), None);
}

#[test]
fn split_remote_basics() {
    assert_eq!(
        split_remote("/a/b/c.txt"),
        ("/a/b".to_string(), "c.txt".to_string())
    );
    assert_eq!(
        split_remote("/c.txt"),
        ("/".to_string(), "c.txt".to_string())
    );
    assert_eq!(split_remote("c.txt"), (String::new(), "c.txt".to_string()));
    assert_eq!(split_remote("/a/b/"), ("/a".to_string(), "b".to_string()));
    assert_eq!(
        split_remote("/dir/我 的文件.txt"),
        ("/dir".to_string(), "我 的文件.txt".to_string())
    );
}

#[test]
fn parts_of_a_joined_path() {
    for base in ["/", "/a", "/a/b/", "//", "a"] {
        for name in ["x", "a b", "我"] {
            let path = join_remote(base, name);
            assert_eq!(split_remote(&path).1, name);
            assert_eq!(parent_remote(&path), Some(split_remote(&path).0));
            assert_eq!(join_remote(&format!("{base}/"), name), path);
        }
    }
}

#[test]
fn log_lines_have_their_tags() {
    assert_eq!(LogDir::Send.tag(), "命令");
    assert_eq!(LogDir::Recv.tag(), "响应");
    assert_eq!(LogDir::Info.tag(), "信息");
    assert_eq!(LogDir::Error.tag(), "错误");
}

#[test]
fn configs_have_their_defaults() {
    let cfg = ConnectConfig::default();
    assert_eq!(cfg.host, "");
    assert_eq!(cfg.port, 21);
    assert_eq!(cfg.mode, PassiveMode::Auto);
    assert_eq!(cfg.tls, TlsMode::Plain);
    assert_eq!(cfg.encoding, Encoding::Utf8);
    assert_eq!(PassiveMode::default(), PassiveMode::Auto);
    assert_eq!(TlsMode::default(), TlsMode::Plain);
    assert_eq!(Encoding::default(), Encoding::Utf8);
}

#[test]
fn clones_say_the_same() {
    let cfg = ConnectConfig {
        host: "h".to_string(),
        port: 2121,
        user: "u".to_string(),
        password: "p".to_string(),
        mode: PassiveMode::Passive,
        tls: TlsMode::ExplicitFtps,
        encoding: Encoding::Gbk,
    };
    assert_eq!(format!("{:?}", cfg.clone()), format!("{cfg:?}"));
    let entry = FileEntry {
        name: "n".to_string(),
        is_dir: true,
        size: 3,
        modified: Some(4),
        perms: Some("rwx".to_string()),
    };
    assert_eq!(entry.clone(), entry);
    for outcome in [
        Outcome::Completed,
        Outcome::Canceled,
        Outcome::Failed("x".to_string()),
    ] {
        assert_eq!(outcome.clone(), outcome);
    }
}
