use ftp_slint::ftp::types::{ConnectConfig, FileEntry, FtpCommand, LocalFsCommand};
use ftp_slint::local::PathKind;
use ftp_slint::queue::QueueCommand;
use ftp_slint::worker::{
    connecting_line, error_event, ControlAction, ControlReply, ControlReport, ControlWorker,
    LocalReply, LocalReport, LocalWorker,
};

fn text(s: &str) -> String {
    s.to_string()
}

fn failed(s: &str) -> ControlReport {
    ControlReport::Failed(text(s))
}

fn config() -> ConnectConfig {
    ConnectConfig {
        host: text("h"),
        user: text("me"),
        ..ConnectConfig::default()
    }
}

/// The events and the action, as text.
fn shown(reply: &ControlReply) -> (Vec<String>, String) {
    (
        reply.events.iter().map(|e| format!("{e:?}")).collect(),
        format!("{:?}", reply.action),
    )
}

fn info(s: &str) -> String {
    format!("LogLine {{ dir: Info, text: {s:?} }}")
}

fn error(context: &str, message: &str) -> String {
    format!("{:?}", error_event(context, text(message)))
}

fn connected() -> ControlWorker {
    let mut w = ControlWorker::new();
    w.step(ControlReport::Command(FtpCommand::Connect(config())));
    w.step(ControlReport::Done);
    w.step(ControlReport::Dir(text("/")));
    w.step(ControlReport::Entries(Vec::new()));
    w
}

#[test]
fn connecting_shows_and_queues_the_server() {
    let mut w = ControlWorker::new();
    let reply = w.step(ControlReport::Command(FtpCommand::Connect(config())));
    assert_eq!(reply.events.len(), 1);
    assert_eq!(shown(&reply).0, [info("正在连接 h:21 …")]);
    assert!(matches!(reply.action, ControlAction::Connect(cfg) if cfg.host == "h"));
    assert!(!w.has_session());
    let reply = w.step(ControlReport::Done);
    assert_eq!(
        shown(&reply),
        (vec![info("登录成功：me"), text("Connected")], text("AskDir"))
    );
    assert!(matches!(reply.queue, Some(QueueCommand::SetConfig(cfg)) if cfg.user == "me"));
    assert!(w.has_session());
    let reply = w.step(ControlReport::Dir(text("/home")));
    assert_eq!(shown(&reply), (vec![], text("List(None)")));
    let reply = w.step(ControlReport::Entries(vec![FileEntry::default()]));
    assert_eq!(shown(&reply).1, "Wait");
    assert!(shown(&reply).0[0].starts_with("Listing { path: \"/home\""));
}

#[test]
fn a_failed_connect_keeps_the_session() {
    let mut w = connected();
    w.step(ControlReport::Command(FtpCommand::Connect(config())));
    let reply = w.step(failed("refused"));
    assert_eq!(shown(&reply), (vec![error("连接", "refused")], text("Wait")));
    assert!(reply.queue.is_none());
    assert!(w.has_session());
}

#[test]
fn commands_need_a_session() {
    let commands = [
        FtpCommand::List { path: text("/") },
        FtpCommand::Navigate { path: text("/") },
        FtpCommand::Mkdir { path: text("/a") },
        FtpCommand::Delete { paths: vec![text("/a")] },
        FtpCommand::Rename { from: text("/a"), to: text("/b") },
    ];
    for cmd in commands {
        let reply = ControlWorker::new().step(ControlReport::Command(cmd));
        assert_eq!(
            shown(&reply),
            (vec![error("未连接", "请先连接服务器")], text("Wait"))
        );
    }
}

#[test]
fn commands_without_a_session() {
    let mut w = ControlWorker::new();
    let reply = w.step(ControlReport::Command(FtpCommand::Ping));
    assert_eq!(
        shown(&reply).0,
        [info("pong：worker → invoke_from_event_loop 事件回流 OK")]
    );
    let reply = w.step(ControlReport::Command(FtpCommand::Chmod {
        path: text("/a"),
        mode: text("644"),
    }));
    assert_eq!(shown(&reply).0, [error("CHMOD", "将在 M5 提供")]);
    let reply = w.step(ControlReport::Command(FtpCommand::EnqueueTransfers {
        tasks: Vec::new(),
    }));
    assert!(matches!(reply.queue, Some(QueueCommand::Enqueue(tasks)) if tasks.is_empty()));
    let reply = w.step(ControlReport::Command(FtpCommand::CancelTask { task_id: 4 }));
    assert!(matches!(reply.queue, Some(QueueCommand::Cancel(4))));
    let reply = w.step(ControlReport::Command(FtpCommand::Quit));
    assert_eq!(
        shown(&reply),
        (vec![text("Disconnected { reason: \"已主动断开\" }")], text("Wait"))
    );
}

#[test]
fn listing_and_entering() {
    let mut w = connected();
    let reply = w.step(ControlReport::Command(FtpCommand::List { path: text("/a") }));
    assert_eq!(shown(&reply).1, "List(Some(\"/a\"))");
    let reply = w.step(ControlReport::Entries(Vec::new()));
    assert_eq!(shown(&reply).0, ["Listing { path: \"/a\", entries: [] }"]);
    w.step(ControlReport::Command(FtpCommand::List { path: text("/a") }));
    assert_eq!(shown(&w.step(failed("550"))).0, [error("列目录", "550")]);

    let reply = w.step(ControlReport::Command(FtpCommand::Navigate { path: text("/a") }));
    assert_eq!(shown(&reply).1, "Enter(\"/a\")");
    assert_eq!(shown(&w.step(failed("550"))).0, [error("进入目录", "550")]);
    w.step(ControlReport::Command(FtpCommand::Navigate { path: text("/a") }));
    assert_eq!(shown(&w.step(ControlReport::Done)), (vec![], text("AskDir")));
    assert_eq!(shown(&w.step(failed("x"))).0, [error("获取当前目录", "x")]);
    w.step(ControlReport::Command(FtpCommand::Navigate { path: text("/a") }));
    w.step(ControlReport::Done);
    w.step(ControlReport::Dir(text("/a")));
    assert_eq!(shown(&w.step(failed("y"))).0, [error("列目录", "y")]);
}

#[test]
fn making_and_renaming() {
    let mut w = connected();
    let reply = w.step(ControlReport::Command(FtpCommand::Mkdir { path: text("/n") }));
    assert_eq!(shown(&reply).1, "Make(\"/n\")");
    assert_eq!(
        shown(&w.step(ControlReport::Done)),
        (vec![info("已创建目录 /n")], text("AskDir"))
    );
    w.step(failed("x"));
    w.step(ControlReport::Command(FtpCommand::Mkdir { path: text("/n") }));
    assert_eq!(shown(&w.step(failed("550"))).0, [error("新建目录", "550")]);

    let rename = || FtpCommand::Rename { from: text("/a"), to: text("/b") };
    let reply = w.step(ControlReport::Command(rename()));
    assert_eq!(shown(&reply).1, "Rename(\"/a\", \"/b\")");
    assert_eq!(
        shown(&w.step(ControlReport::Done)),
        (vec![info("已重命名 /a → /b")], text("AskDir"))
    );
    w.step(failed("x"));
    w.step(ControlReport::Command(rename()));
    assert_eq!(shown(&w.step(failed("550"))).0, [error("重命名", "550")]);
}

#[test]
fn deleting_tries_files_before_directories() {
    let mut w = connected();
    let reply = w.step(ControlReport::Command(FtpCommand::Delete {
        paths: vec![text("/f"), text("/d"), text("/x")],
    }));
    assert_eq!(shown(&reply).1, "Remove(\"/f\")");
    assert_eq!(shown(&w.step(ControlReport::Done)).1, "Remove(\"/d\")");
    assert_eq!(shown(&w.step(failed("550"))), (vec![], text("RemoveDir(\"/d\")")));
    assert_eq!(shown(&w.step(ControlReport::Done)).1, "Remove(\"/x\")");
    w.step(failed("550"));
    assert_eq!(
        shown(&w.step(failed("551"))),
        (vec![error("删除", "551")], text("AskDir"))
    );
    w.step(failed("x"));
    let reply = w.step(ControlReport::Command(FtpCommand::Delete { paths: Vec::new() }));
    assert_eq!(shown(&reply).1, "AskDir");
}

#[test]
fn quitting_ends_the_session() {
    let mut w = connected();
    let reply = w.step(ControlReport::Command(FtpCommand::Quit));
    assert_eq!(shown(&reply), (vec![], text("Quit")));
    let reply = w.step(failed("already gone"));
    assert_eq!(shown(&reply).0, ["Disconnected { reason: \"已主动断开\" }"]);
    assert!(!w.has_session());
}

#[test]
fn lines_about_connections() {
    assert_eq!(connecting_line("h", 21), "正在连接 h:21 …");
}

fn local_shown(reply: &LocalReply) -> (Option<String>, String) {
    (
        reply.event.as_ref().map(|e| format!("{e:?}")),
        format!("{:?}", reply.action),
    )
}

fn local_failed(s: &str) -> LocalReport {
    LocalReport::Failed(text(s))
}

#[test]
fn local_listings() {
    let mut w = LocalWorker::new(PathKind::Unix);
    let reply = w.step(LocalReport::Command(LocalFsCommand::List { path: text("/a") }));
    assert_eq!(local_shown(&reply), (None, text("List(\"/a\")")));
    let reply = w.step(LocalReport::Entries(Vec::new()));
    assert_eq!(
        local_shown(&reply),
        (
            Some(text("LocalListing { path: \"/a\", entries: [] }")),
            text("Wait")
        )
    );
    w.step(LocalReport::Command(LocalFsCommand::List { path: text("/a") }));
    assert_eq!(
        local_shown(&w.step(local_failed("no"))).0,
        Some(error("本地目录", "no"))
    );
}

#[test]
fn local_changes_refresh_their_directory() {
    let mut w = LocalWorker::new(PathKind::Unix);
    let reply = w.step(LocalReport::Command(LocalFsCommand::Mkdir { path: text("/a/n") }));
    assert_eq!(local_shown(&reply).1, "Make(\"/a/n\")");
    assert_eq!(local_shown(&w.step(LocalReport::Done)).1, "List(\"/a\")");
    w.step(LocalReport::Entries(Vec::new()));
    w.step(LocalReport::Command(LocalFsCommand::Mkdir { path: text("/a/n") }));
    assert_eq!(
        local_shown(&w.step(local_failed("no"))),
        (Some(error("本地新建目录", "no")), text("Wait"))
    );

    let rename = || LocalFsCommand::Rename { from: text("/a/x"), to: text("/b/y") };
    let reply = w.step(LocalReport::Command(rename()));
    assert_eq!(local_shown(&reply).1, "Rename(\"/a/x\", \"/b/y\")");
    assert_eq!(local_shown(&w.step(LocalReport::Done)).1, "List(\"/b\")");
    w.step(LocalReport::Entries(Vec::new()));
    w.step(LocalReport::Command(rename()));
    assert_eq!(
        local_shown(&w.step(local_failed("no"))).0,
        Some(error("本地重命名", "no"))
    );
}

#[test]
fn local_deletions() {
    let mut w = LocalWorker::new(PathKind::Unix);
    let reply = w.step(LocalReport::Command(LocalFsCommand::Delete {
        paths: vec![text("/a/x"), text("/b/y")],
    }));
    assert_eq!(local_shown(&reply).1, "Delete(\"/a/x\")");
    assert_eq!(
        local_shown(&w.step(local_failed("no"))),
        (Some(error("本地删除", "no")), text("Delete(\"/b/y\")"))
    );
    assert_eq!(local_shown(&w.step(LocalReport::Done)).1, "List(\"/a\")");
    w.step(LocalReport::Entries(Vec::new()));
    let reply = w.step(LocalReport::Command(LocalFsCommand::Delete { paths: Vec::new() }));
    assert_eq!(local_shown(&reply), (None, text("Wait")));
    w.step(LocalReport::Command(LocalFsCommand::Delete { paths: vec![text("/")] }));
    assert_eq!(local_shown(&w.step(LocalReport::Done)).1, "List(\"/\")");
}

#[test]
fn local_paths_are_read_by_their_kind() {
    let mut w = LocalWorker::new(PathKind::Windows);
    w.step(LocalReport::Command(LocalFsCommand::Mkdir { path: text("\\\\s\\t\\d\\n") }));
    assert_eq!(
        local_shown(&w.step(LocalReport::Done)).1,
        "List(\"\\\\\\\\s\\\\t\\\\d\")"
    );
    let mut w = LocalWorker::new(PathKind::Unix);
    w.step(LocalReport::Command(LocalFsCommand::Mkdir { path: text("/a/x\\n") }));
    assert_eq!(local_shown(&w.step(LocalReport::Done)).1, "List(\"/a\")");
}
