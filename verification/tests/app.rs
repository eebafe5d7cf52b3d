use ftp_slint::app::{rows_model, App, AppEffect, Intent, Place, LOG_MAX};
use ftp_slint::ftp::types::{FileEntry, FtpCommand, FtpEvent, LogDir, Outcome};
use ftp_slint::local::PathKind;
use ftp_slint::queue::Direction;

fn text(s: &str) -> String {
    s.to_string()
}

fn shown(effects: Vec<AppEffect>) -> Vec<String> {
    effects.iter().map(|e| format!("{e:?}")).collect()
}

fn says(dir: &str, s: &str) -> String {
    format!("Emit(LogLine {{ dir: {dir}, text: {s:?} }})")
}

/// A window with a directory in each panel.
fn window() -> App {
    let mut app = App::new(PathKind::Unix);
    app.apply_event(FtpEvent::Listing {
        path: text("/pub/"),
        entries: Vec::new(),
    });
    app.apply_event(FtpEvent::LocalListing {
        path: text("/home/me"),
        entries: Vec::new(),
    });
    app
}

#[test]
fn events_change_the_window() {
    let mut app = App::new(PathKind::Unix);
    assert!(!app.connected());
    app.apply_event(FtpEvent::Connected);
    assert!(app.connected());
    assert_eq!(app.status_text(), "已连接");
    app.apply_event(FtpEvent::Error {
        context: text("列目录"),
        message: text("550"),
    });
    assert_eq!(app.status_text(), "错误：列目录");
    app.apply_event(FtpEvent::Disconnected { reason: text("bye") });
    assert!(!app.connected());
    assert_eq!(app.status_text(), "未连接");
    app.apply_event(FtpEvent::LogLine {
        dir: LogDir::Recv,
        text: text("220"),
    });
    assert_eq!(
        *app.log_lines(),
        [
            "[响应] 220",
            "[信息] 连接已断开：bye",
            "[错误] 列目录：550",
            "[信息] 连接就绪"
        ]
    );
}

#[test]
fn listings_fill_the_panels() {
    let mut app = App::new(PathKind::Unix);
    let entry = FileEntry {
        name: text("a.txt"),
        is_dir: false,
        size: 1536,
        modified: None,
        perms: Some(text("rw-r--r--")),
    };
    app.apply_event(FtpEvent::Listing {
        path: text("/pub"),
        entries: vec![entry.clone(), FileEntry::default()],
    });
    assert_eq!(app.remote_path(), "/pub");
    assert_eq!(app.remote_files()[0].name, "a.txt");
    assert_eq!(app.remote_files()[0].size_str, "1.5 KB");
    assert_eq!(app.remote_files()[0].modified_str, "");
    assert_eq!(app.remote_files()[0].perms, "rw-r--r--");
    assert_eq!(app.remote_files()[1].perms, "");
    assert_eq!(*app.log_lines(), ["[信息] 远程目录已更新（2 项）：/pub"]);
    app.apply_event(FtpEvent::LocalListing {
        path: text("/tmp"),
        entries: vec![entry],
    });
    assert_eq!(app.local_path(), "/tmp");
    assert_eq!(app.local_files().len(), 1);
    assert_eq!(app.log_lines().len(), 1);
    let dated = FileEntry {
        modified: Some(1_718_452_800),
        ..FileEntry::default()
    };
    assert!(rows_model(&[dated])[0].modified_str.starts_with("2024-06-1"));
}

#[test]
fn the_log_forgets_the_oldest() {
    let mut app = App::new(PathKind::Unix);
    for i in 0..(LOG_MAX + 3) {
        app.apply_event(FtpEvent::LogLine {
            dir: LogDir::Info,
            text: format!("{i}"),
        });
    }
    assert_eq!(app.log_lines().len(), 500);
    assert_eq!(app.log_lines()[0], "[信息] 502");
    assert_eq!(app.log_lines()[499], "[信息] 3");
}

#[test]
fn quick_connect_reads_the_fields() {
    let mut app = App::new(PathKind::Unix);
    let effects = app.handle(Intent::QuickConnect {
        host: text("  "),
        port: text("21"),
        user: text("u"),
        password: text("p"),
    });
    assert!(effects.is_empty());
    assert_eq!(app.status_text(), "请输入主机地址");
    let effects = app.handle(Intent::QuickConnect {
        host: text(" h "),
        port: text(" 2121 "),
        user: text(" u "),
        password: text(" p "),
    });
    assert_eq!(app.status_text(), "正在连接 h:2121 …");
    match &effects[..] {
        [AppEffect::Ftp(FtpCommand::Connect(cfg))] => {
            assert_eq!(cfg.host, "h");
            assert_eq!(cfg.port, 2121);
            assert_eq!(cfg.user, "u");
            assert_eq!(cfg.password, " p ");
        }
        other => panic!("{other:?}"),
    }
    app.handle(Intent::QuickConnect {
        host: text("h"),
        port: text("x"),
        user: text(""),
        password: text(""),
    });
    assert_eq!(app.status_text(), "正在连接 h:21 …");
}

#[test]
fn remote_navigation() {
    let mut app = window();
    assert_eq!(
        shown(app.handle(Intent::RemoteOpen(text("x")))),
        ["Ftp(Navigate { path: \"/pub/x\" })"]
    );
    assert_eq!(
        shown(app.handle(Intent::RemoteRefresh)),
        ["Ftp(List { path: \"/pub/\" })"]
    );
    assert_eq!(
        shown(app.handle(Intent::RemoteUp)),
        ["Ftp(Navigate { path: \"/\" })"]
    );
    assert_eq!(
        shown(app.handle(Intent::RemoteGoto(text(" /x ")))),
        ["Ftp(Navigate { path: \"/x\" })"]
    );
    assert!(app.handle(Intent::RemoteGoto(text("  "))).is_empty());
    assert_eq!(
        shown(App::new(PathKind::Unix).handle(Intent::RemoteUp)),
        [says("Info", "已在根目录")]
    );
    assert_eq!(shown(app.handle(Intent::Disconnect)), ["Ftp(Quit)"]);
    assert_eq!(shown(app.handle(Intent::TestEvent)), ["Ftp(Ping)"]);
}

#[test]
fn local_navigation() {
    let mut app = window();
    assert_eq!(
        shown(app.handle(Intent::LocalOpen(text("x")))),
        ["Local(List { path: \"/home/me/x\" })"]
    );
    assert_eq!(
        shown(app.handle(Intent::LocalRefresh)),
        ["Local(List { path: \"/home/me\" })"]
    );
    assert_eq!(
        shown(app.handle(Intent::LocalUp)),
        ["Local(List { path: \"/home\" })"]
    );
    assert_eq!(
        shown(app.handle(Intent::LocalGoto(text("/x\n")))),
        ["Local(List { path: \"/x\" })"]
    );
    assert!(app.handle(Intent::LocalGoto(text(""))).is_empty());
    assert_eq!(
        shown(App::new(PathKind::Unix).handle(Intent::LocalUp)),
        [says("Info", "已在根目录")]
    );
}

#[test]
fn file_operations_need_a_directory_and_a_name() {
    let mut app = window();
    assert_eq!(
        shown(app.handle(Intent::RemoteMkdir(text("n")))),
        ["Ftp(Mkdir { path: \"/pub/n\" })"]
    );
    assert_eq!(
        shown(app.handle(Intent::RemoteDelete(text("n")))),
        ["Ftp(Delete { paths: [\"/pub/n\"] })"]
    );
    assert_eq!(
        shown(app.handle(Intent::RemoteRename(text("a"), text("b")))),
        ["Ftp(Rename { from: \"/pub/a\", to: \"/pub/b\" })"]
    );
    assert_eq!(
        shown(app.handle(Intent::LocalMkdir(text("n")))),
        ["Local(Mkdir { path: \"/home/me/n\" })"]
    );
    assert_eq!(
        shown(app.handle(Intent::LocalDelete(text("n")))),
        ["Local(Delete { paths: [\"/home/me/n\"] })"]
    );
    assert_eq!(
        shown(app.handle(Intent::LocalRename(text("a"), text("b")))),
        ["Local(Rename { from: \"/home/me/a\", to: \"/home/me/b\" })"]
    );
    for name in ["", " ", ".", "..", " .. "] {
        assert!(app.handle(Intent::RemoteMkdir(text(name))).is_empty());
        assert!(app.handle(Intent::RemoteDelete(text(name))).is_empty());
        assert!(app.handle(Intent::RemoteRename(text("a"), text(name))).is_empty());
        assert!(app.handle(Intent::RemoteRename(text(name), text("a"))).is_empty());
        assert!(app.handle(Intent::LocalMkdir(text(name))).is_empty());
        assert!(app.handle(Intent::LocalDelete(text(name))).is_empty());
        assert!(app.handle(Intent::LocalRename(text("a"), text(name))).is_empty());
    }
    assert!(app.handle(Intent::RemoteRename(text("a"), text("a"))).is_empty());
    assert!(app.handle(Intent::LocalRename(text("a"), text("a"))).is_empty());
    let not_ready = says("Error", "尚未就绪：请先浏览到有效目录");
    assert_eq!(
        shown(App::new(PathKind::Unix).handle(Intent::RemoteRename(text(""), text("")))),
        [not_ready.clone()]
    );
    assert_eq!(
        shown(App::new(PathKind::Unix).handle(Intent::LocalMkdir(text("n")))),
        [not_ready]
    );
}

#[test]
fn opened_files_are_moved_to_the_other_panel() {
    let mut app = window();
    let effects = app.handle(Intent::RemoteOpenFile(text("a.txt")));
    assert_eq!(effects.len(), 2);
    match &effects[0] {
        AppEffect::Ftp(FtpCommand::EnqueueTransfers { tasks }) => {
            assert_eq!(tasks.len(), 1);
            assert_eq!(tasks[0].task_id, 1);
            assert_eq!(tasks[0].direction, Direction::Download);
            assert_eq!(tasks[0].remote, "/pub/a.txt");
            assert_eq!(tasks[0].local, "/home/me/a.txt");
            assert_eq!(tasks[0].size, 0);
        }
        other => panic!("{other:?}"),
    }
    assert_eq!(shown(effects)[1], says("Info", "已加入下载队列：a.txt"));
    let effects = app.handle(Intent::LocalOpenFile(text("b.txt")));
    match &effects[0] {
        AppEffect::Ftp(FtpCommand::EnqueueTransfers { tasks }) => {
            assert_eq!(tasks[0].task_id, 2);
            assert_eq!(tasks[0].direction, Direction::Upload);
            assert_eq!(tasks[0].remote, "/pub/b.txt");
            assert_eq!(tasks[0].local, "/home/me/b.txt");
        }
        other => panic!("{other:?}"),
    }
    assert_eq!(shown(effects)[1], says("Info", "已加入上传队列：b.txt"));
    let rows = app.tasks();
    assert_eq!(rows.len(), 2);
    assert_eq!(rows[0].task_id, 1);
    assert_eq!(rows[0].name, "a.txt");
    assert_eq!(rows[0].direction, "↓ 下载");
    assert_eq!(rows[0].size_str, "…");
    assert_eq!((rows[0].part, rows[0].whole), (0, 1));
    assert_eq!(rows[0].progress_str, "0%");
    assert_eq!(rows[0].speed_str, "—");
    assert_eq!(rows[0].status, "等待");
    assert_eq!(rows[1].direction, "↑ 上传");
}

fn progress(task_id: u64, done: u64, total: u64, speed: u64) -> FtpEvent {
    FtpEvent::TaskProgress {
        task_id,
        done,
        total,
        speed,
    }
}

#[test]
fn tasks_move_on_and_end() {
    let mut app = window();
    for name in ["a", "b", "c"] {
        app.handle(Intent::RemoteOpenFile(text(name)));
    }
    app.apply_event(progress(2, 45, 100, 2_202_010));
    let row = &app.tasks()[1];
    assert_eq!((row.part, row.whole), (45, 100));
    assert_eq!(row.progress_str, "45%");
    assert_eq!(row.speed_str, "2.1 MB/s");
    assert_eq!(row.status, "传输中");
    assert_eq!(app.tasks()[0].status, "等待");
    app.apply_event(progress(2, 300, 100, 0));
    let row = &app.tasks()[1];
    assert_eq!((row.part, row.whole), (100, 100));
    assert_eq!(row.progress_str, "300%");
    assert_eq!(row.speed_str, "—");
    app.apply_event(progress(1, 2048, 0, 1));
    let row = &app.tasks()[0];
    assert_eq!((row.part, row.whole), (0, 1));
    assert_eq!(row.progress_str, "2.0 KB");
    assert_eq!(row.speed_str, "1 B/s");
    app.apply_event(progress(3, u64::MAX, 7, 0));
    assert_eq!(app.tasks()[2].progress_str, "16777216.0 TB");
    for (task_id, outcome) in [
        (1, Outcome::Completed),
        (2, Outcome::Failed(text("x"))),
        (3, Outcome::Canceled),
        (4, Outcome::Canceled),
    ] {
        app.apply_event(FtpEvent::TaskFinished { task_id, outcome });
    }
    let ends: Vec<&str> = app.tasks().iter().map(|r| r.status.as_str()).collect();
    assert_eq!(ends, ["已完成", "失败", "已取消"]);
    assert_eq!(app.tasks()[0].progress_str, "100%");
    assert_eq!((app.tasks()[0].part, app.tasks()[0].whole), (1, 1));
}

#[test]
fn finished_tasks_are_cleared() {
    let mut app = window();
    for name in ["a", "b", "c", "d"] {
        app.handle(Intent::RemoteOpenFile(text(name)));
    }
    app.apply_event(FtpEvent::TaskFinished {
        task_id: 1,
        outcome: Outcome::Completed,
    });
    app.apply_event(progress(2, 1, 2, 3));
    app.apply_event(FtpEvent::TaskFinished {
        task_id: 3,
        outcome: Outcome::Canceled,
    });
    assert!(app.handle(Intent::ClearFinished).is_empty());
    let left: Vec<&str> = app.tasks().iter().map(|r| r.name.as_str()).collect();
    assert_eq!(left, ["b", "d"]);
    app.clear_finished_tasks();
    assert_eq!(app.tasks().len(), 2);
}

#[test]
fn tasks_are_canceled_by_their_number() {
    let mut app = window();
    assert_eq!(
        shown(app.handle(Intent::CancelTask(7))),
        ["Ftp(CancelTask { task_id: 7 })"]
    );
    assert_eq!(
        shown(app.handle(Intent::CancelTask(-1))),
        ["Ftp(CancelTask { task_id: 18446744073709551615 })"]
    );
}

fn place(path: &str, is_dir: bool) -> Option<Place> {
    Some(Place {
        path: text(path),
        is_dir,
    })
}

#[test]
fn the_first_local_directory() {
    let app = App::new(PathKind::Unix);
    let list = |path: &str| [format!("Local(List {{ path: {path:?} }})")];
    assert_eq!(
        shown(app.open_initial_local(place("/u", true), place("/h", true), Some(text("/c")))),
        list("/u")
    );
    assert_eq!(
        shown(app.open_initial_local(None, place("/h", true), Some(text("/c")))),
        list("/h")
    );
    assert_eq!(
        shown(app.open_initial_local(place("/u", false), place("/h", true), Some(text("/c")))),
        list("/c")
    );
    assert_eq!(
        shown(app.open_initial_local(None, None, Some(text("/c")))),
        list("/c")
    );
    assert_eq!(
        shown(app.open_initial_local(None, place("/h", false), None)),
        list(".")
    );
}

#[test]
fn lines_go_to_the_log_in_their_turn() {
    let app = App::new(PathKind::Unix);
    assert_eq!(shown(app.log(LogDir::Send, text("USER me"))), [says("Send", "USER me")]);
}

#[test]
fn windows_paths_are_joined_by_backslashes() {
    let mut app = App::new(PathKind::Windows);
    app.apply_event(FtpEvent::LocalListing {
        path: text("\\\\s\\t"),
        entries: Vec::new(),
    });
    assert_eq!(
        shown(app.handle(Intent::LocalMkdir(text("n")))),
        ["Local(Mkdir { path: \"\\\\\\\\s\\\\t\\\\n\" })"]
    );
    assert_eq!(
        shown(app.handle(Intent::LocalUp)),
        [says("Info", "已在根目录")]
    );
}

#[test]
fn local_up_undoes_open() {
    let mut app = window();
    assert_eq!(
        shown(app.handle(Intent::LocalOpen(text("x\\y")))),
        ["Local(List { path: \"/home/me/x\\\\y\" })"]
    );
    app.apply_event(FtpEvent::LocalListing {
        path: text("/home/me/x\\y"),
        entries: Vec::new(),
    });
    assert_eq!(
        shown(app.handle(Intent::LocalUp)),
        ["Local(List { path: \"/home/me\" })"]
    );
}
