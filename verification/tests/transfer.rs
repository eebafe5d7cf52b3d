use ftp_slint::ftp::types::{FileEntry, FtpEvent, LogDir, Outcome};
use ftp_slint::local::PathKind;
use ftp_slint::queue::{Direction, QueueCommand, TransferRequest};
use ftp_slint::transfer::{
    first_event, last_event, Action, Phase, Reply, Report, Transfer, PROGRESS_INTERVAL,
    READ_BUFFER_SIZE,
};

fn request(direction: Direction, remote: &str, local: &str, size: u64) -> TransferRequest {
    TransferRequest {
        task_id: 7,
        direction,
        remote: remote.to_string(),
        local: local.to_string(),
        size,
    }
}

fn download(size: u64) -> Transfer {
    Transfer::new(PathKind::Unix, request(Direction::Download, "/pub/a.bin", "/tmp/a.bin", size))
}

fn upload(remote: &str, size: u64) -> Transfer {
    Transfer::new(PathKind::Unix, request(Direction::Upload, remote, "/tmp/a.bin", size))
}

fn failed(text: &str) -> Report {
    Report::Failed(text.to_string())
}

/// The event and the action, as text.
fn shown(reply: &Reply) -> (Option<String>, String) {
    (
        reply.emit.as_ref().map(|e| format!("{e:?}")),
        format!("{:?}", reply.action),
    )
}

fn progress(done: u64, total: u64, speed: u64) -> Option<String> {
    Some(format!(
        "{:?}",
        FtpEvent::TaskProgress {
            task_id: 7,
            done,
            total,
            speed
        }
    ))
}

fn action(t: &mut Transfer, report: Report) -> String {
    let reply = t.step(report, false);
    assert!(reply.emit.is_none(), "{reply:?}");
    format!("{:?}", reply.action)
}

const MS: u128 = 1_000_000;

#[test]
fn a_download_from_end_to_end() {
    let mut t = download(0);
    assert_eq!(action(&mut t, Report::Begin), "Connect");
    assert_eq!(action(&mut t, Report::Done), "Enter(\"/pub\")");
    assert_eq!(action(&mut t, Report::Done), "AskSize(\"a.bin\")");
    assert_eq!(action(&mut t, Report::Size(9)), "Create(\"/tmp/a.bin\")");
    assert_eq!(
        action(&mut t, Report::Created { now: 5 * MS }),
        "Retrieve(\"a.bin\")"
    );
    assert_eq!(action(&mut t, Report::Done), "Read");
    assert_eq!(action(&mut t, Report::Bytes { n: 4, now: 6 * MS }), "Write(4)");
    assert_eq!(action(&mut t, Report::Written { now: 6 * MS }), "Read");
    assert_eq!(action(&mut t, Report::Bytes { n: 5, now: 7 * MS }), "Write(5)");
    let reply = t.step(Report::Written { now: 105 * MS }, false);
    assert_eq!(shown(&reply), (progress(9, 9, 90), "Read".to_string()));
    assert_eq!(action(&mut t, Report::Bytes { n: 0, now: 106 * MS }), "Close");
    let reply = t.step(Report::Done, false);
    assert_eq!(
        shown(&reply),
        (progress(9, 9, 0), "ListLocal(\"/tmp\")".to_string())
    );
    let reply = t.step(Report::Entries(vec![FileEntry::default()]), false);
    match reply.emit {
        Some(FtpEvent::LocalListing { path, entries }) => {
            assert_eq!(path, "/tmp");
            assert_eq!(entries.len(), 1);
        }
        other => panic!("{other:?}"),
    }
    assert!(matches!(reply.action, Action::Finish(Outcome::Completed)));
    assert_eq!(t.phase(), Phase::Finished);
}

#[test]
fn an_upload_from_end_to_end() {
    let mut t = upload("up.bin", 0);
    assert_eq!(action(&mut t, Report::Begin), "Connect");
    assert_eq!(action(&mut t, Report::Done), "Open(\"/tmp/a.bin\")");
    assert_eq!(
        action(&mut t, Report::Opened { len: Some(6), now: 0 }),
        "Store(\"up.bin\")"
    );
    assert_eq!(action(&mut t, Report::Wanted), "Read");
    let reply = t.step(Report::Bytes { n: 6, now: 200 * MS }, false);
    assert_eq!(shown(&reply), (progress(6, 6, 30), "Supply(6)".to_string()));
    assert_eq!(action(&mut t, Report::Wanted), "Read");
    assert_eq!(action(&mut t, Report::Bytes { n: 0, now: 201 * MS }), "Supply(0)");
    let reply = t.step(Report::Done, false);
    assert_eq!(shown(&reply), (progress(6, 6, 0), "AskDir".to_string()));
    assert_eq!(
        action(&mut t, Report::Dir("/home".to_string())),
        "ListRemote(\"/home\")"
    );
    let reply = t.step(Report::Entries(Vec::new()), false);
    assert!(matches!(reply.emit, Some(FtpEvent::Listing { path, .. }) if path == "/home"));
    assert!(matches!(reply.action, Action::Finish(Outcome::Completed)));
}

#[test]
fn canceled_beforehand_nothing_is_done() {
    for mut t in [download(0), upload("/x", 0)] {
        let reply = t.step(Report::Begin, true);
        assert!(reply.emit.is_none());
        assert!(matches!(reply.action, Action::Finish(Outcome::Canceled)));
    }
}

#[test]
fn without_a_connection_nothing_is_removed() {
    let mut t = download(0);
    t.step(Report::Begin, false);
    let reply = t.step(failed("refused"), true);
    match reply.action {
        Action::Finish(outcome) => assert_eq!(outcome, Outcome::Failed("refused".to_string())),
        other => panic!("{other:?}"),
    }
}

#[test]
fn failures_remove_what_was_begun() {
    let mut t = download(5);
    t.step(Report::Begin, false);
    t.step(Report::Done, false);
    assert_eq!(action(&mut t, failed("no such directory")), "RemoveLocal(\"/tmp/a.bin\")");
    let reply = t.step(failed("cannot remove"), false);
    match reply.action {
        Action::Finish(outcome) => {
            assert_eq!(outcome, Outcome::Failed("no such directory".to_string()));
        }
        other => panic!("{other:?}"),
    }

    let mut t = upload("/pub/up.bin", 5);
    t.step(Report::Begin, false);
    t.step(Report::Done, false);
    assert_eq!(action(&mut t, Report::Done), "Open(\"/tmp/a.bin\")");
    assert_eq!(action(&mut t, failed("missing")), "RemoveRemote(\"up.bin\")");
    let reply = t.step(Report::Done, false);
    match reply.action {
        Action::Finish(outcome) => assert_eq!(outcome, Outcome::Failed("missing".to_string())),
        other => panic!("{other:?}"),
    }
}

#[test]
fn cancellation_stops_the_next_read() {
    let mut t = download(10);
    t.step(Report::Begin, false);
    t.step(Report::Done, false);
    assert_eq!(action(&mut t, Report::Done), "Create(\"/tmp/a.bin\")");
    t.step(Report::Created { now: 0 }, false);
    t.step(Report::Done, false);
    t.step(Report::Bytes { n: 3, now: 1 }, false);
    let reply = t.step(Report::Written { now: 2 }, true);
    assert!(matches!(reply.action, Action::Abort));
    let reply = t.step(failed("broken off"), true);
    assert!(matches!(reply.action, Action::RemoveLocal(_)));
    let reply = t.step(Report::Done, true);
    assert!(matches!(reply.action, Action::Finish(Outcome::Canceled)));

    let mut t = upload("up.bin", 10);
    t.step(Report::Begin, false);
    t.step(Report::Done, false);
    t.step(Report::Opened { len: None, now: 0 }, false);
    assert!(matches!(t.step(Report::Wanted, true).action, Action::Abort));
    assert!(matches!(
        t.step(failed("broken off"), true).action,
        Action::RemoveRemote(_)
    ));
    assert!(matches!(
        t.step(Report::Done, true).action,
        Action::Finish(Outcome::Canceled)
    ));
}

#[test]
fn reading_and_writing_errors_break_off() {
    let mut t = download(10);
    t.step(Report::Begin, false);
    t.step(Report::Done, false);
    t.step(Report::Done, false);
    t.step(Report::Created { now: 0 }, false);
    t.step(Report::Done, false);
    t.step(Report::Bytes { n: 3, now: 1 }, false);
    assert_eq!(action(&mut t, failed("disk full")), "Abort");
    assert_eq!(t.phase(), Phase::Aborting);
    assert_eq!(action(&mut t, failed("disk full")), "RemoveLocal(\"/tmp/a.bin\")");

    let mut t = upload("up.bin", 10);
    t.step(Report::Begin, false);
    t.step(Report::Done, false);
    t.step(Report::Opened { len: None, now: 0 }, false);
    t.step(Report::Wanted, false);
    assert_eq!(action(&mut t, failed("interrupted")), "Abort");
    assert_eq!(action(&mut t, Report::Wanted), "Read");
}

#[test]
fn sizes_that_are_not_known() {
    let mut t = download(0);
    t.step(Report::Begin, false);
    t.step(Report::Done, false);
    t.step(Report::Done, false);
    t.step(failed("SIZE not understood"), false);
    t.step(Report::Created { now: 0 }, false);
    t.step(Report::Done, false);
    t.step(Report::Bytes { n: 3, now: 1 }, false);
    t.step(Report::Written { now: 2 }, false);
    t.step(Report::Bytes { n: 0, now: 3 }, false);
    let reply = t.step(Report::Done, false);
    assert_eq!(shown(&reply).0, progress(3, 0, 0));
}

#[test]
fn reports_wait_for_the_interval() {
    assert_eq!(PROGRESS_INTERVAL, 100 * MS);
    assert_eq!(READ_BUFFER_SIZE, 64 * 1024);
    let mut t = upload("up.bin", 1000);
    t.step(Report::Begin, false);
    t.step(Report::Done, false);
    t.step(Report::Opened { len: None, now: 50 * MS }, false);
    let mut seen = Vec::new();
    for i in 1..=10u128 {
        t.step(Report::Wanted, false);
        let now = (50 + 30 * i) * MS;
        if t.step(Report::Bytes { n: 10, now }, false).emit.is_some() {
            seen.push(i);
        }
    }
    assert_eq!(seen, [4, 8]);
    // The clock went back: nothing is reported.
    t.step(Report::Wanted, false);
    assert!(t.step(Report::Bytes { n: 10, now: 0 }, false).emit.is_none());
}

#[test]
fn what_can_be_counted() {
    let mut t = upload("up.bin", 0);
    t.step(Report::Begin, false);
    t.step(Report::Done, false);
    t.step(Report::Opened { len: None, now: 0 }, false);
    t.step(Report::Wanted, false);
    assert!(t.can_count(u64::MAX, 0));
    assert!(t.can_count(u64::MAX / 1000, 100 * MS));
    assert!(!t.can_count(u64::MAX / 1000 + 1, 100 * MS));
    t.step(Report::Bytes { n: 1, now: 0 }, false);
    assert!(!t.can_count(u64::MAX, 0));
}

#[test]
fn failed_refreshes_are_only_logged() {
    let mut t = Transfer::new(PathKind::Unix, request(Direction::Download, "/a", "a", 3));
    t.step(Report::Begin, false);
    t.step(Report::Done, false);
    t.step(Report::Done, false);
    t.step(Report::Created { now: 0 }, false);
    t.step(Report::Done, false);
    t.step(Report::Bytes { n: 0, now: 0 }, false);
    assert_eq!(shown(&t.step(Report::Done, false)).1, "ListLocal(\"\")");
    let reply = t.step(failed("gone"), false);
    match reply.emit {
        Some(FtpEvent::LogLine { dir, text }) => {
            assert_eq!(dir, LogDir::Error);
            assert_eq!(text, "刷新本地目录失败：gone");
        }
        other => panic!("{other:?}"),
    }
    assert!(matches!(reply.action, Action::Finish(Outcome::Completed)));

    let mut t = upload("/pub/a", 3);
    t.step(Report::Begin, false);
    t.step(Report::Done, false);
    t.step(Report::Done, false);
    t.step(Report::Opened { len: None, now: 0 }, false);
    assert_eq!(shown(&t.step(Report::Done, false)).1, "ListRemote(\"/pub\")");
    let reply = t.step(failed("gone"), true);
    assert!(
        matches!(reply.emit, Some(FtpEvent::LogLine { text, .. }) if text == "刷新远程目录失败：gone")
    );
    assert!(matches!(reply.action, Action::Finish(Outcome::Completed)));
}

#[test]
fn a_root_has_no_directory_to_refresh() {
    let mut t = Transfer::new(PathKind::Unix, request(Direction::Download, "/a", "/", 3));
    t.step(Report::Begin, false);
    t.step(Report::Done, false);
    t.step(Report::Done, false);
    t.step(Report::Created { now: 0 }, false);
    t.step(Report::Done, false);
    t.step(Report::Bytes { n: 0, now: 0 }, false);
    let reply = t.step(Report::Done, false);
    assert!(matches!(reply.action, Action::Finish(Outcome::Completed)));
}

#[test]
fn an_unknown_remote_directory_is_listed_without_a_name() {
    let mut t = upload("a", 3);
    t.step(Report::Begin, false);
    t.step(Report::Done, false);
    t.step(Report::Opened { len: None, now: 0 }, false);
    t.step(Report::Done, false);
    assert_eq!(action(&mut t, failed("no PWD")), "ListRemote(\"\")");
}

#[test]
fn first_and_last_events() {
    let req = request(Direction::Upload, "/x", "/y", 12);
    assert_eq!(Some(format!("{:?}", first_event(&req))), progress(0, 12, 0));
    let (event, command) = last_event(7, Outcome::Canceled);
    assert!(matches!(
        event,
        FtpEvent::TaskFinished {
            task_id: 7,
            outcome: Outcome::Canceled
        }
    ));
    assert!(matches!(command, QueueCommand::TaskDone(7)));
}
