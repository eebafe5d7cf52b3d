use ftp_slint::ftp::client::{
    log_unread, read_listing, with_address, ConnectAction, ConnectReport, Connector, DataMode,
    FtpSession, ListAction, ListReport, SessionError, CONNECT_TIMEOUT, IO_TIMEOUT,
};
use ftp_slint::ftp::types::{ConnectConfig, PassiveMode, TlsMode};

fn config(mode: PassiveMode) -> ConnectConfig {
    ConnectConfig {
        host: "ftp.example.com".to_string(),
        port: 2121,
        user: "me".to_string(),
        password: "secret".to_string(),
        mode,
        ..ConnectConfig::default()
    }
}

fn failed(text: &str) -> ConnectReport {
    ConnectReport::Failed(text.to_string())
}

fn shown(action: ConnectAction) -> String {
    format!("{action:?}")
}

/// A session whose server was reached and greeted the client.
fn logged_in(mode: PassiveMode) -> Connector {
    let mut c = Connector::new(&config(mode));
    c.step(ConnectReport::Begin);
    c.step(ConnectReport::Resolved(1));
    c.step(ConnectReport::Done);
    c.step(ConnectReport::Done);
    c.step(ConnectReport::Done);
    c
}

#[test]
fn a_session_is_opened_step_by_step() {
    let mut c = Connector::new(&config(PassiveMode::Auto));
    assert_eq!(
        shown(c.step(ConnectReport::Begin)),
        "Resolve { host: \"ftp.example.com\", port: 2121 }"
    );
    assert_eq!(shown(c.step(ConnectReport::Resolved(2))), "Dial(0)");
    assert_eq!(shown(c.step(failed("refused"))), "Dial(1)");
    assert_eq!(shown(c.step(ConnectReport::Done)), "Prepare");
    assert_eq!(shown(c.step(ConnectReport::Done)), "Greet");
    assert_eq!(
        shown(c.step(ConnectReport::Done)),
        "Login { user: \"me\", password: \"secret\" }"
    );
    assert_eq!(shown(c.step(ConnectReport::Done)), "Probe(ExtendedPassive)");
    assert_eq!(shown(c.step(ConnectReport::Done)), "Ready(ExtendedPassive)");
    assert_eq!(CONNECT_TIMEOUT, 15);
    assert_eq!(IO_TIMEOUT, 30);
}

#[test]
fn modes_are_negotiated() {
    let mut c = logged_in(PassiveMode::Auto);
    c.step(ConnectReport::Done);
    assert_eq!(shown(c.step(failed("EPSV not understood"))), "Ready(Passive)");
    let mut c = logged_in(PassiveMode::Passive);
    assert_eq!(shown(c.step(ConnectReport::Done)), "Ready(Passive)");
    let mut c = logged_in(PassiveMode::ExtendedPassive);
    assert_eq!(shown(c.step(ConnectReport::Done)), "Ready(ExtendedPassive)");
}

#[test]
fn secured_sessions_are_refused() {
    for tls in [TlsMode::ExplicitFtps, TlsMode::ImplicitFtps] {
        let mut c = Connector::new(&ConnectConfig {
            tls,
            ..config(PassiveMode::Auto)
        });
        match c.step(ConnectReport::Begin) {
            ConnectAction::Fail(err) => assert_eq!(err.message(), "FTPS 将在 M6 里程碑提供"),
            other => panic!("{other:?}"),
        }
    }
}

#[test]
fn failures_while_a_session_is_opened() {
    let mut c = Connector::new(&config(PassiveMode::Auto));
    c.step(ConnectReport::Begin);
    assert_eq!(shown(c.step(failed("no name"))), "Fail(Io(\"no name\"))");

    let mut c = Connector::new(&config(PassiveMode::Auto));
    c.step(ConnectReport::Begin);
    match c.step(ConnectReport::Resolved(0)) {
        ConnectAction::Fail(err) => {
            assert_eq!(err.message(), "无法解析地址 ftp.example.com:2121");
        }
        other => panic!("{other:?}"),
    }

    let mut c = Connector::new(&config(PassiveMode::Auto));
    c.step(ConnectReport::Begin);
    assert_eq!(shown(c.step(ConnectReport::Resolved(2))), "Dial(0)");
    assert_eq!(shown(c.step(failed("first"))), "Dial(1)");
    assert_eq!(shown(c.step(failed("second"))), "Fail(Io(\"second\"))");

    let mut c = Connector::new(&config(PassiveMode::Auto));
    c.step(ConnectReport::Begin);
    c.step(ConnectReport::Resolved(1));
    c.step(ConnectReport::Done);
    assert_eq!(shown(c.step(failed("option"))), "Fail(Io(\"option\"))");

    let mut c = Connector::new(&config(PassiveMode::Auto));
    c.step(ConnectReport::Begin);
    c.step(ConnectReport::Resolved(1));
    c.step(ConnectReport::Done);
    c.step(ConnectReport::Done);
    assert_eq!(shown(c.step(failed("421"))), "Fail(Ftp(\"421\"))");

    let mut c = logged_in(PassiveMode::Auto);
    assert_eq!(shown(c.step(failed("530"))), "Fail(Ftp(\"530\"))");
}

#[test]
fn errors_in_words() {
    assert_eq!(SessionError::Ftp("550".to_string()).message(), "FTP 错误：550");
    assert_eq!(SessionError::Io("reset".to_string()).message(), "网络错误：reset");
    assert_eq!(SessionError::Other("x".to_string()).message(), "x");
    assert_eq!(with_address("to ", "h", 65535), "to h:65535");
}

fn lines(text: &[&str]) -> ListReport {
    ListReport::Lines {
        lines: text.iter().map(|s| s.to_string()).collect(),
        now: 1_717_228_800,
    }
}

fn refused(text: &str) -> ListReport {
    ListReport::Failed(text.to_string())
}

fn names(action: ListAction) -> Vec<String> {
    match action {
        ListAction::Listed { entries, .. } => entries.into_iter().map(|e| e.name).collect(),
        other => panic!("{other:?}"),
    }
}

#[test]
fn mlsd_is_tried_first() {
    let mut s = FtpSession::new(DataMode::ExtendedPassive);
    assert!(matches!(s.step(ListReport::Begin), ListAction::Mlsd));
    let listed = s.step(lines(&["type=file; b", "type=cdir; .", "type=dir; z", "type=file; A"]));
    assert_eq!(names(listed), ["z", "A", "b"]);
    assert_eq!(s.mode(), DataMode::ExtendedPassive);
}

#[test]
fn list_stands_in_for_mlsd() {
    let mut s = FtpSession::new(DataMode::Passive);
    s.step(ListReport::Begin);
    assert!(matches!(s.step(refused("500")), ListAction::List));
    let listed = s.step(lines(&["drwxr-xr-x 2 ftp ftp 4096 Jan 12  2024 pub"]));
    assert_eq!(names(listed), ["pub"]);
}

#[test]
fn the_fallback_to_pasv_is_for_good() {
    let mut s = FtpSession::new(DataMode::ExtendedPassive);
    s.step(ListReport::Begin);
    s.step(refused("500"));
    assert!(matches!(s.step(refused("522")), ListAction::Retry));
    assert_eq!(names(s.step(lines(&[]))), Vec::<String>::new());
    assert_eq!(s.mode(), DataMode::Passive);
    assert!(matches!(s.step(ListReport::Begin), ListAction::Mlsd));
    s.step(refused("500"));
    match s.step(refused("425")) {
        ListAction::Fail(err) => assert_eq!(err.message(), "FTP 错误：425"),
        other => panic!("{other:?}"),
    }
}

#[test]
fn the_first_failure_is_told() {
    let mut s = FtpSession::new(DataMode::ExtendedPassive);
    s.step(ListReport::Begin);
    s.step(refused("500"));
    s.step(refused("first"));
    match s.step(refused("second")) {
        ListAction::Fail(err) => assert_eq!(err.message(), "FTP 错误：first"),
        other => panic!("{other:?}"),
    }
    assert_eq!(s.mode(), DataMode::Passive);
}

#[test]
fn listings_are_read_and_sorted() {
    let text = ["type=file; b".to_string(), "type=file; a".to_string()];
    let entries = read_listing(&text, 0);
    assert_eq!(entries[0].name, "a");
    assert_eq!(entries[1].name, "b");
}

#[test]
fn unread_lines_reach_the_log() {
    let mut s = FtpSession::new(DataMode::ExtendedPassive);
    s.step(ListReport::Begin);
    let unread = match s.step(lines(&["type=file; b", "what is this", "", "nor this "])) {
        ListAction::Listed { entries, unread } => {
            assert_eq!(entries.len(), 1);
            unread
        }
        other => panic!("{other:?}"),
    };
    assert_eq!(unread, ["what is this", "nor this "]);
    let events = log_unread(unread);
    assert_eq!(events.len(), 2);
    assert_eq!(
        format!("{:?}", events[1]),
        "LogLine { dir: Recv, text: \"nor this \" }"
    );
}
