//! What a session decides: how it connects, which data mode it settles on, and how it lists a
//! directory. The commands themselves are sent by whoever holds the connection.

use vstd::prelude::*;

use crate::ftp::order::sort_entries;
use crate::ftp::parser::{parse_lines_at, unread_lines_at};
use crate::ftp::types::{
    ConfigView, ConnectConfig, EntryView, EventView, FileEntry, FtpEvent, LogDir, PassiveMode,
    TlsMode,
};
use crate::text::{appended, push_decimal, push_text};

verus! {

/// Seconds within which a connection must be made.
pub const CONNECT_TIMEOUT: u64 = 15;

/// Seconds within which a command must be answered.
pub const IO_TIMEOUT: u64 = 30;

/// Why a session could not do what it was asked to.
#[derive(Debug)]
pub enum SessionError {
    /// The server refused, or the protocol was broken.
    Ftp(String),
    /// The network failed.
    Io(String),
    /// Any other reason, in its own words.
    Other(String),
}

/// What a [`SessionError`] says.
#[verifier::ext_equal]
pub enum ErrorView {
    Ftp(Seq<char>),
    Io(Seq<char>),
    Other(Seq<char>),
}

impl DeepView for SessionError {
    type V = ErrorView;

    open spec fn deep_view(&self) -> ErrorView {
        match self {
            SessionError::Ftp(text) => ErrorView::Ftp(text@),
            SessionError::Io(text) => ErrorView::Io(text@),
            SessionError::Other(text) => ErrorView::Other(text@),
        }
    }
}

/// An error in words.
pub open spec fn error_text(err: ErrorView) -> Seq<char> {
    match err {
        ErrorView::Ftp(text) => "FTP 错误："@ + text,
        ErrorView::Io(text) => "网络错误："@ + text,
        ErrorView::Other(text) => text,
    }
}

impl SessionError {
    /// The error in words.
    pub fn message(&self) -> (r: String)
        ensures
            r@ == error_text(self.deep_view()),
    {
        match self {
            SessionError::Ftp(text) => appended("FTP 错误：", text.as_str()),
            SessionError::Io(text) => appended("网络错误：", text.as_str()),
            SessionError::Other(text) => text.clone(),
        }
    }
}

/// How data connections are opened once that is settled: by PASV or by EPSV.
#[derive(Debug, Clone, Copy, PartialEq, Eq, Structural)]
pub enum DataMode {
    Passive,
    ExtendedPassive,
}

/// The mode that a session begins with.
pub open spec fn first_mode(mode: PassiveMode) -> DataMode {
    match mode {
        PassiveMode::Passive => DataMode::Passive,
        PassiveMode::ExtendedPassive => DataMode::ExtendedPassive,
        PassiveMode::Auto => DataMode::ExtendedPassive,
    }
}

/// A host and a port.
pub open spec fn address(host: Seq<char>, port: u16) -> Seq<char> {
    host + seq![':'] + crate::text::decimal(port as int)
}

/// A text with a host and a port behind it.
pub fn with_address(text: &str, host: &str, port: u16) -> (r: String)
    ensures
        r@ == text@ + address(host@, port),
{
    let mut out = appended(text, host);
    out.push(':');
    push_decimal(&mut out, port as u64);
    assert(out@ =~= text@ + address(host@, port));
    out
}

/// What a session that is being opened waits for.
#[derive(Debug, Clone, Copy, PartialEq, Eq, Structural)]
pub enum ConnectPhase {
    Start,
    Resolving,
    Dialing,
    Preparing,
    Greeting,
    LoggingIn,
    Probing,
    Over,
}

/// What is to be done next to open a session.
#[derive(Debug)]
pub enum ConnectAction {
    /// Look the host's addresses up.
    Resolve { host: String, port: u16 },
    /// Connect to the address at this position.
    Dial(usize),
    /// Set the connection's time limits and send small packets at once.
    Prepare,
    /// Wait for the server's greeting.
    Greet,
    /// Log in.
    Login { user: String, password: String },
    /// Set this mode and list the current directory.
    Probe(DataMode),
    /// Set this mode: the session is open.
    Ready(DataMode),
    /// The session could not be opened.
    Fail(SessionError),
}

/// What a [`ConnectAction`] says.
#[verifier::ext_equal]
pub enum ConnectActionView {
    Resolve { host: Seq<char>, port: u16 },
    Dial(int),
    Prepare,
    Greet,
    Login { user: Seq<char>, password: Seq<char> },
    Probe(DataMode),
    Ready(DataMode),
    Fail(ErrorView),
}

impl DeepView for ConnectAction {
    type V = ConnectActionView;

    open spec fn deep_view(&self) -> ConnectActionView {
        match self {
            ConnectAction::Resolve { host, port } => ConnectActionView::Resolve {
                host: host@,
                port: *port,
            },
            ConnectAction::Dial(i) => ConnectActionView::Dial(*i as int),
            ConnectAction::Prepare => ConnectActionView::Prepare,
            ConnectAction::Greet => ConnectActionView::Greet,
            ConnectAction::Login { user, password } => ConnectActionView::Login {
                user: user@,
                password: password@,
            },
            ConnectAction::Probe(mode) => ConnectActionView::Probe(*mode),
            ConnectAction::Ready(mode) => ConnectActionView::Ready(*mode),
            ConnectAction::Fail(err) => ConnectActionView::Fail(err.deep_view()),
        }
    }
}

/// What came of an action.
pub enum ConnectReport {
    /// The session is to be opened.
    Begin,
    /// The host has so many addresses.
    Resolved(usize),
    /// It succeeded.
    Done,
    /// It failed, with this message.
    Failed(String),
}

/// What a [`ConnectReport`] says.
#[verifier::ext_equal]
pub enum ConnectReportView {
    Begin,
    Resolved(int),
    Done,
    Failed(Seq<char>),
}

impl DeepView for ConnectReport {
    type V = ConnectReportView;

    open spec fn deep_view(&self) -> ConnectReportView {
        match self {
            ConnectReport::Begin => ConnectReportView::Begin,
            ConnectReport::Resolved(n) => ConnectReportView::Resolved(*n as int),
            ConnectReport::Done => ConnectReportView::Done,
            ConnectReport::Failed(text) => ConnectReportView::Failed(text@),
        }
    }
}

/// A session that is being opened.
pub struct Connector {
    cfg: ConnectConfig,
    phase: ConnectPhase,
    addrs: usize,
    tried: usize,
}

/// What a [`Connector`] knows: what it was told, what it waits for, how many addresses the host
/// has, and which of them it tries.
#[verifier::ext_equal]
pub struct ConnectorView {
    pub cfg: ConfigView,
    pub phase: ConnectPhase,
    pub addrs: int,
    pub tried: int,
}

impl View for Connector {
    type V = ConnectorView;

    closed spec fn view(&self) -> ConnectorView {
        ConnectorView {
            cfg: self.cfg.deep_view(),
            phase: self.phase,
            addrs: self.addrs as int,
            tried: self.tried as int,
        }
    }
}

impl ConnectorView {
    /// Whether the parts fit together.
    pub open spec fn wf(self) -> bool {
        self.phase == ConnectPhase::Dialing ==> 0 <= self.tried < self.addrs
    }

    /// Whether the session waits for such a report.
    pub open spec fn expects(self, report: ConnectReportView) -> bool {
        match self.phase {
            ConnectPhase::Start => report is Begin,
            ConnectPhase::Resolving => report is Resolved || report is Failed,
            ConnectPhase::Over => false,
            _ => report is Done || report is Failed,
        }
    }
}

/// A session that is not being opened yet.
pub open spec fn unopened(cfg: ConfigView) -> ConnectorView {
    ConnectorView { cfg, phase: ConnectPhase::Start, addrs: 0, tried: 0 }
}

/// A step that goes on to `phase`.
pub open spec fn going(c: ConnectorView, phase: ConnectPhase, action: ConnectActionView) -> (
    ConnectorView,
    ConnectActionView,
) {
    (ConnectorView { phase, ..c }, action)
}

/// A step that gives up.
pub open spec fn giving_up(c: ConnectorView, err: ErrorView) -> (ConnectorView, ConnectActionView) {
    going(c, ConnectPhase::Over, ConnectActionView::Fail(err))
}

/// What a session that is being opened does with a report. Only plain sessions are opened. The
/// host's addresses are tried one after the other. Where the mode is left open, EPSV is tried
/// by listing the current directory, and PASV is taken where that fails.
pub open spec fn connect_step(c: ConnectorView, report: ConnectReportView) -> (
    ConnectorView,
    ConnectActionView,
) {
    match (c.phase, report) {
        (ConnectPhase::Start, _) => if c.cfg.tls != TlsMode::Plain {
            giving_up(c, ErrorView::Other("FTPS 将在 M6 里程碑提供"@))
        } else {
            going(
                c,
                ConnectPhase::Resolving,
                ConnectActionView::Resolve { host: c.cfg.host, port: c.cfg.port },
            )
        },
        (ConnectPhase::Resolving, ConnectReportView::Resolved(n)) => if n == 0 {
            giving_up(
                c,
                ErrorView::Other("无法解析地址 "@ + address(c.cfg.host, c.cfg.port)),
            )
        } else {
            going(
                ConnectorView { addrs: n, tried: 0, ..c },
                ConnectPhase::Dialing,
                ConnectActionView::Dial(0),
            )
        },
        (ConnectPhase::Dialing, ConnectReportView::Done) => going(
            c,
            ConnectPhase::Preparing,
            ConnectActionView::Prepare,
        ),
        (ConnectPhase::Dialing, ConnectReportView::Failed(text)) => if c.tried + 1 < c.addrs {
            going(
                ConnectorView { tried: c.tried + 1, ..c },
                ConnectPhase::Dialing,
                ConnectActionView::Dial(c.tried + 1),
            )
        } else {
            giving_up(c, ErrorView::Io(text))
        },
        (ConnectPhase::Preparing, ConnectReportView::Done) => going(
            c,
            ConnectPhase::Greeting,
            ConnectActionView::Greet,
        ),
        (ConnectPhase::Greeting, ConnectReportView::Done) => going(
            c,
            ConnectPhase::LoggingIn,
            ConnectActionView::Login { user: c.cfg.user, password: c.cfg.password },
        ),
        (ConnectPhase::LoggingIn, ConnectReportView::Done) => if c.cfg.mode == PassiveMode::Auto {
            going(c, ConnectPhase::Probing, ConnectActionView::Probe(first_mode(c.cfg.mode)))
        } else {
            going(c, ConnectPhase::Over, ConnectActionView::Ready(first_mode(c.cfg.mode)))
        },
        (ConnectPhase::Probing, ConnectReportView::Done) => going(
            c,
            ConnectPhase::Over,
            ConnectActionView::Ready(first_mode(c.cfg.mode)),
        ),
        (ConnectPhase::Probing, _) => going(
            c,
            ConnectPhase::Over,
            ConnectActionView::Ready(DataMode::Passive),
        ),
        (ConnectPhase::Resolving, ConnectReportView::Failed(text)) => giving_up(
            c,
            ErrorView::Io(text),
        ),
        (ConnectPhase::Preparing, ConnectReportView::Failed(text)) => giving_up(
            c,
            ErrorView::Io(text),
        ),
        (_, ConnectReportView::Failed(text)) => giving_up(c, ErrorView::Ftp(text)),
        _ => giving_up(c, ErrorView::Other(Seq::empty())),
    }
}

impl Connector {
    /// A session that is not being opened yet.
    pub fn new(cfg: &ConnectConfig) -> (r: Self)
        ensures
            r@ == unopened(cfg.deep_view()),
            r@.wf(),
    {
        Connector { cfg: cfg.clone(), phase: ConnectPhase::Start, addrs: 0, tried: 0 }
    }

    fn go(&mut self, phase: ConnectPhase, action: ConnectAction) -> (r: ConnectAction)
        ensures
            (final(self)@, r.deep_view()) == going(old(self)@, phase, action.deep_view()),
    {
        self.phase = phase;
        action
    }

    fn give_up(&mut self, err: SessionError) -> (r: ConnectAction)
        ensures
            (final(self)@, r.deep_view()) == giving_up(old(self)@, err.deep_view()),
    {
        self.phase = ConnectPhase::Over;
        ConnectAction::Fail(err)
    }

    /// The mode that the session begins with.
    fn first_mode(&self) -> (r: DataMode)
        ensures
            r == first_mode(self@.cfg.mode),
    {
        match self.cfg.mode {
            PassiveMode::Passive => DataMode::Passive,
            PassiveMode::ExtendedPassive => DataMode::ExtendedPassive,
            PassiveMode::Auto => DataMode::ExtendedPassive,
        }
    }

    /// Takes the report on the last action and says what is done next.
    pub fn step(&mut self, report: ConnectReport) -> (r: ConnectAction)
        requires
            old(self)@.wf(),
            old(self)@.expects(report.deep_view()),
        ensures
            (final(self)@, r.deep_view()) == connect_step(old(self)@, report.deep_view()),
            final(self)@.wf(),
    {
        match (self.phase, report) {
            (ConnectPhase::Start, _) => if self.cfg.tls != TlsMode::Plain {
                self.give_up(SessionError::Other("FTPS 将在 M6 里程碑提供".to_string()))
            } else {
                let action = ConnectAction::Resolve {
                    host: self.cfg.host.clone(),
                    port: self.cfg.port,
                };
                self.go(ConnectPhase::Resolving, action)
            },
            (ConnectPhase::Resolving, ConnectReport::Resolved(n)) => if n == 0 {
                let text = with_address("无法解析地址 ", self.cfg.host.as_str(), self.cfg.port);
                self.give_up(SessionError::Other(text))
            } else {
                self.addrs = n;
                self.tried = 0;
                self.go(ConnectPhase::Dialing, ConnectAction::Dial(0))
            },
            (ConnectPhase::Dialing, ConnectReport::Done) => self.go(
                ConnectPhase::Preparing,
                ConnectAction::Prepare,
            ),
            (ConnectPhase::Dialing, ConnectReport::Failed(text)) => if self.tried + 1
                < self.addrs {
                let next = self.tried + 1;
                self.tried = next;
                self.go(ConnectPhase::Dialing, ConnectAction::Dial(next))
            } else {
                self.give_up(SessionError::Io(text))
            },
            (ConnectPhase::Preparing, ConnectReport::Done) => self.go(
                ConnectPhase::Greeting,
                ConnectAction::Greet,
            ),
            (ConnectPhase::Greeting, ConnectReport::Done) => {
                let action = ConnectAction::Login {
                    user: self.cfg.user.clone(),
                    password: self.cfg.password.clone(),
                };
                self.go(ConnectPhase::LoggingIn, action)
            },
            (ConnectPhase::LoggingIn, ConnectReport::Done) => {
                let mode = self.first_mode();
                if self.cfg.mode == PassiveMode::Auto {
                    self.go(ConnectPhase::Probing, ConnectAction::Probe(mode))
                } else {
                    self.go(ConnectPhase::Over, ConnectAction::Ready(mode))
                }
            },
            (ConnectPhase::Probing, ConnectReport::Done) => {
                let mode = self.first_mode();
                self.go(ConnectPhase::Over, ConnectAction::Ready(mode))
            },
            (ConnectPhase::Probing, _) => self.go(
                ConnectPhase::Over,
                ConnectAction::Ready(DataMode::Passive),
            ),
            (ConnectPhase::Resolving, ConnectReport::Failed(text)) => self.give_up(
                SessionError::Io(text),
            ),
            (ConnectPhase::Preparing, ConnectReport::Failed(text)) => self.give_up(
                SessionError::Io(text),
            ),
            (_, ConnectReport::Failed(text)) => self.give_up(SessionError::Ftp(text)),
            _ => {
                let text = String::new();
                assert(text@ =~= Seq::<char>::empty());
                self.give_up(SessionError::Other(text))
            },
        }
    }
}

/// The session after the reports.
pub open spec fn connecting(c: ConnectorView, reports: Seq<ConnectReportView>) -> ConnectorView
    decreases reports.len(),
{
    if reports.len() == 0 {
        c
    } else {
        connect_step(connecting(c, reports.drop_last()), reports.last()).0
    }
}

/// What was done after the last report.
pub open spec fn last_action(
    c: ConnectorView,
    reports: Seq<ConnectReportView>,
) -> ConnectActionView {
    connect_step(connecting(c, reports.drop_last()), reports.last()).1
}

/// Whether every report is one that the session waits for.
pub open spec fn is_connect_run(c: ConnectorView, reports: Seq<ConnectReportView>) -> bool
    decreases reports.len(),
{
    reports.len() > 0 ==> is_connect_run(c, reports.drop_last()) && connecting(
        c,
        reports.drop_last(),
    ).expects(reports.last())
}

/// A session that is not plain is refused before anything is sent.
pub proof fn only_plain_sessions(cfg: ConfigView)
    ensures
        connect_step(unopened(cfg), ConnectReportView::Begin).1 is Fail <==> cfg.tls
            != TlsMode::Plain,
{
}

proof fn lemma_connecting_keeps(cfg: ConfigView, reports: Seq<ConnectReportView>)
    requires
        is_connect_run(unopened(cfg), reports),
    ensures
        connecting(unopened(cfg), reports).cfg == cfg,
        connecting(unopened(cfg), reports).phase == ConnectPhase::Probing ==> cfg.mode
            == PassiveMode::Auto,
        connecting(unopened(cfg), reports).phase != ConnectPhase::Start && connecting(
            unopened(cfg),
            reports,
        ).phase != ConnectPhase::Over ==> cfg.tls == TlsMode::Plain,
    decreases reports.len(),
{
    if reports.len() > 0 {
        lemma_connecting_keeps(cfg, reports.drop_last());
    }
}

/// The mode of an open session: the one that was asked for, and where that was left open, EPSV
/// where the server can do it and PASV where it cannot.
pub proof fn mode_is_negotiated(cfg: ConfigView, reports: Seq<ConnectReportView>, mode: DataMode)
    requires
        reports.len() > 0,
        is_connect_run(unopened(cfg), reports),
        last_action(unopened(cfg), reports) == ConnectActionView::Ready(mode),
    ensures
        cfg.tls == TlsMode::Plain,
        match cfg.mode {
            PassiveMode::Passive => mode == DataMode::Passive,
            PassiveMode::ExtendedPassive => mode == DataMode::ExtendedPassive,
            PassiveMode::Auto => mode == if reports.last() == ConnectReportView::Done {
                DataMode::ExtendedPassive
            } else {
                DataMode::Passive
            },
        },
{
    lemma_connecting_keeps(cfg, reports.drop_last());
}

/// Where no address answers, all of them were tried, in order, and the last failure is told.
pub proof fn all_addresses_are_tried(c: ConnectorView, failures: Seq<Seq<char>>, k: int)
    requires
        c.phase == ConnectPhase::Resolving,
        0 < failures.len(),
        0 <= k <= failures.len(),
    ensures
        ({
            let n = failures.len() as int;
            let reports = seq![ConnectReportView::Resolved(n)] + failures.take(k).map_values(
                |text: Seq<char>| ConnectReportView::Failed(text),
            );
            &&& is_connect_run(c, reports)
            &&& last_action(c, reports) == if k < n {
                ConnectActionView::Dial(k)
            } else {
                ConnectActionView::Fail(ErrorView::Io(failures.last()))
            }
            &&& k < n ==> connecting(c, reports) == ConnectorView {
                phase: ConnectPhase::Dialing,
                addrs: n,
                tried: k,
                ..c
            }
        }),
    decreases k,
{
    let n = failures.len() as int;
    let f = |text: Seq<char>| ConnectReportView::Failed(text);
    let first = seq![ConnectReportView::Resolved(n)];
    let reports = first + failures.take(k).map_values(f);
    reveal_with_fuel(connecting, 2);
    reveal_with_fuel(is_connect_run, 2);
    if k == 0 {
        assert(reports =~= first);
        assert(reports.drop_last() =~= Seq::<ConnectReportView>::empty());
    } else {
        all_addresses_are_tried(c, failures, k - 1);
        let earlier = first + failures.take(k - 1).map_values(f);
        assert(reports.drop_last() =~= earlier);
        assert(reports.last() == ConnectReportView::Failed(failures[k - 1]));
    }
}

/// What a listing that is being fetched waits for.
#[derive(Debug, Clone, Copy, PartialEq, Eq, Structural)]
pub enum ListPhase {
    Start,
    Mlsd,
    List,
    Retry,
    Over,
}

/// What is to be done next to list a directory.
#[derive(Debug)]
pub enum ListAction {
    /// Send MLSD.
    Mlsd,
    /// Send LIST.
    List,
    /// Set the mode to PASV and send LIST once more.
    Retry,
    /// The directory is listed; these lines of the server could not be read.
    Listed { entries: Vec<FileEntry>, unread: Vec<String> },
    /// It could not be.
    Fail(SessionError),
}

/// What a [`ListAction`] says.
#[verifier::ext_equal]
pub enum ListActionView {
    Mlsd,
    List,
    Retry,
    Listed { entries: Seq<EntryView>, unread: Seq<Seq<char>> },
    Fail(ErrorView),
}

impl DeepView for ListAction {
    type V = ListActionView;

    open spec fn deep_view(&self) -> ListActionView {
        match self {
            ListAction::Mlsd => ListActionView::Mlsd,
            ListAction::List => ListActionView::List,
            ListAction::Retry => ListActionView::Retry,
            ListAction::Listed { entries, unread } => ListActionView::Listed {
                entries: entries.deep_view(),
                unread: unread.deep_view(),
            },
            ListAction::Fail(err) => ListActionView::Fail(err.deep_view()),
        }
    }
}

/// What came of an action.
pub enum ListReport {
    /// The directory is to be listed.
    Begin,
    /// The server sent these lines, by a clock that showed `now`.
    Lines { lines: Vec<String>, now: i64 },
    /// It failed, with this message.
    Failed(String),
}

/// What a [`ListReport`] says.
#[verifier::ext_equal]
pub enum ListReportView {
    Begin,
    Lines { lines: Seq<Seq<char>>, now: i64 },
    Failed(Seq<char>),
}

impl DeepView for ListReport {
    type V = ListReportView;

    open spec fn deep_view(&self) -> ListReportView {
        match self {
            ListReport::Begin => ListReportView::Begin,
            ListReport::Lines { lines, now } => ListReportView::Lines {
                lines: lines.deep_view(),
                now: *now,
            },
            ListReport::Failed(text) => ListReportView::Failed(text@),
        }
    }
}

/// The entries that the lines of a listing say, sorted.
#[verifier::opaque]
pub open spec fn sorted_entries(lines: Seq<Seq<char>>, now: int) -> Seq<EntryView> {
    crate::ftp::order::sorted_listing(crate::ftp::parser::listing_entries(lines, now))
}

/// A directory is listed by its lines: the entries are sorted, and the lines that could not be
/// read are told as they came.
pub open spec fn listing_of(lines: Seq<Seq<char>>, now: int) -> ListActionView {
    ListActionView::Listed {
        entries: sorted_entries(lines, now),
        unread: crate::ftp::parser::unread_lines(lines, now),
    }
}

/// The lines of the log that tell of what could not be read, word by word.
pub open spec fn unread_events(unread: Seq<Seq<char>>) -> Seq<EventView> {
    unread.map_values(|line: Seq<char>| EventView::LogLine { dir: LogDir::Recv, text: line })
}

/// The lines of the log that tell of what could not be read, word by word.
pub fn log_unread(unread: Vec<String>) -> (r: Vec<FtpEvent>)
    ensures
        r.deep_view() == unread_events(unread.deep_view()),
{
    let mut events: Vec<FtpEvent> = Vec::new();
    for i in 0..unread.len()
        invariant
            events@.len() == i,
            forall|j: int|
                0 <= j < i ==> (#[trigger] events@[j]).deep_view() == (EventView::LogLine {
                    dir: LogDir::Recv,
                    text: unread@[j]@,
                }),
    {
        events.push(FtpEvent::LogLine { dir: LogDir::Recv, text: unread[i].clone() });
    }
    assert(events.deep_view() =~= unread_events(unread.deep_view()));
    events
}

/// Reads the lines of a listing, and sorts what they say.
pub fn read_listing(lines: &[String], now: i64) -> (out: Vec<FileEntry>)
    ensures
        out.deep_view() == sorted_entries(lines.deep_view(), now as int),
{
    let mut out = parse_lines_at(lines, now);
    let ghost entries = out.deep_view();
    let rest = out.as_mut_slice();
    assert(rest.deep_view() =~= entries);
    sort_entries(rest);
    assert(out.deep_view() =~= sorted_entries(lines.deep_view(), now as int)) by {
        reveal(sorted_entries);
    }
    out
}

/// An open session: the mode that it settled on, and the listing that it fetches.
pub struct FtpSession {
    mode: DataMode,
    phase: ListPhase,
    first_failure: String,
}

/// What an [`FtpSession`] knows: its mode, what it waits for, and how LIST failed first.
#[verifier::ext_equal]
pub struct SessionView {
    pub mode: DataMode,
    pub phase: ListPhase,
    pub first_failure: Seq<char>,
}

impl View for FtpSession {
    type V = SessionView;

    closed spec fn view(&self) -> SessionView {
        SessionView {
            mode: self.mode,
            phase: self.phase,
            first_failure: self.first_failure@,
        }
    }
}

impl SessionView {
    /// Whether the session waits for such a report.
    pub open spec fn expects(self, report: ListReportView) -> bool {
        match self.phase {
            ListPhase::Start => report is Begin,
            ListPhase::Over => report is Begin,
            _ => report is Lines || report is Failed,
        }
    }
}

/// What a session does with a report while it lists a directory. MLSD is tried first. LIST stands
/// in for it; where LIST fails by EPSV, the session falls back to PASV for good and tries again.
pub open spec fn list_step(s: SessionView, report: ListReportView) -> (
    SessionView,
    ListActionView,
) {
    match (s.phase, report) {
        (_, ListReportView::Begin) => (
            SessionView { phase: ListPhase::Mlsd, ..s },
            ListActionView::Mlsd,
        ),
        (_, ListReportView::Lines { lines, now }) => (
            SessionView { phase: ListPhase::Over, ..s },
            listing_of(lines, now as int),
        ),
        (ListPhase::Mlsd, ListReportView::Failed(text)) => (
            SessionView { phase: ListPhase::List, ..s },
            ListActionView::List,
        ),
        (ListPhase::List, ListReportView::Failed(text)) => if s.mode == DataMode::ExtendedPassive {
            (
                SessionView {
                    mode: DataMode::Passive,
                    phase: ListPhase::Retry,
                    first_failure: text,
                },
                ListActionView::Retry,
            )
        } else {
            (
                SessionView { phase: ListPhase::Over, ..s },
                ListActionView::Fail(ErrorView::Ftp(text)),
            )
        },
        (_, ListReportView::Failed(text)) => (
            SessionView { phase: ListPhase::Over, ..s },
            ListActionView::Fail(ErrorView::Ftp(s.first_failure)),
        ),
    }
}

impl FtpSession {
    /// A session that was opened in the given mode.
    pub fn new(mode: DataMode) -> (r: Self)
        ensures
            r@ == (SessionView { mode, phase: ListPhase::Start, first_failure: Seq::empty() }),
    {
        let r = FtpSession { mode, phase: ListPhase::Start, first_failure: String::new() };
        assert(r@.first_failure =~= Seq::<char>::empty());
        r
    }

    /// The mode that the session settled on.
    pub fn mode(&self) -> (r: DataMode)
        ensures
            r == self@.mode,
    {
        self.mode
    }

    /// Takes the report on the last action and says what is done next.
    pub fn step(&mut self, report: ListReport) -> (r: ListAction)
        requires
            old(self)@.expects(report.deep_view()),
        ensures
            (final(self)@, r.deep_view()) == list_step(old(self)@, report.deep_view()),
    {
        match (self.phase, report) {
            (_, ListReport::Begin) => {
                self.phase = ListPhase::Mlsd;
                ListAction::Mlsd
            },
            (_, ListReport::Lines { lines, now }) => {
                self.phase = ListPhase::Over;
                let all = lines.as_slice();
                assert(all.deep_view() =~= lines.deep_view());
                ListAction::Listed {
                    entries: read_listing(all, now),
                    unread: unread_lines_at(all, now),
                }
            },
            (ListPhase::Mlsd, ListReport::Failed(_)) => {
                self.phase = ListPhase::List;
                ListAction::List
            },
            (ListPhase::List, ListReport::Failed(text)) => if self.mode
                == DataMode::ExtendedPassive {
                self.mode = DataMode::Passive;
                self.phase = ListPhase::Retry;
                self.first_failure = text;
                ListAction::Retry
            } else {
                self.phase = ListPhase::Over;
                ListAction::Fail(SessionError::Ftp(text))
            },
            (_, ListReport::Failed(_)) => {
                self.phase = ListPhase::Over;
                ListAction::Fail(SessionError::Ftp(self.first_failure.clone()))
            },
        }
    }
}

/// What the server would answer to a command: the lines of a listing, or a failure.
pub enum Answer {
    Lines { lines: Seq<Seq<char>>, now: i64 },
    Failure(Seq<char>),
}

impl Answer {
    /// The answer as a report.
    pub open spec fn report(self) -> ListReportView {
        match self {
            Answer::Lines { lines, now } => ListReportView::Lines { lines, now },
            Answer::Failure(text) => ListReportView::Failed(text),
        }
    }

    /// What the answer lists.
    pub open spec fn listed(self) -> Option<ListActionView> {
        match self {
            Answer::Lines { lines, now } => Some(listing_of(lines, now as int)),
            Answer::Failure(text) => None,
        }
    }
}

/// The session after the reports.
pub open spec fn listing(s: SessionView, reports: Seq<ListReportView>) -> SessionView
    decreases reports.len(),
{
    if reports.len() == 0 {
        s
    } else {
        list_step(listing(s, reports.drop_last()), reports.last()).0
    }
}

/// The commands that answer one after the other, until the directory is listed or the last one
/// failed: MLSD, LIST and, by EPSV, LIST again.
pub open spec fn exchange(
    mode: DataMode,
    mlsd: Answer,
    first: Answer,
    second: Answer,
) -> Seq<ListReportView> {
    if mlsd is Lines {
        seq![ListReportView::Begin, mlsd.report()]
    } else if first is Lines || mode == DataMode::Passive {
        seq![ListReportView::Begin, mlsd.report(), first.report()]
    } else {
        seq![ListReportView::Begin, mlsd.report(), first.report(), second.report()]
    }
}

/// What comes of a listing, whatever the server answers. MLSD is used where it works, LIST where
/// it does not. A session that fell back to PASV stays with it. Where both LISTs fail, the first
/// failure is told.
pub proof fn listings_fall_back(
    s: SessionView,
    mlsd: Answer,
    first: Answer,
    second: Answer,
)
    requires
        s.phase == ListPhase::Start || s.phase == ListPhase::Over,
    ensures
        ({
            let reports = exchange(s.mode, mlsd, first, second);
            let before = listing(s, reports.drop_last());
            let (after, action) = list_step(before, reports.last());
            &&& before.expects(reports.last())
            &&& after == listing(s, reports)
            &&& after.phase == ListPhase::Over
            &&& after.mode == if s.mode == DataMode::Passive || (mlsd is Failure
                && first is Failure) {
                DataMode::Passive
            } else {
                DataMode::ExtendedPassive
            }
            &&& action == match (mlsd.listed(), first.listed(), second.listed()) {
                (Some(listed), _, _) => listed,
                (None, Some(listed), _) => listed,
                (None, None, Some(listed)) => if s.mode == DataMode::ExtendedPassive {
                    listed
                } else {
                    ListActionView::Fail(ErrorView::Ftp(first->Failure_0))
                },
                (None, None, None) => ListActionView::Fail(ErrorView::Ftp(first->Failure_0)),
            }
        }),
{
    let reports = exchange(s.mode, mlsd, first, second);
    let none = Seq::<ListReportView>::empty();
    let begin = seq![ListReportView::Begin];
    let two = seq![ListReportView::Begin, mlsd.report()];
    let three = seq![ListReportView::Begin, mlsd.report(), first.report()];
    assert(listing(s, none) == s);
    assert(begin.drop_last() =~= none);
    assert(begin.last() == ListReportView::Begin);
    let s1 = SessionView { phase: ListPhase::Mlsd, ..s };
    assert(listing(s, begin) == s1);
    assert(two.drop_last() =~= begin);
    assert(two.last() == mlsd.report());
    let s2 = list_step(s1, mlsd.report()).0;
    assert(listing(s, two) == s2);
    if mlsd is Failure {
        assert(three.drop_last() =~= two);
        assert(three.last() == first.report());
        let s3 = list_step(s2, first.report()).0;
        assert(listing(s, three) == s3);
        if reports.len() == 4 {
            assert(reports.drop_last() =~= three);
            assert(reports.last() == second.report());
        }
    }
}

/// A session is opened as it was asked for: the host is looked up at its port, and who logs in is
/// who was named.
pub proof fn sessions_are_opened_as_asked(cfg: ConfigView, reports: Seq<ConnectReportView>)
    requires
        reports.len() > 0,
        is_connect_run(unopened(cfg), reports),
    ensures
        match last_action(unopened(cfg), reports) {
            ConnectActionView::Resolve { host, port } => host == cfg.host && port == cfg.port,
            ConnectActionView::Login { user, password } => user == cfg.user && password
                == cfg.password,
            ConnectActionView::Probe(mode) => cfg.mode == PassiveMode::Auto && mode
                == DataMode::ExtendedPassive,
            _ => true,
        },
{
    lemma_connecting_keeps(cfg, reports.drop_last());
}

/// A plain session is opened step by step: the host is looked up, an address that answers is dialed,
/// prepared and greeted, and only then does one log in. What fails is told in its own words, save
/// where another address is left to try, or where only the mode is probed.
pub proof fn sessions_are_opened_step_by_step(c: ConnectorView, report: ConnectReportView)
    requires
        c.wf(),
        c.expects(report),
        c.cfg.tls == TlsMode::Plain,
    ensures
        ({
            let (next, action) = connect_step(c, report);
            let (then, after) = connect_step(next, ConnectReportView::Done);
            &&& report is Begin ==> action == (ConnectActionView::Resolve {
                host: c.cfg.host,
                port: c.cfg.port,
            })
            &&& report matches ConnectReportView::Resolved(n) ==> (n > 0 ==> action
                == ConnectActionView::Dial(0)) && (n == 0 ==> action is Fail)
            &&& action is Dial ==> after is Prepare
            &&& action is Prepare ==> after is Greet
            &&& action is Greet ==> after == (ConnectActionView::Login {
                user: c.cfg.user,
                password: c.cfg.password,
            })
            &&& action is Login ==> after is Probe || after is Ready
            &&& action is Probe ==> after is Ready && connect_step(
                next,
                ConnectReportView::Failed(Seq::empty()),
            ).1 == ConnectActionView::Ready(DataMode::Passive)
            &&& report matches ConnectReportView::Failed(text) ==> match action {
                ConnectActionView::Fail(err) => err == ErrorView::Io(text) || err
                    == ErrorView::Ftp(text),
                _ => action is Dial || action is Ready,
            }
            &&& report is Done ==> !(action is Fail)
        }),
{
}

/// A message tells what went wrong in the words that came, and an error of the server can be told
/// from one of the network.
pub proof fn messages_tell_the_cause(text: Seq<char>)
    ensures
        error_text(ErrorView::Ftp(text)) == "FTP 错误："@ + text,
        error_text(ErrorView::Io(text)) == "网络错误："@ + text,
        error_text(ErrorView::Other(text)) == text,
        error_text(ErrorView::Ftp(text)) != error_text(ErrorView::Io(text)),
{
    reveal_strlit("FTP 错误：");
    reveal_strlit("网络错误：");
    assert(error_text(ErrorView::Ftp(text))[0] == 'F');
    assert(error_text(ErrorView::Io(text))[0] == '网');
}

/// What a session lists is what the lines say, each entry once, and sorted.
pub proof fn listings_are_complete_and_sorted(lines: Seq<Seq<char>>, now: int)
    ensures
        crate::ftp::order::is_sorted_listing(
            crate::ftp::parser::listing_entries(lines, now),
            sorted_entries(lines, now),
        ),
        sorted_entries(lines, now).to_multiset() == crate::ftp::parser::listing_entries(
            lines,
            now,
        ).to_multiset(),
{
    reveal(sorted_entries);
    let entries = crate::ftp::parser::listing_entries(lines, now);
    crate::ftp::order::sorted_listing_sorts(entries);
    crate::ftp::order::sorting_keeps_the_entries(entries, sorted_entries(lines, now));
}

/// Whether it was the network or the server that failed is told: until the connection is ready it
/// is the network, and from the greeting on the server.
pub proof fn failures_are_put_down_to_their_cause(c: ConnectorView, text: Seq<char>)
    requires
        c.wf(),
        c.expects(ConnectReportView::Failed(text)),
        c.phase == ConnectPhase::Dialing ==> c.tried + 1 == c.addrs,
    ensures
        ({
            let action = connect_step(c, ConnectReportView::Failed(text)).1;
            match c.phase {
                ConnectPhase::Resolving => action == ConnectActionView::Fail(ErrorView::Io(text)),
                ConnectPhase::Dialing => action == ConnectActionView::Fail(ErrorView::Io(text)),
                ConnectPhase::Preparing => action == ConnectActionView::Fail(ErrorView::Io(text)),
                ConnectPhase::Greeting => action == ConnectActionView::Fail(ErrorView::Ftp(text)),
                ConnectPhase::LoggingIn => action == ConnectActionView::Fail(ErrorView::Ftp(text)),
                _ => action is Ready,
            }
        }),
{
}

/// Lines that could not be read are kept in the log word by word, as what the server sent.
pub proof fn unread_lines_are_logged_word_by_word(unread: Seq<Seq<char>>, i: int)
    requires
        0 <= i < unread.len(),
    ensures
        unread_events(unread).len() == unread.len(),
        unread_events(unread)[i] == (EventView::LogLine { dir: LogDir::Recv, text: unread[i] }),
{
}

/// Sessions that cannot be opened are refused before the server is asked: those that are not plain,
/// and those whose host has no address, which is named together with the port.
pub proof fn refused_sessions_are_told_why(c: ConnectorView)
    requires
        c.wf(),
    ensures
        c.phase == ConnectPhase::Start && c.cfg.tls != TlsMode::Plain ==> connect_step(
            c,
            ConnectReportView::Begin,
        ).1 == ConnectActionView::Fail(ErrorView::Other("FTPS 将在 M6 里程碑提供"@)),
        c.phase == ConnectPhase::Resolving ==> connect_step(c, ConnectReportView::Resolved(0)).1
            == ConnectActionView::Fail(
            ErrorView::Other(
                "无法解析地址 "@ + (c.cfg.host + seq![':'] + crate::text::decimal(
                    c.cfg.port as int,
                )),
            ),
        ),
{
}

/// A directory is asked for by MLSD, then by LIST, and by LIST again where that failed by EPSV;
/// what comes is listed at once, and lines that could not be read come with it.
pub proof fn listings_are_asked_for_in_order(
    s: SessionView,
    text: Seq<char>,
    lines: Seq<Seq<char>>,
    now: i64,
)
    requires
        s.phase == ListPhase::Start || s.phase == ListPhase::Over,
    ensures
        ({
            let failed = ListReportView::Failed(text);
            let came = ListReportView::Lines { lines, now };
            let (s1, a1) = list_step(s, ListReportView::Begin);
            let (s2, a2) = list_step(s1, failed);
            let (s3, a3) = list_step(s2, failed);
            &&& a1 is Mlsd && a2 is List
            &&& s.mode == DataMode::ExtendedPassive ==> a3 is Retry && s3.mode == DataMode::Passive
            &&& s.mode == DataMode::Passive ==> a3 is Fail
            &&& s1.mode == s.mode && s2.mode == s.mode
            &&& list_step(s1, came).0.mode == s.mode && list_step(s2, came).0.mode == s.mode
            &&& list_step(s1, came).1 matches ListActionView::Listed { entries, unread } && unread
                == crate::ftp::parser::unread_lines(lines, now as int) && entries == sorted_entries(
                lines,
                now as int,
            )
        }),
{
}

} // verus!
