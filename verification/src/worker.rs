//! The worker that owns the control connection and the worker that owns the local file system.
//! Both take one command at a time. They say what is to be done, are told what came of it, and
//! say what the window and the queue are told.

use vstd::prelude::*;

use crate::ftp::client::with_address;
use crate::ftp::types::{
    CommandView, ConfigView, ConnectConfig, EntryView, EventView, FileEntry, FtpCommand, FtpEvent,
    LocalCommandView, LocalFsCommand, LogDir,
};
use crate::local::{parent, PathKind};
use crate::queue::{QueueCommand, QueueCommandView};
use crate::text::{appended, push_text};

verus! {

/// A failure, told with what was attempted.
pub open spec fn failure(context: Seq<char>, message: Seq<char>) -> EventView {
    EventView::Error { context, message }
}

/// The event that tells of a failure.
pub fn error_event(context: &str, err: String) -> (r: FtpEvent)
    ensures
        r.deep_view() == failure(context@, err@),
{
    FtpEvent::Error { context: context.to_string(), message: err }
}

/// A line for the log.
pub open spec fn info(text: Seq<char>) -> EventView {
    EventView::LogLine { dir: LogDir::Info, text }
}

/// The event that puts a line into the log.
fn info_event(text: String) -> (r: FtpEvent)
    ensures
        r.deep_view() == info(text@),
{
    FtpEvent::LogLine { dir: LogDir::Info, text }
}

/// What the control worker waits for.
pub enum ControlPhase {
    /// The next command.
    Idle,
    /// A new session.
    Connecting(ConnectConfig),
    /// The listing of this directory.
    Listing(String),
    /// The change of the current directory.
    Entering,
    /// The new directory.
    Making(String),
    /// The removal, as a file, of the path at this position.
    Removing(Vec<String>, usize),
    /// The removal, as a directory, of the path at this position.
    RemovingDir(Vec<String>, usize),
    /// The renaming.
    Renaming(String, String),
    /// The name of the current directory.
    Locating,
    /// The listing of the current directory, which has this name.
    Refreshing(String),
    /// The end of the session.
    Quitting,
}

/// What a [`ControlPhase`] says.
#[verifier::ext_equal]
pub enum ControlPhaseView {
    Idle,
    Connecting(ConfigView),
    Listing(Seq<char>),
    Entering,
    Making(Seq<char>),
    Removing(Seq<Seq<char>>, int),
    RemovingDir(Seq<Seq<char>>, int),
    Renaming(Seq<char>, Seq<char>),
    Locating,
    Refreshing(Seq<char>),
    Quitting,
}

impl DeepView for ControlPhase {
    type V = ControlPhaseView;

    open spec fn deep_view(&self) -> ControlPhaseView {
        match self {
            ControlPhase::Idle => ControlPhaseView::Idle,
            ControlPhase::Connecting(cfg) => ControlPhaseView::Connecting(cfg.deep_view()),
            ControlPhase::Listing(path) => ControlPhaseView::Listing(path@),
            ControlPhase::Entering => ControlPhaseView::Entering,
            ControlPhase::Making(path) => ControlPhaseView::Making(path@),
            ControlPhase::Removing(paths, at) => ControlPhaseView::Removing(
                paths.deep_view(),
                *at as int,
            ),
            ControlPhase::RemovingDir(paths, at) => ControlPhaseView::RemovingDir(
                paths.deep_view(),
                *at as int,
            ),
            ControlPhase::Renaming(from, to) => ControlPhaseView::Renaming(from@, to@),
            ControlPhase::Locating => ControlPhaseView::Locating,
            ControlPhase::Refreshing(path) => ControlPhaseView::Refreshing(path@),
            ControlPhase::Quitting => ControlPhaseView::Quitting,
        }
    }
}

/// What is to be done next on the control connection.
#[derive(Debug)]
pub enum ControlAction {
    /// Wait for the next command.
    Wait,
    /// Open a session, which takes the place of the one there is.
    Connect(ConnectConfig),
    /// List this directory, or the current one.
    List(Option<String>),
    /// Enter the directory.
    Enter(String),
    /// Make the directory.
    Make(String),
    /// Remove the file.
    Remove(String),
    /// Remove the directory.
    RemoveDir(String),
    /// Rename the first path to the second.
    Rename(String, String),
    /// Ask for the current directory.
    AskDir,
    /// End the session.
    Quit,
}

/// What a [`ControlAction`] says.
#[verifier::ext_equal]
pub enum ControlActionView {
    Wait,
    Connect(ConfigView),
    List(Option<Seq<char>>),
    Enter(Seq<char>),
    Make(Seq<char>),
    Remove(Seq<char>),
    RemoveDir(Seq<char>),
    Rename(Seq<char>, Seq<char>),
    AskDir,
    Quit,
}

impl DeepView for ControlAction {
    type V = ControlActionView;

    open spec fn deep_view(&self) -> ControlActionView {
        match self {
            ControlAction::Wait => ControlActionView::Wait,
            ControlAction::Connect(cfg) => ControlActionView::Connect(cfg.deep_view()),
            ControlAction::List(path) => ControlActionView::List(path.deep_view()),
            ControlAction::Enter(path) => ControlActionView::Enter(path@),
            ControlAction::Make(path) => ControlActionView::Make(path@),
            ControlAction::Remove(path) => ControlActionView::Remove(path@),
            ControlAction::RemoveDir(path) => ControlActionView::RemoveDir(path@),
            ControlAction::Rename(from, to) => ControlActionView::Rename(from@, to@),
            ControlAction::AskDir => ControlActionView::AskDir,
            ControlAction::Quit => ControlActionView::Quit,
        }
    }
}

/// What the control worker is told.
pub enum ControlReport {
    /// The next command.
    Command(FtpCommand),
    /// It succeeded.
    Done,
    /// The current directory.
    Dir(String),
    /// The directory's entries.
    Entries(Vec<FileEntry>),
    /// It failed, with this message.
    Failed(String),
}

/// What a [`ControlReport`] says.
#[verifier::ext_equal]
pub enum ControlReportView {
    Command(CommandView),
    Done,
    Dir(Seq<char>),
    Entries(Seq<EntryView>),
    Failed(Seq<char>),
}

impl DeepView for ControlReport {
    type V = ControlReportView;

    open spec fn deep_view(&self) -> ControlReportView {
        match self {
            ControlReport::Command(cmd) => ControlReportView::Command(cmd.deep_view()),
            ControlReport::Done => ControlReportView::Done,
            ControlReport::Dir(path) => ControlReportView::Dir(path@),
            ControlReport::Entries(entries) => ControlReportView::Entries(entries.deep_view()),
            ControlReport::Failed(text) => ControlReportView::Failed(text@),
        }
    }
}

/// What the control worker says: the events to show, in order, what the queue is told, and what
/// is to be done next.
#[derive(Debug)]
pub struct ControlReply {
    pub events: Vec<FtpEvent>,
    pub queue: Option<QueueCommand>,
    pub action: ControlAction,
}

/// What a [`ControlReply`] says.
#[verifier::ext_equal]
pub struct ControlReplyView {
    pub events: Seq<EventView>,
    pub queue: Option<QueueCommandView>,
    pub action: ControlActionView,
}

impl DeepView for ControlReply {
    type V = ControlReplyView;

    open spec fn deep_view(&self) -> ControlReplyView {
        ControlReplyView {
            events: self.events.deep_view(),
            queue: self.queue.deep_view(),
            action: self.action.deep_view(),
        }
    }
}

/// The control worker.
pub struct ControlWorker {
    has_session: bool,
    phase: ControlPhase,
}

/// What a [`ControlWorker`] knows: whether there is a session, and what it waits for.
#[verifier::ext_equal]
pub struct ControlView {
    pub has_session: bool,
    pub phase: ControlPhaseView,
}

impl View for ControlWorker {
    type V = ControlView;

    closed spec fn view(&self) -> ControlView {
        ControlView { has_session: self.has_session, phase: self.phase.deep_view() }
    }
}

impl ControlView {
    /// Whether the parts fit together.
    pub open spec fn wf(self) -> bool {
        match self.phase {
            ControlPhaseView::Idle => true,
            ControlPhaseView::Connecting(cfg) => true,
            ControlPhaseView::Quitting => true,
            ControlPhaseView::Removing(paths, at) => self.has_session && 0 <= at < paths.len(),
            ControlPhaseView::RemovingDir(paths, at) => self.has_session && 0 <= at < paths.len(),
            _ => self.has_session,
        }
    }

    /// Whether the worker waits for such a report.
    pub open spec fn expects(self, report: ControlReportView) -> bool {
        match self.phase {
            ControlPhaseView::Idle => report is Command,
            ControlPhaseView::Listing(path) => report is Entries || report is Failed,
            ControlPhaseView::Refreshing(path) => report is Entries || report is Failed,
            ControlPhaseView::Locating => report is Dir || report is Failed,
            _ => report is Done || report is Failed,
        }
    }
}

/// A worker, and what it says.
pub type ControlNext = (ControlView, ControlReplyView);

/// The worker goes on to another phase.
pub open spec fn going_on(
    w: ControlView,
    phase: ControlPhaseView,
    events: Seq<EventView>,
    action: ControlActionView,
) -> ControlNext {
    (ControlView { phase, ..w }, ControlReplyView { events, queue: None, action })
}

/// The command is done with.
pub open spec fn done_with(w: ControlView, events: Seq<EventView>) -> ControlNext {
    going_on(w, ControlPhaseView::Idle, events, ControlActionView::Wait)
}

/// The current directory is listed anew.
pub open spec fn refreshing(w: ControlView, events: Seq<EventView>) -> ControlNext {
    going_on(w, ControlPhaseView::Locating, events, ControlActionView::AskDir)
}

/// The path at `at`, and those behind it, are removed; then the directory is listed anew.
pub open spec fn removing(
    w: ControlView,
    paths: Seq<Seq<char>>,
    at: int,
    events: Seq<EventView>,
) -> ControlNext {
    if at < paths.len() {
        going_on(
            w,
            ControlPhaseView::Removing(paths, at),
            events,
            ControlActionView::Remove(paths[at]),
        )
    } else {
        refreshing(w, events)
    }
}

/// The queue is told.
pub open spec fn queueing(w: ControlView, cmd: QueueCommandView) -> ControlNext {
    (
        ControlView { phase: ControlPhaseView::Idle, ..w },
        ControlReplyView {
            events: Seq::empty(),
            queue: Some(cmd),
            action: ControlActionView::Wait,
        },
    )
}

/// A command that needs a session.
pub open spec fn with_session(
    w: ControlView,
    phase: ControlPhaseView,
    action: ControlActionView,
) -> ControlNext {
    if w.has_session {
        going_on(w, phase, Seq::empty(), action)
    } else {
        done_with(w, seq![failure("未连接"@, "请先连接服务器"@)])
    }
}

/// The line that tells where a connection is made to.
pub open spec fn connecting_text(host: Seq<char>, port: u16) -> Seq<char> {
    "正在连接 "@ + crate::ftp::client::address(host, port) + " …"@
}

/// The line that tells where a connection is made to.
pub fn connecting_line(host: &str, port: u16) -> (r: String)
    ensures
        r@ == connecting_text(host@, port),
{
    let mut text = with_address("正在连接 ", host, port);
    push_text(&mut text, " …");
    text
}

/// What the worker does with a command.
pub open spec fn begin(w: ControlView, cmd: CommandView) -> ControlNext {
    match cmd {
        CommandView::Ping => done_with(
            w,
            seq![info("pong：worker → invoke_from_event_loop 事件回流 OK"@)],
        ),
        CommandView::Connect(cfg) => going_on(
            w,
            ControlPhaseView::Connecting(cfg),
            seq![info(connecting_text(cfg.host, cfg.port))],
            ControlActionView::Connect(cfg),
        ),
        CommandView::List { path } => with_session(
            w,
            ControlPhaseView::Listing(path),
            ControlActionView::List(Some(path)),
        ),
        CommandView::Navigate { path } => with_session(
            w,
            ControlPhaseView::Entering,
            ControlActionView::Enter(path),
        ),
        CommandView::Mkdir { path } => with_session(
            w,
            ControlPhaseView::Making(path),
            ControlActionView::Make(path),
        ),
        CommandView::Delete { paths } => if w.has_session {
            removing(w, paths, 0, Seq::empty())
        } else {
            with_session(w, ControlPhaseView::Locating, ControlActionView::AskDir)
        },
        CommandView::Rename { from, to } => with_session(
            w,
            ControlPhaseView::Renaming(from, to),
            ControlActionView::Rename(from, to),
        ),
        CommandView::Chmod { path, mode } => done_with(
            w,
            seq![failure("CHMOD"@, "将在 M5 提供"@)],
        ),
        CommandView::EnqueueTransfers { tasks } => queueing(w, QueueCommandView::Enqueue(tasks)),
        CommandView::CancelTask { task_id } => queueing(w, QueueCommandView::Cancel(task_id)),
        CommandView::Quit => if w.has_session {
            going_on(
                ControlView { has_session: false, ..w },
                ControlPhaseView::Quitting,
                Seq::empty(),
                ControlActionView::Quit,
            )
        } else {
            done_with(w, seq![farewell()])
        },
    }
}

/// The event that tells that the session was ended.
pub open spec fn farewell() -> EventView {
    EventView::Disconnected { reason: "已主动断开"@ }
}

/// What the worker does with a report. A session that was opened is told to the queue and
/// shown; one that could not be opened leaves the one there was.
pub open spec fn control_step(w: ControlView, report: ControlReportView) -> ControlNext {
    match (w.phase, report) {
        (ControlPhaseView::Idle, ControlReportView::Command(cmd)) => begin(w, cmd),
        (ControlPhaseView::Connecting(cfg), ControlReportView::Done) => (
            ControlView { has_session: true, phase: ControlPhaseView::Locating },
            ControlReplyView {
                events: seq![info("登录成功："@ + cfg.user), EventView::Connected],
                queue: Some(QueueCommandView::SetConfig(cfg)),
                action: ControlActionView::AskDir,
            },
        ),
        (ControlPhaseView::Connecting(cfg), ControlReportView::Failed(text)) => done_with(
            w,
            seq![failure("连接"@, text)],
        ),
        (ControlPhaseView::Listing(path), ControlReportView::Entries(entries)) => done_with(
            w,
            seq![EventView::Listing { path, entries }],
        ),
        (ControlPhaseView::Listing(path), ControlReportView::Failed(text)) => done_with(
            w,
            seq![failure("列目录"@, text)],
        ),
        (ControlPhaseView::Entering, ControlReportView::Done) => refreshing(w, Seq::empty()),
        (ControlPhaseView::Entering, ControlReportView::Failed(text)) => done_with(
            w,
            seq![failure("进入目录"@, text)],
        ),
        (ControlPhaseView::Making(path), ControlReportView::Done) => refreshing(
            w,
            seq![info("已创建目录 "@ + path)],
        ),
        (ControlPhaseView::Making(path), ControlReportView::Failed(text)) => done_with(
            w,
            seq![failure("新建目录"@, text)],
        ),
        (ControlPhaseView::Removing(paths, at), ControlReportView::Done) => removing(
            w,
            paths,
            at + 1,
            Seq::empty(),
        ),
        (ControlPhaseView::Removing(paths, at), ControlReportView::Failed(text)) => going_on(
            w,
            ControlPhaseView::RemovingDir(paths, at),
            Seq::empty(),
            ControlActionView::RemoveDir(paths[at]),
        ),
        (ControlPhaseView::RemovingDir(paths, at), ControlReportView::Done) => removing(
            w,
            paths,
            at + 1,
            Seq::empty(),
        ),
        (ControlPhaseView::RemovingDir(paths, at), ControlReportView::Failed(text)) => removing(
            w,
            paths,
            at + 1,
            seq![failure("删除"@, text)],
        ),
        (ControlPhaseView::Renaming(from, to), ControlReportView::Done) => refreshing(
            w,
            seq![info("已重命名 "@ + from + " → "@ + to)],
        ),
        (ControlPhaseView::Renaming(from, to), ControlReportView::Failed(text)) => done_with(
            w,
            seq![failure("重命名"@, text)],
        ),
        (ControlPhaseView::Locating, ControlReportView::Dir(path)) => going_on(
            w,
            ControlPhaseView::Refreshing(path),
            Seq::empty(),
            ControlActionView::List(None),
        ),
        (ControlPhaseView::Locating, ControlReportView::Failed(text)) => done_with(
            w,
            seq![failure("获取当前目录"@, text)],
        ),
        (ControlPhaseView::Refreshing(path), ControlReportView::Entries(entries)) => done_with(
            w,
            seq![EventView::Listing { path, entries }],
        ),
        (ControlPhaseView::Refreshing(path), ControlReportView::Failed(text)) => done_with(
            w,
            seq![failure("列目录"@, text)],
        ),
        (ControlPhaseView::Quitting, _) => done_with(w, seq![farewell()]),
        _ => done_with(w, Seq::empty()),
    }
}

/// No events.
fn no_events() -> (r: Vec<FtpEvent>)
    ensures
        r.deep_view() == Seq::<EventView>::empty(),
{
    let r: Vec<FtpEvent> = Vec::new();
    assert(r.deep_view() =~= Seq::<EventView>::empty());
    r
}

/// One event.
fn one_event(event: FtpEvent) -> (r: Vec<FtpEvent>)
    ensures
        r.deep_view() == seq![event.deep_view()],
{
    let mut r: Vec<FtpEvent> = Vec::new();
    r.push(event);
    assert(r.deep_view() =~= seq![event.deep_view()]);
    r
}

impl ControlWorker {
    /// A worker without a session that waits for a command.
    pub fn new() -> (r: Self)
        ensures
            r@ == (ControlView { has_session: false, phase: ControlPhaseView::Idle }),
            r@.wf(),
    {
        ControlWorker { has_session: false, phase: ControlPhase::Idle }
    }

    /// Whether there is a session.
    pub fn has_session(&self) -> (r: bool)
        ensures
            r == self@.has_session,
    {
        self.has_session
    }

    fn go_on(
        &mut self,
        phase: ControlPhase,
        events: Vec<FtpEvent>,
        action: ControlAction,
    ) -> (r: ControlReply)
        ensures
            (final(self)@, r.deep_view()) == going_on(
                old(self)@,
                phase.deep_view(),
                events.deep_view(),
                action.deep_view(),
            ),
    {
        self.phase = phase;
        ControlReply { events, queue: None, action }
    }

    fn be_done(&mut self, events: Vec<FtpEvent>) -> (r: ControlReply)
        ensures
            (final(self)@, r.deep_view()) == done_with(old(self)@, events.deep_view()),
    {
        self.go_on(ControlPhase::Idle, events, ControlAction::Wait)
    }

    fn fail(&mut self, context: &str, text: String) -> (r: ControlReply)
        ensures
            (final(self)@, r.deep_view()) == done_with(
                old(self)@,
                seq![failure(context@, text@)],
            ),
    {
        self.be_done(one_event(error_event(context, text)))
    }

    fn refresh(&mut self, events: Vec<FtpEvent>) -> (r: ControlReply)
        ensures
            (final(self)@, r.deep_view()) == refreshing(old(self)@, events.deep_view()),
    {
        self.go_on(ControlPhase::Locating, events, ControlAction::AskDir)
    }

    fn remove(&mut self, paths: Vec<String>, at: usize, events: Vec<FtpEvent>) -> (r: ControlReply)
        ensures
            (final(self)@, r.deep_view()) == removing(
                old(self)@,
                paths.deep_view(),
                at as int,
                events.deep_view(),
            ),
    {
        if at < paths.len() {
            let path = paths[at].clone();
            assert(path@ == paths.deep_view()[at as int]);
            self.go_on(ControlPhase::Removing(paths, at), events, ControlAction::Remove(path))
        } else {
            self.refresh(events)
        }
    }

    fn remove_next(
        &mut self,
        paths: Vec<String>,
        at: usize,
        events: Vec<FtpEvent>,
    ) -> (r: ControlReply)
        requires
            at < paths@.len(),
        ensures
            (final(self)@, r.deep_view()) == removing(
                old(self)@,
                paths.deep_view(),
                at + 1,
                events.deep_view(),
            ),
    {
        let n: usize = paths.len();
        assert(at < n);
        self.remove(paths, at + 1, events)
    }

    fn tell_queue(&mut self, cmd: QueueCommand) -> (r: ControlReply)
        ensures
            (final(self)@, r.deep_view()) == queueing(old(self)@, cmd.deep_view()),
    {
        self.phase = ControlPhase::Idle;
        ControlReply { events: no_events(), queue: Some(cmd), action: ControlAction::Wait }
    }

    fn with_session(&mut self, phase: ControlPhase, action: ControlAction) -> (r: ControlReply)
        ensures
            (final(self)@, r.deep_view()) == with_session(
                old(self)@,
                phase.deep_view(),
                action.deep_view(),
            ),
    {
        if self.has_session {
            self.go_on(phase, no_events(), action)
        } else {
            self.fail("未连接", "请先连接服务器".to_string())
        }
    }

    fn begin(&mut self, cmd: FtpCommand) -> (r: ControlReply)
        ensures
            (final(self)@, r.deep_view()) == begin(old(self)@, cmd.deep_view()),
    {
        match cmd {
            FtpCommand::Ping => self.be_done(
                one_event(
                    info_event("pong：worker → invoke_from_event_loop 事件回流 OK".to_string()),
                ),
            ),
            FtpCommand::Connect(cfg) => {
                let events = one_event(info_event(connecting_line(cfg.host.as_str(), cfg.port)));
                let action = ControlAction::Connect(cfg.clone());
                self.go_on(ControlPhase::Connecting(cfg), events, action)
            },
            FtpCommand::List { path } => {
                let action = ControlAction::List(Some(path.clone()));
                self.with_session(ControlPhase::Listing(path), action)
            },
            FtpCommand::Navigate { path } => self.with_session(
                ControlPhase::Entering,
                ControlAction::Enter(path),
            ),
            FtpCommand::Mkdir { path } => {
                let action = ControlAction::Make(path.clone());
                self.with_session(ControlPhase::Making(path), action)
            },
            FtpCommand::Delete { paths } => if self.has_session {
                self.remove(paths, 0, no_events())
            } else {
                self.with_session(ControlPhase::Locating, ControlAction::AskDir)
            },
            FtpCommand::Rename { from, to } => {
                let action = ControlAction::Rename(from.clone(), to.clone());
                self.with_session(ControlPhase::Renaming(from, to), action)
            },
            FtpCommand::Chmod { path: _, mode: _ } => self.fail(
                "CHMOD",
                "将在 M5 提供".to_string(),
            ),
            FtpCommand::EnqueueTransfers { tasks } => self.tell_queue(
                QueueCommand::Enqueue(tasks),
            ),
            FtpCommand::CancelTask { task_id } => self.tell_queue(QueueCommand::Cancel(task_id)),
            FtpCommand::Quit => if self.has_session {
                self.has_session = false;
                self.go_on(ControlPhase::Quitting, no_events(), ControlAction::Quit)
            } else {
                self.say_farewell()
            },
        }
    }

    fn say_farewell(&mut self) -> (r: ControlReply)
        ensures
            (final(self)@, r.deep_view()) == done_with(old(self)@, seq![farewell()]),
    {
        self.be_done(one_event(FtpEvent::Disconnected { reason: "已主动断开".to_string() }))
    }

    fn session_opened(&mut self, cfg: ConnectConfig) -> (r: ControlReply)
        ensures
            (final(self)@, r.deep_view()) == control_step(
                ControlView {
                    phase: ControlPhaseView::Connecting(cfg.deep_view()),
                    ..old(self)@
                },
                ControlReportView::Done,
            ),
    {
        self.has_session = true;
        self.phase = ControlPhase::Locating;
        let mut events = one_event(info_event(appended("登录成功：", cfg.user.as_str())));
        let ghost first = events.deep_view();
        events.push(FtpEvent::Connected);
        assert(events.deep_view() =~= first.push(EventView::Connected));
        assert(events.deep_view() =~= seq![info("登录成功："@ + cfg.user@), EventView::Connected]);
        ControlReply {
            events,
            queue: Some(QueueCommand::SetConfig(cfg)),
            action: ControlAction::AskDir,
        }
    }

    /// Takes a command, or the report on the last action, and says what is told and done next.
    pub fn step(&mut self, report: ControlReport) -> (r: ControlReply)
        requires
            old(self)@.wf(),
            old(self)@.expects(report.deep_view()),
        ensures
            (final(self)@, r.deep_view()) == control_step(old(self)@, report.deep_view()),
            final(self)@.wf(),
    {
        let mut phase = ControlPhase::Idle;
        std::mem::swap(&mut self.phase, &mut phase);
        match (phase, report) {
            (ControlPhase::Idle, ControlReport::Command(cmd)) => self.begin(cmd),
            (ControlPhase::Connecting(cfg), ControlReport::Done) => self.session_opened(cfg),
            (ControlPhase::Connecting(_), ControlReport::Failed(text)) => self.fail("连接", text),
            (ControlPhase::Listing(path), ControlReport::Entries(entries)) => self.be_done(
                one_event(FtpEvent::Listing { path, entries }),
            ),
            (ControlPhase::Listing(_), ControlReport::Failed(text)) => self.fail("列目录", text),
            (ControlPhase::Entering, ControlReport::Done) => self.refresh(no_events()),
            (ControlPhase::Entering, ControlReport::Failed(text)) => self.fail("进入目录", text),
            (ControlPhase::Making(path), ControlReport::Done) => self.refresh(
                one_event(info_event(appended("已创建目录 ", path.as_str()))),
            ),
            (ControlPhase::Making(_), ControlReport::Failed(text)) => self.fail("新建目录", text),
            (ControlPhase::Removing(paths, at), ControlReport::Done) => self.remove_next(
                paths,
                at,
                no_events(),
            ),
            (ControlPhase::Removing(paths, at), ControlReport::Failed(_)) => {
                let path = paths[at].clone();
                assert(path@ == paths.deep_view()[at as int]);
                self.go_on(
                    ControlPhase::RemovingDir(paths, at),
                    no_events(),
                    ControlAction::RemoveDir(path),
                )
            },
            (ControlPhase::RemovingDir(paths, at), ControlReport::Done) => self.remove_next(
                paths,
                at,
                no_events(),
            ),
            (ControlPhase::RemovingDir(paths, at), ControlReport::Failed(text)) => self.remove_next(
                paths,
                at,
                one_event(error_event("删除", text)),
            ),
            (ControlPhase::Renaming(from, to), ControlReport::Done) => {
                let mut text = appended("已重命名 ", from.as_str());
                push_text(&mut text, " → ");
                push_text(&mut text, to.as_str());
                self.refresh(one_event(info_event(text)))
            },
            (ControlPhase::Renaming(_, _), ControlReport::Failed(text)) => self.fail(
                "重命名",
                text,
            ),
            (ControlPhase::Locating, ControlReport::Dir(path)) => self.go_on(
                ControlPhase::Refreshing(path),
                no_events(),
                ControlAction::List(None),
            ),
            (ControlPhase::Locating, ControlReport::Failed(text)) => self.fail(
                "获取当前目录",
                text,
            ),
            (ControlPhase::Refreshing(path), ControlReport::Entries(entries)) => self.be_done(
                one_event(FtpEvent::Listing { path, entries }),
            ),
            (ControlPhase::Refreshing(_), ControlReport::Failed(text)) => self.fail(
                "列目录",
                text,
            ),
            (ControlPhase::Quitting, _) => self.say_farewell(),
            _ => self.be_done(no_events()),
        }
    }
}


/// How many reports the worker takes, at most, before it waits for the next command.
pub open spec fn reports_left(w: ControlView) -> nat {
    match w.phase {
        ControlPhaseView::Idle => 0,
        ControlPhaseView::Refreshing(path) => 1,
        ControlPhaseView::Listing(path) => 1,
        ControlPhaseView::Quitting => 1,
        ControlPhaseView::Locating => 2,
        ControlPhaseView::RemovingDir(paths, at) => (3 + 2 * (paths.len() - at - 1)) as nat,
        ControlPhaseView::Removing(paths, at) => (4 + 2 * (paths.len() - at - 1)) as nat,
        _ => 3,
    }
}

/// Every command comes to an end: each report brings the worker closer to the next command.
pub proof fn commands_come_to_an_end(w: ControlView, report: ControlReportView)
    requires
        w.wf(),
        w.expects(report),
        w.phase != ControlPhaseView::Idle,
    ensures
        reports_left(control_step(w, report).0) < reports_left(w),
        control_step(w, report).0.phase == ControlPhaseView::Idle <==> control_step(w, report).1.action
            == ControlActionView::Wait,
{
}

/// Without a session nothing is done on the server but to open one: every command that needs one
/// is answered by the same failure.
pub proof fn no_session_no_action(w: ControlView, cmd: CommandView)
    requires
        !w.has_session,
        w.phase == ControlPhaseView::Idle,
    ensures
        ({
            let (next, reply) = control_step(w, ControlReportView::Command(cmd));
            &&& reply.action is Wait || reply.action is Connect
            &&& reply.action is Connect <==> cmd is Connect
            &&& cmd is List || cmd is Navigate || cmd is Mkdir || cmd is Delete || cmd is Rename
                ==> reply.events == seq![failure("未连接"@, "请先连接服务器"@)] && next == w
        }),
{
}

/// Every command is answered: when the worker waits again, an event was shown or the queue was
/// told.
pub proof fn commands_are_answered(w: ControlView, report: ControlReportView)
    requires
        w.wf(),
        w.expects(report),
        control_step(w, report).1.action is Wait,
    ensures
        control_step(w, report).1.events.len() > 0 || control_step(w, report).1.queue.is_some(),
{
}

/// What changes the server's files, or the current directory, ends with a new listing: once it
/// succeeded, the current directory is asked for, and then listed under that name.
pub proof fn changes_are_listed(w: ControlView, path: Seq<char>, entries: Seq<EntryView>)
    requires
        w.wf(),
        w.phase is Entering || w.phase is Making || w.phase is Renaming || (w.phase matches
            ControlPhaseView::Removing(paths, at) && at == paths.len() - 1),
    ensures
        ({
            let (w1, r1) = control_step(w, ControlReportView::Done);
            let (w2, r2) = control_step(w1, ControlReportView::Dir(path));
            let (w3, r3) = control_step(w2, ControlReportView::Entries(entries));
            &&& r1.action == ControlActionView::AskDir
            &&& r2.action == ControlActionView::List(None)
            &&& r3.events == seq![EventView::Listing { path, entries }]
            &&& w3.phase == ControlPhaseView::Idle
        }),
{
}

/// A failed attempt to connect leaves the session there is.
pub proof fn failed_connects_keep_the_session(w: ControlView, cfg: ConfigView, text: Seq<char>)
    requires
        w.phase == ControlPhaseView::Idle,
    ensures
        ({
            let (w1, r1) = control_step(w, ControlReportView::Command(CommandView::Connect(cfg)));
            let (w2, r2) = control_step(w1, ControlReportView::Failed(text));
            &&& w2 == w
            &&& r2.events == seq![failure("连接"@, text)]
            &&& r2.queue.is_none()
        }),
{
}

/// What the local worker waits for.
pub enum LocalPhase {
    /// The next command.
    Idle,
    /// The listing of this directory.
    Listing(String),
    /// The new directory.
    Making(String),
    /// The removal of the path at this position.
    Removing(Vec<String>, usize),
    /// The renaming to this path.
    Renaming(String),
}

/// What a [`LocalPhase`] says.
#[verifier::ext_equal]
pub enum LocalPhaseView {
    Idle,
    Listing(Seq<char>),
    Making(Seq<char>),
    Removing(Seq<Seq<char>>, int),
    Renaming(Seq<char>),
}

impl DeepView for LocalPhase {
    type V = LocalPhaseView;

    open spec fn deep_view(&self) -> LocalPhaseView {
        match self {
            LocalPhase::Idle => LocalPhaseView::Idle,
            LocalPhase::Listing(path) => LocalPhaseView::Listing(path@),
            LocalPhase::Making(path) => LocalPhaseView::Making(path@),
            LocalPhase::Removing(paths, at) => LocalPhaseView::Removing(
                paths.deep_view(),
                *at as int,
            ),
            LocalPhase::Renaming(to) => LocalPhaseView::Renaming(to@),
        }
    }
}

/// What is to be done next in the local file system.
#[derive(Debug)]
pub enum LocalAction {
    /// Wait for the next command.
    Wait,
    /// List the directory.
    List(String),
    /// Make the directory, and those that it lies in.
    Make(String),
    /// Remove the file, or the directory with all that it holds.
    Delete(String),
    /// Rename the first path to the second.
    Rename(String, String),
}

/// What a [`LocalAction`] says.
#[verifier::ext_equal]
pub enum LocalActionView {
    Wait,
    List(Seq<char>),
    Make(Seq<char>),
    Delete(Seq<char>),
    Rename(Seq<char>, Seq<char>),
}

impl DeepView for LocalAction {
    type V = LocalActionView;

    open spec fn deep_view(&self) -> LocalActionView {
        match self {
            LocalAction::Wait => LocalActionView::Wait,
            LocalAction::List(path) => LocalActionView::List(path@),
            LocalAction::Make(path) => LocalActionView::Make(path@),
            LocalAction::Delete(path) => LocalActionView::Delete(path@),
            LocalAction::Rename(from, to) => LocalActionView::Rename(from@, to@),
        }
    }
}

/// What the local worker is told.
pub enum LocalReport {
    /// The next command.
    Command(LocalFsCommand),
    /// It succeeded.
    Done,
    /// The directory's entries.
    Entries(Vec<FileEntry>),
    /// It failed, with this message.
    Failed(String),
}

/// What a [`LocalReport`] says.
#[verifier::ext_equal]
pub enum LocalReportView {
    Command(LocalCommandView),
    Done,
    Entries(Seq<EntryView>),
    Failed(Seq<char>),
}

impl DeepView for LocalReport {
    type V = LocalReportView;

    open spec fn deep_view(&self) -> LocalReportView {
        match self {
            LocalReport::Command(cmd) => LocalReportView::Command(cmd.deep_view()),
            LocalReport::Done => LocalReportView::Done,
            LocalReport::Entries(entries) => LocalReportView::Entries(entries.deep_view()),
            LocalReport::Failed(text) => LocalReportView::Failed(text@),
        }
    }
}

/// What the local worker says: the event to show, if any, and what is to be done next.
#[derive(Debug)]
pub struct LocalReply {
    pub event: Option<FtpEvent>,
    pub action: LocalAction,
}

/// What a [`LocalReply`] says.
#[verifier::ext_equal]
pub struct LocalReplyView {
    pub event: Option<EventView>,
    pub action: LocalActionView,
}

impl DeepView for LocalReply {
    type V = LocalReplyView;

    open spec fn deep_view(&self) -> LocalReplyView {
        LocalReplyView { event: self.event.deep_view(), action: self.action.deep_view() }
    }
}

/// The local worker, on a machine with paths of one kind.
pub struct LocalWorker {
    kind: PathKind,
    phase: LocalPhase,
}

/// What a [`LocalWorker`] knows: the kind of paths that the machine has, and what it waits for.
#[verifier::ext_equal]
pub struct LocalWorkerView {
    pub kind: PathKind,
    pub phase: LocalPhaseView,
}

impl View for LocalWorker {
    type V = LocalWorkerView;

    closed spec fn view(&self) -> LocalWorkerView {
        LocalWorkerView { kind: self.kind, phase: self.phase.deep_view() }
    }
}

impl LocalPhaseView {
    /// Whether the parts fit together.
    pub open spec fn wf(self) -> bool {
        match self {
            LocalPhaseView::Removing(paths, at) => 0 <= at < paths.len(),
            _ => true,
        }
    }

    /// Whether the worker waits for such a report.
    pub open spec fn expects(self, report: LocalReportView) -> bool {
        match self {
            LocalPhaseView::Idle => report is Command,
            LocalPhaseView::Listing(path) => report is Entries || report is Failed,
            _ => report is Done || report is Failed,
        }
    }
}

/// The directory that is listed anew once `path` changed: the one that holds it, or it itself
/// where there is none.
pub open spec fn refresh_target(kind: PathKind, path: Seq<char>) -> Seq<char> {
    match crate::local::parent_of(kind, path) {
        Some(dir) => dir,
        None => path,
    }
}

/// A directory is listed.
pub open spec fn listing_next(path: Seq<char>, event: Option<EventView>) -> (
    LocalPhaseView,
    LocalReplyView,
) {
    (
        LocalPhaseView::Listing(path),
        LocalReplyView { event, action: LocalActionView::List(path) },
    )
}

/// The command is done with.
pub open spec fn waiting_next(event: Option<EventView>) -> (LocalPhaseView, LocalReplyView) {
    (LocalPhaseView::Idle, LocalReplyView { event, action: LocalActionView::Wait })
}

/// The path at `at`, and those behind it, are removed; then the directory of the first is listed.
pub open spec fn deleting_next(
    kind: PathKind,
    paths: Seq<Seq<char>>,
    at: int,
    event: Option<EventView>,
) -> (LocalPhaseView, LocalReplyView) {
    if at < paths.len() {
        (
            LocalPhaseView::Removing(paths, at),
            LocalReplyView { event, action: LocalActionView::Delete(paths[at]) },
        )
    } else if paths.len() > 0 {
        listing_next(refresh_target(kind, paths[0]), event)
    } else {
        waiting_next(event)
    }
}

/// What the local worker does with a report.
pub open spec fn local_step(kind: PathKind, phase: LocalPhaseView, report: LocalReportView) -> (
    LocalPhaseView,
    LocalReplyView,
) {
    match (phase, report) {
        (LocalPhaseView::Idle, LocalReportView::Command(cmd)) => match cmd {
            LocalCommandView::List { path } => listing_next(path, None),
            LocalCommandView::Mkdir { path } => (
                LocalPhaseView::Making(path),
                LocalReplyView { event: None, action: LocalActionView::Make(path) },
            ),
            LocalCommandView::Delete { paths } => deleting_next(kind, paths, 0, None),
            LocalCommandView::Rename { from, to } => (
                LocalPhaseView::Renaming(to),
                LocalReplyView { event: None, action: LocalActionView::Rename(from, to) },
            ),
        },
        (LocalPhaseView::Listing(path), LocalReportView::Entries(entries)) => waiting_next(
            Some(EventView::LocalListing { path, entries }),
        ),
        (LocalPhaseView::Listing(path), LocalReportView::Failed(text)) => waiting_next(
            Some(failure("本地目录"@, text)),
        ),
        (LocalPhaseView::Making(path), LocalReportView::Done) => listing_next(
            refresh_target(kind, path),
            None,
        ),
        (LocalPhaseView::Making(path), LocalReportView::Failed(text)) => waiting_next(
            Some(failure("本地新建目录"@, text)),
        ),
        (LocalPhaseView::Removing(paths, at), LocalReportView::Done) => deleting_next(
            kind,
            paths,
            at + 1,
            None,
        ),
        (LocalPhaseView::Removing(paths, at), LocalReportView::Failed(text)) => deleting_next(
            kind,
            paths,
            at + 1,
            Some(failure("本地删除"@, text)),
        ),
        (LocalPhaseView::Renaming(to), LocalReportView::Done) => listing_next(
            refresh_target(kind, to),
            None,
        ),
        (LocalPhaseView::Renaming(to), LocalReportView::Failed(text)) => waiting_next(
            Some(failure("本地重命名"@, text)),
        ),
        _ => waiting_next(None),
    }
}

impl LocalWorker {
    /// A worker that waits for a command.
    pub fn new(kind: PathKind) -> (r: Self)
        ensures
            r@ == (LocalWorkerView { kind, phase: LocalPhaseView::Idle }),
            r@.phase.wf(),
    {
        LocalWorker { kind, phase: LocalPhase::Idle }
    }

    fn list(&mut self, path: String, event: Option<FtpEvent>) -> (r: LocalReply)
        ensures
            final(self)@.kind == old(self)@.kind,
            (final(self)@.phase, r.deep_view()) == listing_next(path@, event.deep_view()),
    {
        self.phase = LocalPhase::Listing(path.clone());
        LocalReply { event, action: LocalAction::List(path) }
    }

    fn refresh(&mut self, path: &str, event: Option<FtpEvent>) -> (r: LocalReply)
        ensures
            final(self)@.kind == old(self)@.kind,
            (final(self)@.phase, r.deep_view()) == listing_next(
                refresh_target(old(self)@.kind, path@),
                event.deep_view(),
            ),
    {
        let target = match parent(self.kind, path) {
            Some(dir) => dir,
            None => path.to_string(),
        };
        self.list(target, event)
    }

    fn wait(&mut self, event: Option<FtpEvent>) -> (r: LocalReply)
        ensures
            final(self)@.kind == old(self)@.kind,
            (final(self)@.phase, r.deep_view()) == waiting_next(event.deep_view()),
    {
        self.phase = LocalPhase::Idle;
        LocalReply { event, action: LocalAction::Wait }
    }

    fn fail(&mut self, context: &str, text: String) -> (r: LocalReply)
        ensures
            final(self)@.kind == old(self)@.kind,
            (final(self)@.phase, r.deep_view()) == waiting_next(Some(failure(context@, text@))),
    {
        self.wait(Some(error_event(context, text)))
    }

    fn delete(&mut self, paths: Vec<String>, at: usize, event: Option<FtpEvent>) -> (r: LocalReply)
        ensures
            final(self)@.kind == old(self)@.kind,
            (final(self)@.phase, r.deep_view()) == deleting_next(
                old(self)@.kind,
                paths.deep_view(),
                at as int,
                event.deep_view(),
            ),
    {
        let ghost all = paths.deep_view();
        if at < paths.len() {
            let path = paths[at].clone();
            assert(path@ == all[at as int]);
            self.phase = LocalPhase::Removing(paths, at);
            LocalReply { event, action: LocalAction::Delete(path) }
        } else if paths.len() > 0 {
            assert(paths@[0]@ == all[0]);
            self.refresh(paths[0].as_str(), event)
        } else {
            self.wait(event)
        }
    }

    fn delete_next(
        &mut self,
        paths: Vec<String>,
        at: usize,
        event: Option<FtpEvent>,
    ) -> (r: LocalReply)
        requires
            at < paths@.len(),
        ensures
            final(self)@.kind == old(self)@.kind,
            (final(self)@.phase, r.deep_view()) == deleting_next(
                old(self)@.kind,
                paths.deep_view(),
                at + 1,
                event.deep_view(),
            ),
    {
        let n: usize = paths.len();
        assert(at < n);
        self.delete(paths, at + 1, event)
    }

    fn begin(&mut self, cmd: LocalFsCommand) -> (r: LocalReply)
        ensures
            final(self)@.kind == old(self)@.kind,
            (final(self)@.phase, r.deep_view()) == local_step(
                old(self)@.kind,
                LocalPhaseView::Idle,
                LocalReportView::Command(cmd.deep_view()),
            ),
    {
        match cmd {
            LocalFsCommand::List { path } => self.list(path, None),
            LocalFsCommand::Mkdir { path } => {
                self.phase = LocalPhase::Making(path.clone());
                LocalReply { event: None, action: LocalAction::Make(path) }
            },
            LocalFsCommand::Delete { paths } => self.delete(paths, 0, None),
            LocalFsCommand::Rename { from, to } => {
                self.phase = LocalPhase::Renaming(to.clone());
                LocalReply { event: None, action: LocalAction::Rename(from, to) }
            },
        }
    }

    /// Takes a command, or the report on the last action, and says what is told and done next.
    pub fn step(&mut self, report: LocalReport) -> (r: LocalReply)
        requires
            old(self)@.phase.wf(),
            old(self)@.phase.expects(report.deep_view()),
        ensures
            final(self)@.kind == old(self)@.kind,
            (final(self)@.phase, r.deep_view()) == local_step(
                old(self)@.kind,
                old(self)@.phase,
                report.deep_view(),
            ),
            final(self)@.phase.wf(),
    {
        let mut phase = LocalPhase::Idle;
        std::mem::swap(&mut self.phase, &mut phase);
        match (phase, report) {
            (LocalPhase::Idle, LocalReport::Command(cmd)) => self.begin(cmd),
            (LocalPhase::Listing(path), LocalReport::Entries(entries)) => self.wait(
                Some(FtpEvent::LocalListing { path, entries }),
            ),
            (LocalPhase::Listing(_), LocalReport::Failed(text)) => self.fail("本地目录", text),
            (LocalPhase::Making(path), LocalReport::Done) => self.refresh(path.as_str(), None),
            (LocalPhase::Making(_), LocalReport::Failed(text)) => self.fail("本地新建目录", text),
            (LocalPhase::Removing(paths, at), LocalReport::Done) => self.delete_next(
                paths,
                at,
                None,
            ),
            (LocalPhase::Removing(paths, at), LocalReport::Failed(text)) => self.delete_next(
                paths,
                at,
                Some(error_event("本地删除", text)),
            ),
            (LocalPhase::Renaming(to), LocalReport::Done) => self.refresh(to.as_str(), None),
            (LocalPhase::Renaming(_), LocalReport::Failed(text)) => self.fail("本地重命名", text),
            _ => self.wait(None),
        }
    }
}

/// How many reports the local worker takes, at most, before it waits for the next command.
pub open spec fn local_reports_left(phase: LocalPhaseView) -> nat {
    match phase {
        LocalPhaseView::Idle => 0,
        LocalPhaseView::Listing(path) => 1,
        LocalPhaseView::Removing(paths, at) => (1 + paths.len() - at) as nat,
        _ => 2,
    }
}

/// Every local command comes to an end: each report brings the worker closer to the next command.
pub proof fn local_commands_come_to_an_end(
    kind: PathKind,
    phase: LocalPhaseView,
    report: LocalReportView,
)
    requires
        phase.wf(),
        phase.expects(report),
        phase != LocalPhaseView::Idle,
    ensures
        local_reports_left(local_step(kind, phase, report).0) < local_reports_left(phase),
        local_step(kind, phase, report).0 == LocalPhaseView::Idle <==> local_step(
            kind,
            phase,
            report,
        ).1.action == LocalActionView::Wait,
{
}

/// What changes a name's directory is followed by a listing of that directory: where a name was
/// made in a directory, removed from it, or something was renamed to it, that directory is
/// listed. On Windows the name has no prefix, and does not become a part of the prefix.
pub proof fn local_changes_are_listed(
    kind: PathKind,
    base: Seq<char>,
    name: Seq<char>,
    phase: LocalPhaseView,
)
    requires
        base.len() > 0,
        crate::local::is_name(kind, base, name),
        crate::local::prefix_len(kind, name) == 0,
        crate::local::prefix_len(kind, crate::local::joined(kind, base, name))
            == crate::local::prefix_len(kind, base),
        ({
            let path = crate::local::joined(kind, base, name);
            ||| phase == LocalPhaseView::Making(path)
            ||| phase == LocalPhaseView::Renaming(path)
            ||| phase == LocalPhaseView::Removing(seq![path], 0)
        }),
    ensures
        local_step(kind, phase, LocalReportView::Done).1.action == LocalActionView::List(
            crate::local::as_parent(kind, base),
        ),
{
    crate::local::parent_undoes_join(kind, base, name);
}

/// Every failure on the control connection is told in the words that came, and ends the command;
/// the session stays. Only a removal goes on: a path that is no file is tried as a directory, and
/// one that can be removed as neither is told.
pub proof fn control_failures_are_told(w: ControlView, text: Seq<char>)
    requires
        w.wf(),
        w.expects(ControlReportView::Failed(text)),
        w.phase != ControlPhaseView::Quitting,
    ensures
        ({
            let (next, reply) = control_step(w, ControlReportView::Failed(text));
            &&& next.has_session == w.has_session
            &&& match w.phase {
                ControlPhaseView::Removing(paths, at) => {
                    &&& reply.action == ControlActionView::RemoveDir(paths[at])
                    &&& reply.events.len() == 0
                },
                _ => {
                    &&& reply.events.len() == 1
                    &&& reply.events[0] matches EventView::Error { context, message } && message
                        == text
                    &&& w.phase is RemovingDir || reply.action is Wait
                },
            }
            &&& reply.queue.is_none()
        }),
{
}

/// Commands act on what they name: the directory that is to be entered, listed or made is the one
/// that was given, a renaming goes from the first name to the second, and transfers and
/// cancellations are handed to the queue as they are.
pub proof fn commands_act_on_what_they_name(w: ControlView, cmd: CommandView)
    requires
        w.phase == ControlPhaseView::Idle,
        w.has_session,
    ensures
        ({
            let (next, reply) = control_step(w, ControlReportView::Command(cmd));
            &&& reply.action == match cmd {
                CommandView::Connect(cfg) => ControlActionView::Connect(cfg),
                CommandView::List { path } => ControlActionView::List(Some(path)),
                CommandView::Navigate { path } => ControlActionView::Enter(path),
                CommandView::Mkdir { path } => ControlActionView::Make(path),
                CommandView::Rename { from, to } => ControlActionView::Rename(from, to),
                CommandView::Delete { paths } => if paths.len() > 0 {
                    ControlActionView::Remove(paths[0])
                } else {
                    ControlActionView::AskDir
                },
                CommandView::Quit => ControlActionView::Quit,
                _ => ControlActionView::Wait,
            }
            &&& reply.queue == match cmd {
                CommandView::EnqueueTransfers { tasks } => Some(QueueCommandView::Enqueue(tasks)),
                CommandView::CancelTask { task_id } => Some(QueueCommandView::Cancel(task_id)),
                _ => None,
            }
            &&& next.has_session == !(cmd is Quit)
            &&& next.wf()
        }),
{
}

/// A session that is opened is the one that was asked for: the queue connects as the worker did,
/// the window shows it, and the directory one arrived in is listed under its name.
pub proof fn connections_are_told(
    w: ControlView,
    cfg: ConfigView,
    path: Seq<char>,
    entries: Seq<EntryView>,
)
    requires
        w.phase == ControlPhaseView::Idle,
    ensures
        ({
            let (w1, r1) = control_step(w, ControlReportView::Command(CommandView::Connect(cfg)));
            let (w2, r2) = control_step(w1, ControlReportView::Done);
            let (w3, r3) = control_step(w2, ControlReportView::Dir(path));
            let (w4, r4) = control_step(w3, ControlReportView::Entries(entries));
            &&& r1.action == ControlActionView::Connect(cfg)
            &&& r1.queue.is_none()
            &&& w1.has_session == w.has_session
            &&& w2.has_session
            &&& r2.queue == Some(QueueCommandView::SetConfig(cfg))
            &&& r2.events.contains(EventView::Connected)
            &&& r2.action == ControlActionView::AskDir
            &&& r3.action == ControlActionView::List(None)
            &&& r4.events == seq![EventView::Listing { path, entries }]
            &&& w4 == (ControlView { has_session: true, phase: ControlPhaseView::Idle })
        }),
{
    let (w1, r1) = control_step(w, ControlReportView::Command(CommandView::Connect(cfg)));
    let (w2, r2) = control_step(w1, ControlReportView::Done);
    assert(r2.events[1] == EventView::Connected);
}

/// A directory is shown under the path that was asked for, with the entries that came.
pub proof fn listings_are_shown_as_they_came(
    w: ControlView,
    path: Seq<char>,
    entries: Seq<EntryView>,
)
    requires
        w.phase == ControlPhaseView::Idle,
        w.has_session,
    ensures
        ({
            let (w1, r1) = control_step(
                w,
                ControlReportView::Command(CommandView::List { path }),
            );
            let (w2, r2) = control_step(w1, ControlReportView::Entries(entries));
            &&& r2.events == seq![EventView::Listing { path, entries }]
            &&& w2 == w
        }),
{
}

/// Every path of a deletion has its turn, in order: once one is removed, or can be removed neither
/// as a file nor as a directory, the next one is removed, and after the last one the directory is
/// listed anew.
pub proof fn every_path_has_its_turn(
    w: ControlView,
    paths: Seq<Seq<char>>,
    at: int,
    report: ControlReportView,
)
    requires
        w.has_session,
        0 <= at < paths.len(),
        w.phase == ControlPhaseView::Removing(paths, at) || w.phase
            == ControlPhaseView::RemovingDir(paths, at),
        w.expects(report),
        w.phase is Removing ==> report is Done,
    ensures
        ({
            let (next, reply) = control_step(w, report);
            reply.action == if at + 1 < paths.len() {
                ControlActionView::Remove(paths[at + 1])
            } else {
                ControlActionView::AskDir
            } && (report is Done ==> reply.events.len() == 0) && next.has_session && (at + 1 < paths.len() ==> next.phase == ControlPhaseView::Removing(paths, at + 1))
        }),
{
}

/// The end of a session is told, whatever came of it, and there is none afterwards.
pub proof fn sessions_end_when_told(w: ControlView, report: ControlReportView)
    requires
        w.phase == ControlPhaseView::Idle,
        report is Done || report is Failed,
    ensures
        ({
            let (w1, r1) = control_step(w, ControlReportView::Command(CommandView::Quit));
            let (w2, r2) = if w.has_session {
                control_step(w1, report)
            } else {
                (w1, r1)
            };
            &&& r1.action == if w.has_session {
                ControlActionView::Quit
            } else {
                ControlActionView::Wait
            }
            &&& r2.events.len() == 1 && r2.events[0] is Disconnected
            &&& w2 == (ControlView { has_session: false, phase: ControlPhaseView::Idle })
        }),
{
}

/// Local commands act on what they name, and every path of a deletion has its turn.
pub proof fn local_commands_act_on_what_they_name(kind: PathKind, cmd: LocalCommandView)
    ensures
        ({
            let (next, reply) = local_step(
                kind,
                LocalPhaseView::Idle,
                LocalReportView::Command(cmd),
            );
            reply.action == match cmd {
                LocalCommandView::List { path } => LocalActionView::List(path),
                LocalCommandView::Mkdir { path } => LocalActionView::Make(path),
                LocalCommandView::Rename { from, to } => LocalActionView::Rename(from, to),
                LocalCommandView::Delete { paths } => if paths.len() > 0 {
                    LocalActionView::Delete(paths[0])
                } else {
                    LocalActionView::Wait
                },
            } && next.wf() && reply.event.is_none()
        }),
{
}

/// What fails in the local file system is told in the words that came; only a deletion goes on.
/// What is listed is shown as it came, under the path that was listed.
pub proof fn local_reports_are_told(
    kind: PathKind,
    cmd: LocalCommandView,
    report: LocalReportView,
)
    requires
        local_step(kind, LocalPhaseView::Idle, LocalReportView::Command(cmd)).0.expects(report),
        !(local_step(kind, LocalPhaseView::Idle, LocalReportView::Command(cmd)).0 is Idle),
    ensures
        ({
            let phase = local_step(kind, LocalPhaseView::Idle, LocalReportView::Command(cmd)).0;
            let (next, reply) = local_step(kind, phase, report);
            &&& report matches LocalReportView::Failed(text) ==> {
                &&& reply.event matches Some(EventView::Error { context, message }) && message
                    == text
                &&& cmd is Delete || reply.action is Wait
            }
            &&& report matches LocalReportView::Entries(entries) ==> (cmd matches
                LocalCommandView::List { path } && reply.event == Some(
                EventView::LocalListing { path, entries },
            ))
            &&& report is Done ==> reply.event.is_none()
            &&& cmd matches LocalCommandView::Delete { paths } ==> (paths.len() > 1
                ==> reply.action == LocalActionView::Delete(paths[1]))
        }),
{
}

/// Every path of a local deletion has its turn, in order, and then the directory of the first one
/// is listed anew.
pub proof fn every_local_path_has_its_turn(
    kind: PathKind,
    paths: Seq<Seq<char>>,
    at: int,
    report: LocalReportView,
)
    requires
        0 <= at < paths.len(),
        report is Done || report is Failed,
    ensures
        ({
            let (next, reply) = local_step(kind, LocalPhaseView::Removing(paths, at), report);
            if at + 1 < paths.len() {
                &&& reply.action == LocalActionView::Delete(paths[at + 1])
                &&& next == LocalPhaseView::Removing(paths, at + 1)
            } else {
                reply.action == LocalActionView::List(
                    match crate::local::parent_of(kind, paths[0]) {
                        Some(dir) => dir,
                        None => paths[0],
                    },
                )
            }
        }),
{
}

/// What was made or renamed, and where one connects to, is said in the log.
pub proof fn changes_are_said_in_the_log(
    w: ControlView,
    a: Seq<char>,
    b: Seq<char>,
    cfg: ConfigView,
)
    requires
        w.has_session,
    ensures
        ({
            let said = |w: ControlView, report: ControlReportView, text: Seq<char>|
                control_step(w, report).1.events == seq![
                    EventView::LogLine { dir: LogDir::Info, text },
                ];
            &&& said(
                ControlView { phase: ControlPhaseView::Making(a), ..w },
                ControlReportView::Done,
                "已创建目录 "@ + a,
            )
            &&& said(
                ControlView { phase: ControlPhaseView::Renaming(a, b), ..w },
                ControlReportView::Done,
                "已重命名 "@ + a + " → "@ + b,
            )
            &&& said(
                ControlView { phase: ControlPhaseView::Idle, ..w },
                ControlReportView::Command(CommandView::Connect(cfg)),
                "正在连接 "@ + (cfg.host + seq![':'] + crate::text::decimal(cfg.port as int))
                    + " …"@,
            )
        }),
{
}

/// A failure is told together with what was tried.
pub proof fn failures_name_what_was_tried(
    w: ControlView,
    kind: PathKind,
    phase: LocalPhaseView,
    text: Seq<char>,
)
    requires
        w.wf(),
        w.expects(ControlReportView::Failed(text)),
        phase.wf(),
        phase.expects(LocalReportView::Failed(text)),
    ensures
        ({
            let events = control_step(w, ControlReportView::Failed(text)).1.events;
            let told = |context: Seq<char>|
                events == seq![EventView::Error { context, message: text }];
            match w.phase {
                ControlPhaseView::Connecting(_) => told("连接"@),
                ControlPhaseView::Listing(_) => told("列目录"@),
                ControlPhaseView::Refreshing(_) => told("列目录"@),
                ControlPhaseView::Entering => told("进入目录"@),
                ControlPhaseView::Making(_) => told("新建目录"@),
                ControlPhaseView::RemovingDir(_, _) => told("删除"@),
                ControlPhaseView::Renaming(_, _) => told("重命名"@),
                ControlPhaseView::Locating => told("获取当前目录"@),
                _ => true,
            }
        }),
        ({
            let event = local_step(kind, phase, LocalReportView::Failed(text)).1.event;
            let told = |context: Seq<char>|
                event == Some(EventView::Error { context, message: text });
            match phase {
                LocalPhaseView::Listing(_) => told("本地目录"@),
                LocalPhaseView::Making(_) => told("本地新建目录"@),
                LocalPhaseView::Removing(_, _) => told("本地删除"@),
                LocalPhaseView::Renaming(_) => told("本地重命名"@),
                LocalPhaseView::Idle => true,
            }
        }),
{
}

/// What needs no server is answered without one: a test comes back in the log, modes are not
/// changed yet, and ending a session that is not there is told as the end of one. Who logged in is
/// said once the session is there.
pub proof fn answers_need_no_server(
    w: ControlView,
    path: Seq<char>,
    mode: Seq<char>,
    cfg: ConfigView,
)
    requires
        w.phase == ControlPhaseView::Idle,
    ensures
        ({
            let asked = |cmd: CommandView| control_step(w, ControlReportView::Command(cmd));
            let answer = |events: Seq<EventView>|
                (
                    w,
                    ControlReplyView { events, queue: None, action: ControlActionView::Wait },
                );
            &&& asked(CommandView::Ping) == answer(
                seq![
                    EventView::LogLine {
                        dir: LogDir::Info,
                        text: "pong：worker → invoke_from_event_loop 事件回流 OK"@,
                    },
                ],
            )
            &&& asked(CommandView::Chmod { path, mode }) == answer(
                seq![EventView::Error { context: "CHMOD"@, message: "将在 M5 提供"@ }],
            )
            &&& !w.has_session ==> asked(CommandView::Quit) == answer(
                seq![EventView::Disconnected { reason: "已主动断开"@ }],
            )
            &&& control_step(
                ControlView { phase: ControlPhaseView::Connecting(cfg), ..w },
                ControlReportView::Done,
            ).1.events == seq![
                EventView::LogLine { dir: LogDir::Info, text: "登录成功："@ + cfg.user },
                EventView::Connected,
            ]
        }),
{
}

} // verus!
